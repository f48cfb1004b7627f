use vstd::prelude::*;

use crate::bridge::hash_of;
use crate::bridge::pow_valid;
use crate::codec::lemma_parse_of_log;
use crate::codec::spec_parse;
use crate::store::accepted_len;
use crate::store::accepts;
use crate::store::connects;
use crate::store::lemma_accepted_len_bounds;
use crate::store::HeaderStore;
use crate::types::HeaderData;

verus! {

/// Round trip: the bytes a well-formed store persists parse back to
/// exactly its chain, so a store reopened from them holds the same
/// headers — the same height, the same tip, the same tip hash.
pub proof fn lemma_reopen_roundtrip(s: HeaderStore)
    requires
        s.wf(),
    ensures
        spec_parse(s.log_view()) == Some(s.chain()),
{
    lemma_parse_of_log(s.chain());
}

/// Round trip, store to store: a store opened from the bytes another
/// well-formed store persisted holds the same chain, so its height and
/// its tip hash are the same.
pub proof fn lemma_reopen_same_chain(s1: HeaderStore, s2: HeaderStore)
    requires
        s1.wf(),
        spec_parse(s1.log_view()) == Some(s2.chain()),
    ensures
        s2.chain() == s1.chain(),
        s2.chain().len() == s1.chain().len(),
{
    lemma_reopen_roundtrip(s1);
}

/// Connectivity enforcement: a batch whose first candidate does not
/// declare the current tip's hash as its predecessor has no candidate
/// accepted, so an append of it leaves the chain — and the height —
/// unchanged.
pub proof fn lemma_disconnected_refused(ch: Seq<HeaderData>, hs: Seq<HeaderData>)
    requires
        hs.len() > 0,
        !connects(ch, hs[0]),
    ensures
        accepted_len(ch, hs) == 0,
        ch + hs.subrange(0, accepted_len(ch, hs)) == ch,
{
    assert(ch + hs.subrange(0, 0) =~= ch);
}

/// Proof-of-work enforcement: a batch whose first candidate's hash does
/// not satisfy its own declared target has no candidate accepted, so an
/// append of it leaves the chain — and the height — unchanged.
pub proof fn lemma_bad_pow_refused(ch: Seq<HeaderData>, hs: Seq<HeaderData>)
    requires
        hs.len() > 0,
        !pow_valid(hs[0]),
    ensures
        accepted_len(ch, hs) == 0,
        ch + hs.subrange(0, accepted_len(ch, hs)) == ch,
{
    assert(ch + hs.subrange(0, 0) =~= ch);
}

/// Pairwise validity of a whole chain: every header after the first
/// declares its predecessor's hash, and every header satisfies its own
/// declared target.
pub open spec fn valid_chain(ch: Seq<HeaderData>) -> bool {
    &&& forall|i: int| 0 < i < ch.len() ==> #[trigger] ch[i].prev == hash_of(ch[i - 1])
    &&& forall|i: int| 0 <= i < ch.len() ==> pow_valid(#[trigger] ch[i])
}

/// Appending preserves chain validity: whatever prefix of a batch the
/// store accepts on top of a pairwise-valid chain, the extended chain is
/// pairwise valid again.
pub proof fn lemma_append_keeps_chain_valid(ch: Seq<HeaderData>, hs: Seq<HeaderData>)
    requires
        valid_chain(ch),
    ensures
        valid_chain(ch + hs.subrange(0, accepted_len(ch, hs))),
    decreases hs.len(),
{
    lemma_accepted_len_bounds(ch, hs);
    let k = accepted_len(ch, hs);
    if hs.len() == 0 || !accepts(ch, hs[0]) {
        assert(ch + hs.subrange(0, 0) =~= ch);
    } else {
        let ch2 = ch.push(hs[0]);
        let tl = hs.subrange(1, hs.len() as int);
        assert forall|i: int| 0 < i < ch2.len() implies #[trigger] ch2[i].prev == hash_of(
            ch2[i - 1],
        ) by {
            if i < ch.len() {
                assert(ch2[i] == ch[i]);
            } else {
                assert(ch2[i] == hs[0]);
                assert(ch.last() == ch[i - 1]);
            }
        }
        assert(valid_chain(ch2));
        lemma_append_keeps_chain_valid(ch2, tl);
        lemma_accepted_len_bounds(ch2, tl);
        assert(ch + hs.subrange(0, k) =~= ch2 + tl.subrange(0, accepted_len(ch2, tl)));
    }
}

} // verus!
