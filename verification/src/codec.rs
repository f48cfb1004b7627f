use vstd::prelude::*;

use crate::types::HeaderData;
use crate::types::wf_data;
use vstd::bytes::lemma_auto_spec_u32_to_from_le_bytes;
use vstd::bytes::spec_u32_from_le_bytes;
use vstd::bytes::spec_u32_to_le_bytes;

verus! {

/// Serialized size of one header: version, previous hash, merkle root,
/// time, bits, nonce.
pub const HEADER_SIZE: usize = 80;

/// Size of one record of the log: a 4-byte little-endian length prefix
/// followed by the 80-byte header encoding.
pub const RECORD_SIZE: usize = 84;

/// The consensus encoding of a header: every numeric field in
/// little-endian order, the two digests as raw bytes.
pub open spec fn spec_encode_header(h: HeaderData) -> Seq<u8> {
    spec_u32_to_le_bytes(h.version) + h.prev + h.merkle + spec_u32_to_le_bytes(h.time)
        + spec_u32_to_le_bytes(h.bits) + spec_u32_to_le_bytes(h.nonce)
}

/// The header whose encoding is the 80-byte sequence `b`.
pub open spec fn spec_decode_header(b: Seq<u8>) -> HeaderData
    recommends
        b.len() == HEADER_SIZE,
{
    HeaderData {
        version: spec_u32_from_le_bytes(b.subrange(0, 4)),
        prev: b.subrange(4, 36),
        merkle: b.subrange(36, 68),
        time: spec_u32_from_le_bytes(b.subrange(68, 72)),
        bits: spec_u32_from_le_bytes(b.subrange(72, 76)),
        nonce: spec_u32_from_le_bytes(b.subrange(76, 80)),
    }
}

/// One record of the persisted log: the length of the payload as a
/// 4-byte little-endian prefix, then the payload itself.
pub open spec fn spec_record(h: HeaderData) -> Seq<u8> {
    spec_u32_to_le_bytes(HEADER_SIZE as u32) + spec_encode_header(h)
}

/// The whole persisted log of a chain: its records, front to back, in
/// chain order.
pub open spec fn spec_log(hs: Seq<HeaderData>) -> Seq<u8>
    decreases hs.len(),
{
    if hs.len() == 0 {
        Seq::empty()
    } else {
        spec_record(hs[0]) + spec_log(hs.subrange(1, hs.len() as int))
    }
}

/// Reading the log front to back: `Some` exactly when the bytes fall
/// into whole records and every payload is a header encoding; end of
/// input anywhere but a record boundary, or a payload of the wrong
/// size, is a malformed log.
pub open spec fn spec_parse(d: Seq<u8>) -> Option<Seq<HeaderData>>
    decreases d.len(),
{
    if d.len() == 0 {
        Some(Seq::empty())
    } else if d.len() < 4 {
        None
    } else {
        let l = spec_u32_from_le_bytes(d.subrange(0, 4)) as int;
        if l != HEADER_SIZE {
            None
        } else if d.len() < 4 + l {
            None
        } else {
            let h = spec_decode_header(d.subrange(4, RECORD_SIZE as int));
            match spec_parse(d.subrange(RECORD_SIZE as int, d.len() as int)) {
                Some(rest) => Some(seq![h] + rest),
                None => None,
            }
        }
    }
}

/// A well-formed header's encoding is exactly 80 bytes.
pub proof fn lemma_encode_len(h: HeaderData)
    requires
        wf_data(h),
    ensures
        spec_encode_header(h).len() == HEADER_SIZE,
{
    lemma_auto_spec_u32_to_from_le_bytes();
}

/// Decoding inverts encoding: a well-formed header is recovered from its
/// own 80 bytes.
pub proof fn lemma_decode_of_encode(h: HeaderData)
    requires
        wf_data(h),
    ensures
        spec_decode_header(spec_encode_header(h)) == h,
{
    lemma_auto_spec_u32_to_from_le_bytes();
    let b = spec_encode_header(h);
    assert(b.subrange(0, 4) =~= spec_u32_to_le_bytes(h.version));
    assert(b.subrange(4, 36) =~= h.prev);
    assert(b.subrange(36, 68) =~= h.merkle);
    assert(b.subrange(68, 72) =~= spec_u32_to_le_bytes(h.time));
    assert(b.subrange(72, 76) =~= spec_u32_to_le_bytes(h.bits));
    assert(b.subrange(76, 80) =~= spec_u32_to_le_bytes(h.nonce));
    assert(spec_decode_header(b) =~= h);
}

/// Encoding inverts decoding: any 80 bytes are the encoding of the
/// header they decode to.
pub proof fn lemma_encode_of_decode(b: Seq<u8>)
    requires
        b.len() == HEADER_SIZE,
    ensures
        wf_data(spec_decode_header(b)),
        spec_encode_header(spec_decode_header(b)) == b,
{
    lemma_auto_spec_u32_to_from_le_bytes();
    assert(spec_encode_header(spec_decode_header(b)) =~= b);
}

/// Appending one header extends the log by exactly that header's record.
pub proof fn lemma_log_push(hs: Seq<HeaderData>, h: HeaderData)
    ensures
        spec_log(hs.push(h)) == spec_log(hs) + spec_record(h),
    decreases hs.len(),
{
    if hs.len() == 0 {
        let p = hs.push(h);
        assert(p[0] == h);
        assert(p.subrange(1, 1) =~= Seq::<HeaderData>::empty());
        assert(spec_log(p.subrange(1, 1)) == Seq::<u8>::empty());
        assert(spec_log(p) == spec_record(h) + Seq::<u8>::empty());
        assert(spec_log(p) =~= spec_log(hs) + spec_record(h));
    } else {
        let tail = hs.subrange(1, hs.len() as int);
        assert(hs.push(h).subrange(1, hs.len() as int + 1) =~= tail.push(h));
        lemma_log_push(tail, h);
        assert(spec_log(hs.push(h)) =~= spec_log(hs) + spec_record(h));
    }
}

/// Parsing inverts persisting: the log of a chain reads back as exactly
/// that chain.
pub proof fn lemma_parse_of_log(hs: Seq<HeaderData>)
    requires
        forall|i: int| 0 <= i < hs.len() ==> wf_data(#[trigger] hs[i]),
    ensures
        spec_parse(spec_log(hs)) == Some(hs),
    decreases hs.len(),
{
    lemma_auto_spec_u32_to_from_le_bytes();
    let d = spec_log(hs);
    if hs.len() == 0 {
        assert(hs =~= Seq::<HeaderData>::empty());
    } else {
        let tail = hs.subrange(1, hs.len() as int);
        lemma_encode_len(hs[0]);
        assert(d == spec_record(hs[0]) + spec_log(tail));
        assert(d.len() >= RECORD_SIZE);
        assert(d.subrange(0, 4) =~= spec_u32_to_le_bytes(HEADER_SIZE as u32));
        assert(spec_u32_from_le_bytes(d.subrange(0, 4)) == HEADER_SIZE as u32);
        assert(d.subrange(4, RECORD_SIZE as int) =~= spec_encode_header(hs[0]));
        lemma_decode_of_encode(hs[0]);
        assert(d.subrange(RECORD_SIZE as int, d.len() as int) =~= spec_log(tail));
        assert(forall|i: int| 0 <= i < tail.len() ==> wf_data(#[trigger] tail[i]));
        lemma_parse_of_log(tail);
        assert(seq![hs[0]] + tail =~= hs);
    }
}

/// Persisting inverts parsing: a log that reads back as a chain is that
/// chain's log, and every header read back is well formed.
pub proof fn lemma_log_of_parse(d: Seq<u8>)
    requires
        spec_parse(d) is Some,
    ensures
        spec_log(spec_parse(d)->Some_0) == d,
        forall|i: int|
            0 <= i < spec_parse(d)->Some_0.len() ==> wf_data(#[trigger] spec_parse(d)->Some_0[i]),
    decreases d.len(),
{
    lemma_auto_spec_u32_to_from_le_bytes();
    let hs = spec_parse(d)->Some_0;
    if d.len() == 0 {
        assert(spec_log(hs) =~= d);
    } else {
        let payload = d.subrange(4, RECORD_SIZE as int);
        let h = spec_decode_header(payload);
        let rest_bytes = d.subrange(RECORD_SIZE as int, d.len() as int);
        let rest = spec_parse(rest_bytes)->Some_0;
        lemma_encode_of_decode(payload);
        lemma_log_of_parse(rest_bytes);
        assert(hs == seq![h] + rest);
        assert(hs[0] == h);
        assert(hs.subrange(1, hs.len() as int) =~= rest);
        assert(spec_u32_to_le_bytes(HEADER_SIZE as u32) =~= d.subrange(0, 4));
        assert(spec_log(hs) == spec_record(h) + spec_log(rest));
        assert(spec_log(hs) =~= d);
    }
}

/// Header encodings are distinct for distinct well-formed headers.
pub proof fn lemma_encode_injective(h1: HeaderData, h2: HeaderData)
    requires
        wf_data(h1),
        wf_data(h2),
        spec_encode_header(h1) == spec_encode_header(h2),
    ensures
        h1 == h2,
{
    lemma_decode_of_encode(h1);
    lemma_decode_of_encode(h2);
}

} // verus!
