use vstd::prelude::*;

use crate::bridge::block_hash;
use crate::bridge::decode_header;
use crate::bridge::encode_header;
use crate::bridge::genesis_hash;
use crate::bridge::genesis_hash_of;
use crate::bridge::has_valid_pow;
use crate::bridge::hash_of;
use crate::bridge::pow_valid;
use crate::codec::lemma_encode_injective;
use crate::codec::lemma_encode_len;
use crate::codec::lemma_encode_of_decode;
use crate::codec::lemma_log_of_parse;
use crate::codec::lemma_log_push;
use crate::codec::spec_decode_header;
use crate::codec::spec_log;
use crate::codec::spec_parse;
use crate::codec::spec_record;
use crate::codec::HEADER_SIZE;
use crate::codec::RECORD_SIZE;
use crate::types::lemma_views_push;
use crate::types::views;
use crate::types::wf_data;
use crate::types::Header;
use crate::types::HeaderData;
use crate::types::Network;
use crate::types::StoreError;
use vstd::bytes::u32_from_le_bytes;
use vstd::bytes::u32_to_le_bytes;
use vstd::string::StringExecFns;

verus! {

/// The locator never reports more than this many recent hashes.
pub const MAX_LOCATOR_HASHES: usize = 10;

/// A persistent, append-only store for a linear chain of proof-of-work
/// block headers.  The in-memory sequence of headers is mirrored, record
/// by record, by the byte log that the caller persists; `network` only
/// selects the genesis hash reported by an empty store's locator.
#[derive(Debug)]
pub struct HeaderStore {
    path: String,
    headers: Vec<Header>,
    network: Network,
    log: Vec<u8>,
}

/// Whether a candidate header may follow the given chain: always, for an
/// empty chain; otherwise exactly when its declared predecessor is the
/// hash of the chain's tip.
pub open spec fn connects(chain: Seq<HeaderData>, h: HeaderData) -> bool {
    chain.len() == 0 || h.prev == hash_of(chain.last())
}

/// Whether the store accepts a candidate header on top of the given
/// chain: it must connect and its hash must satisfy its own declared
/// target.
pub open spec fn accepts(chain: Seq<HeaderData>, h: HeaderData) -> bool {
    connects(chain, h) && pow_valid(h)
}

/// How many leading candidates of a batch the store accepts on top of a
/// chain: each accepted header joins the chain that the next candidate
/// is judged against, and the first refused candidate stops the batch.
pub open spec fn accepted_len(chain: Seq<HeaderData>, hs: Seq<HeaderData>) -> int
    decreases hs.len(),
{
    if hs.len() == 0 {
        0
    } else if accepts(chain, hs[0]) {
        1 + accepted_len(chain.push(hs[0]), hs.subrange(1, hs.len() as int))
    } else {
        0
    }
}

/// The batch never accepts fewer than none nor more than all candidates.
pub proof fn lemma_accepted_len_bounds(chain: Seq<HeaderData>, hs: Seq<HeaderData>)
    ensures
        0 <= accepted_len(chain, hs) <= hs.len(),
    decreases hs.len(),
{
    if hs.len() > 0 && accepts(chain, hs[0]) {
        lemma_accepted_len_bounds(chain.push(hs[0]), hs.subrange(1, hs.len() as int));
    }
}

impl HeaderStore {
    /// The mathematical chain this store holds, oldest first.
    pub closed spec fn chain(self) -> Seq<HeaderData> {
        views(self.headers@)
    }

    /// The network identity the store was opened with.
    pub closed spec fn spec_network(self) -> Network {
        self.network
    }

    /// The path the store was opened with.
    pub closed spec fn spec_path(self) -> Seq<char> {
        self.path@
    }

    /// The bytes of the persisted log the store mirrors.
    pub closed spec fn log_view(self) -> Seq<u8> {
        self.log@
    }

    /// Well-formedness: the byte log is exactly the chain's records, and
    /// every held header model has 32-byte digests.
    pub open spec fn wf(self) -> bool {
        &&& self.log_view() == spec_log(self.chain())
        &&& forall|i: int| 0 <= i < self.chain().len() ==> wf_data(#[trigger] self.chain()[i])
    }

    /// Current height of the stored chain: the number of headers held.
    pub fn height(&self) -> (r: u64)
        ensures
            r as int == self.chain().len(),
    {
        self.headers.len() as u64
    }

    /// The most recently appended header, if any.
    pub fn _tip(&self) -> (r: Option<&Header>)
        ensures
            match r {
                Some(h) => self.chain().len() > 0 && h@ == self.chain().last(),
                None => self.chain().len() == 0,
            },
    {
        if self.headers.len() == 0 {
            None
        } else {
            Some(&self.headers[self.headers.len() - 1])
        }
    }

    /// The bytes that persist this store's chain: what the backing file
    /// must hold once every append so far has been flushed.
    pub fn log_bytes(&self) -> (r: &Vec<u8>)
        ensures
            r@ == self.log_view(),
    {
        &self.log
    }
}

/// A parse outcome seen after some headers were already read: a failure
/// stays a failure, a success stands behind the headers read so far.
spec fn parsed_after(a: Seq<HeaderData>, o: Option<Seq<HeaderData>>) -> Option<Seq<HeaderData>> {
    match o {
        Some(r) => Some(a + r),
        None => None,
    }
}

impl HeaderStore {
    /// Open a store bound to `path` and `network`.  `data` is the full
    /// content of the persisted log, or `None` if no log exists yet; the
    /// store loads the chain the log holds, in log order, and refuses a
    /// log that is truncated or holds anything but header records.
    pub fn open(path: &str, network: Network, data: Option<Vec<u8>>) -> (r: Result<
        HeaderStore,
        StoreError,
    >)
        ensures
            match r {
                Ok(s) => {
                    &&& s.wf()
                    &&& s.spec_network() == network
                    &&& s.spec_path() == path@
                    &&& match data {
                        Some(d) => spec_parse(d@) == Some(s.chain()) && s.log_view() == d@,
                        None => s.chain() == Seq::<HeaderData>::empty() && s.log_view() == Seq::<
                            u8,
                        >::empty(),
                    }
                },
                Err(e) => e == StoreError::Malformed,
            },
            r is Ok <==> (data is None || spec_parse(data->Some_0@) is Some),
    {
        match data {
            None => {
                let s = HeaderStore {
                    path: String::from_str(path),
                    headers: Vec::new(),
                    network,
                    log: Vec::new(),
                };
                proof {
                    assert(s.chain() =~= Seq::<HeaderData>::empty());
                }
                Ok(s)
            },
            Some(d) => {
                match parse_log(&d) {
                    Ok(headers) => {
                        proof {
                            lemma_log_of_parse(d@);
                        }
                        let s = HeaderStore { path: String::from_str(path), headers, network, log: d };
                        Ok(s)
                    },
                    Err(e) => Err(e),
                }
            },
        }
    }
}

impl HeaderStore {
    /// Append validated candidate headers to the tip, in batch order.
    /// Each candidate must connect to the current tip (unless the chain
    /// is still empty) and carry a hash satisfying its own declared
    /// target; each accepted header is written to the log before the
    /// next candidate is judged, so a failing batch keeps its accepted
    /// prefix — there is no rollback.  The first refused candidate stops
    /// the batch with the error naming what it violated.
    pub fn append(&mut self, new_headers: &[Header]) -> (r: Result<(), StoreError>)
        requires
            old(self).wf(),
        ensures
            final(self).wf(),
            final(self).spec_network() == old(self).spec_network(),
            final(self).spec_path() == old(self).spec_path(),
            ({
                let ch0 = old(self).chain();
                let hs = views(new_headers@);
                let k = accepted_len(ch0, hs);
                &&& final(self).chain() == ch0 + hs.subrange(0, k)
                &&& (r is Ok <==> k == hs.len())
                &&& (r is Err ==> {
                    let cur = ch0 + hs.subrange(0, k);
                    &&& k < hs.len()
                    &&& !accepts(cur, hs[k])
                    &&& r == Err::<(), StoreError>(
                        if !connects(cur, hs[k]) {
                            StoreError::NotConnected
                        } else {
                            StoreError::InvalidPow
                        },
                    )
                })
            }),
    {
        let ghost ch0 = self.chain();
        let ghost hs = views(new_headers@);
        let n = new_headers.len();
        let mut i: usize = 0;
        proof {
            assert(hs.subrange(0, 0) =~= Seq::<HeaderData>::empty());
            assert(ch0 + hs.subrange(0, 0) =~= ch0);
            assert(hs.subrange(0, hs.len() as int) =~= hs);
        }
        while i < n
            invariant
                i <= n,
                n == new_headers@.len(),
                hs == views(new_headers@),
                hs.len() == n,
                self.wf(),
                self.spec_network() == old(self).spec_network(),
                self.spec_path() == old(self).spec_path(),
                ch0 == old(self).chain(),
                self.chain() == ch0 + hs.subrange(0, i as int),
                accepted_len(ch0, hs) == i + accepted_len(
                    self.chain(),
                    hs.subrange(i as int, n as int),
                ),
            decreases n - i,
        {
            let ghost cur = self.chain();
            let ghost rem = hs.subrange(i as int, n as int);
            proof {
                assert(rem[0] == hs[i as int]);
            }
            let h = &new_headers[i];
            if self.headers.len() > 0 {
                let tip_hash = block_hash(&self.headers[self.headers.len() - 1]);
                proof {
                    assert(cur.last() == self.headers@[self.headers@.len() - 1]@);
                }
                if !hash_eq(&h.prev_blockhash, &tip_hash) {
                    proof {
                        assert(!connects(cur, hs[i as int]));
                        assert(accepted_len(cur, rem) == 0);
                    }
                    return Err(StoreError::NotConnected);
                }
            }
            proof {
                assert(connects(cur, hs[i as int]));
            }
            if !has_valid_pow(h) {
                proof {
                    assert(accepted_len(cur, rem) == 0);
                }
                return Err(StoreError::InvalidPow);
            }
            let mut payload = encode_header(h);
            proof {
                lemma_encode_len(h@);
            }
            let mut prefix = u32_to_le_bytes(payload.len() as u32);
            let ghost old_hseq = self.headers@;
            self.log.append(&mut prefix);
            self.log.append(&mut payload);
            self.headers.push(*h);
            proof {
                lemma_views_push(old_hseq, *h);
                lemma_log_push(cur, h@);
                assert(self.log@ =~= spec_log(cur) + spec_record(h@));
                assert(self.chain() =~= ch0 + hs.subrange(0, i as int + 1));
                assert(accepts(cur, rem[0]));
                assert(accepted_len(cur, rem) == 1 + accepted_len(
                    cur.push(rem[0]),
                    rem.subrange(1, rem.len() as int),
                ));
                assert(cur.push(rem[0]) =~= ch0 + hs.subrange(0, i as int + 1));
                assert(rem.subrange(1, rem.len() as int) =~= hs.subrange(i as int + 1, n as int));
            }
            i = i + 1;
        }
        proof {
            assert(hs.subrange(n as int, n as int) =~= Seq::<HeaderData>::empty());
            assert(accepted_len(self.chain(), Seq::<HeaderData>::empty()) == 0);
            assert(self.chain() =~= ch0 + hs.subrange(0, accepted_len(ch0, hs)));
        }
        Ok(())
    }
}

impl HeaderStore {
    /// A short summary of the tip for peer synchronization: the hashes
    /// of the most recent headers, tip first, capped at
    /// `MAX_LOCATOR_HASHES`, with no gaps.  An empty store reports the
    /// one canonical genesis hash of its network instead.
    pub fn locator_hashes(&self) -> (r: Vec<[u8; 32]>)
        ensures
            self.chain().len() == 0 ==> r@.len() == 1 && r@[0]@ == genesis_hash_of(
                self.spec_network(),
            ),
            self.chain().len() > 0 ==> {
                &&& r@.len() == if self.chain().len() < MAX_LOCATOR_HASHES as int {
                    self.chain().len() as int
                } else {
                    MAX_LOCATOR_HASHES as int
                }
                &&& forall|j: int|
                    0 <= j < r@.len() ==> #[trigger] r@[j]@ == hash_of(
                        self.chain()[self.chain().len() - 1 - j],
                    )
            },
    {
        let mut out: Vec<[u8; 32]> = Vec::new();
        let total = self.headers.len();
        if total == 0 {
            out.push(genesis_hash(self.network));
            return out;
        }
        let mut i: usize = 0;
        while i < MAX_LOCATOR_HASHES && i < total
            invariant
                total == self.headers@.len(),
                total > 0,
                i <= MAX_LOCATOR_HASHES,
                i <= total,
                out@.len() == i,
                forall|j: int|
                    0 <= j < i ==> #[trigger] out@[j]@ == hash_of(
                        self.chain()[self.chain().len() - 1 - j],
                    ),
            decreases MAX_LOCATOR_HASHES - i,
        {
            let hh = block_hash(&self.headers[total - 1 - i]);
            out.push(hh);
            i = i + 1;
        }
        out
    }
}

/// Read a persisted log front to back into the headers it holds.
fn parse_log(data: &Vec<u8>) -> (r: Result<Vec<Header>, StoreError>)
    ensures
        match r {
            Ok(hs) => spec_parse(data@) == Some(views(hs@)),
            Err(e) => e == StoreError::Malformed && spec_parse(data@) is None,
        },
{
    let n = data.len();
    let mut headers: Vec<Header> = Vec::new();
    let mut pos: usize = 0;
    proof {
        assert(data@.subrange(0, n as int) =~= data@);
        assert(views(headers@) =~= Seq::<HeaderData>::empty());
        assert(parsed_after(views(headers@), spec_parse(data@)) == spec_parse(data@)) by {
            if spec_parse(data@) is Some {
                assert(views(headers@) + spec_parse(data@)->Some_0 =~= spec_parse(data@)->Some_0);
            }
        }
    }
    while pos < n
        invariant
            pos <= n,
            n == data@.len(),
            parsed_after(views(headers@), spec_parse(data@.subrange(pos as int, n as int)))
                == spec_parse(data@),
        decreases n - pos,
    {
        let ghost rem = data@.subrange(pos as int, n as int);
        if n - pos < 4 {
            return Err(StoreError::Malformed);
        }
        let l = u32_from_le_bytes(&data.as_slice()[pos..pos + 4]);
        proof {
            assert(rem.subrange(0, 4) =~= data@.subrange(pos as int, pos as int + 4));
        }
        if l as usize != HEADER_SIZE {
            return Err(StoreError::Malformed);
        }
        if n - pos < RECORD_SIZE {
            return Err(StoreError::Malformed);
        }
        let payload = &data.as_slice()[pos + 4..pos + RECORD_SIZE];
        proof {
            assert(rem.subrange(4, RECORD_SIZE as int) =~= payload@);
        }
        let h = match decode_header(payload) {
            Some(h) => h,
            None => {
                proof {
                    assert(false);
                }
                return Err(StoreError::Malformed);
            },
        };
        let ghost old_hseq = headers@;
        headers.push(h);
        proof {
            let rem2 = data@.subrange(pos as int + RECORD_SIZE as int, n as int);
            assert(rem.subrange(RECORD_SIZE as int, rem.len() as int) =~= rem2);
            lemma_encode_of_decode(payload@);
            lemma_encode_injective(h@, spec_decode_header(payload@));
            assert(h@ == spec_decode_header(rem.subrange(4, RECORD_SIZE as int)));
            lemma_views_push(old_hseq, h);
            if spec_parse(rem2) is Some {
                let rest = spec_parse(rem2)->Some_0;
                assert(spec_parse(rem) == Some(seq![h@] + rest));
                assert(views(headers@) + rest =~= views(old_hseq) + (seq![h@] + rest));
            } else {
                assert(spec_parse(rem) is None);
            }
        }
        pos = pos + RECORD_SIZE;
    }
    proof {
        assert(data@.subrange(pos as int, n as int) =~= Seq::<u8>::empty());
        assert(views(headers@) + Seq::<HeaderData>::empty() =~= views(headers@));
    }
    Ok(headers)
}

/// Byte-for-byte equality of two 32-byte digests.
fn hash_eq(a: &[u8; 32], b: &[u8; 32]) -> (r: bool)
    ensures
        r <==> a@ == b@,
{
    let mut i: usize = 0;
    while i < 32
        invariant
            i <= 32,
            forall|j: int| 0 <= j < i ==> a@[j] == b@[j],
        decreases 32 - i,
    {
        if a[i] != b[i] {
            return false;
        }
        i += 1;
    }
    proof {
        assert(a@ =~= b@);
    }
    true
}

} // verus!
