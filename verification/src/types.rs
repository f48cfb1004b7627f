use vstd::prelude::*;

verus! {

/// Identity of the chain the store belongs to.  It is consulted only to
/// pick the canonical genesis hash when the store holds no headers yet.
#[derive(Clone, Copy, PartialEq, Eq, Structural, Debug)]
pub enum Network {
    Bitcoin,
    Testnet,
    Testnet4,
    Signet,
    Regtest,
}

/// A block header as this store sees it: the six consensus fields, with
/// both digests held as raw 32-byte arrays.  `version` carries the signed
/// consensus value; `bits` carries the compact encoding of the
/// proof-of-work target.
#[derive(Clone, Copy, Debug)]
pub struct Header {
    pub version: i32,
    pub prev_blockhash: [u8; 32],
    pub merkle_root: [u8; 32],
    pub time: u32,
    pub bits: u32,
    pub nonce: u32,
}

/// Mathematical model of a header: the digests as byte sequences and the
/// version as its 32-bit two's-complement image, which is what the wire
/// encoding carries.
#[verifier::ext_equal]
pub ghost struct HeaderData {
    pub version: u32,
    pub prev: Seq<u8>,
    pub merkle: Seq<u8>,
    pub time: u32,
    pub bits: u32,
    pub nonce: u32,
}

/// The 32-bit two's-complement image of a signed version value.
pub open spec fn version_bits(v: i32) -> u32 {
    if v >= 0 {
        v as u32
    } else {
        (v as int + 0x1_0000_0000) as u32
    }
}

impl View for Header {
    type V = HeaderData;

    open spec fn view(&self) -> HeaderData {
        HeaderData {
            version: version_bits(self.version),
            prev: self.prev_blockhash@,
            merkle: self.merkle_root@,
            time: self.time,
            bits: self.bits,
            nonce: self.nonce,
        }
    }
}

/// Every header model that arises as the view of a concrete header has
/// 32-byte digests.
pub open spec fn wf_data(h: HeaderData) -> bool {
    h.prev.len() == 32 && h.merkle.len() == 32
}

/// The models of a sequence of concrete headers.
pub open spec fn views(hs: Seq<Header>) -> Seq<HeaderData> {
    hs.map_values(|h: Header| h@)
}

/// Models commute with push: appending one concrete header appends its
/// model.
pub proof fn lemma_views_push(hs: Seq<Header>, h: Header)
    ensures
        views(hs.push(h)) == views(hs).push(h@),
{
    assert(views(hs.push(h)) =~= views(hs).push(h@));
}

/// Why the store refused to load or extend the chain.
#[derive(Clone, Copy, PartialEq, Eq, Structural, Debug)]
pub enum StoreError {
    /// The persisted log is truncated or holds a record that is not a
    /// header encoding.
    Malformed,
    /// A candidate header's declared predecessor is not the current tip.
    NotConnected,
    /// A candidate header's hash does not satisfy its own declared target.
    InvalidPow,
}

} // verus!
