use vstd::prelude::*;

use crate::codec::spec_encode_header;
use crate::types::Header;
use crate::types::HeaderData;
use crate::types::Network;

verus! {

/// The digest of a header: what `bitcoin`'s `Header::block_hash`
/// computes from the header's fields alone.
pub uninterp spec fn hash_of(h: HeaderData) -> Seq<u8>;

/// Whether a header's hash satisfies the target declared in its own
/// `bits` field: what `bitcoin`'s `Header::validate_pow` decides when
/// asked about the header's own target.  A function of the header's
/// fields alone.
pub uninterp spec fn pow_valid(h: HeaderData) -> bool;

/// The canonical genesis block hash of a network: what `bitcoin`'s
/// `constants::genesis_block` followed by `Header::block_hash` yields.
pub uninterp spec fn genesis_hash_of(n: Network) -> Seq<u8>;

/// Relies on `bitcoin::block::Header::block_hash`: the double-SHA256
/// digest of the header's 80-byte consensus encoding, a pure function of
/// the header's fields.
#[verifier::external_body]
pub(crate) fn block_hash(h: &Header) -> (r: [u8; 32])
    ensures
        r@ == hash_of(h@),
{
    let bh = bitcoin::block::Header {
        version: bitcoin::block::Version::from_consensus(h.version),
        prev_blockhash: <bitcoin::BlockHash as bitcoin::hashes::Hash>::from_byte_array(h.prev_blockhash),
        merkle_root: <bitcoin::TxMerkleNode as bitcoin::hashes::Hash>::from_byte_array(h.merkle_root),
        time: h.time,
        bits: bitcoin::CompactTarget::from_consensus(h.bits),
        nonce: h.nonce,
    };
    <bitcoin::BlockHash as bitcoin::hashes::Hash>::to_byte_array(bh.block_hash())
}

/// Relies on `bitcoin::block::Header::validate_pow`, asked about the
/// header's own target: it succeeds exactly when the header's hash is
/// numerically at or below the target that the header's `bits` field
/// encodes, a pure function of the header's fields.
#[verifier::external_body]
pub(crate) fn has_valid_pow(h: &Header) -> (r: bool)
    ensures
        r == pow_valid(h@),
{
    let bh = bitcoin::block::Header {
        version: bitcoin::block::Version::from_consensus(h.version),
        prev_blockhash: <bitcoin::BlockHash as bitcoin::hashes::Hash>::from_byte_array(h.prev_blockhash),
        merkle_root: <bitcoin::TxMerkleNode as bitcoin::hashes::Hash>::from_byte_array(h.merkle_root),
        time: h.time,
        bits: bitcoin::CompactTarget::from_consensus(h.bits),
        nonce: h.nonce,
    };
    bh.validate_pow(bh.target()).is_ok()
}

/// Relies on `bitcoin::consensus::serialize` for `Header`: it writes the
/// six fields in order, numeric fields little-endian, digests as raw
/// bytes, which is exactly `spec_encode_header`.
#[verifier::external_body]
pub(crate) fn encode_header(h: &Header) -> (r: Vec<u8>)
    ensures
        r@ == spec_encode_header(h@),
{
    let bh = bitcoin::block::Header {
        version: bitcoin::block::Version::from_consensus(h.version),
        prev_blockhash: <bitcoin::BlockHash as bitcoin::hashes::Hash>::from_byte_array(h.prev_blockhash),
        merkle_root: <bitcoin::TxMerkleNode as bitcoin::hashes::Hash>::from_byte_array(h.merkle_root),
        time: h.time,
        bits: bitcoin::CompactTarget::from_consensus(h.bits),
        nonce: h.nonce,
    };
    bitcoin::consensus::serialize(&bh)
}

/// Relies on `bitcoin::consensus::deserialize` for `Header`: it succeeds
/// exactly on 80-byte input, since every field reads back unconditionally
/// and trailing bytes are refused, and the header it returns re-encodes
/// to the input.
#[verifier::external_body]
pub(crate) fn decode_header(b: &[u8]) -> (r: Option<Header>)
    ensures
        r is Some <==> b@.len() == 80,
        r is Some ==> spec_encode_header(r->Some_0@) == b@,
{
    match bitcoin::consensus::deserialize::<bitcoin::block::Header>(b) {
        Ok(bh) => Some(Header {
            version: bh.version.to_consensus(),
            prev_blockhash: <bitcoin::BlockHash as bitcoin::hashes::Hash>::to_byte_array(bh.prev_blockhash),
            merkle_root: <bitcoin::TxMerkleNode as bitcoin::hashes::Hash>::to_byte_array(bh.merkle_root),
            time: bh.time,
            bits: bh.bits.to_consensus(),
            nonce: bh.nonce,
        }),
        Err(_) => None,
    }
}

/// Relies on `bitcoin::constants::genesis_block` and
/// `bitcoin::block::Header::block_hash`: the genesis hash is a pure
/// function of the network identity.
#[verifier::external_body]
pub(crate) fn genesis_hash(n: Network) -> (r: [u8; 32])
    ensures
        r@ == genesis_hash_of(n),
{
    let bn = match n {
        Network::Bitcoin => bitcoin::Network::Bitcoin,
        Network::Testnet => bitcoin::Network::Testnet,
        Network::Testnet4 => bitcoin::Network::Testnet4,
        Network::Signet => bitcoin::Network::Signet,
        Network::Regtest => bitcoin::Network::Regtest,
    };
    let gh = bitcoin::constants::genesis_block(bn).header.block_hash();
    <bitcoin::BlockHash as bitcoin::hashes::Hash>::to_byte_array(gh)
}

} // verus!
