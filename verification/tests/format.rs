use header_store::Header;
use header_store::HeaderStore;
use header_store::Network;
use header_store::StoreError;

fn regtest_genesis() -> bitcoin::block::Header {
    bitcoin::constants::genesis_block(bitcoin::Network::Regtest).header
}

fn to_store_header(bh: &bitcoin::block::Header) -> Header {
    Header {
        version: bh.version.to_consensus(),
        prev_blockhash: <bitcoin::BlockHash as bitcoin::hashes::Hash>::to_byte_array(
            bh.prev_blockhash,
        ),
        merkle_root: <bitcoin::TxMerkleNode as bitcoin::hashes::Hash>::to_byte_array(
            bh.merkle_root,
        ),
        time: bh.time,
        bits: bh.bits.to_consensus(),
        nonce: bh.nonce,
    }
}

fn hash_bytes(bh: &bitcoin::block::Header) -> [u8; 32] {
    <bitcoin::BlockHash as bitcoin::hashes::Hash>::to_byte_array(bh.block_hash())
}

/// Bump the nonce until the header satisfies its own target.
fn mine(mut h: bitcoin::block::Header) -> bitcoin::block::Header {
    while h.validate_pow(h.target()).is_err() {
        h.nonce += 1;
    }
    h
}

/// Bump the nonce until the header fails its own target.
fn spoil(mut h: bitcoin::block::Header) -> bitcoin::block::Header {
    while h.validate_pow(h.target()).is_ok() {
        h.nonce += 1;
    }
    h
}

/// Open at an empty path, append a genesis-equivalent header, then a
/// connecting header, then one declaring a garbage predecessor: the last
/// call fails, the height stays at two and the tip stays put.
#[test]
fn scenario_bad_predecessor_keeps_tip() {
    let mut store = HeaderStore::open("headers.bin", Network::Regtest, None).unwrap();

    let h0 = regtest_genesis();
    store.append(&[to_store_header(&h0)]).unwrap();
    assert_eq!(store.height(), 1);

    let mut h1 = regtest_genesis();
    h1.prev_blockhash = h0.block_hash();
    h1.nonce = 1;
    let h1 = mine(h1);
    store.append(&[to_store_header(&h1)]).unwrap();
    assert_eq!(store.height(), 2);

    let mut h2 = to_store_header(&h1);
    h2.prev_blockhash = [0xabu8; 32];
    h2.nonce = 7;
    let r = store.append(&[h2]);
    assert_eq!(r.unwrap_err(), StoreError::NotConnected);
    assert_eq!(store.height(), 2);
    let tip = store._tip().unwrap();
    assert_eq!(tip.nonce, h1.nonce);
    assert_eq!(tip.prev_blockhash, hash_bytes(&h0));
}

/// A two-header batch whose second header fails proof of work keeps its
/// valid first header: the height grows by exactly one.
#[test]
fn batch_keeps_valid_prefix() {
    let mut store = HeaderStore::open("headers.bin", Network::Regtest, None).unwrap();

    let h0 = regtest_genesis();
    let mut bad = regtest_genesis();
    bad.prev_blockhash = h0.block_hash();
    let bad = spoil(bad);

    let r = store.append(&[to_store_header(&h0), to_store_header(&bad)]);
    assert_eq!(r.unwrap_err(), StoreError::InvalidPow);
    assert_eq!(store.height(), 1);
}

/// The error names what the first refused candidate violated.
#[test]
fn error_variants() {
    let mut store = HeaderStore::open("headers.bin", Network::Regtest, None).unwrap();
    let h0 = regtest_genesis();
    store.append(&[to_store_header(&h0)]).unwrap();

    let mut bad_pow = regtest_genesis();
    bad_pow.prev_blockhash = h0.block_hash();
    let bad_pow = spoil(bad_pow);
    assert_eq!(store.append(&[to_store_header(&bad_pow)]).unwrap_err(), StoreError::InvalidPow);

    let mut disconnected = to_store_header(&h0);
    disconnected.prev_blockhash = [1u8; 32];
    assert_eq!(store.append(&[disconnected]).unwrap_err(), StoreError::NotConnected);
    assert_eq!(store.height(), 1);
}

/// The persisted log is one length-prefixed record per header: a 4-byte
/// little-endian 80, then the header's consensus encoding.
#[test]
fn log_matches_consensus_encoding() {
    let mut store = HeaderStore::open("headers.bin", Network::Regtest, None).unwrap();
    let h0 = regtest_genesis();
    store.append(&[to_store_header(&h0)]).unwrap();

    let mut expected: Vec<u8> = vec![80, 0, 0, 0];
    expected.extend_from_slice(&bitcoin::consensus::serialize(&h0));
    assert_eq!(store.log_bytes(), &expected);
}

/// A log that stops inside a length field, inside a payload, or whose
/// record length is not a header's size is refused as malformed.
#[test]
fn corrupt_logs_are_refused() {
    let r = HeaderStore::open("headers.bin", Network::Regtest, Some(vec![80, 0]));
    assert_eq!(r.unwrap_err(), StoreError::Malformed);

    let r = HeaderStore::open("headers.bin", Network::Regtest, Some(vec![80, 0, 0, 0, 9]));
    assert_eq!(r.unwrap_err(), StoreError::Malformed);

    let r = HeaderStore::open(
        "headers.bin",
        Network::Regtest,
        Some(vec![5, 0, 0, 0, 1, 2, 3, 4, 5]),
    );
    assert_eq!(r.unwrap_err(), StoreError::Malformed);
}

/// Appending N headers and reopening from the persisted bytes yields the
/// same height and the same tip hash.
#[test]
fn reopen_roundtrip_many_headers() {
    let mut store = HeaderStore::open("headers.bin", Network::Regtest, None).unwrap();

    let h1 = regtest_genesis();
    let mut h2 = h1.clone();
    h2.prev_blockhash = h1.block_hash();
    h2.nonce = 1;
    let h2 = mine(h2);
    let mut h3 = h2.clone();
    h3.prev_blockhash = h2.block_hash();
    h3.nonce = 2;
    let h3 = mine(h3);

    store
        .append(&[to_store_header(&h1), to_store_header(&h2), to_store_header(&h3)])
        .unwrap();

    let log = store.log_bytes().clone();
    let reopened = HeaderStore::open("headers.bin", Network::Regtest, Some(log)).unwrap();
    assert_eq!(reopened.height(), 3);
    assert_eq!(reopened.locator_hashes()[0], hash_bytes(&h3));
    assert_eq!(reopened.log_bytes(), store.log_bytes());
}

/// A fresh store has height zero and no tip.
#[test]
fn empty_store_has_no_tip() {
    let store = HeaderStore::open("headers.bin", Network::Regtest, None).unwrap();
    assert_eq!(store.height(), 0);
    assert!(store._tip().is_none());
    assert!(store.log_bytes().is_empty());
}

/// An existing but empty log opens as an empty store.
#[test]
fn open_empty_log_bytes() {
    let store = HeaderStore::open("headers.bin", Network::Regtest, Some(Vec::new())).unwrap();
    assert_eq!(store.height(), 0);
}

/// Each supported network reports its own canonical genesis hash from an
/// empty store.
#[test]
fn genesis_hash_per_network() {
    let pairs = [
        (Network::Bitcoin, bitcoin::Network::Bitcoin),
        (Network::Testnet, bitcoin::Network::Testnet),
        (Network::Testnet4, bitcoin::Network::Testnet4),
        (Network::Signet, bitcoin::Network::Signet),
        (Network::Regtest, bitcoin::Network::Regtest),
    ];
    for (ours, theirs) in pairs {
        let store = HeaderStore::open("headers.bin", ours, None).unwrap();
        let locator = store.locator_hashes();
        let expected = <bitcoin::BlockHash as bitcoin::hashes::Hash>::to_byte_array(
            bitcoin::constants::genesis_block(theirs).block_hash(),
        );
        assert_eq!(locator.len(), 1);
        assert_eq!(locator[0], expected);
    }
}
