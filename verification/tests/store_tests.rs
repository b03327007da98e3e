use nodeprot::codec::{decode_store, encode_store, StoreError};
use nodeprot::hash::Hash256;
use nodeprot::store::{TrustAnchor, TrustStore};
use nodeprot::vocab::NetId;

fn h(n: u64) -> Hash256 {
    Hash256 { w0: n, w1: n, w2: 0, w3: n }
}

#[test]
fn fresh_store_has_no_anchor_for_any_network() {
    let s = TrustStore::new();
    for net in [
        NetId::Testnet,
        NetId::Custom02,
        NetId::Custom03,
        NetId::Custom04,
        NetId::Custom05,
        NetId::Custom06,
        NetId::Custom07,
        NetId::Custom08,
        NetId::Mainnet,
    ] {
        assert_eq!(s.get(net), None);
    }
}

#[test]
fn set_then_get_then_rollback() {
    // Empty, set Mainnet to height 100, read it back, roll back to 50.
    let mut s = TrustStore::new();
    assert_eq!(s.get(NetId::Mainnet), None);
    s.set(NetId::Mainnet, 100, h(1));
    assert_eq!(s.get(NetId::Mainnet), Some(TrustAnchor { height: 100, hash: h(1) }));
    s.set(NetId::Mainnet, 50, h(2));
    assert_eq!(s.get(NetId::Mainnet), Some(TrustAnchor { height: 50, hash: h(2) }));
}

#[test]
fn networks_are_independent() {
    let mut s = TrustStore::new();
    s.set(NetId::Testnet, 7, h(7));
    s.set(NetId::Mainnet, 9, h(9));
    assert_eq!(s.get(NetId::Testnet), Some(TrustAnchor { height: 7, hash: h(7) }));
    assert_eq!(s.get(NetId::Mainnet), Some(TrustAnchor { height: 9, hash: h(9) }));
    assert_eq!(s.get(NetId::Custom05), None);
}

#[test]
fn encode_decode_roundtrip_preserves_anchors() {
    let mut s = TrustStore::new();
    s.set(NetId::Mainnet, u64::MAX, Hash256 { w0: u64::MAX, w1: 0, w2: 1, w3: u64::MAX });
    s.set(NetId::Testnet, 0, Hash256 { w0: 0, w1: 0, w2: 0, w3: 0 });
    s.set(NetId::Custom04, 1234567, h(77));
    let bytes = encode_store(&s);
    let reopened = decode_store(&bytes).expect("canonical bytes must decode");
    assert_eq!(
        reopened.get(NetId::Mainnet),
        Some(TrustAnchor { height: u64::MAX, hash: Hash256 { w0: u64::MAX, w1: 0, w2: 1, w3: u64::MAX } })
    );
    assert_eq!(
        reopened.get(NetId::Testnet),
        Some(TrustAnchor { height: 0, hash: Hash256 { w0: 0, w1: 0, w2: 0, w3: 0 } })
    );
    assert_eq!(reopened.get(NetId::Custom04), Some(TrustAnchor { height: 1234567, hash: h(77) }));
    assert_eq!(reopened.get(NetId::Custom08), None);
}

#[test]
fn empty_store_encodes_to_empty_document() {
    let s = TrustStore::new();
    let bytes = encode_store(&s);
    assert_eq!(bytes, Vec::<u8>::new());
    let reopened = decode_store(&bytes).expect("empty document is a valid store");
    assert_eq!(reopened.get(NetId::Mainnet), None);
}

#[test]
fn document_is_one_readable_line_per_network() {
    let mut s = TrustStore::new();
    s.set(NetId::Testnet, 256, Hash256 { w0: 0, w1: 0, w2: 0, w3: 10 });
    let bytes = encode_store(&s);
    let text = String::from_utf8(bytes).expect("document is ASCII");
    assert_eq!(
        text,
        "01 0000000000000100 000000000000000000000000000000000000000000000000000000000000000a\n"
    );
}

#[test]
fn malformed_documents_are_corrupt_not_reset() {
    // Wrong length.
    assert_eq!(decode_store(&vec![b'0'; 84]), Err(StoreError::Corrupt));
    // A valid line, then damage in each interesting place.
    let mut s = TrustStore::new();
    s.set(NetId::Testnet, 256, h(3));
    let good = encode_store(&s);
    assert!(decode_store(&good).is_ok());
    let mut bad = good.clone();
    bad[2] = b'x'; // separator overwritten
    assert_eq!(decode_store(&bad), Err(StoreError::Corrupt));
    let mut bad = good.clone();
    bad[5] = b'G'; // not a hex digit
    assert_eq!(decode_store(&bad), Err(StoreError::Corrupt));
    let mut bad = good.clone();
    bad[5] = b'A'; // uppercase: not the canonical form
    assert_eq!(decode_store(&bad), Err(StoreError::Corrupt));
}

#[test]
fn unsorted_or_duplicate_networks_are_corrupt() {
    let mut s = TrustStore::new();
    s.set(NetId::Testnet, 1, h(1));
    s.set(NetId::Custom02, 2, h(2));
    let good = encode_store(&s);
    let (line1, line2) = good.split_at(85);
    let mut swapped = line2.to_vec();
    swapped.extend_from_slice(line1);
    assert_eq!(decode_store(&swapped), Err(StoreError::Corrupt));
    let mut doubled = line1.to_vec();
    doubled.extend_from_slice(line1);
    assert_eq!(decode_store(&doubled), Err(StoreError::Corrupt));
}
