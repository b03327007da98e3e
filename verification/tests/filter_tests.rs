use nodeprot::filter::{contains_sorted, partial_block, sort_hashes};
use nodeprot::hash::Hash256;
use nodeprot::vocab::{Block, Tx};

fn h(n: u64) -> Hash256 {
    Hash256 { w0: 0, w1: 0, w2: 0, w3: n }
}

fn tx(n: u64, body: &[u8]) -> Tx {
    Tx { hash_nosigs: h(n), body: body.to_vec() }
}

fn block_abc() -> Block {
    Block {
        header: vec![9, 9, 9],
        transactions: vec![tx(1, b"alpha"), tx(2, b"beta"), tx(3, b"gamma")],
    }
}

#[test]
fn partial_block_single_hash_preserves_contents() {
    // A block whose transactions have stripped hashes [A, B, C]; requesting
    // only B returns exactly that transaction, fields untouched.
    let b = block_abc();
    let r = partial_block(b, &vec![h(2)]);
    assert_eq!(r.header, vec![9, 9, 9]);
    assert_eq!(r.transactions.len(), 1);
    assert_eq!(r.transactions[0].hash_nosigs, h(2));
    assert_eq!(r.transactions[0].body, b"beta".to_vec());
}

#[test]
fn partial_block_full_set_is_identity() {
    let b = block_abc();
    let expected = b.transactions.clone();
    let r = partial_block(b, &vec![h(3), h(1), h(2)]);
    assert_eq!(r.transactions, expected);
}

#[test]
fn partial_block_unknown_hashes_ignored() {
    let b = block_abc();
    let r = partial_block(b, &vec![h(2), h(77), h(99)]);
    assert_eq!(r.transactions.len(), 1);
    assert_eq!(r.transactions[0].hash_nosigs, h(2));
    // Only unknown hashes: an empty transaction list, not an error.
    let r2 = partial_block(block_abc(), &vec![h(50)]);
    assert_eq!(r2.transactions.len(), 0);
    assert_eq!(r2.header, vec![9, 9, 9]);
}

#[test]
fn partial_block_keeps_block_order_not_request_order() {
    let b = block_abc();
    let r = partial_block(b, &vec![h(3), h(1)]);
    let hashes: Vec<Hash256> = r.transactions.iter().map(|t| t.hash_nosigs).collect();
    assert_eq!(hashes, vec![h(1), h(3)]);
}

#[test]
fn partial_block_duplicate_hashes_harmless() {
    let b = block_abc();
    let r = partial_block(b, &vec![h(2), h(2), h(2)]);
    assert_eq!(r.transactions.len(), 1);
    assert_eq!(r.transactions[0].hash_nosigs, h(2));
}

#[test]
fn partial_block_empty_request_empties_block() {
    let r = partial_block(block_abc(), &vec![]);
    assert_eq!(r.transactions.len(), 0);
}

#[test]
fn sort_orders_by_byte_value() {
    let a = Hash256 { w0: 1, w1: 0, w2: 0, w3: 0 };
    let b = Hash256 { w0: 0, w1: 0, w2: 0, w3: 5 };
    let c = Hash256 { w0: 0, w1: 2, w2: 0, w3: 0 };
    let sorted = sort_hashes(&vec![a, c, b]);
    assert_eq!(sorted, vec![b, c, a]);
    assert!(contains_sorted(&sorted, &c));
    assert!(!contains_sorted(&sorted, &Hash256 { w0: 0, w1: 0, w2: 0, w3: 6 }));
}
