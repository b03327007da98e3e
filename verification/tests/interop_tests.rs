use nodeprot::filter::sort_hashes;
use nodeprot::hash::Hash256;
use nodeprot::vocab::NetId;
use themelio_stf::NetID;
use tmelcrypt::HashVal;

fn to_words(h: HashVal) -> Hash256 {
    let b = h.0;
    let w = |i: usize| {
        u64::from_be_bytes([
            b[i],
            b[i + 1],
            b[i + 2],
            b[i + 3],
            b[i + 4],
            b[i + 5],
            b[i + 6],
            b[i + 7],
        ])
    };
    Hash256 { w0: w(0), w1: w(8), w2: w(16), w3: w(24) }
}

#[test]
fn network_bytes_match_chain_state_machine() {
    assert_eq!(NetId::Testnet.byte(), NetID::Testnet as u8);
    assert_eq!(NetId::Custom02.byte(), NetID::Custom02 as u8);
    assert_eq!(NetId::Custom03.byte(), NetID::Custom03 as u8);
    assert_eq!(NetId::Custom04.byte(), NetID::Custom04 as u8);
    assert_eq!(NetId::Custom05.byte(), NetID::Custom05 as u8);
    assert_eq!(NetId::Custom06.byte(), NetID::Custom06 as u8);
    assert_eq!(NetId::Custom07.byte(), NetID::Custom07 as u8);
    assert_eq!(NetId::Custom08.byte(), NetID::Custom08 as u8);
    assert_eq!(NetId::Mainnet.byte(), NetID::Mainnet as u8);
}

#[test]
fn tx_from_bytes_takes_the_chain_digest() {
    let tx = themelio_stf::Transaction::empty_test().with_data(b"hello".to_vec());
    let bytes = stdcode::serialize(&tx).unwrap();
    let model = nodeprot::vocab::tx_from_bytes(bytes.clone()).expect("a real transaction decodes");
    assert_eq!(model.body, bytes);
    assert_eq!(model.hash_nosigs, to_words(tx.hash_nosigs().0));
    // The digest ignores the signature field.
    let signed = tx.with_sigs(vec![vec![1u8; 64]]);
    let signed_model = nodeprot::vocab::tx_from_bytes(stdcode::serialize(&signed).unwrap()).unwrap();
    assert_eq!(signed_model.hash_nosigs, model.hash_nosigs);
    // Bytes that are no transaction give nothing.
    assert!(nodeprot::vocab::tx_from_bytes(Vec::new()).is_none());
}

#[test]
fn word_order_agrees_with_byte_lexicographic_hashval_order() {
    // HashVal derives its order from the byte array; sorting the word form
    // must give the same order.
    let mut samples: Vec<HashVal> = Vec::new();
    for i in 0..32u8 {
        let mut b = [0u8; 32];
        b[i as usize] = 0xff - i;
        b[31 - i as usize / 2] ^= i.wrapping_mul(37);
        samples.push(HashVal(b));
    }
    samples.push(HashVal([0u8; 32]));
    samples.push(HashVal([0xffu8; 32]));
    samples.push(tmelcrypt::hash_single(b"nodeprot"));

    let mut by_bytes = samples.clone();
    by_bytes.sort();
    let expected: Vec<Hash256> = by_bytes.iter().map(|h| to_words(*h)).collect();

    let words: Vec<Hash256> = samples.iter().map(|h| to_words(*h)).collect();
    let sorted = sort_hashes(&words);
    assert_eq!(sorted, expected);
}
