use blockchain_prototype::block::Block;
use blockchain_prototype::digest::hash_str;
use blockchain_prototype::merkle::merkle_root_hex;
use blockchain_prototype::pow::has_leading_zero_bits_hex;
use blockchain_prototype::tx::{Transaction, TxOut};
use serde_json::Value;

fn coinbase_like(to: &str, amount: u64, ts: u64) -> Transaction {
    Transaction {
        inputs: vec![],
        outputs: vec![TxOut { pubkey_hash: to.to_string(), amount }],
        timestamp: ts,
    }
}

#[test]
fn leading_zero_bits_whole_bytes() {
    assert!(has_leading_zero_bits_hex("00ff", 8));
    assert!(!has_leading_zero_bits_hex("00ff", 9));
    assert!(has_leading_zero_bits_hex("0000", 16));
    assert!(!has_leading_zero_bits_hex("0000", 17));
}

#[test]
fn leading_zero_bits_partial_byte() {
    assert!(has_leading_zero_bits_hex("0f", 4));
    assert!(!has_leading_zero_bits_hex("0f", 5));
    assert!(has_leading_zero_bits_hex("01", 7));
    assert!(!has_leading_zero_bits_hex("01", 8));
    assert!(has_leading_zero_bits_hex("7f", 1));
    assert!(!has_leading_zero_bits_hex("80", 1));
}

#[test]
fn leading_zero_bits_zero_and_bad_text() {
    assert!(has_leading_zero_bits_hex("ff", 0));
    assert!(has_leading_zero_bits_hex("", 0));
    assert!(!has_leading_zero_bits_hex("", 1));
    assert!(!has_leading_zero_bits_hex("zz", 0));
    assert!(!has_leading_zero_bits_hex("0", 0));
    assert!(has_leading_zero_bits_hex("00FF", 8));
}

#[test]
fn merkle_root_of_no_transactions_is_hash_of_empty_text() {
    assert_eq!(merkle_root_hex(&[]), hash_str(""));
}

#[test]
fn merkle_root_of_one_transaction_is_its_id() {
    let t = coinbase_like("a", 1, 1);
    assert_eq!(merkle_root_hex(&[t.clone()]), t.txid());
}

#[test]
fn merkle_root_of_two_and_three() {
    let a = coinbase_like("a", 1, 1);
    let b = coinbase_like("b", 2, 2);
    let c = coinbase_like("c", 3, 3);
    let ab = hash_str(&(a.txid() + &b.txid()));
    assert_eq!(merkle_root_hex(&[a.clone(), b.clone()]), ab);
    let cc = hash_str(&(c.txid() + &c.txid()));
    let abc = hash_str(&(ab.clone() + &cc));
    assert_eq!(merkle_root_hex(&[a, b, c]), abc);
}

#[test]
fn block_hash_matches_serde_json_header() {
    let b = Block::new(3, 99, vec![coinbase_like("m", 50, 5)], "prev\"hash".to_string(), 2);
    let mut m = serde_json::Map::new();
    m.insert("index".to_string(), Value::from(3u32));
    m.insert("timestamp".to_string(), Value::from(99u64));
    m.insert("previous_hash".to_string(), Value::from("prev\"hash"));
    m.insert("merkle_root".to_string(), Value::from(b.merkle_root.clone()));
    m.insert("difficulty".to_string(), Value::from(2u32));
    m.insert("nonce".to_string(), Value::from(0u64));
    assert_eq!(b.hash, hash_str(&Value::Object(m).to_string()));
    assert_eq!(b.hash, b.calculate_hash());
    assert_eq!(b.nonce, 0);
    assert_eq!(b.merkle_root, merkle_root_hex(&b.transactions));
}

#[test]
fn block_serialize_field_order() {
    let b = Block {
        index: 1,
        timestamp: 2,
        transactions: vec![],
        previous_hash: "p".to_string(),
        merkle_root: "m".to_string(),
        difficulty: 3,
        hash: "h".to_string(),
        nonce: 4,
    };
    assert_eq!(
        b.serialize(),
        "{\"index\":1,\"timestamp\":2,\"transactions\":[],\"previous_hash\":\"p\",\"merkle_root\":\"m\",\"difficulty\":3,\"hash\":\"h\",\"nonce\":4}"
    );
}

#[test]
fn mining_finds_a_nonce_meeting_the_difficulty() {
    let mut b = Block::new(1, 10, vec![coinbase_like("m", 50, 5)], "p".to_string(), 8);
    let found = b.mine_block();
    assert!(found);
    assert_eq!(b.hash, b.calculate_hash());
    assert!(has_leading_zero_bits_hex(&b.hash, 8));
    let mut earlier = b.clone();
    for n in 0..b.nonce {
        earlier.nonce = n;
        assert!(!has_leading_zero_bits_hex(&earlier.calculate_hash(), 8));
    }
}

#[test]
fn mining_at_difficulty_zero_keeps_nonce() {
    let mut b = Block::new(0, 0, vec![], "0".to_string(), 0);
    assert!(b.mine_block());
    assert_eq!(b.nonce, 0);
    assert_eq!(b.hash, b.calculate_hash());
}
