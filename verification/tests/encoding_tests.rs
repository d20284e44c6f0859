use blockchain_prototype::digest::{hash160_hex, hash_str};
use blockchain_prototype::hexenc::decode_hex;
use blockchain_prototype::tx::{Transaction, TxIn, TxOut};
use serde_json::Value;
use sha2::Digest;

fn txin(txid: &str, vout: usize, signature: &str, pubkey: &str) -> TxIn {
    TxIn {
        txid: txid.to_string(),
        vout,
        signature: signature.to_string(),
        pubkey: pubkey.to_string(),
    }
}

fn txout(pubkey_hash: &str, amount: u64) -> TxOut {
    TxOut { pubkey_hash: pubkey_hash.to_string(), amount }
}

#[test]
fn digests_are_lowercase_hex() {
    let h = hash_str("x");
    assert_eq!(h.len(), 64);
    assert!(h.chars().all(|c| c.is_ascii_digit() || ('a'..='f').contains(&c)));
}

#[test]
fn hex_decode_accepts_both_cases() {
    assert_eq!(decode_hex("0a0B"), Some(vec![10, 11]));
    assert_eq!(decode_hex("DEADbeef"), Some(vec![0xde, 0xad, 0xbe, 0xef]));
    assert_eq!(decode_hex(""), Some(vec![]));
}

#[test]
fn hex_decode_rejects_odd_length_and_bad_digits() {
    assert_eq!(decode_hex("123"), None);
    assert_eq!(decode_hex("zz"), None);
    assert_eq!(decode_hex("0g"), None);
    assert_eq!(decode_hex("é0"), None);
}

#[test]
fn hex_roundtrip_on_concrete_bytes() {
    let data = vec![1u8, 2, 3, 250, 0, 17];
    assert_eq!(decode_hex(&hex::encode(&data)), Some(data));
}

#[test]
fn hash_str_is_sha256_hex() {
    assert_eq!(
        hash_str(""),
        "e3b0c44298fc1c149afbf4c8996fb92427ae41e4649b934ca495991b7852b855"
    );
    assert_eq!(
        hash_str("abc"),
        "ba7816bf8f01cfea414140de5dae2223b00361a396177a9cb410ff61f20015ad"
    );
}

#[test]
fn hash160_is_ripemd_of_sha() {
    let data = b"hello";
    let expected = hex::encode(ripemd::Ripemd160::digest(sha2::Sha256::digest(data)));
    let got = hash160_hex(data);
    assert_eq!(got, expected);
    assert_eq!(got.len(), 40);
    assert_ne!(got, hex::encode(data));
}

#[test]
fn transaction_json_matches_field_order() {
    let tx = Transaction {
        inputs: vec![txin("ab", 1, "sig", "pk")],
        outputs: vec![txout("dest", 5)],
        timestamp: 42,
    };
    assert_eq!(
        tx.serialize(),
        "{\"inputs\":[{\"txid\":\"ab\",\"vout\":1,\"signature\":\"sig\",\"pubkey\":\"pk\"}],\"outputs\":[{\"pubkey_hash\":\"dest\",\"amount\":5}],\"timestamp\":42}"
    );
}

#[test]
fn empty_transaction_json() {
    let tx = Transaction { inputs: vec![], outputs: vec![], timestamp: 0 };
    assert_eq!(tx.serialize(), "{\"inputs\":[],\"outputs\":[],\"timestamp\":0}");
}

#[test]
fn json_string_escapes_as_serde_json() {
    let odd = "q\"b\\s\n\t\r\u{8}\u{c}\u{1}\u{1f}\u{7f}é€😀";
    let tx = Transaction { inputs: vec![], outputs: vec![txout(odd, 0)], timestamp: 18446744073709551615 };
    let expected = format!(
        "{{\"inputs\":[],\"outputs\":[{{\"pubkey_hash\":{},\"amount\":0}}],\"timestamp\":18446744073709551615}}",
        serde_json::to_string(odd).unwrap()
    );
    assert_eq!(tx.serialize(), expected);
}

#[test]
fn txid_is_hash_of_json() {
    let tx = Transaction {
        inputs: vec![txin("ab", 0, "", "")],
        outputs: vec![txout("x", 7), txout("y", 8)],
        timestamp: 3,
    };
    assert_eq!(tx.txid(), hash_str(&tx.serialize()));
}

fn value_of_input(i: &TxIn, clear: bool) -> Value {
    let mut m = serde_json::Map::new();
    m.insert("txid".to_string(), Value::from(i.txid.clone()));
    m.insert("vout".to_string(), Value::from(i.vout as u64));
    m.insert(
        "signature".to_string(),
        Value::from(if clear { String::new() } else { i.signature.clone() }),
    );
    m.insert("pubkey".to_string(), Value::from(if clear { String::new() } else { i.pubkey.clone() }));
    Value::Object(m)
}

fn value_of_tx(tx: &Transaction, clear: bool) -> Value {
    let mut m = serde_json::Map::new();
    m.insert(
        "inputs".to_string(),
        Value::Array(tx.inputs.iter().map(|i| value_of_input(i, clear)).collect()),
    );
    m.insert(
        "outputs".to_string(),
        Value::Array(
            tx.outputs
                .iter()
                .map(|o| {
                    let mut om = serde_json::Map::new();
                    om.insert("pubkey_hash".to_string(), Value::from(o.pubkey_hash.clone()));
                    om.insert("amount".to_string(), Value::from(o.amount));
                    Value::Object(om)
                })
                .collect(),
        ),
    );
    m.insert("timestamp".to_string(), Value::from(tx.timestamp));
    Value::Object(m)
}

#[test]
fn sighash_matches_serde_json_value_text() {
    let tx = Transaction {
        inputs: vec![txin("aa", 0, "s1", "p1"), txin("bb", 3, "s2", "p2")],
        outputs: vec![txout("dest\"q", 9)],
        timestamp: 77,
    };
    let mut base = serde_json::Map::new();
    base.insert("tx".to_string(), value_of_tx(&tx, true));
    base.insert("input_index".to_string(), Value::from(1u64));
    base.insert("prev_pubkey_hash".to_string(), Value::from("owner"));
    let expected = hash_str(&Value::Object(base).to_string());
    assert_eq!(tx.sighash_for_input(1, "owner"), expected);
}

#[test]
fn sighash_ignores_signatures() {
    let a = Transaction { inputs: vec![txin("aa", 0, "s1", "p1")], outputs: vec![txout("d", 1)], timestamp: 1 };
    let b = Transaction { inputs: vec![txin("aa", 0, "", "")], outputs: vec![txout("d", 1)], timestamp: 1 };
    assert_eq!(a.sighash_for_input(0, "o"), b.sighash_for_input(0, "o"));
    assert_ne!(a.sighash_for_input(0, "o"), a.sighash_for_input(0, "p"));
    assert_ne!(a.txid(), b.txid());
}

#[test]
fn digest_lengths_are_fixed() {
    for text in ["", "a", "a longer message"] {
        let h = hash_str(text);
        assert_eq!(h.len(), 64);
        assert!(h.chars().all(|c| "0123456789abcdef".contains(c)));
        let a = hash160_hex(text.as_bytes());
        assert_eq!(a.len(), 40);
        assert!(a.chars().all(|c| "0123456789abcdef".contains(c)));
    }
    let t = Transaction { inputs: vec![], outputs: vec![], timestamp: 5 };
    assert_eq!(t.txid().len(), 64);
}
