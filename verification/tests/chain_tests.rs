use blockchain_prototype::block::Block;
use blockchain_prototype::chain::Blockchain;
use blockchain_prototype::hexenc::decode_hex;
use blockchain_prototype::digest::hash160_hex;
use blockchain_prototype::node::add_to_mempool;
use blockchain_prototype::tx::{Transaction, TxIn, TxOut};
use blockchain_prototype::utxo::UtxoSet;
use blockchain_prototype::wallet::{build_transaction, Wallet};

const DIFFICULTY: u32 = 6;

fn mined_chain(miner: &str) -> Blockchain {
    let mut chain = Blockchain::new(DIFFICULTY, miner);
    assert!(chain.mine_block_with_txs(vec![]).unwrap().is_some());
    chain
}

fn block_on(chain: &Blockchain, txs: Vec<Transaction>) -> Block {
    let last = chain.blocks.last().unwrap();
    let mut b = Block::new(chain.blocks.len() as u32, 1, txs, last.hash.clone(), chain.difficulty);
    assert!(b.mine_block());
    b
}

fn coinbase(to: &str, amount: u64) -> Transaction {
    Transaction {
        inputs: vec![],
        outputs: vec![TxOut { pubkey_hash: to.to_string(), amount }],
        timestamp: 7,
    }
}

#[test]
fn new_chain_has_a_valid_mined_genesis() {
    let chain = Blockchain::new(DIFFICULTY, "miner");
    assert_eq!(chain.blocks.len(), 1);
    let g = &chain.blocks[0];
    assert_eq!(g.index, 0);
    assert_eq!(g.timestamp, 0);
    assert_eq!(g.previous_hash, "0");
    assert_eq!(g.transactions.len(), 1);
    assert_eq!(g.transactions[0].outputs[0].pubkey_hash, "genesis");
    assert_eq!(g.transactions[0].outputs[0].amount, 0);
    assert!(chain.is_chain_valid());
    assert_eq!(chain.utxos.len(), 1);
    let gid = g.transactions[0].txid();
    assert_eq!(chain.utxos.get(&gid, 0).unwrap().pubkey_hash, "genesis");
    assert_eq!(chain.miner_pubkey_hash, "miner");
    assert_eq!(chain.difficulty, DIFFICULTY);
}

#[test]
fn mining_pays_the_miner_and_keeps_the_chain_valid() {
    let mut chain = Blockchain::new(DIFFICULTY, "miner");
    let block = chain.mine_block_with_txs(vec![]).unwrap().unwrap();
    assert_eq!(chain.blocks.len(), 2);
    assert_eq!(block.index, 1);
    assert_eq!(block.previous_hash, chain.blocks[0].hash);
    assert_eq!(block.transactions[0].outputs[0].pubkey_hash, "miner");
    assert_eq!(block.transactions[0].outputs[0].amount, 50);
    assert!(chain.is_chain_valid());
    let cb = block.transactions[0].txid();
    assert_eq!(chain.utxos.get(&cb, 0).unwrap().amount, 50);
    assert_eq!(chain.utxos.len(), 2);
}

#[test]
fn chain_work_counts_two_to_the_difficulty() {
    let chain = mined_chain("m");
    assert_eq!(chain.chain_work(), 2 * (1u128 << DIFFICULTY));
}

#[test]
fn chain_work_caps_difficulty_at_120() {
    let mut chain = Blockchain::new(0, "m");
    chain.blocks[0].difficulty = 200;
    assert_eq!(chain.chain_work(), 1u128 << 120);
    chain.blocks.push(chain.blocks[0].clone());
    chain.blocks.push(chain.blocks[0].clone());
    assert_eq!(chain.chain_work(), 3u128 << 120);
}

#[test]
fn try_add_block_rejects_wrong_index_and_link() {
    let mut chain = Blockchain::new(DIFFICULTY, "m");
    let mut wrong_index = block_on(&chain, vec![coinbase("m", 50)]);
    wrong_index.index = 5;
    assert!(!chain.try_add_block(wrong_index));
    let mut b = Block::new(1, 1, vec![coinbase("m", 50)], "not the tip".to_string(), DIFFICULTY);
    assert!(b.mine_block());
    assert!(!chain.try_add_block(b));
    assert_eq!(chain.blocks.len(), 1);
    assert_eq!(chain.blocks[0].hash.len(), 64);
}

#[test]
fn try_add_block_rejects_tampering() {
    let mut chain = Blockchain::new(DIFFICULTY, "m");
    let good = block_on(&chain, vec![coinbase("m", 50)]);
    let mut bad_hash = good.clone();
    bad_hash.nonce += 1;
    assert!(!chain.try_add_block(bad_hash));
    let mut bad_merkle = good.clone();
    bad_merkle.transactions[0].outputs[0].amount = 49;
    assert!(!chain.try_add_block(bad_merkle));
    let mut other_difficulty = Block::new(1, 1, vec![coinbase("m", 50)], good.previous_hash.clone(), 0);
    assert!(other_difficulty.mine_block());
    assert!(!chain.try_add_block(other_difficulty));
    assert!(chain.try_add_block(good));
    assert!(chain.is_chain_valid());
}

#[test]
fn coinbase_may_not_claim_more_than_reward_and_fees() {
    let mut chain = Blockchain::new(DIFFICULTY, "m");
    let greedy = block_on(&chain, vec![coinbase("m", 51)]);
    assert!(!chain.try_add_block(greedy));
    let no_tx = block_on(&chain, vec![]);
    assert!(!chain.try_add_block(no_tx));
    let with_input = block_on(
        &chain,
        vec![Transaction {
            inputs: vec![TxIn { txid: "x".into(), vout: 0, signature: String::new(), pubkey: String::new() }],
            outputs: vec![],
            timestamp: 0,
        }],
    );
    assert!(!chain.try_add_block(with_input));
    assert_eq!(chain.blocks.len(), 1);
}

#[test]
fn validate_and_apply_leaves_outputs_unchanged_on_rejection() {
    let mut utxos = UtxoSet::new();
    utxos.insert("t".into(), 0, TxOut { pubkey_hash: "a".into(), amount: 5 });
    let spend = Transaction {
        inputs: vec![TxIn { txid: "t".into(), vout: 0, signature: "00".into(), pubkey: "00".into() }],
        outputs: vec![TxOut { pubkey_hash: "b".into(), amount: 5 }],
        timestamp: 0,
    };
    let ok = Blockchain::validate_and_apply_transactions(&[coinbase("m", 0), spend], &mut utxos);
    assert!(!ok);
    assert_eq!(utxos.len(), 1);
    assert_eq!(utxos.get(&"t".to_string(), 0).unwrap().amount, 5);
}

#[test]
fn validate_and_apply_applies_coinbase_outputs() {
    let mut utxos = UtxoSet::new();
    let cb = Transaction {
        inputs: vec![],
        outputs: vec![TxOut { pubkey_hash: "a".into(), amount: 20 }, TxOut { pubkey_hash: "b".into(), amount: 30 }],
        timestamp: 1,
    };
    let id = cb.txid();
    assert!(Blockchain::validate_and_apply_transactions(&[cb], &mut utxos));
    assert_eq!(utxos.len(), 2);
    assert_eq!(utxos.get(&id, 0).unwrap().amount, 20);
    assert_eq!(utxos.get(&id, 1).unwrap().pubkey_hash, "b");
    assert!(utxos.get(&id, 2).is_none());
}

#[test]
fn wallet_fields_derive_from_key() {
    let w = Wallet::new().unwrap();
    assert_eq!(w.signing_key.len(), 32);
    assert_eq!(w.signing_key.len(), 32);
    assert_eq!(w.pubkey_hex.len(), 66);
    assert!(w.pubkey_hex.starts_with("02") || w.pubkey_hex.starts_with("03"));
    let pk = decode_hex(&w.pubkey_hex).unwrap();
    assert_eq!(w.pubkey_hash_hex, hash160_hex(&pk));
}

#[test]
fn built_payment_is_accepted_and_mined() {
    let alice = Wallet::new().unwrap();
    let mut chain = mined_chain(&alice.pubkey_hash_hex);
    assert_eq!(alice.balance(&chain.utxos), 50);
    let tx = build_transaction(&alice, "bob", 20, &chain.utxos).unwrap().unwrap();
    assert_eq!(tx.inputs.len(), 1);
    assert_eq!(tx.outputs.len(), 2);
    assert_eq!(tx.outputs[0].pubkey_hash, "bob");
    assert_eq!(tx.outputs[0].amount, 20);
    assert_eq!(tx.outputs[1].pubkey_hash, alice.pubkey_hash_hex);
    assert_eq!(tx.outputs[1].amount, 30);
    assert_eq!(tx.inputs[0].pubkey, alice.pubkey_hex);
    assert_eq!(chain.accepts_transaction(&tx), Ok(true));
    chain.miner_pubkey_hash = "miner2".to_string();
    let block = chain.mine_block_with_txs(vec![tx.clone()]).unwrap().unwrap();
    assert_eq!(block.transactions.len(), 2);
    assert!(chain.is_chain_valid());
    assert_eq!(alice.balance(&chain.utxos), 30);
    let reward = chain.utxos.get(&block.transactions[0].txid(), 0).unwrap();
    assert_eq!((reward.pubkey_hash.as_str(), reward.amount), ("miner2", 50));
    let bob_out = chain.utxos.get(&tx.txid(), 0).unwrap();
    assert_eq!(bob_out.amount, 20);
    assert_eq!(chain.accepts_transaction(&tx), Ok(false));
}

#[test]
fn exact_payment_has_no_change() {
    let alice = Wallet::new().unwrap();
    let chain = mined_chain(&alice.pubkey_hash_hex);
    let tx = build_transaction(&alice, "bob", 50, &chain.utxos).unwrap().unwrap();
    assert_eq!(tx.outputs.len(), 1);
    assert_eq!(chain.accepts_transaction(&tx), Ok(true));
}

#[test]
fn payment_fails_without_funds() {
    let alice = Wallet::new().unwrap();
    let chain = mined_chain(&alice.pubkey_hash_hex);
    assert!(matches!(build_transaction(&alice, "bob", 51, &chain.utxos), Ok(None)));
    let carol = Wallet::new().unwrap();
    assert!(matches!(build_transaction(&carol, "bob", 1, &chain.utxos), Ok(None)));
}

#[test]
fn tampered_signature_is_rejected() {
    let alice = Wallet::new().unwrap();
    let chain = mined_chain(&alice.pubkey_hash_hex);
    let mut tx = build_transaction(&alice, "bob", 10, &chain.utxos).unwrap().unwrap();
    tx.outputs[0].amount = 11;
    tx.outputs[1].amount = 39;
    assert_eq!(chain.accepts_transaction(&tx), Ok(false));
    let mallory = Wallet::new().unwrap();
    let mut stolen = build_transaction(&alice, "bob", 10, &chain.utxos).unwrap().unwrap();
    stolen.inputs[0].pubkey = mallory.pubkey_hex.clone();
    assert_eq!(chain.accepts_transaction(&stolen), Ok(false));
}

#[test]
fn double_spend_within_a_block_is_rejected() {
    let alice = Wallet::new().unwrap();
    let mut chain = mined_chain(&alice.pubkey_hash_hex);
    let a = build_transaction(&alice, "bob", 10, &chain.utxos).unwrap().unwrap();
    let b = build_transaction(&alice, "carol", 10, &chain.utxos).unwrap().unwrap();
    assert_eq!(chain.accepts_transaction(&a), Ok(true));
    assert_eq!(chain.accepts_transaction(&b), Ok(true));
    assert!(chain.mine_block_with_txs(vec![a, b]).unwrap().is_none());
    assert_eq!(chain.blocks.len(), 2);
}

#[test]
fn sign_input_out_of_range_changes_nothing() {
    let w = Wallet::new().unwrap();
    let mut tx = Transaction { inputs: vec![], outputs: vec![], timestamp: 0 };
    assert_eq!(tx.sign_input(0, &w, "x"), Ok(false));
    assert!(tx.inputs.is_empty());
}

#[test]
fn rebuild_gives_the_same_outputs() {
    let alice = Wallet::new().unwrap();
    let mut chain = mined_chain(&alice.pubkey_hash_hex);
    let tx = build_transaction(&alice, "bob", 5, &chain.utxos).unwrap().unwrap();
    chain.mine_block_with_txs(vec![tx]).unwrap().unwrap();
    let before = alice.balance(&chain.utxos);
    let count = chain.utxos.len();
    chain.rebuild_utxos();
    assert_eq!(alice.balance(&chain.utxos), before);
    assert_eq!(chain.utxos.len(), count);
}

#[test]
fn from_blocks_accepts_valid_and_refuses_invalid() {
    let chain = mined_chain("m");
    let copy = Blockchain::from_blocks(chain.blocks.clone(), DIFFICULTY, "other").unwrap();
    assert_eq!(copy.utxos.len(), chain.utxos.len());
    assert_eq!(copy.miner_pubkey_hash, "other");
    assert!(Blockchain::from_blocks(vec![], DIFFICULTY, "m").is_none());
    let mut broken = chain.blocks.clone();
    broken[1].previous_hash = "x".to_string();
    assert!(Blockchain::from_blocks(broken, DIFFICULTY, "m").is_none());
    let mut bad_genesis = chain.blocks.clone();
    bad_genesis.truncate(1);
    bad_genesis[0].previous_hash = "1".to_string();
    assert!(Blockchain::from_blocks(bad_genesis, DIFFICULTY, "m").is_none());
}

#[test]
fn longer_valid_chain_is_preferred() {
    let short = Blockchain::new(DIFFICULTY, "m");
    let long = mined_chain("m");
    assert!(short.prefers_remote(&long));
    assert!(!long.prefers_remote(&short));
    assert!(!long.prefers_remote(&long));
    let mut invalid = mined_chain("m");
    invalid.blocks[1].nonce += 1;
    assert!(!short.prefers_remote(&invalid));
}

#[test]
fn mempool_removal_and_dedup() {
    let chain = Blockchain::new(DIFFICULTY, "m");
    let a = coinbase("a", 1);
    let b = coinbase("b", 2);
    let mut pool = Vec::new();
    assert!(add_to_mempool(&mut pool, a.clone()));
    assert!(!add_to_mempool(&mut pool, a.clone()));
    assert!(add_to_mempool(&mut pool, b.clone()));
    assert_eq!(pool.len(), 2);
    let block = Block::new(1, 0, vec![a.clone()], "p".to_string(), 0);
    chain.remove_txs_from_mempool(&mut pool, &block);
    assert_eq!(pool.len(), 1);
    assert_eq!(pool[0].txid(), b.txid());
}

#[test]
fn utxo_set_insert_replace_remove() {
    let mut u = UtxoSet::new();
    u.insert("a".into(), 0, TxOut { pubkey_hash: "x".into(), amount: 1 });
    u.insert("a".into(), 1, TxOut { pubkey_hash: "y".into(), amount: 2 });
    u.insert("a".into(), 0, TxOut { pubkey_hash: "z".into(), amount: 3 });
    assert_eq!(u.len(), 2);
    assert_eq!(u.get(&"a".to_string(), 0).unwrap().amount, 3);
    let (txid, vout, out) = u.entry(0);
    assert_eq!((txid.as_str(), vout, out.amount), ("a", 0, 3));
    u.remove(&"a".to_string(), 0);
    assert!(!u.contains(&"a".to_string(), 0));
    assert!(u.contains(&"a".to_string(), 1));
    u.remove(&"missing".to_string(), 0);
    assert_eq!(u.len(), 1);
}

#[test]
fn mining_at_given_times_stamps_coinbase_and_block() {
    let mut chain = Blockchain::new(DIFFICULTY, "miner");
    let block = chain.mine_block_at(vec![], 11, 22).unwrap();
    assert_eq!(block.index, 1);
    assert_eq!(block.timestamp, 22);
    assert_eq!(block.previous_hash, chain.blocks[0].hash);
    assert_eq!(block.transactions.len(), 1);
    assert_eq!(block.transactions[0].timestamp, 11);
    assert!(block.transactions[0].inputs.is_empty());
    assert_eq!(block.transactions[0].outputs[0].pubkey_hash, "miner");
    assert_eq!(block.transactions[0].outputs[0].amount, 50);
    assert_eq!(block.hash, block.calculate_hash());
    assert_eq!(chain.blocks.len(), 2);
    assert_eq!(chain.blocks[1].hash, block.hash);
    let mut again = Blockchain::new(DIFFICULTY, "miner");
    let same = again.mine_block_at(vec![], 11, 22).unwrap();
    assert_eq!(same.nonce, block.nonce);
    assert_eq!(same.hash, block.hash);
}

#[test]
fn mining_at_given_times_refuses_a_double_spend() {
    let alice = Wallet::new().unwrap();
    let mut chain = mined_chain(&alice.pubkey_hash_hex);
    let a = build_transaction(&alice, "bob", 10, &chain.utxos).unwrap().unwrap();
    let b = build_transaction(&alice, "carol", 10, &chain.utxos).unwrap().unwrap();
    assert!(chain.mine_block_at(vec![a, b], 3, 4).is_none());
    assert_eq!(chain.blocks.len(), 2);
}

#[test]
fn genesis_depends_on_difficulty_only() {
    let a = Blockchain::new(DIFFICULTY, "alice");
    let b = Blockchain::new(DIFFICULTY, "bob");
    assert_eq!(a.serialize_chain(), b.serialize_chain());
    let c = Blockchain::new(DIFFICULTY + 1, "alice");
    assert_ne!(a.blocks[0].difficulty, c.blocks[0].difficulty);
}

#[test]
fn coinbase_at_uses_the_given_time() {
    let t = Transaction::coinbase_at("m", 50, 123);
    assert!(t.inputs.is_empty());
    assert_eq!(t.outputs.len(), 1);
    assert_eq!(t.outputs[0].pubkey_hash, "m");
    assert_eq!(t.outputs[0].amount, 50);
    assert_eq!(t.timestamp, 123);
    let now = Transaction::coinbase("m", 50).unwrap();
    assert!(now.timestamp > 1_577_836_800);
}

#[test]
fn sign_input_in_range_signs() {
    let w = Wallet::new().unwrap();
    let mut tx = Transaction {
        inputs: vec![TxIn { txid: "ab".to_string(), vout: 0, signature: String::new(), pubkey: String::new() }],
        outputs: vec![],
        timestamp: 0,
    };
    assert_eq!(tx.sign_input(0, &w, "x"), Ok(true));
    assert_eq!(tx.inputs[0].pubkey, w.pubkey_hex);
    assert!(!tx.inputs[0].signature.is_empty());
}

#[test]
fn wallet_key_and_address_lengths() {
    let w = Wallet::new().unwrap();
    assert_eq!(w.signing_key.len(), 32);
    assert_eq!(w.pubkey_hex.len(), 66);
    assert_eq!(w.pubkey_hash_hex.len(), 40);
    assert!(w.pubkey_hash_hex.chars().all(|c| c.is_ascii_hexdigit() && !c.is_ascii_uppercase()));
}

#[test]
fn empty_chain_refuses_a_later_block() {
    let mut chain = Blockchain::new(DIFFICULTY, "m");
    let block = block_on(&chain, vec![coinbase("m", 50)]);
    chain.blocks.clear();
    assert!(!chain.add_block(block.clone()));
    assert!(!chain.try_add_block(block));
    assert!(chain.blocks.is_empty());
}
