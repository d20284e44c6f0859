//! A node's decisions: which transactions enter the memory pool, what a
//! peer's message asks for, where a message is sent, and whether a peer's
//! chain replaces the local one.

use vstd::prelude::*;
use crate::tx::{Transaction, TransactionView, TxOutView, txid_of};
use crate::utxo::OutPoint;
use crate::validation::{
    txs_valid, spend_valid, input_outpoints, block_spends, block_fees, tx_fee, sum_amounts,
    txs_view, BLOCK_REWARD, lemma_sum_amounts_bound,
};
use crate::chain::{Blockchain, chain_valid, capped_work};
use crate::json::push_char;
use crate::fault::Fault;

verus! {

/// A transaction the memory pool accepts against `utxos`: valid on its own
/// and spending no outpoint twice.
pub open spec fn mempool_acceptable(tx: TransactionView, utxos: Map<OutPoint, TxOutView>) -> bool {
    &&& spend_valid(tx, utxos)
    &&& input_outpoints(tx).no_duplicates()
}

/// With an input-less coinbase paying at most the block reward, a block of
/// that coinbase and one more transaction is valid exactly when the
/// transaction is acceptable to the pool. So a transaction the pool accepts
/// can be mined on its own against the same outputs.
pub proof fn lemma_pool_check(cb: TransactionView, tx: TransactionView, utxos: Map<OutPoint, TxOutView>)
    requires
        cb.inputs.len() == 0,
        sum_amounts(cb.outputs) <= BLOCK_REWARD,
    ensures
        txs_valid(seq![cb, tx], utxos) == mempool_acceptable(tx, utxos),
{
    let txs = seq![cb, tx];
    assert(txs.drop_last() =~= seq![cb]);
    assert(block_spends(seq![cb]) =~= Seq::<OutPoint>::empty());
    assert(block_spends(txs) =~= input_outpoints(tx));
    assert(block_fees(seq![cb], utxos) == 0);
    assert(block_fees(txs, utxos) == tx_fee(tx, utxos));
    lemma_sum_amounts_bound(tx.outputs);
    if spend_valid(tx, utxos) {
        assert(tx_fee(tx, utxos) >= 0);
        assert(tx_fee(tx, utxos) <= u64::MAX);
    }
    if txs_valid(txs, utxos) {
        assert(spend_valid(txs[1], utxos));
    }
}

impl Blockchain {
    /// Whether the memory pool accepts `tx`: it is checked, after an
    /// input-less coinbase paying nothing and stamped with the current time,
    /// against a copy of the unspent outputs. The clock's fault when it
    /// reads a time before the epoch.
    pub fn accepts_transaction(&self, tx: &Transaction) -> (res: Result<bool, Fault>)
        ensures
            res matches Ok(b) ==> b == mempool_acceptable(tx@, self.utxos@),
            res matches Err(f) ==> f == Fault::ClockBeforeEpoch,
    {
        let mut temp = self.utxos.clone();
        let mut pair: Vec<Transaction> = Vec::new();
        let coinbase = match Transaction::coinbase("dummy", 0) {
            Ok(t) => t,
            Err(f) => return Err(f),
        };
        pair.push(coinbase);
        pair.push(tx.clone());
        proof {
            let cb = pair@[0]@;
            assert(cb.outputs.drop_last() =~= Seq::<TxOutView>::empty());
            assert(sum_amounts(Seq::<TxOutView>::empty()) == 0);
            assert(sum_amounts(cb.outputs) == 0);
            assert(txs_view(pair@) =~= seq![cb, tx@]);
            lemma_pool_check(cb, tx@, self.utxos@);
        }
        Ok(Self::validate_and_apply_transactions(pair.as_slice(), &mut temp))
    }

    /// Whether a peer's chain replaces this one: it is valid and has more
    /// work (both counted as `chain_work` counts them).
    pub fn prefers_remote(&self, remote: &Blockchain) -> (res: bool)
        ensures
            res == (chain_valid(remote.chain()) && capped_work(remote.chain()) > capped_work(
                self.chain(),
            )),
    {
        remote.is_chain_valid() && remote.chain_work() > self.chain_work()
    }
}

/// Adds `tx` to the pool unless a transaction with the same id is there.
/// Returns whether it was added.
pub fn add_to_mempool(pool: &mut Vec<Transaction>, tx: Transaction) -> (res: bool)
    ensures
        res == !(exists|i: int| 0 <= i < old(pool).len() && #[trigger] txid_of(old(pool)@[i]@) == txid_of(tx@)),
        res ==> final(pool)@ == old(pool)@.push(tx),
        !res ==> final(pool)@ == old(pool)@,
{
    let id = tx.txid();
    let mut i: usize = 0;
    while i < pool.len()
        invariant
            i <= pool.len(),
            id@ == txid_of(tx@),
            forall|j: int| 0 <= j < i ==> #[trigger] txid_of(pool@[j]@) != txid_of(tx@),
        decreases pool.len() - i,
    {
        let other = pool[i].txid();
        if other == id {
            return false;
        }
        i += 1;
    }
    pool.push(tx);
    true
}

/// The messages to send for a broadcast: `msg` to every peer, in order.
pub fn broadcast(peers: &[String], msg: &str) -> (res: Vec<(String, String)>)
    ensures
        res.len() == peers@.len(),
        forall|i: int| 0 <= i < peers@.len() ==> (#[trigger] res@[i]).0@ == peers@[i]@ && res@[i].1@ == msg@,
{
    let mut out: Vec<(String, String)> = Vec::new();
    for i in 0..peers.len()
        invariant
            out.len() == i,
            forall|j: int| 0 <= j < i ==> (#[trigger] out@[j]).0@ == peers@[j]@ && out@[j].1@ == msg@,
    {
        out.push((peers[i].clone(), msg.to_owned()));
    }
    out
}

/// The characters of a string, as a vector.
fn chars_of(s: &str) -> (res: Vec<char>)
    ensures
        res@ == s@,
{
    let mut out: Vec<char> = Vec::new();
    for c in it: s.chars()
        invariant
            it.seq() == s@,
            out@ == s@.take(it.index()),
    {
        out.push(c);
        assert(out@ =~= s@.take(it.index() + 1));
    }
    assert(s@.take(s@.len() as int) =~= s@);
    out
}

/// What follows `prefix` in `s`, if `s` starts with it.
pub fn strip_prefix(s: &str, prefix: &str) -> (res: Option<String>)
    ensures
        res is Some <==> prefix@.is_prefix_of(s@),
        res matches Some(rest) ==> rest@ == s@.skip(prefix@.len() as int),
{
    let sc = chars_of(s);
    let pc = chars_of(prefix);
    if pc.len() > sc.len() {
        return None;
    }
    let mut i: usize = 0;
    while i < pc.len()
        invariant
            pc@ == prefix@,
            sc@ == s@,
            pc.len() <= sc.len(),
            i <= pc.len(),
            forall|j: int| 0 <= j < i ==> pc@[j] == sc@[j],
        decreases pc.len() - i,
    {
        if pc[i] != sc[i] {
            return None;
        }
        i += 1;
    }
    assert(prefix@ =~= s@.take(prefix@.len() as int));
    let mut rest = String::new();
    let mut k = pc.len();
    while k < sc.len()
        invariant
            sc@ == s@,
            pc@.len() <= k <= sc.len(),
            pc@ == prefix@,
            rest@ == s@.subrange(prefix@.len() as int, k as int),
        decreases sc.len() - k,
    {
        push_char(&mut rest, sc[k]);
        assert(rest@ =~= s@.subrange(prefix@.len() as int, k + 1));
        k += 1;
    }
    Some(rest)
}

/// What a peer's message asks of the node.
pub enum Request {
    /// `REQ_CHAIN`: send the chain.
    RequestChain,
    /// `REQ_STATE`: send the node's state.
    RequestState,
    /// `TX|` and a transaction's JSON text.
    NewTransaction(String),
    /// `BLOCK|` and a block's JSON text.
    NewBlock(String),
    /// Anything else, which is ignored.
    Other,
}

/// Classifies a (trimmed) message from a peer.
pub fn classify_message(msg: &str) -> (res: Request)
    ensures
        (res is RequestChain) == (msg@ == "REQ_CHAIN"@),
        (res is RequestState) == (msg@ != "REQ_CHAIN"@ && msg@ == "REQ_STATE"@),
        (res is NewTransaction) == (msg@ != "REQ_CHAIN"@ && msg@ != "REQ_STATE"@ && "TX|"@.is_prefix_of(msg@)),
        res matches Request::NewTransaction(p) ==> p@ == msg@.skip("TX|"@.len() as int),
        (res is NewBlock) == (msg@ != "REQ_CHAIN"@ && msg@ != "REQ_STATE"@ && !"TX|"@.is_prefix_of(msg@)
            && "BLOCK|"@.is_prefix_of(msg@)),
        res matches Request::NewBlock(p) ==> p@ == msg@.skip("BLOCK|"@.len() as int),
{
    let owned = msg.to_owned();
    if owned == "REQ_CHAIN".to_owned() {
        return Request::RequestChain;
    }
    if owned == "REQ_STATE".to_owned() {
        return Request::RequestState;
    }
    if let Some(rest) = strip_prefix(msg, "TX|") {
        return Request::NewTransaction(rest);
    }
    if let Some(rest) = strip_prefix(msg, "BLOCK|") {
        return Request::NewBlock(rest);
    }
    Request::Other
}

} // verus!
