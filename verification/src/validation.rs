//! The rules a list of block transactions must satisfy against the unspent
//! outputs, and the effect of applying them.

use vstd::prelude::*;
use vstd::utf8::encode_utf8;
use crate::hexenc::{hex_encode, hex_decode, hex_decodable};
use crate::digest::hash160;
use crate::ecdsa::ecdsa_verifies;
use crate::tx::{Transaction, TransactionView, TxInView, TxOutView, sighash_of, txid_of};
use crate::utxo::{OutPoint, UtxoSet};
use crate::hexenc::decode_hex;
use crate::digest::hash160_hex;
use crate::ecdsa::verify_signature;

verus! {

/// The amount a block may pay its miner on top of the fees it collects.
pub const BLOCK_REWARD: u64 = 50;

/// The views of a list of transactions.
pub open spec fn txs_view(txs: Seq<Transaction>) -> Seq<TransactionView> {
    txs.map_values(|t: Transaction| t@)
}

/// The outpoint an input spends.
pub open spec fn outpoint_of(i: TxInView) -> OutPoint {
    (i.txid, i.vout)
}

/// The outpoints a transaction's inputs spend, in order.
pub open spec fn input_outpoints(tx: TransactionView) -> Seq<OutPoint> {
    tx.inputs.map_values(|i: TxInView| outpoint_of(i))
}

/// The total amount of a list of outputs.
pub open spec fn sum_amounts(outs: Seq<TxOutView>) -> int
    decreases outs.len(),
{
    if outs.len() == 0 {
        0
    } else {
        sum_amounts(outs.drop_last()) + outs.last().amount
    }
}

/// The outputs that a transaction's inputs spend, looked up in `utxos`.
pub open spec fn spent_outputs(tx: TransactionView, utxos: Map<OutPoint, TxOutView>) -> Seq<
    TxOutView,
> {
    tx.inputs.map_values(|i: TxInView| utxos[outpoint_of(i)])
}

/// Input `index` is authorised to spend `prev`: its public key (hex) hashes
/// to the address of `prev`, and its signature (DER, hex) verifies under that
/// key over the input's signature hash.
pub open spec fn input_authorized(tx: TransactionView, index: int, prev: TxOutView) -> bool {
    let pubkey_text = encode_utf8(tx.inputs[index].pubkey);
    let sig_text = encode_utf8(tx.inputs[index].signature);
    &&& hex_decodable(pubkey_text)
    &&& hex_encode(hash160(hex_decode(pubkey_text))) == prev.pubkey_hash
    &&& hex_decodable(sig_text)
    &&& ecdsa_verifies(
        hex_decode(pubkey_text),
        encode_utf8(sighash_of(tx, index as nat, prev.pubkey_hash)),
        hex_decode(sig_text),
    )
}

/// Input `index` spends an unspent output and is authorised to.
pub open spec fn input_valid(tx: TransactionView, index: int, utxos: Map<OutPoint, TxOutView>) -> bool {
    &&& utxos.contains_key(outpoint_of(tx.inputs[index]))
    &&& input_authorized(tx, index, utxos[outpoint_of(tx.inputs[index])])
}

/// A non-coinbase transaction is valid against `utxos`: it has inputs and
/// outputs, every input is valid, every output pays a positive amount, both
/// totals fit in a u64, and it pays out no more than it spends.
pub open spec fn spend_valid(tx: TransactionView, utxos: Map<OutPoint, TxOutView>) -> bool {
    &&& tx.inputs.len() > 0
    &&& tx.outputs.len() > 0
    &&& forall|j: int| 0 <= j < tx.inputs.len() ==> #[trigger] input_valid(tx, j, utxos)
    &&& forall|j: int| 0 <= j < tx.outputs.len() ==> #[trigger] tx.outputs[j].amount > 0
    &&& sum_amounts(spent_outputs(tx, utxos)) <= u64::MAX
    &&& sum_amounts(tx.outputs) <= u64::MAX
    &&& sum_amounts(tx.outputs) <= sum_amounts(spent_outputs(tx, utxos))
}

/// The fee a transaction leaves: what it spends minus what it pays out.
pub open spec fn tx_fee(tx: TransactionView, utxos: Map<OutPoint, TxOutView>) -> int {
    sum_amounts(spent_outputs(tx, utxos)) - sum_amounts(tx.outputs)
}

/// The outpoints spent by all transactions but the first, in order.
pub open spec fn block_spends(txs: Seq<TransactionView>) -> Seq<OutPoint>
    decreases txs.len(),
{
    if txs.len() <= 1 {
        Seq::empty()
    } else {
        block_spends(txs.drop_last()) + input_outpoints(txs.last())
    }
}

/// The fees of all transactions but the first.
pub open spec fn block_fees(txs: Seq<TransactionView>, utxos: Map<OutPoint, TxOutView>) -> int
    decreases txs.len(),
{
    if txs.len() <= 1 {
        0
    } else {
        block_fees(txs.drop_last(), utxos) + tx_fee(txs.last(), utxos)
    }
}

/// The transactions of a block are valid against `utxos`: there is at least
/// one; the first is a coinbase without inputs; every other one is valid on
/// its own; no outpoint is spent twice; the fees fit in a u64; and the
/// coinbase pays out at most the block reward plus the fees.
pub open spec fn txs_valid(txs: Seq<TransactionView>, utxos: Map<OutPoint, TxOutView>) -> bool {
    &&& txs.len() > 0
    &&& txs[0].inputs.len() == 0
    &&& forall|i: int| 1 <= i < txs.len() ==> #[trigger] spend_valid(txs[i], utxos)
    &&& block_spends(txs).no_duplicates()
    &&& block_fees(txs, utxos) <= u64::MAX
    &&& sum_amounts(txs[0].outputs) <= BLOCK_REWARD + block_fees(txs, utxos)
}

/// The outputs left after the inputs' outpoints are spent.
pub open spec fn remove_spent(utxos: Map<OutPoint, TxOutView>, inputs: Seq<TxInView>) -> Map<
    OutPoint,
    TxOutView,
>
    decreases inputs.len(),
{
    if inputs.len() == 0 {
        utxos
    } else {
        remove_spent(utxos, inputs.drop_last()).remove(outpoint_of(inputs.last()))
    }
}

/// The outputs with a transaction's outputs added under its id.
pub open spec fn add_outputs(
    utxos: Map<OutPoint, TxOutView>,
    txid: Seq<char>,
    outs: Seq<TxOutView>,
) -> Map<OutPoint, TxOutView>
    decreases outs.len(),
{
    if outs.len() == 0 {
        utxos
    } else {
        add_outputs(utxos, txid, outs.drop_last()).insert(
            (txid, (outs.len() - 1) as usize),
            outs.last(),
        )
    }
}

/// Applies one transaction: spends its inputs (unless it is the coinbase)
/// and adds its outputs.
pub open spec fn apply_tx(utxos: Map<OutPoint, TxOutView>, tx: TransactionView, spends: bool) -> Map<
    OutPoint,
    TxOutView,
> {
    add_outputs(
        if spends {
            remove_spent(utxos, tx.inputs)
        } else {
            utxos
        },
        txid_of(tx),
        tx.outputs,
    )
}

/// Applies the transactions of a block in order; the first is the coinbase.
pub open spec fn apply_txs(utxos: Map<OutPoint, TxOutView>, txs: Seq<TransactionView>) -> Map<
    OutPoint,
    TxOutView,
>
    decreases txs.len(),
{
    if txs.len() == 0 {
        utxos
    } else {
        apply_tx(apply_txs(utxos, txs.drop_last()), txs.last(), txs.len() > 1)
    }
}

/// Spending removes exactly the inputs' outpoints: none of them remains,
/// and every other outpoint keeps what it had.
proof fn lemma_remove_spent_keys(utxos: Map<OutPoint, TxOutView>, inputs: Seq<TxInView>, p: OutPoint)
    ensures
        (exists|j: int| 0 <= j < inputs.len() && outpoint_of(#[trigger] inputs[j]) == p)
            ==> !remove_spent(utxos, inputs).contains_key(p),
        (forall|j: int| 0 <= j < inputs.len() ==> outpoint_of(#[trigger] inputs[j]) != p) ==> {
            &&& remove_spent(utxos, inputs).contains_key(p) == utxos.contains_key(p)
            &&& utxos.contains_key(p) ==> remove_spent(utxos, inputs)[p] == utxos[p]
        },
    decreases inputs.len(),
{
    if inputs.len() > 0 {
        let init = inputs.drop_last();
        lemma_remove_spent_keys(utxos, init, p);
        if exists|j: int| 0 <= j < inputs.len() && outpoint_of(#[trigger] inputs[j]) == p {
            let j = choose|j: int| 0 <= j < inputs.len() && outpoint_of(#[trigger] inputs[j]) == p;
            if j < inputs.len() - 1 {
                assert(init[j] == inputs[j]);
            }
        }
        if forall|j: int| 0 <= j < inputs.len() ==> outpoint_of(#[trigger] inputs[j]) != p {
            assert forall|j: int| 0 <= j < init.len() implies outpoint_of(#[trigger] init[j]) != p by {
                assert(init[j] == inputs[j]);
            }
            assert(outpoint_of(inputs[inputs.len() - 1]) != p);
        }
    }
}

/// Adding a transaction's outputs puts output `m` at `(txid, m)` and leaves
/// every other outpoint as it was.
proof fn lemma_add_outputs_keys(utxos: Map<OutPoint, TxOutView>, txid: Seq<char>, outs: Seq<TxOutView>, p: OutPoint)
    requires
        outs.len() <= usize::MAX,
    ensures
        p.0 == txid && p.1 < outs.len() ==> add_outputs(utxos, txid, outs).contains_key(p)
            && add_outputs(utxos, txid, outs)[p] == outs[p.1 as int],
        !(p.0 == txid && p.1 < outs.len()) ==> add_outputs(utxos, txid, outs).contains_key(p)
            == utxos.contains_key(p),
        !(p.0 == txid && p.1 < outs.len()) && utxos.contains_key(p) ==> add_outputs(
            utxos,
            txid,
            outs,
        )[p] == utxos[p],
    decreases outs.len(),
{
    if outs.len() > 0 {
        lemma_add_outputs_keys(utxos, txid, outs.drop_last(), p);
        let last_index = (outs.len() - 1) as usize;
        assert(last_index == outs.len() - 1);
    }
}

/// Whether transaction `k` of the list creates an output at `p`.
pub open spec fn creates(txs: Seq<TransactionView>, k: int, p: OutPoint) -> bool {
    txid_of(txs[k]) == p.0 && p.1 < txs[k].outputs.len()
}

/// Whether an input of transaction `i` (not the coinbase) spends `p`.
pub open spec fn spends_at(txs: Seq<TransactionView>, i: int, p: OutPoint) -> bool {
    1 <= i && exists|j: int| 0 <= j < txs[i].inputs.len() && outpoint_of(#[trigger] txs[i].inputs[j]) == p
}

/// After a block's transactions are applied, an outpoint that an input of a
/// transaction other than the coinbase spends is no longer unspent, unless
/// that transaction or a later one creates an output at the same outpoint.
pub proof fn lemma_applied_spends_are_gone(utxos: Map<OutPoint, TxOutView>, txs: Seq<TransactionView>, i: int, j: int)
    requires
        1 <= i < txs.len(),
        0 <= j < txs[i].inputs.len(),
        forall|k: int| i <= k < txs.len() ==> !#[trigger] creates(txs, k, outpoint_of(txs[i].inputs[j])),
        forall|k: int| 0 <= k < txs.len() ==> #[trigger] txs[k].outputs.len() <= usize::MAX,
    ensures
        !apply_txs(utxos, txs).contains_key(outpoint_of(txs[i].inputs[j])),
    decreases txs.len(),
{
    let p = outpoint_of(txs[i].inputs[j]);
    let init = txs.drop_last();
    let last = txs.last();
    let n = txs.len() - 1;
    assert(!creates(txs, n, p));
    let before = apply_txs(utxos, init);
    if i < n {
        assert(init[i] == txs[i]);
        assert forall|k: int| i <= k < init.len() implies !#[trigger] creates(init, k, p) by {
            assert(init[k] == txs[k]);
            assert(!creates(txs, k, p));
        }
        lemma_applied_spends_are_gone(utxos, init, i, j);
        lemma_remove_spent_keys(before, last.inputs, p);
        if forall|jj: int| 0 <= jj < last.inputs.len() ==> outpoint_of(#[trigger] last.inputs[jj]) != p {
        }
    } else {
        lemma_remove_spent_keys(before, last.inputs, p);
    }
    lemma_add_outputs_keys(remove_spent(before, last.inputs), txid_of(last), last.outputs, p);
}

/// Applying a block's transactions leaves an outpoint that no input (of a
/// transaction other than the coinbase) spends and no transaction creates
/// exactly as it was: unspent with the same output, or absent.
pub proof fn lemma_applied_untouched_kept(utxos: Map<OutPoint, TxOutView>, txs: Seq<TransactionView>, p: OutPoint)
    requires
        forall|i: int| 0 <= i < txs.len() ==> !#[trigger] spends_at(txs, i, p),
        forall|k: int| 0 <= k < txs.len() ==> !#[trigger] creates(txs, k, p),
        forall|k: int| 0 <= k < txs.len() ==> #[trigger] txs[k].outputs.len() <= usize::MAX,
    ensures
        apply_txs(utxos, txs).contains_key(p) == utxos.contains_key(p),
        utxos.contains_key(p) ==> apply_txs(utxos, txs)[p] == utxos[p],
    decreases txs.len(),
{
    if txs.len() > 0 {
        let init = txs.drop_last();
        let last = txs.last();
        let n = txs.len() - 1;
        assert forall|i: int| 0 <= i < init.len() implies !#[trigger] spends_at(init, i, p) by {
            assert(init[i] == txs[i]);
            assert(!spends_at(txs, i, p));
        }
        assert forall|k: int| 0 <= k < init.len() implies !#[trigger] creates(init, k, p) by {
            assert(init[k] == txs[k]);
            assert(!creates(txs, k, p));
        }
        lemma_applied_untouched_kept(utxos, init, p);
        let before = apply_txs(utxos, init);
        assert(!creates(txs, n, p));
        lemma_add_outputs_keys(
            if n >= 1 { remove_spent(before, last.inputs) } else { before },
            txid_of(last),
            last.outputs,
            p,
        );
        if n >= 1 {
            assert(!spends_at(txs, n, p));
            lemma_remove_spent_keys(before, last.inputs, p);
        }
    }
}

/// After a block's transactions are applied, output `m` of transaction `k`
/// is unspent at `(id of k, m)` with that output, unless a later
/// transaction spends or creates that outpoint.
pub proof fn lemma_applied_outputs_added(utxos: Map<OutPoint, TxOutView>, txs: Seq<TransactionView>, k: int, m: usize)
    requires
        0 <= k < txs.len(),
        0 <= m < txs[k].outputs.len(),
        forall|i: int| k < i < txs.len() ==> !#[trigger] spends_at(txs, i, (txid_of(txs[k]), m)),
        forall|i: int| k < i < txs.len() ==> !#[trigger] creates(txs, i, (txid_of(txs[k]), m)),
        forall|i: int| 0 <= i < txs.len() ==> #[trigger] txs[i].outputs.len() <= usize::MAX,
    ensures
        apply_txs(utxos, txs).contains_key((txid_of(txs[k]), m)),
        apply_txs(utxos, txs)[(txid_of(txs[k]), m)] == txs[k].outputs[m as int],
    decreases txs.len(),
{
    let p = (txid_of(txs[k]), m);
    let init = txs.drop_last();
    let last = txs.last();
    let n = txs.len() - 1;
    let before = apply_txs(utxos, init);
    if k == n {
        lemma_add_outputs_keys(
            if n >= 1 { remove_spent(before, last.inputs) } else { before },
            txid_of(last),
            last.outputs,
            p,
        );
    } else {
        assert(init[k] == txs[k]);
        assert forall|i: int| k < i < init.len() implies !#[trigger] spends_at(init, i, p) by {
            assert(init[i] == txs[i]);
            assert(!spends_at(txs, i, p));
        }
        assert forall|i: int| k < i < init.len() implies !#[trigger] creates(init, i, p) by {
            assert(init[i] == txs[i]);
            assert(!creates(txs, i, p));
        }
        lemma_applied_outputs_added(utxos, init, k, m);
        assert(!spends_at(txs, n, p));
        assert(!creates(txs, n, p));
        lemma_remove_spent_keys(before, last.inputs, p);
        lemma_add_outputs_keys(remove_spent(before, last.inputs), txid_of(last), last.outputs, p);
    }
}

/// The total paid out by all the transactions.
pub open spec fn value_created(txs: Seq<TransactionView>) -> int
    decreases txs.len(),
{
    if txs.len() == 0 {
        0
    } else {
        value_created(txs.drop_last()) + sum_amounts(txs.last().outputs)
    }
}

/// The total spent by all transactions but the first.
pub open spec fn value_spent(txs: Seq<TransactionView>, utxos: Map<OutPoint, TxOutView>) -> int
    decreases txs.len(),
{
    if txs.len() <= 1 {
        0
    } else {
        value_spent(txs.drop_last(), utxos) + sum_amounts(spent_outputs(txs.last(), utxos))
    }
}

/// What the transactions pay out is what the coinbase pays plus what the
/// others spend, less their fees.
proof fn lemma_value_balance(txs: Seq<TransactionView>, utxos: Map<OutPoint, TxOutView>)
    requires
        txs.len() > 0,
    ensures
        value_created(txs) == sum_amounts(txs[0].outputs) + value_spent(txs, utxos) - block_fees(
            txs,
            utxos,
        ),
    decreases txs.len(),
{
    if txs.len() > 1 {
        lemma_value_balance(txs.drop_last(), utxos);
        assert(txs.drop_last()[0] == txs[0]);
    } else {
        assert(txs.drop_last() =~= Seq::<TransactionView>::empty());
        assert(value_created(Seq::<TransactionView>::empty()) == 0);
    }
}

/// A block whose transactions are valid pays out at most what it spends
/// plus the block reward.
pub proof fn lemma_valid_block_value(txs: Seq<TransactionView>, utxos: Map<OutPoint, TxOutView>)
    requires
        txs_valid(txs, utxos),
    ensures
        value_created(txs) <= value_spent(txs, utxos) + BLOCK_REWARD,
{
    lemma_value_balance(txs, utxos);
}

/// A prefix of the amounts sums to no more than a longer prefix.
pub proof fn lemma_sum_amounts_prefix(outs: Seq<TxOutView>, n: int, m: int)
    requires
        0 <= n <= m <= outs.len(),
    ensures
        sum_amounts(outs.take(n)) <= sum_amounts(outs.take(m)),
    decreases m - n,
{
    if n < m {
        lemma_sum_amounts_prefix(outs, n, m - 1);
        assert(outs.take(m).drop_last() =~= outs.take(m - 1));
    }
}

/// The outpoints spent by a prefix of the transactions come first among
/// those spent by a longer prefix.
pub proof fn lemma_block_spends_prefix(txs: Seq<TransactionView>, n: int, m: int)
    requires
        0 <= n <= m <= txs.len(),
    ensures
        block_spends(txs.take(n)).len() <= block_spends(txs.take(m)).len(),
        block_spends(txs.take(m)).take(block_spends(txs.take(n)).len() as int) == block_spends(
            txs.take(n),
        ),
    decreases m - n,
{
    if n < m {
        lemma_block_spends_prefix(txs, n, m - 1);
        assert(txs.take(m).drop_last() =~= txs.take(m - 1));
        if m > 1 {
            let a = block_spends(txs.take(m - 1));
            let b = block_spends(txs.take(m));
            assert(b.take(a.len() as int) =~= a);
            assert(b.take(block_spends(txs.take(n)).len() as int) =~= a.take(
                block_spends(txs.take(n)).len() as int,
            ));
        } else {
            assert(block_spends(txs.take(m)) =~= Seq::<OutPoint>::empty());
        }
    } else {
        assert(block_spends(txs.take(m)).take(block_spends(txs.take(n)).len() as int)
            =~= block_spends(txs.take(n)));
    }
}

/// With every transaction after the first valid, the fees of a prefix are
/// at most those of a longer prefix.
pub proof fn lemma_block_fees_prefix(
    txs: Seq<TransactionView>,
    utxos: Map<OutPoint, TxOutView>,
    n: int,
    m: int,
)
    requires
        0 <= n <= m <= txs.len(),
        forall|i: int| 1 <= i < txs.len() ==> #[trigger] spend_valid(txs[i], utxos),
    ensures
        block_fees(txs.take(n), utxos) <= block_fees(txs.take(m), utxos),
    decreases m - n,
{
    if n < m {
        lemma_block_fees_prefix(txs, utxos, n, m - 1);
        assert(txs.take(m).drop_last() =~= txs.take(m - 1));
        if m > 1 {
            assert(spend_valid(txs[m - 1], utxos));
            assert(txs.take(m).last() == txs[m - 1]);
        }
    }
}

/// The outpoints of a list of (transaction id, output index) pairs.
pub open spec fn pairs_view(v: Seq<(String, usize)>) -> Seq<OutPoint> {
    v.map_values(|p: (String, usize)| (p.0@, p.1))
}

fn pairs_contain(pairs: &Vec<(String, usize)>, txid: &String, vout: usize) -> (res: bool)
    ensures
        res == pairs_view(pairs@).contains((txid@, vout)),
{
    let mut i: usize = 0;
    while i < pairs.len()
        invariant
            i <= pairs.len(),
            forall|j: int| 0 <= j < i ==> pairs_view(pairs@)[j] != (txid@, vout),
        decreases pairs.len() - i,
    {
        if pairs[i].1 == vout && pairs[i].0 == *txid {
            assert(pairs_view(pairs@)[i as int] == (txid@, vout));
            return true;
        }
        i += 1;
    }
    false
}

/// Checks input `index` of `tx` against `utxos`; on success returns the
/// amount of the output it spends.
fn check_input(tx: &Transaction, index: usize, utxos: &UtxoSet) -> (res: Option<u64>)
    requires
        index < tx.inputs.len(),
    ensures
        res is Some <==> input_valid(tx@, index as int, utxos@),
        res matches Some(a) ==> a == utxos@[outpoint_of(tx@.inputs[index as int])].amount,
{
    let input = &tx.inputs[index];
    assert(tx@.inputs[index as int] == input@);
    let prev = match utxos.get(&input.txid, input.vout) {
        Some(v) => v,
        None => return None,
    };
    let pubkey_bytes = match decode_hex(input.pubkey.as_str()) {
        Some(v) => v,
        None => return None,
    };
    let computed_pkh = hash160_hex(pubkey_bytes.as_slice());
    if !(computed_pkh == prev.pubkey_hash) {
        return None;
    }
    let digest_hex = tx.sighash_for_input(index, prev.pubkey_hash.as_str());
    let sig_bytes = match decode_hex(input.signature.as_str()) {
        Some(v) => v,
        None => return None,
    };
    if !verify_signature(pubkey_bytes.as_slice(), digest_hex.as_str().as_bytes(), sig_bytes.as_slice()) {
        return None;
    }
    Some(prev.amount)
}

/// Checks a non-coinbase transaction, given the outpoints already spent
/// earlier in the block, and records its own; on success returns its fee.
fn check_spend(tx: &Transaction, utxos: &UtxoSet, spent: &mut Vec<(String, usize)>) -> (res: Option<u64>)
    requires
        pairs_view(old(spent)@).no_duplicates(),
    ensures
        res is Some <==> (spend_valid(tx@, utxos@) && (pairs_view(old(spent)@)
            + input_outpoints(tx@)).no_duplicates()),
        res matches Some(f) ==> f == tx_fee(tx@, utxos@) && pairs_view(final(spent)@) == pairs_view(
            old(spent)@,
        ) + input_outpoints(tx@),
{
    let ghost start = pairs_view(spent@);
    let ghost t = tx@;
    let ghost u = utxos@;
    let ghost ins = input_outpoints(t);
    let ghost prevs = spent_outputs(t, u);
    if tx.inputs.len() == 0 || tx.outputs.len() == 0 {
        return None;
    }
    let mut sum_in: u64 = 0;
    let mut sum_out: u64 = 0;
    for j in 0..tx.inputs.len()
        invariant
            t == tx@,
            u == utxos@,
            ins == input_outpoints(t),
            prevs == spent_outputs(t, u),
            t.inputs.len() == tx.inputs.len(),
            start == pairs_view(old(spent)@),
            pairs_view(spent@) == start + ins.take(j as int),
            pairs_view(spent@).no_duplicates(),
            forall|k: int| 0 <= k < j ==> #[trigger] input_valid(t, k, u),
            sum_in == sum_amounts(prevs.take(j as int)),
    {
        let input = &tx.inputs[j];
        assert(t.inputs[j as int] == input@);
        assert(ins[j as int] == (input.txid@, input.vout));
        if pairs_contain(spent, &input.txid, input.vout) {
            proof {
                let all = start + ins;
                let p = pairs_view(spent@);
                let c = choose|c: int| 0 <= c < p.len() && p[c] == (input.txid@, input.vout);
                assert(p.len() == start.len() + j);
                assert(all[c] == p[c]);
                assert(all[start.len() + j] == ins[j as int]);
                assert(c != start.len() + j);
                assert(all[c] == all[start.len() + j]);
                assert(!all.no_duplicates());
            }
            return None;
        }
        let amount = match check_input(tx, j, utxos) {
            Some(a) => a,
            None => return None,
        };
        assert(prevs.take(j + 1).drop_last() =~= prevs.take(j as int));
        assert(prevs[j as int] == u[outpoint_of(t.inputs[j as int])]);
        sum_in = match sum_in.checked_add(amount) {
            Some(v) => v,
            None => {
                proof {
                    lemma_sum_amounts_prefix(prevs, j + 1, prevs.len() as int);
                    assert(prevs.take(prevs.len() as int) =~= prevs);
                }
                return None;
            },
        };
        let ghost before = pairs_view(spent@);
        spent.push((input.txid.clone(), input.vout));
        proof {
            assert(pairs_view(spent@) =~= before.push((input.txid@, input.vout)));
            assert(ins.take(j + 1) =~= ins.take(j as int).push(ins[j as int]));
            assert(pairs_view(spent@) =~= start + ins.take(j + 1));
            assert forall|a: int, b: int|
                0 <= a < pairs_view(spent@).len() && 0 <= b < pairs_view(spent@).len() && a != b
                implies pairs_view(spent@)[a] != pairs_view(spent@)[b] by {
                if a < before.len() && b < before.len() {
                    assert(before[a] != before[b]);
                } else if a < before.len() {
                    assert(before[a] == pairs_view(spent@)[a]);
                } else if b < before.len() {
                    assert(before[b] == pairs_view(spent@)[b]);
                }
            }
        }
    }
    assert(ins.take(t.inputs.len() as int) =~= ins);
    assert(prevs.take(t.inputs.len() as int) =~= prevs);
    for k in 0..tx.outputs.len()
        invariant
            t == tx@,
            t.outputs.len() == tx.outputs.len(),
            forall|m: int| 0 <= m < k ==> #[trigger] t.outputs[m].amount > 0,
            sum_out == sum_amounts(t.outputs.take(k as int)),
    {
        let out = &tx.outputs[k];
        assert(t.outputs[k as int] == out@);
        if out.amount == 0 {
            assert(!(t.outputs[k as int].amount > 0));
            return None;
        }
        assert(t.outputs.take(k + 1).drop_last() =~= t.outputs.take(k as int));
        sum_out = match sum_out.checked_add(out.amount) {
            Some(v) => v,
            None => {
                proof {
                    lemma_sum_amounts_prefix(t.outputs, k + 1, t.outputs.len() as int);
                    assert(t.outputs.take(t.outputs.len() as int) =~= t.outputs);
                }
                return None;
            },
        };
    }
    assert(t.outputs.take(t.outputs.len() as int) =~= t.outputs);
    if sum_in < sum_out {
        return None;
    }
    Some(sum_in - sum_out)
}

/// A sum of at most `n` amounts stays below `n` times the largest u64.
pub proof fn lemma_sum_amounts_bound(outs: Seq<TxOutView>)
    ensures
        0 <= sum_amounts(outs) <= outs.len() * (u64::MAX as int),
    decreases outs.len(),
{
    if outs.len() > 0 {
        lemma_sum_amounts_bound(outs.drop_last());
    }
}

/// Whether the transactions of a block are valid against `utxos`.
pub fn check_transactions(txs: &[Transaction], utxos: &UtxoSet) -> (res: bool)
    ensures
        res == txs_valid(txs_view(txs@), utxos@),
{
    let ghost t = txs_view(txs@);
    let ghost u = utxos@;
    if txs.len() == 0 {
        return false;
    }
    assert(t[0] == txs[0]@);
    if txs[0].inputs.len() != 0 {
        return false;
    }
    let coinbase = &txs[0];
    let mut coinbase_out_sum: u128 = 0;
    for k in 0..coinbase.outputs.len()
        invariant
            t == txs_view(txs@),
            t[0] == coinbase@,
            coinbase@.outputs.len() == coinbase.outputs.len(),
            coinbase_out_sum == sum_amounts(t[0].outputs.take(k as int)),
    {
        assert(t[0].outputs.take(k + 1).drop_last() =~= t[0].outputs.take(k as int));
        assert(t[0].outputs[k as int] == coinbase.outputs[k as int]@);
        proof {
            lemma_sum_amounts_bound(t[0].outputs.take(k as int));
        }
        coinbase_out_sum = coinbase_out_sum + coinbase.outputs[k].amount as u128;
    }
    assert(t[0].outputs.take(coinbase.outputs.len() as int) =~= t[0].outputs);
    let mut spent: Vec<(String, usize)> = Vec::new();
    let mut total_fees: u64 = 0;
    assert(pairs_view(spent@) =~= block_spends(t.take(1)));
    for i in 1..txs.len()
        invariant
            t == txs_view(txs@),
            u == utxos@,
            t.len() == txs.len(),
            t[0].inputs.len() == 0,
            coinbase_out_sum == sum_amounts(t[0].outputs),
            forall|k: int| 1 <= k < i ==> #[trigger] spend_valid(t[k], u),
            pairs_view(spent@) == block_spends(t.take(i as int)),
            pairs_view(spent@).no_duplicates(),
            total_fees == block_fees(t.take(i as int), u),
    {
        assert(t[i as int] == txs[i as int]@);
        assert(t.take(i + 1).drop_last() =~= t.take(i as int));
        assert(t.take(i + 1).last() == t[i as int]);
        let fee = match check_spend(&txs[i], utxos, &mut spent) {
            Some(f) => f,
            None => {
                proof {
                    if spend_valid(t[i as int], u) {
                        lemma_block_spends_prefix(t, i + 1, t.len() as int);
                        assert(t.take(t.len() as int) =~= t);
                        let a = block_spends(t.take(i + 1));
                        let b = block_spends(t);
                        assert(a == block_spends(t.take(i as int)) + input_outpoints(t[i as int]));
                        if b.no_duplicates() {
                            assert forall|x: int, y: int|
                                0 <= x < a.len() && 0 <= y < a.len() && x != y implies a[x]
                                != a[y] by {
                                assert(a[x] == b[x]);
                                assert(a[y] == b[y]);
                            }
                        }
                    }
                }
                return false;
            },
        };
        total_fees = match total_fees.checked_add(fee) {
            Some(v) => v,
            None => {
                proof {
                    if forall|k: int| 1 <= k < t.len() ==> #[trigger] spend_valid(t[k], u) {
                        lemma_block_fees_prefix(t, u, i + 1, t.len() as int);
                        assert(t.take(t.len() as int) =~= t);
                    }
                }
                return false;
            },
        };
    }
    assert(t.take(txs.len() as int) =~= t);
    if coinbase_out_sum > BLOCK_REWARD as u128 + total_fees as u128 {
        return false;
    }
    true
}

/// Applies the transactions of a block to `utxos`: for each in order, its
/// inputs are spent (except for the first, the coinbase) and its outputs
/// added under its id.
pub fn apply_transactions(txs: &[Transaction], utxos: &mut UtxoSet)
    ensures
        final(utxos)@ == apply_txs(old(utxos)@, txs_view(txs@)),
{
    let ghost t = txs_view(txs@);
    let ghost u = old(utxos)@;
    assert(t.take(0) =~= Seq::<TransactionView>::empty());
    for i in 0..txs.len()
        invariant
            t == txs_view(txs@),
            t.len() == txs.len(),
            u == old(utxos)@,
            utxos@ == apply_txs(u, t.take(i as int)),
    {
        let tx = &txs[i];
        assert(t[i as int] == tx@);
        let ghost base = utxos@;
        if i != 0 {
            for j in 0..tx.inputs.len()
                invariant
                    tx@.inputs.len() == tx.inputs.len(),
                    utxos@ == remove_spent(base, tx@.inputs.take(j as int)),
            {
                assert(tx@.inputs.take(j + 1).drop_last() =~= tx@.inputs.take(j as int));
                assert(tx@.inputs[j as int] == tx.inputs[j as int]@);
                utxos.remove(&tx.inputs[j].txid, tx.inputs[j].vout);
            }
            assert(tx@.inputs.take(tx.inputs.len() as int) =~= tx@.inputs);
        }
        let ghost spent_base = utxos@;
        let txid = tx.txid();
        for vout in 0..tx.outputs.len()
            invariant
                tx@.outputs.len() == tx.outputs.len(),
                utxos@ == add_outputs(spent_base, txid@, tx@.outputs.take(vout as int)),
        {
            assert(tx@.outputs.take(vout + 1).drop_last() =~= tx@.outputs.take(vout as int));
            assert(tx@.outputs[vout as int] == tx.outputs[vout as int]@);
            utxos.insert(txid.clone(), vout, tx.outputs[vout].clone());
        }
        assert(tx@.outputs.take(tx.outputs.len() as int) =~= tx@.outputs);
        assert(t.take(i + 1).drop_last() =~= t.take(i as int));
        assert(t.take(i + 1).last() == tx@);
    }
    assert(t.take(txs.len() as int) =~= t);
}

} // verus!
