//! A wallet: a secp256k1 key pair and the address derived from it.

use vstd::prelude::*;
use crate::hexenc::{hex_encode, hex_encode_bytes};
use crate::digest::{hash160, hash160_hex};
use crate::ecdsa::{secp256k1_public_key, random_secret_key, public_key_for, ecdsa_signature, ecdsa_verifies};
use vstd::utf8::encode_utf8;
use crate::tx::{
    Transaction, TransactionView, TxIn, TxInView, TxOut, TxOutView, sighash_of, unsigned_tx,
    authorize_input,
};
use crate::utxo::{UtxoSet, UtxoEntry, OutPoint, keys_distinct, entries_map, lemma_entries_map_at};
use crate::hexenc::{lemma_hex_roundtrip, lemma_hex_encode_digits};
use crate::validation::{input_valid, outpoint_of, spent_outputs, sum_amounts, tx_fee, input_outpoints};
use crate::node::mempool_acceptable;

use crate::fault::Fault;
use crate::clock::now_ts;

verus! {

/// A key pair: the secret key's 32 bytes, the compressed public key in
/// hex, and the address (HASH160 of the public key) in hex.
pub struct Wallet {
    pub signing_key: Vec<u8>,
    pub pubkey_hex: String,
    pub pubkey_hash_hex: String,
}

impl Wallet {
    /// The compressed public key of the wallet's secret key.
    pub open spec fn public_key(&self) -> Seq<u8> {
        secp256k1_public_key(self.signing_key@)->0
    }

    /// The key is valid and both hex fields are derived from it.
    pub open spec fn wf(&self) -> bool {
        &&& secp256k1_public_key(self.signing_key@) is Some
        &&& self.pubkey_hex@ == hex_encode(self.public_key())
        &&& self.pubkey_hash_hex@ == hex_encode(hash160(self.public_key()))
    }

    /// A wallet with a freshly generated random key; the fault
    /// `RandomSourceFailed` when the operating system's generator fails.
    pub fn new() -> (res: Result<Self, Fault>)
        ensures
            res matches Ok(w) ==> {
                &&& w.wf()
                &&& w.signing_key@.len() == 32
                &&& w.public_key().len() == 33
                &&& w.pubkey_hex@.len() == 66
                &&& w.pubkey_hash_hex@.len() == 40
            },
            res matches Err(f) ==> f == Fault::RandomSourceFailed,
    {
        let signing_key = match random_secret_key() {
            Some(k) => k,
            None => return Err(Fault::RandomSourceFailed),
        };
        let pubkey_bytes = match public_key_for(signing_key.as_slice()) {
            Some(pk) => pk,
            None => {
                proof {
                    assert(false);
                }
                Vec::new()
            },
        };
        proof {
            lemma_hex_encode_digits(pubkey_bytes@);
        }
        let pubkey_hex = hex_encode_bytes(pubkey_bytes.as_slice());
        let pubkey_hash_hex = hash160_hex(pubkey_bytes.as_slice());
        Ok(Wallet { signing_key, pubkey_hex, pubkey_hash_hex })
    }
}

impl Wallet {
    /// The total of the unspent outputs paid to the wallet's address,
    /// saturating at the largest u64.
    pub fn balance(&self, utxos: &UtxoSet) -> (res: u64)
        ensures
            res as int == if entries_total(owned_entries(utxos.entries(), self.pubkey_hash_hex@))
                > u64::MAX {
                u64::MAX as int
            } else {
                entries_total(owned_entries(utxos.entries(), self.pubkey_hash_hex@))
            },
    {
        let n = utxos.len();
        let ghost e = utxos.entries();
        let ghost pkh = self.pubkey_hash_hex@;
        let mut total: u64 = 0;
        assert(e.take(0) =~= Seq::<(OutPoint, TxOutView)>::empty());
        for i in 0..n
            invariant
                e == utxos.entries(),
                n == e.len(),
                pkh == self.pubkey_hash_hex@,
                total as int == if entries_total(owned_entries(e.take(i as int), pkh)) > u64::MAX {
                    u64::MAX as int
                } else {
                    entries_total(owned_entries(e.take(i as int), pkh))
                },
        {
            let (_txid, _vout, out) = utxos.entry(i);
            assert(e.take(i + 1).drop_last() =~= e.take(i as int));
            assert(e.take(i + 1).last() == e[i as int]);
            if out.pubkey_hash == self.pubkey_hash_hex {
                let ghost before = owned_entries(e.take(i as int), pkh);
                assert(owned_entries(e.take(i + 1), pkh).drop_last() =~= before);
                total = total.saturating_add(out.amount);
            }
        }
        assert(e.take(n as int) =~= e);
        total
    }
}

/// The entries paid to `pubkey_hash`, in order.
pub open spec fn owned_entries(entries: Seq<(OutPoint, TxOutView)>, pubkey_hash: Seq<char>) -> Seq<
    (OutPoint, TxOutView),
>
    decreases entries.len(),
{
    if entries.len() == 0 {
        Seq::empty()
    } else {
        let rest = owned_entries(entries.drop_last(), pubkey_hash);
        if entries.last().1.pubkey_hash == pubkey_hash {
            rest.push(entries.last())
        } else {
            rest
        }
    }
}

/// The total amount of a list of entries.
pub open spec fn entries_total(entries: Seq<(OutPoint, TxOutView)>) -> int
    decreases entries.len(),
{
    if entries.len() == 0 {
        0
    } else {
        entries_total(entries.drop_last()) + entries.last().1.amount
    }
}

/// How many of the candidate entries are spent, counting from `k`: the
/// fewest (at least one) whose total reaches `amount`, or all of them.
pub open spec fn selection_count(
    candidates: Seq<(OutPoint, TxOutView)>,
    amount: int,
    k: nat,
) -> nat
    decreases candidates.len() - k,
{
    if k >= candidates.len() {
        candidates.len()
    } else if entries_total(candidates.take(k + 1int)) >= amount {
        k + 1
    } else {
        selection_count(candidates, amount, k + 1)
    }
}

/// The entries a payment of `amount` from `pubkey_hash` spends: the
/// shortest non-empty prefix of the entries paid to it whose total reaches
/// `amount`, or all of them when none does.
pub open spec fn payment_selection(
    entries: Seq<(OutPoint, TxOutView)>,
    pubkey_hash: Seq<char>,
    amount: int,
) -> Seq<(OutPoint, TxOutView)> {
    let owned = owned_entries(entries, pubkey_hash);
    owned.take(selection_count(owned, amount, 0) as int)
}

/// The unsigned inputs spending the selected entries.
pub open spec fn payment_inputs(selected: Seq<(OutPoint, TxOutView)>) -> Seq<TxInView> {
    Seq::new(
        selected.len(),
        |i: int|
            TxInView {
                txid: selected[i].0.0,
                vout: selected[i].0.1,
                signature: Seq::empty(),
                pubkey: Seq::empty(),
            },
    )
}

/// The outputs of a payment: `amount` to the recipient, then the change, if
/// any, back to `change_to`.
pub open spec fn payment_outputs(to: Seq<char>, amount: u64, change_to: Seq<char>, change: int) -> Seq<
    TxOutView,
> {
    if change > 0 {
        seq![
            TxOutView { pubkey_hash: to, amount },
            TxOutView { pubkey_hash: change_to, amount: change as u64 },
        ]
    } else {
        seq![TxOutView { pubkey_hash: to, amount }]
    }
}

/// The unsigned payment transaction spending `selected`.
pub open spec fn unsigned_payment(
    selected: Seq<(OutPoint, TxOutView)>,
    to: Seq<char>,
    amount: u64,
    change_to: Seq<char>,
    timestamp: u64,
) -> TransactionView {
    TransactionView {
        inputs: payment_inputs(selected),
        outputs: payment_outputs(to, amount, change_to, entries_total(selected) - amount),
        timestamp,
    }
}

/// The signature (DER) of input `i` of `u`, spending an output paid to
/// `pubkey_hash`, under `secret`.
pub open spec fn input_signature(secret: Seq<u8>, u: TransactionView, i: int, pubkey_hash: Seq<char>) -> Option<Seq<u8>> {
    ecdsa_signature(secret, encode_utf8(sighash_of(u, i as nat, pubkey_hash)))
}

/// `u` with every input signed by the wallet.
pub open spec fn signed_payment(w: Wallet, u: TransactionView) -> TransactionView {
    TransactionView {
        inputs: Seq::new(
            u.inputs.len(),
            |i: int|
                TxInView {
                    signature: hex_encode(input_signature(w.signing_key@, u, i, w.pubkey_hash_hex@)->0),
                    pubkey: w.pubkey_hex@,
                    ..u.inputs[i]
                },
        ),
        ..u
    }
}

/// The entries of a prefix that are paid to `pubkey_hash` come first among
/// those of a longer prefix.
pub proof fn lemma_owned_prefix(entries: Seq<(OutPoint, TxOutView)>, pubkey_hash: Seq<char>, n: int, m: int)
    requires
        0 <= n <= m <= entries.len(),
    ensures
        owned_entries(entries.take(n), pubkey_hash).len() <= owned_entries(entries.take(m), pubkey_hash).len(),
        owned_entries(entries.take(m), pubkey_hash).take(
            owned_entries(entries.take(n), pubkey_hash).len() as int,
        ) == owned_entries(entries.take(n), pubkey_hash),
    decreases m - n,
{
    let a = owned_entries(entries.take(n), pubkey_hash);
    if n < m {
        lemma_owned_prefix(entries, pubkey_hash, n, m - 1);
        assert(entries.take(m).drop_last() =~= entries.take(m - 1));
        let b = owned_entries(entries.take(m - 1), pubkey_hash);
        let c = owned_entries(entries.take(m), pubkey_hash);
        assert(c.take(b.len() as int) =~= b);
        assert(c.take(a.len() as int) =~= b.take(a.len() as int));
    } else {
        assert(owned_entries(entries.take(m), pubkey_hash).take(a.len() as int) =~= a);
    }
}

/// Every entry paid to `pubkey_hash` is an entry, at increasing positions.
pub proof fn lemma_owned_positions(entries: Seq<(OutPoint, TxOutView)>, pubkey_hash: Seq<char>)
    ensures
        forall|a: int| 0 <= a < owned_entries(entries, pubkey_hash).len() ==> exists|x: int|
            0 <= x < entries.len() && #[trigger] owned_entries(entries, pubkey_hash)[a] == entries[x],
        keys_distinct(entries) ==> keys_distinct(owned_entries(entries, pubkey_hash)),
        forall|a: int| 0 <= a < owned_entries(entries, pubkey_hash).len() ==> (#[trigger] owned_entries(entries, pubkey_hash)[a]).1.pubkey_hash == pubkey_hash,
    decreases entries.len(),
{
    if entries.len() > 0 {
        let prev = entries.drop_last();
        lemma_owned_positions(prev, pubkey_hash);
        let rest = owned_entries(prev, pubkey_hash);
        let o = owned_entries(entries, pubkey_hash);
        assert forall|a: int| 0 <= a < o.len() implies exists|x: int|
            0 <= x < entries.len() && #[trigger] o[a] == entries[x] by {
            if a < rest.len() {
                let x = choose|x: int| 0 <= x < prev.len() && #[trigger] rest[a] == prev[x];
                assert(o[a] == entries[x]);
            } else {
                assert(o[a] == entries[entries.len() - 1]);
            }
        }
        if keys_distinct(entries) {
            assert(keys_distinct(prev));
            assert forall|a: int, b: int| 0 <= a < b < o.len() implies #[trigger] o[a].0 != #[trigger] o[b].0 by {
                if b < rest.len() {
                    assert(rest[a].0 != rest[b].0);
                } else {
                    let x = choose|x: int| 0 <= x < prev.len() && #[trigger] rest[a] == prev[x];
                    assert(o[a] == entries[x]);
                    assert(o[b] == entries[entries.len() - 1]);
                    assert(entries[x].0 != entries[entries.len() - 1].0);
                }
            }
        }
    }
}

/// A prefix of the entries totals no more than a longer prefix.
pub proof fn lemma_entries_total_prefix(entries: Seq<(OutPoint, TxOutView)>, n: int, m: int)
    requires
        0 <= n <= m <= entries.len(),
    ensures
        entries_total(entries.take(n)) <= entries_total(entries.take(m)),
    decreases m - n,
{
    if n < m {
        lemma_entries_total_prefix(entries, n, m - 1);
        assert(entries.take(m).drop_last() =~= entries.take(m - 1));
    }
}

/// The selection count when the first `m` entries total less than `amount`
/// and the first `m + 1` reach it; or when no prefix reaches it.
pub proof fn lemma_selection_count(candidates: Seq<(OutPoint, TxOutView)>, amount: int, m: nat, k: nat)
    requires
        k <= m <= candidates.len(),
        forall|j: int| 0 <= j < m ==> #[trigger] entries_total(candidates.take(j + 1)) < amount,
        m < candidates.len() ==> entries_total(candidates.take(m + 1int)) >= amount,
    ensures
        selection_count(candidates, amount, k) == if m < candidates.len() {
            m + 1
        } else {
            m
        },
    decreases m - k,
{
    if k < m {
        assert(entries_total(candidates.take(k + 1int)) < amount);
        lemma_selection_count(candidates, amount, m, k + 1);
    }
}

/// The wallet's outputs in `utxos` that pay for `amount` (see
/// `payment_selection`) and their total; `None` when they total more than a
/// u64 holds or less than `amount`.
fn select_payment(wallet: &Wallet, amount: u64, utxos: &UtxoSet) -> (res: Option<(Vec<UtxoEntry>, u64)>)
    ensures
        ({
            let sel = payment_selection(utxos.entries(), wallet.pubkey_hash_hex@, amount as int);
            &&& (res is None) == !(entries_total(sel) <= u64::MAX && entries_total(sel) >= amount)
            &&& res matches Some(r) ==> {
                &&& selection_view(r.0@) == sel
                &&& r.1 == entries_total(sel)
                &&& forall|j: int| 0 <= j < sel.len() ==> (#[trigger] sel[j]).1.pubkey_hash
                    == wallet.pubkey_hash_hex@
                &&& forall|j: int| 0 <= j < sel.len() ==> utxos@.contains_key(#[trigger] sel[j].0)
                    && utxos@[sel[j].0] == sel[j].1
            }
        }),
{
    let n = utxos.len();
    let ghost e = utxos.entries();
    let ghost pkh = wallet.pubkey_hash_hex@;
    let mut selected: Vec<UtxoEntry> = Vec::new();
    let mut total: u64 = 0;
    let mut done = false;
    let mut i: usize = 0;
    assert(e.take(0) =~= Seq::<(OutPoint, TxOutView)>::empty());
    while i < n && !done
        invariant
            e == utxos.entries(),
            n == e.len(),
            keys_distinct(e),
            pkh == wallet.pubkey_hash_hex@,
            i <= n,
            selection_view(selected@) == owned_entries(e.take(i as int), pkh),
            total == entries_total(selection_view(selected@)),
            !done ==> (selected.len() == 0 || total < amount),
            done ==> total >= amount && selected.len() > 0 && (selected.len() == 1
                || entries_total(selection_view(selected@).take(selected.len() - 1)) < amount),
        decreases n - i,
    {
        let (txid, vout, out) = utxos.entry(i);
        assert(e.take(i + 1).drop_last() =~= e.take(i as int));
        assert(e.take(i + 1).last() == e[i as int]);
        if out.pubkey_hash == wallet.pubkey_hash_hex {
            let ghost before = selection_view(selected@);
            selected.push(UtxoEntry { txid: txid.clone(), vout, output: out.clone() });
            assert(selection_view(selected@) =~= before.push(e[i as int]));
            assert(selection_view(selected@).drop_last() =~= before);
            assert(selection_view(selected@).take(selected.len() - 1) =~= before);
            total = match total.checked_add(out.amount) {
                Some(v) => v,
                None => {
                    proof {
                        lemma_build_overflow(e, pkh, amount as int, i as int);
                    }
                    return None;
                },
            };
            if total >= amount {
                done = true;
            }
        }
        i += 1;
    }
    proof {
        lemma_build_selection(e, pkh, amount as int, i as int, done);
    }
    if total < amount {
        return None;
    }
    proof {
        lemma_selection_in_map(e, pkh, i as int);
    }
    Some((selected, total))
}

/// The payment over the selected entries, stamped with `timestamp` and with
/// every input signed; the fault `SigningFailed` when the signer produces no
/// signature for an input.
fn sign_payment(
    wallet: &Wallet,
    to_pubkey_hash: &str,
    amount: u64,
    utxos: &UtxoSet,
    selected: &Vec<UtxoEntry>,
    total: u64,
    timestamp: u64,
) -> (res: Result<Transaction, Fault>)
    requires
        total == entries_total(selection_view(selected@)),
        total >= amount,
        forall|j: int| 0 <= j < selected.len() ==> (#[trigger] selection_view(selected@)[j]).1.pubkey_hash
            == wallet.pubkey_hash_hex@,
        forall|j: int| 0 <= j < selected.len() ==> utxos@.contains_key(#[trigger] selection_view(selected@)[j].0)
            && utxos@[selection_view(selected@)[j].0] == selection_view(selected@)[j].1,
    ensures
        ({
            let sel = selection_view(selected@);
            let u = unsigned_payment(sel, to_pubkey_hash@, amount, wallet.pubkey_hash_hex@, timestamp);
            &&& res matches Ok(tx) ==> tx@ == signed_payment(*wallet, u) && signatures_verify(
                *wallet,
                u,
                sel.len() as int,
            )
            &&& res matches Err(f) ==> f == Fault::SigningFailed && exists|i: int|
                0 <= i < sel.len() && (#[trigger] input_signature(
                    wallet.signing_key@,
                    u,
                    i,
                    wallet.pubkey_hash_hex@,
                )) is None
            &&& (forall|i: int| 0 <= i < sel.len() ==> (#[trigger] input_signature(
                wallet.signing_key@,
                u,
                i,
                wallet.pubkey_hash_hex@,
            )) is Some) ==> res is Ok
        }),
{
    let ghost pkh = wallet.pubkey_hash_hex@;
    let mut inputs: Vec<TxIn> = Vec::new();
    for k in 0..selected.len()
        invariant
            inputs.len() == k,
            forall|j: int| 0 <= j < k ==> #[trigger] inputs@[j]@ == payment_inputs(selection_view(selected@))[j],
    {
        let s = &selected[k];
        inputs.push(TxIn { txid: s.txid.clone(), vout: s.vout, signature: String::new(), pubkey: String::new() });
    }
    let mut outputs: Vec<TxOut> = Vec::new();
    outputs.push(TxOut { pubkey_hash: to_pubkey_hash.to_owned(), amount });
    let change = total - amount;
    if change > 0 {
        outputs.push(TxOut { pubkey_hash: wallet.pubkey_hash_hex.clone(), amount: change });
    }
    let mut tx = Transaction { inputs, outputs, timestamp };
    let ghost sel = selection_view(selected@);
    let ghost u = unsigned_payment(sel, to_pubkey_hash@, amount, pkh, timestamp);
    assert(tx@.inputs =~= u.inputs);
    assert(tx@.outputs =~= u.outputs);
    assert(unsigned_tx(u).inputs =~= u.inputs);
    proof {
        lemma_partially_signed_unsigned(*wallet, u, 0);
        assert(partially_signed(*wallet, u, 0).inputs =~= u.inputs);
    }
    for k in 0..selected.len()
        invariant
            sel == selection_view(selected@),
            sel.len() == selected.len(),
            u == unsigned_payment(sel, to_pubkey_hash@, amount, pkh, timestamp),
            unsigned_tx(u) == u,
            u.inputs.len() == sel.len(),
            tx@ == partially_signed(*wallet, u, k as int),
            signatures_verify(*wallet, u, k as int),
            forall|j: int| 0 <= j < sel.len() ==> (#[trigger] sel[j]).1.pubkey_hash == pkh,
            forall|j: int| 0 <= j < sel.len() ==> utxos@.contains_key(#[trigger] sel[j].0) && utxos@[sel[j].0] == sel[j].1,
            pkh == wallet.pubkey_hash_hex@,
    {
        let s = &selected[k];
        assert(sel[k as int].0 == (s.txid@, s.vout));
        let prev = match utxos.get(&s.txid, s.vout) {
            Some(p) => p,
            None => {
                proof {
                    assert(utxos@.contains_key(sel[k as int].0));
                }
                return Err(Fault::SigningFailed);
            },
        };
        proof {
            lemma_partially_signed_unsigned(*wallet, u, k as int);
        }
        assert(sighash_of(tx@, k as nat, pkh) == sighash_of(u, k as nat, pkh));
        match tx.sign_input(k, wallet, prev.pubkey_hash.as_str()) {
            Ok(_) => {},
            Err(f) => {
                assert(input_signature(wallet.signing_key@, u, k as int, pkh) is None);
                return Err(f);
            },
        }
        proof {
            lemma_sign_step(*wallet, u, k as int);
        }
    }
    assert(partially_signed(*wallet, u, sel.len() as int).inputs =~= signed_payment(*wallet, u).inputs);
    Ok(tx)
}

/// Builds and signs a payment of `amount` to `to_pubkey_hash` from the
/// wallet's outputs in `utxos` (see `payment_selection`), with the change,
/// if any, back to the wallet, stamped with `timestamp`. `Ok(None)` when the
/// selected outputs total more than a u64 holds or less than `amount`; the
/// fault `SigningFailed` when the signer produces no signature for an input.
pub fn build_transaction_at(
    wallet: &Wallet,
    to_pubkey_hash: &str,
    amount: u64,
    utxos: &UtxoSet,
    timestamp: u64,
) -> (res: Result<Option<Transaction>, Fault>)
    ensures
        ({
            let sel = payment_selection(utxos.entries(), wallet.pubkey_hash_hex@, amount as int);
            let total = entries_total(sel);
            let funded = total <= u64::MAX && total >= amount;
            let u = unsigned_payment(sel, to_pubkey_hash@, amount, wallet.pubkey_hash_hex@, timestamp);
            let signable = forall|i: int| 0 <= i < sel.len() ==> (#[trigger] input_signature(
                wallet.signing_key@,
                u,
                i,
                wallet.pubkey_hash_hex@,
            )) is Some;
            &&& (res == Ok::<Option<Transaction>, Fault>(None)) == !funded
            &&& (res is Err) == (funded && !signable)
            &&& res matches Err(f) ==> f == Fault::SigningFailed
            &&& res matches Ok(Some(tx)) ==> tx@ == signed_payment(*wallet, u) && signatures_verify(
                *wallet,
                u,
                sel.len() as int,
            )
        }),
{
    let (selected, total) = match select_payment(wallet, amount, utxos) {
        Some(r) => r,
        None => return Ok(None),
    };
    match sign_payment(wallet, to_pubkey_hash, amount, utxos, &selected, total, timestamp) {
        Ok(tx) => Ok(Some(tx)),
        Err(f) => Err(f),
    }
}

/// Builds and signs a payment of `amount` to `to_pubkey_hash` from the
/// wallet's outputs in `utxos` (see `payment_selection`), with the change,
/// if any, back to the wallet, stamped with the current time. `Ok(None)`
/// when the selected outputs total more than a u64 holds or less than
/// `amount`; a fault when the clock reads a time before the epoch or the
/// signer produces no signature for an input.
pub fn build_transaction(wallet: &Wallet, to_pubkey_hash: &str, amount: u64, utxos: &UtxoSet) -> (res:
    Result<Option<Transaction>, Fault>)
    ensures
        ({
            let sel = payment_selection(utxos.entries(), wallet.pubkey_hash_hex@, amount as int);
            let total = entries_total(sel);
            let funded = total <= u64::MAX && total >= amount;
            &&& (res == Ok::<Option<Transaction>, Fault>(None)) == !funded
            &&& res matches Ok(Some(tx)) ==> {
                &&& tx@ == signed_payment(
                    *wallet,
                    unsigned_payment(sel, to_pubkey_hash@, amount, wallet.pubkey_hash_hex@, tx.timestamp),
                )
                &&& signatures_verify(
                    *wallet,
                    unsigned_payment(sel, to_pubkey_hash@, amount, wallet.pubkey_hash_hex@, tx.timestamp),
                    sel.len() as int,
                )
            }
            &&& res matches Err(f) ==> funded && (f == Fault::ClockBeforeEpoch || (f
                == Fault::SigningFailed && exists|ts: u64, i: int|
                0 <= i < sel.len() && (#[trigger] input_signature(
                    wallet.signing_key@,
                    unsigned_payment(sel, to_pubkey_hash@, amount, wallet.pubkey_hash_hex@, ts),
                    i,
                    wallet.pubkey_hash_hex@,
                )) is None))
        }),
{
    let (selected, total) = match select_payment(wallet, amount, utxos) {
        Some(r) => r,
        None => return Ok(None),
    };
    let timestamp = match now_ts() {
        Ok(t) => t,
        Err(f) => return Err(f),
    };
    match sign_payment(wallet, to_pubkey_hash, amount, utxos, &selected, total, timestamp) {
        Ok(tx) => Ok(Some(tx)),
        Err(f) => Err(f),
    }
}

/// The selected entries' views.
pub open spec fn selection_view(v: Seq<UtxoEntry>) -> Seq<(OutPoint, TxOutView)> {
    v.map_values(|s: UtxoEntry| ((s.txid@, s.vout), s.output@))
}

/// The entries of a prefix that are paid to `pubkey_hash` are in the map
/// with their outputs, and their outpoints are distinct.
proof fn lemma_selection_in_map(entries: Seq<(OutPoint, TxOutView)>, pubkey_hash: Seq<char>, i: int)
    requires
        keys_distinct(entries),
        0 <= i <= entries.len(),
    ensures
        keys_distinct(owned_entries(entries.take(i), pubkey_hash)),
        forall|j: int| 0 <= j < owned_entries(entries.take(i), pubkey_hash).len() ==> {
            let p = #[trigger] owned_entries(entries.take(i), pubkey_hash)[j];
            &&& entries_map(entries).contains_key(p.0)
            &&& entries_map(entries)[p.0] == p.1
            &&& p.1.pubkey_hash == pubkey_hash
        },
{
    let t = entries.take(i);
    assert(keys_distinct(t));
    lemma_owned_positions(t, pubkey_hash);
    let o = owned_entries(t, pubkey_hash);
    assert forall|j: int| 0 <= j < o.len() implies {
        let p = #[trigger] o[j];
        &&& entries_map(entries).contains_key(p.0)
        &&& entries_map(entries)[p.0] == p.1
        &&& p.1.pubkey_hash == pubkey_hash
    } by {
        let x = choose|x: int| 0 <= x < t.len() && #[trigger] o[j] == t[x];
        assert(t[x] == entries[x]);
        lemma_entries_map_at(entries, x);
    }
}

/// When adding the next owned entry overflows, the selection totals more
/// than a u64 holds.
proof fn lemma_build_overflow(entries: Seq<(OutPoint, TxOutView)>, pubkey_hash: Seq<char>, amount: int, i: int)
    requires
        0 <= i < entries.len(),
        0 <= amount <= u64::MAX,
        entries[i].1.pubkey_hash == pubkey_hash,
        owned_entries(entries.take(i), pubkey_hash).len() == 0 || entries_total(
            owned_entries(entries.take(i), pubkey_hash),
        ) < amount,
        entries_total(owned_entries(entries.take(i), pubkey_hash)) + entries[i].1.amount
            > u64::MAX,
    ensures
        entries_total(payment_selection(entries, pubkey_hash, amount)) > u64::MAX,
{
    let before = owned_entries(entries.take(i), pubkey_hash);
    let p = owned_entries(entries.take(i + 1), pubkey_hash);
    assert(entries.take(i + 1).drop_last() =~= entries.take(i));
    assert(p == before.push(entries[i]));
    assert(p.drop_last() =~= before);
    let owned = owned_entries(entries, pubkey_hash);
    lemma_owned_prefix(entries, pubkey_hash, i + 1, entries.len() as int);
    assert(entries.take(entries.len() as int) =~= entries);
    let m = before.len();
    assert(owned.take(m + 1int) == p);
    assert forall|j: int| 0 <= j < m implies #[trigger] entries_total(owned.take(j + 1)) < amount by {
        assert(owned.take(j + 1) =~= before.take(j + 1));
        lemma_entries_total_prefix(before, j + 1, m as int);
        assert(before.take(m as int) =~= before);
    }
    lemma_selection_count(owned, amount, m, 0);
}

/// After the selection loop, the selected entries are the payment selection.
proof fn lemma_build_selection(
    entries: Seq<(OutPoint, TxOutView)>,
    pubkey_hash: Seq<char>,
    amount: int,
    i: int,
    done: bool,
)
    requires
        0 <= i <= entries.len(),
        !done ==> i == entries.len() && (owned_entries(entries.take(i), pubkey_hash).len() == 0
            || entries_total(owned_entries(entries.take(i), pubkey_hash)) < amount),
        done ==> ({
            let p = owned_entries(entries.take(i), pubkey_hash);
            &&& entries_total(p) >= amount
            &&& p.len() > 0
            &&& (p.len() == 1 || entries_total(p.take(p.len() - 1)) < amount)
        }),
    ensures
        payment_selection(entries, pubkey_hash, amount) == owned_entries(entries.take(i), pubkey_hash),
{
    let p = owned_entries(entries.take(i), pubkey_hash);
    let owned = owned_entries(entries, pubkey_hash);
    lemma_owned_prefix(entries, pubkey_hash, i, entries.len() as int);
    assert(entries.take(entries.len() as int) =~= entries);
    assert(owned.take(p.len() as int) == p);
    if done {
        let m = (p.len() - 1) as nat;
        assert forall|j: int| 0 <= j < m implies #[trigger] entries_total(owned.take(j + 1)) < amount by {
            assert(owned.take(j + 1) =~= p.take(j + 1));
            lemma_entries_total_prefix(p, j + 1, m as int);
        }
        assert(owned.take(m + 1int) =~= p);
        lemma_selection_count(owned, amount, m, 0);
    } else {
        assert(entries.take(i) =~= entries);
        if p.len() == 0 {
            assert(owned.take(0) =~= p);
        } else {
            assert forall|j: int| 0 <= j < owned.len() implies #[trigger] entries_total(owned.take(j + 1)) < amount by {
                lemma_entries_total_prefix(owned, j + 1, owned.len() as int);
                assert(owned.take(owned.len() as int) =~= owned);
            }
            lemma_selection_count(owned, amount, owned.len(), 0);
            assert(owned.take(owned.len() as int) =~= owned);
        }
    }
}

/// `u` with its first `k` inputs signed by the wallet.
pub open spec fn partially_signed(w: Wallet, u: TransactionView, k: int) -> TransactionView {
    TransactionView {
        inputs: Seq::new(
            u.inputs.len(),
            |j: int|
                if j < k {
                    signed_payment(w, u).inputs[j]
                } else {
                    u.inputs[j]
                },
        ),
        ..u
    }
}

/// Signing only changes signatures and public keys.
proof fn lemma_partially_signed_unsigned(w: Wallet, u: TransactionView, k: int)
    requires
        unsigned_tx(u) == u,
    ensures
        unsigned_tx(partially_signed(w, u, k)) == u,
{
    assert(unsigned_tx(partially_signed(w, u, k)).inputs =~= unsigned_tx(u).inputs);
}

/// Signing input `k` with the wallet extends the signed prefix by one.
proof fn lemma_sign_step(w: Wallet, u: TransactionView, k: int)
    requires
        unsigned_tx(u) == u,
        0 <= k < u.inputs.len(),
    ensures
        authorize_input(
            partially_signed(w, u, k),
            k,
            hex_encode(input_signature(w.signing_key@, u, k, w.pubkey_hash_hex@)->0),
            w.pubkey_hex@,
        ) == partially_signed(w, u, k + 1),
{
    assert(authorize_input(
        partially_signed(w, u, k),
        k,
        hex_encode(input_signature(w.signing_key@, u, k, w.pubkey_hash_hex@)->0),
        w.pubkey_hex@,
    ).inputs =~= partially_signed(w, u, k + 1).inputs);
}

/// The wallet's signatures of the first `k` inputs of `u` exist and verify
/// under its public key.
pub open spec fn signatures_verify(w: Wallet, u: TransactionView, k: int) -> bool {
    forall|i: int| 0 <= i < k ==> {
        &&& (#[trigger] input_signature(w.signing_key@, u, i, w.pubkey_hash_hex@)) is Some
        &&& ecdsa_verifies(
            secp256k1_public_key(w.signing_key@)->0,
            encode_utf8(sighash_of(u, i as nat, w.pubkey_hash_hex@)),
            input_signature(w.signing_key@, u, i, w.pubkey_hash_hex@)->0,
        )
    }
}

/// The outputs of a list of entries.
pub open spec fn entry_outputs(entries: Seq<(OutPoint, TxOutView)>) -> Seq<TxOutView> {
    entries.map_values(|e: (OutPoint, TxOutView)| e.1)
}

/// The total of a list of entries is the total of their outputs.
proof fn lemma_entries_total_outputs(entries: Seq<(OutPoint, TxOutView)>)
    ensures
        sum_amounts(entry_outputs(entries)) == entries_total(entries),
    decreases entries.len(),
{
    if entries.len() > 0 {
        lemma_entries_total_outputs(entries.drop_last());
        assert(entry_outputs(entries).drop_last() =~= entry_outputs(entries.drop_last()));
    }
}

/// The selection count never exceeds the number of candidates.
proof fn lemma_selection_count_bound(candidates: Seq<(OutPoint, TxOutView)>, amount: int, k: nat)
    ensures
        selection_count(candidates, amount, k) <= candidates.len(),
    decreases candidates.len() - k,
{
    if k < candidates.len() {
        lemma_selection_count_bound(candidates, amount, k + 1);
    }
}

/// A payment that `build_transaction` returns for a positive amount, from a
/// wallet whose key and fields agree, is accepted by the memory pool against
/// the unspent outputs it was built from, and leaves no fee.
#[verifier::spinoff_prover]
#[verifier::rlimit(40)]
pub proof fn lemma_payment_accepted(
    w: Wallet,
    entries: Seq<(OutPoint, TxOutView)>,
    to: Seq<char>,
    amount: u64,
    timestamp: u64,
)
    requires
        w.wf(),
        keys_distinct(entries),
        amount > 0,
        entries_total(payment_selection(entries, w.pubkey_hash_hex@, amount as int)) <= u64::MAX,
        entries_total(payment_selection(entries, w.pubkey_hash_hex@, amount as int)) >= amount,
        signatures_verify(
            w,
            unsigned_payment(
                payment_selection(entries, w.pubkey_hash_hex@, amount as int),
                to,
                amount,
                w.pubkey_hash_hex@,
                timestamp,
            ),
            payment_selection(entries, w.pubkey_hash_hex@, amount as int).len() as int,
        ),
    ensures
        ({
            let sel = payment_selection(entries, w.pubkey_hash_hex@, amount as int);
            let tx = signed_payment(w, unsigned_payment(sel, to, amount, w.pubkey_hash_hex@, timestamp));
            &&& mempool_acceptable(tx, entries_map(entries))
            &&& tx_fee(tx, entries_map(entries)) == 0
        }),
{
    let pkh = w.pubkey_hash_hex@;
    let sel = payment_selection(entries, pkh, amount as int);
    let u = unsigned_payment(sel, to, amount, pkh, timestamp);
    let tx = signed_payment(w, u);
    let utxos = entries_map(entries);
    let owned = owned_entries(entries, pkh);
    let total = entries_total(sel);
    assert(entries.take(entries.len() as int) =~= entries);
    lemma_selection_in_map(entries, pkh, entries.len() as int);
    lemma_selection_count_bound(owned, amount as int, 0);
    assert forall|j: int| 0 <= j < sel.len() implies #[trigger] sel[j] == owned[j] by {}
    if sel.len() == 0 {
        assert(total == 0);
    }
    let pk = w.public_key();
    lemma_hex_roundtrip(pk);
    assert(unsigned_tx(tx).inputs =~= u.inputs);
    assert(unsigned_tx(u).inputs =~= u.inputs);
    assert forall|j: int| 0 <= j < tx.inputs.len() implies #[trigger] input_valid(tx, j, utxos) by {
        assert(sel[j] == owned[j]);
        assert(outpoint_of(tx.inputs[j]) == sel[j].0);
        let sig = input_signature(w.signing_key@, u, j, pkh)->0;
        lemma_hex_roundtrip(sig);
        assert(sighash_of(tx, j as nat, pkh) == sighash_of(u, j as nat, pkh));
        assert(input_signature(w.signing_key@, u, j, pkh) is Some);
    }
    assert(spent_outputs(tx, utxos) =~= entry_outputs(sel)) by {
        assert forall|j: int| 0 <= j < sel.len() implies #[trigger] spent_outputs(tx, utxos)[j]
            == entry_outputs(sel)[j] by {
            assert(sel[j] == owned[j]);
        }
    }
    lemma_entries_total_outputs(sel);
    let change = total - amount;
    let first = seq![TxOutView { pubkey_hash: to, amount }];
    assert(first.drop_last() =~= Seq::<TxOutView>::empty());
    assert(sum_amounts(Seq::<TxOutView>::empty()) == 0);
    assert(sum_amounts(first) == amount);
    if change > 0 {
        assert(tx.outputs == u.outputs);
        assert(tx.outputs.drop_last() =~= first);
        assert(tx.outputs.last().amount == change);
    } else {
        assert(tx.outputs =~= first);
    }
    assert(sum_amounts(tx.outputs) == total);
    assert forall|a: int, b: int|
        0 <= a < input_outpoints(tx).len() && 0 <= b < input_outpoints(tx).len() && a != b
        implies input_outpoints(tx)[a] != input_outpoints(tx)[b] by {
        assert(sel[a] == owned[a]);
        assert(sel[b] == owned[b]);
        if a < b {
            assert(owned[a].0 != owned[b].0);
        } else {
            assert(owned[b].0 != owned[a].0);
        }
    }
}

} // verus!
