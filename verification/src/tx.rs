//! Transactions: inputs that spend earlier outputs, outputs that pay an
//! address, their canonical JSON text, their ids and their signatures.

use vstd::prelude::*;
use vstd::utf8::encode_utf8;
use crate::json::{json_string, json_array, comma_join, decimal, push_char, push_json_string, push_decimal};
use crate::digest::{hash_hex, hash_str};
use crate::hexenc::{hex_alphabet, hex_encode, hex_encode_bytes};
use crate::ecdsa::{ecdsa_signature, ecdsa_verifies, secp256k1_public_key, sign_message};
use crate::clock::now_ts;
use crate::fault::Fault;
use crate::wallet::Wallet;

verus! {

/// An input: spends output `vout` of transaction `txid`, authorised by a
/// DER signature (hex) and a compressed public key (hex).
pub struct TxIn {
    pub txid: String,
    pub vout: usize,
    pub signature: String,
    pub pubkey: String,
}

/// An output: `amount` paid to the address `pubkey_hash` (HASH160 of a
/// public key, hex).
pub struct TxOut {
    pub pubkey_hash: String,
    pub amount: u64,
}

/// A transaction. The first transaction of a block, which has no inputs,
/// is its coinbase.
pub struct Transaction {
    pub inputs: Vec<TxIn>,
    pub outputs: Vec<TxOut>,
    pub timestamp: u64,
}

pub struct TxInView {
    pub txid: Seq<char>,
    pub vout: usize,
    pub signature: Seq<char>,
    pub pubkey: Seq<char>,
}

pub struct TxOutView {
    pub pubkey_hash: Seq<char>,
    pub amount: u64,
}

pub struct TransactionView {
    pub inputs: Seq<TxInView>,
    pub outputs: Seq<TxOutView>,
    pub timestamp: u64,
}

impl View for TxIn {
    type V = TxInView;

    open spec fn view(&self) -> TxInView {
        TxInView {
            txid: self.txid@,
            vout: self.vout,
            signature: self.signature@,
            pubkey: self.pubkey@,
        }
    }
}

impl View for TxOut {
    type V = TxOutView;

    open spec fn view(&self) -> TxOutView {
        TxOutView { pubkey_hash: self.pubkey_hash@, amount: self.amount }
    }
}

impl View for Transaction {
    type V = TransactionView;

    open spec fn view(&self) -> TransactionView {
        TransactionView {
            inputs: self.inputs@.map_values(|i: TxIn| i@),
            outputs: self.outputs@.map_values(|o: TxOut| o@),
            timestamp: self.timestamp,
        }
    }
}

impl Clone for TxIn {
    fn clone(&self) -> (res: Self)
        ensures
            res@ == self@,
    {
        TxIn {
            txid: self.txid.clone(),
            vout: self.vout,
            signature: self.signature.clone(),
            pubkey: self.pubkey.clone(),
        }
    }
}

impl Clone for TxOut {
    fn clone(&self) -> (res: Self)
        ensures
            res@ == self@,
    {
        TxOut { pubkey_hash: self.pubkey_hash.clone(), amount: self.amount }
    }
}

impl Clone for Transaction {
    fn clone(&self) -> (res: Self)
        ensures
            res@ == self@,
    {
        let inputs = self.inputs.clone();
        let outputs = self.outputs.clone();
        proof {
            assert forall|i: int| 0 <= i < inputs.len() implies inputs@[i]@ == self.inputs@[i]@ by {
                assert(cloned::<TxIn>(self.inputs[i], inputs[i]));
            }
            assert forall|i: int| 0 <= i < outputs.len() implies outputs@[i]@
                == self.outputs@[i]@ by {
                assert(cloned::<TxOut>(self.outputs[i], outputs[i]));
            }
        }
        let res = Transaction { inputs, outputs, timestamp: self.timestamp };
        assert(res@.inputs =~= self@.inputs);
        assert(res@.outputs =~= self@.outputs);
        res
    }
}

// ---------------------------------------------------------------------------
// Canonical JSON: the text that `serde_json::to_string` writes for these
// structs, fields in declaration order.

/// JSON text of an input.
pub open spec fn txin_json(i: TxInView) -> Seq<char> {
    "{\"txid\":"@ + json_string(i.txid) + ",\"vout\":"@ + decimal(i.vout as nat)
        + ",\"signature\":"@ + json_string(i.signature) + ",\"pubkey\":"@ + json_string(
        i.pubkey,
    ) + "}"@
}

/// JSON text of an output.
pub open spec fn txout_json(o: TxOutView) -> Seq<char> {
    "{\"pubkey_hash\":"@ + json_string(o.pubkey_hash) + ",\"amount\":"@ + decimal(
        o.amount as nat,
    ) + "}"@
}

/// JSON text of a transaction.
pub open spec fn tx_json(t: TransactionView) -> Seq<char> {
    "{\"inputs\":"@ + json_array(t.inputs.map_values(|i: TxInView| txin_json(i)))
        + ",\"outputs\":"@ + json_array(t.outputs.map_values(|o: TxOutView| txout_json(o)))
        + ",\"timestamp\":"@ + decimal(t.timestamp as nat) + "}"@
}

/// The id of a transaction: SHA-256 (hex) of its JSON text.
pub open spec fn txid_of(t: TransactionView) -> Seq<char> {
    hash_hex(encode_utf8(tx_json(t)))
}

// The same structs as a `serde_json::Value` prints them: object keys sorted.

/// Sorted-key JSON text of an input.
pub open spec fn txin_value_json(i: TxInView) -> Seq<char> {
    "{\"pubkey\":"@ + json_string(i.pubkey) + ",\"signature\":"@ + json_string(i.signature)
        + ",\"txid\":"@ + json_string(i.txid) + ",\"vout\":"@ + decimal(i.vout as nat) + "}"@
}

/// Sorted-key JSON text of an output.
pub open spec fn txout_value_json(o: TxOutView) -> Seq<char> {
    "{\"amount\":"@ + decimal(o.amount as nat) + ",\"pubkey_hash\":"@ + json_string(
        o.pubkey_hash,
    ) + "}"@
}

/// Sorted-key JSON text of a transaction.
pub open spec fn tx_value_json(t: TransactionView) -> Seq<char> {
    "{\"inputs\":"@ + json_array(t.inputs.map_values(|i: TxInView| txin_value_json(i)))
        + ",\"outputs\":"@ + json_array(
        t.outputs.map_values(|o: TxOutView| txout_value_json(o)),
    ) + ",\"timestamp\":"@ + decimal(t.timestamp as nat) + "}"@
}

/// The input with its signature and public key emptied.
pub open spec fn unsigned_input(i: TxInView) -> TxInView {
    TxInView { signature: Seq::empty(), pubkey: Seq::empty(), ..i }
}

/// The transaction with every input's signature and public key emptied.
pub open spec fn unsigned_tx(t: TransactionView) -> TransactionView {
    TransactionView { inputs: t.inputs.map_values(|i: TxInView| unsigned_input(i)), ..t }
}

/// The JSON text committed to by the signature of input `index`: the
/// unsigned transaction, the index and the address of the spent output.
pub open spec fn sighash_json(t: TransactionView, index: nat, prev_pubkey_hash: Seq<char>) -> Seq<
    char,
> {
    "{\"input_index\":"@ + decimal(index) + ",\"prev_pubkey_hash\":"@ + json_string(
        prev_pubkey_hash,
    ) + ",\"tx\":"@ + tx_value_json(unsigned_tx(t)) + "}"@
}

/// The signature hash (hex) of input `index`.
pub open spec fn sighash_of(t: TransactionView, index: nat, prev_pubkey_hash: Seq<char>) -> Seq<
    char,
> {
    hash_hex(encode_utf8(sighash_json(t, index, prev_pubkey_hash)))
}

fn push_txin_json(out: &mut String, i: &TxIn)
    ensures
        final(out)@ == old(out)@ + txin_json(i@),
{
    let ghost start = old(out)@;
    out.append("{\"txid\":");
    push_json_string(out, i.txid.as_str());
    out.append(",\"vout\":");
    push_decimal(out, i.vout as u64);
    out.append(",\"signature\":");
    push_json_string(out, i.signature.as_str());
    out.append(",\"pubkey\":");
    push_json_string(out, i.pubkey.as_str());
    out.append("}");
    assert(out@ =~= start + txin_json(i@));
}

fn push_txin_value_json(out: &mut String, i: &TxIn)
    ensures
        final(out)@ == old(out)@ + txin_value_json(i@),
{
    let ghost start = old(out)@;
    out.append("{\"pubkey\":");
    push_json_string(out, i.pubkey.as_str());
    out.append(",\"signature\":");
    push_json_string(out, i.signature.as_str());
    out.append(",\"txid\":");
    push_json_string(out, i.txid.as_str());
    out.append(",\"vout\":");
    push_decimal(out, i.vout as u64);
    out.append("}");
    assert(out@ =~= start + txin_value_json(i@));
}

fn push_txout_json(out: &mut String, o: &TxOut)
    ensures
        final(out)@ == old(out)@ + txout_json(o@),
{
    let ghost start = old(out)@;
    out.append("{\"pubkey_hash\":");
    push_json_string(out, o.pubkey_hash.as_str());
    out.append(",\"amount\":");
    push_decimal(out, o.amount);
    out.append("}");
    assert(out@ =~= start + txout_json(o@));
}

fn push_txout_value_json(out: &mut String, o: &TxOut)
    ensures
        final(out)@ == old(out)@ + txout_value_json(o@),
{
    let ghost start = old(out)@;
    out.append("{\"amount\":");
    push_decimal(out, o.amount);
    out.append(",\"pubkey_hash\":");
    push_json_string(out, o.pubkey_hash.as_str());
    out.append("}");
    assert(out@ =~= start + txout_value_json(o@));
}

/// One more item of a comma-joined list.
pub proof fn lemma_comma_join_push(items: Seq<Seq<char>>, k: int)
    requires
        0 <= k < items.len(),
    ensures
        comma_join(items.take(k + 1)) == if k == 0 {
            items[0]
        } else {
            comma_join(items.take(k)) + seq![','] + items[k]
        },
{
    let s = items.take(k + 1);
    assert(s.drop_last() =~= items.take(k));
    if k == 0 {
        assert(s.len() == 1);
    }
}

fn push_inputs_json(out: &mut String, inputs: &Vec<TxIn>, sorted: bool)
    ensures
        final(out)@ == old(out)@ + json_array(
            if sorted {
                inputs@.map_values(|i: TxIn| i@).map_values(|i: TxInView| txin_value_json(i))
            } else {
                inputs@.map_values(|i: TxIn| i@).map_values(|i: TxInView| txin_json(i))
            },
        ),
{
    let ghost start = old(out)@;
    let ghost items = if sorted {
        inputs@.map_values(|i: TxIn| i@).map_values(|i: TxInView| txin_value_json(i))
    } else {
        inputs@.map_values(|i: TxIn| i@).map_values(|i: TxInView| txin_json(i))
    };
    push_char(out, '[');
    for k in 0..inputs.len()
        invariant
            items.len() == inputs.len(),
            items == (if sorted {
                inputs@.map_values(|i: TxIn| i@).map_values(|i: TxInView| txin_value_json(i))
            } else {
                inputs@.map_values(|i: TxIn| i@).map_values(|i: TxInView| txin_json(i))
            }),
            out@ == start + seq!['['] + comma_join(items.take(k as int)),
    {
        proof {
            lemma_comma_join_push(items, k as int);
        }
        if k > 0 {
            push_char(out, ',');
        }
        if sorted {
            push_txin_value_json(out, &inputs[k]);
        } else {
            push_txin_json(out, &inputs[k]);
        }
        assert(items[k as int] == if sorted {
            txin_value_json(inputs[k as int]@)
        } else {
            txin_json(inputs[k as int]@)
        });
    }
    assert(items.take(inputs.len() as int) =~= items);
    push_char(out, ']');
    assert(out@ =~= start + json_array(items));
}

fn push_outputs_json(out: &mut String, outputs: &Vec<TxOut>, sorted: bool)
    ensures
        final(out)@ == old(out)@ + json_array(
            if sorted {
                outputs@.map_values(|o: TxOut| o@).map_values(|o: TxOutView| txout_value_json(o))
            } else {
                outputs@.map_values(|o: TxOut| o@).map_values(|o: TxOutView| txout_json(o))
            },
        ),
{
    let ghost start = old(out)@;
    let ghost items = if sorted {
        outputs@.map_values(|o: TxOut| o@).map_values(|o: TxOutView| txout_value_json(o))
    } else {
        outputs@.map_values(|o: TxOut| o@).map_values(|o: TxOutView| txout_json(o))
    };
    push_char(out, '[');
    for k in 0..outputs.len()
        invariant
            items.len() == outputs.len(),
            items == (if sorted {
                outputs@.map_values(|o: TxOut| o@).map_values(|o: TxOutView| txout_value_json(o))
            } else {
                outputs@.map_values(|o: TxOut| o@).map_values(|o: TxOutView| txout_json(o))
            }),
            out@ == start + seq!['['] + comma_join(items.take(k as int)),
    {
        proof {
            lemma_comma_join_push(items, k as int);
        }
        if k > 0 {
            push_char(out, ',');
        }
        if sorted {
            push_txout_value_json(out, &outputs[k]);
        } else {
            push_txout_json(out, &outputs[k]);
        }
        assert(items[k as int] == if sorted {
            txout_value_json(outputs[k as int]@)
        } else {
            txout_json(outputs[k as int]@)
        });
    }
    assert(items.take(outputs.len() as int) =~= items);
    push_char(out, ']');
    assert(out@ =~= start + json_array(items));
}

impl Transaction {
    /// Appends the JSON text of the transaction, keys in field order
    /// (`sorted == false`) or sorted (`sorted == true`).
    pub(crate) fn push_json(&self, out: &mut String, sorted: bool)
        ensures
            final(out)@ == old(out)@ + if sorted {
                tx_value_json(self@)
            } else {
                tx_json(self@)
            },
    {
        let ghost start = old(out)@;
        out.append("{\"inputs\":");
        push_inputs_json(out, &self.inputs, sorted);
        out.append(",\"outputs\":");
        push_outputs_json(out, &self.outputs, sorted);
        out.append(",\"timestamp\":");
        push_decimal(out, self.timestamp);
        out.append("}");
        proof {
            assert(self.inputs@.map_values(|i: TxIn| i@).map_values(|i: TxInView| txin_json(i))
                =~= self@.inputs.map_values(|i: TxInView| txin_json(i)));
            assert(self.inputs@.map_values(|i: TxIn| i@).map_values(
                |i: TxInView| txin_value_json(i),
            ) =~= self@.inputs.map_values(|i: TxInView| txin_value_json(i)));
            assert(self.outputs@.map_values(|o: TxOut| o@).map_values(
                |o: TxOutView| txout_json(o),
            ) =~= self@.outputs.map_values(|o: TxOutView| txout_json(o)));
            assert(self.outputs@.map_values(|o: TxOut| o@).map_values(
                |o: TxOutView| txout_value_json(o),
            ) =~= self@.outputs.map_values(|o: TxOutView| txout_value_json(o)));
        }
        assert(out@ =~= start + if sorted {
            tx_value_json(self@)
        } else {
            tx_json(self@)
        });
    }

    /// The JSON text of the transaction.
    pub fn serialize(&self) -> (res: String)
        ensures
            res@ == tx_json(self@),
    {
        let mut out = String::new();
        self.push_json(&mut out, false);
        assert(out@ =~= tx_json(self@));
        out
    }

    /// The transaction id: SHA-256 (hex) of the JSON text.
    pub fn txid(&self) -> (res: String)
        ensures
            res@ == txid_of(self@),
            res@.len() == 64,
            forall|i: int| 0 <= i < 64 ==> hex_alphabet().contains(#[trigger] res@[i]),
    {
        let text = self.serialize();
        hash_str(text.as_str())
    }

    /// The inputs with their signatures and public keys emptied.
    fn unsigned_inputs(&self) -> (res: Vec<TxIn>)
        ensures
            res@.map_values(|i: TxIn| i@) == self@.inputs.map_values(
                |i: TxInView| unsigned_input(i),
            ),
    {
        let mut res: Vec<TxIn> = Vec::new();
        for k in 0..self.inputs.len()
            invariant
                res.len() == k,
                res@.map_values(|i: TxIn| i@) == self@.inputs.take(k as int).map_values(
                    |i: TxInView| unsigned_input(i),
                ),
        {
            let i = &self.inputs[k];
            let ghost before = res@;
            res.push(
                TxIn {
                    txid: i.txid.clone(),
                    vout: i.vout,
                    signature: String::new(),
                    pubkey: String::new(),
                },
            );
            assert(res@[k as int]@ == unsigned_input(self@.inputs[k as int]));
            assert forall|j: int| 0 <= j < k implies res@[j]@ == unsigned_input(
                self@.inputs[j],
            ) by {
                assert(res@[j] == before[j]);
                assert(before.map_values(|i: TxIn| i@)[j] == self@.inputs.take(k as int).map_values(
                    |i: TxInView| unsigned_input(i),
                )[j]);
            }
            assert(res@.map_values(|i: TxIn| i@) =~= self@.inputs.take(k + 1).map_values(
                |i: TxInView| unsigned_input(i),
            ));
        }
        assert(self@.inputs.take(self.inputs.len() as int) =~= self@.inputs);
        res
    }

    /// The signature hash (hex) that input `input_index` must sign, given the
    /// address of the output it spends: SHA-256 of the unsigned transaction,
    /// the index and the address, as one JSON object.
    pub fn sighash_for_input(&self, input_index: usize, prev_pubkey_hash: &str) -> (res: String)
        ensures
            res@ == sighash_of(self@, input_index as nat, prev_pubkey_hash@),
    {
        let unsigned = Transaction {
            inputs: self.unsigned_inputs(),
            outputs: self.outputs.clone(),
            timestamp: self.timestamp,
        };
        proof {
            assert forall|i: int| 0 <= i < self.outputs.len() implies unsigned.outputs@[i]@
                == self.outputs@[i]@ by {
                assert(cloned::<TxOut>(self.outputs[i], unsigned.outputs[i]));
            }
            assert(unsigned@.outputs =~= self@.outputs);
            assert(unsigned@ == unsigned_tx(self@));
        }
        let mut text = String::new();
        text.append("{\"input_index\":");
        push_decimal(&mut text, input_index as u64);
        text.append(",\"prev_pubkey_hash\":");
        push_json_string(&mut text, prev_pubkey_hash);
        text.append(",\"tx\":");
        unsigned.push_json(&mut text, true);
        text.append("}");
        assert(text@ =~= sighash_json(self@, input_index as nat, prev_pubkey_hash@));
        hash_str(text.as_str())
    }

    /// A transaction stamped with the current time; the clock's fault when
    /// it reads a time before the epoch.
    pub fn new(inputs: Vec<TxIn>, outputs: Vec<TxOut>) -> (res: Result<Self, Fault>)
        ensures
            res matches Ok(t) ==> t.inputs == inputs && t.outputs == outputs,
            res matches Err(f) ==> f == Fault::ClockBeforeEpoch,
    {
        let timestamp = now_ts()?;
        Ok(Transaction { inputs, outputs, timestamp })
    }

    /// A coinbase transaction: no inputs, one output paying `amount` to
    /// `to_pubkey_hash`, stamped with the current time; the clock's fault
    /// when it reads a time before the epoch.
    pub fn coinbase(to_pubkey_hash: &str, amount: u64) -> (res: Result<Self, Fault>)
        ensures
            res matches Ok(t) ==> t@ == coinbase_view(to_pubkey_hash@, amount, t.timestamp),
            res matches Err(f) ==> f == Fault::ClockBeforeEpoch,
    {
        let timestamp = now_ts()?;
        Ok(Self::coinbase_at(to_pubkey_hash, amount, timestamp))
    }

    /// The coinbase transaction paying `amount` to `to_pubkey_hash`, stamped
    /// with `timestamp`.
    pub fn coinbase_at(to_pubkey_hash: &str, amount: u64, timestamp: u64) -> (res: Self)
        ensures
            res@ == coinbase_view(to_pubkey_hash@, amount, timestamp),
    {
        let mut outputs: Vec<TxOut> = Vec::new();
        outputs.push(TxOut { pubkey_hash: to_pubkey_hash.to_owned(), amount });
        let res = Transaction { inputs: Vec::new(), outputs, timestamp };
        assert(res@.inputs =~= Seq::<TxInView>::empty());
        assert(res@.outputs =~= seq![TxOutView { pubkey_hash: to_pubkey_hash@, amount }]);
        res
    }

    /// Signs input `input_index` with the wallet's key, over the signature
    /// hash for the output (paid to `prev_pubkey_hash`) that it spends, and
    /// records the signature (DER, hex) and the wallet's public key (hex).
    /// `Ok(false)`, changing nothing, when the index is out of range; the
    /// fault `SigningFailed`, changing nothing, when the signer produces no
    /// signature.
    pub fn sign_input(&mut self, input_index: usize, wallet: &Wallet, prev_pubkey_hash: &str) -> (res:
        Result<bool, Fault>)
        ensures
            ({
                let sig = ecdsa_signature(
                    wallet.signing_key@,
                    encode_utf8(sighash_of(old(self)@, input_index as nat, prev_pubkey_hash@)),
                );
                &&& input_index >= old(self).inputs.len() ==> res == Ok::<bool, Fault>(false)
                &&& input_index < old(self).inputs.len() && sig is None ==> res == Err::<bool, Fault>(
                    Fault::SigningFailed,
                )
                &&& input_index < old(self).inputs.len() && sig is Some ==> res == Ok::<bool, Fault>(true)
                &&& res == Ok::<bool, Fault>(true) ==> final(self)@ == authorize_input(
                    old(self)@,
                    input_index as int,
                    hex_encode(sig->0),
                    wallet.pubkey_hex@,
                )
                &&& res != Ok::<bool, Fault>(true) ==> final(self)@ == old(self)@
                &&& res == Ok::<bool, Fault>(true) ==> ecdsa_verifies(
                    secp256k1_public_key(wallet.signing_key@)->0,
                    encode_utf8(sighash_of(old(self)@, input_index as nat, prev_pubkey_hash@)),
                    sig->0,
                )
            }),
    {
        if input_index >= self.inputs.len() {
            return Ok(false);
        }
        let digest_hex = self.sighash_for_input(input_index, prev_pubkey_hash);
        let sig = match sign_message(wallet.signing_key.as_slice(), digest_hex.as_str().as_bytes()) {
            Some(sig) => sig,
            None => return Err(Fault::SigningFailed),
        };
        let ghost before = self@;
        let signed = TxIn {
            txid: self.inputs[input_index].txid.clone(),
            vout: self.inputs[input_index].vout,
            signature: hex_encode_bytes(sig.as_slice()),
            pubkey: wallet.pubkey_hex.clone(),
        };
        self.inputs.set(input_index, signed);
        assert(self@.inputs =~= authorize_input(
            before,
            input_index as int,
            hex_encode(sig@),
            wallet.pubkey_hex@,
        ).inputs);
        Ok(true)
    }
}

/// The coinbase transaction paying `amount` to `to_pubkey_hash`, stamped
/// with `timestamp`: no inputs and that one output.
pub open spec fn coinbase_view(to_pubkey_hash: Seq<char>, amount: u64, timestamp: u64) -> TransactionView {
    TransactionView {
        inputs: Seq::empty(),
        outputs: seq![TxOutView { pubkey_hash: to_pubkey_hash, amount }],
        timestamp,
    }
}

/// The transaction with input `index` carrying the given signature and
/// public key.
pub open spec fn authorize_input(
    t: TransactionView,
    index: int,
    signature: Seq<char>,
    pubkey: Seq<char>,
) -> TransactionView {
    TransactionView {
        inputs: t.inputs.update(index, TxInView { signature, pubkey, ..t.inputs[index] }),
        ..t
    }
}

} // verus!
