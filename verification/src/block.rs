//! Blocks: a header committing to the transactions through their Merkle
//! root, sealed by a nonce whose header hash meets the difficulty.

use vstd::prelude::*;
use vstd::utf8::encode_utf8;
use crate::json::{json_string, json_array, comma_join, decimal, push_char, push_json_string, push_decimal};
use crate::digest::{hash_hex, hash_str};
use crate::tx::{Transaction, TransactionView, tx_json, lemma_comma_join_push};
use crate::validation::txs_view;
use crate::merkle::{merkle_root, merkle_root_hex};
use crate::pow::{meets_difficulty, has_leading_zero_bits_hex};

verus! {

/// A block. `difficulty` is the number of leading zero bits its hash must
/// have; `hash` is the hash of its header.
pub struct Block {
    pub index: u32,
    pub timestamp: u64,
    pub transactions: Vec<Transaction>,
    pub previous_hash: String,
    pub merkle_root: String,
    pub difficulty: u32,
    pub hash: String,
    pub nonce: u64,
}

pub struct BlockView {
    pub index: u32,
    pub timestamp: u64,
    pub transactions: Seq<TransactionView>,
    pub previous_hash: Seq<char>,
    pub merkle_root: Seq<char>,
    pub difficulty: u32,
    pub hash: Seq<char>,
    pub nonce: u64,
}

impl View for Block {
    type V = BlockView;

    open spec fn view(&self) -> BlockView {
        BlockView {
            index: self.index,
            timestamp: self.timestamp,
            transactions: txs_view(self.transactions@),
            previous_hash: self.previous_hash@,
            merkle_root: self.merkle_root@,
            difficulty: self.difficulty,
            hash: self.hash@,
            nonce: self.nonce,
        }
    }
}

impl Clone for Block {
    fn clone(&self) -> (res: Self)
        ensures
            res@ == self@,
    {
        let transactions = self.transactions.clone();
        proof {
            assert forall|i: int| 0 <= i < transactions.len() implies transactions@[i]@
                == self.transactions@[i]@ by {
                assert(cloned::<Transaction>(self.transactions[i], transactions[i]));
            }
            assert(txs_view(transactions@) =~= txs_view(self.transactions@));
        }
        Block {
            index: self.index,
            timestamp: self.timestamp,
            transactions,
            previous_hash: self.previous_hash.clone(),
            merkle_root: self.merkle_root.clone(),
            difficulty: self.difficulty,
            hash: self.hash.clone(),
            nonce: self.nonce,
        }
    }
}

/// The header as the JSON object that is hashed (keys sorted).
pub open spec fn header_json(b: BlockView) -> Seq<char> {
    "{\"difficulty\":"@ + decimal(b.difficulty as nat) + ",\"index\":"@ + decimal(b.index as nat)
        + ",\"merkle_root\":"@ + json_string(b.merkle_root) + ",\"nonce\":"@ + decimal(
        b.nonce as nat,
    ) + ",\"previous_hash\":"@ + json_string(b.previous_hash) + ",\"timestamp\":"@ + decimal(
        b.timestamp as nat,
    ) + "}"@
}

/// The hash (hex) of a block's header; it does not depend on the `hash` field
/// or the transactions themselves.
pub open spec fn header_hash(b: BlockView) -> Seq<char> {
    hash_hex(encode_utf8(header_json(b)))
}

/// The block with another nonce.
pub open spec fn with_nonce(b: BlockView, nonce: u64) -> BlockView {
    BlockView { nonce, ..b }
}

/// With this nonce, the header hash meets the block's difficulty.
pub open spec fn nonce_works(b: BlockView, nonce: u64) -> bool {
    meets_difficulty(header_hash(with_nonce(b, nonce)), b.difficulty as nat)
}

/// The number of wrapping increments that lead from `start` to `n`.
pub open spec fn search_offset(start: u64, n: u64) -> int {
    if n >= start {
        n - start
    } else {
        n + 0x1_0000_0000_0000_0000 - start
    }
}

/// The nonce that a search upward from `b.nonce`, wrapping around, stops
/// at: the first that works, or, where none does, the one before the start.
pub open spec fn mined_nonce(b: BlockView) -> u64 {
    if exists|n: u64| nonce_works(b, n) {
        choose|n: u64|
            nonce_works(b, n) && forall|m: u64|
                search_offset(b.nonce, m) < search_offset(b.nonce, n) ==> !#[trigger] nonce_works(b, m)
    } else if b.nonce == 0 {
        u64::MAX
    } else {
        (b.nonce - 1) as u64
    }
}

/// The block after mining: the nonce the search stops at, and the header
/// hash with that nonce.
pub open spec fn mined(b: BlockView) -> BlockView {
    let n = mined_nonce(b);
    BlockView { nonce: n, hash: header_hash(with_nonce(b, n)), ..b }
}

/// A working nonce that no earlier nonce in the search order beats is the
/// one the search stops at.
pub proof fn lemma_first_working_nonce(b: BlockView, n: u64)
    requires
        nonce_works(b, n),
        forall|m: u64| search_offset(b.nonce, m) < search_offset(b.nonce, n) ==> !#[trigger] nonce_works(b, m),
    ensures
        mined_nonce(b) == n,
{
    let c = choose|c: u64|
        nonce_works(b, c) && forall|m: u64|
            search_offset(b.nonce, m) < search_offset(b.nonce, c) ==> !#[trigger] nonce_works(b, m);
    assert(nonce_works(b, c));
    if search_offset(b.nonce, c) < search_offset(b.nonce, n) {
        assert(!nonce_works(b, c));
    } else if search_offset(b.nonce, n) < search_offset(b.nonce, c) {
        assert(!nonce_works(b, n));
    }
}

/// JSON text of a block, fields in declaration order.
pub open spec fn block_json(b: BlockView) -> Seq<char> {
    block_json_head(b) + block_json_tail(b)
}

/// The fields of a block's JSON text up to its transactions.
pub open spec fn block_json_head(b: BlockView) -> Seq<char> {
    "{\"index\":"@ + decimal(b.index as nat) + ",\"timestamp\":"@ + decimal(b.timestamp as nat)
        + ",\"transactions\":"@ + json_array(
        b.transactions.map_values(|t: TransactionView| tx_json(t)),
    )
}

/// The fields of a block's JSON text after its transactions.
pub open spec fn block_json_tail(b: BlockView) -> Seq<char> {
    ",\"previous_hash\":"@ + json_string(b.previous_hash) + ",\"merkle_root\":"@ + json_string(
        b.merkle_root,
    ) + ",\"difficulty\":"@ + decimal(b.difficulty as nat) + ",\"hash\":"@ + json_string(b.hash)
        + ",\"nonce\":"@ + decimal(b.nonce as nat) + "}"@
}

impl Block {
    /// The hash (hex) of the block's header.
    pub fn calculate_hash(&self) -> (res: String)
        ensures
            res@ == header_hash(self@),
    {
        let mut text = String::new();
        text.append("{\"difficulty\":");
        push_decimal(&mut text, self.difficulty as u64);
        text.append(",\"index\":");
        push_decimal(&mut text, self.index as u64);
        text.append(",\"merkle_root\":");
        push_json_string(&mut text, self.merkle_root.as_str());
        text.append(",\"nonce\":");
        push_decimal(&mut text, self.nonce);
        text.append(",\"previous_hash\":");
        push_json_string(&mut text, self.previous_hash.as_str());
        text.append(",\"timestamp\":");
        push_decimal(&mut text, self.timestamp);
        text.append("}");
        assert(text@ =~= header_json(self@));
        hash_str(text.as_str())
    }

    /// A block over `transactions` with nonce 0, its Merkle root computed and
    /// its hash set to the header hash.
    pub fn new(
        index: u32,
        timestamp: u64,
        transactions: Vec<Transaction>,
        previous_hash: String,
        difficulty: u32,
    ) -> (res: Self)
        ensures
            res.index == index,
            res.timestamp == timestamp,
            res.transactions == transactions,
            res.previous_hash == previous_hash,
            res.difficulty == difficulty,
            res.nonce == 0,
            res.merkle_root@ == merkle_root(txs_view(transactions@)),
            res.hash@ == header_hash(res@),
    {
        let merkle_root = merkle_root_hex(transactions.as_slice());
        let mut block = Block {
            index,
            timestamp,
            transactions,
            previous_hash,
            merkle_root,
            difficulty,
            hash: String::new(),
            nonce: 0,
        };
        block.hash = block.calculate_hash();
        block
    }

    /// Searches nonces upward from the current one, wrapping around, for one
    /// whose header hash meets the difficulty; sets the nonce and the hash.
    /// Returns false, after trying every nonce, when there is none.
    pub fn mine_block(&mut self) -> (found: bool)
        ensures
            final(self)@ == (BlockView {
                hash: final(self)@.hash,
                nonce: final(self).nonce,
                ..old(self)@
            }),
            final(self)@.hash == header_hash(final(self)@),
            found == nonce_works(old(self)@, final(self).nonce),
            forall|n: u64|
                search_offset(old(self).nonce, n) < search_offset(old(self).nonce, final(self).nonce)
                    ==> !nonce_works(old(self)@, n),
            !found ==> forall|n: u64| !nonce_works(old(self)@, n),
            final(self)@ == mined(old(self)@),
    {
        let ghost b0 = self@;
        let ghost start = self.nonce;
        let mut tried: u64 = 0;
        loop
            invariant
                self@ == (BlockView { hash: self@.hash, nonce: self.nonce, ..b0 }),
                search_offset(start, self.nonce) == tried,
                forall|n: u64| search_offset(start, n) < tried ==> !nonce_works(b0, n),
                b0.nonce == start,
                b0 == old(self)@,
            decreases u64::MAX - tried,
        {
            self.hash = self.calculate_hash();
            assert(with_nonce(b0, self.nonce) == (BlockView { hash: b0.hash, ..self@ }));
            assert(header_hash(self@) == header_hash(with_nonce(b0, self.nonce)));
            if has_leading_zero_bits_hex(self.hash.as_str(), self.difficulty) {
                proof {
                    lemma_first_working_nonce(b0, self.nonce);
                }
                return true;
            }
            if tried == u64::MAX {
                assert forall|n: u64| !nonce_works(b0, n) by {
                    if search_offset(start, n) < tried {
                    } else {
                        assert(n == self.nonce);
                    }
                }
                assert(self.nonce == if start == 0 { u64::MAX } else { (start - 1) as u64 });
                return false;
            }
            self.nonce = self.nonce.wrapping_add(1);
            tried = tried + 1;
        }
    }

    /// Appends the block's JSON text.
    pub(crate) fn push_json(&self, out: &mut String)
        ensures
            final(out)@ == old(out)@ + block_json(self@),
    {
        let ghost start = old(out)@;
        out.append("{\"index\":");
        push_decimal(out, self.index as u64);
        out.append(",\"timestamp\":");
        push_decimal(out, self.timestamp);
        out.append(",\"transactions\":");
        push_txs_json(out, &self.transactions);
        assert(out@ =~= start + block_json_head(self@));
        self.push_json_tail(out);
        assert(out@ =~= start + block_json(self@));
    }

    fn push_json_tail(&self, out: &mut String)
        ensures
            final(out)@ == old(out)@ + block_json_tail(self@),
    {
        let ghost start = old(out)@;
        out.append(",\"previous_hash\":");
        push_json_string(out, self.previous_hash.as_str());
        out.append(",\"merkle_root\":");
        push_json_string(out, self.merkle_root.as_str());
        out.append(",\"difficulty\":");
        push_decimal(out, self.difficulty as u64);
        out.append(",\"hash\":");
        push_json_string(out, self.hash.as_str());
        out.append(",\"nonce\":");
        push_decimal(out, self.nonce);
        out.append("}");
        assert(out@ =~= start + block_json_tail(self@));
    }

    /// The JSON text of the block.
    pub fn serialize(&self) -> (res: String)
        ensures
            res@ == block_json(self@),
    {
        let mut out = String::new();
        self.push_json(&mut out);
        assert(out@ =~= block_json(self@));
        out
    }
}

/// Appends the JSON array of the transactions.
fn push_txs_json(out: &mut String, txs: &Vec<Transaction>)
    ensures
        final(out)@ == old(out)@ + json_array(
            txs_view(txs@).map_values(|t: TransactionView| tx_json(t)),
        ),
{
    let ghost start = old(out)@;
    let ghost items = txs_view(txs@).map_values(|t: TransactionView| tx_json(t));
    push_char(out, '[');
    for k in 0..txs.len()
        invariant
            items == txs_view(txs@).map_values(|t: TransactionView| tx_json(t)),
            items.len() == txs.len(),
            out@ == start + seq!['['] + comma_join(items.take(k as int)),
    {
        proof {
            lemma_comma_join_push(items, k as int);
        }
        if k > 0 {
            push_char(out, ',');
        }
        txs[k].push_json(out, false);
        assert(items[k as int] == tx_json(txs[k as int]@));
    }
    assert(items.take(txs.len() as int) =~= items);
    push_char(out, ']');
    assert(out@ =~= start + json_array(items));
}

} // verus!
