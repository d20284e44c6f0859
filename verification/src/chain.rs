//! The chain: blocks linked by hash from a genesis block, and the unspent
//! outputs that replaying their transactions leaves.

use vstd::prelude::*;
use crate::tx::{Transaction, TransactionView, TxOut, TxOutView, txid_of, coinbase_view};
use crate::utxo::{UtxoSet, OutPoint};
use crate::validation::{
    txs_valid, apply_txs, txs_view, check_transactions, apply_transactions, BLOCK_REWARD,
};
use crate::merkle::{merkle_root, merkle_root_hex};
use crate::pow::{meets_difficulty, has_leading_zero_bits_hex};
use crate::block::{
    Block, BlockView, header_hash, block_json, with_nonce, nonce_works, search_offset,
    header_json, mined,
};
use crate::validation::{block_spends, sum_amounts};
use crate::clock::now_ts;
use crate::fault::Fault;
use crate::json::{json_array, comma_join, push_char};
use crate::tx::lemma_comma_join_push;

verus! {

/// The views of a list of blocks.
pub open spec fn blocks_view(v: Seq<Block>) -> Seq<BlockView> {
    v.map_values(|b: Block| b@)
}

/// Applies a block's transactions if they are valid; otherwise leaves the
/// outputs as they are.
pub open spec fn apply_if_valid(utxos: Map<OutPoint, TxOutView>, txs: Seq<TransactionView>) -> Map<
    OutPoint,
    TxOutView,
> {
    if txs_valid(txs, utxos) {
        apply_txs(utxos, txs)
    } else {
        utxos
    }
}

/// The unspent outputs after replaying the blocks from an empty set,
/// skipping the transactions of any block that are not valid.
pub open spec fn replay(blocks: Seq<BlockView>) -> Map<OutPoint, TxOutView>
    decreases blocks.len(),
{
    if blocks.len() == 0 {
        Map::empty()
    } else {
        apply_if_valid(replay(blocks.drop_last()), blocks.last().transactions)
    }
}

/// The block's hash is its header hash and meets its difficulty.
pub open spec fn block_sealed(b: BlockView) -> bool {
    &&& b.hash == header_hash(b)
    &&& meets_difficulty(b.hash, b.difficulty as nat)
}

/// The block's Merkle root is that of its transactions.
pub open spec fn block_committed(b: BlockView) -> bool {
    b.merkle_root == merkle_root(b.transactions)
}

/// Block `i` names its predecessor's hash, or `"0"` for the first block.
pub open spec fn block_linked(blocks: Seq<BlockView>, i: int) -> bool {
    if i == 0 {
        blocks[0].previous_hash == "0"@
    } else {
        blocks[i].previous_hash == blocks[i - 1].hash
    }
}

/// Block `i` is sealed, committed and linked, and its transactions are valid
/// against the outputs left by the blocks before it.
pub open spec fn block_valid_at(blocks: Seq<BlockView>, i: int) -> bool {
    &&& block_sealed(blocks[i])
    &&& block_committed(blocks[i])
    &&& block_linked(blocks, i)
    &&& txs_valid(blocks[i].transactions, replay(blocks.take(i)))
}

/// A non-empty chain every block of which is valid in its place.
pub open spec fn chain_valid(blocks: Seq<BlockView>) -> bool {
    &&& blocks.len() > 0
    &&& forall|i: int| 0 <= i < blocks.len() ==> #[trigger] block_valid_at(blocks, i)
}

/// What a node checks of a block on its own: sealed, at the node's
/// difficulty, committed, and with transactions valid against `utxos`.
pub open spec fn structure_valid(difficulty: u32, utxos: Map<OutPoint, TxOutView>, b: BlockView) -> bool {
    &&& block_sealed(b)
    &&& b.difficulty == difficulty
    &&& block_committed(b)
    &&& txs_valid(b.transactions, utxos)
}

/// The block comes next after `blocks`: its index is their number and it
/// names the last one's hash.
pub open spec fn extends(blocks: Seq<BlockView>, b: BlockView) -> bool {
    &&& b.index as int == blocks.len()
    &&& b.previous_hash == blocks.last().hash
}

/// Replaying one more block whose transactions are valid applies them.
pub proof fn lemma_replay_push(blocks: Seq<BlockView>, b: BlockView)
    requires
        txs_valid(b.transactions, replay(blocks)),
    ensures
        replay(blocks.push(b)) == apply_txs(replay(blocks), b.transactions),
{
    assert(blocks.push(b).drop_last() =~= blocks);
}

/// Appending a block that extends a valid chain and passes the node's checks
/// against the chain's replayed outputs gives a valid chain, whose outputs
/// are the old ones with the block's transactions applied.
pub proof fn lemma_extend_valid_chain(blocks: Seq<BlockView>, difficulty: u32, b: BlockView)
    requires
        chain_valid(blocks),
        extends(blocks, b),
        structure_valid(difficulty, replay(blocks), b),
    ensures
        chain_valid(blocks.push(b)),
        replay(blocks.push(b)) == apply_txs(replay(blocks), b.transactions),
{
    let nb = blocks.push(b);
    lemma_replay_push(blocks, b);
    assert forall|i: int| 0 <= i < nb.len() implies #[trigger] block_valid_at(nb, i) by {
        if i < blocks.len() {
            assert(block_valid_at(blocks, i));
            assert(nb.take(i) =~= blocks.take(i));
        } else {
            assert(nb.take(i) =~= blocks);
        }
    }
}

/// A block that the chain accepts comes next: its index is the number of
/// blocks, it names the last block's hash, its hash is its header hash and
/// meets its difficulty, which is the node's, its Merkle root is that of
/// its transactions, and those are valid against the unspent outputs.
pub proof fn lemma_accepted_block_is_next(
    blocks: Seq<BlockView>,
    difficulty: u32,
    utxos: Map<OutPoint, TxOutView>,
    b: BlockView,
)
    requires
        extends(blocks, b),
        structure_valid(difficulty, utxos, b),
    ensures
        b.index as int == blocks.len(),
        b.previous_hash == blocks.last().hash,
        b.hash == header_hash(b),
        meets_difficulty(b.hash, b.difficulty as nat),
        b.difficulty == difficulty,
        b.merkle_root == merkle_root(b.transactions),
        txs_valid(b.transactions, utxos),
{
}

/// In a valid chain the first block names `"0"` as its predecessor and
/// every later block names the hash of the block before it; every block's
/// hash is its header hash and meets its difficulty, its Merkle root is
/// that of its transactions, and those are valid against the outputs that
/// replaying the blocks before it leaves.
pub proof fn lemma_valid_chain_linked(blocks: Seq<BlockView>)
    requires
        chain_valid(blocks),
    ensures
        blocks.len() > 0,
        blocks[0].previous_hash == "0"@,
        forall|i: int| 0 < i < blocks.len() ==> #[trigger] blocks[i].previous_hash == blocks[i - 1].hash,
        forall|i: int| 0 <= i < blocks.len() ==> #[trigger] blocks[i].hash == header_hash(blocks[i])
            && meets_difficulty(blocks[i].hash, blocks[i].difficulty as nat)
            && blocks[i].merkle_root == merkle_root(blocks[i].transactions)
            && txs_valid(blocks[i].transactions, replay(blocks.take(i))),
{
    assert(block_valid_at(blocks, 0));
    assert forall|i: int| 0 < i < blocks.len() implies #[trigger] blocks[i].previous_hash == blocks[i - 1].hash by {
        assert(block_valid_at(blocks, i));
    }
    assert forall|i: int| 0 <= i < blocks.len() implies #[trigger] blocks[i].hash == header_hash(blocks[i])
        && meets_difficulty(blocks[i].hash, blocks[i].difficulty as nat)
        && blocks[i].merkle_root == merkle_root(blocks[i].transactions)
        && txs_valid(blocks[i].transactions, replay(blocks.take(i))) by {
        assert(block_valid_at(blocks, i));
    }
}

/// The work credited for a block: 2 to the power of its difficulty, capped
/// at 120.
pub open spec fn block_work(difficulty: u32) -> nat {
    if difficulty < 120 {
        (1u128 << difficulty) as nat
    } else {
        (1u128 << 120u32) as nat
    }
}

/// The total work of the blocks.
pub open spec fn work_sum(blocks: Seq<BlockView>) -> nat
    decreases blocks.len(),
{
    if blocks.len() == 0 {
        0
    } else {
        work_sum(blocks.drop_last()) + block_work(blocks.last().difficulty)
    }
}

/// Appending a block adds its work, which is at least 1: a chain extended
/// by a block has strictly more work.
pub proof fn lemma_work_grows(blocks: Seq<BlockView>, b: BlockView)
    ensures
        work_sum(blocks.push(b)) == work_sum(blocks) + block_work(b.difficulty),
        block_work(b.difficulty) >= 1,
        work_sum(blocks.push(b)) > work_sum(blocks),
{
    assert(blocks.push(b).drop_last() =~= blocks);
    let d = b.difficulty;
    if d < 120 {
        assert((1u128 << d) >= 1) by (bit_vector)
            requires
                d < 120,
        ;
    } else {
        assert((1u128 << 120u32) >= 1) by (bit_vector);
    }
}

/// The work of a chain, saturating at the largest u128.
pub open spec fn capped_work(blocks: Seq<BlockView>) -> int {
    if work_sum(blocks) > u128::MAX {
        u128::MAX as int
    } else {
        work_sum(blocks) as int
    }
}

/// A chain of blocks with the outputs they leave unspent.
pub struct Blockchain {
    pub blocks: Vec<Block>,
    pub difficulty: u32,
    pub utxos: UtxoSet,
    pub miner_pubkey_hash: String,
}

impl Blockchain {
    /// The blocks' views.
    pub open spec fn chain(&self) -> Seq<BlockView> {
        blocks_view(self.blocks@)
    }

    /// The unspent outputs are those that replaying the blocks leaves.
    pub open spec fn consistent(&self) -> bool {
        self.utxos@ == replay(self.chain())
    }

    /// Checks the transactions of a block against `utxos` and, when they
    /// are valid, applies them; returns whether they were valid.
    pub fn validate_and_apply_transactions(txs: &[Transaction], utxos: &mut UtxoSet) -> (res: bool)
        ensures
            res == txs_valid(txs_view(txs@), old(utxos)@),
            final(utxos)@ == apply_if_valid(old(utxos)@, txs_view(txs@)),
    {
        if !check_transactions(txs, utxos) {
            return false;
        }
        apply_transactions(txs, utxos);
        true
    }

    /// The node's checks of a block on its own (see `structure_valid`).
    pub fn validate_block_structure(&self, block: &Block) -> (res: bool)
        ensures
            res == structure_valid(self.difficulty, self.utxos@, block@),
    {
        let recomputed_hash = block.calculate_hash();
        if !(block.hash == recomputed_hash) {
            return false;
        }
        if !has_leading_zero_bits_hex(block.hash.as_str(), block.difficulty) {
            return false;
        }
        if block.difficulty != self.difficulty {
            return false;
        }
        let recomputed_merkle = merkle_root_hex(block.transactions.as_slice());
        if !(recomputed_merkle == block.merkle_root) {
            return false;
        }
        let mut temp = self.utxos.clone();
        Self::validate_and_apply_transactions(block.transactions.as_slice(), &mut temp)
    }

    /// Applies a block's transactions to the unspent outputs when they are
    /// valid.
    pub fn apply_block(&mut self, block: &Block)
        ensures
            final(self).utxos@ == apply_if_valid(old(self).utxos@, block@.transactions),
            final(self).blocks == old(self).blocks,
            final(self).difficulty == old(self).difficulty,
            final(self).miner_pubkey_hash == old(self).miner_pubkey_hash,
    {
        let _ = Self::validate_and_apply_transactions(block.transactions.as_slice(), &mut self.utxos);
    }

    /// Appends `block` if it comes next and passes the node's checks,
    /// applying its transactions; otherwise changes nothing. On an empty
    /// chain no block comes next (a block with index 0 there has no last
    /// block to link to, and is left out).
    pub fn try_add_block(&mut self, block: Block) -> (res: bool)
        requires
            old(self).blocks.len() > 0 || block.index != 0,
        ensures
            old(self).blocks.len() == 0 ==> !res,
            res ==> block.index as int == old(self).blocks.len(),
            res ==> block.previous_hash@ == old(self).blocks@.last().hash@,
            res ==> block.hash@ == header_hash(block@) && meets_difficulty(block.hash@, block.difficulty as nat),
            res ==> block.difficulty == old(self).difficulty,
            res ==> block.merkle_root@ == merkle_root(block@.transactions),
            res ==> txs_valid(block@.transactions, old(self).utxos@),
            res == (extends(old(self).chain(), block@) && structure_valid(
                old(self).difficulty,
                old(self).utxos@,
                block@,
            )),
            res ==> final(self).chain() == old(self).chain().push(block@) && final(self).utxos@
                == apply_txs(old(self).utxos@, block@.transactions),
            !res ==> final(self).chain() == old(self).chain() && final(self).utxos@ == old(
                self,
            ).utxos@,
            final(self).difficulty == old(self).difficulty,
            final(self).miner_pubkey_hash == old(self).miner_pubkey_hash,
            old(self).consistent() ==> final(self).consistent(),
            old(self).consistent() && chain_valid(old(self).chain()) ==> chain_valid(
                final(self).chain(),
            ),
    {
        if block.index as usize != self.blocks.len() {
            return false;
        }
        let last = self.blocks.len() - 1;
        assert(self.chain().last() == self.blocks[last as int]@);
        if !(block.previous_hash == self.blocks[last].hash) {
            return false;
        }
        if !self.validate_block_structure(&block) {
            return false;
        }
        let ghost old_chain = self.chain();
        proof {
            lemma_accepted_block_is_next(old_chain, self.difficulty, self.utxos@, block@);
        }
        self.apply_block(&block);
        self.blocks.push(block);
        assert(self.chain() =~= old_chain.push(block@));
        proof {
            if old(self).consistent() {
                lemma_replay_push(old_chain, block@);
                if chain_valid(old_chain) {
                    lemma_extend_valid_chain(old_chain, self.difficulty, block@);
                }
            }
        }
        true
    }

    /// The same as `try_add_block`.
    pub fn add_block(&mut self, block: Block) -> (res: bool)
        requires
            old(self).blocks.len() > 0 || block.index != 0,
        ensures
            old(self).blocks.len() == 0 ==> !res,
            res ==> block.index as int == old(self).blocks.len(),
            res ==> block.previous_hash@ == old(self).blocks@.last().hash@,
            res ==> block.hash@ == header_hash(block@) && meets_difficulty(block.hash@, block.difficulty as nat),
            res ==> block.difficulty == old(self).difficulty,
            res ==> block.merkle_root@ == merkle_root(block@.transactions),
            res ==> txs_valid(block@.transactions, old(self).utxos@),
            res == (extends(old(self).chain(), block@) && structure_valid(
                old(self).difficulty,
                old(self).utxos@,
                block@,
            )),
            res ==> final(self).chain() == old(self).chain().push(block@) && final(self).utxos@
                == apply_txs(old(self).utxos@, block@.transactions),
            !res ==> final(self).chain() == old(self).chain() && final(self).utxos@ == old(
                self,
            ).utxos@,
            final(self).difficulty == old(self).difficulty,
            final(self).miner_pubkey_hash == old(self).miner_pubkey_hash,
            old(self).consistent() ==> final(self).consistent(),
            old(self).consistent() && chain_valid(old(self).chain()) ==> chain_valid(
                final(self).chain(),
            ),
    {
        let ghost before = self.chain();
        let ghost b = block@;
        let ghost d = self.difficulty;
        let ghost u = self.utxos@;
        let res = self.try_add_block(block);
        proof {
            if res {
                lemma_accepted_block_is_next(before, d, u, b);
            }
        }
        res
    }

    /// Recomputes the unspent outputs by replaying every block from an empty
    /// set.
    pub fn rebuild_utxos(&mut self)
        ensures
            final(self).utxos@ == replay(old(self).chain()),
            final(self).consistent(),
            final(self).blocks == old(self).blocks,
            final(self).difficulty == old(self).difficulty,
            final(self).miner_pubkey_hash == old(self).miner_pubkey_hash,
    {
        self.utxos = UtxoSet::new();
        let ghost c = self.chain();
        assert(c.take(0) =~= Seq::<BlockView>::empty());
        let n = self.blocks.len();
        for i in 0..n
            invariant
                c == self.chain(),
                c.len() == self.blocks.len(),
                n == self.blocks.len(),
                self.blocks == old(self).blocks,
                self.difficulty == old(self).difficulty,
                self.miner_pubkey_hash == old(self).miner_pubkey_hash,
                self.utxos@ == replay(c.take(i as int)),
        {
            assert(c.take(i + 1).drop_last() =~= c.take(i as int));
            assert(c[i as int] == self.blocks[i as int]@);
            let _ = Self::validate_and_apply_transactions(
                self.blocks[i].transactions.as_slice(),
                &mut self.utxos,
            );
        }
        assert(c.take(self.blocks.len() as int) =~= c);
    }

    /// The total work of the chain (each block counts 2 to the power of its
    /// difficulty, capped at 120), saturating at the largest u128.
    pub fn chain_work(&self) -> (res: u128)
        ensures
            res as int == capped_work(self.chain()),
    {
        let ghost c = self.chain();
        let mut total: u128 = 0;
        for i in 0..self.blocks.len()
            invariant
                c == self.chain(),
                c.len() == self.blocks.len(),
                total as int == if work_sum(c.take(i as int)) > u128::MAX {
                    u128::MAX as int
                } else {
                    work_sum(c.take(i as int)) as int
                },
        {
            assert(c.take(i + 1).drop_last() =~= c.take(i as int));
            assert(c[i as int] == self.blocks[i as int]@);
            let d = self.blocks[i].difficulty;
            let capped: u32 = if d < 120 { d } else { 120 };
            let w: u128 = 1u128 << capped;
            total = total.saturating_add(w);
        }
        assert(c.take(self.blocks.len() as int) =~= c);
        total
    }

    /// A chain holding only the genesis block (see `genesis_template`),
    /// mined from nonce 0 upward, with the unspent outputs it leaves. The
    /// blocks depend on the difficulty alone: every call with the same
    /// difficulty gives the same genesis block (`mined` of the template).
    pub fn new(difficulty: u32, miner_pubkey_hash: &str) -> (res: Self)
        ensures
            res.chain().len() == 1,
            res.chain()[0] == (BlockView {
                hash: header_hash(with_nonce(genesis_template(difficulty), res.blocks[0].nonce)),
                nonce: res.blocks[0].nonce,
                ..genesis_template(difficulty)
            }),
            forall|n: u64| n < res.blocks[0].nonce ==> !nonce_works(genesis_template(difficulty), n),
            block_sealed(res.chain()[0]) == nonce_works(
                genesis_template(difficulty),
                res.blocks[0].nonce,
            ),
            !block_sealed(res.chain()[0]) ==> forall|n: u64| !nonce_works(
                genesis_template(difficulty),
                n,
            ),
            block_sealed(res.chain()[0]) ==> chain_valid(res.chain()),
            res.consistent(),
            res.chain() == seq![mined(genesis_template(difficulty))],
            res.difficulty == difficulty,
            res.miner_pubkey_hash@ == miner_pubkey_hash@,
    {
        let mut outputs: Vec<TxOut> = Vec::new();
        outputs.push(TxOut { pubkey_hash: "genesis".to_owned(), amount: 0 });
        let genesis_tx = Transaction { inputs: Vec::new(), outputs, timestamp: 0 };
        assert(genesis_tx@.inputs =~= genesis_tx_view().inputs);
        assert(genesis_tx@.outputs =~= genesis_tx_view().outputs);
        let mut txs: Vec<Transaction> = Vec::new();
        txs.push(genesis_tx);
        assert(txs_view(txs@) =~= seq![genesis_tx_view()]);
        let mut genesis = Block::new(0, 0, txs, "0".to_owned(), difficulty);
        assert(genesis@ == (BlockView { hash: genesis@.hash, ..genesis_template(difficulty) }));
        assert(header_json(genesis@) == header_json(genesis_template(difficulty)));
        assert(genesis@ == genesis_template(difficulty));
        let _found = genesis.mine_block();
        let mut blocks: Vec<Block> = Vec::new();
        blocks.push(genesis);
        let mut chain = Blockchain {
            blocks,
            difficulty,
            utxos: UtxoSet::new(),
            miner_pubkey_hash: miner_pubkey_hash.to_owned(),
        };
        chain.rebuild_utxos();
        let ghost c = chain.chain();
        assert(c =~= seq![chain.blocks[0]@]);
        proof {
            let g = c[0];
            assert(forall|n: u64| search_offset(0, n) == n);
            if block_sealed(g) {
                lemma_genesis_txs_valid();
                assert(c.take(0) =~= Seq::<BlockView>::empty());
                assert(block_valid_at(c, 0));
            }
        }
        chain
    }

    /// Mines a block over a coinbase paying the block reward to the miner
    /// followed by `txs`, on top of the last block, and adds it; the coinbase
    /// and the block are stamped with the clock as it reads for each. Returns
    /// the block when it was accepted, and the clock's fault when it reads a
    /// time before the epoch.
    pub fn mine_block_with_txs(&mut self, txs: Vec<Transaction>) -> (res: Result<Option<Block>, Fault>)
        requires
            old(self).blocks.len() > 0,
        ensures
            res matches Err(f) ==> f == Fault::ClockBeforeEpoch,
            res matches Ok(r) ==> exists|cts: u64, ts: u64|
                {
                    let b = #[trigger] mined_candidate(
                        old(self).chain(),
                        old(self).difficulty,
                        old(self).miner_pubkey_hash@,
                        txs_view(txs@),
                        cts,
                        ts,
                    );
                    &&& (r is Some) == (extends(old(self).chain(), b) && structure_valid(
                        old(self).difficulty,
                        old(self).utxos@,
                        b,
                    ))
                    &&& r matches Some(blk) ==> blk@ == b
                },
            res matches Ok(r) ==> (r matches Some(b) ==> final(self).chain() == old(self).chain().push(
                b@,
            ) && final(self).utxos@ == apply_txs(old(self).utxos@, b@.transactions)),
            res matches Ok(r) ==> (r is None ==> final(self).chain() == old(self).chain()
                && final(self).utxos@ == old(self).utxos@),
            res is Err ==> final(self).chain() == old(self).chain() && final(self).utxos@ == old(
                self,
            ).utxos@,
            final(self).difficulty == old(self).difficulty,
            final(self).miner_pubkey_hash == old(self).miner_pubkey_hash,
            old(self).consistent() ==> final(self).consistent(),
            old(self).consistent() && chain_valid(old(self).chain()) ==> chain_valid(
                final(self).chain(),
            ),
    {
        let coinbase_timestamp = match now_ts() {
            Ok(t) => t,
            Err(f) => return Err(f),
        };
        let timestamp = match now_ts() {
            Ok(t) => t,
            Err(f) => return Err(f),
        };
        let r = self.mine_block_at(txs, coinbase_timestamp, timestamp);
        assert(mined_candidate(
            old(self).chain(),
            old(self).difficulty,
            old(self).miner_pubkey_hash@,
            txs_view(txs@),
            coinbase_timestamp,
            timestamp,
        ) == mined_candidate(
            old(self).chain(),
            old(self).difficulty,
            old(self).miner_pubkey_hash@,
            txs_view(txs@),
            coinbase_timestamp,
            timestamp,
        ));
        Ok(r)
    }

    /// Mines the block that `mined_candidate` describes for the coinbase
    /// time `coinbase_timestamp` and the block time `timestamp`, and adds it
    /// if the chain accepts it. Returns the block when it was accepted.
    pub fn mine_block_at(&mut self, txs: Vec<Transaction>, coinbase_timestamp: u64, timestamp: u64) -> (res:
        Option<Block>)
        requires
            old(self).blocks.len() > 0,
        ensures
            ({
                let b = mined_candidate(
                    old(self).chain(),
                    old(self).difficulty,
                    old(self).miner_pubkey_hash@,
                    txs_view(txs@),
                    coinbase_timestamp,
                    timestamp,
                );
                &&& (res is Some) == (extends(old(self).chain(), b) && structure_valid(
                    old(self).difficulty,
                    old(self).utxos@,
                    b,
                ))
                &&& res matches Some(blk) ==> blk@ == b
                &&& res is Some ==> final(self).chain() == old(self).chain().push(b)
                    && final(self).utxos@ == apply_txs(old(self).utxos@, b.transactions)
                &&& res is None ==> final(self).chain() == old(self).chain() && final(self).utxos@
                    == old(self).utxos@
            }),
            final(self).difficulty == old(self).difficulty,
            final(self).miner_pubkey_hash == old(self).miner_pubkey_hash,
            old(self).consistent() ==> final(self).consistent(),
            old(self).consistent() && chain_valid(old(self).chain()) ==> chain_valid(
                final(self).chain(),
            ),
    {
        let coinbase = Transaction::coinbase_at(self.miner_pubkey_hash.as_str(), BLOCK_REWARD, coinbase_timestamp);
        let mut txs = txs;
        let ghost pending = txs_view(txs@);
        txs.insert(0, coinbase);
        assert(txs_view(txs@) =~= seq![coinbase@] + pending);
        let last = self.blocks.len() - 1;
        let prev_hash = self.blocks[last].hash.clone();
        assert(self.chain().last() == self.blocks[last as int]@);
        let index: u32 = #[verifier::truncate] (self.blocks.len() as u32);
        let mut block = Block::new(index, timestamp, txs, prev_hash, self.difficulty);
        let ghost template = candidate_template(
            self.chain(),
            self.difficulty,
            self.miner_pubkey_hash@,
            pending,
            coinbase_timestamp,
            timestamp,
        );
        assert(block@ == (BlockView { hash: block@.hash, ..template }));
        assert(header_json(block@) == header_json(template));
        assert(block@ == template);
        let _found = block.mine_block();
        if self.try_add_block(block.clone()) {
            Some(block)
        } else {
            None
        }
    }

    /// Whether the chain is valid (see `chain_valid`): every block sealed,
    /// committed, linked, and its transactions valid against the outputs
    /// that replaying the blocks before it leaves.
    pub fn is_chain_valid(&self) -> (res: bool)
        ensures
            res == chain_valid(self.chain()),
            res ==> self.blocks.len() > 0 && self.blocks[0].previous_hash@ == "0"@,
            res ==> forall|i: int| 0 < i < self.blocks.len() ==> #[trigger] self.blocks[i].previous_hash@
                == self.blocks[i - 1].hash@,
            res ==> forall|i: int| 0 <= i < self.blocks.len() ==> #[trigger] self.blocks[i].hash@
                == header_hash(self.blocks[i]@) && meets_difficulty(self.blocks[i].hash@, self.blocks[i].difficulty as nat)
                && self.blocks[i].merkle_root@ == merkle_root(self.blocks[i]@.transactions),
    {
        if self.blocks.len() == 0 {
            return false;
        }
        let ghost c = self.chain();
        let mut temp_utxos = UtxoSet::new();
        let zero = "0".to_owned();
        assert(c.take(0) =~= Seq::<BlockView>::empty());
        for i in 0..self.blocks.len()
            invariant
                c == self.chain(),
                c.len() == self.blocks.len(),
                zero@ == "0"@,
                temp_utxos@ == replay(c.take(i as int)),
                forall|k: int| 0 <= k < i ==> #[trigger] block_valid_at(c, k),
        {
            let b = &self.blocks[i];
            assert(c[i as int] == b@);
            let recomputed_hash = b.calculate_hash();
            if !(b.hash == recomputed_hash) {
                assert(!block_valid_at(c, i as int));
                return false;
            }
            if !has_leading_zero_bits_hex(b.hash.as_str(), b.difficulty) {
                assert(!block_valid_at(c, i as int));
                return false;
            }
            let recomputed_merkle = merkle_root_hex(b.transactions.as_slice());
            if !(recomputed_merkle == b.merkle_root) {
                assert(!block_valid_at(c, i as int));
                return false;
            }
            if i == 0 {
                if !(b.previous_hash == zero) {
                    assert(!block_valid_at(c, i as int));
                    return false;
                }
            } else {
                assert(c[i - 1] == self.blocks[i - 1]@);
                if !(b.previous_hash == self.blocks[i - 1].hash) {
                    assert(!block_valid_at(c, i as int));
                    return false;
                }
            }
            if !Self::validate_and_apply_transactions(b.transactions.as_slice(), &mut temp_utxos) {
                assert(!block_valid_at(c, i as int));
                return false;
            }
            assert(block_valid_at(c, i as int));
            assert(c.take(i + 1).drop_last() =~= c.take(i as int));
        }
        proof {
            lemma_valid_chain_linked(c);
            assert forall|i: int| 0 < i < self.blocks.len() implies #[trigger] self.blocks[i].previous_hash@
                == self.blocks[i - 1].hash@ by {
                assert(c[i] == self.blocks[i]@);
                assert(c[i - 1] == self.blocks[i - 1]@);
                assert(c[i].previous_hash == c[i - 1].hash);
            }
            assert forall|i: int| 0 <= i < self.blocks.len() implies #[trigger] self.blocks[i].hash@
                == header_hash(self.blocks[i]@) && meets_difficulty(self.blocks[i].hash@, self.blocks[i].difficulty as nat)
                && self.blocks[i].merkle_root@ == merkle_root(self.blocks[i]@.transactions) by {
                assert(c[i] == self.blocks[i]@);
                assert(c[i].hash == header_hash(c[i]));
            }
            assert(c[0] == self.blocks[0]@);
        }
        true
    }

    /// The JSON array of the blocks.
    pub fn serialize_chain(&self) -> (res: String)
        ensures
            res@ == json_array(self.chain().map_values(|b: BlockView| block_json(b))),
    {
        let ghost items = self.chain().map_values(|b: BlockView| block_json(b));
        let mut out = String::new();
        push_char(&mut out, '[');
        for k in 0..self.blocks.len()
            invariant
                items == self.chain().map_values(|b: BlockView| block_json(b)),
                items.len() == self.blocks.len(),
                out@ == seq!['['] + comma_join(items.take(k as int)),
        {
            proof {
                lemma_comma_join_push(items, k as int);
            }
            if k > 0 {
                push_char(&mut out, ',');
            }
            self.blocks[k].push_json(&mut out);
            assert(items[k as int] == block_json(self.blocks[k as int]@));
        }
        assert(items.take(self.blocks.len() as int) =~= items);
        push_char(&mut out, ']');
        assert(out@ =~= json_array(items));
        out
    }

    /// A chain over the given blocks, if they form a valid chain; its unspent
    /// outputs are those the blocks leave.
    pub fn from_blocks(blocks: Vec<Block>, difficulty: u32, miner_pubkey_hash: &str) -> (res: Option<
        Self,
    >)
        ensures
            res is Some <==> chain_valid(blocks_view(blocks@)),
            res matches Some(c) ==> c.blocks == blocks && c.difficulty == difficulty
                && c.miner_pubkey_hash@ == miner_pubkey_hash@ && c.consistent(),
            res is Some ==> blocks.len() > 0 && blocks[0].previous_hash@ == "0"@,
            res is Some ==> forall|i: int| 0 < i < blocks.len() ==> #[trigger] blocks[i].previous_hash@
                == blocks[i - 1].hash@,
    {
        if blocks.len() == 0 {
            return None;
        }
        let mut chain = Blockchain {
            blocks,
            difficulty,
            utxos: UtxoSet::new(),
            miner_pubkey_hash: miner_pubkey_hash.to_owned(),
        };
        if !chain.is_chain_valid() {
            return None;
        }
        chain.rebuild_utxos();
        Some(chain)
    }

    /// Removes from the pool every transaction whose id is the id of one of
    /// the block's transactions; the others keep their order.
    pub fn remove_txs_from_mempool(&self, mempool: &mut Vec<Transaction>, block: &Block)
        ensures
            txs_view(final(mempool)@) == txs_view(old(mempool)@).filter(
                not_in_ids(block@.transactions.map_values(|t: TransactionView| txid_of(t))),
            ),
    {
        let ghost ids = block@.transactions.map_values(|t: TransactionView| txid_of(t));
        let mut set: Vec<String> = Vec::new();
        for k in 0..block.transactions.len()
            invariant
                ids == block@.transactions.map_values(|t: TransactionView| txid_of(t)),
                ids.len() == block.transactions.len(),
                set.len() == k,
                forall|j: int| 0 <= j < k ==> #[trigger] set@[j]@ == ids[j],
        {
            assert(block@.transactions[k as int] == block.transactions[k as int]@);
            set.push(block.transactions[k].txid());
        }
        let ghost pool = txs_view(mempool@);
        let mut kept: Vec<Transaction> = Vec::new();
        let mut old_pool: Vec<Transaction> = Vec::new();
        std::mem::swap(&mut old_pool, mempool);
        assert(pool.take(0) =~= Seq::<TransactionView>::empty());
        proof {
            reveal_with_fuel(Seq::filter, 1);
        }
        for k in 0..old_pool.len()
            invariant
                pool == txs_view(old_pool@),
                pool.len() == old_pool.len(),
                set.len() == ids.len(),
                forall|j: int| 0 <= j < ids.len() ==> #[trigger] set@[j]@ == ids[j],
                txs_view(kept@) == pool.take(k as int).filter(not_in_ids(ids)),
        {
            let id = old_pool[k].txid();
            let mut found = false;
            let mut j: usize = 0;
            while j < set.len()
                invariant
                    j <= set.len(),
                    found == exists|m: int| 0 <= m < j && #[trigger] set@[m]@ == id@,
                decreases set.len() - j,
            {
                if set[j] == id {
                    found = true;
                }
                j += 1;
            }
            assert(pool[k as int] == old_pool[k as int]@);
            assert(found == ids.contains(txid_of(pool[k as int]))) by {
                if found {
                    let m = choose|m: int| 0 <= m < set.len() && #[trigger] set@[m]@ == id@;
                    assert(ids[m] == txid_of(pool[k as int]));
                }
                if ids.contains(txid_of(pool[k as int])) {
                    let m = choose|m: int| 0 <= m < ids.len() && ids[m] == txid_of(pool[k as int]);
                    assert(set@[m]@ == id@);
                }
            }
            let ghost prefix = pool.take(k + 1);
            assert(prefix.drop_last() =~= pool.take(k as int));
            assert(prefix.last() == pool[k as int]);
            proof {
                reveal_with_fuel(Seq::filter, 1);
            }
            if !found {
                let t = old_pool[k].clone();
                kept.push(t);
                assert(txs_view(kept@) =~= pool.take(k as int).filter(not_in_ids(ids)).push(
                    pool[k as int],
                ));
            }
        }
        assert(pool.take(old_pool.len() as int) =~= pool);
        *mempool = kept;
    }
}

/// Whether a transaction's id is not among `ids`.
pub open spec fn not_in_ids(ids: Seq<Seq<char>>) -> spec_fn(TransactionView) -> bool {
    |t: TransactionView| !ids.contains(txid_of(t))
}

/// The single transaction of the genesis block.
pub open spec fn genesis_tx_view() -> TransactionView {
    TransactionView {
        inputs: Seq::empty(),
        outputs: seq![TxOutView { pubkey_hash: "genesis"@, amount: 0 }],
        timestamp: 0,
    }
}

/// The genesis block before mining: index 0, time 0, the genesis
/// transaction, previous hash `"0"`, nonce 0.
pub open spec fn genesis_template(difficulty: u32) -> BlockView {
    let txs = seq![genesis_tx_view()];
    let b = BlockView {
        index: 0,
        timestamp: 0,
        transactions: txs,
        previous_hash: "0"@,
        merkle_root: merkle_root(txs),
        difficulty,
        hash: Seq::empty(),
        nonce: 0,
    };
    BlockView { hash: header_hash(b), ..b }
}

/// The genesis transaction is valid on its own.
pub proof fn lemma_genesis_txs_valid()
    ensures
        txs_valid(seq![genesis_tx_view()], Map::empty()),
{
    let txs = seq![genesis_tx_view()];
    assert(block_spends(txs) =~= Seq::<OutPoint>::empty());
    assert(genesis_tx_view().outputs.drop_last() =~= Seq::<TxOutView>::empty());
    assert(sum_amounts(Seq::<TxOutView>::empty()) == 0);
    assert(sum_amounts(genesis_tx_view().outputs) == 0);
}

/// The block that mining starts from on top of `blocks`: the next index
/// (as a u32), the block time, a coinbase stamped `coinbase_timestamp`
/// paying the block reward to the miner followed by the pending
/// transactions, their Merkle root, the last block's hash, the node's
/// difficulty, nonce 0 and the header hash.
pub open spec fn candidate_template(
    blocks: Seq<BlockView>,
    difficulty: u32,
    miner_pubkey_hash: Seq<char>,
    pending: Seq<TransactionView>,
    coinbase_timestamp: u64,
    timestamp: u64,
) -> BlockView {
    let txs = seq![coinbase_view(miner_pubkey_hash, BLOCK_REWARD, coinbase_timestamp)] + pending;
    let b = BlockView {
        index: blocks.len() as u32,
        timestamp,
        transactions: txs,
        previous_hash: blocks.last().hash,
        merkle_root: merkle_root(txs),
        difficulty,
        hash: Seq::empty(),
        nonce: 0,
    };
    BlockView { hash: header_hash(b), ..b }
}

/// The candidate block after mining (see `mined`).
pub open spec fn mined_candidate(
    blocks: Seq<BlockView>,
    difficulty: u32,
    miner_pubkey_hash: Seq<char>,
    pending: Seq<TransactionView>,
    coinbase_timestamp: u64,
    timestamp: u64,
) -> BlockView {
    mined(candidate_template(blocks, difficulty, miner_pubkey_hash, pending, coinbase_timestamp, timestamp))
}

} // verus!
