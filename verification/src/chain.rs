//! The ledger: a chain of blocks, the pool of pending transactions, and the
//! audit of the chain.
//!
//! The ledger never writes. Mining hands the caller a block to store, and the
//! caller says whether it was stored: only then does the block join the chain.

use crate::block::fresh_block;
use crate::block::genesis_block;
use crate::block::lemma_changed_content_unseals;
use crate::block::lemma_changed_hash_unseals;
use crate::block::lemma_difficulty_beyond_hash_is_not_met;
use crate::block::lemma_difficulty_zero_is_met;
use crate::block::lemma_with_nonce_is_sealed;
use crate::block::meets_difficulty;
use crate::block::unminable;
use crate::block::Block;
use crate::block::BlockView;
use crate::block::HASH_LENGTH;
use crate::clock;
use crate::hashing::no_collision;
use crate::transaction::transaction_views;
use crate::transaction::unsigned;
use crate::transaction::Transaction;
use crate::transaction::TransactionView;
use crate::transaction::SYSTEM_SENDER;
use vstd::prelude::*;

verus! {

/// What a miner is paid for a block.
pub const MINING_REWARD: u64 = 50;

/// The chain, the difficulty at which its next block is mined, and the
/// transactions that wait for that block.
#[derive(Debug)]
pub struct Blockchain {
    pub blocks: Vec<Block>,
    pub difficulty: usize,
    pub pending_transactions: Vec<Transaction>,
}

/// What a [`Blockchain`] holds, as mathematical values.
pub struct ChainView {
    pub blocks: Seq<BlockView>,
    pub difficulty: usize,
    pub pending_transactions: Seq<TransactionView>,
}

/// The views of a sequence of blocks, in order.
pub open spec fn block_views(blocks: Seq<Block>) -> Seq<BlockView> {
    blocks.map_values(|block: Block| block@)
}

impl View for Blockchain {
    type V = ChainView;

    open spec fn view(&self) -> ChainView {
        ChainView {
            blocks: block_views(self.blocks@),
            difficulty: self.difficulty,
            pending_transactions: transaction_views(self.pending_transactions@),
        }
    }
}

/// What the audit found wrong, and at which block.
#[derive(Debug, Clone, Copy, PartialEq, Eq, Structural)]
pub enum IntegrityFinding {
    /// The stored hash is not the hash of the block's other fields.
    HashMismatch { index: usize },
    /// The block does not name the hash of the block before it.
    BrokenLink { index: usize },
}

impl IntegrityFinding {
    /// The index of the block that fails.
    pub open spec fn block_index(self) -> usize {
        match self {
            IntegrityFinding::HashMismatch { index } => index,
            IntegrityFinding::BrokenLink { index } => index,
        }
    }

    /// The index of the block that fails.
    pub fn index(&self) -> (index: usize)
        ensures
            index == self.block_index(),
    {
        match self {
            IntegrityFinding::HashMismatch { index } => *index,
            IntegrityFinding::BrokenLink { index } => *index,
        }
    }
}

/// What an attempt to mine the pending transactions came to.
#[derive(Debug)]
pub enum MiningOutcome {
    /// The pool was empty.
    NothingToMine,
    /// No nonce gives the block a hash that meets the difficulty.
    Unminable,
    /// The block is mined and waits to be stored.
    Mined(Block),
}

/// One thing that happens to a ledger, as the laws over its runs speak of it.
pub enum Step {
    /// A transaction is handed to the pool, which takes it if it is valid.
    Submit { transaction: TransactionView },
    /// The pool is mined for `miner` at the given times, a nonce is settled
    /// on, and the block is stored or is not.
    Mine { miner: Seq<char>, minted_at: u64, timestamp: i64, nonce: u64, stored: bool },
}

/// Whether block `i` names the hash of the block before it. The first block
/// has none before it.
pub open spec fn linked(blocks: Seq<BlockView>, i: int) -> bool {
    i > 0 ==> blocks[i].prev_block_hash == blocks[i - 1].hash
}

/// Whether block `i` passes both checks of the audit.
pub open spec fn passes(blocks: Seq<BlockView>, i: int) -> bool {
    blocks[i].sealed() && linked(blocks, i)
}

/// Whether every block passes the audit.
pub open spec fn chain_valid(blocks: Seq<BlockView>) -> bool {
    forall|i: int| 0 <= i < blocks.len() ==> passes(blocks, i)
}

/// Whether `finding` is what the audit owes for `blocks`: nothing where every
/// block passes, else the first block that does not, with the first check
/// that it fails.
pub open spec fn reports(blocks: Seq<BlockView>, finding: Option<IntegrityFinding>) -> bool {
    match finding {
        None => chain_valid(blocks),
        Some(IntegrityFinding::HashMismatch { index }) => {
            &&& index < blocks.len()
            &&& forall|j: int| 0 <= j < index ==> passes(blocks, j)
            &&& !blocks[index as int].sealed()
        },
        Some(IntegrityFinding::BrokenLink { index }) => {
            &&& index < blocks.len()
            &&& forall|j: int| 0 <= j < index ==> passes(blocks, j)
            &&& blocks[index as int].sealed()
            &&& !linked(blocks, index as int)
        },
    }
}

/// The chain that a log of blocks is replayed into: none where the log is
/// empty, else the blocks as they stand, the difficulty of the last, and an
/// empty pool.
pub open spec fn replayed(blocks: Seq<BlockView>) -> Option<ChainView> {
    if blocks.len() == 0 {
        None
    } else {
        Some(
            ChainView {
                blocks,
                difficulty: blocks.last().difficulty,
                pending_transactions: Seq::empty(),
            },
        )
    }
}

impl ChainView {
    /// Whether the chain has its genesis block.
    pub open spec fn well_formed(self) -> bool {
        self.blocks.len() > 0
    }

    /// The last block.
    pub open spec fn tip(self) -> BlockView {
        self.blocks.last()
    }

    /// Whether the chain mines at the difficulty of its last block, as a
    /// chain does that was replayed from a log.
    pub open spec fn replayable(self) -> bool {
        self.well_formed() && self.tip().difficulty == self.difficulty
    }

    /// Whether every transaction in the pool is valid.
    pub open spec fn pool_is_valid(self) -> bool {
        forall|i: int|
            0 <= i < self.pending_transactions.len() ==> (
            #[trigger] self.pending_transactions[i]).valid()
    }

    /// Whether a block can be put on top: there is a tip, and its height is
    /// not the greatest that there is.
    pub open spec fn can_grow(self) -> bool {
        self.well_formed() && self.tip().height < u64::MAX
    }

    /// Whether every transaction in the pool and in the blocks is valid.
    pub open spec fn holds_only_valid(self) -> bool {
        &&& self.pool_is_valid()
        &&& forall|i: int, j: int|
            0 <= i < self.blocks.len() && 0 <= j < self.blocks[i].transactions.len() ==> (
            #[trigger] self.blocks[i].transactions[j]).valid()
    }

    /// Whether the transaction stands in the pool or in a block.
    pub open spec fn holds(self, tx: TransactionView) -> bool {
        ||| self.pending_transactions.contains(tx)
        ||| exists|i: int|
            0 <= i < self.blocks.len() && (#[trigger] self.blocks[i]).transactions.contains(tx)
    }

    /// The transaction that pays `miner`.
    pub open spec fn reward(miner: Seq<char>, minted_at: u64) -> TransactionView {
        unsigned(SYSTEM_SENDER@, miner, MINING_REWARD, minted_at)
    }

    /// The block that is put up for mining: the pool and then the reward, on
    /// top of the tip, at the chain's difficulty, with nonce zero.
    pub open spec fn candidate(
        self,
        miner: Seq<char>,
        minted_at: u64,
        timestamp: i64,
    ) -> BlockView {
        fresh_block(
            self.pending_transactions.push(Self::reward(miner, minted_at)),
            self.tip().hash,
            (self.tip().height + 1) as u64,
            self.difficulty,
            timestamp,
        )
    }

    /// The chain after `block` has joined it: one block longer, the pool empty.
    pub open spec fn extended(self, block: BlockView) -> ChainView {
        ChainView {
            blocks: self.blocks.push(block),
            difficulty: self.difficulty,
            pending_transactions: Seq::empty(),
        }
    }

    /// The chain with one more transaction in the pool.
    pub open spec fn with_pending(self, tx: TransactionView) -> ChainView {
        ChainView { pending_transactions: self.pending_transactions.push(tx), ..self }
    }

    /// The chain after one step: a valid transaction joins the pool, a
    /// stored block of a pool that is not empty joins the chain, and nothing
    /// else changes anything.
    pub open spec fn after(self, step: Step) -> ChainView {
        match step {
            Step::Submit { transaction } => {
                if transaction.valid() {
                    self.with_pending(transaction)
                } else {
                    self
                }
            },
            Step::Mine { miner, minted_at, timestamp, nonce, stored } => {
                if self.pending_transactions.len() > 0 && stored {
                    self.extended(self.candidate(miner, minted_at, timestamp).with_nonce(nonce))
                } else {
                    self
                }
            },
        }
    }

    /// The chain after a run of steps, in order.
    pub open spec fn after_all(self, steps: Seq<Step>) -> ChainView
        decreases steps.len(),
    {
        if steps.len() == 0 {
            self
        } else {
            self.after_all(steps.drop_last()).after(steps.last())
        }
    }
}

/// The genesis block of a chain of the given difficulty, before mining.
pub open spec fn chain_genesis(difficulty: usize, minted_at: u64, timestamp: i64) -> BlockView {
    (BlockView { difficulty, ..genesis_block(minted_at, timestamp) }).with_nonce(0)
}

impl Blockchain {
    /// A new chain whose genesis block is mined at `difficulty`, stamped with
    /// the time of the call; none where no nonce will do.
    pub fn new(difficulty: usize) -> (chain: Option<Blockchain>)
        ensures
            difficulty == 0 ==> chain is Some,
            difficulty > HASH_LENGTH ==> chain is None,
            chain is None ==> exists|minted_at: u64, timestamp: i64| #[trigger]
                unminable(chain_genesis(difficulty, minted_at, timestamp)),
            chain matches Some(c) ==> {
                let genesis = chain_genesis(
                    difficulty,
                    c@.blocks[0].transactions[0].timestamp,
                    c@.blocks[0].timestamp,
                );
                &&& c@.blocks.len() == 1
                &&& c@.difficulty == difficulty
                &&& c@.pending_transactions.len() == 0
                &&& c@.blocks[0].mined()
                &&& c@.blocks[0].transactions.len() == 1
                &&& c@.blocks[0] == genesis.with_nonce(c@.blocks[0].nonce)
                &&& forall|n: u64| n < c@.blocks[0].nonce ==> !genesis.nonce_works(n)
                &&& chain_valid(c@.blocks)
                &&& c@.replayable()
                &&& c@.holds_only_valid()
            },
    {
        let minted_at = clock::unix_millis();
        let timestamp = clock::unix_seconds();
        proof {
            let genesis = chain_genesis(difficulty, minted_at, timestamp);
            if difficulty == 0 {
                lemma_difficulty_zero_is_met(genesis, 0);
            }
            if difficulty > HASH_LENGTH {
                assert forall|n: u64| !genesis.nonce_works(n) by {
                    lemma_difficulty_beyond_hash_is_not_met(genesis, n);
                }
            }
        }
        let chain = Blockchain::with_timestamps(difficulty, minted_at, timestamp);
        assert(chain is None ==> unminable(chain_genesis(difficulty, minted_at, timestamp)));
        chain
    }

    /// A new chain whose genesis block is made at the given times and mined
    /// at `difficulty`; none where no nonce will do.
    pub fn with_timestamps(difficulty: usize, minted_at: u64, timestamp: i64) -> (chain: Option<
        Blockchain,
    >)
        ensures
            chain is None <==> unminable(chain_genesis(difficulty, minted_at, timestamp)),
            chain matches Some(c) ==> {
                let genesis = chain_genesis(difficulty, minted_at, timestamp);
                &&& c@ == (ChainView {
                    blocks: seq![genesis.with_nonce(c@.blocks[0].nonce)],
                    difficulty,
                    pending_transactions: Seq::empty(),
                })
                &&& c@.blocks[0].mined()
                &&& forall|n: u64| n < c@.blocks[0].nonce ==> !genesis.nonce_works(n)
                &&& chain_valid(c@.blocks)
                &&& c@.replayable()
                &&& c@.holds_only_valid()
            },
    {
        let mut genesis = Block::genesis_with_timestamps(minted_at, timestamp);
        genesis.difficulty = difficulty;
        genesis.hash = genesis.calculate_hash();
        assert(genesis@ == chain_genesis(difficulty, minted_at, timestamp));
        if !genesis.mine() {
            return None;
        }
        let mut blocks: Vec<Block> = Vec::new();
        blocks.push(genesis);
        let chain = Blockchain { blocks, difficulty, pending_transactions: Vec::new() };
        assert(chain@.blocks =~= seq![genesis@]);
        assert(chain@.pending_transactions =~= Seq::empty());
        Some(chain)
    }

    /// Takes `transaction` into the pool if it is valid, and says whether it
    /// did. A transaction that is refused leaves the pool as it was.
    pub fn add_transaction(&mut self, transaction: Transaction) -> (accepted: bool)
        ensures
            accepted == transaction@.valid(),
            accepted ==> final(self)@ == old(self)@.with_pending(transaction@),
            !accepted ==> final(self)@ == old(self)@,
            final(self)@ == old(self)@.after((Step::Submit { transaction: transaction@ })),
            old(self)@.pool_is_valid() ==> final(self)@.pool_is_valid(),
            old(self)@.holds_only_valid() ==> final(self)@.holds_only_valid(),
    {
        if !transaction.is_valid() {
            return false;
        }
        self.pending_transactions.push(transaction);
        assert(transaction_views(self.pending_transactions@) =~= transaction_views(
            old(self).pending_transactions@,
        ).push(transaction@));
        true
    }

    /// Builds the next block from the pool and a reward for `miner_address`,
    /// stamps it with the time of the call, and mines it. The chain itself is
    /// not changed: the block joins it by [`Blockchain::commit_block`], once
    /// it is stored.
    pub fn mine_pending_transactions(&self, miner_address: String) -> (outcome: MiningOutcome)
        requires
            self@.pending_transactions.len() > 0 ==> self@.can_grow(),
        ensures
            outcome is NothingToMine <==> self@.pending_transactions.len() == 0,
            self@.difficulty == 0 ==> !(outcome is Unminable),
            self@.difficulty > HASH_LENGTH ==> !(outcome is Mined),
            outcome is Unminable ==> exists|minted_at: u64, timestamp: i64| #[trigger]
                unminable(self@.candidate(miner_address@, minted_at, timestamp)),
            outcome matches MiningOutcome::Mined(block) ==> {
                let reward = block@.transactions.last();
                let candidate = self@.candidate(
                    miner_address@,
                    reward.timestamp,
                    block@.timestamp,
                );
                &&& block@.transactions.len() == self@.pending_transactions.len() + 1
                &&& reward == ChainView::reward(miner_address@, reward.timestamp)
                &&& block@ == candidate.with_nonce(block@.nonce)
                &&& block@.mined()
                &&& forall|n: u64| n < block@.nonce ==> !candidate.nonce_works(n)
            },
    {
        let minted_at = clock::unix_millis();
        let timestamp = clock::unix_seconds();
        proof {
            let candidate = self@.candidate(miner_address@, minted_at, timestamp);
            if self@.difficulty == 0 {
                lemma_difficulty_zero_is_met(candidate, 0);
            }
        }
        let outcome = self.mine_pending_transactions_at(miner_address, minted_at, timestamp);
        assert(outcome is Unminable ==> unminable(
            self@.candidate(miner_address@, minted_at, timestamp),
        ));
        outcome
    }

    /// The block that is put up for mining, not yet mined: the pool and a
    /// reward for `miner_address` minted at `minted_at`, on top of the tip,
    /// stamped with `timestamp`. None where the pool is empty. A caller that
    /// must stay responsive mines it range by range, by
    /// [`Block::search_nonces`].
    pub fn candidate_block(&self, miner_address: String, minted_at: u64, timestamp: i64) -> (block:
        Option<Block>)
        requires
            self@.pending_transactions.len() > 0 ==> self@.can_grow(),
        ensures
            block is None <==> self@.pending_transactions.len() == 0,
            block matches Some(b) ==> b@ == self@.candidate(miner_address@, minted_at, timestamp),
    {
        if self.pending_transactions.len() == 0 {
            return None;
        }
        let reward = Transaction::with_timestamp(
            SYSTEM_SENDER.to_owned(),
            miner_address,
            MINING_REWARD,
            minted_at,
        );
        let mut transactions = self.pending_transactions.clone();
        assert(transaction_views(transactions@) =~= self@.pending_transactions);
        transactions.push(reward);
        assert(transaction_views(transactions@) =~= self@.pending_transactions.push(reward@));
        let tip = &self.blocks[self.blocks.len() - 1];
        assert(tip@ == self@.tip());
        Some(
            Block::with_timestamp(
                transactions,
                tip.hash.clone(),
                tip.height + 1,
                self.difficulty,
                timestamp,
            ),
        )
    }

    /// Builds the next block from the pool and a reward for `miner_address`
    /// minted at `minted_at`, stamps it with `timestamp`, and mines it.
    pub fn mine_pending_transactions_at(
        &self,
        miner_address: String,
        minted_at: u64,
        timestamp: i64,
    ) -> (outcome: MiningOutcome)
        requires
            self@.pending_transactions.len() > 0 ==> self@.can_grow(),
        ensures
            outcome is NothingToMine <==> self@.pending_transactions.len() == 0,
            outcome is Unminable <==> self@.pending_transactions.len() > 0 && unminable(
                self@.candidate(miner_address@, minted_at, timestamp),
            ),
            outcome matches MiningOutcome::Mined(block) ==> {
                let candidate = self@.candidate(miner_address@, minted_at, timestamp);
                &&& block@ == candidate.with_nonce(block@.nonce)
                &&& block@.mined()
                &&& forall|n: u64| n < block@.nonce ==> !candidate.nonce_works(n)
                &&& self@.extended(block@) == self@.after(
                    (Step::Mine {
                        miner: miner_address@,
                        minted_at,
                        timestamp,
                        nonce: block@.nonce,
                        stored: true,
                    }),
                )
            },
    {
        match self.candidate_block(miner_address, minted_at, timestamp) {
            None => MiningOutcome::NothingToMine,
            Some(mut block) => {
                let ghost candidate = block@;
                if block.mine() {
                    assert(candidate.nonce_works(block.nonce));
                    MiningOutcome::Mined(block)
                } else {
                    MiningOutcome::Unminable
                }
            },
        }
    }

    /// Ends an attempt to mine. Where the block was stored, it joins the
    /// chain and the pool is emptied; where it was not, chain and pool stay
    /// as they were, and the pending transactions can be mined again.
    pub fn commit_block(&mut self, block: Block, persisted: bool) -> (committed: bool)
        ensures
            committed == persisted,
            persisted ==> final(self)@ == old(self)@.extended(block@),
            !persisted ==> final(self)@ == old(self)@,
            old(self)@.blocks.is_prefix_of(final(self)@.blocks),
            old(self)@.well_formed() && chain_valid(old(self)@.blocks) && block@.sealed()
                && block@.prev_block_hash == old(self)@.tip().hash ==> chain_valid(
                final(self)@.blocks,
            ),
    {
        if !persisted {
            return false;
        }
        self.blocks.push(block);
        self.pending_transactions.clear();
        assert(block_views(self.blocks@) =~= block_views(old(self).blocks@).push(block@));
        assert(transaction_views(self.pending_transactions@) =~= Seq::empty());
        proof {
            if old(self)@.well_formed() && chain_valid(old(self)@.blocks) && block@.sealed()
                && block@.prev_block_hash == old(self)@.tip().hash {
                lemma_linked_block_keeps_chain_valid(old(self)@, block@);
            }
        }
        true
    }

    /// Audits the chain and says what is wrong with the first block that
    /// fails, or nothing where every block passes.
    pub fn audit(&self) -> (finding: Option<IntegrityFinding>)
        ensures
            reports(self@.blocks, finding),
            finding is None <==> chain_valid(self@.blocks),
    {
        let mut i: usize = 0;
        while i < self.blocks.len()
            invariant
                i <= self.blocks.len(),
                forall|j: int| 0 <= j < i ==> passes(self@.blocks, j),
            decreases self.blocks.len() - i,
        {
            let block = &self.blocks[i];
            assert(block@ == self@.blocks[i as int]);
            let hash = block.calculate_hash();
            if !(hash == block.hash) {
                assert(!passes(self@.blocks, i as int));
                return Some(IntegrityFinding::HashMismatch { index: i });
            }
            if i > 0 {
                let before = &self.blocks[i - 1];
                assert(before@ == self@.blocks[i - 1]);
                if !(block.prev_block_hash == before.hash) {
                    assert(!passes(self@.blocks, i as int));
                    return Some(IntegrityFinding::BrokenLink { index: i });
                }
            }
            i += 1;
        }
        None
    }

    /// Whether every block holds the hash of its own fields and names the
    /// hash of the block before it.
    pub fn is_chain_valid(&self) -> (valid: bool)
        ensures
            valid == chain_valid(self@.blocks),
    {
        self.audit().is_none()
    }

    /// Rebuilds a chain from the records of a log, in order. A record that
    /// could not be read is `None`, and one such record fails the whole log,
    /// as an empty log does. Nothing is audited.
    pub fn load_chain(records: Vec<Option<Block>>) -> (chain: Option<Blockchain>)
        ensures
            chain is Some <==> records.len() > 0 && forall|i: int|
                0 <= i < records.len() ==> records[i] is Some,
            chain matches Some(c) ==> Some(c@) == replayed(
                Seq::new(records.len() as nat, |i: int| records[i]->Some_0@),
            ),
    {
        let ghost all = Seq::new(records.len() as nat, |i: int| records[i]->Some_0@);
        let mut blocks: Vec<Block> = Vec::new();
        let mut i: usize = 0;
        while i < records.len()
            invariant
                i <= records.len(),
                forall|j: int| 0 <= j < i ==> records[j] is Some,
                block_views(blocks@) == all.take(i as int),
                all == Seq::new(records.len() as nat, |i: int| records[i]->Some_0@),
            decreases records.len() - i,
        {
            match &records[i] {
                Some(block) => {
                    let copy = block.clone();
                    let ghost before = blocks@;
                    blocks.push(copy);
                    assert(block_views(blocks@) =~= block_views(before).push(all[i as int]));
                    assert(all.take(i + 1) =~= all.take(i as int).push(all[i as int]));
                },
                None => {
                    return None;
                },
            }
            i += 1;
        }
        if blocks.len() == 0 {
            return None;
        }
        assert(all.take(i as int) == all);
        let difficulty = blocks[blocks.len() - 1].difficulty;
        let chain = Blockchain { blocks, difficulty, pending_transactions: Vec::new() };
        assert(chain@.pending_transactions =~= Seq::empty());
        Some(chain)
    }
}

/// The audit reports the first block that fails, with the first check that
/// it fails.
pub proof fn lemma_first_failure_is_reported(
    blocks: Seq<BlockView>,
    i: int,
    finding: Option<IntegrityFinding>,
)
    requires
        0 <= i < blocks.len(),
        !passes(blocks, i),
        forall|j: int| 0 <= j < i ==> passes(blocks, j),
        reports(blocks, finding),
    ensures
        i <= usize::MAX,
        finding == Some(
            if blocks[i].sealed() {
                IntegrityFinding::BrokenLink { index: i as usize }
            } else {
                IntegrityFinding::HashMismatch { index: i as usize }
            },
        ),
{
    match finding {
        None => {},
        Some(found) => {
            let index = found.block_index() as int;
            if index < i {
                assert(passes(blocks, index));
            }
            if index > i {
                assert(passes(blocks, i));
            }
        },
    }
}

/// Any change to one block of a valid chain that leaves its stored hash
/// alone, and any change to the stored hash alone, is reported as a hash
/// mismatch at that block, unless SHA-256 gives the changed bytes the digest
/// of the old ones.
pub proof fn lemma_tampering_is_reported(
    before: Seq<BlockView>,
    i: int,
    changed: BlockView,
    finding: Option<IntegrityFinding>,
)
    requires
        chain_valid(before),
        0 <= i < before.len(),
        changed != before[i],
        changed.hash == before[i].hash || changed == (BlockView {
            hash: changed.hash,
            ..before[i]
        }),
        no_collision(changed.content_bytes(), before[i].content_bytes()),
        reports(before.update(i, changed), finding),
    ensures
        i <= usize::MAX,
        finding == Some(IntegrityFinding::HashMismatch { index: i as usize }),
{
    let after = before.update(i, changed);
    assert(before[i].sealed()) by {
        assert(passes(before, i));
    }
    if changed.hash == before[i].hash {
        lemma_changed_content_unseals(before[i], changed);
    } else {
        lemma_changed_hash_unseals(before[i], changed);
    }
    assert(!passes(after, i));
    assert forall|j: int| 0 <= j < i implies passes(after, j) by {
        assert(passes(before, j));
    }
    lemma_first_failure_is_reported(after, i, finding);
}

/// A block that does not name the hash of the block before it makes the
/// chain invalid, whether or not its own hash is right, and the audit
/// reports it unless an earlier block fails.
pub proof fn lemma_broken_link_is_reported(
    blocks: Seq<BlockView>,
    i: int,
    finding: Option<IntegrityFinding>,
)
    requires
        0 < i < blocks.len(),
        blocks[i].prev_block_hash != blocks[i - 1].hash,
        reports(blocks, finding),
    ensures
        !chain_valid(blocks),
        finding matches Some(found) && found.block_index() <= i,
        (forall|j: int| 0 <= j < i ==> passes(blocks, j)) ==> finding == Some(
            if blocks[i].sealed() {
                IntegrityFinding::BrokenLink { index: i as usize }
            } else {
                IntegrityFinding::HashMismatch { index: i as usize }
            },
        ),
{
    assert(!passes(blocks, i));
    match finding {
        None => {},
        Some(found) => {
            if found.block_index() > i {
                assert(passes(blocks, i));
            }
        },
    }
    if forall|j: int| 0 <= j < i ==> passes(blocks, j) {
        lemma_first_failure_is_reported(blocks, i, finding);
    }
}

/// A sealed block that names the hash of the tip keeps a valid chain valid
/// when it joins.
pub proof fn lemma_linked_block_keeps_chain_valid(chain: ChainView, block: BlockView)
    requires
        chain.well_formed(),
        chain_valid(chain.blocks),
        block.sealed(),
        block.prev_block_hash == chain.tip().hash,
    ensures
        chain_valid(chain.extended(block).blocks),
{
    let next = chain.extended(block).blocks;
    assert forall|j: int| 0 <= j < next.len() implies passes(next, j) by {
        if j < chain.blocks.len() {
            assert(passes(chain.blocks, j));
        }
    }
}

/// The block that mining puts up, with whatever nonce, keeps a valid chain
/// valid when it joins, one block longer, at the same difficulty.
pub proof fn lemma_candidate_keeps_chain_valid(
    chain: ChainView,
    miner: Seq<char>,
    minted_at: u64,
    timestamp: i64,
    nonce: u64,
)
    requires
        chain.well_formed(),
        chain_valid(chain.blocks),
    ensures
        ({
            let block = chain.candidate(miner, minted_at, timestamp).with_nonce(nonce);
            let next = chain.extended(block);
            &&& chain_valid(next.blocks)
            &&& next.replayable()
            &&& next.blocks.len() == chain.blocks.len() + 1
            &&& next.difficulty == chain.difficulty
        }),
{
    let block = chain.candidate(miner, minted_at, timestamp).with_nonce(nonce);
    lemma_with_nonce_is_sealed(chain.candidate(miner, minted_at, timestamp), nonce);
    lemma_linked_block_keeps_chain_valid(chain, block);
}

/// Where every transaction in the pool is valid, so is every transaction in
/// the block that mining puts up: nothing reaches a block that the pool
/// would have refused.
pub proof fn lemma_candidate_holds_valid_transactions(
    chain: ChainView,
    miner: Seq<char>,
    minted_at: u64,
    timestamp: i64,
)
    requires
        chain.pool_is_valid(),
    ensures
        ({
            let block = chain.candidate(miner, minted_at, timestamp);
            forall|i: int|
                0 <= i < block.transactions.len() ==> (#[trigger] block.transactions[i]).valid()
        }),
{
    let block = chain.candidate(miner, minted_at, timestamp);
    assert forall|i: int| 0 <= i < block.transactions.len() implies (
    #[trigger] block.transactions[i]).valid() by {
        if i < chain.pending_transactions.len() {
            assert(block.transactions[i] == chain.pending_transactions[i]);
        }
    }
}

/// Replaying the blocks of a chain gives the same blocks in the same order,
/// at the same difficulty where the chain mines at that of its last block,
/// with an empty pool.
pub proof fn lemma_replay_restores(chain: ChainView)
    requires
        chain.replayable(),
    ensures
        replayed(chain.blocks) == Some(
            (ChainView { pending_transactions: Seq::empty(), ..chain }),
        ),
{
}

/// No step brings an invalid transaction into the pool or into a block.
pub proof fn lemma_step_keeps_transactions_valid(chain: ChainView, step: Step)
    requires
        chain.holds_only_valid(),
    ensures
        chain.after(step).holds_only_valid(),
{
    let next = chain.after(step);
    match step {
        Step::Submit { transaction } => {
            assert forall|i: int| 0 <= i < next.pending_transactions.len() implies (
            #[trigger] next.pending_transactions[i]).valid() by {
                if i < chain.pending_transactions.len() {
                    assert(chain.pending_transactions[i].valid());
                }
            }
            assert forall|i: int, j: int|
                0 <= i < next.blocks.len() && 0 <= j < next.blocks[i].transactions.len() implies (
            #[trigger] next.blocks[i].transactions[j]).valid() by {
                assert(chain.blocks[i].transactions[j].valid());
            }
        },
        Step::Mine { miner, minted_at, timestamp, nonce, stored } => {
            if chain.pending_transactions.len() > 0 && stored {
                lemma_candidate_holds_valid_transactions(chain, miner, minted_at, timestamp);
                let candidate = chain.candidate(miner, minted_at, timestamp);
                assert forall|i: int, j: int|
                    0 <= i < next.blocks.len() && 0 <= j < next.blocks[i].transactions.len() implies (
                #[trigger] next.blocks[i].transactions[j]).valid() by {
                    if i < chain.blocks.len() {
                        assert(chain.blocks[i].transactions[j].valid());
                    } else {
                        assert(candidate.transactions[j].valid());
                    }
                }
            }
        },
    }
}

/// Over any run of steps from a chain that holds only valid transactions,
/// the chain holds only valid transactions.
pub proof fn lemma_run_keeps_transactions_valid(chain: ChainView, steps: Seq<Step>)
    requires
        chain.holds_only_valid(),
    ensures
        chain.after_all(steps).holds_only_valid(),
    decreases steps.len(),
{
    if steps.len() > 0 {
        lemma_run_keeps_transactions_valid(chain, steps.drop_last());
        lemma_step_keeps_transactions_valid(chain.after_all(steps.drop_last()), steps.last());
    }
}

/// A transaction that is not valid, and so is refused by the pool, stands in
/// no block and not in the pool, whatever is submitted and mined afterwards.
pub proof fn lemma_refused_transaction_is_never_held(
    chain: ChainView,
    steps: Seq<Step>,
    refused: TransactionView,
)
    requires
        chain.holds_only_valid(),
        !refused.valid(),
    ensures
        !chain.after_all(steps).holds(refused),
{
    lemma_run_keeps_transactions_valid(chain, steps);
    let last = chain.after_all(steps);
    if last.pending_transactions.contains(refused) {
        let i = choose|i: int|
            0 <= i < last.pending_transactions.len() && last.pending_transactions[i] == refused;
        assert(last.pending_transactions[i].valid());
    }
    if exists|i: int|
        0 <= i < last.blocks.len() && (#[trigger] last.blocks[i]).transactions.contains(refused) {
        let i = choose|i: int|
            0 <= i < last.blocks.len() && (#[trigger] last.blocks[i]).transactions.contains(refused);
        let j = choose|j: int|
            0 <= j < last.blocks[i].transactions.len() && last.blocks[i].transactions[j] == refused;
        assert(last.blocks[i].transactions[j].valid());
    }
}

/// Where the pool is not empty and the block is stored, mining makes the
/// chain one block longer and empties the pool. The new block stands on the
/// old tip, one higher, at the chain's difficulty; it holds the pool in order
/// and then the reward; it is sealed, and with a nonce that works its hash
/// begins with the zeros that the difficulty asks for.
pub proof fn lemma_stored_block_joins_chain(
    chain: ChainView,
    miner: Seq<char>,
    minted_at: u64,
    timestamp: i64,
    nonce: u64,
)
    requires
        chain.pending_transactions.len() > 0,
        chain.can_grow(),
    ensures
        ({
            let next = chain.after(
                (Step::Mine { miner, minted_at, timestamp, nonce, stored: true }),
            );
            let block = next.tip();
            &&& next.blocks.len() == chain.blocks.len() + 1
            &&& chain.blocks.is_prefix_of(next.blocks)
            &&& next.pending_transactions.len() == 0
            &&& next.difficulty == chain.difficulty
            &&& block.transactions == chain.pending_transactions.push(
                ChainView::reward(miner, minted_at),
            )
            &&& block.prev_block_hash == chain.tip().hash
            &&& block.height == chain.tip().height + 1
            &&& block.difficulty == chain.difficulty
            &&& block.nonce == nonce
            &&& block.sealed()
            &&& chain.candidate(miner, minted_at, timestamp).nonce_works(nonce)
                ==> meets_difficulty(block.hash, chain.difficulty as nat)
        }),
{
    lemma_with_nonce_is_sealed(chain.candidate(miner, minted_at, timestamp), nonce);
}

/// Where the pool is empty, and where the block is not stored, mining
/// changes neither the chain nor the pool.
pub proof fn lemma_nothing_stored_changes_nothing(
    chain: ChainView,
    miner: Seq<char>,
    minted_at: u64,
    timestamp: i64,
    nonce: u64,
    stored: bool,
)
    requires
        chain.pending_transactions.len() == 0 || !stored,
    ensures
        chain.after((Step::Mine { miner, minted_at, timestamp, nonce, stored })) == chain,
{
}

} // verus!
