//! The blockchain state engine: the chain, the UTXO index, the mempool, the orphan
//! cache and the slashing history.
use vstd::prelude::*;
use crate::block::{inputs_known, position_of, spent_value, verify_transactions_spec, UtxoMap};
use crate::clock::now_millis;
use crate::mempool::{claimed_by_any, claimed_exec, expired_inputs, lemma_release, live_entries, release, admission, first_claimant_exec, first_input_problem, input_problem, fee_position_exec, lemma_insert_keeps_order, lemma_remove_keeps_order, lemma_first_claimant_range, set_flags_exec, supersede};
use crate::types::total_value;
use crate::crypto::{block_hash, header_hash, signature_valid, transaction_hash};
use crate::error::EthError;
use crate::merkle::{calculate_merkle_root, merkle_root};
use crate::stake::{effective_stake, SlashingReason, SLASHING_PENALTY_DOUBLE_SIGN, SLASHING_PENALTY_DOWNTIME, STAKE_MINIMUM_AMOUNT, lemma_slashed_nonneg, slashed_total, calculate_stakes, is_stake_table, lemma_raw_bound, lemma_stake_table_unique, lottery, pick_validator, slashed_of, SlashingRecord, StakeEntry};
use crate::types::{Block, Hash256, PublicKey, Transaction, TransactionInput};
use crate::utxo::UtxoEntry;
use crate::replay::{chain_events, created_and_unspent, lemma_rebuild_from_empty};
use crate::utxo::{apply_blocks, apply_transactions, UtxoIndex};

verus! {

/// Initial block reward in coins.
pub const INITIAL_REWARD: u64 = 50;

/// Smallest units in one coin.
pub const COIN: u64 = 100_000_000;

/// Blocks between two halvings of the reward.
pub const HALVING_INTERVAL: u64 = 210;

/// Blocks for which a new stake stays locked.
pub const STAKE_LOCK_PERIOD: u64 = 100;

/// Age in seconds after which a mempool entry is evicted.
pub const MAX_MEMPOOL_TRANSACTION_AGE: u64 = 600;

/// Most mempool transactions that a block proposal takes.
pub const BLOCK_TRANSACTION_CAP: usize = 20;

/// 21,000,000 coins in smallest units.
pub const TOTAL_SUPPLY_CAP: u64 = 2_100_000_000_000_000;

/// A pending transaction, its admission time (milliseconds) and its fee.
#[derive(Clone, Debug)]
pub struct MempoolEntry {
    pub timestamp: i64,
    pub transaction: Transaction,
    pub fee: u128,
}

pub struct Blockchain {
    utxos: UtxoIndex,
    blocks: Vec<Block>,
    mempool: Vec<MempoolEntry>,
    orphans: Vec<Block>,
    slashing_history: Vec<SlashingRecord>,
}

/// `(50 * 10^8) >> (height / 210)`, which is zero once the shift reaches 64.
pub open spec fn block_reward(height: u64) -> u64 {
    if height / HALVING_INTERVAL >= 64 {
        0
    } else {
        (5_000_000_000u64 >> (height / HALVING_INTERVAL)) as u64
    }
}

/// The block reward at `height`.
pub fn reward_at_height(height: u64) -> (r: u64)
    ensures
        r == block_reward(height),
{
    let halvings = height / HALVING_INTERVAL;
    if halvings >= 64 {
        0
    } else {
        (INITIAL_REWARD * COIN) >> halvings
    }
}

/// The hash that the next block must name as its predecessor.
pub open spec fn tip_hash_of(blocks: Seq<Block>) -> Hash256 {
    if blocks.len() == 0 {
        Hash256::zero_spec()
    } else {
        block_hash(blocks.last())
    }
}

/// Every block carries the merkle root of its transactions, and every block after the
/// first a timestamp later than its predecessor's.
pub open spec fn chain_consistent(blocks: Seq<Block>) -> bool {
    forall|i: int|
        0 <= i < blocks.len() ==> merkle_root(#[trigger] blocks[i].transactions@)
            == blocks[i].header.merkle_root && (i > 0 ==> blocks[i].header.timestamp > blocks[i
            - 1].header.timestamp)
}

pub open spec fn fees_descending(pool: Seq<MempoolEntry>) -> bool {
    forall|i: int, j: int| 0 <= i < j < pool.len() ==> pool[i].fee >= pool[j].fee
}

/// The winner of the lottery over the active stake table at `height`, seeded by `seed`.
pub open spec fn expected_validator(
    entries: Seq<UtxoEntry>,
    history: Seq<SlashingRecord>,
    height: u64,
    seed: Hash256,
) -> Option<PublicKey> {
    lottery(choose|t: Seq<StakeEntry>| is_stake_table(t, entries, history, height), seed)
}

/// What happened to a block handed to the engine.
#[derive(Clone, Copy, Debug, PartialEq, Eq, Structural)]
pub enum Attachment {
    /// Its predecessor is not the tip: it waits in the orphan cache.
    Parked,
    /// It became the new tip.
    Appended,
    /// It was checked and refused.
    Rejected(EthError),
}

/// Two states hold the same chain, index, mempool, orphans and history.
pub open spec fn same_state(a: Blockchain, b: Blockchain) -> bool {
    &&& a.chain() == b.chain()
    &&& a.utxo_view() == b.utxo_view()
    &&& a.utxo_entries() == b.utxo_entries()
    &&& a.pool() == b.pool()
    &&& a.orphan_blocks() == b.orphan_blocks()
    &&& a.history() == b.history()
}

/// Some block of the orphan cache names `h` as its predecessor.
pub open spec fn waits_on(orphans: Seq<Block>, h: Hash256) -> bool {
    exists|k: int| 0 <= k < orphans.len() && (#[trigger] orphans[k]).header.prev_block_hash == h
}

/// The mempool without the entries that a block confirms, in order.
pub open spec fn without_confirmed(pool: Seq<MempoolEntry>, confirmed: Seq<Hash256>) -> Seq<MempoolEntry>
    decreases pool.len(),
{
    if pool.len() == 0 {
        seq![]
    } else {
        let rest = without_confirmed(pool.drop_last(), confirmed);
        if confirmed.contains(transaction_hash(pool.last().transaction)) {
            rest
        } else {
            rest.push(pool.last())
        }
    }
}

pub open spec fn transaction_hashes_of(b: Block) -> Seq<Hash256> {
    b.transactions@.map_values(|t: Transaction| transaction_hash(t))
}

/// Appending a block that carries its merkle root and a later timestamp keeps the
/// chain consistent.
proof fn lemma_push_consistent(b0: Seq<Block>, block: Block)
    requires
        chain_consistent(b0),
        merkle_root(block.transactions@) == block.header.merkle_root,
        b0.len() > 0 ==> block.header.timestamp > b0.last().header.timestamp,
    ensures
        chain_consistent(b0.push(block)),
{
    let c = b0.push(block);
    assert forall|i: int| 0 <= i < c.len() implies merkle_root(#[trigger] c[i].transactions@)
        == c[i].header.merkle_root && (i > 0 ==> c[i].header.timestamp > c[i - 1].header.timestamp) by {
        if i < b0.len() {
            assert(c[i] == b0[i]);
            if i > 0 {
                assert(c[i - 1] == b0[i - 1]);
            }
        } else if i > 0 {
            assert(c[i - 1] == b0.last());
        }
    }
}

fn confirmed_hashes(block: &Block) -> (r: Vec<Hash256>)
    ensures
        r@ == transaction_hashes_of(*block),
{
    let mut confirmed: Vec<Hash256> = Vec::new();
    let mut k: usize = 0;
    while k < block.transactions.len()
        invariant
            k <= block.transactions@.len(),
            confirmed@ == transaction_hashes_of(*block).subrange(0, k as int),
        decreases block.transactions.len() - k,
    {
        confirmed.push(block.transactions[k].hash());
        k = k + 1;
        assert(confirmed@ =~= transaction_hashes_of(*block).subrange(0, k as int));
    }
    assert(confirmed@ =~= transaction_hashes_of(*block));
    confirmed
}

fn retain_unconfirmed(pool: &mut Vec<MempoolEntry>, confirmed: &Vec<Hash256>)
    requires
        fees_descending(old(pool)@),
    ensures
        fees_descending(final(pool)@),
        final(pool)@ == without_confirmed(old(pool)@, confirmed@),
{
    let ghost p0 = pool@;
    let len: usize = pool.len();
    let mut rest: Vec<MempoolEntry> = Vec::new();
    std::mem::swap(pool, &mut rest);
    let ghost n = p0.len();
    let mut k: usize = 0;
    while rest.len() > 0
        invariant
            k <= n,
            n == p0.len(),
            n == len,
            fees_descending(p0),
            rest@ == p0.subrange(k as int, n as int),
            pool@ == without_confirmed(p0.subrange(0, k as int), confirmed@),
            fees_descending(pool@),
            forall|a: int, b: int| 0 <= a < pool@.len() && k <= b < n ==> pool@[a].fee >= p0[b].fee,
        decreases rest.len(),
    {
        let e = rest.remove(0);
        assert(e == p0[k as int]);
        assert(p0.subrange(0, k + 1).drop_last() == p0.subrange(0, k as int));
        let h = e.transaction.hash();
        let found = position_of(confirmed, &h);
        if found.is_none() {
            assert(!confirmed@.contains(h));
            pool.push(e);
        } else {
            assert(confirmed@.contains(h));
        }
        k = k + 1;
        assert(rest@ =~= p0.subrange(k as int, n as int));
    }
    assert(p0.subrange(0, k as int) == p0);
}

impl Blockchain {
    pub closed spec fn utxo_view(&self) -> UtxoMap {
        self.utxos@
    }

    pub closed spec fn utxo_entries(&self) -> Seq<UtxoEntry> {
        self.utxos.entries@
    }

    pub closed spec fn chain(&self) -> Seq<Block> {
        self.blocks@
    }

    pub closed spec fn pool(&self) -> Seq<MempoolEntry> {
        self.mempool@
    }

    pub closed spec fn orphan_blocks(&self) -> Seq<Block> {
        self.orphans@
    }

    pub closed spec fn history(&self) -> Seq<SlashingRecord> {
        self.slashing_history@
    }

    pub open spec fn height(&self) -> u64 {
        self.chain().len() as u64
    }

    /// The validator expected to propose the block after the one with hash `seed`.
    pub open spec fn expected_validator(&self, seed: Hash256) -> Option<PublicKey> {
        expected_validator(self.utxo_entries(), self.history(), self.height(), seed)
    }

    pub closed spec fn wf(&self) -> bool {
        &&& self.utxos.wf()
        &&& chain_consistent(self.blocks@)
        &&& fees_descending(self.mempool@)
        &&& forall|pk: PublicKey| slashed_of(self.slashing_history@, pk) <= u128::MAX
    }

    pub fn new() -> (r: Blockchain)
        ensures
            r.wf(),
            r.chain().len() == 0,
            r.utxo_view() == Map::<Hash256, (bool, crate::types::TransactionOutput)>::empty(),
            r.pool().len() == 0,
            r.orphan_blocks().len() == 0,
            r.history().len() == 0,
    {
        Blockchain {
            utxos: UtxoIndex::new(),
            blocks: Vec::new(),
            mempool: Vec::new(),
            orphans: Vec::new(),
            slashing_history: Vec::new(),
        }
    }

    pub fn block_height(&self) -> (r: u64)
        requires
            self.wf(),
        ensures
            r == self.chain().len(),
    {
        self.blocks.len() as u64
    }

    /// The hash of the last block, or the zero hash on an empty chain.
    pub fn tip_hash(&self) -> (r: Hash256)
        ensures
            r == tip_hash_of(self.chain()),
    {
        if self.blocks.len() == 0 {
            Hash256::zero()
        } else {
            self.blocks[self.blocks.len() - 1].hash()
        }
    }

    pub fn calculate_block_reward(&self) -> (r: u64)
        requires
            self.wf(),
        ensures
            r == block_reward(self.height()),
    {
        reward_at_height(self.block_height())
    }

    pub fn get_min_stake_amount() -> (r: u64)
        ensures
            r == crate::stake::STAKE_MINIMUM_AMOUNT,
    {
        crate::stake::STAKE_MINIMUM_AMOUNT
    }

    /// The active stake table at the current height, sorted by public key.
    pub fn calculate_stakes(&self) -> (r: Vec<StakeEntry>)
        requires
            self.wf(),
        ensures
            is_stake_table(r@, self.utxo_entries(), self.history(), self.height()),
    {
        calculate_stakes(&self.utxos, &self.slashing_history, self.block_height())
    }

    /// The lottery's winner over the active stake table, seeded by `seed`; `None`
    /// when no stake is active.
    pub fn get_next_validator(&self, seed: &Hash256) -> (r: Option<PublicKey>)
        requires
            self.wf(),
        ensures
            r == self.expected_validator(*seed),
    {
        let table = calculate_stakes(&self.utxos, &self.slashing_history, self.block_height());
        let n = self.utxos.entries.len();
        proof {
            lemma_raw_bound(self.utxos.entries@, PublicKey { parity: 0, x: Hash256::zero_spec() }, self.height());
            let t = choose|t: Seq<StakeEntry>| is_stake_table(t, self.utxos.entries@, self.slashing_history@, self.height());
            lemma_stake_table_unique(t, table@, self.utxos.entries@, self.slashing_history@, self.height());
        }
        pick_validator(&table, seed)
    }

    /// Rebuilds the index from the chain alone: starting empty, each transaction removes
    /// the outputs its inputs spend, then inserts its own outputs unmarked. Every soft-lock
    /// is cleared, and the index holds exactly the outputs that the chain creates and no
    /// later input spends (see `lemma_rebuild_from_empty`).
    pub fn rebuild_utxos(&mut self)
        requires
            old(self).wf(),
        ensures
            final(self).wf(),
            final(self).utxo_view() == apply_blocks(Map::empty(), old(self).chain()),
            forall|h: Hash256| #[trigger] final(self).utxo_view().contains_key(h) ==> !final(self).utxo_view()[h].0,
            forall|h: Hash256| #[trigger] final(self).utxo_view().contains_key(h) <==> exists|p: int|
                created_and_unspent(chain_events(old(self).chain()), h, p),
            final(self).chain() == old(self).chain(),
            final(self).pool() == old(self).pool(),
            final(self).orphan_blocks() == old(self).orphan_blocks(),
            final(self).history() == old(self).history(),
    {
        self.utxos = UtxoIndex::new();
        let ghost m0 = self.utxos@;
        let mut b: usize = 0;
        while b < self.blocks.len()
            invariant
                self.utxos.wf(),
                self.blocks@ == old(self).blocks@,
                self.mempool@ == old(self).mempool@,
                self.orphans@ == old(self).orphans@,
                self.slashing_history@ == old(self).slashing_history@,
                b <= self.blocks@.len(),
                self.utxos@ == apply_blocks(m0, self.blocks@.subrange(0, b as int)),
            decreases self.blocks.len() - b,
        {
            assert(self.blocks@.subrange(0, b + 1).drop_last() == self.blocks@.subrange(0, b as int));
            let ghost m1 = self.utxos@;
            let n = self.blocks[b].transactions.len();
            let mut k: usize = 0;
            while k < n
                invariant
                    self.utxos.wf(),
                    self.blocks@ == old(self).blocks@,
                    self.mempool@ == old(self).mempool@,
                    self.orphans@ == old(self).orphans@,
                    self.slashing_history@ == old(self).slashing_history@,
                    b < self.blocks@.len(),
                    n == self.blocks@[b as int].transactions@.len(),
                    k <= n,
                    self.utxos@ == apply_transactions(m1, self.blocks@[b as int].transactions@.subrange(0, k as int)),
                decreases n - k,
            {
                assert(self.blocks@[b as int].transactions@.subrange(0, k + 1).drop_last()
                    == self.blocks@[b as int].transactions@.subrange(0, k as int));
                self.utxos.apply_transaction(&self.blocks[b].transactions[k]);
                k = k + 1;
            }
            assert(self.blocks@[b as int].transactions@.subrange(0, k as int) == self.blocks@[b as int].transactions@);
            b = b + 1;
        }
        assert(self.blocks@.subrange(0, b as int) == self.blocks@);
        assert forall|h: Hash256| #[trigger] self.utxo_view().contains_key(h) implies !self.utxo_view()[h].0 by {
            lemma_rebuild_from_empty(self.blocks@, h);
        }
        assert forall|h: Hash256| #[trigger] self.utxo_view().contains_key(h) <==> exists|p: int|
            created_and_unspent(chain_events(self.blocks@), h, p) by {
            lemma_rebuild_from_empty(self.blocks@, h);
        }
    }

    /// The block's predecessor is the current tip (the zero hash on an empty chain).
    pub open spec fn links(&self, b: Block) -> bool {
        b.header.prev_block_hash == tip_hash_of(self.chain())
    }

    /// The checks on a block that extends the chain, in order. The first block is only
    /// held to its merkle root: no stake exists before it.
    pub open spec fn validation(&self, b: Block) -> Result<(), EthError> {
        if self.chain().len() == 0 {
            if merkle_root(b.transactions@) != b.header.merkle_root {
                Err(EthError::InvalidMerkleRoot)
            } else {
                Ok(())
            }
        } else {
            match self.expected_validator(b.header.prev_block_hash) {
                None => Err(EthError::InvalidValidator),
                Some(v) => if v != b.header.validator {
                    Err(EthError::InvalidValidator)
                } else if !signature_valid(b.signature, header_hash(b.header), b.header.validator) {
                    Err(EthError::InvalidSignature)
                } else if merkle_root(b.transactions@) != b.header.merkle_root {
                    Err(EthError::InvalidMerkleRoot)
                } else if b.header.timestamp <= self.chain().last().header.timestamp {
                    Err(EthError::InvalidBlock)
                } else {
                    verify_transactions_spec(self.utxo_view(), b.transactions@)
                },
            }
        }
    }

    /// Runs the checks of `validation` on a block whose predecessor is the tip.
    pub fn validate_block(&self, block: &Block) -> (r: Result<(), EthError>)
        requires
            self.wf(),
        ensures
            r == self.validation(*block),
    {
        if self.blocks.len() == 0 {
            if calculate_merkle_root(&block.transactions) != block.header.merkle_root {
                return Err(EthError::InvalidMerkleRoot);
            }
            return Ok(());
        }
        match self.get_next_validator(&block.header.prev_block_hash) {
            None => {
                return Err(EthError::InvalidValidator);
            },
            Some(v) => {
                if v != block.header.validator {
                    return Err(EthError::InvalidValidator);
                }
            },
        }
        if !block.signature.verify(&block.header.hash(), &block.header.validator) {
            return Err(EthError::InvalidSignature);
        }
        if calculate_merkle_root(&block.transactions) != block.header.merkle_root {
            return Err(EthError::InvalidMerkleRoot);
        }
        if block.header.timestamp <= self.blocks[self.blocks.len() - 1].header.timestamp {
            return Err(EthError::InvalidBlock);
        }
        block.verify_transactions(&self.utxos)
    }

    /// Drops the mempool entries whose transaction hash is in `confirmed`.
    fn remove_confirmed(&mut self, confirmed: &Vec<Hash256>)
        requires
            old(self).wf(),
        ensures
            final(self).wf(),
            final(self).pool() == without_confirmed(old(self).pool(), confirmed@),
            final(self).chain() == old(self).chain(),
            final(self).utxo_view() == old(self).utxo_view(),
            final(self).utxo_entries() == old(self).utxo_entries(),
            final(self).orphan_blocks() == old(self).orphan_blocks(),
            final(self).history() == old(self).history(),
    {
        retain_unconfirmed(&mut self.mempool, confirmed);
    }

    /// Hands a block to the chain without draining orphans: parks it when its
    /// predecessor is not the tip, otherwise validates and appends it.
    #[verifier::rlimit(60)]
    pub fn attach(&mut self, block: Block) -> (r: Attachment)
        requires
            old(self).wf(),
        ensures
            final(self).wf(),
            final(self).utxo_view() == old(self).utxo_view(),
            final(self).utxo_entries() == old(self).utxo_entries(),
            final(self).history() == old(self).history(),
            !old(self).links(block) ==> r == Attachment::Parked && final(self).orphan_blocks()
                == old(self).orphan_blocks().push(block) && final(self).chain() == old(self).chain()
                && final(self).pool() == old(self).pool(),
            old(self).links(block) && old(self).validation(block) is Err ==> r == Attachment::Rejected(
                old(self).validation(block)->Err_0,
            ) && final(self).orphan_blocks() == old(self).orphan_blocks() && final(self).chain()
                == old(self).chain() && final(self).pool() == old(self).pool(),
            old(self).links(block) && old(self).validation(block) is Ok ==> r == Attachment::Appended
                && final(self).chain() == old(self).chain().push(block) && final(self).pool()
                == without_confirmed(old(self).pool(), transaction_hashes_of(block))
                && final(self).orphan_blocks() == old(self).orphan_blocks(),
    {
        let tip = self.tip_hash();
        if block.header.prev_block_hash != tip {
            self.orphans.push(block);
            return Attachment::Parked;
        }
        match self.validate_block(&block) {
            Err(e) => {
                return Attachment::Rejected(e);
            },
            Ok(()) => {},
        }
        let confirmed = confirmed_hashes(&block);
        self.remove_confirmed(&confirmed);
        proof {
            lemma_push_consistent(self.blocks@, block);
        }
        self.blocks.push(block);
        Attachment::Appended
    }

    /// Removes from the orphan cache, in order, the blocks waiting for `parent`.
    fn take_children(&mut self, parent: &Hash256) -> (r: Vec<Block>)
        requires
            old(self).wf(),
        ensures
            final(self).wf(),
            r@.len() + final(self).orphan_blocks().len() == old(self).orphan_blocks().len(),
            forall|k: int| 0 <= k < r@.len() ==> (#[trigger] r@[k]).header.prev_block_hash == *parent,
            !waits_on(final(self).orphan_blocks(), *parent),
            forall|k: int| 0 <= k < final(self).orphan_blocks().len() ==> exists|j: int|
                0 <= j < old(self).orphan_blocks().len() && #[trigger] final(self).orphan_blocks()[k] == old(self).orphan_blocks()[j],
            !waits_on(old(self).orphan_blocks(), *parent) ==> r@.len() == 0 && final(self).orphan_blocks() == old(self).orphan_blocks(),
            final(self).chain() == old(self).chain(),
            final(self).pool() == old(self).pool(),
            final(self).utxo_view() == old(self).utxo_view(),
            final(self).utxo_entries() == old(self).utxo_entries(),
            final(self).history() == old(self).history(),
    {
        let ghost o0 = self.orphans@;
        let len: usize = self.orphans.len();
        let mut rest: Vec<Block> = Vec::new();
        std::mem::swap(&mut self.orphans, &mut rest);
        let mut children: Vec<Block> = Vec::new();
        let mut k: usize = 0;
        while rest.len() > 0
            invariant
                self.utxos == old(self).utxos,
                self.blocks@ == old(self).blocks@,
                self.mempool@ == old(self).mempool@,
                self.slashing_history@ == old(self).slashing_history@,
                old(self).wf(),
                o0 == old(self).orphans@,
                len == o0.len(),
                k <= len,
                rest@ == o0.subrange(k as int, len as int),
                children@.len() + self.orphans@.len() == k,
                forall|q: int| 0 <= q < children@.len() ==> (#[trigger] children@[q]).header.prev_block_hash == *parent,
                forall|q: int| 0 <= q < self.orphans@.len() ==> (#[trigger] self.orphans@[q]).header.prev_block_hash != *parent,
                forall|q: int| 0 <= q < self.orphans@.len() ==> exists|j: int| 0 <= j < k && #[trigger] self.orphans@[q] == o0[j],
                !waits_on(o0, *parent) ==> children@.len() == 0 && self.orphans@ == o0.subrange(0, k as int),
            decreases rest.len(),
        {
            let b = rest.remove(0);
            assert(b == o0[k as int]);
            let ghost before = self.orphans@;
            if b.header.prev_block_hash == *parent {
                children.push(b);
            } else {
                self.orphans.push(b);
                assert forall|q: int| 0 <= q < self.orphans@.len() implies exists|j: int| 0 <= j < k + 1 && #[trigger] self.orphans@[q] == o0[j] by {
                    if q == before.len() {
                        assert(self.orphans@[q] == o0[k as int]);
                    } else {
                        assert(self.orphans@[q] == before[q]);
                    }
                }
            }
            k = k + 1;
            assert(rest@ =~= o0.subrange(k as int, len as int));
            proof {
                if !waits_on(o0, *parent) {
                    assert(self.orphans@ =~= o0.subrange(0, k as int));
                }
            }
        }
        proof {
            if !waits_on(o0, *parent) {
                assert(o0.subrange(0, len as int) == o0);
            }
        }
        children
    }

    /// Drains the orphan cache from `parent`, the current tip: children waiting for a
    /// hash are handed to the chain in order, and the hash of each one appended is
    /// drained in turn. Children that fail their checks are dropped. Afterwards no
    /// orphan waits on the tip; when none waited on `parent`, nothing changes.
    pub fn process_orphans(&mut self, parent: Hash256)
        requires
            old(self).wf(),
            parent == tip_hash_of(old(self).chain()),
        ensures
            final(self).wf(),
            final(self).chain().len() >= old(self).chain().len(),
            final(self).chain().subrange(0, old(self).chain().len() as int) == old(self).chain(),
            !waits_on(final(self).orphan_blocks(), tip_hash_of(final(self).chain())),
            !waits_on(old(self).orphan_blocks(), parent) ==> final(self).chain() == old(self).chain()
                && final(self).pool() == old(self).pool() && final(self).orphan_blocks() == old(self).orphan_blocks(),
            final(self).utxo_view() == old(self).utxo_view(),
            final(self).utxo_entries() == old(self).utxo_entries(),
            final(self).history() == old(self).history(),
    {
        let ghost quiet = !waits_on(old(self).orphan_blocks(), parent);
        let mut stack: Vec<Hash256> = Vec::new();
        stack.push(parent);
        assert(stack@[0] == parent);
        assert(stack@ =~= seq![parent]);
        while stack.len() > 0
            invariant
                self.wf(),
                self.chain().len() >= old(self).chain().len(),
                self.chain().subrange(0, old(self).chain().len() as int) == old(self).chain(),
                self.utxo_view() == old(self).utxo_view(),
                self.utxo_entries() == old(self).utxo_entries(),
                self.history() == old(self).history(),
                stack@.contains(tip_hash_of(self.chain())) || !waits_on(self.orphan_blocks(), tip_hash_of(self.chain())),
                quiet == !waits_on(old(self).orphan_blocks(), parent),
                quiet ==> self.chain() == old(self).chain() && self.pool() == old(self).pool()
                    && self.orphan_blocks() == old(self).orphan_blocks() && (stack@.len() == 0 || stack@ == seq![parent]),
            decreases self.orphan_blocks().len(), stack@.len(),
        {
            let ghost s0 = stack@;
            let ghost tip0 = tip_hash_of(self.chain());
            let p = stack.pop().unwrap();
            proof {
                if quiet {
                    assert(p == parent);
                }
            }
            let ghost orphans_before = self.orphan_blocks().len() + 0;
            let ghost stack_before = stack@.len() + 1;
            let ghost ob = self.orphan_blocks();
            let mut children = self.take_children(&p);
            proof {
                if s0.contains(tip0) && p != tip0 {
                    let j = choose|j: int| 0 <= j < s0.len() && s0[j] == tip0;
                    assert(j != s0.len() - 1);
                    assert(stack@[j] == tip0);
                }
                if !waits_on(ob, tip0) && p != tip0 {
                    if waits_on(self.orphan_blocks(), tip0) {
                        let q = choose|q: int| 0 <= q < self.orphan_blocks().len() && self.orphan_blocks()[q].header.prev_block_hash == tip0;
                        let j = choose|j: int| 0 <= j < ob.len() && #[trigger] self.orphan_blocks()[q] == ob[j];
                    }
                }
            }
            let ghost base = self.orphan_blocks().len();
            let ghost k = children@.len();
            let ghost mut appended: int = 0;
            let ghost mut handled: int = 0;
            while children.len() > 0
                invariant
                    self.wf(),
                    self.chain().len() >= old(self).chain().len(),
                    self.chain().subrange(0, old(self).chain().len() as int) == old(self).chain(),
                    self.utxo_view() == old(self).utxo_view(),
                    self.utxo_entries() == old(self).utxo_entries(),
                    self.history() == old(self).history(),
                    base + k == orphans_before,
                    handled + children@.len() == k,
                    0 <= appended <= handled,
                    self.orphan_blocks().len() + appended <= base + handled,
                    stack@.len() + 1 == stack_before + appended,
                    stack@.contains(tip_hash_of(self.chain())) || !waits_on(self.orphan_blocks(), tip_hash_of(self.chain())),
                    quiet ==> children@.len() == 0 && stack@.len() == 0 && self.chain() == old(self).chain()
                        && self.pool() == old(self).pool() && self.orphan_blocks() == old(self).orphan_blocks(),
                decreases children.len(),
            {
                let child = children.remove(0);
                let ghost c0 = self.chain();
                let ghost o1 = self.orphan_blocks();
                let ghost st = stack@;
                match self.attach(child) {
                    Attachment::Appended => {
                        proof {
                            appended = appended + 1;
                            assert(self.chain().subrange(0, old(self).chain().len() as int) =~= old(self).chain()) by {
                                assert(self.chain() == c0.push(child));
                                assert forall|i: int| 0 <= i < old(self).chain().len() implies self.chain()[i] == c0[i] by {}
                                assert(c0.subrange(0, old(self).chain().len() as int) == old(self).chain());
                            }
                        }
                        let tip = self.tip_hash();
                        stack.push(tip);
                        assert(stack@[stack@.len() - 1] == tip);
                    },
                    Attachment::Parked => {
                        proof {
                            let t = tip_hash_of(self.chain());
                            if st.contains(t) {
                                let j = choose|j: int| 0 <= j < st.len() && st[j] == t;
                                assert(stack@[j] == t);
                            } else {
                                assert forall|q: int| 0 <= q < self.orphan_blocks().len() implies self.orphan_blocks()[q].header.prev_block_hash != t by {
                                    if q < o1.len() {
                                        assert(self.orphan_blocks()[q] == o1[q]);
                                    }
                                }
                            }
                        }
                    },
                    _ => {},
                }
                proof {
                    handled = handled + 1;
                }
            }
        }
    }

    /// Appends a block whose predecessor is the tip after the checks of `validation`,
    /// then drains the orphans waiting for it. A block whose predecessor is not the
    /// tip is parked in the orphan cache, which is a success.
    pub fn add_block(&mut self, block: Block) -> (r: Result<(), EthError>)
        requires
            old(self).wf(),
        ensures
            final(self).wf(),
            final(self).utxo_view() == old(self).utxo_view(),
            final(self).utxo_entries() == old(self).utxo_entries(),
            final(self).history() == old(self).history(),
            !old(self).links(block) ==> r is Ok && final(self).orphan_blocks() == old(self).orphan_blocks().push(block)
                && final(self).chain() == old(self).chain() && final(self).pool() == old(self).pool(),
            old(self).links(block) && old(self).validation(block) is Err ==> r == old(self).validation(block)
                && final(self).orphan_blocks() == old(self).orphan_blocks() && final(self).chain()
                == old(self).chain() && final(self).pool() == old(self).pool(),
            old(self).links(block) && old(self).validation(block) is Ok ==> r is Ok
                && final(self).chain().len() > old(self).chain().len()
                && final(self).chain().subrange(0, old(self).chain().len() + 1 as int) == old(self).chain().push(block)
                && !waits_on(final(self).orphan_blocks(), tip_hash_of(final(self).chain())),
            old(self).links(block) && old(self).validation(block) is Ok && !waits_on(old(self).orphan_blocks(), block_hash(block))
                ==> final(self).chain() == old(self).chain().push(block)
                && final(self).pool() == without_confirmed(old(self).pool(), transaction_hashes_of(block))
                && final(self).orphan_blocks() == old(self).orphan_blocks(),
    {
        let ghost c0 = self.chain();
        match self.attach(block) {
            Attachment::Parked => Ok(()),
            Attachment::Rejected(e) => Err(e),
            Attachment::Appended => {
                let ghost c1 = self.chain();
                let tip = self.tip_hash();
                self.process_orphans(tip);
                assert(self.chain().subrange(0, c0.len() + 1 as int) =~= c0.push(block)) by {
                    assert(self.chain().subrange(0, c1.len() as int) == c1);
                    assert forall|i: int| 0 <= i < c0.len() + 1 implies self.chain()[i] == c1[i] by {
                        assert(self.chain().subrange(0, c1.len() as int)[i] == self.chain()[i]);
                    }
                }
                Ok(())
            },
        }
    }

    /// Admits a transaction to the mempool at time `now` (milliseconds), as `admission` says.
    #[verifier::rlimit(40)]
    pub fn add_to_mempool_at(&mut self, transaction: Transaction, now: i64) -> (r: Result<(), EthError>)
        requires
            old(self).wf(),
        ensures
            final(self).wf(),
            (r, final(self).utxo_view(), final(self).pool()) == admission(
                old(self).utxo_view(),
                old(self).pool(),
                old(self).height(),
                transaction,
                now,
            ),
            final(self).chain() == old(self).chain(),
            final(self).orphan_blocks() == old(self).orphan_blocks(),
            final(self).history() == old(self).history(),
    {
        let height = self.block_height();
        let ghost m = self.utxos@;
        let ghost p0 = self.mempool@;
        let ghost ins = transaction.inputs@;
        let mut seen: Vec<Hash256> = Vec::new();
        let mut i: usize = 0;
        while i < transaction.inputs.len()
            invariant
                self.wf(),
                self.utxos == old(self).utxos,
                self.mempool@ == old(self).mempool@,
                self.blocks@ == old(self).blocks@,
                self.orphans@ == old(self).orphans@,
                self.slashing_history@ == old(self).slashing_history@,
                m == self.utxos@,
                ins == transaction.inputs@,
                height == self.height(),
                i <= ins.len(),
                seen@.len() == i,
                forall|q: int| 0 <= q < i ==> seen@[q] == #[trigger] ins[q].prev_transaction_output_hash,
                forall|q: int| 0 <= q < i ==> m.contains_key(#[trigger] ins[q].prev_transaction_output_hash),
                first_input_problem(m, ins, height, 0) == first_input_problem(m, ins, height, i as int),
            decreases transaction.inputs.len() - i,
        {
            let h = transaction.inputs[i].prev_transaction_output_hash;
            match self.utxos.get(&h) {
                None => {
                    return Err(EthError::InvalidTransaction);
                },
                Some((_, o)) => {
                    if o.is_stake && o.locked_until > height {
                        return Err(EthError::StakeLocked);
                    }
                },
            }
            match position_of(&seen, &h) {
                Some(j) => {
                    assert(ins[j as int].prev_transaction_output_hash == h);
                    assert(input_problem(m, ins, i as int, height) == Some(EthError::InvalidTransaction));
                    return Err(EthError::InvalidTransaction);
                },
                None => {
                    assert(input_problem(m, ins, i as int, height) is None);
                },
            }
            seen.push(h);
            i = i + 1;
        }
        assert(inputs_known(m, ins));
        let in_sum = spent_value(&self.utxos, &transaction.inputs);
        let out_sum = total_value(&transaction.outputs);
        if in_sum < out_sum {
            return Err(EthError::InvalidTransaction);
        }
        let mut k: usize = 0;
        while k < transaction.inputs.len()
            invariant
                self.utxos.wf(),
                fees_descending(self.mempool@),
                ins == transaction.inputs@,
                k <= ins.len(),
                (self.utxos@, self.mempool@) == supersede(m, p0, ins.subrange(0, k as int)),
                self.blocks@ == old(self).blocks@,
                self.orphans@ == old(self).orphans@,
                self.slashing_history@ == old(self).slashing_history@,
            decreases transaction.inputs.len() - k,
        {
            assert(ins.subrange(0, k + 1).drop_last() == ins.subrange(0, k as int));
            let h = transaction.inputs[k].prev_transaction_output_hash;
            match self.utxos.get(&h) {
                Some((true, _)) => {
                    match first_claimant_exec(&self.mempool, &h) {
                        Some(e) => {
                            proof {
                                lemma_first_claimant_range(self.mempool@, h, 0);
                                lemma_remove_keeps_order(self.mempool@, e as int);
                            }
                            set_flags_exec(&mut self.utxos, &self.mempool[e].transaction.inputs, false);
                            self.mempool.remove(e);
                        },
                        None => {
                            self.utxos.set_marked(&h, false);
                        },
                    }
                },
                _ => {},
            }
            k = k + 1;
        }
        assert(ins.subrange(0, k as int) == ins);
        set_flags_exec(&mut self.utxos, &transaction.inputs, true);
        let fee = in_sum - out_sum;
        let pos = fee_position_exec(&self.mempool, fee);
        let entry = MempoolEntry { timestamp: now, transaction, fee };
        proof {
            lemma_insert_keeps_order(self.mempool@, entry);
        }
        self.mempool.insert(pos, entry);
        Ok(())
    }

    /// Admits a transaction to the mempool, stamped with the current time.
    pub fn add_to_mempool(&mut self, transaction: Transaction) -> (r: Result<(), EthError>)
        requires
            old(self).wf(),
        ensures
            final(self).wf(),
            exists|now: i64| (r, final(self).utxo_view(), final(self).pool()) == admission(
                old(self).utxo_view(),
                old(self).pool(),
                old(self).height(),
                transaction,
                now,
            ),
            final(self).chain() == old(self).chain(),
            final(self).orphan_blocks() == old(self).orphan_blocks(),
            final(self).history() == old(self).history(),
    {
        let now = now_millis();
        self.add_to_mempool_at(transaction, now)
    }

    /// Evicts the entries older than the maximum age at `now` (milliseconds) and
    /// unmarks the outputs they had claimed, except those that a remaining entry claims.
    pub fn clean_mempool_at(&mut self, now: i64)
        requires
            old(self).wf(),
        ensures
            final(self).wf(),
            final(self).pool() == live_entries(old(self).pool(), now),
            final(self).utxo_view() == release(
                old(self).utxo_view(),
                expired_inputs(old(self).pool(), now),
                live_entries(old(self).pool(), now),
            ),
            forall|q: int| 0 <= q < expired_inputs(old(self).pool(), now).len() ==> {
                let h = (#[trigger] expired_inputs(old(self).pool(), now)[q]).prev_transaction_output_hash;
                old(self).utxo_view().contains_key(h) ==> {
                    &&& final(self).utxo_view().contains_key(h)
                    &&& !claimed_by_any(final(self).pool(), h) ==> !final(self).utxo_view()[h].0
                    &&& claimed_by_any(final(self).pool(), h) ==> final(self).utxo_view()[h] == old(self).utxo_view()[h]
                }
            },
            final(self).chain() == old(self).chain(),
            final(self).orphan_blocks() == old(self).orphan_blocks(),
            final(self).history() == old(self).history(),
    {
        let ghost p0 = self.mempool@;
        let ghost m0 = self.utxos@;
        let len: usize = self.mempool.len();
        let mut rest: Vec<MempoolEntry> = Vec::new();
        std::mem::swap(&mut self.mempool, &mut rest);
        let mut freed: Vec<TransactionInput> = Vec::new();
        let mut k: usize = 0;
        while rest.len() > 0
            invariant
                k <= len,
                len == p0.len(),
                fees_descending(p0),
                rest@ == p0.subrange(k as int, len as int),
                self.mempool@ == live_entries(p0.subrange(0, k as int), now),
                freed@ == expired_inputs(p0.subrange(0, k as int), now),
                self.utxos@ == m0,
                self.utxos.wf(),
                fees_descending(self.mempool@),
                forall|a: int, b: int| 0 <= a < self.mempool@.len() && k <= b < len ==> self.mempool@[a].fee >= p0[b].fee,
                self.blocks@ == old(self).blocks@,
                self.orphans@ == old(self).orphans@,
                self.slashing_history@ == old(self).slashing_history@,
                forall|pk: PublicKey| slashed_of(self.slashing_history@, pk) <= u128::MAX,
            decreases rest.len(),
        {
            let e = rest.remove(0);
            assert(e == p0[k as int]);
            assert(p0.subrange(0, k + 1).drop_last() == p0.subrange(0, k as int));
            if (now as i128) - (e.timestamp as i128) > 600_000i128 {
                let ghost f0 = freed@;
                let mut j: usize = 0;
                while j < e.transaction.inputs.len()
                    invariant
                        j <= e.transaction.inputs@.len(),
                        freed@ == f0 + e.transaction.inputs@.subrange(0, j as int),
                    decreases e.transaction.inputs.len() - j,
                {
                    freed.push(e.transaction.inputs[j]);
                    j = j + 1;
                    assert(freed@ =~= f0 + e.transaction.inputs@.subrange(0, j as int));
                }
                assert(e.transaction.inputs@.subrange(0, j as int) == e.transaction.inputs@);
            } else {
                self.mempool.push(e);
            }
            k = k + 1;
            assert(rest@ =~= p0.subrange(k as int, len as int));
        }
        assert(p0.subrange(0, k as int) == p0);
        let ghost live = self.mempool@;
        let mut i: usize = 0;
        while i < freed.len()
            invariant
                i <= freed@.len(),
                live == self.mempool@,
                fees_descending(self.mempool@),
                self.utxos.wf(),
                self.utxos@ == release(m0, freed@.subrange(0, i as int), live),
                self.blocks@ == old(self).blocks@,
                self.orphans@ == old(self).orphans@,
                self.slashing_history@ == old(self).slashing_history@,
                forall|pk: PublicKey| slashed_of(self.slashing_history@, pk) <= u128::MAX,
            decreases freed.len() - i,
        {
            assert(freed@.subrange(0, i + 1).drop_last() == freed@.subrange(0, i as int));
            let h = freed[i].prev_transaction_output_hash;
            if !claimed_exec(&self.mempool, &h) {
                self.utxos.set_marked(&h, false);
            }
            i = i + 1;
        }
        assert(freed@.subrange(0, i as int) == freed@);
        assert forall|q: int| 0 <= q < expired_inputs(p0, now).len() implies {
            let h = (#[trigger] expired_inputs(p0, now)[q]).prev_transaction_output_hash;
            m0.contains_key(h) ==> {
                &&& self.utxos@.contains_key(h)
                &&& !claimed_by_any(live, h) ==> !self.utxos@[h].0
                &&& claimed_by_any(live, h) ==> self.utxos@[h] == m0[h]
            }
        } by {
            let h = expired_inputs(p0, now)[q].prev_transaction_output_hash;
            lemma_release(m0, freed@, live, h);
        }
    }

    /// Evicts the entries older than the maximum age, by the current time.
    pub fn clean_mempool(&mut self)
        requires
            old(self).wf(),
        ensures
            final(self).wf(),
            exists|now: i64| final(self).pool() == live_entries(old(self).pool(), now)
                && final(self).utxo_view() == release(
                old(self).utxo_view(),
                expired_inputs(old(self).pool(), now),
                live_entries(old(self).pool(), now),
            ),
            final(self).chain() == old(self).chain(),
            final(self).orphan_blocks() == old(self).orphan_blocks(),
            final(self).history() == old(self).history(),
    {
        let now = now_millis();
        self.clean_mempool_at(now)
    }

    /// The penalty for `reason` against a validator whose active stake is `stake`:
    /// `stake * rate_bps / 10000`.
    pub open spec fn penalty(stake: int, reason: SlashingReason) -> int {
        stake * (match reason {
            SlashingReason::DoubleSigning => 1000int,
            SlashingReason::Downtime => 100int,
        }) / 10000
    }

    /// The active stake of `pk`: its effective stake where that reaches the minimum, else zero.
    pub open spec fn active_stake(&self, pk: PublicKey) -> int {
        if effective_stake(self.utxo_entries(), self.history(), pk, self.height()) >= STAKE_MINIMUM_AMOUNT {
            effective_stake(self.utxo_entries(), self.history(), pk, self.height())
        } else {
            0
        }
    }

    /// The stake of `pk` in the active table, or zero.
    fn table_stake(&self, pk: &PublicKey) -> (r: u128)
        requires
            self.wf(),
        ensures
            r == self.active_stake(*pk),
    {
        let table = calculate_stakes(&self.utxos, &self.slashing_history, self.block_height());
        let mut i: usize = 0;
        while i < table.len()
            invariant
                is_stake_table(table@, self.utxo_entries(), self.history(), self.height()),
                i <= table@.len(),
                forall|q: int| 0 <= q < i ==> table@[q].pubkey != *pk,
            decreases table.len() - i,
        {
            if table[i].pubkey == *pk {
                return table[i].amount;
            }
            i = i + 1;
        }
        0
    }

    /// Records a penalty against a validator with active stake: the penalty is
    /// `stake * rate / 10000` (1000 basis points for double signing, 100 for downtime).
    pub fn slash_validator(&mut self, pubkey: &PublicKey, reason: SlashingReason) -> (r: Result<u128, EthError>)
        requires
            old(self).wf(),
        ensures
            final(self).wf(),
            old(self).active_stake(*pubkey) == 0 ==> r == Err::<u128, EthError>(EthError::InvalidValidator)
                && final(self).history() == old(self).history(),
            old(self).active_stake(*pubkey) > 0 ==> {
                let p = Self::penalty(old(self).active_stake(*pubkey), reason);
                r == Ok::<u128, EthError>(p as u128) && final(self).history() == old(self).history().push(
                    SlashingRecord { validator: *pubkey, block_height: old(self).height(), reason, penalty_amount: p as u128 },
                )
            },
            final(self).chain() == old(self).chain(),
            final(self).pool() == old(self).pool(),
            final(self).utxo_view() == old(self).utxo_view(),
            final(self).utxo_entries() == old(self).utxo_entries(),
            final(self).orphan_blocks() == old(self).orphan_blocks(),
    {
        let stake = self.table_stake(pubkey);
        if stake == 0 {
            return Err(EthError::InvalidValidator);
        }
        let rate: u128 = match reason {
            SlashingReason::DoubleSigning => SLASHING_PENALTY_DOUBLE_SIGN,
            SlashingReason::Downtime => SLASHING_PENALTY_DOWNTIME,
        };
        let q = stake / 10000;
        let rem = stake % 10000;
        assert(rem * rate <= 10_000_000) by (nonlinear_arith)
            requires
                rem < 10000,
                rate <= 1000,
        ;
        assert(q * rate <= stake / 10) by (nonlinear_arith)
            requires
                q == stake / 10000,
                rate <= 1000,
        ;
        let penalty: u128 = q * rate + rem * rate / 10000;
        proof {
            assert(penalty == stake * rate / 10000) by (nonlinear_arith)
                requires
                    q == stake / 10000,
                    rem == stake % 10000,
                    penalty == q * rate + rem * rate / 10000,
                    rate <= 1000,
            ;
            assert(penalty <= stake) by (nonlinear_arith)
                requires
                    penalty == stake * rate / 10000,
                    rate <= 1000,
                    stake >= 0,
            ;
        }
        let n = self.utxos.entries.len();
        let record = SlashingRecord {
            validator: *pubkey,
            block_height: self.block_height(),
            reason,
            penalty_amount: penalty,
        };
        proof {
            lemma_raw_bound(self.utxos.entries@, *pubkey, self.height());
            lemma_slashed_nonneg(self.slashing_history@, *pubkey);
        }
        let ghost h0 = self.slashing_history@;
        self.slashing_history.push(record);
        proof {
            assert(self.slashing_history@.drop_last() == h0);
            assert forall|pk: PublicKey| slashed_of(self.slashing_history@, pk) <= u128::MAX by {
                if pk != *pubkey {
                    assert(slashed_of(self.slashing_history@, pk) == slashed_of(h0, pk));
                }
            }
        }
        Ok(penalty)
    }

    /// Whether any penalty is recorded against `pubkey`.
    pub fn is_validator_slashed(&self, pubkey: &PublicKey) -> (r: bool)
        requires
            self.wf(),
        ensures
            r == (slashed_of(self.history(), *pubkey) > 0),
    {
        slashed_total(&self.slashing_history, pubkey) > 0
    }

    /// The stake of `pubkey` after its penalties: its row in the active table, or zero.
    pub fn get_effective_stake(&self, pubkey: &PublicKey) -> (r: u128)
        requires
            self.wf(),
        ensures
            r == self.active_stake(*pubkey),
    {
        self.table_stake(pubkey)
    }

    pub fn slashing_history(&self) -> (r: &Vec<SlashingRecord>)
        ensures
            r@ == self.history(),
    {
        &self.slashing_history
    }

    pub fn utxos(&self) -> (r: &UtxoIndex)
        requires
            self.wf(),
        ensures
            r.wf(),
            r@ == self.utxo_view(),
            r.entries@ == self.utxo_entries(),
    {
        &self.utxos
    }

    pub fn blocks(&self) -> (r: &Vec<Block>)
        ensures
            r@ == self.chain(),
    {
        &self.blocks
    }

    pub fn mempool(&self) -> (r: &Vec<MempoolEntry>)
        ensures
            r@ == self.pool(),
    {
        &self.mempool
    }

    pub fn orphans(&self) -> (r: &Vec<Block>)
        ensures
            r@ == self.orphan_blocks(),
    {
        &self.orphans
    }
}

proof fn lemma_timestamps_increase(blocks: Seq<Block>, i: int, j: int)
    requires
        chain_consistent(blocks),
        0 <= i < j < blocks.len(),
    ensures
        blocks[i].header.timestamp < blocks[j].header.timestamp,
    decreases j - i,
{
    let tx = blocks[j].transactions@;
    assert(merkle_root(tx) == blocks[j].header.merkle_root);
    assert(blocks[j].header.timestamp > blocks[j - 1].header.timestamp);
    if i < j - 1 {
        lemma_timestamps_increase(blocks, i, j - 1);
    }
}

/// Of every chain the engine holds: each block carries the merkle root of its own
/// transactions, and timestamps strictly increase along the chain.
pub proof fn lemma_accepted_chain(c: &Blockchain)
    requires
        c.wf(),
    ensures
        forall|i: int| 0 <= i < c.chain().len() ==> merkle_root(#[trigger] c.chain()[i].transactions@)
            == c.chain()[i].header.merkle_root,
        forall|i: int, j: int| 0 <= i < j < c.chain().len() ==> #[trigger] c.chain()[i].header.timestamp
            < #[trigger] c.chain()[j].header.timestamp,
{
    assert forall|i: int, j: int| 0 <= i < j < c.chain().len() implies #[trigger] c.chain()[i].header.timestamp
        < #[trigger] c.chain()[j].header.timestamp by {
        lemma_timestamps_increase(c.blocks@, i, j);
    }
}

/// The mempool of every state the engine holds is ordered by descending fee.
pub proof fn lemma_mempool_fee_order(c: &Blockchain)
    requires
        c.wf(),
    ensures
        fees_descending(c.pool()),
{
}

/// Once a block is the tip, handing it to the chain again does not link it: its
/// predecessor is no longer the tip, so `add_block` parks it as an orphan. This holds
/// for every block whose hash differs from the predecessor hash it names.
pub proof fn lemma_same_block_again_parks(c: &Blockchain, b: Block)
    requires
        c.chain().len() > 0,
        c.chain().last() == b,
        block_hash(b) != b.header.prev_block_hash,
    ensures
        !c.links(b),
{
}

/// The sum of every recorded penalty.
pub open spec fn all_penalties(h: Seq<SlashingRecord>) -> int
    decreases h.len(),
{
    if h.len() == 0 {
        0
    } else {
        all_penalties(h.drop_last()) + h.last().penalty_amount
    }
}

proof fn lemma_penalties_bound(h: Seq<SlashingRecord>, pk: PublicKey)
    ensures
        0 <= slashed_of(h, pk) <= all_penalties(h),
    decreases h.len(),
{
    if h.len() > 0 {
        lemma_penalties_bound(h.drop_last(), pk);
    }
}

impl Blockchain {
    /// A chain restored from a snapshot of its blocks and slashing history, with the
    /// index rebuilt from the blocks and an empty mempool and orphan cache. `None` when
    /// a block lacks its merkle root, a block after the first a later timestamp, or the
    /// penalties together exceed `u128`.
    pub fn from_snapshot(blocks: Vec<Block>, history: Vec<SlashingRecord>) -> (r: Option<Blockchain>)
        ensures
            (chain_consistent(blocks@) && all_penalties(history@) <= u128::MAX) <==> r is Some,
            r matches Some(c) ==> {
                &&& c.wf()
                &&& c.chain() == blocks@
                &&& c.history() == history@
                &&& c.utxo_view() == apply_blocks(Map::empty(), blocks@)
                &&& c.pool().len() == 0
                &&& c.orphan_blocks().len() == 0
            },
    {
        let mut i: usize = 0;
        while i < blocks.len()
            invariant
                forall|k: int| 0 <= k < i && k < blocks@.len() ==> merkle_root(#[trigger] blocks@[k].transactions@)
                    == blocks@[k].header.merkle_root && (k > 0 ==> blocks@[k].header.timestamp > blocks@[k - 1].header.timestamp),
            decreases blocks.len() - i,
        {
            if calculate_merkle_root(&blocks[i].transactions) != blocks[i].header.merkle_root
                || (i > 0 && blocks[i].header.timestamp <= blocks[i - 1].header.timestamp) {
                assert(!chain_consistent(blocks@)) by {
                    assert(0 <= i < blocks@.len());
                    if merkle_root(blocks@[i as int].transactions@) == blocks@[i as int].header.merkle_root {}
                }
                return None;
            }
            i = i + 1;
        }
        let mut total: u128 = 0;
        let mut j: usize = 0;
        while j < history.len()
            invariant
                j <= history@.len(),
                total == all_penalties(history@.subrange(0, j as int)),
            decreases history.len() - j,
        {
            assert(history@.subrange(0, j + 1).drop_last() == history@.subrange(0, j as int));
            if history[j].penalty_amount > u128::MAX - total {
                proof {
                    lemma_penalties_prefix(history@, j + 1);
                }
                return None;
            }
            total = total + history[j].penalty_amount;
            j = j + 1;
        }
        assert(history@.subrange(0, j as int) == history@);
        let mut chain = Blockchain {
            utxos: UtxoIndex::new(),
            blocks,
            mempool: Vec::new(),
            orphans: Vec::new(),
            slashing_history: history,
        };
        proof {
            assert forall|pk: PublicKey| slashed_of(chain.slashing_history@, pk) <= u128::MAX by {
                lemma_penalties_bound(chain.slashing_history@, pk);
            }
        }
        chain.rebuild_utxos();
        Some(chain)
    }
}

proof fn lemma_penalties_prefix(h: Seq<SlashingRecord>, i: int)
    requires
        0 <= i <= h.len(),
    ensures
        all_penalties(h.subrange(0, i)) <= all_penalties(h),
    decreases h.len() - i,
{
    if i < h.len() {
        lemma_penalties_prefix(h, i + 1);
        assert(h.subrange(0, i + 1).drop_last() == h.subrange(0, i));
    } else {
        assert(h.subrange(0, i) == h);
    }
}

} // verus!
