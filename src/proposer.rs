//! The validator's block proposer: decides slot ownership, assembles a candidate
//! block from the mempool, signs it and appends it locally.
use vstd::prelude::*;
use crate::block::{fee_of, inputs_known, spent_value, sum_inputs, UtxoMap};
use crate::blockchain::{same_state, tip_hash_of, Blockchain, MempoolEntry, BLOCK_TRANSACTION_CAP};
use crate::utxo::apply_blocks;
use crate::clock::{fresh_unique_id, now_millis};
use crate::crypto::{ecdsa_secret_valid, ecdsa_signature_of, ecdsa_signs, hash_from_bytes, header_hash, lemma_transaction_hash_views, view_hash};
use crate::codec::enc_hash;
use crate::error::EthError;
use crate::merkle::{calculate_merkle_root, merkle_of, merkle_root, transaction_hashes};
use crate::types::{same_transactions, sum_values, total_value, Block, BlockHeader, Hash256, PrivateKey, PublicKey, Signature, Transaction, TransactionInput, TransactionOutput};

verus! {

#[derive(Clone, Copy, Debug, PartialEq, Eq, Structural)]
pub enum ProposalError {
    /// The lottery does not name this validator for the next block.
    NotOurTurn,
    /// The fees of the selected transactions do not fit a coinbase output.
    FeeOverflow,
    /// The private key is not a valid secret scalar.
    SigningFailed,
    /// The chain refused the proposed block.
    Rejected(EthError),
}

/// A mempool transaction may go into a proposal: every input is in the index and
/// its inputs cover its outputs.
pub open spec fn includable(m: UtxoMap, t: Transaction) -> bool {
    inputs_known(m, t.inputs@) && sum_inputs(m, t.inputs@) >= sum_values(t.outputs@)
}

/// The includable transactions of the entries, in order.
pub open spec fn selection(m: UtxoMap, pool: Seq<MempoolEntry>) -> Seq<Transaction>
    decreases pool.len(),
{
    if pool.len() == 0 {
        seq![]
    } else if includable(m, pool.last().transaction) {
        selection(m, pool.drop_last()).push(pool.last().transaction)
    } else {
        selection(m, pool.drop_last())
    }
}

/// The fees of the includable transactions of the entries.
pub open spec fn selection_fees(m: UtxoMap, pool: Seq<MempoolEntry>) -> int
    decreases pool.len(),
{
    if pool.len() == 0 {
        0
    } else if includable(m, pool.last().transaction) {
        selection_fees(m, pool.drop_last()) + fee_of(m, pool.last().transaction)
    } else {
        selection_fees(m, pool.drop_last())
    }
}

/// The entries that a proposal looks at: the first twenty, in priority order.
pub open spec fn proposal_window(pool: Seq<MempoolEntry>) -> Seq<MempoolEntry> {
    if pool.len() <= 20 {
        pool
    } else {
        pool.subrange(0, 20)
    }
}

pub proof fn lemma_selection_fees_grow(m: UtxoMap, pool: Seq<MempoolEntry>, i: int)
    requires
        0 <= i <= pool.len(),
    ensures
        0 <= selection_fees(m, pool.subrange(0, i)) <= selection_fees(m, pool),
    decreases pool.len() - i,
{
    if i < pool.len() {
        lemma_selection_fees_grow(m, pool, i + 1);
        assert(pool.subrange(0, i + 1).drop_last() == pool.subrange(0, i));
        lemma_selection_fees_nonneg(m, pool.subrange(0, i));
    } else {
        assert(pool.subrange(0, i) == pool);
        lemma_selection_fees_nonneg(m, pool);
    }
}

pub proof fn lemma_selection_fees_nonneg(m: UtxoMap, pool: Seq<MempoolEntry>)
    ensures
        selection_fees(m, pool) >= 0,
    decreases pool.len(),
{
    if pool.len() > 0 {
        lemma_selection_fees_nonneg(m, pool.drop_last());
    }
}

/// Every input is in the index.
fn inputs_present(chain: &Blockchain, ins: &Vec<TransactionInput>) -> (r: bool)
    requires
        chain.wf(),
    ensures
        r == inputs_known(chain.utxo_view(), ins@),
{
    let mut i: usize = 0;
    while i < ins.len()
        invariant
            chain.wf(),
            i <= ins@.len(),
            forall|q: int| 0 <= q < i ==> chain.utxo_view().contains_key(#[trigger] ins@[q].prev_transaction_output_hash),
        decreases ins.len() - i,
    {
        if !chain.utxos().contains_key(&ins[i].prev_transaction_output_hash) {
            return false;
        }
        i = i + 1;
    }
    true
}

/// The includable transactions among the first entries of the mempool, and their fees;
/// `None` when the fees exceed what a coinbase output holds.
pub fn select_transactions(chain: &Blockchain) -> (r: Option<(Vec<Transaction>, u64)>)
    requires
        chain.wf(),
    ensures
        selection_fees(chain.utxo_view(), proposal_window(chain.pool())) <= u64::MAX <==> r is Some,
        r matches Some((txs, fees)) ==> fees == selection_fees(chain.utxo_view(), proposal_window(chain.pool()))
            && same_transactions(txs@, selection(chain.utxo_view(), proposal_window(chain.pool()))),
{
    let ghost m = chain.utxo_view();
    let pool = chain.mempool();
    let ghost w = proposal_window(pool@);
    let n: usize = if pool.len() <= BLOCK_TRANSACTION_CAP {
        pool.len()
    } else {
        BLOCK_TRANSACTION_CAP
    };
    assert(w == pool@.subrange(0, n as int));
    let mut txs: Vec<Transaction> = Vec::new();
    let mut fees: u64 = 0;
    let mut i: usize = 0;
    while i < n
        invariant
            chain.wf(),
            m == chain.utxo_view(),
            pool@ == chain.pool(),
            w == pool@.subrange(0, n as int),
            w == proposal_window(chain.pool()),
            n <= pool@.len(),
            i <= n,
            fees == selection_fees(m, w.subrange(0, i as int)),
            same_transactions(txs@, selection(m, w.subrange(0, i as int))),
        decreases n - i,
    {
        assert(w.subrange(0, i + 1).drop_last() == w.subrange(0, i as int));
        assert(w.subrange(0, i + 1).last() == pool@[i as int]);
        let t = &pool[i].transaction;
        if inputs_present(chain, &t.inputs) {
            let in_sum = spent_value(chain.utxos(), &t.inputs);
            let out_sum = total_value(&t.outputs);
            if in_sum >= out_sum {
                let fee = in_sum - out_sum;
                assert(includable(m, w.subrange(0, i + 1).last().transaction));
                assert(selection_fees(m, w.subrange(0, i + 1)) == fees + fee);
                if fee > 0xffff_ffff_ffff_ffffu128 || (fees as u128) + fee > 0xffff_ffff_ffff_ffffu128 {
                    proof {
                        lemma_selection_fees_grow(m, w, i + 1);
                        assert(selection_fees(m, w) > u64::MAX);
                        assert(w == proposal_window(chain.pool()));
                    }
                    return None;
                }
                fees = fees + fee as u64;
                txs.push(t.copy());
            }
        }
        i = i + 1;
    }
    assert(w.subrange(0, n as int) == w);
    Some((txs, fees))
}

pub struct BlockProposer {
    private_key: PrivateKey,
    public_key: PublicKey,
    blocks_proposed: u64,
}

impl BlockProposer {
    /// A proposer for the key pair of `private_key`; `None` when the scalar is not a valid key.
    pub fn new(private_key: PrivateKey) -> (r: Option<BlockProposer>)
        ensures
            r is Some <==> ecdsa_secret_valid(enc_hash(private_key.scalar)),
            r matches Some(p) ==> p.private_key() == private_key && p.blocks_proposed() == 0,
    {
        match private_key.public_key() {
            Some(public_key) => Some(BlockProposer { private_key, public_key, blocks_proposed: 0 }),
            None => None,
        }
    }

    pub closed spec fn private_key(&self) -> PrivateKey {
        self.private_key
    }

    pub closed spec fn public_key_spec(&self) -> PublicKey {
        self.public_key
    }

    pub closed spec fn blocks_proposed(&self) -> u64 {
        self.blocks_proposed
    }

    pub fn public_key(&self) -> (r: PublicKey)
        ensures
            r == self.public_key_spec(),
    {
        self.public_key
    }

    pub fn proposed_count(&self) -> (r: u64)
        ensures
            r == self.blocks_proposed(),
    {
        self.blocks_proposed
    }

    /// Whether the lottery seeded by the tip's hash names this validator.
    pub fn is_our_turn(&self, chain: &Blockchain) -> (r: bool)
        requires
            chain.wf(),
        ensures
            r == (chain.expected_validator(tip_hash_of(chain.chain())) == Some(self.public_key_spec())),
    {
        let tip = chain.tip_hash();
        match chain.get_next_validator(&tip) {
            Some(v) => v == self.public_key,
            None => false,
        }
    }

    /// The coinbase output of a proposal: the selected fees, paid to this validator.
    pub open spec fn coinbase_output(&self, chain: Blockchain, coinbase_id: u128) -> TransactionOutput {
        TransactionOutput {
            unique_id: coinbase_id,
            value: selection_fees(chain.utxo_view(), proposal_window(chain.pool())) as u64,
            pubkey: self.public_key_spec(),
            is_stake: false,
            locked_until: 0,
        }
    }

    /// The header of the proposal on the chain's tip at time `now`.
    pub open spec fn proposal_header(&self, chain: Blockchain, now: i64, coinbase_id: u128) -> BlockHeader {
        BlockHeader {
            timestamp: now,
            prev_block_hash: tip_hash_of(chain.chain()),
            merkle_root: merkle_of(seq![view_hash(Seq::empty(), seq![self.coinbase_output(chain, coinbase_id)])]
                + selection(chain.utxo_view(), proposal_window(chain.pool())).map_values(
                |t: Transaction| view_hash(t.inputs@, t.outputs@),
            )),
            validator: self.public_key_spec(),
        }
    }

    /// `b` is this validator's proposal on the chain's tip at time `now`.
    pub open spec fn is_proposal(&self, chain: Blockchain, now: i64, coinbase_id: u128, b: Block) -> bool {
        &&& b.header == self.proposal_header(chain, now, coinbase_id)
        &&& b.header.merkle_root == merkle_root(b.transactions@)
        &&& b.transactions@.len() >= 1
        &&& b.transactions@[0].inputs@.len() == 0
        &&& b.transactions@[0].outputs@ == seq![self.coinbase_output(chain, coinbase_id)]
        &&& same_transactions(b.transactions@.subrange(1, b.transactions@.len() as int),
            selection(chain.utxo_view(), proposal_window(chain.pool())))
        &&& {
            let sig = ecdsa_signature_of(enc_hash(header_hash(b.header)), enc_hash(self.private_key().scalar));
            b.signature == (Signature { r: hash_from_bytes(sig, 0), s: hash_from_bytes(sig, 32) })
        }
    }

    /// What a proposal attempt at `now` left: a refusal names the check that the built
    /// proposal failed; a success appended that proposal, returned a copy of it, and is
    /// owed whenever `proposal_owed` holds unless the chain refused the block.
    pub open spec fn proposal_result(&self, old: Blockchain, new: Blockchain, now: i64, coinbase_id: u128, r: Result<Block, ProposalError>) -> bool {
        &&& r matches Err(ProposalError::Rejected(e)) ==> exists|b: Block| self.is_proposal(old, now, coinbase_id, b)
            && old.validation(b) == Err::<(), EthError>(e)
        &&& r matches Ok(b) ==> exists|b0: Block| {
            &&& self.is_proposal(old, now, coinbase_id, b0)
            &&& old.validation(b0) is Ok
            &&& new.chain().subrange(0, old.chain().len() + 1 as int) == old.chain().push(b0)
            &&& b.header == b0.header
            &&& b.signature == b0.signature
            &&& same_transactions(b.transactions@, b0.transactions@)
        }
        &&& self.proposal_owed(old, now, coinbase_id) ==> (r is Ok || r matches Err(ProposalError::Rejected(_)))
    }

    /// A proposal is owed: the lottery names this validator, the fees fit a coinbase
    /// output, and the header can be signed.
    pub open spec fn proposal_owed(&self, chain: Blockchain, now: i64, coinbase_id: u128) -> bool {
        &&& chain.expected_validator(tip_hash_of(chain.chain())) == Some(self.public_key_spec())
        &&& selection_fees(chain.utxo_view(), proposal_window(chain.pool())) <= u64::MAX
        &&& ecdsa_signs(enc_hash(header_hash(self.proposal_header(chain, now, coinbase_id))), enc_hash(self.private_key().scalar))
    }

    /// Assembles and signs a block on the tip at time `now`: a coinbase paying the
    /// selected fees to this validator (output id `coinbase_id`), then the selected
    /// mempool transactions.
    pub fn build_block_at(&self, chain: &Blockchain, now: i64, coinbase_id: u128) -> (r: Result<Block, ProposalError>)
        requires
            chain.wf(),
        ensures
            chain.expected_validator(tip_hash_of(chain.chain())) != Some(self.public_key_spec()) ==> r
                == Err::<Block, ProposalError>(ProposalError::NotOurTurn),
            chain.expected_validator(tip_hash_of(chain.chain())) == Some(self.public_key_spec())
                && selection_fees(chain.utxo_view(), proposal_window(chain.pool())) > u64::MAX ==> r
                == Err::<Block, ProposalError>(ProposalError::FeeOverflow),
            self.proposal_owed(*chain, now, coinbase_id) ==> r is Ok,
            !(r matches Err(ProposalError::Rejected(_))),
            r matches Ok(b) ==> self.is_proposal(*chain, now, coinbase_id, b),
    {
        if !self.is_our_turn(chain) {
            return Err(ProposalError::NotOurTurn);
        }
        let (selected, fees) = match select_transactions(chain) {
            Some(x) => x,
            None => {
                return Err(ProposalError::FeeOverflow);
            },
        };
        let coinbase_out = TransactionOutput {
            unique_id: coinbase_id,
            value: fees,
            pubkey: self.public_key,
            is_stake: false,
            locked_until: 0,
        };
        let mut outs: Vec<TransactionOutput> = Vec::new();
        outs.push(coinbase_out);
        let coinbase = Transaction { inputs: Vec::new(), outputs: outs };
        let mut transactions: Vec<Transaction> = Vec::new();
        transactions.push(coinbase);
        let mut rest = selected;
        let ghost sel = rest@;
        transactions.append(&mut rest);
        assert(transactions@.subrange(1, transactions@.len() as int) == sel);
        let merkle = calculate_merkle_root(&transactions);
        proof {
            let want = seq![view_hash(Seq::empty(), seq![self.coinbase_output(*chain, coinbase_id)])]
                + selection(chain.utxo_view(), proposal_window(chain.pool())).map_values(
                |t: Transaction| view_hash(t.inputs@, t.outputs@),
            );
            assert forall|k: int| 0 <= k < transactions@.len() implies transaction_hashes(transactions@)[k] == want[k] by {
                lemma_transaction_hash_views(transactions@[k]);
                if k == 0 {
                    assert(transactions@[0].inputs@ =~= Seq::<TransactionInput>::empty());
                } else {
                    assert(transactions@[k] == sel[k - 1]);
                }
            }
            assert(transaction_hashes(transactions@) =~= want);
        }
        let header = BlockHeader {
            timestamp: now,
            prev_block_hash: chain.tip_hash(),
            merkle_root: merkle,
            validator: self.public_key,
        };
        let signature = match Signature::sign_output(&header.hash(), &self.private_key) {
            Some(s) => s,
            None => {
                return Err(ProposalError::SigningFailed);
            },
        };
        Ok(Block { header, transactions, signature })
    }

    /// Builds a block on the tip, checks it, appends it to `chain` and rebuilds the
    /// index; the block comes back for broadcast. On any error the chain is unchanged.
    pub fn propose_block_at(&mut self, chain: &mut Blockchain, now: i64, coinbase_id: u128) -> (r: Result<Block, ProposalError>)
        requires
            old(chain).wf(),
        ensures
            final(chain).wf(),
            final(self).private_key() == old(self).private_key(),
            final(self).public_key_spec() == old(self).public_key_spec(),
            old(chain).expected_validator(tip_hash_of(old(chain).chain())) != Some(old(self).public_key_spec()) ==> r
                == Err::<Block, ProposalError>(ProposalError::NotOurTurn),
            r is Err ==> same_state(*final(chain), *old(chain)),
            old(self).proposal_result(*old(chain), *final(chain), now, coinbase_id, r),
            r is Ok ==> final(chain).utxo_view() == apply_blocks(Map::empty(), final(chain).chain()),
            old(self).proposal_owed(*old(chain), now, coinbase_id) ==> (r is Ok || r matches Err(ProposalError::Rejected(_))),
    {
        let block = match self.build_block_at(chain, now, coinbase_id) {
            Ok(b) => b,
            Err(e) => {
                return Err(e);
            },
        };
        match chain.validate_block(&block) {
            Err(e) => {
                return Err(ProposalError::Rejected(e));
            },
            Ok(()) => {},
        }
        let copy = block.copy();
        let ghost b0 = block;
        match chain.add_block(block) {
            Err(e) => {
                return Err(ProposalError::Rejected(e));
            },
            Ok(()) => {},
        }
        chain.rebuild_utxos();
        if self.blocks_proposed < u64::MAX {
            self.blocks_proposed = self.blocks_proposed + 1;
        }
        assert(same_transactions(copy.transactions@, b0.transactions@));
        Ok(copy)
    }

    /// `propose_block_at` with the current time and a fresh coinbase identifier.
    pub fn propose_block(&mut self, chain: &mut Blockchain) -> (r: Result<Block, ProposalError>)
        requires
            old(chain).wf(),
        ensures
            final(chain).wf(),
            old(chain).expected_validator(tip_hash_of(old(chain).chain())) != Some(old(self).public_key_spec()) ==> r
                == Err::<Block, ProposalError>(ProposalError::NotOurTurn),
            r is Err ==> same_state(*final(chain), *old(chain)),
            exists|now: i64, coinbase_id: u128| old(self).proposal_result(*old(chain), *final(chain), now, coinbase_id, r),
    {
        let now = now_millis();
        let id = fresh_unique_id();
        let r = self.propose_block_at(chain, now, id);
        assert(old(self).proposal_result(*old(chain), *chain, now, id, r));
        r
    }
}


/// The genesis allocation of one validator: a spendable share of the supply and the
/// minimum stake, locked for the first 100 blocks.
pub open spec fn genesis_outputs(validators: Seq<PublicKey>, shares: u64, ids: Seq<u128>) -> Seq<TransactionOutput>
    decreases validators.len(),
{
    if validators.len() == 0 {
        seq![]
    } else {
        let k = validators.len() - 1;
        genesis_outputs(validators.drop_last(), shares, ids).push(TransactionOutput {
            unique_id: ids[2 * k],
            value: (crate::blockchain::TOTAL_SUPPLY_CAP / shares) as u64,
            pubkey: validators[k],
            is_stake: false,
            locked_until: 0,
        }).push(TransactionOutput {
            unique_id: ids[2 * k + 1],
            value: crate::stake::STAKE_MINIMUM_AMOUNT,
            pubkey: validators[k],
            is_stake: true,
            locked_until: 100,
        })
    }
}

/// The header of the genesis block: no predecessor, the merkle root of its one coinbase.
pub open spec fn genesis_header(validators: Seq<PublicKey>, shares: u64, ids: Seq<u128>, now: i64, signer_key: PublicKey) -> BlockHeader {
    BlockHeader {
        timestamp: now,
        prev_block_hash: Hash256::zero_spec(),
        merkle_root: merkle_of(seq![view_hash(Seq::empty(), genesis_outputs(validators, shares, ids))]),
        validator: signer_key,
    }
}

/// The genesis block at time `now`: one coinbase holding `genesis_outputs`, no
/// predecessor, proposed and signed by `signer`. `shares` divides the supply; `ids`
/// holds two fresh output ids per validator. `None` when `signer` cannot sign.
pub fn create_genesis_block(
    validators: &Vec<PublicKey>,
    shares: u64,
    ids: &Vec<u128>,
    now: i64,
    signer: &PrivateKey,
    signer_key: PublicKey,
) -> (r: Option<Block>)
    requires
        shares > 0,
        ids@.len() >= 2 * validators@.len(),
    ensures
        r is Some <==> ecdsa_signs(
            enc_hash(header_hash(genesis_header(validators@, shares, ids@, now, signer_key))),
            enc_hash(signer.scalar),
        ),
        r matches Some(b) ==> {
            &&& b.header == genesis_header(validators@, shares, ids@, now, signer_key)
            &&& b.transactions@.len() == 1
            &&& b.transactions@[0].inputs@.len() == 0
            &&& b.transactions@[0].outputs@ == genesis_outputs(validators@, shares, ids@)
            &&& b.header == (BlockHeader {
                timestamp: now,
                prev_block_hash: Hash256::zero_spec(),
                merkle_root: merkle_root(b.transactions@),
                validator: signer_key,
            })
        },
{
    let mut outputs: Vec<TransactionOutput> = Vec::new();
    let n_ids: usize = ids.len();
    let mut k: usize = 0;
    while k < validators.len()
        invariant
            n_ids == ids@.len(),
            k <= validators@.len(),
            shares > 0,
            ids@.len() >= 2 * validators@.len(),
            outputs@ == genesis_outputs(validators@.subrange(0, k as int), shares, ids@),
        decreases validators.len() - k,
    {
        assert(validators@.subrange(0, k + 1).drop_last() == validators@.subrange(0, k as int));
        let pk = validators[k];
        outputs.push(TransactionOutput {
            unique_id: ids[2 * k],
            value: crate::blockchain::TOTAL_SUPPLY_CAP / shares,
            pubkey: pk,
            is_stake: false,
            locked_until: 0,
        });
        outputs.push(TransactionOutput {
            unique_id: ids[2 * k + 1],
            value: crate::stake::STAKE_MINIMUM_AMOUNT,
            pubkey: pk,
            is_stake: true,
            locked_until: 100,
        });
        k = k + 1;
    }
    assert(validators@.subrange(0, k as int) == validators@);
    let mut transactions: Vec<Transaction> = Vec::new();
    transactions.push(Transaction { inputs: Vec::new(), outputs });
    let merkle = calculate_merkle_root(&transactions);
    proof {
        lemma_transaction_hash_views(transactions@[0]);
        assert(transactions@[0].inputs@ =~= Seq::<TransactionInput>::empty());
        assert(transaction_hashes(transactions@) =~= seq![view_hash(Seq::empty(), genesis_outputs(validators@, shares, ids@))]);
    }
    let header = BlockHeader { timestamp: now, prev_block_hash: Hash256::zero(), merkle_root: merkle, validator: signer_key };
    match Signature::sign_output(&header.hash(), signer) {
        Some(signature) => Some(Block { header, transactions, signature }),
        None => None,
    }
}

} // verus!
