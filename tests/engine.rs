use poslib::blockchain::{reward_at_height, Blockchain};
use poslib::crypto::hash_bytes;
use poslib::error::EthError;
use poslib::merkle::calculate_merkle_root;
use poslib::proposer::{BlockProposer, ProposalError};
use poslib::stake::{pick_validator, SlashingReason, StakeEntry};
use poslib::types::{Block, BlockHeader, Hash256, PrivateKey, PublicKey, Signature, Transaction, TransactionInput, TransactionOutput};

const COIN: u64 = 100_000_000;

fn key(n: u64) -> PrivateKey {
    PrivateKey { scalar: Hash256 { w0: 0, w1: 0, w2: 0, w3: n } }
}

fn public(n: u64) -> PublicKey {
    key(n).public_key().expect("valid scalar")
}

fn output(id: u128, value: u64, owner: PublicKey, is_stake: bool, locked_until: u64) -> TransactionOutput {
    TransactionOutput { unique_id: id, value, pubkey: owner, is_stake, locked_until }
}

fn genesis(outputs: Vec<TransactionOutput>, signer: u64) -> Block {
    let transactions = vec![Transaction::new(vec![], outputs)];
    let merkle_root = calculate_merkle_root(&transactions);
    let header = BlockHeader::new(1_000, Hash256::zero(), merkle_root, public(signer));
    let signature = Signature::sign_output(&header.hash(), &key(signer)).expect("signs");
    Block::new(header, transactions, signature)
}

fn spend(prev: &TransactionOutput, owner: u64, outputs: Vec<TransactionOutput>) -> Transaction {
    let h = prev.hash();
    let signature = Signature::sign_output(&h, &key(owner)).expect("signs");
    Transaction::new(vec![TransactionInput { prev_transaction_output_hash: h, signature }], outputs)
}

/// A chain whose genesis gives validator 1 a stake locked far ahead, plus `extra` outputs.
fn staked_chain(extra: Vec<TransactionOutput>) -> Blockchain {
    let mut outputs = vec![output(1, 2000 * COIN, public(1), true, 1_000_000)];
    outputs.extend(extra);
    let mut chain = Blockchain::new();
    chain.add_block(genesis(outputs, 1)).expect("genesis");
    chain.rebuild_utxos();
    chain
}

#[test]
fn halving_schedule() {
    assert_eq!(reward_at_height(0), 50 * COIN);
    assert_eq!(reward_at_height(209), 50 * COIN);
    assert_eq!(reward_at_height(210), 25 * COIN);
    assert_eq!(reward_at_height(420), 1_250_000_000);
    assert_eq!(reward_at_height(64 * 210), 0);
    assert_eq!(Blockchain::new().calculate_block_reward(), 50 * COIN);
}

#[test]
fn lottery_determinism() {
    let (a, b) = {
        let x = public(1);
        let y = public(2);
        if x.less_than(&y) { (x, y) } else { (y, x) }
    };
    let table = vec![
        StakeEntry { pubkey: a, amount: 3000 * COIN as u128 },
        StakeEntry { pubkey: b, amount: 2000 * COIN as u128 },
    ];
    let seed = Hash256 { w0: 1, w1: 0xffff, w2: 7, w3: 9 };
    assert_eq!(pick_validator(&table, &seed), Some(a));
    assert_eq!(pick_validator(&table, &seed), Some(a));
    let late = Hash256 { w0: 3000 * COIN, w1: 0, w2: 0, w3: 0 };
    assert_eq!(pick_validator(&table, &late), Some(b));
    let wrap = Hash256 { w0: 5000 * COIN + 1, w1: 0, w2: 0, w3: 0 };
    assert_eq!(pick_validator(&table, &wrap), Some(a));
    assert_eq!(pick_validator(&vec![], &seed), None);
}

#[test]
fn genesis_and_single_transfer() {
    let coin = output(10, 50 * COIN, public(1), false, 0);
    let chain_outputs = vec![coin];
    let mut chain = Blockchain::new();
    chain.add_block(genesis(chain_outputs, 1)).expect("genesis");
    chain.rebuild_utxos();
    assert_eq!(chain.block_height(), 1);
    let tx = spend(&coin, 1, vec![output(11, 49 * COIN, public(2), false, 0)]);
    assert_eq!(chain.add_to_mempool(tx), Ok(()));
    assert_eq!(chain.utxos().get(&coin.hash()), Some((true, coin)));
    assert_eq!(chain.mempool().len(), 1);
    assert_eq!(chain.mempool()[0].fee, COIN as u128);
    assert_eq!(chain.block_height(), 1);
}

#[test]
fn stake_lock_enforcement() {
    let stake = output(20, 1000 * COIN, public(1), true, 100);
    let mut chain = staked_chain(vec![stake]);
    let mut proposer = BlockProposer::new(key(1)).expect("valid key");
    let tx = || spend(&stake, 1, vec![output(21, 999 * COIN, public(1), false, 0)]);
    let mut now: i64 = 2_000;
    while chain.block_height() < 50 {
        proposer.propose_block_at(&mut chain, now, now as u128).expect("proposes");
        now += 1_000;
    }
    assert_eq!(chain.add_to_mempool_at(tx(), now), Err(EthError::StakeLocked));
    while chain.block_height() < 99 {
        proposer.propose_block_at(&mut chain, now, now as u128).expect("proposes");
        now += 1_000;
    }
    assert_eq!(chain.add_to_mempool_at(tx(), now), Err(EthError::StakeLocked));
    proposer.propose_block_at(&mut chain, now, now as u128).expect("proposes");
    assert_eq!(chain.block_height(), 100);
    assert_eq!(chain.add_to_mempool_at(tx(), now), Ok(()));
    assert_eq!(proposer.proposed_count(), 99);
}

#[test]
fn orphan_resolution() {
    let mut builder = staked_chain(vec![]);
    let mut main = staked_chain(vec![]);
    assert_eq!(builder.tip_hash(), main.tip_hash());
    let mut proposer = BlockProposer::new(key(1)).expect("valid key");
    let b1 = proposer.propose_block_at(&mut builder, 2_000, 101).expect("b1");
    let b2 = proposer.propose_block_at(&mut builder, 3_000, 102).expect("b2");
    let b3 = proposer.propose_block_at(&mut builder, 4_000, 103).expect("b3");
    assert_eq!(main.add_block(b3.clone()), Ok(()));
    assert_eq!(main.add_block(b2.clone()), Ok(()));
    assert_eq!(main.block_height(), 1);
    assert_eq!(main.orphans().len(), 2);
    assert_eq!(main.add_block(b1.clone()), Ok(()));
    assert_eq!(main.block_height(), 4);
    assert_eq!(main.tip_hash(), b3.hash());
    assert_eq!(main.orphans().len(), 0);
}

#[test]
fn same_block_twice_parks_second() {
    let mut builder = staked_chain(vec![]);
    let mut main = staked_chain(vec![]);
    let mut proposer = BlockProposer::new(key(1)).expect("valid key");
    let b1 = proposer.propose_block_at(&mut builder, 2_000, 7).expect("b1");
    assert_eq!(main.add_block(b1.clone()), Ok(()));
    assert_eq!(main.block_height(), 2);
    assert_eq!(main.add_block(b1.clone()), Ok(()));
    assert_eq!(main.block_height(), 2);
    assert_eq!(main.orphans().len(), 1);
}

#[test]
fn mempool_supersession() {
    let u = output(30, 100, public(4), false, 0);
    let mut chain = staked_chain(vec![u]);
    let t1 = spend(&u, 4, vec![output(31, 90, public(5), false, 0)]);
    let t2 = spend(&u, 4, vec![output(32, 50, public(5), false, 0)]);
    assert_eq!(chain.add_to_mempool_at(t1, 10), Ok(()));
    assert_eq!(chain.add_to_mempool_at(t2.clone(), 20), Ok(()));
    assert_eq!(chain.mempool().len(), 1);
    assert_eq!(chain.mempool()[0].fee, 50);
    assert_eq!(chain.mempool()[0].transaction, t2);
    assert_eq!(chain.utxos().get(&u.hash()), Some((true, u)));
}

#[test]
fn mempool_orders_by_fee_descending() {
    let u = output(40, 100, public(4), false, 0);
    let v = output(41, 100, public(4), false, 0);
    let mut chain = staked_chain(vec![u, v]);
    assert_eq!(chain.add_to_mempool_at(spend(&u, 4, vec![output(42, 95, public(5), false, 0)]), 10), Ok(()));
    assert_eq!(chain.add_to_mempool_at(spend(&v, 4, vec![output(43, 60, public(5), false, 0)]), 20), Ok(()));
    assert_eq!(chain.mempool()[0].fee, 40);
    assert_eq!(chain.mempool()[1].fee, 5);
}

#[test]
fn mempool_rejections() {
    let u = output(50, 100, public(4), false, 0);
    let mut chain = staked_chain(vec![u]);
    let missing = output(51, 100, public(4), false, 0);
    assert_eq!(chain.add_to_mempool_at(spend(&missing, 4, vec![]), 1), Err(EthError::InvalidTransaction));
    let mut twice = spend(&u, 4, vec![]);
    twice.inputs.push(twice.inputs[0]);
    assert_eq!(chain.add_to_mempool_at(twice, 1), Err(EthError::InvalidTransaction));
    let greedy = spend(&u, 4, vec![output(52, 101, public(5), false, 0)]);
    assert_eq!(chain.add_to_mempool_at(greedy, 1), Err(EthError::InvalidTransaction));
    assert_eq!(chain.mempool().len(), 0);
}

#[test]
fn eviction_unmarks_claimed_outputs() {
    let u = output(60, 100, public(4), false, 0);
    let mut chain = staked_chain(vec![u]);
    assert_eq!(chain.add_to_mempool_at(spend(&u, 4, vec![output(61, 90, public(5), false, 0)]), 0), Ok(()));
    chain.clean_mempool_at(600_000);
    assert_eq!(chain.mempool().len(), 1);
    assert_eq!(chain.utxos().get(&u.hash()), Some((true, u)));
    chain.clean_mempool_at(600_001);
    assert_eq!(chain.mempool().len(), 0);
    assert_eq!(chain.utxos().get(&u.hash()), Some((false, u)));
}

#[test]
fn double_spend_within_block_rejected() {
    let u = output(70, 100, public(4), false, 0);
    let chain = staked_chain(vec![u]);
    let coinbase = Transaction::new(vec![], vec![output(71, 0, public(1), false, 0)]);
    let a = spend(&u, 4, vec![output(72, 100, public(5), false, 0)]);
    let b = spend(&u, 4, vec![output(73, 100, public(6), false, 0)]);
    let transactions = vec![coinbase, a, b];
    let header = BlockHeader::new(5_000, chain.tip_hash(), calculate_merkle_root(&transactions), public(1));
    let block = Block::new(header, transactions, Signature::sign_output(&header.hash(), &key(1)).unwrap());
    assert_eq!(block.verify_transactions(chain.utxos()), Err(EthError::InvalidTransaction));
}

#[test]
fn block_checks_in_order() {
    let u = output(80, 100, public(4), false, 0);
    let chain = staked_chain(vec![u]);
    let spend_u = spend(&u, 4, vec![output(81, 70, public(5), false, 0)]);
    let coinbase = Transaction::new(vec![], vec![output(82, 30, public(1), false, 0)]);
    let transactions = vec![coinbase, spend_u];
    let root = calculate_merkle_root(&transactions);
    let header = BlockHeader::new(5_000, chain.tip_hash(), root, public(1));
    let good = Block::new(header, transactions.clone(), Signature::sign_output(&header.hash(), &key(1)).unwrap());
    assert_eq!(good.calculate_miner_fees(chain.utxos()), Ok(30));
    assert_eq!(chain.validate_block(&good), Ok(()));
    let other = BlockHeader::new(5_000, chain.tip_hash(), root, public(2));
    let wrong_validator = Block::new(other, transactions.clone(), Signature::sign_output(&other.hash(), &key(2)).unwrap());
    assert_eq!(chain.validate_block(&wrong_validator), Err(EthError::InvalidValidator));
    let bad_sig = Block::new(header, transactions.clone(), Signature::sign_output(&header.hash(), &key(2)).unwrap());
    assert_eq!(chain.validate_block(&bad_sig), Err(EthError::InvalidSignature));
    let wrong_root = BlockHeader::new(5_000, chain.tip_hash(), Hash256::zero(), public(1));
    let bad_root = Block::new(wrong_root, transactions.clone(), Signature::sign_output(&wrong_root.hash(), &key(1)).unwrap());
    assert_eq!(chain.validate_block(&bad_root), Err(EthError::InvalidMerkleRoot));
    let early = BlockHeader::new(1_000, chain.tip_hash(), root, public(1));
    let too_early = Block::new(early, transactions.clone(), Signature::sign_output(&early.hash(), &key(1)).unwrap());
    assert_eq!(chain.validate_block(&too_early), Err(EthError::InvalidBlock));
    let empty = Block::new(header, vec![], Signature::sign_output(&header.hash(), &key(1)).unwrap());
    assert_eq!(empty.verify_transactions(chain.utxos()), Err(EthError::InvalidBlock));
}

#[test]
fn slashing_records_penalties() {
    let mut chain = staked_chain(vec![]);
    let stakes = chain.calculate_stakes();
    assert_eq!(stakes.len(), 1);
    assert_eq!(stakes[0].amount, 2000 * COIN as u128);
    assert_eq!(chain.slash_validator(&public(1), SlashingReason::DoubleSigning), Ok(200 * COIN as u128));
    assert!(chain.is_validator_slashed(&public(1)));
    assert_eq!(chain.slashing_history().len(), 1);
    assert_eq!(chain.calculate_stakes()[0].amount, 1800 * COIN as u128);
    assert_eq!(chain.slash_validator(&public(1), SlashingReason::Downtime), Ok(18 * COIN as u128));
    assert_eq!(chain.slash_validator(&public(2), SlashingReason::Downtime), Err(EthError::InvalidValidator));
    assert!(!chain.is_validator_slashed(&public(2)));
    assert_eq!(chain.get_effective_stake(&public(1)), 1782 * COIN as u128);
    assert_eq!(chain.get_effective_stake(&public(2)), 0);
}

#[test]
fn next_validator_needs_stake() {
    let chain = staked_chain(vec![]);
    assert_eq!(chain.get_next_validator(&chain.tip_hash()), Some(public(1)));
    let empty = Blockchain::new();
    assert_eq!(empty.get_next_validator(&Hash256::zero()), None);
    let proposer = BlockProposer::new(key(2)).unwrap();
    assert!(!proposer.is_our_turn(&chain));
    assert_eq!(proposer.build_block_at(&chain, 9_000, 1).unwrap_err(), ProposalError::NotOurTurn);
}

#[test]
fn proposal_collects_fees() {
    let u = output(90, 100, public(4), false, 0);
    let mut chain = staked_chain(vec![u]);
    assert_eq!(chain.add_to_mempool_at(spend(&u, 4, vec![output(91, 75, public(5), false, 0)]), 10), Ok(()));
    let mut proposer = BlockProposer::new(key(1)).unwrap();
    let block = proposer.propose_block_at(&mut chain, 9_000, 5).expect("proposes");
    assert_eq!(block.transactions.len(), 2);
    assert_eq!(block.transactions[0].outputs[0].value, 25);
    assert_eq!(chain.block_height(), 2);
    assert_eq!(chain.mempool().len(), 0);
    assert!(chain.utxos().get(&u.hash()).is_none());
}

#[test]
fn sha256_digest_of_abc() {
    let h = hash_bytes(b"abc");
    assert_eq!(h.w0, 0xba7816bf8f01cfea);
    assert_eq!(h.w3, 0xb410ff61f20015ad);
    assert_eq!(Hash256::from_bytes(&h.to_bytes()), h);
}

#[test]
fn signatures_verify_only_under_their_key() {
    let h = hash_bytes(b"message");
    let sig = Signature::sign_output(&h, &key(7)).unwrap();
    assert!(sig.verify(&h, &public(7)));
    assert!(!sig.verify(&h, &public(8)));
    assert!(!sig.verify(&hash_bytes(b"other"), &public(7)));
    assert!(PrivateKey { scalar: Hash256::zero() }.public_key().is_none());
}

#[test]
fn output_identity_includes_unique_id() {
    let a = output(1, 5, public(1), false, 0);
    let b = output(2, 5, public(1), false, 0);
    assert_ne!(a.hash(), b.hash());
    assert_eq!(a.hash(), output(1, 5, public(1), false, 0).hash());
}

#[test]
fn merkle_root_shapes() {
    assert_eq!(calculate_merkle_root(&vec![]), Hash256::zero());
    let t = Transaction::new(vec![], vec![output(1, 5, public(1), false, 0)]);
    assert_eq!(calculate_merkle_root(&vec![t.clone()]), t.hash());
    let u = Transaction::new(vec![], vec![output(2, 5, public(1), false, 0)]);
    assert_ne!(calculate_merkle_root(&vec![t.clone(), u.clone()]), calculate_merkle_root(&vec![u, t]));
}

#[test]
fn rebuild_is_idempotent() {
    let u = output(95, 100, public(4), false, 0);
    let mut chain = staked_chain(vec![u]);
    let before = chain.utxos().entries.clone();
    chain.rebuild_utxos();
    assert_eq!(chain.utxos().entries, before);
    assert_eq!(chain.utxos().len(), 2);
}

#[test]
fn refused_transaction_keeps_older_claim() {
    let u = output(200, 100, public(4), false, 0);
    let mut chain = staked_chain(vec![u]);
    let t1 = spend(&u, 4, vec![output(201, 90, public(5), false, 0)]);
    let greedy = spend(&u, 4, vec![output(202, 150, public(5), false, 0)]);
    assert_eq!(chain.add_to_mempool_at(t1.clone(), 10), Ok(()));
    assert_eq!(chain.add_to_mempool_at(greedy, 20), Err(EthError::InvalidTransaction));
    assert_eq!(chain.mempool().len(), 1);
    assert_eq!(chain.mempool()[0].transaction, t1);
    assert_eq!(chain.utxos().get(&u.hash()), Some((true, u)));
}

#[test]
fn eviction_keeps_mark_of_live_claim() {
    let u = output(210, 100, public(4), false, 0);
    let mut chain = staked_chain(vec![u]);
    assert_eq!(chain.add_to_mempool_at(spend(&u, 4, vec![output(211, 90, public(5), false, 0)]), 0), Ok(()));
    chain.rebuild_utxos();
    assert_eq!(chain.utxos().get(&u.hash()), Some((false, u)));
    assert_eq!(chain.add_to_mempool_at(spend(&u, 4, vec![output(212, 80, public(5), false, 0)]), 500_000), Ok(()));
    assert_eq!(chain.mempool().len(), 2);
    chain.clean_mempool_at(700_000);
    assert_eq!(chain.mempool().len(), 1);
    assert_eq!(chain.utxos().get(&u.hash()), Some((true, u)));
    chain.clean_mempool_at(1_200_000);
    assert_eq!(chain.mempool().len(), 0);
    assert_eq!(chain.utxos().get(&u.hash()), Some((false, u)));
}

#[test]
fn genesis_needs_its_merkle_root() {
    let transactions = vec![Transaction::new(vec![], vec![output(1, 5, public(1), false, 0)])];
    let header = BlockHeader::new(1_000, Hash256::zero(), Hash256::zero(), public(1));
    let block = Block::new(header, transactions, Signature::sign_output(&header.hash(), &key(1)).unwrap());
    let mut chain = Blockchain::new();
    assert_eq!(chain.add_block(block), Err(EthError::InvalidMerkleRoot));
    assert_eq!(chain.block_height(), 0);
}

#[test]
fn rebuild_starts_from_the_chain() {
    let u = output(220, 100, public(4), false, 0);
    let mut chain = staked_chain(vec![u]);
    assert_eq!(chain.add_to_mempool_at(spend(&u, 4, vec![output(221, 90, public(5), false, 0)]), 0), Ok(()));
    assert_eq!(chain.utxos().get(&u.hash()), Some((true, u)));
    chain.rebuild_utxos();
    assert_eq!(chain.utxos().get(&u.hash()), Some((false, u)));
    assert_eq!(chain.utxos().len(), 2);
}
