use poslib::blockchain::Blockchain;
use poslib::decode::{decode_block, decode_transaction, encode_block, encode_transaction};
use poslib::merkle::calculate_merkle_root;
use poslib::network::{frame, frame_length, handle_message, longest_chain_peer, slashing_reason, Action, Message};
use poslib::proposer::create_genesis_block;
use poslib::stake::SlashingReason;
use poslib::types::{Hash256, PrivateKey, PublicKey, Signature, Transaction, TransactionInput, TransactionOutput};
use poslib::wallet::{build_transaction, select_inputs, Funding, WalletError};

const COIN: u64 = 100_000_000;

fn key(n: u64) -> PrivateKey {
    PrivateKey { scalar: Hash256 { w0: 0, w1: 0, w2: 0, w3: n } }
}

fn public(n: u64) -> PublicKey {
    key(n).public_key().unwrap()
}

fn out(id: u128, value: u64, owner: PublicKey, is_stake: bool, locked_until: u64) -> TransactionOutput {
    TransactionOutput { unique_id: id, value, pubkey: owner, is_stake, locked_until }
}

fn chain_with(extra: Vec<TransactionOutput>) -> Blockchain {
    let mut outputs = vec![out(1, 2000 * COIN, public(1), true, 1_000_000)];
    outputs.extend(extra);
    let transactions = vec![Transaction::new(vec![], outputs)];
    let header = poslib::types::BlockHeader::new(1_000, Hash256::zero(), calculate_merkle_root(&transactions), public(1));
    let block = poslib::types::Block::new(header, transactions, Signature::sign_output(&header.hash(), &key(1)).unwrap());
    let mut chain = Blockchain::new();
    chain.add_block(block).unwrap();
    chain.rebuild_utxos();
    chain
}

fn spend(prev: &TransactionOutput, owner: u64, outputs: Vec<TransactionOutput>) -> Transaction {
    let h = prev.hash();
    Transaction::new(vec![TransactionInput { prev_transaction_output_hash: h, signature: Signature::sign_output(&h, &key(owner)).unwrap() }], outputs)
}

#[test]
fn frames_carry_little_endian_length() {
    let f = frame(&vec![7, 8, 9]);
    assert_eq!(f, vec![3, 0, 0, 0, 0, 0, 0, 0, 7, 8, 9]);
    assert_eq!(frame_length(&f[0..8]), 3);
    assert_eq!(frame_length(&[0, 1, 0, 0, 0, 0, 0, 1]), 256 + (1u64 << 56));
}

#[test]
fn client_only_messages_close() {
    let mut chain = chain_with(vec![]);
    assert!(matches!(handle_message(&mut chain, Message::Difference(3), &vec![], 0, 0), Action::Close));
    assert!(matches!(handle_message(&mut chain, Message::NodeList(vec![]), &vec![], 0, 0), Action::Close));
}

#[test]
fn height_queries() {
    let mut chain = chain_with(vec![]);
    assert!(matches!(handle_message(&mut chain, Message::AskDifference(0), &vec![], 0, 0), Action::Reply(Message::Difference(1))));
    assert!(matches!(handle_message(&mut chain, Message::AskDifference(5), &vec![], 0, 0), Action::Reply(Message::Difference(-4))));
    assert!(matches!(handle_message(&mut chain, Message::FetchBlockHeight, &vec![], 0, 0), Action::Reply(Message::BlockHeight(1))));
    assert!(matches!(handle_message(&mut chain, Message::FetchBlock(1), &vec![], 0, 0), Action::Close));
    match handle_message(&mut chain, Message::FetchBlock(0), &vec![], 0, 0) {
        Action::Reply(Message::NewBlock(b)) => assert_eq!(b.hash(), chain.tip_hash()),
        _ => panic!("expected the genesis block"),
    }
}

#[test]
fn fetch_utxos_reports_marks() {
    let u = out(5, 100, public(4), false, 0);
    let mut chain = chain_with(vec![u]);
    assert!(matches!(
        handle_message(&mut chain, Message::NewTransaction(spend(&u, 4, vec![out(6, 90, public(5), false, 0)])), &vec![], 10, 0),
        Action::Continue
    ));
    match handle_message(&mut chain, Message::FetchUTXOs(public(4)), &vec![], 0, 0) {
        Action::Reply(Message::UTXOs(list)) => assert_eq!(list, vec![(u, true)]),
        _ => panic!("expected UTXOs"),
    }
}

#[test]
fn rejected_transaction_closes() {
    let mut chain = chain_with(vec![]);
    let ghost = out(9, 100, public(4), false, 0);
    assert!(matches!(handle_message(&mut chain, Message::SubmitTransaction(spend(&ghost, 4, vec![])), &vec![], 0, 0), Action::Close));
}

#[test]
fn submitted_transaction_is_gossiped() {
    let u = out(5, 100, public(4), false, 0);
    let mut chain = chain_with(vec![u]);
    let tx = spend(&u, 4, vec![out(6, 90, public(5), false, 0)]);
    match handle_message(&mut chain, Message::SubmitTransaction(tx.clone()), &vec![], 0, 0) {
        Action::Gossip(Message::NewTransaction(t)) => assert_eq!(t, tx),
        _ => panic!("expected gossip"),
    }
}

#[test]
fn template_pays_reward_and_fees() {
    let u = out(5, 100, public(4), false, 0);
    let mut chain = chain_with(vec![u]);
    chain.add_to_mempool_at(spend(&u, 4, vec![out(6, 90, public(5), false, 0)]), 0).unwrap();
    match handle_message(&mut chain, Message::FetchTemplate(public(1)), &vec![], 5_000, 77) {
        Action::Reply(Message::Template(b)) => {
            assert_eq!(b.transactions.len(), 2);
            assert_eq!(b.transactions[0].outputs[0].value, 50 * COIN + 10);
            assert_eq!(b.header.prev_block_hash, chain.tip_hash());
        },
        _ => panic!("expected a template"),
    }
    assert!(matches!(handle_message(&mut chain, Message::FetchTemplate(public(2)), &vec![], 5_000, 77), Action::Close));
    assert!(matches!(handle_message(&mut chain, Message::DiscoverNodes(9002), &vec![], 0, 0), Action::Discover(9002)));
}

#[test]
fn slashing_reason_by_substring() {
    assert_eq!(slashing_reason(&"double signing".to_string()), SlashingReason::DoubleSigning);
    assert_eq!(slashing_reason(&"offline".to_string()), SlashingReason::Downtime);
    let mut chain = chain_with(vec![]);
    assert!(matches!(
        handle_message(&mut chain, Message::SlashValidator(public(1), "double vote".to_string(), vec![]), &vec![], 0, 0),
        Action::Continue
    ));
    assert_eq!(chain.slashing_history()[0].penalty_amount, 200 * COIN as u128);
}

#[test]
fn wallet_selects_in_order_until_funded() {
    let a = out(1, 30, public(1), false, 0);
    let marked = out(2, 500, public(1), false, 0);
    let locked = out(3, 500, public(1), true, 50);
    let zero = out(4, 0, public(1), false, 0);
    let b = out(5, 40, public(1), false, 0);
    let c = out(6, 40, public(1), false, 0);
    let utxos = vec![(false, a), (true, marked), (false, locked), (false, zero), (false, b), (false, c)];
    let (chosen, sum) = select_inputs(&utxos, 10, Funding::Spendable, 60);
    assert_eq!(chosen, vec![a, b]);
    assert_eq!(sum, 70);
    let (stakes, total) = select_inputs(&utxos, 60, Funding::UnlockedStake, 1);
    assert_eq!(stakes, vec![locked]);
    assert_eq!(total, 500);
}

#[test]
fn wallet_builds_signed_payment_with_change() {
    let a = out(1, 30, public(1), false, 0);
    let b = out(2, 40, public(1), false, 0);
    let utxos = vec![(false, a), (false, b)];
    let keys = vec![(public(1), key(1))];
    let t = build_transaction(&utxos, &keys, 0, Funding::Spendable, public(2), 50, 5, false, 0, public(1), (10, 11)).unwrap();
    assert_eq!(t.inputs.len(), 2);
    assert_eq!(t.inputs[0].prev_transaction_output_hash, a.hash());
    assert!(t.inputs[1].signature.verify(&b.hash(), &public(1)));
    assert_eq!(t.outputs, vec![out(10, 50, public(2), false, 0), out(11, 15, public(1), false, 0)]);
    let err = build_transaction(&utxos, &keys, 0, Funding::Spendable, public(2), 70, 1, false, 0, public(1), (10, 11));
    assert_eq!(err, Err(WalletError::InsufficientFunds));
    let stake = build_transaction(&utxos, &keys, 0, Funding::Spendable, public(1), 70, 0, true, 100, public(1), (12, 13)).unwrap();
    assert_eq!(stake.outputs, vec![out(12, 70, public(1), true, 100)]);
    assert_eq!(build_transaction(&utxos, &vec![], 0, Funding::Spendable, public(2), 1, 0, false, 0, public(1), (1, 2)), Err(WalletError::MissingKey));
}

#[test]
fn genesis_allocates_supply_and_stake() {
    let b = create_genesis_block(&vec![public(1), public(2)], 2, &vec![1, 2, 3, 4], 1_000, &key(1), public(1)).unwrap();
    assert_eq!(b.transactions[0].outputs.len(), 4);
    assert_eq!(b.transactions[0].outputs[0].value, 1_050_000_000_000_000);
    assert_eq!(b.transactions[0].outputs[1], out(2, 1000 * COIN, public(1), true, 100));
    let mut chain = Blockchain::new();
    assert_eq!(chain.add_block(b), Ok(()));
    chain.rebuild_utxos();
    assert_eq!(chain.calculate_stakes().len(), 2);
}

#[test]
fn transaction_encoding_round_trips() {
    let u = out(5, 100, public(4), true, 77);
    let t = spend(&u, 4, vec![out(6, 90, public(5), false, 0), out(u128::MAX, 1, public(6), true, 12)]);
    let bytes = encode_transaction(&t);
    assert_eq!(bytes.len(), 8 + 96 + 8 + 2 * 66);
    assert_eq!(decode_transaction(&bytes), Some(t.clone()));
    let empty = Transaction::new(vec![], vec![]);
    assert_eq!(decode_transaction(&encode_transaction(&empty)), Some(empty));
    let mut bad_flag = bytes.clone();
    bad_flag[8 + 96 + 8 + 57] = 2;
    assert_eq!(decode_transaction(&bad_flag), None);
    assert_eq!(decode_transaction(&bytes[..bytes.len() - 1]), None);
    assert_eq!(decode_transaction(&[0u8; 3]), None);
}

#[test]
fn block_encoding_round_trips() {
    let u = out(5, 100, public(4), false, 0);
    let chain = chain_with(vec![u]);
    let genesis = chain.blocks()[0].clone();
    assert_eq!(decode_block(&encode_block(&genesis)), Some(genesis.clone()));
    let t = spend(&u, 4, vec![out(6, 90, public(5), false, 0)]);
    let coinbase = Transaction::new(vec![], vec![out(7, 10, public(1), false, 0)]);
    let txs = vec![coinbase, t];
    let header = poslib::types::BlockHeader::new(-5, chain.tip_hash(), calculate_merkle_root(&txs), public(1));
    let block = poslib::types::Block::new(header, txs, Signature::sign_output(&header.hash(), &key(1)).unwrap());
    let bytes = encode_block(&block);
    assert_eq!(decode_block(&bytes), Some(block.clone()));
    assert_eq!(decode_block(&bytes[..bytes.len() - 1]), None);
    assert_eq!(decode_block(&[]), None);
}

#[test]
fn wallet_balances_by_kind() {
    let utxos = vec![
        (false, out(1, 30, public(1), false, 0)),
        (true, out(2, 500, public(1), false, 0)),
        (false, out(3, 1000, public(1), true, 50)),
        (false, out(4, 7, public(1), true, 5)),
    ];
    assert_eq!(poslib::wallet::balance(&utxos, 10, poslib::wallet::BalanceKind::Spendable), 37);
    assert_eq!(poslib::wallet::balance(&utxos, 10, poslib::wallet::BalanceKind::ActiveStake), 1000);
    assert_eq!(poslib::wallet::balance(&utxos, 10, poslib::wallet::BalanceKind::UnlockedStake), 7);
    assert_eq!(poslib::wallet::balance(&vec![], 10, poslib::wallet::BalanceKind::Spendable), 0);
}

#[test]
fn sync_picks_first_longest_peer() {
    assert_eq!(longest_chain_peer(&vec![3, 7, 7, 2]), Some(1));
    assert_eq!(longest_chain_peer(&vec![0, -2]), None);
    assert_eq!(longest_chain_peer(&vec![]), None);
    assert_eq!(longest_chain_peer(&vec![-1, 1]), Some(1));
}
