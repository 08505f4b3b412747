//! Wallet settings: key files, contacts and the fee policy.
use vstd::prelude::*;
use crate::crypto::output_hash;
use crate::types::{sum_values, PrivateKey, PublicKey, Signature, Transaction, TransactionInput, TransactionOutput};

verus! {

/// The files of one of the wallet's key pairs.
#[derive(Clone, Debug, PartialEq, Eq)]
pub struct Key {
    pub public: String,
    pub private: String,
}

/// A contact: a name and the file of its public key.
#[derive(Clone, Debug, PartialEq, Eq)]
pub struct Recipient {
    pub name: String,
    pub key: String,
}

#[derive(Clone, Copy, Debug, PartialEq, Eq, Structural)]
pub enum FeeType {
    Fixed,
    Percent,
}


/// Which of the wallet's outputs a transaction may spend.
#[derive(Clone, Copy, Debug, PartialEq, Eq, Structural)]
pub enum Funding {
    /// Unmarked, non-zero outputs that are not stakes still locked.
    Spendable,
    /// Unmarked, non-zero stakes whose lock has passed.
    UnlockedStake,
}

pub open spec fn usable(marked: bool, o: TransactionOutput, height: u64, funding: Funding) -> bool {
    !marked && o.value != 0 && match funding {
        Funding::Spendable => !(o.is_stake && o.locked_until > height),
        Funding::UnlockedStake => o.is_stake && o.locked_until <= height,
    }
}

/// The outputs taken in order, from `i` on, until their values reach `total`.
pub open spec fn picked(
    s: Seq<(bool, TransactionOutput)>,
    height: u64,
    funding: Funding,
    total: int,
    i: int,
    acc: int,
) -> Seq<TransactionOutput>
    decreases s.len() - i,
{
    if i < 0 || i >= s.len() || acc >= total {
        seq![]
    } else if usable(s[i].0, s[i].1, height, funding) {
        seq![s[i].1] + picked(s, height, funding, total, i + 1, acc + s[i].1.value)
    } else {
        picked(s, height, funding, total, i + 1, acc)
    }
}

/// The outputs that fund `total`: taken in order among the usable ones until their
/// values reach it, with their sum.
pub fn select_inputs(
    utxos: &Vec<(bool, TransactionOutput)>,
    height: u64,
    funding: Funding,
    total: u128,
) -> (r: (Vec<TransactionOutput>, u128))
    ensures
        r.0@ == picked(utxos@, height, funding, total as int, 0, 0),
        r.1 == sum_values(r.0@),
{
    let mut chosen: Vec<TransactionOutput> = Vec::new();
    let mut acc: u128 = 0;
    let mut i: usize = 0;
    while i < utxos.len()
        invariant
            i <= utxos@.len(),
            acc == sum_values(chosen@),
            acc <= i * 0xffff_ffff_ffff_ffffu128,
            chosen@ + picked(utxos@, height, funding, total as int, i as int, acc as int) == picked(
                utxos@,
                height,
                funding,
                total as int,
                0,
                0,
            ),
        ensures
            i >= utxos@.len() || acc >= total,
        decreases utxos.len() - i,
    {
        if acc >= total {
            break;
        }
        let (marked, o) = utxos[i];
        let ok = !marked && o.value != 0 && match funding {
            Funding::Spendable => !(o.is_stake && o.locked_until > height),
            Funding::UnlockedStake => o.is_stake && o.locked_until <= height,
        };
        if ok {
            let ghost before = chosen@;
            chosen.push(o);
            assert(chosen@.drop_last() == before);
            assert(before + (seq![o] + picked(utxos@, height, funding, total as int, i + 1, acc + o.value))
                == chosen@ + picked(utxos@, height, funding, total as int, i + 1, acc + o.value));
            acc = acc + o.value as u128;
        }
        i = i + 1;
    }
    assert(picked(utxos@, height, funding, total as int, i as int, acc as int) == Seq::<TransactionOutput>::empty());
    assert(chosen@ + Seq::<TransactionOutput>::empty() == chosen@);
    (chosen, acc)
}


#[derive(Clone, Copy, Debug, PartialEq, Eq, Structural)]
pub enum WalletError {
    /// The usable outputs do not reach amount plus fee.
    InsufficientFunds,
    /// No private key of the wallet owns a chosen output, or it cannot sign.
    MissingKey,
    /// The change does not fit an output value.
    ChangeOverflow,
}

/// The wallet holds no key for the output's owner, or a key it holds for the owner
/// cannot sign the output's hash.
pub open spec fn cannot_sign(keys: Seq<(PublicKey, PrivateKey)>, o: TransactionOutput) -> bool {
    ||| forall|j: int| 0 <= j < keys.len() ==> keys[j].0 != o.pubkey
    ||| exists|j: int| 0 <= j < keys.len() && keys[j].0 == o.pubkey && !crate::crypto::ecdsa_signs(
        crate::codec::enc_hash(output_hash(o)),
        crate::codec::enc_hash(keys[j].1.scalar),
    )
}

/// The private key that the wallet holds for `pk`, if any.
pub fn key_for(keys: &Vec<(PublicKey, PrivateKey)>, pk: &PublicKey) -> (r: Option<PrivateKey>)
    ensures
        r matches Some(k) ==> exists|i: int| 0 <= i < keys@.len() && keys@[i] == (*pk, k),
        r is None ==> forall|i: int| 0 <= i < keys@.len() ==> keys@[i].0 != *pk,
{
    let mut i: usize = 0;
    while i < keys.len()
        invariant
            i <= keys@.len(),
            forall|q: int| 0 <= q < i ==> keys@[q].0 != *pk,
        decreases keys.len() - i,
    {
        if keys[i].0 == *pk {
            return Some(keys[i].1);
        }
        i = i + 1;
    }
    None
}

/// A transaction paying `amount` to `recipient` (as a stake locked until `locked_until`
/// when `stake` holds), funded by the outputs `select_inputs` picks for amount plus
/// fee, each input signed by the wallet's key for it, with the change (if any) going
/// back to `change_to` unlocked. `ids` identify the payment and change outputs.
pub fn build_transaction(
    utxos: &Vec<(bool, TransactionOutput)>,
    keys: &Vec<(PublicKey, PrivateKey)>,
    height: u64,
    funding: Funding,
    recipient: PublicKey,
    amount: u64,
    fee: u64,
    stake: bool,
    locked_until: u64,
    change_to: PublicKey,
    ids: (u128, u128),
) -> (r: Result<Transaction, WalletError>)
    ensures
        ({
            let chosen = picked(utxos@, height, funding, amount + fee, 0, 0);
            &&& (r == Err::<Transaction, WalletError>(WalletError::InsufficientFunds) <==> sum_values(chosen) < amount + fee)
            &&& r == Err::<Transaction, WalletError>(WalletError::ChangeOverflow) ==> sum_values(chosen) - amount - fee > u64::MAX
            &&& r == Err::<Transaction, WalletError>(WalletError::MissingKey) ==> exists|k: int| 0 <= k < chosen.len() && cannot_sign(keys@, #[trigger] chosen[k])
            &&& r matches Ok(t) ==> {
                &&& t.inputs@.len() == chosen.len()
                &&& forall|k: int| 0 <= k < chosen.len() ==> (#[trigger] t.inputs@[k]).prev_transaction_output_hash
                    == output_hash(chosen[k])
                &&& t.outputs@[0] == (TransactionOutput {
                    unique_id: ids.0,
                    value: amount,
                    pubkey: recipient,
                    is_stake: stake,
                    locked_until: if stake { locked_until } else { 0 },
                })
                &&& sum_values(chosen) > amount + fee ==> t.outputs@.len() == 2 && t.outputs@[1] == (TransactionOutput {
                    unique_id: ids.1,
                    value: (sum_values(chosen) - amount - fee) as u64,
                    pubkey: change_to,
                    is_stake: false,
                    locked_until: 0,
                })
                &&& sum_values(chosen) == amount + fee ==> t.outputs@.len() == 1
            }
        }),
{
    let total: u128 = amount as u128 + fee as u128;
    let (chosen, sum) = select_inputs(utxos, height, funding, total);
    if sum < total {
        return Err(WalletError::InsufficientFunds);
    }
    let mut inputs: Vec<TransactionInput> = Vec::new();
    let mut i: usize = 0;
    while i < chosen.len()
        invariant
            i <= chosen@.len(),
            total == amount + fee,
            sum >= total,
            sum == sum_values(chosen@),
            chosen@ == picked(utxos@, height, funding, total as int, 0, 0),
            inputs@.len() == i,
            forall|k: int| 0 <= k < i ==> (#[trigger] inputs@[k]).prev_transaction_output_hash == output_hash(chosen@[k]),
        decreases chosen.len() - i,
    {
        let o = chosen[i];
        let h = o.hash();
        let key = match key_for(keys, &o.pubkey) {
            Some(k) => k,
            None => {
                assert(chosen@[i as int] == o);
                return Err(WalletError::MissingKey);
            },
        };
        let signature = match Signature::sign_output(&h, &key) {
            Some(s) => s,
            None => {
                assert(chosen@[i as int] == o);
                return Err(WalletError::MissingKey);
            },
        };
        inputs.push(TransactionInput { prev_transaction_output_hash: h, signature });
        i = i + 1;
    }
    let mut outputs: Vec<TransactionOutput> = Vec::new();
    outputs.push(TransactionOutput {
        unique_id: ids.0,
        value: amount,
        pubkey: recipient,
        is_stake: stake,
        locked_until: if stake { locked_until } else { 0 },
    });
    if sum > total {
        let change = sum - total;
        if change > u64::MAX as u128 {
            return Err(WalletError::ChangeOverflow);
        }
        outputs.push(TransactionOutput {
            unique_id: ids.1,
            value: change as u64,
            pubkey: change_to,
            is_stake: false,
            locked_until: 0,
        });
    }
    Ok(Transaction { inputs, outputs })
}

/// Which outputs a balance counts.
#[derive(Clone, Copy, Debug, PartialEq, Eq, Structural)]
pub enum BalanceKind {
    /// Unmarked outputs other than stakes still locked.
    Spendable,
    /// Stakes still locked.
    ActiveStake,
    /// Stakes whose lock has passed.
    UnlockedStake,
}

pub open spec fn counted(marked: bool, o: TransactionOutput, height: u64, kind: BalanceKind) -> bool {
    match kind {
        BalanceKind::Spendable => !marked && !(o.is_stake && o.locked_until > height),
        BalanceKind::ActiveStake => o.is_stake && o.locked_until > height,
        BalanceKind::UnlockedStake => o.is_stake && o.locked_until <= height,
    }
}

/// The total value of the outputs that `kind` counts at `height`.
pub open spec fn balance_of(s: Seq<(bool, TransactionOutput)>, height: u64, kind: BalanceKind) -> int
    decreases s.len(),
{
    if s.len() == 0 {
        0
    } else {
        balance_of(s.drop_last(), height, kind) + if counted(s.last().0, s.last().1, height, kind) {
            s.last().1.value as int
        } else {
            0
        }
    }
}

/// The total value of the wallet's outputs that `kind` counts at `height`.
pub fn balance(utxos: &Vec<(bool, TransactionOutput)>, height: u64, kind: BalanceKind) -> (r: u128)
    ensures
        r == balance_of(utxos@, height, kind),
{
    let mut acc: u128 = 0;
    let mut i: usize = 0;
    while i < utxos.len()
        invariant
            i <= utxos@.len(),
            acc == balance_of(utxos@.subrange(0, i as int), height, kind),
            acc <= i * 0xffff_ffff_ffff_ffffu128,
        decreases utxos.len() - i,
    {
        assert(utxos@.subrange(0, i + 1).drop_last() == utxos@.subrange(0, i as int));
        let (marked, o) = utxos[i];
        let take = match kind {
            BalanceKind::Spendable => !marked && !(o.is_stake && o.locked_until > height),
            BalanceKind::ActiveStake => o.is_stake && o.locked_until > height,
            BalanceKind::UnlockedStake => o.is_stake && o.locked_until <= height,
        };
        if take {
            acc = acc + o.value as u128;
        }
        i = i + 1;
    }
    assert(utxos@.subrange(0, i as int) == utxos@);
    acc
}

} // verus!
