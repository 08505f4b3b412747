//! Mempool admission rules: input checks, supersession of older claims, fee order.
use vstd::prelude::*;
use crate::block::{inputs_distinct, inputs_known, sum_inputs, UtxoMap};
use crate::blockchain::{fees_descending, MempoolEntry};
use crate::error::EthError;
use crate::types::{sum_values, Hash256, Transaction, TransactionInput};
use crate::utxo::UtxoIndex;

verus! {

/// What is wrong with input `i`, looked at in order: a missing output, a stake still
/// locked, or an output already spent by an earlier input.
pub open spec fn input_problem(m: UtxoMap, ins: Seq<TransactionInput>, i: int, height: u64) -> Option<EthError> {
    let h = ins[i].prev_transaction_output_hash;
    if !m.contains_key(h) {
        Some(EthError::InvalidTransaction)
    } else if m[h].1.is_stake && m[h].1.locked_until > height {
        Some(EthError::StakeLocked)
    } else if exists|j: int| 0 <= j < i && ins[j].prev_transaction_output_hash == h {
        Some(EthError::InvalidTransaction)
    } else {
        None
    }
}

/// The problem of the first input, from `i` on, that has one.
pub open spec fn first_input_problem(m: UtxoMap, ins: Seq<TransactionInput>, height: u64, i: int) -> Option<EthError>
    decreases ins.len() - i,
{
    if i < 0 || i >= ins.len() {
        None
    } else {
        match input_problem(m, ins, i, height) {
            Some(e) => Some(e),
            None => first_input_problem(m, ins, height, i + 1),
        }
    }
}

/// The transaction spends the output with hash `h`.
pub open spec fn claims(t: Transaction, h: Hash256) -> bool {
    exists|k: int| 0 <= k < t.inputs@.len() && t.inputs@[k].prev_transaction_output_hash == h
}

/// The first entry, from `i` on, whose transaction spends `h`.
pub open spec fn first_claimant(pool: Seq<MempoolEntry>, h: Hash256, i: int) -> Option<int>
    decreases pool.len() - i,
{
    if i < 0 || i >= pool.len() {
        None
    } else if claims(pool[i].transaction, h) {
        Some(i)
    } else {
        first_claimant(pool, h, i + 1)
    }
}

/// Sets the soft-lock flag of each output that the inputs spend, where present.
pub open spec fn set_flags(m: UtxoMap, ins: Seq<TransactionInput>, flag: bool) -> UtxoMap
    decreases ins.len(),
{
    if ins.len() == 0 {
        m
    } else {
        let m1 = set_flags(m, ins.drop_last(), flag);
        let h = ins.last().prev_transaction_output_hash;
        if m1.contains_key(h) {
            m1.insert(h, (flag, m1[h].1))
        } else {
            m1
        }
    }
}

/// When the output `h` is marked, the newer claim wins: the older entry that spends it
/// leaves the mempool and its outputs are unmarked; with no such entry, `h` is unmarked.
pub open spec fn supersede_one(m: UtxoMap, pool: Seq<MempoolEntry>, h: Hash256) -> (UtxoMap, Seq<MempoolEntry>) {
    if m.contains_key(h) && m[h].0 {
        match first_claimant(pool, h, 0) {
            Some(e) => (set_flags(m, pool[e].transaction.inputs@, false), pool.remove(e)),
            None => (m.insert(h, (false, m[h].1)), pool),
        }
    } else {
        (m, pool)
    }
}

pub open spec fn supersede(m: UtxoMap, pool: Seq<MempoolEntry>, ins: Seq<TransactionInput>) -> (UtxoMap, Seq<MempoolEntry>)
    decreases ins.len(),
{
    if ins.len() == 0 {
        (m, pool)
    } else {
        let prev = supersede(m, pool, ins.drop_last());
        supersede_one(prev.0, prev.1, ins.last().prev_transaction_output_hash)
    }
}

/// Where an entry with fee `f` goes: before the first entry, from `i` on, with a lower fee.
pub open spec fn fee_position(pool: Seq<MempoolEntry>, f: u128, i: int) -> int
    decreases pool.len() - i,
{
    if i < 0 || i >= pool.len() {
        pool.len() as int
    } else if pool[i].fee < f {
        i
    } else {
        fee_position(pool, f, i + 1)
    }
}

/// The outcome of admitting `tx` at time `now`: the result, the new index, the new
/// mempool. An older claim is superseded only when every check passes; every error
/// leaves index and mempool as they were.
pub open spec fn admission(
    m: UtxoMap,
    pool: Seq<MempoolEntry>,
    height: u64,
    tx: Transaction,
    now: i64,
) -> (Result<(), EthError>, UtxoMap, Seq<MempoolEntry>) {
    match first_input_problem(m, tx.inputs@, height, 0) {
        Some(e) => (Err(e), m, pool),
        None => {
            let (m1, p1) = supersede(m, pool, tx.inputs@);
            if sum_inputs(m, tx.inputs@) < sum_values(tx.outputs@) {
                (Err(EthError::InvalidTransaction), m, pool)
            } else {
                let fee = (sum_inputs(m, tx.inputs@) - sum_values(tx.outputs@)) as u128;
                let entry = MempoolEntry { timestamp: now, transaction: tx, fee };
                (Ok(()), set_flags(m1, tx.inputs@, true), p1.insert(fee_position(p1, fee, 0), entry))
            }
        },
    }
}

pub proof fn lemma_set_flags_keeps(m: UtxoMap, ins: Seq<TransactionInput>, flag: bool, h: Hash256)
    ensures
        set_flags(m, ins, flag).contains_key(h) == m.contains_key(h),
        m.contains_key(h) ==> set_flags(m, ins, flag)[h].1 == m[h].1,
    decreases ins.len(),
{
    if ins.len() > 0 {
        lemma_set_flags_keeps(m, ins.drop_last(), flag, h);
    }
}

pub fn set_flags_exec(utxos: &mut UtxoIndex, ins: &Vec<TransactionInput>, flag: bool)
    requires
        old(utxos).wf(),
    ensures
        final(utxos).wf(),
        final(utxos)@ == set_flags(old(utxos)@, ins@, flag),
{
    let ghost m0 = utxos@;
    let mut i: usize = 0;
    while i < ins.len()
        invariant
            utxos.wf(),
            i <= ins@.len(),
            utxos@ == set_flags(m0, ins@.subrange(0, i as int), flag),
        decreases ins.len() - i,
    {
        assert(ins@.subrange(0, i + 1).drop_last() == ins@.subrange(0, i as int));
        utxos.set_marked(&ins[i].prev_transaction_output_hash, flag);
        i = i + 1;
    }
    assert(ins@.subrange(0, i as int) == ins@);
}

pub(crate) fn claims_exec(t: &Transaction, h: &Hash256) -> (r: bool)
    ensures
        r == claims(*t, *h),
{
    let mut k: usize = 0;
    while k < t.inputs.len()
        invariant
            k <= t.inputs@.len(),
            forall|q: int| 0 <= q < k ==> t.inputs@[q].prev_transaction_output_hash != *h,
        decreases t.inputs.len() - k,
    {
        if t.inputs[k].prev_transaction_output_hash == *h {
            return true;
        }
        k = k + 1;
    }
    false
}

pub fn first_claimant_exec(pool: &Vec<MempoolEntry>, h: &Hash256) -> (r: Option<usize>)
    ensures
        match r {
            Some(i) => first_claimant(pool@, *h, 0) == Some(i as int) && i < pool@.len(),
            None => first_claimant(pool@, *h, 0) is None,
        },
{
    let mut i: usize = 0;
    while i < pool.len()
        invariant
            i <= pool@.len(),
            first_claimant(pool@, *h, 0) == first_claimant(pool@, *h, i as int),
        decreases pool.len() - i,
    {
        if claims_exec(&pool[i].transaction, h) {
            return Some(i);
        }
        i = i + 1;
    }
    None
}

pub fn fee_position_exec(pool: &Vec<MempoolEntry>, f: u128) -> (r: usize)
    ensures
        r as int == fee_position(pool@, f, 0),
        r <= pool@.len(),
{
    let mut i: usize = 0;
    while i < pool.len()
        invariant
            i <= pool@.len(),
            fee_position(pool@, f, 0) == fee_position(pool@, f, i as int),
        decreases pool.len() - i,
    {
        if pool[i].fee < f {
            return i;
        }
        i = i + 1;
    }
    i
}

pub proof fn lemma_fee_position(pool: Seq<MempoolEntry>, f: u128, i: int)
    requires
        fees_descending(pool),
        0 <= i <= pool.len(),
        forall|j: int| 0 <= j < i ==> pool[j].fee >= f,
    ensures
        i <= fee_position(pool, f, i) <= pool.len(),
        forall|j: int| 0 <= j < fee_position(pool, f, i) ==> pool[j].fee >= f,
        forall|j: int| fee_position(pool, f, i) <= j < pool.len() ==> pool[j].fee < f,
    decreases pool.len() - i,
{
    if i < pool.len() && pool[i].fee >= f {
        lemma_fee_position(pool, f, i + 1);
    }
}

pub proof fn lemma_insert_keeps_order(pool: Seq<MempoolEntry>, e: MempoolEntry)
    requires
        fees_descending(pool),
    ensures
        fees_descending(pool.insert(fee_position(pool, e.fee, 0), e)),
{
    lemma_fee_position(pool, e.fee, 0);
    let p = fee_position(pool, e.fee, 0);
    let r = pool.insert(p, e);
    assert forall|a: int, b: int| 0 <= a < b < r.len() implies r[a].fee >= r[b].fee by {
        if b < p {
            assert(r[a] == pool[a] && r[b] == pool[b]);
        } else if b == p {
            assert(r[a] == pool[a]);
        } else if a == p {
            assert(r[b] == pool[b - 1]);
        } else if a < p {
            assert(r[a] == pool[a] && r[b] == pool[b - 1]);
        } else {
            assert(r[a] == pool[a - 1] && r[b] == pool[b - 1]);
        }
    }
}

pub proof fn lemma_remove_keeps_order(pool: Seq<MempoolEntry>, i: int)
    requires
        fees_descending(pool),
        0 <= i < pool.len(),
    ensures
        fees_descending(pool.remove(i)),
{
    let r = pool.remove(i);
    assert forall|a: int, b: int| 0 <= a < b < r.len() implies r[a].fee >= r[b].fee by {
        let a0 = if a < i { a } else { a + 1 };
        let b0 = if b < i { b } else { b + 1 };
        assert(r[a] == pool[a0]);
        assert(r[b] == pool[b0]);
    }
}

pub proof fn lemma_supersede_keeps_order(m: UtxoMap, pool: Seq<MempoolEntry>, ins: Seq<TransactionInput>)
    requires
        fees_descending(pool),
    ensures
        fees_descending(supersede(m, pool, ins).1),
    decreases ins.len(),
{
    if ins.len() > 0 {
        lemma_supersede_keeps_order(m, pool, ins.drop_last());
        let prev = supersede(m, pool, ins.drop_last());
        let g = ins.last().prev_transaction_output_hash;
        if prev.0.contains_key(g) && prev.0[g].0 {
            match first_claimant(prev.1, g, 0) {
                Some(e) => {
                    lemma_first_claimant_range(prev.1, g, 0);
                    lemma_remove_keeps_order(prev.1, e);
                },
                None => {},
            }
        }
    }
}

pub proof fn lemma_first_claimant_range(pool: Seq<MempoolEntry>, h: Hash256, i: int)
    ensures
        first_claimant(pool, h, i) matches Some(e) ==> i <= e < pool.len() && claims(pool[e].transaction, h),
    decreases pool.len() - i,
{
    if 0 <= i < pool.len() && !claims(pool[i].transaction, h) {
        lemma_first_claimant_range(pool, h, i + 1);
    }
}

/// An entry admitted at `ts` has outlived the maximum age (600 s) at `now`.
pub open spec fn expired(ts: i64, now: i64) -> bool {
    now as int - ts as int > 600_000
}

/// The entries that stay at `now`, in order.
pub open spec fn live_entries(pool: Seq<MempoolEntry>, now: i64) -> Seq<MempoolEntry>
    decreases pool.len(),
{
    if pool.len() == 0 {
        seq![]
    } else if expired(pool.last().timestamp, now) {
        live_entries(pool.drop_last(), now)
    } else {
        live_entries(pool.drop_last(), now).push(pool.last())
    }
}

/// The inputs of the entries that leave at `now`, in order.
pub open spec fn expired_inputs(pool: Seq<MempoolEntry>, now: i64) -> Seq<TransactionInput>
    decreases pool.len(),
{
    if pool.len() == 0 {
        seq![]
    } else if expired(pool.last().timestamp, now) {
        expired_inputs(pool.drop_last(), now) + pool.last().transaction.inputs@
    } else {
        expired_inputs(pool.drop_last(), now)
    }
}

/// Some entry of the pool spends the output `h`.
pub open spec fn claimed_by_any(pool: Seq<MempoolEntry>, h: Hash256) -> bool {
    exists|i: int| 0 <= i < pool.len() && claims(#[trigger] pool[i].transaction, h)
}

/// Whether some entry of the pool spends the output `h`.
pub fn claimed_exec(pool: &Vec<MempoolEntry>, h: &Hash256) -> (r: bool)
    ensures
        r == claimed_by_any(pool@, *h),
{
    let mut i: usize = 0;
    while i < pool.len()
        invariant
            i <= pool@.len(),
            forall|q: int| 0 <= q < i ==> !claims(#[trigger] pool@[q].transaction, *h),
        decreases pool.len() - i,
    {
        if claims_exec(&pool[i].transaction, h) {
            return true;
        }
        i = i + 1;
    }
    false
}

/// Unmarks, in order, each output that the inputs spend and no entry of `live` claims.
pub open spec fn release(m: UtxoMap, ins: Seq<TransactionInput>, live: Seq<MempoolEntry>) -> UtxoMap
    decreases ins.len(),
{
    if ins.len() == 0 {
        m
    } else {
        let m1 = release(m, ins.drop_last(), live);
        let h = ins.last().prev_transaction_output_hash;
        if m1.contains_key(h) && !claimed_by_any(live, h) {
            m1.insert(h, (false, m1[h].1))
        } else {
            m1
        }
    }
}

pub proof fn lemma_release_concat(m: UtxoMap, a: Seq<TransactionInput>, b: Seq<TransactionInput>, live: Seq<MempoolEntry>)
    ensures
        release(m, a + b, live) == release(release(m, a, live), b, live),
    decreases b.len(),
{
    if b.len() == 0 {
        assert(a + b == a);
    } else {
        lemma_release_concat(m, a, b.drop_last(), live);
        assert((a + b).drop_last() == a + b.drop_last());
    }
}

/// After release: an output still claimed keeps its entry as it was; an unclaimed one
/// that an input spends is unmarked; keys and outputs never change.
pub proof fn lemma_release(m: UtxoMap, ins: Seq<TransactionInput>, live: Seq<MempoolEntry>, h: Hash256)
    ensures
        release(m, ins, live).contains_key(h) == m.contains_key(h),
        m.contains_key(h) ==> release(m, ins, live)[h].1 == m[h].1,
        m.contains_key(h) && claimed_by_any(live, h) ==> release(m, ins, live)[h] == m[h],
        m.contains_key(h) && !claimed_by_any(live, h) && (exists|q: int| 0 <= q < ins.len() && ins[q].prev_transaction_output_hash == h)
            ==> !release(m, ins, live)[h].0,
    decreases ins.len(),
{
    if ins.len() > 0 {
        lemma_release(m, ins.drop_last(), live, h);
        if m.contains_key(h) && !claimed_by_any(live, h) && ins.last().prev_transaction_output_hash != h
            && (exists|q: int| 0 <= q < ins.len() && ins[q].prev_transaction_output_hash == h) {
            let q = choose|q: int| 0 <= q < ins.len() && ins[q].prev_transaction_output_hash == h;
            assert(ins.drop_last()[q] == ins[q]);
        }
    }
}

proof fn lemma_first_problem_locked(m: UtxoMap, ins: Seq<TransactionInput>, height: u64, j: int, i: int)
    requires
        inputs_known(m, ins),
        inputs_distinct(ins),
        0 <= j <= i < ins.len(),
        m[ins[i].prev_transaction_output_hash].1.is_stake,
        m[ins[i].prev_transaction_output_hash].1.locked_until > height,
    ensures
        first_input_problem(m, ins, height, j) == Some(EthError::StakeLocked),
    decreases ins.len() - j,
{
    let h = ins[j].prev_transaction_output_hash;
    assert(m.contains_key(h));
    if !(m[h].1.is_stake && m[h].1.locked_until > height) {
        assert(j != i);
        assert(!exists|q: int| 0 <= q < j && ins[q].prev_transaction_output_hash == h);
        lemma_first_problem_locked(m, ins, height, j + 1, i);
    }
}

/// A transaction whose inputs all exist and are distinct, and one of which spends a
/// stake still locked at `height`, is refused with `StakeLocked` and changes nothing.
pub proof fn lemma_locked_stake_rejected(
    m: UtxoMap,
    pool: Seq<MempoolEntry>,
    height: u64,
    tx: Transaction,
    now: i64,
    i: int,
)
    requires
        inputs_known(m, tx.inputs@),
        inputs_distinct(tx.inputs@),
        0 <= i < tx.inputs@.len(),
        m[tx.inputs@[i].prev_transaction_output_hash].1.is_stake,
        m[tx.inputs@[i].prev_transaction_output_hash].1.locked_until > height,
    ensures
        admission(m, pool, height, tx, now) == (Err::<(), EthError>(EthError::StakeLocked), m, pool),
{
    lemma_first_problem_locked(m, tx.inputs@, height, 0, i);
}

} // verus!
