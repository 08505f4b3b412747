//! The active stake table and the stake-weighted validator lottery.
use vstd::prelude::*;
use crate::types::{key_lt, lemma_key_order, Hash256, PublicKey};
use crate::utxo::{UtxoEntry, UtxoIndex};

verus! {

/// 1000 coins of 10^8 units: the least effective stake that takes part in the lottery.
pub const STAKE_MINIMUM_AMOUNT: u64 = 100_000_000_000;

/// Penalty rates in basis points.
pub const SLASHING_PENALTY_DOUBLE_SIGN: u128 = 1000;

pub const SLASHING_PENALTY_DOWNTIME: u128 = 100;

#[derive(Clone, Copy, Debug, PartialEq, Eq, Structural)]
pub enum SlashingReason {
    DoubleSigning,
    Downtime,
}

/// Record of a slashing event.
#[derive(Clone, Copy, Debug, PartialEq, Eq, Structural)]
pub struct SlashingRecord {
    pub validator: PublicKey,
    pub block_height: u64,
    pub reason: SlashingReason,
    pub penalty_amount: u128,
}

/// One row of the active stake table.
#[derive(Clone, Copy, Debug, PartialEq, Eq, Structural)]
pub struct StakeEntry {
    pub pubkey: PublicKey,
    pub amount: u128,
}

/// An output counts toward its owner's stake at `height` while it is a stake still locked.
pub open spec fn counts_as_stake(e: UtxoEntry, height: u64) -> bool {
    e.output.is_stake && e.output.locked_until > height
}

/// The locked stake of `pk` at `height`.
pub open spec fn raw_stake(s: Seq<UtxoEntry>, pk: PublicKey, height: u64) -> int
    decreases s.len(),
{
    if s.len() == 0 {
        0
    } else {
        raw_stake(s.drop_last(), pk, height) + if counts_as_stake(s.last(), height)
            && s.last().output.pubkey == pk {
            s.last().output.value as int
        } else {
            0
        }
    }
}

/// The locked stake of every validator at `height`.
pub open spec fn all_stake(s: Seq<UtxoEntry>, height: u64) -> int
    decreases s.len(),
{
    if s.len() == 0 {
        0
    } else {
        all_stake(s.drop_last(), height) + if counts_as_stake(s.last(), height) {
            s.last().output.value as int
        } else {
            0
        }
    }
}

/// The penalties recorded against `pk`.
pub open spec fn slashed_of(h: Seq<SlashingRecord>, pk: PublicKey) -> int
    decreases h.len(),
{
    if h.len() == 0 {
        0
    } else {
        slashed_of(h.drop_last(), pk) + if h.last().validator == pk {
            h.last().penalty_amount as int
        } else {
            0
        }
    }
}

/// Locked stake less penalties, floored at zero.
pub open spec fn effective_stake(s: Seq<UtxoEntry>, h: Seq<SlashingRecord>, pk: PublicKey, height: u64) -> int {
    if raw_stake(s, pk, height) >= slashed_of(h, pk) {
        raw_stake(s, pk, height) - slashed_of(h, pk)
    } else {
        0
    }
}

pub open spec fn keys_sorted(t: Seq<StakeEntry>) -> bool {
    forall|i: int, j: int| 0 <= i < j < t.len() ==> key_lt(t[i].pubkey, t[j].pubkey)
}

/// `t` is the active stake table: sorted by key, one row for each validator whose
/// effective stake reaches the minimum, holding that effective stake.
pub open spec fn is_stake_table(
    t: Seq<StakeEntry>,
    s: Seq<UtxoEntry>,
    h: Seq<SlashingRecord>,
    height: u64,
) -> bool {
    &&& keys_sorted(t)
    &&& forall|i: int| 0 <= i < t.len() ==> #[trigger] t[i].amount == effective_stake(s, h, t[i].pubkey, height)
        && t[i].amount >= STAKE_MINIMUM_AMOUNT
    &&& forall|pk: PublicKey| effective_stake(s, h, pk, height) >= STAKE_MINIMUM_AMOUNT ==> exists|i: int|
        0 <= i < t.len() && #[trigger] t[i].pubkey == pk
}

pub open spec fn table_total(t: Seq<StakeEntry>) -> int
    decreases t.len(),
{
    if t.len() == 0 {
        0
    } else {
        table_total(t.drop_last()) + t.last().amount
    }
}

/// The first row, from `i` on, at which the running total exceeds `r`.
pub open spec fn pick_from(t: Seq<StakeEntry>, r: int, i: int) -> Option<PublicKey>
    decreases t.len() - i,
{
    if i < 0 || i >= t.len() {
        None
    } else if table_total(t.subrange(0, i + 1)) > r {
        Some(t[i].pubkey)
    } else {
        pick_from(t, r, i + 1)
    }
}

/// The lottery: the first eight bytes of the seed, big-endian, reduced modulo the
/// total stake, pick the first row of the sorted table whose running total exceeds it.
pub open spec fn lottery(t: Seq<StakeEntry>, seed: Hash256) -> Option<PublicKey> {
    if table_total(t) == 0 {
        None
    } else {
        pick_from(t, seed.w0 as int % table_total(t), 0)
    }
}

pub proof fn lemma_raw_bound(s: Seq<UtxoEntry>, pk: PublicKey, height: u64)
    ensures
        0 <= raw_stake(s, pk, height) <= all_stake(s, height),
        0 <= all_stake(s, height) <= s.len() * 0xffff_ffff_ffff_ffff,
    decreases s.len(),
{
    if s.len() > 0 {
        lemma_raw_bound(s.drop_last(), pk, height);
    }
}

pub proof fn lemma_table_total_push(t: Seq<StakeEntry>, e: StakeEntry)
    ensures
        table_total(t.push(e)) == table_total(t) + e.amount,
{
    assert(t.push(e).drop_last() == t);
}

pub proof fn lemma_table_total_insert(t: Seq<StakeEntry>, p: int, e: StakeEntry)
    requires
        0 <= p <= t.len(),
    ensures
        table_total(t.insert(p, e)) == table_total(t) + e.amount,
    decreases t.len(),
{
    if p == t.len() {
        assert(t.insert(p, e) == t.push(e));
        lemma_table_total_push(t, e);
    } else {
        assert(t.insert(p, e).drop_last() == t.drop_last().insert(p, e));
        lemma_table_total_insert(t.drop_last(), p, e);
    }
}

pub proof fn lemma_table_total_update(t: Seq<StakeEntry>, p: int, e: StakeEntry)
    requires
        0 <= p < t.len(),
    ensures
        table_total(t.update(p, e)) == table_total(t) - t[p].amount + e.amount,
    decreases t.len(),
{
    if p == t.len() - 1 {
        assert(t.update(p, e).drop_last() == t.drop_last());
    } else {
        assert(t.update(p, e).drop_last() == t.drop_last().update(p, e));
        lemma_table_total_update(t.drop_last(), p, e);
    }
}

pub proof fn lemma_table_total_prefix(t: Seq<StakeEntry>, i: int)
    requires
        0 <= i <= t.len(),
    ensures
        0 <= table_total(t.subrange(0, i)) <= table_total(t),
    decreases t.len() - i,
{
    if i < t.len() {
        lemma_table_total_prefix(t, i + 1);
        assert(t.subrange(0, i + 1).drop_last() == t.subrange(0, i));
        lemma_table_total_prefix_nonneg(t.subrange(0, i));
    } else {
        assert(t.subrange(0, i) == t);
        lemma_table_total_prefix_nonneg(t);
    }
}

proof fn lemma_table_total_prefix_nonneg(t: Seq<StakeEntry>)
    ensures
        table_total(t) >= 0,
    decreases t.len(),
{
    if t.len() > 0 {
        lemma_table_total_prefix_nonneg(t.drop_last());
    }
}

/// The penalties recorded against `pk`.
pub fn slashed_total(history: &Vec<SlashingRecord>, pk: &PublicKey) -> (r: u128)
    requires
        slashed_of(history@, *pk) <= u128::MAX,
    ensures
        r == slashed_of(history@, *pk),
{
    let mut acc: u128 = 0;
    let mut i: usize = 0;
    while i < history.len()
        invariant
            i <= history@.len(),
            slashed_of(history@, *pk) <= u128::MAX,
            acc == slashed_of(history@.subrange(0, i as int), *pk),
        decreases history.len() - i,
    {
        assert(history@.subrange(0, i + 1).drop_last() == history@.subrange(0, i as int));
        proof {
            lemma_slashed_prefix(history@, *pk, i + 1);
        }
        if history[i].validator == *pk {
            acc = acc + history[i].penalty_amount;
        }
        i = i + 1;
    }
    assert(history@.subrange(0, i as int) == history@);
    acc
}

pub proof fn lemma_slashed_prefix(h: Seq<SlashingRecord>, pk: PublicKey, i: int)
    requires
        0 <= i <= h.len(),
    ensures
        0 <= slashed_of(h.subrange(0, i), pk) <= slashed_of(h, pk),
    decreases h.len() - i,
{
    if i < h.len() {
        lemma_slashed_prefix(h, pk, i + 1);
        assert(h.subrange(0, i + 1).drop_last() == h.subrange(0, i));
        lemma_slashed_nonneg(h.subrange(0, i), pk);
    } else {
        assert(h.subrange(0, i) == h);
        lemma_slashed_nonneg(h, pk);
    }
}

pub proof fn lemma_slashed_nonneg(h: Seq<SlashingRecord>, pk: PublicKey)
    ensures
        slashed_of(h, pk) >= 0,
    decreases h.len(),
{
    if h.len() > 0 {
        lemma_slashed_nonneg(h.drop_last(), pk);
    }
}

/// Position of the first row whose key is not below `pk`.
fn table_position(t: &Vec<StakeEntry>, pk: &PublicKey) -> (r: usize)
    requires
        keys_sorted(t@),
    ensures
        r <= t@.len(),
        forall|i: int| 0 <= i < r ==> key_lt(#[trigger] t@[i].pubkey, *pk),
        r < t@.len() ==> !key_lt(t@[r as int].pubkey, *pk),
{
    let mut p: usize = 0;
    while p < t.len()
        invariant
            p <= t@.len(),
            forall|i: int| 0 <= i < p ==> key_lt(#[trigger] t@[i].pubkey, *pk),
        decreases t.len() - p,
    {
        if !t[p].pubkey.less_than(pk) {
            return p;
        }
        p = p + 1;
    }
    p
}

/// The locked stake of each validator, sorted by key.
fn locked_stakes(utxos: &UtxoIndex, height: u64) -> (r: Vec<StakeEntry>)
    ensures
        keys_sorted(r@),
        forall|i: int| 0 <= i < r@.len() ==> #[trigger] r@[i].amount == raw_stake(utxos.entries@, r@[i].pubkey, height),
        forall|pk: PublicKey| raw_stake(utxos.entries@, pk, height) > 0 ==> exists|i: int|
            0 <= i < r@.len() && #[trigger] r@[i].pubkey == pk,
        table_total(r@) == all_stake(utxos.entries@, height),
{
    let ghost s = utxos.entries@;
    let mut t: Vec<StakeEntry> = Vec::new();
    let mut j: usize = 0;
    while j < utxos.entries.len()
        invariant
            s == utxos.entries@,
            j <= s.len(),
            keys_sorted(t@),
            forall|i: int| 0 <= i < t@.len() ==> #[trigger] t@[i].amount == raw_stake(s.subrange(0, j as int), t@[i].pubkey, height),
            forall|pk: PublicKey| raw_stake(s.subrange(0, j as int), pk, height) > 0 ==> exists|i: int|
                0 <= i < t@.len() && #[trigger] t@[i].pubkey == pk,
            table_total(t@) == all_stake(s.subrange(0, j as int), height),
            all_stake(s.subrange(0, j as int), height) <= j * 0xffff_ffff_ffff_ffff,
        decreases s.len() - j,
    {
        let e = utxos.entries[j];
        let ghost pre = s.subrange(0, j as int);
        let ghost post = s.subrange(0, j + 1);
        assert(post.drop_last() == pre);
        assert(post.last() == e);
        proof {
            lemma_raw_bound(pre, e.output.pubkey, height);
        }
        if e.output.is_stake && e.output.locked_until > height {
            let pk = e.output.pubkey;
            let p = table_position(&t, &pk);
            let ghost t0 = t@;
            if p < t.len() && t[p].pubkey == pk {
                let row = StakeEntry { pubkey: pk, amount: t[p].amount + e.output.value as u128 };
                t.set(p, row);
                proof {
                    lemma_table_total_update(t0, p as int, row);
                    assert forall|a: int, b: int| 0 <= a < b < t@.len() implies key_lt(t@[a].pubkey, t@[b].pubkey) by {
                        assert(t@[a].pubkey == t0[a].pubkey);
                        assert(t@[b].pubkey == t0[b].pubkey);
                    }
                    assert forall|i: int| 0 <= i < t@.len() implies #[trigger] t@[i].amount == raw_stake(post, t@[i].pubkey, height) by {
                        if i != p {
                            assert(t@[i] == t0[i]);
                        }
                    }
                    assert forall|q: PublicKey| raw_stake(post, q, height) > 0 implies exists|i: int|
                        0 <= i < t@.len() && #[trigger] t@[i].pubkey == q by {
                        if q == pk {
                            assert(t@[p as int].pubkey == q);
                        } else {
                            assert(raw_stake(pre, q, height) > 0);
                            let i = choose|i: int| 0 <= i < t0.len() && #[trigger] t0[i].pubkey == q;
                            assert(t@[i].pubkey == q);
                        }
                    }
                }
            } else {
                let row = StakeEntry { pubkey: pk, amount: e.output.value as u128 };
                t.insert(p, row);
                proof {
                    lemma_table_total_insert(t0, p as int, row);
                    assert(t@ == t0.insert(p as int, row));
                    assert forall|a: int, b: int| 0 <= a < b < t@.len() implies key_lt(t@[a].pubkey, t@[b].pubkey) by {
                        if b < p {
                            assert(t@[a] == t0[a] && t@[b] == t0[b]);
                        } else if b == p {
                            assert(t@[a] == t0[a]);
                        } else if a == p {
                            assert(t@[b] == t0[b - 1]);
                            if b - 1 > p {
                                lemma_key_order(pk, t0[p as int].pubkey, t0[b - 1].pubkey);
                                lemma_key_order(t0[p as int].pubkey, pk, t0[b - 1].pubkey);
                            } else {
                                lemma_key_order(pk, t0[p as int].pubkey, pk);
                            }
                        } else if a < p {
                            assert(t@[a] == t0[a] && t@[b] == t0[b - 1]);
                            lemma_key_order(t0[a].pubkey, pk, t0[b - 1].pubkey);
                            if b - 1 > p {
                                lemma_key_order(t0[a].pubkey, t0[p as int].pubkey, t0[b - 1].pubkey);
                            }
                        } else {
                            assert(t@[a] == t0[a - 1] && t@[b] == t0[b - 1]);
                        }
                    }
                    assert forall|i: int| 0 <= i < t@.len() implies #[trigger] t@[i].amount == raw_stake(post, t@[i].pubkey, height) by {
                        if i < p {
                            assert(t@[i] == t0[i]);
                            lemma_key_order(t0[i].pubkey, pk, pk);
                        } else if i > p {
                            assert(t@[i] == t0[i - 1]);
                            if t0[i - 1].pubkey == pk {
                                if p < t0.len() {
                                    if i - 1 > p {
                                        assert(key_lt(t0[p as int].pubkey, t0[i - 1].pubkey));
                                        lemma_key_order(pk, t0[p as int].pubkey, pk);
                                    }
                                }
                            }
                        } else {
                            if raw_stake(pre, pk, height) > 0 {
                                let k = choose|k: int| 0 <= k < t0.len() && #[trigger] t0[k].pubkey == pk;
                                if k < p {
                                    lemma_key_order(pk, pk, pk);
                                }
                            }
                        }
                    }
                    assert forall|q: PublicKey| raw_stake(post, q, height) > 0 implies exists|i: int|
                        0 <= i < t@.len() && #[trigger] t@[i].pubkey == q by {
                        if q == pk {
                            assert(t@[p as int].pubkey == q);
                        } else {
                            assert(raw_stake(pre, q, height) > 0);
                            let i = choose|i: int| 0 <= i < t0.len() && #[trigger] t0[i].pubkey == q;
                            if i < p {
                                assert(t@[i].pubkey == q);
                            } else {
                                assert(t@[i + 1].pubkey == q);
                            }
                        }
                    }
                }
            }
        } else {
            assert forall|i: int| 0 <= i < t@.len() implies #[trigger] t@[i].amount == raw_stake(post, t@[i].pubkey, height) by {}
            assert forall|q: PublicKey| raw_stake(post, q, height) > 0 implies exists|i: int|
                0 <= i < t@.len() && #[trigger] t@[i].pubkey == q by {
                assert(raw_stake(pre, q, height) > 0);
            }
        }
        j = j + 1;
    }
    assert(s.subrange(0, j as int) == s);
    t
}

/// The active stake table at `height`: locked stake less penalties, rows below the
/// minimum dropped, sorted by public key.
#[verifier::rlimit(40)]
pub fn calculate_stakes(utxos: &UtxoIndex, history: &Vec<SlashingRecord>, height: u64) -> (r: Vec<StakeEntry>)
    requires
        forall|pk: PublicKey| slashed_of(history@, pk) <= u128::MAX,
    ensures
        is_stake_table(r@, utxos.entries@, history@, height),
        table_total(r@) <= all_stake(utxos.entries@, height),
{
    let ghost s = utxos.entries@;
    let locked = locked_stakes(utxos, height);
    let mut t: Vec<StakeEntry> = Vec::new();
    let mut i: usize = 0;
    while i < locked.len()
        invariant
            s == utxos.entries@,
            forall|pk: PublicKey| slashed_of(history@, pk) <= u128::MAX,
            i <= locked@.len(),
            keys_sorted(locked@),
            forall|k: int| 0 <= k < locked@.len() ==> #[trigger] locked@[k].amount == raw_stake(s, locked@[k].pubkey, height),
            forall|pk: PublicKey| raw_stake(s, pk, height) > 0 ==> exists|k: int|
                0 <= k < locked@.len() && #[trigger] locked@[k].pubkey == pk,
            table_total(locked@) == all_stake(s, height),
            keys_sorted(t@),
            forall|k: int| 0 <= k < t@.len() ==> #[trigger] t@[k].amount == effective_stake(s, history@, t@[k].pubkey, height)
                && t@[k].amount >= STAKE_MINIMUM_AMOUNT,
            forall|k: int| #![trigger t@[k]] 0 <= k < t@.len() ==> exists|q: int| 0 <= q < i && #[trigger] locked@[q].pubkey == t@[k].pubkey,
            forall|q: int| 0 <= q < i && effective_stake(s, history@, #[trigger] locked@[q].pubkey, height) >= STAKE_MINIMUM_AMOUNT
                ==> exists|k: int| 0 <= k < t@.len() && #[trigger] t@[k].pubkey == locked@[q].pubkey,
            table_total(t@) <= table_total(locked@.subrange(0, i as int)),
        decreases locked.len() - i,
    {
        let row = locked[i];
        let slashed = slashed_total(history, &row.pubkey);
        let effective = if row.amount >= slashed {
            row.amount - slashed
        } else {
            0
        };
        assert(locked@.subrange(0, i + 1).drop_last() == locked@.subrange(0, i as int));
        if effective >= STAKE_MINIMUM_AMOUNT as u128 {
            let ghost t0 = t@;
            let new_row = StakeEntry { pubkey: row.pubkey, amount: effective };
            t.push(new_row);
            proof {
                lemma_table_total_push(t0, new_row);
                assert forall|a: int, b: int| 0 <= a < b < t@.len() implies key_lt(t@[a].pubkey, t@[b].pubkey) by {
                    if b == t0.len() {
                        let q = choose|q: int| 0 <= q < i && #[trigger] locked@[q].pubkey == t0[a].pubkey;
                        assert(key_lt(locked@[q].pubkey, locked@[i as int].pubkey));
                    } else {
                        assert(t@[a] == t0[a] && t@[b] == t0[b]);
                    }
                }
                assert forall|k: int| #![trigger t@[k]] 0 <= k < t@.len() implies exists|q: int| 0 <= q < i + 1 && #[trigger] locked@[q].pubkey == t@[k].pubkey by {
                    if k == t0.len() {
                        assert(locked@[i as int].pubkey == t@[k].pubkey);
                    } else {
                        assert(t@[k] == t0[k]);
                        let q = choose|q: int| 0 <= q < i && #[trigger] locked@[q].pubkey == t0[k].pubkey;
                        assert(locked@[q].pubkey == t@[k].pubkey);
                    }
                }
                assert forall|q: int| 0 <= q < i + 1 && effective_stake(s, history@, #[trigger] locked@[q].pubkey, height) >= STAKE_MINIMUM_AMOUNT
                    implies exists|k: int| 0 <= k < t@.len() && #[trigger] t@[k].pubkey == locked@[q].pubkey by {
                    if q == i {
                        assert(t@[t0.len() as int].pubkey == locked@[q].pubkey);
                    } else {
                        let k = choose|k: int| 0 <= k < t0.len() && #[trigger] t0[k].pubkey == locked@[q].pubkey;
                        assert(t@[k] == t0[k]);
                    }
                }
            }
        } else {
            assert forall|q: int| 0 <= q < i + 1 && effective_stake(s, history@, #[trigger] locked@[q].pubkey, height) >= STAKE_MINIMUM_AMOUNT
                implies exists|k: int| 0 <= k < t@.len() && #[trigger] t@[k].pubkey == locked@[q].pubkey by {
                if q == i {
                    assert(false);
                }
            }
        }
        i = i + 1;
    }
    assert(locked@.subrange(0, i as int) == locked@);
    assert forall|pk: PublicKey| effective_stake(s, history@, pk, height) >= STAKE_MINIMUM_AMOUNT implies exists|k: int|
        0 <= k < t@.len() && #[trigger] t@[k].pubkey == pk by {
        lemma_slashed_nonneg(history@, pk);
        assert(raw_stake(s, pk, height) > 0);
        let q = choose|q: int| 0 <= q < locked@.len() && #[trigger] locked@[q].pubkey == pk;
        assert(effective_stake(s, history@, locked@[q].pubkey, height) >= STAKE_MINIMUM_AMOUNT);
    }
    t
}

/// The lottery's winner over a stake table, seeded by a hash.
pub fn pick_validator(table: &Vec<StakeEntry>, seed: &Hash256) -> (r: Option<PublicKey>)
    requires
        table_total(table@) <= u128::MAX,
    ensures
        r == lottery(table@, *seed),
{
    let ghost t = table@;
    let mut total: u128 = 0;
    let mut i: usize = 0;
    while i < table.len()
        invariant
            t == table@,
            table_total(t) <= u128::MAX,
            i <= t.len(),
            total == table_total(t.subrange(0, i as int)),
        decreases table.len() - i,
    {
        assert(t.subrange(0, i + 1).drop_last() == t.subrange(0, i as int));
        proof {
            lemma_table_total_prefix(t, i + 1);
        }
        total = total + table[i].amount;
        i = i + 1;
    }
    assert(t.subrange(0, i as int) == t);
    if total == 0 {
        return None;
    }
    let random_value: u128 = (seed.w0 as u128) % total;
    let mut current: u128 = 0;
    let mut k: usize = 0;
    while k < table.len()
        invariant
            t == table@,
            table_total(t) <= u128::MAX,
            total == table_total(t),
            total > 0,
            random_value == seed.w0 as int % table_total(t),
            k <= t.len(),
            current == table_total(t.subrange(0, k as int)),
            lottery(t, *seed) == pick_from(t, random_value as int, k as int),
        decreases table.len() - k,
    {
        assert(t.subrange(0, k + 1).drop_last() == t.subrange(0, k as int));
        proof {
            lemma_table_total_prefix(t, k + 1);
        }
        current = current + table[k].amount;
        if current > random_value {
            return Some(table[k].pubkey);
        }
        k = k + 1;
    }
    None
}


proof fn lemma_tables_agree_upto(
    t1: Seq<StakeEntry>,
    t2: Seq<StakeEntry>,
    s: Seq<UtxoEntry>,
    h: Seq<SlashingRecord>,
    height: u64,
    n: int,
)
    requires
        is_stake_table(t1, s, h, height),
        is_stake_table(t2, s, h, height),
        0 <= n <= t1.len(),
        n <= t2.len(),
    ensures
        forall|i: int| 0 <= i < n ==> t1[i] == t2[i],
    decreases n,
{
    if n > 0 {
        lemma_tables_agree_upto(t1, t2, s, h, height, n - 1);
        let i = n - 1;
        let a = t1[i].pubkey;
        let b = t2[i].pubkey;
        if a != b {
            lemma_key_order(a, b, a);
            assert(t1[i].amount >= STAKE_MINIMUM_AMOUNT);
            assert(t2[i].amount >= STAKE_MINIMUM_AMOUNT);
            let ja = choose|j: int| 0 <= j < t2.len() && #[trigger] t2[j].pubkey == a;
            let jb = choose|j: int| 0 <= j < t1.len() && #[trigger] t1[j].pubkey == b;
            if ja < i {
                assert(t1[ja] == t2[ja]);
                assert(key_lt(t1[ja].pubkey, t1[i].pubkey));
                lemma_key_order(a, a, a);
            } else if jb < i {
                assert(t1[jb] == t2[jb]);
                assert(key_lt(t2[jb].pubkey, t2[i].pubkey));
                lemma_key_order(b, b, b);
            } else {
                assert(ja > i && jb > i);
                assert(key_lt(t2[i].pubkey, t2[ja].pubkey));
                assert(key_lt(t1[i].pubkey, t1[jb].pubkey));
            }
        }
        assert(t1[i].amount == effective_stake(s, h, a, height));
        assert(t2[i].amount == effective_stake(s, h, b, height));
    }
}

/// The active stake table is determined by the index, the slashing history and the
/// height: two tables that both meet its definition are equal.
pub proof fn lemma_stake_table_unique(
    t1: Seq<StakeEntry>,
    t2: Seq<StakeEntry>,
    s: Seq<UtxoEntry>,
    h: Seq<SlashingRecord>,
    height: u64,
)
    requires
        is_stake_table(t1, s, h, height),
        is_stake_table(t2, s, h, height),
    ensures
        t1 == t2,
{
    if t1.len() <= t2.len() {
        lemma_tables_agree_upto(t1, t2, s, h, height, t1.len() as int);
        if t1.len() < t2.len() {
            let x = t2[t1.len() as int].pubkey;
            assert(t2[t1.len() as int].amount >= STAKE_MINIMUM_AMOUNT);
            let j = choose|j: int| 0 <= j < t1.len() && #[trigger] t1[j].pubkey == x;
            assert(t1[j] == t2[j]);
            assert(key_lt(t2[j].pubkey, t2[t1.len() as int].pubkey));
            lemma_key_order(x, x, x);
        }
    } else {
        lemma_tables_agree_upto(t1, t2, s, h, height, t2.len() as int);
        let x = t1[t2.len() as int].pubkey;
        assert(t1[t2.len() as int].amount >= STAKE_MINIMUM_AMOUNT);
        let j = choose|j: int| 0 <= j < t2.len() && #[trigger] t2[j].pubkey == x;
        assert(t1[j] == t2[j]);
        assert(key_lt(t1[j].pubkey, t1[t2.len() as int].pubkey));
        lemma_key_order(x, x, x);
    }
    assert(t1 =~= t2);
}

/// The lottery is deterministic: over the stake table of the same index, history and
/// height, the same seed picks the same winner, whatever order the index was scanned in.
pub proof fn lemma_lottery_deterministic(
    t1: Seq<StakeEntry>,
    t2: Seq<StakeEntry>,
    s: Seq<UtxoEntry>,
    h: Seq<SlashingRecord>,
    height: u64,
    seed: Hash256,
)
    requires
        is_stake_table(t1, s, h, height),
        is_stake_table(t2, s, h, height),
    ensures
        lottery(t1, seed) == lottery(t2, seed),
{
    lemma_stake_table_unique(t1, t2, s, h, height);
}

} // verus!
