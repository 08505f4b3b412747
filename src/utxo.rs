//! The UTXO index: output hash to `(marked, output)`, kept as a vector of entries
//! whose hashes are pairwise distinct.
use vstd::prelude::*;
use crate::crypto::output_hash;
use crate::types::{Block, Hash256, Transaction, TransactionInput, TransactionOutput};

verus! {

#[derive(Clone, Copy, Debug, PartialEq, Eq, Structural)]
pub struct UtxoEntry {
    pub hash: Hash256,
    pub marked: bool,
    pub output: TransactionOutput,
}

#[derive(Clone, Debug)]
pub struct UtxoIndex {
    pub entries: Vec<UtxoEntry>,
}

pub open spec fn keys_unique(s: Seq<UtxoEntry>) -> bool {
    forall|i: int, j: int| 0 <= i < s.len() && 0 <= j < s.len() && i != j ==> s[i].hash != s[j].hash
}

pub open spec fn has_key(s: Seq<UtxoEntry>, h: Hash256) -> bool {
    exists|i: int| 0 <= i < s.len() && s[i].hash == h
}

pub open spec fn index_view(s: Seq<UtxoEntry>) -> Map<Hash256, (bool, TransactionOutput)> {
    Map::new(
        |h: Hash256| has_key(s, h),
        |h: Hash256|
            {
                let i = choose|i: int| 0 <= i < s.len() && s[i].hash == h;
                (s[i].marked, s[i].output)
            },
    )
}

pub proof fn lemma_index_at(s: Seq<UtxoEntry>, i: int)
    requires
        keys_unique(s),
        0 <= i < s.len(),
    ensures
        index_view(s).contains_key(s[i].hash),
        index_view(s)[s[i].hash] == (s[i].marked, s[i].output),
{
    let h = s[i].hash;
    assert(has_key(s, h));
    let j = choose|j: int| 0 <= j < s.len() && s[j].hash == h;
    assert(j == i);
}

impl View for UtxoIndex {
    type V = Map<Hash256, (bool, TransactionOutput)>;

    open spec fn view(&self) -> Map<Hash256, (bool, TransactionOutput)> {
        index_view(self.entries@)
    }
}

/// Removes the outputs that the inputs spend, in order.
pub open spec fn remove_inputs(
    m: Map<Hash256, (bool, TransactionOutput)>,
    s: Seq<TransactionInput>,
) -> Map<Hash256, (bool, TransactionOutput)>
    decreases s.len(),
{
    if s.len() == 0 {
        m
    } else {
        remove_inputs(m, s.drop_last()).remove(s.last().prev_transaction_output_hash)
    }
}

/// Inserts the outputs, unmarked, in order.
pub open spec fn insert_outputs(
    m: Map<Hash256, (bool, TransactionOutput)>,
    s: Seq<TransactionOutput>,
) -> Map<Hash256, (bool, TransactionOutput)>
    decreases s.len(),
{
    if s.len() == 0 {
        m
    } else {
        insert_outputs(m, s.drop_last()).insert(output_hash(s.last()), (false, s.last()))
    }
}

pub open spec fn apply_transaction(
    m: Map<Hash256, (bool, TransactionOutput)>,
    t: Transaction,
) -> Map<Hash256, (bool, TransactionOutput)> {
    insert_outputs(remove_inputs(m, t.inputs@), t.outputs@)
}

pub open spec fn apply_transactions(
    m: Map<Hash256, (bool, TransactionOutput)>,
    s: Seq<Transaction>,
) -> Map<Hash256, (bool, TransactionOutput)>
    decreases s.len(),
{
    if s.len() == 0 {
        m
    } else {
        apply_transaction(apply_transactions(m, s.drop_last()), s.last())
    }
}

/// The index after replaying the blocks over `m`: each transaction removes what its
/// inputs spend, then inserts its outputs unmarked.
pub open spec fn apply_blocks(
    m: Map<Hash256, (bool, TransactionOutput)>,
    s: Seq<Block>,
) -> Map<Hash256, (bool, TransactionOutput)>
    decreases s.len(),
{
    if s.len() == 0 {
        m
    } else {
        apply_transactions(apply_blocks(m, s.drop_last()), s.last().transactions@)
    }
}

impl UtxoIndex {
    pub open spec fn wf(&self) -> bool {
        keys_unique(self.entries@)
    }

    pub fn new() -> (r: UtxoIndex)
        ensures
            r.wf(),
            r@ == Map::<Hash256, (bool, TransactionOutput)>::empty(),
    {
        let r = UtxoIndex { entries: Vec::new() };
        assert(r@ =~= Map::<Hash256, (bool, TransactionOutput)>::empty());
        r
    }

    pub fn len(&self) -> (r: usize)
        ensures
            r == self.entries@.len(),
    {
        self.entries.len()
    }

    /// The position of the entry for `h`.
    pub fn find(&self, h: &Hash256) -> (r: Option<usize>)
        requires
            self.wf(),
        ensures
            r matches Some(i) ==> i < self.entries@.len() && self.entries@[i as int].hash == *h,
            r is None <==> !self@.contains_key(*h),
    {
        let mut i: usize = 0;
        while i < self.entries.len()
            invariant
                self.wf(),
                i <= self.entries@.len(),
                forall|j: int| 0 <= j < i ==> self.entries@[j].hash != *h,
            decreases self.entries.len() - i,
        {
            if self.entries[i].hash == *h {
                proof {
                    lemma_index_at(self.entries@, i as int);
                }
                return Some(i);
            }
            i = i + 1;
        }
        None
    }

    pub fn contains_key(&self, h: &Hash256) -> (r: bool)
        requires
            self.wf(),
        ensures
            r == self@.contains_key(*h),
    {
        self.find(h).is_some()
    }

    pub fn get(&self, h: &Hash256) -> (r: Option<(bool, TransactionOutput)>)
        requires
            self.wf(),
        ensures
            r == (if self@.contains_key(*h) {
                Some(self@[*h])
            } else {
                None::<(bool, TransactionOutput)>
            }),
    {
        match self.find(h) {
            Some(i) => {
                proof {
                    lemma_index_at(self.entries@, i as int);
                }
                Some((self.entries[i].marked, self.entries[i].output))
            },
            None => None,
        }
    }

    /// Sets or replaces the entry for `h`.
    pub fn insert(&mut self, h: Hash256, marked: bool, output: TransactionOutput)
        requires
            old(self).wf(),
        ensures
            final(self).wf(),
            final(self)@ == old(self)@.insert(h, (marked, output)),
    {
        let e = UtxoEntry { hash: h, marked, output };
        let ghost s0 = self.entries@;
        match self.find(&h) {
            Some(i) => {
                self.entries.set(i, e);
                let ghost s1 = self.entries@;
                assert(s1 == s0.update(i as int, e));
                assert(keys_unique(s1));
                assert forall|k: Hash256| #[trigger] self@.contains_key(k) == index_view(s0).insert(h, (marked, output)).contains_key(k) by {
                    if has_key(s1, k) {
                        let j = choose|j: int| 0 <= j < s1.len() && s1[j].hash == k;
                        if j != i {
                            assert(s0[j].hash == k);
                        }
                    }
                    if has_key(s0, k) && k != h {
                        let j = choose|j: int| 0 <= j < s0.len() && s0[j].hash == k;
                        assert(s1[j].hash == k);
                    }
                    if k == h {
                        assert(s1[i as int].hash == k);
                    }
                }
                assert forall|k: Hash256| #[trigger] self@.contains_key(k) implies self@[k] == index_view(s0).insert(h, (marked, output))[k] by {
                    let j = choose|j: int| 0 <= j < s1.len() && s1[j].hash == k;
                    lemma_index_at(s1, j);
                    if k != h {
                        assert(j != i);
                        lemma_index_at(s0, j);
                    } else {
                        lemma_index_at(s1, i as int);
                    }
                }
                assert(self@ =~= old(self)@.insert(h, (marked, output)));
            },
            None => {
                self.entries.push(e);
                let ghost s1 = self.entries@;
                assert(s1 == s0.push(e));
                assert forall|a: int, b: int| 0 <= a < s1.len() && 0 <= b < s1.len() && a != b implies s1[a].hash != s1[b].hash by {
                    if a == s0.len() as int {
                        assert(!has_key(s0, h));
                        assert(s0[b].hash == s1[b].hash);
                    } else if b == s0.len() as int {
                        assert(!has_key(s0, h));
                        assert(s0[a].hash == s1[a].hash);
                    }
                }
                assert forall|k: Hash256| #[trigger] self@.contains_key(k) == index_view(s0).insert(h, (marked, output)).contains_key(k) by {
                    if has_key(s1, k) {
                        let j = choose|j: int| 0 <= j < s1.len() && s1[j].hash == k;
                        if j < s0.len() {
                            assert(s0[j].hash == k);
                        }
                    }
                    if has_key(s0, k) {
                        let j = choose|j: int| 0 <= j < s0.len() && s0[j].hash == k;
                        assert(s1[j].hash == k);
                    }
                    if k == h {
                        assert(s1[s0.len() as int].hash == k);
                    }
                }
                assert forall|k: Hash256| #[trigger] self@.contains_key(k) implies self@[k] == index_view(s0).insert(h, (marked, output))[k] by {
                    let j = choose|j: int| 0 <= j < s1.len() && s1[j].hash == k;
                    lemma_index_at(s1, j);
                    if j < s0.len() {
                        lemma_index_at(s0, j);
                    }
                }
                assert(self@ =~= old(self)@.insert(h, (marked, output)));
            },
        }
    }

    /// Removes the entry for `h`, if any.
    pub fn remove(&mut self, h: &Hash256)
        requires
            old(self).wf(),
        ensures
            final(self).wf(),
            final(self)@ == old(self)@.remove(*h),
    {
        let ghost s0 = self.entries@;
        match self.find(h) {
            Some(i) => {
                self.entries.remove(i);
                let ghost s1 = self.entries@;
                assert(s1 == s0.remove(i as int));
                assert forall|a: int, b: int| 0 <= a < s1.len() && 0 <= b < s1.len() && a != b implies s1[a].hash != s1[b].hash by {
                    let a0 = if a < i { a } else { a + 1 };
                    let b0 = if b < i { b } else { b + 1 };
                    assert(s1[a] == s0[a0]);
                    assert(s1[b] == s0[b0]);
                }
                assert forall|k: Hash256| #[trigger] self@.contains_key(k) == index_view(s0).remove(*h).contains_key(k) by {
                    if has_key(s1, k) {
                        let j = choose|j: int| 0 <= j < s1.len() && s1[j].hash == k;
                        let j0 = if j < i { j } else { j + 1 };
                        assert(s0[j0].hash == k);
                        assert(j0 != i);
                    }
                    if has_key(s0, k) && k != *h {
                        let j = choose|j: int| 0 <= j < s0.len() && s0[j].hash == k;
                        assert(j != i);
                        let j1 = if j < i { j } else { j - 1 };
                        assert(s1[j1].hash == k);
                    }
                }
                assert forall|k: Hash256| #[trigger] self@.contains_key(k) implies self@[k] == index_view(s0).remove(*h)[k] by {
                    let j = choose|j: int| 0 <= j < s1.len() && s1[j].hash == k;
                    lemma_index_at(s1, j);
                    let j0 = if j < i { j } else { j + 1 };
                    assert(s1[j] == s0[j0]);
                    lemma_index_at(s0, j0);
                }
                assert(self@ =~= old(self)@.remove(*h));
            },
            None => {
                assert(self@ =~= old(self)@.remove(*h));
            },
        }
    }

    /// Sets the soft-lock flag of the entry for `h`, if there is one.
    pub fn set_marked(&mut self, h: &Hash256, marked: bool)
        requires
            old(self).wf(),
        ensures
            final(self).wf(),
            final(self)@ == (if old(self)@.contains_key(*h) {
                old(self)@.insert(*h, (marked, old(self)@[*h].1))
            } else {
                old(self)@
            }),
    {
        match self.get(h) {
            Some((_, output)) => {
                self.insert(*h, marked, output);
            },
            None => {},
        }
    }

    /// Replays one transaction: removes what its inputs spend, then inserts its outputs unmarked.
    pub fn apply_transaction(&mut self, t: &Transaction)
        requires
            old(self).wf(),
        ensures
            final(self).wf(),
            final(self)@ == apply_transaction(old(self)@, *t),
    {
        let ghost m0 = self@;
        let mut i: usize = 0;
        while i < t.inputs.len()
            invariant
                self.wf(),
                i <= t.inputs@.len(),
                self@ == remove_inputs(m0, t.inputs@.subrange(0, i as int)),
            decreases t.inputs.len() - i,
        {
            assert(t.inputs@.subrange(0, i + 1).drop_last() == t.inputs@.subrange(0, i as int));
            self.remove(&t.inputs[i].prev_transaction_output_hash);
            i = i + 1;
        }
        assert(t.inputs@.subrange(0, i as int) == t.inputs@);
        let ghost m1 = self@;
        let mut j: usize = 0;
        while j < t.outputs.len()
            invariant
                self.wf(),
                j <= t.outputs@.len(),
                self@ == insert_outputs(m1, t.outputs@.subrange(0, j as int)),
            decreases t.outputs.len() - j,
        {
            assert(t.outputs@.subrange(0, j + 1).drop_last() == t.outputs@.subrange(0, j as int));
            let o = t.outputs[j];
            let h = o.hash();
            self.insert(h, false, o);
            j = j + 1;
        }
        assert(t.outputs@.subrange(0, j as int) == t.outputs@);
    }
}

} // verus!
