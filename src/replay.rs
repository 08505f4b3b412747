//! Laws of UTXO replay, stated over the sequence of spends and creations that a
//! chain performs in order.
use vstd::prelude::*;
use crate::crypto::output_hash;
use crate::types::{Block, Hash256, Transaction, TransactionInput, TransactionOutput};
use crate::utxo::{apply_blocks, apply_transactions, insert_outputs, remove_inputs};

verus! {

/// One step of replay: an input spends an output, or a transaction creates one.
#[derive(Clone, Copy, Debug, PartialEq, Eq, Structural)]
pub enum UtxoEvent {
    Spend(Hash256),
    Create(Hash256, TransactionOutput),
}

pub open spec fn key_of(e: UtxoEvent) -> Hash256 {
    match e {
        UtxoEvent::Spend(h) => h,
        UtxoEvent::Create(h, _) => h,
    }
}

pub open spec fn apply_event(m: Map<Hash256, (bool, TransactionOutput)>, e: UtxoEvent) -> Map<Hash256, (bool, TransactionOutput)> {
    match e {
        UtxoEvent::Spend(h) => m.remove(h),
        UtxoEvent::Create(h, o) => m.insert(h, (false, o)),
    }
}

pub open spec fn apply_events(m: Map<Hash256, (bool, TransactionOutput)>, es: Seq<UtxoEvent>) -> Map<Hash256, (bool, TransactionOutput)>
    decreases es.len(),
{
    if es.len() == 0 {
        m
    } else {
        apply_event(apply_events(m, es.drop_last()), es.last())
    }
}

pub open spec fn input_events(ins: Seq<TransactionInput>) -> Seq<UtxoEvent> {
    ins.map_values(|i: TransactionInput| UtxoEvent::Spend(i.prev_transaction_output_hash))
}

pub open spec fn output_events(outs: Seq<TransactionOutput>) -> Seq<UtxoEvent> {
    outs.map_values(|o: TransactionOutput| UtxoEvent::Create(output_hash(o), o))
}

pub open spec fn transaction_events(t: Transaction) -> Seq<UtxoEvent> {
    input_events(t.inputs@) + output_events(t.outputs@)
}

pub open spec fn transactions_events(s: Seq<Transaction>) -> Seq<UtxoEvent>
    decreases s.len(),
{
    if s.len() == 0 {
        seq![]
    } else {
        transactions_events(s.drop_last()) + transaction_events(s.last())
    }
}

/// Every spend and creation of a chain, in the order in which replay performs them.
pub open spec fn chain_events(bs: Seq<Block>) -> Seq<UtxoEvent>
    decreases bs.len(),
{
    if bs.len() == 0 {
        seq![]
    } else {
        chain_events(bs.drop_last()) + transactions_events(bs.last().transactions@)
    }
}

pub proof fn lemma_apply_events_concat(
    m: Map<Hash256, (bool, TransactionOutput)>,
    a: Seq<UtxoEvent>,
    b: Seq<UtxoEvent>,
)
    ensures
        apply_events(m, a + b) == apply_events(apply_events(m, a), b),
    decreases b.len(),
{
    if b.len() == 0 {
        assert(a + b == a);
    } else {
        lemma_apply_events_concat(m, a, b.drop_last());
        assert((a + b).drop_last() == a + b.drop_last());
    }
}

proof fn lemma_remove_inputs_events(m: Map<Hash256, (bool, TransactionOutput)>, ins: Seq<TransactionInput>)
    ensures
        remove_inputs(m, ins) == apply_events(m, input_events(ins)),
    decreases ins.len(),
{
    if ins.len() > 0 {
        lemma_remove_inputs_events(m, ins.drop_last());
        assert(input_events(ins).drop_last() == input_events(ins.drop_last()));
    } else {
        assert(input_events(ins) == Seq::<UtxoEvent>::empty());
    }
}

proof fn lemma_insert_outputs_events(m: Map<Hash256, (bool, TransactionOutput)>, outs: Seq<TransactionOutput>)
    ensures
        insert_outputs(m, outs) == apply_events(m, output_events(outs)),
    decreases outs.len(),
{
    if outs.len() > 0 {
        lemma_insert_outputs_events(m, outs.drop_last());
        assert(output_events(outs).drop_last() == output_events(outs.drop_last()));
    } else {
        assert(output_events(outs) == Seq::<UtxoEvent>::empty());
    }
}

proof fn lemma_transactions_events(m: Map<Hash256, (bool, TransactionOutput)>, s: Seq<Transaction>)
    ensures
        apply_transactions(m, s) == apply_events(m, transactions_events(s)),
    decreases s.len(),
{
    if s.len() > 0 {
        lemma_transactions_events(m, s.drop_last());
        let t = s.last();
        let m1 = apply_transactions(m, s.drop_last());
        lemma_remove_inputs_events(m1, t.inputs@);
        lemma_insert_outputs_events(remove_inputs(m1, t.inputs@), t.outputs@);
        lemma_apply_events_concat(m1, input_events(t.inputs@), output_events(t.outputs@));
        lemma_apply_events_concat(m, transactions_events(s.drop_last()), transaction_events(t));
    }
}

/// Replaying blocks is replaying their events in order.
pub proof fn lemma_chain_events(m: Map<Hash256, (bool, TransactionOutput)>, bs: Seq<Block>)
    ensures
        apply_blocks(m, bs) == apply_events(m, chain_events(bs)),
    decreases bs.len(),
{
    if bs.len() > 0 {
        lemma_chain_events(m, bs.drop_last());
        lemma_transactions_events(apply_blocks(m, bs.drop_last()), bs.last().transactions@);
        lemma_apply_events_concat(m, chain_events(bs.drop_last()), transactions_events(bs.last().transactions@));
    }
}

pub open spec fn agree_at(a: Map<Hash256, (bool, TransactionOutput)>, b: Map<Hash256, (bool, TransactionOutput)>, h: Hash256) -> bool {
    a.contains_key(h) == b.contains_key(h) && (a.contains_key(h) ==> a[h] == b[h])
}

proof fn lemma_untouched(m: Map<Hash256, (bool, TransactionOutput)>, es: Seq<UtxoEvent>, h: Hash256)
    requires
        forall|k: int| 0 <= k < es.len() ==> key_of(#[trigger] es[k]) != h,
    ensures
        agree_at(apply_events(m, es), m, h),
    decreases es.len(),
{
    if es.len() > 0 {
        assert(key_of(es[es.len() - 1]) != h);
        lemma_untouched(m, es.drop_last(), h);
    }
}

proof fn lemma_touched(
    m1: Map<Hash256, (bool, TransactionOutput)>,
    m2: Map<Hash256, (bool, TransactionOutput)>,
    es: Seq<UtxoEvent>,
    h: Hash256,
)
    requires
        exists|k: int| 0 <= k < es.len() && key_of(#[trigger] es[k]) == h,
    ensures
        agree_at(apply_events(m1, es), apply_events(m2, es), h),
    decreases es.len(),
{
    if key_of(es.last()) != h {
        let k = choose|k: int| 0 <= k < es.len() && key_of(#[trigger] es[k]) == h;
        assert(es.drop_last()[k] == es[k]);
        lemma_touched(m1, m2, es.drop_last(), h);
    }
}

/// Replaying the same events twice gives what replaying them once gives.
pub proof fn lemma_apply_events_idempotent(m: Map<Hash256, (bool, TransactionOutput)>, es: Seq<UtxoEvent>)
    ensures
        apply_events(apply_events(m, es), es) == apply_events(m, es),
{
    let once = apply_events(m, es);
    let twice = apply_events(once, es);
    assert forall|h: Hash256| #[trigger] twice.contains_key(h) == once.contains_key(h) && (twice.contains_key(h) ==> twice[h] == once[h]) by {
        if exists|k: int| 0 <= k < es.len() && key_of(#[trigger] es[k]) == h {
            lemma_touched(once, m, es, h);
        } else {
            lemma_untouched(once, es, h);
        }
    }
    assert(twice.dom() =~= once.dom());
    assert(twice =~= once);
}

/// UTXO rebuild is idempotent: replaying the chain over the index it produced
/// changes nothing.
pub proof fn lemma_rebuild_idempotent(m: Map<Hash256, (bool, TransactionOutput)>, bs: Seq<Block>)
    ensures
        apply_blocks(apply_blocks(m, bs), bs) == apply_blocks(m, bs),
{
    lemma_chain_events(m, bs);
    lemma_chain_events(apply_blocks(m, bs), bs);
    lemma_apply_events_idempotent(m, chain_events(bs));
}

/// An output with hash `h` is created at `p` and no later input spends it.
pub open spec fn created_and_unspent(es: Seq<UtxoEvent>, h: Hash256, p: int) -> bool {
    &&& 0 <= p < es.len()
    &&& es[p] matches UtxoEvent::Create(g, _) && g == h
    &&& forall|q: int| p < q < es.len() ==> es[q] != UtxoEvent::Spend(h)
}

proof fn lemma_replay_from_empty(es: Seq<UtxoEvent>, h: Hash256)
    ensures
        apply_events(Map::empty(), es).contains_key(h) <==> exists|p: int| created_and_unspent(es, h, p),
        apply_events(Map::empty(), es).contains_key(h) ==> {
            let v = apply_events(Map::empty(), es)[h];
            !v.0 && exists|p: int| 0 <= p < es.len() && es[p] == UtxoEvent::Create(h, v.1)
        },
    decreases es.len(),
{
    let m = apply_events(Map::<Hash256, (bool, TransactionOutput)>::empty(), es);
    if es.len() > 0 {
        let d = es.drop_last();
        let n = es.len() - 1;
        lemma_replay_from_empty(d, h);
        let last = es[n];
        if key_of(last) != h {
            if exists|p: int| created_and_unspent(d, h, p) {
                let p = choose|p: int| created_and_unspent(d, h, p);
                assert(created_and_unspent(es, h, p)) by {
                    assert(es[p] == d[p]);
                    assert forall|q: int| p < q < es.len() implies es[q] != UtxoEvent::Spend(h) by {
                        if q < n {
                            assert(es[q] == d[q]);
                        }
                    }
                }
            }
            if exists|p: int| created_and_unspent(es, h, p) {
                let p = choose|p: int| created_and_unspent(es, h, p);
                assert(p != n);
                assert(created_and_unspent(d, h, p)) by {
                    assert(es[p] == d[p]);
                    assert forall|q: int| p < q < d.len() implies d[q] != UtxoEvent::Spend(h) by {
                        assert(es[q] == d[q]);
                    }
                }
            }
            if m.contains_key(h) {
                let v = m[h];
                let p = choose|p: int| 0 <= p < d.len() && d[p] == UtxoEvent::Create(h, v.1);
                assert(es[p] == d[p]);
            }
        } else {
            match last {
                UtxoEvent::Spend(g) => {
                    assert(!m.contains_key(h));
                    assert forall|p: int| !created_and_unspent(es, h, p) by {
                        if 0 <= p < n {
                            assert(es[n] == UtxoEvent::Spend(h));
                        }
                    }
                },
                UtxoEvent::Create(g, o) => {
                    assert(created_and_unspent(es, h, n));
                    assert(es[n] == UtxoEvent::Create(h, m[h].1));
                },
            }
        }
    }
}

/// After a rebuild from an empty index, the index holds exactly the outputs that the
/// chain creates and no later input spends, each unmarked and equal to an output
/// the chain creates with that hash.
pub proof fn lemma_rebuild_from_empty(bs: Seq<Block>, h: Hash256)
    ensures
        apply_blocks(Map::empty(), bs).contains_key(h) <==> exists|p: int| created_and_unspent(chain_events(bs), h, p),
        apply_blocks(Map::empty(), bs).contains_key(h) ==> {
            let v = apply_blocks(Map::empty(), bs)[h];
            !v.0 && exists|p: int| 0 <= p < chain_events(bs).len() && chain_events(bs)[p] == UtxoEvent::Create(h, v.1)
        },
{
    lemma_chain_events(Map::empty(), bs);
    lemma_replay_from_empty(chain_events(bs), h);
}

} // verus!
