//! The merkle root of an ordered transaction list: leaves are transaction hashes,
//! each layer hashes adjacent pairs, and an odd last node is paired with itself.
use vstd::prelude::*;
use crate::codec::{enc_hash, put_hash};
use crate::crypto::{hash_bytes, hash_of, transaction_hash};
use crate::types::{Hash256, Transaction};

verus! {

pub open spec fn pair_hash(a: Hash256, b: Hash256) -> Hash256 {
    hash_of(enc_hash(a) + enc_hash(b))
}

pub open spec fn next_layer(s: Seq<Hash256>) -> Seq<Hash256> {
    Seq::new(
        ((s.len() + 1) / 2) as nat,
        |k: int| pair_hash(s[2 * k], if 2 * k + 1 < s.len() { s[2 * k + 1] } else { s[2 * k] }),
    )
}

pub open spec fn merkle_of(s: Seq<Hash256>) -> Hash256
    decreases s.len(),
{
    if s.len() == 0 {
        Hash256::zero_spec()
    } else if s.len() == 1 {
        s[0]
    } else {
        merkle_of(next_layer(s))
    }
}

pub open spec fn transaction_hashes(txs: Seq<Transaction>) -> Seq<Hash256> {
    txs.map_values(|t: Transaction| transaction_hash(t))
}

/// The merkle root of a transaction list; the zero hash for an empty list.
pub open spec fn merkle_root(txs: Seq<Transaction>) -> Hash256 {
    merkle_of(transaction_hashes(txs))
}

fn hash_pair(a: &Hash256, b: &Hash256) -> (r: Hash256)
    ensures
        r == pair_hash(*a, *b),
{
    let mut bytes: Vec<u8> = Vec::new();
    put_hash(&mut bytes, a);
    put_hash(&mut bytes, b);
    assert(bytes@ =~= enc_hash(*a) + enc_hash(*b));
    hash_bytes(bytes.as_slice())
}

fn layer_above(layer: &Vec<Hash256>) -> (r: Vec<Hash256>)
    ensures
        r@ == next_layer(layer@),
{
    let n = layer.len();
    let mut out: Vec<Hash256> = Vec::new();
    let mut k: usize = 0;
    while k < n - k
        invariant
            n == layer@.len(),
            k <= n,
            2 * k <= n + 1,
            k <= (n + 1) / 2,
            out@ == next_layer(layer@).subrange(0, k as int),
        decreases n - k,
    {
        let left = layer[2 * k];
        let right = if 2 * k + 1 < n {
            layer[2 * k + 1]
        } else {
            layer[2 * k]
        };
        out.push(hash_pair(&left, &right));
        k = k + 1;
        assert(out@ =~= next_layer(layer@).subrange(0, k as int));
    }
    assert(out@ =~= next_layer(layer@));
    out
}

/// The merkle root of `transactions`, in list order.
pub fn calculate_merkle_root(transactions: &Vec<Transaction>) -> (r: Hash256)
    ensures
        r == merkle_root(transactions@),
{
    let mut layer: Vec<Hash256> = Vec::new();
    let mut i: usize = 0;
    while i < transactions.len()
        invariant
            i <= transactions.len(),
            layer@ == transaction_hashes(transactions@.subrange(0, i as int)),
        decreases transactions.len() - i,
    {
        layer.push(transactions[i].hash());
        i = i + 1;
        assert(layer@ =~= transaction_hashes(transactions@.subrange(0, i as int)));
    }
    assert(transactions@.subrange(0, i as int) == transactions@);
    while layer.len() > 1
        invariant
            merkle_of(layer@) == merkle_root(transactions@),
        decreases layer@.len(),
    {
        layer = layer_above(&layer);
    }
    if layer.len() == 0 {
        Hash256::zero()
    } else {
        layer[0]
    }
}

} // verus!
