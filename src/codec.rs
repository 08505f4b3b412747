//! The canonical byte encoding of the data model: fixed-width integers are
//! big-endian, lists carry a 64-bit length prefix, fields come in declaration order.
use vstd::prelude::*;
use crate::types::{Block, BlockHeader, Hash256, PublicKey, Signature, Transaction, TransactionInput, TransactionOutput};

verus! {

pub open spec fn u64_be(x: u64) -> Seq<u8> {
    seq![
        (x >> 56u64) as u8,
        (x >> 48u64) as u8,
        (x >> 40u64) as u8,
        (x >> 32u64) as u8,
        (x >> 24u64) as u8,
        (x >> 16u64) as u8,
        (x >> 8u64) as u8,
        x as u8,
    ]
}

pub open spec fn u128_be(x: u128) -> Seq<u8> {
    u64_be((x >> 64u128) as u64) + u64_be(x as u64)
}

pub open spec fn enc_bool(b: bool) -> Seq<u8> {
    if b {
        seq![1u8]
    } else {
        seq![0u8]
    }
}

pub open spec fn enc_hash(h: Hash256) -> Seq<u8> {
    u64_be(h.w0) + u64_be(h.w1) + u64_be(h.w2) + u64_be(h.w3)
}

pub open spec fn enc_pubkey(k: PublicKey) -> Seq<u8> {
    seq![k.parity] + enc_hash(k.x)
}

pub open spec fn enc_signature(s: Signature) -> Seq<u8> {
    enc_hash(s.r) + enc_hash(s.s)
}

pub open spec fn enc_output(o: TransactionOutput) -> Seq<u8> {
    u128_be(o.unique_id) + u64_be(o.value) + enc_pubkey(o.pubkey) + enc_bool(o.is_stake) + u64_be(
        o.locked_until,
    )
}

pub open spec fn enc_input(i: TransactionInput) -> Seq<u8> {
    enc_hash(i.prev_transaction_output_hash) + enc_signature(i.signature)
}

pub open spec fn enc_inputs(s: Seq<TransactionInput>) -> Seq<u8>
    decreases s.len(),
{
    if s.len() == 0 {
        seq![]
    } else {
        enc_inputs(s.drop_last()) + enc_input(s.last())
    }
}

pub open spec fn enc_outputs(s: Seq<TransactionOutput>) -> Seq<u8>
    decreases s.len(),
{
    if s.len() == 0 {
        seq![]
    } else {
        enc_outputs(s.drop_last()) + enc_output(s.last())
    }
}

/// A transaction's encoding, from its inputs and outputs.
pub open spec fn enc_transaction_parts(ins: Seq<TransactionInput>, outs: Seq<TransactionOutput>) -> Seq<u8> {
    u64_be(ins.len() as u64) + enc_inputs(ins) + u64_be(outs.len() as u64) + enc_outputs(outs)
}

pub open spec fn enc_transaction(t: Transaction) -> Seq<u8> {
    enc_transaction_parts(t.inputs@, t.outputs@)
}

pub open spec fn enc_transactions(s: Seq<Transaction>) -> Seq<u8>
    decreases s.len(),
{
    if s.len() == 0 {
        seq![]
    } else {
        enc_transactions(s.drop_last()) + enc_transaction(s.last())
    }
}

pub open spec fn enc_header(h: BlockHeader) -> Seq<u8> {
    u64_be(h.timestamp as u64) + enc_hash(h.prev_block_hash) + enc_hash(h.merkle_root)
        + enc_pubkey(h.validator)
}

pub open spec fn enc_block(b: Block) -> Seq<u8> {
    enc_header(b.header) + u64_be(b.transactions@.len() as u64) + enc_transactions(
        b.transactions@,
    ) + enc_signature(b.signature)
}

pub fn put_u64(out: &mut Vec<u8>, x: u64)
    ensures
        final(out)@ == old(out)@ + u64_be(x),
{
    out.push((x >> 56u64) as u8);
    out.push((x >> 48u64) as u8);
    out.push((x >> 40u64) as u8);
    out.push((x >> 32u64) as u8);
    out.push((x >> 24u64) as u8);
    out.push((x >> 16u64) as u8);
    out.push((x >> 8u64) as u8);
    out.push(x as u8);
    assert(out@ =~= old(out)@ + u64_be(x));
}

pub fn put_u128(out: &mut Vec<u8>, x: u128)
    ensures
        final(out)@ == old(out)@ + u128_be(x),
{
    put_u64(out, (x >> 64u128) as u64);
    put_u64(out, x as u64);
    assert(out@ =~= old(out)@ + u128_be(x));
}

pub fn put_hash(out: &mut Vec<u8>, h: &Hash256)
    ensures
        final(out)@ == old(out)@ + enc_hash(*h),
{
    put_u64(out, h.w0);
    put_u64(out, h.w1);
    put_u64(out, h.w2);
    put_u64(out, h.w3);
    assert(out@ =~= old(out)@ + enc_hash(*h));
}

pub fn put_pubkey(out: &mut Vec<u8>, k: &PublicKey)
    ensures
        final(out)@ == old(out)@ + enc_pubkey(*k),
{
    out.push(k.parity);
    put_hash(out, &k.x);
    assert(out@ =~= old(out)@ + enc_pubkey(*k));
}

pub fn put_signature(out: &mut Vec<u8>, s: &Signature)
    ensures
        final(out)@ == old(out)@ + enc_signature(*s),
{
    put_hash(out, &s.r);
    put_hash(out, &s.s);
    assert(out@ =~= old(out)@ + enc_signature(*s));
}

pub fn put_output(out: &mut Vec<u8>, o: &TransactionOutput)
    ensures
        final(out)@ == old(out)@ + enc_output(*o),
{
    put_u128(out, o.unique_id);
    put_u64(out, o.value);
    put_pubkey(out, &o.pubkey);
    if o.is_stake {
        out.push(1u8);
    } else {
        out.push(0u8);
    }
    put_u64(out, o.locked_until);
    assert(out@ =~= old(out)@ + enc_output(*o));
}

pub fn put_input(out: &mut Vec<u8>, i: &TransactionInput)
    ensures
        final(out)@ == old(out)@ + enc_input(*i),
{
    put_hash(out, &i.prev_transaction_output_hash);
    put_signature(out, &i.signature);
    assert(out@ =~= old(out)@ + enc_input(*i));
}

pub fn put_transaction(out: &mut Vec<u8>, t: &Transaction)
    ensures
        final(out)@ == old(out)@ + enc_transaction(*t),
{
    let ghost start = out@;
    put_u64(out, t.inputs.len() as u64);
    let mut i: usize = 0;
    while i < t.inputs.len()
        invariant
            i <= t.inputs.len(),
            out@ == start + u64_be(t.inputs@.len() as u64) + enc_inputs(
                t.inputs@.subrange(0, i as int),
            ),
        decreases t.inputs.len() - i,
    {
        assert(t.inputs@.subrange(0, i + 1).drop_last() == t.inputs@.subrange(0, i as int));
        put_input(out, &t.inputs[i]);
        i = i + 1;
        assert(out@ =~= start + u64_be(t.inputs@.len() as u64) + enc_inputs(
            t.inputs@.subrange(0, i as int),
        ));
    }
    assert(t.inputs@.subrange(0, i as int) == t.inputs@);
    let ghost mid = out@;
    put_u64(out, t.outputs.len() as u64);
    let mut j: usize = 0;
    while j < t.outputs.len()
        invariant
            j <= t.outputs.len(),
            out@ == mid + u64_be(t.outputs@.len() as u64) + enc_outputs(
                t.outputs@.subrange(0, j as int),
            ),
        decreases t.outputs.len() - j,
    {
        assert(t.outputs@.subrange(0, j + 1).drop_last() == t.outputs@.subrange(0, j as int));
        put_output(out, &t.outputs[j]);
        j = j + 1;
        assert(out@ =~= mid + u64_be(t.outputs@.len() as u64) + enc_outputs(
            t.outputs@.subrange(0, j as int),
        ));
    }
    assert(t.outputs@.subrange(0, j as int) == t.outputs@);
    assert(out@ =~= start + enc_transaction(*t));
}

pub fn put_header(out: &mut Vec<u8>, h: &BlockHeader)
    ensures
        final(out)@ == old(out)@ + enc_header(*h),
{
    put_u64(out, h.timestamp as u64);
    put_hash(out, &h.prev_block_hash);
    put_hash(out, &h.merkle_root);
    put_pubkey(out, &h.validator);
    assert(out@ =~= old(out)@ + enc_header(*h));
}

pub fn put_block(out: &mut Vec<u8>, b: &Block)
    ensures
        final(out)@ == old(out)@ + enc_block(*b),
{
    let ghost start = out@;
    put_header(out, &b.header);
    put_u64(out, b.transactions.len() as u64);
    let ghost mid = out@;
    let mut i: usize = 0;
    while i < b.transactions.len()
        invariant
            i <= b.transactions.len(),
            out@ == mid + enc_transactions(b.transactions@.subrange(0, i as int)),
        decreases b.transactions.len() - i,
    {
        assert(b.transactions@.subrange(0, i + 1).drop_last() == b.transactions@.subrange(
            0,
            i as int,
        ));
        put_transaction(out, &b.transactions[i]);
        i = i + 1;
        assert(out@ =~= mid + enc_transactions(b.transactions@.subrange(0, i as int)));
    }
    assert(b.transactions@.subrange(0, i as int) == b.transactions@);
    put_signature(out, &b.signature);
    assert(out@ =~= start + enc_block(*b));
}

} // verus!
