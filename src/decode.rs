//! Decoding of the canonical transaction encoding, and the law that it inverts encoding.
use vstd::prelude::*;
use crate::codec::{put_block, enc_block, enc_header, enc_transactions, put_transaction, enc_hash, enc_input, enc_inputs, enc_output, enc_outputs, enc_pubkey, enc_signature, enc_transaction, u128_be, u64_be};
use crate::crypto::{be_word, hash_from_bytes, lemma_word_round_trip, read_hash, read_word};
use crate::types::{Block, BlockHeader, Hash256, PublicKey, Signature, Transaction, TransactionInput, TransactionOutput};

verus! {

pub open spec fn dec_u128(b: Seq<u8>, p: int) -> u128 {
    ((be_word(b, p) as u128) << 64u128) | (be_word(b, p + 8) as u128)
}

/// An input takes 96 bytes: the spent output's hash, then the signature.
pub open spec fn dec_input(b: Seq<u8>, p: int) -> TransactionInput {
    TransactionInput {
        prev_transaction_output_hash: hash_from_bytes(b, p),
        signature: Signature { r: hash_from_bytes(b, p + 32), s: hash_from_bytes(b, p + 64) },
    }
}

/// An output takes 66 bytes: id, value, key, stake flag, lock height.
pub open spec fn dec_output(b: Seq<u8>, p: int) -> TransactionOutput {
    TransactionOutput {
        unique_id: dec_u128(b, p),
        value: be_word(b, p + 16),
        pubkey: PublicKey { parity: b[p + 24], x: hash_from_bytes(b, p + 25) },
        is_stake: b[p + 57] == 1,
        locked_until: be_word(b, p + 58),
    }
}

/// The stake flag byte of the output at `p`.
pub open spec fn stake_flag(b: Seq<u8>, p: int) -> u8 {
    b[p + 57]
}

/// The transaction that `b` encodes: its inputs and outputs, or `None` when the
/// lengths do not add up or a stake flag is neither 0 nor 1.
pub open spec fn dec_transaction(b: Seq<u8>) -> Option<(Seq<TransactionInput>, Seq<TransactionOutput>)> {
    if b.len() < 8 {
        None
    } else {
        let n = be_word(b, 0) as int;
        let q = 8 + 96 * n;
        if q + 8 > b.len() {
            None
        } else {
            let m = be_word(b, q) as int;
            if q + 8 + 66 * m != b.len() || exists|k: int| 0 <= k < m && #[trigger] stake_flag(b, q + 8 + 66 * k) > 1 {
                None
            } else {
                Some((Seq::new(n as nat, |k: int| dec_input(b, 8 + 96 * k)), Seq::new(m as nat, |k: int| dec_output(b, q + 8 + 66 * k))))
            }
        }
    }
}

proof fn lemma_hash_round_trip(h: Hash256, b: Seq<u8>, p: int)
    requires
        0 <= p,
        p + 32 <= b.len(),
        b.subrange(p, p + 32) == enc_hash(h),
    ensures
        hash_from_bytes(b, p) == h,
{
    let e = enc_hash(h);
    assert(b.subrange(p, p + 8) =~= u64_be(h.w0)) by {
        assert forall|i: int| 0 <= i < 8 implies b.subrange(p, p + 8)[i] == u64_be(h.w0)[i] by {
            assert(b.subrange(p, p + 32)[i] == e[i]);
        }
    }
    assert(b.subrange(p + 8, p + 16) =~= u64_be(h.w1)) by {
        assert forall|i: int| 0 <= i < 8 implies b.subrange(p + 8, p + 16)[i] == u64_be(h.w1)[i] by {
            assert(b.subrange(p, p + 32)[8 + i] == e[8 + i]);
        }
    }
    assert(b.subrange(p + 16, p + 24) =~= u64_be(h.w2)) by {
        assert forall|i: int| 0 <= i < 8 implies b.subrange(p + 16, p + 24)[i] == u64_be(h.w2)[i] by {
            assert(b.subrange(p, p + 32)[16 + i] == e[16 + i]);
        }
    }
    assert(b.subrange(p + 24, p + 32) =~= u64_be(h.w3)) by {
        assert forall|i: int| 0 <= i < 8 implies b.subrange(p + 24, p + 32)[i] == u64_be(h.w3)[i] by {
            assert(b.subrange(p, p + 32)[24 + i] == e[24 + i]);
        }
    }
    lemma_word_round_trip(h.w0, b, p);
    lemma_word_round_trip(h.w1, b, p + 8);
    lemma_word_round_trip(h.w2, b, p + 16);
    lemma_word_round_trip(h.w3, b, p + 24);
}

proof fn lemma_slice(b: Seq<u8>, p: int, e: Seq<u8>, off: int, len: int)
    requires
        0 <= p,
        p + e.len() <= b.len(),
        b.subrange(p, p + e.len()) == e,
        0 <= off,
        0 <= len,
        off + len <= e.len(),
    ensures
        b.subrange(p + off, p + off + len) == e.subrange(off, off + len),
{
    let lhs = b.subrange(p + off, p + off + len);
    let rhs = e.subrange(off, off + len);
    assert forall|i: int| 0 <= i < len implies #[trigger] lhs[i] == rhs[i] by {
        assert(b.subrange(p, p + e.len())[off + i] == e[off + i]);
    }
    assert(b.subrange(p + off, p + off + len) =~= e.subrange(off, off + len));
}

proof fn lemma_input_round_trip(x: TransactionInput, b: Seq<u8>, p: int)
    requires
        0 <= p,
        p + 96 <= b.len(),
        b.subrange(p, p + 96) == enc_input(x),
    ensures
        dec_input(b, p) == x,
{
    let e = enc_input(x);
    assert(e.len() == 96);
    lemma_slice(b, p, e, 0, 32);
    assert(e.subrange(0, 32) =~= enc_hash(x.prev_transaction_output_hash));
    lemma_hash_round_trip(x.prev_transaction_output_hash, b, p);
    lemma_slice(b, p, e, 32, 32);
    assert(e.subrange(32, 64) =~= enc_hash(x.signature.r));
    lemma_hash_round_trip(x.signature.r, b, p + 32);
    lemma_slice(b, p, e, 64, 32);
    assert(e.subrange(64, 96) =~= enc_hash(x.signature.s));
    lemma_hash_round_trip(x.signature.s, b, p + 64);
}

proof fn lemma_output_round_trip(o: TransactionOutput, b: Seq<u8>, p: int)
    requires
        0 <= p,
        p + 66 <= b.len(),
        b.subrange(p, p + 66) == enc_output(o),
    ensures
        dec_output(b, p) == o,
        b[p + 57] <= 1,
{
    let e = enc_output(o);
    assert(e.len() == 66);
    let x = o.unique_id;
    lemma_slice(b, p, e, 0, 8);
    assert(e.subrange(0, 8) =~= u64_be((x >> 64u128) as u64));
    lemma_word_round_trip((x >> 64u128) as u64, b, p);
    lemma_slice(b, p, e, 8, 8);
    assert(e.subrange(8, 16) =~= u64_be(x as u64));
    lemma_word_round_trip(x as u64, b, p + 8);
    assert(((((x >> 64u128) as u64) as u128) << 64u128) | ((x as u64) as u128) == x) by (bit_vector);
    lemma_slice(b, p, e, 16, 8);
    assert(e.subrange(16, 24) =~= u64_be(o.value));
    lemma_word_round_trip(o.value, b, p + 16);
    assert(b[p + 24] == e[24]) by {
        assert(b.subrange(p, p + 66)[24] == e[24]);
    }
    lemma_slice(b, p, e, 25, 32);
    assert(e.subrange(25, 57) =~= enc_hash(o.pubkey.x));
    lemma_hash_round_trip(o.pubkey.x, b, p + 25);
    assert(b[p + 57] == e[57]) by {
        assert(b.subrange(p, p + 66)[57] == e[57]);
    }
    lemma_slice(b, p, e, 58, 8);
    assert(e.subrange(58, 66) =~= u64_be(o.locked_until));
    lemma_word_round_trip(o.locked_until, b, p + 58);
}

proof fn lemma_inputs_layout(s: Seq<TransactionInput>, k: int)
    requires
        0 <= k < s.len(),
    ensures
        enc_inputs(s).len() == 96 * s.len(),
        enc_inputs(s).subrange(96 * k, 96 * k + 96) == enc_input(s[k]),
    decreases s.len(),
{
    lemma_inputs_len(s);
    let d = s.drop_last();
    lemma_inputs_len(d);
    if k == s.len() - 1 {
        assert(enc_inputs(s).subrange(96 * k, 96 * k + 96) =~= enc_input(s[k]));
    } else {
        lemma_inputs_layout(d, k);
        assert(enc_inputs(s).subrange(96 * k, 96 * k + 96) =~= enc_inputs(d).subrange(96 * k, 96 * k + 96));
    }
}

proof fn lemma_inputs_len(s: Seq<TransactionInput>)
    ensures
        enc_inputs(s).len() == 96 * s.len(),
    decreases s.len(),
{
    if s.len() > 0 {
        lemma_inputs_len(s.drop_last());
    }
}

proof fn lemma_outputs_len(s: Seq<TransactionOutput>)
    ensures
        enc_outputs(s).len() == 66 * s.len(),
    decreases s.len(),
{
    if s.len() > 0 {
        lemma_outputs_len(s.drop_last());
    }
}

proof fn lemma_outputs_layout(s: Seq<TransactionOutput>, k: int)
    requires
        0 <= k < s.len(),
    ensures
        enc_outputs(s).subrange(66 * k, 66 * k + 66) == enc_output(s[k]),
    decreases s.len(),
{
    lemma_outputs_len(s);
    let d = s.drop_last();
    lemma_outputs_len(d);
    if k == s.len() - 1 {
        assert(enc_outputs(s).subrange(66 * k, 66 * k + 66) =~= enc_output(s[k]));
    } else {
        lemma_outputs_layout(d, k);
        assert(enc_outputs(s).subrange(66 * k, 66 * k + 66) =~= enc_outputs(d).subrange(66 * k, 66 * k + 66));
    }
}

proof fn lemma_inputs_decode(b: Seq<u8>, s: Seq<TransactionInput>)
    requires
        8 + enc_inputs(s).len() <= b.len(),
        b.subrange(8, 8 + enc_inputs(s).len() as int) == enc_inputs(s),
    ensures
        Seq::new(s.len(), |k: int| dec_input(b, 8 + 96 * k)) == s,
{
    lemma_inputs_len(s);
    assert forall|k: int| 0 <= k < s.len() implies dec_input(b, 8 + 96 * k) == #[trigger] s[k] by {
        lemma_inputs_layout(s, k);
        lemma_slice(b, 8, enc_inputs(s), 96 * k, 96);
        lemma_input_round_trip(s[k], b, 8 + 96 * k);
    }
    assert(Seq::new(s.len(), |k: int| dec_input(b, 8 + 96 * k)) =~= s);
}

proof fn lemma_outputs_decode(b: Seq<u8>, q: int, s: Seq<TransactionOutput>)
    requires
        0 <= q,
        q + 8 + enc_outputs(s).len() <= b.len(),
        b.subrange(q + 8, q + 8 + enc_outputs(s).len()) == enc_outputs(s),
    ensures
        Seq::new(s.len(), |k: int| dec_output(b, q + 8 + 66 * k)) == s,
        forall|k: int| 0 <= k < s.len() ==> #[trigger] stake_flag(b, q + 8 + 66 * k) <= 1,
{
    lemma_outputs_len(s);
    assert forall|k: int| 0 <= k < s.len() implies dec_output(b, q + 8 + 66 * k) == #[trigger] s[k]
        && stake_flag(b, q + 8 + 66 * k) <= 1 by {
        lemma_outputs_layout(s, k);
        lemma_slice(b, q + 8, enc_outputs(s), 66 * k, 66);
        lemma_output_round_trip(s[k], b, q + 8 + 66 * k);
    }
    assert forall|k: int| 0 <= k < s.len() implies #[trigger] stake_flag(b, q + 8 + 66 * k) <= 1 by {
        lemma_outputs_layout(s, k);
        lemma_slice(b, q + 8, enc_outputs(s), 66 * k, 66);
        lemma_output_round_trip(s[k], b, q + 8 + 66 * k);
    }
    assert(Seq::new(s.len(), |k: int| dec_output(b, q + 8 + 66 * k)) =~= s);
}

/// Decoding the encoding of a transaction gives back its inputs and outputs.
#[verifier::rlimit(60)]
pub proof fn lemma_transaction_round_trip(t: Transaction)
    ensures
        dec_transaction(enc_transaction(t)) == Some((t.inputs@, t.outputs@)),
{
    let b = enc_transaction(t);
    let n = t.inputs@.len() as int;
    let m = t.outputs@.len() as int;
    vstd::std_specs::vec::axiom_spec_len(&t.inputs);
    vstd::std_specs::vec::axiom_spec_len(&t.outputs);
    lemma_inputs_len(t.inputs@);
    lemma_outputs_len(t.outputs@);
    let q: int = 8 + 96 * n;
    assert(b.len() == q + 8 + 66 * m);
    assert(b.subrange(0, 8) =~= u64_be(n as u64));
    lemma_word_round_trip(n as u64, b, 0);
    assert(b.subrange(q, q + 8) =~= u64_be(m as u64));
    lemma_word_round_trip(m as u64, b, q);
    assert(b.subrange(8, q) =~= enc_inputs(t.inputs@));
    assert(b.subrange(q + 8, b.len() as int) =~= enc_outputs(t.outputs@));
    lemma_inputs_decode(b, t.inputs@);
    lemma_outputs_decode(b, q, t.outputs@);
}

/// The canonical encoding of a transaction.
pub fn encode_transaction(t: &Transaction) -> (r: Vec<u8>)
    ensures
        r@ == enc_transaction(*t),
{
    let mut out: Vec<u8> = Vec::new();
    put_transaction(&mut out, t);
    assert(out@ =~= enc_transaction(*t));
    out
}

/// The transaction that `b` encodes, as `dec_transaction` reads it.
pub fn decode_transaction(b: &[u8]) -> (r: Option<Transaction>)
    ensures
        r is None <==> dec_transaction(b@) is None,
        r matches Some(t) ==> dec_transaction(b@) == Some((t.inputs@, t.outputs@)),
{
    let len: usize = b.len();
    if len < 8 {
        return None;
    }
    let n = read_word(b, 0);
    if n as u128 > ((len - 8) as u128) / 96 {
        return None;
    }
    let q: usize = 8 + 96 * (n as usize);
    if q > len - 8 {
        return None;
    }
    let m = read_word(b, q);
    if m as u128 > ((len - q - 8) as u128) / 66 || q + 8 + 66 * (m as usize) != len {
        return None;
    }
    let mut inputs: Vec<TransactionInput> = Vec::new();
    let mut k: usize = 0;
    while k < n as usize
        invariant
            len == b@.len(),
            q == 8 + 96 * n,
            q + 8 <= len,
            k <= n,
            inputs@ == Seq::new(k as nat, |j: int| dec_input(b@, 8 + 96 * j)),
        decreases n - k,
    {
        let p = 8 + 96 * k;
        let x = TransactionInput {
            prev_transaction_output_hash: read_hash(b, p),
            signature: Signature { r: read_hash(b, p + 32), s: read_hash(b, p + 64) },
        };
        inputs.push(x);
        k = k + 1;
        assert(inputs@ =~= Seq::new(k as nat, |j: int| dec_input(b@, 8 + 96 * j)));
    }
    let mut outputs: Vec<TransactionOutput> = Vec::new();
    let mut k2: usize = 0;
    while k2 < m as usize
        invariant
            len == b@.len(),
            q == 8 + 96 * n,
            q + 8 + 66 * m == len,
            n == be_word(b@, 0),
            m == be_word(b@, q as int),
            k2 <= m,
            outputs@ == Seq::new(k2 as nat, |j: int| dec_output(b@, q + 8 + 66 * j)),
            forall|j: int| 0 <= j < k2 ==> #[trigger] stake_flag(b@, q + 8 + 66 * j) <= 1,
        decreases m - k2,
    {
        let p = q + 8 + 66 * k2;
        let flag = b[p + 57];
        if flag > 1 {
            assert(stake_flag(b@, q + 8 + 66 * k2) > 1);
            return None;
        }
        let hi = read_word(b, p);
        let lo = read_word(b, p + 8);
        let o = TransactionOutput {
            unique_id: ((hi as u128) << 64u128) | (lo as u128),
            value: read_word(b, p + 16),
            pubkey: PublicKey { parity: b[p + 24], x: read_hash(b, p + 25) },
            is_stake: flag == 1,
            locked_until: read_word(b, p + 58),
        };
        outputs.push(o);
        k2 = k2 + 1;
        assert(outputs@ =~= Seq::new(k2 as nat, |j: int| dec_output(b@, q + 8 + 66 * j)));
    }
    Some(Transaction { inputs, outputs })
}

/// Where the transaction encoded from `p` ends, by its two counts.
pub open spec fn transaction_end(b: Seq<u8>, p: int) -> int {
    let q = p + 8 + 96 * (be_word(b, p) as int);
    q + 8 + 66 * (be_word(b, q) as int)
}

/// The `count` transactions encoded one after another from `p`, as their inputs and
/// outputs, and where they end.
pub open spec fn dec_transactions(b: Seq<u8>, p: int, count: nat) -> Option<(Seq<(Seq<TransactionInput>, Seq<TransactionOutput>)>, int)>
    decreases count,
{
    if count == 0 {
        Some((seq![], p))
    } else {
        match dec_transactions(b, p, (count - 1) as nat) {
            None => None,
            Some((s, p1)) => {
                let q = p1 + 8 + 96 * (be_word(b, p1) as int);
                if p1 + 8 > b.len() || q + 8 > b.len() || transaction_end(b, p1) > b.len() {
                    None
                } else {
                    match dec_transaction(b.subrange(p1, transaction_end(b, p1))) {
                        None => None,
                        Some(x) => Some((s.push(x), transaction_end(b, p1))),
                    }
                }
            },
        }
    }
}

pub open spec fn views_of(ts: Seq<Transaction>) -> Seq<(Seq<TransactionInput>, Seq<TransactionOutput>)> {
    ts.map_values(|t: Transaction| (t.inputs@, t.outputs@))
}

proof fn lemma_transaction_len(t: Transaction)
    ensures
        enc_transaction(t).len() == 16 + 96 * t.inputs@.len() + 66 * t.outputs@.len(),
{
    lemma_inputs_len(t.inputs@);
    lemma_outputs_len(t.outputs@);
}

proof fn lemma_one_transaction_at(b: Seq<u8>, p1: int, t: Transaction)
    requires
        0 <= p1,
        p1 + enc_transaction(t).len() <= b.len(),
        b.subrange(p1, p1 + enc_transaction(t).len()) == enc_transaction(t),
    ensures
        p1 + 8 <= b.len(),
        p1 + 8 + 96 * (be_word(b, p1) as int) + 8 <= b.len(),
        transaction_end(b, p1) == p1 + enc_transaction(t).len(),
        dec_transaction(b.subrange(p1, transaction_end(b, p1))) == Some((t.inputs@, t.outputs@)),
{
    let et = enc_transaction(t);
    let n = t.inputs@.len() as int;
    let m = t.outputs@.len() as int;
    vstd::std_specs::vec::axiom_spec_len(&t.inputs);
    vstd::std_specs::vec::axiom_spec_len(&t.outputs);
    lemma_transaction_len(t);
    lemma_inputs_len(t.inputs@);
    lemma_slice(b, p1, et, 0, 8);
    assert(et.subrange(0, 8) =~= u64_be(n as u64));
    lemma_word_round_trip(n as u64, b, p1);
    let q = p1 + 8 + 96 * n;
    lemma_slice(b, p1, et, 8 + 96 * n, 8);
    assert(et.subrange(8 + 96 * n, 16 + 96 * n) =~= u64_be(m as u64));
    lemma_word_round_trip(m as u64, b, q);
    assert(transaction_end(b, p1) == p1 + et.len());
    lemma_transaction_round_trip(t);
}

#[verifier::rlimit(80)]
proof fn lemma_transactions_round_trip(b: Seq<u8>, p: int, ts: Seq<Transaction>)
    requires
        0 <= p,
        p + enc_transactions(ts).len() <= b.len(),
        b.subrange(p, p + enc_transactions(ts).len()) == enc_transactions(ts),
    ensures
        dec_transactions(b, p, ts.len()) == Some((views_of(ts), p + enc_transactions(ts).len())),
    decreases ts.len(),
{
    if ts.len() == 0 {
        assert(views_of(ts) =~= seq![]);
    } else {
        let d = ts.drop_last();
        let t = ts.last();
        let ed = enc_transactions(d);
        let et = enc_transaction(t);
        assert(enc_transactions(ts) == ed + et);
        lemma_slice(b, p, enc_transactions(ts), 0, ed.len() as int);
        assert((ed + et).subrange(0, ed.len() as int) =~= ed);
        lemma_transactions_round_trip(b, p, d);
        assert(ts.len() - 1 == d.len());
        let p1: int = p + ed.len() as int;
        lemma_slice(b, p, enc_transactions(ts), ed.len() as int, et.len() as int);
        assert((ed + et).subrange(ed.len() as int, ed.len() + et.len() as int) =~= et);
        assert(b.subrange(p1, p1 + et.len()) == et);
        lemma_one_transaction_at(b, p1, t);
        assert(views_of(ts) =~= views_of(d).push((t.inputs@, t.outputs@)));
    }
}

pub open spec fn dec_header(b: Seq<u8>) -> BlockHeader {
    BlockHeader {
        timestamp: be_word(b, 0) as i64,
        prev_block_hash: hash_from_bytes(b, 8),
        merkle_root: hash_from_bytes(b, 40),
        validator: PublicKey { parity: b[72], x: hash_from_bytes(b, 73) },
    }
}

/// The block that `b` encodes: header, transactions (as inputs and outputs) and
/// signature, or `None` when the lengths do not add up or a transaction does not decode.
pub open spec fn dec_block(b: Seq<u8>) -> Option<(BlockHeader, Seq<(Seq<TransactionInput>, Seq<TransactionOutput>)>, Signature)> {
    if b.len() < 113 {
        None
    } else {
        match dec_transactions(b, 113, be_word(b, 105) as nat) {
            None => None,
            Some((txs, e)) => if e + 64 != b.len() {
                None
            } else {
                Some((dec_header(b), txs, Signature { r: hash_from_bytes(b, e), s: hash_from_bytes(b, e + 32) }))
            },
        }
    }
}

/// Decoding the encoding of a block gives back its header, its transactions' inputs
/// and outputs, and its signature.
#[verifier::rlimit(60)]
pub proof fn lemma_block_round_trip(blk: Block)
    ensures
        dec_block(enc_block(blk)) == Some((blk.header, views_of(blk.transactions@), blk.signature)),
{
    let b = enc_block(blk);
    let h = blk.header;
    let eh = enc_header(h);
    let ts = blk.transactions@;
    vstd::std_specs::vec::axiom_spec_len(&blk.transactions);
    let et = enc_transactions(ts);
    let es = enc_signature(blk.signature);
    assert(eh.len() == 105);
    assert(es.len() == 64);
    assert(b == eh + u64_be(ts.len() as u64) + et + es);
    assert(b.subrange(0, 8) =~= u64_be(h.timestamp as u64));
    lemma_word_round_trip(h.timestamp as u64, b, 0);
    let ts64 = h.timestamp;
    assert((ts64 as u64) as i64 == ts64) by (bit_vector);
    assert(b.subrange(8, 40) =~= enc_hash(h.prev_block_hash));
    lemma_hash_round_trip(h.prev_block_hash, b, 8);
    assert(b.subrange(40, 72) =~= enc_hash(h.merkle_root));
    lemma_hash_round_trip(h.merkle_root, b, 40);
    assert(b[72] == h.validator.parity);
    assert(b.subrange(73, 105) =~= enc_hash(h.validator.x));
    lemma_hash_round_trip(h.validator.x, b, 73);
    assert(b.subrange(105, 113) =~= u64_be(ts.len() as u64));
    lemma_word_round_trip(ts.len() as u64, b, 105);
    assert(b.subrange(113, 113 + et.len() as int) =~= et);
    lemma_transactions_round_trip(b, 113, ts);
    let e: int = 113 + et.len() as int;
    assert(b.subrange(e, e + 32) =~= enc_hash(blk.signature.r));
    lemma_hash_round_trip(blk.signature.r, b, e);
    assert(b.subrange(e + 32, e + 64) =~= enc_hash(blk.signature.s));
    lemma_hash_round_trip(blk.signature.s, b, e + 32);
    assert(dec_header(b) == h);
}

/// The canonical encoding of a block.
pub fn encode_block(b: &Block) -> (r: Vec<u8>)
    ensures
        r@ == enc_block(*b),
{
    let mut out: Vec<u8> = Vec::new();
    put_block(&mut out, b);
    assert(out@ =~= enc_block(*b));
    out
}

fn window(b: &[u8], from: usize, to: usize) -> (r: Vec<u8>)
    requires
        from <= to <= b@.len(),
    ensures
        r@ == b@.subrange(from as int, to as int),
{
    let mut out: Vec<u8> = Vec::new();
    let mut i: usize = from;
    while i < to
        invariant
            from <= i <= to,
            to <= b@.len(),
            out@ == b@.subrange(from as int, i as int),
        decreases to - i,
    {
        out.push(b[i]);
        i = i + 1;
        assert(out@ =~= b@.subrange(from as int, i as int));
    }
    out
}

/// The block that `b` encodes, as `dec_block` reads it.
pub fn decode_block(b: &[u8]) -> (r: Option<Block>)
    ensures
        r is None <==> dec_block(b@) is None,
        r matches Some(blk) ==> dec_block(b@) == Some((blk.header, views_of(blk.transactions@), blk.signature)),
{
    let len: usize = b.len();
    if len < 113 {
        return None;
    }
    let count = read_word(b, 105);
    let mut txs: Vec<Transaction> = Vec::new();
    let mut p: usize = 113;
    let mut k: u64 = 0;
    while k < count
        invariant
            len == b@.len(),
            113 <= p <= len,
            k <= count,
            count == be_word(b@, 105),
            dec_transactions(b@, 113, k as nat) == Some((views_of(txs@), p as int)),
            dec_block(b@) == (match dec_transactions(b@, 113, count as nat) {
                None => None,
                Some((t, e)) => if e + 64 != b@.len() {
                    None
                } else {
                    Some((dec_header(b@), t, Signature { r: hash_from_bytes(b@, e), s: hash_from_bytes(b@, e + 32) }))
                },
            }),
        decreases count - k,
    {
        if len - p < 8 {
            proof {
                lemma_dec_transactions_stuck(b@, 113, (k + 1) as nat, count as nat);
            }
            return None;
        }
        let n = read_word(b, p);
        if n as u128 > ((len - p - 8) as u128) / 96 {
            proof {
                lemma_dec_transactions_stuck(b@, 113, (k + 1) as nat, count as nat);
            }
            return None;
        }
        let q: usize = p + 8 + 96 * (n as usize);
        if len - q < 8 {
            proof {
                lemma_dec_transactions_stuck(b@, 113, (k + 1) as nat, count as nat);
            }
            return None;
        }
        let m = read_word(b, q);
        if m as u128 > ((len - q - 8) as u128) / 66 {
            proof {
                lemma_dec_transactions_stuck(b@, 113, (k + 1) as nat, count as nat);
            }
            return None;
        }
        let end: usize = q + 8 + 66 * (m as usize);
        let w = window(b, p, end);
        match decode_transaction(w.as_slice()) {
            None => {
                proof {
                    lemma_dec_transactions_stuck(b@, 113, (k + 1) as nat, count as nat);
                }
                return None;
            },
            Some(t) => {
                let ghost before = txs@;
                txs.push(t);
                assert(views_of(txs@) =~= views_of(before).push((t.inputs@, t.outputs@)));
            },
        }
        p = end;
        k = k + 1;
    }
    if len - p != 64 {
        return None;
    }
    let header = BlockHeader {
        timestamp: #[verifier::truncate] (read_word(b, 0) as i64),
        prev_block_hash: read_hash(b, 8),
        merkle_root: read_hash(b, 40),
        validator: PublicKey { parity: b[72], x: read_hash(b, 73) },
    };
    let signature = Signature { r: read_hash(b, p), s: read_hash(b, p + 32) };
    Some(Block { header, transactions: txs, signature })
}

/// Once decoding stops early, decoding more transactions stops too.
proof fn lemma_dec_transactions_stuck(b: Seq<u8>, p: int, k: nat, count: nat)
    requires
        k <= count,
        dec_transactions(b, p, k) is None,
    ensures
        dec_transactions(b, p, count) is None,
    decreases count - k,
{
    if k < count {
        lemma_dec_transactions_stuck(b, p, k + 1, count);
    }
}

} // verus!
