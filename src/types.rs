//! The data model: hashes, keys, transactions and blocks.
use vstd::prelude::*;

verus! {

/// A 256-bit digest, held as four big-endian 64-bit words (`w0` holds bytes 0..8).
#[derive(Clone, Copy, Debug, PartialEq, Eq, Structural)]
pub struct Hash256 {
    pub w0: u64,
    pub w1: u64,
    pub w2: u64,
    pub w3: u64,
}

/// A compressed secp256k1 public key: the parity byte and the x coordinate.
#[derive(Clone, Copy, Debug, PartialEq, Eq, Structural)]
pub struct PublicKey {
    pub parity: u8,
    pub x: Hash256,
}

/// A secp256k1 secret scalar.
#[derive(Clone, Copy, Debug, PartialEq, Eq, Structural)]
pub struct PrivateKey {
    pub scalar: Hash256,
}

/// A detached ECDSA signature `(r, s)`.
#[derive(Clone, Copy, Debug, PartialEq, Eq, Structural)]
pub struct Signature {
    pub r: Hash256,
    pub s: Hash256,
}

/// An output of a transaction. `unique_id` keeps otherwise equal outputs apart.
#[derive(Clone, Copy, Debug, PartialEq, Eq, Structural)]
pub struct TransactionOutput {
    pub unique_id: u128,
    pub value: u64,
    pub pubkey: PublicKey,
    pub is_stake: bool,
    pub locked_until: u64,
}

/// A reference to a spent output, with the owner's signature over its hash.
#[derive(Clone, Copy, Debug, PartialEq, Eq, Structural)]
pub struct TransactionInput {
    pub prev_transaction_output_hash: Hash256,
    pub signature: Signature,
}

#[derive(Clone, Debug, PartialEq, Eq)]
pub struct Transaction {
    pub inputs: Vec<TransactionInput>,
    pub outputs: Vec<TransactionOutput>,
}

/// Timestamps are milliseconds since the Unix epoch.
#[derive(Clone, Copy, Debug, PartialEq, Eq, Structural)]
pub struct BlockHeader {
    pub timestamp: i64,
    pub prev_block_hash: Hash256,
    pub merkle_root: Hash256,
    pub validator: PublicKey,
}

#[derive(Clone, Debug, PartialEq, Eq)]
pub struct Block {
    pub header: BlockHeader,
    pub transactions: Vec<Transaction>,
    pub signature: Signature,
}

impl Hash256 {
    /// The "no predecessor" sentinel.
    pub open spec fn zero_spec() -> Hash256 {
        Hash256 { w0: 0, w1: 0, w2: 0, w3: 0 }
    }

    pub fn zero() -> (r: Hash256)
        ensures
            r == Hash256::zero_spec(),
    {
        Hash256 { w0: 0, w1: 0, w2: 0, w3: 0 }
    }

    pub fn is_zero(&self) -> (r: bool)
        ensures
            r == (*self == Hash256::zero_spec()),
    {
        self.w0 == 0 && self.w1 == 0 && self.w2 == 0 && self.w3 == 0
    }
}

/// The lexicographic order on the words of a hash.
pub open spec fn hash_lt(a: Hash256, b: Hash256) -> bool {
    a.w0 < b.w0 || (a.w0 == b.w0 && (a.w1 < b.w1 || (a.w1 == b.w1 && (a.w2 < b.w2 || (a.w2
        == b.w2 && a.w3 < b.w3)))))
}

/// The total order on public keys: by parity byte, then by x coordinate.
pub open spec fn key_lt(a: PublicKey, b: PublicKey) -> bool {
    a.parity < b.parity || (a.parity == b.parity && hash_lt(a.x, b.x))
}

pub proof fn lemma_key_order(a: PublicKey, b: PublicKey, c: PublicKey)
    ensures
        !key_lt(a, a),
        key_lt(a, b) ==> !key_lt(b, a),
        key_lt(a, b) && key_lt(b, c) ==> key_lt(a, c),
        a == b || key_lt(a, b) || key_lt(b, a),
{
}

impl PublicKey {
    pub fn less_than(&self, other: &PublicKey) -> (r: bool)
        ensures
            r == key_lt(*self, *other),
    {
        let a = &self.x;
        let b = &other.x;
        self.parity < other.parity || (self.parity == other.parity && (a.w0 < b.w0 || (a.w0
            == b.w0 && (a.w1 < b.w1 || (a.w1 == b.w1 && (a.w2 < b.w2 || (a.w2 == b.w2 && a.w3
            < b.w3)))))))
    }
}

/// Sum of the values of a list of outputs.
pub open spec fn sum_values(s: Seq<TransactionOutput>) -> int
    decreases s.len(),
{
    if s.len() == 0 {
        0
    } else {
        sum_values(s.drop_last()) + s.last().value
    }
}

pub proof fn lemma_sum_values_nonneg(s: Seq<TransactionOutput>)
    ensures
        sum_values(s) >= 0,
    decreases s.len(),
{
    if s.len() > 0 {
        lemma_sum_values_nonneg(s.drop_last());
    }
}

/// Sum of the values of a list of outputs, in a wide integer.
pub fn total_value(outs: &Vec<TransactionOutput>) -> (r: u128)
    ensures
        r == sum_values(outs@),
{
    let mut acc: u128 = 0;
    let mut i: usize = 0;
    while i < outs.len()
        invariant
            i <= outs.len(),
            acc == sum_values(outs@.subrange(0, i as int)),
            acc <= i * 0xffff_ffff_ffff_ffffu128,
        decreases outs.len() - i,
    {
        assert(outs@.subrange(0, i + 1).drop_last() == outs@.subrange(0, i as int));
        acc = acc + outs[i].value as u128;
        i = i + 1;
    }
    assert(outs@.subrange(0, outs.len() as int) == outs@);
    acc
}

impl Transaction {
    pub fn new(inputs: Vec<TransactionInput>, outputs: Vec<TransactionOutput>) -> (r: Transaction)
        ensures
            r.inputs == inputs,
            r.outputs == outputs,
    {
        Transaction { inputs, outputs }
    }

    /// A copy of the transaction with the same contents.
    pub fn copy(&self) -> (r: Transaction)
        ensures
            r.inputs@ == self.inputs@,
            r.outputs@ == self.outputs@,
    {
        let mut inputs: Vec<TransactionInput> = Vec::new();
        let mut i: usize = 0;
        while i < self.inputs.len()
            invariant
                i <= self.inputs.len(),
                inputs@ == self.inputs@.subrange(0, i as int),
            decreases self.inputs.len() - i,
        {
            inputs.push(self.inputs[i]);
            i = i + 1;
        }
        let mut outputs: Vec<TransactionOutput> = Vec::new();
        let mut j: usize = 0;
        while j < self.outputs.len()
            invariant
                j <= self.outputs.len(),
                outputs@ == self.outputs@.subrange(0, j as int),
            decreases self.outputs.len() - j,
        {
            outputs.push(self.outputs[j]);
            j = j + 1;
        }
        assert(inputs@ == self.inputs@);
        assert(outputs@ == self.outputs@);
        Transaction { inputs, outputs }
    }
}

/// Two transaction lists hold the same inputs and outputs, position by position.
pub open spec fn same_transactions(a: Seq<Transaction>, b: Seq<Transaction>) -> bool {
    a.len() == b.len() && forall|k: int| 0 <= k < a.len() ==> (#[trigger] a[k]).inputs@ == b[k].inputs@
        && a[k].outputs@ == b[k].outputs@
}

impl BlockHeader {
    pub fn new(timestamp: i64, prev_block_hash: Hash256, merkle_root: Hash256, validator: PublicKey) -> (r:
        BlockHeader)
        ensures
            r == (BlockHeader { timestamp, prev_block_hash, merkle_root, validator }),
    {
        BlockHeader { timestamp, prev_block_hash, merkle_root, validator }
    }
}

impl Block {
    pub fn new(header: BlockHeader, transactions: Vec<Transaction>, signature: Signature) -> (r: Block)
        ensures
            r.header == header,
            r.transactions == transactions,
            r.signature == signature,
    {
        Block { header, transactions, signature }
    }

    /// A copy of the block with the same contents.
    pub fn copy(&self) -> (r: Block)
        ensures
            r.header == self.header,
            r.signature == self.signature,
            same_transactions(r.transactions@, self.transactions@),
    {
        let mut txs: Vec<Transaction> = Vec::new();
        let mut i: usize = 0;
        while i < self.transactions.len()
            invariant
                i <= self.transactions@.len(),
                same_transactions(txs@, self.transactions@.subrange(0, i as int)),
            decreases self.transactions.len() - i,
        {
            txs.push(self.transactions[i].copy());
            i = i + 1;
        }
        assert(self.transactions@.subrange(0, i as int) == self.transactions@);
        Block { header: self.header, transactions: txs, signature: self.signature }
    }
}

} // verus!
