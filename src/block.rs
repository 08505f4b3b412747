//! Validation of a block's transaction set against the UTXO index.
use vstd::prelude::*;
use crate::crypto::{output_hash, signature_valid};
use crate::error::EthError;
use crate::types::{sum_values, total_value, Block, Hash256, Transaction, TransactionInput, TransactionOutput};
use crate::utxo::UtxoIndex;

verus! {

pub type UtxoMap = Map<Hash256, (bool, TransactionOutput)>;

/// The transactions after the coinbase.
pub open spec fn non_coinbase(txs: Seq<Transaction>) -> Seq<Transaction> {
    if txs.len() == 0 {
        seq![]
    } else {
        txs.subrange(1, txs.len() as int)
    }
}

/// All inputs of a list of transactions, in order.
pub open spec fn flat_inputs(s: Seq<Transaction>) -> Seq<TransactionInput>
    decreases s.len(),
{
    if s.len() == 0 {
        seq![]
    } else {
        flat_inputs(s.drop_last()) + s.last().inputs@
    }
}

/// All outputs of a list of transactions, in order.
pub open spec fn flat_outputs(s: Seq<Transaction>) -> Seq<TransactionOutput>
    decreases s.len(),
{
    if s.len() == 0 {
        seq![]
    } else {
        flat_outputs(s.drop_last()) + s.last().outputs@
    }
}

/// The value of the output that an input spends.
pub open spec fn input_value(m: UtxoMap, i: TransactionInput) -> int {
    m[i.prev_transaction_output_hash].1.value as int
}

pub open spec fn sum_inputs(m: UtxoMap, s: Seq<TransactionInput>) -> int
    decreases s.len(),
{
    if s.len() == 0 {
        0
    } else {
        sum_inputs(m, s.drop_last()) + input_value(m, s.last())
    }
}

/// Inputs minus outputs of a transaction.
pub open spec fn fee_of(m: UtxoMap, t: Transaction) -> int {
    sum_inputs(m, t.inputs@) - sum_values(t.outputs@)
}

pub open spec fn sum_fees(m: UtxoMap, s: Seq<Transaction>) -> int
    decreases s.len(),
{
    if s.len() == 0 {
        0
    } else {
        sum_fees(m, s.drop_last()) + fee_of(m, s.last())
    }
}

pub open spec fn inputs_known(m: UtxoMap, s: Seq<TransactionInput>) -> bool {
    forall|i: int| 0 <= i < s.len() ==> m.contains_key(#[trigger] s[i].prev_transaction_output_hash)
}

pub open spec fn inputs_distinct(s: Seq<TransactionInput>) -> bool {
    forall|i: int, j: int|
        0 <= i < s.len() && 0 <= j < s.len() && i != j ==> s[i].prev_transaction_output_hash
            != s[j].prev_transaction_output_hash
}

pub open spec fn outputs_distinct(s: Seq<TransactionOutput>) -> bool {
    forall|i: int, j: int|
        0 <= i < s.len() && 0 <= j < s.len() && i != j ==> output_hash(s[i]) != output_hash(s[j])
}

/// The fees that the non-coinbase transactions leave: every input known and spent
/// once in the block, no output hash twice, and both totals within `u64`.
pub open spec fn miner_fees_spec(m: UtxoMap, txs: Seq<Transaction>) -> Result<u64, EthError> {
    let ins = flat_inputs(non_coinbase(txs));
    let outs = flat_outputs(non_coinbase(txs));
    if inputs_known(m, ins) && inputs_distinct(ins) && outputs_distinct(outs) && sum_inputs(m, ins)
        <= u64::MAX && sum_values(outs) <= sum_inputs(m, ins) {
        Ok((sum_inputs(m, ins) - sum_values(outs)) as u64)
    } else {
        Err(EthError::InvalidTransaction)
    }
}

/// The coinbase has no inputs, at least one output, and pays exactly the fees.
pub open spec fn coinbase_spec(m: UtxoMap, txs: Seq<Transaction>) -> Result<(), EthError> {
    if txs[0].inputs@.len() != 0 || txs[0].outputs@.len() == 0 {
        Err(EthError::InvalidTransaction)
    } else {
        match miner_fees_spec(m, txs) {
            Err(e) => Err(e),
            Ok(f) => if sum_values(txs[0].outputs@) == f {
                Ok(())
            } else {
                Err(EthError::InvalidTransaction)
            },
        }
    }
}

/// Why a single non-coinbase transaction fails, if it does.
pub open spec fn transaction_failure(m: UtxoMap, t: Transaction) -> Option<EthError> {
    if exists|i: int|
        0 <= i < t.inputs@.len() && !signature_valid(
            #[trigger] t.inputs@[i].signature,
            t.inputs@[i].prev_transaction_output_hash,
            m[t.inputs@[i].prev_transaction_output_hash].1.pubkey,
        ) {
        Some(EthError::InvalidSignature)
    } else if sum_inputs(m, t.inputs@) < sum_values(t.outputs@) {
        Some(EthError::InvalidTransaction)
    } else {
        None
    }
}

/// The failure of the first failing transaction of the list.
pub open spec fn first_failure(m: UtxoMap, s: Seq<Transaction>) -> Option<EthError>
    decreases s.len(),
{
    if s.len() == 0 {
        None
    } else {
        match transaction_failure(m, s[0]) {
            Some(e) => Some(e),
            None => first_failure(m, s.drop_first()),
        }
    }
}

/// The outcome of validating a block's transaction list against the index.
pub open spec fn verify_transactions_spec(m: UtxoMap, txs: Seq<Transaction>) -> Result<(), EthError> {
    if txs.len() == 0 {
        Err(EthError::InvalidBlock)
    } else {
        match coinbase_spec(m, txs) {
            Err(e) => Err(e),
            Ok(()) => match first_failure(m, non_coinbase(txs)) {
                Some(e) => Err(e),
                None => Ok(()),
            },
        }
    }
}

pub proof fn lemma_flat_inputs_member(s: Seq<Transaction>, k: int, i: int)
    requires
        0 <= k < s.len(),
        0 <= i < s[k].inputs@.len(),
    ensures
        exists|j: int| 0 <= j < flat_inputs(s).len() && flat_inputs(s)[j] == s[k].inputs@[i],
    decreases s.len(),
{
    let p = flat_inputs(s.drop_last());
    if k == s.len() - 1 {
        assert(flat_inputs(s)[p.len() + i] == s[k].inputs@[i]);
    } else {
        lemma_flat_inputs_member(s.drop_last(), k, i);
        let j = choose|j: int| 0 <= j < p.len() && p[j] == s[k].inputs@[i];
        assert(flat_inputs(s)[j] == p[j]);
    }
}

pub proof fn lemma_sum_inputs_concat(m: UtxoMap, a: Seq<TransactionInput>, b: Seq<TransactionInput>)
    ensures
        sum_inputs(m, a + b) == sum_inputs(m, a) + sum_inputs(m, b),
    decreases b.len(),
{
    if b.len() == 0 {
        assert(a + b == a);
    } else {
        lemma_sum_inputs_concat(m, a, b.drop_last());
        assert((a + b).drop_last() == a + b.drop_last());
    }
}

pub proof fn lemma_sum_values_concat(a: Seq<TransactionOutput>, b: Seq<TransactionOutput>)
    ensures
        sum_values(a + b) == sum_values(a) + sum_values(b),
    decreases b.len(),
{
    if b.len() == 0 {
        assert(a + b == a);
    } else {
        lemma_sum_values_concat(a, b.drop_last());
        assert((a + b).drop_last() == a + b.drop_last());
    }
}

/// The block-wide totals split into the fees of each transaction.
pub proof fn lemma_sum_fees_flat(m: UtxoMap, s: Seq<Transaction>)
    ensures
        sum_fees(m, s) == sum_inputs(m, flat_inputs(s)) - sum_values(flat_outputs(s)),
    decreases s.len(),
{
    if s.len() > 0 {
        lemma_sum_fees_flat(m, s.drop_last());
        lemma_sum_inputs_concat(m, flat_inputs(s.drop_last()), s.last().inputs@);
        lemma_sum_values_concat(flat_outputs(s.drop_last()), s.last().outputs@);
    }
}

fn collect_inputs(txs: &Vec<Transaction>) -> (r: Vec<TransactionInput>)
    ensures
        r@ == flat_inputs(non_coinbase(txs@)),
{
    let mut r: Vec<TransactionInput> = Vec::new();
    if txs.len() == 0 {
        return r;
    }
    let ghost s = non_coinbase(txs@);
    let mut k: usize = 1;
    while k < txs.len()
        invariant
            1 <= k <= txs@.len(),
            s == txs@.subrange(1, txs@.len() as int),
            r@ == flat_inputs(s.subrange(0, k - 1)),
        decreases txs.len() - k,
    {
        assert(s.subrange(0, k as int).drop_last() == s.subrange(0, k - 1));
        let t = &txs[k];
        let mut i: usize = 0;
        let ghost r0 = r@;
        while i < t.inputs.len()
            invariant
                i <= t.inputs@.len(),
                r@ == r0 + t.inputs@.subrange(0, i as int),
            decreases t.inputs.len() - i,
        {
            r.push(t.inputs[i]);
            i = i + 1;
            assert(r@ =~= r0 + t.inputs@.subrange(0, i as int));
        }
        assert(t.inputs@.subrange(0, i as int) == t.inputs@);
        k = k + 1;
    }
    assert(s.subrange(0, k - 1) == s);
    r
}

fn collect_outputs(txs: &Vec<Transaction>) -> (r: Vec<TransactionOutput>)
    ensures
        r@ == flat_outputs(non_coinbase(txs@)),
{
    let mut r: Vec<TransactionOutput> = Vec::new();
    if txs.len() == 0 {
        return r;
    }
    let ghost s = non_coinbase(txs@);
    let mut k: usize = 1;
    while k < txs.len()
        invariant
            1 <= k <= txs@.len(),
            s == txs@.subrange(1, txs@.len() as int),
            r@ == flat_outputs(s.subrange(0, k - 1)),
        decreases txs.len() - k,
    {
        assert(s.subrange(0, k as int).drop_last() == s.subrange(0, k - 1));
        let t = &txs[k];
        let mut i: usize = 0;
        let ghost r0 = r@;
        while i < t.outputs.len()
            invariant
                i <= t.outputs@.len(),
                r@ == r0 + t.outputs@.subrange(0, i as int),
            decreases t.outputs.len() - i,
        {
            r.push(t.outputs[i]);
            i = i + 1;
            assert(r@ =~= r0 + t.outputs@.subrange(0, i as int));
        }
        assert(t.outputs@.subrange(0, i as int) == t.outputs@);
        k = k + 1;
    }
    assert(s.subrange(0, k - 1) == s);
    r
}

pub(crate) fn position_of(seen: &Vec<Hash256>, h: &Hash256) -> (r: Option<usize>)
    ensures
        r matches Some(j) ==> j < seen@.len() && seen@[j as int] == *h,
        r is None ==> forall|j: int| 0 <= j < seen@.len() ==> seen@[j] != *h,
{
    let mut j: usize = 0;
    while j < seen.len()
        invariant
            j <= seen@.len(),
            forall|q: int| 0 <= q < j ==> seen@[q] != *h,
        decreases seen.len() - j,
    {
        if seen[j] == *h {
            return Some(j);
        }
        j = j + 1;
    }
    None
}

/// Sum of the values that a list of inputs spends, in a wide integer.
pub(crate) fn spent_value(utxos: &UtxoIndex, ins: &Vec<TransactionInput>) -> (r: u128)
    requires
        utxos.wf(),
        inputs_known(utxos@, ins@),
    ensures
        r == sum_inputs(utxos@, ins@),
{
    let mut acc: u128 = 0;
    let mut i: usize = 0;
    while i < ins.len()
        invariant
            utxos.wf(),
            inputs_known(utxos@, ins@),
            i <= ins@.len(),
            acc == sum_inputs(utxos@, ins@.subrange(0, i as int)),
            acc <= i * 0xffff_ffff_ffff_ffffu128,
        decreases ins.len() - i,
    {
        assert(ins@.subrange(0, i + 1).drop_last() == ins@.subrange(0, i as int));
        assert(utxos@.contains_key(ins@[i as int].prev_transaction_output_hash));
        let (_, o) = utxos.get(&ins[i].prev_transaction_output_hash).unwrap();
        acc = acc + o.value as u128;
        i = i + 1;
    }
    assert(ins@.subrange(0, i as int) == ins@);
    acc
}

/// Every input is in the index and no two spend the same output.
fn inputs_spendable_once(utxos: &UtxoIndex, ins: &Vec<TransactionInput>) -> (r: bool)
    requires
        utxos.wf(),
    ensures
        r == (inputs_known(utxos@, ins@) && inputs_distinct(ins@)),
{
    let ghost m = utxos@;
    let mut seen: Vec<Hash256> = Vec::new();
    let mut i: usize = 0;
    while i < ins.len()
        invariant
            utxos.wf(),
            m == utxos@,
            i <= ins@.len(),
            seen@.len() == i,
            forall|q: int| 0 <= q < i ==> seen@[q] == #[trigger] ins@[q].prev_transaction_output_hash,
            inputs_known(m, ins@.subrange(0, i as int)),
            inputs_distinct(ins@.subrange(0, i as int)),
        decreases ins.len() - i,
    {
        let h = ins[i].prev_transaction_output_hash;
        if !utxos.contains_key(&h) {
            assert(!m.contains_key(ins@[i as int].prev_transaction_output_hash));
            return false;
        }
        match position_of(&seen, &h) {
            Some(j) => {
                assert(ins@[j as int].prev_transaction_output_hash == ins@[i as int].prev_transaction_output_hash);
                return false;
            },
            None => {},
        }
        seen.push(h);
        i = i + 1;
        assert forall|a: int| 0 <= a < i implies m.contains_key(
            #[trigger] ins@.subrange(0, i as int)[a].prev_transaction_output_hash,
        ) by {
            if a < i - 1 {
                assert(ins@.subrange(0, i as int)[a] == ins@.subrange(0, i - 1)[a]);
            }
        }
        assert forall|a: int, b: int|
            0 <= a < i && 0 <= b < i && a != b implies ins@.subrange(
            0,
            i as int,
        )[a].prev_transaction_output_hash != ins@.subrange(0, i as int)[b].prev_transaction_output_hash by {
            if a < i - 1 && b < i - 1 {
                assert(ins@.subrange(0, i as int)[a] == ins@.subrange(0, i - 1)[a]);
                assert(ins@.subrange(0, i as int)[b] == ins@.subrange(0, i - 1)[b]);
            } else if a == i - 1 {
                assert(seen@[b] == ins@[b].prev_transaction_output_hash);
            } else {
                assert(seen@[a] == ins@[a].prev_transaction_output_hash);
            }
        }
    }
    assert(ins@.subrange(0, i as int) == ins@);
    true
}

/// No two outputs have the same hash.
fn outputs_unique(outs: &Vec<TransactionOutput>) -> (r: bool)
    ensures
        r == outputs_distinct(outs@),
{
    let mut seen: Vec<Hash256> = Vec::new();
    let mut j: usize = 0;
    while j < outs.len()
        invariant
            j <= outs@.len(),
            seen@.len() == j,
            forall|q: int| 0 <= q < j ==> seen@[q] == output_hash(#[trigger] outs@[q]),
            outputs_distinct(outs@.subrange(0, j as int)),
        decreases outs.len() - j,
    {
        let h = outs[j].hash();
        match position_of(&seen, &h) {
            Some(q) => {
                assert(output_hash(outs@[q as int]) == output_hash(outs@[j as int]));
                return false;
            },
            None => {},
        }
        seen.push(h);
        j = j + 1;
        let ghost p = outs@.subrange(0, j as int);
        assert forall|a: int, b: int|
            0 <= a < j && 0 <= b < j && a != b implies output_hash(p[a]) != output_hash(p[b]) by {
            assert(p[a] == outs@[a]);
            assert(p[b] == outs@[b]);
            if a < j - 1 && b < j - 1 {
                assert(outs@.subrange(0, j - 1)[a] == outs@[a]);
                assert(outs@.subrange(0, j - 1)[b] == outs@[b]);
            } else if a == j - 1 {
                assert(seen@[b] == output_hash(outs@[b]));
            } else {
                assert(seen@[a] == output_hash(outs@[a]));
            }
        }
    }
    assert(outs@.subrange(0, j as int) == outs@);
    true
}

/// Every input's signature verifies under the key of the output it spends.
fn signatures_verify(utxos: &UtxoIndex, t: &Transaction) -> (r: bool)
    requires
        utxos.wf(),
        inputs_known(utxos@, t.inputs@),
    ensures
        r == (forall|q: int| 0 <= q < t.inputs@.len() ==> signature_valid(
            #[trigger] t.inputs@[q].signature,
            t.inputs@[q].prev_transaction_output_hash,
            utxos@[t.inputs@[q].prev_transaction_output_hash].1.pubkey,
        )),
{
    let ghost m = utxos@;
    let mut i: usize = 0;
    while i < t.inputs.len()
        invariant
            utxos.wf(),
            m == utxos@,
            i <= t.inputs@.len(),
            inputs_known(m, t.inputs@),
            forall|q: int| 0 <= q < i ==> signature_valid(
                #[trigger] t.inputs@[q].signature,
                t.inputs@[q].prev_transaction_output_hash,
                m[t.inputs@[q].prev_transaction_output_hash].1.pubkey,
            ),
        decreases t.inputs.len() - i,
    {
        let input = &t.inputs[i];
        assert(m.contains_key(t.inputs@[i as int].prev_transaction_output_hash));
        let (_, prev) = utxos.get(&input.prev_transaction_output_hash).unwrap();
        if !input.signature.verify(&input.prev_transaction_output_hash, &prev.pubkey) {
            return false;
        }
        i = i + 1;
    }
    true
}

/// Why `t` fails, if it does: a signature that does not verify, else inputs below outputs.
fn transaction_check(utxos: &UtxoIndex, t: &Transaction) -> (r: Option<EthError>)
    requires
        utxos.wf(),
        inputs_known(utxos@, t.inputs@),
    ensures
        r == transaction_failure(utxos@, *t),
{
    let ghost m = utxos@;
    if !signatures_verify(utxos, t) {
        let ghost q = choose|q: int| 0 <= q < t.inputs@.len() && !signature_valid(
            #[trigger] t.inputs@[q].signature,
            t.inputs@[q].prev_transaction_output_hash,
            m[t.inputs@[q].prev_transaction_output_hash].1.pubkey,
        );
        return Some(EthError::InvalidSignature);
    }
    let in_sum = spent_value(utxos, &t.inputs);
    let out_sum = total_value(&t.outputs);
    if in_sum < out_sum {
        return Some(EthError::InvalidTransaction);
    }
    None
}

impl Block {
    /// The fees left by the non-coinbase transactions (inputs minus outputs, block-wide).
    pub fn calculate_miner_fees(&self, utxos: &UtxoIndex) -> (r: Result<u64, EthError>)
        requires
            utxos.wf(),
        ensures
            r == miner_fees_spec(utxos@, self.transactions@),
    {
        let ins = collect_inputs(&self.transactions);
        let outs = collect_outputs(&self.transactions);
        if !inputs_spendable_once(utxos, &ins) {
            return Err(EthError::InvalidTransaction);
        }
        if !outputs_unique(&outs) {
            return Err(EthError::InvalidTransaction);
        }
        let in_sum = spent_value(utxos, &ins);
        let out_sum = total_value(&outs);
        if in_sum > 0xffff_ffff_ffff_ffffu128 || in_sum < out_sum {
            return Err(EthError::InvalidTransaction);
        }
        Ok((in_sum - out_sum) as u64)
    }

    /// Checks the coinbase: no inputs, at least one output, and outputs equal to the fees.
    pub fn verify_coinbase_transaction(&self, utxos: &UtxoIndex) -> (r: Result<(), EthError>)
        requires
            utxos.wf(),
            self.transactions@.len() > 0,
        ensures
            r == coinbase_spec(utxos@, self.transactions@),
    {
        let coinbase = &self.transactions[0];
        if coinbase.inputs.len() != 0 {
            return Err(EthError::InvalidTransaction);
        }
        if coinbase.outputs.len() == 0 {
            return Err(EthError::InvalidTransaction);
        }
        let fees = match self.calculate_miner_fees(utxos) {
            Ok(f) => f,
            Err(e) => {
                return Err(e);
            },
        };
        let total = total_value(&coinbase.outputs);
        if total != fees as u128 {
            return Err(EthError::InvalidTransaction);
        }
        Ok(())
    }

    /// Validates the transaction set against the index; spends nothing.
    pub fn verify_transactions(&self, utxos: &UtxoIndex) -> (r: Result<(), EthError>)
        requires
            utxos.wf(),
        ensures
            r == verify_transactions_spec(utxos@, self.transactions@),
    {
        let ghost m = utxos@;
        if self.transactions.len() == 0 {
            return Err(EthError::InvalidBlock);
        }
        match self.verify_coinbase_transaction(utxos) {
            Err(e) => {
                return Err(e);
            },
            Ok(()) => {},
        }
        let ghost all = non_coinbase(self.transactions@);
        assert(inputs_known(m, flat_inputs(all)));
        let mut k: usize = 1;
        while k < self.transactions.len()
            invariant
                utxos.wf(),
                m == utxos@,
                1 <= k <= self.transactions@.len(),
                all == self.transactions@.subrange(1, self.transactions@.len() as int),
                inputs_known(m, flat_inputs(all)),
                coinbase_spec(m, self.transactions@) == Ok::<(), EthError>(()),
                first_failure(m, all) == first_failure(m, self.transactions@.subrange(k as int, self.transactions@.len() as int)),
            decreases self.transactions.len() - k,
        {
            let t = &self.transactions[k];
            let ghost rest = self.transactions@.subrange(k as int, self.transactions@.len() as int);
            assert(rest[0] == *t);
            assert(rest.drop_first() == self.transactions@.subrange(k + 1, self.transactions@.len() as int));
            assert forall|i: int| 0 <= i < t.inputs@.len() implies m.contains_key(#[trigger] t.inputs@[i].prev_transaction_output_hash) by {
                assert(all[k - 1] == *t);
                lemma_flat_inputs_member(all, k - 1, i);
            }
            match transaction_check(utxos, t) {
                Some(e) => {
                    assert(first_failure(m, rest) == Some(e));
                    return Err(e);
                },
                None => {},
            }
            k = k + 1;
        }
        Ok(())
    }
}

proof fn lemma_no_failure_each(m: UtxoMap, s: Seq<Transaction>, k: int)
    requires
        first_failure(m, s) is None,
        0 <= k < s.len(),
    ensures
        transaction_failure(m, s[k]) is None,
    decreases s.len(),
{
    if k > 0 {
        assert(s.drop_first()[k - 1] == s[k]);
        lemma_no_failure_each(m, s.drop_first(), k - 1);
    }
}

/// Of an accepted transaction set: every non-coinbase transaction has inputs worth at
/// least its outputs, and the coinbase pays exactly the sum of their differences.
pub proof fn lemma_accepted_fees(m: UtxoMap, txs: Seq<Transaction>)
    requires
        verify_transactions_spec(m, txs) is Ok,
    ensures
        forall|k: int| 1 <= k < txs.len() ==> fee_of(m, #[trigger] txs[k]) >= 0,
        sum_values(txs[0].outputs@) == sum_fees(m, non_coinbase(txs)),
{
    let s = non_coinbase(txs);
    lemma_sum_fees_flat(m, s);
    let ins = flat_inputs(s);
    let outs = flat_outputs(s);
    crate::types::lemma_sum_values_nonneg(outs);
    assert(coinbase_spec(m, txs) is Ok);
    assert(miner_fees_spec(m, txs) is Ok);
    let d = sum_inputs(m, ins) - sum_values(outs);
    assert(0 <= d <= u64::MAX);
    assert(miner_fees_spec(m, txs) == Ok::<u64, EthError>(d as u64));
    assert(sum_values(txs[0].outputs@) == d);
    assert forall|k: int| 1 <= k < txs.len() implies fee_of(m, #[trigger] txs[k]) >= 0 by {
        assert(s[k - 1] == txs[k]);
        lemma_no_failure_each(m, s, k - 1);
    }
}

/// A transaction set in which two inputs (positions `a` and `b` of the non-coinbase
/// inputs, in order) spend the same output is refused with `InvalidTransaction`.
pub proof fn lemma_double_spend_rejected(m: UtxoMap, txs: Seq<Transaction>, a: int, b: int)
    requires
        0 <= a < flat_inputs(non_coinbase(txs)).len(),
        0 <= b < flat_inputs(non_coinbase(txs)).len(),
        a != b,
        flat_inputs(non_coinbase(txs))[a].prev_transaction_output_hash == flat_inputs(
            non_coinbase(txs),
        )[b].prev_transaction_output_hash,
    ensures
        verify_transactions_spec(m, txs) == Err::<(), EthError>(EthError::InvalidTransaction),
{
    assert(txs.len() > 0);
    assert(!inputs_distinct(flat_inputs(non_coinbase(txs))));
}

} // verus!
