//! The peer protocol: the message union, its framing, and what a node does with
//! each message it receives.
use vstd::prelude::*;
use crate::blockchain::{block_reward, same_state, tip_hash_of, waits_on, Blockchain};
use crate::mempool::admission;
use crate::stake::SlashingRecord;
use crate::utxo::apply_blocks;
use crate::merkle::{calculate_merkle_root, merkle_root};
use crate::proposer::{proposal_window, select_transactions, selection, selection_fees};
use crate::stake::SlashingReason;
use crate::types::{same_transactions, Block, BlockHeader, Hash256, PublicKey, Signature, Transaction, TransactionOutput};
use crate::utxo::UtxoEntry;

verus! {

pub enum Message {
    FetchBlock(u64),
    DiscoverNodes(u16),
    NodeList(Vec<String>),
    AskDifference(u64),
    Difference(i32),
    FetchBlockHeight,
    BlockHeight(u64),
    FetchUTXOs(PublicKey),
    UTXOs(Vec<(TransactionOutput, bool)>),
    NewBlock(Block),
    NewTransaction(Transaction),
    ValidateTemplate(Block),
    TemplateValidity(bool),
    SubmitTemplate(Block),
    SubmitTransaction(Transaction),
    FetchTemplate(PublicKey),
    Template(Block),
    SlashValidator(PublicKey, String, Vec<u8>),
}

/// What the connection does after a message.
pub enum Action {
    /// Send this message back to the peer.
    Reply(Message),
    /// Forward this message to every known peer.
    Gossip(Message),
    /// Dial the sender back on this port, then reply with the peer list.
    Discover(u16),
    /// Close the connection.
    Close,
    /// Wait for the next message.
    Continue,
}

/// The length prefix of a frame: the payload length as 8 little-endian bytes.
pub open spec fn frame_prefix(len: u64) -> Seq<u8> {
    seq![
        len as u8,
        (len >> 8u64) as u8,
        (len >> 16u64) as u8,
        (len >> 24u64) as u8,
        (len >> 32u64) as u8,
        (len >> 40u64) as u8,
        (len >> 48u64) as u8,
        (len >> 56u64) as u8,
    ]
}

/// A frame: the length prefix, then the payload.
pub fn frame(payload: &Vec<u8>) -> (r: Vec<u8>)
    ensures
        r@ == frame_prefix(payload@.len() as u64) + payload@,
{
    let len = payload.len() as u64;
    let mut out: Vec<u8> = Vec::new();
    out.push(len as u8);
    out.push((len >> 8u64) as u8);
    out.push((len >> 16u64) as u8);
    out.push((len >> 24u64) as u8);
    out.push((len >> 32u64) as u8);
    out.push((len >> 40u64) as u8);
    out.push((len >> 48u64) as u8);
    out.push((len >> 56u64) as u8);
    let mut i: usize = 0;
    while i < payload.len()
        invariant
            i <= payload@.len(),
            len == payload@.len() as u64,
            out@ == frame_prefix(len) + payload@.subrange(0, i as int),
        decreases payload.len() - i,
    {
        out.push(payload[i]);
        i = i + 1;
        assert(out@ =~= frame_prefix(len) + payload@.subrange(0, i as int));
    }
    assert(payload@.subrange(0, i as int) == payload@);
    out
}

/// The payload length that a frame's 8-byte little-endian prefix announces.
pub fn frame_length(prefix: &[u8]) -> (r: u64)
    requires
        prefix@.len() == 8,
    ensures
        r == prefix@[0] as int + 0x100 * (prefix@[1] as int) + 0x1_0000 * (prefix@[2] as int) + 0x100_0000
            * (prefix@[3] as int) + 0x1_0000_0000 * (prefix@[4] as int) + 0x100_0000_0000 * (prefix@[5] as int)
            + 0x1_0000_0000_0000 * (prefix@[6] as int) + 0x100_0000_0000_0000 * (prefix@[7] as int),
{
    let mut acc: u64 = prefix[7] as u64;
    acc = acc * 256 + prefix[6] as u64;
    acc = acc * 256 + prefix[5] as u64;
    acc = acc * 256 + prefix[4] as u64;
    acc = acc * 256 + prefix[3] as u64;
    acc = acc * 256 + prefix[2] as u64;
    acc = acc * 256 + prefix[1] as u64;
    acc = acc * 256 + prefix[0] as u64;
    acc
}

/// Whether `pat` occurs in `s`.
pub open spec fn occurs_in(s: Seq<char>, pat: Seq<char>) -> bool {
    exists|i: int| 0 <= i && i + pat.len() <= s.len() && #[trigger] s.subrange(i, i + pat.len()) == pat
}

/// Relies on `str::contains` with a `&str` pattern: whether the pattern occurs.
#[verifier::external_body]
fn contains_str(s: &str, pat: &str) -> (r: bool)
    ensures
        r == occurs_in(s@, pat@),
{
    s.contains(pat)
}

/// The reason that a slashing request names: double signing when its text mentions
/// "double", downtime otherwise.
pub fn slashing_reason(reason: &String) -> (r: SlashingReason)
    ensures
        r == reason_named(reason@),
{
    let pat: &str = "double";
    proof {
        reveal_strlit("double");
        assert(pat@ =~= seq!['d', 'o', 'u', 'b', 'l', 'e']);
    }
    if contains_str(reason.as_str(), pat) {
        SlashingReason::DoubleSigning
    } else {
        SlashingReason::Downtime
    }
}

/// The difference between two heights, held in an `i32` (clamped to its range).
pub open spec fn height_difference(local: int, asked: int) -> i32 {
    if local - asked > i32::MAX {
        i32::MAX
    } else if local - asked < i32::MIN {
        i32::MIN
    } else {
        (local - asked) as i32
    }
}

/// The index entries that `pk` owns, each as `(output, marked)`, in index order.
pub open spec fn owned_by(entries: Seq<UtxoEntry>, pk: PublicKey) -> Seq<(TransactionOutput, bool)>
    decreases entries.len(),
{
    if entries.len() == 0 {
        seq![]
    } else if entries.last().output.pubkey == pk {
        owned_by(entries.drop_last(), pk).push((entries.last().output, entries.last().marked))
    } else {
        owned_by(entries.drop_last(), pk)
    }
}

/// The outputs that `pk` owns in the index, with their soft-lock flags.
pub fn utxos_of(chain: &Blockchain, pk: &PublicKey) -> (r: Vec<(TransactionOutput, bool)>)
    requires
        chain.wf(),
    ensures
        r@ == owned_by(chain.utxo_entries(), *pk),
{
    let entries = &chain.utxos().entries;
    let mut out: Vec<(TransactionOutput, bool)> = Vec::new();
    let mut i: usize = 0;
    while i < entries.len()
        invariant
            entries@ == chain.utxo_entries(),
            i <= entries@.len(),
            out@ == owned_by(entries@.subrange(0, i as int), *pk),
        decreases entries.len() - i,
    {
        assert(entries@.subrange(0, i + 1).drop_last() == entries@.subrange(0, i as int));
        let e = entries[i];
        if e.output.pubkey == *pk {
            out.push((e.output, e.marked));
        }
        i = i + 1;
    }
    assert(entries@.subrange(0, i as int) == entries@);
    out
}

/// A template is owed to `pk` when no other validator is expected and the reward plus
/// the selected fees fit a coinbase output.
pub open spec fn template_owed(chain: Blockchain, pk: PublicKey) -> bool {
    (chain.expected_validator(tip_hash_of(chain.chain())) is None || chain.expected_validator(
        tip_hash_of(chain.chain()),
    ) == Some(pk)) && block_reward(chain.height()) + selection_fees(chain.utxo_view(), proposal_window(chain.pool()))
        <= u64::MAX
}

/// `b` is the template for `pk` on the tip at time `now`, its coinbase output id `coinbase_id`.
pub open spec fn is_template(chain: Blockchain, pk: PublicKey, now: i64, coinbase_id: u128, b: Block) -> bool {
    let pay = block_reward(chain.height()) + selection_fees(chain.utxo_view(), proposal_window(chain.pool()));
    &&& b.header == (BlockHeader {
        timestamp: now,
        prev_block_hash: tip_hash_of(chain.chain()),
        merkle_root: merkle_root(b.transactions@),
        validator: pk,
    })
    &&& b.transactions@.len() >= 1
    &&& b.transactions@[0].inputs@.len() == 0
    &&& b.transactions@[0].outputs@ == seq![TransactionOutput {
        unique_id: coinbase_id,
        value: pay as u64,
        pubkey: pk,
        is_stake: false,
        locked_until: 0,
    }]
    &&& same_transactions(b.transactions@.subrange(1, b.transactions@.len() as int),
        selection(chain.utxo_view(), proposal_window(chain.pool())))
    &&& b.signature == (Signature { r: Hash256::zero_spec(), s: Hash256::zero_spec() })
}

/// The reason that a slashing request's text names.
pub open spec fn reason_named(text: Seq<char>) -> SlashingReason {
    if occurs_in(text, seq!['d', 'o', 'u', 'b', 'l', 'e']) {
        SlashingReason::DoubleSigning
    } else {
        SlashingReason::Downtime
    }
}

/// The state after handing `b` to `add_block` and, when that succeeds, rebuilding the index.
pub open spec fn block_applied(old: Blockchain, new: Blockchain, b: Block) -> bool {
    &&& new.history() == old.history()
    &&& !old.links(b) ==> new.chain() == old.chain() && new.orphan_blocks() == old.orphan_blocks().push(b)
        && new.pool() == old.pool() && new.utxo_view() == apply_blocks(Map::empty(), old.chain())
    &&& old.links(b) && old.validation(b) is Err ==> same_state(new, old)
    &&& old.links(b) && old.validation(b) is Ok ==> new.chain().len() > old.chain().len()
        && new.chain().subrange(0, old.chain().len() + 1 as int) == old.chain().push(b)
        && new.utxo_view() == apply_blocks(Map::empty(), new.chain())
        && !waits_on(new.orphan_blocks(), tip_hash_of(new.chain()))
}

/// The state after admitting `tx` at `now`, as `admission` gives it.
pub open spec fn transaction_applied(old: Blockchain, new: Blockchain, tx: Transaction, now: i64) -> bool {
    let a = admission(old.utxo_view(), old.pool(), old.height(), tx, now);
    &&& new.utxo_view() == a.1
    &&& new.pool() == a.2
    &&& new.chain() == old.chain()
    &&& new.orphan_blocks() == old.orphan_blocks()
    &&& new.history() == old.history()
}

/// A block template for `pk` on the tip at time `now`: a coinbase paying the block
/// reward plus the selected fees (output id `coinbase_id`), then the selected mempool
/// transactions, with a zero signature for the validator to replace. `None` when
/// another validator is expected, or the payment does not fit a coinbase output.
pub fn build_template(chain: &Blockchain, pk: &PublicKey, now: i64, coinbase_id: u128) -> (r: Option<Block>)
    requires
        chain.wf(),
    ensures
        r is Some <==> template_owed(*chain, *pk),
        r matches Some(b) ==> is_template(*chain, *pk, now, coinbase_id, b),
{
    let tip = chain.tip_hash();
    match chain.get_next_validator(&tip) {
        Some(v) => {
            if v != *pk {
                return None;
            }
        },
        None => {},
    }
    let (selected, fees) = match select_transactions(chain) {
        Some(x) => x,
        None => {
            return None;
        },
    };
    let reward = chain.calculate_block_reward();
    if fees > u64::MAX - reward {
        return None;
    }
    let mut outs: Vec<TransactionOutput> = Vec::new();
    outs.push(TransactionOutput { unique_id: coinbase_id, value: reward + fees, pubkey: *pk, is_stake: false, locked_until: 0 });
    let mut transactions: Vec<Transaction> = Vec::new();
    transactions.push(Transaction { inputs: Vec::new(), outputs: outs });
    let mut rest = selected;
    let ghost sel = rest@;
    transactions.append(&mut rest);
    assert(transactions@.subrange(1, transactions@.len() as int) == sel);
    let merkle = calculate_merkle_root(&transactions);
    let header = BlockHeader { timestamp: now, prev_block_hash: tip, merkle_root: merkle, validator: *pk };
    Some(Block { header, transactions, signature: Signature { r: Hash256::zero(), s: Hash256::zero() } })
}

/// What a node does with one message from a peer: the reply, gossip or closing that
/// follows, and its effect on the chain. `now` and `coinbase_id` stamp admissions and
/// templates; `peers` is the current peer list.
#[verifier::rlimit(80)]
pub fn handle_message(chain: &mut Blockchain, message: Message, peers: &Vec<String>, now: i64, coinbase_id: u128) -> (r: Action)
    requires
        old(chain).wf(),
    ensures
        final(chain).wf(),
        (message is NodeList || message is Difference || message is BlockHeight || message is UTXOs
            || message is TemplateValidity || message is Template) ==> r is Close && same_state(*final(chain), *old(chain)),
        message matches Message::FetchBlock(h) ==> same_state(*final(chain), *old(chain)) && (r is Close <==> h
            >= old(chain).chain().len()) && (h < old(chain).chain().len() ==> (r matches Action::Reply(Message::NewBlock(b))
            && b.header == old(chain).chain()[h as int].header && b.signature == old(chain).chain()[h as int].signature
            && same_transactions(b.transactions@, old(chain).chain()[h as int].transactions@))),
        message matches Message::DiscoverNodes(port) ==> r matches Action::Discover(p) && p == port && same_state(*final(chain), *old(chain)),
        message matches Message::AskDifference(h) ==> r matches Action::Reply(Message::Difference(d))
            && d == height_difference(old(chain).chain().len() as int, h as int) && same_state(*final(chain), *old(chain)),
        message matches Message::FetchBlockHeight ==> r matches Action::Reply(Message::BlockHeight(n))
            && n == old(chain).chain().len() && same_state(*final(chain), *old(chain)),
        message matches Message::FetchUTXOs(pk) ==> r matches Action::Reply(Message::UTXOs(list))
            && list@ == owned_by(old(chain).utxo_entries(), pk) && same_state(*final(chain), *old(chain)),
        message matches Message::ValidateTemplate(b) ==> r matches Action::Reply(Message::TemplateValidity(ok))
            && ok == (b.header.prev_block_hash == tip_hash_of(old(chain).chain())) && same_state(*final(chain), *old(chain)),
        message matches Message::NewBlock(b) ==> r is Continue && block_applied(*old(chain), *final(chain), b),
        message matches Message::SubmitTemplate(b) ==> block_applied(*old(chain), *final(chain), b) && (if old(chain).links(b)
            && old(chain).validation(b) is Err {
            r is Continue
        } else {
            r matches Action::Gossip(Message::NewBlock(c)) && c.header == b.header && c.signature == b.signature
                && same_transactions(c.transactions@, b.transactions@)
        }),
        message matches Message::NewTransaction(tx) ==> transaction_applied(*old(chain), *final(chain), tx, now)
            && (r is Close <==> admission_fails(old(chain), tx, now)) && (r is Close || r is Continue),
        message matches Message::SubmitTransaction(tx) ==> transaction_applied(*old(chain), *final(chain), tx, now)
            && (r is Close <==> admission_fails(old(chain), tx, now)) && (!admission_fails(old(chain), tx, now) ==> (r matches Action::Gossip(
            Message::NewTransaction(t))
            && t.inputs@ == tx.inputs@ && t.outputs@ == tx.outputs@)),
        message matches Message::FetchTemplate(pk) ==> same_state(*final(chain), *old(chain)) && (r is Close <==> !template_owed(
            *old(chain),
            pk,
        )) && (template_owed(*old(chain), pk) ==> (r matches Action::Reply(Message::Template(b)) && is_template(*old(chain), pk, now, coinbase_id, b))),
        message matches Message::SlashValidator(pk, text, _evidence) ==> r is Continue && final(chain).chain() == old(chain).chain()
            && final(chain).pool() == old(chain).pool() && final(chain).utxo_view() == old(chain).utxo_view()
            && final(chain).orphan_blocks() == old(chain).orphan_blocks() && (old(chain).active_stake(pk) == 0
            ==> final(chain).history() == old(chain).history()) && (old(chain).active_stake(pk) > 0 ==> final(chain).history()
            == old(chain).history().push(SlashingRecord {
            validator: pk,
            block_height: old(chain).height(),
            reason: reason_named(text@),
            penalty_amount: Blockchain::penalty(old(chain).active_stake(pk), reason_named(text@)) as u128,
        })),
{
    match message {
        Message::NodeList(_) | Message::Difference(_) | Message::BlockHeight(_) | Message::UTXOs(_)
        | Message::TemplateValidity(_) | Message::Template(_) => Action::Close,
        Message::FetchBlock(h) => {
            let n: usize = chain.blocks().len();
            if h as u128 >= n as u128 {
                Action::Close
            } else {
                let i: usize = h as usize;
                assert(i as int == h as int);
                Action::Reply(Message::NewBlock(chain.blocks()[i].copy()))
            }
        },
        Message::DiscoverNodes(port) => Action::Discover(port),
        Message::AskDifference(h) => {
            let local = chain.block_height() as i128;
            let d = local - h as i128;
            let diff: i32 = if d > i32::MAX as i128 {
                i32::MAX
            } else if d < i32::MIN as i128 {
                i32::MIN
            } else {
                d as i32
            };
            Action::Reply(Message::Difference(diff))
        },
        Message::FetchBlockHeight => Action::Reply(Message::BlockHeight(chain.block_height())),
        Message::FetchUTXOs(pk) => Action::Reply(Message::UTXOs(utxos_of(chain, &pk))),
        Message::NewBlock(b) => {
            if chain.add_block(b).is_ok() {
                chain.rebuild_utxos();
            }
            Action::Continue
        },
        Message::NewTransaction(tx) => {
            match chain.add_to_mempool_at(tx, now) {
                Ok(()) => Action::Continue,
                Err(_) => Action::Close,
            }
        },
        Message::ValidateTemplate(b) => {
            let tip = chain.tip_hash();
            Action::Reply(Message::TemplateValidity(b.header.prev_block_hash == tip))
        },
        Message::SubmitTemplate(b) => {
            let copy = b.copy();
            match chain.add_block(b) {
                Ok(()) => {
                    chain.rebuild_utxos();
                    Action::Gossip(Message::NewBlock(copy))
                },
                Err(_) => Action::Continue,
            }
        },
        Message::SubmitTransaction(tx) => {
            let copy = tx.copy();
            match chain.add_to_mempool_at(tx, now) {
                Ok(()) => Action::Gossip(Message::NewTransaction(copy)),
                Err(_) => Action::Close,
            }
        },
        Message::FetchTemplate(pk) => {
            match build_template(chain, &pk, now, coinbase_id) {
                Some(b) => Action::Reply(Message::Template(b)),
                None => Action::Close,
            }
        },
        Message::SlashValidator(pk, reason, _evidence) => {
            let why = slashing_reason(&reason);
            let _ = chain.slash_validator(&pk, why);
            Action::Continue
        },
    }
}

/// Admitting `tx` at `now` to the chain's mempool fails.
pub open spec fn admission_fails(chain: &Blockchain, tx: Transaction, now: i64) -> bool {
    admission(chain.utxo_view(), chain.pool(), chain.height(), tx, now).0 is Err
}

/// Which peer to sync from, given each peer's answer to `AskDifference(0)`: the first
/// with the largest positive difference; `None` when no peer is ahead.
pub fn longest_chain_peer(answers: &Vec<i32>) -> (r: Option<usize>)
    ensures
        r is None <==> forall|k: int| 0 <= k < answers@.len() ==> answers@[k] <= 0,
        r matches Some(i) ==> i < answers@.len() && answers@[i as int] > 0
            && (forall|k: int| 0 <= k < answers@.len() ==> answers@[k] <= answers@[i as int])
            && (forall|k: int| 0 <= k < i ==> answers@[k] < answers@[i as int]),
{
    let mut best: Option<usize> = None;
    let mut k: usize = 0;
    while k < answers.len()
        invariant
            k <= answers@.len(),
            best is None ==> forall|q: int| 0 <= q < k ==> answers@[q] <= 0,
            best matches Some(i) ==> i < k && answers@[i as int] > 0
                && (forall|q: int| 0 <= q < k ==> answers@[q] <= answers@[i as int])
                && (forall|q: int| 0 <= q < i ==> answers@[q] < answers@[i as int]),
        decreases answers.len() - k,
    {
        let a = answers[k];
        match best {
            None => {
                if a > 0 {
                    best = Some(k);
                }
            },
            Some(i) => {
                if a > answers[i] {
                    best = Some(k);
                }
            },
        }
        k = k + 1;
    }
    best
}

} // verus!
