//! The validator's command-line settings.
use vstd::prelude::*;

verus! {

/// The pieces of `s` between the occurrences of `sep`, in order (as `str::split` gives them).
pub open spec fn split_pieces(s: Seq<char>, sep: char) -> Seq<Seq<char>>
    decreases s.len(),
{
    if s.len() == 0 {
        seq![Seq::<char>::empty()]
    } else {
        let rest = split_pieces(s.drop_last(), sep);
        if s.last() == sep {
            rest.push(Seq::<char>::empty())
        } else {
            rest.update(rest.len() - 1, rest.last().push(s.last()))
        }
    }
}

/// `s` without leading and trailing white space.
pub uninterp spec fn trimmed(s: Seq<char>) -> Seq<char>;

/// The trimmed pieces that are not empty, in order.
pub open spec fn nonempty_trimmed(pieces: Seq<Seq<char>>) -> Seq<Seq<char>>
    decreases pieces.len(),
{
    if pieces.len() == 0 {
        seq![]
    } else if trimmed(pieces.last()).len() == 0 {
        nonempty_trimmed(pieces.drop_last())
    } else {
        nonempty_trimmed(pieces.drop_last()).push(trimmed(pieces.last()))
    }
}

/// Relies on `str::split` with a `char` pattern: the pieces between separators, in order.
#[verifier::external_body]
fn split_on(s: &str, sep: char) -> (r: Vec<String>)
    ensures
        r@.len() == split_pieces(s@, sep).len(),
        forall|k: int| 0 <= k < r@.len() ==> (#[trigger] r@[k])@ == split_pieces(s@, sep)[k],
{
    s.split(sep).map(|p| p.to_string()).collect()
}

/// Relies on `str::trim`: the result depends on the characters alone.
#[verifier::external_body]
fn trim(s: &str) -> (r: String)
    ensures
        r@ == trimmed(s@),
{
    s.trim().to_string()
}

pub struct Cli {
    /// Port to listen on for incoming connections.
    pub port: u16,
    /// Path to the validator's private key file.
    pub private_key_file: String,
    /// Path to the local blockchain file.
    pub blockchain_file: String,
    /// Addresses of peer nodes, comma-separated.
    pub nodes: String,
}

impl Cli {
    /// The peer addresses: the comma-separated pieces, trimmed, without empty ones.
    pub fn get_nodes(&self) -> (r: Vec<String>)
        ensures
            r@.len() == nonempty_trimmed(split_pieces(self.nodes@, ',')).len(),
            forall|k: int| 0 <= k < r@.len() ==> (#[trigger] r@[k])@ == nonempty_trimmed(split_pieces(self.nodes@, ','))[k],
    {
        let pieces = split_on(self.nodes.as_str(), ',');
        let ghost all = split_pieces(self.nodes@, ',');
        let mut out: Vec<String> = Vec::new();
        let mut i: usize = 0;
        while i < pieces.len()
            invariant
                i <= pieces@.len(),
                pieces@.len() == all.len(),
                forall|k: int| 0 <= k < pieces@.len() ==> (#[trigger] pieces@[k])@ == all[k],
                out@.len() == nonempty_trimmed(all.subrange(0, i as int)).len(),
                forall|k: int| 0 <= k < out@.len() ==> (#[trigger] out@[k])@ == nonempty_trimmed(all.subrange(0, i as int))[k],
            decreases pieces.len() - i,
        {
            assert(all.subrange(0, i + 1).drop_last() == all.subrange(0, i as int));
            assert(all.subrange(0, i + 1).last() == all[i as int]);
            let t = trim(pieces[i].as_str());
            if !t.as_str().is_empty() {
                out.push(t);
            }
            i = i + 1;
        }
        assert(all.subrange(0, i as int) == all);
        out
    }
}

} // verus!
