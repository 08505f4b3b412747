//! Hashing and signatures. SHA-256 comes from `sha2`, ECDSA over secp256k1 from `k256`;
//! both are named here by uninterpreted functions of their byte arguments.
use vstd::prelude::*;
use crate::codec::{enc_block, enc_hash, enc_header, enc_output, enc_pubkey, enc_signature, enc_transaction, put_block, put_hash, put_header, put_output, put_pubkey, put_signature, put_transaction};
use crate::types::{Block, BlockHeader, Hash256, PrivateKey, PublicKey, Signature, Transaction, TransactionOutput};
use k256::ecdsa::signature::Signer;
use k256::ecdsa::signature::Verifier;
use sha2::Digest;

verus! {

/// The SHA-256 digest of a byte string.
pub uninterp spec fn sha256_of(data: Seq<u8>) -> Seq<u8>;

/// Whether an ECDSA/secp256k1 signature (64 bytes, `r || s`) over a message is
/// accepted under a SEC1-encoded public key.
pub uninterp spec fn ecdsa_accepts(msg: Seq<u8>, key: Seq<u8>, sig: Seq<u8>) -> bool;

/// The deterministic (RFC 6979) ECDSA/secp256k1 signature of a message under a secret scalar.
pub uninterp spec fn ecdsa_signature_of(msg: Seq<u8>, secret: Seq<u8>) -> Seq<u8>;

/// Whether signing a message under a secret scalar succeeds (the scalar is a valid key
/// and RFC 6979 yields a signature).
pub uninterp spec fn ecdsa_signs(msg: Seq<u8>, secret: Seq<u8>) -> bool;

/// Whether 32 bytes are a valid secp256k1 secret scalar.
pub uninterp spec fn ecdsa_secret_valid(secret: Seq<u8>) -> bool;

/// The compressed SEC1 encoding of the public key of a secret scalar.
pub uninterp spec fn ecdsa_public_key_of(secret: Seq<u8>) -> Seq<u8>;

/// Relies on `sha2::Sha256::digest`: a 32-byte digest that depends on the input alone.
#[verifier::external_body]
fn sha256_digest(data: &[u8]) -> (r: Vec<u8>)
    ensures
        r@ == sha256_of(data@),
        r@.len() == 32,
{
    sha2::Sha256::digest(data).to_vec()
}

/// Relies on `k256::ecdsa::VerifyingKey::verify`; a key or signature that does not
/// parse (`from_sec1_bytes`, `Signature::from_slice`) is not accepted.
#[verifier::external_body]
fn ecdsa_verify(msg: &[u8], key: &[u8], sig: &[u8]) -> (r: bool)
    ensures
        r == ecdsa_accepts(msg@, key@, sig@),
{
    match (k256::ecdsa::VerifyingKey::from_sec1_bytes(key), k256::ecdsa::Signature::from_slice(sig)) {
        (Ok(k), Ok(s)) => k.verify(msg, &s).is_ok(),
        _ => false,
    }
}

/// Relies on `k256::ecdsa::SigningKey::from_slice` and `try_sign` (RFC 6979,
/// deterministic): whether it succeeds depends on the arguments alone; on success the
/// 64-byte signature `r || s`.
#[verifier::external_body]
fn ecdsa_sign(msg: &[u8], secret: &[u8]) -> (r: Option<Vec<u8>>)
    ensures
        r is Some <==> ecdsa_signs(msg@, secret@),
        r matches Some(s) ==> s@ == ecdsa_signature_of(msg@, secret@) && s@.len() == 64,
{
    let key = k256::ecdsa::SigningKey::from_slice(secret).ok()?;
    let sig: k256::ecdsa::Signature = key.try_sign(msg).ok()?;
    Some(sig.to_bytes().to_vec())
}

/// Relies on `k256::ecdsa::SigningKey::from_slice` (which fails exactly on an invalid
/// scalar) and `verifying_key` with `to_encoded_point(true)`: the 33-byte compressed
/// public key of a valid secret key.
#[verifier::external_body]
fn ecdsa_public_key(secret: &[u8]) -> (r: Option<Vec<u8>>)
    ensures
        r is Some <==> ecdsa_secret_valid(secret@),
        r matches Some(k) ==> k@ == ecdsa_public_key_of(secret@) && k@.len() == 33,
{
    let key = k256::ecdsa::SigningKey::from_slice(secret).ok()?;
    Some(key.verifying_key().to_encoded_point(true).as_bytes().to_vec())
}

/// The big-endian value of the eight bytes of `s` from `off`.
#[verifier::opaque]
pub open spec fn be_word(s: Seq<u8>, off: int) -> u64 {
    (s[off] as u64) << 56u64 | (s[off + 1] as u64) << 48u64 | (s[off + 2] as u64) << 40u64 | (s[off
        + 3] as u64) << 32u64 | (s[off + 4] as u64) << 24u64 | (s[off + 5] as u64) << 16u64 | (s[off
        + 6] as u64) << 8u64 | (s[off + 7] as u64)
}

/// The hash held by 32 bytes from `off`.
pub open spec fn hash_from_bytes(s: Seq<u8>, off: int) -> Hash256 {
    Hash256 {
        w0: be_word(s, off),
        w1: be_word(s, off + 8),
        w2: be_word(s, off + 16),
        w3: be_word(s, off + 24),
    }
}

/// Reading eight big-endian bytes back gives the word that wrote them.
pub proof fn lemma_word_round_trip(x: u64, s: Seq<u8>, off: int)
    requires
        0 <= off,
        off + 8 <= s.len(),
        s.subrange(off, off + 8) == crate::codec::u64_be(x),
    ensures
        be_word(s, off) == x,
{
    reveal(be_word);
    let b = crate::codec::u64_be(x);
    assert(s[off] == b[0] && s[off + 1] == b[1] && s[off + 2] == b[2] && s[off + 3] == b[3]);
    assert(s[off + 4] == b[4] && s[off + 5] == b[5] && s[off + 6] == b[6] && s[off + 7] == b[7]) by {
        assert(s[off + 4] == s.subrange(off, off + 8)[4]);
        assert(s[off + 5] == s.subrange(off, off + 8)[5]);
        assert(s[off + 6] == s.subrange(off, off + 8)[6]);
        assert(s[off + 7] == s.subrange(off, off + 8)[7]);
    }
    assert(((((x >> 56u64) as u8) as u64) << 56u64) | ((((x >> 48u64) as u8) as u64) << 48u64) | ((((x >> 40u64) as u8) as u64)
        << 40u64) | ((((x >> 32u64) as u8) as u64) << 32u64) | ((((x >> 24u64) as u8) as u64) << 24u64) | ((((x >> 16u64) as u8) as u64)
        << 16u64) | ((((x >> 8u64) as u8) as u64) << 8u64) | ((x as u8) as u64) == x) by (bit_vector);
}

/// The hash of a byte string: its SHA-256 digest as four big-endian words.
pub open spec fn hash_of(data: Seq<u8>) -> Hash256 {
    hash_from_bytes(sha256_of(data), 0)
}

/// The hash of a transaction with these inputs and outputs.
pub open spec fn view_hash(ins: Seq<crate::types::TransactionInput>, outs: Seq<TransactionOutput>) -> Hash256 {
    hash_of(crate::codec::enc_transaction_parts(ins, outs))
}

/// A transaction's hash depends on its inputs and outputs alone.
pub proof fn lemma_transaction_hash_views(t: Transaction)
    ensures
        transaction_hash(t) == view_hash(t.inputs@, t.outputs@),
{
    reveal(transaction_hash);
}

#[verifier::opaque]
pub open spec fn output_hash(o: TransactionOutput) -> Hash256 {
    hash_of(enc_output(o))
}

#[verifier::opaque]
pub open spec fn transaction_hash(t: Transaction) -> Hash256 {
    hash_of(enc_transaction(t))
}

#[verifier::opaque]
pub open spec fn header_hash(h: BlockHeader) -> Hash256 {
    hash_of(enc_header(h))
}

#[verifier::opaque]
pub open spec fn block_hash(b: Block) -> Hash256 {
    hash_of(enc_block(b))
}

/// A signature verifies over a hash (its 32 bytes) under a public key.
pub open spec fn signature_valid(sig: Signature, h: Hash256, key: PublicKey) -> bool {
    ecdsa_accepts(enc_hash(h), enc_pubkey(key), enc_signature(sig))
}

pub(crate) fn read_word(s: &[u8], off: usize) -> (r: u64)
    requires
        off + 8 <= s@.len(),
    ensures
        r == be_word(s@, off as int),
{
    reveal(be_word);
    (s[off] as u64) << 56u64 | (s[off + 1] as u64) << 48u64 | (s[off + 2] as u64) << 40u64 | (s[off
        + 3] as u64) << 32u64 | (s[off + 4] as u64) << 24u64 | (s[off + 5] as u64) << 16u64 | (s[off
        + 6] as u64) << 8u64 | (s[off + 7] as u64)
}

pub(crate) fn read_hash(s: &[u8], off: usize) -> (r: Hash256)
    requires
        off + 32 <= s@.len(),
    ensures
        r == hash_from_bytes(s@, off as int),
{
    let n: usize = s.len();
    assert(off + 32 <= n);
    Hash256 {
        w0: read_word(s, off),
        w1: read_word(s, off + 8),
        w2: read_word(s, off + 16),
        w3: read_word(s, off + 24),
    }
}

/// The hash of a byte string.
pub fn hash_bytes(data: &[u8]) -> (r: Hash256)
    ensures
        r == hash_of(data@),
{
    let d = sha256_digest(data);
    read_hash(d.as_slice(), 0)
}

impl Hash256 {
    /// The hash of 32 bytes, big-endian word by word.
    pub fn from_bytes(bytes: &[u8]) -> (r: Hash256)
        requires
            bytes@.len() == 32,
        ensures
            r == hash_from_bytes(bytes@, 0),
    {
        read_hash(bytes, 0)
    }

    pub fn to_bytes(&self) -> (r: Vec<u8>)
        ensures
            r@ == enc_hash(*self),
    {
        let mut out: Vec<u8> = Vec::new();
        put_hash(&mut out, self);
        assert(out@ =~= enc_hash(*self));
        out
    }
}

impl TransactionOutput {
    pub fn hash(&self) -> (r: Hash256)
        ensures
            r == output_hash(*self),
    {
        reveal(output_hash);
        let mut out: Vec<u8> = Vec::new();
        put_output(&mut out, self);
        assert(out@ =~= enc_output(*self));
        hash_bytes(out.as_slice())
    }
}

impl Transaction {
    pub fn hash(&self) -> (r: Hash256)
        ensures
            r == transaction_hash(*self),
    {
        reveal(transaction_hash);
        let mut out: Vec<u8> = Vec::new();
        put_transaction(&mut out, self);
        assert(out@ =~= enc_transaction(*self));
        hash_bytes(out.as_slice())
    }
}

impl BlockHeader {
    pub fn hash(&self) -> (r: Hash256)
        ensures
            r == header_hash(*self),
    {
        reveal(header_hash);
        let mut out: Vec<u8> = Vec::new();
        put_header(&mut out, self);
        assert(out@ =~= enc_header(*self));
        hash_bytes(out.as_slice())
    }
}

impl Block {
    pub fn hash(&self) -> (r: Hash256)
        ensures
            r == block_hash(*self),
    {
        reveal(block_hash);
        let mut out: Vec<u8> = Vec::new();
        put_block(&mut out, self);
        assert(out@ =~= enc_block(*self));
        hash_bytes(out.as_slice())
    }
}

impl Signature {
    /// Whether this signature over `h` verifies under `key`.
    pub fn verify(&self, h: &Hash256, key: &PublicKey) -> (r: bool)
        ensures
            r == signature_valid(*self, *h, *key),
    {
        let mut msg: Vec<u8> = Vec::new();
        put_hash(&mut msg, h);
        let mut k: Vec<u8> = Vec::new();
        put_pubkey(&mut k, key);
        let mut sig: Vec<u8> = Vec::new();
        put_signature(&mut sig, self);
        assert(msg@ =~= enc_hash(*h));
        assert(k@ =~= enc_pubkey(*key));
        assert(sig@ =~= enc_signature(*self));
        ecdsa_verify(msg.as_slice(), k.as_slice(), sig.as_slice())
    }

    /// Signs the 32 bytes of `h`; `None` when the scalar is not a valid secret key.
    pub fn sign_output(h: &Hash256, key: &PrivateKey) -> (r: Option<Signature>)
        ensures
            r is Some <==> ecdsa_signs(enc_hash(*h), enc_hash(key.scalar)),
            r matches Some(s) ==> {
                let b = ecdsa_signature_of(enc_hash(*h), enc_hash(key.scalar));
                s == (Signature { r: hash_from_bytes(b, 0), s: hash_from_bytes(b, 32) })
            },
    {
        let msg = h.to_bytes();
        let secret = key.scalar.to_bytes();
        match ecdsa_sign(msg.as_slice(), secret.as_slice()) {
            Some(b) => Some(Signature { r: read_hash(b.as_slice(), 0), s: read_hash(b.as_slice(), 32) }),
            None => None,
        }
    }
}

impl PrivateKey {
    /// The compressed public key of this secret; `None` when the scalar is not a valid key.
    pub fn public_key(&self) -> (r: Option<PublicKey>)
        ensures
            r is Some <==> ecdsa_secret_valid(enc_hash(self.scalar)),
            r matches Some(k) ==> {
                let b = ecdsa_public_key_of(enc_hash(self.scalar));
                k == (PublicKey { parity: b[0], x: hash_from_bytes(b, 1) })
            },
    {
        let secret = self.scalar.to_bytes();
        match ecdsa_public_key(secret.as_slice()) {
            Some(b) => Some(PublicKey { parity: b[0], x: read_hash(b.as_slice(), 1) }),
            None => None,
        }
    }
}

} // verus!
