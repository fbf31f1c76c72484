//! The digest engine: SHA-256 over byte sequences, and the two canonical
//! hashing operations of the tree (leaf hash and parent combination).
use sha2::Digest;
use vstd::prelude::*;


verus! {

/// The SHA-256 digest of a byte sequence.
pub uninterp spec fn sha256_of(data: Seq<u8>) -> Seq<u8>;

/// The digest of a leaf: the hash of the one-byte buffer `[value]`.
pub open spec fn hash_leaf(value: u8) -> Seq<u8> {
    sha256_of(seq![value])
}

/// The digest of a parent: the hash of the left digest followed by the right one.
pub open spec fn hash_pair(left: Seq<u8>, right: Seq<u8>) -> Seq<u8> {
    sha256_of(left + right)
}

/// Two distinct byte sequences share a SHA-256 digest.
pub open spec fn digest_collision() -> bool {
    exists|x: Seq<u8>, y: Seq<u8>| x != y && sha256_of(x) == sha256_of(y)
}

/// Two distinct inputs with one digest are a collision.
pub proof fn lemma_collision(x: Seq<u8>, y: Seq<u8>)
    requires
        x != y,
        sha256_of(x) == sha256_of(y),
    ensures
        digest_collision(),
{
}

/// Equal parent digests over distinct concatenations are a collision.
pub proof fn lemma_pair_collision(a: Seq<u8>, b: Seq<u8>, c: Seq<u8>, d: Seq<u8>)
    requires
        a + b != c + d,
        hash_pair(a, b) == hash_pair(c, d),
    ensures
        digest_collision(),
{
    lemma_collision(a + b, c + d);
}

/// Concatenations that share one side and differ on the other are distinct.
pub proof fn lemma_concat_differs(a: Seq<u8>, b: Seq<u8>, c: Seq<u8>)
    requires
        a != b,
    ensures
        a + c != b + c,
        c + a != c + b,
{
    if a + c == b + c {
        assert((a + c).subrange(0, a.len() as int) =~= a);
        assert((b + c).subrange(0, b.len() as int) =~= b);
    }
    if c + a == c + b {
        assert((c + a).subrange(c.len() as int, (c + a).len() as int) =~= a);
        assert((c + b).subrange(c.len() as int, (c + b).len() as int) =~= b);
    }
}

/// Relies on sha2::Sha256::digest (through the `Digest` trait): the SHA-256
/// digest of the bytes, whose output size is 32 bytes.
#[verifier::external_body]
fn sha256(data: &Vec<u8>) -> (r: Vec<u8>)
    ensures
        r@ == sha256_of(data@),
        r@.len() == 32,
{
    sha2::Sha256::digest(data).to_vec()
}

/// Hashes a byte buffer.
pub fn hash_data(data: &Vec<u8>) -> (r: crate::Hash)
    ensures
        r@ == sha256_of(data@),
        r@.len() == 32,
{
    sha256(data)
}

/// A fresh vector with the same bytes.
pub(crate) fn copy_bytes(h: &Vec<u8>) -> (r: Vec<u8>)
    ensures
        r@ == h@,
{
    let mut out: Vec<u8> = Vec::new();
    let mut i: usize = 0;
    while i < h.len()
        invariant
            i <= h@.len(),
            out@ == h@.subrange(0, i as int),
        decreases h@.len() - i,
    {
        out.push(h[i]);
        i += 1;
    }
    assert(out@ =~= h@);
    out
}

/// Byte equality of two digests.
pub(crate) fn same_digest(a: &crate::Hash, b: &crate::Hash) -> (r: bool)
    ensures
        r == (a@ == b@),
{
    if a.len() != b.len() {
        return false;
    }
    let mut i: usize = 0;
    while i < a.len()
        invariant
            a@.len() == b@.len(),
            i <= a@.len(),
            forall|k: int| 0 <= k < i ==> a@[k] == b@[k],
        decreases a@.len() - i,
    {
        if a[i] != b[i] {
            return false;
        }
        i += 1;
    }
    assert(a@ =~= b@);
    true
}

/// Hashes the concatenation of two digests, the left one first.
pub fn hash_concat(h1: &crate::Hash, h2: &crate::Hash) -> (r: crate::Hash)
    ensures
        r@ == hash_pair(h1@, h2@),
        r@.len() == 32,
{
    let mut joined: Vec<u8> = copy_bytes(h1);
    let mut j: usize = 0;
    while j < h2.len()
        invariant
            j <= h2@.len(),
            joined@ == h1@ + h2@.subrange(0, j as int),
        decreases h2@.len() - j,
    {
        joined.push(h2[j]);
        j += 1;
        assert(joined@ =~= h1@ + h2@.subrange(0, j as int));
    }
    assert(joined@ =~= h1@ + h2@);
    sha256(&joined)
}

} // verus!
