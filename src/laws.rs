//! Properties of the tree and its proofs that relate several operations.
use crate::digest::{
    digest_collision, hash_leaf, hash_pair, lemma_collision, lemma_concat_differs,
    lemma_pair_collision,
};
use crate::element::{lemma_leaf_digest_source, lemma_value_has_leaf_digest};
use crate::inclusion::{lemma_traced_path_checks, Proof};
use crate::tree::{fold_layer, layer_root, leaf_digests, levels, merkle_root, MerkleTree};
use vstd::prelude::*;

verus! {

/// The root digest over one value is its leaf digest.
pub proof fn lemma_root_of_one(v: u8)
    ensures
        merkle_root(seq![v]) == hash_leaf(v),
        levels(1) == 0,
{
    assert(leaf_digests(seq![v]) =~= seq![hash_leaf(v)]);
}

/// The root digest over two values pairs their leaf digests.
pub proof fn lemma_root_of_two(a: u8, b: u8)
    ensures
        merkle_root(seq![a, b]) == hash_pair(hash_leaf(a), hash_leaf(b)),
        levels(2) == 1,
{
    let l = seq![hash_leaf(a), hash_leaf(b)];
    assert(leaf_digests(seq![a, b]) =~= l);
    assert(l.subrange(2, 2) =~= Seq::<Seq<u8>>::empty());
    assert(fold_layer(l.subrange(2, 2)) == l.subrange(2, 2));
    assert(fold_layer(l) =~= seq![hash_pair(hash_leaf(a), hash_leaf(b))]);
    assert(layer_root(l) == layer_root(fold_layer(l)));
    assert(levels(1) == 0);
}

/// Over three values the first two are paired and the third is carried up,
/// then paired with that node at the next layer.
pub proof fn lemma_root_of_three(a: u8, b: u8, c: u8)
    ensures
        merkle_root(seq![a, b, c]) == hash_pair(
            hash_pair(hash_leaf(a), hash_leaf(b)),
            hash_leaf(c),
        ),
        levels(3) == 2,
{
    let n = hash_pair(hash_leaf(a), hash_leaf(b));
    let l = seq![hash_leaf(a), hash_leaf(b), hash_leaf(c)];
    assert(leaf_digests(seq![a, b, c]) =~= l);
    assert(l.subrange(2, 3) =~= seq![hash_leaf(c)]);
    assert(fold_layer(l.subrange(2, 3)) == l.subrange(2, 3));
    assert(fold_layer(l) =~= seq![n, hash_leaf(c)]);
    let m = seq![n, hash_leaf(c)];
    assert(m.subrange(2, 2) =~= Seq::<Seq<u8>>::empty());
    assert(fold_layer(m.subrange(2, 2)) == m.subrange(2, 2));
    assert(fold_layer(m) =~= seq![hash_pair(n, hash_leaf(c))]);
    assert(layer_root(m) == layer_root(fold_layer(m)));
    assert(layer_root(l) == layer_root(fold_layer(l)));
    assert(levels(2) == 1) by {
        assert(levels(1) == 0);
    }
}

/// A tree over one value has no folded layer, one value, and the value's
/// leaf digest as its root digest.
pub proof fn lemma_tree_of_one(v: u8, t: MerkleTree)
    requires
        t.built_from(seq![v]),
    ensures
        t.layer_count() == 0,
        t.leaf_count() == 1,
        t.root_digest() == hash_leaf(v),
{
    lemma_root_of_one(v);
}

/// A tree over two values has one folded layer, and its root digest pairs
/// the two leaf digests, the first on the left.
pub proof fn lemma_tree_of_two(a: u8, b: u8, t: MerkleTree)
    requires
        t.built_from(seq![a, b]),
    ensures
        t.layer_count() == 1,
        t.root_digest() == hash_pair(hash_leaf(a), hash_leaf(b)),
{
    lemma_root_of_two(a, b);
}

/// A tree over three values has two folded layers; the third value is
/// carried up and paired with the node over the first two.
pub proof fn lemma_tree_of_three(a: u8, b: u8, c: u8, t: MerkleTree)
    requires
        t.built_from(seq![a, b, c]),
    ensures
        t.layer_count() == 2,
        t.root_digest() == hash_pair(hash_pair(hash_leaf(a), hash_leaf(b)), hash_leaf(c)),
{
    lemma_root_of_three(a, b, c);
}

/// For every value of a non-empty sequence the tree yields a proof, and
/// that proof passes `verify_proof` with the sequence and its root digest.
pub proof fn lemma_proof_round_trip(s: Seq<u8>, v: u8, t: MerkleTree, p: Proof)
    requires
        t.built_from(s),
        s.contains(v),
    ensures
        t.root_element().has_leaf_digest(hash_leaf(v)),
        t.proof_of(v, p) ==> MerkleTree::proof_checks(s, p, t.root_digest()),
{
    lemma_value_has_leaf_digest(t.root_element(), v);
    if t.proof_of(v, p) {
        lemma_traced_path_checks(p.chain(), t.root_element(), v);
    }
}

/// The tree yields no proof for a value absent from its sequence, unless
/// SHA-256 maps two distinct one-byte buffers to one digest.
pub proof fn lemma_absent_value_has_no_proof(s: Seq<u8>, v: u8, t: MerkleTree)
    requires
        t.built_from(s),
        !s.contains(v),
    ensures
        t.root_element().has_leaf_digest(hash_leaf(v)) ==> digest_collision(),
{
    if t.root_element().has_leaf_digest(hash_leaf(v)) {
        lemma_leaf_digest_source(t.root_element(), hash_leaf(v));
        let i = choose|i: int|
            0 <= i < s.len() && hash_leaf(#[trigger] t.root_element().leaves()[i]) == hash_leaf(v);
        assert(s[i] != v);
        assert(seq![s[i]][0] != seq![v][0]);
        lemma_collision(seq![s[i]], seq![v]);
    }
}

/// Two trees built over one sequence have one root digest.
pub proof fn lemma_deterministic(s: Seq<u8>, t1: MerkleTree, t2: MerkleTree)
    requires
        t1.built_from(s),
        t2.built_from(s),
    ensures
        t1.root_digest() == t2.root_digest(),
{
}

/// Swapping two distinct values changes the root digest, unless SHA-256
/// has a collision.
pub proof fn lemma_order_sensitive(a: u8, b: u8, t1: MerkleTree, t2: MerkleTree)
    requires
        a != b,
        t1.built_from(seq![a, b]),
        t2.built_from(seq![b, a]),
    ensures
        t1.root_digest() != t2.root_digest() || digest_collision(),
{
    lemma_root_of_two(a, b);
    lemma_root_of_two(b, a);
    let ha = hash_leaf(a);
    let hb = hash_leaf(b);
    assert(seq![a, b][0] == a && seq![a, b][1] == b);
    assert(ha.len() == 32 && hb.len() == 32);
    if t1.root_digest() == t2.root_digest() {
        if ha == hb {
            assert(seq![a][0] != seq![b][0]);
            lemma_collision(seq![a], seq![b]);
        } else {
            if ha + hb == hb + ha {
                assert((ha + hb).subrange(0, 32) =~= ha);
                assert((hb + ha).subrange(0, 32) =~= hb);
            }
            lemma_pair_collision(ha, hb, hb, ha);
        }
    }
}

} // verus!
