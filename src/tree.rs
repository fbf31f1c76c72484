//! The tree builder and the Merkle tree facade.
use crate::digest::{hash_data, hash_leaf, hash_pair, same_digest};
use crate::element::TreeElement;
use crate::inclusion::{Path, Proof};
use std::collections::VecDeque;
use vstd::prelude::*;

verus! {

/// The leaf digests of a sequence of values, in order.
pub open spec fn leaf_digests(s: Seq<u8>) -> Seq<Seq<u8>> {
    s.map_values(|v: u8| hash_leaf(v))
}

/// One fold of a layer: neighbours are paired left to right, and a last
/// unpaired digest is carried forward unchanged.
pub open spec fn fold_layer(l: Seq<Seq<u8>>) -> Seq<Seq<u8>>
    decreases l.len(),
{
    if l.len() < 2 {
        l
    } else {
        seq![hash_pair(l[0], l[1])] + fold_layer(l.subrange(2, l.len() as int))
    }
}

/// A fold halves a layer, rounding up.
pub proof fn lemma_fold_layer_len(l: Seq<Seq<u8>>)
    ensures
        fold_layer(l).len() == (l.len() + 1) / 2,
    decreases l.len(),
{
    if l.len() >= 2 {
        lemma_fold_layer_len(l.subrange(2, l.len() as int));
    }
}

/// The digest left when a non-empty layer is folded until one remains.
pub open spec fn layer_root(l: Seq<Seq<u8>>) -> Seq<u8>
    decreases l.len(),
{
    if l.len() <= 1 {
        l[0]
    } else {
        proof {
            lemma_fold_layer_len(l);
        }
        layer_root(fold_layer(l))
    }
}

/// The number of folds that bring `n` elements down to one.
pub open spec fn levels(n: nat) -> nat
    decreases n,
{
    if n <= 1 {
        0
    } else {
        1 + levels(((n + 1) / 2) as nat)
    }
}

/// The root digest of the tree over a non-empty sequence of values.
pub open spec fn merkle_root(s: Seq<u8>) -> Seq<u8> {
    layer_root(leaf_digests(s))
}

/// The digests of a layer of elements.
pub open spec fn digests_of(l: Seq<TreeElement>) -> Seq<Seq<u8>> {
    l.map_values(|e: TreeElement| e.digest())
}

/// The leaf values under a layer of elements, left to right.
pub open spec fn leaves_of(l: Seq<TreeElement>) -> Seq<u8>
    decreases l.len(),
{
    if l.len() == 0 {
        seq![]
    } else {
        leaves_of(l.drop_last()) + l.last().leaves()
    }
}

pub open spec fn all_wf(l: Seq<TreeElement>) -> bool {
    forall|i: int| 0 <= i < l.len() ==> #[trigger] l[i].wf()
}

proof fn lemma_levels_bound(n: nat)
    ensures
        levels(n) <= n,
    decreases n,
{
    if n > 1 {
        lemma_levels_bound(((n + 1) / 2) as nat);
    }
}

proof fn lemma_leaves_of_push(l: Seq<TreeElement>, e: TreeElement)
    ensures
        leaves_of(l.push(e)) == leaves_of(l) + e.leaves(),
{
    assert(l.push(e).drop_last() =~= l);
}

proof fn lemma_leaves_of_concat(a: Seq<TreeElement>, b: Seq<TreeElement>)
    ensures
        leaves_of(a + b) == leaves_of(a) + leaves_of(b),
    decreases b.len(),
{
    if b.len() == 0 {
        assert(a + b =~= a);
        assert(leaves_of(a) + leaves_of(b) =~= leaves_of(a));
    } else {
        lemma_leaves_of_concat(a, b.drop_last());
        assert((a + b).drop_last() =~= a + b.drop_last());
        assert((a + b).last() == b.last());
        assert(leaves_of(a + b) =~= leaves_of(a) + leaves_of(b));
    }
}

proof fn lemma_leaves_of_front(l: Seq<TreeElement>)
    requires
        l.len() > 0,
    ensures
        leaves_of(l) == l[0].leaves() + leaves_of(l.drop_first()),
{
    lemma_leaves_of_concat(seq![l[0]], l.drop_first());
    assert(seq![l[0]] + l.drop_first() =~= l);
    lemma_leaves_of_single(l[0]);
}

proof fn lemma_leaves_of_single(e: TreeElement)
    ensures
        leaves_of(seq![e]) == e.leaves(),
{
    lemma_leaves_of_push(Seq::<TreeElement>::empty(), e);
    assert(Seq::<TreeElement>::empty().push(e) =~= seq![e]);
    assert(leaves_of(Seq::<TreeElement>::empty()) + e.leaves() =~= e.leaves());
}

/// A Merkle tree over a non-empty sequence of values.
pub struct MerkleTree {
    root: TreeElement,
    total_data: usize,
    height: usize,
}

impl MerkleTree {
    /// The root element.
    pub closed spec fn root_element(self) -> TreeElement {
        self.root
    }

    /// The recorded number of values.
    pub closed spec fn leaf_count(self) -> nat {
        self.total_data as nat
    }

    /// The recorded number of folded layers.
    pub closed spec fn layer_count(self) -> nat {
        self.height as nat
    }

    pub open spec fn root_digest(self) -> Seq<u8> {
        self.root_element().digest()
    }

    /// This tree is the one built over the non-empty sequence `s`.
    pub open spec fn built_from(self, s: Seq<u8>) -> bool {
        &&& s.len() > 0
        &&& self.root_element().wf()
        &&& self.root_element().leaves() == s
        &&& self.leaf_count() == s.len()
        &&& self.layer_count() == levels(s.len())
        &&& self.root_digest() == merkle_root(s)
        // each leaf digest was computed here, and SHA-256 digests are 32 bytes
        &&& forall|i: int| 0 <= i < s.len() ==> (#[trigger] hash_leaf(s[i])).len() == 32
    }

    /// `p` is the proof that `get_proof(value)` makes on this tree.
    pub open spec fn proof_of(self, value: u8, p: Proof) -> bool {
        &&& p.proved_value() == value
        &&& p.captured_root() == self.root_digest()
        &&& p.chain().traces(self.root_element(), hash_leaf(value))
    }

    /// What `verify_proof` checks: the proof holds against the root digest of
    /// the tree over the non-empty `data`, and against `claimed`.
    pub open spec fn proof_checks(data: Seq<u8>, proof: Proof, claimed: Seq<u8>) -> bool {
        &&& data.len() > 0
        &&& proof.valid_for(merkle_root(data))
        &&& proof.valid_for(claimed)
    }

    /// Builds the tree over `input`; there is none over an empty sequence.
    pub fn construct(input: &crate::Data) -> (r: Option<MerkleTree>)
        ensures
            r is None <==> input@.len() == 0,
            r matches Some(t) ==> t.built_from(input@),
    {
        let count = input.len();
        if count == 0 {
            return None;
        }
        let mut height: usize = 0;
        let mut layer: VecDeque<TreeElement> = VecDeque::with_capacity(count);
        let mut i: usize = 0;
        while i < count
            invariant
                count == input@.len(),
                i <= count,
                layer@.len() == i,
                all_wf(layer@),
                digests_of(layer@) == leaf_digests(input@.subrange(0, i as int)),
                leaves_of(layer@) == input@.subrange(0, i as int),
                forall|k: int| 0 <= k < i ==> (#[trigger] hash_leaf(input@[k])).len() == 32,
            decreases count - i,
        {
            let leaf = TreeElement::new_leaf(input[i]);
            let ghost before = layer@;
            proof {
                lemma_leaves_of_push(layer@, leaf);
            }
            layer.push_back(leaf);
            proof {
                assert(digests_of(layer@) =~= digests_of(before).push(leaf.digest()));
                assert(leaf_digests(input@.subrange(0, i + 1)) =~= leaf_digests(
                    input@.subrange(0, i as int),
                ).push(hash_leaf(input@[i as int])));
                assert(input@.subrange(0, i + 1) =~= input@.subrange(0, i as int).push(input@[i as int]));
                assert(digests_of(layer@) =~= leaf_digests(input@.subrange(0, i + 1)));
            }
            i += 1;
        }
        proof {
            assert(input@.subrange(0, count as int) =~= input@);
            lemma_levels_bound(count as nat);
        }
        while layer.len() > 1
            invariant
                count == input@.len(),
                count > 0,
                layer@.len() >= 1,
                all_wf(layer@),
                leaves_of(layer@) == input@,
                layer_root(digests_of(layer@)) == merkle_root(input@),
                height + levels(layer@.len()) == levels(count as nat),
                levels(count as nat) <= count,
                forall|k: int| 0 <= k < count ==> (#[trigger] hash_leaf(input@[k])).len() == 32,
            decreases layer@.len(),
        {
            let ghost start = layer@;
            let mut next: VecDeque<TreeElement> = VecDeque::with_capacity(layer.len() / 2);
            while layer.len() > 0
                invariant
                    all_wf(layer@),
                    all_wf(next@),
                    digests_of(next@) + fold_layer(digests_of(layer@)) == fold_layer(
                        digests_of(start),
                    ),
                    leaves_of(next@) + leaves_of(layer@) == leaves_of(start),
                decreases layer@.len(),
            {
                let ghost before = layer@;
                let ghost before_next = next@;
                proof {
                    lemma_leaves_of_front(before);
                }
                if layer.len() == 1 {
                    let e = layer.pop_front().unwrap();
                    proof {
                        lemma_leaves_of_push(next@, e);
                        assert(layer@ =~= Seq::<TreeElement>::empty());
                        assert(digests_of(before) =~= seq![e.digest()]);
                        assert(before.drop_first() =~= Seq::<TreeElement>::empty());
                    }
                    next.push_back(e);
                    proof {
                        assert(digests_of(next@) =~= digests_of(before_next) + seq![e.digest()]);
                        assert(digests_of(next@) + fold_layer(digests_of(layer@)) =~= digests_of(
                            before_next,
                        ) + fold_layer(digests_of(before)));
                        assert(leaves_of(next@) + leaves_of(layer@) =~= leaves_of(before_next)
                            + leaves_of(before));
                    }
                } else {
                    let l = layer.pop_front().unwrap();
                    let ghost mid = layer@;
                    proof {
                        lemma_leaves_of_front(mid);
                    }
                    let r = layer.pop_front().unwrap();
                    let node = TreeElement::new_node(l, r);
                    proof {
                        lemma_leaves_of_push(next@, node);
                        assert(mid.drop_first() == layer@);
                        assert(digests_of(before).subrange(2, before.len() as int) =~= digests_of(
                            layer@,
                        ));
                    }
                    next.push_back(node);
                    proof {
                        assert(digests_of(next@) =~= digests_of(before_next) + seq![node.digest()]);
                        assert(digests_of(next@) + fold_layer(digests_of(layer@)) =~= digests_of(
                            before_next,
                        ) + fold_layer(digests_of(before)));
                        assert(leaves_of(next@) + leaves_of(layer@) =~= leaves_of(before_next)
                            + leaves_of(before));
                    }
                }
            }
            proof {
                assert(fold_layer(digests_of(layer@)) =~= Seq::<Seq<u8>>::empty());
                assert(leaves_of(layer@) =~= Seq::<u8>::empty());
                assert(digests_of(next@) =~= fold_layer(digests_of(start)));
                assert(leaves_of(next@) =~= leaves_of(start));
                lemma_fold_layer_len(digests_of(start));
            }
            height += 1;
            layer = next;
        }
        let ghost last = layer@;
        let root = layer.pop_back().unwrap();
        proof {
            assert(last =~= seq![root]);
            assert(last[0].wf());
            lemma_leaves_of_single(root);
            assert(digests_of(seq![root]) =~= seq![root.digest()]);
        }
        Some(MerkleTree { root: root, total_data: count, height: height })
    }

    /// The tree over `input` has the root digest `root_hash`; false on an
    /// empty sequence.
    pub fn verify(input: &crate::Data, root_hash: &crate::Hash) -> (r: bool)
        ensures
            r == (input@.len() > 0 && merkle_root(input@) == root_hash@),
    {
        match MerkleTree::construct(input) {
            Some(tree) => same_digest(tree.root_hash(), root_hash),
            None => false,
        }
    }

    /// The proof holds both against the root digest of the tree rebuilt over
    /// `data` and against `root_hash`; false on an empty sequence.
    pub fn verify_proof(data: &crate::Data, proof: &Proof, root_hash: &crate::Hash) -> (r: bool)
        ensures
            r == MerkleTree::proof_checks(data@, *proof, root_hash@),
    {
        match MerkleTree::construct(data) {
            Some(tree) => proof.validate(tree.root_hash()) && proof.validate(root_hash),
            None => false,
        }
    }

    /// The root digest.
    pub fn root_hash(&self) -> (r: &crate::Hash)
        ensures
            r@ == self.root_digest(),
    {
        self.root.hash()
    }

    /// The number of folded layers.
    pub fn get_height(&self) -> (r: usize)
        ensures
            r == self.layer_count(),
    {
        self.height
    }

    /// The number of values the tree was built over.
    pub fn get_total_data(&self) -> (r: usize)
        ensures
            r == self.leaf_count(),
    {
        self.total_data
    }

    /// Whether the tree holds no value.
    pub fn is_empty(&self) -> (r: bool)
        ensures
            r == (self.leaf_count() == 0),
    {
        self.total_data == 0
    }

    /// The proof for the first leaf, in left-first order, that holds `value`.
    pub fn get_proof(&self, value: u8) -> (r: Option<Proof>)
        ensures
            r is Some <==> self.root_element().has_leaf_digest(hash_leaf(value)),
            r matches Some(p) ==> self.proof_of(value, p),
    {
        let data: Vec<u8> = vec![value];
        proof {
            assert(data@ =~= seq![value]);
        }
        let cal_hash = hash_data(&data);
        let rhash = self.root_hash();
        match Path::create_path(&self.root, &cal_hash) {
            Some(p) => Some(Proof::new(value, rhash, p)),
            None => None,
        }
    }
}

} // verus!
