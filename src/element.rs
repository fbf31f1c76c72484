//! The tree element: a leaf holding one value, or a node owning two children,
//! each with its digest cached at construction.
use crate::digest::{hash_concat, hash_data, hash_leaf, hash_pair};
use vstd::prelude::*;

verus! {

pub enum TreeElement {
    /// A leaf holds one original value.
    Leaf { value: u8, hash: Vec<u8> },
    /// An internal node owns its two children.
    Node { left: Box<TreeElement>, right: Box<TreeElement>, hash: Vec<u8> },
}

impl TreeElement {
    /// The digest stored in this element.
    pub open spec fn digest(self) -> Seq<u8> {
        match self {
            TreeElement::Leaf { hash, .. } => hash@,
            TreeElement::Node { hash, .. } => hash@,
        }
    }

    /// Every stored digest is the hash of the element's content.
    pub open spec fn wf(self) -> bool
        decreases self,
    {
        match self {
            TreeElement::Leaf { value, hash } => hash@ == hash_leaf(value),
            TreeElement::Node { left, right, hash } => {
                &&& hash@ == hash_pair(left.digest(), right.digest())
                &&& left.wf()
                &&& right.wf()
            },
        }
    }

    /// The leaf values, left to right.
    pub open spec fn leaves(self) -> Seq<u8>
        decreases self,
    {
        match self {
            TreeElement::Leaf { value, .. } => seq![value],
            TreeElement::Node { left, right, .. } => left.leaves() + right.leaves(),
        }
    }

    /// Some leaf below this element stores the digest `d`.
    pub open spec fn has_leaf_digest(self, d: Seq<u8>) -> bool
        decreases self,
    {
        match self {
            TreeElement::Leaf { hash, .. } => hash@ == d,
            TreeElement::Node { left, right, .. } => left.has_leaf_digest(d)
                || right.has_leaf_digest(d),
        }
    }

    /// The number of elements in the subtree.
    pub open spec fn size(self) -> nat
        decreases self,
    {
        match self {
            TreeElement::Leaf { .. } => 1,
            TreeElement::Node { left, right, .. } => 1 + left.size() + right.size(),
        }
    }

    /// Returns the digest of the element.
    pub fn hash(&self) -> (r: &Vec<u8>)
        ensures
            r@ == self.digest(),
    {
        match self {
            TreeElement::Leaf { hash, .. } => hash,
            TreeElement::Node { hash, .. } => hash,
        }
    }

    /// Builds a leaf from one value.
    pub fn new_leaf(value: u8) -> (r: TreeElement)
        ensures
            r matches TreeElement::Leaf { value: v, .. } && v == value,
            r.wf(),
            r.digest() == hash_leaf(value),
            r.digest().len() == 32,
            r.leaves() == seq![value],
    {
        let data: Vec<u8> = vec![value];
        assert(data@ =~= seq![value]);
        TreeElement::Leaf { hash: hash_data(&data), value: value }
    }

    /// Builds an internal node over two elements, `left` first.
    pub fn new_node(left: TreeElement, right: TreeElement) -> (r: TreeElement)
        ensures
            r matches TreeElement::Node { left: l, right: rt, .. } && *l == left && *rt == right,
            r.digest() == hash_pair(left.digest(), right.digest()),
            left.wf() && right.wf() ==> r.wf(),
            r.leaves() == left.leaves() + right.leaves(),
    {
        let hash = hash_concat(left.hash(), right.hash());
        TreeElement::Node { hash, left: Box::new(left), right: Box::new(right) }
    }
}

/// A leaf digest in a well-formed tree is the hash of one of its values.
pub proof fn lemma_leaf_digest_source(t: TreeElement, d: Seq<u8>)
    requires
        t.wf(),
        t.has_leaf_digest(d),
    ensures
        exists|i: int| 0 <= i < t.leaves().len() && hash_leaf(#[trigger] t.leaves()[i]) == d,
    decreases t,
{
    match t {
        TreeElement::Leaf { value, .. } => {
            assert(t.leaves()[0] == value);
        },
        TreeElement::Node { left, right, .. } => {
            if left.has_leaf_digest(d) {
                lemma_leaf_digest_source(*left, d);
                let i = choose|i: int| 0 <= i < left.leaves().len() && hash_leaf(#[trigger] left.leaves()[i]) == d;
                assert(t.leaves()[i] == left.leaves()[i]);
            } else {
                lemma_leaf_digest_source(*right, d);
                let i = choose|i: int| 0 <= i < right.leaves().len() && hash_leaf(#[trigger] right.leaves()[i]) == d;
                assert(t.leaves()[left.leaves().len() + i] == right.leaves()[i]);
            }
        },
    }
}

/// Every value of a well-formed tree has its leaf digest somewhere in it.
pub proof fn lemma_value_has_leaf_digest(t: TreeElement, v: u8)
    requires
        t.wf(),
        t.leaves().contains(v),
    ensures
        t.has_leaf_digest(hash_leaf(v)),
    decreases t,
{
    match t {
        TreeElement::Leaf { value, .. } => {
            assert(t.leaves()[0] == value);
        },
        TreeElement::Node { left, right, .. } => {
            let i = choose|i: int| 0 <= i < t.leaves().len() && t.leaves()[i] == v;
            if i < left.leaves().len() {
                assert(left.leaves()[i] == v);
                lemma_value_has_leaf_digest(*left, v);
            } else {
                assert(right.leaves()[i - left.leaves().len()] == v);
                lemma_value_has_leaf_digest(*right, v);
            }
        },
    }
}

} // verus!
