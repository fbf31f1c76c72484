//! Inclusion proofs: the path from a leaf up to the root, found by a
//! left-first depth-first search, and its validation against a root digest.
use crate::digest::{
    copy_bytes, digest_collision, hash_concat, hash_data, hash_leaf, hash_pair, lemma_concat_differs,
    lemma_pair_collision, same_digest,
};
use crate::element::TreeElement;
use vstd::prelude::*;

verus! {

/// Which side of the concatenation a sibling digest takes.
pub enum HashDirection<T> {
    Left(T),
    Right(T),
}

/// One link of a proof path: its own digest, the sibling's digest and side
/// (absent at the leaf link), and the link below it (absent at the leaf link).
pub struct Path {
    hash: crate::Hash,
    resulting_hash: Option<HashDirection<crate::Hash>>,
    sub_item: Option<Box<Path>>,
}

impl Path {
    /// The digest stored in this link.
    pub closed spec fn digest(self) -> Seq<u8> {
        self.hash@
    }

    /// Recomputing from the leaf link up, every stored digest matches, and the
    /// leaf link holds the leaf digest of `value`.
    pub closed spec fn chain_ok(self, value: u8) -> bool
        decreases self,
    {
        match self.sub_item {
            Some(child) => match self.resulting_hash {
                Some(HashDirection::Left(h)) => hash_pair(h@, child.hash@) == self.hash@
                    && child.chain_ok(value),
                Some(HashDirection::Right(h)) => hash_pair(child.hash@, h@) == self.hash@
                    && child.chain_ok(value),
                None => false,
            },
            None => self.resulting_hash is None && self.hash@ == hash_leaf(value),
        }
    }

    /// This chain is what the left-first search for `target` yields in `t`.
    pub closed spec fn traces(self, t: TreeElement, target: Seq<u8>) -> bool
        decreases t,
    {
        match t {
            TreeElement::Leaf { hash, .. } => {
                &&& self.hash@ == hash@
                &&& self.resulting_hash is None
                &&& self.sub_item is None
            },
            TreeElement::Node { left, right, hash } => {
                &&& self.hash@ == hash@
                &&& self.sub_item matches Some(c)
                &&& if left.has_leaf_digest(target) {
                    &&& self.resulting_hash matches Some(HashDirection::Right(h))
                    &&& h@ == right.digest()
                    &&& c.traces(*left, target)
                } else {
                    &&& self.resulting_hash matches Some(HashDirection::Left(h))
                    &&& h@ == left.digest()
                    &&& c.traces(*right, target)
                }
            },
        }
    }

    /// This chain equals `orig` but for one stored digest: the link's own, or
    /// its sibling's (on the same side), at exactly one level.
    pub closed spec fn one_digest_changed(self, orig: Path) -> bool
        decreases self,
    {
        ||| {
            &&& self.hash@ != orig.hash@
            &&& self.resulting_hash == orig.resulting_hash
            &&& self.sub_item == orig.sub_item
        }
        ||| {
            &&& self.hash@ == orig.hash@
            &&& self.sub_item == orig.sub_item
            &&& sibling_changed(self.resulting_hash, orig.resulting_hash)
        }
        ||| {
            &&& self.hash@ == orig.hash@
            &&& self.resulting_hash == orig.resulting_hash
            &&& self.sub_item matches Some(c)
            &&& orig.sub_item matches Some(oc)
            &&& c.one_digest_changed(*oc)
        }
    }

    /// Searches `node` left first for a leaf whose digest is `hash_to_find`.
    pub fn create_path(node: &TreeElement, hash_to_find: &crate::Hash) -> (r: Option<Path>)
        ensures
            r is Some <==> node.has_leaf_digest(hash_to_find@),
            r matches Some(p) ==> p.traces(*node, hash_to_find@),
        decreases node.size(), 0nat,
    {
        match node {
            TreeElement::Node { left, right, hash } => Path::new_node_proof(
                hash,
                hash_to_find,
                left,
                right,
            ),
            TreeElement::Leaf { hash, .. } => Path::new_leaf_proof(hash, hash_to_find),
        }
    }

    /// The terminal link, when the leaf digest is the one sought.
    fn new_leaf_proof(hash: &crate::Hash, hash_to_find: &crate::Hash) -> (r: Option<Path>)
        ensures
            r is Some <==> hash@ == hash_to_find@,
            r matches Some(p) ==> p.hash@ == hash@ && p.resulting_hash is None
                && p.sub_item is None,
    {
        if same_digest(hash, hash_to_find) {
            Some(Path { hash: copy_bytes(hash), resulting_hash: None, sub_item: None })
        } else {
            None
        }
    }

    /// The link for an internal node: the left child is searched first.
    fn new_node_proof(
        hash: &crate::Hash,
        hash_to_find: &crate::Hash,
        left: &TreeElement,
        right: &TreeElement,
    ) -> (r: Option<Path>)
        ensures
            r is Some <==> left.has_leaf_digest(hash_to_find@) || right.has_leaf_digest(
                hash_to_find@,
            ),
            r matches Some(p) ==> p.traces(
                TreeElement::Node { left: Box::new(*left), right: Box::new(*right), hash: *hash },
                hash_to_find@,
            ),
        decreases left.size() + right.size(), 1nat,
    {
        match Path::create_path(left, hash_to_find) {
            Some(item) => Some(
                Path {
                    hash: copy_bytes(hash),
                    resulting_hash: Some(HashDirection::Right(copy_bytes(right.hash()))),
                    sub_item: Some(Box::new(item)),
                },
            ),
            None => match Path::create_path(right, hash_to_find) {
                Some(item) => Some(
                    Path {
                        hash: copy_bytes(hash),
                        resulting_hash: Some(HashDirection::Left(copy_bytes(left.hash()))),
                        sub_item: Some(Box::new(item)),
                    },
                ),
                None => None,
            },
        }
    }
}

/// An inclusion proof: the proved value, the root digest captured when the
/// proof was made, and the path from the leaf up to that root.
pub struct Proof {
    path: Path,
    root: crate::Hash,
    value: u8,
}

impl Proof {
    /// The value whose inclusion is claimed.
    pub closed spec fn proved_value(self) -> u8 {
        self.value
    }

    /// The root digest captured when the proof was made.
    pub closed spec fn captured_root(self) -> Seq<u8> {
        self.root@
    }

    /// The path from the leaf link up to the root link.
    pub closed spec fn chain(self) -> Path {
        self.path
    }

    /// The proof holds against the claimed root digest.
    pub open spec fn valid_for(self, claimed: Seq<u8>) -> bool {
        &&& claimed == self.captured_root()
        &&& self.chain().digest() == claimed
        &&& self.chain().chain_ok(self.proved_value())
    }

    pub fn new(value: u8, root_hash: &crate::Hash, path_item: Path) -> (r: Proof)
        ensures
            r.proved_value() == value,
            r.captured_root() == root_hash@,
            r.chain() == path_item,
    {
        Proof { path: path_item, root: copy_bytes(root_hash), value }
    }

    /// Validates the proof against a claimed root digest.
    pub fn validate(&self, root_hash: &crate::Hash) -> (r: bool)
        ensures
            r == self.valid_for(root_hash@),
    {
        if !same_digest(root_hash, &self.root) || !same_digest(&self.path.hash, root_hash) {
            return false;
        }
        self.validate_rec(&self.path)
    }

    /// Checks the links from `path_item` down to the leaf link.
    fn validate_rec(&self, path_item: &Path) -> (r: bool)
        ensures
            r == path_item.chain_ok(self.value),
        decreases path_item,
    {
        match &path_item.sub_item {
            Some(child) => match &path_item.resulting_hash {
                Some(HashDirection::Left(hash)) => {
                    // the sibling sits on the left of the concatenation
                    let calculated = hash_concat(hash, &child.hash);
                    same_digest(&calculated, &path_item.hash) && self.validate_rec(child)
                },
                Some(HashDirection::Right(hash)) => {
                    // the sibling sits on the right of the concatenation
                    let calculated = hash_concat(&child.hash, hash);
                    same_digest(&calculated, &path_item.hash) && self.validate_rec(child)
                },
                None => false,
            },
            None => {
                let data: Vec<u8> = vec![self.value];
                proof {
                    assert(data@ =~= seq![self.value]);
                }
                path_item.resulting_hash.is_none() && same_digest(
                    &path_item.hash,
                    &hash_data(&data),
                )
            },
        }
    }
}

/// Both siblings sit on one side and their digests differ.
pub open spec fn sibling_changed(
    a: Option<HashDirection<crate::Hash>>,
    b: Option<HashDirection<crate::Hash>>,
) -> bool {
    match (a, b) {
        (Some(HashDirection::Left(x)), Some(HashDirection::Left(y))) => x@ != y@,
        (Some(HashDirection::Right(x)), Some(HashDirection::Right(y))) => x@ != y@,
        _ => false,
    }
}

/// Two chains that both check out for `v` under one outermost digest, and
/// differ in one stored digest, exhibit a SHA-256 collision.
proof fn lemma_changed_chain(orig: Path, changed: Path, v: u8)
    requires
        orig.chain_ok(v),
        changed.chain_ok(v),
        orig.digest() == changed.digest(),
        changed.one_digest_changed(orig),
    ensures
        digest_collision(),
    decreases orig,
{
    if changed.hash@ != orig.hash@ {
    } else if changed.resulting_hash != orig.resulting_hash {
        let c = *orig.sub_item.unwrap();
        match (changed.resulting_hash, orig.resulting_hash) {
            (Some(HashDirection::Left(x)), Some(HashDirection::Left(y))) => {
                lemma_concat_differs(x@, y@, c.hash@);
                lemma_pair_collision(x@, c.hash@, y@, c.hash@);
            },
            (Some(HashDirection::Right(x)), Some(HashDirection::Right(y))) => {
                lemma_concat_differs(x@, y@, c.hash@);
                lemma_pair_collision(c.hash@, x@, c.hash@, y@);
            },
            _ => {},
        }
    } else {
        let oc = *orig.sub_item.unwrap();
        let cc = *changed.sub_item.unwrap();
        if oc.hash@ == cc.hash@ {
            lemma_changed_chain(oc, cc, v);
        } else {
            match orig.resulting_hash {
                Some(HashDirection::Left(x)) => {
                    lemma_concat_differs(oc.hash@, cc.hash@, x@);
                    lemma_pair_collision(x@, oc.hash@, x@, cc.hash@);
                },
                Some(HashDirection::Right(x)) => {
                    lemma_concat_differs(oc.hash@, cc.hash@, x@);
                    lemma_pair_collision(oc.hash@, x@, cc.hash@, x@);
                },
                None => {},
            }
        }
    }
}

/// A proof that validates against `claimed` has no other digest it validates
/// against.
pub proof fn lemma_wrong_root_rejected(p: Proof, claimed: Seq<u8>, other: Seq<u8>)
    requires
        p.valid_for(claimed),
        other != claimed,
    ensures
        !p.valid_for(other),
{
}

/// Altering one stored digest of a valid proof (its own digest at any link,
/// or a sibling's) makes it fail against the same root, unless SHA-256 has a
/// collision.
pub proof fn lemma_tamper_detected(orig: Proof, tampered: Proof, claimed: Seq<u8>)
    requires
        orig.valid_for(claimed),
        tampered.proved_value() == orig.proved_value(),
        tampered.captured_root() == orig.captured_root(),
        tampered.chain().one_digest_changed(orig.chain()),
    ensures
        tampered.valid_for(claimed) ==> digest_collision(),
{
    if tampered.valid_for(claimed) {
        lemma_changed_chain(orig.chain(), tampered.chain(), orig.proved_value());
    }
}

/// A search path traced in a well-formed tree for the leaf digest of `v`
/// checks out link by link, and its outermost digest is the tree's.
pub proof fn lemma_traced_path_checks(p: Path, t: TreeElement, v: u8)
    requires
        t.wf(),
        t.has_leaf_digest(hash_leaf(v)),
        p.traces(t, hash_leaf(v)),
    ensures
        p.chain_ok(v),
        p.digest() == t.digest(),
    decreases t,
{
    match t {
        TreeElement::Leaf { .. } => {},
        TreeElement::Node { left, right, .. } => {
            let c = *p.sub_item.unwrap();
            if left.has_leaf_digest(hash_leaf(v)) {
                lemma_traced_path_checks(c, *left, v);
            } else {
                lemma_traced_path_checks(c, *right, v);
            }
        },
    }
}

} // verus!
