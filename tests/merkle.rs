use merkletree::{hash_concat, hash_data, Data, MerkleTree, TreeElement};

#[test]
fn empty_merkletree_test() {
    let data: Data = Vec::new();
    let merkletree = MerkleTree::construct(&data);
    assert!(merkletree.is_none());
}

#[test]
fn build_merkletree_test_1() {
    let data: Data = vec![1];
    let merkletree = MerkleTree::construct(&data).unwrap();
    let test_hash = hash_data(&vec![1]);

    assert_eq!(merkletree.get_total_data(), 1);
    assert_eq!(merkletree.get_height(), 0);
    assert!(!merkletree.is_empty());
    assert_eq!(merkletree.root_hash(), &test_hash);
}

#[test]
fn build_merkletree_test_2() {
    let data: Data = vec![1, 2];
    let merkletree = MerkleTree::construct(&data).unwrap();
    let h1 = hash_data(&vec![1]);
    let h2 = hash_data(&vec![2]);
    let test_hash = hash_concat(&h1, &h2);

    assert_eq!(merkletree.get_total_data(), 2);
    assert_eq!(merkletree.get_height(), 1);
    assert!(!merkletree.is_empty());
    assert_eq!(merkletree.root_hash(), &test_hash);
}

#[test]
fn verify_hash_test() {
    let data = vec![1, 2, 3, 4];

    let a1: Data = vec![data[0]];
    let a2: Data = vec![data[1]];
    let a3: Data = vec![data[2]];
    let a4: Data = vec![data[3]];

    let h1 = hash_data(&a1);
    let h2 = hash_data(&a2);
    let h3 = hash_data(&a3);
    let h4 = hash_data(&a4);

    let h5 = hash_concat(&h1, &h2);
    let h6 = hash_concat(&h3, &h4);

    let root_hash = hash_concat(&h5, &h6);

    assert_eq!(MerkleTree::verify(&data, &root_hash), true);
}

#[test]
fn verify_proof_test_fail() {
    let data = vec![1, 2, 3, 4];
    let tree = MerkleTree::construct(&data).unwrap();
    let proof = tree.get_proof(5);

    assert!(proof.is_none());
}

#[test]
fn verify_proof_test_ok() {
    let data = &vec![1, 2, 3, 4];
    let tree = MerkleTree::construct(data).unwrap();

    for v in data {
        let proof = tree.get_proof(*v).unwrap();
        assert_eq!(MerkleTree::verify_proof(&data.clone(), &proof, &tree.root_hash()), true);
    }
}

#[test]
fn sha256_of_abc_is_the_standard_digest() {
    let digest = hash_data(&vec![b'a', b'b', b'c']);
    let expected: Vec<u8> = vec![
        0xba, 0x78, 0x16, 0xbf, 0x8f, 0x01, 0xcf, 0xea, 0x41, 0x41, 0x40, 0xde, 0x5d, 0xae, 0x22,
        0x23, 0xb0, 0x03, 0x61, 0xa3, 0x96, 0x17, 0x7a, 0x9c, 0xb4, 0x10, 0xff, 0x61, 0xf2, 0x00,
        0x15, 0xad,
    ];
    assert_eq!(digest, expected);
}

#[test]
fn hash_concat_hashes_the_joined_bytes() {
    let left: Vec<u8> = vec![b'a'];
    let right: Vec<u8> = vec![b'b', b'c'];
    assert_eq!(hash_concat(&left, &right), hash_data(&vec![b'a', b'b', b'c']));
    assert_ne!(hash_concat(&right, &left), hash_concat(&left, &right));
}

#[test]
fn leaf_digest_is_thirty_two_bytes() {
    let leaf = TreeElement::new_leaf(9);
    assert_eq!(leaf.hash().len(), 32);
    assert_eq!(leaf.hash(), &hash_data(&vec![9]));
    assert_ne!(leaf.hash(), &vec![9]);
}

#[test]
fn node_digest_pairs_children_left_first() {
    let node = TreeElement::new_node(TreeElement::new_leaf(1), TreeElement::new_leaf(2));
    let expected = hash_concat(&hash_data(&vec![1]), &hash_data(&vec![2]));
    assert_eq!(node.hash(), &expected);
}

#[test]
fn three_values_carry_the_last_one_up() {
    let tree = MerkleTree::construct(&vec![1, 2, 3]).unwrap();
    let n = hash_concat(&hash_data(&vec![1]), &hash_data(&vec![2]));
    let expected = hash_concat(&n, &hash_data(&vec![3]));
    assert_eq!(tree.root_hash(), &expected);
    assert_eq!(tree.get_height(), 2);
    assert_eq!(tree.get_total_data(), 3);
}

#[test]
fn five_values_carry_twice() {
    let tree = MerkleTree::construct(&vec![1, 2, 3, 4, 5]).unwrap();
    let h: Vec<Vec<u8>> = (1u8..=5).map(|v| hash_data(&vec![v])).collect();
    let left = hash_concat(&hash_concat(&h[0], &h[1]), &hash_concat(&h[2], &h[3]));
    let expected = hash_concat(&left, &h[4]);
    assert_eq!(tree.root_hash(), &expected);
    assert_eq!(tree.get_height(), 3);
}

#[test]
fn four_values_give_height_two() {
    let tree = MerkleTree::construct(&vec![1, 2, 3, 4]).unwrap();
    assert_eq!(tree.get_height(), 2);
    assert_eq!(tree.get_total_data(), 4);
}

#[test]
fn verify_rejects_another_digest() {
    let data: Data = vec![1, 2, 3, 4];
    let wrong = hash_data(&vec![1]);
    assert!(!MerkleTree::verify(&data, &wrong));
    let tree = MerkleTree::construct(&data).unwrap();
    let mut flipped = tree.root_hash().clone();
    flipped[0] ^= 1;
    assert!(!MerkleTree::verify(&data, &flipped));
}

#[test]
fn verify_on_empty_input_is_false() {
    let data: Data = Vec::new();
    let some_digest = hash_data(&vec![1]);
    assert!(!MerkleTree::verify(&data, &some_digest));
}

#[test]
fn verify_proof_on_empty_input_is_false() {
    let tree = MerkleTree::construct(&vec![1]).unwrap();
    let proof = tree.get_proof(1).unwrap();
    let empty: Data = Vec::new();
    assert!(!MerkleTree::verify_proof(&empty, &proof, tree.root_hash()));
}

#[test]
fn construction_is_deterministic() {
    let data: Data = vec![4, 8, 15, 16, 23, 42];
    let a = MerkleTree::construct(&data).unwrap();
    let b = MerkleTree::construct(&data).unwrap();
    assert_eq!(a.root_hash(), b.root_hash());
}

#[test]
fn order_changes_the_root() {
    let ab = MerkleTree::construct(&vec![1, 2]).unwrap();
    let ba = MerkleTree::construct(&vec![2, 1]).unwrap();
    assert_ne!(ab.root_hash(), ba.root_hash());
}

#[test]
fn proof_fails_against_a_wrong_root() {
    let tree = MerkleTree::construct(&vec![1, 2, 3]).unwrap();
    let proof = tree.get_proof(3).unwrap();
    assert!(proof.validate(tree.root_hash()));
    let mut flipped = tree.root_hash().clone();
    flipped[31] ^= 0x80;
    assert!(!proof.validate(&flipped));
}

#[test]
fn proof_from_another_tree_fails() {
    let first = MerkleTree::construct(&vec![1, 2]).unwrap();
    let second = MerkleTree::construct(&vec![1, 3]).unwrap();
    let proof = first.get_proof(1).unwrap();
    assert!(!MerkleTree::verify_proof(&vec![1, 3], &proof, second.root_hash()));
    assert!(!MerkleTree::verify_proof(&vec![1, 2], &proof, second.root_hash()));
    assert!(MerkleTree::verify_proof(&vec![1, 2], &proof, first.root_hash()));
}

#[test]
fn every_value_of_an_odd_sequence_has_a_valid_proof() {
    let data: Data = vec![10, 20, 30, 40, 50, 60, 70];
    let tree = MerkleTree::construct(&data).unwrap();
    for v in &data {
        let proof = tree.get_proof(*v).unwrap();
        assert!(proof.validate(tree.root_hash()));
        assert!(MerkleTree::verify_proof(&data, &proof, tree.root_hash()));
    }
    assert!(tree.get_proof(11).is_none());
}

#[test]
fn single_value_proof_validates() {
    let tree = MerkleTree::construct(&vec![200]).unwrap();
    let proof = tree.get_proof(200).unwrap();
    assert!(proof.validate(tree.root_hash()));
    assert!(tree.get_proof(201).is_none());
}

#[test]
fn duplicate_values_still_prove() {
    let data: Data = vec![7, 7, 7];
    let tree = MerkleTree::construct(&data).unwrap();
    let proof = tree.get_proof(7).unwrap();
    assert!(MerkleTree::verify_proof(&data, &proof, tree.root_hash()));
}

#[test]
fn largest_byte_values_work() {
    let data: Data = vec![0, 255, 255, 0];
    let tree = MerkleTree::construct(&data).unwrap();
    assert_eq!(tree.get_total_data(), 4);
    let proof = tree.get_proof(255).unwrap();
    assert!(MerkleTree::verify_proof(&data, &proof, tree.root_hash()));
}
