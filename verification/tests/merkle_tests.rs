use merkle::MerkleTree;

use sha2::Digest;

/// SHA-256 computed directly through the hash crate, for expected values.
fn sha(data: &[u8]) -> [u8; 32] {
    let mut hasher = sha2::Sha256::new();
    hasher.update(data);
    hasher.finalize().into()
}

fn concat(a: &[u8; 32], b: &[u8; 32]) -> Vec<u8> {
    let mut out = Vec::new();
    out.extend_from_slice(a);
    out.extend_from_slice(b);
    out
}

#[test]
fn empty() {
    let tree: MerkleTree = Default::default();
    assert_eq!(true, tree.empty());
    assert_eq!(Err(()), tree.compute_merkle_root());
}

#[test]
fn simple_merkle() {
    let mut tree = MerkleTree::default();
    let mut hashes = Vec::new();

    for i in 0..4 {
        let s = format!("lo: {}", i).into_bytes();
        hashes.push(merkle::compute_hash(&s));
        tree.insert_block(s);
    }

    // hash leaves in to parents
    // H(Parent) = H(H(Leaf1) || H(Leaf2))
    let p1 = concat(&hashes[0], &hashes[1]);
    let p2 = concat(&hashes[2], &hashes[3]);
    let p1_hash = sha(&p1);
    let p2_hash = sha(&p2);

    // Hash parents to the root hash
    // H(Root) = H(H(Parent1) || H(Parent2))
    let root_hash = sha(&concat(&p1_hash, &p2_hash));

    assert_eq!(tree.compute_merkle_root(), Ok(root_hash));
}

#[test]
fn odd_number_blocks_should_be_padded() {
    let mut tree = MerkleTree::default();

    for _ in 0..5 {
        tree.insert_block(Vec::new());
    }
    assert_ne!(Err(()), tree.compute_merkle_root());
}

#[test]
fn test_many_transactions() {
    let mut tree = MerkleTree::default();
    for i in 0..1_000_000 {
        tree.insert_block(format!("foooobar {}", i).into_bytes());
    }
    let root = tree.compute_merkle_root().unwrap();
    println!("merkle root {:?}", root);
}

#[test]
fn compute_hash_matches_sha256_test_vectors() {
    // FIPS 180-2 test vector for SHA-256("abc").
    let expected_abc: [u8; 32] = [
        0xba, 0x78, 0x16, 0xbf, 0x8f, 0x01, 0xcf, 0xea, 0x41, 0x41, 0x40, 0xde, 0x5d, 0xae, 0x22,
        0x23, 0xb0, 0x03, 0x61, 0xa3, 0x96, 0x17, 0x7a, 0x9c, 0xb4, 0x10, 0xff, 0x61, 0xf2, 0x00,
        0x15, 0xad,
    ];
    assert_eq!(merkle::compute_hash(&b"abc".to_vec()), expected_abc);

    // SHA-256 of the empty input.
    let expected_empty: [u8; 32] = [
        0xe3, 0xb0, 0xc4, 0x42, 0x98, 0xfc, 0x1c, 0x14, 0x9a, 0xfb, 0xf4, 0xc8, 0x99, 0x6f, 0xb9,
        0x24, 0x27, 0xae, 0x41, 0xe4, 0x64, 0x9b, 0x93, 0x4c, 0xa4, 0x95, 0x99, 0x1b, 0x78, 0x52,
        0xb8, 0x55,
    ];
    assert_eq!(merkle::compute_hash(&Vec::new()), expected_empty);
}

#[test]
fn same_store_computes_identical_roots() {
    let mut tree = MerkleTree::default();
    tree.insert_block(b"alpha".to_vec());
    tree.insert_block(b"beta".to_vec());
    tree.insert_block(b"gamma".to_vec());
    let first = tree.compute_merkle_root();
    let second = tree.compute_merkle_root();
    assert_eq!(first, second);
}

#[test]
fn swapping_two_blocks_changes_the_root() {
    let mut ab = MerkleTree::default();
    ab.insert_block(b"a".to_vec());
    ab.insert_block(b"b".to_vec());
    let mut ba = MerkleTree::default();
    ba.insert_block(b"b".to_vec());
    ba.insert_block(b"a".to_vec());
    assert_ne!(ab.compute_merkle_root(), ba.compute_merkle_root());
}

#[test]
fn changing_one_byte_changes_the_root() {
    let mut original = MerkleTree::default();
    original.insert_block(vec![1, 2, 3]);
    original.insert_block(vec![4, 5, 6]);
    let mut tampered = MerkleTree::default();
    tampered.insert_block(vec![1, 2, 3]);
    tampered.insert_block(vec![4, 5, 7]);
    assert_ne!(
        original.compute_merkle_root(),
        tampered.compute_merkle_root()
    );
}

#[test]
fn single_block_root_pairs_leaf_with_zero_padding() {
    let block = b"only block".to_vec();
    let mut tree = MerkleTree::default();
    tree.insert_block(block.clone());
    let expected = sha(&concat(&sha(&block), &[0u8; 32]));
    assert_eq!(tree.compute_merkle_root(), Ok(expected));
}

#[test]
fn four_zero_blocks_fixed_vector() {
    let mut tree = MerkleTree::default();
    for _ in 0..4 {
        tree.insert_block(vec![0u8; 32]);
    }
    let leaf = sha(&[0u8; 32]);
    let parent = sha(&concat(&leaf, &leaf));
    let root = sha(&concat(&parent, &parent));
    assert_eq!(tree.compute_merkle_root(), Ok(root));
}

#[test]
fn five_blocks_pad_with_the_all_zero_digest() {
    let blocks: Vec<Vec<u8>> = vec![
        b"b0".to_vec(),
        b"b1".to_vec(),
        b"b2".to_vec(),
        b"b3".to_vec(),
        b"b4".to_vec(),
    ];
    let mut tree = MerkleTree::default();
    for b in &blocks {
        tree.insert_block(b.clone());
    }

    // Level 0 is padded from 5 to 6 entries with the literal all-zero digest.
    let mut level: Vec<[u8; 32]> = blocks.iter().map(|b| sha(b)).collect();
    level.push([0u8; 32]);
    assert_eq!(level.len(), 6);
    while level.len() > 1 {
        if level.len() % 2 == 1 {
            level.push([0u8; 32]);
        }
        level = level.chunks(2).map(|p| sha(&concat(&p[0], &p[1]))).collect();
    }

    assert_eq!(tree.compute_merkle_root(), Ok(level[0]));
}

#[test]
fn chain_hashes_fails_only_on_an_empty_level() {
    assert_eq!(Err(()), merkle::chain_hashes(Vec::new()));
    let leaf = sha(b"leaf");
    let expected = sha(&concat(&leaf, &[0u8; 32]));
    assert_eq!(Ok(expected), merkle::chain_hashes(vec![leaf]));
}

#[test]
fn prove_block_always_fails() {
    let mut tree = MerkleTree::default();
    tree.insert_block(b"present".to_vec());
    assert!(!tree.prove_block(b"present".to_vec()));
    assert!(!tree.prove_block(b"absent".to_vec()));
}
