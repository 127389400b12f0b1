use merkle_tree::digest::{hash_leaf, hash_pair};
use merkle_tree::tree::{build_levels, hash_leaves, reduce_level, reverse_levels};
use merkle_tree::{build, MerkleTree};
use tiny_keccak::Hasher;

fn strings(items: &[&str]) -> Vec<String> {
    items.iter().map(|item| item.to_string()).collect()
}

fn keccak(data: &[u8]) -> [u8; 32] {
    let mut hasher = tiny_keccak::Keccak::v256();
    let mut out = [0u8; 32];
    hasher.update(data);
    hasher.finalize(&mut out);
    out
}

fn keccak2(left: &[u8; 32], right: &[u8; 32]) -> [u8; 32] {
    let mut joined = Vec::new();
    joined.extend_from_slice(left);
    joined.extend_from_slice(right);
    keccak(&joined)
}

fn numbered(n: usize) -> Vec<String> {
    (0..n).map(|i| format!("leaf-{}", i)).collect()
}

#[test]
fn even_leaf_tree() {
    let leaves = vec![
        "a".to_string(),
        "b".to_string(),
        "c".to_string(),
        "d".to_string(),
    ];
    let tree = MerkleTree::new(leaves);
    println!("{}", tree.render());
    assert_eq!(tree.hashes().len(), 3);
    assert_eq!(tree.hashes()[0].len(), 1);
    assert_eq!(tree.hashes()[1].len(), 2);
    assert_eq!(tree.hashes()[2].len(), 4);
}

#[test]
fn odd_leaf_tree() {
    let leaves = vec![
        "a".to_string(),
        "b".to_string(),
        "c".to_string(),
        "d".to_string(),
        "e".to_string(),
    ];
    let tree = MerkleTree::new(leaves);
    println!("{}", tree.render());
    assert_eq!(tree.hashes().len(), 4);
    assert_eq!(tree.hashes()[0].len(), 1);
    assert_eq!(tree.hashes()[1].len(), 2);
    assert_eq!(tree.hashes()[2].len(), 3);
    assert_eq!(tree.hashes()[3].len(), 5);
}

#[test]
fn test_different_value() {
    let tree1 = MerkleTree::new(vec![
        "a".to_string(),
        "b".to_string(),
        "c".to_string(),
        "d".to_string(),
        "e".to_string(),
    ]);
    let tree2 = MerkleTree::new(vec![
        "a".to_string(),
        "b".to_string(),
        "c".to_string(),
        "d".to_string(),
        "f".to_string(),
    ]);
    let tree3 = MerkleTree::new(vec![
        "b".to_string(),
        "a".to_string(),
        "c".to_string(),
        "d".to_string(),
        "e".to_string(),
    ]);
    assert_ne!(tree1.root_hash(), tree2.root_hash());
    assert_ne!(tree1.root_hash(), tree3.root_hash());
    assert_ne!(tree2.root_hash(), tree3.root_hash());
}

#[test]
fn empty_leaf_list_gives_one_empty_level() {
    let levels = build(Vec::new());
    assert_eq!(levels, vec![Vec::<[u8; 32]>::new()]);
    let tree = MerkleTree::new(Vec::new());
    assert!(tree.leaves().is_empty());
    assert_eq!(tree.hashes().len(), 1);
    assert!(tree.hashes()[0].is_empty());
}

#[test]
fn single_leaf_root_is_the_leaf_digest() {
    let tree = MerkleTree::new(strings(&["a"]));
    assert_eq!(tree.hashes().len(), 1);
    assert_eq!(tree.hashes()[0].len(), 1);
    assert_eq!(
        hex::encode(tree.root_hash()),
        "3ac225168df54212a25c1c01fd35bebfea408fdac2e31ddd6f80a4bbf9a5f1cb"
    );
}

#[test]
fn empty_string_leaf_has_the_known_digest() {
    let tree = MerkleTree::new(strings(&[""]));
    assert_eq!(
        hex::encode(tree.root_hash()),
        "c5d2460186f7233c927e7db2dcc703c0e500b653ca82273b7bfad8045d85a470"
    );
    assert_eq!(hash_leaf(""), keccak(b""));
}

#[test]
fn leaves_are_hashed_by_their_utf8_bytes() {
    let leaves = strings(&["a", "héllo", "日本語", ""]);
    let level = hash_leaves(&leaves);
    assert_eq!(level.len(), 4);
    for (leaf, digest) in leaves.iter().zip(level.iter()) {
        assert_eq!(*digest, keccak(leaf.as_bytes()));
        assert_eq!(*digest, hash_leaf(leaf.as_str()));
    }
    assert_eq!(hash_leaf("héllo"), keccak(&[0x68, 0xc3, 0xa9, 0x6c, 0x6c, 0x6f]));
}

#[test]
fn pair_is_hashed_left_then_right() {
    let a = keccak(b"a");
    let b = keccak(b"b");
    assert_eq!(hash_pair(&a, &b), keccak2(&a, &b));
    assert_ne!(hash_pair(&a, &b), hash_pair(&b, &a));
    assert_ne!(hash_pair(&a, &b), a);
    let tree = MerkleTree::new(strings(&["a", "b"]));
    assert_eq!(tree.hashes().len(), 2);
    assert_eq!(tree.hashes()[1], vec![a, b]);
    assert_eq!(tree.root_hash(), keccak2(&a, &b));
}

#[test]
fn odd_node_is_paired_with_itself() {
    let tree = MerkleTree::new(strings(&["x", "y", "z"]));
    let h1 = keccak(b"x");
    let h2 = keccak(b"y");
    let h3 = keccak(b"z");
    let levels = tree.hashes();
    assert_eq!(levels.len(), 3);
    assert_eq!(levels[2], vec![h1, h2, h3]);
    assert_eq!(levels[1].len(), 2);
    assert_eq!(levels[1][0], keccak2(&h1, &h2));
    assert_eq!(levels[1][1], keccak2(&h3, &h3));
    assert_ne!(levels[1][1], keccak(&h3));
    assert_ne!(levels[1][1], h3);
    assert_eq!(levels[0], vec![keccak2(&levels[1][0], &levels[1][1])]);
    assert_eq!(tree.root_hash(), levels[0][0]);
}

#[test]
fn five_leaves_are_reduced_level_by_level() {
    let leaves = strings(&["a", "b", "c", "d", "e"]);
    let h: Vec<[u8; 32]> = leaves.iter().map(|leaf| keccak(leaf.as_bytes())).collect();
    let l2 = vec![keccak2(&h[0], &h[1]), keccak2(&h[2], &h[3]), keccak2(&h[4], &h[4])];
    let l1 = vec![keccak2(&l2[0], &l2[1]), keccak2(&l2[2], &l2[2])];
    let l0 = vec![keccak2(&l1[0], &l1[1])];
    assert_eq!(build(leaves), vec![l0, l1, l2, h]);
}

#[test]
fn reduce_level_pairs_neighbours() {
    let h: Vec<[u8; 32]> = numbered(7).iter().map(|leaf| keccak(leaf.as_bytes())).collect();
    let parents = reduce_level(&h);
    assert_eq!(
        parents,
        vec![
            keccak2(&h[0], &h[1]),
            keccak2(&h[2], &h[3]),
            keccak2(&h[4], &h[5]),
            keccak2(&h[6], &h[6]),
        ]
    );
    assert_eq!(reduce_level(&Vec::new()), Vec::<[u8; 32]>::new());
    assert_eq!(reduce_level(&vec![h[0]]), vec![keccak2(&h[0], &h[0])]);
}

#[test]
fn reverse_levels_turns_the_list_around() {
    let a = vec![[1u8; 32]];
    let b = vec![[2u8; 32], [3u8; 32]];
    let c: Vec<[u8; 32]> = Vec::new();
    assert_eq!(
        reverse_levels(vec![a.clone(), b.clone(), c.clone()]),
        vec![c, b, a]
    );
    assert_eq!(reverse_levels(Vec::new()), Vec::<Vec<[u8; 32]>>::new());
}

#[test]
fn build_levels_stands_on_the_given_level() {
    let h: Vec<[u8; 32]> = vec![[7u8; 32], [8u8; 32], [9u8; 32]];
    let levels = build_levels(h.clone());
    let mid = vec![keccak2(&h[0], &h[1]), keccak2(&h[2], &h[2])];
    let top = vec![keccak2(&mid[0], &mid[1])];
    assert_eq!(levels, vec![top, mid, h]);
    assert_eq!(build_levels(Vec::new()), vec![Vec::<[u8; 32]>::new()]);
    assert_eq!(build_levels(vec![[5u8; 32]]), vec![vec![[5u8; 32]]]);
}

#[test]
fn build_and_new_agree() {
    for n in 0..20 {
        let leaves = numbered(n);
        let tree = MerkleTree::new(leaves.clone());
        assert_eq!(*tree.hashes(), build(leaves.clone()));
        assert_eq!(*tree.leaves(), leaves);
    }
}

#[test]
fn level_count_is_log2_rounded_up_plus_one() {
    let expected = [
        (1usize, 1usize),
        (2, 2),
        (3, 3),
        (4, 3),
        (5, 4),
        (6, 4),
        (7, 4),
        (8, 4),
        (9, 5),
        (16, 5),
        (17, 6),
        (32, 6),
        (33, 7),
        (64, 7),
        (100, 8),
    ];
    for (n, count) in expected {
        let levels = build(numbered(n));
        assert_eq!(levels.len(), count, "{} leaves", n);
        assert_eq!(levels[0].len(), 1);
        assert_eq!(levels[levels.len() - 1].len(), n);
    }
}

#[test]
fn each_level_is_half_the_next_rounded_up() {
    for n in 1..70 {
        let levels = build(numbered(n));
        for i in 0..levels.len() - 1 {
            assert_eq!(levels[i].len(), (levels[i + 1].len() + 1) / 2);
            assert_eq!(levels[i], reduce_level(&levels[i + 1]));
        }
    }
}

#[test]
fn same_leaves_give_the_same_tree() {
    let first = MerkleTree::new(strings(&["a", "b", "c", "d", "e"]));
    let second = MerkleTree::new(strings(&["a", "b", "c", "d", "e"]));
    assert_eq!(first.root_hash(), second.root_hash());
    assert_eq!(first.hashes(), second.hashes());
}

#[test]
fn root_hash_is_stable() {
    let tree = MerkleTree::new(strings(&["a", "b", "c"]));
    let first = tree.root_hash();
    let second = tree.root_hash();
    assert_eq!(first, second);
    assert_eq!(first, tree.hashes()[0][0]);
}

#[test]
fn duplicate_leaves_are_accepted() {
    let tree = MerkleTree::new(strings(&["a", "a"]));
    let a = keccak(b"a");
    assert_eq!(tree.root_hash(), keccak2(&a, &a));
    assert_eq!(tree.leaves().len(), 2);
}

#[test]
fn swapping_two_leaves_changes_the_root() {
    let first = MerkleTree::new(strings(&["a", "b"]));
    let second = MerkleTree::new(strings(&["b", "a"]));
    assert_ne!(first.root_hash(), second.root_hash());
}

#[test]
fn repeating_the_last_of_an_odd_list_keeps_the_root() {
    let odd = MerkleTree::new(strings(&["x", "y", "z"]));
    let even = MerkleTree::new(strings(&["x", "y", "z", "z"]));
    assert_eq!(odd.root_hash(), even.root_hash());
    assert_ne!(odd.hashes(), even.hashes());
}

#[test]
fn leaves_are_kept_in_order() {
    let leaves = strings(&["delta", "alpha", "charlie", "alpha"]);
    let tree = MerkleTree::new(leaves.clone());
    assert_eq!(*tree.leaves(), leaves);
}

#[test]
fn empty_tree_has_no_root() {
    let tree = MerkleTree::new(Vec::new());
    assert_eq!(tree.root(), None);
    let tree = MerkleTree::new(strings(&["a", "b", "c"]));
    assert_eq!(tree.root(), Some(tree.root_hash()));
}
