use wotsplus::{XmssOperation, XmssTree};

/// Sum combination, ignoring the height.
struct Sum;

impl XmssOperation<usize> for Sum {
    fn operation(&self, height: usize, lhs: usize, rhs: usize) -> usize {
        let _ = height;
        lhs + rhs
    }
}

/// An order-sensitive combination: the two operand positions differ.
struct Weighted;

impl XmssOperation<usize> for Weighted {
    fn operation(&self, height: usize, lhs: usize, rhs: usize) -> usize {
        3 * lhs + rhs + height
    }
}

#[test]
fn test_xmss_tree_collapse() {
    for &n in &[67, 21, 17, 34, 16, 32, 64] {
        let x = XmssTree((0..n).collect()).collapse(&Sum);
        assert_eq!(x, n * (n - 1) / 2);
    }
}

#[test]
fn collapse_single_leaf() {
    assert_eq!(XmssTree(vec![41usize]).collapse(&Sum), 41);
    assert_eq!(XmssTree(vec![41usize]).collapse(&Weighted), 41);
}

#[test]
fn collapse_same_sequence_twice_is_identical() {
    let leaves: Vec<usize> = (0..21).map(|i| i * 7 + 3).collect();
    let first = XmssTree(leaves.clone()).collapse(&Weighted);
    let second = XmssTree(leaves).collapse(&Weighted);
    assert_eq!(first, second);
}

#[test]
fn collapse_reordered_leaves_changes_root() {
    let leaves: Vec<usize> = vec![5, 9, 2, 7];
    let mut reordered = leaves.clone();
    reordered.swap(0, 3);
    let first = XmssTree(leaves).collapse(&Weighted);
    let second = XmssTree(reordered).collapse(&Weighted);
    assert_ne!(first, second);
}

#[test]
fn collapse_uses_heights() {
    // 4 leaves: two combinations at height 0, one at height 1.
    let root = XmssTree(vec![1usize, 2, 3, 4]).collapse(&Weighted);
    // height 0: 3*1+2+0 = 5, 3*3+4+0 = 13; height 1: 3*5+13+1 = 29.
    assert_eq!(root, 29);
}

#[test]
fn path_replays_to_the_collapse_root() {
    let leaves: Vec<usize> = (0..16).map(|i| i * 11 + 1).collect();
    let root = XmssTree(leaves.clone()).collapse(&Weighted);
    for &leaf in &leaves {
        let (extracted_root, path) = XmssTree(leaves.clone()).path(leaf, &Weighted);
        assert_eq!(extracted_root, root);
        assert_eq!(path.advance(leaf, &Weighted), root);
    }
}

#[test]
fn path_of_a_two_leaf_tree() {
    let leaves: Vec<usize> = vec![100, 200];
    let root = XmssTree(leaves.clone()).collapse(&Weighted);
    assert_eq!(root, 500);
    let (extracted_root, path) = XmssTree(leaves.clone()).path(200, &Weighted);
    assert_eq!(extracted_root, 500);
    assert_eq!(path.advance(200, &Weighted), 500);
}
