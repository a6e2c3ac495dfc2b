use data_structure::non_linear::tree::{BinaryNode, BinaryTree};

#[test]
fn test_binary_tree() {
    let mut tree = BinaryTree::new();
    assert_eq!(tree.if_empty(), true);
    tree.set_root(BinaryNode::new(1));
    let value = tree.as_ref().unwrap().data;
    assert_eq!(value, 1);
    tree.as_mut().unwrap().left(2);
    let next_value = tree.as_mut().unwrap().next_left_node().unwrap().data;
    assert_eq!(next_value, 2);
    if let Some(root) = tree.as_mut() {
        root.next_left_node().unwrap().left(5);
        let next2 = root.next_left_node().unwrap().next_left_node().unwrap().data;
        assert_eq!(next2, 5)
    }
}

#[test]
fn test_in_order_traversal() {
    let mut root = BinaryNode::new(1);

    root.left_mut(2);

    if let Some(left) = root.next_left_node() {
        left.left_mut(4).right_mut(5);
    }

    root.right_mut(3);

    let mut tree = BinaryTree::with_root(1);
    tree.set_root(root);

    let traversal = tree.in_order_traverse();
    assert_eq!(traversal, vec![&4, &2, &5, &1, &3]);
    let tree_clone = tree.clone();
    println!("{:?}", tree_clone);
    println!("{:?}", traversal);
}

#[test]
fn test_empty_tree_traversal() {
    let empty_tree = BinaryTree::<i32>::new();
    let traversal = empty_tree.in_order_traverse();
    assert!(traversal.is_empty());
}

#[test]
fn test_single_node_traversal() {
    let tree = BinaryTree::with_root(42);
    let traversal = tree.in_order_traverse();
    assert_eq!(traversal, vec![&42]);
}

#[test]
fn node_accessors_and_clone() {
    let mut root = BinaryNode::new(10);
    root.right(30).get_data();
    root.left(20);
    *root.mut_data() = 11;
    *root.node().next_right_node().unwrap().mut_data() = 31;
    assert_eq!(*root.get_data(), 11);
    assert_eq!(root.in_order_traverse_mut(), vec![&20, &11, &31]);
    let copy = root.clone();
    assert_eq!(copy, root);
    let mut leaf = BinaryNode::new(1);
    assert!(leaf.next_left_node().is_none());
    assert!(leaf.next_right_node().is_none());
}
