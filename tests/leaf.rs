use patricia_merkle_tree::nibble::NibbleSlice;
use patricia_merkle_tree::node::{InsertAction, LeafNode, Node, NodeRef, NodesStorage, ValueRef, ValuesStorage};

fn leaf_with(values: &mut ValuesStorage, key: Vec<u8>, value: Vec<u8>) -> LeafNode {
    LeafNode::new(ValueRef::new(values.insert(key, value)))
}

#[test]
fn new() {
    let node = LeafNode::new(Default::default());
    assert_eq!(node.value_ref, ValueRef::default());
}

#[test]
fn get_some() {
    let nodes = NodesStorage::new();
    let mut values = ValuesStorage::new();
    let node = leaf_with(&mut values, vec![0x12], vec![0x12, 0x34, 0x56, 0x78]);

    assert_eq!(
        node.get(&nodes, &values, NibbleSlice::new(&[0x12])).map(Vec::as_slice),
        Some([0x12, 0x34, 0x56, 0x78].as_slice()),
    );
}

#[test]
fn get_none() {
    let nodes = NodesStorage::new();
    let mut values = ValuesStorage::new();
    let node = leaf_with(&mut values, vec![0x12], vec![0x12, 0x34, 0x56, 0x78]);

    assert_eq!(node.get(&nodes, &values, NibbleSlice::new(&[0x34])).map(Vec::as_slice), None);
}

#[test]
fn insert_replace() {
    let mut nodes = NodesStorage::new();
    let mut values = ValuesStorage::new();
    let node = leaf_with(&mut values, vec![0x12], vec![0x12, 0x34, 0x56, 0x78]);

    let (node, insert_action) = node.insert(&mut nodes, &values, NibbleSlice::new(&[0x12]));
    let node = match node {
        Node::Leaf(x) => x,
        _ => panic!("expected a leaf node"),
    };

    assert_eq!(node.value_ref, ValueRef::new(0));
    assert!(node.hash.extract_ref().is_none());
    assert_eq!(insert_action, InsertAction::Replace(ValueRef::new(0)));
}

#[test]
fn insert_branch() {
    let mut nodes = NodesStorage::new();
    let mut values = ValuesStorage::new();
    let node = leaf_with(&mut values, vec![0x12], vec![0x12, 0x34, 0x56, 0x78]);

    let (node, insert_action) = node.insert(&mut nodes, &values, NibbleSlice::new(&[0x22]));
    let _ = match node {
        Node::Branch(x) => x,
        _ => panic!("expected a branch node"),
    };

    assert_eq!(insert_action, InsertAction::Insert(NodeRef::new(0)));
}

#[test]
fn insert_extension_branch() {
    let mut nodes = NodesStorage::new();
    let mut values = ValuesStorage::new();
    let node = leaf_with(&mut values, vec![0x12], vec![0x12, 0x34, 0x56, 0x78]);

    let (node, insert_action) = node.insert(&mut nodes, &values, NibbleSlice::new(&[0x13]));
    let _ = match node {
        Node::Extension(x) => x,
        _ => panic!("expected an extension node"),
    };

    assert_eq!(insert_action, InsertAction::Insert(NodeRef::new(0)));
}

#[test]
fn insert_extension_branch_value_self() {
    let mut nodes = NodesStorage::new();
    let mut values = ValuesStorage::new();
    let node = leaf_with(&mut values, vec![0x12], vec![0x12, 0x34, 0x56, 0x78]);

    let (node, insert_action) = node.insert(&mut nodes, &values, NibbleSlice::new(&[0x12, 0x34]));
    let _ = match node {
        Node::Extension(x) => x,
        _ => panic!("expected an extension node"),
    };

    assert_eq!(insert_action, InsertAction::Insert(NodeRef::new(0)));
}

#[test]
fn insert_extension_branch_value_other() {
    let mut nodes = NodesStorage::new();
    let mut values = ValuesStorage::new();
    let node = leaf_with(&mut values, vec![0x12, 0x34], vec![0x12, 0x34, 0x56, 0x78]);

    let (node, insert_action) = node.insert(&mut nodes, &values, NibbleSlice::new(&[0x12]));
    let _ = match node {
        Node::Extension(x) => x,
        _ => panic!("expected an extension node"),
    };

    assert_eq!(insert_action, InsertAction::Insert(NodeRef::new(1)));
}

#[test]
fn compute_hash() {
    let nodes = NodesStorage::new();
    let mut values = ValuesStorage::new();
    let mut node = leaf_with(&mut values, b"key".to_vec(), b"value".to_vec());

    let node_hash_ref = node.compute_hash(&nodes, &values, 0);
    assert_eq!(
        node_hash_ref.as_slice(),
        &[0xCB, 0x84, 0x20, 0x6B, 0x65, 0x79, 0x85, 0x76, 0x61, 0x6C, 0x75, 0x65],
    );
}

#[test]
fn compute_hash_long() {
    let nodes = NodesStorage::new();
    let mut values = ValuesStorage::new();
    let mut node = leaf_with(&mut values, b"key".to_vec(), b"a comparatively long value".to_vec());

    let node_hash_ref = node.compute_hash(&nodes, &values, 0);
    assert_eq!(
        node_hash_ref.as_slice(),
        &[
            0xEB, 0x92, 0x75, 0xB3, 0xAE, 0x09, 0x3A, 0x17, 0x75, 0x7C, 0xFB, 0x42, 0xF7, 0xD5,
            0x57, 0xF9, 0xE5, 0x77, 0xBD, 0x5B, 0xEB, 0x86, 0xA8, 0x68, 0x49, 0x91, 0xA6, 0x5B,
            0x87, 0x5F, 0x80, 0x7A,
        ],
    );
}

#[test]
fn compute_hash_twice_uses_cache() {
    let nodes = NodesStorage::new();
    let mut values = ValuesStorage::new();
    let mut node = leaf_with(&mut values, b"key".to_vec(), b"a comparatively long value".to_vec());

    let first = node.compute_hash(&nodes, &values, 0);
    assert_eq!(node.hash.extract_ref(), Some(first.clone()));
    let second = node.compute_hash(&nodes, &values, 0);
    assert_eq!(first, second);
    assert_eq!(first.len(), 32);
}

#[test]
fn compute_hash_with_offset() {
    let nodes = NodesStorage::new();
    let mut values = ValuesStorage::new();
    let mut node = leaf_with(&mut values, vec![0x12, 0x34], vec![0x01]);

    // Odd remaining path 2,3,4 under a leaf: flag 0x3 then the first nibble.
    let hash = node.compute_hash(&nodes, &values, 1);
    assert_eq!(hash, vec![0xC4, 0x82, 0x32, 0x34, 0x01]);
}

#[test]
fn insert_branch_layout() {
    let mut nodes = NodesStorage::new();
    let mut values = ValuesStorage::new();
    let node = leaf_with(&mut values, vec![0x12], vec![0x01]);

    let (node, _) = node.insert(&mut nodes, &values, NibbleSlice::new(&[0x22]));
    let branch = match node {
        Node::Branch(x) => x,
        _ => panic!("expected a branch node"),
    };
    assert_eq!(branch.choices.len(), 16);
    assert_eq!(branch.choices[2], NodeRef::new(0));
    assert_eq!(branch.choices[1], NodeRef::new(1));
    assert_eq!(branch.choices[0], NodeRef::default());
    assert_eq!(branch.value_ref, ValueRef::default());
    assert_eq!(nodes.nodes.len(), 2);
    match &nodes.nodes[0] {
        Node::Leaf(l) => assert_eq!(l.value_ref, ValueRef::default()),
        _ => panic!("expected a leaf node"),
    }
    match &nodes.nodes[1] {
        Node::Leaf(l) => assert_eq!(l.value_ref, ValueRef::new(0)),
        _ => panic!("expected a leaf node"),
    }
}

#[test]
fn insert_longer_key_moves_value_to_branch() {
    let mut nodes = NodesStorage::new();
    let mut values = ValuesStorage::new();
    let node = leaf_with(&mut values, vec![0x12], vec![0x01]);

    let (node, action) = node.insert(&mut nodes, &values, NibbleSlice::new(&[0x12, 0x34]));
    let ext = match node {
        Node::Extension(x) => x,
        _ => panic!("expected an extension node"),
    };
    assert_eq!(ext.prefix, vec![1, 2]);
    assert_eq!(ext.child, NodeRef::new(1));
    assert_eq!(action, InsertAction::Insert(NodeRef::new(0)));
    match &nodes.nodes[1] {
        Node::Branch(b) => {
            assert_eq!(b.value_ref, ValueRef::new(0));
            assert_eq!(b.choices[3], NodeRef::new(0));
        }
        _ => panic!("expected a branch node"),
    }
}

#[test]
fn insert_at_offset_keeps_prefix_out() {
    let mut nodes = NodesStorage::new();
    let mut values = ValuesStorage::new();
    let node = leaf_with(&mut values, vec![0x12, 0x34], vec![0x01]);

    let mut path = NibbleSlice::new(&[0x12, 0x35]);
    path.offset_add(2);
    let (node, action) = node.insert(&mut nodes, &values, path);
    let ext = match node {
        Node::Extension(x) => x,
        _ => panic!("expected an extension node"),
    };
    assert_eq!(ext.prefix, vec![3]);
    assert_eq!(action, InsertAction::Insert(NodeRef::new(0)));
}
