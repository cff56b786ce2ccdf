use patricia_merkle_tree::hashing::{
    encode_branch, encode_extension, encode_list, hex_prefix_of, node_hash_ref, write_bytes,
};
use patricia_merkle_tree::nibble::NibbleSlice;
use patricia_merkle_tree::node::InsertAction;
use patricia_merkle_tree::node::{LeafNode, NodeRef, NodesStorage, ValueRef, ValuesStorage};

#[test]
fn bytes_single_low_byte_is_itself() {
    let mut out = Vec::new();
    write_bytes(&mut out, &[0x7f]);
    assert_eq!(out, vec![0x7f]);
}

#[test]
fn bytes_short_and_empty() {
    let mut out = Vec::new();
    write_bytes(&mut out, &[]);
    write_bytes(&mut out, &[0x80]);
    assert_eq!(out, vec![0x80, 0x81, 0x80]);
}

#[test]
fn bytes_long_header() {
    let data = vec![0xaa; 56];
    let mut out = Vec::new();
    write_bytes(&mut out, &data);
    assert_eq!(&out[..2], &[0xb8, 56]);
    assert_eq!(out.len(), 58);

    let data = vec![0x01; 300];
    let mut out = Vec::new();
    write_bytes(&mut out, &data);
    assert_eq!(&out[..3], &[0xb9, 0x01, 0x2c]);
}

#[test]
fn list_headers() {
    assert_eq!(encode_list(&vec![0x01, 0x02]), vec![0xc2, 0x01, 0x02]);
    let long = vec![0x05; 60];
    let enc = encode_list(&long);
    assert_eq!(&enc[..2], &[0xf8, 60]);
    assert_eq!(enc.len(), 62);
}

#[test]
fn hex_prefix_flags() {
    assert_eq!(hex_prefix_of(&[1, 2, 3, 4, 5], false), vec![0x11, 0x23, 0x45]);
    assert_eq!(hex_prefix_of(&[0, 1, 2, 3, 4, 5], false), vec![0x00, 0x01, 0x23, 0x45]);
    assert_eq!(hex_prefix_of(&[0, 15, 1, 12, 11, 8], true), vec![0x20, 0x0f, 0x1c, 0xb8]);
    assert_eq!(hex_prefix_of(&[15, 1, 12, 11, 8], true), vec![0x3f, 0x1c, 0xb8]);
    assert_eq!(hex_prefix_of(&[], true), vec![0x20]);
}

#[test]
fn short_encoding_is_its_own_reference() {
    assert_eq!(node_hash_ref(vec![0xc1, 0x01]), vec![0xc1, 0x01]);
}

#[test]
fn long_encoding_is_hashed() {
    // The encoding of the empty byte string list item, hashed when long enough.
    let enc = vec![0u8; 32];
    let r = node_hash_ref(enc.clone());
    assert_eq!(r.len(), 32);
    assert_ne!(r, enc);
    // Keccak-256 of 32 zero bytes.
    assert_eq!(&r[..4], &[0x29, 0x0d, 0xec, 0xd9]);
}

#[test]
fn nibble_slice_walk() {
    let mut s = NibbleSlice::new(&[0x12, 0x34]);
    assert_eq!(s.len(), 4);
    assert_eq!(s.nth(3), Some(4));
    assert_eq!(s.nth(4), None);
    assert_eq!(s.next(), Some(1));
    assert_eq!(s.offset(), 1);
    s.offset_add(2);
    assert_eq!(s.next(), Some(4));
    assert_eq!(s.next(), None);
}

#[test]
fn nibble_slice_compare() {
    let mut a = NibbleSlice::new(&[0x12, 0x34]);
    let b = NibbleSlice::new(&[0x12, 0x56]);
    assert_eq!(a.count_prefix_slice(&b), 2);
    assert!(!a.cmp_rest(&[0x12, 0x56]));
    a.offset_add(1);
    assert!(a.cmp_rest(&[0xf2, 0x34]));
    assert!(!a.cmp_rest(&[0x12]));
    assert_eq!(a.split_to_vec(2), vec![2, 3]);
}

#[test]
fn quantize_self_binds_only_self() {
    assert_eq!(InsertAction::InsertSelf.quantize_self(NodeRef::new(4)), InsertAction::Insert(NodeRef::new(4)));
    assert_eq!(
        InsertAction::Replace(ValueRef::new(1)).quantize_self(NodeRef::new(4)),
        InsertAction::Replace(ValueRef::new(1)),
    );
}

#[test]
fn branch_and_extension_layout() {
    // Child 1 inline, child 2 hashed, no value.
    let mut children = vec![Vec::new(); 16];
    children[1] = vec![0xc2, 0x30, 0x01];
    children[2] = vec![0x11; 32];
    let enc = encode_branch(&children, &Vec::new());
    // Payload: 1 + 4 + 33 + 13 empty slots + 1 empty value = 51 bytes.
    let mut expected = vec![0xc0 + 51, 0x80, 0xc2, 0x30, 0x01, 0xa0];
    expected.extend(vec![0x11; 32]);
    expected.extend(vec![0x80; 13]);
    expected.push(0x80);
    assert_eq!(enc, expected);

    let ext = encode_extension(&[1, 2, 3], &vec![0xc2, 0x30, 0x01]);
    assert_eq!(ext, vec![0xc6, 0x82, 0x11, 0x23, 0xc2, 0x30, 0x01]);
}

#[test]
fn known_root_of_three_keys() {

    let nodes = NodesStorage::new();
    let mut values = ValuesStorage::new();
    let doe = values.insert(b"doe".to_vec(), b"reindeer".to_vec());
    let dogglesworth = values.insert(b"dogglesworth".to_vec(), b"cat".to_vec());

    let doe_ref = LeafNode::new(ValueRef::new(doe)).compute_hash(&nodes, &values, 6);
    let long_ref = LeafNode::new(ValueRef::new(dogglesworth)).compute_hash(&nodes, &values, 7);

    let mut inner = vec![Vec::new(); 16];
    inner[6] = long_ref;
    let inner_ref = node_hash_ref(encode_branch(&inner, &b"puppy".to_vec()));

    let mut outer = vec![Vec::new(); 16];
    outer[5] = doe_ref;
    outer[7] = inner_ref;
    let outer_ref = node_hash_ref(encode_branch(&outer, &Vec::new()));

    let root = node_hash_ref(encode_extension(&[6, 4, 6, 15, 6], &outer_ref));
    assert_eq!(
        root,
        vec![
            0x8a, 0xad, 0x78, 0x9d, 0xff, 0x2f, 0x53, 0x8b, 0xca, 0x5d, 0x8e, 0xa5, 0x6e, 0x8a,
            0xbe, 0x10, 0xf4, 0xc7, 0xba, 0x3a, 0x5d, 0xea, 0x95, 0xfe, 0xa4, 0xcd, 0x6e, 0x7c,
            0x3a, 0x11, 0x68, 0xd3,
        ],
    );
}
