//! The value decoder, name canonicalization, and the attribute tree's own
//! operations.

use registry::tree::{AttrTree, TreeError, TreeNode};
use registry::value::{canonical_name, decode_value, DecodeOutcome, Payload, RegValue};

#[test]
fn decode_int32_round_trip() {
    let r = decode_value(&DecodeOutcome::Decoded(Payload::I32(42)));
    assert_eq!(r, RegValue::I32(42));
}

#[test]
fn decode_string_round_trip() {
    let r = decode_value(&DecodeOutcome::Decoded(Payload::Str("hello".to_string())));
    assert_eq!(r, RegValue::Str("hello".to_string()));
}

#[test]
fn decode_no_data_is_absent() {
    let r = decode_value(&DecodeOutcome::Decoded(Payload::NoData));
    assert_eq!(r, RegValue::Absent);
}

#[test]
fn decode_missing_is_absent() {
    assert_eq!(decode_value(&DecodeOutcome::Missing), RegValue::Absent);
}

#[test]
fn decode_failure_is_absent() {
    assert_eq!(decode_value(&DecodeOutcome::Failed), RegValue::Absent);
}

#[test]
fn empty_name_becomes_default() {
    assert_eq!(canonical_name(String::new()), "default");
}

#[test]
fn non_empty_names_pass_through() {
    assert_eq!(canonical_name("Ver".to_string()), "Ver");
    assert_eq!(canonical_name(" ".to_string()), " ");
    assert_eq!(canonical_name("default".to_string()), "default");
}

fn plain_node(name: &str) -> TreeNode {
    TreeNode {
        name: name.to_string(),
        last_written: None,
        data: None,
        children: Vec::new(),
    }
}

#[test]
fn add_child_under_missing_parent_fails() {
    let mut tree = AttrTree::new();
    let r = tree.add_child(0, plain_node("orphan"));
    assert_eq!(r, Err(TreeError::ParentMissing));
    assert_eq!(tree.len(), 0);
}

#[test]
fn add_child_returns_fresh_ids_in_order() {
    let mut tree = AttrTree::new();
    let root = tree.insert_root("root".to_string());
    assert_eq!(root, 0);
    let a = tree.add_child(root, plain_node("a")).unwrap();
    let b = tree.add_child(root, plain_node("b")).unwrap();
    let c = tree.add_child(a, plain_node("c")).unwrap();
    assert_eq!((a, b, c), (1, 2, 3));
    assert_eq!(tree.get(root).unwrap().children, vec![1, 2]);
    assert_eq!(tree.get(a).unwrap().children, vec![3]);
    assert_eq!(tree.get(b).unwrap().children, Vec::<usize>::new());
}

#[test]
fn lookup_by_id() {
    let mut tree = AttrTree::new();
    let root = tree.insert_root("root".to_string());
    assert!(tree.contains_id(root));
    assert!(!tree.contains_id(root + 1));
    assert_eq!(tree.get(root).unwrap().name, "root");
    assert!(tree.get(root + 1).is_none());
}
