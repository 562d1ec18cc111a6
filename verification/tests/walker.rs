//! Walker scenarios: node order, decode tolerance, the size cap, the
//! enumeration-failure truncations, and determinism across two walks.

use registry::hive::{EnumOutcome, KeyDesc, ValueRecord};
use registry::tree::AttrTree;
use registry::value::{DecodeOutcome, Payload, RegValue};
use registry::walk::{iterate_key, VALUE_SIZE_CAP};

fn val(name: &str, size: u32, outcome: DecodeOutcome) -> ValueRecord {
    ValueRecord {
        name: name.to_string(),
        size,
        outcome,
    }
}

fn int_val(name: &str, n: i32) -> ValueRecord {
    val(name, 4, DecodeOutcome::Decoded(Payload::I32(n)))
}

fn str_val(name: &str, s: &str) -> ValueRecord {
    val(
        name,
        s.len() as u32,
        DecodeOutcome::Decoded(Payload::Str(s.to_string())),
    )
}

fn leaf_key(name: &str, last_written: Option<i64>) -> KeyDesc {
    KeyDesc {
        name: name.to_string(),
        last_written,
        values: Vec::new(),
        values_end: EnumOutcome::End,
        subkeys: Vec::new(),
        subkeys_end: EnumOutcome::End,
    }
}

fn key_with(name: &str, values: Vec<ValueRecord>, subkeys: Vec<KeyDesc>) -> KeyDesc {
    KeyDesc {
        name: name.to_string(),
        last_written: None,
        values,
        values_end: EnumOutcome::End,
        subkeys,
        subkeys_end: EnumOutcome::End,
    }
}

fn fresh_tree() -> (AttrTree, usize) {
    let mut tree = AttrTree::new();
    let root_id = tree.insert_root("file".to_string());
    (tree, root_id)
}

#[test]
fn three_records() {
    // Key "Root" with values [("Ver", int32=7), ("", string="x")] and child
    // key "Sub": three children in order, value nodes first.
    let desc = key_with(
        "Root",
        vec![int_val("Ver", 7), str_val("", "x")],
        vec![leaf_key("Sub", Some(77))],
    );
    let (mut tree, root_id) = fresh_tree();
    iterate_key(&desc, &mut tree, root_id, 64);

    let root = tree.get(1).expect("key node");
    assert_eq!(root.name, "Root");
    assert_eq!(root.data, None);
    assert_eq!(root.children, vec![2, 3, 4]);

    let ver = tree.get(2).expect("first value node");
    assert_eq!(ver.name, "Ver");
    assert_eq!(ver.data, Some(RegValue::I32(7)));
    assert_eq!(ver.last_written, None);
    assert!(ver.children.is_empty());

    let default = tree.get(3).expect("second value node");
    assert_eq!(default.name, "default");
    assert_eq!(default.data, Some(RegValue::Str("x".to_string())));
    assert!(default.children.is_empty());

    let sub = tree.get(4).expect("child key node");
    assert_eq!(sub.name, "Sub");
    assert_eq!(sub.data, None);
    assert_eq!(sub.last_written, Some(77));
    assert!(sub.children.is_empty());

    let file = tree.get(root_id).expect("walk root");
    assert_eq!(file.children, vec![1]);
}

#[test]
fn values_before_subkeys_in_order() {
    let desc = key_with(
        "K",
        vec![int_val("a", 1), int_val("b", 2), int_val("c", 3)],
        vec![leaf_key("x", None), leaf_key("y", None)],
    );
    let (mut tree, root_id) = fresh_tree();
    iterate_key(&desc, &mut tree, root_id, 64);

    let k = tree.get(1).expect("key node");
    assert_eq!(k.children.len(), 5);
    let names: Vec<String> = k
        .children
        .iter()
        .map(|&c| tree.get(c).unwrap().name.clone())
        .collect();
    assert_eq!(names, vec!["a", "b", "c", "x", "y"]);
    for &c in &k.children[..3] {
        assert!(tree.get(c).unwrap().data.is_some());
    }
    for &c in &k.children[3..] {
        assert!(tree.get(c).unwrap().data.is_none());
    }
}

#[test]
fn failed_decode_still_creates_node() {
    // A value whose decode fails still gets a node with absent data, and
    // everything after it is processed normally.
    let desc = key_with(
        "K",
        vec![int_val("a", 1), val("bad", 8, DecodeOutcome::Failed), int_val("c", 3)],
        vec![leaf_key("Sub", None)],
    );
    let (mut tree, root_id) = fresh_tree();
    iterate_key(&desc, &mut tree, root_id, 64);

    let k = tree.get(1).unwrap();
    assert_eq!(k.children, vec![2, 3, 4, 5]);
    assert_eq!(tree.get(3).unwrap().name, "bad");
    assert_eq!(tree.get(3).unwrap().data, Some(RegValue::Absent));
    assert_eq!(tree.get(4).unwrap().data, Some(RegValue::I32(3)));
    assert_eq!(tree.get(5).unwrap().name, "Sub");
}

#[test]
fn missing_payload_maps_to_absent() {
    let desc = key_with("K", vec![val("none", 0, DecodeOutcome::Missing)], vec![]);
    let (mut tree, _) = fresh_tree();
    iterate_key(&desc, &mut tree, 0, 64);
    assert_eq!(tree.get(2).unwrap().data, Some(RegValue::Absent));
}

#[test]
fn size_cap_boundary() {
    // Exactly the cap is processed; one byte over is skipped entirely,
    // and enumeration continues past it.
    let desc = key_with(
        "K",
        vec![
            val("at_cap", VALUE_SIZE_CAP, DecodeOutcome::Decoded(Payload::I32(1))),
            val("over_cap", VALUE_SIZE_CAP + 1, DecodeOutcome::Decoded(Payload::I32(2))),
            int_val("after", 3),
        ],
        vec![],
    );
    let (mut tree, root_id) = fresh_tree();
    iterate_key(&desc, &mut tree, root_id, 64);

    let k = tree.get(1).unwrap();
    assert_eq!(k.children.len(), 2);
    assert_eq!(tree.get(k.children[0]).unwrap().name, "at_cap");
    assert_eq!(tree.get(k.children[0]).unwrap().data, Some(RegValue::I32(1)));
    assert_eq!(tree.get(k.children[1]).unwrap().name, "after");
    for id in 0..tree.len() {
        assert_ne!(tree.get(id).unwrap().name, "over_cap");
    }
}

#[test]
fn value_phase_failure_truncates_whole_subtree() {
    // A hard enumeration error among the values ends the walk of this
    // key: values so far are kept, the key phase never runs.
    let desc = KeyDesc {
        name: "K".to_string(),
        last_written: None,
        values: vec![int_val("kept", 1)],
        values_end: EnumOutcome::Fail("cursor broke".to_string()),
        subkeys: vec![leaf_key("never", None)],
        subkeys_end: EnumOutcome::End,
    };
    let (mut tree, root_id) = fresh_tree();
    iterate_key(&desc, &mut tree, root_id, 64);

    assert_eq!(tree.len(), 3); // file, K, kept
    assert_eq!(tree.get(1).unwrap().children, vec![2]);
    assert_eq!(tree.get(2).unwrap().name, "kept");
}

#[test]
fn key_phase_failure_keeps_prior_siblings() {
    // The cursor fails while fetching the second child key: the first
    // subkey's full subtree is present, no further siblings appear, and
    // the failure does not surface.
    let sub1 = key_with("Sub1", vec![int_val("v", 9)], vec![leaf_key("Deep", None)]);
    let desc = KeyDesc {
        name: "Root".to_string(),
        last_written: None,
        values: Vec::new(),
        values_end: EnumOutcome::End,
        subkeys: vec![sub1],
        subkeys_end: EnumOutcome::Fail("second fetch failed".to_string()),
    };
    let (mut tree, root_id) = fresh_tree();
    iterate_key(&desc, &mut tree, root_id, 64);

    // file, Root, Sub1, v, Deep — and nothing else.
    assert_eq!(tree.len(), 5);
    assert_eq!(tree.get(1).unwrap().children, vec![2]);
    let sub1 = tree.get(2).unwrap();
    assert_eq!(sub1.name, "Sub1");
    assert_eq!(sub1.children, vec![3, 4]);
    assert_eq!(tree.get(3).unwrap().data, Some(RegValue::I32(9)));
    assert_eq!(tree.get(4).unwrap().name, "Deep");
}

#[test]
fn depth_budget_truncates_below() {
    // With a budget of 1, a key's own child is still walked, but the
    // grandchild level is cut off.
    let c = leaf_key("C", None);
    let b = key_with("B", vec![int_val("bv", 2)], vec![c]);
    let a = key_with("A", vec![], vec![b]);
    let (mut tree, root_id) = fresh_tree();
    iterate_key(&a, &mut tree, root_id, 1);

    // file, A, B, bv — C is beyond the budget.
    assert_eq!(tree.len(), 4);
    assert_eq!(tree.get(2).unwrap().name, "B");
    assert_eq!(tree.get(3).unwrap().name, "bv");
    for id in 0..tree.len() {
        assert_ne!(tree.get(id).unwrap().name, "C");
    }
}

fn nodes_equal(a: &AttrTree, b: &AttrTree) -> bool {
    if a.len() != b.len() {
        return false;
    }
    for id in 0..a.len() {
        let x = a.get(id).unwrap();
        let y = b.get(id).unwrap();
        if x.name != y.name
            || x.last_written != y.last_written
            || x.data != y.data
            || x.children != y.children
        {
            return false;
        }
    }
    true
}

#[test]
fn walking_twice_gives_identical_trees() {
    // The same description walked into two fresh trees yields
    // structurally identical trees.
    let build = || {
        key_with(
            "Root",
            vec![int_val("Ver", 7), str_val("", "x")],
            vec![key_with("Sub", vec![str_val("s", "y")], vec![leaf_key("Leaf", Some(3))])],
        )
    };
    let d1 = build();
    let d2 = build();

    let (mut t1, r1) = fresh_tree();
    iterate_key(&d1, &mut t1, r1, 64);
    let (mut t2, r2) = fresh_tree();
    iterate_key(&d2, &mut t2, r2, 64);

    assert!(nodes_equal(&t1, &t2));
}
