//! The tree walker: a depth-first traversal of a key description that, for
//! each key, first materializes its enumerated values and then its child
//! keys, one tree node each, under the node made for the key itself.

use vstd::prelude::*;
use vstd::pervasive::unreached;
use crate::hive::{EnumOutcome, KeyDesc, ValueRecord};
use crate::tree::{child_insert, AttrTree, NodeV, TreeNode};
use crate::value::{canon_spec, canonical_name, decode_value, decoded_value, DecodeOutcome, Payload};

verus! {

/// Largest declared payload size, in bytes, that still gets a value node;
/// a value declaring more is skipped entirely.
pub const VALUE_SIZE_CAP: u32 = 100 * 1024 * 1024;

/// The node a key itself turns into: named after the key, carrying its
/// last-written timestamp, no data, and as yet no children.
pub open spec fn key_node_of(d: KeyDesc) -> NodeV {
    NodeV {
        name: d.name@,
        last_written: d.last_written,
        data: Option::None,
        children: Seq::empty(),
    }
}

/// The node an enumerated value turns into: the canonicalized name and
/// the decoded generic value; always a leaf.
pub open spec fn value_node_of(v: ValueRecord) -> NodeV {
    NodeV {
        name: canon_spec(v.name@),
        last_written: Option::None,
        data: Option::Some(decoded_value(v.outcome)),
        children: Seq::empty(),
    }
}

/// One value-phase step: an oversized value leaves the tree untouched,
/// any other value is inserted as a leaf under `kid`.
pub open spec fn value_step(t: Seq<NodeV>, kid: int, v: ValueRecord) -> Seq<NodeV> {
    if v.size > VALUE_SIZE_CAP {
        t
    } else {
        child_insert(t, kid, value_node_of(v))
    }
}

/// The tree after processing values `i..` of `vals` under `kid`.
pub open spec fn walk_values_from(t: Seq<NodeV>, kid: int, vals: Seq<ValueRecord>, i: int) -> Seq<NodeV>
    decreases vals.len() - i,
{
    if i < 0 || i >= vals.len() {
        t
    } else {
        walk_values_from(value_step(t, kid, vals[i]), kid, vals, i + 1)
    }
}

/// The tree after walking one key description under `parent` with the
/// given remaining recursion budget: the key's node goes in first, then
/// its value phase runs; the key phase runs only after a clean value
/// phase, and only while budget remains.
pub open spec fn walk_spec(t: Seq<NodeV>, parent: int, d: KeyDesc, depth: nat) -> Seq<NodeV>
    decreases depth, 0nat, 0nat,
{
    let kid = t.len() as int;
    let t1 = child_insert(t, parent, key_node_of(d));
    let t2 = walk_values_from(t1, kid, d.values@, 0);
    if !(d.values_end is End) {
        t2
    } else if depth == 0 {
        t2
    } else {
        walk_subkeys_from(t2, kid, d.subkeys@, 0, (depth - 1) as nat)
    }
}

/// The tree after walking child keys `i..` of `subs` under `kid`, each
/// fully before its next sibling.
pub open spec fn walk_subkeys_from(t: Seq<NodeV>, kid: int, subs: Seq<KeyDesc>, i: int, depth: nat) -> Seq<NodeV>
    decreases depth, subs.len() - i, 1nat,
{
    if i < 0 || i >= subs.len() {
        t
    } else {
        walk_subkeys_from(walk_spec(t, kid, subs[i], depth), kid, subs, i + 1, depth)
    }
}

proof fn lemma_values_len(t: Seq<NodeV>, kid: int, vals: Seq<ValueRecord>, i: int)
    requires
        0 <= kid < t.len(),
    ensures
        walk_values_from(t, kid, vals, i).len() >= t.len(),
    decreases vals.len() - i,
{
    if i < 0 || i >= vals.len() {
    } else {
        lemma_values_len(value_step(t, kid, vals[i]), kid, vals, i + 1);
    }
}

/// A walk always adds at least the key's own node.
pub proof fn lemma_walk_len(t: Seq<NodeV>, parent: int, d: KeyDesc, depth: nat)
    requires
        0 <= parent < t.len(),
    ensures
        walk_spec(t, parent, d, depth).len() > t.len(),
    decreases depth, 0nat, 0nat,
{
    let kid = t.len() as int;
    let t1 = child_insert(t, parent, key_node_of(d));
    let t2 = walk_values_from(t1, kid, d.values@, 0);
    lemma_values_len(t1, kid, d.values@, 0);
    if d.values_end is End && depth > 0 {
        lemma_subkeys_len(t2, kid, d.subkeys@, 0, (depth - 1) as nat);
    }
}

/// Walking child keys never removes nodes.
pub proof fn lemma_subkeys_len(t: Seq<NodeV>, kid: int, subs: Seq<KeyDesc>, i: int, depth: nat)
    requires
        0 <= kid < t.len(),
    ensures
        walk_subkeys_from(t, kid, subs, i, depth).len() >= t.len(),
    decreases depth, subs.len() - i, 1nat,
{
    if i < 0 || i >= subs.len() {
    } else {
        lemma_walk_len(t, kid, subs[i], depth);
        lemma_subkeys_len(walk_spec(t, kid, subs[i], depth), kid, subs, i + 1, depth);
    }
}

/// Walks one key description into the tree under `parent_id`, exactly as
/// `walk_spec` lays it out: one node for the key, then one leaf per
/// enumerated value whose declared size is within `VALUE_SIZE_CAP`, then —
/// only if the value enumeration ended cleanly and recursion budget
/// remains — each child key in turn, depth first.
pub fn iterate_key(key: &KeyDesc, tree: &mut AttrTree, parent_id: usize, depth: u64)
    requires
        parent_id < old(tree)@.len(),
    ensures
        final(tree)@ == walk_spec(old(tree)@, parent_id as int, *key, depth as nat),
    decreases depth,
{
    let ghost t0 = tree@;
    let node = TreeNode {
        name: key.name.clone(),
        last_written: key.last_written,
        data: None,
        children: Vec::new(),
    };
    proof {
        assert(node@ == key_node_of(*key));
    }
    let kid: usize = match tree.add_child(parent_id, node) {
        Ok(id) => id,
        Err(_) => unreached(),
    };

    let ghost t1 = tree@;
    proof {
        assert(t1 == child_insert(t0, parent_id as int, key_node_of(*key)));
        assert(kid == t0.len());
    }

    let n: usize = key.values.len();
    let mut i: usize = 0;
    while i < n
        invariant
            n == key.values@.len(),
            i <= n,
            kid < tree@.len(),
            walk_values_from(t1, kid as int, key.values@, 0) == walk_values_from(tree@, kid as int, key.values@, i as int),
        decreases n - i,
    {
        let ghost before = tree@;
        let v = &key.values[i];
        if v.size > VALUE_SIZE_CAP {
            // Skipped: no node records an oversized value.
        } else {
            let leaf = TreeNode {
                name: canonical_name(v.name.clone()),
                last_written: None,
                data: Some(decode_value(&v.outcome)),
                children: Vec::new(),
            };
            proof {
                assert(leaf@ == value_node_of(key.values@[i as int]));
            }
            let _ = tree.add_child(kid, leaf);
        }
        proof {
            assert(tree@ == value_step(before, kid as int, key.values@[i as int]));
        }
        i = i + 1;
    }

    let ghost t2 = tree@;
    proof {
        assert(t2 == walk_values_from(t1, kid as int, key.values@, 0));
    }

    let clean = match &key.values_end {
        EnumOutcome::End => true,
        EnumOutcome::Fail(_) => false,
    };
    if clean && depth > 0 {
        let m: usize = key.subkeys.len();
        let mut j: usize = 0;
        while j < m
            invariant
                m == key.subkeys@.len(),
                j <= m,
                kid < tree@.len(),
                depth >= 1,
                walk_subkeys_from(t2, kid as int, key.subkeys@, 0, (depth - 1) as nat)
                    == walk_subkeys_from(tree@, kid as int, key.subkeys@, j as int, (depth - 1) as nat),
            decreases m - j,
        {
            let ghost before = tree@;
            let sub = &key.subkeys[j];
            iterate_key(sub, tree, kid, depth - 1);
            proof {
                lemma_walk_len(before, kid as int, key.subkeys@[j as int], (depth - 1) as nat);
            }
            j = j + 1;
        }
        proof {
            assert(tree@ == walk_subkeys_from(t2, kid as int, key.subkeys@, 0, (depth - 1) as nat));
        }
    }
}

/// The values of a phase that actually get nodes: those from position `i`
/// on whose declared size is within the cap, in enumeration order.
pub open spec fn kept_values(vals: Seq<ValueRecord>, i: int) -> Seq<ValueRecord>
    decreases vals.len() - i,
{
    if i < 0 || i >= vals.len() {
        Seq::empty()
    } else if vals[i].size > VALUE_SIZE_CAP {
        kept_values(vals, i + 1)
    } else {
        seq![vals[i]] + kept_values(vals, i + 1)
    }
}

/// A value declaring exactly the cap still gets its node; one byte over,
/// and the step leaves the tree untouched, so enumeration just continues.
pub proof fn lemma_cap_boundary(t: Seq<NodeV>, kid: int, v: ValueRecord)
    ensures
        v.size <= VALUE_SIZE_CAP ==> value_step(t, kid, v) == child_insert(t, kid, value_node_of(v)),
        v.size > VALUE_SIZE_CAP ==> value_step(t, kid, v) == t,
{
}

proof fn lemma_values_effect(t: Seq<NodeV>, kid: int, vals: Seq<ValueRecord>, i: int)
    requires
        0 <= kid < t.len(),
    ensures
        ({
            let r = walk_values_from(t, kid, vals, i);
            let ks = kept_values(vals, i);
            &&& r.len() == t.len() + ks.len()
            &&& forall|p: int| 0 <= p < t.len() && p != kid ==> r[p] == t[p]
            &&& r[kid].name == t[kid].name
            &&& r[kid].last_written == t[kid].last_written
            &&& r[kid].data == t[kid].data
            &&& r[kid].children == t[kid].children + Seq::new(ks.len(), |j: int| t.len() + j)
            &&& forall|j: int| 0 <= j < ks.len() ==> r[t.len() + j] == value_node_of(ks[j])
        }),
    decreases vals.len() - i,
{
    let r = walk_values_from(t, kid, vals, i);
    let ks = kept_values(vals, i);
    if i < 0 || i >= vals.len() {
        assert(r[kid].children =~= t[kid].children + Seq::new(0, |j: int| t.len() + j));
    } else if vals[i].size > VALUE_SIZE_CAP {
        lemma_values_effect(t, kid, vals, i + 1);
    } else {
        let t1 = child_insert(t, kid, value_node_of(vals[i]));
        let ks1 = kept_values(vals, i + 1);
        lemma_values_effect(t1, kid, vals, i + 1);
        assert(t1[kid].children == t[kid].children.push(t.len() as int));
        assert(r[kid].children =~= t[kid].children + Seq::new(ks.len(), |j: int| t.len() + j));
        assert forall|j: int| 0 <= j < ks.len() implies r[t.len() + j] == value_node_of(ks[j]) by {
            if j == 0 {
                assert(t1[t.len() as int] == value_node_of(vals[i]));
                assert(ks[0] == vals[i]);
            } else {
                assert(ks[j] == ks1[j - 1]);
                assert(r[t1.len() + (j - 1)] == value_node_of(ks1[j - 1]));
            }
        }
    }
}

/// What one walk does to the tree, in full — the shape law of this
/// library. Existing nodes other than the parent are untouched; the
/// parent gains exactly one child, the key's node `kid`; `kid` is named
/// after the key, carries its timestamp and no data; and `kid`'s children
/// are exactly: one leaf per kept value, in enumeration order, each
/// holding the decoded generic value of its record, followed — only after
/// a clean value phase and with budget left — by one key node per
/// enumerated child key, in enumeration order. Value leaves never have
/// children of their own.
pub proof fn lemma_walk_effect(t: Seq<NodeV>, parent: int, d: KeyDesc, depth: nat)
    requires
        0 <= parent < t.len(),
    ensures
        ({
            let r = walk_spec(t, parent, d, depth);
            let kid = t.len() as int;
            let ks = kept_values(d.values@, 0);
            let m = if d.values_end is End && depth > 0 {
                d.subkeys@.len() as int
            } else {
                0
            };
            &&& r.len() > t.len()
            &&& forall|p: int| 0 <= p < t.len() && p != parent ==> r[p] == t[p]
            &&& r[parent].name == t[parent].name
            &&& r[parent].last_written == t[parent].last_written
            &&& r[parent].data == t[parent].data
            &&& r[parent].children == t[parent].children.push(kid)
            &&& r[kid].name == d.name@
            &&& r[kid].last_written == d.last_written
            &&& r[kid].data is None
            &&& r[kid].children.len() == ks.len() + m
            &&& forall|q: int| 0 <= q < ks.len() ==> r[kid].children[q] == kid + 1 + q
            &&& forall|q: int| 0 <= q < ks.len() ==> r[kid + 1 + q] == value_node_of(ks[q])
            &&& forall|j: int|
                #![trigger d.subkeys@[j]]
                0 <= j < m ==> {
                    let c = r[kid].children[ks.len() + j];
                    &&& kid < c < r.len()
                    &&& r[c].name == d.subkeys@[j].name@
                    &&& r[c].last_written == d.subkeys@[j].last_written
                    &&& r[c].data is None
                }
        }),
    decreases depth, 0nat, 0nat,
{
    let r = walk_spec(t, parent, d, depth);
    let kid = t.len() as int;
    let t1 = child_insert(t, parent, key_node_of(d));
    let t2 = walk_values_from(t1, kid, d.values@, 0);
    let ks = kept_values(d.values@, 0);
    assert(t1[kid] == key_node_of(d));
    lemma_values_effect(t1, kid, d.values@, 0);
    assert(t2[kid].children =~= Seq::new(ks.len(), |q: int| kid + 1 + q));
    if d.values_end is End && depth > 0 {
        lemma_subkeys_effect(t2, kid, d.subkeys@, 0, (depth - 1) as nat);
    }
}

proof fn lemma_subkeys_effect(t: Seq<NodeV>, kid: int, subs: Seq<KeyDesc>, i: int, depth: nat)
    requires
        0 <= kid < t.len(),
        0 <= i <= subs.len(),
    ensures
        ({
            let r = walk_subkeys_from(t, kid, subs, i, depth);
            let m = subs.len() - i;
            &&& r.len() >= t.len()
            &&& forall|p: int| 0 <= p < t.len() && p != kid ==> r[p] == t[p]
            &&& r[kid].name == t[kid].name
            &&& r[kid].last_written == t[kid].last_written
            &&& r[kid].data == t[kid].data
            &&& r[kid].children.len() == t[kid].children.len() + m
            &&& forall|q: int| 0 <= q < t[kid].children.len() ==> r[kid].children[q] == t[kid].children[q]
            &&& forall|q: int|
                #![trigger r[kid].children[q]]
                t[kid].children.len() <= q < t[kid].children.len() + m ==> {
                    let c = r[kid].children[q];
                    &&& t.len() <= c < r.len()
                    &&& r[c].name == subs[i + (q - t[kid].children.len())].name@
                    &&& r[c].last_written == subs[i + (q - t[kid].children.len())].last_written
                    &&& r[c].data is None
                }
        }),
    decreases depth, subs.len() - i, 1nat,
{
    if i < 0 || i >= subs.len() {
    } else {
        let t1 = walk_spec(t, kid, subs[i], depth);
        let r = walk_subkeys_from(t, kid, subs, i, depth);
        lemma_walk_effect(t, kid, subs[i], depth);
        lemma_subkeys_effect(t1, kid, subs, i + 1, depth);
        assert(t1[kid].children == t[kid].children.push(t.len() as int));
        assert forall|q: int|
            #![trigger r[kid].children[q]]
            t[kid].children.len() <= q < t[kid].children.len() + (subs.len() - i) implies ({
            let c = r[kid].children[q];
            &&& t.len() <= c < r.len()
            &&& r[c].name == subs[i + (q - t[kid].children.len())].name@
            &&& r[c].last_written == subs[i + (q - t[kid].children.len())].last_written
            &&& r[c].data is None
        }) by {
            if q == t[kid].children.len() {
                assert(r[kid].children[q] == t1[kid].children[q]);
                assert(t1[kid].children[q] == t.len() as int);
                assert(r[t.len() as int] == t1[t.len() as int]);
            } else {
                assert(t1[kid].children.len() <= q < t1[kid].children.len() + (subs.len() - (i + 1)));
                assert(subs[(i + 1) + (q - t1[kid].children.len())] == subs[i + (q - t[kid].children.len())]);
            }
        }
    }
}

/// Two payloads that carry the same content.
pub open spec fn payload_matches(a: Payload, b: Payload) -> bool {
    match (a, b) {
        (Payload::NoData, Payload::NoData) => true,
        (Payload::Str(x), Payload::Str(y)) => x@ == y@,
        (Payload::I32(x), Payload::I32(y)) => x == y,
        _ => false,
    }
}

/// Two decode outcomes that carry the same content.
pub open spec fn outcome_matches(a: DecodeOutcome, b: DecodeOutcome) -> bool {
    match (a, b) {
        (DecodeOutcome::Decoded(x), DecodeOutcome::Decoded(y)) => payload_matches(x, y),
        (DecodeOutcome::Missing, DecodeOutcome::Missing) => true,
        (DecodeOutcome::Failed, DecodeOutcome::Failed) => true,
        _ => false,
    }
}

/// Two value records that the walker cannot tell apart.
pub open spec fn record_matches(a: ValueRecord, b: ValueRecord) -> bool {
    &&& a.name@ == b.name@
    &&& a.size == b.size
    &&& outcome_matches(a.outcome, b.outcome)
}

/// Two key descriptions that agree, to the given traversal depth, on
/// everything the walker reads: names, timestamps, value records, how
/// each value phase ended, and the child keys in turn. Diagnostic
/// messages inside failures are free to differ; they shape no node.
pub open spec fn desc_matches(a: KeyDesc, b: KeyDesc, depth: nat) -> bool
    decreases depth, 0nat, 0nat,
{
    &&& a.name@ == b.name@
    &&& a.last_written == b.last_written
    &&& a.values@.len() == b.values@.len()
    &&& forall|i: int| 0 <= i < a.values@.len() ==> record_matches(#[trigger] a.values@[i], b.values@[i])
    &&& (a.values_end is End <==> b.values_end is End)
    &&& (a.values_end is End && depth > 0 ==> subkeys_match(a.subkeys@, b.subkeys@, (depth - 1) as nat))
}

/// Pairwise agreement of two child-key lists, to the given depth.
pub open spec fn subkeys_match(x: Seq<KeyDesc>, y: Seq<KeyDesc>, depth: nat) -> bool
    decreases depth, x.len(), 1nat,
{
    &&& x.len() == y.len()
    &&& forall|i: int| 0 <= i < x.len() ==> desc_matches(#[trigger] x[i], y[i], depth)
}

proof fn lemma_values_deterministic(t: Seq<NodeV>, kid: int, va: Seq<ValueRecord>, vb: Seq<ValueRecord>, i: int)
    requires
        va.len() == vb.len(),
        forall|k: int| 0 <= k < va.len() ==> record_matches(#[trigger] va[k], vb[k]),
    ensures
        walk_values_from(t, kid, va, i) == walk_values_from(t, kid, vb, i),
    decreases va.len() - i,
{
    if i < 0 || i >= va.len() {
    } else {
        assert(value_node_of(va[i]) == value_node_of(vb[i]));
        assert(value_step(t, kid, va[i]) == value_step(t, kid, vb[i]));
        lemma_values_deterministic(value_step(t, kid, va[i]), kid, va, vb, i + 1);
    }
}

/// The walk is a function of what the decoder yielded: walking two
/// descriptions that match — as walking identical hive bytes twice
/// yields — from the same tree and parent gives identical trees, node
/// for node, name for name, child for child.
pub proof fn lemma_walk_deterministic(t: Seq<NodeV>, parent: int, a: KeyDesc, b: KeyDesc, depth: nat)
    requires
        desc_matches(a, b, depth),
    ensures
        walk_spec(t, parent, a, depth) == walk_spec(t, parent, b, depth),
    decreases depth, 0nat, 0nat,
{
    let kid = t.len() as int;
    assert(key_node_of(a) == key_node_of(b));
    let t1 = child_insert(t, parent, key_node_of(a));
    lemma_values_deterministic(t1, kid, a.values@, b.values@, 0);
    let t2 = walk_values_from(t1, kid, a.values@, 0);
    if a.values_end is End && depth > 0 {
        lemma_subkeys_deterministic(t2, kid, a.subkeys@, b.subkeys@, 0, (depth - 1) as nat);
    }
}

proof fn lemma_subkeys_deterministic(t: Seq<NodeV>, kid: int, xa: Seq<KeyDesc>, xb: Seq<KeyDesc>, i: int, depth: nat)
    requires
        subkeys_match(xa, xb, depth),
    ensures
        walk_subkeys_from(t, kid, xa, i, depth) == walk_subkeys_from(t, kid, xb, i, depth),
    decreases depth, xa.len() - i, 1nat,
{
    if i < 0 || i >= xa.len() {
    } else {
        lemma_walk_deterministic(t, kid, xa[i], xb[i], depth);
        lemma_subkeys_deterministic(walk_spec(t, kid, xa[i], depth), kid, xa, xb, i + 1, depth);
    }
}

} // verus!
