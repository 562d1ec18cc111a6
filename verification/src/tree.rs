//! The generic attribute tree the walker fills: an n-ary tree of nodes
//! addressed by ids, each node carrying a display name and the fields of
//! its "registry" attribute group.

use vstd::prelude::*;
use crate::value::{RegValue, RegValueV};

verus! {

/// Mathematical image of one tree node; children are listed by id.
#[verifier::ext_equal]
pub struct NodeV {
    pub name: Seq<char>,
    pub last_written: Option<i64>,
    pub data: Option<RegValueV>,
    pub children: Seq<int>,
}

/// One node of the attribute tree: a display name plus the "registry"
/// attribute group's content — `last_written` on key nodes, `data` on
/// value nodes — and the ids of its children, in insertion order.
#[derive(Debug)]
pub struct TreeNode {
    pub name: String,
    pub last_written: Option<i64>,
    pub data: Option<RegValue>,
    pub children: Vec<usize>,
}

impl View for TreeNode {
    type V = NodeV;

    open spec fn view(&self) -> NodeV {
        NodeV {
            name: self.name@,
            last_written: self.last_written,
            data: match self.data {
                Option::None => Option::None,
                Option::Some(v) => Option::Some(v@),
            },
            children: Seq::new(self.children@.len(), |i: int| self.children@[i] as int),
        }
    }
}

/// Why an insertion was refused.
#[derive(Debug, PartialEq)]
pub enum TreeError {
    /// The given parent id is not resident in the tree.
    ParentMissing,
}

/// The attribute tree; a node's id is its index in `nodes`, so ids are
/// dense and allocation order is insertion order.
pub struct AttrTree {
    pub nodes: Vec<TreeNode>,
}

impl View for AttrTree {
    type V = Seq<NodeV>;

    open spec fn view(&self) -> Seq<NodeV> {
        Seq::new(self.nodes@.len(), |i: int| self.nodes@[i]@)
    }
}

/// The shape of the tree after inserting `node` under `parent`: the new
/// node is appended at id `t.len()`, and that id is appended to the
/// parent's children.
pub open spec fn child_insert(t: Seq<NodeV>, parent: int, node: NodeV) -> Seq<NodeV> {
    t.update(
        parent,
        NodeV {
            name: t[parent].name,
            last_written: t[parent].last_written,
            data: t[parent].data,
            children: t[parent].children.push(t.len() as int),
        },
    ).push(node)
}

impl AttrTree {
    /// A fresh, empty tree.
    pub fn new() -> (t: AttrTree)
        ensures
            t@ =~= Seq::<NodeV>::empty(),
    {
        let t = AttrTree { nodes: Vec::new() };
        proof {
            assert(t@ =~= Seq::<NodeV>::empty());
        }
        t
    }

    /// How many nodes the tree holds.
    pub fn len(&self) -> (n: usize)
        ensures
            n == self@.len(),
    {
        self.nodes.len()
    }

    /// Whether a node with this id is resident.
    pub fn contains_id(&self, id: usize) -> (b: bool)
        ensures
            b == (id < self@.len()),
    {
        id < self.nodes.len()
    }

    /// Looks a node up by id.
    pub fn get(&self, id: usize) -> (r: Option<&TreeNode>)
        ensures
            match r {
                Option::Some(node) => id < self@.len() && node@ == self@[id as int],
                Option::None => id >= self@.len(),
            },
    {
        if id < self.nodes.len() {
            Some(&self.nodes[id])
        } else {
            None
        }
    }

    /// Appends a node with no parent; the id of such a root is handed to
    /// the walker as the place the walked subtree goes under.
    pub fn insert_root(&mut self, name: String) -> (id: usize)
        ensures
            id == old(self)@.len(),
            final(self)@ == old(self)@.push(
                (NodeV {
                    name: name@,
                    last_written: Option::None,
                    data: Option::None,
                    children: Seq::empty(),
                }),
            ),
    {
        let id: usize = self.nodes.len();
        let ghost expected = self@.push(
            NodeV {
                name: name@,
                last_written: Option::None,
                data: Option::None,
                children: Seq::empty(),
            },
        );
        self.nodes.push(TreeNode {
            name,
            last_written: None,
            data: None,
            children: Vec::new(),
        });
        proof {
            assert(self@ =~~= expected);
        }
        id
    }

    /// Inserts a fully constructed node under `parent_id`, returning the
    /// new node's id; fails exactly when the parent id is not resident,
    /// and then leaves the tree unchanged.
    pub fn add_child(&mut self, parent_id: usize, node: TreeNode) -> (r: Result<usize, TreeError>)
        ensures
            parent_id < old(self)@.len() ==> {
                &&& r matches Ok(id) && id == old(self)@.len()
                &&& final(self)@ == child_insert(old(self)@, parent_id as int, node@)
            },
            parent_id >= old(self)@.len() ==> {
                &&& r == Err::<usize, TreeError>(TreeError::ParentMissing)
                &&& final(self)@ == old(self)@
            },
    {
        let new_id: usize = self.nodes.len();
        if parent_id < new_id {
            let ghost expected = child_insert(self@, parent_id as int, node@);
            let parent = &mut self.nodes[parent_id];
            parent.children.push(new_id);
            self.nodes.push(node);
            proof {
                assert(self@ =~~= expected);
            }
            Ok(new_id)
        } else {
            Err(TreeError::ParentMissing)
        }
    }
}

} // verus!
