//! The plugin surface: argument and result types, the pre-walk error
//! kinds, and the entry point that checks the target node, takes the
//! decoder's outcome, and runs the walk from the hive's root key.

use vstd::prelude::*;
use crate::hive::KeyDesc;
use crate::tree::AttrTree;
use crate::walk::{iterate_key, walk_spec};

verus! {

/// How deep the walk will recurse into child keys before truncating, a
/// defensive bound against corrupted hives with runaway nesting.
pub const MAX_DEPTH: u64 = 4096;

/// The plugin's argument: the id of the tree node whose data the hive
/// was read from; the walked tree goes under that node.
#[derive(Debug)]
pub struct Arguments {
    pub file: usize,
}

/// The plugin reports nothing beyond success: its findings are the nodes
/// it inserted.
#[derive(Debug, Default)]
pub struct Results {}

/// Why the operation failed before any walking began. In-walk issues are
/// recovered and never surface here.
#[derive(Debug, PartialEq)]
pub enum RegistryError {
    /// The input node id is not resident in the tree.
    ArgumentMissing,
    /// The input node carries no data to read a hive from.
    ValueMissing,
    /// The input node's data cannot be opened as a byte stream.
    ValueTypeMismatch,
    /// The decoder rejected the bytes or yielded no root key; wraps the
    /// decoder's message.
    HiveFormat(String),
}

/// The registry plugin.
#[derive(Default)]
pub struct RegistryPlugin {}

impl RegistryPlugin {
    /// Checks that the input node is resident, then walks the decoded
    /// hive's root key under it. `root` is what the hive decoder made of
    /// the bytes: the root key's description, or the decoder's message.
    /// A missing input node and a decoder failure are the only errors;
    /// with a resident node and a decoded root the walk always succeeds,
    /// leaving the tree exactly as `walk_spec` lays it out.
    pub fn run(&mut self, args: Arguments, root: Result<KeyDesc, String>, tree: &mut AttrTree) -> (r: Result<
        Results,
        RegistryError,
    >)
        ensures
            args.file >= old(tree)@.len() ==> {
                &&& r == Err::<Results, RegistryError>(RegistryError::ArgumentMissing)
                &&& final(tree)@ == old(tree)@
            },
            args.file < old(tree)@.len() ==> match root {
                Ok(key) => r is Ok && final(tree)@ == walk_spec(old(tree)@, args.file as int, key, MAX_DEPTH as nat),
                Err(msg) => {
                    &&& r == Err::<Results, RegistryError>(RegistryError::HiveFormat(msg))
                    &&& final(tree)@ == old(tree)@
                },
            },
    {
        if !tree.contains_id(args.file) {
            return Err(RegistryError::ArgumentMissing);
        }
        match root {
            Ok(key) => {
                iterate_key(&key, tree, args.file, MAX_DEPTH);
                Ok(Results {})
            },
            Err(msg) => Err(RegistryError::HiveFormat(msg)),
        }
    }
}

} // verus!
