//! A plain description of what the hive decoder yields for one key: the
//! key's own header fields and, in enumeration order, its values and child
//! keys, each enumeration phase closed by how the cursor ended it. The
//! decoder itself — the parser of the on-disk hive format — is an external
//! collaborator; it fills this description, and the walker consumes it.

use vstd::prelude::*;
use crate::value::DecodeOutcome;

verus! {

/// One enumerated value under a key, as the decoder handed it out:
/// declared name, declared payload size in bytes, and the outcome of
/// reading and decoding its payload.
#[derive(Debug)]
pub struct ValueRecord {
    pub name: String,
    pub size: u32,
    pub outcome: DecodeOutcome,
}

/// How one enumeration phase ended: cleanly at end-of-items, or with the
/// cursor itself failing. The message of a failure is kept as a
/// diagnostic; the walker only truncates on it.
#[derive(Debug)]
pub enum EnumOutcome {
    End,
    Fail(String),
}

/// Everything the decoder yields for one key.
#[derive(Debug)]
pub struct KeyDesc {
    /// The key's name.
    pub name: String,
    /// The last-written timestamp, in seconds since the Unix epoch, where
    /// the decoder supplied one.
    pub last_written: Option<i64>,
    /// The values the cursor yielded, in enumeration order.
    pub values: Vec<ValueRecord>,
    /// How the value enumeration ended.
    pub values_end: EnumOutcome,
    /// The child keys the cursor yielded, in enumeration order, each
    /// described in full.
    pub subkeys: Vec<KeyDesc>,
    /// How the child-key enumeration ended.
    pub subkeys_end: EnumOutcome,
}

} // verus!
