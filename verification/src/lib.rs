//! Walks a decoded Windows Registry hive, given as a plain description of
//! what the hive decoder yields, and materializes it as a generic attribute
//! tree: one node per key, one node per enumerated value.

pub mod hive;
pub mod plugin;
pub mod tree;
pub mod value;
pub mod walk;
