//! How symbol types and values are handled at runtime.
pub mod type_tree;
pub mod map;
pub mod tree;
pub mod info;
pub mod agreement;
