pub mod write;
pub mod write_spec;
pub mod write_tree;
pub mod condition_spec;
pub mod condition_bytes;
pub mod event_spec;
pub mod event_compile;
pub mod tree_spec;
pub mod tree_compile;
