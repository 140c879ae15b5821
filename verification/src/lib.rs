//! Plan-node and flush-compaction logic of a streaming database, with the
//! behaviour of each operation stated as a contract and proved.
pub mod bound;
pub mod catalog;
pub mod compactor;
pub mod display;
pub mod expr;
pub mod flush;
pub mod func_dep;
pub mod group;
pub mod kafka_range;
pub mod key;
pub mod key_range;
pub mod logical_source;
pub mod project;
pub mod uncommitted;
mod vec_copy;
pub mod version_stats;
