//! Graph ingestion and serving core.
//!
//! The library flattens hierarchical graph documents into wide-column rows
//! keyed so that a node's edges share its partition, indexes explicit
//! relations by path, schedules bounded-concurrency ingestion, and serves
//! depth-bounded traversals over the same row layout.

pub mod config;
pub mod flatten;
pub mod identity;
pub mod input;
pub mod laws;
pub mod node;
pub mod relations;
pub mod rows;
pub mod scheduler;
pub mod search;
pub mod store;
pub mod strutil;
pub mod traverse;
pub mod uuid_text;

pub use identity::{path_from_name, path_to_uuid, url_to_uuid};
pub use input::extract_tag_pairs;
pub use relations::process_relations;
