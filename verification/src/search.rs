//! The shapes of the keyword + tag search path. Building the engine's query
//! body and talking to it stay outside the library.

use vstd::prelude::*;

verus! {

/// A `(kind, value)` tag as indexed.
#[derive(Debug, Clone, PartialEq)]
pub struct Tag {
    pub type_field: String,
    pub value: String,
}

/// A keyword search, optionally narrowed by one tag.
#[derive(Debug, Clone, PartialEq)]
pub struct SearchQueryParams {
    pub query: String,
    pub tag: Option<Tag>,
}

/// A node as indexed for search.
#[derive(Debug, Clone, PartialEq)]
pub struct IndexNode {
    pub uuid: u128,
    pub name: String,
    pub node_type: String,
    pub tags: Vec<Tag>,
}

} // verus!
