//! The input document: a forest of named, typed nodes with optional tags,
//! plus a flat list of cross-cutting relations between node paths.

use vstd::prelude::*;

verus! {

/// A `(kind, value)` tag on a node or a relation.
#[derive(Default, Debug, Clone, PartialEq)]
pub struct RawTag {
    pub type_field: String,
    pub value: String,
}

/// A node of the input tree: a name, a kind, nested children and optional
/// tags.
#[derive(Default, Debug, PartialEq)]
pub struct RawNode {
    pub name: String,
    pub type_field: String,
    pub children: Vec<RawNode>,
    pub tags: Option<Vec<RawTag>>,
    pub total_children: Option<i64>,
}

/// A relation between the nodes at two paths, each given as its segments.
#[derive(Default, Debug, Clone, PartialEq)]
pub struct RawRelation {
    pub type_field: String,
    pub source: Vec<String>,
    pub target: Vec<String>,
    pub tags: Option<Vec<RawTag>>,
}

/// A whole input document.
#[derive(Default, Debug, PartialEq)]
pub struct GraphData {
    pub nodes: Vec<RawNode>,
    pub relations: Vec<RawRelation>,
}

/// The `(kind, value)` pair a tag denotes.
pub open spec fn tag_view(t: RawTag) -> (Seq<char>, Seq<char>) {
    (t.type_field@, t.value@)
}

/// The pairs denoted by an optional tag list; an absent list denotes no
/// pairs.
pub open spec fn tags_view(tags: Option<Vec<RawTag>>) -> Seq<(Seq<char>, Seq<char>)> {
    match tags {
        None => Seq::empty(),
        Some(v) => v@.map_values(|t: RawTag| tag_view(t)),
    }
}

/// The pairs denoted by a materialized tag-pair list.
pub open spec fn pairs_view(pairs: Seq<(String, String)>) -> Seq<(Seq<char>, Seq<char>)> {
    pairs.map_values(|p: (String, String)| (p.0@, p.1@))
}

/// Materializes a tag list as ordered `(kind, value)` pairs.
pub fn extract_tag_pairs(tags: Vec<RawTag>) -> (r: Vec<(String, String)>)
    ensures
        pairs_view(r@) == tags_view(Some(tags)),
{
    let mut r: Vec<(String, String)> = Vec::new();
    let n = tags.len();
    for i in 0..n
        invariant
            n == tags@.len(),
            r@.len() == i,
            forall|j: int|
                0 <= j < i ==> r@[j].0@ == tags@[j].type_field@ && r@[j].1@ == tags@[j].value@,
    {
        let t = &tags[i];
        r.push((t.type_field.clone(), t.value.clone()));
    }
    proof {
        assert(pairs_view(r@) =~= tags_view(Some(tags)));
    }
    r
}

/// Copies a tag list field by field.
pub fn clone_tags(tags: &Vec<RawTag>) -> (r: Vec<RawTag>)
    ensures
        r@.map_values(|t: RawTag| tag_view(t)) == tags@.map_values(|t: RawTag| tag_view(t)),
        r@.len() == tags@.len(),
{
    let mut r: Vec<RawTag> = Vec::new();
    let n = tags.len();
    for i in 0..n
        invariant
            n == tags@.len(),
            r@.len() == i,
            forall|j: int| 0 <= j < i ==> tag_view(r@[j]) == tag_view(tags@[j]),
    {
        let t = &tags[i];
        r.push(RawTag { type_field: t.type_field.clone(), value: t.value.clone() });
    }
    proof {
        assert(r@.map_values(|t: RawTag| tag_view(t)) =~= tags@.map_values(
            |t: RawTag| tag_view(t),
        ));
    }
    r
}

/// Copies a tag-pair list field by field.
pub fn clone_pairs(pairs: &Vec<(String, String)>) -> (r: Vec<(String, String)>)
    ensures
        pairs_view(r@) == pairs_view(pairs@),
{
    let mut r: Vec<(String, String)> = Vec::new();
    let n = pairs.len();
    for i in 0..n
        invariant
            n == pairs@.len(),
            r@.len() == i,
            forall|j: int|
                0 <= j < i ==> r@[j].0@ == pairs@[j].0@ && r@[j].1@ == pairs@[j].1@,
    {
        let p = &pairs[i];
        r.push((p.0.clone(), p.1.clone()));
    }
    proof {
        assert(pairs_view(r@) =~= pairs_view(pairs@));
    }
    r
}

} // verus!
