//! The relation indexer: turns the document's flat relation list into a
//! per-path list of directed edges, ready to fuse into each node's rows.

use vstd::prelude::*;

use crate::identity::{spec_node_id, url_to_uuid};
use crate::input::RawRelation;
use crate::strutil::{last_segment, last_segment_str, str_eq};
use crate::uuid_text::{uuid_text, uuid_to_string};

verus! {

/// One directed edge at a path: the relation kind, its orientation, and the
/// peer's name and identifier text.
#[derive(Debug, Clone, PartialEq)]
pub struct Relation {
    pub rel_type: String,
    pub outbound: bool,
    pub target_name: String,
    pub relates_to: String,
}

/// The value of an indexed edge.
#[verifier::ext_equal]
pub struct RelationView {
    pub rel_type: Seq<char>,
    pub outbound: bool,
    pub target_name: Seq<char>,
    pub relates_to: Seq<char>,
}

impl View for Relation {
    type V = RelationView;

    open spec fn view(&self) -> RelationView {
        RelationView {
            rel_type: self.rel_type@,
            outbound: self.outbound,
            target_name: self.target_name@,
            relates_to: self.relates_to@,
        }
    }
}

/// The display name of the peer at `url`: its last path segment, or
/// `default` when the path is empty.
pub open spec fn peer_name(url: Seq<char>) -> Seq<char> {
    if url.len() == 0 {
        "default"@
    } else {
        last_segment(url)
    }
}

impl Relation {
    /// Builds the edge record for the peer at `url` within the batch
    /// `ingestion_id`.
    pub fn new(ingestion_id: String, rel_type: String, url: String, outbound: bool) -> (r: Self)
        ensures
            r@ == (RelationView {
                rel_type: rel_type@,
                outbound: outbound,
                target_name: peer_name(url@),
                relates_to: uuid_text(spec_node_id(ingestion_id@, url@)),
            }),
    {
        let name = if url.as_str().is_empty() {
            "default".to_owned()
        } else {
            last_segment_str(url.as_str())
        };
        let relates_to = url_to_uuid(ingestion_id, url);
        Self { rel_type: rel_type, outbound: outbound, target_name: name, relates_to: uuid_to_string(relates_to) }
    }

    /// Copies an edge record field by field.
    pub fn duplicate(&self) -> (r: Self)
        ensures
            r@ == self@,
    {
        Self {
            rel_type: self.rel_type.clone(),
            outbound: self.outbound,
            target_name: self.target_name.clone(),
            relates_to: self.relates_to.clone(),
        }
    }
}

/// The `/`-joined text of a path given as its segments.
pub open spec fn join_view(parts: Seq<Seq<char>>) -> Seq<char>
    decreases parts.len(),
{
    if parts.len() == 0 {
        Seq::empty()
    } else if parts.len() == 1 {
        parts[0]
    } else {
        join_view(parts.drop_last()) + "/"@ + parts.last()
    }
}

/// Joins path segments with `/`.
pub fn join_paths(paths: &[String]) -> (r: String)
    ensures
        r@ == join_view(paths@.map_values(|s: String| s@)),
{
    let ghost parts = paths@.map_values(|s: String| s@);
    let mut r = String::new();
    let n = paths.len();
    for i in 0..n
        invariant
            n == paths@.len(),
            parts == paths@.map_values(|s: String| s@),
            r@ == join_view(parts.subrange(0, i as int)),
    {
        if i > 0 {
            r.append("/");
        }
        r.append(paths[i].as_str());
        proof {
            let pre = parts.subrange(0, i as int);
            let cur = parts.subrange(0, i + 1);
            assert(cur.drop_last() =~= pre);
            assert(cur.last() == parts[i as int]);
            if i == 0 {
                assert(r@ =~= join_view(cur));
            } else {
                assert(r@ =~= join_view(cur));
            }
        }
    }
    proof {
        assert(parts.subrange(0, n as int) =~= parts);
    }
    r
}

/// The node path a relation endpoint names: its segments joined by `/`,
/// rooted with the leading `/` every node path carries.
pub open spec fn endpoint_path(parts: Seq<Seq<char>>) -> Seq<char> {
    "/"@ + join_view(parts)
}

/// The per-path edge index, kept as the ordered list of `(path, edge)`
/// entries the relation list produces.
pub struct RelIndex {
    pub pairs: Vec<(String, Relation)>,
}

impl View for RelIndex {
    type V = Seq<(Seq<char>, RelationView)>;

    open spec fn view(&self) -> Seq<(Seq<char>, RelationView)> {
        self.pairs@.map_values(|p: (String, Relation)| (p.0@, p.1@))
    }
}

/// The two index entries one input relation produces: an outbound edge at
/// its source node's path and an inbound edge at its target node's path,
/// each pointing at the other endpoint.
pub open spec fn rel_entry_pair(ingestion_id: Seq<char>, r: RawRelation) -> Seq<
    (Seq<char>, RelationView),
> {
    let source = endpoint_path(r.source@.map_values(|s: String| s@));
    let target = endpoint_path(r.target@.map_values(|s: String| s@));
    seq![
        (
            source,
            RelationView {
                rel_type: r.type_field@,
                outbound: true,
                target_name: peer_name(target),
                relates_to: uuid_text(spec_node_id(ingestion_id, target)),
            },
        ),
        (
            target,
            RelationView {
                rel_type: r.type_field@,
                outbound: false,
                target_name: peer_name(source),
                relates_to: uuid_text(spec_node_id(ingestion_id, source)),
            },
        ),
    ]
}

/// All index entries of a relation list, in input order.
pub open spec fn rel_entries(ingestion_id: Seq<char>, rels: Seq<RawRelation>) -> Seq<
    (Seq<char>, RelationView),
>
    decreases rels.len(),
{
    if rels.len() == 0 {
        Seq::empty()
    } else {
        rel_entries(ingestion_id, rels.drop_last()) + rel_entry_pair(ingestion_id, rels.last())
    }
}

/// The edges indexed at `path`, in insertion order.
pub open spec fn rel_edges(entries: Seq<(Seq<char>, RelationView)>, path: Seq<char>) -> Seq<
    RelationView,
>
    decreases entries.len(),
{
    if entries.len() == 0 {
        Seq::empty()
    } else {
        let rest = rel_edges(entries.drop_last(), path);
        if entries.last().0 == path {
            rest.push(entries.last().1)
        } else {
            rest
        }
    }
}

impl RelIndex {
    /// An index with no entries.
    pub fn empty() -> (r: Self)
        ensures
            r@ == Seq::<(Seq<char>, RelationView)>::empty(),
    {
        let r = RelIndex { pairs: Vec::new() };
        proof {
            assert(r@ =~= Seq::<(Seq<char>, RelationView)>::empty());
        }
        r
    }

    /// The number of relations indexed: each contributes one outbound and
    /// one inbound entry.
    pub fn len(&self) -> (r: usize)
        ensures
            r == self@.len() / 2,
    {
        self.pairs.len() / 2
    }

    /// The edges indexed at `path`, in insertion order.
    pub fn get(&self, path: &str) -> (r: Vec<Relation>)
        ensures
            r@.map_values(|rel: Relation| rel@) == rel_edges(self@, path@),
    {
        let mut r: Vec<Relation> = Vec::new();
        let n = self.pairs.len();
        for i in 0..n
            invariant
                n == self.pairs@.len(),
                self@ == self.pairs@.map_values(|p: (String, Relation)| (p.0@, p.1@)),
                self@.len() == n,
                r@.map_values(|rel: Relation| rel@) == rel_edges(
                    self@.subrange(0, i as int),
                    path@,
                ),
        {
            let ghost pre = self@.subrange(0, i as int);
            let ghost cur = self@.subrange(0, i + 1);
            proof {
                assert(cur.drop_last() =~= pre);
                assert(cur.last() == self@[i as int]);
            }
            if str_eq(self.pairs[i].0.as_str(), path) {
                r.push(self.pairs[i].1.duplicate());
            }
            proof {
                assert(r@.map_values(|rel: Relation| rel@) =~= rel_edges(cur, path@));
            }
        }
        proof {
            assert(self@.subrange(0, n as int) =~= self@);
        }
        r
    }
}

/// Indexes a relation list: each relation contributes one outbound entry at
/// the node path its source segments name and one inbound entry at the node
/// path its target segments name, both rooted as every node path is.
pub fn process_relations(ingestion_id: &str, relations: Vec<RawRelation>) -> (r: RelIndex)
    ensures
        r@ == rel_entries(ingestion_id@, relations@),
{
    let mut r = RelIndex::empty();
    let n = relations.len();
    for i in 0..n
        invariant
            n == relations@.len(),
            r@ == rel_entries(ingestion_id@, relations@.subrange(0, i as int)),
    {
        let rel = &relations[i];
        let joined_source = join_paths(rel.source.as_slice());
        let joined_target = join_paths(rel.target.as_slice());
        let mut source = "/".to_owned();
        source.append(joined_source.as_str());
        let mut target = "/".to_owned();
        target.append(joined_target.as_str());
        let out_edge = Relation::new(
            ingestion_id.to_owned(),
            rel.type_field.clone(),
            target.clone(),
            true,
        );
        let in_edge = Relation::new(
            ingestion_id.to_owned(),
            rel.type_field.clone(),
            source.clone(),
            false,
        );
        r.pairs.push((source, out_edge));
        r.pairs.push((target, in_edge));
        proof {
            let pre = relations@.subrange(0, i as int);
            let cur = relations@.subrange(0, i + 1);
            assert(cur.drop_last() =~= pre);
            assert(cur.last() == relations@[i as int]);
            assert(r@ =~= rel_entries(ingestion_id@, cur));
        }
    }
    proof {
        assert(relations@.subrange(0, n as int) =~= relations@);
    }
    r
}

} // verus!
