//! The domain shapes the read paths return: a full node record and a
//! depth-annotated traversal tree.

use vstd::prelude::*;

use crate::input::pairs_view;
use crate::relations::{Relation, RelationView};
use crate::rows::RelationModel;

verus! {

/// A node as served: its record plus its edge list.
#[derive(Debug, Clone, PartialEq)]
pub struct Node {
    pub uuid: u128,
    pub ingestion_id: String,
    pub name: String,
    pub path: String,
    pub node_type: String,
    pub tags: Vec<(String, String)>,
    pub relations: Vec<Relation>,
}

/// The value of a served node.
#[verifier::ext_equal]
pub struct NodeView {
    pub uuid: u128,
    pub ingestion_id: Seq<char>,
    pub name: Seq<char>,
    pub path: Seq<char>,
    pub node_type: Seq<char>,
    pub tags: Seq<(Seq<char>, Seq<char>)>,
    pub relations: Seq<RelationView>,
}

impl View for Node {
    type V = NodeView;

    open spec fn view(&self) -> NodeView {
        NodeView {
            uuid: self.uuid,
            ingestion_id: self.ingestion_id@,
            name: self.name@,
            path: self.path@,
            node_type: self.node_type@,
            tags: pairs_view(self.tags@),
            relations: self.relations@.map_values(|r: Relation| r@),
        }
    }
}

impl Node {
    /// A node record with no tags and no edges yet.
    pub fn new(
        uuid: u128,
        ingestion_id: String,
        name: String,
        path: String,
        node_type: String,
    ) -> (r: Self)
        ensures
            r@ == (NodeView {
                uuid: uuid,
                ingestion_id: ingestion_id@,
                name: name@,
                path: path@,
                node_type: node_type@,
                tags: Seq::empty(),
                relations: Seq::empty(),
            }),
    {
        let r = Node {
            uuid,
            ingestion_id,
            name,
            path,
            node_type,
            tags: Vec::new(),
            relations: Vec::new(),
        };
        proof {
            assert(r@ =~= (NodeView {
                uuid: uuid,
                ingestion_id: r.ingestion_id@,
                name: r.name@,
                path: r.path@,
                node_type: r.node_type@,
                tags: Seq::empty(),
                relations: Seq::empty(),
            }));
        }
        r
    }
}

/// One node of a traversal result: its record columns, its depth from the
/// seed, the peers it references, and the subtrees reached through them.
#[derive(Debug, PartialEq)]
pub struct TraversalNode {
    pub uuid: u128,
    pub depth: usize,
    pub name: String,
    pub node_type: String,
    pub relations: Vec<TraversalNode>,
    pub relation_ids: Vec<String>,
}

/// The value of a traversal tree.
#[verifier::ext_equal]
pub struct TraversalView {
    pub uuid: u128,
    pub depth: int,
    pub name: Seq<char>,
    pub node_type: Seq<char>,
    pub relations: Seq<TraversalView>,
    pub relation_ids: Seq<Seq<char>>,
}

/// The value of a traversal tree.
pub open spec fn traversal_view(t: TraversalNode) -> TraversalView
    decreases t,
{
    TraversalView {
        uuid: t.uuid,
        depth: t.depth as int,
        name: t.name@,
        node_type: t.node_type@,
        relations: traversal_views(t.relations@),
        relation_ids: t.relation_ids@.map_values(|s: String| s@),
    }
}

/// The values of a list of traversal trees.
pub open spec fn traversal_views(ts: Seq<TraversalNode>) -> Seq<TraversalView>
    decreases ts,
{
    if ts.len() == 0 {
        Seq::empty()
    } else {
        seq![traversal_view(ts[0])] + traversal_views(ts.drop_first())
    }
}

/// Appending a tree to a list appends its value.
pub proof fn lemma_traversal_views_push(ts: Seq<TraversalNode>, t: TraversalNode)
    ensures
        traversal_views(ts.push(t)) == traversal_views(ts).push(traversal_view(t)),
    decreases ts,
{
    if ts.len() == 0 {
        reveal_with_fuel(traversal_views, 3);
        assert(ts.push(t).drop_first() =~= Seq::<TraversalNode>::empty());
        assert(traversal_views(ts.push(t)) =~= traversal_views(ts).push(traversal_view(t)));
    } else {
        assert(ts.push(t).drop_first() =~= ts.drop_first().push(t));
        lemma_traversal_views_push(ts.drop_first(), t);
        assert(traversal_views(ts.push(t)) =~= traversal_views(ts).push(traversal_view(t)));
    }
}

impl TraversalNode {
    /// Builds the node a non-empty partition scan denotes: the first row is
    /// the node's own record, and every later row contributes its peer
    /// identifier.
    pub fn from(rows: &Vec<RelationModel>, depth: usize) -> (r: Self)
        requires
            rows@.len() > 0,
        ensures
            traversal_view(r) == (TraversalView {
                uuid: rows@[0]@.uuid,
                depth: depth as int,
                name: rows@[0]@.name,
                node_type: rows@[0]@.node_type,
                relations: Seq::empty(),
                relation_ids: rows@.subrange(1, rows@.len() as int).map_values(
                    |m: RelationModel| m@.relates_to,
                ),
            }),
    {
        let head = &rows[0];
        let mut relation_ids: Vec<String> = Vec::new();
        let n = rows.len();
        let mut i: usize = 1;
        while i < n
            invariant
                1 <= i <= n,
                n == rows@.len(),
                relation_ids@.len() == i - 1,
                forall|j: int|
                    0 <= j < i - 1 ==> relation_ids@[j]@ == rows@[j + 1]@.relates_to,
            decreases n - i,
        {
            let id_text: String = match &rows[i].relates_to {
                Some(s) => s.clone(),
                None => String::new(),
            };
            relation_ids.push(id_text);
            i = i + 1;
        }
        let r = TraversalNode {
            uuid: head.uuid,
            depth: depth,
            name: head.name.clone(),
            node_type: head.node_type.clone(),
            relations: Vec::new(),
            relation_ids: relation_ids,
        };
        proof {
            assert(traversal_views(r.relations@) =~= Seq::<TraversalView>::empty());
            assert(traversal_view(r) =~= (TraversalView {
                uuid: rows@[0]@.uuid,
                depth: depth as int,
                name: rows@[0]@.name,
                node_type: rows@[0]@.node_type,
                relations: Seq::empty(),
                relation_ids: rows@.subrange(1, rows@.len() as int).map_values(
                    |m: RelationModel| m@.relates_to,
                ),
            }));
        }
        r
    }
}

} // verus!
