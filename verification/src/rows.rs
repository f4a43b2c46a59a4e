//! The wide-column row model: one self-row per node plus one row per
//! directed edge, all sharing the node's partition key.

use vstd::prelude::*;

use crate::identity::path_to_uuid;
use crate::input::{clone_pairs, pairs_view, tags_view, RawTag};
use crate::relations::Relation;
use crate::uuid_text::{uuid_text, uuid_to_string};

verus! {

/// The persisted direction tag of an edge row.
#[derive(Debug, Clone, PartialEq, Eq, Structural)]
pub enum Direction {
    In,
    Out,
}

impl Direction {
    /// The text stored in the row's `direction` column.
    pub fn as_string(&self) -> (r: String)
        ensures
            r@ == self.view(),
    {
        match self {
            Direction::In => "In".to_owned(),
            Direction::Out => "Out".to_owned(),
        }
    }

    /// The text a direction denotes.
    pub open spec fn view(self) -> Seq<char> {
        match self {
            Direction::In => "In"@,
            Direction::Out => "Out"@,
        }
    }
}

/// The role of a tree edge between a node and its parent or child.
#[derive(Debug, Clone, PartialEq, Eq, Structural)]
pub enum Role {
    Parent,
    Child,
}

impl Role {
    /// The text stored in the row's `relation` column.
    pub fn as_string(&self) -> (r: String)
        ensures
            r@ == self.view(),
    {
        match self {
            Role::Parent => "Parent".to_owned(),
            Role::Child => "Child".to_owned(),
        }
    }

    /// The text a role denotes.
    pub open spec fn view(self) -> Seq<char> {
        match self {
            Role::Parent => "Parent"@,
            Role::Child => "Child"@,
        }
    }
}

/// One stored row. A self-row carries the node's own record and empty
/// clustering columns; an edge row carries one directed relationship.
#[derive(Default, Debug, Clone, PartialEq)]
pub struct NodeModel {
    pub uuid: u128,
    pub direction: Option<String>,
    pub relation: Option<String>,
    pub relates_to: Option<String>,
    pub name: String,
    pub ingestion_id: String,
    pub path: String,
    pub node_type: String,
    pub tags: Option<Vec<(String, String)>>,
}

/// The row columns a partition scan returns for traversal.
#[derive(Default, Debug, Clone, PartialEq)]
pub struct RelationModel {
    pub uuid: u128,
    pub direction: Option<String>,
    pub relation: Option<String>,
    pub relates_to: Option<String>,
    pub name: String,
    pub node_type: String,
}

/// The value of a scanned row: the columns the traversal reads.
#[verifier::ext_equal]
pub struct RelRowView {
    pub uuid: u128,
    pub direction: Seq<char>,
    pub relation: Seq<char>,
    pub relates_to: Seq<char>,
    pub name: Seq<char>,
    pub node_type: Seq<char>,
}

/// The value of a row as stored: absent clustering columns read as empty
/// text, an absent tag list as no tags.
#[verifier::ext_equal]
pub struct RowView {
    pub uuid: u128,
    pub direction: Seq<char>,
    pub relation: Seq<char>,
    pub relates_to: Seq<char>,
    pub name: Seq<char>,
    pub ingestion_id: Seq<char>,
    pub path: Seq<char>,
    pub node_type: Seq<char>,
    pub tags: Seq<(Seq<char>, Seq<char>)>,
}

/// The text an optional column stores: empty when absent.
pub open spec fn opt_str_view(o: Option<String>) -> Seq<char> {
    match o {
        None => Seq::empty(),
        Some(s) => s@,
    }
}

/// The tag pairs an optional tag column stores: none when absent.
pub open spec fn opt_tags_view(o: Option<Vec<(String, String)>>) -> Seq<(Seq<char>, Seq<char>)> {
    match o {
        None => Seq::empty(),
        Some(v) => pairs_view(v@),
    }
}

impl View for RelationModel {
    type V = RelRowView;

    open spec fn view(&self) -> RelRowView {
        RelRowView {
            uuid: self.uuid,
            direction: opt_str_view(self.direction),
            relation: opt_str_view(self.relation),
            relates_to: opt_str_view(self.relates_to),
            name: self.name@,
            node_type: self.node_type@,
        }
    }
}

/// The scanned-row value a stored row yields: its traversal columns.
pub open spec fn proj_row(r: RowView) -> RelRowView {
    RelRowView {
        uuid: r.uuid,
        direction: r.direction,
        relation: r.relation,
        relates_to: r.relates_to,
        name: r.name,
        node_type: r.node_type,
    }
}

impl View for NodeModel {
    type V = RowView;

    open spec fn view(&self) -> RowView {
        RowView {
            uuid: self.uuid,
            direction: opt_str_view(self.direction),
            relation: opt_str_view(self.relation),
            relates_to: opt_str_view(self.relates_to),
            name: self.name@,
            ingestion_id: self.ingestion_id@,
            path: self.path@,
            node_type: self.node_type@,
            tags: opt_tags_view(self.tags),
        }
    }
}

/// Whether a row is a self-row: both clustering columns empty.
pub open spec fn is_self_row(r: RowView) -> bool {
    r.direction.len() == 0 && r.relation.len() == 0
}

/// The self-row of the node at `path`.
pub open spec fn spec_self_row(
    id: u128,
    ingestion_id: Seq<char>,
    path: Seq<char>,
    name: Seq<char>,
    node_type: Seq<char>,
    tags: Seq<(Seq<char>, Seq<char>)>,
) -> RowView {
    RowView {
        uuid: id,
        direction: Seq::empty(),
        relation: Seq::empty(),
        relates_to: Seq::empty(),
        name: name,
        ingestion_id: ingestion_id,
        path: path,
        node_type: node_type,
        tags: tags,
    }
}

/// An edge row in the partition of node `id`: the peer is named and
/// referenced by its identifier text, and the record columns stay empty.
pub open spec fn spec_edge_row(
    id: u128,
    ingestion_id: Seq<char>,
    direction: Seq<char>,
    relation: Seq<char>,
    relates_to: Seq<char>,
    name: Seq<char>,
) -> RowView {
    RowView {
        uuid: id,
        direction: direction,
        relation: relation,
        relates_to: relates_to,
        name: name,
        ingestion_id: ingestion_id,
        path: Seq::empty(),
        node_type: Seq::empty(),
        tags: Seq::empty(),
    }
}

impl NodeModel {
    /// Builds the self-row for the node at `path`, deriving its identifier
    /// from `(ingestion_id, path)`.
    pub(crate) fn root(
        ingestion_id: String,
        path: String,
        name: String,
        node_type: String,
        raw_tags: Vec<RawTag>,
    ) -> (r: Self)
        ensures
            r@ == spec_self_row(
                crate::identity::spec_node_id(ingestion_id@, path@),
                ingestion_id@,
                path@,
                name@,
                node_type@,
                tags_view(Some(raw_tags)),
            ),
    {
        let id = path_to_uuid(ingestion_id.as_str(), path.as_str());
        let tags: Vec<(String, String)> = crate::input::extract_tag_pairs(raw_tags);
        Self {
            uuid: id,
            direction: None,
            relation: None,
            relates_to: None,
            name: name,
            ingestion_id: ingestion_id,
            path: path,
            node_type: node_type,
            tags: Some(tags),
        }
    }

    /// Builds an edge row of `uuid`'s partition from explicit column values.
    pub(crate) fn relation(
        uuid: u128,
        ingestion_id: String,
        direction: String,
        relation: String,
        relates_to: String,
        relates_to_name: String,
    ) -> (r: Self)
        ensures
            r@ == spec_edge_row(
                uuid,
                ingestion_id@,
                direction@,
                relation@,
                relates_to@,
                relates_to_name@,
            ),
    {
        let r = Self {
            uuid,
            direction: Some(direction),
            relation: Some(relation),
            relates_to: Some(relates_to),
            name: relates_to_name,
            ingestion_id,
            path: "".to_owned(),
            node_type: "".to_owned(),
            tags: None,
        };
        proof {
            reveal_strlit("");
            assert(r@ =~= spec_edge_row(
                uuid,
                r.ingestion_id@,
                opt_str_view(r.direction),
                opt_str_view(r.relation),
                opt_str_view(r.relates_to),
                r.name@,
            ));
        }
        r
    }

    /// Builds the edge row an indexed relation contributes to `uuid`'s
    /// partition.
    pub(crate) fn from_relation(uuid: u128, ingestion_id: String, relation: &Relation) -> (r: Self)
        ensures
            r@ == spec_edge_row(
                uuid,
                ingestion_id@,
                if relation.outbound {
                    "Out"@
                } else {
                    "In"@
                },
                relation.rel_type@,
                relation.relates_to@,
                relation.target_name@,
            ),
    {
        let direction = if relation.outbound {
            Direction::Out
        } else {
            Direction::In
        };
        let r = Self {
            uuid,
            direction: Some(direction.as_string()),
            relation: Some(relation.rel_type.clone()),
            relates_to: Some(relation.relates_to.clone()),
            name: relation.target_name.clone(),
            ingestion_id,
            path: "".to_owned(),
            node_type: "".to_owned(),
            tags: None,
        };
        proof {
            reveal_strlit("");
            assert(r@ =~= spec_edge_row(
                uuid,
                r.ingestion_id@,
                if relation.outbound {
                    "Out"@
                } else {
                    "In"@
                },
                relation.rel_type@,
                relation.relates_to@,
                relation.target_name@,
            ));
        }
        r
    }
}

/// Copies an optional text column.
pub fn clone_opt_string(o: &Option<String>) -> (r: Option<String>)
    ensures
        opt_str_view(r) == opt_str_view(*o),
        r is Some <==> *o is Some,
{
    match o {
        None => None,
        Some(s) => Some(s.clone()),
    }
}

impl NodeModel {
    /// Copies a stored row field by field.
    pub fn duplicate(&self) -> (r: Self)
        ensures
            r@ == self@,
    {
        let tags: Option<Vec<(String, String)>> = match &self.tags {
            None => None,
            Some(v) => Some(clone_pairs(v)),
        };
        let r = NodeModel {
            uuid: self.uuid,
            direction: clone_opt_string(&self.direction),
            relation: clone_opt_string(&self.relation),
            relates_to: clone_opt_string(&self.relates_to),
            name: self.name.clone(),
            ingestion_id: self.ingestion_id.clone(),
            path: self.path.clone(),
            node_type: self.node_type.clone(),
            tags: tags,
        };
        proof {
            assert(r@ =~= self@);
        }
        r
    }

    /// The traversal columns of a stored row.
    pub fn to_scan_row(&self) -> (r: RelationModel)
        ensures
            r@ == proj_row(self@),
    {
        let r = RelationModel {
            uuid: self.uuid,
            direction: clone_opt_string(&self.direction),
            relation: clone_opt_string(&self.relation),
            relates_to: clone_opt_string(&self.relates_to),
            name: self.name.clone(),
            node_type: self.node_type.clone(),
        };
        proof {
            assert(r@ =~= proj_row(self@));
        }
        r
    }
}

impl RelationModel {
    /// Copies a scanned row field by field.
    pub fn duplicate(&self) -> (r: Self)
        ensures
            r@ == self@,
    {
        let r = RelationModel {
            uuid: self.uuid,
            direction: clone_opt_string(&self.direction),
            relation: clone_opt_string(&self.relation),
            relates_to: clone_opt_string(&self.relates_to),
            name: self.name.clone(),
            node_type: self.node_type.clone(),
        };
        proof {
            assert(r@ =~= self@);
        }
        r
    }
}

} // verus!
