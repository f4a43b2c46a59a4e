//! The storage gateway's row semantics: an append-only row table keyed by
//! node identifier, with the point read and the partition scan the read
//! paths are built on. The scan models the clustering predicate
//! `direction IN ('', d) AND relation IN ('', r)`, with the self-row group
//! ahead of the edge group.

use vstd::prelude::*;

use crate::flatten::rows_view;
use crate::input::clone_pairs;
use crate::node::{Node, NodeView};
use crate::relations::{Relation, RelationView};
use crate::rows::{is_self_row, opt_str_view, proj_row, NodeModel, RelationModel, RowView};
use crate::strutil::str_eq;
use crate::uuid_text::{parse_uuid, spec_parse_uuid};

verus! {

/// The in-memory row table: every inserted row, in insertion order.
pub struct NodeStore {
    pub rows: Vec<NodeModel>,
}

impl View for NodeStore {
    type V = Seq<RowView>;

    open spec fn view(&self) -> Seq<RowView> {
        rows_view(self.rows@)
    }
}

/// The value of an optional text argument.
pub open spec fn opt_text(o: Option<String>) -> Option<Seq<char>> {
    match o {
        None => None,
        Some(s) => Some(s@),
    }
}

/// Whether a row's `relation` column passes the scan's relation predicate:
/// `relation IN ('', r)` when a kind `r` is given, no constraint otherwise.
pub open spec fn rel_matches(relation: Seq<char>, rel: Option<Seq<char>>) -> bool {
    relation.len() == 0 || (match rel {
        Some(k) => relation == k,
        None => true,
    })
}

/// The rows the scan's self group keeps: partition `id`, empty direction,
/// matching relation.
pub open spec fn self_pred(id: u128, rel: Option<Seq<char>>) -> spec_fn(RowView) -> bool {
    |r: RowView| r.uuid == id && r.direction.len() == 0 && rel_matches(r.relation, rel)
}

/// The rows the scan's edge group keeps: partition `id`, the requested
/// direction, matching relation.
pub open spec fn edge_pred(id: u128, dir: Seq<char>, rel: Option<Seq<char>>) -> spec_fn(
    RowView,
) -> bool {
    |r: RowView| r.uuid == id && r.direction == dir && rel_matches(r.relation, rel)
}

/// A partition scan: the matching self group, then the matching edge group,
/// each in insertion order.
pub open spec fn spec_scan(rows: Seq<RowView>, id: u128, dir: Seq<char>, rel: Option<Seq<char>>) -> Seq<
    RowView,
> {
    rows.filter(self_pred(id, rel)) + rows.filter(edge_pred(id, dir, rel))
}

/// The self-rows of partition `id`.
pub open spec fn self_row_pred(id: u128) -> spec_fn(RowView) -> bool {
    |r: RowView| r.uuid == id && is_self_row(r)
}

/// The edge rows of partition `id`.
pub open spec fn edge_row_pred(id: u128) -> spec_fn(RowView) -> bool {
    |r: RowView| r.uuid == id && !is_self_row(r)
}

/// The served edge an edge row denotes.
pub open spec fn edge_to_relation(r: RowView) -> RelationView {
    RelationView {
        rel_type: r.relation,
        outbound: r.direction == "Out"@,
        target_name: r.name,
        relates_to: r.relates_to,
    }
}

/// A point read of partition `id`: `None` without a self-row; otherwise the
/// first self-row's record, with tags when the tag or edge columns were
/// requested, and with the partition's edges when edges were requested.
pub open spec fn spec_get_node(
    rows: Seq<RowView>,
    id: u128,
    include_tags: bool,
    include_relations: bool,
) -> Option<NodeView> {
    let selfs = rows.filter(self_row_pred(id));
    if selfs.len() == 0 {
        None
    } else {
        Some(
            NodeView {
                uuid: selfs[0].uuid,
                ingestion_id: selfs[0].ingestion_id,
                name: selfs[0].name,
                path: selfs[0].path,
                node_type: selfs[0].node_type,
                tags: if include_tags || include_relations {
                    selfs[0].tags
                } else {
                    Seq::empty()
                },
                relations: if include_relations {
                    rows.filter(edge_row_pred(id)).map_values(|e: RowView| edge_to_relation(e))
                } else {
                    Seq::empty()
                },
            },
        )
    }
}

/// The value of an optional served node.
pub open spec fn opt_node_view(r: Option<Node>) -> Option<NodeView> {
    match r {
        None => None,
        Some(n) => Some(n@),
    }
}

/// A failed point read by identifier text.
#[derive(Debug, Clone, PartialEq, Eq, Structural)]
pub enum StoreError {
    /// The identifier text did not parse.
    InvalidId,
    /// The partition holds no self-row.
    NotFound,
}

/// The predicate of one scan group: the self group when `dir` is absent,
/// else the edge group for direction `dir`.
pub open spec fn group_pred(id: u128, dir: Option<Seq<char>>, rel: Option<Seq<char>>) -> spec_fn(
    RowView,
) -> bool {
    match dir {
        None => self_pred(id, rel),
        Some(d) => edge_pred(id, d, rel),
    }
}

fn opt_is_empty(o: &Option<String>) -> (b: bool)
    ensures
        b == (opt_str_view(*o).len() == 0),
{
    match o {
        None => true,
        Some(s) => s.as_str().is_empty(),
    }
}

fn opt_eq_str(o: &Option<String>, k: &str) -> (b: bool)
    ensures
        b == (opt_str_view(*o) == k@),
{
    match o {
        None => {
            let r = k.is_empty();
            proof {
                if r {
                    assert(opt_str_view(*o) =~= k@);
                }
            }
            r
        },
        Some(s) => str_eq(s.as_str(), k),
    }
}

fn opt_unwrap_or_empty(o: &Option<String>) -> (r: String)
    ensures
        r@ == opt_str_view(*o),
{
    match o {
        Some(s) => s.clone(),
        None => String::new(),
    }
}

fn rel_matches_exec(relation: &Option<String>, rel: &Option<String>) -> (b: bool)
    ensures
        b == rel_matches(opt_str_view(*relation), opt_text(*rel)),
{
    if opt_is_empty(relation) {
        true
    } else {
        match rel {
            Some(k) => opt_eq_str(relation, k.as_str()),
            None => true,
        }
    }
}

fn is_self_row_exec(row: &NodeModel) -> (b: bool)
    ensures
        b == is_self_row(row@),
{
    opt_is_empty(&row.direction) && opt_is_empty(&row.relation)
}

/// Every element of a filtered sequence occurs in the sequence it was
/// filtered from.
proof fn lemma_filter_elem_in(s: Seq<RowView>, pred: spec_fn(RowView) -> bool, i: int)
    requires
        0 <= i < s.filter(pred).len(),
    ensures
        exists|j: int| 0 <= j < s.len() && s[j] == s.filter(pred)[i],
    decreases s.len(),
{
    reveal(Seq::filter);
    if s.len() > 0 {
        let sub = s.drop_last().filter(pred);
        if pred(s.last()) && i == sub.len() {
            assert(s[s.len() - 1] == s.filter(pred)[i]);
        } else {
            lemma_filter_elem_in(s.drop_last(), pred, i);
            let j = choose|j: int|
                0 <= j < s.drop_last().len() && s.drop_last()[j] == s.drop_last().filter(pred)[i];
            assert(s[j] == s.filter(pred)[i]);
        }
    }
}

impl NodeStore {
    /// An empty row table.
    pub fn new() -> (r: Self)
        ensures
            r@ == Seq::<RowView>::empty(),
    {
        let r = NodeStore { rows: Vec::new() };
        proof {
            assert(r@ =~= Seq::<RowView>::empty());
        }
        r
    }

    /// Appends one row.
    pub fn insert_node(&mut self, node: NodeModel)
        ensures
            final(self)@ == old(self)@.push(node@),
    {
        self.rows.push(node);
        proof {
            assert(self@ =~= old(self)@.push(self.rows@.last()@));
        }
    }

    /// Appends every produced row. The store is append-only: rows are never
    /// updated or deleted.
    pub fn insert_nodes(&mut self, nodes: Vec<NodeModel>)
        ensures
            final(self)@ == old(self)@ + rows_view(nodes@),
    {
        let n = nodes.len();
        for i in 0..n
            invariant
                n == nodes@.len(),
                self@ == old(self)@ + rows_view(nodes@.subrange(0, i as int)),
        {
            let ghost pre = self@;
            self.rows.push(nodes[i].duplicate());
            proof {
                let d = nodes@[i as int]@;
                assert(self.rows@.last()@ == d);
                assert(self@ =~= pre.push(d));
                assert(nodes@.subrange(0, i + 1) =~= nodes@.subrange(0, i as int).push(
                    nodes@[i as int],
                ));
                assert(rows_view(nodes@.subrange(0, i + 1)) =~= rows_view(
                    nodes@.subrange(0, i as int),
                ).push(d));
                assert(self@ =~= old(self)@ + rows_view(nodes@.subrange(0, i + 1)));
            }
        }
        proof {
            assert(nodes@.subrange(0, n as int) =~= nodes@);
        }
    }

    fn collect_scan_group(&self, id: u128, dir: &Option<String>, rel: &Option<String>) -> (r: Vec<
        RelationModel,
    >)
        ensures
            r@.map_values(|m: RelationModel| m@) == self@.filter(
                group_pred(id, opt_text(*dir), opt_text(*rel)),
            ).map_values(|x: RowView| proj_row(x)),
    {
        let ghost pred = group_pred(id, opt_text(*dir), opt_text(*rel));
        let mut r: Vec<RelationModel> = Vec::new();
        let n = self.rows.len();
        proof {
            reveal(Seq::filter);
            assert(self@.subrange(0, 0) =~= Seq::<RowView>::empty());
        }
        for i in 0..n
            invariant
                n == self.rows@.len(),
                self@ == rows_view(self.rows@),
                self@.len() == n,
                pred == group_pred(id, opt_text(*dir), opt_text(*rel)),
                r@.map_values(|m: RelationModel| m@) == self@.subrange(0, i as int).filter(
                    pred,
                ).map_values(|x: RowView| proj_row(x)),
        {
            let row = &self.rows[i];
            let keep = if row.uuid == id {
                let dir_ok = match dir {
                    None => opt_is_empty(&row.direction),
                    Some(d) => opt_eq_str(&row.direction, d.as_str()),
                };
                dir_ok && rel_matches_exec(&row.relation, rel)
            } else {
                false
            };
            proof {
                assert(keep == pred(row@));
            }
            let ghost prem = r@.map_values(|m: RelationModel| m@);
            if keep {
                r.push(row.to_scan_row());
            }
            proof {
                reveal(Seq::filter);
                let pre = self@.subrange(0, i as int);
                let cur = self@.subrange(0, i + 1);
                assert(cur.drop_last() =~= pre);
                assert(cur.last() == self@[i as int]);
                assert(self@[i as int] == row@);
                if keep {
                    assert(r@.last()@ == proj_row(row@));
                    assert(r@.map_values(|m: RelationModel| m@) =~= prem.push(proj_row(row@)));
                    assert(cur.filter(pred) == pre.filter(pred).push(row@));
                    assert(cur.filter(pred).map_values(|x: RowView| proj_row(x)) =~= pre.filter(
                        pred,
                    ).map_values(|x: RowView| proj_row(x)).push(proj_row(row@)));
                } else {
                    assert(cur.filter(pred) == pre.filter(pred));
                }
                assert(r@.map_values(|m: RelationModel| m@) =~= cur.filter(pred).map_values(
                    |x: RowView| proj_row(x),
                ));
            }
        }
        proof {
            assert(self@.subrange(0, n as int) =~= self@);
        }
        r
    }

    /// The partition scan behind traversal: the rows of partition `uuid`
    /// whose direction is empty or equals `direction` and whose relation is
    /// empty or equals `relation_type`, self group first; `None` when
    /// nothing matches.
    pub fn get_node_traversal(
        &self,
        uuid: u128,
        direction: String,
        relation_type: Option<String>,
    ) -> (r: Option<Vec<RelationModel>>)
        requires
            direction@ == "In"@ || direction@ == "Out"@,
        ensures
            match r {
                None => spec_scan(self@, uuid, direction@, opt_text(relation_type)).len() == 0,
                Some(v) => v@.len() > 0 && v@.map_values(|m: RelationModel| m@) == spec_scan(
                    self@,
                    uuid,
                    direction@,
                    opt_text(relation_type),
                ).map_values(|x: RowView| proj_row(x)),
            },
    {
        let none_dir: Option<String> = None;
        let some_dir: Option<String> = Some(direction);
        let mut rels = self.collect_scan_group(uuid, &none_dir, &relation_type);
        let edges = self.collect_scan_group(uuid, &some_dir, &relation_type);
        let ghost selfs_map = rels@.map_values(|m: RelationModel| m@);
        let ghost edges_map = edges@.map_values(|m: RelationModel| m@);
        let m = edges.len();
        for j in 0..m
            invariant
                m == edges@.len(),
                edges@.map_values(|mm: RelationModel| mm@) == edges_map,
                rels@.map_values(|mm: RelationModel| mm@) == selfs_map + edges_map.subrange(
                    0,
                    j as int,
                ),
        {
            let ghost prem = rels@.map_values(|mm: RelationModel| mm@);
            rels.push(edges[j].duplicate());
            proof {
                assert(edges@[j as int]@ == edges_map[j as int]);
                assert(rels@.last()@ == edges_map[j as int]);
                assert(rels@.map_values(|mm: RelationModel| mm@) =~= prem.push(
                    edges_map[j as int],
                ));
                assert(edges_map.subrange(0, j + 1) =~= edges_map.subrange(0, j as int).push(
                    edges_map[j as int],
                ));
                assert(rels@.map_values(|mm: RelationModel| mm@) =~= selfs_map
                    + edges_map.subrange(0, j + 1));
            }
        }
        proof {
            assert(edges_map.subrange(0, m as int) =~= edges_map);
        }
        if rels.is_empty() {
            proof {
                assert(rels@.map_values(|mm: RelationModel| mm@).len() == 0);
                assert(spec_scan(self@, uuid, direction@, opt_text(relation_type)).map_values(
                    |x: RowView| proj_row(x),
                ).len() == 0);
            }
            None
        } else {
            proof {
                assert(rels@.map_values(|mm: RelationModel| mm@) =~= spec_scan(
                    self@,
                    uuid,
                    direction@,
                    opt_text(relation_type),
                ).map_values(|x: RowView| proj_row(x)));
            }
            Some(rels)
        }
    }

    fn collect_partition_selfs(&self, id: u128) -> (r: Vec<NodeModel>)
        ensures
            rows_view(r@) == self@.filter(self_row_pred(id)),
    {
        let mut r: Vec<NodeModel> = Vec::new();
        let n = self.rows.len();
        proof {
            reveal(Seq::filter);
            assert(self@.subrange(0, 0) =~= Seq::<RowView>::empty());
        }
        for i in 0..n
            invariant
                n == self.rows@.len(),
                self@ == rows_view(self.rows@),
                self@.len() == n,
                rows_view(r@) == self@.subrange(0, i as int).filter(self_row_pred(id)),
        {
            let row = &self.rows[i];
            if row.uuid == id && is_self_row_exec(row) {
                r.push(row.duplicate());
            }
            proof {
                reveal(Seq::filter);
                let pre = self@.subrange(0, i as int);
                let cur = self@.subrange(0, i + 1);
                assert(cur.drop_last() =~= pre);
                assert(cur.last() == self@[i as int]);
                assert(self@[i as int] == row@);
                assert(rows_view(r@) =~= cur.filter(self_row_pred(id)));
            }
        }
        proof {
            assert(self@.subrange(0, n as int) =~= self@);
        }
        r
    }

    fn collect_partition_edges(&self, id: u128) -> (r: Vec<Relation>)
        ensures
            r@.map_values(|rel: Relation| rel@) == self@.filter(edge_row_pred(id)).map_values(
                |e: RowView| edge_to_relation(e),
            ),
    {
        let mut r: Vec<Relation> = Vec::new();
        let n = self.rows.len();
        proof {
            reveal(Seq::filter);
            assert(self@.subrange(0, 0) =~= Seq::<RowView>::empty());
        }
        for i in 0..n
            invariant
                n == self.rows@.len(),
                self@ == rows_view(self.rows@),
                self@.len() == n,
                r@.map_values(|rel: Relation| rel@) == self@.subrange(0, i as int).filter(
                    edge_row_pred(id),
                ).map_values(|e: RowView| edge_to_relation(e)),
        {
            let row = &self.rows[i];
            let ghost prem = r@.map_values(|rel: Relation| rel@);
            let keep = row.uuid == id && !is_self_row_exec(row);
            if keep {
                let outbound = opt_eq_str(&row.direction, "Out");
                let rel = Relation {
                    rel_type: opt_unwrap_or_empty(&row.relation),
                    outbound: outbound,
                    target_name: row.name.clone(),
                    relates_to: opt_unwrap_or_empty(&row.relates_to),
                };
                proof {
                    assert(rel@ =~= edge_to_relation(row@));
                }
                r.push(rel);
            }
            proof {
                reveal(Seq::filter);
                let pre = self@.subrange(0, i as int);
                let cur = self@.subrange(0, i + 1);
                assert(cur.drop_last() =~= pre);
                assert(cur.last() == self@[i as int]);
                assert(self@[i as int] == row@);
                assert(keep == edge_row_pred(id)(row@));
                if keep {
                    assert(r@.last()@ == edge_to_relation(row@));
                    assert(r@.map_values(|rel: Relation| rel@) =~= prem.push(
                        edge_to_relation(row@),
                    ));
                    assert(cur.filter(edge_row_pred(id)) == pre.filter(edge_row_pred(id)).push(
                        row@,
                    ));
                    assert(cur.filter(edge_row_pred(id)).map_values(|e: RowView| edge_to_relation(e))
                        =~= pre.filter(edge_row_pred(id)).map_values(
                        |e: RowView| edge_to_relation(e),
                    ).push(edge_to_relation(row@)));
                } else {
                    assert(cur.filter(edge_row_pred(id)) == pre.filter(edge_row_pred(id)));
                }
                assert(r@.map_values(|rel: Relation| rel@) =~= cur.filter(
                    edge_row_pred(id),
                ).map_values(|e: RowView| edge_to_relation(e)));
            }
        }
        proof {
            assert(self@.subrange(0, n as int) =~= self@);
        }
        r
    }

    /// A point read: `None` when partition `uuid` holds no self-row, else
    /// the node's record, with tags and edges as requested.
    pub fn get_node(&self, uuid: u128, include_tags: bool, include_relations: bool) -> (r: Option<
        Node,
    >)
        ensures
            opt_node_view(r) == spec_get_node(self@, uuid, include_tags, include_relations),
    {
        let selfs = self.collect_partition_selfs(uuid);
        if selfs.is_empty() {
            proof {
                assert(rows_view(selfs@).len() == 0);
            }
            return None;
        }
        let ghost spec_selfs = self@.filter(self_row_pred(uuid));
        proof {
            assert(selfs@[0]@ == rows_view(selfs@)[0]);
            assert(rows_view(selfs@)[0] == spec_selfs[0]);
        }
        let s = &selfs[0];
        let tags: Vec<(String, String)> = if include_tags || include_relations {
            match &s.tags {
                Some(v) => clone_pairs(v),
                None => Vec::new(),
            }
        } else {
            Vec::new()
        };
        let relations: Vec<Relation> = if include_relations {
            self.collect_partition_edges(uuid)
        } else {
            Vec::new()
        };
        let node = Node {
            uuid: s.uuid,
            ingestion_id: s.ingestion_id.clone(),
            name: s.name.clone(),
            path: s.path.clone(),
            node_type: s.node_type.clone(),
            tags: tags,
            relations: relations,
        };
        proof {
            assert(node@ =~= spec_get_node(self@, uuid, include_tags, include_relations)->0);
        }
        Some(node)
    }

    /// A point read by identifier text: rejects text that is not an
    /// identifier, and misses when the partition holds no self-row.
    pub fn get_node_by_id(&self, id: &str) -> (r: Result<Node, StoreError>)
        ensures
            spec_parse_uuid(id@) is None ==> r == Err::<Node, StoreError>(StoreError::InvalidId),
            spec_parse_uuid(id@) matches Some(u) ==> (spec_get_node(self@, u, true, true) is None
                ==> r == Err::<Node, StoreError>(StoreError::NotFound)),
            spec_parse_uuid(id@) matches Some(u) ==> (spec_get_node(
                self@,
                u,
                true,
                true,
            ) matches Some(nv) ==> (r matches Ok(node) && node@ == nv)),
    {
        let uuid = match parse_uuid(id) {
            Some(u) => u,
            None => {
                return Err(StoreError::InvalidId);
            },
        };
        match self.get_node(uuid, true, true) {
            Some(node) => Ok(node),
            None => Err(StoreError::NotFound),
        }
    }
}

/// Every stored row is either a self-row or carries a non-empty direction;
/// rows the flattener produces are of this shape.
pub open spec fn rows_wf(rows: Seq<RowView>) -> bool {
    forall|i: int|
        0 <= i < rows.len() ==> (is_self_row(rows[i]) || rows[i].direction.len() > 0)
}

/// Every partition holding any row holds a self-row.
pub open spec fn self_covered(rows: Seq<RowView>) -> bool {
    forall|i: int|
        0 <= i < rows.len() ==> exists|j: int|
            0 <= j < rows.len() && (#[trigger] rows[j]).uuid == (#[trigger] rows[i]).uuid
                && is_self_row(rows[j])
}

/// Self-row first: on a well-formed, self-covered table, every non-empty
/// partition scan starts with a row whose direction and relation are both
/// empty.
pub proof fn lemma_self_row_first(
    rows: Seq<RowView>,
    id: u128,
    dir: Seq<char>,
    rel: Option<Seq<char>>,
)
    requires
        rows_wf(rows),
        self_covered(rows),
        dir.len() > 0,
        spec_scan(rows, id, dir, rel).len() > 0,
    ensures
        is_self_row(spec_scan(rows, id, dir, rel)[0]),
{
    let selfs = rows.filter(self_pred(id, rel));
    let edges = rows.filter(edge_pred(id, dir, rel));
    if selfs.len() > 0 {
        Seq::lemma_filter_pred(rows, self_pred(id, rel), 0);
        lemma_filter_elem_in(rows, self_pred(id, rel), 0);
        let j = choose|j: int| 0 <= j < rows.len() && rows[j] == selfs[0];
        assert(is_self_row(rows[j]) || rows[j].direction.len() > 0);
        assert(spec_scan(rows, id, dir, rel)[0] == selfs[0]);
    } else {
        assert(edges.len() > 0);
        Seq::lemma_filter_pred(rows, edge_pred(id, dir, rel), 0);
        lemma_filter_elem_in(rows, edge_pred(id, dir, rel), 0);
        let j = choose|j: int| 0 <= j < rows.len() && rows[j] == edges[0];
        assert(rows[j].uuid == id);
        let k = choose|k: int|
            0 <= k < rows.len() && rows[k].uuid == rows[j].uuid && is_self_row(rows[k]);
        assert(self_pred(id, rel)(rows[k]));
        Seq::lemma_filter_contains(rows, self_pred(id, rel), k);
        assert(selfs.contains(rows[k]));
        assert(false);
    }
}

} // verus!
