//! Laws relating the relation indexer, the flattener and the store: the
//! row-fanout count, the symmetry of indexed relation edges, and the
//! round trip from flattened rows back to a served node.

use vstd::prelude::*;

use crate::flatten::{
    child_rows, flatten_rows, node_head_rows, parent_edge_rows, relation_rows, spec_child_path,
};
use crate::identity::spec_node_id;
use crate::input::{tags_view, RawNode, RawRelation};
use crate::node::NodeView;
use crate::relations::{
    endpoint_path, peer_name, rel_edges, rel_entries, rel_entry_pair, RelationView,
};
use crate::rows::{is_self_row, spec_edge_row, RowView};
use crate::store::{edge_row_pred, edge_to_relation, self_row_pred, spec_get_node};
use crate::uuid_text::uuid_text;

verus! {

/// The number of nodes in a forest.
pub open spec fn node_count(nodes: Seq<RawNode>) -> nat
    decreases nodes,
{
    if nodes.len() == 0 {
        0
    } else {
        1 + node_count(nodes[0].children@) + node_count(nodes.drop_first())
    }
}

/// The number of outbound child edges a forest emits.
pub open spec fn child_edge_count(nodes: Seq<RawNode>) -> nat
    decreases nodes,
{
    if nodes.len() == 0 {
        0
    } else {
        nodes[0].children@.len() + child_edge_count(nodes[0].children@) + child_edge_count(
            nodes.drop_first(),
        )
    }
}

/// The number of inbound parent edges a forest emits when its top nodes do
/// (`has_parent`) or do not have a parent.
pub open spec fn parent_edge_count(nodes: Seq<RawNode>, has_parent: bool) -> nat
    decreases nodes,
{
    if nodes.len() == 0 {
        0
    } else {
        (if has_parent {
            1nat
        } else {
            0nat
        }) + parent_edge_count(nodes[0].children@, true) + parent_edge_count(
            nodes.drop_first(),
            has_parent,
        )
    }
}

/// The number of indexed relation edges the forest's nodes pick up.
pub open spec fn relation_hit_count(
    index: Seq<(Seq<char>, RelationView)>,
    nodes: Seq<RawNode>,
    parent_path: Seq<char>,
) -> nat
    decreases nodes,
{
    if nodes.len() == 0 {
        0
    } else {
        let path = spec_child_path(parent_path, nodes[0].name@);
        rel_edges(index, path).len() + relation_hit_count(index, nodes[0].children@, path)
            + relation_hit_count(index, nodes.drop_first(), parent_path)
    }
}

/// The paths of a forest's nodes, in pre-order.
pub open spec fn tree_paths(nodes: Seq<RawNode>, parent_path: Seq<char>) -> Seq<Seq<char>>
    decreases nodes,
{
    if nodes.len() == 0 {
        Seq::empty()
    } else {
        let path = spec_child_path(parent_path, nodes[0].name@);
        seq![path] + tree_paths(nodes[0].children@, path) + tree_paths(
            nodes.drop_first(),
            parent_path,
        )
    }
}

/// Row-fanout law: a forest flattens to one self-row per node, one parent
/// edge per non-root node (plus one per top node when a parent is given),
/// one child edge per child link, and one row per indexed relation edge its
/// paths pick up.
pub proof fn lemma_row_fanout(
    ingestion_id: Seq<char>,
    nodes: Seq<RawNode>,
    parent_path: Seq<char>,
    parent: Option<(u128, Seq<char>)>,
    index: Seq<(Seq<char>, RelationView)>,
)
    ensures
        flatten_rows(ingestion_id, nodes, parent_path, parent, index).len() == node_count(nodes)
            + parent_edge_count(nodes, parent is Some) + child_edge_count(nodes)
            + relation_hit_count(index, nodes, parent_path),
    decreases nodes,
{
    if nodes.len() == 0 {
    } else {
        let n = nodes[0];
        let path = spec_child_path(parent_path, n.name@);
        let id = spec_node_id(ingestion_id, path);
        assert(parent_edge_rows(id, ingestion_id, parent).len() == (if parent is Some {
            1int
        } else {
            0int
        }));
        assert(relation_rows(id, ingestion_id, rel_edges(index, path)).len() == rel_edges(
            index,
            path,
        ).len());
        assert(child_rows(id, ingestion_id, path, n.children@).len() == n.children@.len());
        lemma_row_fanout(ingestion_id, n.children@, path, Some((id, n.name@)), index);
        lemma_row_fanout(ingestion_id, nodes.drop_first(), parent_path, parent, index);
    }
}

/// Every node of a forest whose top nodes have a parent emits exactly one
/// parent edge.
pub proof fn lemma_parent_edges_all(nodes: Seq<RawNode>)
    ensures
        parent_edge_count(nodes, true) == node_count(nodes),
    decreases nodes,
{
    if nodes.len() > 0 {
        lemma_parent_edges_all(nodes[0].children@);
        lemma_parent_edges_all(nodes.drop_first());
    }
}

/// In a rootless forest, the parent edges number the nodes minus the roots.
pub proof fn lemma_parent_edges_forest(nodes: Seq<RawNode>)
    ensures
        parent_edge_count(nodes, false) + nodes.len() == node_count(nodes),
    decreases nodes,
{
    if nodes.len() > 0 {
        lemma_parent_edges_all(nodes[0].children@);
        lemma_parent_edges_forest(nodes.drop_first());
    }
}

/// A relation list indexes to exactly two entries per relation.
pub proof fn lemma_rel_entries_len(ingestion_id: Seq<char>, rels: Seq<RawRelation>)
    ensures
        rel_entries(ingestion_id, rels).len() == 2 * rels.len(),
    decreases rels,
{
    if rels.len() > 0 {
        lemma_rel_entries_len(ingestion_id, rels.drop_last());
    }
}

/// The indexed edges found at each path of a list, summed.
pub open spec fn path_hits(index: Seq<(Seq<char>, RelationView)>, paths: Seq<Seq<char>>) -> nat
    decreases paths,
{
    if paths.len() == 0 {
        0
    } else {
        rel_edges(index, paths[0]).len() + path_hits(index, paths.drop_first())
    }
}

proof fn lemma_path_hits_concat(
    index: Seq<(Seq<char>, RelationView)>,
    a: Seq<Seq<char>>,
    b: Seq<Seq<char>>,
)
    ensures
        path_hits(index, a + b) == path_hits(index, a) + path_hits(index, b),
    decreases a,
{
    if a.len() == 0 {
        assert(a + b =~= b);
    } else {
        assert((a + b)[0] == a[0]);
        assert((a + b).drop_first() =~= a.drop_first() + b);
        lemma_path_hits_concat(index, a.drop_first(), b);
    }
}

/// The relation rows a forest picks up are the indexed edges found at its
/// paths.
pub proof fn lemma_hits_are_path_hits(
    index: Seq<(Seq<char>, RelationView)>,
    nodes: Seq<RawNode>,
    parent_path: Seq<char>,
)
    ensures
        relation_hit_count(index, nodes, parent_path) == path_hits(
            index,
            tree_paths(nodes, parent_path),
        ),
    decreases nodes,
{
    if nodes.len() > 0 {
        let path = spec_child_path(parent_path, nodes[0].name@);
        let pc = tree_paths(nodes[0].children@, path);
        let pr = tree_paths(nodes.drop_first(), parent_path);
        lemma_hits_are_path_hits(index, nodes[0].children@, path);
        lemma_hits_are_path_hits(index, nodes.drop_first(), parent_path);
        lemma_path_hits_concat(index, seq![path], pc + pr);
        lemma_path_hits_concat(index, pc, pr);
        assert(seq![path] + tree_paths(nodes[0].children@, path) + tree_paths(
            nodes.drop_first(),
            parent_path,
        ) =~= seq![path] + (pc + pr));
        assert(seq![path].drop_first() =~= Seq::<Seq<char>>::empty());
        assert(path_hits(index, Seq::<Seq<char>>::empty()) == 0);
        assert(path_hits(index, seq![path]) == rel_edges(index, path).len());
    }
}

/// How often `x` occurs in a path list.
pub open spec fn count_eq(paths: Seq<Seq<char>>, x: Seq<char>) -> nat
    decreases paths,
{
    if paths.len() == 0 {
        0
    } else {
        (if paths[0] == x {
            1nat
        } else {
            0nat
        }) + count_eq(paths.drop_first(), x)
    }
}

/// A path list without repeats.
pub open spec fn distinct_paths(paths: Seq<Seq<char>>) -> bool {
    forall|i: int, j: int| 0 <= i < j < paths.len() ==> paths[i] != paths[j]
}

proof fn lemma_path_hits_empty_index(paths: Seq<Seq<char>>)
    ensures
        path_hits(Seq::empty(), paths) == 0,
    decreases paths,
{
    if paths.len() > 0 {
        lemma_path_hits_empty_index(paths.drop_first());
    }
}

proof fn lemma_rel_edges_push(
    index: Seq<(Seq<char>, RelationView)>,
    e: (Seq<char>, RelationView),
    p: Seq<char>,
)
    ensures
        rel_edges(index.push(e), p).len() == rel_edges(index, p).len() + (if e.0 == p {
            1int
        } else {
            0int
        }),
{
    assert(index.push(e).drop_last() =~= index);
    assert(index.push(e).last() == e);
}

proof fn lemma_path_hits_push(
    index: Seq<(Seq<char>, RelationView)>,
    e: (Seq<char>, RelationView),
    paths: Seq<Seq<char>>,
)
    ensures
        path_hits(index.push(e), paths) == path_hits(index, paths) + count_eq(paths, e.0),
    decreases paths,
{
    if paths.len() > 0 {
        lemma_rel_edges_push(index, e, paths[0]);
        lemma_path_hits_push(index, e, paths.drop_first());
    }
}

proof fn lemma_count_eq_one(paths: Seq<Seq<char>>, x: Seq<char>)
    requires
        distinct_paths(paths),
    ensures
        paths.contains(x) ==> count_eq(paths, x) == 1,
        !paths.contains(x) ==> count_eq(paths, x) == 0,
    decreases paths,
{
    if paths.len() > 0 {
        let rest = paths.drop_first();
        assert(distinct_paths(rest)) by {
            assert(forall|i: int, j: int|
                0 <= i < j < rest.len() ==> rest[i] == paths[i + 1] && rest[j] == paths[j + 1]);
        }
        lemma_count_eq_one(rest, x);
        if paths[0] == x {
            assert(!rest.contains(x)) by {
                if rest.contains(x) {
                    let j = choose|j: int| 0 <= j < rest.len() && rest[j] == x;
                    assert(paths[j + 1] == x && paths[0] == x);
                }
            }
        } else {
            if paths.contains(x) {
                let i = choose|i: int| 0 <= i < paths.len() && paths[i] == x;
                assert(rest[i - 1] == x);
                assert(rest.contains(x));
            } else {
                assert(!rest.contains(x)) by {
                    if rest.contains(x) {
                        let j = choose|j: int| 0 <= j < rest.len() && rest[j] == x;
                        assert(paths[j + 1] == x);
                    }
                }
            }
        }
    }
}

/// When every index entry's path occurs exactly once in a path list, the
/// edges found over the list number the index entries.
pub proof fn lemma_path_hits_total(
    index: Seq<(Seq<char>, RelationView)>,
    paths: Seq<Seq<char>>,
)
    requires
        distinct_paths(paths),
        forall|k: int| 0 <= k < index.len() ==> paths.contains((#[trigger] index[k]).0),
    ensures
        path_hits(index, paths) == index.len(),
    decreases index,
{
    if index.len() == 0 {
        lemma_path_hits_empty_index(paths);
        assert(path_hits(index, paths) == path_hits(Seq::empty(), paths)) by {
            assert(index =~= Seq::<(Seq<char>, RelationView)>::empty());
        }
    } else {
        let d = index.drop_last();
        let e = index.last();
        assert(forall|k: int| 0 <= k < d.len() ==> paths.contains((#[trigger] d[k]).0)) by {
            assert(forall|k: int| 0 <= k < d.len() ==> d[k] == index[k]);
        }
        lemma_path_hits_total(d, paths);
        lemma_path_hits_push(d, e, paths);
        assert(d.push(e) =~= index);
        lemma_count_eq_one(paths, e.0);
        assert(paths.contains(e.0));
    }
}

/// Row-fanout law for a whole document: with `N` nodes at distinct paths,
/// `roots` top-level nodes, `C` child links and `R` relations whose
/// endpoint paths all name document nodes, flattening produces exactly
/// `N + (N - roots) + C + 2 R` rows.
pub proof fn lemma_row_fanout_document(
    ingestion_id: Seq<char>,
    nodes: Seq<RawNode>,
    rels: Seq<RawRelation>,
)
    requires
        distinct_paths(tree_paths(nodes, Seq::empty())),
        forall|k: int|
            0 <= k < rel_entries(ingestion_id, rels).len() ==> tree_paths(
                nodes,
                Seq::empty(),
            ).contains((#[trigger] rel_entries(ingestion_id, rels)[k]).0),
    ensures
        flatten_rows(ingestion_id, nodes, Seq::empty(), None, rel_entries(ingestion_id, rels)).len()
            + nodes.len() == 2 * node_count(nodes) + child_edge_count(nodes) + 2 * rels.len(),
{
    let index = rel_entries(ingestion_id, rels);
    lemma_row_fanout(ingestion_id, nodes, Seq::empty(), None, index);
    lemma_parent_edges_forest(nodes);
    lemma_hits_are_path_hits(index, nodes, Seq::empty());
    lemma_path_hits_total(index, tree_paths(nodes, Seq::empty()));
    lemma_rel_entries_len(ingestion_id, rels);
}

/// Direction symmetry: relation `k` of the list contributes exactly one
/// outbound entry at its source node's path, whose peer is the target, and
/// one inbound entry at its target node's path, whose peer is the source;
/// the two `relates_to` fields carry each other's identifier text.
pub proof fn lemma_direction_symmetry(ingestion_id: Seq<char>, rels: Seq<RawRelation>, k: int)
    requires
        0 <= k < rels.len(),
    ensures
        ({
            let entries = rel_entries(ingestion_id, rels);
            let source = endpoint_path(rels[k].source@.map_values(|s: String| s@));
            let target = endpoint_path(rels[k].target@.map_values(|s: String| s@));
            entries.len() == 2 * rels.len() && entries[2 * k] == (
                source,
                RelationView {
                    rel_type: rels[k].type_field@,
                    outbound: true,
                    target_name: peer_name(target),
                    relates_to: uuid_text(spec_node_id(ingestion_id, target)),
                },
            ) && entries[2 * k + 1] == (
                target,
                RelationView {
                    rel_type: rels[k].type_field@,
                    outbound: false,
                    target_name: peer_name(source),
                    relates_to: uuid_text(spec_node_id(ingestion_id, source)),
                },
            )
        }),
    decreases rels,
{
    lemma_rel_entries_len(ingestion_id, rels);
    if k == rels.len() - 1 {
        lemma_rel_entries_len(ingestion_id, rels.drop_last());
        assert(rel_entries(ingestion_id, rels) == rel_entries(ingestion_id, rels.drop_last())
            + rel_entry_pair(ingestion_id, rels.last()));
    } else {
        lemma_direction_symmetry(ingestion_id, rels.drop_last(), k);
        assert(rels.drop_last()[k] == rels[k]);
        lemma_rel_entries_len(ingestion_id, rels.drop_last());
        assert(rel_entries(ingestion_id, rels)[2 * k] == rel_entries(
            ingestion_id,
            rels.drop_last(),
        )[2 * k]);
        assert(rel_entries(ingestion_id, rels)[2 * k + 1] == rel_entries(
            ingestion_id,
            rels.drop_last(),
        )[2 * k + 1]);
    }
}

/// An index entry's edge is found among the edges at its own path.
proof fn lemma_rel_edges_contains(entries: Seq<(Seq<char>, RelationView)>, j: int)
    requires
        0 <= j < entries.len(),
    ensures
        rel_edges(entries, entries[j].0).contains(entries[j].1),
    decreases entries.len(),
{
    let p = entries[j].0;
    let d = entries.drop_last();
    if j == entries.len() - 1 {
        let rest = rel_edges(d, p);
        assert(rel_edges(entries, p) == rest.push(entries[j].1));
        assert(rel_edges(entries, p)[rest.len() as int] == entries[j].1);
    } else {
        assert(d[j] == entries[j]);
        lemma_rel_edges_contains(d, j);
        let rest = rel_edges(d, p);
        let i = choose|i: int| 0 <= i < rest.len() && rest[i] == entries[j].1;
        if entries.last().0 == p {
            assert(rel_edges(entries, p) == rest.push(entries.last().1));
        } else {
            assert(rel_edges(entries, p) == rest);
        }
        assert(rel_edges(entries, p)[i] == entries[j].1);
    }
}

/// The flattened rows of a forest include, for every node path `p` in it and
/// every edge indexed at `p`, the corresponding relation edge row in `p`'s
/// partition.
pub proof fn lemma_relation_row_emitted(
    ingestion_id: Seq<char>,
    nodes: Seq<RawNode>,
    parent_path: Seq<char>,
    parent: Option<(u128, Seq<char>)>,
    index: Seq<(Seq<char>, RelationView)>,
    p: Seq<char>,
    e: RelationView,
)
    requires
        tree_paths(nodes, parent_path).contains(p),
        rel_edges(index, p).contains(e),
    ensures
        flatten_rows(ingestion_id, nodes, parent_path, parent, index).contains(
            spec_edge_row(
                spec_node_id(ingestion_id, p),
                ingestion_id,
                if e.outbound {
                    "Out"@
                } else {
                    "In"@
                },
                e.rel_type,
                e.relates_to,
                e.target_name,
            ),
        ),
    decreases nodes,
{
    let row = spec_edge_row(
        spec_node_id(ingestion_id, p),
        ingestion_id,
        if e.outbound {
            "Out"@
        } else {
            "In"@
        },
        e.rel_type,
        e.relates_to,
        e.target_name,
    );
    let n = nodes[0];
    let path = spec_child_path(parent_path, n.name@);
    let id = spec_node_id(ingestion_id, path);
    let tp = tree_paths(nodes, parent_path);
    let tc = tree_paths(n.children@, path);
    let tr = tree_paths(nodes.drop_first(), parent_path);
    assert(tp == seq![path] + tc + tr);
    let head = node_head_rows(ingestion_id, n, parent_path, parent, index);
    let fc = flatten_rows(ingestion_id, n.children@, path, Some((id, n.name@)), index);
    let fr = flatten_rows(ingestion_id, nodes.drop_first(), parent_path, parent, index);
    let whole = flatten_rows(ingestion_id, nodes, parent_path, parent, index);
    assert(whole == head + fc + fr);
    let w = choose|w: int| 0 <= w < tp.len() && tp[w] == p;
    if w == 0 {
        assert(p == path);
        let edges = rel_edges(index, path);
        let j = choose|j: int| 0 <= j < edges.len() && edges[j] == e;
        let pe = parent_edge_rows(id, ingestion_id, parent);
        let rr = relation_rows(id, ingestion_id, edges);
        assert(rr[j] == row);
        assert(head[1 + pe.len() + j] == row);
        assert(whole[1 + pe.len() + j] == row);
        assert(whole.contains(row));
    } else if w < 1 + tc.len() {
        assert(tc[w - 1] == p);
        assert(tc.contains(p));
        lemma_relation_row_emitted(
            ingestion_id,
            n.children@,
            path,
            Some((id, n.name@)),
            index,
            p,
            e,
        );
        let j = choose|j: int| 0 <= j < fc.len() && fc[j] == row;
        assert(whole[head.len() + j] == row);
        assert(whole.contains(row));
    } else {
        assert(tr[w - 1 - tc.len()] == p);
        assert(tr.contains(p));
        lemma_relation_row_emitted(
            ingestion_id,
            nodes.drop_first(),
            parent_path,
            parent,
            index,
            p,
            e,
        );
        let j = choose|j: int| 0 <= j < fr.len() && fr[j] == row;
        assert(whole[head.len() + fc.len() + j] == row);
        assert(whole.contains(row));
    }
}

/// Direction symmetry over the rows: a relation whose endpoint paths both
/// name document nodes yields one outbound edge row in the source
/// node's partition and one inbound edge row in the target node's partition,
/// each referencing the other endpoint's identifier text.
pub proof fn lemma_direction_symmetry_rows(
    ingestion_id: Seq<char>,
    nodes: Seq<RawNode>,
    rels: Seq<RawRelation>,
    k: int,
)
    requires
        0 <= k < rels.len(),
        tree_paths(nodes, Seq::empty()).contains(
            endpoint_path(rels[k].source@.map_values(|s: String| s@)),
        ),
        tree_paths(nodes, Seq::empty()).contains(
            endpoint_path(rels[k].target@.map_values(|s: String| s@)),
        ),
    ensures
        ({
            let source = endpoint_path(rels[k].source@.map_values(|s: String| s@));
            let target = endpoint_path(rels[k].target@.map_values(|s: String| s@));
            let rows = flatten_rows(
                ingestion_id,
                nodes,
                Seq::empty(),
                None,
                rel_entries(ingestion_id, rels),
            );
            rows.contains(
                spec_edge_row(
                    spec_node_id(ingestion_id, source),
                    ingestion_id,
                    "Out"@,
                    rels[k].type_field@,
                    uuid_text(spec_node_id(ingestion_id, target)),
                    peer_name(target),
                ),
            ) && rows.contains(
                spec_edge_row(
                    spec_node_id(ingestion_id, target),
                    ingestion_id,
                    "In"@,
                    rels[k].type_field@,
                    uuid_text(spec_node_id(ingestion_id, source)),
                    peer_name(source),
                ),
            )
        }),
{
    let source = endpoint_path(rels[k].source@.map_values(|s: String| s@));
    let target = endpoint_path(rels[k].target@.map_values(|s: String| s@));
    let entries = rel_entries(ingestion_id, rels);
    lemma_direction_symmetry(ingestion_id, rels, k);
    lemma_rel_edges_contains(entries, 2 * k);
    lemma_rel_edges_contains(entries, 2 * k + 1);
    lemma_relation_row_emitted(
        ingestion_id,
        nodes,
        Seq::empty(),
        None,
        entries,
        source,
        entries[2 * k].1,
    );
    lemma_relation_row_emitted(
        ingestion_id,
        nodes,
        Seq::empty(),
        None,
        entries,
        target,
        entries[2 * k + 1].1,
    );
}

proof fn lemma_filter_none(s: Seq<RowView>, pred: spec_fn(RowView) -> bool)
    requires
        forall|i: int| 0 <= i < s.len() ==> !pred(#[trigger] s[i]),
    ensures
        s.filter(pred) == Seq::<RowView>::empty(),
    decreases s.len(),
{
    reveal(Seq::filter);
    if s.len() > 0 {
        lemma_filter_none(s.drop_last(), pred);
    }
}

proof fn lemma_filter_all(s: Seq<RowView>, pred: spec_fn(RowView) -> bool)
    requires
        forall|i: int| 0 <= i < s.len() ==> pred(#[trigger] s[i]),
    ensures
        s.filter(pred) == s,
    decreases s.len(),
{
    reveal(Seq::filter);
    if s.len() > 0 {
        lemma_filter_all(s.drop_last(), pred);
        assert(s.filter(pred) =~= s);
    }
}

/// Every row a node's head emits carries the node's own identifier as its
/// partition key.
proof fn lemma_head_rows_uuid(
    ingestion_id: Seq<char>,
    n: RawNode,
    parent_path: Seq<char>,
    parent: Option<(u128, Seq<char>)>,
    index: Seq<(Seq<char>, RelationView)>,
)
    ensures
        forall|i: int|
            0 <= i < node_head_rows(ingestion_id, n, parent_path, parent, index).len() ==> (
            #[trigger] node_head_rows(ingestion_id, n, parent_path, parent, index)[i]).uuid
                == spec_node_id(ingestion_id, spec_child_path(parent_path, n.name@)),
{
    let path = spec_child_path(parent_path, n.name@);
    let id = spec_node_id(ingestion_id, path);
    let head = node_head_rows(ingestion_id, n, parent_path, parent, index);
    assert forall|i: int| 0 <= i < head.len() implies (#[trigger] head[i]).uuid == id by {
        let pe = parent_edge_rows(id, ingestion_id, parent);
        let rr = relation_rows(id, ingestion_id, rel_edges(index, path));
        let cr = child_rows(id, ingestion_id, path, n.children@);
        if i == 0 {
        } else if i < 1 + pe.len() {
            assert(head[i] == pe[i - 1]);
        } else if i < 1 + pe.len() + rr.len() {
            assert(head[i] == rr[i - 1 - pe.len()]);
        } else {
            assert(head[i] == cr[i - 1 - pe.len() - rr.len()]);
        }
    }
}

/// A forest whose paths all map to identifiers other than `x` contributes
/// no row to partition `x`.
proof fn lemma_flatten_no_match(
    ingestion_id: Seq<char>,
    nodes: Seq<RawNode>,
    parent_path: Seq<char>,
    parent: Option<(u128, Seq<char>)>,
    index: Seq<(Seq<char>, RelationView)>,
    x: u128,
)
    requires
        forall|q: Seq<char>|
            tree_paths(nodes, parent_path).contains(q) ==> spec_node_id(ingestion_id, q) != x,
    ensures
        forall|i: int|
            0 <= i < flatten_rows(ingestion_id, nodes, parent_path, parent, index).len() ==> (
            #[trigger] flatten_rows(ingestion_id, nodes, parent_path, parent, index)[i]).uuid != x,
    decreases nodes,
{
    if nodes.len() > 0 {
        let n = nodes[0];
        let path = spec_child_path(parent_path, n.name@);
        let id = spec_node_id(ingestion_id, path);
        let tp = tree_paths(nodes, parent_path);
        let tc = tree_paths(n.children@, path);
        let tr = tree_paths(nodes.drop_first(), parent_path);
        assert(tp == seq![path] + tc + tr);
        assert(tp[0] == path);
        assert(tp.contains(path));
        assert(forall|q: Seq<char>| tc.contains(q) ==> tp.contains(q)) by {
            assert forall|q: Seq<char>| tc.contains(q) implies tp.contains(q) by {
                let j = choose|j: int| 0 <= j < tc.len() && tc[j] == q;
                assert(tp[1 + j] == q);
            }
        }
        assert(forall|q: Seq<char>| tr.contains(q) ==> tp.contains(q)) by {
            assert forall|q: Seq<char>| tr.contains(q) implies tp.contains(q) by {
                let j = choose|j: int| 0 <= j < tr.len() && tr[j] == q;
                assert(tp[1 + tc.len() + j] == q);
            }
        }
        lemma_head_rows_uuid(ingestion_id, n, parent_path, parent, index);
        lemma_flatten_no_match(ingestion_id, n.children@, path, Some((id, n.name@)), index, x);
        lemma_flatten_no_match(ingestion_id, nodes.drop_first(), parent_path, parent, index, x);
        let head = node_head_rows(ingestion_id, n, parent_path, parent, index);
        let fc = flatten_rows(ingestion_id, n.children@, path, Some((id, n.name@)), index);
        let fr = flatten_rows(ingestion_id, nodes.drop_first(), parent_path, parent, index);
        let whole = flatten_rows(ingestion_id, nodes, parent_path, parent, index);
        assert(whole == head + fc + fr);
        assert forall|i: int| 0 <= i < whole.len() implies (#[trigger] whole[i]).uuid != x by {
            if i < head.len() {
                assert(whole[i] == head[i]);
            } else if i < head.len() + fc.len() {
                assert(whole[i] == fc[i - head.len()]);
            } else {
                assert(whole[i] == fr[i - head.len() - fc.len()]);
            }
        }
    }
}

/// Rows built from indexed relation edges are edge rows of partition `id`.
proof fn lemma_relation_rows_shape(id: u128, ingestion_id: Seq<char>, edges: Seq<RelationView>)
    ensures
        forall|i: int|
            0 <= i < relation_rows(id, ingestion_id, edges).len() ==> !is_self_row(
                #[trigger] relation_rows(id, ingestion_id, edges)[i],
            ) && relation_rows(id, ingestion_id, edges)[i].uuid == id,
{
    reveal_strlit("In");
    reveal_strlit("Out");
    let rr = relation_rows(id, ingestion_id, edges);
    assert forall|i: int|
        0 <= i < rr.len() implies !is_self_row(#[trigger] rr[i]) && rr[i].uuid == id by {
        if edges[i].outbound {
            assert(rr[i].direction == "Out"@);
        } else {
            assert(rr[i].direction == "In"@);
        }
    }
}

/// Rows built from child links are edge rows of partition `id`.
proof fn lemma_child_rows_shape(
    id: u128,
    ingestion_id: Seq<char>,
    path: Seq<char>,
    children: Seq<RawNode>,
)
    ensures
        forall|i: int|
            0 <= i < child_rows(id, ingestion_id, path, children).len() ==> !is_self_row(
                #[trigger] child_rows(id, ingestion_id, path, children)[i],
            ) && child_rows(id, ingestion_id, path, children)[i].uuid == id,
{
    reveal_strlit("Out");
    let cr = child_rows(id, ingestion_id, path, children);
    assert forall|i: int|
        0 <= i < cr.len() implies !is_self_row(#[trigger] cr[i]) && cr[i].uuid == id by {
        assert(cr[i].direction == "Out"@);
    }
}

/// The edge views a node's child links denote.
pub open spec fn child_edge_views(
    ingestion_id: Seq<char>,
    path: Seq<char>,
    children: Seq<RawNode>,
) -> Seq<RelationView> {
    children.map_values(
        |c: RawNode|
            RelationView {
                rel_type: "Child"@,
                outbound: true,
                target_name: c.name@,
                relates_to: uuid_text(
                    spec_node_id(ingestion_id, spec_child_path(path, c.name@)),
                ),
            },
    )
}

/// The served-edge view of a node's parent link, when it has one.
pub open spec fn parent_views(parent: Option<(u128, Seq<char>)>) -> Seq<RelationView> {
    match parent {
        None => Seq::empty(),
        Some(q) => seq![
            RelationView {
                rel_type: "Parent"@,
                outbound: false,
                target_name: q.1,
                relates_to: uuid_text(q.0),
            },
        ],
    }
}

/// Reading a node's parent, relation and child edge rows back yields its
/// parent view, the indexed edges and the child edge views, in that order.
proof fn lemma_edge_rows_read_back(
    id: u128,
    ingestion_id: Seq<char>,
    path: Seq<char>,
    parent: Option<(u128, Seq<char>)>,
    edges: Seq<RelationView>,
    children: Seq<RawNode>,
)
    ensures
        (parent_edge_rows(id, ingestion_id, parent) + relation_rows(id, ingestion_id, edges)
            + child_rows(id, ingestion_id, path, children)).map_values(
            |e: RowView| edge_to_relation(e),
        ) == parent_views(parent) + edges + child_edge_views(ingestion_id, path, children),
{
    reveal_strlit("In");
    reveal_strlit("Out");
    reveal_strlit("Parent");
    let pe = parent_edge_rows(id, ingestion_id, parent);
    let pv = parent_views(parent);
    let rr = relation_rows(id, ingestion_id, edges);
    let cr = child_rows(id, ingestion_id, path, children);
    let expected_child = child_edge_views(ingestion_id, path, children);
    assert forall|i: int|
        0 <= i < (pe + rr + cr).len() implies edge_to_relation(#[trigger] (pe + rr + cr)[i]) == (pv
        + edges + expected_child)[i] by {
        assert("In"@.len() == 2 && "Out"@.len() == 3);
        if i < pe.len() {
            assert((pe + rr + cr)[i] == pe[0]);
            assert(edge_to_relation(pe[0]) =~= pv[0]);
        } else if i < pe.len() + rr.len() {
            assert((pe + rr + cr)[i] == rr[i - pe.len()]);
            let e = edges[i - pe.len()];
            if e.outbound {
                assert(edge_to_relation(rr[i - pe.len()]) =~= e);
            } else {
                assert(edge_to_relation(rr[i - pe.len()]) =~= e);
            }
        } else {
            let j = i - pe.len() - rr.len();
            assert((pe + rr + cr)[i] == cr[j]);
            assert(edge_to_relation(cr[j]) =~= expected_child[j]);
        }
    }
    assert((pe + rr + cr).map_values(|e: RowView| edge_to_relation(e)) =~= pv + edges
        + expected_child);
}

/// Filtering a node's head rows by its identifier splits them into its
/// self-row and its edge rows.
proof fn lemma_head_filters(
    ingestion_id: Seq<char>,
    n: RawNode,
    parent_path: Seq<char>,
    parent: Option<(u128, Seq<char>)>,
    index: Seq<(Seq<char>, RelationView)>,
)
    ensures
        ({
            let path = spec_child_path(parent_path, n.name@);
            let id = spec_node_id(ingestion_id, path);
            let head = node_head_rows(ingestion_id, n, parent_path, parent, index);
            head.filter(self_row_pred(id)) == seq![
                crate::rows::spec_self_row(
                    id,
                    ingestion_id,
                    path,
                    n.name@,
                    n.type_field@,
                    tags_view(n.tags),
                ),
            ] && head.filter(edge_row_pred(id)) == parent_edge_rows(id, ingestion_id, parent)
                + relation_rows(id, ingestion_id, rel_edges(index, path)) + child_rows(
                id,
                ingestion_id,
                path,
                n.children@,
            )
        }),
{
    reveal_strlit("In");
    let path = spec_child_path(parent_path, n.name@);
    let id = spec_node_id(ingestion_id, path);
    let head = node_head_rows(ingestion_id, n, parent_path, parent, index);
    let pe = parent_edge_rows(id, ingestion_id, parent);
    let rr = relation_rows(id, ingestion_id, rel_edges(index, path));
    let cr = child_rows(id, ingestion_id, path, n.children@);
    let selfrow = crate::rows::spec_self_row(
        id,
        ingestion_id,
        path,
        n.name@,
        n.type_field@,
        tags_view(n.tags),
    );
    let sr = seq![selfrow];
    assert(head == sr + pe + rr + cr);
    lemma_relation_rows_shape(id, ingestion_id, rel_edges(index, path));
    lemma_child_rows_shape(id, ingestion_id, path, n.children@);
    assert(forall|i: int|
        0 <= i < pe.len() ==> !is_self_row(#[trigger] pe[i]) && pe[i].uuid == id) by {
        if parent is Some {
            assert(pe[0].direction == "In"@);
            assert("In"@.len() == 2);
        }
    }
    Seq::filter_distributes_over_add(sr, pe, self_row_pred(id));
    Seq::filter_distributes_over_add(sr + pe, rr, self_row_pred(id));
    Seq::filter_distributes_over_add(sr + pe + rr, cr, self_row_pred(id));
    Seq::filter_distributes_over_add(sr, pe, edge_row_pred(id));
    Seq::filter_distributes_over_add(sr + pe, rr, edge_row_pred(id));
    Seq::filter_distributes_over_add(sr + pe + rr, cr, edge_row_pred(id));
    lemma_filter_all(sr, self_row_pred(id));
    lemma_filter_none(sr, edge_row_pred(id));
    lemma_filter_none(pe, self_row_pred(id));
    lemma_filter_all(pe, edge_row_pred(id));
    lemma_filter_none(rr, self_row_pred(id));
    lemma_filter_all(rr, edge_row_pred(id));
    lemma_filter_none(cr, self_row_pred(id));
    lemma_filter_all(cr, edge_row_pred(id));
    assert(head.filter(self_row_pred(id)) =~= sr);
    assert(head.filter(edge_row_pred(id)) =~= pe + rr + cr);
}

/// The record a full point read of one node returns: its self-row's columns
/// and, in scan order, its parent, relation and child edges.
pub open spec fn expected_record(
    ingestion_id: Seq<char>,
    n: RawNode,
    parent_path: Seq<char>,
    parent: Option<(u128, Seq<char>)>,
    index: Seq<(Seq<char>, RelationView)>,
) -> NodeView {
    let path = spec_child_path(parent_path, n.name@);
    NodeView {
        uuid: spec_node_id(ingestion_id, path),
        ingestion_id: ingestion_id,
        name: n.name@,
        path: path,
        node_type: n.type_field@,
        tags: tags_view(n.tags),
        relations: parent_views(parent) + rel_edges(index, path) + child_edge_views(
            ingestion_id,
            path,
            n.children@,
        ),
    }
}

/// The record of the forest node at path `p`: the first node found
/// depth-first whose path is `p`, or `None` when no node has that path.
pub open spec fn node_record_at(
    ingestion_id: Seq<char>,
    nodes: Seq<RawNode>,
    parent_path: Seq<char>,
    parent: Option<(u128, Seq<char>)>,
    index: Seq<(Seq<char>, RelationView)>,
    p: Seq<char>,
) -> Option<NodeView>
    decreases nodes,
{
    if nodes.len() == 0 {
        None
    } else {
        let n = nodes[0];
        let path = spec_child_path(parent_path, n.name@);
        let id = spec_node_id(ingestion_id, path);
        if path == p {
            Some(expected_record(ingestion_id, n, parent_path, parent, index))
        } else {
            match node_record_at(ingestion_id, n.children@, path, Some((id, n.name@)), index, p) {
                Some(v) => Some(v),
                None => node_record_at(
                    ingestion_id,
                    nodes.drop_first(),
                    parent_path,
                    parent,
                    index,
                    p,
                ),
            }
        }
    }
}

proof fn lemma_count_eq_concat(a: Seq<Seq<char>>, b: Seq<Seq<char>>, x: Seq<char>)
    ensures
        count_eq(a + b, x) == count_eq(a, x) + count_eq(b, x),
    decreases a,
{
    if a.len() == 0 {
        assert(a + b =~= b);
    } else {
        assert((a + b)[0] == a[0]);
        assert((a + b).drop_first() =~= a.drop_first() + b);
        lemma_count_eq_concat(a.drop_first(), b, x);
    }
}

proof fn lemma_count_eq_zero(s: Seq<Seq<char>>, x: Seq<char>)
    ensures
        (count_eq(s, x) == 0) <==> !s.contains(x),
    decreases s,
{
    if s.len() > 0 {
        lemma_count_eq_zero(s.drop_first(), x);
        if s[0] == x {
            assert(s.contains(x));
        } else {
            if s.drop_first().contains(x) {
                let j = choose|j: int| 0 <= j < s.drop_first().len() && s.drop_first()[j] == x;
                assert(s[j + 1] == x);
                assert(s.contains(x));
            }
            if s.contains(x) {
                let j = choose|j: int| 0 <= j < s.len() && s[j] == x;
                assert(s.drop_first()[j - 1] == x);
                assert(s.drop_first().contains(x));
            }
        }
    }
}

/// A path no forest node carries has no record.
proof fn lemma_record_none(
    ingestion_id: Seq<char>,
    nodes: Seq<RawNode>,
    parent_path: Seq<char>,
    parent: Option<(u128, Seq<char>)>,
    index: Seq<(Seq<char>, RelationView)>,
    p: Seq<char>,
)
    requires
        !tree_paths(nodes, parent_path).contains(p),
    ensures
        node_record_at(ingestion_id, nodes, parent_path, parent, index, p) is None,
    decreases nodes,
{
    if nodes.len() > 0 {
        let n = nodes[0];
        let path = spec_child_path(parent_path, n.name@);
        let id = spec_node_id(ingestion_id, path);
        let tp = tree_paths(nodes, parent_path);
        let tc = tree_paths(n.children@, path);
        let tr = tree_paths(nodes.drop_first(), parent_path);
        assert(tp == seq![path] + tc + tr);
        assert(tp[0] == path);
        assert(path != p);
        assert(!tc.contains(p)) by {
            if tc.contains(p) {
                let j = choose|j: int| 0 <= j < tc.len() && tc[j] == p;
                assert(tp[1 + j] == p);
            }
        }
        assert(!tr.contains(p)) by {
            if tr.contains(p) {
                let j = choose|j: int| 0 <= j < tr.len() && tr[j] == p;
                assert(tp[1 + tc.len() + j] == p);
            }
        }
        lemma_record_none(ingestion_id, n.children@, path, Some((id, n.name@)), index, p);
        lemma_record_none(ingestion_id, nodes.drop_first(), parent_path, parent, index, p);
    }
}

/// The partition filters of a node whose own identifier is not `x` and
/// whose right siblings' subtrees hold no identifier `x` reduce to the
/// filters of its children's rows.
proof fn lemma_partition_from_children(
    ingestion_id: Seq<char>,
    nodes: Seq<RawNode>,
    parent_path: Seq<char>,
    parent: Option<(u128, Seq<char>)>,
    index: Seq<(Seq<char>, RelationView)>,
    x: u128,
)
    requires
        nodes.len() > 0,
        spec_node_id(ingestion_id, spec_child_path(parent_path, nodes[0].name@)) != x,
        forall|q: Seq<char>|
            tree_paths(nodes.drop_first(), parent_path).contains(q) ==> spec_node_id(
                ingestion_id,
                q,
            ) != x,
    ensures
        ({
            let n = nodes[0];
            let path = spec_child_path(parent_path, n.name@);
            let id = spec_node_id(ingestion_id, path);
            let whole = flatten_rows(ingestion_id, nodes, parent_path, parent, index);
            let fc = flatten_rows(ingestion_id, n.children@, path, Some((id, n.name@)), index);
            whole.filter(self_row_pred(x)) == fc.filter(self_row_pred(x)) && whole.filter(
                edge_row_pred(x),
            ) == fc.filter(edge_row_pred(x))
        }),
{
    let n = nodes[0];
    let path = spec_child_path(parent_path, n.name@);
    let id = spec_node_id(ingestion_id, path);
    let head = node_head_rows(ingestion_id, n, parent_path, parent, index);
    let fc = flatten_rows(ingestion_id, n.children@, path, Some((id, n.name@)), index);
    let fr = flatten_rows(ingestion_id, nodes.drop_first(), parent_path, parent, index);
    let whole = flatten_rows(ingestion_id, nodes, parent_path, parent, index);
    assert(whole == head + fc + fr);
    assert((head + fc) + fr =~= whole);
    lemma_head_rows_uuid(ingestion_id, n, parent_path, parent, index);
    lemma_filter_none(head, self_row_pred(x));
    lemma_filter_none(head, edge_row_pred(x));
    lemma_flatten_no_match(ingestion_id, nodes.drop_first(), parent_path, parent, index, x);
    lemma_filter_none(fr, self_row_pred(x));
    lemma_filter_none(fr, edge_row_pred(x));
    Seq::filter_distributes_over_add(head, fc, self_row_pred(x));
    Seq::filter_distributes_over_add(head + fc, fr, self_row_pred(x));
    Seq::filter_distributes_over_add(head, fc, edge_row_pred(x));
    Seq::filter_distributes_over_add(head + fc, fr, edge_row_pred(x));
    assert(whole.filter(self_row_pred(x)) =~= fc.filter(self_row_pred(x)));
    assert(whole.filter(edge_row_pred(x)) =~= fc.filter(edge_row_pred(x)));
}

/// The partition filters of a node whose own identifier is not `x` and
/// whose subtree holds no identifier `x` reduce to the filters of its right
/// siblings' rows.
proof fn lemma_partition_from_rest(
    ingestion_id: Seq<char>,
    nodes: Seq<RawNode>,
    parent_path: Seq<char>,
    parent: Option<(u128, Seq<char>)>,
    index: Seq<(Seq<char>, RelationView)>,
    x: u128,
)
    requires
        nodes.len() > 0,
        spec_node_id(ingestion_id, spec_child_path(parent_path, nodes[0].name@)) != x,
        forall|q: Seq<char>|
            tree_paths(
                nodes[0].children@,
                spec_child_path(parent_path, nodes[0].name@),
            ).contains(q) ==> spec_node_id(ingestion_id, q) != x,
    ensures
        ({
            let whole = flatten_rows(ingestion_id, nodes, parent_path, parent, index);
            let fr = flatten_rows(ingestion_id, nodes.drop_first(), parent_path, parent, index);
            whole.filter(self_row_pred(x)) == fr.filter(self_row_pred(x)) && whole.filter(
                edge_row_pred(x),
            ) == fr.filter(edge_row_pred(x))
        }),
{
    let n = nodes[0];
    let path = spec_child_path(parent_path, n.name@);
    let id = spec_node_id(ingestion_id, path);
    let head = node_head_rows(ingestion_id, n, parent_path, parent, index);
    let fc = flatten_rows(ingestion_id, n.children@, path, Some((id, n.name@)), index);
    let fr = flatten_rows(ingestion_id, nodes.drop_first(), parent_path, parent, index);
    let whole = flatten_rows(ingestion_id, nodes, parent_path, parent, index);
    assert(whole == head + fc + fr);
    assert((head + fc) + fr =~= whole);
    lemma_head_rows_uuid(ingestion_id, n, parent_path, parent, index);
    lemma_filter_none(head, self_row_pred(x));
    lemma_filter_none(head, edge_row_pred(x));
    lemma_flatten_no_match(ingestion_id, n.children@, path, Some((id, n.name@)), index, x);
    lemma_filter_none(fc, self_row_pred(x));
    lemma_filter_none(fc, edge_row_pred(x));
    Seq::filter_distributes_over_add(head, fc, self_row_pred(x));
    Seq::filter_distributes_over_add(head + fc, fr, self_row_pred(x));
    Seq::filter_distributes_over_add(head, fc, edge_row_pred(x));
    Seq::filter_distributes_over_add(head + fc, fr, edge_row_pred(x));
    assert(whole.filter(self_row_pred(x)) =~= fr.filter(self_row_pred(x)));
    assert(whole.filter(edge_row_pred(x)) =~= fr.filter(edge_row_pred(x)));
}

/// A full point read of a node whose identifier no other document node
/// shares returns exactly its head record.
#[verifier::rlimit(100)]
proof fn lemma_round_trip_here(
    ingestion_id: Seq<char>,
    nodes: Seq<RawNode>,
    parent_path: Seq<char>,
    parent: Option<(u128, Seq<char>)>,
    index: Seq<(Seq<char>, RelationView)>,
)
    requires
        nodes.len() > 0,
        forall|q: Seq<char>|
            tree_paths(
                nodes[0].children@,
                spec_child_path(parent_path, nodes[0].name@),
            ).contains(q) ==> spec_node_id(ingestion_id, q) != spec_node_id(
                ingestion_id,
                spec_child_path(parent_path, nodes[0].name@),
            ),
        forall|q: Seq<char>|
            tree_paths(nodes.drop_first(), parent_path).contains(q) ==> spec_node_id(
                ingestion_id,
                q,
            ) != spec_node_id(ingestion_id, spec_child_path(parent_path, nodes[0].name@)),
    ensures
        ({
            let n = nodes[0];
            let path = spec_child_path(parent_path, n.name@);
            let id = spec_node_id(ingestion_id, path);
            spec_get_node(
                flatten_rows(ingestion_id, nodes, parent_path, parent, index),
                id,
                true,
                true,
            ) == Some(expected_record(ingestion_id, n, parent_path, parent, index))
        }),
{
    let n = nodes[0];
    let path = spec_child_path(parent_path, n.name@);
    let id = spec_node_id(ingestion_id, path);
    let head = node_head_rows(ingestion_id, n, parent_path, parent, index);
    let fc = flatten_rows(ingestion_id, n.children@, path, Some((id, n.name@)), index);
    let fr = flatten_rows(ingestion_id, nodes.drop_first(), parent_path, parent, index);
    let whole = flatten_rows(ingestion_id, nodes, parent_path, parent, index);
    assert(whole == head + fc + fr);
    assert((head + fc) + fr =~= whole);
    lemma_flatten_no_match(ingestion_id, n.children@, path, Some((id, n.name@)), index, id);
    lemma_flatten_no_match(ingestion_id, nodes.drop_first(), parent_path, parent, index, id);
    lemma_filter_none(fc, self_row_pred(id));
    lemma_filter_none(fc, edge_row_pred(id));
    lemma_filter_none(fr, self_row_pred(id));
    lemma_filter_none(fr, edge_row_pred(id));
    Seq::filter_distributes_over_add(head, fc, self_row_pred(id));
    Seq::filter_distributes_over_add(head + fc, fr, self_row_pred(id));
    Seq::filter_distributes_over_add(head, fc, edge_row_pred(id));
    Seq::filter_distributes_over_add(head + fc, fr, edge_row_pred(id));
    lemma_head_filters(ingestion_id, n, parent_path, parent, index);
    let selfrow = crate::rows::spec_self_row(
        id,
        ingestion_id,
        path,
        n.name@,
        n.type_field@,
        tags_view(n.tags),
    );
    assert(whole.filter(self_row_pred(id)) =~= seq![selfrow]);
    assert(whole.filter(edge_row_pred(id)) =~= parent_edge_rows(id, ingestion_id, parent)
        + relation_rows(id, ingestion_id, rel_edges(index, path)) + child_rows(
        id,
        ingestion_id,
        path,
        n.children@,
    ));
    lemma_edge_rows_read_back(id, ingestion_id, path, parent, rel_edges(index, path), n.children@);
    assert(spec_get_node(whole, id, true, true)->0 =~= expected_record(
        ingestion_id,
        n,
        parent_path,
        parent,
        index,
    ));
}

/// Round trip at any node: flatten a forest in which exactly one node's path
/// is `p` and no other node's identifier collides with `p`'s, store the
/// rows, and a full point read of `p`'s identifier returns that node's
/// record: its own columns and tags, and exactly its parent, indexed
/// relation, and child edges.
pub proof fn lemma_round_trip_at(
    ingestion_id: Seq<char>,
    nodes: Seq<RawNode>,
    parent_path: Seq<char>,
    parent: Option<(u128, Seq<char>)>,
    index: Seq<(Seq<char>, RelationView)>,
    p: Seq<char>,
)
    requires
        count_eq(tree_paths(nodes, parent_path), p) == 1,
        forall|q: Seq<char>|
            tree_paths(nodes, parent_path).contains(q) && q != p ==> spec_node_id(ingestion_id, q)
                != spec_node_id(ingestion_id, p),
    ensures
        spec_get_node(
            flatten_rows(ingestion_id, nodes, parent_path, parent, index),
            spec_node_id(ingestion_id, p),
            true,
            true,
        ) == node_record_at(ingestion_id, nodes, parent_path, parent, index, p),
        node_record_at(ingestion_id, nodes, parent_path, parent, index, p) is Some,
    decreases nodes,
{
    if nodes.len() == 0 {
        assert(tree_paths(nodes, parent_path) =~= Seq::<Seq<char>>::empty());
        assert(count_eq(tree_paths(nodes, parent_path), p) == 0);
        assert(false);
    }
    let pid = spec_node_id(ingestion_id, p);
    let n = nodes[0];
    let path = spec_child_path(parent_path, n.name@);
    let id = spec_node_id(ingestion_id, path);
    let tp = tree_paths(nodes, parent_path);
    let tc = tree_paths(n.children@, path);
    let tr = tree_paths(nodes.drop_first(), parent_path);
    assert(tp == seq![path] + tc + tr);
    assert(tp =~= seq![path] + (tc + tr));
    assert(seq![path].drop_first() =~= Seq::<Seq<char>>::empty());
    lemma_count_eq_concat(seq![path], tc + tr, p);
    lemma_count_eq_concat(tc, tr, p);
    assert(count_eq(Seq::<Seq<char>>::empty(), p) == 0);
    assert(count_eq(seq![path], p) == (if path == p {
        1nat
    } else {
        0nat
    }));
    assert(count_eq(seq![path], p) + count_eq(tc, p) + count_eq(tr, p) == 1);
    assert(tp[0] == path && tp.contains(path));
    assert(forall|q: Seq<char>| tc.contains(q) ==> tp.contains(q)) by {
        assert forall|q: Seq<char>| tc.contains(q) implies tp.contains(q) by {
            let j = choose|j: int| 0 <= j < tc.len() && tc[j] == q;
            assert(tp[1 + j] == q);
        }
    }
    assert(forall|q: Seq<char>| tr.contains(q) ==> tp.contains(q)) by {
        assert forall|q: Seq<char>| tr.contains(q) implies tp.contains(q) by {
            let j = choose|j: int| 0 <= j < tr.len() && tr[j] == q;
            assert(tp[1 + tc.len() + j] == q);
        }
    }
    lemma_count_eq_zero(tc, p);
    lemma_count_eq_zero(tr, p);

    if path == p {
        assert(count_eq(tc, p) == 0 && count_eq(tr, p) == 0);
        assert(forall|q: Seq<char>|
            tc.contains(q) ==> spec_node_id(ingestion_id, q) != pid) by {
            assert forall|q: Seq<char>|
                tc.contains(q) implies spec_node_id(ingestion_id, q) != pid by {
                if q == p {
                    assert(tc.contains(p));
                }
            }
        }
        assert(forall|q: Seq<char>|
            tr.contains(q) ==> spec_node_id(ingestion_id, q) != pid) by {
            assert forall|q: Seq<char>|
                tr.contains(q) implies spec_node_id(ingestion_id, q) != pid by {
                if q == p {
                    assert(tr.contains(p));
                }
            }
        }
        lemma_round_trip_here(ingestion_id, nodes, parent_path, parent, index);
    } else if count_eq(tc, p) == 1 {
        assert(count_eq(tr, p) == 0 && !tr.contains(p));
        assert(id != pid);
        assert(forall|q: Seq<char>|
            tr.contains(q) ==> spec_node_id(ingestion_id, q) != pid) by {
            assert forall|q: Seq<char>|
                tr.contains(q) implies spec_node_id(ingestion_id, q) != pid by {
                if q == p {
                    assert(tr.contains(p));
                }
            }
        }
        lemma_partition_from_children(ingestion_id, nodes, parent_path, parent, index, pid);
        lemma_round_trip_at(ingestion_id, n.children@, path, Some((id, n.name@)), index, p);
        let whole = flatten_rows(ingestion_id, nodes, parent_path, parent, index);
        let fc = flatten_rows(ingestion_id, n.children@, path, Some((id, n.name@)), index);
        assert(spec_get_node(whole, pid, true, true) == spec_get_node(fc, pid, true, true));
        assert(node_record_at(ingestion_id, nodes, parent_path, parent, index, p)
            == node_record_at(ingestion_id, n.children@, path, Some((id, n.name@)), index, p));
    } else {
        assert(count_eq(tr, p) == 1);
        assert(count_eq(tc, p) == 0 && !tc.contains(p));
        assert(id != pid);
        assert(forall|q: Seq<char>|
            tc.contains(q) ==> spec_node_id(ingestion_id, q) != pid) by {
            assert forall|q: Seq<char>|
                tc.contains(q) implies spec_node_id(ingestion_id, q) != pid by {
                if q == p {
                    assert(tc.contains(p));
                }
            }
        }
        lemma_partition_from_rest(ingestion_id, nodes, parent_path, parent, index, pid);
        lemma_record_none(ingestion_id, n.children@, path, Some((id, n.name@)), index, p);
        lemma_round_trip_at(ingestion_id, nodes.drop_first(), parent_path, parent, index, p);
        let whole = flatten_rows(ingestion_id, nodes, parent_path, parent, index);
        let fr = flatten_rows(ingestion_id, nodes.drop_first(), parent_path, parent, index);
        assert(spec_get_node(whole, pid, true, true) == spec_get_node(fr, pid, true, true));
        assert(node_record_at(ingestion_id, nodes, parent_path, parent, index, p)
            == node_record_at(ingestion_id, nodes.drop_first(), parent_path, parent, index, p));
    }
}


/// Round trip at the first root, from the whole-document call: no parent
/// edge, so the record's edges are exactly the indexed relation edges
/// followed by the child edges.
pub proof fn lemma_round_trip(
    ingestion_id: Seq<char>,
    nodes: Seq<RawNode>,
    index: Seq<(Seq<char>, RelationView)>,
)
    requires
        nodes.len() > 0,
        forall|k: int|
            1 <= k < tree_paths(nodes, Seq::empty()).len() ==> spec_node_id(
                ingestion_id,
                #[trigger] tree_paths(nodes, Seq::empty())[k],
            ) != spec_node_id(ingestion_id, tree_paths(nodes, Seq::empty())[0]),
    ensures
        ({
            let root = nodes[0];
            let root_path = spec_child_path(Seq::empty(), root.name@);
            let rid = spec_node_id(ingestion_id, root_path);
            let rows = flatten_rows(ingestion_id, nodes, Seq::empty(), None, index);
            spec_get_node(rows, rid, true, true) == Some(
                NodeView {
                    uuid: rid,
                    ingestion_id: ingestion_id,
                    name: root.name@,
                    path: root_path,
                    node_type: root.type_field@,
                    tags: tags_view(root.tags),
                    relations: rel_edges(index, root_path) + child_edge_views(
                        ingestion_id,
                        root_path,
                        root.children@,
                    ),
                },
            )
        }),
{
    let root = nodes[0];
    let root_path = spec_child_path(Seq::empty(), root.name@);
    let rid = spec_node_id(ingestion_id, root_path);
    let rows = flatten_rows(ingestion_id, nodes, Seq::empty(), None, index);
    let tp = tree_paths(nodes, Seq::empty());
    assert(tp[0] == root_path);
    lemma_count_first_unique(tp);
    assert(count_eq(tp, root_path) == 1);
    assert(forall|q: Seq<char>|
        tp.contains(q) && q != root_path ==> spec_node_id(ingestion_id, q) != rid) by {
        assert forall|q: Seq<char>|
            tp.contains(q) && q != root_path implies spec_node_id(ingestion_id, q) != rid by {
            let k = choose|k: int| 0 <= k < tp.len() && tp[k] == q;
            assert(k >= 1);
        }
    }
    lemma_round_trip_at(ingestion_id, nodes, Seq::empty(), None, index, root_path);
    let expected = expected_record(ingestion_id, root, Seq::empty(), None, index);
    assert(node_record_at(ingestion_id, nodes, Seq::empty(), None, index, root_path) == Some(
        expected,
    ));
    assert(expected =~= (NodeView {
        uuid: rid,
        ingestion_id: ingestion_id,
        name: root.name@,
        path: root_path,
        node_type: root.type_field@,
        tags: tags_view(root.tags),
        relations: rel_edges(index, root_path) + child_edge_views(
            ingestion_id,
            root_path,
            root.children@,
        ),
    }));
}

proof fn lemma_count_first_unique(paths: Seq<Seq<char>>)
    requires
        paths.len() > 0,
        forall|k: int| 1 <= k < paths.len() ==> (#[trigger] paths[k]) != paths[0],
    ensures
        count_eq(paths, paths[0]) == 1,
{
    lemma_count_tail_zero(paths.drop_first(), paths[0]);
}

proof fn lemma_count_tail_zero(paths: Seq<Seq<char>>, x: Seq<char>)
    requires
        forall|k: int| 0 <= k < paths.len() ==> paths[k] != x,
    ensures
        count_eq(paths, x) == 0,
    decreases paths,
{
    if paths.len() > 0 {
        lemma_count_tail_zero(paths.drop_first(), x);
    }
}

} // verus!
