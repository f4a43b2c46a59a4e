//! The node flattener: walks the input forest depth-first in pre-order and
//! emits, for every node, its self-row followed by its parent, relation and
//! child edge rows.

use vstd::prelude::*;

use crate::identity::{path_from_name, path_to_uuid, spec_node_id};
use crate::input::{clone_tags, tags_view, RawNode, RawTag};
use crate::relations::{rel_edges, RelIndex, RelationView};
use crate::rows::{spec_edge_row, spec_self_row, Direction, NodeModel, Role, RowView};
use crate::uuid_text::{uuid_text, uuid_to_string};

verus! {

/// The path of a node named `name` under `path`.
pub open spec fn spec_child_path(path: Seq<char>, name: Seq<char>) -> Seq<char> {
    path + "/"@ + name
}

/// The view of the flattener's optional parent argument.
pub open spec fn parent_view(p: Option<(u128, String)>) -> Option<(u128, Seq<char>)> {
    match p {
        None => None,
        Some(q) => Some((q.0, q.1@)),
    }
}

/// The rows a sequence of stored rows denotes.
pub open spec fn rows_view(rows: Seq<NodeModel>) -> Seq<RowView> {
    rows.map_values(|m: NodeModel| m@)
}

/// The inbound `Parent` edge row of node `id`, when it has a parent.
pub open spec fn parent_edge_rows(
    id: u128,
    ingestion_id: Seq<char>,
    parent: Option<(u128, Seq<char>)>,
) -> Seq<RowView> {
    match parent {
        None => Seq::empty(),
        Some(p) => seq![spec_edge_row(id, ingestion_id, "In"@, "Parent"@, uuid_text(p.0), p.1)],
    }
}

/// The rows the indexed edges of a node contribute to its partition.
pub open spec fn relation_rows(id: u128, ingestion_id: Seq<char>, edges: Seq<RelationView>) -> Seq<
    RowView,
> {
    edges.map_values(
        |e: RelationView|
            spec_edge_row(
                id,
                ingestion_id,
                if e.outbound {
                    "Out"@
                } else {
                    "In"@
                },
                e.rel_type,
                e.relates_to,
                e.target_name,
            ),
    )
}

/// The outbound `Child` edge rows of the node at `path` toward its children.
pub open spec fn child_rows(
    id: u128,
    ingestion_id: Seq<char>,
    path: Seq<char>,
    children: Seq<RawNode>,
) -> Seq<RowView> {
    children.map_values(
        |c: RawNode|
            spec_edge_row(
                id,
                ingestion_id,
                "Out"@,
                "Child"@,
                uuid_text(spec_node_id(ingestion_id, spec_child_path(path, c.name@))),
                c.name@,
            ),
    )
}

/// The rows one node emits before its children are visited: its self-row,
/// then its parent edge, its indexed relation edges, and its child edges.
pub open spec fn node_head_rows(
    ingestion_id: Seq<char>,
    n: RawNode,
    parent_path: Seq<char>,
    parent: Option<(u128, Seq<char>)>,
    index: Seq<(Seq<char>, RelationView)>,
) -> Seq<RowView> {
    let path = spec_child_path(parent_path, n.name@);
    let id = spec_node_id(ingestion_id, path);
    seq![spec_self_row(id, ingestion_id, path, n.name@, n.type_field@, tags_view(n.tags))]
        + parent_edge_rows(id, ingestion_id, parent) + relation_rows(
        id,
        ingestion_id,
        rel_edges(index, path),
    ) + child_rows(id, ingestion_id, path, n.children@)
}

/// All rows a forest emits, depth-first in pre-order: each node's head rows,
/// then its subtree, then its right siblings.
pub open spec fn flatten_rows(
    ingestion_id: Seq<char>,
    nodes: Seq<RawNode>,
    parent_path: Seq<char>,
    parent: Option<(u128, Seq<char>)>,
    index: Seq<(Seq<char>, RelationView)>,
) -> Seq<RowView>
    decreases nodes,
{
    if nodes.len() == 0 {
        Seq::empty()
    } else {
        let n = nodes[0];
        let path = spec_child_path(parent_path, n.name@);
        let id = spec_node_id(ingestion_id, path);
        node_head_rows(ingestion_id, n, parent_path, parent, index) + flatten_rows(
            ingestion_id,
            n.children@,
            path,
            Some((id, n.name@)),
            index,
        ) + flatten_rows(ingestion_id, nodes.drop_first(), parent_path, parent, index)
    }
}

/// Flattening a forest splits over concatenation of sibling lists.
pub proof fn lemma_flatten_concat(
    ingestion_id: Seq<char>,
    s1: Seq<RawNode>,
    s2: Seq<RawNode>,
    parent_path: Seq<char>,
    parent: Option<(u128, Seq<char>)>,
    index: Seq<(Seq<char>, RelationView)>,
)
    ensures
        flatten_rows(ingestion_id, s1 + s2, parent_path, parent, index) == flatten_rows(
            ingestion_id,
            s1,
            parent_path,
            parent,
            index,
        ) + flatten_rows(ingestion_id, s2, parent_path, parent, index),
    decreases s1,
{
    if s1.len() == 0 {
        assert(s1 + s2 =~= s2);
        assert(flatten_rows(ingestion_id, s1 + s2, parent_path, parent, index) =~= flatten_rows(
            ingestion_id,
            s1,
            parent_path,
            parent,
            index,
        ) + flatten_rows(ingestion_id, s2, parent_path, parent, index));
    } else {
        assert((s1 + s2)[0] == s1[0]);
        assert((s1 + s2).drop_first() =~= s1.drop_first() + s2);
        lemma_flatten_concat(ingestion_id, s1.drop_first(), s2, parent_path, parent, index);
        assert(flatten_rows(ingestion_id, s1 + s2, parent_path, parent, index) =~= flatten_rows(
            ingestion_id,
            s1,
            parent_path,
            parent,
            index,
        ) + flatten_rows(ingestion_id, s2, parent_path, parent, index));
    }
}

/// A single node flattens to its head rows followed by its subtree's rows.
pub proof fn lemma_flatten_one(
    ingestion_id: Seq<char>,
    n: RawNode,
    parent_path: Seq<char>,
    parent: Option<(u128, Seq<char>)>,
    index: Seq<(Seq<char>, RelationView)>,
)
    ensures
        flatten_rows(ingestion_id, seq![n], parent_path, parent, index) == node_head_rows(
            ingestion_id,
            n,
            parent_path,
            parent,
            index,
        ) + flatten_rows(
            ingestion_id,
            n.children@,
            spec_child_path(parent_path, n.name@),
            Some((spec_node_id(ingestion_id, spec_child_path(parent_path, n.name@)), n.name@)),
            index,
        ),
{
    let s = seq![n];
    assert(s[0] == n);
    assert(s.drop_first() =~= Seq::<RawNode>::empty());
    assert(flatten_rows(ingestion_id, s.drop_first(), parent_path, parent, index) =~= Seq::<
        RowView,
    >::empty());
    assert(flatten_rows(ingestion_id, s, parent_path, parent, index) =~= node_head_rows(
        ingestion_id,
        n,
        parent_path,
        parent,
        index,
    ) + flatten_rows(
        ingestion_id,
        n.children@,
        spec_child_path(parent_path, n.name@),
        Some((spec_node_id(ingestion_id, spec_child_path(parent_path, n.name@)), n.name@)),
        index,
    ));
}

/// Walks the forest under `path`, appending every emitted row to `nodes`.
#[verifier::rlimit(100)]
pub fn flatten_nodes(
    ingestion_id: &str,
    raw_nodes: &Vec<RawNode>,
    path: &String,
    parent: &Option<(u128, String)>,
    nodes: &mut Vec<NodeModel>,
    relations: &RelIndex,
)
    ensures
        rows_view(final(nodes)@) == rows_view(old(nodes)@) + flatten_rows(
            ingestion_id@,
            raw_nodes@,
            path@,
            parent_view(*parent),
            relations@,
        ),
    decreases raw_nodes@,
{
    let ghost base = rows_view(nodes@);
    let n = raw_nodes.len();
    for i in 0..n
        invariant
            n == raw_nodes@.len(),
            rows_view(nodes@) == base + flatten_rows(
                ingestion_id@,
                raw_nodes@.subrange(0, i as int),
                path@,
                parent_view(*parent),
                relations@,
            ),
        decreases n - i,
    {
        let ghost before = rows_view(nodes@);
        let raw_node = &raw_nodes[i];
        let tags: Vec<RawTag> = match &raw_node.tags {
            Some(v) => clone_tags(v),
            None => Vec::new(),
        };
        proof {
            assert(tags_view(Some(tags)) =~= tags_view(raw_node.tags));
        }
        let node_path = path_from_name(path.as_str(), raw_node.name.as_str());
        let root = NodeModel::root(
            ingestion_id.to_owned(),
            node_path.clone(),
            raw_node.name.clone(),
            raw_node.type_field.clone(),
            tags,
        );
        let ghost spec_path = spec_child_path(path@, raw_node.name@);
        let ghost spec_id = spec_node_id(ingestion_id@, spec_path);
        let id = root.uuid;
        let name = root.name.clone();
        nodes.push(root);

        if let Some(parent_pair) = parent {
            let rel = NodeModel::relation(
                id,
                ingestion_id.to_owned(),
                Direction::In.as_string(),
                Role::Parent.as_string(),
                uuid_to_string(parent_pair.0),
                parent_pair.1.clone(),
            );
            nodes.push(rel);
        }
        proof {
            assert(rows_view(nodes@) =~= before + seq![
                spec_self_row(
                    spec_id,
                    ingestion_id@,
                    spec_path,
                    raw_node.name@,
                    raw_node.type_field@,
                    tags_view(raw_node.tags),
                ),
            ] + parent_edge_rows(spec_id, ingestion_id@, parent_view(*parent)));
        }
        let ghost after_parent = rows_view(nodes@);

        let edges = relations.get(node_path.as_str());
        let m = edges.len();
        for j in 0..m
            invariant
                m == edges@.len(),
                id == spec_id,
                edges@.map_values(|rel: crate::relations::Relation| rel@) == rel_edges(
                    relations@,
                    spec_path,
                ),
                rows_view(nodes@) == after_parent + relation_rows(
                    spec_id,
                    ingestion_id@,
                    rel_edges(relations@, spec_path).subrange(0, j as int),
                ),
            decreases m - j,
        {
            let ghost nv = rows_view(nodes@);
            let rel_row = NodeModel::from_relation(id, ingestion_id.to_owned(), &edges[j]);
            nodes.push(rel_row);
            proof {
                let re = rel_edges(relations@, spec_path);
                let e = re[j as int];
                assert(edges@.map_values(|rel: crate::relations::Relation| rel@)[j as int]
                    == edges@[j as int]@);
                assert(edges@[j as int]@ == e);
                assert(rel_row@ == spec_edge_row(
                    spec_id,
                    ingestion_id@,
                    if e.outbound {
                        "Out"@
                    } else {
                        "In"@
                    },
                    e.rel_type,
                    e.relates_to,
                    e.target_name,
                ));
                assert(rows_view(nodes@) =~= nv.push(rel_row@));
                assert(re.subrange(0, j + 1) =~= re.subrange(0, j as int).push(e));
                assert(relation_rows(spec_id, ingestion_id@, re.subrange(0, j + 1)) =~=
                    relation_rows(spec_id, ingestion_id@, re.subrange(0, j as int)).push(rel_row@));
                assert(rows_view(nodes@) =~= after_parent + relation_rows(
                    spec_id,
                    ingestion_id@,
                    re.subrange(0, j + 1),
                ));
            }
        }
        proof {
            assert(rel_edges(relations@, spec_path).subrange(
                0,
                rel_edges(relations@, spec_path).len() as int,
            ) =~= rel_edges(relations@, spec_path));
        }
        let ghost after_rels = rows_view(nodes@);

        let c = raw_node.children.len();
        for j in 0..c
            invariant
                c == raw_node.children@.len(),
                id == spec_id,
                node_path@ == spec_path,
                rows_view(nodes@) == after_rels + child_rows(
                    spec_id,
                    ingestion_id@,
                    spec_path,
                    raw_node.children@.subrange(0, j as int),
                ),
            decreases c - j,
        {
            let ch = &raw_node.children[j];
            let child_path = path_from_name(node_path.as_str(), ch.name.as_str());
            let child_id = path_to_uuid(ingestion_id, child_path.as_str());
            let ghost nv = rows_view(nodes@);
            let rel = NodeModel::relation(
                id,
                ingestion_id.to_owned(),
                Direction::Out.as_string(),
                Role::Child.as_string(),
                uuid_to_string(child_id),
                ch.name.clone(),
            );
            nodes.push(rel);
            proof {
                assert(child_id == spec_node_id(
                    ingestion_id@,
                    spec_child_path(spec_path, raw_node.children@[j as int].name@),
                ));
                assert(rel@ == spec_edge_row(
                    spec_id,
                    ingestion_id@,
                    "Out"@,
                    "Child"@,
                    uuid_text(
                        spec_node_id(
                            ingestion_id@,
                            spec_child_path(spec_path, raw_node.children@[j as int].name@),
                        ),
                    ),
                    raw_node.children@[j as int].name@,
                ));
                assert(rows_view(nodes@) =~= nv.push(rel@));
                assert(child_rows(
                    spec_id,
                    ingestion_id@,
                    spec_path,
                    raw_node.children@.subrange(0, j + 1),
                ) =~= child_rows(
                    spec_id,
                    ingestion_id@,
                    spec_path,
                    raw_node.children@.subrange(0, j as int),
                ).push(rel@));
                assert(rows_view(nodes@) =~= after_rels + child_rows(
                    spec_id,
                    ingestion_id@,
                    spec_path,
                    raw_node.children@.subrange(0, j + 1),
                ));
            }
        }
        proof {
            assert(raw_node.children@.subrange(0, c as int) =~= raw_node.children@);
            assert(rows_view(nodes@) =~= before + node_head_rows(
                ingestion_id@,
                raw_nodes@[i as int],
                path@,
                parent_view(*parent),
                relations@,
            ));
        }

        if !raw_node.children.is_empty() {
            let new_parent = Some((id, name));
            proof {
                assert(decreases_to!(raw_nodes@ => raw_nodes@[i as int].children@));
            }
            flatten_nodes(ingestion_id, &raw_node.children, &node_path, &new_parent, nodes, relations);
        }
        proof {
            let sub = flatten_rows(
                ingestion_id@,
                raw_nodes@[i as int].children@,
                spec_path,
                Some((spec_id, raw_nodes@[i as int].name@)),
                relations@,
            );
            if raw_node.children@.len() == 0 {
                assert(sub =~= Seq::<RowView>::empty());
                assert(rows_view(nodes@) =~= before + node_head_rows(
                    ingestion_id@,
                    raw_nodes@[i as int],
                    path@,
                    parent_view(*parent),
                    relations@,
                ) + sub);
            }
            let pre = raw_nodes@.subrange(0, i as int);
            let cur = raw_nodes@.subrange(0, i + 1);
            assert(cur =~= pre + seq![raw_nodes@[i as int]]);
            lemma_flatten_concat(
                ingestion_id@,
                pre,
                seq![raw_nodes@[i as int]],
                path@,
                parent_view(*parent),
                relations@,
            );
            lemma_flatten_one(
                ingestion_id@,
                raw_nodes@[i as int],
                path@,
                parent_view(*parent),
                relations@,
            );
            assert(rows_view(nodes@) =~= base + flatten_rows(
                ingestion_id@,
                cur,
                path@,
                parent_view(*parent),
                relations@,
            ));
        }
    }
    proof {
        assert(raw_nodes@.subrange(0, n as int) =~= raw_nodes@);
    }
}

/// Flattens a whole document: every root starts from the empty parent path
/// with no parent.
pub fn process_nodes(ingestion_id: &str, raw_nodes: Vec<RawNode>, relations: &RelIndex) -> (r: Vec<
    NodeModel,
>)
    ensures
        rows_view(r@) == flatten_rows(ingestion_id@, raw_nodes@, Seq::empty(), None, relations@),
{
    let mut db_nodes: Vec<NodeModel> = Vec::new();
    let parent: Option<(u128, String)> = None;
    let path: String = String::new();
    flatten_nodes(ingestion_id, &raw_nodes, &path, &parent, &mut db_nodes, relations);
    proof {
        assert(rows_view(db_nodes@) =~= flatten_rows(
            ingestion_id@,
            raw_nodes@,
            Seq::empty(),
            None,
            relations@,
        ));
    }
    db_nodes
}

} // verus!
