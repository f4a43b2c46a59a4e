//! The traversal engine: validates the request, then walks the graph from a
//! seed partition, depth-bounded, following edges of one direction and
//! optionally one relation kind. The depth bound is the sole termination
//! guarantee: cycles are not detected and revisited nodes are reported again.

use vstd::prelude::*;

use crate::node::{
    lemma_traversal_views_push, traversal_view, traversal_views, TraversalNode, TraversalView,
};
use crate::rows::{Direction, RelRowView, RelationModel, Role, RowView};
use crate::store::{opt_text, spec_scan, NodeStore};
use crate::strutil::{ascii_eq, eq_ignore_ascii_case};
use crate::uuid_text::{parse_uuid, spec_parse_uuid};

verus! {

/// A traversal request: a direction, an optional relation kind, and the
/// depth bound.
#[derive(Debug, Clone, PartialEq, Default)]
pub struct TraversalNodeQuery {
    pub direction: String,
    pub relation_type: Option<String>,
    pub max_depth: usize,
}

/// An accepted direction argument: `in` or `out`, ignoring ASCII case.
pub open spec fn valid_direction(d: Seq<char>) -> bool {
    ascii_eq(d, "in"@) || ascii_eq(d, "out"@)
}

/// An accepted relation-kind argument: `parent` or `child`, ignoring ASCII
/// case.
pub open spec fn valid_relation_kind(k: Seq<char>) -> bool {
    ascii_eq(k, "parent"@) || ascii_eq(k, "child"@)
}

/// Whether a whole request is accepted.
pub open spec fn valid_query(q: TraversalNodeQuery) -> bool {
    valid_direction(q.direction@) && (match q.relation_type {
        None => true,
        Some(k) => valid_relation_kind(k@),
    })
}

impl TraversalNodeQuery {
    /// Accepts the request or reports the first offending argument: an empty
    /// direction, then a direction other than `in`/`out`, then a relation
    /// kind other than `parent`/`child`.
    pub fn validate(&self) -> (r: Result<(), String>)
        ensures
            r is Ok <==> valid_query(*self),
            self.direction@.len() == 0 ==> (r matches Err(m) && m@ == "Direction cannot be empty. Please use 'in' or 'out'."@),
            self.direction@.len() > 0 && !valid_direction(self.direction@) ==> (r matches Err(m)
                && m@ == "Direction can only be 'in' or 'out'."@),
            (valid_direction(self.direction@) && !valid_query(*self)) ==> (r matches Err(m) && m@
                == "Relation type can only be 'parent' or 'child'."@),
    {
        if self.direction.as_str().is_empty() {
            proof {
                reveal_strlit("in");
                reveal_strlit("out");
            }
            return Err("Direction cannot be empty. Please use 'in' or 'out'.".to_owned());
        }
        let dir_ok = eq_ignore_ascii_case(self.direction.as_str(), "in")
            || eq_ignore_ascii_case(self.direction.as_str(), "out");
        if !dir_ok {
            return Err("Direction can only be 'in' or 'out'.".to_owned());
        }
        match &self.relation_type {
            Some(relation_type) => {
                let rel_ok = eq_ignore_ascii_case(relation_type.as_str(), "parent")
                    || eq_ignore_ascii_case(relation_type.as_str(), "child");
                if !rel_ok {
                    return Err("Relation type can only be 'parent' or 'child'.".to_owned());
                }
            },
            None => {},
        }
        Ok(())
    }

    /// Renders the request as URL query parameters, an absent relation kind
    /// as empty text.
    pub fn convert_to_query_parameter(&self) -> (r: String)
        ensures
            r@ == "direction="@ + self.direction@ + "&relation_type="@ + (match self
                .relation_type {
                None => Seq::<char>::empty(),
                Some(k) => k@,
            }) + "&max_depth="@ + dec_text(self.max_depth as nat),
    {
        let mut r = "direction=".to_owned();
        r.append(self.direction.as_str());
        r.append("&relation_type=");
        match &self.relation_type {
            Some(k) => r.append(k.as_str()),
            None => (),
        }
        r.append("&max_depth=");
        let depth_text = usize_to_string(self.max_depth);
        r.append(depth_text.as_str());
        r
    }
}

/// The decimal digit for `n`.
pub open spec fn dec_digit(n: int) -> char {
    if n == 0 {
        '0'
    } else if n == 1 {
        '1'
    } else if n == 2 {
        '2'
    } else if n == 3 {
        '3'
    } else if n == 4 {
        '4'
    } else if n == 5 {
        '5'
    } else if n == 6 {
        '6'
    } else if n == 7 {
        '7'
    } else if n == 8 {
        '8'
    } else {
        '9'
    }
}

/// The decimal text of `n`, without leading zeros.
pub open spec fn dec_text(n: nat) -> Seq<char>
    decreases n,
{
    if n < 10 {
        seq![dec_digit(n as int)]
    } else {
        dec_text(n / 10) + seq![dec_digit((n % 10) as int)]
    }
}

fn dec_str(d: usize) -> (r: &'static str)
    requires
        d < 10,
    ensures
        r@.len() == 1,
        r@[0] == dec_digit(d as int),
{
    proof {
        reveal_strlit("0");
        reveal_strlit("1");
        reveal_strlit("2");
        reveal_strlit("3");
        reveal_strlit("4");
        reveal_strlit("5");
        reveal_strlit("6");
        reveal_strlit("7");
        reveal_strlit("8");
        reveal_strlit("9");
    }
    match d {
        0 => "0",
        1 => "1",
        2 => "2",
        3 => "3",
        4 => "4",
        5 => "5",
        6 => "6",
        7 => "7",
        8 => "8",
        _ => "9",
    }
}

/// Writes `n` in decimal.
pub fn usize_to_string(n: usize) -> (r: String)
    ensures
        r@ == dec_text(n as nat),
    decreases n,
{
    if n < 10 {
        let mut r = String::new();
        r.append(dec_str(n));
        proof {
            assert(r@ =~= dec_text(n as nat));
        }
        r
    } else {
        let mut r = usize_to_string(n / 10);
        r.append(dec_str(n % 10));
        proof {
            assert(r@ =~= dec_text(n as nat));
        }
        r
    }
}

/// The direction an accepted direction argument denotes.
pub fn parse_direction(d: &str) -> (r: Option<Direction>)
    ensures
        ascii_eq(d@, "in"@) ==> r == Some(Direction::In),
        !ascii_eq(d@, "in"@) && ascii_eq(d@, "out"@) ==> r == Some(Direction::Out),
        !valid_direction(d@) ==> r is None,
{
    if eq_ignore_ascii_case(d, "in") {
        Some(Direction::In)
    } else if eq_ignore_ascii_case(d, "out") {
        Some(Direction::Out)
    } else {
        None
    }
}

/// The role an accepted relation-kind argument denotes.
pub fn parse_relation_kind(k: &str) -> (r: Option<Role>)
    ensures
        ascii_eq(k@, "parent"@) ==> r == Some(Role::Parent),
        !ascii_eq(k@, "parent"@) && ascii_eq(k@, "child"@) ==> r == Some(Role::Child),
        !valid_relation_kind(k@) ==> r is None,
{
    if eq_ignore_ascii_case(k, "parent") {
        Some(Role::Parent)
    } else if eq_ignore_ascii_case(k, "child") {
        Some(Role::Child)
    } else {
        None
    }
}

/// The text an optional role scans for.
pub open spec fn role_opt_text(r: Option<Role>) -> Option<Seq<char>> {
    match r {
        None => None,
        Some(x) => Some(x.view()),
    }
}

fn role_to_opt_string(r: &Option<Role>) -> (s: Option<String>)
    ensures
        opt_text(s) == role_opt_text(*r),
{
    match r {
        None => None,
        Some(Role::Parent) => Some(Role::Parent.as_string()),
        Some(Role::Child) => Some(Role::Child.as_string()),
    }
}

/// The scanned rows a visit of partition `id` reads, in scan order.
pub open spec fn scan_views(
    rows: Seq<RowView>,
    id: u128,
    dir: Seq<char>,
    rel: Option<Seq<char>>,
) -> Seq<RelRowView> {
    spec_scan(rows, id, dir, rel).map_values(|x: RowView| crate::rows::proj_row(x))
}

/// One visit: an empty scan means the node does not exist; otherwise the
/// first row is taken as the node's record, every later row contributes its
/// peer identifier, and, below the depth bound, each peer whose identifier
/// parses and whose own scan is non-empty contributes a subtree.
pub open spec fn spec_traverse(
    rows: Seq<RowView>,
    id: u128,
    dir: Seq<char>,
    rel: Option<Seq<char>>,
    depth: int,
    max_depth: int,
) -> Option<TraversalView>
    decreases max_depth - depth, 0int,
{
    let scan = scan_views(rows, id, dir, rel);
    if scan.len() == 0 {
        None
    } else {
        let ids = scan.subrange(1, scan.len() as int).map_values(|m: RelRowView| m.relates_to);
        let children = if depth < max_depth && ids.len() > 0 {
            spec_traverse_children(rows, ids, dir, rel, depth + 1, max_depth)
        } else {
            Seq::empty()
        };
        Some(
            TraversalView {
                uuid: scan[0].uuid,
                depth: depth,
                name: scan[0].name,
                node_type: scan[0].node_type,
                relations: children,
                relation_ids: ids,
            },
        )
    }
}

/// The subtrees the peer identifiers contribute, in order; an identifier
/// that does not parse or whose partition scan is empty contributes none.
pub open spec fn spec_traverse_children(
    rows: Seq<RowView>,
    ids: Seq<Seq<char>>,
    dir: Seq<char>,
    rel: Option<Seq<char>>,
    depth: int,
    max_depth: int,
) -> Seq<TraversalView>
    decreases max_depth - depth, ids.len(),
{
    if ids.len() == 0 || depth > max_depth {
        Seq::empty()
    } else {
        let rest = spec_traverse_children(
            rows,
            ids.drop_first(),
            dir,
            rel,
            depth,
            max_depth,
        );
        match spec_parse_uuid(ids[0]) {
            None => rest,
            Some(u) => match spec_traverse(rows, u, dir, rel, depth, max_depth) {
                None => rest,
                Some(t) => seq![t] + rest,
            },
        }
    }
}

/// Visiting splits over concatenation of identifier lists.
pub proof fn lemma_children_concat(
    rows: Seq<RowView>,
    a: Seq<Seq<char>>,
    b: Seq<Seq<char>>,
    dir: Seq<char>,
    rel: Option<Seq<char>>,
    depth: int,
    max_depth: int,
)
    ensures
        spec_traverse_children(rows, a + b, dir, rel, depth, max_depth) == spec_traverse_children(
            rows,
            a,
            dir,
            rel,
            depth,
            max_depth,
        ) + spec_traverse_children(rows, b, dir, rel, depth, max_depth),
    decreases a.len(),
{
    if depth > max_depth {
        assert(spec_traverse_children(rows, a + b, dir, rel, depth, max_depth) =~=
            spec_traverse_children(rows, a, dir, rel, depth, max_depth) + spec_traverse_children(
            rows,
            b,
            dir,
            rel,
            depth,
            max_depth,
        ));
    } else if a.len() == 0 {
        assert(a + b =~= b);
        assert(spec_traverse_children(rows, a + b, dir, rel, depth, max_depth) =~=
            spec_traverse_children(rows, a, dir, rel, depth, max_depth) + spec_traverse_children(
            rows,
            b,
            dir,
            rel,
            depth,
            max_depth,
        ));
    } else {
        assert((a + b)[0] == a[0]);
        assert((a + b).drop_first() =~= a.drop_first() + b);
        lemma_children_concat(rows, a.drop_first(), b, dir, rel, depth, max_depth);
        assert(spec_traverse_children(rows, a + b, dir, rel, depth, max_depth) =~=
            spec_traverse_children(rows, a, dir, rel, depth, max_depth) + spec_traverse_children(
            rows,
            b,
            dir,
            rel,
            depth,
            max_depth,
        ));
    }
}

/// The value of an optional traversal result.
pub open spec fn opt_traversal_view(r: Option<TraversalNode>) -> Option<TraversalView> {
    match r {
        None => None,
        Some(t) => Some(traversal_view(t)),
    }
}

/// Visits partition `id` at `depth`: returns the subtree the scan denotes,
/// or `None` when the scan is empty.
#[verifier::rlimit(100)]
pub fn visit(
    store: &NodeStore,
    id: u128,
    direction: &Direction,
    relation_kind: &Option<Role>,
    depth: usize,
    max_depth: usize,
) -> (r: Option<TraversalNode>)
    requires
        depth <= max_depth,
    ensures
        opt_traversal_view(r) == spec_traverse(
            store@,
            id,
            direction.view(),
            role_opt_text(*relation_kind),
            depth as int,
            max_depth as int,
        ),
    decreases max_depth - depth,
{
    let ghost dir = direction.view();
    let ghost rel = role_opt_text(*relation_kind);
    let scan = store.get_node_traversal(id, direction.as_string(), role_to_opt_string(relation_kind));
    let rows = match scan {
        None => {
            proof {
                assert(scan_views(store@, id, dir, rel).len() == 0);
            }
            return None;
        },
        Some(rows) => rows,
    };
    proof {
        assert(rows@.map_values(|m: RelationModel| m@) == scan_views(store@, id, dir, rel));
    }
    let mut node = TraversalNode::from(&rows, depth);
    let ghost scan_rows = scan_views(store@, id, dir, rel);
    let ghost ids = scan_rows.subrange(1, scan_rows.len() as int).map_values(
        |m: RelRowView| m.relates_to,
    );
    proof {
        assert(node.relation_ids@.map_values(|s: String| s@) =~= ids);
    }
    if depth < max_depth && node.relation_ids.len() > 0 {
        let k = node.relation_ids.len();
        let ghost head = node;
        for idx in 0..k
            invariant
                depth < max_depth,
                dir == direction.view(),
                rel == role_opt_text(*relation_kind),
                k == node.relation_ids@.len(),
                node.uuid == head.uuid,
                node.depth == head.depth,
                node.name@ == head.name@,
                node.node_type@ == head.node_type@,
                node.relation_ids@.map_values(|s: String| s@) == ids,
                ids.len() == k,
                traversal_views(node.relations@) == spec_traverse_children(
                    store@,
                    ids.subrange(0, idx as int),
                    dir,
                    rel,
                    depth + 1,
                    max_depth as int,
                ),
            decreases k - idx,
        {
            let ghost pre_children = traversal_views(node.relations@);
            let ghost pre = ids.subrange(0, idx as int);
            let ghost cur = ids.subrange(0, idx + 1);
            let ghost one = seq![ids[idx as int]];
            proof {
                assert(cur =~= pre + one);
                lemma_children_concat(store@, pre, one, dir, rel, depth + 1, max_depth as int);
                assert(one.drop_first() =~= Seq::<Seq<char>>::empty());
                assert(spec_traverse_children(
                    store@,
                    one.drop_first(),
                    dir,
                    rel,
                    depth + 1,
                    max_depth as int,
                ) =~= Seq::<TraversalView>::empty());
                assert(ids[idx as int] == node.relation_ids@.map_values(|s: String| s@)[idx as int]);
                assert(node.relation_ids@[idx as int]@ == ids[idx as int]);
            }
            match parse_uuid(node.relation_ids[idx].as_str()) {
                None => {
                    proof {
                        assert(spec_parse_uuid(ids[idx as int]) is None);
                        assert(spec_traverse_children(store@, one, dir, rel, depth + 1, max_depth as int)
                            =~= Seq::<TraversalView>::empty());
                        assert(traversal_views(node.relations@) =~= spec_traverse_children(
                            store@,
                            cur,
                            dir,
                            rel,
                            depth + 1,
                            max_depth as int,
                        ));
                    }
                },
                Some(u) => {
                    proof {
                        assert(spec_parse_uuid(ids[idx as int]) == Some(u));
                    }
                    match visit(store, u, direction, relation_kind, depth + 1, max_depth) {
                        None => {
                            proof {
                                assert(spec_traverse(store@, u, dir, rel, depth + 1, max_depth as int)
                                    is None);
                                assert(spec_traverse_children(
                                    store@,
                                    one,
                                    dir,
                                    rel,
                                    depth + 1,
                                    max_depth as int,
                                ) =~= Seq::<TraversalView>::empty());
                                assert(traversal_views(node.relations@) =~= spec_traverse_children(
                                    store@,
                                    cur,
                                    dir,
                                    rel,
                                    depth + 1,
                                    max_depth as int,
                                ));
                            }
                        },
                        Some(child) => {
                            proof {
                                lemma_traversal_views_push(node.relations@, child);
                            }
                            node.relations.push(child);
                            proof {
                                let t = traversal_view(child);
                                assert(spec_traverse(store@, u, dir, rel, depth + 1, max_depth as int)
                                    == Some(t));
                                assert(spec_traverse_children(
                                    store@,
                                    one,
                                    dir,
                                    rel,
                                    depth + 1,
                                    max_depth as int,
                                ) =~= seq![t]);
                                assert(traversal_views(node.relations@) =~= pre_children.push(t));
                                assert(traversal_views(node.relations@) =~= spec_traverse_children(
                                    store@,
                                    cur,
                                    dir,
                                    rel,
                                    depth + 1,
                                    max_depth as int,
                                ));
                            }
                        },
                    }
                },
            }
            proof {
                assert(traversal_views(node.relations@) =~= spec_traverse_children(
                    store@,
                    cur,
                    dir,
                    rel,
                    depth + 1,
                    max_depth as int,
                ));
            }
        }
        proof {
            assert(ids.subrange(0, k as int) =~= ids);
        }
    }
    proof {
        assert(traversal_view(node) =~= spec_traverse(
            store@,
            id,
            dir,
            rel,
            depth as int,
            max_depth as int,
        )->0);
    }
    Some(node)
}

/// Serves one traversal request from `seed`: rejects an invalid request
/// with its validation message, and otherwise walks from the seed at depth
/// zero.
pub fn traverse_node(store: &NodeStore, seed: u128, query: &TraversalNodeQuery) -> (r: Result<
    Option<TraversalNode>,
    String,
>)
    ensures
        r is Err <==> !valid_query(*query),
        query.direction@.len() == 0 ==> (r matches Err(m) && m@
            == "Direction cannot be empty. Please use 'in' or 'out'."@),
        query.direction@.len() > 0 && !valid_direction(query.direction@) ==> (r matches Err(m)
            && m@ == "Direction can only be 'in' or 'out'."@),
        (valid_direction(query.direction@) && !valid_query(*query)) ==> (r matches Err(m) && m@
            == "Relation type can only be 'parent' or 'child'."@),
        valid_query(*query) ==> (r matches Ok(t) && opt_traversal_view(t) == spec_traverse(
            store@,
            seed,
            norm_direction(query.direction@),
            norm_relation(query.relation_type),
            0,
            query.max_depth as int,
        )),
{
    match query.validate() {
        Err(m) => Err(m),
        Ok(()) => {
            let direction = match parse_direction(query.direction.as_str()) {
                Some(d) => d,
                None => {
                    proof {
                        assert(false);
                    }
                    Direction::In
                },
            };
            let relation_kind: Option<Role> = match &query.relation_type {
                None => None,
                Some(k) => match parse_relation_kind(k.as_str()) {
                    Some(role) => Some(role),
                    None => {
                        proof {
                            assert(false);
                        }
                        None
                    },
                },
            };
            proof {
                assert(direction.view() == norm_direction(query.direction@));
                assert(role_opt_text(relation_kind) == norm_relation(query.relation_type));
            }
            Ok(visit(store, seed, &direction, &relation_kind, 0, query.max_depth))
        },
    }
}

/// The stored direction text an accepted direction argument scans for.
pub open spec fn norm_direction(d: Seq<char>) -> Seq<char> {
    if ascii_eq(d, "in"@) {
        "In"@
    } else {
        "Out"@
    }
}

/// The stored relation text an accepted relation-kind argument scans for.
pub open spec fn norm_relation(k: Option<String>) -> Option<Seq<char>> {
    match k {
        None => None,
        Some(s) => Some(
            if ascii_eq(s@, "parent"@) {
                "Parent"@
            } else {
                "Child"@
            },
        ),
    }
}

/// Every node of a traversal result carries a depth no greater than `max`.
pub open spec fn depths_bounded(t: TraversalView, max: int) -> bool
    decreases t,
{
    t.depth <= max && (forall|i: int|
        0 <= i < t.relations.len() ==> depths_bounded(#[trigger] t.relations[i], max))
}

/// Every node's subtrees carry its own depth plus one.
pub open spec fn depths_stepwise(t: TraversalView) -> bool
    decreases t,
{
    forall|i: int|
        0 <= i < t.relations.len() ==> ((#[trigger] t.relations[i]).depth == t.depth + 1
            && depths_stepwise(t.relations[i]))
}

/// Depth bound: a visit at `depth` yields a tree whose root carries `depth`
/// itself, whose every node stays within the bound, and whose every step
/// down adds exactly one.
pub proof fn lemma_traverse_depth_bound(
    rows: Seq<RowView>,
    id: u128,
    dir: Seq<char>,
    rel: Option<Seq<char>>,
    depth: int,
    max_depth: int,
)
    requires
        0 <= depth <= max_depth,
    ensures
        spec_traverse(rows, id, dir, rel, depth, max_depth) matches Some(t) ==> (t.depth == depth
            && depths_bounded(t, max_depth) && depths_stepwise(t)),
    decreases max_depth - depth, 0int,
{
    let scan = scan_views(rows, id, dir, rel);
    if scan.len() > 0 {
        let ids = scan.subrange(1, scan.len() as int).map_values(|m: RelRowView| m.relates_to);
        let t = spec_traverse(rows, id, dir, rel, depth, max_depth)->0;
        if depth < max_depth && ids.len() > 0 {
            lemma_children_depth_bound(rows, ids, dir, rel, depth + 1, max_depth);
            assert(t.relations == spec_traverse_children(rows, ids, dir, rel, depth + 1, max_depth));
            assert(depths_bounded(t, max_depth));
            assert(depths_stepwise(t));
        } else {
            assert(t.relations =~= Seq::<TraversalView>::empty());
            assert(depths_bounded(t, max_depth));
            assert(depths_stepwise(t));
        }
    }
}

/// Traversal completeness: below the depth bound, every listed peer whose
/// identifier parses and whose own scan is non-empty contributes its subtree
/// to the node's children; together with the depth bound, a walk stops only
/// at the bound or at peers that do not resolve.
pub proof fn lemma_traverse_complete(
    rows: Seq<RowView>,
    id: u128,
    dir: Seq<char>,
    rel: Option<Seq<char>>,
    depth: int,
    max_depth: int,
)
    requires
        0 <= depth < max_depth,
    ensures
        spec_traverse(rows, id, dir, rel, depth, max_depth) matches Some(t) ==> forall|j: int|
            0 <= j < t.relation_ids.len() ==> (spec_parse_uuid(#[trigger] t.relation_ids[j]) matches Some(
                u,
            ) ==> (spec_traverse(rows, u, dir, rel, depth + 1, max_depth) matches Some(c)
                ==> t.relations.contains(c))),
{
    let scan = scan_views(rows, id, dir, rel);
    if scan.len() > 0 {
        let t = spec_traverse(rows, id, dir, rel, depth, max_depth)->0;
        let ids = scan.subrange(1, scan.len() as int).map_values(|m: RelRowView| m.relates_to);
        if ids.len() > 0 {
            lemma_traverse_children_complete(rows, ids, dir, rel, depth + 1, max_depth);
            assert(t.relation_ids == ids);
            assert(t.relations == spec_traverse_children(rows, ids, dir, rel, depth + 1, max_depth));
        }
    }
}

proof fn lemma_traverse_children_complete(
    rows: Seq<RowView>,
    ids: Seq<Seq<char>>,
    dir: Seq<char>,
    rel: Option<Seq<char>>,
    depth: int,
    max_depth: int,
)
    requires
        0 <= depth <= max_depth,
    ensures
        forall|j: int|
            0 <= j < ids.len() ==> (spec_parse_uuid(#[trigger] ids[j]) matches Some(u) ==> (
            spec_traverse(rows, u, dir, rel, depth, max_depth) matches Some(c)
                ==> spec_traverse_children(rows, ids, dir, rel, depth, max_depth).contains(c))),
    decreases ids.len(),
{
    if ids.len() > 0 {
        lemma_traverse_children_complete(rows, ids.drop_first(), dir, rel, depth, max_depth);
        let rest = spec_traverse_children(rows, ids.drop_first(), dir, rel, depth, max_depth);
        let whole = spec_traverse_children(rows, ids, dir, rel, depth, max_depth);
        assert forall|j: int|
            0 <= j < ids.len() implies (spec_parse_uuid(#[trigger] ids[j]) matches Some(u) ==> (
        spec_traverse(rows, u, dir, rel, depth, max_depth) matches Some(c) ==> whole.contains(
            c,
        ))) by {
            match spec_parse_uuid(ids[j]) {
                None => {},
                Some(u) => {
                    match spec_traverse(rows, u, dir, rel, depth, max_depth) {
                        None => {},
                        Some(c) => {
                            if j == 0 {
                                assert(whole == seq![c] + rest);
                                assert(whole[0] == c);
                                assert(whole.contains(c));
                            } else {
                                assert(ids.drop_first()[j - 1] == ids[j]);
                                assert(rest.contains(c));
                                let k = choose|k: int| 0 <= k < rest.len() && rest[k] == c;
                                match spec_parse_uuid(ids[0]) {
                                    None => {
                                        assert(whole == rest);
                                        assert(whole.contains(c));
                                    },
                                    Some(u0) => {
                                        match spec_traverse(rows, u0, dir, rel, depth, max_depth) {
                                            None => {
                                                assert(whole == rest);
                                                assert(whole.contains(c));
                                            },
                                            Some(t0) => {
                                                assert(whole == seq![t0] + rest);
                                                assert(whole[1 + k] == c);
                                                assert(whole.contains(c));
                                            },
                                        }
                                    },
                                }
                            }
                        },
                    }
                },
            }
        }
    }
}

proof fn lemma_children_depth_bound(
    rows: Seq<RowView>,
    ids: Seq<Seq<char>>,
    dir: Seq<char>,
    rel: Option<Seq<char>>,
    depth: int,
    max_depth: int,
)
    requires
        0 <= depth <= max_depth,
    ensures
        forall|i: int|
            0 <= i < spec_traverse_children(rows, ids, dir, rel, depth, max_depth).len() ==> ((
            #[trigger] spec_traverse_children(rows, ids, dir, rel, depth, max_depth)[i]).depth
                == depth && depths_bounded(
                spec_traverse_children(rows, ids, dir, rel, depth, max_depth)[i],
                max_depth,
            ) && depths_stepwise(spec_traverse_children(rows, ids, dir, rel, depth, max_depth)[i])),
    decreases max_depth - depth, ids.len(),
{
    if ids.len() == 0 || depth > max_depth {
    } else {
        lemma_children_depth_bound(rows, ids.drop_first(), dir, rel, depth, max_depth);
        let rest = spec_traverse_children(rows, ids.drop_first(), dir, rel, depth, max_depth);
        match spec_parse_uuid(ids[0]) {
            None => {},
            Some(u) => {
                lemma_traverse_depth_bound(rows, u, dir, rel, depth, max_depth);
                match spec_traverse(rows, u, dir, rel, depth, max_depth) {
                    None => {},
                    Some(t) => {
                        assert forall|i: int|
                            0 <= i < spec_traverse_children(
                                rows,
                                ids,
                                dir,
                                rel,
                                depth,
                                max_depth,
                            ).len() implies ((#[trigger] spec_traverse_children(
                            rows,
                            ids,
                            dir,
                            rel,
                            depth,
                            max_depth,
                        )[i]).depth == depth && depths_bounded(
                            spec_traverse_children(rows, ids, dir, rel, depth, max_depth)[i],
                            max_depth,
                        ) && depths_stepwise(
                            spec_traverse_children(rows, ids, dir, rel, depth, max_depth)[i],
                        )) by {
                            if i > 0 {
                                assert(spec_traverse_children(rows, ids, dir, rel, depth, max_depth)[i]
                                    == rest[i - 1]);
                            }
                        }
                    },
                }
            },
        }
    }
}

} // verus!
