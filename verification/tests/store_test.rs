use rustfastingest::flatten::process_nodes;
use rustfastingest::identity::path_to_uuid;
use rustfastingest::input::{RawNode, RawTag};
use rustfastingest::relations::RelIndex;
use rustfastingest::rows::NodeModel;
use rustfastingest::store::{NodeStore, StoreError};
use rustfastingest::traverse::{traverse_node, TraversalNodeQuery};
use rustfastingest::uuid_text::uuid_to_string;

fn chain(names: &[&str], kind: &str) -> RawNode {
    let mut node: Option<RawNode> = None;
    for name in names.iter().rev() {
        node = Some(RawNode {
            name: name.to_string(),
            type_field: kind.to_string(),
            children: node.into_iter().collect(),
            tags: None,
            total_children: Some(1),
        });
    }
    node.unwrap()
}

fn tagged_tree_store() -> NodeStore {
    let child = RawNode {
        name: "c".to_string(),
        type_field: "C".to_string(),
        children: vec![],
        tags: None,
        total_children: Some(0),
    };
    let root = RawNode {
        name: "p".to_string(),
        type_field: "P".to_string(),
        children: vec![child],
        tags: Some(vec![RawTag {
            type_field: "color".to_string(),
            value: "green".to_string(),
        }]),
        total_children: Some(1),
    };
    let index = RelIndex::empty();
    let rows = process_nodes("i", vec![root], &index);
    let mut store = NodeStore::new();
    store.insert_nodes(rows);
    store
}

// Round trip: the node read back carries the input's tags and exactly the
// expected edges.
#[test]
fn round_trip_get_node() {
    let store = tagged_tree_store();
    let p_id = path_to_uuid("i", "/p");
    let c_id = path_to_uuid("i", "/p/c");

    let node = store.get_node(p_id, true, true).expect("node exists");
    assert_eq!(node.uuid, p_id);
    assert_eq!(node.ingestion_id, "i");
    assert_eq!(node.name, "p");
    assert_eq!(node.path, "/p");
    assert_eq!(node.node_type, "P");
    assert_eq!(node.tags, vec![("color".to_string(), "green".to_string())]);
    assert_eq!(node.relations.len(), 1);
    assert_eq!(node.relations[0].rel_type, "Child");
    assert!(node.relations[0].outbound);
    assert_eq!(node.relations[0].target_name, "c");
    assert_eq!(node.relations[0].relates_to, uuid_to_string(c_id));

    let child = store.get_node(c_id, true, true).expect("child exists");
    assert_eq!(child.relations.len(), 1);
    assert_eq!(child.relations[0].rel_type, "Parent");
    assert!(!child.relations[0].outbound);
    assert_eq!(child.relations[0].relates_to, uuid_to_string(p_id));
}

// The tag and edge flags narrow the read as the underlying queries do.
#[test]
fn get_node_flags() {
    let store = tagged_tree_store();
    let p_id = path_to_uuid("i", "/p");

    let bare = store.get_node(p_id, false, false).expect("node exists");
    assert!(bare.tags.is_empty());
    assert!(bare.relations.is_empty());

    let tags_only = store.get_node(p_id, true, false).expect("node exists");
    assert_eq!(tags_only.tags.len(), 1);
    assert!(tags_only.relations.is_empty());
}

// Missing seed: a point read of an identifier nothing was stored under.
#[test]
fn get_node_missing() {
    let store = tagged_tree_store();
    let random = uuid::Uuid::new_v4().as_u128();
    assert!(store.get_node(random, true, true).is_none());

    let query = TraversalNodeQuery {
        direction: "in".to_string(),
        relation_type: None,
        max_depth: 3,
    };
    let result = traverse_node(&store, random, &query).expect("valid query");
    assert!(result.is_none());
}

#[test]
fn get_node_by_id_errors() {
    let store = tagged_tree_store();
    assert_eq!(store.get_node_by_id("123"), Err(StoreError::InvalidId));
    let absent = uuid_to_string(uuid::Uuid::new_v4().as_u128());
    assert_eq!(store.get_node_by_id(&absent), Err(StoreError::NotFound));
    let p_id = path_to_uuid("i", "/p");
    let node = store.get_node_by_id(&uuid_to_string(p_id)).expect("node exists");
    assert_eq!(node.uuid, p_id);
    assert_eq!(node.name, "p");
}

// Self-row first: every non-empty partition scan starts with the row whose
// clustering columns are both empty.
#[test]
fn scan_self_row_first() {
    let store = tagged_tree_store();
    for path in ["/p", "/p/c"] {
        let id = path_to_uuid("i", path);
        for dir in ["In", "Out"] {
            let rows = store
                .get_node_traversal(id, dir.to_string(), None)
                .expect("partition is non-empty");
            let first = &rows[0];
            assert_eq!(first.direction.clone().unwrap_or_default(), "");
            assert_eq!(first.relation.clone().unwrap_or_default(), "");
        }
    }
}

// Traversal depth cap: a chain walked outward over Child edges stops at the
// bound; deeper nodes are absent.
#[test]
fn traversal_depth_cap() {
    let root = chain(&["n0", "n1", "n2", "n3"], "K");
    let index = RelIndex::empty();
    let rows = process_nodes("i", vec![root], &index);
    let mut store = NodeStore::new();
    store.insert_nodes(rows);

    let n0 = path_to_uuid("i", "/n0");
    let n1 = path_to_uuid("i", "/n0/n1");
    let n2 = path_to_uuid("i", "/n0/n1/n2");

    let query = TraversalNodeQuery {
        direction: "out".to_string(),
        relation_type: Some("child".to_string()),
        max_depth: 2,
    };
    let tree = traverse_node(&store, n0, &query)
        .expect("valid query")
        .expect("seed exists");

    assert_eq!(tree.uuid, n0);
    assert_eq!(tree.depth, 0);
    assert_eq!(tree.name, "n0");
    assert_eq!(tree.relations.len(), 1);
    let t1 = &tree.relations[0];
    assert_eq!(t1.uuid, n1);
    assert_eq!(t1.depth, 1);
    assert_eq!(t1.relations.len(), 1);
    let t2 = &t1.relations[0];
    assert_eq!(t2.uuid, n2);
    assert_eq!(t2.depth, 2);
    // The bound stops the walk: n2's peer is referenced but not visited.
    assert!(t2.relations.is_empty());
    assert_eq!(t2.relation_ids.len(), 1);
}

// A peer reference that is not an identifier text contributes no subtree;
// the walk goes on without it.
#[test]
fn traversal_skips_unparseable_peer() {
    let id = path_to_uuid("i", "/x");
    let mut store = NodeStore::new();
    store.insert_node(NodeModel {
        uuid: id,
        direction: None,
        relation: None,
        relates_to: None,
        name: "x".to_string(),
        ingestion_id: "i".to_string(),
        path: "/x".to_string(),
        node_type: "K".to_string(),
        tags: Some(vec![]),
    });
    store.insert_node(NodeModel {
        uuid: id,
        direction: Some("Out".to_string()),
        relation: Some("Child".to_string()),
        relates_to: Some("not-an-identifier".to_string()),
        name: "y".to_string(),
        ingestion_id: "i".to_string(),
        path: "".to_string(),
        node_type: "".to_string(),
        tags: None,
    });

    let query = TraversalNodeQuery {
        direction: "out".to_string(),
        relation_type: None,
        max_depth: 3,
    };
    let tree = traverse_node(&store, id, &query)
        .expect("valid query")
        .expect("seed exists");
    assert_eq!(tree.relation_ids, vec!["not-an-identifier".to_string()]);
    assert!(tree.relations.is_empty());
}

// An invalid traversal request is rejected before any read.
#[test]
fn traversal_rejects_invalid() {
    let store = tagged_tree_store();
    let p_id = path_to_uuid("i", "/p");
    let query = TraversalNodeQuery {
        direction: "sideways".to_string(),
        relation_type: None,
        max_depth: 1,
    };
    assert!(traverse_node(&store, p_id, &query).is_err());
}

// A zero depth bound returns the seed alone, its peers referenced only by
// identifier.
#[test]
fn traversal_depth_zero() {
    let store = tagged_tree_store();
    let p_id = path_to_uuid("i", "/p");
    let query = TraversalNodeQuery {
        direction: "out".to_string(),
        relation_type: None,
        max_depth: 0,
    };
    let tree = traverse_node(&store, p_id, &query)
        .expect("valid query")
        .expect("seed exists");
    assert_eq!(tree.uuid, p_id);
    assert!(tree.relations.is_empty());
    assert_eq!(tree.relation_ids.len(), 1);
}
