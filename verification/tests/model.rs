use rustfastingest::flatten::{flatten_nodes, process_nodes};
use rustfastingest::identity::path_to_uuid;
use rustfastingest::input::{extract_tag_pairs, RawNode, RawTag};
use rustfastingest::relations::RelIndex;
use rustfastingest::uuid_text::uuid_to_string;

fn leaf(name: &str, kind: &str) -> RawNode {
    RawNode {
        name: name.to_string(),
        type_field: kind.to_string(),
        children: vec![],
        tags: None,
        total_children: Some(0),
    }
}

#[test]
fn test_convert_tag() {
    let tags = vec![
        RawTag {
            type_field: "type_1".to_string(),
            value: "value_1".to_string(),
        },
        RawTag {
            type_field: "type_2".to_string(),
            value: "value2".to_string(),
        },
    ];
    let tags1 = tags.clone();
    let result = extract_tag_pairs(tags1);
    assert_eq!(result.len(), 2);
}

#[test]
fn test_flatten_nodes() {
    let ingestion_id = "ingestion_id";
    let raw_node_1 = RawNode {
        name: "node1".to_string(),
        type_field: "type1".to_string(),
        children: vec![],
        tags: None,
        total_children: Some(0),
    };
    let raw_node_2 = RawNode {
        name: "node2".to_string(),
        type_field: "type_2".to_string(),
        children: vec![raw_node_1],
        tags: None,
        total_children: Some(1),
    };
    let raw_node_3 = RawNode {
        name: "node3".to_string(),
        type_field: "type_3".to_string(),
        children: vec![raw_node_2],
        tags: None,
        total_children: Some(1),
    };

    let raw_nodes = vec![raw_node_3];

    let path = "".to_string();
    let parent = None;
    let mut nodes = vec![];
    let relations = RelIndex::empty();
    flatten_nodes(
        ingestion_id,
        &raw_nodes,
        &path,
        &parent,
        &mut nodes,
        &relations,
    );
    println!("nodes={:#?}", nodes);
    // Three self-rows, two parent edges, two child edges.
    assert_eq!(nodes.len(), 7);
}

// Single root, no children, no tags: exactly one row, the self-row, with
// every column as derived from the input.
#[test]
fn single_root_self_row() {
    let nodes = vec![leaf("r", "K")];
    let index = RelIndex::empty();
    let rows = process_nodes("i", nodes, &index);
    assert_eq!(rows.len(), 1);
    let row = &rows[0];
    assert_eq!(row.uuid, path_to_uuid("i", "/r"));
    assert!(row.direction.is_none());
    assert!(row.relation.is_none());
    assert!(row.relates_to.is_none());
    assert_eq!(row.name, "r");
    assert_eq!(row.ingestion_id, "i");
    assert_eq!(row.path, "/r");
    assert_eq!(row.node_type, "K");
    assert_eq!(row.tags, Some(vec![]));
}

// Parent/child: four rows, the two self-rows plus one Child edge on the
// parent and one Parent edge on the child, referencing each other.
#[test]
fn parent_child_rows() {
    let child = leaf("c", "C");
    let parent = RawNode {
        name: "p".to_string(),
        type_field: "P".to_string(),
        children: vec![child],
        tags: None,
        total_children: Some(1),
    };
    let index = RelIndex::empty();
    let rows = process_nodes("i", vec![parent], &index);
    assert_eq!(rows.len(), 4);

    let p_id = path_to_uuid("i", "/p");
    let c_id = path_to_uuid("i", "/p/c");

    let self_p = rows
        .iter()
        .find(|r| r.uuid == p_id && r.direction.is_none())
        .expect("self-row of p");
    assert_eq!(self_p.name, "p");
    assert_eq!(self_p.path, "/p");
    assert_eq!(self_p.node_type, "P");

    let self_c = rows
        .iter()
        .find(|r| r.uuid == c_id && r.direction.is_none())
        .expect("self-row of c");
    assert_eq!(self_c.name, "c");
    assert_eq!(self_c.path, "/p/c");
    assert_eq!(self_c.node_type, "C");

    let child_edge = rows
        .iter()
        .find(|r| r.uuid == p_id && r.direction.is_some())
        .expect("child edge on p");
    assert_eq!(child_edge.direction.as_deref(), Some("Out"));
    assert_eq!(child_edge.relation.as_deref(), Some("Child"));
    assert_eq!(child_edge.relates_to.as_deref(), Some(uuid_to_string(c_id).as_str()));
    assert_eq!(child_edge.name, "c");

    let parent_edge = rows
        .iter()
        .find(|r| r.uuid == c_id && r.direction.is_some())
        .expect("parent edge on c");
    assert_eq!(parent_edge.direction.as_deref(), Some("In"));
    assert_eq!(parent_edge.relation.as_deref(), Some("Parent"));
    assert_eq!(parent_edge.relates_to.as_deref(), Some(uuid_to_string(p_id).as_str()));
    assert_eq!(parent_edge.name, "p");
}

// An empty document flattens to no rows at all.
#[test]
fn empty_document() {
    let index = RelIndex::empty();
    let rows = process_nodes("i", vec![], &index);
    assert!(rows.is_empty());
}

// Duplicate tag keys are kept in order, not merged.
#[test]
fn duplicate_tag_keys() {
    let tags = vec![
        RawTag {
            type_field: "k".to_string(),
            value: "v1".to_string(),
        },
        RawTag {
            type_field: "k".to_string(),
            value: "v2".to_string(),
        },
    ];
    let pairs = extract_tag_pairs(tags);
    assert_eq!(
        pairs,
        vec![
            ("k".to_string(), "v1".to_string()),
            ("k".to_string(), "v2".to_string())
        ]
    );
}

// The flattener emits every node's self-row before that node's edge rows.
#[test]
fn self_row_precedes_edges() {
    let child = leaf("c", "C");
    let parent = RawNode {
        name: "p".to_string(),
        type_field: "P".to_string(),
        children: vec![child],
        tags: Some(vec![RawTag {
            type_field: "k".to_string(),
            value: "v".to_string(),
        }]),
        total_children: Some(1),
    };
    let index = RelIndex::empty();
    let rows = process_nodes("i", vec![parent], &index);
    for (i, row) in rows.iter().enumerate() {
        if row.direction.is_some() {
            let owner = rows
                .iter()
                .position(|r| r.uuid == row.uuid && r.direction.is_none())
                .expect("self-row exists");
            assert!(owner < i);
        }
    }
}
