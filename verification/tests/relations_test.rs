use rustfastingest::flatten::{flatten_nodes, process_nodes};
use rustfastingest::identity::{path_to_uuid, url_to_uuid};
use rustfastingest::input::{RawNode, RawRelation, RawTag};
use rustfastingest::relations::{join_paths, process_relations, Relation};
use rustfastingest::uuid_text::uuid_to_string;

#[test]
fn test_process_relations() {
    let type_field_1 = "type_field_1".to_string();
    let type_field_2 = "type_field_2".to_string();

    let source_a = vec!["sourceA1".to_string()];
    let target_a = vec!["targetA1".to_string()];

    let source_b = vec!["sourceB1".to_string(), "sourceB2".to_string()];
    let target_b = vec!["targetB1".to_string(), "targetB2".to_string()];

    let tags1 = Some(vec![RawTag {
        type_field: "tag_type_x".to_string(),
        value: "value".to_string(),
    }]);
    let tags2 = None;

    let relations = vec![
        RawRelation {
            type_field: type_field_1,
            source: source_a,
            target: target_a,
            tags: tags1,
        },
        RawRelation {
            type_field: type_field_2,
            source: source_b,
            target: target_b,
            tags: tags2,
        },
    ];
    let result = process_relations("test", relations);
    println!("{:?}", result.get("/sourceA1"));
    assert_eq!(result.len(), 2);
}

#[test]
fn test_join_paths() {
    let path = vec!["a".to_string(), "b".to_string(), "c".to_string()];
    let result = join_paths(&path);
    assert_eq!(result, "a/b/c");

    let single_path = vec!["a".to_string()];
    let result = join_paths(&single_path);
    assert_eq!(result, "a");
}

// A relation's index entries: one outbound edge at the source path whose
// peer is the target, one inbound edge at the target path whose peer is the
// source.
#[test]
fn relation_index_symmetry() {
    let relations = vec![RawRelation {
        type_field: "linksTo".to_string(),
        source: vec!["a".to_string()],
        target: vec!["b".to_string()],
        tags: None,
    }];
    let index = process_relations("i", relations);

    let at_a = index.get("/a");
    assert_eq!(at_a.len(), 1);
    assert_eq!(at_a[0].rel_type, "linksTo");
    assert!(at_a[0].outbound);
    assert_eq!(at_a[0].target_name, "b");
    assert_eq!(at_a[0].relates_to, uuid_to_string(url_to_uuid("i".to_string(), "/b".to_string())));

    let at_b = index.get("/b");
    assert_eq!(at_b.len(), 1);
    assert_eq!(at_b[0].rel_type, "linksTo");
    assert!(!at_b[0].outbound);
    assert_eq!(at_b[0].target_name, "a");
    assert_eq!(at_b[0].relates_to, uuid_to_string(url_to_uuid("i".to_string(), "/a".to_string())));
}

// Explicit relation across cousins: two extra rows, the relation kind in
// opposite directions, whose `relates_to` fields are each other's ids.
#[test]
fn explicit_relation_rows() {
    let roots = vec![
        RawNode {
            name: "a".to_string(),
            type_field: "A".to_string(),
            children: vec![],
            tags: None,
            total_children: Some(0),
        },
        RawNode {
            name: "b".to_string(),
            type_field: "B".to_string(),
            children: vec![],
            tags: None,
            total_children: Some(0),
        },
    ];
    let relations = vec![RawRelation {
        type_field: "linksTo".to_string(),
        source: vec!["a".to_string()],
        target: vec!["b".to_string()],
        tags: None,
    }];
    let index = process_relations("i", relations);
    let mut rows = vec![];
    flatten_nodes("i", &roots, &"".to_string(), &None, &mut rows, &index);
    assert_eq!(rows.len(), 4);

    let a_id = path_to_uuid("i", "/a");
    let b_id = path_to_uuid("i", "/b");

    let out_edge = rows
        .iter()
        .find(|r| r.uuid == a_id && r.direction.is_some())
        .expect("Out edge on a");
    assert_eq!(out_edge.direction.as_deref(), Some("Out"));
    assert_eq!(out_edge.relation.as_deref(), Some("linksTo"));
    assert_eq!(out_edge.relates_to.as_deref(), Some(uuid_to_string(b_id).as_str()));
    assert_eq!(out_edge.name, "b");

    let in_edge = rows
        .iter()
        .find(|r| r.uuid == b_id && r.direction.is_some())
        .expect("In edge on b");
    assert_eq!(in_edge.direction.as_deref(), Some("In"));
    assert_eq!(in_edge.relation.as_deref(), Some("linksTo"));
    assert_eq!(in_edge.relates_to.as_deref(), Some(uuid_to_string(a_id).as_str()));
    assert_eq!(in_edge.name, "a");
}

// Row fanout: N self-rows, N minus roots parent edges, one row per child
// link, and two rows per relation whose endpoints name document nodes.
#[test]
fn row_fanout_count() {
    let roots = vec![RawNode {
        name: "p".to_string(),
        type_field: "P".to_string(),
        children: vec![
            RawNode {
                name: "c1".to_string(),
                type_field: "C".to_string(),
                children: vec![],
                tags: None,
                total_children: Some(0),
            },
            RawNode {
                name: "c2".to_string(),
                type_field: "C".to_string(),
                children: vec![],
                tags: None,
                total_children: Some(0),
            },
        ],
        tags: None,
        total_children: Some(2),
    }];
    let relations = vec![RawRelation {
        type_field: "linksTo".to_string(),
        source: vec!["p".to_string(), "c1".to_string()],
        target: vec!["p".to_string(), "c2".to_string()],
        tags: None,
    }];
    let index = process_relations("i", relations);
    let rows = process_nodes("i", roots, &index);
    // 3 nodes + 2 parent edges + 2 child edges + 2 relation edges.
    assert_eq!(rows.len(), 9);
}

// A repeated relation indexes twice: duplicates are permitted and their
// insertion order is kept.
#[test]
fn duplicate_relations_kept_in_order() {
    let rel = RawRelation {
        type_field: "linksTo".to_string(),
        source: vec!["a".to_string()],
        target: vec!["b".to_string()],
        tags: None,
    };
    let index = process_relations("i", vec![rel.clone(), rel]);
    assert_eq!(index.len(), 2);
    let at_a = index.get("/a");
    assert_eq!(at_a.len(), 2);
    assert_eq!(at_a[0], at_a[1]);
}

// The peer name is the last path segment, or `default` for an empty path.
#[test]
fn relation_peer_name() {
    let r = Relation::new("i".to_string(), "k".to_string(), "x/y/z".to_string(), true);
    assert_eq!(r.target_name, "z");
    let r = Relation::new("i".to_string(), "k".to_string(), "plain".to_string(), false);
    assert_eq!(r.target_name, "plain");
    let r = Relation::new("i".to_string(), "k".to_string(), "ends/".to_string(), true);
    assert_eq!(r.target_name, "");
    let r = Relation::new("i".to_string(), "k".to_string(), "".to_string(), true);
    assert_eq!(r.target_name, "default");
}
