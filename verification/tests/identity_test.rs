use rustfastingest::identity::{path_from_name, path_to_uuid, url_to_uuid, NAMESPACE};
use rustfastingest::uuid_text::{parse_uuid, uuid_to_string};

// The identifier is the version-5 UUID of `ingestion_id + "/" + path` under
// the fixed namespace, exactly as the uuid crate computes it.
#[test]
fn id_matches_uuid_v5() {
    let ns = uuid::Uuid::from_u128(NAMESPACE);
    let expect = uuid::Uuid::new_v5(&ns, "i//r".as_bytes()).as_u128();
    assert_eq!(path_to_uuid("i", "/r"), expect);

    let expect2 = uuid::Uuid::new_v5(&ns, "batch/a/b".as_bytes()).as_u128();
    assert_eq!(url_to_uuid("batch".to_string(), "a/b".to_string()), expect2);
}

// Equal inputs give equal identifiers across calls; changing either
// component changes the result.
#[test]
fn id_determinism() {
    let a = path_to_uuid("i", "/r");
    let b = path_to_uuid("i", "/r");
    assert_eq!(a, b);
    assert_ne!(path_to_uuid("j", "/r"), a);
    assert_ne!(path_to_uuid("i", "/s"), a);
}

// The identifier text is the canonical hyphenated lower-case form, exactly
// as the uuid crate renders it.
#[test]
fn id_text_matches_uuid_crate() {
    let id = path_to_uuid("i", "/r");
    assert_eq!(uuid_to_string(id), uuid::Uuid::from_u128(id).to_string());
    assert_eq!(
        uuid_to_string(0),
        "00000000-0000-0000-0000-000000000000"
    );
    assert_eq!(
        uuid_to_string(u128::MAX),
        "ffffffff-ffff-ffff-ffff-ffffffffffff"
    );
}

#[test]
fn id_text_round_trip() {
    let id = path_to_uuid("i", "/r");
    assert_eq!(parse_uuid(&uuid_to_string(id)), Some(id));
    assert_eq!(
        parse_uuid("550e8400-e29b-41d4-a716-446655440000"),
        Some(uuid::Uuid::parse_str("550e8400-e29b-41d4-a716-446655440000").unwrap().as_u128())
    );
    assert_eq!(parse_uuid(""), None);
    assert_eq!(parse_uuid("550e8400e29b41d4a716446655440000"), None);
    assert_eq!(parse_uuid("550E8400-E29B-41D4-A716-446655440000"), None);
    assert_eq!(parse_uuid("550e8400-e29b-41d4-a716-44665544000g"), None);
}

#[test]
fn path_join() {
    assert_eq!(path_from_name("", "r"), "/r");
    assert_eq!(path_from_name("/p", "c"), "/p/c");
}
