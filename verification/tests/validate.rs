use rustfastingest::traverse::{usize_to_string, TraversalNodeQuery};

#[test]
fn test_validate_direction_empty() {
    let query = TraversalNodeQuery {
        direction: String::new(),
        relation_type: None,
        max_depth: 4,
    };
    let result = query.validate();
    assert!(result.is_err());
    let result = result.unwrap_err();

    assert_eq!(
        result.to_string(),
        "Direction cannot be empty. Please use 'in' or 'out'."
    );
}

#[test]
fn test_validate_direction_invalid() {
    let query = TraversalNodeQuery {
        direction: "invalid".to_string(),
        relation_type: None,
        max_depth: 4,
    };
    assert_eq!(
        query.validate().unwrap_err().to_string(),
        "Direction can only be 'in' or 'out'."
    );
}

#[test]
fn test_validate_direction_valid() {
    let query = TraversalNodeQuery {
        direction: "in".to_string(),
        relation_type: None,
        max_depth: 4,
    };
    assert!(query.validate().is_ok());
}

#[test]
fn test_validate_relation_type_invalid() {
    let query = TraversalNodeQuery {
        direction: "out".to_string(),
        relation_type: Some("invalid".to_string()),
        max_depth: 4,
    };
    assert_eq!(
        query.validate().unwrap_err().to_string(),
        "Relation type can only be 'parent' or 'child'."
    );
}

#[test]
fn test_validate_relation_type_valid() {
    let query = TraversalNodeQuery {
        direction: "out".to_string(),
        relation_type: Some("parent".to_string()),
        max_depth: 4,
    };
    assert!(query.validate().is_ok());
}

// Direction and relation kind are matched ignoring ASCII case.
#[test]
fn validate_case_insensitive() {
    let query = TraversalNodeQuery {
        direction: "OUT".to_string(),
        relation_type: Some("Child".to_string()),
        max_depth: 0,
    };
    assert!(query.validate().is_ok());
}

#[test]
fn convert_query_parameters() {
    let query = TraversalNodeQuery {
        direction: "out".to_string(),
        relation_type: Some("parent".to_string()),
        max_depth: 4,
    };
    assert_eq!(
        query.convert_to_query_parameter(),
        "direction=out&relation_type=parent&max_depth=4"
    );
    let query = TraversalNodeQuery {
        direction: "in".to_string(),
        relation_type: None,
        max_depth: 120,
    };
    assert_eq!(
        query.convert_to_query_parameter(),
        "direction=in&relation_type=&max_depth=120"
    );
}

#[test]
fn decimal_rendering() {
    assert_eq!(usize_to_string(0), "0");
    assert_eq!(usize_to_string(7), "7");
    assert_eq!(usize_to_string(10), "10");
    assert_eq!(usize_to_string(90210), "90210");
}
