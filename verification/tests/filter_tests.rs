use taskvim::query::{Filter, Operator};

#[test]
fn test_filter_parsing() {
    let input = "status=todo priority>=3";
    let filters = Filter::parse(input).unwrap();

    assert_eq!(filters.len(), 2);

    assert_eq!(filters[0].field, "status");
    assert_eq!(filters[0].operator, Operator::Eq);
    assert_eq!(filters[0].value, "todo");

    assert_eq!(filters[1].field, "priority");
    assert_eq!(filters[1].operator, Operator::Gte);
    assert_eq!(filters[1].value, "3");
}

#[test]
fn test_filter_sql_generation() {
    let f = Filter {
        field: String::from("priority"),
        operator: Operator::Gt,
        value: String::from("2"),
    };
    let (sql, val) = f.to_sql_condition().unwrap();
    assert_eq!(sql, "priority > ?");
    assert_eq!(val, "2");
}

#[test]
fn parse_single_gte_predicate() {
    let filters = Filter::parse("priority>=3").unwrap();
    assert_eq!(filters.len(), 1);
    assert_eq!(filters[0].field, "priority");
    assert_eq!(filters[0].operator, Operator::Gte);
    assert_eq!(filters[0].value, "3");
    let (sql, val) = filters[0].to_sql_condition().unwrap();
    assert_eq!(sql, "priority >= ?");
    assert_eq!(val, "3");
}

#[test]
fn parse_two_predicates_in_order() {
    let filters = Filter::parse("status=todo priority>3").unwrap();
    assert_eq!(filters.len(), 2);
    assert_eq!(filters[0].operator, Operator::Eq);
    assert_eq!(filters[0].field, "status");
    assert_eq!(filters[0].value, "todo");
    assert_eq!(filters[1].operator, Operator::Gt);
    assert_eq!(filters[1].field, "priority");
    assert_eq!(filters[1].value, "3");
}

#[test]
fn tokens_without_operator_are_skipped() {
    let filters = Filter::parse("hello status=todo world").unwrap();
    assert_eq!(filters.len(), 1);
    assert_eq!(filters[0].field, "status");
}

#[test]
fn empty_expression_parses_to_nothing() {
    let filters = Filter::parse("   ").unwrap();
    assert_eq!(filters.len(), 0);
}

#[test]
fn unknown_field_fails_validation() {
    let f = Filter {
        field: String::from("nonsense"),
        operator: Operator::Eq,
        value: String::from("x"),
    };
    match f.to_sql_condition() {
        Err(taskvim::error::TaskVimError::Validation(m)) => {
            assert_eq!(m, "Unknown field: nonsense");
        }
        _ => panic!("expected a validation error"),
    }
}

#[test]
fn tag_field_fails_validation() {
    let f = Filter {
        field: String::from("tag"),
        operator: Operator::Eq,
        value: String::from("x"),
    };
    match f.to_sql_condition() {
        Err(taskvim::error::TaskVimError::Validation(m)) => {
            assert_eq!(m, "Tag filtering not yet implemented in SQL gen");
        }
        _ => panic!("expected a validation error"),
    }
}

#[test]
fn contains_wraps_value_in_wildcards() {
    let f = Filter {
        field: String::from("project"),
        operator: Operator::Contains,
        value: String::from("home"),
    };
    let (sql, val) = f.to_sql_condition().unwrap();
    assert_eq!(sql, "project LIKE ?");
    assert_eq!(val, "%home%");
}

#[test]
fn operator_round_trip() {
    assert_eq!(Operator::from_str(">="), Some(Operator::Gte));
    assert_eq!(Operator::from_str("<="), Some(Operator::Lte));
    assert_eq!(Operator::from_str("!="), Some(Operator::Neq));
    assert_eq!(Operator::from_str("contains"), Some(Operator::Contains));
    assert_eq!(Operator::from_str("=="), None);
    assert_eq!(Operator::Gte.to_sql(), ">=");
    assert_eq!(Operator::Contains.to_sql(), "LIKE");
}
