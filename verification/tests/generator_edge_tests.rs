//! Edge cases of the SQL query compiler: binary filter rendering, the IN
//! placeholder, boolean and null values, eager-load deduplication and the
//! remaining error variants.

use chameleon_core::ast::{Entity, Field, FieldType, Relation, RelationKind, Schema};
use chameleon_core::filter::{ComparisonOp, FilterExpr, FilterValue};
use chameleon_core::generator::{generate_sql, SqlGenError};
use chameleon_core::query::Query;

fn field(name: &str, field_type: FieldType, primary_key: bool) -> Field {
    Field {
        name: name.to_string(),
        field_type,
        nullable: false,
        unique: false,
        primary_key,
        default: None,
        backend: None,
    }
}

fn test_schema() -> Schema {
    let mut schema = Schema::new();

    let mut user = Entity::new("User".to_string());
    user.add_field(field("id", FieldType::UUID, true));
    user.add_field(field("age", FieldType::Int, false));
    user.add_field(field("active", FieldType::Bool, false));
    user.add_relation(Relation {
        name: "orders".to_string(),
        kind: RelationKind::HasMany,
        target_entity: "Order".to_string(),
        foreign_key: Some("user_id".to_string()),
        through: None,
    });
    user.add_relation(Relation {
        name: "avatar".to_string(),
        kind: RelationKind::HasOne,
        target_entity: "Order".to_string(),
        foreign_key: None,
        through: None,
    });
    schema.add_entity(user);

    let mut order = Entity::new("Order".to_string());
    order.add_field(field("id", FieldType::UUID, true));
    order.add_field(field("total", FieldType::Decimal, false));
    schema.add_entity(order);

    schema
}

#[test]
fn test_and_filter_sql() {
    let schema = test_schema();
    let a = FilterExpr::condition("age", ComparisonOp::Gte, FilterValue::Int(18));
    let b = FilterExpr::condition("age", ComparisonOp::Lte, FilterValue::Int(65));
    let query = Query::new("User").filter(a.and(b));

    let result = generate_sql(&query, &schema).unwrap();
    assert!(result.main_query.contains("WHERE (age >= 18 AND age <= 65)"));
}

#[test]
fn test_or_filter_sql() {
    let schema = test_schema();
    let a = FilterExpr::condition("age", ComparisonOp::Lt, FilterValue::Int(18));
    let b = FilterExpr::condition("age", ComparisonOp::Gt, FilterValue::Int(65));
    let query = Query::new("User").filter(a.or(b));

    let result = generate_sql(&query, &schema).unwrap();
    assert!(result.main_query.contains("WHERE (age < 18 OR age > 65)"));
}

#[test]
fn test_in_operator_placeholder() {
    let schema = test_schema();
    let query = Query::new("User").filter(FilterExpr::condition(
        "age",
        ComparisonOp::In,
        FilterValue::Null,
    ));

    let result = generate_sql(&query, &schema).unwrap();
    assert!(result.main_query.contains("age IN ($IN_VALUES)"));
}

#[test]
fn test_bool_and_null_values() {
    let schema = test_schema();
    let query = Query::new("User")
        .filter(FilterExpr::condition("active", ComparisonOp::Eq, FilterValue::Bool(true)))
        .filter(FilterExpr::condition("age", ComparisonOp::Neq, FilterValue::Null));

    let result = generate_sql(&query, &schema).unwrap();
    assert!(result.main_query.contains("active = true"));
    assert!(result.main_query.contains("age != NULL"));
}

#[test]
fn test_negative_int_value() {
    let schema = test_schema();
    let query = Query::new("User").filter(FilterExpr::condition(
        "age",
        ComparisonOp::Gt,
        FilterValue::Int(-5),
    ));

    let result = generate_sql(&query, &schema).unwrap();
    assert!(result.main_query.contains("age > -5"));
}

#[test]
fn test_unknown_relation_in_filter() {
    let schema = test_schema();
    let query = Query::new("User").filter(FilterExpr::condition(
        "ghosts.total",
        ComparisonOp::Gt,
        FilterValue::Int(1),
    ));

    let result = generate_sql(&query, &schema);
    match result.unwrap_err() {
        SqlGenError::UnknownRelation { entity, relation } => {
            assert_eq!(entity, "User");
            assert_eq!(relation, "ghosts");
        }
        other => panic!("expected an unknown relation, got {:?}", other),
    }
}

#[test]
fn test_missing_foreign_key_in_filter() {
    let schema = test_schema();
    let query = Query::new("User").filter(FilterExpr::condition(
        "avatar.total",
        ComparisonOp::Gt,
        FilterValue::Int(1),
    ));

    let result = generate_sql(&query, &schema);
    match result.unwrap_err() {
        SqlGenError::MissingForeignKey { entity, relation } => {
            assert_eq!(entity, "User");
            assert_eq!(relation, "avatar");
        }
        other => panic!("expected a missing foreign key, got {:?}", other),
    }
}

#[test]
fn test_missing_foreign_key_in_eager_path() {
    let schema = test_schema();
    let query = Query::new("User").include_path("avatar");

    let result = generate_sql(&query, &schema);
    assert!(matches!(result.unwrap_err(), SqlGenError::MissingForeignKey { .. }));
}

#[test]
fn test_unknown_relation_in_eager_path() {
    let schema = test_schema();
    let query = Query::new("User").include_path("ghosts");

    let result = generate_sql(&query, &schema);
    assert!(matches!(result.unwrap_err(), SqlGenError::UnknownRelation { .. }));
}

#[test]
fn test_duplicate_includes_planned_once() {
    let schema = test_schema();
    let query = Query::new("User").include_path("orders").include_path("orders");

    let result = generate_sql(&query, &schema).unwrap();
    assert_eq!(result.eager_queries.len(), 1);
    assert_eq!(result.eager_queries[0].0, "orders");
}

#[test]
fn test_join_lines_sorted_by_relation_name() {
    let mut schema = test_schema();
    let mut user = Entity::new("User".to_string());
    user.add_field(field("id", FieldType::UUID, true));
    user.add_relation(Relation {
        name: "zeta".to_string(),
        kind: RelationKind::HasMany,
        target_entity: "Order".to_string(),
        foreign_key: Some("user_id".to_string()),
        through: None,
    });
    user.add_relation(Relation {
        name: "alpha".to_string(),
        kind: RelationKind::HasMany,
        target_entity: "Order".to_string(),
        foreign_key: Some("user_id".to_string()),
        through: None,
    });
    schema.add_entity(user);

    let query = Query::new("User")
        .filter(FilterExpr::condition("zeta.total", ComparisonOp::Gt, FilterValue::Int(1)))
        .filter(FilterExpr::condition("alpha.total", ComparisonOp::Gt, FilterValue::Int(2)));

    let result = generate_sql(&query, &schema).unwrap();
    let zeta_at = result.main_query.find("INNER JOIN").unwrap();
    let text = &result.main_query[zeta_at..];
    // Both joins name the same table; the relation list is deduplicated and
    // sorted, so exactly two INNER JOIN lines appear.
    assert_eq!(text.matches("INNER JOIN").count(), 2);
}

#[test]
fn test_sqlgen_error_messages() {
    let e = SqlGenError::UnknownEntity("Ghost".to_string());
    assert_eq!(e.message(), "Unknown entity: Ghost");
    let e = SqlGenError::UnknownRelation {
        entity: "User".to_string(),
        relation: "ghosts".to_string(),
    };
    assert_eq!(e.message(), "Unknown relation 'ghosts' in entity 'User'");
    let e = SqlGenError::MissingForeignKey {
        entity: "User".to_string(),
        relation: "avatar".to_string(),
    };
    assert_eq!(e.message(), "Missing foreign key for relation 'avatar' in 'User'");
}
