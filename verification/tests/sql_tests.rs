//! Tests of the SQL query compiler: the main SELECT, joins forced by
//! nested filters, eager-load planning, ordering, limits and errors.

use chameleon_core::ast::{Entity, Field, FieldType, Relation, RelationKind, Schema};
use chameleon_core::filter::{ComparisonOp, FilterExpr, FilterValue};
use chameleon_core::generator::{generate_sql, SqlGenError};
use chameleon_core::naming;
use chameleon_core::query::{Query, SortDirection};

fn field(name: &str, field_type: FieldType, primary_key: bool, unique: bool) -> Field {
    Field {
        name: name.to_string(),
        field_type,
        nullable: false,
        unique,
        primary_key,
        default: None,
        backend: None,
    }
}

/// Helper: build a standard test schema,
/// User (HasMany) -> Order (HasMany) -> OrderItem.
fn test_schema() -> Schema {
    let mut schema = Schema::new();

    let mut user = Entity::new("User".to_string());
    user.add_field(field("id", FieldType::UUID, true, false));
    user.add_field(field("email", FieldType::String, false, true));
    user.add_field(field("name", FieldType::String, false, false));
    user.add_field(field("age", FieldType::Int, false, false));
    user.add_relation(Relation {
        name: "orders".to_string(),
        kind: RelationKind::HasMany,
        target_entity: "Order".to_string(),
        foreign_key: Some("user_id".to_string()),
        through: None,
    });
    schema.add_entity(user);

    let mut order = Entity::new("Order".to_string());
    order.add_field(field("id", FieldType::UUID, true, false));
    order.add_field(field("total", FieldType::Decimal, false, false));
    order.add_field(field("status", FieldType::String, false, false));
    order.add_field(field("user_id", FieldType::UUID, false, false));
    order.add_relation(Relation {
        name: "user".to_string(),
        kind: RelationKind::BelongsTo,
        target_entity: "User".to_string(),
        foreign_key: None,
        through: None,
    });
    order.add_relation(Relation {
        name: "items".to_string(),
        kind: RelationKind::HasMany,
        target_entity: "OrderItem".to_string(),
        foreign_key: Some("order_id".to_string()),
        through: None,
    });
    schema.add_entity(order);

    let mut item = Entity::new("OrderItem".to_string());
    item.add_field(field("id", FieldType::UUID, true, false));
    item.add_field(field("quantity", FieldType::Int, false, false));
    item.add_field(field("price", FieldType::Decimal, false, false));
    item.add_field(field("order_id", FieldType::UUID, false, false));
    item.add_relation(Relation {
        name: "order".to_string(),
        kind: RelationKind::BelongsTo,
        target_entity: "Order".to_string(),
        foreign_key: None,
        through: None,
    });
    schema.add_entity(item);

    schema
}

#[test]
fn test_naming_conventions() {
    assert_eq!(naming::entity_to_table("User"), "users");
    assert_eq!(naming::entity_to_table("Order"), "orders");
    assert_eq!(naming::entity_to_table("OrderItem"), "order_items");
}

#[test]
fn test_fetch_all() {
    let schema = test_schema();
    let query = Query::new("User");
    let result = generate_sql(&query, &schema).unwrap();

    assert!(result.main_query.contains("SELECT"));
    assert!(result.main_query.contains("FROM users"));
    assert!(result.eager_queries.is_empty());
}

#[test]
fn test_filter_equality() {
    let schema = test_schema();
    let query = Query::new("User").filter(FilterExpr::condition(
        "email",
        ComparisonOp::Eq,
        FilterValue::String("ana@mail.com".to_string()),
    ));

    let result = generate_sql(&query, &schema).unwrap();
    assert!(result.main_query.contains("WHERE email = 'ana@mail.com'"));
}

#[test]
fn test_filter_comparison() {
    let schema = test_schema();
    let query = Query::new("User").filter(FilterExpr::condition(
        "age",
        ComparisonOp::Gte,
        FilterValue::Int(18),
    ));

    let result = generate_sql(&query, &schema).unwrap();
    assert!(result.main_query.contains("WHERE age >= 18"));
}

#[test]
fn test_multiple_filters() {
    let schema = test_schema();
    let query = Query::new("User")
        .filter(FilterExpr::condition("age", ComparisonOp::Gte, FilterValue::Int(18)))
        .filter(FilterExpr::condition("age", ComparisonOp::Lte, FilterValue::Int(65)));

    let result = generate_sql(&query, &schema).unwrap();
    assert!(result.main_query.contains("age >= 18"));
    assert!(result.main_query.contains("age <= 65"));
    assert!(result.main_query.contains("AND"));
}

#[test]
fn test_like_filter() {
    let schema = test_schema();
    let query = Query::new("User").filter(FilterExpr::condition(
        "name",
        ComparisonOp::Like,
        FilterValue::String("ana".to_string()),
    ));

    let result = generate_sql(&query, &schema).unwrap();
    assert!(result.main_query.contains("LIKE '%ana%'"));
}

#[test]
fn test_filter_on_relation() {
    let schema = test_schema();
    let query = Query::new("User").filter(FilterExpr::condition(
        "orders.total",
        ComparisonOp::Gt,
        FilterValue::Int(100),
    ));

    let result = generate_sql(&query, &schema).unwrap();
    assert!(result.main_query.contains("DISTINCT"));
    assert!(result.main_query.contains("INNER JOIN orders"));
    assert!(result.main_query.contains("orders.total > 100"));
}

#[test]
fn test_include_single() {
    let schema = test_schema();
    let query = Query::new("User").include_path("orders");

    let result = generate_sql(&query, &schema).unwrap();
    assert_eq!(result.eager_queries.len(), 1);
    assert_eq!(result.eager_queries[0].0, "orders");
    assert!(result.eager_queries[0].1.contains("FROM orders"));
    assert!(result.eager_queries[0].1.contains("WHERE user_id IN ($PARENT_IDS)"));
}

#[test]
fn test_include_nested() {
    let schema = test_schema();
    let query = Query::new("User").include_path("orders").include_path("orders.items");

    let result = generate_sql(&query, &schema).unwrap();
    assert_eq!(result.eager_queries.len(), 2);

    assert_eq!(result.eager_queries[0].0, "orders");
    assert!(result.eager_queries[0].1.contains("FROM orders"));

    assert_eq!(result.eager_queries[1].0, "items");
    assert!(result.eager_queries[1].1.contains("FROM order_items"));
    assert!(result.eager_queries[1].1.contains("WHERE order_id IN ($PARENT_IDS)"));
}

#[test]
fn test_order_by() {
    let schema = test_schema();
    let query = Query::new("User")
        .order_by("name", SortDirection::Asc)
        .order_by("age", SortDirection::Desc);

    let result = generate_sql(&query, &schema).unwrap();
    assert!(result.main_query.contains("ORDER BY name ASC, age DESC"));
}

#[test]
fn test_limit_offset() {
    let schema = test_schema();
    let query = Query::new("User").limit(10).offset(20);

    let result = generate_sql(&query, &schema).unwrap();
    assert!(result.main_query.contains("LIMIT 10"));
    assert!(result.main_query.contains("OFFSET 20"));
}

#[test]
fn mod_test_full_query() {
    let schema = test_schema();
    let query = Query::new("User")
        .filter(FilterExpr::condition("age", ComparisonOp::Gte, FilterValue::Int(18)))
        .filter(FilterExpr::condition("orders.total", ComparisonOp::Gt, FilterValue::Int(50)))
        .include_path("orders")
        .include_path("orders.items")
        .order_by("name", SortDirection::Desc)
        .limit(10);

    let result = generate_sql(&query, &schema).unwrap();

    assert!(result.main_query.contains("DISTINCT"));
    assert!(result.main_query.contains("INNER JOIN orders"));
    assert!(result.main_query.contains("users.age >= 18"));
    assert!(result.main_query.contains("orders.total > 50"));
    assert!(result.main_query.contains("ORDER BY"));
    assert!(result.main_query.contains("LIMIT 10"));

    assert_eq!(result.eager_queries.len(), 2);
}

#[test]
fn test_unknown_entity() {
    let schema = test_schema();
    let query = Query::new("NonExistent");

    let result = generate_sql(&query, &schema);
    assert!(result.is_err());
    assert!(matches!(result.unwrap_err(), SqlGenError::UnknownEntity(_)));
}
