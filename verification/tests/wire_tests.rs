//! Tests of the wire codec: encoding a query and decoding it back yields
//! an equal query.

use chameleon_core::filter::{ComparisonOp, FilterExpr, FilterValue};
use chameleon_core::query::{Query, SortDirection};
use chameleon_core::wire::{decode_query, encode_query};

#[test]
fn test_query_serialization() {
    let query = Query::new("User")
        .filter(FilterExpr::condition(
            "email",
            ComparisonOp::Eq,
            FilterValue::String("ana@mail.com".to_string()),
        ))
        .include_path("orders")
        .limit(10);

    let wire = encode_query(&query);
    assert!(wire.contains("User"));
    assert!(wire.contains("email"));
    assert!(wire.contains("orders"));

    let restored: Query = decode_query(wire.as_str()).unwrap();
    assert_eq!(query, restored);
}

#[test]
fn test_round_trip_empty_query() {
    let query = Query::new("User");
    let wire = encode_query(&query);
    assert_eq!(decode_query(wire.as_str()).unwrap(), query);
}

#[test]
fn test_round_trip_full_query() {
    let query = Query::new("User")
        .filter(
            FilterExpr::condition("age", ComparisonOp::Gte, FilterValue::Int(-3))
                .and(FilterExpr::condition("active", ComparisonOp::Eq, FilterValue::Bool(true)))
                .or(FilterExpr::condition("note", ComparisonOp::Neq, FilterValue::Null)),
        )
        .filter(FilterExpr::condition(
            "name",
            ComparisonOp::Like,
            FilterValue::String("an;a.b".to_string()),
        ))
        .include_path("orders")
        .include_path("orders.items")
        .order_by("created_at", SortDirection::Desc)
        .order_by("name", SortDirection::Asc)
        .limit(10)
        .offset(20);

    let wire = encode_query(&query);
    assert_eq!(decode_query(wire.as_str()).unwrap(), query);
}

#[test]
fn test_decode_rejects_garbage() {
    assert!(decode_query("").is_none());
    assert!(decode_query("hello").is_none());
    assert!(decode_query("4;User").is_none());
}

#[test]
fn test_decode_rejects_trailing_input() {
    let query = Query::new("User");
    let mut wire = encode_query(&query);
    wire.push('x');
    assert!(decode_query(wire.as_str()).is_none());
}
