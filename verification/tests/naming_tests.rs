//! Tests of the naming resolver: PascalCase entity names become
//! snake_case plural table names.

use chameleon_core::naming::{entity_to_table, pascal_to_snake, pluralize};

#[test]
fn test_simple_entity() {
    assert_eq!(entity_to_table("User"), "users");
    assert_eq!(entity_to_table("Order"), "orders");
}

#[test]
fn test_compound_entity() {
    assert_eq!(entity_to_table("OrderItem"), "order_items");
}

#[test]
fn test_acronym_kept_together() {
    assert_eq!(pascal_to_snake("HTTPServer"), "httpserver");
    assert_eq!(entity_to_table("HTTPServer"), "httpservers");
}

#[test]
fn test_pascal_to_snake_pieces() {
    assert_eq!(pascal_to_snake("OrderItem"), "order_item");
    assert_eq!(pascal_to_snake("User"), "user");
    assert_eq!(pluralize("order_item"), "order_items");
}

#[test]
fn test_table_name_total_on_odd_input() {
    assert_eq!(entity_to_table(""), "s");
    assert_eq!(entity_to_table("already_snake"), "already_snakes");
    assert_eq!(entity_to_table("user2Fa"), "user2fas");
}
