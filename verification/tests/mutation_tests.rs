//! Tests of the mutation compiler: insert, update and delete statements,
//! their parameter lists and every rejection.

use chameleon_core::ast::{Entity, Field, FieldType, Schema};
use chameleon_core::mutation::{entity_to_table, generate_mutation_sql, MutationRequest,
    MutationResult};

fn field(name: &str, field_type: FieldType, primary_key: bool, unique: bool) -> Field {
    Field {
        name: name.to_string(),
        field_type,
        nullable: false,
        unique,
        primary_key,
        default: None,
        backend: None,
    }
}

fn test_schema() -> Schema {
    let mut schema = Schema::new();

    let mut user = Entity::new("User".to_string());
    user.add_field(field("id", FieldType::UUID, true, false));
    user.add_field(field("email", FieldType::String, false, true));
    user.add_field(field("name", FieldType::String, false, false));
    user.add_field(field("age", FieldType::Int, false, false));
    schema.add_entity(user);

    schema
}

fn names(l: &[&str]) -> Option<Vec<String>> {
    Some(l.iter().map(|s| s.to_string()).collect())
}

fn request(
    mutation_type: Option<&str>,
    entity: Option<&str>,
    fields: Option<Vec<String>>,
    filters: Option<Vec<String>>,
) -> MutationRequest {
    MutationRequest {
        mutation_type: mutation_type.map(|s| s.to_string()),
        entity: entity.map(|s| s.to_string()),
        fields,
        filters,
    }
}

fn expect_valid(result: MutationResult) -> (String, Vec<String>) {
    match result {
        MutationResult::Valid { sql, params, .. } => (sql, params),
        MutationResult::Invalid { error } => panic!("expected a statement, got: {}", error),
    }
}

fn expect_error(result: MutationResult) -> String {
    match result {
        MutationResult::Valid { sql, .. } => panic!("expected a rejection, got: {}", sql),
        MutationResult::Invalid { error } => error,
    }
}

#[test]
fn test_entity_to_table() {
    assert_eq!(entity_to_table("User"), "user");
    assert_eq!(entity_to_table("UserProfile"), "user_profile");
    assert_eq!(entity_to_table("OrderItem"), "order_item");
    assert_eq!(entity_to_table("HTTPServer"), "h_t_t_p_server");
}

#[test]
fn test_insert_single_field() {
    let schema = test_schema();
    let mutation = request(Some("insert"), Some("User"), names(&["email"]), None);

    let result = generate_mutation_sql(&mutation, &schema);

    assert!(result.is_valid());
    let (sql, params) = expect_valid(result);
    println!("DEBUG: SQL value = {:?}", sql);
    assert!(sql.contains("INSERT INTO user"));
    assert!(sql.contains("email"));
    assert_eq!(params[0], "email");
}

#[test]
fn test_insert_multiple_fields() {
    let schema = test_schema();
    let mutation = request(
        Some("insert"),
        Some("User"),
        names(&["age", "email", "name"]),
        None,
    );

    let result = generate_mutation_sql(&mutation, &schema);

    assert!(result.is_valid());
    let (sql, params) = expect_valid(result);
    assert!(sql.contains("INSERT INTO user"));
    assert!(sql.contains("RETURNING *"));
    assert_eq!(params.len(), 3);
}

#[test]
fn test_insert_missing_entity() {
    let schema = test_schema();
    let mutation = request(Some("insert"), Some("NonExistent"), names(&["field"]), None);

    let result = generate_mutation_sql(&mutation, &schema);

    assert!(!result.is_valid());
    assert!(expect_error(result).contains("not found"));
}

#[test]
fn test_insert_unknown_field() {
    let schema = test_schema();
    let mutation = request(
        Some("insert"),
        Some("User"),
        names(&["email", "unknown_field"]),
        None,
    );

    let result = generate_mutation_sql(&mutation, &schema);

    assert!(!result.is_valid());
    assert!(expect_error(result).contains("Unknown field"));
}

#[test]
fn test_insert_missing_fields() {
    let schema = test_schema();
    let mutation = request(Some("insert"), Some("User"), names(&[]), None);

    let result = generate_mutation_sql(&mutation, &schema);

    // SQL is generated; NOT NULL enforcement is the database's job.
    assert!(result.is_valid());
    let (sql, _) = expect_valid(result);
    assert!(sql.contains("INSERT INTO user"));
}

#[test]
fn test_update_with_filter() {
    let schema = test_schema();
    let mutation = request(Some("update"), Some("User"), names(&["name"]), names(&["id"]));

    let result = generate_mutation_sql(&mutation, &schema);

    assert!(result.is_valid());
    let (sql, _) = expect_valid(result);
    assert!(sql.contains("UPDATE user"));
    assert!(sql.contains("SET"));
    assert!(sql.contains("WHERE"));
    assert!(sql.contains("RETURNING *"));
}

#[test]
fn test_update_multiple_fields_single_filter() {
    let schema = test_schema();
    let mutation = request(
        Some("update"),
        Some("User"),
        names(&["age", "name"]),
        names(&["id"]),
    );

    let result = generate_mutation_sql(&mutation, &schema);

    assert!(result.is_valid());
    let (_, params) = expect_valid(result);
    assert_eq!(params.len(), 3);
}

#[test]
fn test_update_multiple_filters() {
    let schema = test_schema();
    let mutation = request(
        Some("update"),
        Some("User"),
        names(&["name"]),
        names(&["email", "id"]),
    );

    let result = generate_mutation_sql(&mutation, &schema);

    assert!(result.is_valid());
    let (sql, _) = expect_valid(result);
    assert!(sql.contains("WHERE"));
    assert!(sql.contains("AND"));
}

#[test]
fn test_update_without_filter() {
    let schema = test_schema();
    let mutation = request(Some("update"), Some("User"), names(&["name"]), names(&[]));

    let result = generate_mutation_sql(&mutation, &schema);

    assert!(!result.is_valid());
    assert!(expect_error(result).contains("at least one filter"));
}

#[test]
fn test_update_primary_key() {
    let schema = test_schema();
    let mutation = request(Some("update"), Some("User"), names(&["id"]), names(&["id"]));

    let result = generate_mutation_sql(&mutation, &schema);

    assert!(!result.is_valid());
    assert!(expect_error(result).contains("primary key"));
}

#[test]
fn test_update_unknown_field() {
    let schema = test_schema();
    let mutation = request(Some("update"), Some("User"), names(&["unknown"]), names(&["id"]));

    let result = generate_mutation_sql(&mutation, &schema);

    assert!(!result.is_valid());
    assert!(expect_error(result).contains("Unknown field"));
}

#[test]
fn test_delete_with_filter() {
    let schema = test_schema();
    let mutation = request(Some("delete"), Some("User"), None, names(&["id"]));

    let result = generate_mutation_sql(&mutation, &schema);

    assert!(result.is_valid());
    let (sql, _) = expect_valid(result);
    assert!(sql.contains("DELETE FROM user"));
    assert!(sql.contains("WHERE"));
}

#[test]
fn test_delete_multiple_filters() {
    let schema = test_schema();
    let mutation = request(Some("delete"), Some("User"), None, names(&["email", "id"]));

    let result = generate_mutation_sql(&mutation, &schema);

    assert!(result.is_valid());
    let (sql, _) = expect_valid(result);
    assert!(sql.contains("AND"));
}

#[test]
fn test_delete_without_filter() {
    let schema = test_schema();
    let mutation = request(Some("delete"), Some("User"), None, names(&[]));

    let result = generate_mutation_sql(&mutation, &schema);

    assert!(!result.is_valid());
    assert!(expect_error(result).contains("at least one filter"));
}

#[test]
fn test_delete_safety_guard() {
    let schema = test_schema();
    let mutation = request(Some("delete"), Some("User"), None, None);

    let result = generate_mutation_sql(&mutation, &schema);

    assert!(!result.is_valid());
    assert!(expect_error(result).contains("filter"));
}

#[test]
fn test_missing_mutation_type() {
    let schema = test_schema();
    let mutation = request(None, Some("User"), names(&[]), None);

    let result = generate_mutation_sql(&mutation, &schema);

    assert!(!result.is_valid());
    assert!(expect_error(result).contains("type"));
}

#[test]
fn test_unknown_mutation_type() {
    let schema = test_schema();
    let mutation = request(Some("upsert"), Some("User"), names(&[]), None);

    let result = generate_mutation_sql(&mutation, &schema);

    assert!(!result.is_valid());
    assert!(expect_error(result).contains("Unknown mutation type"));
}

#[test]
fn test_missing_entity() {
    let schema = test_schema();
    let mutation = request(Some("insert"), None, names(&[]), None);

    let result = generate_mutation_sql(&mutation, &schema);

    assert!(!result.is_valid());
    assert!(expect_error(result).contains("entity"));
}

#[test]
fn test_insert_sql_format() {
    let schema = test_schema();
    let mutation = request(Some("insert"), Some("User"), names(&["email", "name"]), None);

    let result = generate_mutation_sql(&mutation, &schema);

    let (sql, _) = expect_valid(result);
    // Should use parameterized queries.
    assert!(sql.contains("$1") || sql.contains("$2"));
    // Should quote field names.
    assert!(sql.contains("\"email\"") || sql.contains("\"name\""));
}

#[test]
fn test_update_sql_format() {
    let schema = test_schema();
    let mutation = request(Some("update"), Some("User"), names(&["name"]), names(&["id"]));

    let result = generate_mutation_sql(&mutation, &schema);

    let (sql, _) = expect_valid(result);
    assert!(sql.contains("UPDATE"));
    assert!(sql.contains("SET"));
    assert!(sql.contains("WHERE"));
    assert!(sql.contains("$"));
}

#[test]
fn test_delete_sql_format() {
    let schema = test_schema();
    let mutation = request(Some("delete"), Some("User"), None, names(&["id"]));

    let result = generate_mutation_sql(&mutation, &schema);

    let (sql, _) = expect_valid(result);
    assert!(sql.contains("DELETE FROM"));
    assert!(sql.contains("WHERE"));
    assert!(sql.contains("$"));
}

#[test]
fn test_sql_output() {
    let schema = test_schema();
    let mutation = request(Some("insert"), Some("User"), names(&["email"]), None);

    let result = generate_mutation_sql(&mutation, &schema);

    match result {
        MutationResult::Valid { sql, .. } => {
            println!("SQL: {}", sql);
        }
        MutationResult::Invalid { error } => {
            println!("RESULT: {}", error);
        }
    }
}

#[test]
fn test_exact_insert_statement() {
    let schema = test_schema();
    let mutation = request(Some("insert"), Some("User"), names(&["email", "name"]), None);

    let (sql, params) = expect_valid(generate_mutation_sql(&mutation, &schema));
    assert_eq!(sql, "INSERT INTO user (\"email\", \"name\") VALUES ($1, $2) RETURNING *");
    assert_eq!(params, vec!["email".to_string(), "name".to_string()]);
}

#[test]
fn test_exact_update_statement() {
    let schema = test_schema();
    let mutation = request(
        Some("update"),
        Some("User"),
        names(&["age", "name"]),
        names(&["email", "id"]),
    );

    let (sql, params) = expect_valid(generate_mutation_sql(&mutation, &schema));
    assert_eq!(
        sql,
        "UPDATE user SET \"age\"=$1, \"name\"=$2 WHERE \"email\"=$3 AND \"id\"=$4 RETURNING *"
    );
    assert_eq!(
        params,
        vec!["age".to_string(), "name".to_string(), "email".to_string(), "id".to_string()]
    );
}

#[test]
fn test_exact_delete_statement() {
    let schema = test_schema();
    let mutation = request(Some("delete"), Some("User"), None, names(&["id"]));

    let (sql, params) = expect_valid(generate_mutation_sql(&mutation, &schema));
    assert_eq!(sql, "DELETE FROM user WHERE \"id\"=$1");
    assert_eq!(params, vec!["id".to_string()]);
}

#[test]
fn test_update_missing_fields_map() {
    let schema = test_schema();
    let mutation = request(Some("update"), Some("User"), None, names(&["id"]));

    let result = generate_mutation_sql(&mutation, &schema);
    assert!(!result.is_valid());
    assert!(expect_error(result).contains("fields"));
}
