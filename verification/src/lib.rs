//! Compiler core for a schema-driven query language: given a validated
//! schema and a structured request (a filter/sort/eager-load query or an
//! insert/update/delete mutation descriptor), it deterministically produces
//! SQL text and bound-parameter lists, or a structured rejection.

pub mod ast;
pub mod error;
pub mod filter;
pub mod generator;
pub mod laws;
pub mod mutation;
pub mod naming;
pub mod query;
pub mod strutil;
pub mod wire;

pub use ast::{BackendAnnotation, DefaultValue, Entity, Field, FieldType, Relation, RelationKind,
    Schema};
pub use error::{ChameleonError, ParseErrorDetail};
pub use filter::{ComparisonOp, FieldPath, FilterCondition, FilterExpr, FilterValue, LogicalOp};
pub use generator::{generate_sql, GeneratedSQL, SqlGenError};
pub use naming::entity_to_table;
pub use query::{IncludePath, OrderByClause, Query, SortDirection};
