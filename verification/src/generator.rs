//! The SQL query compiler: consumes a query model plus a schema and emits
//! one primary SELECT and zero or more eager-load SELECTs, or the first
//! error met. A filter whose field path crosses a relation forces
//! `SELECT DISTINCT` plus an `INNER JOIN` per referenced relation, the
//! joins sorted by relation name for deterministic statement text; the
//! eager-load queries follow first-occurrence order over the requested
//! paths, with already-planned `(entity, relation)` steps skipped.

use vstd::prelude::*;
use vstd::string::StringExecFns;
use crate::ast::{Entity, Schema, spec_find_entity, spec_find_relation};
use crate::filter::{
    ComparisonOp, FilterCondition, FilterExpr, FilterValue, LogicalOp, cond_wf, expr_wf,
    path_view,
};
use crate::naming::{entity_to_table, spec_entity_to_table};
use crate::query::{IncludePath, OrderByClause, Query, SortDirection, include_view};
use crate::strutil::{
    i64_to_string, join_strings, spec_decimal, spec_decimal_int, spec_join, str_eq,
    u64_to_string,
};

verus! {

/// The result of compiling one query: the main SELECT, and one eager-load
/// SELECT per planned relation step, each tagged with the relation name.
#[derive(Debug, Clone, PartialEq)]
pub struct GeneratedSQL {
    /// The main SELECT statement.
    pub main_query: String,
    /// Eager-load statements, in first-occurrence order over the requested
    /// paths; each entry is (relation name, sql).
    pub eager_queries: Vec<(String, String)>,
}

/// An error met during SQL generation; compilation stops at the first one.
#[derive(Debug, Clone, PartialEq)]
pub enum SqlGenError {
    UnknownEntity(String),
    UnknownRelation { entity: String, relation: String },
    MissingForeignKey { entity: String, relation: String },
}

/// The mathematical shape of a generation error.
#[verifier::ext_equal]
pub enum SqlGenErrorV {
    UnknownEntity(Seq<char>),
    UnknownRelation { entity: Seq<char>, relation: Seq<char> },
    MissingForeignKey { entity: Seq<char>, relation: Seq<char> },
}

/// The error a `SqlGenError` stands for.
pub open spec fn error_view(e: SqlGenError) -> SqlGenErrorV {
    match e {
        SqlGenError::UnknownEntity(n) => SqlGenErrorV::UnknownEntity(n@),
        SqlGenError::UnknownRelation { entity, relation } => SqlGenErrorV::UnknownRelation {
            entity: entity@,
            relation: relation@,
        },
        SqlGenError::MissingForeignKey { entity, relation } => (
        SqlGenErrorV::MissingForeignKey { entity: entity@, relation: relation@ }),
    }
}

/// The mathematical shape of a compilation result.
#[verifier::ext_equal]
pub struct GeneratedV {
    pub main_query: Seq<char>,
    pub eager_queries: Seq<(Seq<char>, Seq<char>)>,
}

/// The result a `GeneratedSQL` stands for.
pub open spec fn generated_view(g: GeneratedSQL) -> GeneratedV {
    GeneratedV {
        main_query: g.main_query@,
        eager_queries: g.eager_queries@.map_values(|p: (String, String)| (p.0@, p.1@)),
    }
}

impl SqlGenError {
    /// The error rendered as a message.
    pub fn message(&self) -> (r: String)
        ensures
            (match *self {
                SqlGenError::UnknownEntity(n) => r@ == "Unknown entity: "@ + n@,
                SqlGenError::UnknownRelation { entity, relation } => r@ == "Unknown relation '"@
                    + relation@ + "' in entity '"@ + entity@ + "'"@,
                SqlGenError::MissingForeignKey { entity, relation } => r@
                    == "Missing foreign key for relation '"@ + relation@ + "' in '"@ + entity@
                    + "'"@,
            }),
    {
        match self {
            SqlGenError::UnknownEntity(n) => {
                let mut m = String::from_str("Unknown entity: ");
                m.append(n.as_str());
                m
            },
            SqlGenError::UnknownRelation { entity, relation } => {
                let mut m = String::from_str("Unknown relation '");
                m.append(relation.as_str());
                m.append("' in entity '");
                m.append(entity.as_str());
                m.append("'");
                m
            },
            SqlGenError::MissingForeignKey { entity, relation } => {
                let mut m = String::from_str("Missing foreign key for relation '");
                m.append(relation.as_str());
                m.append("' in '");
                m.append(entity.as_str());
                m.append("'");
                m
            },
        }
    }
}

// ─── Nested-filter detection and join-relation collection ───

/// Whether the expression holds a condition on a nested field path.
pub open spec fn spec_expr_nested(e: FilterExpr) -> bool
    decreases e,
{
    match e {
        FilterExpr::Condition(c) => c.field.segments@.len() > 1,
        FilterExpr::Binary { left, op, right } => spec_expr_nested(*left) || spec_expr_nested(
            *right,
        ),
    }
}

/// Whether any top-level filter holds a nested condition: such a query
/// needs a JOIN, and its SELECT becomes `SELECT DISTINCT`.
pub open spec fn spec_needs_join(filters: Seq<FilterExpr>) -> bool {
    exists|i: int| 0 <= i < filters.len() && spec_expr_nested(filters[i])
}

/// The relation names referenced by nested conditions of `e`, in
/// traversal order.
pub open spec fn spec_expr_roots(e: FilterExpr) -> Seq<Seq<char>>
    decreases e,
{
    match e {
        FilterExpr::Condition(c) => if c.field.segments@.len() > 1 {
            seq![path_view(c.field)[0]]
        } else {
            Seq::empty()
        },
        FilterExpr::Binary { left, op, right } => spec_expr_roots(*left) + spec_expr_roots(
            *right,
        ),
    }
}

/// The relation names referenced by nested conditions across the filter
/// list, in order.
pub open spec fn spec_filters_roots(filters: Seq<FilterExpr>) -> Seq<Seq<char>>
    decreases filters.len(),
{
    if filters.len() == 0 {
        Seq::empty()
    } else {
        spec_expr_roots(filters[0]) + spec_filters_roots(filters.drop_first())
    }
}

/// Strict lexicographic order on character sequences, by scalar value.
pub open spec fn lex_lt(a: Seq<char>, b: Seq<char>) -> bool
    decreases a.len() + b.len(),
{
    if b.len() == 0 {
        false
    } else if a.len() == 0 {
        true
    } else if a[0] != b[0] {
        (a[0] as u32) < (b[0] as u32)
    } else {
        lex_lt(a.drop_first(), b.drop_first())
    }
}

/// `v` (sorted, duplicate-free) with `x` inserted in order, unless already
/// present.
pub open spec fn spec_insert_sorted(v: Seq<Seq<char>>, x: Seq<char>) -> Seq<Seq<char>>
    decreases v.len(),
{
    if v.len() == 0 {
        seq![x]
    } else if x == v[0] {
        v
    } else if lex_lt(x, v[0]) {
        seq![x] + v
    } else {
        seq![v[0]] + spec_insert_sorted(v.drop_first(), x)
    }
}

/// The names of `roots` in ascending order with duplicates removed, built
/// by ordered insertion.
pub open spec fn spec_sort_dedup(roots: Seq<Seq<char>>) -> Seq<Seq<char>>
    decreases roots.len(),
{
    if roots.len() == 0 {
        Seq::empty()
    } else {
        spec_insert_sorted(spec_sort_dedup(roots.drop_last()), roots.last())
    }
}

// ─── Main-query pieces ───

/// One INNER JOIN line for a relation.
pub open spec fn spec_join_line(target_table: Seq<char>, fk: Seq<char>, source_table: Seq<char>)
    -> Seq<char> {
    "INNER JOIN "@ + target_table + " ON "@ + target_table + "."@ + fk + " = "@ + source_table
        + ".id"@
}

/// The JOIN lines for the relation names in `rels` (taken in order),
/// resolved against `entity`: an unresolved name or a relation without a
/// foreign key is the first error.
pub open spec fn spec_joins(
    rels: Seq<Seq<char>>,
    entity: Entity,
    source_table: Seq<char>,
) -> Result<Seq<Seq<char>>, SqlGenErrorV>
    decreases rels.len(),
{
    if rels.len() == 0 {
        Ok(Seq::empty())
    } else {
        match spec_find_relation(entity.relations@, rels[0]) {
            None => Err(
                SqlGenErrorV::UnknownRelation { entity: entity.name@, relation: rels[0] },
            ),
            Some(rel) => match rel.foreign_key {
                None => Err(
                    SqlGenErrorV::MissingForeignKey {
                        entity: entity.name@,
                        relation: rels[0],
                    },
                ),
                Some(fk) => match spec_joins(rels.drop_first(), entity, source_table) {
                    Err(e) => Err(e),
                    Ok(rest) => Ok(
                        seq![
                            spec_join_line(
                                spec_entity_to_table(rel.target_entity@),
                                fk@,
                                source_table,
                            ),
                        ] + rest,
                    ),
                },
            },
        }
    }
}

/// The SELECT column list: every field name of the entity, qualified with
/// the table name when a join is present.
pub open spec fn spec_select_columns(table: Seq<char>, entity: Entity, qualify: bool) -> Seq<
    char,
> {
    spec_join(
        entity.fields@.map_values(
            |f: crate::ast::Field|
                if qualify {
                    table + "."@ + f.name@
                } else {
                    f.name@
                },
        ),
        ", "@,
    )
}

/// The SQL text of a filter value: strings quoted, integers in decimal,
/// booleans as `true`/`false`, null as `NULL`.
pub open spec fn spec_value_sql(v: FilterValue) -> Seq<char> {
    match v {
        FilterValue::String(s) => "'"@ + s@ + "'"@,
        FilterValue::Int(n) => spec_decimal_int(n as int),
        FilterValue::Bool(b) => if b {
            "true"@
        } else {
            "false"@
        },
        FilterValue::Null => "NULL"@,
    }
}

/// The SQL text of the operator and rendered value of a condition: LIKE
/// wraps a string value in wildcards, IN emits a placeholder list, every
/// other operator compares against the rendered value.
pub open spec fn spec_op_value_sql(op: ComparisonOp, value: FilterValue) -> Seq<char> {
    if op is Like && value is String {
        "LIKE"@ + " "@ + "'%"@ + value->String_0@ + "%'"@
    } else if op is In {
        "IN"@ + " "@ + "($IN_VALUES)"@
    } else {
        let op_sql = match op {
            ComparisonOp::Eq => "="@,
            ComparisonOp::Neq => "!="@,
            ComparisonOp::Gt => ">"@,
            ComparisonOp::Gte => ">="@,
            ComparisonOp::Lt => "<"@,
            ComparisonOp::Lte => "<="@,
            ComparisonOp::Like => "LIKE"@,
            ComparisonOp::In => "IN"@,
        };
        op_sql + " "@ + spec_value_sql(value)
    }
}

/// The SQL text of one condition: the resolved column, the operator and
/// the value. A nested path resolves its column against the joined
/// relation's table; a local path resolves against the root table,
/// qualified when a join is present.
pub open spec fn spec_condition_sql(
    c: FilterCondition,
    table: Seq<char>,
    qualify: bool,
    schema: Schema,
    entity_name: Seq<char>,
) -> Result<Seq<char>, SqlGenErrorV> {
    if c.field.segments@.len() > 1 {
        match spec_find_entity(schema.entities@, entity_name) {
            None => Err(SqlGenErrorV::UnknownEntity(entity_name)),
            Some(entity) => match spec_find_relation(entity.relations@, path_view(c.field)[0]) {
                None => Err(
                    SqlGenErrorV::UnknownRelation {
                        entity: entity_name,
                        relation: path_view(c.field)[0],
                    },
                ),
                Some(rel) => Ok(
                    spec_entity_to_table(rel.target_entity@) + "."@ + path_view(c.field)[1]
                        + " "@ + spec_op_value_sql(c.op, c.value),
                ),
            },
        }
    } else {
        let field_sql = if qualify {
            table + "."@ + path_view(c.field)[0]
        } else {
            path_view(c.field)[0]
        };
        Ok(field_sql + " "@ + spec_op_value_sql(c.op, c.value))
    }
}

/// The SQL text of a filter expression: a condition renders itself; a
/// binary node renders `(<left> AND <right>)` or `(<left> OR <right>)`,
/// left and right in their original order.
pub open spec fn spec_expr_sql(
    e: FilterExpr,
    table: Seq<char>,
    qualify: bool,
    schema: Schema,
    entity_name: Seq<char>,
) -> Result<Seq<char>, SqlGenErrorV>
    decreases e,
{
    match e {
        FilterExpr::Condition(c) => spec_condition_sql(c, table, qualify, schema, entity_name),
        FilterExpr::Binary { left, op, right } => {
            match spec_expr_sql(*left, table, qualify, schema, entity_name) {
                Err(e1) => Err(e1),
                Ok(l) => match spec_expr_sql(*right, table, qualify, schema, entity_name) {
                    Err(e2) => Err(e2),
                    Ok(r) => {
                        let op_sql = match op {
                            LogicalOp::And => "AND"@,
                            LogicalOp::Or => "OR"@,
                        };
                        Ok("("@ + l + " "@ + op_sql + " "@ + r + ")"@)
                    },
                },
            }
        },
    }
}

/// The rendered texts of the filter list, stopping at the first error.
pub open spec fn spec_filters_sqls(
    filters: Seq<FilterExpr>,
    table: Seq<char>,
    qualify: bool,
    schema: Schema,
    entity_name: Seq<char>,
) -> Result<Seq<Seq<char>>, SqlGenErrorV>
    decreases filters.len(),
{
    if filters.len() == 0 {
        Ok(Seq::empty())
    } else {
        match spec_expr_sql(filters[0], table, qualify, schema, entity_name) {
            Err(e) => Err(e),
            Ok(s) => match spec_filters_sqls(
                filters.drop_first(),
                table,
                qualify,
                schema,
                entity_name,
            ) {
                Err(e) => Err(e),
                Ok(rest) => Ok(seq![s] + rest),
            },
        }
    }
}

/// The WHERE clause body: the top-level filters joined with AND.
pub open spec fn spec_where(
    filters: Seq<FilterExpr>,
    table: Seq<char>,
    qualify: bool,
    schema: Schema,
    entity_name: Seq<char>,
) -> Result<Seq<char>, SqlGenErrorV> {
    match spec_filters_sqls(filters, table, qualify, schema, entity_name) {
        Err(e) => Err(e),
        Ok(parts) => Ok(spec_join(parts, " AND "@)),
    }
}

/// The ORDER BY clause: each field (qualified as the columns are) with
/// its direction, joined with commas.
pub open spec fn spec_order_by(
    order_by: Seq<OrderByClause>,
    table: Seq<char>,
    qualify: bool,
) -> Seq<char> {
    "ORDER BY "@ + spec_join(
        order_by.map_values(
            |o: OrderByClause|
                (if qualify {
                    table + "."@ + o.field@
                } else {
                    o.field@
                }) + (if o.direction is Asc {
                    " ASC"@
                } else {
                    " DESC"@
                }),
        ),
        ", "@,
    )
}

/// The lines of the main statement, in fixed order: SELECT, FROM, the
/// JOIN lines, WHERE, ORDER BY, LIMIT and OFFSET, each only if present.
pub open spec fn spec_main_parts(q: Query, entity: Entity, schema: Schema) -> Result<
    Seq<Seq<char>>,
    SqlGenErrorV,
> {
    let table = spec_entity_to_table(q.entity@);
    let needs_join = spec_needs_join(q.filters@);
    let select_part = (if needs_join {
        "SELECT "@ + "DISTINCT "@
    } else {
        "SELECT "@
    }) + spec_select_columns(table, entity, needs_join);
    let from_part = "FROM "@ + table;
    let join_part = spec_joins(
        spec_sort_dedup(spec_filters_roots(q.filters@)),
        entity,
        table,
    );
    match join_part {
        Err(e) => Err(e),
        Ok(join_lines) => {
            match spec_where(q.filters@, table, needs_join, schema, q.entity@) {
                Err(e) => Err(e),
                Ok(where_body) => {
                    let parts = seq![select_part, from_part];
                    let parts = if needs_join {
                        parts.push(spec_join(join_lines, "\n"@))
                    } else {
                        parts
                    };
                    let parts = if where_body.len() > 0 {
                        parts.push("WHERE "@ + where_body)
                    } else {
                        parts
                    };
                    let parts = if q.order_by@.len() > 0 {
                        parts.push(spec_order_by(q.order_by@, table, needs_join))
                    } else {
                        parts
                    };
                    let parts = match q.limit {
                        Some(n) => parts.push("LIMIT "@ + spec_decimal(n as nat)),
                        None => parts,
                    };
                    let parts = match q.offset {
                        Some(n) => parts.push("OFFSET "@ + spec_decimal(n as nat)),
                        None => parts,
                    };
                    Ok(parts)
                },
            }
        },
    }
}

/// The main statement: its lines joined with newlines.
pub open spec fn spec_main_query(q: Query, entity: Entity, schema: Schema) -> Result<
    Seq<char>,
    SqlGenErrorV,
> {
    match spec_main_parts(q, entity, schema) {
        Err(e) => Err(e),
        Ok(parts) => Ok(spec_join(parts, "\n"@)),
    }
}

// ─── Eager-load planning ───

/// One eager-load statement: the target's columns, from the target's
/// table, keyed by the foreign key against the parent ids gathered at run
/// time.
pub open spec fn spec_eager_sql(target_entity: Entity, target_table: Seq<char>, fk: Seq<char>)
    -> Seq<char> {
    "SELECT "@ + spec_join(
        target_entity.fields@.map_values(|f: crate::ast::Field| f.name@),
        ", "@,
    ) + "\nFROM "@ + target_table + "\nWHERE "@ + fk + " IN ($PARENT_IDS)"@
}

/// Walk one eager-load path from `current`, extending the planned queries
/// and the set of processed `entity.relation` steps: a step already
/// processed is skipped but the walk continues past it; a step that does
/// not resolve is the first error.
pub open spec fn spec_eager_path(
    current: Seq<char>,
    path: Seq<Seq<char>>,
    schema: Schema,
    queries: Seq<(Seq<char>, Seq<char>)>,
    processed: Seq<Seq<char>>,
) -> Result<(Seq<(Seq<char>, Seq<char>)>, Seq<Seq<char>>), SqlGenErrorV>
    decreases path.len(),
{
    if path.len() == 0 {
        Ok((queries, processed))
    } else {
        let rel_name = path[0];
        let full_path = current + "."@ + rel_name;
        if processed.contains(full_path) {
            if path.len() > 1 {
                match spec_find_entity(schema.entities@, current) {
                    None => Err(SqlGenErrorV::UnknownEntity(current)),
                    Some(entity) => match spec_find_relation(entity.relations@, rel_name) {
                        None => Err(
                            SqlGenErrorV::UnknownRelation {
                                entity: current,
                                relation: rel_name,
                            },
                        ),
                        Some(rel) => spec_eager_path(
                            rel.target_entity@,
                            path.drop_first(),
                            schema,
                            queries,
                            processed,
                        ),
                    },
                }
            } else {
                Ok((queries, processed))
            }
        } else {
            match spec_find_entity(schema.entities@, current) {
                None => Err(SqlGenErrorV::UnknownEntity(current)),
                Some(entity) => match spec_find_relation(entity.relations@, rel_name) {
                    None => Err(
                        SqlGenErrorV::UnknownRelation { entity: current, relation: rel_name },
                    ),
                    Some(rel) => match spec_find_entity(schema.entities@, rel.target_entity@) {
                        None => Err(SqlGenErrorV::UnknownEntity(rel.target_entity@)),
                        Some(target_entity) => match rel.foreign_key {
                            None => Err(
                                SqlGenErrorV::MissingForeignKey {
                                    entity: current,
                                    relation: rel_name,
                                },
                            ),
                            Some(fk) => {
                                let q2 = queries.push(
                                    (
                                        rel_name,
                                        spec_eager_sql(
                                            target_entity,
                                            spec_entity_to_table(rel.target_entity@),
                                            fk@,
                                        ),
                                    ),
                                );
                                let p2 = processed.push(full_path);
                                if path.len() > 1 {
                                    spec_eager_path(
                                        rel.target_entity@,
                                        path.drop_first(),
                                        schema,
                                        q2,
                                        p2,
                                    )
                                } else {
                                    Ok((q2, p2))
                                }
                            },
                        },
                    },
                },
            }
        }
    }
}

/// Walk every requested path in order, threading the planned queries and
/// processed steps through; emission order is first-occurrence order.
pub open spec fn spec_eager_list(
    root: Seq<char>,
    paths: Seq<IncludePath>,
    schema: Schema,
    queries: Seq<(Seq<char>, Seq<char>)>,
    processed: Seq<Seq<char>>,
) -> Result<(Seq<(Seq<char>, Seq<char>)>, Seq<Seq<char>>), SqlGenErrorV>
    decreases paths.len(),
{
    if paths.len() == 0 {
        Ok((queries, processed))
    } else {
        match spec_eager_path(root, include_view(paths[0]), schema, queries, processed) {
            Err(e) => Err(e),
            Ok(st) => spec_eager_list(root, paths.drop_first(), schema, st.0, st.1),
        }
    }
}

/// The eager-load queries of `q`: every path walked in order, starting
/// from nothing planned.
pub open spec fn spec_eager_queries(q: Query, schema: Schema) -> Result<
    Seq<(Seq<char>, Seq<char>)>,
    SqlGenErrorV,
> {
    match spec_eager_list(q.entity@, q.includes@, schema, Seq::empty(), Seq::empty()) {
        Err(e) => Err(e),
        Ok(st) => Ok(st.0),
    }
}

// ─── The compiler ───

/// All top-level filters are well formed: every condition has a nonempty
/// field path, and LIKE comparisons carry string values.
pub open spec fn filters_wf(filters: Seq<FilterExpr>) -> bool {
    forall|i: int| 0 <= i < filters.len() ==> expr_wf(#[trigger] filters[i])
}

/// What compiling `q` against `schema` produces: an unknown target entity
/// is the first error; otherwise the main statement and the eager-load
/// list, either of which may report the first resolution error instead.
pub open spec fn spec_generate_sql(q: Query, schema: Schema) -> Result<
    GeneratedV,
    SqlGenErrorV,
> {
    match spec_find_entity(schema.entities@, q.entity@) {
        None => Err(SqlGenErrorV::UnknownEntity(q.entity@)),
        Some(entity) => match spec_main_query(q, entity, schema) {
            Err(e) => Err(e),
            Ok(main) => match spec_eager_queries(q, schema) {
                Err(e) => Err(e),
                Ok(eager) => Ok(GeneratedV { main_query: main, eager_queries: eager }),
            },
        },
    }
}

/// The result a compilation outcome stands for.
pub open spec fn result_view(r: Result<GeneratedSQL, SqlGenError>) -> Result<
    GeneratedV,
    SqlGenErrorV,
> {
    match r {
        Ok(g) => Ok(generated_view(g)),
        Err(e) => Err(error_view(e)),
    }
}


// ─── Executable compiler ───

/// The names a string vector stands for.
pub open spec fn strings_view(v: Vec<String>) -> Seq<Seq<char>> {
    v@.map_values(|s: String| s@)
}

/// The pairs a (name, sql) vector stands for.
pub open spec fn pairs_view(v: Vec<(String, String)>) -> Seq<(Seq<char>, Seq<char>)> {
    v@.map_values(|p: (String, String)| (p.0@, p.1@))
}

/// Whether the expression holds a condition on a nested field path.
pub fn filter_expr_is_nested(expr: &FilterExpr) -> (r: bool)
    ensures
        r == spec_expr_nested(*expr),
    decreases *expr,
{
    match expr {
        FilterExpr::Condition(cond) => cond.field.is_nested(),
        FilterExpr::Binary { left, op, right } => filter_expr_is_nested(left)
            || filter_expr_is_nested(right),
    }
}

/// Append the relation names referenced by nested conditions of `expr`,
/// in traversal order.
pub fn collect_join_relations(expr: &FilterExpr, relations: &mut Vec<String>)
    ensures
        strings_view(*final(relations)) == strings_view(*old(relations)) + spec_expr_roots(
            *expr,
        ),
    decreases *expr,
{
    match expr {
        FilterExpr::Condition(cond) => {
            if cond.field.is_nested() {
                relations.push(cond.field.segments[0].clone());
                proof {
                    assert(strings_view(*relations) =~= strings_view(*old(relations))
                        + spec_expr_roots(*expr));
                }
            } else {
                proof {
                    assert(strings_view(*relations) =~= strings_view(*old(relations))
                        + spec_expr_roots(*expr));
                }
            }
        },
        FilterExpr::Binary { left, op, right } => {
            collect_join_relations(left, relations);
            collect_join_relations(right, relations);
            proof {
                assert(strings_view(*relations) =~= strings_view(*old(relations))
                    + spec_expr_roots(*expr));
            }
        },
    }
}

/// Strict lexicographic comparison of two strings, by character scalar
/// value.
fn str_lt(a: &str, b: &str) -> (r: bool)
    ensures
        r == lex_lt(a@, b@),
{
    let alen = a.unicode_len();
    let blen = b.unicode_len();
    let n = if alen < blen {
        alen
    } else {
        blen
    };
    proof {
        assert(a@.skip(0) =~= a@);
        assert(b@.skip(0) =~= b@);
    }
    let mut i: usize = 0;
    while i < n
        invariant
            i <= n,
            alen == a@.len(),
            blen == b@.len(),
            n == if alen < blen {
                alen
            } else {
                blen
            },
            lex_lt(a@, b@) == lex_lt(a@.skip(i as int), b@.skip(i as int)),
        decreases n - i,
    {
        let ca = a.get_char(i);
        let cb = b.get_char(i);
        proof {
            assert(a@.skip(i as int)[0] == a@[i as int]);
            assert(b@.skip(i as int)[0] == b@[i as int]);
            assert(a@.skip(i as int).drop_first() =~= a@.skip(i as int + 1));
            assert(b@.skip(i as int).drop_first() =~= b@.skip(i as int + 1));
        }
        if ca != cb {
            return (ca as u32) < (cb as u32);
        }
        i = i + 1;
    }
    proof {
        if alen < blen {
            assert(a@.skip(i as int).len() == 0);
            assert(b@.skip(i as int).len() > 0);
        } else {
            assert(b@.skip(i as int).len() == 0);
        }
    }
    alen < blen
}

/// Insert `x` into the sorted, duplicate-free list `v`, keeping it sorted
/// and dropping `x` when already present.
fn insert_sorted(v: &mut Vec<String>, x: String)
    ensures
        strings_view(*final(v)) == spec_insert_sorted(strings_view(*old(v)), x@),
{
    let ghost model = strings_view(*v);
    proof {
        assert(model.skip(0) =~= model);
        assert(model.take(0) =~= Seq::<Seq<char>>::empty());
    }
    let mut i: usize = 0;
    while i < v.len()
        invariant
            i <= v@.len(),
            strings_view(*v) == model,
            model == strings_view(*old(v)),
            spec_insert_sorted(model, x@) == model.take(i as int) + spec_insert_sorted(
                model.skip(i as int),
                x@,
            ),
        decreases v@.len() - i,
    {
        proof {
            assert(model.skip(i as int)[0] == model[i as int]);
            assert(model.skip(i as int).drop_first() =~= model.skip(i as int + 1));
        }
        if str_eq(x.as_str(), v[i].as_str()) {
            proof {
                assert(spec_insert_sorted(model.skip(i as int), x@) == model.skip(i as int));
                assert(model.take(i as int) + model.skip(i as int) =~= model);
            }
            return ;
        }
        if str_lt(x.as_str(), v[i].as_str()) {
            v.insert(i, x);
            proof {
                assert(spec_insert_sorted(model.skip(i as int), x@) =~= seq![x@] + model.skip(
                    i as int,
                ));
                assert(strings_view(*v) =~= model.take(i as int) + (seq![x@] + model.skip(
                    i as int,
                )));
            }
            return ;
        }
        proof {
            assert(model.take(i as int + 1) =~= model.take(i as int) + seq![model[i as int]]);
            assert((model.take(i as int) + seq![model[i as int]]) + spec_insert_sorted(
                model.skip(i as int + 1),
                x@,
            ) =~= model.take(i as int) + (seq![model[i as int]] + spec_insert_sorted(
                model.skip(i as int + 1),
                x@,
            )));
        }
        i = i + 1;
    }
    proof {
        assert(model.skip(i as int).len() == 0);
        assert(spec_insert_sorted(model.skip(i as int), x@) =~= seq![x@]);
    }
    let ghost n = model.len() as int;
    v.push(x);
    proof {
        assert(model.take(n) =~= model);
        assert(strings_view(*v) =~= model.take(n) + seq![x@]);
    }
}

/// The distinct relation names referenced by nested conditions of the
/// filter list, in ascending order.
pub fn collect_sorted_relations(filters: &Vec<FilterExpr>) -> (r: Vec<String>)
    ensures
        strings_view(r) == spec_sort_dedup(spec_filters_roots(filters@)),
{
    let mut roots: Vec<String> = Vec::new();
    let mut i: usize = 0;
    while i < filters.len()
        invariant
            i <= filters@.len(),
            strings_view(roots) == spec_filters_roots(filters@.take(i as int)),
        decreases filters.len() - i,
    {
        proof {
            lemma_filters_roots_snoc(filters@, i as int);
        }
        collect_join_relations(&filters[i], &mut roots);
        i = i + 1;
    }
    proof {
        assert(filters@.take(filters@.len() as int) =~= filters@);
    }
    let ghost all_roots = spec_filters_roots(filters@);
    let mut sorted: Vec<String> = Vec::new();
    let mut j: usize = 0;
    while j < roots.len()
        invariant
            j <= roots@.len(),
            strings_view(roots) == all_roots,
            strings_view(sorted) == spec_sort_dedup(all_roots.take(j as int)),
        decreases roots.len() - j,
    {
        proof {
            assert(all_roots.take(j as int + 1).drop_last() =~= all_roots.take(j as int));
            assert(all_roots.take(j as int + 1).last() == all_roots[j as int]);
        }
        insert_sorted(&mut sorted, roots[j].clone());
        j = j + 1;
    }
    proof {
        assert(all_roots.take(all_roots.len() as int) =~= all_roots);
    }
    sorted
}

/// Taking one more filter appends its roots.
proof fn lemma_filters_roots_snoc(filters: Seq<FilterExpr>, i: int)
    requires
        0 <= i < filters.len(),
    ensures
        spec_filters_roots(filters.take(i + 1)) == spec_filters_roots(filters.take(i))
            + spec_expr_roots(filters[i]),
    decreases i,
{
    if i == 0 {
        assert(filters.take(1)[0] == filters[0]);
        assert(filters.take(1).drop_first() =~= Seq::<FilterExpr>::empty());
        assert(spec_filters_roots(filters.take(0)) =~= Seq::<Seq<char>>::empty());
        assert(spec_filters_roots(Seq::<FilterExpr>::empty()) =~= Seq::<Seq<char>>::empty());
        assert(spec_filters_roots(filters.take(1)) =~= spec_expr_roots(filters[0]));
    } else {
        lemma_filters_roots_snoc(filters.drop_first(), i - 1);
        assert(filters.take(i + 1)[0] == filters[0]);
        assert(filters.take(i + 1).drop_first() =~= filters.drop_first().take(i));
        assert(filters.take(i)[0] == filters[0]);
        assert(filters.take(i).drop_first() =~= filters.drop_first().take(i - 1));
        assert(filters.drop_first()[i - 1] == filters[i]);
        assert(spec_expr_roots(filters[0]) + (spec_filters_roots(filters.drop_first().take(i
            - 1)) + spec_expr_roots(filters[i])) =~= (spec_expr_roots(filters[0])
            + spec_filters_roots(filters.drop_first().take(i - 1))) + spec_expr_roots(
            filters[i],
        ));
    }
}

/// The JOIN lines for the sorted relation names, resolved against the
/// entity: the first unresolved name or missing foreign key is the error.
pub fn build_joins(entity: &Entity, source_table: &str, rels: &Vec<String>) -> (r: Result<
    Vec<String>,
    SqlGenError,
>)
    ensures
        (match r {
            Ok(lines) => spec_joins(strings_view(*rels), *entity, source_table@)
                == Ok::<Seq<Seq<char>>, SqlGenErrorV>(strings_view(lines)),
            Err(e) => spec_joins(strings_view(*rels), *entity, source_table@)
                == Err::<Seq<Seq<char>>, SqlGenErrorV>(error_view(e)),
        }),
{
    let ghost model = strings_view(*rels);
    proof {
        assert(model.skip(0) =~= model);
    }
    let mut lines: Vec<String> = Vec::new();
    let mut i: usize = 0;
    while i < rels.len()
        invariant
            i <= rels@.len(),
            strings_view(*rels) == model,
            lines@.len() == i as int,
            (match spec_joins(model.skip(i as int), *entity, source_table@) {
                Ok(rest) => spec_joins(model, *entity, source_table@) == Ok::<
                    Seq<Seq<char>>,
                    SqlGenErrorV,
                >(strings_view(lines) + rest),
                Err(e) => spec_joins(model, *entity, source_table@) == Err::<
                    Seq<Seq<char>>,
                    SqlGenErrorV,
                >(e),
            }),
        decreases rels.len() - i,
    {
        proof {
            assert(model.skip(i as int)[0] == model[i as int]);
            assert(model.skip(i as int).drop_first() =~= model.skip(i as int + 1));
        }
        let rel = match entity.get_relation(rels[i].as_str()) {
            Some(rel) => rel,
            None => {
                return Err(
                    SqlGenError::UnknownRelation {
                        entity: entity.name.clone(),
                        relation: rels[i].clone(),
                    },
                );
            },
        };
        let fk = match &rel.foreign_key {
            Some(fk) => fk,
            None => {
                return Err(
                    SqlGenError::MissingForeignKey {
                        entity: entity.name.clone(),
                        relation: rels[i].clone(),
                    },
                );
            },
        };
        let target_table = entity_to_table(rel.target_entity.as_str());
        let mut line = String::from_str("INNER JOIN ");
        line.append(target_table.as_str());
        line.append(" ON ");
        line.append(target_table.as_str());
        line.append(".");
        line.append(fk.as_str());
        line.append(" = ");
        line.append(source_table);
        line.append(".id");
        proof {
            assert(line@ == spec_join_line(
                spec_entity_to_table(rel.target_entity@),
                fk@,
                source_table@,
            ));
        }
        let ghost prev_lines = strings_view(lines);
        lines.push(line);
        proof {
            assert(strings_view(lines) =~= prev_lines.push(line@));
            match spec_joins(model.skip(i as int + 1), *entity, source_table@) {
                Ok(rest) => {
                    assert(prev_lines.push(line@) + rest =~= prev_lines + (seq![line@] + rest));
                },
                Err(e) => {},
            }
        }
        i = i + 1;
    }
    proof {
        assert(model.skip(i as int).len() == 0);
        assert(strings_view(lines) + Seq::<Seq<char>>::empty() =~= strings_view(lines));
    }
    Ok(lines)
}


/// The SELECT column list: every field name of the entity, qualified with
/// the table name when a join is present.
pub fn build_select_columns(table_name: &str, entity: &Entity, qualify: bool) -> (r: String)
    ensures
        r@ == spec_select_columns(table_name@, *entity, qualify),
{
    let ghost model = entity.fields@.map_values(
        |f: crate::ast::Field|
            if qualify {
                table_name@ + "."@ + f.name@
            } else {
                f.name@
            },
    );
    let mut columns: Vec<String> = Vec::new();
    let mut i: usize = 0;
    while i < entity.fields.len()
        invariant
            i <= entity.fields@.len(),
            model == entity.fields@.map_values(
                |f: crate::ast::Field|
                    if qualify {
                        table_name@ + "."@ + f.name@
                    } else {
                        f.name@
                    },
            ),
            columns@.len() == i as int,
            columns@.map_values(|p: String| p@) == model.take(i as int),
        decreases entity.fields.len() - i,
    {
        let col = if qualify {
            let mut c = String::from_str(table_name);
            c.append(".");
            c.append(entity.fields[i].name.as_str());
            c
        } else {
            entity.fields[i].name.clone()
        };
        columns.push(col);
        proof {
            assert(columns@.map_values(|p: String| p@) =~= model.take(i + 1));
        }
        i = i + 1;
    }
    proof {
        assert(model.take(model.len() as int) =~= model);
    }
    join_strings(&columns, ", ")
}

/// The SQL text of a filter value.
pub fn value_to_sql(value: &FilterValue) -> (r: String)
    ensures
        r@ == spec_value_sql(*value),
{
    match value {
        FilterValue::String(s) => {
            let mut t = String::from_str("'");
            t.append(s.as_str());
            t.append("'");
            t
        },
        FilterValue::Int(n) => i64_to_string(*n),
        FilterValue::Bool(b) => {
            if *b {
                String::from_str("true")
            } else {
                String::from_str("false")
            }
        },
        FilterValue::Null => String::from_str("NULL"),
    }
}

/// The operator and rendered value of a condition.
fn op_value_sql(op: &ComparisonOp, value: &FilterValue) -> (r: String)
    ensures
        r@ == spec_op_value_sql(*op, *value),
{
    match (op, value) {
        (ComparisonOp::Like, FilterValue::String(s)) => {
            let mut t = String::from_str("LIKE");
            t.append(" ");
            t.append("'%");
            t.append(s.as_str());
            t.append("%'");
            t
        },
        (ComparisonOp::In, _) => {
            let mut t = String::from_str("IN");
            t.append(" ");
            t.append("($IN_VALUES)");
            t
        },
        (op, value) => {
            let op_str = match op {
                ComparisonOp::Eq => "=",
                ComparisonOp::Neq => "!=",
                ComparisonOp::Gt => ">",
                ComparisonOp::Gte => ">=",
                ComparisonOp::Lt => "<",
                ComparisonOp::Lte => "<=",
                ComparisonOp::Like => "LIKE",
                ComparisonOp::In => "IN",
            };
            let mut t = String::from_str(op_str);
            t.append(" ");
            let v = value_to_sql(value);
            t.append(v.as_str());
            t
        },
    }
}

/// The SQL text of one condition: the resolved column, the operator and
/// the value.
pub fn condition_to_sql(
    cond: &FilterCondition,
    table_name: &str,
    qualify: bool,
    schema: &Schema,
    entity_name: &str,
) -> (r: Result<String, SqlGenError>)
    requires
        cond_wf(*cond),
    ensures
        (match r {
            Ok(s) => spec_condition_sql(*cond, table_name@, qualify, *schema, entity_name@)
                == Ok::<Seq<char>, SqlGenErrorV>(s@),
            Err(e) => spec_condition_sql(*cond, table_name@, qualify, *schema, entity_name@)
                == Err::<Seq<char>, SqlGenErrorV>(error_view(e)),
        }),
{
    let ov = op_value_sql(&cond.op, &cond.value);
    if cond.field.is_nested() {
        let entity = match schema.get_entity(entity_name) {
            Some(e) => e,
            None => {
                return Err(SqlGenError::UnknownEntity(String::from_str(entity_name)));
            },
        };
        let rel = match entity.get_relation(cond.field.segments[0].as_str()) {
            Some(rel) => rel,
            None => {
                return Err(
                    SqlGenError::UnknownRelation {
                        entity: String::from_str(entity_name),
                        relation: cond.field.segments[0].clone(),
                    },
                );
            },
        };
        let target_table = entity_to_table(rel.target_entity.as_str());
        let mut t = target_table;
        t.append(".");
        t.append(cond.field.segments[1].as_str());
        t.append(" ");
        t.append(ov.as_str());
        Ok(t)
    } else {
        let mut t = if qualify {
            let mut q = String::from_str(table_name);
            q.append(".");
            q.append(cond.field.segments[0].as_str());
            q
        } else {
            cond.field.segments[0].clone()
        };
        t.append(" ");
        t.append(ov.as_str());
        Ok(t)
    }
}

/// The SQL text of a filter expression: conditions render themselves,
/// binary nodes render `(<left> <AND|OR> <right>)`.
pub fn filter_expr_to_sql(
    expr: &FilterExpr,
    table_name: &str,
    qualify: bool,
    schema: &Schema,
    entity_name: &str,
) -> (r: Result<String, SqlGenError>)
    requires
        expr_wf(*expr),
    ensures
        (match r {
            Ok(s) => spec_expr_sql(*expr, table_name@, qualify, *schema, entity_name@)
                == Ok::<Seq<char>, SqlGenErrorV>(s@),
            Err(e) => spec_expr_sql(*expr, table_name@, qualify, *schema, entity_name@)
                == Err::<Seq<char>, SqlGenErrorV>(error_view(e)),
        }),
    decreases *expr,
{
    match expr {
        FilterExpr::Condition(cond) => condition_to_sql(
            cond,
            table_name,
            qualify,
            schema,
            entity_name,
        ),
        FilterExpr::Binary { left, op, right } => {
            let left_sql = match filter_expr_to_sql(left, table_name, qualify, schema,
                entity_name) {
                Ok(s) => s,
                Err(e) => {
                    return Err(e);
                },
            };
            let right_sql = match filter_expr_to_sql(right, table_name, qualify, schema,
                entity_name) {
                Ok(s) => s,
                Err(e) => {
                    return Err(e);
                },
            };
            let op_sql = match op {
                LogicalOp::And => "AND",
                LogicalOp::Or => "OR",
            };
            let mut t = String::from_str("(");
            t.append(left_sql.as_str());
            t.append(" ");
            t.append(op_sql);
            t.append(" ");
            t.append(right_sql.as_str());
            t.append(")");
            Ok(t)
        },
    }
}

/// The WHERE clause body: the top-level filters rendered and joined with
/// AND; empty when there are no filters.
pub fn build_where(
    filters: &Vec<FilterExpr>,
    table_name: &str,
    qualify: bool,
    schema: &Schema,
    entity_name: &str,
) -> (r: Result<String, SqlGenError>)
    requires
        filters_wf(filters@),
    ensures
        (match r {
            Ok(s) => spec_where(filters@, table_name@, qualify, *schema, entity_name@)
                == Ok::<Seq<char>, SqlGenErrorV>(s@),
            Err(e) => spec_where(filters@, table_name@, qualify, *schema, entity_name@)
                == Err::<Seq<char>, SqlGenErrorV>(error_view(e)),
        }),
{
    proof {
        assert(filters@.skip(0) =~= filters@);
    }
    let mut parts: Vec<String> = Vec::new();
    let mut i: usize = 0;
    while i < filters.len()
        invariant
            i <= filters@.len(),
            filters_wf(filters@),
            parts@.len() == i as int,
            (match spec_filters_sqls(
                filters@.skip(i as int),
                table_name@,
                qualify,
                *schema,
                entity_name@,
            ) {
                Ok(rest) => spec_filters_sqls(
                    filters@,
                    table_name@,
                    qualify,
                    *schema,
                    entity_name@,
                ) == Ok::<Seq<Seq<char>>, SqlGenErrorV>(
                    parts@.map_values(|p: String| p@) + rest,
                ),
                Err(e) => spec_filters_sqls(
                    filters@,
                    table_name@,
                    qualify,
                    *schema,
                    entity_name@,
                ) == Err::<Seq<Seq<char>>, SqlGenErrorV>(e),
            }),
        decreases filters.len() - i,
    {
        proof {
            assert(filters@.skip(i as int)[0] == filters@[i as int]);
            assert(filters@.skip(i as int).drop_first() =~= filters@.skip(i as int + 1));
        }
        let sql = match filter_expr_to_sql(&filters[i], table_name, qualify, schema,
            entity_name) {
            Ok(s) => s,
            Err(e) => {
                return Err(e);
            },
        };
        let ghost prev = parts@.map_values(|p: String| p@);
        parts.push(sql);
        proof {
            assert(parts@.map_values(|p: String| p@) =~= prev.push(sql@));
            match spec_filters_sqls(
                filters@.skip(i as int + 1),
                table_name@,
                qualify,
                *schema,
                entity_name@,
            ) {
                Ok(rest) => {
                    assert(prev.push(sql@) + rest =~= prev + (seq![sql@] + rest));
                },
                Err(e) => {},
            }
        }
        i = i + 1;
    }
    proof {
        assert(filters@.skip(i as int).len() == 0);
        assert(parts@.map_values(|p: String| p@) + Seq::<Seq<char>>::empty() =~= parts@.map_values(
            |p: String| p@,
        ));
    }
    Ok(join_strings(&parts, " AND "))
}

/// The ORDER BY clause: each field, qualified as the columns are, with
/// its direction.
pub fn build_order_by(order_by: &Vec<OrderByClause>, table_name: &str, qualify: bool) -> (r:
    String)
    ensures
        r@ == spec_order_by(order_by@, table_name@, qualify),
{
    let ghost model = order_by@.map_values(
        |o: OrderByClause|
            (if qualify {
                table_name@ + "."@ + o.field@
            } else {
                o.field@
            }) + (if o.direction is Asc {
                " ASC"@
            } else {
                " DESC"@
            }),
    );
    let mut clauses: Vec<String> = Vec::new();
    let mut i: usize = 0;
    while i < order_by.len()
        invariant
            i <= order_by@.len(),
            model == order_by@.map_values(
                |o: OrderByClause|
                    (if qualify {
                        table_name@ + "."@ + o.field@
                    } else {
                        o.field@
                    }) + (if o.direction is Asc {
                        " ASC"@
                    } else {
                        " DESC"@
                    }),
            ),
            clauses@.len() == i as int,
            clauses@.map_values(|p: String| p@) == model.take(i as int),
        decreases order_by.len() - i,
    {
        let mut c = if qualify {
            let mut q = String::from_str(table_name);
            q.append(".");
            q.append(order_by[i].field.as_str());
            q
        } else {
            order_by[i].field.clone()
        };
        match order_by[i].direction {
            SortDirection::Asc => c.append(" ASC"),
            SortDirection::Desc => c.append(" DESC"),
        }
        clauses.push(c);
        proof {
            assert(clauses@.map_values(|p: String| p@) =~= model.take(i + 1));
        }
        i = i + 1;
    }
    proof {
        assert(model.take(model.len() as int) =~= model);
    }
    let mut r = String::from_str("ORDER BY ");
    let joined = join_strings(&clauses, ", ");
    r.append(joined.as_str());
    r
}

/// Build the main SELECT statement for a resolved entity: the fixed line
/// order is SELECT, FROM, the JOIN lines, WHERE, ORDER BY, LIMIT, OFFSET.
pub fn build_main_query(query: &Query, entity: &Entity, schema: &Schema) -> (r: Result<
    String,
    SqlGenError,
>)
    requires
        filters_wf(query.filters@),
    ensures
        (match r {
            Ok(s) => spec_main_query(*query, *entity, *schema) == Ok::<Seq<char>, SqlGenErrorV>(
                s@,
            ),
            Err(e) => spec_main_query(*query, *entity, *schema) == Err::<
                Seq<char>,
                SqlGenErrorV,
            >(error_view(e)),
        }),
{
    let table_name = entity_to_table(query.entity.as_str());
    let mut needs_join = false;
    let mut i: usize = 0;
    while i < query.filters.len()
        invariant
            i <= query.filters@.len(),
            needs_join == exists|j: int|
                0 <= j < i && spec_expr_nested(#[trigger] query.filters@[j]),
        decreases query.filters.len() - i,
    {
        if filter_expr_is_nested(&query.filters[i]) {
            needs_join = true;
        }
        i = i + 1;
    }
    proof {
        assert(needs_join == spec_needs_join(query.filters@));
    }
    let columns = build_select_columns(table_name.as_str(), entity, needs_join);
    let mut select_part = String::from_str("SELECT ");
    if needs_join {
        select_part.append("DISTINCT ");
    }
    select_part.append(columns.as_str());
    let mut from_part = String::from_str("FROM ");
    from_part.append(table_name.as_str());
    let rels = collect_sorted_relations(&query.filters);
    let join_lines = match build_joins(entity, table_name.as_str(), &rels) {
        Ok(lines) => lines,
        Err(e) => {
            return Err(e);
        },
    };
    let where_body = match build_where(
        &query.filters,
        table_name.as_str(),
        needs_join,
        schema,
        query.entity.as_str(),
    ) {
        Ok(w) => w,
        Err(e) => {
            return Err(e);
        },
    };
    let mut parts: Vec<String> = Vec::new();
    parts.push(select_part);
    parts.push(from_part);
    if needs_join {
        parts.push(join_strings(&join_lines, "\n"));
    }
    if !where_body.as_str().is_empty() {
        let mut w = String::from_str("WHERE ");
        w.append(where_body.as_str());
        parts.push(w);
    }
    if order_by_present(query) {
        parts.push(build_order_by(&query.order_by, table_name.as_str(), needs_join));
    }
    if let Some(n) = query.limit {
        let mut l = String::from_str("LIMIT ");
        let d = u64_to_string(n);
        l.append(d.as_str());
        parts.push(l);
    }
    if let Some(n) = query.offset {
        let mut o = String::from_str("OFFSET ");
        let d = u64_to_string(n);
        o.append(d.as_str());
        parts.push(o);
    }
    proof {
        assert(spec_main_parts(*query, *entity, *schema) is Ok);
        assert(parts@.map_values(|p: String| p@) =~= spec_main_parts(
            *query,
            *entity,
            *schema,
        )->Ok_0);
    }
    Ok(join_strings(&parts, "\n"))
}

/// Whether the query carries any order-by clause.
fn order_by_present(query: &Query) -> (r: bool)
    ensures
        r == (query.order_by@.len() > 0),
{
    query.order_by.len() > 0
}


/// Whether `x` occurs in `v`.
fn contains_string(v: &Vec<String>, x: &str) -> (r: bool)
    ensures
        r == strings_view(*v).contains(x@),
{
    let mut i: usize = 0;
    while i < v.len()
        invariant
            i <= v@.len(),
            forall|j: int| 0 <= j < i ==> strings_view(*v)[j] != x@,
        decreases v.len() - i,
    {
        if str_eq(v[i].as_str(), x) {
            proof {
                assert(strings_view(*v)[i as int] == x@);
            }
            return true;
        }
        i = i + 1;
    }
    proof {
        assert(!strings_view(*v).contains(x@));
    }
    false
}

/// Build one eager-load statement for a resolved relation step.
fn eager_sql_for(target_entity: &Entity, target_table: &str, fk: &str) -> (r: String)
    ensures
        r@ == spec_eager_sql(*target_entity, target_table@, fk@),
{
    let ghost model = target_entity.fields@.map_values(|f: crate::ast::Field| f.name@);
    let mut columns: Vec<String> = Vec::new();
    let mut i: usize = 0;
    while i < target_entity.fields.len()
        invariant
            i <= target_entity.fields@.len(),
            model == target_entity.fields@.map_values(|f: crate::ast::Field| f.name@),
            columns@.len() == i as int,
            columns@.map_values(|p: String| p@) == model.take(i as int),
        decreases target_entity.fields.len() - i,
    {
        columns.push(target_entity.fields[i].name.clone());
        proof {
            assert(columns@.map_values(|p: String| p@) =~= model.take(i + 1));
        }
        i = i + 1;
    }
    proof {
        assert(model.take(model.len() as int) =~= model);
    }
    let mut sql = String::from_str("SELECT ");
    let joined = join_strings(&columns, ", ");
    sql.append(joined.as_str());
    sql.append("\nFROM ");
    sql.append(target_table);
    sql.append("\nWHERE ");
    sql.append(fk);
    sql.append(" IN ($PARENT_IDS)");
    sql
}

/// Walk one eager-load path from position `pos`, extending the planned
/// queries and the processed `entity.relation` steps exactly as the
/// eager-path spec lays down; on an error the spec reports it and the
/// partial state is discarded by the caller.
pub fn build_eager_query_for_path(
    current_entity: &str,
    path: &Vec<String>,
    pos: usize,
    schema: &Schema,
    queries: &mut Vec<(String, String)>,
    processed: &mut Vec<String>,
) -> (r: Result<(), SqlGenError>)
    requires
        pos <= path@.len(),
    ensures
        (match r {
            Ok(_) => spec_eager_path(
                current_entity@,
                strings_view(*path).skip(pos as int),
                *schema,
                pairs_view(*old(queries)),
                strings_view(*old(processed)),
            ) == Ok::<(Seq<(Seq<char>, Seq<char>)>, Seq<Seq<char>>), SqlGenErrorV>(
                (pairs_view(*final(queries)), strings_view(*final(processed))),
            ),
            Err(e) => spec_eager_path(
                current_entity@,
                strings_view(*path).skip(pos as int),
                *schema,
                pairs_view(*old(queries)),
                strings_view(*old(processed)),
            ) == Err::<(Seq<(Seq<char>, Seq<char>)>, Seq<Seq<char>>), SqlGenErrorV>(
                error_view(e),
            ),
        }),
    decreases path@.len() - pos,
{
    let ghost suffix = strings_view(*path).skip(pos as int);
    if pos == path.len() {
        proof {
            assert(suffix.len() == 0);
        }
        return Ok(());
    }
    proof {
        assert(suffix[0] == strings_view(*path)[pos as int]);
        assert(suffix.drop_first() =~= strings_view(*path).skip(pos as int + 1));
    }
    let rel_name = &path[pos];
    let mut full_path = String::from_str(current_entity);
    full_path.append(".");
    full_path.append(rel_name.as_str());
    if contains_string(processed, full_path.as_str()) {
        if pos + 1 < path.len() {
            let entity = match schema.get_entity(current_entity) {
                Some(e) => e,
                None => {
                    return Err(SqlGenError::UnknownEntity(String::from_str(current_entity)));
                },
            };
            let rel = match entity.get_relation(rel_name.as_str()) {
                Some(rel) => rel,
                None => {
                    return Err(
                        SqlGenError::UnknownRelation {
                            entity: String::from_str(current_entity),
                            relation: rel_name.clone(),
                        },
                    );
                },
            };
            build_eager_query_for_path(
                rel.target_entity.as_str(),
                path,
                pos + 1,
                schema,
                queries,
                processed,
            )
        } else {
            Ok(())
        }
    } else {
        let entity = match schema.get_entity(current_entity) {
            Some(e) => e,
            None => {
                return Err(SqlGenError::UnknownEntity(String::from_str(current_entity)));
            },
        };
        let rel = match entity.get_relation(rel_name.as_str()) {
            Some(rel) => rel,
            None => {
                return Err(
                    SqlGenError::UnknownRelation {
                        entity: String::from_str(current_entity),
                        relation: rel_name.clone(),
                    },
                );
            },
        };
        let target_entity = match schema.get_entity(rel.target_entity.as_str()) {
            Some(e) => e,
            None => {
                return Err(SqlGenError::UnknownEntity(rel.target_entity.clone()));
            },
        };
        let fk = match &rel.foreign_key {
            Some(fk) => fk,
            None => {
                return Err(
                    SqlGenError::MissingForeignKey {
                        entity: String::from_str(current_entity),
                        relation: rel_name.clone(),
                    },
                );
            },
        };
        let target_table = entity_to_table(rel.target_entity.as_str());
        let sql = eager_sql_for(target_entity, target_table.as_str(), fk.as_str());
        let ghost prev_queries = pairs_view(*queries);
        let ghost prev_processed = strings_view(*processed);
        queries.push((rel_name.clone(), sql));
        processed.push(full_path);
        proof {
            assert(pairs_view(*queries) =~= prev_queries.push(
                (suffix[0], spec_eager_sql(*target_entity, target_table@, fk@)),
            ));
            assert(strings_view(*processed) =~= prev_processed.push(
                current_entity@ + "."@ + suffix[0],
            ));
        }
        if pos + 1 < path.len() {
            build_eager_query_for_path(
                rel.target_entity.as_str(),
                path,
                pos + 1,
                schema,
                queries,
                processed,
            )
        } else {
            Ok(())
        }
    }
}

/// Walk every requested eager-load path in order, collecting the planned
/// queries in first-occurrence order.
pub fn build_eager_queries(root_entity: &str, includes: &Vec<IncludePath>, schema: &Schema)
    -> (r: Result<Vec<(String, String)>, SqlGenError>)
    ensures
        (match r {
            Ok(v) => (spec_eager_list(
                root_entity@,
                includes@,
                *schema,
                Seq::empty(),
                Seq::empty(),
            ) matches Ok(st) && st.0 == pairs_view(v)),
            Err(e) => spec_eager_list(
                root_entity@,
                includes@,
                *schema,
                Seq::empty(),
                Seq::empty(),
            ) == Err::<(Seq<(Seq<char>, Seq<char>)>, Seq<Seq<char>>), SqlGenErrorV>(
                error_view(e),
            ),
        }),
{
    let mut queries: Vec<(String, String)> = Vec::new();
    let mut processed: Vec<String> = Vec::new();
    proof {
        assert(includes@.skip(0) =~= includes@);
        assert(pairs_view(queries) =~= Seq::<(Seq<char>, Seq<char>)>::empty());
        assert(strings_view(processed) =~= Seq::<Seq<char>>::empty());
    }
    let mut i: usize = 0;
    while i < includes.len()
        invariant
            i <= includes@.len(),
            spec_eager_list(root_entity@, includes@, *schema, Seq::empty(), Seq::empty())
                == spec_eager_list(
                root_entity@,
                includes@.skip(i as int),
                *schema,
                pairs_view(queries),
                strings_view(processed),
            ),
        decreases includes.len() - i,
    {
        proof {
            assert(includes@.skip(i as int)[0] == includes@[i as int]);
            assert(includes@.skip(i as int).drop_first() =~= includes@.skip(i as int + 1));
            assert(strings_view(includes@[i as int].path).skip(0) =~= include_view(
                includes@[i as int],
            ));
        }
        match build_eager_query_for_path(
            root_entity,
            &includes[i].path,
            0,
            schema,
            &mut queries,
            &mut processed,
        ) {
            Ok(_) => {},
            Err(e) => {
                return Err(e);
            },
        }
        i = i + 1;
    }
    proof {
        assert(includes@.skip(i as int).len() == 0);
    }
    Ok(queries)
}

/// Compile a query against a schema: one main SELECT and zero or more
/// eager-load SELECTs, or the first error — an unknown target entity, an
/// unresolved relation, or a relation without a foreign key.
pub fn generate_sql(query: &Query, schema: &Schema) -> (r: Result<GeneratedSQL, SqlGenError>)
    requires
        filters_wf(query.filters@),
    ensures
        result_view(r) == spec_generate_sql(*query, *schema),
{
    let entity = match schema.get_entity(query.entity.as_str()) {
        Some(e) => e,
        None => {
            return Err(SqlGenError::UnknownEntity(query.entity.clone()));
        },
    };
    let main_query = match build_main_query(query, entity, schema) {
        Ok(m) => m,
        Err(e) => {
            return Err(e);
        },
    };
    let eager_queries = match build_eager_queries(query.entity.as_str(), &query.includes,
        schema) {
        Ok(qs) => qs,
        Err(e) => {
            return Err(e);
        },
    };
    Ok(GeneratedSQL { main_query, eager_queries })
}

} // verus!
