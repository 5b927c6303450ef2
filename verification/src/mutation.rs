//! The mutation compiler: turns an insert/update/delete descriptor into one
//! parameterized DML statement plus its parameter-name list, or a
//! structured rejection. Placeholders are numbered `$1..$n` across SET then
//! WHERE; updates and deletes require at least one filter as a safety gate
//! against unbounded statements, and an update may not set a primary key.
//!
//! Table naming here converts the entity name to snake_case without
//! pluralizing, an inherited divergence from the naming resolver used by
//! the query compiler.

use vstd::prelude::*;
use vstd::string::StrSliceExecFns;
use vstd::string::StringExecFns;
use crate::ast::{Entity, Field, Schema, spec_find_entity, spec_find_field};
use crate::naming::{is_ascii_uppercase, spec_lower_char};
use crate::strutil::{join_strings, push_char, spec_decimal, spec_join, str_eq, u128_to_string};

verus! {

/// A mutation descriptor as it arrives over the wire: a type tag, a target
/// entity, and the names of the fields to set and of the filter columns,
/// each absent when the corresponding key was missing or not a map. Field
/// values travel out of band, keyed by the same names.
#[derive(Debug, Clone, PartialEq)]
pub struct MutationRequest {
    pub mutation_type: Option<String>,
    pub entity: Option<String>,
    pub fields: Option<Vec<String>>,
    pub filters: Option<Vec<String>>,
}

/// The outcome of compiling a mutation: a statement with its parameter
/// names and affected-row count, or a rejection message.
#[derive(Debug, Clone, PartialEq)]
pub enum MutationResult {
    Valid { sql: String, params: Vec<String>, affected: u64 },
    Invalid { error: String },
}

/// The mathematical shape of a mutation outcome.
#[verifier::ext_equal]
pub enum MutationResultV {
    Valid { sql: Seq<char>, params: Seq<Seq<char>>, affected: int },
    Invalid { error: Seq<char> },
}

/// The outcome a `MutationResult` stands for.
pub open spec fn result_view(r: MutationResult) -> MutationResultV {
    match r {
        MutationResult::Valid { sql, params, affected } => MutationResultV::Valid {
            sql: sql@,
            params: params@.map_values(|p: String| p@),
            affected: affected as int,
        },
        MutationResult::Invalid { error } => MutationResultV::Invalid { error: error@ },
    }
}

impl MutationResult {
    /// Whether this outcome carries a statement.
    pub fn is_valid(&self) -> (r: bool)
        ensures
            r == (result_view(*self) is Valid),
    {
        match self {
            MutationResult::Valid { .. } => true,
            MutationResult::Invalid { .. } => false,
        }
    }
}

/// What position `i` of `s` contributes to the mutation table name: the
/// lowercased character, preceded by an underscore before every capital
/// except a leading one.
pub open spec fn spec_mut_table_piece(s: Seq<char>, i: int) -> Seq<char> {
    if i > 0 && is_ascii_uppercase(s[i]) {
        seq!['_', spec_lower_char(s[i])]
    } else {
        seq![spec_lower_char(s[i])]
    }
}

/// The mutation table name built from the first `n` characters of `s`.
pub open spec fn spec_mut_table_prefix(s: Seq<char>, n: int) -> Seq<char>
    decreases n,
{
    if n <= 0 {
        Seq::empty()
    } else {
        spec_mut_table_prefix(s, n - 1) + spec_mut_table_piece(s, n - 1)
    }
}

/// The table name the mutation compiler uses for entity name `s`:
/// snake_case, not pluralized.
pub open spec fn spec_mutation_table(s: Seq<char>) -> Seq<char> {
    spec_mut_table_prefix(s, s.len() as int)
}

/// Convert an entity name to the mutation compiler's table name: an
/// underscore before every capital except a leading one, all lowercased;
/// `User` becomes `user`, `HTTPServer` becomes `h_t_t_p_server`.
pub fn entity_to_table(entity_name: &str) -> (r: String)
    ensures
        r@ == spec_mutation_table(entity_name@),
{
    let len = entity_name.unicode_len();
    let mut r = String::new();
    let mut i: usize = 0;
    while i < len
        invariant
            i <= len,
            len == entity_name@.len(),
            r@ == spec_mut_table_prefix(entity_name@, i as int),
        decreases len - i,
    {
        let c = entity_name.get_char(i);
        let u = c as u32;
        if i > 0 && 65 <= u && u <= 90 {
            push_char(&mut r, '_');
        }
        push_char(&mut r, crate::naming::lower_char(c));
        proof {
            assert(r@ =~= spec_mut_table_prefix(entity_name@, i + 1));
        }
        i = i + 1;
    }
    r
}

/// The message rejecting an unknown field.
pub open spec fn spec_unknown_field_msg(field: Seq<char>, entity: Seq<char>) -> Seq<char> {
    "Unknown field '"@ + field + "' in entity '"@ + entity + "'"@
}

/// The first name in `names` that is not a field of `fields`, if any.
pub open spec fn spec_first_unknown(names: Seq<Seq<char>>, fields: Seq<Field>) -> Option<
    Seq<char>,
>
    decreases names.len(),
{
    if names.len() == 0 {
        None
    } else if spec_find_field(fields, names[0]) is None {
        Some(names[0])
    } else {
        spec_first_unknown(names.drop_first(), fields)
    }
}

/// The rejection produced by the update field scan, if any: the first name
/// that is unknown is rejected as unknown; the first known name that is a
/// primary key is rejected as a primary-key update.
pub open spec fn spec_update_field_error(names: Seq<Seq<char>>, entity: Entity) -> Option<
    Seq<char>,
>
    decreases names.len(),
{
    if names.len() == 0 {
        None
    } else {
        match spec_find_field(entity.fields@, names[0]) {
            None => Some(spec_unknown_field_msg(names[0], entity.name@)),
            Some(f) => if f.primary_key {
                Some("Cannot update primary key"@)
            } else {
                spec_update_field_error(names.drop_first(), entity)
            },
        }
    }
}

/// The column list of an insert: each field name in double quotes.
pub open spec fn spec_quoted_cols(names: Seq<Seq<char>>) -> Seq<Seq<char>> {
    names.map_values(|n: Seq<char>| "\""@ + n + "\""@)
}

/// The placeholder list `$start .. $(start+count-1)`.
pub open spec fn spec_placeholders(count: nat, start: nat) -> Seq<Seq<char>>
    decreases count,
{
    if count == 0 {
        Seq::empty()
    } else {
        seq!["$"@ + spec_decimal(start)] + spec_placeholders((count - 1) as nat, start + 1)
    }
}

/// One quoted-column-equals-placeholder clause.
pub open spec fn spec_eq_clause(name: Seq<char>, idx: nat) -> Seq<char> {
    "\""@ + name + "\"=$"@ + spec_decimal(idx)
}

/// The clause list for `names`, with placeholders numbered from `start`.
pub open spec fn spec_eq_clauses(names: Seq<Seq<char>>, start: nat) -> Seq<Seq<char>>
    decreases names.len(),
{
    if names.len() == 0 {
        Seq::empty()
    } else {
        seq![spec_eq_clause(names[0], start)] + spec_eq_clauses(names.drop_first(), start + 1)
    }
}

/// The outcome of an insert against `entity`: a rejection when the field
/// map is absent or names an undeclared field, else the INSERT statement
/// with one placeholder per field and the field names as parameters.
pub open spec fn spec_insert(fields_opt: Option<Seq<Seq<char>>>, entity: Entity)
    -> MutationResultV {
    match fields_opt {
        None => MutationResultV::Invalid {
            error: "Missing or invalid 'fields' in INSERT mutation"@,
        },
        Some(names) => match spec_first_unknown(names, entity.fields@) {
            Some(f) => MutationResultV::Invalid {
                error: spec_unknown_field_msg(f, entity.name@),
            },
            None => MutationResultV::Valid {
                sql: "INSERT INTO "@ + spec_mutation_table(entity.name@) + " ("@ + spec_join(
                    spec_quoted_cols(names),
                    ", "@,
                ) + ") VALUES ("@ + spec_join(spec_placeholders(names.len(), 1), ", "@)
                    + ") RETURNING *"@,
                params: names,
                affected: 1,
            },
        },
    }
}

/// The outcome of an update against `entity`: rejections for an absent
/// field or filter map, an empty filter map, an undeclared field or a
/// primary-key field, else the UPDATE statement with placeholders numbered
/// across SET then WHERE and the field then filter names as parameters.
pub open spec fn spec_update(
    fields_opt: Option<Seq<Seq<char>>>,
    filters_opt: Option<Seq<Seq<char>>>,
    entity: Entity,
) -> MutationResultV {
    match fields_opt {
        None => MutationResultV::Invalid {
            error: "Missing or invalid 'fields' in UPDATE mutation"@,
        },
        Some(fields) => match filters_opt {
            None => MutationResultV::Invalid {
                error: "Missing or invalid 'filters' in UPDATE mutation"@,
            },
            Some(filters) => if filters.len() == 0 {
                MutationResultV::Invalid {
                    error: "UPDATE requires at least one filter (WHERE clause)"@,
                }
            } else {
                match spec_update_field_error(fields, entity) {
                    Some(msg) => MutationResultV::Invalid { error: msg },
                    None => MutationResultV::Valid {
                        sql: "UPDATE "@ + spec_mutation_table(entity.name@) + " SET "@
                            + spec_join(spec_eq_clauses(fields, 1), ", "@) + " WHERE "@
                            + spec_join(
                            spec_eq_clauses(filters, fields.len() + 1),
                            " AND "@,
                        ) + " RETURNING *"@,
                        params: fields + filters,
                        affected: 1,
                    },
                }
            },
        },
    }
}

/// The outcome of a delete against `entity`: rejections for an absent or
/// empty filter map, else the DELETE statement with the filter names as
/// parameters.
pub open spec fn spec_delete(filters_opt: Option<Seq<Seq<char>>>, entity: Entity)
    -> MutationResultV {
    match filters_opt {
        None => MutationResultV::Invalid {
            error: "Missing or invalid 'filters' in DELETE mutation"@,
        },
        Some(filters) => if filters.len() == 0 {
            MutationResultV::Invalid {
                error: "DELETE requires at least one filter (WHERE clause) for safety"@,
            }
        } else {
            MutationResultV::Valid {
                sql: "DELETE FROM "@ + spec_mutation_table(entity.name@) + " WHERE "@
                    + spec_join(spec_eq_clauses(filters, 1), " AND "@),
                params: filters,
                affected: 1,
            }
        },
    }
}

/// The names a field-name vector stands for.
pub open spec fn names_view(v: Vec<String>) -> Seq<Seq<char>> {
    v@.map_values(|s: String| s@)
}

/// The names an optional field-name vector stands for.
pub open spec fn names_opt_view(v: Option<Vec<String>>) -> Option<Seq<Seq<char>>> {
    match v {
        None => None,
        Some(x) => Some(names_view(x)),
    }
}

/// The outcome of compiling `req` against `schema`: rejections for a
/// missing type tag, a missing or unknown entity and an unknown type tag,
/// else the outcome of the named operation.
pub open spec fn spec_generate_mutation(req: MutationRequest, schema: Schema)
    -> MutationResultV {
    match req.mutation_type {
        None => MutationResultV::Invalid { error: "Missing 'type' field in mutation"@ },
        Some(t) => match req.entity {
            None => MutationResultV::Invalid { error: "Missing 'entity' field in mutation"@ },
            Some(ename) => match spec_find_entity(schema.entities@, ename@) {
                None => MutationResultV::Invalid {
                    error: "Entity '"@ + ename@ + "' not found in schema"@,
                },
                Some(entity) => if t@ == "insert"@ {
                    spec_insert(names_opt_view(req.fields), entity)
                } else if t@ == "update"@ {
                    spec_update(
                        names_opt_view(req.fields),
                        names_opt_view(req.filters),
                        entity,
                    )
                } else if t@ == "delete"@ {
                    spec_delete(names_opt_view(req.filters), entity)
                } else {
                    MutationResultV::Invalid {
                        error: "Unknown mutation type: '"@ + t@ + "'"@,
                    }
                },
            },
        },
    }
}

/// Build a rejection from a fixed message.
fn error_response(message: &str) -> (r: MutationResult)
    ensures
        result_view(r) == (MutationResultV::Invalid { error: message@ }),
{
    MutationResult::Invalid { error: String::from_str(message) }
}

/// The message rejecting an unknown field, built for the given names.
fn unknown_field_message(field: &str, entity: &str) -> (r: String)
    ensures
        r@ == spec_unknown_field_msg(field@, entity@),
{
    let mut m = String::from_str("Unknown field '");
    m.append(field);
    m.append("' in entity '");
    m.append(entity);
    m.append("'");
    m
}

/// The clause list for `names` with placeholders numbered from `start`,
/// as strings.
fn build_eq_clauses(names: &Vec<String>, start: u128) -> (r: Vec<String>)
    requires
        start + names@.len() <= u128::MAX,
    ensures
        r@.map_values(|p: String| p@) == spec_eq_clauses(names_view(*names), start as nat),
{
    let ghost model = names_view(*names);
    let mut r: Vec<String> = Vec::new();
    let mut i: usize = 0;
    while i < names.len()
        invariant
            i <= names@.len(),
            model == names_view(*names),
            start + names@.len() <= u128::MAX,
            r@.len() == i as int,
            r@.map_values(|p: String| p@) == spec_eq_clauses_prefix(model, start as nat, i as int),
        decreases names.len() - i,
    {
        let mut clause = String::from_str("\"");
        clause.append(names[i].as_str());
        clause.append("\"=$");
        let num = u128_to_string(start + (i as u128));
        clause.append(num.as_str());
        proof {
            lemma_eq_clauses_index(model, start as nat, i as int);
            assert(clause@ == spec_eq_clause(model[i as int], (start + i) as nat));
        }
        r.push(clause);
        proof {
            assert(r@.map_values(|p: String| p@) =~= spec_eq_clauses_prefix(
                model,
                start as nat,
                i + 1,
            ));
        }
        i = i + 1;
    }
    proof {
        lemma_eq_clauses_prefix_all(model, start as nat);
    }
    r
}

/// The first `n` clauses of the clause list.
spec fn spec_eq_clauses_prefix(names: Seq<Seq<char>>, start: nat, n: int) -> Seq<Seq<char>> {
    spec_eq_clauses(names, start).take(n)
}

/// The clause list has one clause per name, the `i`-th built from the
/// `i`-th name with placeholder `start + i`.
proof fn lemma_eq_clauses_index(names: Seq<Seq<char>>, start: nat, i: int)
    requires
        0 <= i < names.len(),
    ensures
        spec_eq_clauses(names, start).len() == names.len(),
        spec_eq_clauses(names, start)[i] == spec_eq_clause(names[i], (start + i) as nat),
    decreases names.len(),
{
    lemma_eq_clauses_len(names, start);
    if i > 0 {
        lemma_eq_clauses_index(names.drop_first(), start + 1, i - 1);
    }
}

/// The clause list has one clause per name.
proof fn lemma_eq_clauses_len(names: Seq<Seq<char>>, start: nat)
    ensures
        spec_eq_clauses(names, start).len() == names.len(),
    decreases names.len(),
{
    if names.len() > 0 {
        lemma_eq_clauses_len(names.drop_first(), start + 1);
    }
}

/// Taking all clauses is the clause list itself.
proof fn lemma_eq_clauses_prefix_all(names: Seq<Seq<char>>, start: nat)
    ensures
        spec_eq_clauses_prefix(names, start, names.len() as int) == spec_eq_clauses(
            names,
            start,
        ),
{
    lemma_eq_clauses_len(names, start);
    assert(spec_eq_clauses(names, start).take(names.len() as int) =~= spec_eq_clauses(
        names,
        start,
    ));
}

/// The placeholder list has one entry per counted position, the `i`-th
/// reading `$start+i`.
proof fn lemma_placeholders_index(count: nat, start: nat, i: int)
    requires
        0 <= i < count,
    ensures
        spec_placeholders(count, start).len() == count,
        spec_placeholders(count, start)[i] == "$"@ + spec_decimal((start + i) as nat),
    decreases count,
{
    lemma_placeholders_len(count, start);
    if i > 0 {
        lemma_placeholders_index((count - 1) as nat, start + 1, i - 1);
    }
}

/// The placeholder list has one entry per counted position.
proof fn lemma_placeholders_len(count: nat, start: nat)
    ensures
        spec_placeholders(count, start).len() == count,
    decreases count,
{
    if count > 0 {
        lemma_placeholders_len((count - 1) as nat, start + 1);
    }
}

/// Scan `names` for one that is not a field of `entity`, under the skip
/// invariant of the first-unknown spec.
fn find_first_unknown(names: &Vec<String>, entity: &Entity) -> (r: Option<String>)
    ensures
        (match r {
            Some(f) => spec_first_unknown(names_view(*names), entity.fields@) == Some(f@),
            None => spec_first_unknown(names_view(*names), entity.fields@) is None,
        }),
{
    let ghost model = names_view(*names);
    proof {
        assert(model.skip(0) =~= model);
    }
    let mut i: usize = 0;
    while i < names.len()
        invariant
            i <= names@.len(),
            model == names_view(*names),
            spec_first_unknown(model, entity.fields@) == spec_first_unknown(
                model.skip(i as int),
                entity.fields@,
            ),
        decreases names.len() - i,
    {
        proof {
            assert(model.skip(i as int)[0] == model[i as int]);
            assert(model.skip(i as int).drop_first() =~= model.skip(i as int + 1));
        }
        if entity.get_field(names[i].as_str()).is_none() {
            return Some(names[i].clone());
        }
        i = i + 1;
    }
    proof {
        assert(model.skip(i as int).len() == 0);
    }
    None
}

/// Scan the update field list for a rejection, under the skip invariant of
/// the update field-error spec.
fn find_update_field_error(names: &Vec<String>, entity: &Entity) -> (r: Option<String>)
    ensures
        (match r {
            Some(msg) => spec_update_field_error(names_view(*names), *entity) == Some(msg@),
            None => spec_update_field_error(names_view(*names), *entity) is None,
        }),
{
    let ghost model = names_view(*names);
    proof {
        assert(model.skip(0) =~= model);
    }
    let mut i: usize = 0;
    while i < names.len()
        invariant
            i <= names@.len(),
            model == names_view(*names),
            spec_update_field_error(model, *entity) == spec_update_field_error(
                model.skip(i as int),
                *entity,
            ),
        decreases names.len() - i,
    {
        proof {
            assert(model.skip(i as int)[0] == model[i as int]);
            assert(model.skip(i as int).drop_first() =~= model.skip(i as int + 1));
        }
        match entity.get_field(names[i].as_str()) {
            None => {
                return Some(unknown_field_message(names[i].as_str(), entity.name.as_str()));
            },
            Some(f) => {
                if f.primary_key {
                    return Some(String::from_str("Cannot update primary key"));
                }
            },
        }
        i = i + 1;
    }
    proof {
        assert(model.skip(i as int).len() == 0);
    }
    None
}

/// Generate the INSERT statement for a validated field-name list.
fn generate_insert_sql(mutation: &MutationRequest, entity: &Entity) -> (r: MutationResult)
    ensures
        result_view(r) == spec_insert(
            names_opt_view(mutation.fields),
            *entity,
        ),
{
    let fields = match &mutation.fields {
        Some(f) => f,
        None => {
            return error_response("Missing or invalid 'fields' in INSERT mutation");
        },
    };
    if let Some(unknown) = find_first_unknown(fields, entity) {
        return MutationResult::Invalid {
            error: unknown_field_message(unknown.as_str(), entity.name.as_str()),
        };
    }
    let ghost model = names_view(*fields);
    let mut columns: Vec<String> = Vec::new();
    let mut placeholders: Vec<String> = Vec::new();
    let mut params: Vec<String> = Vec::new();
    let mut i: usize = 0;
    while i < fields.len()
        invariant
            i <= fields@.len(),
            model == names_view(*fields),
            columns@.len() == i as int,
            placeholders@.len() == i as int,
            params@.len() == i as int,
            columns@.map_values(|p: String| p@) == spec_quoted_cols(model).take(i as int),
            placeholders@.map_values(|p: String| p@) == spec_placeholders(
                model.len(),
                1,
            ).take(i as int),
            params@.map_values(|p: String| p@) == model.take(i as int),
        decreases fields.len() - i,
    {
        let mut col = String::from_str("\"");
        col.append(fields[i].as_str());
        col.append("\"");
        let mut ph = String::from_str("$");
        let num = u128_to_string((i as u128) + 1);
        ph.append(num.as_str());
        proof {
            lemma_placeholders_index(model.len(), 1, i as int);
            assert(ph@ == spec_placeholders(model.len(), 1)[i as int]);
            assert(col@ == spec_quoted_cols(model)[i as int]);
        }
        columns.push(col);
        placeholders.push(ph);
        params.push(fields[i].clone());
        proof {
            assert(columns@.map_values(|p: String| p@) =~= spec_quoted_cols(model).take(i + 1));
            assert(placeholders@.map_values(|p: String| p@) =~= spec_placeholders(
                model.len(),
                1,
            ).take(i + 1));
            assert(params@.map_values(|p: String| p@) =~= model.take(i + 1));
        }
        i = i + 1;
    }
    proof {
        lemma_placeholders_len(model.len(), 1);
        assert(spec_quoted_cols(model).take(model.len() as int) =~= spec_quoted_cols(model));
        assert(spec_placeholders(model.len(), 1).take(model.len() as int) =~= spec_placeholders(
            model.len(),
            1,
        ));
        assert(model.take(model.len() as int) =~= model);
    }
    let table_name = entity_to_table(entity.name.as_str());
    let mut sql = String::from_str("INSERT INTO ");
    sql.append(table_name.as_str());
    sql.append(" (");
    let cols_joined = join_strings(&columns, ", ");
    sql.append(cols_joined.as_str());
    sql.append(") VALUES (");
    let ph_joined = join_strings(&placeholders, ", ");
    sql.append(ph_joined.as_str());
    sql.append(") RETURNING *");
    MutationResult::Valid { sql, params, affected: 1 }
}

/// Generate the UPDATE statement for validated field and filter lists.
fn generate_update_sql(mutation: &MutationRequest, entity: &Entity) -> (r: MutationResult)
    ensures
        result_view(r) == spec_update(
            names_opt_view(mutation.fields),
            names_opt_view(mutation.filters),
            *entity,
        ),
{
    let fields = match &mutation.fields {
        Some(f) => f,
        None => {
            return error_response("Missing or invalid 'fields' in UPDATE mutation");
        },
    };
    let filters = match &mutation.filters {
        Some(f) => f,
        None => {
            return error_response("Missing or invalid 'filters' in UPDATE mutation");
        },
    };
    if filters.len() == 0 {
        return error_response("UPDATE requires at least one filter (WHERE clause)");
    }
    if let Some(msg) = find_update_field_error(fields, entity) {
        return MutationResult::Invalid { error: msg };
    }
    let nfields = fields.len();
    let set_clauses = build_eq_clauses(fields, 1);
    let where_clauses = build_eq_clauses(filters, (nfields as u128) + 1);
    let mut params: Vec<String> = Vec::new();
    let mut i: usize = 0;
    while i < fields.len()
        invariant
            i <= fields@.len(),
            params@.len() == i as int,
            params@.map_values(|p: String| p@) == names_view(*fields).take(i as int),
        decreases fields.len() - i,
    {
        params.push(fields[i].clone());
        proof {
            assert(params@.map_values(|p: String| p@) =~= names_view(*fields).take(i + 1));
        }
        i = i + 1;
    }
    let mut j: usize = 0;
    while j < filters.len()
        invariant
            j <= filters@.len(),
            params@.len() == fields@.len() + j,
            params@.map_values(|p: String| p@) == names_view(*fields) + names_view(
                *filters,
            ).take(j as int),
        decreases filters.len() - j,
    {
        params.push(filters[j].clone());
        proof {
            assert(names_view(*fields).len() == fields@.len());
            assert(names_view(*filters).len() == filters@.len());
            assert(params@.map_values(|p: String| p@) =~= (names_view(*fields) + names_view(
                *filters,
            ).take(j as int)).push(names_view(*filters)[j as int]));
            assert(names_view(*fields) + names_view(*filters).take(j + 1) =~= (names_view(
                *fields,
            ) + names_view(*filters).take(j as int)).push(names_view(*filters)[j as int]));
        }
        j = j + 1;
    }
    proof {
        assert(names_view(*fields).take(fields@.len() as int) =~= names_view(*fields));
        assert(names_view(*filters).take(filters@.len() as int) =~= names_view(*filters));
    }
    let table_name = entity_to_table(entity.name.as_str());
    let mut sql = String::from_str("UPDATE ");
    sql.append(table_name.as_str());
    sql.append(" SET ");
    let set_joined = join_strings(&set_clauses, ", ");
    sql.append(set_joined.as_str());
    sql.append(" WHERE ");
    let where_joined = join_strings(&where_clauses, " AND ");
    sql.append(where_joined.as_str());
    sql.append(" RETURNING *");
    MutationResult::Valid { sql, params, affected: 1 }
}

/// Generate the DELETE statement for a validated filter list.
fn generate_delete_sql(mutation: &MutationRequest, entity: &Entity) -> (r: MutationResult)
    ensures
        result_view(r) == spec_delete(
            names_opt_view(mutation.filters),
            *entity,
        ),
{
    let filters = match &mutation.filters {
        Some(f) => f,
        None => {
            return error_response("Missing or invalid 'filters' in DELETE mutation");
        },
    };
    if filters.len() == 0 {
        return error_response("DELETE requires at least one filter (WHERE clause) for safety");
    }
    let where_clauses = build_eq_clauses(filters, 1);
    let mut params: Vec<String> = Vec::new();
    let mut i: usize = 0;
    while i < filters.len()
        invariant
            i <= filters@.len(),
            params@.len() == i as int,
            params@.map_values(|p: String| p@) == names_view(*filters).take(i as int),
        decreases filters.len() - i,
    {
        params.push(filters[i].clone());
        proof {
            assert(params@.map_values(|p: String| p@) =~= names_view(*filters).take(i + 1));
        }
        i = i + 1;
    }
    proof {
        assert(names_view(*filters).take(filters@.len() as int) =~= names_view(*filters));
    }
    let table_name = entity_to_table(entity.name.as_str());
    let mut sql = String::from_str("DELETE FROM ");
    sql.append(table_name.as_str());
    sql.append(" WHERE ");
    let where_joined = join_strings(&where_clauses, " AND ");
    sql.append(where_joined.as_str());
    MutationResult::Valid { sql, params, affected: 1 }
}

/// Compile a mutation descriptor against a schema into one parameterized
/// DML statement, or reject it: a missing type tag, a missing or unknown
/// entity, an unknown type tag, an undeclared or primary-key field and a
/// missing filter set are each rejected with the stated message, exactly
/// as the outcome spec lays down.
pub fn generate_mutation_sql(mutation: &MutationRequest, schema: &Schema) -> (r: MutationResult)
    ensures
        result_view(r) == spec_generate_mutation(*mutation, *schema),
{
    let mutation_type = match &mutation.mutation_type {
        Some(t) => t,
        None => {
            return error_response("Missing 'type' field in mutation");
        },
    };
    let entity_name = match &mutation.entity {
        Some(e) => e,
        None => {
            return error_response("Missing 'entity' field in mutation");
        },
    };
    let entity = match schema.get_entity(entity_name.as_str()) {
        Some(e) => e,
        None => {
            let mut msg = String::from_str("Entity '");
            msg.append(entity_name.as_str());
            msg.append("' not found in schema");
            return MutationResult::Invalid { error: msg };
        },
    };
    if str_eq(mutation_type.as_str(), "insert") {
        generate_insert_sql(mutation, entity)
    } else if str_eq(mutation_type.as_str(), "update") {
        generate_update_sql(mutation, entity)
    } else if str_eq(mutation_type.as_str(), "delete") {
        generate_delete_sql(mutation, entity)
    } else {
        let mut msg = String::from_str("Unknown mutation type: '");
        msg.append(mutation_type.as_str());
        msg.append("'");
        MutationResult::Invalid { error: msg }
    }
}

} // verus!
