//! Laws of the compilers, stated against the spec-level pipeline and
//! proved for all inputs: how binary filters render, what a nested filter
//! forces in the main statement, and when compilation rejects the query
//! outright.

use vstd::prelude::*;
use crate::ast::{Relation, Schema, spec_find_entity, spec_find_relation};
use crate::filter::{FilterExpr, LogicalOp};
use crate::generator::{
    GeneratedV, SqlGenErrorV, lex_lt, spec_expr_nested, spec_expr_roots, spec_expr_sql,
    spec_filters_roots, spec_generate_sql, spec_insert_sorted, spec_join_line, spec_joins,
    spec_main_parts, spec_main_query, spec_needs_join, spec_sort_dedup,
};
use crate::naming::spec_entity_to_table;
use crate::query::Query;
use crate::strutil::{contains_sub, spec_join};

verus! {

/// A run of the right part is a run of the whole.
proof fn lemma_contains_append_right(a: Seq<char>, b: Seq<char>, x: Seq<char>)
    requires
        contains_sub(b, x),
    ensures
        contains_sub(a + b, x),
{
    let k = choose|k: int|
        0 <= k <= b.len() - x.len() && #[trigger] b.subrange(k, k + x.len() as int) == x;
    assert((a + b).subrange(a.len() + k, a.len() + k + x.len() as int) =~= x);
}

/// A prefix is a run starting at the front.
proof fn lemma_prefix_contains(a: Seq<char>, b: Seq<char>)
    ensures
        contains_sub(a + b, a),
{
    assert((a + b).subrange(0, 0 + a.len() as int) =~= a);
}

/// Every part occurs in the joined text.
proof fn lemma_join_contains(parts: Seq<Seq<char>>, sep: Seq<char>, i: int)
    requires
        0 <= i < parts.len(),
    ensures
        contains_sub(spec_join(parts, sep), parts[i]),
    decreases parts.len(),
{
    if parts.len() == 1 {
        assert(spec_join(parts, sep).subrange(0, 0 + parts[0].len() as int) =~= parts[0]);
    } else if i == 0 {
        lemma_prefix_contains(parts[0], sep + spec_join(parts.drop_first(), sep));
        assert(parts[0] + (sep + spec_join(parts.drop_first(), sep)) =~= parts[0] + sep
            + spec_join(parts.drop_first(), sep));
    } else {
        lemma_join_contains(parts.drop_first(), sep, i - 1);
        lemma_contains_append_right(sep, spec_join(parts.drop_first(), sep), parts[i]);
        lemma_contains_append_right(
            parts[0],
            sep + spec_join(parts.drop_first(), sep),
            parts[i],
        );
        assert(parts[0] + (sep + spec_join(parts.drop_first(), sep)) =~= parts[0] + sep
            + spec_join(parts.drop_first(), sep));
    }
}

/// A run of a run is a run of the whole.
proof fn lemma_contains_trans(a: Seq<char>, b: Seq<char>, c: Seq<char>)
    requires
        contains_sub(a, b),
        contains_sub(b, c),
    ensures
        contains_sub(a, c),
{
    let k = choose|k: int|
        0 <= k <= a.len() - b.len() && #[trigger] a.subrange(k, k + b.len() as int) == b;
    let m = choose|m: int|
        0 <= m <= b.len() - c.len() && #[trigger] b.subrange(m, m + c.len() as int) == c;
    assert(a.subrange(k + m, k + m + c.len() as int) =~= b.subrange(m, m + c.len() as int));
}

/// A nested expression contributes at least one relation name.
proof fn lemma_nested_expr_has_root(e: FilterExpr)
    requires
        spec_expr_nested(e),
    ensures
        spec_expr_roots(e).len() > 0,
    decreases e,
{
    match e {
        FilterExpr::Condition(c) => {},
        FilterExpr::Binary { left, op, right } => {
            if spec_expr_nested(*left) {
                lemma_nested_expr_has_root(*left);
            } else {
                lemma_nested_expr_has_root(*right);
            }
        },
    }
}

/// A filter list with a nested expression contributes at least one
/// relation name.
proof fn lemma_nested_filters_have_roots(filters: Seq<FilterExpr>, i: int)
    requires
        0 <= i < filters.len(),
        spec_expr_nested(filters[i]),
    ensures
        spec_filters_roots(filters).len() > 0,
    decreases i,
{
    if i == 0 {
        lemma_nested_expr_has_root(filters[0]);
    } else {
        assert(filters.drop_first()[i - 1] == filters[i]);
        lemma_nested_filters_have_roots(filters.drop_first(), i - 1);
    }
}

/// Ordered insertion never empties the list.
proof fn lemma_insert_sorted_nonempty(v: Seq<Seq<char>>, x: Seq<char>)
    ensures
        spec_insert_sorted(v, x).len() >= 1,
    decreases v.len(),
{
    if v.len() != 0 && x != v[0] && !lex_lt(x, v[0]) {
        lemma_insert_sorted_nonempty(v.drop_first(), x);
    }
}

/// Sorting and deduplicating a nonempty list keeps it nonempty.
proof fn lemma_sort_dedup_nonempty(roots: Seq<Seq<char>>)
    requires
        roots.len() > 0,
    ensures
        spec_sort_dedup(roots).len() >= 1,
{
    lemma_insert_sorted_nonempty(spec_sort_dedup(roots.drop_last()), roots.last());
}

/// A filter tree `A and B` compiles to `(<A> AND <B>)` and `A or B` to
/// `(<A> OR <B>)`, the original left/right order preserved: the rendered
/// binary node is an opening parenthesis, the left rendering, the spelled
/// operator with single spaces, the right rendering and a closing
/// parenthesis.
pub proof fn lemma_binary_filter_sql(
    e: FilterExpr,
    table: Seq<char>,
    qualify: bool,
    schema: Schema,
    entity_name: Seq<char>,
    sa: Seq<char>,
    sb: Seq<char>,
)
    requires
        e matches FilterExpr::Binary { left, op, right } && spec_expr_sql(
            *left,
            table,
            qualify,
            schema,
            entity_name,
        ) == Ok::<Seq<char>, SqlGenErrorV>(sa) && spec_expr_sql(
            *right,
            table,
            qualify,
            schema,
            entity_name,
        ) == Ok::<Seq<char>, SqlGenErrorV>(sb),
    ensures
        (e matches FilterExpr::Binary { left, op, right } && op is And) ==> spec_expr_sql(
            e,
            table,
            qualify,
            schema,
            entity_name,
        ) == Ok::<Seq<char>, SqlGenErrorV>("("@ + sa + " AND "@ + sb + ")"@),
        (e matches FilterExpr::Binary { left, op, right } && op is Or) ==> spec_expr_sql(
            e,
            table,
            qualify,
            schema,
            entity_name,
        ) == Ok::<Seq<char>, SqlGenErrorV>("("@ + sa + " OR "@ + sb + ")"@),
{
    reveal_strlit(" ");
    reveal_strlit("AND");
    reveal_strlit("OR");
    reveal_strlit(" AND ");
    reveal_strlit(" OR ");
    assert("("@ + sa + " "@ + "AND"@ + " "@ + sb + ")"@ =~= "("@ + sa + " AND "@ + sb + ")"@);
    assert("("@ + sa + " "@ + "OR"@ + " "@ + sb + ")"@ =~= "("@ + sa + " OR "@ + sb + ")"@);
}

/// Compiling a query against an entity absent from the schema always
/// rejects it as an unknown entity, before any statement is produced.
pub proof fn lemma_unknown_entity_rejected(q: Query, schema: Schema)
    requires
        spec_find_entity(schema.entities@, q.entity@) is None,
    ensures
        spec_generate_sql(q, schema) == Err::<GeneratedV, SqlGenErrorV>(
            SqlGenErrorV::UnknownEntity(q.entity@),
        ),
{
}

/// Any top-level filter whose field path has more than one segment forces
/// the main statement to open with `SELECT DISTINCT ` and to hold at
/// least one `INNER JOIN` naming a referenced relation's table.
#[verifier::rlimit(100)]
#[verifier::spinoff_prover]
pub proof fn lemma_nested_filter_forces_distinct_join(q: Query, schema: Schema, g: GeneratedV)
    requires
        spec_generate_sql(q, schema) == Ok::<GeneratedV, SqlGenErrorV>(g),
        spec_needs_join(q.filters@),
    ensures
        g.main_query.len() >= 16,
        g.main_query.subrange(0, 16) == "SELECT DISTINCT "@,
        exists|rel: Relation|
            {
                &&& #[trigger] spec_find_relation(
                    spec_find_entity(schema.entities@, q.entity@)->0.relations@,
                    spec_sort_dedup(spec_filters_roots(q.filters@))[0],
                ) == Some(rel)
                &&& contains_sub(
                    g.main_query,
                    "INNER JOIN "@ + spec_entity_to_table(rel.target_entity@),
                )
            },
{
    let entity = spec_find_entity(schema.entities@, q.entity@)->0;
    let table = spec_entity_to_table(q.entity@);
    let parts = spec_main_parts(q, entity, schema)->Ok_0;
    let rels = spec_sort_dedup(spec_filters_roots(q.filters@));
    let i = choose|i: int| 0 <= i < q.filters@.len() && spec_expr_nested(q.filters@[i]);
    lemma_nested_filters_have_roots(q.filters@, i);
    lemma_sort_dedup_nonempty(spec_filters_roots(q.filters@));
    let join_lines = spec_joins(rels, entity, table)->Ok_0;
    let rel = spec_find_relation(entity.relations@, rels[0])->0;
    let target_table = spec_entity_to_table(rel.target_entity@);
    assert(spec_main_parts(q, entity, schema) is Ok);
    assert(g.main_query == spec_join(parts, "\n"@));
    assert(spec_joins(rels, entity, table) is Ok);
    assert(spec_find_relation(entity.relations@, rels[0]) is Some);
    // The first join line opens with the INNER JOIN text naming the table.
    assert(join_lines[0] == spec_join_line(target_table, rel.foreign_key->0@, table));
    assert(spec_join_line(target_table, rel.foreign_key->0@, table) =~= ("INNER JOIN "@
        + target_table) + (" ON "@ + target_table + "."@ + rel.foreign_key->0@ + " = "@ + table
        + ".id"@));
    lemma_prefix_contains(
        "INNER JOIN "@ + target_table,
        " ON "@ + target_table + "."@ + rel.foreign_key->0@ + " = "@ + table + ".id"@,
    );
    // The join section is the third line block of the main statement.
    assert(parts.len() >= 3);
    assert(parts[2] == spec_join(join_lines, "\n"@));
    assert(join_lines.len() >= 1);
    lemma_join_contains(join_lines, "\n"@, 0);
    lemma_join_contains(parts, "\n"@, 2);
    lemma_contains_trans(parts[2], join_lines[0], "INNER JOIN "@ + target_table);
    lemma_contains_trans(g.main_query, parts[2], "INNER JOIN "@ + target_table);
    // The first line opens with SELECT DISTINCT.
    reveal_strlit("SELECT ");
    reveal_strlit("DISTINCT ");
    reveal_strlit("SELECT DISTINCT ");
    assert(parts.len() >= 3);
    if parts.len() == 1 {
    } else {
        assert(spec_join(parts, "\n"@) == parts[0] + "\n"@ + spec_join(
            parts.drop_first(),
            "\n"@,
        ));
    }
    assert(g.main_query.subrange(0, 16) =~= "SELECT DISTINCT "@);
}


/// Strictly ascending in the lexicographic order.
pub open spec fn strictly_sorted(v: Seq<Seq<char>>) -> bool {
    forall|i: int, j: int| 0 <= i < j < v.len() ==> lex_lt(#[trigger] v[i], #[trigger] v[j])
}

/// The lexicographic order is transitive.
proof fn lemma_lex_lt_trans(a: Seq<char>, b: Seq<char>, c: Seq<char>)
    requires
        lex_lt(a, b),
        lex_lt(b, c),
    ensures
        lex_lt(a, c),
    decreases a.len(),
{
    if a.len() > 0 && c.len() > 0 {
        if a[0] == b[0] && b[0] == c[0] {
            lemma_lex_lt_trans(a.drop_first(), b.drop_first(), c.drop_first());
        }
    }
}

/// Two distinct texts are ordered one way or the other.
proof fn lemma_lex_lt_connex(a: Seq<char>, b: Seq<char>)
    requires
        a != b,
    ensures
        lex_lt(a, b) || lex_lt(b, a),
    decreases a.len(),
{
    if a.len() == 0 {
        if b.len() == 0 {
            assert(a =~= b);
        }
    } else if b.len() == 0 {
    } else if a[0] == b[0] {
        if a.drop_first() == b.drop_first() {
            assert(a =~= seq![a[0]] + a.drop_first());
            assert(b =~= seq![b[0]] + b.drop_first());
        }
        lemma_lex_lt_connex(a.drop_first(), b.drop_first());
    } else {
        if (a[0] as u32) == (b[0] as u32) {
            vstd::utf8::char_u32_cast(a[0], a[0] as u32);
            vstd::utf8::char_u32_cast(b[0], b[0] as u32);
        }
    }
}

/// Ordered insertion keeps the list strictly sorted and adds exactly the
/// new name to its contents.
proof fn lemma_insert_sorted_props(v: Seq<Seq<char>>, x: Seq<char>)
    requires
        strictly_sorted(v),
    ensures
        strictly_sorted(spec_insert_sorted(v, x)),
        forall|y: Seq<char>|
            #[trigger] spec_insert_sorted(v, x).contains(y) <==> (v.contains(y) || y == x),
    decreases v.len(),
{
    let r = spec_insert_sorted(v, x);
    if v.len() == 0 {
        assert forall|y: Seq<char>| #[trigger] r.contains(y) implies (v.contains(y) || y == x)
        by {
            let k = choose|k: int| 0 <= k < r.len() && r[k] == y;
            assert(r[0] == x);
        }
        assert(r.contains(x)) by {
            assert(r[0] == x);
        }
    } else if x == v[0] {
        assert(v.contains(x)) by {
            assert(v[0] == x);
        }
    } else if lex_lt(x, v[0]) {
        assert(r == seq![x] + v);
        assert forall|i: int, j: int| 0 <= i < j < r.len() implies lex_lt(r[i], r[j]) by {
            if i == 0 {
                assert(r[0] == x);
                assert(r[j] == v[j - 1]);
                if j > 1 {
                    lemma_lex_lt_trans(x, v[0], v[j - 1]);
                }
            } else {
                assert(r[i] == v[i - 1]);
                assert(r[j] == v[j - 1]);
            }
        }
        assert forall|y: Seq<char>| #[trigger] r.contains(y) implies (v.contains(y) || y == x)
        by {
            let k = choose|k: int| 0 <= k < r.len() && r[k] == y;
            if k > 0 {
                assert(v[k - 1] == y);
            }
        }
        assert forall|y: Seq<char>| v.contains(y) || y == x implies #[trigger] r.contains(y)
        by {
            if y == x {
                assert(r[0] == y);
            } else {
                let k = choose|k: int| 0 <= k < v.len() && v[k] == y;
                assert(r[k + 1] == y);
            }
        }
    } else {
        let rest = spec_insert_sorted(v.drop_first(), x);
        assert(strictly_sorted(v.drop_first())) by {
            assert(forall|i: int, j: int|
                0 <= i < j < v.drop_first().len() ==> lex_lt(
                    #[trigger] v.drop_first()[i],
                    #[trigger] v.drop_first()[j],
                ));
        }
        lemma_insert_sorted_props(v.drop_first(), x);
        lemma_lex_lt_connex(x, v[0]);
        assert(lex_lt(v[0], x));
        assert(r == seq![v[0]] + rest);
        assert forall|i: int, j: int| 0 <= i < j < r.len() implies lex_lt(r[i], r[j]) by {
            if i == 0 {
                assert(r[j] == rest[j - 1]);
                assert(rest.contains(rest[j - 1])) by {
                    assert(rest[j - 1] == rest[j - 1]);
                }
                if rest[j - 1] == x {
                    assert(lex_lt(v[0], r[j]));
                } else {
                    assert(v.drop_first().contains(rest[j - 1]));
                    let k = choose|k: int|
                        0 <= k < v.drop_first().len() && v.drop_first()[k] == rest[j - 1];
                    assert(v[k + 1] == rest[j - 1]);
                    assert(lex_lt(v[0], v[k + 1]));
                }
            } else {
                assert(r[i] == rest[i - 1]);
                assert(r[j] == rest[j - 1]);
            }
        }
        assert forall|y: Seq<char>| #[trigger] r.contains(y) implies (v.contains(y) || y == x)
        by {
            let k = choose|k: int| 0 <= k < r.len() && r[k] == y;
            if k == 0 {
                assert(v[0] == y);
            } else {
                assert(rest[k - 1] == y);
                assert(rest.contains(y));
                if y != x {
                    assert(v.drop_first().contains(y));
                    let m = choose|m: int|
                        0 <= m < v.drop_first().len() && v.drop_first()[m] == y;
                    assert(v[m + 1] == y);
                }
            }
        }
        assert forall|y: Seq<char>| v.contains(y) || y == x implies #[trigger] r.contains(y)
        by {
            if y == x || v.drop_first().contains(y) {
                assert(rest.contains(y));
                let m = choose|m: int| 0 <= m < rest.len() && rest[m] == y;
                assert(r[m + 1] == y);
            } else {
                let k = choose|k: int| 0 <= k < v.len() && v[k] == y;
                if k > 0 {
                    assert(v.drop_first()[k - 1] == y);
                } else {
                    assert(r[0] == y);
                }
            }
        }
    }
}

/// The join-relation list really is the referenced relation names in
/// strictly ascending order with duplicates removed: sorting and
/// deduplicating yields a strictly sorted sequence holding exactly the
/// names of the input.
pub proof fn lemma_sort_dedup_props(roots: Seq<Seq<char>>)
    ensures
        strictly_sorted(spec_sort_dedup(roots)),
        forall|y: Seq<char>|
            #[trigger] spec_sort_dedup(roots).contains(y) <==> roots.contains(y),
    decreases roots.len(),
{
    if roots.len() == 0 {
        assert forall|y: Seq<char>| !(#[trigger] spec_sort_dedup(roots).contains(y)) by {
            assert(spec_sort_dedup(roots).len() == 0);
        }
    } else {
        lemma_sort_dedup_props(roots.drop_last());
        lemma_insert_sorted_props(spec_sort_dedup(roots.drop_last()), roots.last());
        assert forall|y: Seq<char>|
            #[trigger] spec_sort_dedup(roots).contains(y) <==> roots.contains(y) by {
            if spec_sort_dedup(roots).contains(y) {
                if y == roots.last() {
                    assert(roots[roots.len() - 1] == y);
                } else {
                    assert(roots.drop_last().contains(y));
                    let k = choose|k: int|
                        0 <= k < roots.drop_last().len() && roots.drop_last()[k] == y;
                    assert(roots[k] == y);
                }
            }
            if roots.contains(y) {
                let k = choose|k: int| 0 <= k < roots.len() && roots[k] == y;
                if k < roots.len() - 1 {
                    assert(roots.drop_last()[k] == y);
                    assert(roots.drop_last().contains(y));
                } else {
                    assert(y == roots.last());
                }
            }
        }
    }
}

} // verus!
