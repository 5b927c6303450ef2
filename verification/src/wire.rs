//! The wire form of the query model: a self-delimiting text encoding used
//! to hand queries across the boundary, with a verified encoder and
//! decoder. Numbers travel as decimal digits closed by `;`, strings are
//! length-prefixed, lists are count-prefixed, and every tagged value opens
//! with a single tag character, so decoding needs no lookahead. Decoding
//! an encoded query yields the query back exactly.

use vstd::prelude::*;
use vstd::string::StrSliceExecFns;
use vstd::string::StringExecFns;
use crate::filter::{
    ComparisonOp, FilterCondition, FilterExpr, FilterValue, FieldPath, LogicalOp, path_view,
};
use crate::query::{IncludePath, OrderByClause, Query, SortDirection, include_view};
use crate::strutil::{push_char, spec_decimal, u64_to_string};

verus! {

// ─── The mathematical query model ───

/// The mathematical shape of a filter value.
pub enum FilterValueV {
    String(Seq<char>),
    Int(int),
    Bool(bool),
    Null,
}

/// The mathematical shape of a condition.
pub struct FilterCondV {
    pub field: Seq<Seq<char>>,
    pub op: ComparisonOp,
    pub value: FilterValueV,
}

/// The mathematical shape of a filter tree.
pub enum FilterExprV {
    Condition(FilterCondV),
    Binary { left: Box<FilterExprV>, op: LogicalOp, right: Box<FilterExprV> },
}

/// The mathematical shape of an order-by clause.
pub struct OrderByV {
    pub field: Seq<char>,
    pub direction: SortDirection,
}

/// The mathematical shape of a query.
#[verifier::ext_equal]
pub struct QueryV {
    pub entity: Seq<char>,
    pub filters: Seq<FilterExprV>,
    pub includes: Seq<Seq<Seq<char>>>,
    pub order_by: Seq<OrderByV>,
    pub limit: Option<nat>,
    pub offset: Option<nat>,
}

/// The model a filter value stands for.
pub open spec fn value_view(v: FilterValue) -> FilterValueV {
    match v {
        FilterValue::String(s) => FilterValueV::String(s@),
        FilterValue::Int(n) => FilterValueV::Int(n as int),
        FilterValue::Bool(b) => FilterValueV::Bool(b),
        FilterValue::Null => FilterValueV::Null,
    }
}

/// The model a filter tree stands for.
pub open spec fn expr_view(e: FilterExpr) -> FilterExprV
    decreases e,
{
    match e {
        FilterExpr::Condition(c) => FilterExprV::Condition(
            FilterCondV { field: path_view(c.field), op: c.op, value: value_view(c.value) },
        ),
        FilterExpr::Binary { left, op, right } => FilterExprV::Binary {
            left: Box::new(expr_view(*left)),
            op,
            right: Box::new(expr_view(*right)),
        },
    }
}

/// The model a query stands for.
pub open spec fn query_view(q: Query) -> QueryV {
    QueryV {
        entity: q.entity@,
        filters: q.filters@.map_values(|e: FilterExpr| expr_view(e)),
        includes: q.includes@.map_values(|p: IncludePath| include_view(p)),
        order_by: q.order_by@.map_values(
            |o: OrderByClause| OrderByV { field: o.field@, direction: o.direction },
        ),
        limit: (match q.limit {
            Some(n) => Some(n as nat),
            None => None,
        }),
        offset: (match q.offset {
            Some(n) => Some(n as nat),
            None => None,
        }),
    }
}

// ─── Encoding ───

/// A number: its decimal digits closed by a semicolon.
pub open spec fn enc_nat(n: nat) -> Seq<char> {
    spec_decimal(n) + seq![';']
}

/// A string: its length, then its characters.
pub open spec fn enc_str(s: Seq<char>) -> Seq<char> {
    enc_nat(s.len()) + s
}

/// A signed number: its sign tag, then its magnitude.
pub open spec fn enc_int(i: int) -> Seq<char> {
    if i < 0 {
        seq!['-'] + enc_nat((-i) as nat)
    } else {
        seq!['+'] + enc_nat(i as nat)
    }
}

/// An optional number: `N` when absent, `S` and the number when present.
pub open spec fn enc_opt_nat(o: Option<nat>) -> Seq<char> {
    match o {
        None => seq!['N'],
        Some(n) => seq!['S'] + enc_nat(n),
    }
}

/// The concatenated encodings of a string list's elements.
pub open spec fn enc_strs(l: Seq<Seq<char>>) -> Seq<char>
    decreases l.len(),
{
    if l.len() == 0 {
        Seq::empty()
    } else {
        enc_str(l[0]) + enc_strs(l.drop_first())
    }
}

/// A string list: its count, then its elements.
pub open spec fn enc_str_list(l: Seq<Seq<char>>) -> Seq<char> {
    enc_nat(l.len()) + enc_strs(l)
}

/// The tag character of a comparison operator.
pub open spec fn enc_op(op: ComparisonOp) -> char {
    match op {
        ComparisonOp::Eq => 'e',
        ComparisonOp::Neq => 'q',
        ComparisonOp::Gt => 'g',
        ComparisonOp::Gte => 'G',
        ComparisonOp::Lt => 'l',
        ComparisonOp::Lte => 'L',
        ComparisonOp::Like => 'k',
        ComparisonOp::In => 'i',
    }
}

/// The tag character of a logical operator.
pub open spec fn enc_logical(op: LogicalOp) -> char {
    match op {
        LogicalOp::And => 'a',
        LogicalOp::Or => 'o',
    }
}

/// The tag character of a sort direction.
pub open spec fn enc_dir(d: SortDirection) -> char {
    match d {
        SortDirection::Asc => 'A',
        SortDirection::Desc => 'D',
    }
}

/// A filter value: a tag, then its payload.
pub open spec fn enc_value(v: FilterValueV) -> Seq<char> {
    match v {
        FilterValueV::String(s) => seq!['s'] + enc_str(s),
        FilterValueV::Int(i) => seq!['i'] + enc_int(i),
        FilterValueV::Bool(b) => seq!['b'] + (if b {
            seq!['T']
        } else {
            seq!['F']
        }),
        FilterValueV::Null => seq!['n'],
    }
}

/// A condition: its field path, operator tag and value.
pub open spec fn enc_cond(c: FilterCondV) -> Seq<char> {
    enc_str_list(c.field) + seq![enc_op(c.op)] + enc_value(c.value)
}

/// A filter tree: `C` and a condition, or `B`, the left subtree, the
/// logical tag and the right subtree.
pub open spec fn enc_filter(e: FilterExprV) -> Seq<char>
    decreases e,
{
    match e {
        FilterExprV::Condition(c) => seq!['C'] + enc_cond(c),
        FilterExprV::Binary { left, op, right } => seq!['B'] + enc_filter(*left) + seq![
            enc_logical(op),
        ] + enc_filter(*right),
    }
}

/// The concatenated encodings of a filter list's elements.
pub open spec fn enc_filters(l: Seq<FilterExprV>) -> Seq<char>
    decreases l.len(),
{
    if l.len() == 0 {
        Seq::empty()
    } else {
        enc_filter(l[0]) + enc_filters(l.drop_first())
    }
}

/// The concatenated encodings of an eager-load path list's elements.
pub open spec fn enc_paths(l: Seq<Seq<Seq<char>>>) -> Seq<char>
    decreases l.len(),
{
    if l.len() == 0 {
        Seq::empty()
    } else {
        enc_str_list(l[0]) + enc_paths(l.drop_first())
    }
}

/// An order-by clause: its field, then its direction tag.
pub open spec fn enc_order(o: OrderByV) -> Seq<char> {
    enc_str(o.field) + seq![enc_dir(o.direction)]
}

/// The concatenated encodings of an order-by list's elements.
pub open spec fn enc_orders(l: Seq<OrderByV>) -> Seq<char>
    decreases l.len(),
{
    if l.len() == 0 {
        Seq::empty()
    } else {
        enc_order(l[0]) + enc_orders(l.drop_first())
    }
}

/// The wire form of a query: entity, filters, eager-load paths, order-by
/// clauses, limit and offset, in that fixed order.
pub open spec fn enc_query(q: QueryV) -> Seq<char> {
    enc_str(q.entity) + (enc_nat(q.filters.len()) + enc_filters(q.filters)) + (enc_nat(
        q.includes.len(),
    ) + enc_paths(q.includes)) + (enc_nat(q.order_by.len()) + enc_orders(q.order_by))
        + enc_opt_nat(q.limit) + enc_opt_nat(q.offset)
}

// ─── The executable encoder ───

/// Append the encoding of a number.
fn push_nat(out: &mut String, n: u64)
    ensures
        final(out)@ == old(out)@ + enc_nat(n as nat),
{
    let d = u64_to_string(n);
    out.append(d.as_str());
    push_char(out, ';');
    proof {
        assert(final(out)@ =~= old(out)@ + enc_nat(n as nat));
    }
}

/// Append the encoding of a string.
fn push_str_enc(out: &mut String, s: &str)
    ensures
        final(out)@ == old(out)@ + enc_str(s@),
{
    let len = s.unicode_len();
    push_nat(out, len as u64);
    out.append(s);
    proof {
        assert(final(out)@ =~= old(out)@ + enc_str(s@));
    }
}

/// Append the encoding of a string list.
fn push_str_list(out: &mut String, l: &Vec<String>)
    ensures
        final(out)@ == old(out)@ + enc_str_list(l@.map_values(|s: String| s@)),
{
    let ghost model = l@.map_values(|s: String| s@);
    push_nat(out, l.len() as u64);
    let ghost base = out@;
    let mut i: usize = 0;
    while i < l.len()
        invariant
            i <= l@.len(),
            model == l@.map_values(|s: String| s@),
            out@ == base + enc_strs(model.take(i as int)),
        decreases l.len() - i,
    {
        proof {
            lemma_enc_strs_snoc(model, i as int);
        }
        push_str_enc(out, l[i].as_str());
        proof {
            assert(out@ =~= base + enc_strs(model.take(i + 1)));
        }
        i = i + 1;
    }
    proof {
        assert(model.take(model.len() as int) =~= model);
        assert(out@ =~= old(out)@ + enc_str_list(model));
    }
}

/// Taking one more element appends its encoding.
proof fn lemma_enc_strs_snoc(l: Seq<Seq<char>>, i: int)
    requires
        0 <= i < l.len(),
    ensures
        enc_strs(l.take(i + 1)) == enc_strs(l.take(i)) + enc_str(l[i]),
    decreases i,
{
    if i == 0 {
        assert(l.take(1)[0] == l[0]);
        assert(l.take(1).drop_first() =~= Seq::<Seq<char>>::empty());
        assert(l.take(0) =~= Seq::<Seq<char>>::empty());
        assert(enc_strs(Seq::<Seq<char>>::empty()) == Seq::<char>::empty());
        assert(enc_strs(l.take(1)) =~= enc_strs(l.take(0)) + enc_str(l[0]));
    } else {
        lemma_enc_strs_snoc(l.drop_first(), i - 1);
        assert(l.take(i + 1)[0] == l[0]);
        assert(l.take(i + 1).drop_first() =~= l.drop_first().take(i));
        assert(l.take(i)[0] == l[0]);
        assert(l.take(i).drop_first() =~= l.drop_first().take(i - 1));
        assert(l.drop_first()[i - 1] == l[i]);
        assert(enc_str(l[0]) + (enc_strs(l.drop_first().take(i - 1)) + enc_str(l[i])) =~= (
        enc_str(l[0]) + enc_strs(l.drop_first().take(i - 1))) + enc_str(l[i]));
    }
}

/// Append the encoding of a filter value.
fn push_value(out: &mut String, v: &FilterValue)
    ensures
        final(out)@ == old(out)@ + enc_value(value_view(*v)),
{
    match v {
        FilterValue::String(s) => {
            push_char(out, 's');
            push_str_enc(out, s.as_str());
        },
        FilterValue::Int(n) => {
            push_char(out, 'i');
            if *n < 0 {
                push_char(out, '-');
                let magnitude: u64 = (-(*n + 1)) as u64 + 1;
                assert(magnitude == (-(*n as int)) as nat);
                push_nat(out, magnitude);
            } else {
                push_char(out, '+');
                push_nat(out, *n as u64);
            }
        },
        FilterValue::Bool(b) => {
            push_char(out, 'b');
            if *b {
                push_char(out, 'T');
            } else {
                push_char(out, 'F');
            }
        },
        FilterValue::Null => {
            push_char(out, 'n');
        },
    }
    proof {
        assert(final(out)@ =~= old(out)@ + enc_value(value_view(*v)));
    }
}

/// Append the encoding of a filter tree.
fn push_filter(out: &mut String, e: &FilterExpr)
    ensures
        final(out)@ == old(out)@ + enc_filter(expr_view(*e)),
    decreases *e,
{
    match e {
        FilterExpr::Condition(c) => {
            push_char(out, 'C');
            push_str_list(out, &c.field.segments);
            let tag = match c.op {
                ComparisonOp::Eq => 'e',
                ComparisonOp::Neq => 'q',
                ComparisonOp::Gt => 'g',
                ComparisonOp::Gte => 'G',
                ComparisonOp::Lt => 'l',
                ComparisonOp::Lte => 'L',
                ComparisonOp::Like => 'k',
                ComparisonOp::In => 'i',
            };
            push_char(out, tag);
            push_value(out, &c.value);
            proof {
                assert(final(out)@ =~= old(out)@ + enc_filter(expr_view(*e)));
            }
        },
        FilterExpr::Binary { left, op, right } => {
            push_char(out, 'B');
            push_filter(out, left);
            let tag = match op {
                LogicalOp::And => 'a',
                LogicalOp::Or => 'o',
            };
            push_char(out, tag);
            push_filter(out, right);
            proof {
                assert(final(out)@ =~= old(out)@ + enc_filter(expr_view(*e)));
            }
        },
    }
}

/// Append an optional number: `N` when absent, `S` and the number when
/// present.
fn push_opt_nat(out: &mut String, o: &Option<u64>)
    ensures
        final(out)@ == old(out)@ + enc_opt_nat(
            (match *o {
                Some(n) => Some(n as nat),
                None => None,
            }),
        ),
{
    match o {
        None => push_char(out, 'N'),
        Some(n) => {
            push_char(out, 'S');
            push_nat(out, *n);
        },
    }
    proof {
        assert(final(out)@ =~= old(out)@ + enc_opt_nat(
            (match *o {
                Some(n) => Some(n as nat),
                None => None,
            }),
        ));
    }
}

/// Encode a query into its wire form.
pub fn encode_query(q: &Query) -> (r: String)
    ensures
        r@ == enc_query(query_view(*q)),
{
    let ghost model = query_view(*q);
    let mut out = String::new();
    push_str_enc(&mut out, q.entity.as_str());
    // Filters.
    push_nat(&mut out, q.filters.len() as u64);
    let ghost base_f = out@;
    let mut i: usize = 0;
    while i < q.filters.len()
        invariant
            i <= q.filters@.len(),
            model == query_view(*q),
            out@ == base_f + enc_filters(model.filters.take(i as int)),
        decreases q.filters.len() - i,
    {
        proof {
            lemma_enc_filters_snoc(model.filters, i as int);
            assert(model.filters[i as int] == expr_view(q.filters@[i as int]));
        }
        push_filter(&mut out, &q.filters[i]);
        proof {
            assert(out@ =~= base_f + enc_filters(model.filters.take(i + 1)));
        }
        i = i + 1;
    }
    proof {
        assert(model.filters.take(model.filters.len() as int) =~= model.filters);
    }
    // Eager-load paths.
    push_nat(&mut out, q.includes.len() as u64);
    let ghost base_p = out@;
    let mut j: usize = 0;
    while j < q.includes.len()
        invariant
            j <= q.includes@.len(),
            model == query_view(*q),
            out@ == base_p + enc_paths(model.includes.take(j as int)),
        decreases q.includes.len() - j,
    {
        proof {
            lemma_enc_paths_snoc(model.includes, j as int);
            assert(model.includes[j as int] == include_view(q.includes@[j as int]));
        }
        push_str_list(&mut out, &q.includes[j].path);
        proof {
            assert(out@ =~= base_p + enc_paths(model.includes.take(j + 1)));
        }
        j = j + 1;
    }
    proof {
        assert(model.includes.take(model.includes.len() as int) =~= model.includes);
    }
    // Order-by clauses.
    push_nat(&mut out, q.order_by.len() as u64);
    let ghost base_o = out@;
    let mut k: usize = 0;
    while k < q.order_by.len()
        invariant
            k <= q.order_by@.len(),
            model == query_view(*q),
            out@ == base_o + enc_orders(model.order_by.take(k as int)),
        decreases q.order_by.len() - k,
    {
        proof {
            lemma_enc_orders_snoc(model.order_by, k as int);
            assert(model.order_by[k as int] == (OrderByV {
                field: q.order_by@[k as int].field@,
                direction: q.order_by@[k as int].direction,
            }));
        }
        push_str_enc(&mut out, q.order_by[k].field.as_str());
        match q.order_by[k].direction {
            SortDirection::Asc => push_char(&mut out, 'A'),
            SortDirection::Desc => push_char(&mut out, 'D'),
        }
        proof {
            assert(out@ =~= base_o + enc_orders(model.order_by.take(k + 1)));
        }
        k = k + 1;
    }
    proof {
        assert(model.order_by.take(model.order_by.len() as int) =~= model.order_by);
    }
    push_opt_nat(&mut out, &q.limit);
    push_opt_nat(&mut out, &q.offset);
    proof {
        assert(out@ =~= enc_query(model));
    }
    out
}

/// Taking one more filter appends its encoding.
proof fn lemma_enc_filters_snoc(l: Seq<FilterExprV>, i: int)
    requires
        0 <= i < l.len(),
    ensures
        enc_filters(l.take(i + 1)) == enc_filters(l.take(i)) + enc_filter(l[i]),
    decreases i,
{
    if i == 0 {
        assert(l.take(1)[0] == l[0]);
        assert(l.take(1).drop_first() =~= Seq::<FilterExprV>::empty());
        assert(l.take(0) =~= Seq::<FilterExprV>::empty());
        assert(enc_filters(Seq::<FilterExprV>::empty()) == Seq::<char>::empty());
        assert(enc_filters(l.take(1)) =~= enc_filters(l.take(0)) + enc_filter(l[0]));
    } else {
        lemma_enc_filters_snoc(l.drop_first(), i - 1);
        assert(l.take(i + 1)[0] == l[0]);
        assert(l.take(i + 1).drop_first() =~= l.drop_first().take(i));
        assert(l.take(i)[0] == l[0]);
        assert(l.take(i).drop_first() =~= l.drop_first().take(i - 1));
        assert(l.drop_first()[i - 1] == l[i]);
        assert(enc_filter(l[0]) + (enc_filters(l.drop_first().take(i - 1)) + enc_filter(l[i]))
            =~= (enc_filter(l[0]) + enc_filters(l.drop_first().take(i - 1))) + enc_filter(
            l[i],
        ));
    }
}

/// Taking one more path appends its encoding.
proof fn lemma_enc_paths_snoc(l: Seq<Seq<Seq<char>>>, i: int)
    requires
        0 <= i < l.len(),
    ensures
        enc_paths(l.take(i + 1)) == enc_paths(l.take(i)) + enc_str_list(l[i]),
    decreases i,
{
    if i == 0 {
        assert(l.take(1)[0] == l[0]);
        assert(l.take(1).drop_first() =~= Seq::<Seq<Seq<char>>>::empty());
        assert(l.take(0) =~= Seq::<Seq<Seq<char>>>::empty());
        assert(enc_paths(Seq::<Seq<Seq<char>>>::empty()) == Seq::<char>::empty());
        assert(enc_paths(l.take(1)) =~= enc_paths(l.take(0)) + enc_str_list(l[0]));
    } else {
        lemma_enc_paths_snoc(l.drop_first(), i - 1);
        assert(l.take(i + 1)[0] == l[0]);
        assert(l.take(i + 1).drop_first() =~= l.drop_first().take(i));
        assert(l.take(i)[0] == l[0]);
        assert(l.take(i).drop_first() =~= l.drop_first().take(i - 1));
        assert(l.drop_first()[i - 1] == l[i]);
        assert(enc_str_list(l[0]) + (enc_paths(l.drop_first().take(i - 1)) + enc_str_list(
            l[i],
        )) =~= (enc_str_list(l[0]) + enc_paths(l.drop_first().take(i - 1))) + enc_str_list(
            l[i],
        ));
    }
}

/// Taking one more clause appends its encoding.
proof fn lemma_enc_orders_snoc(l: Seq<OrderByV>, i: int)
    requires
        0 <= i < l.len(),
    ensures
        enc_orders(l.take(i + 1)) == enc_orders(l.take(i)) + enc_order(l[i]),
    decreases i,
{
    if i == 0 {
        assert(l.take(1)[0] == l[0]);
        assert(l.take(1).drop_first() =~= Seq::<OrderByV>::empty());
        assert(l.take(0) =~= Seq::<OrderByV>::empty());
        assert(enc_orders(Seq::<OrderByV>::empty()) == Seq::<char>::empty());
        assert(enc_orders(l.take(1)) =~= enc_orders(l.take(0)) + enc_order(l[0]));
    } else {
        lemma_enc_orders_snoc(l.drop_first(), i - 1);
        assert(l.take(i + 1)[0] == l[0]);
        assert(l.take(i + 1).drop_first() =~= l.drop_first().take(i));
        assert(l.take(i)[0] == l[0]);
        assert(l.take(i).drop_first() =~= l.drop_first().take(i - 1));
        assert(l.drop_first()[i - 1] == l[i]);
        assert(enc_order(l[0]) + (enc_orders(l.drop_first().take(i - 1)) + enc_order(l[i]))
            =~= (enc_order(l[0]) + enc_orders(l.drop_first().take(i - 1))) + enc_order(l[i]));
    }
}


// ─── Decoding ───

/// The numeric value of a digit character; ten for any other character.
pub open spec fn digit_val(c: char) -> nat {
    match c {
        '0' => 0,
        '1' => 1,
        '2' => 2,
        '3' => 3,
        '4' => 4,
        '5' => 5,
        '6' => 6,
        '7' => 7,
        '8' => 8,
        '9' => 9,
        _ => 10,
    }
}

/// True for the decimal digit characters.
pub open spec fn is_digit(c: char) -> bool {
    digit_val(c) < 10
}

/// Consume leading digits into the accumulator; the remainder starts at
/// the first non-digit.
pub open spec fn dec_digits(s: Seq<char>, acc: nat) -> (nat, Seq<char>)
    decreases s.len(),
{
    if s.len() > 0 && is_digit(s[0]) {
        dec_digits(s.drop_first(), acc * 10 + digit_val(s[0]))
    } else {
        (acc, s)
    }
}

/// Decode a number: at least one digit, closed by a semicolon.
pub open spec fn dec_nat(s: Seq<char>) -> Option<(nat, Seq<char>)> {
    if s.len() > 0 && is_digit(s[0]) {
        let (n, r) = dec_digits(s, 0);
        if r.len() > 0 && r[0] == ';' {
            Some((n, r.drop_first()))
        } else {
            None
        }
    } else {
        None
    }
}

/// Decode a string: its length, then that many characters.
pub open spec fn dec_str(s: Seq<char>) -> Option<(Seq<char>, Seq<char>)> {
    match dec_nat(s) {
        None => None,
        Some((n, r)) => if n <= r.len() {
            Some((r.take(n as int), r.skip(n as int)))
        } else {
            None
        },
    }
}

/// Decode a signed number: a sign tag, then the magnitude.
pub open spec fn dec_int(s: Seq<char>) -> Option<(int, Seq<char>)> {
    if s.len() == 0 {
        None
    } else if s[0] == '-' {
        match dec_nat(s.drop_first()) {
            Some((n, r)) => Some((-(n as int), r)),
            None => None,
        }
    } else if s[0] == '+' {
        match dec_nat(s.drop_first()) {
            Some((n, r)) => Some((n as int, r)),
            None => None,
        }
    } else {
        None
    }
}

/// Decode an optional number.
pub open spec fn dec_opt_nat(s: Seq<char>) -> Option<(Option<nat>, Seq<char>)> {
    if s.len() == 0 {
        None
    } else if s[0] == 'N' {
        Some((None, s.drop_first()))
    } else if s[0] == 'S' {
        match dec_nat(s.drop_first()) {
            Some((n, r)) => Some((Some(n), r)),
            None => None,
        }
    } else {
        None
    }
}

/// Decode `count` strings.
pub open spec fn dec_strs(s: Seq<char>, count: nat) -> Option<(Seq<Seq<char>>, Seq<char>)>
    decreases count,
{
    if count == 0 {
        Some((Seq::empty(), s))
    } else {
        match dec_str(s) {
            None => None,
            Some((x, r)) => match dec_strs(r, (count - 1) as nat) {
                None => None,
                Some((xs, r2)) => Some((seq![x] + xs, r2)),
            },
        }
    }
}

/// Decode a string list: its count, then its elements.
pub open spec fn dec_str_list(s: Seq<char>) -> Option<(Seq<Seq<char>>, Seq<char>)> {
    match dec_nat(s) {
        None => None,
        Some((n, r)) => dec_strs(r, n),
    }
}

/// The comparison operator a tag character stands for, if any.
pub open spec fn dec_op(c: char) -> Option<ComparisonOp> {
    match c {
        'e' => Some(ComparisonOp::Eq),
        'q' => Some(ComparisonOp::Neq),
        'g' => Some(ComparisonOp::Gt),
        'G' => Some(ComparisonOp::Gte),
        'l' => Some(ComparisonOp::Lt),
        'L' => Some(ComparisonOp::Lte),
        'k' => Some(ComparisonOp::Like),
        'i' => Some(ComparisonOp::In),
        _ => None,
    }
}

/// The logical operator a tag character stands for, if any.
pub open spec fn dec_logical(c: char) -> Option<LogicalOp> {
    match c {
        'a' => Some(LogicalOp::And),
        'o' => Some(LogicalOp::Or),
        _ => None,
    }
}

/// The sort direction a tag character stands for, if any.
pub open spec fn dec_dir(c: char) -> Option<SortDirection> {
    match c {
        'A' => Some(SortDirection::Asc),
        'D' => Some(SortDirection::Desc),
        _ => None,
    }
}

/// Decode a filter value: a tag, then its payload.
pub open spec fn dec_value(s: Seq<char>) -> Option<(FilterValueV, Seq<char>)> {
    if s.len() == 0 {
        None
    } else if s[0] == 's' {
        match dec_str(s.drop_first()) {
            Some((x, r)) => Some((FilterValueV::String(x), r)),
            None => None,
        }
    } else if s[0] == 'i' {
        match dec_int(s.drop_first()) {
            Some((x, r)) => Some((FilterValueV::Int(x), r)),
            None => None,
        }
    } else if s[0] == 'b' {
        let r = s.drop_first();
        if r.len() > 0 && r[0] == 'T' {
            Some((FilterValueV::Bool(true), r.drop_first()))
        } else if r.len() > 0 && r[0] == 'F' {
            Some((FilterValueV::Bool(false), r.drop_first()))
        } else {
            None
        }
    } else if s[0] == 'n' {
        Some((FilterValueV::Null, s.drop_first()))
    } else {
        None
    }
}

/// Decode a condition: field path, operator tag, value.
pub open spec fn dec_cond(s: Seq<char>) -> Option<(FilterCondV, Seq<char>)> {
    match dec_str_list(s) {
        None => None,
        Some((field, r)) => if r.len() > 0 && dec_op(r[0]) is Some {
            match dec_value(r.drop_first()) {
                Some((v, r2)) => Some(
                    (FilterCondV { field, op: dec_op(r[0])->0, value: v }, r2),
                ),
                None => None,
            }
        } else {
            None
        },
    }
}

/// Decode a filter tree; the fuel bounds the recursion and is spent one
/// unit per binary node.
pub open spec fn dec_filter(s: Seq<char>, fuel: nat) -> Option<(FilterExprV, Seq<char>)>
    decreases fuel,
{
    if fuel == 0 || s.len() == 0 {
        None
    } else if s[0] == 'C' {
        match dec_cond(s.drop_first()) {
            Some((c, r)) => Some((FilterExprV::Condition(c), r)),
            None => None,
        }
    } else if s[0] == 'B' {
        match dec_filter(s.drop_first(), (fuel - 1) as nat) {
            None => None,
            Some((l, r1)) => if r1.len() > 0 && dec_logical(r1[0]) is Some {
                match dec_filter(r1.drop_first(), (fuel - 1) as nat) {
                    None => None,
                    Some((rt, r2)) => Some(
                        (
                            FilterExprV::Binary {
                                left: Box::new(l),
                                op: dec_logical(r1[0])->0,
                                right: Box::new(rt),
                            },
                            r2,
                        ),
                    ),
                }
            } else {
                None
            },
        }
    } else {
        None
    }
}

/// Decode `count` filter trees.
pub open spec fn dec_filters(s: Seq<char>, count: nat, fuel: nat) -> Option<
    (Seq<FilterExprV>, Seq<char>),
>
    decreases count,
{
    if count == 0 {
        Some((Seq::empty(), s))
    } else {
        match dec_filter(s, fuel) {
            None => None,
            Some((x, r)) => match dec_filters(r, (count - 1) as nat, fuel) {
                None => None,
                Some((xs, r2)) => Some((seq![x] + xs, r2)),
            },
        }
    }
}

/// Decode `count` eager-load paths.
pub open spec fn dec_paths(s: Seq<char>, count: nat) -> Option<
    (Seq<Seq<Seq<char>>>, Seq<char>),
>
    decreases count,
{
    if count == 0 {
        Some((Seq::empty(), s))
    } else {
        match dec_str_list(s) {
            None => None,
            Some((x, r)) => match dec_paths(r, (count - 1) as nat) {
                None => None,
                Some((xs, r2)) => Some((seq![x] + xs, r2)),
            },
        }
    }
}

/// Decode an order-by clause: field, then direction tag.
pub open spec fn dec_order(s: Seq<char>) -> Option<(OrderByV, Seq<char>)> {
    match dec_str(s) {
        None => None,
        Some((f, r)) => if r.len() > 0 && dec_dir(r[0]) is Some {
            Some((OrderByV { field: f, direction: dec_dir(r[0])->0 }, r.drop_first()))
        } else {
            None
        },
    }
}

/// Decode `count` order-by clauses.
pub open spec fn dec_orders(s: Seq<char>, count: nat) -> Option<(Seq<OrderByV>, Seq<char>)>
    decreases count,
{
    if count == 0 {
        Some((Seq::empty(), s))
    } else {
        match dec_order(s) {
            None => None,
            Some((x, r)) => match dec_orders(r, (count - 1) as nat) {
                None => None,
                Some((xs, r2)) => Some((seq![x] + xs, r2)),
            },
        }
    }
}

/// Decode a query with the given recursion fuel for filter trees.
pub open spec fn dec_query_fueled(s: Seq<char>, fuel: nat) -> Option<(QueryV, Seq<char>)> {
    match dec_str(s) {
        None => None,
        Some((entity, r1)) => match dec_nat(r1) {
            None => None,
            Some((fcount, r2)) => match dec_filters(r2, fcount, fuel) {
                None => None,
                Some((filters, r3)) => match dec_nat(r3) {
                    None => None,
                    Some((pcount, r4)) => match dec_paths(r4, pcount) {
                        None => None,
                        Some((includes, r5)) => match dec_nat(r5) {
                            None => None,
                            Some((ocount, r6)) => match dec_orders(r6, ocount) {
                                None => None,
                                Some((order_by, r7)) => match dec_opt_nat(r7) {
                                    None => None,
                                    Some((limit, r8)) => match dec_opt_nat(r8) {
                                        None => None,
                                        Some((offset, r9)) => Some(
                                            (
                                                QueryV {
                                                    entity,
                                                    filters,
                                                    includes,
                                                    order_by,
                                                    limit,
                                                    offset,
                                                },
                                                r9,
                                            ),
                                        ),
                                    },
                                },
                            },
                        },
                    },
                },
            },
        },
    }
}

/// Decode a query from its wire form: the input length itself is always
/// enough fuel, since every binary filter node spends one input character.
pub open spec fn dec_query(s: Seq<char>) -> Option<(QueryV, Seq<char>)> {
    dec_query_fueled(s, s.len())
}

// ─── Round-trip lemmas ───

/// The digit character of a value below ten carries that value.
proof fn lemma_digit_round(d: int)
    requires
        0 <= d < 10,
    ensures
        digit_val(crate::strutil::spec_digit(d)) == d,
        is_digit(crate::strutil::spec_digit(d)),
{
}

/// A decimal rendering is nonempty and opens with a digit.
proof fn lemma_decimal_first(n: nat)
    ensures
        spec_decimal(n).len() >= 1,
        is_digit(spec_decimal(n)[0]),
    decreases n,
{
    if n < 10 {
        lemma_digit_round(n as int);
    } else {
        lemma_decimal_first(n / 10);
        assert(spec_decimal(n)[0] == spec_decimal(n / 10)[0]);
    }
}

/// The number of digits in the decimal rendering of `n`.
spec fn numdigits(n: nat) -> nat
    decreases n,
{
    if n < 10 {
        1
    } else {
        1 + numdigits(n / 10)
    }
}

/// Ten to the `k`.
spec fn pow10(k: nat) -> nat
    decreases k,
{
    if k == 0 {
        1
    } else {
        10 * pow10((k - 1) as nat)
    }
}

/// Scanning the digits of `n` multiplies the accumulator past them and
/// adds `n`, then continues into the tail.
proof fn lemma_dec_digits_append(n: nat, tail: Seq<char>, acc: nat)
    ensures
        dec_digits(spec_decimal(n) + tail, acc) == dec_digits(
            tail,
            acc * pow10(numdigits(n)) + n,
        ),
    decreases n,
{
    if n < 10 {
        lemma_digit_round(n as int);
        let s = spec_decimal(n) + tail;
        assert(s[0] == crate::strutil::spec_digit(n as int));
        assert(s.drop_first() =~= tail);
        assert(pow10(0) == 1);
        assert(pow10(1) == 10);
        assert(acc * pow10(1) + n == acc * 10 + n);
    } else {
        let d = crate::strutil::spec_digit((n % 10) as int);
        lemma_digit_round((n % 10) as int);
        let k = numdigits(n / 10);
        assert(spec_decimal(n) + tail =~= spec_decimal(n / 10) + (seq![d] + tail));
        lemma_dec_digits_append(n / 10, seq![d] + tail, acc);
        let acc2 = acc * pow10(k) + n / 10;
        assert((seq![d] + tail)[0] == d);
        assert((seq![d] + tail).drop_first() =~= tail);
        assert(dec_digits(seq![d] + tail, acc2) == dec_digits(tail, acc2 * 10 + n % 10));
        assert(acc2 * 10 + n % 10 == acc * pow10(numdigits(n)) + n) by (nonlinear_arith)
            requires
                acc2 == acc * pow10(k) + n / 10,
                pow10(numdigits(n)) == 10 * pow10(k),
                n == (n / 10) * 10 + n % 10,
        {
        }
        assert(pow10(numdigits(n)) == 10 * pow10(k));
        assert(n == (n / 10) * 10 + n % 10);
    }
}

/// Decoding the encoding of a number yields it back, with the tail as
/// remainder.
proof fn lemma_dec_nat_round(n: nat, rest: Seq<char>)
    ensures
        dec_nat(enc_nat(n) + rest) == Some((n, rest)),
{
    let s = enc_nat(n) + rest;
    lemma_decimal_first(n);
    assert(s =~= spec_decimal(n) + (seq![';'] + rest));
    assert(s[0] == spec_decimal(n)[0]);
    lemma_dec_digits_append(n, seq![';'] + rest, 0);
    assert(0 * pow10(numdigits(n)) + n == n);
    assert((seq![';'] + rest)[0] == ';');
    assert(!is_digit(';'));
    assert(dec_digits(seq![';'] + rest, n) == (n, seq![';'] + rest));
    assert((seq![';'] + rest).drop_first() =~= rest);
}

/// Decoding the encoding of a string yields it back.
proof fn lemma_dec_str_round(x: Seq<char>, rest: Seq<char>)
    ensures
        dec_str(enc_str(x) + rest) == Some((x, rest)),
{
    assert(enc_str(x) + rest =~= enc_nat(x.len()) + (x + rest));
    lemma_dec_nat_round(x.len(), x + rest);
    assert((x + rest).take(x.len() as int) =~= x);
    assert((x + rest).skip(x.len() as int) =~= rest);
}

/// Decoding the encoding of a signed number yields it back.
proof fn lemma_dec_int_round(i: int, rest: Seq<char>)
    ensures
        dec_int(enc_int(i) + rest) == Some((i, rest)),
{
    if i < 0 {
        assert(enc_int(i) + rest =~= seq!['-'] + (enc_nat((-i) as nat) + rest));
        let s = enc_int(i) + rest;
        assert(s[0] == '-');
        assert(s.drop_first() =~= enc_nat((-i) as nat) + rest);
        lemma_dec_nat_round((-i) as nat, rest);
    } else {
        assert(enc_int(i) + rest =~= seq!['+'] + (enc_nat(i as nat) + rest));
        let s = enc_int(i) + rest;
        assert(s[0] == '+');
        assert(s.drop_first() =~= enc_nat(i as nat) + rest);
        lemma_dec_nat_round(i as nat, rest);
    }
}

/// Decoding the encoding of an optional number yields it back.
proof fn lemma_dec_opt_nat_round(o: Option<nat>, rest: Seq<char>)
    ensures
        dec_opt_nat(enc_opt_nat(o) + rest) == Some((o, rest)),
{
    let s = enc_opt_nat(o) + rest;
    match o {
        None => {
            assert(s[0] == 'N');
            assert(s.drop_first() =~= rest);
        },
        Some(n) => {
            assert(s =~= seq!['S'] + (enc_nat(n) + rest));
            assert(s[0] == 'S');
            assert(s.drop_first() =~= enc_nat(n) + rest);
            lemma_dec_nat_round(n, rest);
        },
    }
}

/// Decoding the encodings of `l.len()` strings yields them back.
proof fn lemma_dec_strs_round(l: Seq<Seq<char>>, rest: Seq<char>)
    ensures
        dec_strs(enc_strs(l) + rest, l.len()) == Some((l, rest)),
    decreases l.len(),
{
    if l.len() == 0 {
        assert(enc_strs(l) + rest =~= rest);
        assert(dec_strs(rest, 0) == Some((Seq::<Seq<char>>::empty(), rest)));
        assert(Seq::<Seq<char>>::empty() =~= l);
    } else {
        assert(enc_strs(l) + rest =~= enc_str(l[0]) + (enc_strs(l.drop_first()) + rest));
        lemma_dec_str_round(l[0], enc_strs(l.drop_first()) + rest);
        lemma_dec_strs_round(l.drop_first(), rest);
        assert(seq![l[0]] + l.drop_first() =~= l);
    }
}

/// Decoding the encoding of a string list yields it back.
proof fn lemma_dec_str_list_round(l: Seq<Seq<char>>, rest: Seq<char>)
    ensures
        dec_str_list(enc_str_list(l) + rest) == Some((l, rest)),
{
    assert(enc_str_list(l) + rest =~= enc_nat(l.len()) + (enc_strs(l) + rest));
    lemma_dec_nat_round(l.len(), enc_strs(l) + rest);
    lemma_dec_strs_round(l, rest);
}

/// Decoding the encoding of a filter value yields it back.
proof fn lemma_dec_value_round(v: FilterValueV, rest: Seq<char>)
    ensures
        dec_value(enc_value(v) + rest) == Some((v, rest)),
{
    let s = enc_value(v) + rest;
    match v {
        FilterValueV::String(x) => {
            assert(s =~= seq!['s'] + (enc_str(x) + rest));
            assert(s[0] == 's');
            assert(s.drop_first() =~= enc_str(x) + rest);
            lemma_dec_str_round(x, rest);
        },
        FilterValueV::Int(i) => {
            assert(s =~= seq!['i'] + (enc_int(i) + rest));
            assert(s[0] == 'i');
            assert(s.drop_first() =~= enc_int(i) + rest);
            lemma_dec_int_round(i, rest);
        },
        FilterValueV::Bool(b) => {
            if b {
                assert(s =~= seq!['b'] + (seq!['T'] + rest));
                assert(s[0] == 'b');
                assert(s.drop_first() =~= seq!['T'] + rest);
                assert((seq!['T'] + rest)[0] == 'T');
                assert((seq!['T'] + rest).drop_first() =~= rest);
            } else {
                assert(s =~= seq!['b'] + (seq!['F'] + rest));
                assert(s[0] == 'b');
                assert(s.drop_first() =~= seq!['F'] + rest);
                assert((seq!['F'] + rest)[0] == 'F');
                assert((seq!['F'] + rest).drop_first() =~= rest);
            }
        },
        FilterValueV::Null => {
            assert(s[0] == 'n');
            assert(s.drop_first() =~= rest);
        },
    }
}

/// Decoding the encoding of a condition yields it back.
proof fn lemma_dec_cond_round(c: FilterCondV, rest: Seq<char>)
    ensures
        dec_cond(enc_cond(c) + rest) == Some((c, rest)),
{
    let tail = seq![enc_op(c.op)] + (enc_value(c.value) + rest);
    assert(enc_cond(c) + rest =~= enc_str_list(c.field) + tail);
    lemma_dec_str_list_round(c.field, tail);
    assert(tail[0] == enc_op(c.op));
    assert(dec_op(enc_op(c.op)) == Some(c.op));
    assert(tail.drop_first() =~= enc_value(c.value) + rest);
    lemma_dec_value_round(c.value, rest);
}

/// The size of a filter tree: one per node.
pub open spec fn expr_size(e: FilterExprV) -> nat
    decreases e,
{
    match e {
        FilterExprV::Condition(c) => 1,
        FilterExprV::Binary { left, op, right } => 1 + expr_size(*left) + expr_size(*right),
    }
}

/// The combined size of a filter list.
pub open spec fn filters_size(l: Seq<FilterExprV>) -> nat
    decreases l.len(),
{
    if l.len() == 0 {
        0
    } else {
        expr_size(l[0]) + filters_size(l.drop_first())
    }
}

/// Decoding the encoding of a filter tree yields it back, under any fuel
/// at least the tree's size.
proof fn lemma_dec_filter_round(e: FilterExprV, rest: Seq<char>, fuel: nat)
    requires
        fuel >= expr_size(e),
    ensures
        dec_filter(enc_filter(e) + rest, fuel) == Some((e, rest)),
    decreases e,
{
    let s = enc_filter(e) + rest;
    match e {
        FilterExprV::Condition(c) => {
            assert(s =~= seq!['C'] + (enc_cond(c) + rest));
            assert(s[0] == 'C');
            assert(s.drop_first() =~= enc_cond(c) + rest);
            lemma_dec_cond_round(c, rest);
        },
        FilterExprV::Binary { left, op, right } => {
            let mid = seq![enc_logical(op)] + (enc_filter(*right) + rest);
            assert(s =~= seq!['B'] + (enc_filter(*left) + mid));
            assert(s[0] == 'B');
            assert(s.drop_first() =~= enc_filter(*left) + mid);
            lemma_dec_filter_round(*left, mid, (fuel - 1) as nat);
            assert(mid[0] == enc_logical(op));
            assert(dec_logical(enc_logical(op)) == Some(op));
            assert(mid.drop_first() =~= enc_filter(*right) + rest);
            lemma_dec_filter_round(*right, rest, (fuel - 1) as nat);
        },
    }
}

/// Decoding the encodings of `l.len()` filter trees yields them back,
/// under any fuel at least the combined size.
proof fn lemma_dec_filters_round(l: Seq<FilterExprV>, rest: Seq<char>, fuel: nat)
    requires
        fuel >= filters_size(l),
    ensures
        dec_filters(enc_filters(l) + rest, l.len(), fuel) == Some((l, rest)),
    decreases l.len(),
{
    if l.len() == 0 {
        assert(enc_filters(l) + rest =~= rest);
        assert(Seq::<FilterExprV>::empty() =~= l);
    } else {
        assert(enc_filters(l) + rest =~= enc_filter(l[0]) + (enc_filters(l.drop_first())
            + rest));
        lemma_dec_filter_round(l[0], enc_filters(l.drop_first()) + rest, fuel);
        lemma_dec_filters_round(l.drop_first(), rest, fuel);
        assert(seq![l[0]] + l.drop_first() =~= l);
    }
}

/// Decoding the encodings of `l.len()` paths yields them back.
proof fn lemma_dec_paths_round(l: Seq<Seq<Seq<char>>>, rest: Seq<char>)
    ensures
        dec_paths(enc_paths(l) + rest, l.len()) == Some((l, rest)),
    decreases l.len(),
{
    if l.len() == 0 {
        assert(enc_paths(l) + rest =~= rest);
        assert(Seq::<Seq<Seq<char>>>::empty() =~= l);
    } else {
        assert(enc_paths(l) + rest =~= enc_str_list(l[0]) + (enc_paths(l.drop_first())
            + rest));
        lemma_dec_str_list_round(l[0], enc_paths(l.drop_first()) + rest);
        lemma_dec_paths_round(l.drop_first(), rest);
        assert(seq![l[0]] + l.drop_first() =~= l);
    }
}

/// Decoding the encoding of an order-by clause yields it back.
proof fn lemma_dec_order_round(o: OrderByV, rest: Seq<char>)
    ensures
        dec_order(enc_order(o) + rest) == Some((o, rest)),
{
    let tail = seq![enc_dir(o.direction)] + rest;
    assert(enc_order(o) + rest =~= enc_str(o.field) + tail);
    lemma_dec_str_round(o.field, tail);
    assert(tail[0] == enc_dir(o.direction));
    assert(dec_dir(enc_dir(o.direction)) == Some(o.direction));
    assert(tail.drop_first() =~= rest);
    assert(dec_order(enc_order(o) + rest) == Some(
        (OrderByV { field: o.field, direction: o.direction }, rest),
    ));
}

/// Decoding the encodings of `l.len()` order-by clauses yields them back.
proof fn lemma_dec_orders_round(l: Seq<OrderByV>, rest: Seq<char>)
    ensures
        dec_orders(enc_orders(l) + rest, l.len()) == Some((l, rest)),
    decreases l.len(),
{
    if l.len() == 0 {
        assert(enc_orders(l) + rest =~= rest);
        assert(Seq::<OrderByV>::empty() =~= l);
    } else {
        assert(enc_orders(l) + rest =~= enc_order(l[0]) + (enc_orders(l.drop_first())
            + rest));
        lemma_dec_order_round(l[0], enc_orders(l.drop_first()) + rest);
        lemma_dec_orders_round(l.drop_first(), rest);
        assert(seq![l[0]] + l.drop_first() =~= l);
    }
}

/// A filter encoding is at least as long as the tree's size.
proof fn lemma_enc_filter_len(e: FilterExprV)
    ensures
        enc_filter(e).len() >= expr_size(e),
    decreases e,
{
    match e {
        FilterExprV::Condition(c) => {},
        FilterExprV::Binary { left, op, right } => {
            lemma_enc_filter_len(*left);
            lemma_enc_filter_len(*right);
        },
    }
}

/// A filter-list encoding is at least as long as the combined size.
proof fn lemma_enc_filters_len(l: Seq<FilterExprV>)
    ensures
        enc_filters(l).len() >= filters_size(l),
    decreases l.len(),
{
    if l.len() > 0 {
        lemma_enc_filter_len(l[0]);
        lemma_enc_filters_len(l.drop_first());
    }
}

/// Round trip: decoding the wire form of any query model yields an equal
/// query model, with any trailing input handed back untouched.
#[verifier::rlimit(100)]
#[verifier::spinoff_prover]
pub proof fn lemma_query_round_trip(q: QueryV, rest: Seq<char>)
    ensures
        dec_query(enc_query(q) + rest) == Some((q, rest)),
{
    let s = enc_query(q) + rest;
    let fuel = s.len();
    let t_filters = (enc_nat(q.filters.len()) + enc_filters(q.filters)) + ((enc_nat(
        q.includes.len(),
    ) + enc_paths(q.includes)) + ((enc_nat(q.order_by.len()) + enc_orders(q.order_by)) + (
    enc_opt_nat(q.limit) + (enc_opt_nat(q.offset) + rest))));
    assert(s =~= enc_str(q.entity) + t_filters);
    lemma_dec_str_round(q.entity, t_filters);
    let t2 = enc_filters(q.filters) + ((enc_nat(q.includes.len()) + enc_paths(q.includes)) + (
    (enc_nat(q.order_by.len()) + enc_orders(q.order_by)) + (enc_opt_nat(q.limit) + (
    enc_opt_nat(q.offset) + rest))));
    assert(t_filters =~= enc_nat(q.filters.len()) + t2);
    lemma_dec_nat_round(q.filters.len(), t2);
    lemma_enc_filters_len(q.filters);
    assert(fuel >= filters_size(q.filters));
    let t3 = (enc_nat(q.includes.len()) + enc_paths(q.includes)) + ((enc_nat(
        q.order_by.len(),
    ) + enc_orders(q.order_by)) + (enc_opt_nat(q.limit) + (enc_opt_nat(q.offset) + rest)));
    assert(t2 =~= enc_filters(q.filters) + t3);
    lemma_dec_filters_round(q.filters, t3, fuel);
    let t4 = enc_paths(q.includes) + ((enc_nat(q.order_by.len()) + enc_orders(q.order_by)) + (
    enc_opt_nat(q.limit) + (enc_opt_nat(q.offset) + rest)));
    assert(t3 =~= enc_nat(q.includes.len()) + t4);
    lemma_dec_nat_round(q.includes.len(), t4);
    let t5 = (enc_nat(q.order_by.len()) + enc_orders(q.order_by)) + (enc_opt_nat(q.limit) + (
    enc_opt_nat(q.offset) + rest));
    assert(t4 =~= enc_paths(q.includes) + t5);
    lemma_dec_paths_round(q.includes, t5);
    let t6 = enc_orders(q.order_by) + (enc_opt_nat(q.limit) + (enc_opt_nat(q.offset) + rest));
    assert(t5 =~= enc_nat(q.order_by.len()) + t6);
    lemma_dec_nat_round(q.order_by.len(), t6);
    let t7 = enc_opt_nat(q.limit) + (enc_opt_nat(q.offset) + rest);
    assert(t6 =~= enc_orders(q.order_by) + t7);
    lemma_dec_orders_round(q.order_by, t7);
    let t8 = enc_opt_nat(q.offset) + rest;
    lemma_dec_opt_nat_round(q.limit, t8);
    lemma_dec_opt_nat_round(q.offset, rest);
    assert(dec_query_fueled(s, fuel) == Some(
        (
            QueryV {
                entity: q.entity,
                filters: q.filters,
                includes: q.includes,
                order_by: q.order_by,
                limit: q.limit,
                offset: q.offset,
            },
            rest,
        ),
    ));
    assert(QueryV {
        entity: q.entity,
        filters: q.filters,
        includes: q.includes,
        order_by: q.order_by,
        limit: q.limit,
        offset: q.offset,
    } =~= q);
}


// ─── Machine bounds on decoded values ───

/// A number representable at the boundary.
pub open spec fn fits_nat(n: nat) -> bool {
    n <= u64::MAX
}

/// A string whose length is representable.
pub open spec fn fits_str(x: Seq<char>) -> bool {
    x.len() <= u64::MAX
}

/// A string list whose count and strings are representable.
pub open spec fn fits_strs(l: Seq<Seq<char>>) -> bool {
    l.len() <= u64::MAX && (forall|i: int| 0 <= i < l.len() ==> fits_str(#[trigger] l[i]))
}

/// A filter value whose payload is representable.
pub open spec fn fits_value(v: FilterValueV) -> bool {
    match v {
        FilterValueV::String(x) => fits_str(x),
        FilterValueV::Int(i) => i64::MIN <= i <= i64::MAX,
        FilterValueV::Bool(b) => true,
        FilterValueV::Null => true,
    }
}

/// A condition whose parts are representable.
pub open spec fn fits_cond(c: FilterCondV) -> bool {
    fits_strs(c.field) && fits_value(c.value)
}

/// A filter tree whose conditions are representable.
pub open spec fn fits_filter(e: FilterExprV) -> bool
    decreases e,
{
    match e {
        FilterExprV::Condition(c) => fits_cond(c),
        FilterExprV::Binary { left, op, right } => fits_filter(*left) && fits_filter(*right),
    }
}

/// A filter list whose count and trees are representable.
pub open spec fn fits_filters(l: Seq<FilterExprV>) -> bool {
    l.len() <= u64::MAX && (forall|i: int| 0 <= i < l.len() ==> fits_filter(#[trigger] l[i]))
}

/// An eager-load path list whose counts and strings are representable.
pub open spec fn fits_paths(l: Seq<Seq<Seq<char>>>) -> bool {
    l.len() <= u64::MAX && (forall|i: int| 0 <= i < l.len() ==> fits_strs(#[trigger] l[i]))
}

/// An order-by list whose count and fields are representable.
pub open spec fn fits_orders(l: Seq<OrderByV>) -> bool {
    l.len() <= u64::MAX && (forall|i: int| 0 <= i < l.len() ==> fits_str(#[trigger] l[i].field))
}

/// A query model every part of which is representable at the boundary.
pub open spec fn fits_query(q: QueryV) -> bool {
    &&& fits_str(q.entity)
    &&& fits_filters(q.filters)
    &&& fits_paths(q.includes)
    &&& fits_orders(q.order_by)
    &&& (q.limit matches Some(n) ==> fits_nat(n))
    &&& (q.offset matches Some(n) ==> fits_nat(n))
}

/// A successful string-list decode yields exactly `count` strings.
proof fn lemma_dec_strs_len(s: Seq<char>, count: nat)
    requires
        dec_strs(s, count) is Some,
    ensures
        (dec_strs(s, count)->0).0.len() == count,
    decreases count,
{
    if count > 0 {
        let (x, r) = dec_str(s)->0;
        lemma_dec_strs_len(r, (count - 1) as nat);
    }
}

/// A successful filter-list decode yields exactly `count` trees.
proof fn lemma_dec_filters_len(s: Seq<char>, count: nat, fuel: nat)
    requires
        dec_filters(s, count, fuel) is Some,
    ensures
        (dec_filters(s, count, fuel)->0).0.len() == count,
    decreases count,
{
    if count > 0 {
        let (x, r) = dec_filter(s, fuel)->0;
        lemma_dec_filters_len(r, (count - 1) as nat, fuel);
    }
}

/// A successful path-list decode yields exactly `count` paths.
proof fn lemma_dec_paths_len(s: Seq<char>, count: nat)
    requires
        dec_paths(s, count) is Some,
    ensures
        (dec_paths(s, count)->0).0.len() == count,
    decreases count,
{
    if count > 0 {
        let (x, r) = dec_str_list(s)->0;
        lemma_dec_paths_len(r, (count - 1) as nat);
    }
}

/// A successful order-list decode yields exactly `count` clauses.
proof fn lemma_dec_orders_len(s: Seq<char>, count: nat)
    requires
        dec_orders(s, count) is Some,
    ensures
        (dec_orders(s, count)->0).0.len() == count,
    decreases count,
{
    if count > 0 {
        let (x, r) = dec_order(s)->0;
        lemma_dec_orders_len(r, (count - 1) as nat);
    }
}

/// A digit scan never lowers the accumulator.
proof fn lemma_dec_digits_ge(s: Seq<char>, acc: nat)
    ensures
        dec_digits(s, acc).0 >= acc,
    decreases s.len(),
{
    if s.len() > 0 && is_digit(s[0]) {
        lemma_dec_digits_ge(s.drop_first(), acc * 10 + digit_val(s[0]));
    }
}

// ─── The executable decoder ───

/// The numeric value of a digit character, or ten.
fn d_digit(c: char) -> (d: u64)
    ensures
        d as nat == digit_val(c),
{
    match c {
        '0' => 0,
        '1' => 1,
        '2' => 2,
        '3' => 3,
        '4' => 4,
        '5' => 5,
        '6' => 6,
        '7' => 7,
        '8' => 8,
        '9' => 9,
        _ => 10,
    }
}

/// Scan digits from `pos`, folding them into the accumulator; absent when
/// the value outgrows the machine word.
fn d_digits(s: &str, pos: usize, acc: u64) -> (r: Option<(u64, usize)>)
    requires
        pos <= s@.len(),
    ensures
        (match r {
            Some((n, p2)) => pos <= p2 <= s@.len() && dec_digits(s@.skip(pos as int), acc as nat)
                == ((n as nat, s@.skip(p2 as int))),
            None => dec_digits(s@.skip(pos as int), acc as nat).0 > u64::MAX,
        }),
    decreases s@.len() - pos,
{
    let len = s.unicode_len();
    if pos == len {
        proof {
            assert(s@.skip(pos as int).len() == 0);
        }
        return Some((acc, pos));
    }
    let c = s.get_char(pos);
    let d = d_digit(c);
    proof {
        assert(s@.skip(pos as int)[0] == s@[pos as int]);
        assert(s@.skip(pos as int).drop_first() =~= s@.skip(pos as int + 1));
    }
    if d >= 10 {
        return Some((acc, pos));
    }
    let next: u128 = (acc as u128) * 10 + (d as u128);
    if next > u64::MAX as u128 {
        proof {
            lemma_dec_digits_ge(s@.skip(pos as int + 1), (acc * 10 + d) as nat);
        }
        return None;
    }
    d_digits(s, pos + 1, next as u64)
}

/// Decode a number from `pos`: digits closed by a semicolon.
fn d_nat(s: &str, pos: usize) -> (r: Option<(u64, usize)>)
    requires
        pos <= s@.len(),
    ensures
        (match r {
            Some((n, p2)) => pos < p2 <= s@.len() && dec_nat(s@.skip(pos as int)) == Some(
                (n as nat, s@.skip(p2 as int)),
            ),
            None => !(dec_nat(s@.skip(pos as int)) matches Some((n, rem)) && fits_nat(n)),
        }),
{
    let len = s.unicode_len();
    if pos == len {
        return None;
    }
    let c0 = s.get_char(pos);
    proof {
        assert(s@.skip(pos as int)[0] == s@[pos as int]);
    }
    if d_digit(c0) >= 10 {
        return None;
    }
    match d_digits(s, pos, 0) {
        None => None,
        Some((n, p2)) => {
            if p2 == len {
                proof {
                    assert(s@.skip(p2 as int).len() == 0);
                }
                None
            } else {
                let c = s.get_char(p2);
                proof {
                    assert(s@.skip(p2 as int)[0] == s@[p2 as int]);
                    assert(s@.skip(p2 as int).drop_first() =~= s@.skip(p2 as int + 1));
                }
                if c == ';' {
                    Some((n, p2 + 1))
                } else {
                    None
                }
            }
        },
    }
}

/// Decode a string from `pos`: its length, then that many characters.
fn d_str(s: &str, pos: usize) -> (r: Option<(String, usize)>)
    requires
        pos <= s@.len(),
    ensures
        (match r {
            Some((x, p2)) => pos <= p2 <= s@.len() && dec_str(s@.skip(pos as int)) == Some(
                (x@, s@.skip(p2 as int)),
            ),
            None => !(dec_str(s@.skip(pos as int)) matches Some((x, rem)) && fits_str(x)),
        }),
{
    let len = s.unicode_len();
    match d_nat(s, pos) {
        None => None,
        Some((n, p2)) => {
            if n > (len - p2) as u64 {
                return None;
            }
            let end = p2 + (n as usize);
            let sub = s.substring_char(p2, end);
            let x = String::from_str(sub);
            proof {
                assert(x@ =~= s@.skip(p2 as int).take(n as int));
                assert(s@.skip(p2 as int).skip(n as int) =~= s@.skip(end as int));
            }
            Some((x, end))
        },
    }
}

/// Decode a signed number from `pos`.
fn d_int(s: &str, pos: usize) -> (r: Option<(i64, usize)>)
    requires
        pos <= s@.len(),
    ensures
        (match r {
            Some((i, p2)) => pos <= p2 <= s@.len() && dec_int(s@.skip(pos as int)) == Some(
                (i as int, s@.skip(p2 as int)),
            ),
            None => !(dec_int(s@.skip(pos as int)) matches Some((i, rem)) && i64::MIN <= i
                <= i64::MAX),
        }),
{
    let len = s.unicode_len();
    if pos == len {
        return None;
    }
    let c = s.get_char(pos);
    proof {
        assert(s@.skip(pos as int)[0] == s@[pos as int]);
        assert(s@.skip(pos as int).drop_first() =~= s@.skip(pos as int + 1));
    }
    if c == '-' {
        match d_nat(s, pos + 1) {
            None => None,
            Some((n, p2)) => {
                if n > 0x8000_0000_0000_0000u64 {
                    return None;
                }
                let i: i64 = if n == 0x8000_0000_0000_0000u64 {
                    i64::MIN
                } else {
                    -(n as i64)
                };
                Some((i, p2))
            },
        }
    } else if c == '+' {
        match d_nat(s, pos + 1) {
            None => None,
            Some((n, p2)) => {
                if n > i64::MAX as u64 {
                    return None;
                }
                Some((n as i64, p2))
            },
        }
    } else {
        None
    }
}

/// Decode an optional number from `pos`.
fn d_opt_nat(s: &str, pos: usize) -> (r: Option<(Option<u64>, usize)>)
    requires
        pos <= s@.len(),
    ensures
        (match r {
            Some((o, p2)) => pos <= p2 <= s@.len() && dec_opt_nat(s@.skip(pos as int)) == Some(
                (
                    (match o {
                        Some(n) => Some(n as nat),
                        None => None,
                    }),
                    s@.skip(p2 as int),
                ),
            ),
            None => !(dec_opt_nat(s@.skip(pos as int)) matches Some((o, rem)) && (o matches Some(
                n,
            ) ==> fits_nat(n))),
        }),
{
    let len = s.unicode_len();
    if pos == len {
        return None;
    }
    let c = s.get_char(pos);
    proof {
        assert(s@.skip(pos as int)[0] == s@[pos as int]);
        assert(s@.skip(pos as int).drop_first() =~= s@.skip(pos as int + 1));
    }
    if c == 'N' {
        Some((None, pos + 1))
    } else if c == 'S' {
        match d_nat(s, pos + 1) {
            None => None,
            Some((n, p2)) => Some((Some(n), p2)),
        }
    } else {
        None
    }
}


/// The comparison operator of a tag character.
fn d_op_char(c: char) -> (r: Option<ComparisonOp>)
    ensures
        r == dec_op(c),
{
    match c {
        'e' => Some(ComparisonOp::Eq),
        'q' => Some(ComparisonOp::Neq),
        'g' => Some(ComparisonOp::Gt),
        'G' => Some(ComparisonOp::Gte),
        'l' => Some(ComparisonOp::Lt),
        'L' => Some(ComparisonOp::Lte),
        'k' => Some(ComparisonOp::Like),
        'i' => Some(ComparisonOp::In),
        _ => None,
    }
}

/// The logical operator of a tag character.
fn d_logical_char(c: char) -> (r: Option<LogicalOp>)
    ensures
        r == dec_logical(c),
{
    match c {
        'a' => Some(LogicalOp::And),
        'o' => Some(LogicalOp::Or),
        _ => None,
    }
}

/// The sort direction of a tag character.
fn d_dir_char(c: char) -> (r: Option<SortDirection>)
    ensures
        r == dec_dir(c),
{
    match c {
        'A' => Some(SortDirection::Asc),
        'D' => Some(SortDirection::Desc),
        _ => None,
    }
}

/// Decode `count` strings from `pos`.
fn d_strs(s: &str, pos: usize, count: u64) -> (r: Option<(Vec<String>, usize)>)
    requires
        pos <= s@.len(),
    ensures
        (match r {
            Some((v, p2)) => pos <= p2 <= s@.len() && dec_strs(s@.skip(pos as int), count as nat)
                == Some((v@.map_values(|x: String| x@), s@.skip(p2 as int))),
            None => !(dec_strs(s@.skip(pos as int), count as nat) matches Some((l, rem))
                && fits_strs(l)),
        }),
{
    let ghost s0 = s@.skip(pos as int);
    let mut v: Vec<String> = Vec::new();
    let mut cur: usize = pos;
    let mut j: u64 = 0;
    proof {
        assert(v@.map_values(|x: String| x@) =~= Seq::<Seq<char>>::empty());
    }
    while j < count
        invariant
            j <= count,
            pos <= cur <= s@.len(),
            s0 == s@.skip(pos as int),
            v@.len() == j as int,
            (match dec_strs(s@.skip(cur as int), (count - j) as nat) {
                Some(st) => dec_strs(s0, count as nat) == Some(
                    (v@.map_values(|x: String| x@) + st.0, st.1),
                ),
                None => dec_strs(s0, count as nat) is None,
            }),
        decreases count - j,
    {
        let x = match d_str(s, cur) {
            Some(p) => p,
            None => {
                proof {
                    if dec_strs(s0, count as nat) is Some && fits_strs(
                        (dec_strs(s0, count as nat)->0).0,
                    ) {
                        let l = (dec_strs(s0, count as nat)->0).0;
                        lemma_dec_strs_len(s0, count as nat);
                        assert(dec_strs(s@.skip(cur as int), (count - j) as nat) is Some);
                        let st = dec_strs(s@.skip(cur as int), (count - j) as nat)->0;
                        let x0 = (dec_str(s@.skip(cur as int))->0).0;
                        assert(l == v@.map_values(|x: String| x@) + st.0);
                        lemma_dec_strs_len(
                            (dec_str(s@.skip(cur as int))->0).1,
                            (count - j - 1) as nat,
                        );
                        assert(st.0[0] == x0);
                        assert(l[j as int] == x0);
                        assert(fits_str(x0));
                    }
                }
                return None;
            },
        };
        let ghost prev = v@.map_values(|xq: String| xq@);
        v.push(x.0);
        proof {
            assert(v@.map_values(|xq: String| xq@) =~= prev.push(
                (dec_str(s@.skip(cur as int))->0).0,
            ));
            match dec_strs(s@.skip(x.1 as int), (count - j - 1) as nat) {
                Some(st) => {
                    assert(prev.push((dec_str(s@.skip(cur as int))->0).0) + st.0 =~= prev + (seq![
                        (dec_str(s@.skip(cur as int))->0).0,
                    ] + st.0));
                },
                None => {},
            }
        }
        cur = x.1;
        j = j + 1;
    }
    proof {
        assert(dec_strs(s@.skip(cur as int), 0) == Some(
            (Seq::<Seq<char>>::empty(), s@.skip(cur as int)),
        ));
        assert(v@.map_values(|x: String| x@) + Seq::<Seq<char>>::empty() =~= v@.map_values(
            |x: String| x@,
        ));
    }
    Some((v, cur))
}

/// Decode a string list from `pos`.
fn d_str_list(s: &str, pos: usize) -> (r: Option<(Vec<String>, usize)>)
    requires
        pos <= s@.len(),
    ensures
        (match r {
            Some((v, p2)) => pos <= p2 <= s@.len() && dec_str_list(s@.skip(pos as int)) == Some(
                (v@.map_values(|x: String| x@), s@.skip(p2 as int)),
            ),
            None => !(dec_str_list(s@.skip(pos as int)) matches Some((l, rem)) && fits_strs(
                l,
            )),
        }),
{
    match d_nat(s, pos) {
        None => {
            proof {
                if dec_str_list(s@.skip(pos as int)) is Some {
                    let (n, r0) = dec_nat(s@.skip(pos as int))->0;
                    lemma_dec_strs_len(r0, n);
                }
            }
            None
        },
        Some((count, p1)) => d_strs(s, p1, count),
    }
}

/// The model a decoded condition stands for.
pub open spec fn cond_view(c: FilterCondition) -> FilterCondV {
    FilterCondV { field: path_view(c.field), op: c.op, value: value_view(c.value) }
}

/// Decode a filter value from `pos`.
fn d_value(s: &str, pos: usize) -> (r: Option<(FilterValue, usize)>)
    requires
        pos <= s@.len(),
    ensures
        (match r {
            Some((v, p2)) => pos <= p2 <= s@.len() && dec_value(s@.skip(pos as int)) == Some(
                (value_view(v), s@.skip(p2 as int)),
            ),
            None => !(dec_value(s@.skip(pos as int)) matches Some((v, rem)) && fits_value(v)),
        }),
{
    let len = s.unicode_len();
    if pos == len {
        return None;
    }
    let c = s.get_char(pos);
    proof {
        assert(s@.skip(pos as int)[0] == s@[pos as int]);
        assert(s@.skip(pos as int).drop_first() =~= s@.skip(pos as int + 1));
    }
    if c == 's' {
        match d_str(s, pos + 1) {
            None => None,
            Some((x, p2)) => Some((FilterValue::String(x), p2)),
        }
    } else if c == 'i' {
        match d_int(s, pos + 1) {
            None => None,
            Some((i, p2)) => Some((FilterValue::Int(i), p2)),
        }
    } else if c == 'b' {
        if pos + 1 == len {
            return None;
        }
        let c2 = s.get_char(pos + 1);
        proof {
            assert(s@.skip(pos as int + 1)[0] == s@[pos as int + 1]);
            assert(s@.skip(pos as int + 1).drop_first() =~= s@.skip(pos as int + 2));
        }
        if c2 == 'T' {
            Some((FilterValue::Bool(true), pos + 2))
        } else if c2 == 'F' {
            Some((FilterValue::Bool(false), pos + 2))
        } else {
            None
        }
    } else if c == 'n' {
        Some((FilterValue::Null, pos + 1))
    } else {
        None
    }
}

/// Decode a condition from `pos`: field path, operator tag, value.
fn d_cond(s: &str, pos: usize) -> (r: Option<(FilterCondition, usize)>)
    requires
        pos <= s@.len(),
    ensures
        (match r {
            Some((c, p2)) => pos <= p2 <= s@.len() && dec_cond(s@.skip(pos as int)) == Some(
                (cond_view(c), s@.skip(p2 as int)),
            ),
            None => !(dec_cond(s@.skip(pos as int)) matches Some((c, rem)) && fits_cond(c)),
        }),
{
    let len = s.unicode_len();
    let segs = match d_str_list(s, pos) {
        None => {
            return None;
        },
        Some(p) => p,
    };
    let p1 = segs.1;
    if p1 == len {
        proof {
            assert(s@.skip(p1 as int).len() == 0);
        }
        return None;
    }
    let c = s.get_char(p1);
    proof {
        assert(s@.skip(p1 as int)[0] == s@[p1 as int]);
        assert(s@.skip(p1 as int).drop_first() =~= s@.skip(p1 as int + 1));
    }
    let op = match d_op_char(c) {
        None => {
            return None;
        },
        Some(op) => op,
    };
    match d_value(s, p1 + 1) {
        None => None,
        Some((v, p2)) => {
            let cond = FilterCondition { field: FieldPath { segments: segs.0 }, op, value: v };
            Some((cond, p2))
        },
    }
}

/// Decode a filter tree from `pos`; the fuel bounds the recursion.
fn d_filter(s: &str, pos: usize, fuel: usize) -> (r: Option<(FilterExpr, usize)>)
    requires
        pos <= s@.len(),
    ensures
        (match r {
            Some((e, p2)) => pos <= p2 <= s@.len() && dec_filter(
                s@.skip(pos as int),
                fuel as nat,
            ) == Some((expr_view(e), s@.skip(p2 as int))),
            None => !(dec_filter(s@.skip(pos as int), fuel as nat) matches Some((ev, rem))
                && fits_filter(ev)),
        }),
    decreases fuel,
{
    let len = s.unicode_len();
    if fuel == 0 || pos == len {
        return None;
    }
    let c = s.get_char(pos);
    proof {
        assert(s@.skip(pos as int)[0] == s@[pos as int]);
        assert(s@.skip(pos as int).drop_first() =~= s@.skip(pos as int + 1));
    }
    if c == 'C' {
        match d_cond(s, pos + 1) {
            None => None,
            Some((cond, p2)) => Some((FilterExpr::Condition(cond), p2)),
        }
    } else if c == 'B' {
        let left = match d_filter(s, pos + 1, fuel - 1) {
            None => {
                return None;
            },
            Some(p) => p,
        };
        let p1 = left.1;
        if p1 == len {
            proof {
                assert(s@.skip(p1 as int).len() == 0);
            }
            return None;
        }
        let c2 = s.get_char(p1);
        proof {
            assert(s@.skip(p1 as int)[0] == s@[p1 as int]);
            assert(s@.skip(p1 as int).drop_first() =~= s@.skip(p1 as int + 1));
        }
        let op = match d_logical_char(c2) {
            None => {
                return None;
            },
            Some(op) => op,
        };
        match d_filter(s, p1 + 1, fuel - 1) {
            None => None,
            Some((rt, p2)) => Some(
                (
                    FilterExpr::Binary {
                        left: Box::new(left.0),
                        op,
                        right: Box::new(rt),
                    },
                    p2,
                ),
            ),
        }
    } else {
        None
    }
}

/// Decode `count` filter trees from `pos`.
fn d_filters(s: &str, pos: usize, count: u64, fuel: usize) -> (r: Option<
    (Vec<FilterExpr>, usize),
>)
    requires
        pos <= s@.len(),
    ensures
        (match r {
            Some((v, p2)) => pos <= p2 <= s@.len() && dec_filters(
                s@.skip(pos as int),
                count as nat,
                fuel as nat,
            ) == Some((v@.map_values(|e: FilterExpr| expr_view(e)), s@.skip(p2 as int))),
            None => !(dec_filters(s@.skip(pos as int), count as nat, fuel as nat) matches Some(
                (l, rem),
            ) && fits_filters(l)),
        }),
{
    let ghost s0 = s@.skip(pos as int);
    let mut v: Vec<FilterExpr> = Vec::new();
    let mut cur: usize = pos;
    let mut j: u64 = 0;
    proof {
        assert(v@.map_values(|e: FilterExpr| expr_view(e)) =~= Seq::<FilterExprV>::empty());
    }
    while j < count
        invariant
            j <= count,
            pos <= cur <= s@.len(),
            s0 == s@.skip(pos as int),
            v@.len() == j as int,
            (match dec_filters(s@.skip(cur as int), (count - j) as nat, fuel as nat) {
                Some(st) => dec_filters(s0, count as nat, fuel as nat) == Some(
                    (v@.map_values(|e: FilterExpr| expr_view(e)) + st.0, st.1),
                ),
                None => dec_filters(s0, count as nat, fuel as nat) is None,
            }),
        decreases count - j,
    {
        let x = match d_filter(s, cur, fuel) {
            Some(p) => p,
            None => {
                proof {
                    if dec_filters(s0, count as nat, fuel as nat) is Some && fits_filters(
                        (dec_filters(s0, count as nat, fuel as nat)->0).0,
                    ) {
                        let l = (dec_filters(s0, count as nat, fuel as nat)->0).0;
                        lemma_dec_filters_len(s0, count as nat, fuel as nat);
                        assert(dec_filters(s@.skip(cur as int), (count - j) as nat, fuel as nat)
                            is Some);
                        let st = dec_filters(
                            s@.skip(cur as int),
                            (count - j) as nat,
                            fuel as nat,
                        )->0;
                        let x0 = (dec_filter(s@.skip(cur as int), fuel as nat)->0).0;
                        assert(l == v@.map_values(|e: FilterExpr| expr_view(e)) + st.0);
                        lemma_dec_filters_len(
                            (dec_filter(s@.skip(cur as int), fuel as nat)->0).1,
                            (count - j - 1) as nat,
                            fuel as nat,
                        );
                        assert(st.0[0] == x0);
                        assert(l[j as int] == x0);
                        assert(fits_filter(x0));
                    }
                }
                return None;
            },
        };
        let ghost prev = v@.map_values(|e: FilterExpr| expr_view(e));
        let ghost x0 = (dec_filter(s@.skip(cur as int), fuel as nat)->0).0;
        v.push(x.0);
        proof {
            assert(v@.map_values(|e: FilterExpr| expr_view(e)) =~= prev.push(x0));
            match dec_filters(s@.skip(x.1 as int), (count - j - 1) as nat, fuel as nat) {
                Some(st) => {
                    assert(prev.push(x0) + st.0 =~= prev + (seq![x0] + st.0));
                },
                None => {},
            }
        }
        cur = x.1;
        j = j + 1;
    }
    proof {
        assert(dec_filters(s@.skip(cur as int), 0, fuel as nat) == Some(
            (Seq::<FilterExprV>::empty(), s@.skip(cur as int)),
        ));
        assert(v@.map_values(|e: FilterExpr| expr_view(e)) + Seq::<FilterExprV>::empty()
            =~= v@.map_values(|e: FilterExpr| expr_view(e)));
    }
    Some((v, cur))
}

/// Decode `count` eager-load paths from `pos`.
fn d_paths(s: &str, pos: usize, count: u64) -> (r: Option<(Vec<IncludePath>, usize)>)
    requires
        pos <= s@.len(),
    ensures
        (match r {
            Some((v, p2)) => pos <= p2 <= s@.len() && dec_paths(
                s@.skip(pos as int),
                count as nat,
            ) == Some((v@.map_values(|p: IncludePath| include_view(p)), s@.skip(p2 as int))),
            None => !(dec_paths(s@.skip(pos as int), count as nat) matches Some((l, rem))
                && fits_paths(l)),
        }),
{
    let ghost s0 = s@.skip(pos as int);
    let mut v: Vec<IncludePath> = Vec::new();
    let mut cur: usize = pos;
    let mut j: u64 = 0;
    proof {
        assert(v@.map_values(|p: IncludePath| include_view(p)) =~= Seq::<Seq<Seq<char>>>::empty());
    }
    while j < count
        invariant
            j <= count,
            pos <= cur <= s@.len(),
            s0 == s@.skip(pos as int),
            v@.len() == j as int,
            (match dec_paths(s@.skip(cur as int), (count - j) as nat) {
                Some(st) => dec_paths(s0, count as nat) == Some(
                    (v@.map_values(|p: IncludePath| include_view(p)) + st.0, st.1),
                ),
                None => dec_paths(s0, count as nat) is None,
            }),
        decreases count - j,
    {
        let x = match d_str_list(s, cur) {
            Some(p) => p,
            None => {
                proof {
                    if dec_paths(s0, count as nat) is Some && fits_paths(
                        (dec_paths(s0, count as nat)->0).0,
                    ) {
                        let l = (dec_paths(s0, count as nat)->0).0;
                        lemma_dec_paths_len(s0, count as nat);
                        assert(dec_paths(s@.skip(cur as int), (count - j) as nat) is Some);
                        let st = dec_paths(s@.skip(cur as int), (count - j) as nat)->0;
                        let x0 = (dec_str_list(s@.skip(cur as int))->0).0;
                        assert(l == v@.map_values(|p: IncludePath| include_view(p)) + st.0);
                        lemma_dec_paths_len(
                            (dec_str_list(s@.skip(cur as int))->0).1,
                            (count - j - 1) as nat,
                        );
                        assert(st.0[0] == x0);
                        assert(l[j as int] == x0);
                        assert(fits_strs(x0));
                    }
                }
                return None;
            },
        };
        let ghost prev = v@.map_values(|p: IncludePath| include_view(p));
        let ghost x0 = (dec_str_list(s@.skip(cur as int))->0).0;
        v.push(IncludePath { path: x.0 });
        proof {
            assert(v@.map_values(|p: IncludePath| include_view(p)) =~= prev.push(x0));
            match dec_paths(s@.skip(x.1 as int), (count - j - 1) as nat) {
                Some(st) => {
                    assert(prev.push(x0) + st.0 =~= prev + (seq![x0] + st.0));
                },
                None => {},
            }
        }
        cur = x.1;
        j = j + 1;
    }
    proof {
        assert(dec_paths(s@.skip(cur as int), 0) == Some(
            (Seq::<Seq<Seq<char>>>::empty(), s@.skip(cur as int)),
        ));
        assert(v@.map_values(|p: IncludePath| include_view(p)) + Seq::<Seq<Seq<char>>>::empty()
            =~= v@.map_values(|p: IncludePath| include_view(p)));
    }
    Some((v, cur))
}

/// The model a decoded order-by clause stands for.
pub open spec fn order_view(o: OrderByClause) -> OrderByV {
    OrderByV { field: o.field@, direction: o.direction }
}

/// Decode `count` order-by clauses from `pos`.
fn d_orders(s: &str, pos: usize, count: u64) -> (r: Option<(Vec<OrderByClause>, usize)>)
    requires
        pos <= s@.len(),
    ensures
        (match r {
            Some((v, p2)) => pos <= p2 <= s@.len() && dec_orders(
                s@.skip(pos as int),
                count as nat,
            ) == Some((v@.map_values(|o: OrderByClause| order_view(o)), s@.skip(p2 as int))),
            None => !(dec_orders(s@.skip(pos as int), count as nat) matches Some((l, rem))
                && fits_orders(l)),
        }),
{
    let len = s.unicode_len();
    let ghost s0 = s@.skip(pos as int);
    let mut v: Vec<OrderByClause> = Vec::new();
    let mut cur: usize = pos;
    let mut j: u64 = 0;
    proof {
        assert(v@.map_values(|o: OrderByClause| order_view(o)) =~= Seq::<OrderByV>::empty());
    }
    while j < count
        invariant
            j <= count,
            pos <= cur <= s@.len(),
            len == s@.len(),
            s0 == s@.skip(pos as int),
            v@.len() == j as int,
            (match dec_orders(s@.skip(cur as int), (count - j) as nat) {
                Some(st) => dec_orders(s0, count as nat) == Some(
                    (v@.map_values(|o: OrderByClause| order_view(o)) + st.0, st.1),
                ),
                None => dec_orders(s0, count as nat) is None,
            }),
        decreases count - j,
    {
        proof {
            if dec_orders(s0, count as nat) is Some && fits_orders(
                (dec_orders(s0, count as nat)->0).0,
            ) {
                let l = (dec_orders(s0, count as nat)->0).0;
                lemma_dec_orders_len(s0, count as nat);
                assert(dec_orders(s@.skip(cur as int), (count - j) as nat) is Some);
                let st = dec_orders(s@.skip(cur as int), (count - j) as nat)->0;
                let x0 = (dec_order(s@.skip(cur as int))->0).0;
                assert(l == v@.map_values(|o: OrderByClause| order_view(o)) + st.0);
                lemma_dec_orders_len(
                    (dec_order(s@.skip(cur as int))->0).1,
                    (count - j - 1) as nat,
                );
                assert(st.0[0] == x0);
                assert(l[j as int] == x0);
                assert(fits_str(x0.field));
            }
        }
        let f = match d_str(s, cur) {
            Some(p) => p,
            None => {
                return None;
            },
        };
        let p1 = f.1;
        if p1 == len {
            proof {
                assert(s@.skip(p1 as int).len() == 0);
            }
            return None;
        }
        let c = s.get_char(p1);
        proof {
            assert(s@.skip(p1 as int)[0] == s@[p1 as int]);
            assert(s@.skip(p1 as int).drop_first() =~= s@.skip(p1 as int + 1));
        }
        let dir = match d_dir_char(c) {
            None => {
                return None;
            },
            Some(d) => d,
        };
        let ghost prev = v@.map_values(|o: OrderByClause| order_view(o));
        let ghost x0 = (dec_order(s@.skip(cur as int))->0).0;
        v.push(OrderByClause { field: f.0, direction: dir });
        proof {
            assert(v@.map_values(|o: OrderByClause| order_view(o)) =~= prev.push(x0));
            match dec_orders(s@.skip(p1 as int + 1), (count - j - 1) as nat) {
                Some(st) => {
                    assert(prev.push(x0) + st.0 =~= prev + (seq![x0] + st.0));
                },
                None => {},
            }
        }
        cur = p1 + 1;
        j = j + 1;
    }
    proof {
        assert(dec_orders(s@.skip(cur as int), 0) == Some(
            (Seq::<OrderByV>::empty(), s@.skip(cur as int)),
        ));
        assert(v@.map_values(|o: OrderByClause| order_view(o)) + Seq::<OrderByV>::empty()
            =~= v@.map_values(|o: OrderByClause| order_view(o)));
    }
    Some((v, cur))
}

/// Decode a query from its wire form. The whole input must be consumed;
/// a query whose numbers or counts outgrow the machine word is refused.
pub fn decode_query(s: &str) -> (r: Option<Query>)
    ensures
        (match r {
            Some(q) => dec_query(s@) == Some((query_view(q), Seq::<char>::empty())),
            None => !(dec_query(s@) matches Some((qv, rem)) && rem.len() == 0 && fits_query(
                qv,
            )),
        }),
{
    let len = s.unicode_len();
    proof {
        assert(s@.skip(0) =~= s@);
    }
    let entity = match d_str(s, 0) {
        None => {
            return None;
        },
        Some(p) => p,
    };
    let fcount = match d_nat(s, entity.1) {
        None => {
            proof {
                if dec_query(s@) is Some {
                    let (n, r0) = dec_nat(s@.skip(entity.1 as int))->0;
                    lemma_dec_filters_len(r0, n, s@.len());
                }
            }
            return None;
        },
        Some(p) => p,
    };
    let filters = match d_filters(s, fcount.1, fcount.0, len) {
        None => {
            return None;
        },
        Some(p) => p,
    };
    let pcount = match d_nat(s, filters.1) {
        None => {
            proof {
                if dec_query(s@) is Some {
                    let (n, r0) = dec_nat(s@.skip(filters.1 as int))->0;
                    lemma_dec_paths_len(r0, n);
                }
            }
            return None;
        },
        Some(p) => p,
    };
    let includes = match d_paths(s, pcount.1, pcount.0) {
        None => {
            return None;
        },
        Some(p) => p,
    };
    let ocount = match d_nat(s, includes.1) {
        None => {
            proof {
                if dec_query(s@) is Some {
                    let (n, r0) = dec_nat(s@.skip(includes.1 as int))->0;
                    lemma_dec_orders_len(r0, n);
                }
            }
            return None;
        },
        Some(p) => p,
    };
    let order_by = match d_orders(s, ocount.1, ocount.0) {
        None => {
            return None;
        },
        Some(p) => p,
    };
    let limit = match d_opt_nat(s, order_by.1) {
        None => {
            return None;
        },
        Some(p) => p,
    };
    let offset = match d_opt_nat(s, limit.1) {
        None => {
            return None;
        },
        Some(p) => p,
    };
    if offset.1 != len {
        proof {
            assert(s@.skip(offset.1 as int).len() > 0);
        }
        return None;
    }
    let q = Query {
        entity: entity.0,
        filters: filters.0,
        includes: includes.0,
        order_by: order_by.0,
        limit: limit.0,
        offset: offset.0,
    };
    proof {
        assert(s@.skip(offset.1 as int) =~= Seq::<char>::empty());
        assert(query_view(q) =~= (dec_query(s@)->0).0);
    }
    Some(q)
}

} // verus!
