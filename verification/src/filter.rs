//! Filter expression trees: comparison conditions on (possibly nested)
//! field paths, combined with AND/OR into a binary tree.

use vstd::prelude::*;
use crate::strutil::{split_dots, spec_split_dots};

verus! {

/// A single value usable in a filter condition.
#[derive(Debug, Clone, PartialEq)]
pub enum FilterValue {
    String(String),
    Int(i64),
    Bool(bool),
    Null,
}

/// Comparison operators.
#[derive(Debug, Clone, PartialEq)]
pub enum ComparisonOp {
    Eq,
    Neq,
    Gt,
    Gte,
    Lt,
    Lte,
    Like,
    In,
}

/// Logical operators that combine filters.
#[derive(Debug, Clone, PartialEq)]
pub enum LogicalOp {
    And,
    Or,
}

/// A field path supports nested access: `orders.total` names the field
/// `total` across the relation `orders`. Each segment is one level of
/// navigation.
#[derive(Debug, Clone, PartialEq)]
pub struct FieldPath {
    pub segments: Vec<String>,
}

/// The segment sequence of a field path.
pub open spec fn path_view(p: FieldPath) -> Seq<Seq<char>> {
    p.segments@.map_values(|s: String| s@)
}

impl FieldPath {
    /// Create a field path from a dot-separated string: `orders.total`
    /// becomes the segments `orders`, `total`.
    pub fn parse(path: &str) -> (r: Self)
        ensures
            path_view(r) == spec_split_dots(path@),
            r.segments@.len() >= 1,
    {
        FieldPath { segments: split_dots(path) }
    }

    /// True when this path crosses an entity boundary: `email` is local,
    /// `orders.total` reaches into a relation.
    pub fn is_nested(&self) -> (r: bool)
        ensures
            r == (self.segments@.len() > 1),
    {
        self.segments.len() > 1
    }

    /// The root segment: the relation name when nested, the field name
    /// otherwise.
    pub fn root(&self) -> (r: &str)
        requires
            self.segments@.len() > 0,
        ensures
            r@ == path_view(*self)[0],
    {
        self.segments[0].as_str()
    }
}

/// A single filter condition: field, operator, value.
#[derive(Debug, Clone, PartialEq)]
pub struct FilterCondition {
    pub field: FieldPath,
    pub op: ComparisonOp,
    pub value: FilterValue,
}

/// A filter expression tree: a condition, or two subtrees combined with
/// AND/OR.
#[derive(Debug, PartialEq)]
pub enum FilterExpr {
    /// A single condition: field, operator, value.
    Condition(FilterCondition),
    /// Two expressions combined with AND/OR.
    Binary { left: Box<FilterExpr>, op: LogicalOp, right: Box<FilterExpr> },
}

impl Clone for FilterExpr {
    /// A structural copy of the expression tree.
    fn clone(&self) -> (r: Self)
        decreases self,
    {
        match self {
            FilterExpr::Condition(c) => FilterExpr::Condition(c.clone()),
            FilterExpr::Binary { left, op, right } => FilterExpr::Binary {
                left: Box::new((**left).clone()),
                op: op.clone(),
                right: Box::new((**right).clone()),
            },
        }
    }
}

/// A condition the SQL translation is defined on: its path is nonempty.
pub open spec fn cond_wf(c: FilterCondition) -> bool {
    c.field.segments@.len() > 0
}

/// Every condition in the tree is well formed.
pub open spec fn expr_wf(e: FilterExpr) -> bool
    decreases e,
{
    match e {
        FilterExpr::Condition(c) => cond_wf(c),
        FilterExpr::Binary { left, op, right } => expr_wf(*left) && expr_wf(*right),
    }
}

impl FilterExpr {
    /// Create a simple condition from a dot-separated field path.
    pub fn condition(field: &str, op: ComparisonOp, value: FilterValue) -> (r: Self)
        ensures
            (r matches FilterExpr::Condition(c) && c.op == op && c.value == value
                && path_view(c.field) == spec_split_dots(field@)),
            expr_wf(r),
    {
        FilterExpr::Condition(
            FilterCondition { field: FieldPath::parse(field), op, value },
        )
    }

    /// Combine two filters with AND, keeping this one on the left.
    pub fn and(self, other: FilterExpr) -> (r: Self)
        ensures
            (r matches FilterExpr::Binary { left, op, right } && *left == self && op
                == LogicalOp::And && *right == other),
    {
        FilterExpr::Binary { left: Box::new(self), op: LogicalOp::And, right: Box::new(other) }
    }

    /// Combine two filters with OR, keeping this one on the left.
    pub fn or(self, other: FilterExpr) -> (r: Self)
        ensures
            (r matches FilterExpr::Binary { left, op, right } && *left == self && op
                == LogicalOp::Or && *right == other),
    {
        FilterExpr::Binary { left: Box::new(self), op: LogicalOp::Or, right: Box::new(other) }
    }
}

} // verus!
