//! The query model: target entity, filter tree, eager-load paths, order-by clauses and limit/offset, built in builder style.
//! Validation is deferred to the compiler at translation time.

use vstd::prelude::*;
use vstd::string::StringExecFns;
use crate::filter::FilterExpr;
use crate::strutil::{split_dots, spec_split_dots};

verus! {

/// Sort direction of one order-by clause.
#[derive(Debug, Clone, PartialEq)]
pub enum SortDirection {
    Asc,
    Desc,
}

/// A single order-by clause.
#[derive(Debug, Clone, PartialEq)]
pub struct OrderByClause {
    pub field: String,
    pub direction: SortDirection,
}

/// An eager-load path: `orders` loads the orders of each
/// result row; `orders.items` loads the orders and then their items.
#[derive(Debug, Clone, PartialEq)]
pub struct IncludePath {
    pub path: Vec<String>,
}

/// The segment sequence of an eager-load path.
pub open spec fn include_view(p: IncludePath) -> Seq<Seq<char>> {
    p.path@.map_values(|s: String| s@)
}

impl IncludePath {
    /// Create an eager-load path from a dot-separated string.
    pub fn parse(path: &str) -> (r: Self)
        ensures
            include_view(r) == spec_split_dots(path@),
            r.path@.len() >= 1,
    {
        IncludePath { path: split_dots(path) }
    }
}

/// The complete query representation: what the compiler translates to SQL.
#[derive(Debug, Clone, PartialEq)]
pub struct Query {
    /// Target entity name, e.g. `User`.
    pub entity: String,
    /// Filter conditions, combined with AND at the top level.
    pub filters: Vec<FilterExpr>,
    /// Relations to eager-load.
    pub includes: Vec<IncludePath>,
    /// Order-by clauses.
    pub order_by: Vec<OrderByClause>,
    /// Maximum number of results.
    pub limit: Option<u64>,
    /// Number of results to skip.
    pub offset: Option<u64>,
}

impl Query {
    /// Create a new query targeting an entity.
    pub fn new(entity: &str) -> (r: Self)
        ensures
            r.entity@ == entity@,
            r.filters@ == Seq::<FilterExpr>::empty(),
            r.includes@ == Seq::<IncludePath>::empty(),
            r.order_by@ == Seq::<OrderByClause>::empty(),
            r.limit is None,
            r.offset is None,
    {
        Query {
            entity: String::from_str(entity),
            filters: Vec::new(),
            includes: Vec::new(),
            order_by: Vec::new(),
            limit: None,
            offset: None,
        }
    }

    /// Add a filter condition.
    pub fn filter(self, expr: FilterExpr) -> (r: Self)
        ensures
            r.filters@ == self.filters@.push(expr),
            r.entity == self.entity,
            r.includes == self.includes,
            r.order_by == self.order_by,
            r.limit == self.limit,
            r.offset == self.offset,
    {
        let mut q = self;
        q.filters.push(expr);
        q
    }

    /// Add an eager-load path, parsed from a dot-separated string.
    pub fn include_path(self, path: &str) -> (r: Self)
        ensures
            r.includes@.len() == self.includes@.len() + 1,
            r.includes@.take(self.includes@.len() as int) == self.includes@,
            include_view(r.includes@.last()) == spec_split_dots(path@),
            r.entity == self.entity,
            r.filters == self.filters,
            r.order_by == self.order_by,
            r.limit == self.limit,
            r.offset == self.offset,
    {
        let mut q = self;
        q.includes.push(IncludePath::parse(path));
        proof {
            assert(q.includes@.take(q.includes@.len() - 1) =~= self.includes@);
        }
        q
    }

    /// Add an order-by clause.
    pub fn order_by(self, field: &str, direction: SortDirection) -> (r: Self)
        ensures
            r.order_by@.len() == self.order_by@.len() + 1,
            r.order_by@.take(self.order_by@.len() as int) == self.order_by@,
            r.order_by@.last().field@ == field@,
            r.order_by@.last().direction == direction,
            r.entity == self.entity,
            r.filters == self.filters,
            r.includes == self.includes,
            r.limit == self.limit,
            r.offset == self.offset,
    {
        let mut q = self;
        q.order_by.push(OrderByClause { field: String::from_str(field), direction });
        proof {
            assert(q.order_by@.take(q.order_by@.len() - 1) =~= self.order_by@);
        }
        q
    }

    /// Set the limit.
    pub fn limit(self, n: u64) -> (r: Self)
        ensures
            r.limit == Some(n),
            r.entity == self.entity,
            r.filters == self.filters,
            r.includes == self.includes,
            r.order_by == self.order_by,
            r.offset == self.offset,
    {
        let mut q = self;
        q.limit = Some(n);
        q
    }

    /// Set the offset.
    pub fn offset(self, n: u64) -> (r: Self)
        ensures
            r.offset == Some(n),
            r.entity == self.entity,
            r.filters == self.filters,
            r.includes == self.includes,
            r.order_by == self.order_by,
            r.limit == self.limit,
    {
        let mut q = self;
        q.offset = Some(n);
        q
    }
}

} // verus!
