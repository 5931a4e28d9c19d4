//! The parsed pieces of a query that the semantic pass records.
use vstd::prelude::*;
use crate::database::Identifier;

verus! {

#[derive(Clone, Copy, PartialEq, Eq, Structural, Debug)]
pub enum AggregationOperator {
    Max,
    Min,
    Sum,
    Count,
    First,
}

/// An expression of a parsed query.
#[derive(Debug)]
pub enum Expression {
    Literal(i64),
    Column(Identifier),
    Aggregation { op: AggregationOperator, expr: Box<Expression> },
}

/// An expression of the result list with its alias.
#[derive(Debug)]
pub struct AliasedResultExpr {
    pub expr: Box<Expression>,
    pub alias: Identifier,
}

#[derive(Clone, Copy, PartialEq, Eq, Structural, Debug)]
pub enum OrderByDirection {
    Asc,
    Desc,
}

/// One key of an `ORDER BY` clause: a result alias and a direction.
#[derive(Clone, Copy, PartialEq, Eq, Structural, Debug)]
pub struct OrderBy {
    pub expr: Identifier,
    pub direction: OrderByDirection,
}

/// A `LIMIT` / `OFFSET` clause.
#[derive(Clone, Copy, PartialEq, Eq, Structural, Debug)]
pub struct Slice {
    pub number_rows: u64,
    pub offset_value: i64,
}

/// Why a query cannot be lowered.
#[derive(Clone, Copy, PartialEq, Eq, Structural, Debug)]
pub enum ConversionError {
    /// An aggregation inside an aggregation.
    NestedAggregation,
    /// A result expression, or an aggregation, that references no column.
    NoColumnReferenced,
    /// A column outside aggregations that is not grouped by.
    InvalidGroupByColumnRef(Identifier),
    /// Two result expressions with one alias.
    DuplicateResultAlias(Identifier),
    /// An `ORDER BY` key that is not a result alias.
    InvalidOrderBy(Identifier),
}

} // verus!
