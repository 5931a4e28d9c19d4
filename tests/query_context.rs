use proof_of_sql::ast::{AggregationOperator, AliasedResultExpr, ConversionError, Expression, OrderBy, OrderByDirection, Slice};
use proof_of_sql::database::{ColumnRef, ColumnType, Identifier, TableRef};
use proof_of_sql::query_context::QueryContext;

fn id(v: u64) -> Identifier {
    Identifier::new(v)
}

fn cref(v: u64) -> ColumnRef {
    ColumnRef::new(TableRef::new(1), id(v), ColumnType::BigInt)
}

fn aliased(alias: u64) -> AliasedResultExpr {
    AliasedResultExpr { expr: Box::new(Expression::Column(id(alias))), alias: id(alias) }
}

#[test]
fn nested_aggregation_is_rejected() {
    let mut ctx = QueryContext::default();
    assert_eq!(ctx.set_in_agg_scope(true), Ok(()));
    assert_eq!(ctx.agg_counter, 1);
    assert_eq!(ctx.set_in_agg_scope(true), Err(ConversionError::NestedAggregation));
    assert_eq!(ctx.set_in_agg_scope(false), Err(ConversionError::NoColumnReferenced));
}

#[test]
fn aggregation_must_reference_a_column() {
    let mut ctx = QueryContext::new();
    ctx.set_in_agg_scope(true).unwrap();
    ctx.push_column_ref(id(1), cref(1));
    assert_eq!(ctx.set_in_agg_scope(false), Ok(()));
    assert!(!ctx.is_in_agg_scope());
}

#[test]
fn result_expressions_and_aliases() {
    let mut ctx = QueryContext::new();
    ctx.set_group_by_exprs(vec![id(1)]);
    assert_eq!(ctx.push_aliased_result_expr(aliased(5)), Err(ConversionError::NoColumnReferenced));
    ctx.toggle_result_scope();
    assert!(ctx.is_in_result_scope());
    ctx.push_column_ref(id(1), cref(1));
    assert_eq!(ctx.push_aliased_result_expr(aliased(5)), Ok(()));
    assert_eq!(ctx.get_aliased_result_exprs().map(|v| v.len()), Ok(1));
    ctx.push_column_ref(id(2), cref(2));
    assert_eq!(ctx.push_aliased_result_expr(aliased(5)), Ok(()));
    assert_eq!(ctx.get_aliased_result_exprs().map(|v| v.len()), Err(ConversionError::DuplicateResultAlias(id(5))));
}

#[test]
fn ungrouped_column_outside_aggregation() {
    let mut ctx = QueryContext::new();
    ctx.set_group_by_exprs(vec![]);
    ctx.toggle_result_scope();
    ctx.push_column_ref(id(3), cref(3));
    ctx.push_aliased_result_expr(aliased(6)).unwrap();
    ctx.set_in_agg_scope(true).unwrap();
    ctx.push_column_ref(id(4), cref(4));
    ctx.set_in_agg_scope(false).unwrap();
    ctx.push_aliased_result_expr(aliased(7)).unwrap();
    assert_eq!(ctx.get_aliased_result_exprs().map(|v| v.len()), Err(ConversionError::InvalidGroupByColumnRef(id(3))));
}

#[test]
fn group_by_membership() {
    let mut ctx = QueryContext::new();
    assert_eq!(ctx.is_in_group_by_exprs(&id(1)), Ok(false));
    ctx.set_group_by_exprs(vec![id(1), id(2)]);
    assert_eq!(ctx.get_group_by_exprs(), &vec![id(1), id(2)]);
    assert_eq!(ctx.is_in_group_by_exprs(&id(1)), Ok(false));
    ctx.toggle_result_scope();
    assert_eq!(ctx.is_in_group_by_exprs(&id(2)), Ok(true));
    assert_eq!(ctx.is_in_group_by_exprs(&id(3)), Err(ConversionError::InvalidGroupByColumnRef(id(3))));
    assert_eq!(ctx.get_result_column_set(), vec![id(1), id(2)]);
}

#[test]
fn order_by_must_name_an_alias() {
    let mut ctx = QueryContext::new();
    ctx.set_group_by_exprs(vec![]);
    ctx.push_column_ref(id(1), cref(1));
    ctx.push_aliased_result_expr(aliased(5)).unwrap();
    let asc = |v: u64| OrderBy { expr: id(v), direction: OrderByDirection::Asc };
    ctx.set_order_by_exprs(vec![asc(5)]);
    assert_eq!(ctx.get_order_by_exprs(), Ok(vec![asc(5)]));
    ctx.set_order_by_exprs(vec![asc(5), asc(8), asc(9)]);
    assert_eq!(ctx.get_order_by_exprs(), Err(ConversionError::InvalidOrderBy(id(8))));
}

#[test]
fn smallest_result_column_and_mapping() {
    let mut ctx = QueryContext::new();
    assert_eq!(ctx.get_any_result_column_ref(), None);
    ctx.toggle_result_scope();
    ctx.push_column_ref(id(7), cref(7));
    ctx.push_column_ref(id(3), ColumnRef::new(TableRef::new(1), id(3), ColumnType::Int128));
    ctx.push_column_ref(id(3), cref(3));
    assert_eq!(ctx.get_any_result_column_ref(), Some((id(3), ColumnType::BigInt)));
    assert_eq!(ctx.get_column(id(3)), Some(cref(3)));
    assert_eq!(ctx.get_column(id(4)), None);
    assert_eq!(ctx.get_column_mapping().len(), 3);
    assert_eq!(ctx.get_result_column_set(), vec![id(7), id(3)]);
    assert_eq!(ctx.first_result_col_out_agg_scope, Some(id(7)));
}

#[test]
fn table_where_and_slice() {
    let mut ctx = QueryContext::new();
    ctx.set_table_ref(TableRef::new(4));
    assert_eq!(*ctx.get_table_ref(), TableRef::new(4));
    ctx.set_where_expr(Some(Box::new(Expression::Aggregation {
        op: AggregationOperator::Sum,
        expr: Box::new(Expression::Literal(1)),
    })));
    assert!(ctx.get_where_expr().is_some());
    let slice = Slice { number_rows: 10, offset_value: 2 };
    ctx.set_slice_expr(Some(slice));
    assert_eq!(*ctx.get_slice_expr(), Some(slice));
}
