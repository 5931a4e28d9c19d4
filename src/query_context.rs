//! The state that the semantic pass keeps while it walks a parsed query.
use vstd::prelude::*;
use crate::ast::{AliasedResultExpr, ConversionError, Expression, OrderBy, Slice};
use crate::database::{ColumnRef, ColumnType, Identifier, TableRef};

verus! {

/// The map that a list of entries builds when each is inserted in turn; a later entry for a
/// name overrides an earlier one.
pub open spec fn map_of(entries: Seq<(Identifier, ColumnRef)>) -> Map<Identifier, ColumnRef>
    decreases entries.len(),
{
    if entries.len() == 0 {
        Map::empty()
    } else {
        map_of(entries.drop_last()).insert(entries.last().0, entries.last().1)
    }
}

/// The column that the first `len` entries map `c` to.
fn lookup_prefix(entries: &Vec<(Identifier, ColumnRef)>, len: usize, c: Identifier) -> (r: Option<ColumnRef>)
    requires
        len <= entries@.len(),
    ensures
        r == map_of(entries@.subrange(0, len as int)).get(c),
    decreases len,
{
    if len == 0 {
        return None;
    }
    assert(entries@.subrange(0, len as int).drop_last() =~= entries@.subrange(0, len - 1));
    if entries[len - 1].0 == c {
        Some(entries[len - 1].1)
    } else {
        lookup_prefix(entries, len - 1, c)
    }
}

/// The name is in the list.
fn contains_identifier(v: &Vec<Identifier>, c: Identifier) -> (r: bool)
    ensures
        r == v@.contains(c),
{
    let mut i: usize = 0;
    while i < v.len()
        invariant
            i <= v@.len(),
            forall|t: int| 0 <= t < i ==> v@[t] != c,
        decreases v@.len() - i,
    {
        if v[i] == c {
            return true;
        }
        i = i + 1;
    }
    false
}

/// The number of result expressions with alias `a`.
pub open spec fn alias_count(exprs: Seq<AliasedResultExpr>, a: Identifier) -> int
    decreases exprs.len(),
{
    if exprs.len() == 0 {
        0
    } else {
        alias_count(exprs.drop_last(), a) + if exprs.last().alias == a { 1int } else { 0int }
    }
}

/// The first result expression whose alias is shared, if any.
pub open spec fn first_duplicate(exprs: Seq<AliasedResultExpr>) -> Option<int> {
    if exists|i: int| 0 <= i < exprs.len() && alias_count(exprs, exprs[i].alias) != 1 {
        Some(choose|i: int| 0 <= i < exprs.len() && alias_count(exprs, exprs[i].alias) != 1
            && forall|t: int| 0 <= t < i ==> alias_count(exprs, exprs[t].alias) == 1)
    } else {
        None
    }
}

/// `a` is the alias of a result expression.
pub open spec fn is_alias(exprs: Seq<AliasedResultExpr>, a: Identifier) -> bool {
    exists|i: int| 0 <= i < exprs.len() && exprs[i].alias == a
}

#[derive(Debug)]
pub struct QueryContext {
    pub in_agg_scope: bool,
    pub agg_counter: usize,
    pub slice_expr: Option<Slice>,
    pub col_ref_counter: usize,
    pub table: Option<TableRef>,
    pub in_result_scope: bool,
    pub has_visited_group_by: bool,
    pub order_by_exprs: Vec<OrderBy>,
    pub fixed_col_ref_counter: usize,
    pub group_by_exprs: Vec<Identifier>,
    pub where_expr: Option<Box<Expression>>,
    pub result_column_set: Vec<Identifier>,
    pub res_aliased_exprs: Vec<AliasedResultExpr>,
    pub column_mapping: Vec<(Identifier, ColumnRef)>,
    pub first_result_col_out_agg_scope: Option<Identifier>,
}

impl QueryContext {
    /// The names of the columns that the result reads.
    pub open spec fn result_set(&self) -> Set<Identifier> {
        Set::new(|c: Identifier| self.result_column_set@.contains(c))
    }

    /// Which column each referenced name stands for.
    pub open spec fn mapping(&self) -> Map<Identifier, ColumnRef> {
        map_of(self.column_mapping@)
    }

    /// A context with nothing recorded.
    pub fn new() -> (r: QueryContext)
        ensures
            !r.in_agg_scope,
            r.agg_counter == 0,
            r.slice_expr.is_none(),
            r.col_ref_counter == 0,
            r.table.is_none(),
            !r.in_result_scope,
            !r.has_visited_group_by,
            r.order_by_exprs@.len() == 0,
            r.fixed_col_ref_counter == 0,
            r.group_by_exprs@.len() == 0,
            r.where_expr.is_none(),
            r.result_column_set@.len() == 0,
            r.res_aliased_exprs@.len() == 0,
            r.column_mapping@.len() == 0,
            r.first_result_col_out_agg_scope.is_none(),
    {
        QueryContext {
            in_agg_scope: false,
            agg_counter: 0,
            slice_expr: None,
            col_ref_counter: 0,
            table: None,
            in_result_scope: false,
            has_visited_group_by: false,
            order_by_exprs: Vec::new(),
            fixed_col_ref_counter: 0,
            group_by_exprs: Vec::new(),
            where_expr: None,
            result_column_set: Vec::new(),
            res_aliased_exprs: Vec::new(),
            column_mapping: Vec::new(),
            first_result_col_out_agg_scope: None,
        }
    }

    /// Records the table; it may be set once only.
    pub fn set_table_ref(&mut self, table: TableRef)
        requires
            old(self).table.is_none(),
        ensures
            *final(self) == (QueryContext { table: Some(table), ..*old(self) }),
    {
        self.table = Some(table);
    }

    pub fn get_table_ref(&self) -> (r: &TableRef)
        requires
            self.table.is_some(),
        ensures
            Some(*r) == self.table,
    {
        self.table.as_ref().unwrap()
    }

    pub fn set_where_expr(&mut self, where_expr: Option<Box<Expression>>)
        ensures
            *final(self) == (QueryContext { where_expr, ..*old(self) }),
    {
        self.where_expr = where_expr;
    }

    pub fn get_where_expr(&self) -> (r: &Option<Box<Expression>>)
        ensures
            *r == self.where_expr,
    {
        &self.where_expr
    }

    pub fn set_slice_expr(&mut self, slice_expr: Option<Slice>)
        ensures
            *final(self) == (QueryContext { slice_expr, ..*old(self) }),
    {
        self.slice_expr = slice_expr;
    }

    pub fn toggle_result_scope(&mut self)
        ensures
            *final(self) == (QueryContext { in_result_scope: !old(self).in_result_scope, ..*old(self) }),
    {
        self.in_result_scope = !self.in_result_scope;
    }

    pub fn is_in_result_scope(&self) -> (r: bool)
        ensures
            r == self.in_result_scope,
    {
        self.in_result_scope
    }

    pub fn is_in_agg_scope(&self) -> (r: bool)
        ensures
            r == self.in_agg_scope,
    {
        self.in_agg_scope
    }

    /// Fails when no column has been referenced since the counter was last fixed.
    pub fn check_col_ref_counter(&self) -> (r: Result<(), ConversionError>)
        ensures
            r == if self.col_ref_counter == self.fixed_col_ref_counter {
                Err(ConversionError::NoColumnReferenced)
            } else {
                Ok(())
            },
    {
        if self.col_ref_counter == self.fixed_col_ref_counter {
            return Err(ConversionError::NoColumnReferenced);
        }
        Ok(())
    }

    /// Enters (`true`) or leaves (`false`) an aggregation. Entering inside an aggregation
    /// fails; leaving one that referenced no column fails.
    pub fn set_in_agg_scope(&mut self, in_agg_scope: bool) -> (r: Result<(), ConversionError>)
        requires
            in_agg_scope || old(self).in_agg_scope,
            old(self).agg_counter < usize::MAX,
        ensures
            !in_agg_scope ==> *final(self) == (QueryContext { in_agg_scope: false, ..*old(self) })
                && r == if old(self).col_ref_counter == old(self).fixed_col_ref_counter {
                    Err(ConversionError::NoColumnReferenced)
                } else {
                    Ok(())
                },
            in_agg_scope && old(self).in_agg_scope ==> *final(self) == *old(self)
                && r == Err::<(), ConversionError>(ConversionError::NestedAggregation),
            in_agg_scope && !old(self).in_agg_scope ==> r == Ok::<(), ConversionError>(())
                && *final(self) == (QueryContext {
                    in_agg_scope: true,
                    agg_counter: (old(self).agg_counter + 1) as usize,
                    fixed_col_ref_counter: old(self).col_ref_counter,
                    ..*old(self)
                }),
    {
        if !in_agg_scope {
            self.in_agg_scope = false;
            return self.check_col_ref_counter();
        }
        if self.in_agg_scope {
            return Err(ConversionError::NestedAggregation);
        }
        self.agg_counter = self.agg_counter + 1;
        self.in_agg_scope = true;
        self.fixed_col_ref_counter = self.col_ref_counter;
        Ok(())
    }

    /// Records a reference to a column, under `column`, for the result and the mapping.
    pub fn push_column_ref(&mut self, column: Identifier, column_ref: ColumnRef)
        requires
            old(self).col_ref_counter < usize::MAX,
        ensures
            final(self).col_ref_counter == old(self).col_ref_counter + 1,
            final(self).mapping() == old(self).mapping().insert(column, column_ref),
            final(self).result_set() == if old(self).in_result_scope {
                old(self).result_set().insert(column)
            } else {
                old(self).result_set()
            },
            final(self).first_result_col_out_agg_scope == if old(self).in_result_scope && !old(self).in_agg_scope
                && old(self).first_result_col_out_agg_scope.is_none() {
                Some(column)
            } else {
                old(self).first_result_col_out_agg_scope
            },
            old(self).result_column_set@.no_duplicates() ==> final(self).result_column_set@.no_duplicates(),
            final(self).in_agg_scope == old(self).in_agg_scope,
            final(self).agg_counter == old(self).agg_counter,
            final(self).fixed_col_ref_counter == old(self).fixed_col_ref_counter,
            final(self).in_result_scope == old(self).in_result_scope,
            final(self).has_visited_group_by == old(self).has_visited_group_by,
            final(self).group_by_exprs == old(self).group_by_exprs,
            final(self).res_aliased_exprs == old(self).res_aliased_exprs,
            final(self).order_by_exprs == old(self).order_by_exprs,
            final(self).table == old(self).table,
            final(self).where_expr == old(self).where_expr,
            final(self).slice_expr == old(self).slice_expr,
    {
        self.col_ref_counter = self.col_ref_counter + 1;
        self.push_result_column_ref(column);
        let ghost before = self.column_mapping@;
        self.column_mapping.push((column, column_ref));
        assert(self.column_mapping@.drop_last() =~= before);
    }

    /// Adds `column` to the result set where the result is being read.
    fn push_result_column_ref(&mut self, column: Identifier)
        ensures
            final(self).result_set() == if old(self).in_result_scope {
                old(self).result_set().insert(column)
            } else {
                old(self).result_set()
            },
            old(self).result_column_set@.no_duplicates() ==> final(self).result_column_set@.no_duplicates(),
            final(self).first_result_col_out_agg_scope == if old(self).in_result_scope && !old(self).in_agg_scope
                && old(self).first_result_col_out_agg_scope.is_none() {
                Some(column)
            } else {
                old(self).first_result_col_out_agg_scope
            },
            *final(self) == (QueryContext {
                result_column_set: final(self).result_column_set,
                first_result_col_out_agg_scope: final(self).first_result_col_out_agg_scope,
                ..*old(self)
            }),
    {
        if self.is_in_result_scope() {
            self.insert_result_column(column);
            if !self.is_in_agg_scope() && self.first_result_col_out_agg_scope.is_none() {
                self.first_result_col_out_agg_scope = Some(column);
            }
        }
    }

    /// Adds `column` to the result set unless it is there.
    fn insert_result_column(&mut self, column: Identifier)
        ensures
            final(self).result_set() == old(self).result_set().insert(column),
            old(self).result_column_set@.no_duplicates() ==> final(self).result_column_set@.no_duplicates(),
            *final(self) == (QueryContext { result_column_set: final(self).result_column_set, ..*old(self) }),
    {
        let ghost before = self.result_column_set@;
        if !contains_identifier(&self.result_column_set, column) {
            self.result_column_set.push(column);
            assert(self.result_column_set@ == before.push(column));
            assert(self.result_column_set@[before.len() as int] == column);
            assert forall|x: Identifier| self.result_column_set@.contains(x) <==> before.contains(x) || x == column by {
                if self.result_column_set@.contains(x) && x != column {
                    let t = choose|t: int| 0 <= t < self.result_column_set@.len() && self.result_column_set@[t] == x;
                    assert(before[t] == x);
                }
                if before.contains(x) {
                    let t = choose|t: int| 0 <= t < before.len() && before[t] == x;
                    assert(self.result_column_set@[t] == x);
                }
            }
        }
        assert(self.result_set() =~= old(self).result_set().insert(column));
    }

    /// Records a result expression; it must reference a column. Group-by must come first.
    pub fn push_aliased_result_expr(&mut self, expr: AliasedResultExpr) -> (r: Result<(), ConversionError>)
        requires
            old(self).has_visited_group_by,
        ensures
            old(self).col_ref_counter == old(self).fixed_col_ref_counter ==> r == Err::<(), ConversionError>(
                ConversionError::NoColumnReferenced,
            ) && *final(self) == *old(self),
            old(self).col_ref_counter != old(self).fixed_col_ref_counter ==> r == Ok::<(), ConversionError>(())
                && final(self).res_aliased_exprs@ == old(self).res_aliased_exprs@.push(expr)
                && *final(self) == (QueryContext {
                    res_aliased_exprs: final(self).res_aliased_exprs,
                    fixed_col_ref_counter: old(self).col_ref_counter,
                    ..*old(self)
                }),
    {
        if self.col_ref_counter == self.fixed_col_ref_counter {
            return Err(ConversionError::NoColumnReferenced);
        }
        self.res_aliased_exprs.push(expr);
        self.fixed_col_ref_counter = self.col_ref_counter;
        Ok(())
    }

    /// Records the group-by columns; they join the result set.
    pub fn set_group_by_exprs(&mut self, exprs: Vec<Identifier>)
        ensures
            final(self).group_by_exprs == exprs,
            final(self).has_visited_group_by,
            final(self).result_set() == old(self).result_set() + Set::new(|c: Identifier| exprs@.contains(c)),
            old(self).result_column_set@.no_duplicates() ==> final(self).result_column_set@.no_duplicates(),
            *final(self) == (QueryContext {
                group_by_exprs: exprs,
                has_visited_group_by: true,
                result_column_set: final(self).result_column_set,
                ..*old(self)
            }),
    {
        self.group_by_exprs = exprs;
        let mut i: usize = 0;
        while i < self.group_by_exprs.len()
            invariant
                i <= self.group_by_exprs@.len(),
                self.group_by_exprs == exprs,
                self.result_set() == old(self).result_set() + Set::new(|c: Identifier| exprs@.subrange(0, i as int).contains(c)),
                old(self).result_column_set@.no_duplicates() ==> self.result_column_set@.no_duplicates(),
                *self == (QueryContext { group_by_exprs: exprs, result_column_set: self.result_column_set, ..*old(self) }),
            decreases self.group_by_exprs@.len() - i,
        {
            let c = self.group_by_exprs[i];
            self.insert_result_column(c);
            i = i + 1;
            let ghost prev = exprs@.subrange(0, i - 1);
            let ghost cur = exprs@.subrange(0, i as int);
            assert(cur =~= prev.push(c));
            assert forall|x: Identifier| cur.contains(x) <==> prev.contains(x) || x == c by {
                if cur.contains(x) && x != c {
                    let t = choose|t: int| 0 <= t < cur.len() && cur[t] == x;
                    assert(prev[t] == x);
                }
                if prev.contains(x) {
                    let t = choose|t: int| 0 <= t < prev.len() && prev[t] == x;
                    assert(cur[t] == x);
                }
                if x == c {
                    assert(cur[i - 1] == x);
                }
            }
            assert(self.result_set() =~= old(self).result_set() + Set::new(|c: Identifier| cur.contains(c)));
        }
        assert(exprs@.subrange(0, i as int) =~= exprs@);
        self.has_visited_group_by = true;
    }

    pub fn set_order_by_exprs(&mut self, order_by_exprs: Vec<OrderBy>)
        ensures
            *final(self) == (QueryContext { order_by_exprs, ..*old(self) }),
    {
        self.order_by_exprs = order_by_exprs;
    }

    pub fn get_slice_expr(&self) -> (r: &Option<Slice>)
        ensures
            *r == self.slice_expr,
    {
        &self.slice_expr
    }

    pub fn get_group_by_exprs(&self) -> (r: &Vec<Identifier>)
        ensures
            *r == self.group_by_exprs,
    {
        &self.group_by_exprs
    }

    /// The names the result reads, each once.
    pub fn get_result_column_set(&self) -> (r: Vec<Identifier>)
        ensures
            r@ == self.result_column_set@,
            Set::new(|c: Identifier| r@.contains(c)) == self.result_set(),
    {
        let mut r: Vec<Identifier> = Vec::new();
        let mut i: usize = 0;
        while i < self.result_column_set.len()
            invariant
                i <= self.result_column_set@.len(),
                r@ == self.result_column_set@.subrange(0, i as int),
            decreases self.result_column_set@.len() - i,
        {
            r.push(self.result_column_set[i]);
            i = i + 1;
            assert(r@ =~= self.result_column_set@.subrange(0, i as int));
        }
        assert(r@ =~= self.result_column_set@);
        r
    }

    /// The entries of the mapping in the order they were made; a later entry for a name
    /// overrides an earlier one.
    pub fn get_column_mapping(&self) -> (r: Vec<(Identifier, ColumnRef)>)
        ensures
            r@ == self.column_mapping@,
            map_of(r@) == self.mapping(),
    {
        let mut r: Vec<(Identifier, ColumnRef)> = Vec::new();
        let mut i: usize = 0;
        while i < self.column_mapping.len()
            invariant
                i <= self.column_mapping@.len(),
                r@ == self.column_mapping@.subrange(0, i as int),
            decreases self.column_mapping@.len() - i,
        {
            r.push(self.column_mapping[i]);
            i = i + 1;
            assert(r@ =~= self.column_mapping@.subrange(0, i as int));
        }
        assert(r@ =~= self.column_mapping@);
        r
    }

    /// The column a name stands for.
    pub fn get_column(&self, c: Identifier) -> (r: Option<ColumnRef>)
        ensures
            r == self.mapping().get(c),
    {
        assert(self.column_mapping@.subrange(0, self.column_mapping@.len() as int) =~= self.column_mapping@);
        lookup_prefix(&self.column_mapping, self.column_mapping.len(), c)
    }

    /// Where a name stands outside an aggregation in the result of a grouped query, it must be
    /// grouped by: `Ok(true)` if it is, an error if not. `Ok(false)` elsewhere.
    pub fn is_in_group_by_exprs(&self, column: &Identifier) -> (r: Result<bool, ConversionError>)
        ensures
            r == if self.group_by_exprs@.len() == 0 || self.in_agg_scope || !self.in_result_scope {
                Ok(false)
            } else if self.group_by_exprs@.contains(*column) {
                Ok(true)
            } else {
                Err(ConversionError::InvalidGroupByColumnRef(*column))
            },
    {
        if self.group_by_exprs.len() == 0 || self.is_in_agg_scope() || !self.is_in_result_scope() {
            return Ok(false);
        }
        if contains_identifier(&self.group_by_exprs, *column) {
            Ok(true)
        } else {
            Err(ConversionError::InvalidGroupByColumnRef(*column))
        }
    }

    /// The result expressions, once each alias is known to be unique and, in a query with
    /// aggregations and no group-by, no column stands outside an aggregation.
    pub fn get_aliased_result_exprs(&self) -> (r: Result<&Vec<AliasedResultExpr>, ConversionError>)
        requires
            self.res_aliased_exprs@.len() > 0,
        ensures
            match first_duplicate(self.res_aliased_exprs@) {
                Some(i) => r == Err::<&Vec<AliasedResultExpr>, ConversionError>(
                    ConversionError::DuplicateResultAlias(self.res_aliased_exprs@[i].alias),
                ),
                None => if self.group_by_exprs@.len() == 0 && self.agg_counter > 0
                    && self.first_result_col_out_agg_scope.is_some() {
                    r == Err::<&Vec<AliasedResultExpr>, ConversionError>(
                        ConversionError::InvalidGroupByColumnRef(self.first_result_col_out_agg_scope.unwrap()),
                    )
                } else {
                    r == Ok::<&Vec<AliasedResultExpr>, ConversionError>(&self.res_aliased_exprs)
                },
            },
    {
        let mut i: usize = 0;
        while i < self.res_aliased_exprs.len()
            invariant
                i <= self.res_aliased_exprs@.len(),
                forall|t: int| 0 <= t < i ==> alias_count(self.res_aliased_exprs@, #[trigger] self.res_aliased_exprs@[t].alias) == 1,
            decreases self.res_aliased_exprs@.len() - i,
        {
            let a = self.res_aliased_exprs[i].alias;
            let mut count: u64 = 0;
            let mut j: usize = 0;
            while j < self.res_aliased_exprs.len()
                invariant
                    j <= self.res_aliased_exprs@.len(),
                    count == alias_count(self.res_aliased_exprs@.subrange(0, j as int), a),
                    count <= j,
                decreases self.res_aliased_exprs@.len() - j,
            {
                assert(self.res_aliased_exprs@.subrange(0, j + 1).drop_last() =~= self.res_aliased_exprs@.subrange(0, j as int));
                if self.res_aliased_exprs[j].alias == a {
                    count = count + 1;
                }
                j = j + 1;
            }
            assert(self.res_aliased_exprs@.subrange(0, j as int) =~= self.res_aliased_exprs@);
            if count != 1 {
                proof {
                    let ii = i as int;
                    assert(alias_count(self.res_aliased_exprs@, self.res_aliased_exprs@[ii].alias) != 1);
                    assert(0 <= ii < self.res_aliased_exprs@.len() && alias_count(self.res_aliased_exprs@, self.res_aliased_exprs@[ii].alias) != 1
                        && forall|t: int| 0 <= t < ii ==> alias_count(self.res_aliased_exprs@, self.res_aliased_exprs@[t].alias) == 1);
                    let k = choose|k: int| 0 <= k < self.res_aliased_exprs@.len() && alias_count(self.res_aliased_exprs@, self.res_aliased_exprs@[k].alias) != 1
                        && forall|t: int| 0 <= t < k ==> alias_count(self.res_aliased_exprs@, self.res_aliased_exprs@[t].alias) == 1;
                    if k > ii {
                        assert(alias_count(self.res_aliased_exprs@, self.res_aliased_exprs@[ii].alias) == 1);
                    }
                    if k < ii {
                        assert(alias_count(self.res_aliased_exprs@, self.res_aliased_exprs@[k].alias) == 1);
                    }
                    assert(k == ii);
                    assert(first_duplicate(self.res_aliased_exprs@) == Some(ii));
                }
                return Err(ConversionError::DuplicateResultAlias(a));
            }
            i = i + 1;
        }
        if self.group_by_exprs.len() == 0 && self.agg_counter > 0 && self.first_result_col_out_agg_scope.is_some() {
            return Err(ConversionError::InvalidGroupByColumnRef(self.first_result_col_out_agg_scope.unwrap()));
        }
        Ok(&self.res_aliased_exprs)
    }

    /// The order-by keys, once each is known to be a result alias; else the first that is not.
    pub fn get_order_by_exprs(&self) -> (r: Result<Vec<OrderBy>, ConversionError>)
        ensures
            (forall|i: int| 0 <= i < self.order_by_exprs@.len()
                ==> is_alias(self.res_aliased_exprs@, #[trigger] self.order_by_exprs@[i].expr))
                ==> (r matches Ok(v) && v@ == self.order_by_exprs@),
            forall|i: int| 0 <= i < self.order_by_exprs@.len()
                && !is_alias(self.res_aliased_exprs@, self.order_by_exprs@[i].expr)
                && (forall|t: int| 0 <= t < i ==> is_alias(self.res_aliased_exprs@, #[trigger] self.order_by_exprs@[t].expr))
                ==> r == Err::<Vec<OrderBy>, ConversionError>(ConversionError::InvalidOrderBy(self.order_by_exprs@[i].expr)),
    {
        let mut out: Vec<OrderBy> = Vec::new();
        let mut i: usize = 0;
        while i < self.order_by_exprs.len()
            invariant
                i <= self.order_by_exprs@.len(),
                out@ == self.order_by_exprs@.subrange(0, i as int),
                forall|t: int| 0 <= t < i ==> is_alias(self.res_aliased_exprs@, #[trigger] self.order_by_exprs@[t].expr),
            decreases self.order_by_exprs@.len() - i,
        {
            let by_expr = self.order_by_exprs[i];
            let mut found: bool = false;
            let mut j: usize = 0;
            while j < self.res_aliased_exprs.len() && !found
                invariant
                    j <= self.res_aliased_exprs@.len(),
                    found ==> is_alias(self.res_aliased_exprs@, by_expr.expr),
                    !found ==> forall|t: int| 0 <= t < j ==> self.res_aliased_exprs@[t].alias != by_expr.expr,
                decreases self.res_aliased_exprs@.len() - j + if found { 0int } else { 1int },
            {
                if self.res_aliased_exprs[j].alias == by_expr.expr {
                    found = true;
                } else {
                    j = j + 1;
                }
            }
            if !found {
                return Err(ConversionError::InvalidOrderBy(by_expr.expr));
            }
            out.push(by_expr);
            i = i + 1;
            assert(out@ =~= self.order_by_exprs@.subrange(0, i as int));
        }
        assert(out@ =~= self.order_by_exprs@);
        Ok(out)
    }

    /// The result name with the smallest identifier, with the name and type of its column.
    pub fn get_any_result_column_ref(&self) -> (r: Option<(Identifier, ColumnType)>)
        requires
            forall|c: Identifier| #[trigger] self.result_column_set@.contains(c)
                && (forall|x: Identifier| self.result_column_set@.contains(x) ==> c.id <= x.id)
                ==> self.mapping().contains_key(c),
        ensures
            self.result_column_set@.len() == 0 <==> r.is_none(),
            r.is_some() ==> exists|c: Identifier| #[trigger] self.result_column_set@.contains(c)
                && (forall|x: Identifier| self.result_column_set@.contains(x) ==> c.id <= x.id)
                && r == Some((self.mapping()[c].column_id, self.mapping()[c].column_type)),
    {
        let v = &self.result_column_set;
        if v.len() == 0 {
            return None;
        }
        let mut best: Identifier = v[0];
        let mut i: usize = 1;
        while i < v.len()
            invariant
                1 <= i <= v@.len(),
                v@.contains(best),
                forall|t: int| 0 <= t < i ==> best.id <= (#[trigger] v@[t]).id,
            decreases v@.len() - i,
        {
            if v[i].id < best.id {
                best = v[i];
            }
            i = i + 1;
        }
        assert forall|x: Identifier| v@.contains(x) implies best.id <= x.id by {
            let t = choose|t: int| 0 <= t < v@.len() && v@[t] == x;
            assert(best.id <= v@[t].id);
        }
        let column = self.get_column(best);
        match column {
            Some(column) => Some((column.column_id(), column.column_type())),
            None => None,
        }
    }
}

impl Default for QueryContext {
    fn default() -> (r: QueryContext)
        ensures
            !r.in_agg_scope,
            r.agg_counter == 0,
            r.slice_expr.is_none(),
            r.col_ref_counter == 0,
            r.table.is_none(),
            !r.in_result_scope,
            !r.has_visited_group_by,
            r.order_by_exprs@.len() == 0,
            r.fixed_col_ref_counter == 0,
            r.group_by_exprs@.len() == 0,
            r.where_expr.is_none(),
            r.result_column_set@.len() == 0,
            r.res_aliased_exprs@.len() == 0,
            r.column_mapping@.len() == 0,
            r.first_result_col_out_agg_scope.is_none(),
    {
        QueryContext::new()
    }
}

} // verus!
