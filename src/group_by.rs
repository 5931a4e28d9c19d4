//! The group-by node: selection, then sums and a count per distinct key tuple.
use vstd::prelude::*;
use crate::aggregate::{
    aggregate_columns, aggregates, lemma_aggregation_unique, lemma_grouping_same_views, AggregatedColumns,
};
use crate::builders::{
    CountBuilder, Indexes, ProofBuilder, ProofError, ResultBuilder, VerificationBuilder,
};
use crate::database::{ColumnField, ColumnRef, ColumnType, Identifier, TableData, TableRef};
use crate::fold::{column_wf, columns_wf, row_of};
use crate::proof_expr::ProofExpr;
use crate::protocol::{count_column, group_by_evaluations, proves_group_by, prove_group_by, verify_group_by};
use crate::scalar::{fmod, Scalar};

verus! {

/// A reference to one column of the input table.
#[derive(Clone, Copy, PartialEq, Eq, Structural, Debug)]
pub struct ColumnExpr {
    pub column_ref: ColumnRef,
}

impl ColumnExpr {
    pub fn new(column_ref: ColumnRef) -> (r: ColumnExpr)
        ensures
            r.column_ref == column_ref,
    {
        ColumnExpr { column_ref }
    }

    pub fn get_column_reference(&self) -> (r: ColumnRef)
        ensures
            r == self.column_ref,
    {
        self.column_ref
    }

    pub open spec fn field(&self) -> ColumnField {
        ColumnField { name: self.column_ref.column_id, data_type: self.column_ref.column_type }
    }

    /// The result field of the column: its name and type.
    pub fn get_column_field(&self) -> (r: ColumnField)
        ensures
            r == self.field(),
    {
        ColumnField::new(self.column_ref.column_id, self.column_ref.column_type)
    }
}

/// The table a query reads.
#[derive(Clone, Copy, PartialEq, Eq, Structural, Debug)]
pub struct TableExpr {
    pub table_ref: TableRef,
}

/// The selection of a query: a constant, or a boolean column of the input table.
#[derive(Clone, Copy, PartialEq, Eq, Structural, Debug)]
pub enum ProvableExprPlan {
    Literal(bool),
    Column(ColumnRef),
}

impl ProvableExprPlan {
    pub fn new_literal(b: bool) -> (r: ProvableExprPlan)
        ensures
            r == ProvableExprPlan::Literal(b),
    {
        ProvableExprPlan::Literal(b)
    }

    /// The number of committed column evaluations the selection reads.
    pub open spec fn anchored(&self) -> nat {
        match self {
            ProvableExprPlan::Literal(_) => 0,
            ProvableExprPlan::Column(_) => 1,
        }
    }

    pub open spec fn ready(&self, data: &TableData) -> bool {
        match self {
            ProvableExprPlan::Literal(_) => true,
            ProvableExprPlan::Column(c) => data.has_boolean_column(*c),
        }
    }

    /// The selection flag of each row.
    pub open spec fn selection(&self, data: &TableData) -> Seq<bool> {
        match self {
            ProvableExprPlan::Literal(b) => Seq::new(data.length as nat, |i: int| *b),
            ProvableExprPlan::Column(c) => data.boolean_column(*c),
        }
    }

    /// The selection's evaluation at the verifier's point.
    pub open spec fn evaluation(&self, b: &VerificationBuilder) -> int {
        match self {
            ProvableExprPlan::Literal(v) => if *v { b.one_evaluation.val() } else { 0 },
            ProvableExprPlan::Column(_) => b.column_evaluations.values@[b.column_evaluations.next as int].val(),
        }
    }

    pub fn count(&self, builder: &mut CountBuilder)
        requires
            old(builder).anchored_mles + self.anchored() <= usize::MAX,
        ensures
            *final(builder) == (CountBuilder {
                anchored_mles: (old(builder).anchored_mles + self.anchored()) as usize,
                ..*old(builder)
            }),
    {
        match self {
            ProvableExprPlan::Literal(_) => {},
            ProvableExprPlan::Column(_) => builder.count_anchored_mles(1),
        }
    }

    pub fn result_evaluate(&self, data: &TableData) -> (r: Vec<bool>)
        requires
            self.ready(data),
        ensures
            r@ == self.selection(data),
    {
        match self {
            ProvableExprPlan::Literal(b) => {
                let mut r: Vec<bool> = Vec::new();
                let mut i: usize = 0;
                while i < data.length
                    invariant
                        i <= data.length,
                        r@ == Seq::new(i as nat, |t: int| *b),
                    decreases data.length - i,
                {
                    r.push(*b);
                    i = i + 1;
                    assert(r@ =~= Seq::new(i as nat, |t: int| *b));
                }
                r
            },
            ProvableExprPlan::Column(c) => data.get_boolean_column(c),
        }
    }

    pub fn verifier_evaluate(&self, builder: &mut VerificationBuilder) -> (r: Scalar)
        requires
            old(builder).wf(),
            old(builder).column_evaluations.remaining() >= self.anchored(),
        ensures
            final(builder).wf(),
            r.wf(),
            r.val() == self.evaluation(old(builder)),
            final(builder).same_context(old(builder)),
            final(builder).column_evaluations.values == old(builder).column_evaluations.values,
            final(builder).column_evaluations.next == old(builder).column_evaluations.next + self.anchored(),
            final(builder).result_evaluations == old(builder).result_evaluations,
            final(builder).intermediate_evaluations == old(builder).intermediate_evaluations,
            final(builder).post_result_challenges == old(builder).post_result_challenges,
            final(builder).subpolynomial_evaluations == old(builder).subpolynomial_evaluations,
    {
        match self {
            ProvableExprPlan::Literal(v) => if *v {
                builder.one_evaluation
            } else {
                Scalar::zero()
            },
            ProvableExprPlan::Column(_) => builder.consume_column_evaluation(),
        }
    }
}

/// The columns of `refs` as stored in `data`.
pub open spec fn columns_match(cols: Seq<Vec<Scalar>>, data: &TableData, refs: Seq<ColumnRef>) -> bool {
    &&& cols.len() == refs.len()
    &&& forall|j: int| 0 <= j < refs.len() ==> (#[trigger] cols[j])@ == data.scalar_column(refs[j])
}

/// The field-element columns under `refs`.
fn fetch_columns(data: &TableData, refs: &Vec<ColumnRef>) -> (r: Vec<Vec<Scalar>>)
    requires
        forall|j: int| 0 <= j < refs@.len() ==> data.has_scalar_column(#[trigger] refs@[j]),
    ensures
        columns_match(r@, data, refs@),
{
    let mut r: Vec<Vec<Scalar>> = Vec::new();
    let mut j: usize = 0;
    while j < refs.len()
        invariant
            j <= refs@.len(),
            forall|j: int| 0 <= j < refs@.len() ==> data.has_scalar_column(#[trigger] refs@[j]),
            r@.len() == j,
            forall|t: int| 0 <= t < j ==> (#[trigger] r@[t])@ == data.scalar_column(refs@[t]),
        decreases refs@.len() - j,
    {
        r.push(data.get_scalar_column(&refs[j]));
        j = j + 1;
    }
    r
}

/// Provable expression for queries of the form
/// `SELECT g1, .., gM, SUM(s1) AS a1, .., SUM(sN) AS aN, COUNT(*) AS count_alias
/// FROM table WHERE where_clause GROUP BY g1, .., gM`.
/// With no group-by columns, all selected rows form one group.
///
/// The argument does not show that the output keys are pairwise distinct: where this node is
/// the root of a query, the caller checks the returned groups for that.
pub struct GroupByExpr {
    pub group_by_exprs: Vec<ColumnExpr>,
    pub sum_expr: Vec<(ColumnExpr, ColumnField)>,
    pub count_alias: Identifier,
    pub table: TableExpr,
    pub where_clause: ProvableExprPlan,
}

impl GroupByExpr {
    /// Creates a new group-by expression.
    pub fn new(
        group_by_exprs: Vec<ColumnExpr>,
        sum_expr: Vec<(ColumnExpr, ColumnField)>,
        count_alias: Identifier,
        table: TableExpr,
        where_clause: ProvableExprPlan,
    ) -> (r: Self)
        ensures
            r.group_by_exprs == group_by_exprs,
            r.sum_expr == sum_expr,
            r.count_alias == count_alias,
            r.table == table,
            r.where_clause == where_clause,
    {
        GroupByExpr { group_by_exprs, sum_expr, table, count_alias, where_clause }
    }

    pub open spec fn group_refs(&self) -> Seq<ColumnRef> {
        self.group_by_exprs@.map_values(|e: ColumnExpr| e.column_ref)
    }

    pub open spec fn sum_refs(&self) -> Seq<ColumnRef> {
        self.sum_expr@.map_values(|e: (ColumnExpr, ColumnField)| e.0.column_ref)
    }

    /// Result columns: one per key, one per sum, and the count.
    pub open spec fn num_result_columns(&self) -> int {
        (self.group_by_exprs@.len() + self.sum_expr@.len() + 1) as int
    }

    /// Committed column evaluations read: one per key and sum column, and the selection's.
    pub open spec fn num_anchored(&self) -> int {
        (self.group_by_exprs@.len() + self.sum_expr@.len() + self.where_clause.anchored()) as int
    }

    /// What the count pass declares.
    pub open spec fn counted(&self, old_b: CountBuilder, new_b: CountBuilder) -> bool {
        &&& new_b.anchored_mles == old_b.anchored_mles + self.num_anchored()
        &&& new_b.result_columns == old_b.result_columns + self.num_result_columns()
        &&& new_b.intermediate_mles == old_b.intermediate_mles + 2
        &&& new_b.subpolynomials == old_b.subpolynomials + 3
        &&& new_b.degree == if old_b.degree > 3 { old_b.degree } else { 3 }
        &&& new_b.post_result_challenges == old_b.post_result_challenges + 2
    }

    /// Declares the resources of the later passes.
    pub fn count(&self, builder: &mut CountBuilder)
        requires
            old(builder).anchored_mles + self.num_anchored() <= usize::MAX,
            old(builder).result_columns + self.num_result_columns() <= usize::MAX,
            old(builder).intermediate_mles + 2 <= usize::MAX,
            old(builder).subpolynomials + 3 <= usize::MAX,
            old(builder).post_result_challenges + 2 <= usize::MAX,
        ensures
            self.counted(*old(builder), *final(builder)),
    {
        self.where_clause.count(builder);
        let mut j: usize = 0;
        while j < self.group_by_exprs.len()
            invariant
                j <= self.group_by_exprs@.len(),
                builder.anchored_mles == old(builder).anchored_mles + self.where_clause.anchored() + j,
                builder.result_columns == old(builder).result_columns + j,
                builder.intermediate_mles == old(builder).intermediate_mles,
                builder.subpolynomials == old(builder).subpolynomials,
                builder.degree == old(builder).degree,
                builder.post_result_challenges == old(builder).post_result_challenges,
                old(builder).anchored_mles + self.num_anchored() <= usize::MAX,
                old(builder).result_columns + self.num_result_columns() <= usize::MAX,
            decreases self.group_by_exprs@.len() - j,
        {
            builder.count_anchored_mles(1);
            builder.count_result_columns(1);
            j = j + 1;
        }
        let mut j: usize = 0;
        while j < self.sum_expr.len()
            invariant
                j <= self.sum_expr@.len(),
                builder.anchored_mles == old(builder).anchored_mles + self.where_clause.anchored()
                    + self.group_by_exprs@.len() + j,
                builder.result_columns == old(builder).result_columns + self.group_by_exprs@.len() + j,
                builder.intermediate_mles == old(builder).intermediate_mles,
                builder.subpolynomials == old(builder).subpolynomials,
                builder.degree == old(builder).degree,
                builder.post_result_challenges == old(builder).post_result_challenges,
                old(builder).anchored_mles + self.num_anchored() <= usize::MAX,
                old(builder).result_columns + self.num_result_columns() <= usize::MAX,
            decreases self.sum_expr@.len() - j,
        {
            builder.count_anchored_mles(1);
            builder.count_result_columns(1);
            j = j + 1;
        }
        builder.count_result_columns(1);
        builder.count_intermediate_mles(2);
        builder.count_subpolynomials(3);
        builder.count_degree(3);
        builder.count_post_result_challenges(2);
    }

    pub open spec fn result_fields(&self) -> Seq<ColumnField> {
        self.group_by_exprs@.map_values(|e: ColumnExpr| e.field())
            + self.sum_expr@.map_values(|e: (ColumnExpr, ColumnField)| e.1)
            + seq![ColumnField { name: self.count_alias, data_type: ColumnType::BigInt }]
    }

    /// The selection's column, if it reads one.
    pub open spec fn where_refs(&self) -> Seq<ColumnRef> {
        match self.where_clause {
            ProvableExprPlan::Column(c) => seq![c],
            ProvableExprPlan::Literal(_) => Seq::empty(),
        }
    }

    /// Every column the node reads.
    pub open spec fn column_references(&self) -> Set<ColumnRef> {
        Set::new(|c: ColumnRef| self.group_refs().contains(c) || self.sum_refs().contains(c) || self.where_refs().contains(c))
    }

}

impl ProofExpr for GroupByExpr {
    open spec fn result_fields_spec(&self) -> Seq<ColumnField> {
        self.result_fields()
    }

    open spec fn column_references_spec(&self) -> Set<ColumnRef> {
        self.column_references()
    }

    open spec fn table_spec(&self) -> TableRef {
        self.table.table_ref
    }

    /// The length of the input table.
    fn get_length(&self, accessor: &TableData) -> (r: usize)
        ensures
            r == accessor.length,
    {
        accessor.length
    }

    /// How many rows of the input table are skipped.
    fn get_offset(&self, accessor: &TableData) -> (r: usize)
        ensures
            r == accessor.offset,
    {
        accessor.offset
    }

    /// The fields of the result: the keys, the sums, and the count as a big integer.
    fn get_column_result_fields(&self) -> (r: Vec<ColumnField>)
        ensures
            r@ == self.result_fields(),
    {
        let mut fields: Vec<ColumnField> = Vec::new();
        let mut j: usize = 0;
        while j < self.group_by_exprs.len()
            invariant
                j <= self.group_by_exprs@.len(),
                fields@ == self.group_by_exprs@.subrange(0, j as int).map_values(|e: ColumnExpr| e.field()),
            decreases self.group_by_exprs@.len() - j,
        {
            fields.push(self.group_by_exprs[j].get_column_field());
            j = j + 1;
            assert(fields@ =~= self.group_by_exprs@.subrange(0, j as int).map_values(|e: ColumnExpr| e.field()));
        }
        assert(self.group_by_exprs@.subrange(0, j as int) =~= self.group_by_exprs@);
        let ghost keys = fields@;
        let mut j: usize = 0;
        while j < self.sum_expr.len()
            invariant
                j <= self.sum_expr@.len(),
                fields@ == keys + self.sum_expr@.subrange(0, j as int).map_values(|e: (ColumnExpr, ColumnField)| e.1),
            decreases self.sum_expr@.len() - j,
        {
            fields.push(self.sum_expr[j].1);
            j = j + 1;
            assert(fields@ =~= keys + self.sum_expr@.subrange(0, j as int).map_values(|e: (ColumnExpr, ColumnField)| e.1));
        }
        assert(self.sum_expr@.subrange(0, j as int) =~= self.sum_expr@);
        fields.push(ColumnField::new(self.count_alias, ColumnType::BigInt));
        fields
    }

    /// The columns the node reads, each once.
    fn get_column_references(&self) -> (r: Vec<ColumnRef>)
        ensures
            forall|c: ColumnRef| r@.contains(c) <==> self.column_references().contains(c),
            r@.no_duplicates(),
    {
        let mut all_v: Vec<ColumnRef> = Vec::new();
        let mut j: usize = 0;
        while j < self.group_by_exprs.len()
            invariant
                j <= self.group_by_exprs@.len(),
                all_v@ == self.group_refs().subrange(0, j as int),
            decreases self.group_by_exprs@.len() - j,
        {
            all_v.push(self.group_by_exprs[j].column_ref);
            j = j + 1;
            assert(all_v@ =~= self.group_refs().subrange(0, j as int));
        }
        let mut j: usize = 0;
        while j < self.sum_expr.len()
            invariant
                j <= self.sum_expr@.len(),
                all_v@ == self.group_refs() + self.sum_refs().subrange(0, j as int),
            decreases self.sum_expr@.len() - j,
        {
            all_v.push(self.sum_expr[j].0.column_ref);
            j = j + 1;
            assert(all_v@ =~= self.group_refs() + self.sum_refs().subrange(0, j as int));
        }
        if let ProvableExprPlan::Column(c) = self.where_clause {
            all_v.push(c);
        }
        let ghost all = self.group_refs() + self.sum_refs() + self.where_refs();
        assert(all_v@ =~= all);
        let g: usize = self.group_by_exprs.len();
        let k: usize = self.sum_expr.len();
        let total: usize = all_v.len();
        let mut refs: Vec<ColumnRef> = Vec::new();
        let mut j: usize = 0;
        while j < total
            invariant
                j <= total == all.len(),
                all_v@ == all,
                refs@.no_duplicates(),
                forall|c: ColumnRef| refs@.contains(c) <==> all.subrange(0, j as int).contains(c),
            decreases total - j,
        {
            let c: ColumnRef = all_v[j];
            let ghost old_refs = refs@;
            if !contains_ref(&refs, c) {
                refs.push(c);
                assert(refs@ == old_refs.push(c));
                assert(refs@[old_refs.len() as int] == c);
            }
            assert(refs@.contains(c));
            j = j + 1;
            let ghost prev = all.subrange(0, j - 1);
            let ghost cur = all.subrange(0, j as int);
            assert(cur =~= prev.push(c));
            assert(cur[j - 1] == c);
            assert forall|x: ColumnRef| refs@.contains(x) <==> cur.contains(x) by {
                if cur.contains(x) {
                    let t = choose|t: int| 0 <= t < cur.len() && cur[t] == x;
                    if t < prev.len() {
                        assert(prev[t] == x);
                    }
                }
                if prev.contains(x) {
                    let t = choose|t: int| 0 <= t < prev.len() && prev[t] == x;
                    assert(cur[t] == x);
                }
                if refs@.contains(x) && x != c {
                    let t = choose|t: int| 0 <= t < refs@.len() && refs@[t] == x;
                    assert(old_refs[t] == x);
                }
                if old_refs.contains(x) {
                    let t = choose|t: int| 0 <= t < old_refs.len() && old_refs[t] == x;
                    assert(refs@[t] == x);
                }
            }
        }
        assert(all.subrange(0, total as int) =~= all);
        assert forall|c: ColumnRef| all.contains(c) <==> self.column_references().contains(c) by {
            if all.contains(c) {
                let t = choose|t: int| 0 <= t < all.len() && all[t] == c;
                if t < g {
                    assert(self.group_refs()[t] == c);
                } else if t < g + k {
                    assert(self.sum_refs()[t - g] == c);
                } else {
                    assert(self.where_refs()[t - g - k] == c);
                }
            }
            if self.group_refs().contains(c) {
                let t = choose|t: int| 0 <= t < g && self.group_refs()[t] == c;
                assert(all[t] == c);
            }
            if self.sum_refs().contains(c) {
                let t = choose|t: int| 0 <= t < k && self.sum_refs()[t] == c;
                assert(all[g + t] == c);
            }
            if self.where_refs().contains(c) {
                let t = choose|t: int| 0 <= t < self.where_refs().len() && self.where_refs()[t] == c;
                assert(all[g + k + t] == c);
            }
        }
        refs
    }
}

impl GroupByExpr {
    /// The input table holds every column the node reads, with the table's length.
    pub open spec fn inputs_ready(&self, data: &TableData) -> bool {
        &&& data.table_ref == self.table.table_ref
        &&& self.where_clause.ready(data)
        &&& forall|j: int| 0 <= j < self.group_refs().len() ==> data.has_scalar_column(#[trigger] self.group_refs()[j])
        &&& forall|j: int| 0 <= j < self.sum_refs().len() ==> data.has_scalar_column(#[trigger] self.sum_refs()[j])
    }

    /// The node's inputs in `data` are `g` (keys) and `s` (sums), and `agg` is their grouping.
    pub open spec fn grouping(&self, data: &TableData, g: Seq<Vec<Scalar>>, s: Seq<Vec<Scalar>>, agg: AggregatedColumns) -> bool {
        &&& columns_match(g, data, self.group_refs())
        &&& columns_match(s, data, self.sum_refs())
        &&& aggregates(agg, g, s, self.where_clause.selection(data), data.length as int)
    }

    /// What the result pass adds: the key, sum and count columns of `agg`, the dense range
    /// `[0, m)` as selected rows, and a request for two challenges.
    pub open spec fn results_of(&self, old_b: ResultBuilder, new_b: ResultBuilder, agg: AggregatedColumns) -> bool {
        let r0 = old_b.result_columns@.len() as int;
        let g = self.group_by_exprs@.len() as int;
        let s = self.sum_expr@.len() as int;
        let m = agg.count_column@.len() as int;
        let cols = new_b.result_columns@;
        &&& new_b.table_length == old_b.table_length
        &&& new_b.post_result_challenges == old_b.post_result_challenges + 2
        &&& new_b.result_indexes == Some(Indexes::Dense(0, m as u64))
        &&& cols.len() == r0 + g + s + 1
        &&& cols.subrange(0, r0) == old_b.result_columns@
        &&& forall|j: int| 0 <= j < g ==> (#[trigger] cols[r0 + j])@ == agg.group_by_columns@[j]@
        &&& forall|j: int| 0 <= j < s ==> (#[trigger] cols[r0 + g + j])@ == agg.sum_columns@[j]@
        &&& cols[r0 + g + s]@.len() == m
        &&& forall|k: int| 0 <= k < m ==> (#[trigger] cols[r0 + g + s]@[k]).val() == fmod(agg.count_column@[k] as int)
    }

    fn group_ref_vec(&self) -> (r: Vec<ColumnRef>)
        ensures
            r@ == self.group_refs(),
    {
        let mut r: Vec<ColumnRef> = Vec::new();
        let mut j: usize = 0;
        while j < self.group_by_exprs.len()
            invariant
                j <= self.group_by_exprs@.len(),
                r@ == self.group_refs().subrange(0, j as int),
            decreases self.group_by_exprs@.len() - j,
        {
            r.push(self.group_by_exprs[j].column_ref);
            j = j + 1;
            assert(r@ =~= self.group_refs().subrange(0, j as int));
        }
        assert(r@ =~= self.group_refs());
        r
    }

    fn sum_ref_vec(&self) -> (r: Vec<ColumnRef>)
        ensures
            r@ == self.sum_refs(),
    {
        let mut r: Vec<ColumnRef> = Vec::new();
        let mut j: usize = 0;
        while j < self.sum_expr.len()
            invariant
                j <= self.sum_expr@.len(),
                r@ == self.sum_refs().subrange(0, j as int),
            decreases self.sum_expr@.len() - j,
        {
            r.push(self.sum_expr[j].0.column_ref);
            j = j + 1;
            assert(r@ =~= self.sum_refs().subrange(0, j as int));
        }
        assert(r@ =~= self.sum_refs());
        r
    }

    /// Reads the selection, key and sum columns and groups the selected rows.
    fn evaluate_inputs(&self, accessor: &TableData) -> (r: (Vec<bool>, Vec<Vec<Scalar>>, Vec<Vec<Scalar>>, AggregatedColumns))
        requires
            self.inputs_ready(accessor),
        ensures
            r.0@ == self.where_clause.selection(accessor),
            r.0@.len() == accessor.length,
            columns_wf(r.1@, accessor.length as int),
            columns_wf(r.2@, accessor.length as int),
            self.grouping(accessor, r.1@, r.2@, r.3),
            r.3.count_column@.len() <= accessor.length,
    {
        let selection = self.where_clause.result_evaluate(accessor);
        let group_by_columns = fetch_columns(accessor, &self.group_ref_vec());
        let sum_columns = fetch_columns(accessor, &self.sum_ref_vec());
        assert(columns_wf(group_by_columns@, accessor.length as int)) by {
            assert forall|j: int| 0 <= j < group_by_columns@.len() implies (#[trigger] group_by_columns@[j])@.len() == accessor.length && column_wf(group_by_columns@[j]@) by {
                assert(accessor.has_scalar_column(self.group_refs()[j]));
            }
        }
        assert(columns_wf(sum_columns@, accessor.length as int)) by {
            assert forall|j: int| 0 <= j < sum_columns@.len() implies (#[trigger] sum_columns@[j])@.len() == accessor.length && column_wf(sum_columns@[j]@) by {
                assert(accessor.has_scalar_column(self.sum_refs()[j]));
            }
        }
        let agg = aggregate_columns(&group_by_columns, &sum_columns, &selection);
        (selection, group_by_columns, sum_columns, agg)
    }

    /// Runs the query in plaintext: the groups, their sums and counts become the result.
    pub fn result_evaluate(&self, builder: &mut ResultBuilder, accessor: &TableData)
        requires
            self.inputs_ready(accessor),
            old(builder).table_length == accessor.length,
            old(builder).result_indexes.is_none(),
            old(builder).post_result_challenges + 2 <= usize::MAX,
        ensures
            self.result_pass(accessor, *old(builder), *final(builder)),
    {
        let (selection, group_by_columns, sum_columns, agg) = self.evaluate_inputs(accessor);
        let m: usize = agg.count_column.len();
        builder.set_result_indexes(Indexes::Dense(0, m as u64));
        let ghost r0 = builder.result_columns@.len() as int;
        let mut j: usize = 0;
        while j < agg.group_by_columns.len()
            invariant
                j <= agg.group_by_columns@.len(),
                r0 == old(builder).result_columns@.len(),
                builder.result_columns@.len() == r0 + j,
                builder.result_columns@.subrange(0, r0) == old(builder).result_columns@,
                forall|t: int| 0 <= t < j ==> (#[trigger] builder.result_columns@[r0 + t])@ == agg.group_by_columns@[t]@,
                builder.table_length == old(builder).table_length,
                builder.post_result_challenges == old(builder).post_result_challenges,
                builder.result_indexes == Some(Indexes::Dense(0, m as u64)),
            decreases agg.group_by_columns@.len() - j,
        {
            let ghost prev = builder.result_columns@;
            builder.produce_result_column(agg.group_by_columns[j].clone());
            assert(builder.result_columns@.subrange(0, r0) =~= prev.subrange(0, r0));
            assert(forall|t: int| 0 <= t < j ==> #[trigger] builder.result_columns@[r0 + t] == prev[r0 + t]);
            j = j + 1;
        }
        let ghost r1 = builder.result_columns@.len() as int;
        let mut j: usize = 0;
        while j < agg.sum_columns.len()
            invariant
                j <= agg.sum_columns@.len(),
                r0 == old(builder).result_columns@.len(),
                r1 == r0 + agg.group_by_columns@.len(),
                builder.result_columns@.len() == r1 + j,
                builder.result_columns@.subrange(0, r0) == old(builder).result_columns@,
                forall|t: int| 0 <= t < agg.group_by_columns@.len() ==> (#[trigger] builder.result_columns@[r0 + t])@ == agg.group_by_columns@[t]@,
                forall|t: int| 0 <= t < j ==> (#[trigger] builder.result_columns@[r1 + t])@ == agg.sum_columns@[t]@,
                builder.table_length == old(builder).table_length,
                builder.post_result_challenges == old(builder).post_result_challenges,
                builder.result_indexes == Some(Indexes::Dense(0, m as u64)),
            decreases agg.sum_columns@.len() - j,
        {
            let ghost prev = builder.result_columns@;
            builder.produce_result_column(agg.sum_columns[j].clone());
            assert(builder.result_columns@.subrange(0, r0) =~= prev.subrange(0, r0));
            assert(forall|t: int| 0 <= t < agg.group_by_columns@.len() ==> #[trigger] builder.result_columns@[r0 + t] == prev[r0 + t]);
            assert(forall|t: int| 0 <= t < j ==> #[trigger] builder.result_columns@[r1 + t] == prev[r1 + t]);
            j = j + 1;
        }
        let ghost prev = builder.result_columns@;
        builder.produce_result_column(count_column(&agg.count_column));
        assert(builder.result_columns@.subrange(0, r0) =~= prev.subrange(0, r0));
        assert(forall|t: int| 0 <= t < agg.group_by_columns@.len() ==> #[trigger] builder.result_columns@[r0 + t] == prev[r0 + t]);
        assert(forall|t: int| 0 <= t < agg.sum_columns@.len() ==> #[trigger] builder.result_columns@[r1 + t] == prev[r1 + t]);
        builder.request_post_result_challenges(2);
        assert(self.grouping(accessor, group_by_columns@, sum_columns@, agg));
        assert(self.results_of(*old(builder), *builder, agg));
    }

    /// Runs the query again and adds the witnesses and identities of the group-by argument,
    /// with the next two challenges as `alpha` and `beta`.
    pub fn prover_evaluate(&self, builder: &mut ProofBuilder, accessor: &TableData)
        requires
            self.inputs_ready(accessor),
            old(builder).table_length == accessor.length,
            old(builder).wf(),
            old(builder).next_challenge + 2 <= old(builder).post_result_challenges@.len(),
            old(builder).post_result_challenges@[old(builder).next_challenge as int].val() != 0,
        ensures
            final(builder).wf(),
            self.prove_pass(accessor, *old(builder), *final(builder)),
    {
        // the length bounds the challenge cursor, which `prove_pass` states
        let _challenges: usize = builder.post_result_challenges.len();
        let (selection, group_by_columns, sum_columns, agg) = self.evaluate_inputs(accessor);
        let alpha = builder.consume_post_result_challenge();
        let beta = builder.consume_post_result_challenge();
        let ghost mid = *builder;
        assert(mid == ProofBuilder { next_challenge: (old(builder).next_challenge + 2) as usize, ..*old(builder) });
        prove_group_by(
            builder,
            alpha,
            beta,
            &group_by_columns,
            &sum_columns,
            &selection,
            &agg.group_by_columns,
            &agg.sum_columns,
            &agg.count_column,
        );
        assert(self.grouping(accessor, group_by_columns@, sum_columns@, agg));
    }

    /// What the result pass does: it groups the node's inputs and records the groups.
    pub open spec fn result_pass(&self, data: &TableData, old_b: ResultBuilder, new_b: ResultBuilder) -> bool {
        exists|g: Seq<Vec<Scalar>>, s: Seq<Vec<Scalar>>, agg: AggregatedColumns|
            self.grouping(data, g, s, agg) && self.results_of(old_b, new_b, agg)
    }

    /// What the prove pass does: it groups the node's inputs, draws `alpha` and `beta`, and
    /// adds the group-by argument for the inputs and the groups.
    pub open spec fn prove_pass(&self, data: &TableData, old_b: ProofBuilder, new_b: ProofBuilder) -> bool {
        &&& old_b.next_challenge + 2 <= old_b.post_result_challenges@.len()
        &&& old_b.next_challenge + 2 <= usize::MAX
        &&& exists|g: Seq<Vec<Scalar>>, s: Seq<Vec<Scalar>>, agg: AggregatedColumns|
            self.grouping(data, g, s, agg) && proves_group_by(
                ProofBuilder { next_challenge: (old_b.next_challenge + 2) as usize, ..old_b },
                new_b,
                old_b.post_result_challenges@[old_b.next_challenge as int].val(),
                old_b.post_result_challenges@[old_b.next_challenge + 1].val(),
                g,
                s,
                self.where_clause.selection(data),
                agg.group_by_columns@,
                agg.sum_columns@,
                agg.count_column@,
            )
    }

    /// The prove pass folds exactly the groups that the result pass records, in the same
    /// order, over the same input columns.
    pub proof fn lemma_prove_uses_result_groups(
        &self,
        data: &TableData,
        rb0: ResultBuilder,
        rb1: ResultBuilder,
        pb0: ProofBuilder,
        pb1: ProofBuilder,
    )
        requires
            self.result_pass(data, rb0, rb1),
            self.prove_pass(data, pb0, pb1),
        ensures
            exists|g: Seq<Vec<Scalar>>, s: Seq<Vec<Scalar>>, agg: AggregatedColumns|
                self.grouping(data, g, s, agg) && self.results_of(rb0, rb1, agg) && proves_group_by(
                    ProofBuilder { next_challenge: (pb0.next_challenge + 2) as usize, ..pb0 },
                    pb1,
                    pb0.post_result_challenges@[pb0.next_challenge as int].val(),
                    pb0.post_result_challenges@[pb0.next_challenge + 1].val(),
                    g,
                    s,
                    self.where_clause.selection(data),
                    agg.group_by_columns@,
                    agg.sum_columns@,
                    agg.count_column@,
                ),
    {
        let (g1, s1, a1) = choose|g: Seq<Vec<Scalar>>, s: Seq<Vec<Scalar>>, agg: AggregatedColumns|
            self.grouping(data, g, s, agg) && self.results_of(rb0, rb1, agg);
        let mid = ProofBuilder { next_challenge: (pb0.next_challenge + 2) as usize, ..pb0 };
        let (g2, s2, a2) = choose|g: Seq<Vec<Scalar>>, s: Seq<Vec<Scalar>>, agg: AggregatedColumns|
            self.grouping(data, g, s, agg) && proves_group_by(
                mid,
                pb1,
                pb0.post_result_challenges@[pb0.next_challenge as int].val(),
                pb0.post_result_challenges@[pb0.next_challenge + 1].val(),
                g,
                s,
                self.where_clause.selection(data),
                agg.group_by_columns@,
                agg.sum_columns@,
                agg.count_column@,
            );
        let sel = self.where_clause.selection(data);
        let n = data.length as int;
        assert forall|i: int| 0 <= i < n implies #[trigger] row_of(g1, i) == row_of(g2, i) by {
            assert(row_of(g1, i) =~= row_of(g2, i));
        }
        assert forall|i: int| 0 <= i < n implies #[trigger] row_of(s1, i) == row_of(s2, i) by {
            assert(row_of(s1, i) =~= row_of(s2, i));
        }
        lemma_grouping_same_views(a2, g1, g2, s1, s2, sel, n);
        lemma_aggregation_unique(a1, a2, g1, s1, sel, n);
        assert(self.results_of(rb0, rb1, a2));
    }

    /// The count pass declares exactly what the other passes produce and consume: result
    /// columns, challenges, witnesses, identities, and committed column evaluations.
    pub proof fn lemma_count_matches_passes(
        &self,
        data: &TableData,
        cb0: CountBuilder,
        cb1: CountBuilder,
        rb0: ResultBuilder,
        rb1: ResultBuilder,
        pb0: ProofBuilder,
        pb1: ProofBuilder,
        vb0: VerificationBuilder,
        vb1: VerificationBuilder,
    )
        requires
            self.counted(cb0, cb1),
            self.result_pass(data, rb0, rb1),
            self.prove_pass(data, pb0, pb1),
            self.verified(vb0, vb1),
        ensures
            rb1.result_columns@.len() - rb0.result_columns@.len() == cb1.result_columns - cb0.result_columns,
            rb1.post_result_challenges - rb0.post_result_challenges == cb1.post_result_challenges - cb0.post_result_challenges,
            pb1.intermediate_mles@.len() - pb0.intermediate_mles@.len() == cb1.intermediate_mles - cb0.intermediate_mles,
            pb1.subpolynomials@.len() - pb0.subpolynomials@.len() == cb1.subpolynomials - cb0.subpolynomials,
            pb1.next_challenge - pb0.next_challenge == cb1.post_result_challenges - cb0.post_result_challenges,
            vb1.column_evaluations.next - vb0.column_evaluations.next == cb1.anchored_mles - cb0.anchored_mles,
            vb1.result_evaluations.next - vb0.result_evaluations.next == cb1.result_columns - cb0.result_columns,
            vb1.intermediate_evaluations.next - vb0.intermediate_evaluations.next == cb1.intermediate_mles - cb0.intermediate_mles,
            vb1.post_result_challenges.next - vb0.post_result_challenges.next == cb1.post_result_challenges - cb0.post_result_challenges,
            vb1.subpolynomial_evaluations@.len() - vb0.subpolynomial_evaluations@.len() == cb1.subpolynomials - cb0.subpolynomials,
            forall|p: int, t: int|
                pb0.subpolynomials@.len() <= p < pb1.subpolynomials@.len() && 0 <= t < pb1.subpolynomials@[p].terms@.len()
                    ==> (#[trigger] pb1.subpolynomials@[p].terms@[t]).multiplicands@.len() <= cb1.degree,
            pb1.subpolynomials@[pb0.subpolynomials@.len() as int].terms@[0].multiplicands@.len() == 3,
    {
        let (g, s, agg) = choose|g: Seq<Vec<Scalar>>, s: Seq<Vec<Scalar>>, agg: AggregatedColumns|
            self.grouping(data, g, s, agg) && self.results_of(rb0, rb1, agg);
        assert(agg.group_by_columns@.len() == self.group_by_exprs@.len());
        assert(agg.sum_columns@.len() == self.sum_expr@.len());
        let mid = ProofBuilder { next_challenge: (pb0.next_challenge + 2) as usize, ..pb0 };
        let (g2, s2, agg2) = choose|g: Seq<Vec<Scalar>>, s: Seq<Vec<Scalar>>, agg: AggregatedColumns|
            self.grouping(data, g, s, agg) && proves_group_by(
                mid,
                pb1,
                pb0.post_result_challenges@[pb0.next_challenge as int].val(),
                pb0.post_result_challenges@[pb0.next_challenge + 1].val(),
                g,
                s,
                self.where_clause.selection(data),
                agg.group_by_columns@,
                agg.sum_columns@,
                agg.count_column@,
            );
        assert(pb1.next_challenge == mid.next_challenge);
        let k = pb0.subpolynomials@.len() as int;
        assert forall|p: int, t: int|
            k <= p < pb1.subpolynomials@.len() && 0 <= t < pb1.subpolynomials@[p].terms@.len()
                implies (#[trigger] pb1.subpolynomials@[p].terms@[t]).multiplicands@.len() <= cb1.degree by {
            assert(p == k || p == k + 1 || p == k + 2);
            assert(t == 0 || t == 1);
        }
        let f = |e: Scalar| e.val();
        assert(vb1.subpolynomial_evaluations@.map_values(f).len() == vb1.subpolynomial_evaluations@.len());
        assert(vb0.subpolynomial_evaluations@.map_values(f).len() == vb0.subpolynomial_evaluations@.len());
    }

    /// What the verify pass reads and hands on, when the selected-row evaluation is present.
    pub open spec fn verified(&self, old_b: VerificationBuilder, new_b: VerificationBuilder) -> bool {
        let g = self.group_by_exprs@.len() as int;
        let s = self.sum_expr@.len() as int;
        let c0 = old_b.column_evaluations.next as int + self.where_clause.anchored();
        let cols = old_b.column_evaluations.values@;
        let r0 = old_b.result_evaluations.next as int;
        let res = old_b.result_evaluations.values@;
        let ch = old_b.post_result_challenges.next as int;
        let i0 = old_b.intermediate_evaluations.next as int;
        &&& new_b.wf()
        &&& new_b.same_context(&old_b)
        &&& new_b.column_evaluations.values == old_b.column_evaluations.values
        &&& new_b.column_evaluations.next == old_b.column_evaluations.next + self.num_anchored()
        &&& new_b.result_evaluations.values == old_b.result_evaluations.values
        &&& new_b.result_evaluations.next == r0 + self.num_result_columns()
        &&& new_b.intermediate_evaluations.values == old_b.intermediate_evaluations.values
        &&& new_b.intermediate_evaluations.next == i0 + 2
        &&& new_b.post_result_challenges.values == old_b.post_result_challenges.values
        &&& new_b.post_result_challenges.next == ch + 2
        &&& new_b.subpolynomial_evaluations@.map_values(|e: Scalar| e.val())
            == old_b.subpolynomial_evaluations@.map_values(|e: Scalar| e.val()) + group_by_evaluations(
            old_b.post_result_challenges.values@[ch].val(),
            old_b.post_result_challenges.values@[ch + 1].val(),
            old_b.one_evaluation.val(),
            old_b.random_evaluation.val(),
            cols.subrange(c0, c0 + g),
            cols.subrange(c0 + g, c0 + g + s),
            self.where_clause.evaluation(&old_b),
            res.subrange(r0, r0 + g),
            res.subrange(r0 + g, r0 + g + s),
            res[r0 + g + s].val(),
            old_b.intermediate_evaluations.values@[i0].val(),
            old_b.intermediate_evaluations.values@[i0 + 1].val(),
        )
    }

    /// Replays the node on claimed evaluations. Fails, changing nothing, when the evaluation
    /// of the selected rows is absent.
    pub fn verifier_evaluate(&self, builder: &mut VerificationBuilder) -> (r: Result<(), ProofError>)
        requires
            old(builder).wf(),
            old(builder).column_evaluations.remaining() >= self.num_anchored(),
            old(builder).result_evaluations.remaining() >= self.num_result_columns(),
            old(builder).intermediate_evaluations.remaining() >= 2,
            old(builder).post_result_challenges.remaining() >= 2,
        ensures
            old(builder).result_indexes_evaluation.is_none() ==> r == Err::<(), ProofError>(ProofError::VerificationError)
                && *final(builder) == *old(builder),
            old(builder).result_indexes_evaluation.is_some() ==> r == Ok::<(), ProofError>(())
                && self.verified(*old(builder), *final(builder)),
    {
        if builder.result_indexes_evaluation.is_none() {
            return Err(ProofError::VerificationError);
        }
        let where_eval = self.where_clause.verifier_evaluate(builder);
        let g: usize = self.group_by_exprs.len();
        let s: usize = self.sum_expr.len();
        let ghost b1 = *builder;
        let group_by_evals = builder.consume_column_evaluations(g);
        let aggregate_evals = builder.consume_column_evaluations(s);
        let ghost b2 = *builder;
        let group_by_result_evals = builder.consume_result_mles(g);
        let sum_result_evals = builder.consume_result_mles(s);
        let count_eval = builder.consume_result_mle();
        let alpha = builder.consume_post_result_challenge();
        let beta = builder.consume_post_result_challenge();
        proof {
            let c0 = b1.column_evaluations.next as int;
            let r0 = b2.result_evaluations.next as int;
            assert(group_by_evals@ =~= b1.column_evaluations.values@.subrange(c0, c0 + g));
            assert forall|i: int| 0 <= i < group_by_evals@.len() implies #[trigger] group_by_evals@[i].wf() by {
                assert(b1.column_evaluations.values@[c0 + i].wf());
            }
            assert forall|i: int| 0 <= i < aggregate_evals@.len() implies #[trigger] aggregate_evals@[i].wf() by {
                assert(b1.column_evaluations.values@[c0 + g + i].wf());
            }
            assert forall|i: int| 0 <= i < group_by_result_evals@.len() implies #[trigger] group_by_result_evals@[i].wf() by {
                assert(b2.result_evaluations.values@[r0 + i].wf());
            }
            assert forall|i: int| 0 <= i < sum_result_evals@.len() implies #[trigger] sum_result_evals@[i].wf() by {
                assert(b2.result_evaluations.values@[r0 + g + i].wf());
            }
            assert(where_eval.wf());
        }
        verify_group_by(
            builder,
            alpha,
            beta,
            &group_by_evals,
            &aggregate_evals,
            where_eval,
            &group_by_result_evals,
            &sum_result_evals,
            count_eval,
        );
        Ok(())
    }
}

/// `c` is in `refs`.
fn contains_ref(refs: &Vec<ColumnRef>, c: ColumnRef) -> (r: bool)
    ensures
        r == refs@.contains(c),
{
    let mut i: usize = 0;
    while i < refs.len()
        invariant
            i <= refs@.len(),
            forall|t: int| 0 <= t < i ==> refs@[t] != c,
        decreases refs@.len() - i,
    {
        if refs[i] == c {
            return true;
        }
        i = i + 1;
    }
    false
}

} // verus!
