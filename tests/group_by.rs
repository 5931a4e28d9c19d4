use proof_of_sql::aggregate::aggregate_columns;
use proof_of_sql::builders::{
    CountBuilder, EvaluationQueue, Indexes, ProofBuilder, ProofError, ResultBuilder,
    SubpolynomialType, VerificationBuilder,
};
use proof_of_sql::database::{Column, ColumnField, ColumnRef, ColumnType, Identifier, TableData, TableRef};
use proof_of_sql::fold::{batch_inversion, fold_keys, fold_vals};
use proof_of_sql::group_by::{ColumnExpr, GroupByExpr, ProvableExprPlan, TableExpr};
use proof_of_sql::proof_expr::ProofExpr;
use proof_of_sql::protocol::prove_group_by;
use proof_of_sql::scalar::{Scalar, MODULUS};

fn sc(v: u64) -> Scalar {
    Scalar::from_u64(v)
}

fn col(vals: &[u64]) -> Vec<Scalar> {
    vals.iter().map(|v| sc(*v)).collect()
}

fn table() -> TableRef {
    TableRef::new(1)
}

fn cref(id: u64) -> ColumnRef {
    ColumnRef::new(table(), Identifier::new(id), ColumnType::BigInt)
}

fn mask_ref() -> ColumnRef {
    ColumnRef::new(table(), Identifier::new(9), ColumnType::Boolean)
}

/// Columns a = [1, 2, 1], b = [10, 5, 3], and the mask column.
fn data(mask: Vec<bool>) -> TableData {
    let mut d = TableData::new(table(), 3, 0);
    d.add_column(cref(1), Column::Scalar(col(&[1, 2, 1])));
    d.add_column(cref(2), Column::Scalar(col(&[10, 5, 3])));
    d.add_column(mask_ref(), Column::Boolean(mask));
    d
}

fn node(keys: Vec<u64>, where_clause: ProvableExprPlan) -> GroupByExpr {
    GroupByExpr::new(
        keys.iter().map(|k| ColumnExpr::new(cref(*k))).collect(),
        vec![(ColumnExpr::new(cref(2)), ColumnField::new(Identifier::new(20), ColumnType::BigInt))],
        Identifier::new(30),
        TableExpr { table_ref: table() },
        where_clause,
    )
}

/// The value of a subpolynomial at one row.
fn row_value(b: &ProofBuilder, k: usize, i: usize) -> Scalar {
    let mut acc = Scalar::zero();
    for t in b.subpolynomials[k].terms.iter() {
        let mut prod = Scalar::one();
        for m in t.multiplicands.iter() {
            prod = prod.mul(m[i]);
        }
        acc = acc.add(t.coefficient.mul(prod));
    }
    acc
}

fn zero_sum_total(b: &ProofBuilder, k: usize, n: usize) -> Scalar {
    let mut acc = Scalar::zero();
    for i in 0..n {
        acc = acc.add(row_value(b, k, i));
    }
    acc
}

#[test]
fn field_operations_reduce_by_the_modulus() {
    assert_eq!(sc(MODULUS - 1).add(sc(2)), sc(1));
    assert_eq!(sc(1).sub(sc(2)), sc(MODULUS - 1));
    assert_eq!(sc(3).neg(), sc(MODULUS - 3));
    // 2^70 = 2^61 * 2^9, and 2^61 is one more than the modulus
    assert_eq!(sc(1u64 << 40).mul(sc(1u64 << 30)), sc(512));
    assert_eq!(Scalar::from_u64(MODULUS + 5), sc(5));
    assert_eq!(Scalar::from_bool(true), Scalar::one());
}

#[test]
fn inverse_of_two_and_of_zero() {
    let two_inv = sc(2).inverse_or_zero();
    assert_eq!(two_inv, sc((MODULUS + 1) / 2));
    assert_eq!(two_inv.mul(sc(2)), Scalar::one());
    assert_eq!(sc(0).inverse_or_zero(), Scalar::zero());
    let x = sc(123456789);
    assert_eq!(x.inverse_or_zero().mul(x), Scalar::one());
}

#[test]
fn fold_uses_powers_of_beta() {
    assert_eq!(fold_vals(sc(2), &col(&[1, 2, 3])), sc(17));
    assert_eq!(fold_vals(sc(2), &Vec::new()), sc(0));
    let folded = fold_keys(sc(5), sc(2), &vec![col(&[1, 3]), col(&[4, 0])], 2, 3);
    assert_eq!(folded, col(&[5 + 1 + 8, 5 + 3, 5]));
    let inv = batch_inversion(&col(&[0, 2]));
    assert_eq!(inv, vec![sc(0), sc((MODULUS + 1) / 2)]);
}

#[test]
fn example_groups_sum_and_count() {
    let agg = aggregate_columns(&vec![col(&[1, 2, 1])], &vec![col(&[10, 5, 3])], &vec![true, true, true]);
    assert_eq!(agg.group_by_columns, vec![col(&[1, 2])]);
    assert_eq!(agg.sum_columns, vec![col(&[13, 5])]);
    assert_eq!(agg.count_column, vec![2, 1]);
}

#[test]
fn counts_total_the_selected_rows() {
    let mask = vec![true, false, true, true, false];
    let agg = aggregate_columns(&vec![col(&[7, 7, 8, 7, 8])], &vec![], &mask);
    assert_eq!(agg.group_by_columns, vec![col(&[7, 8])]);
    assert_eq!(agg.count_column.iter().sum::<u64>(), 3);
}

#[test]
fn all_false_mask_gives_no_group() {
    let agg = aggregate_columns(&vec![col(&[1, 2, 1])], &vec![col(&[10, 5, 3])], &vec![false, false, false]);
    assert_eq!(agg.count_column.len(), 0);
    assert_eq!(agg.group_by_columns, vec![Vec::<Scalar>::new()]);
    let e = node(vec![1], ProvableExprPlan::Column(mask_ref()));
    let d = data(vec![false, false, false]);
    let mut rb = ResultBuilder::new(3);
    e.result_evaluate(&mut rb, &d);
    assert!(matches!(rb.result_indexes, Some(Indexes::Dense(0, 0))));
    assert_eq!(rb.result_columns.len(), 3);
    assert!(rb.result_columns.iter().all(|c| c.is_empty()));

    let alpha = sc(11);
    let mut pb = ProofBuilder::new(3, vec![alpha, sc(13)]);
    e.prover_evaluate(&mut pb, &d);
    let alpha_inv = alpha.inverse_or_zero();
    assert_eq!(pb.intermediate_mles[1], vec![alpha_inv; 3]);
    for i in 0..3 {
        assert_eq!(row_value(&pb, 0, i), Scalar::zero());
        assert_eq!(row_value(&pb, 1, i), Scalar::zero());
        assert_eq!(row_value(&pb, 2, i), Scalar::zero());
    }
}

#[test]
fn no_group_by_columns_form_one_group() {
    let agg = aggregate_columns(&vec![], &vec![col(&[10, 5, 3])], &vec![true, false, true]);
    assert_eq!(agg.count_column, vec![2]);
    assert_eq!(agg.sum_columns, vec![col(&[13])]);
    assert_eq!(agg.group_by_columns.len(), 0);
}

#[test]
fn count_pass_declares_what_the_passes_use() {
    let e = node(vec![1], ProvableExprPlan::Column(mask_ref()));
    let mut cb = CountBuilder::new();
    e.count(&mut cb);
    assert_eq!(cb.anchored_mles, 3);
    assert_eq!(cb.result_columns, 3);
    assert_eq!(cb.intermediate_mles, 2);
    assert_eq!(cb.subpolynomials, 3);
    assert_eq!(cb.degree, 3);
    assert_eq!(cb.post_result_challenges, 2);

    let d = data(vec![true, true, true]);
    let mut rb = ResultBuilder::new(3);
    e.result_evaluate(&mut rb, &d);
    assert_eq!(rb.result_columns.len(), cb.result_columns);
    assert_eq!(rb.post_result_challenges, cb.post_result_challenges);
    assert!(matches!(rb.result_indexes, Some(Indexes::Dense(0, 2))));
    assert_eq!(rb.result_columns[0], col(&[1, 2]));
    assert_eq!(rb.result_columns[1], col(&[13, 5]));
    assert_eq!(rb.result_columns[2], col(&[2, 1]));

    let mut pb = ProofBuilder::new(3, vec![sc(11), sc(13)]);
    e.prover_evaluate(&mut pb, &d);
    assert_eq!(pb.intermediate_mles.len(), cb.intermediate_mles);
    assert_eq!(pb.subpolynomials.len(), cb.subpolynomials);
    assert_eq!(pb.next_challenge, cb.post_result_challenges);
    assert_eq!(pb.subpolynomials[0].kind, SubpolynomialType::ZeroSum);
    assert_eq!(pb.subpolynomials[1].kind, SubpolynomialType::Identity);
}

#[test]
fn literal_selection_counts_no_column() {
    let e = node(vec![], ProvableExprPlan::new_literal(true));
    let mut cb = CountBuilder::new();
    e.count(&mut cb);
    assert_eq!(cb.anchored_mles, 1);
    assert_eq!(cb.result_columns, 2);
}

#[test]
fn prover_identities_hold_on_the_example() {
    let d = data(vec![true, true, true]);
    let e = node(vec![1], ProvableExprPlan::Column(mask_ref()));
    let mut pb = ProofBuilder::new(3, vec![sc(11), sc(13)]);
    e.prover_evaluate(&mut pb, &d);
    assert_eq!(zero_sum_total(&pb, 0, 3), Scalar::zero());
    for i in 0..3 {
        assert_eq!(row_value(&pb, 1, i), Scalar::zero());
        assert_eq!(row_value(&pb, 2, i), Scalar::zero());
    }
}

#[test]
fn mutated_count_breaks_the_zero_sum() {
    let alpha = sc(11);
    let beta = sc(13);
    let g_in = vec![col(&[1, 2, 1])];
    let s_in = vec![col(&[10, 5, 3])];
    let sel = vec![true, true, true];
    let mut pb = ProofBuilder::new(3, vec![]);
    prove_group_by(&mut pb, alpha, beta, &g_in, &s_in, &sel, &vec![col(&[1, 2])], &vec![col(&[13, 5])], &vec![2, 1]);
    assert_eq!(zero_sum_total(&pb, 0, 3), Scalar::zero());
    let mut bad = ProofBuilder::new(3, vec![]);
    prove_group_by(&mut bad, alpha, beta, &g_in, &s_in, &sel, &vec![col(&[1, 2])], &vec![col(&[13, 5])], &vec![3, 1]);
    assert_ne!(zero_sum_total(&bad, 0, 3), Scalar::zero());
    let mut bad_sum = ProofBuilder::new(3, vec![]);
    prove_group_by(&mut bad_sum, alpha, beta, &g_in, &s_in, &sel, &vec![col(&[1, 2])], &vec![col(&[14, 5])], &vec![2, 1]);
    assert_ne!(zero_sum_total(&bad_sum, 0, 3), Scalar::zero());
}

fn queue(v: Vec<Scalar>) -> EvaluationQueue {
    EvaluationQueue::new(v)
}

#[test]
fn verify_replays_prove_at_each_row() {
    let alpha = sc(11);
    let beta = sc(13);
    let d = data(vec![true, false, true]);
    let e = node(vec![1], ProvableExprPlan::Column(mask_ref()));
    let mut pb = ProofBuilder::new(3, vec![alpha, beta]);
    e.prover_evaluate(&mut pb, &d);
    let mut rb = ResultBuilder::new(3);
    e.result_evaluate(&mut rb, &d);
    let a = col(&[1, 2, 1]);
    let b = col(&[10, 5, 3]);
    let mask = [1u64, 0, 1];
    for i in 0..3 {
        let out = |c: usize| if i < rb.result_columns[c].len() { rb.result_columns[c][i] } else { Scalar::zero() };
        let mut vb = VerificationBuilder {
            one_evaluation: Scalar::one(),
            random_evaluation: Scalar::one(),
            result_indexes_evaluation: Some(Scalar::one()),
            column_evaluations: queue(vec![sc(mask[i]), a[i], b[i]]),
            result_evaluations: queue(vec![out(0), out(1), out(2)]),
            intermediate_evaluations: queue(vec![pb.intermediate_mles[0][i], pb.intermediate_mles[1][i]]),
            post_result_challenges: queue(vec![alpha, beta]),
            subpolynomial_evaluations: Vec::new(),
        };
        assert_eq!(e.verifier_evaluate(&mut vb), Ok(()));
        assert_eq!(vb.subpolynomial_evaluations, vec![row_value(&pb, 0, i), row_value(&pb, 1, i), row_value(&pb, 2, i)]);
    }
}

#[test]
fn verify_fails_without_index_evaluation() {
    let e = node(vec![1], ProvableExprPlan::Column(mask_ref()));
    let mut vb = VerificationBuilder {
        one_evaluation: Scalar::one(),
        random_evaluation: Scalar::one(),
        result_indexes_evaluation: None,
        column_evaluations: queue(vec![sc(1), sc(1), sc(1)]),
        result_evaluations: queue(vec![sc(1), sc(1), sc(1)]),
        intermediate_evaluations: queue(vec![sc(1), sc(1)]),
        post_result_challenges: queue(vec![sc(1), sc(1)]),
        subpolynomial_evaluations: Vec::new(),
    };
    assert_eq!(e.verifier_evaluate(&mut vb), Err(ProofError::VerificationError));
    assert_eq!(vb.column_evaluations.next, 0);
}

#[test]
fn result_fields_and_references() {
    let e = node(vec![1], ProvableExprPlan::Column(mask_ref()));
    let fields = e.get_column_result_fields();
    assert_eq!(
        fields,
        vec![
            ColumnField::new(Identifier::new(1), ColumnType::BigInt),
            ColumnField::new(Identifier::new(20), ColumnType::BigInt),
            ColumnField::new(Identifier::new(30), ColumnType::BigInt),
        ]
    );
    let refs = e.get_column_references();
    assert_eq!(refs, vec![cref(1), cref(2), mask_ref()]);
    let dup = GroupByExpr::new(
        vec![ColumnExpr::new(cref(2))],
        vec![(ColumnExpr::new(cref(2)), ColumnField::new(Identifier::new(20), ColumnType::BigInt))],
        Identifier::new(30),
        TableExpr { table_ref: table() },
        ProvableExprPlan::new_literal(true),
    );
    assert_eq!(dup.get_column_references(), vec![cref(2)]);
    let d = data(vec![true, true, true]);
    assert_eq!(e.get_length(&d), 3);
    assert_eq!(e.get_offset(&d), 0);
    assert!(!e.is_empty(&d));
}

#[test]
fn groups_come_in_order_of_first_appearance() {
    let agg = aggregate_columns(&vec![col(&[2, 1, 2, 3])], &vec![col(&[4, 5, 6, 7])], &vec![true, true, true, false]);
    assert_eq!(agg.group_by_columns, vec![col(&[2, 1])]);
    assert_eq!(agg.sum_columns, vec![col(&[10, 5])]);
    assert_eq!(agg.count_column, vec![2, 1]);
}

#[test]
fn prover_registers_the_stated_terms() {
    let alpha = sc(11);
    let beta = sc(13);
    let mut pb = ProofBuilder::new(3, vec![]);
    prove_group_by(&mut pb, alpha, beta, &vec![col(&[1, 2, 1])], &vec![col(&[10, 5, 3])], &vec![true, false, true], &vec![col(&[1])], &vec![col(&[13])], &vec![2]);
    let zs = &pb.subpolynomials[0];
    assert_eq!(zs.terms.len(), 2);
    assert_eq!(zs.terms[0].coefficient, Scalar::one());
    assert_eq!(zs.terms[1].coefficient, sc(MODULUS - 1));
    assert_eq!(zs.terms[0].multiplicands.len(), 3);
    assert_eq!(zs.terms[0].multiplicands[0], pb.intermediate_mles[0]);
    assert_eq!(zs.terms[0].multiplicands[1], col(&[1, 0, 1]));
    // 1 + beta * sum
    assert_eq!(zs.terms[0].multiplicands[2], col(&[131, 66, 40]));
    assert_eq!(zs.terms[1].multiplicands[0], pb.intermediate_mles[1]);
    // count + beta * sum on the group, zero on padding rows
    assert_eq!(zs.terms[1].multiplicands[1], col(&[2 + 13 * 13, 0, 0]));
    let out_id = &pb.subpolynomials[2];
    assert_eq!(out_id.terms[0].multiplicands[1], col(&[11 + 1, 11, 11]));
    assert_eq!(out_id.terms[1].multiplicands.len(), 0);
}
