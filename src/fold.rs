//! Folding of row tuples into single field elements, and batch inversion.
use vstd::prelude::*;
use crate::scalar::{fadd, fmul, inv, Scalar};

verus! {

/// Every element of the column is reduced.
pub open spec fn column_wf(c: Seq<Scalar>) -> bool {
    forall|i: int| 0 <= i < c.len() ==> #[trigger] c[i].wf()
}

/// Every column has `n` reduced elements.
pub open spec fn columns_wf(cols: Seq<Vec<Scalar>>, n: int) -> bool {
    forall|j: int|
        0 <= j < cols.len() ==> (#[trigger] cols[j])@.len() == n && column_wf(cols[j]@)
}

/// The values of row `i` across the columns, in column order.
pub open spec fn row_of(cols: Seq<Vec<Scalar>>, i: int) -> Seq<Scalar> {
    Seq::new(cols.len(), |j: int| cols[j]@[i])
}

/// `vals[0] + beta * vals[1] + beta^2 * vals[2] + ...` in the field.
pub open spec fn fold(beta: int, vals: Seq<Scalar>) -> int
    decreases vals.len(),
{
    if vals.len() == 0 {
        0
    } else {
        fadd(vals[0].val(), fmul(beta, fold(beta, vals.drop_first())))
    }
}

/// The fingerprint of a key tuple: `alpha + fold(beta, key)`.
pub open spec fn key_fold(alpha: int, beta: int, key: Seq<Scalar>) -> int {
    fadd(alpha, fold(beta, key))
}

/// The weighted aggregate of a row: `seed + beta * fold(beta, sums)`.
pub open spec fn sum_fold(seed: int, beta: int, sums: Seq<Scalar>) -> int {
    fadd(seed, fmul(beta, fold(beta, sums)))
}

/// Folds a sequence of field elements with powers of `beta`.
pub fn fold_vals(beta: Scalar, vals: &Vec<Scalar>) -> (r: Scalar)
    requires
        beta.wf(),
        column_wf(vals@),
    ensures
        r.wf(),
        r.val() == fold(beta.val(), vals@),
{
    let k: usize = vals.len();
    let mut acc: Scalar = Scalar::zero();
    let mut j: usize = k;
    assert(vals@.subrange(k as int, k as int).len() == 0);
    while j > 0
        invariant
            j <= k == vals.len(),
            beta.wf(),
            column_wf(vals@),
            acc.wf(),
            acc.val() == fold(beta.val(), vals@.subrange(j as int, k as int)),
        decreases j,
    {
        let ghost prev = vals@.subrange(j as int, k as int);
        acc = vals[j - 1].add(beta.mul(acc));
        j = j - 1;
        assert(vals@.subrange(j as int, k as int).drop_first() =~= prev);
    }
    assert(vals@.subrange(0, k as int) =~= vals@);
    acc
}

/// The values of row `i` across the columns.
pub fn column_row(cols: &Vec<Vec<Scalar>>, i: usize) -> (r: Vec<Scalar>)
    requires
        forall|j: int| 0 <= j < cols@.len() ==> i < (#[trigger] cols@[j])@.len(),
    ensures
        r@ == row_of(cols@, i as int),
{
    let mut r: Vec<Scalar> = Vec::new();
    let mut j: usize = 0;
    while j < cols.len()
        invariant
            j <= cols@.len(),
            forall|j: int| 0 <= j < cols@.len() ==> i < (#[trigger] cols@[j])@.len(),
            r@ == row_of(cols@, i as int).subrange(0, j as int),
        decreases cols@.len() - j,
    {
        r.push(cols[j][i]);
        j = j + 1;
        assert(r@ =~= row_of(cols@, i as int).subrange(0, j as int));
    }
    assert(r@ =~= row_of(cols@, i as int));
    r
}

/// Folds the key tuple of each of the first `m` rows into its fingerprint; the rows from
/// `m` to `n` are padding and get `alpha`, the fingerprint of a zero tuple.
pub fn fold_keys(alpha: Scalar, beta: Scalar, cols: &Vec<Vec<Scalar>>, m: usize, n: usize) -> (r:
    Vec<Scalar>)
    requires
        alpha.wf(),
        beta.wf(),
        m <= n,
        columns_wf(cols@, m as int),
    ensures
        r@.len() == n,
        column_wf(r@),
        forall|i: int|
            0 <= i < m ==> (#[trigger] r@[i]).val() == key_fold(
                alpha.val(),
                beta.val(),
                row_of(cols@, i),
            ),
        forall|i: int| m <= i < n ==> (#[trigger] r@[i]).val() == alpha.val(),
{
    let mut r: Vec<Scalar> = Vec::new();
    let mut i: usize = 0;
    while i < n
        invariant
            i <= n,
            m <= n,
            alpha.wf(),
            beta.wf(),
            columns_wf(cols@, m as int),
            r@.len() == i,
            column_wf(r@),
            forall|t: int|
                0 <= t < i && t < m ==> (#[trigger] r@[t]).val() == key_fold(
                    alpha.val(),
                    beta.val(),
                    row_of(cols@, t),
                ),
            forall|t: int| m <= t < i ==> (#[trigger] r@[t]).val() == alpha.val(),
        decreases n - i,
    {
        if i < m {
            let row = column_row(cols, i);
            assert forall|j: int| 0 <= j < row@.len() implies #[trigger] row@[j].wf() by {
                assert(column_wf(cols@[j]@));
            }
            let f = fold_vals(beta, &row);
            r.push(alpha.add(f));
        } else {
            r.push(alpha);
        }
        i = i + 1;
    }
    r
}

/// For each of the first `m` rows, `seeds[i] + beta * fold(beta, row i of cols)`; zero on
/// the padding rows from `m` to `n`.
pub fn fold_sums(seeds: &Vec<Scalar>, beta: Scalar, cols: &Vec<Vec<Scalar>>, n: usize) -> (r: Vec<
    Scalar>)
    requires
        beta.wf(),
        seeds@.len() <= n,
        column_wf(seeds@),
        columns_wf(cols@, seeds@.len() as int),
    ensures
        r@.len() == n,
        column_wf(r@),
        forall|i: int|
            0 <= i < seeds@.len() ==> (#[trigger] r@[i]).val() == sum_fold(
                seeds@[i].val(),
                beta.val(),
                row_of(cols@, i),
            ),
        forall|i: int| seeds@.len() <= i < n ==> (#[trigger] r@[i]).val() == 0,
{
    let m: usize = seeds.len();
    let mut r: Vec<Scalar> = Vec::new();
    let mut i: usize = 0;
    while i < n
        invariant
            i <= n,
            m == seeds@.len() <= n,
            beta.wf(),
            column_wf(seeds@),
            columns_wf(cols@, m as int),
            r@.len() == i,
            column_wf(r@),
            forall|t: int|
                0 <= t < i && t < m ==> (#[trigger] r@[t]).val() == sum_fold(
                    seeds@[t].val(),
                    beta.val(),
                    row_of(cols@, t),
                ),
            forall|t: int| m <= t < i ==> (#[trigger] r@[t]).val() == 0,
        decreases n - i,
    {
        if i < m {
            let row = column_row(cols, i);
            assert forall|j: int| 0 <= j < row@.len() implies #[trigger] row@[j].wf() by {
                assert(column_wf(cols@[j]@));
            }
            let f = fold_vals(beta, &row);
            r.push(seeds[i].add(beta.mul(f)));
        } else {
            r.push(Scalar::zero());
        }
        i = i + 1;
    }
    r
}

/// The inverse of each element, zero where there is none.
pub fn batch_inversion(v: &Vec<Scalar>) -> (r: Vec<Scalar>)
    requires
        column_wf(v@),
    ensures
        r@.len() == v@.len(),
        column_wf(r@),
        forall|i: int| 0 <= i < v@.len() ==> (#[trigger] r@[i]).val() == inv(v@[i].val()),
{
    let mut r: Vec<Scalar> = Vec::new();
    let mut i: usize = 0;
    while i < v.len()
        invariant
            i <= v@.len(),
            column_wf(v@),
            r@.len() == i,
            column_wf(r@),
            forall|t: int| 0 <= t < i ==> (#[trigger] r@[t]).val() == inv(v@[t].val()),
        decreases v@.len() - i,
    {
        r.push(v[i].inverse_or_zero());
        i = i + 1;
    }
    r
}

} // verus!
