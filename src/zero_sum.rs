//! The honest prover's zero-sum identity sums to zero: each selected input row's weighted
//! contribution reappears in the weighted aggregate of its group.
use vstd::prelude::*;
use vstd::arithmetic::div_mod::{lemma_add_mod_noop, lemma_mul_mod_noop_right, lemma_sub_mod_noop};
use crate::aggregate::{aggregates, group_count, group_sum, AggregatedColumns};
use crate::builders::{row_sum, ProofBuilder, Subpolynomial, SubpolynomialType};
use crate::fold::{column_wf, fold, row_of, sum_fold};
use crate::protocol::{
    flag, g_in_fold, g_out_fold, inputs_wf, lemma_row_sum_zero, proves_group_by, sum_in_fold,
    sum_out_fold, zero_row,
};
use crate::scalar::{fadd, fmod, fmul, fsub, inv, invertible, lemma_fmod_small, lemma_reduce, Scalar, MODULUS};

verus! {

proof fn lemma_fadd_noop(a: int, b: int)
    ensures
        fadd(fmod(a), fmod(b)) == fadd(a, b),
        fadd(a, fmod(b)) == fadd(a, b),
        fadd(fmod(a), b) == fadd(a, b),
{
    let m = MODULUS as int;
    lemma_add_mod_noop(a, b, m);
    lemma_add_mod_noop(a, fmod(b), m);
    lemma_add_mod_noop(fmod(a), b, m);
    lemma_reduce(a);
    lemma_reduce(b);
    lemma_fmod_small(fmod(a));
    lemma_fmod_small(fmod(b));
}

proof fn lemma_fsub_noop(a: int, b: int)
    ensures
        fsub(fmod(a), fmod(b)) == fsub(a, b),
{
    lemma_sub_mod_noop(a, b, MODULUS as int);
}

proof fn lemma_fmul_noop(a: int, b: int)
    ensures
        fmul(a, fmod(b)) == fmul(a, b),
{
    lemma_mul_mod_noop_right(a, b, MODULUS as int);
}

proof fn lemma_distribute(a: int, b: int, c: int)
    ensures
        fmul(a, fadd(b, c)) == fadd(fmul(a, b), fmul(a, c)),
{
    lemma_fmul_noop(a, b + c);
    assert(a * (b + c) == a * b + a * c) by (nonlinear_arith);
    lemma_fadd_noop(a * b, a * c);
}

/// The element-wise field sum of two tuples.
pub open spec fn pointwise(a: Seq<Scalar>, b: Seq<Scalar>) -> Seq<Scalar> {
    Seq::new(a.len(), |j: int| Scalar { v: fadd(a[j].val(), b[j].val()) as u64 })
}

proof fn lemma_fold_add(beta: int, a: Seq<Scalar>, b: Seq<Scalar>)
    requires
        a.len() == b.len(),
    ensures
        fold(beta, pointwise(a, b)) == fadd(fold(beta, a), fold(beta, b)),
    decreases a.len(),
{
    if a.len() == 0 {
        lemma_fmod_small(0);
    } else {
        let p = pointwise(a, b);
        assert(p.drop_first() =~= pointwise(a.drop_first(), b.drop_first()));
        lemma_fold_add(beta, a.drop_first(), b.drop_first());
        let fa = fold(beta, a.drop_first());
        let fb = fold(beta, b.drop_first());
        let a0 = a[0].val();
        let b0 = b[0].val();
        lemma_reduce(a0 + b0);
        assert(p[0].val() == fadd(a0, b0));
        let x = fmul(beta, fa);
        let y = fmul(beta, fb);
        lemma_distribute(beta, fa, fb);
        assert(fold(beta, p) == fadd(fadd(a0, b0), fadd(x, y)));
        lemma_fadd_noop(a0 + b0, x + y);
        assert(fold(beta, p) == fmod(a0 + b0 + (x + y)));
        assert(fold(beta, a) == fadd(a0, x));
        assert(fold(beta, b) == fadd(b0, y));
        lemma_fadd_noop(a0 + x, b0 + y);
        assert(a0 + b0 + (x + y) == (a0 + x) + (b0 + y));
    }
}

proof fn lemma_sum_fold_add(c: int, beta: int, a: Seq<Scalar>, b: Seq<Scalar>)
    requires
        a.len() == b.len(),
    ensures
        sum_fold(fmod(c + 1), beta, pointwise(a, b)) == fadd(sum_fold(fmod(c), beta, a), sum_fold(1, beta, b)),
{
    let fa = fold(beta, a);
    let fb = fold(beta, b);
    lemma_fold_add(beta, a, b);
    lemma_distribute(beta, fa, fb);
    lemma_fadd_noop(fmul(beta, fa), fmul(beta, fb));
    lemma_fadd_noop(c + 1, fmul(beta, fa) + fmul(beta, fb));
    lemma_fadd_noop(c + fmul(beta, fa), 1 + fmul(beta, fb));
    lemma_fadd_noop(c, fmul(beta, fa));
    assert(c + 1 + (fmul(beta, fa) + fmul(beta, fb)) == (c + fmul(beta, fa)) + (1 + fmul(beta, fb)));
}

proof fn lemma_row_sum_range(f: spec_fn(int) -> int, n: int)
    ensures
        0 <= row_sum(f, n) < MODULUS,
{
    if n > 0 {
        lemma_reduce(row_sum(f, n - 1) + f(n - 1));
    }
}

proof fn lemma_row_sum_ext(f: spec_fn(int) -> int, g: spec_fn(int) -> int, n: int)
    requires
        forall|i: int| 0 <= i < n ==> #[trigger] f(i) == g(i),
    ensures
        row_sum(f, n) == row_sum(g, n),
    decreases n,
{
    if n > 0 {
        lemma_row_sum_ext(f, g, n - 1);
    }
}

proof fn lemma_row_sum_sub(f: spec_fn(int) -> int, g: spec_fn(int) -> int, n: int)
    ensures
        row_sum(|i: int| fsub(f(i), g(i)), n) == fsub(row_sum(f, n), row_sum(g, n)),
    decreases n,
{
    if n <= 0 {
        lemma_fmod_small(0);
    } else {
        lemma_row_sum_sub(f, g, n - 1);
        let a = row_sum(f, n - 1);
        let b = row_sum(g, n - 1);
        lemma_fadd_noop(a - b, f(n - 1) - g(n - 1));
        lemma_fsub_noop(a + f(n - 1), b + g(n - 1));
        assert(a - b + (f(n - 1) - g(n - 1)) == (a + f(n - 1)) - (b + g(n - 1)));
    }
}

proof fn lemma_row_sum_point(f: spec_fn(int) -> int, f2: spec_fn(int) -> int, n: int, k0: int, d: int)
    requires
        0 <= k0 < n,
        forall|i: int| 0 <= i < n && i != k0 ==> #[trigger] f2(i) == f(i),
        f2(k0) == fadd(f(k0), d),
    ensures
        row_sum(f2, n) == fadd(row_sum(f, n), d),
    decreases n,
{
    let r = row_sum(f, n - 1);
    if k0 == n - 1 {
        lemma_row_sum_ext(f2, f, n - 1);
        lemma_fadd_noop(r, f(k0) + d);
        lemma_fadd_noop(r + f(k0), d);
        assert(r + (f(k0) + d) == (r + f(k0)) + d);
    } else {
        lemma_row_sum_point(f, f2, n - 1, k0, d);
        lemma_fadd_noop(r + d, f(n - 1));
        lemma_fadd_noop(r + f(n - 1), d);
        assert((r + d) + f(n - 1) == (r + f(n - 1)) + d);
    }
}

proof fn lemma_row_sum_tail(f: spec_fn(int) -> int, m: int, n: int)
    requires
        0 <= m <= n,
        forall|i: int| m <= i < n ==> #[trigger] f(i) == 0,
    ensures
        row_sum(f, n) == row_sum(f, m),
    decreases n - m,
{
    if n > m {
        lemma_row_sum_tail(f, m, n - 1);
        lemma_row_sum_range(f, n - 1);
        lemma_fmod_small(row_sum(f, n - 1));
    }
}

/// The folded sums of the selected input rows with key `key` among the first `t`.
pub open spec fn group_weight(beta: int, g_in: Seq<Vec<Scalar>>, sum_in: Seq<Vec<Scalar>>, sel: Seq<bool>, t: int, key: Seq<Scalar>) -> int
    decreases t,
{
    if t <= 0 {
        0
    } else if sel[t - 1] && row_of(g_in, t - 1) == key {
        fadd(group_weight(beta, g_in, sum_in, sel, t - 1, key), sum_in_fold(beta, sum_in, t - 1))
    } else {
        group_weight(beta, g_in, sum_in, sel, t - 1, key)
    }
}

/// The per-column sums of the group with key `key` over the first `t` rows.
pub open spec fn sums_row(g_in: Seq<Vec<Scalar>>, sum_in: Seq<Vec<Scalar>>, sel: Seq<bool>, t: int, key: Seq<Scalar>) -> Seq<Scalar> {
    Seq::new(sum_in.len(), |j: int| Scalar { v: group_sum(g_in, sum_in[j]@, sel, t, key) as u64 })
}

proof fn lemma_group_sum_range(g: Seq<Vec<Scalar>>, col: Seq<Scalar>, sel: Seq<bool>, t: int, key: Seq<Scalar>)
    ensures
        0 <= group_sum(g, col, sel, t, key) < MODULUS,
    decreases t,
{
    if t > 0 {
        lemma_group_sum_range(g, col, sel, t - 1, key);
        lemma_reduce(group_sum(g, col, sel, t - 1, key) + col[t - 1].val());
    }
}

/// A group's count and sums fold to the folded sums of its rows.
proof fn lemma_group_weight(beta: int, g_in: Seq<Vec<Scalar>>, sum_in: Seq<Vec<Scalar>>, sel: Seq<bool>, t: int, key: Seq<Scalar>)
    requires
        t >= 0,
    ensures
        sum_fold(fmod(group_count(g_in, sel, t, key)), beta, sums_row(g_in, sum_in, sel, t, key))
            == group_weight(beta, g_in, sum_in, sel, t, key),
    decreases t,
{
    lemma_fmod_small(0);
    if t == 0 {
        assert(sums_row(g_in, sum_in, sel, 0, key) =~= zero_row(sum_in.len()));
        crate::protocol::lemma_fold_zeros(beta, sum_in.len());
    } else {
        lemma_group_weight(beta, g_in, sum_in, sel, t - 1, key);
        if sel[t - 1] && row_of(g_in, t - 1) == key {
            let prev = sums_row(g_in, sum_in, sel, t - 1, key);
            let row = row_of(sum_in, t - 1);
            assert forall|j: int| 0 <= j < sum_in.len() implies #[trigger] prev[j].val() == group_sum(g_in, sum_in[j]@, sel, t - 1, key) by {
                lemma_group_sum_range(g_in, sum_in[j]@, sel, t - 1, key);
            }
            assert(sums_row(g_in, sum_in, sel, t, key) =~= pointwise(prev, row));
            lemma_sum_fold_add(group_count(g_in, sel, t - 1, key), beta, prev, row);
        } else {
            assert(sums_row(g_in, sum_in, sel, t, key) =~= sums_row(g_in, sum_in, sel, t - 1, key));
        }
    }
}

/// Each input row's contribution to the zero-sum identity.
pub open spec fn in_weight(alpha: int, beta: int, g_in: Seq<Vec<Scalar>>, sum_in: Seq<Vec<Scalar>>, sel: Seq<bool>) -> spec_fn(int) -> int {
    |i: int| fmul(inv(g_in_fold(alpha, beta, g_in, i)), fmul(flag(sel[i]), sum_in_fold(beta, sum_in, i)))
}

/// Each group's inverted fingerprint times the folded sums of its first rows.
pub open spec fn out_weight(
    alpha: int,
    beta: int,
    g_in: Seq<Vec<Scalar>>,
    sum_in: Seq<Vec<Scalar>>,
    sel: Seq<bool>,
    g_out: Seq<Vec<Scalar>>,
    m: int,
    t: int,
) -> spec_fn(int) -> int {
    |k: int| fmul(inv(g_out_fold(alpha, beta, g_out, m, k)), group_weight(beta, g_in, sum_in, sel, t, row_of(g_out, k)))
}

proof fn lemma_regroup(
    alpha: int,
    beta: int,
    g_in: Seq<Vec<Scalar>>,
    sum_in: Seq<Vec<Scalar>>,
    sel: Seq<bool>,
    g_out: Seq<Vec<Scalar>>,
    m: int,
    t: int,
)
    requires
        0 <= t <= sel.len(),
        0 <= m,
        forall|k1: int, k2: int| 0 <= k1 < m && 0 <= k2 < m && k1 != k2 ==> row_of(g_out, k1) != row_of(g_out, k2),
        forall|i: int| 0 <= i < sel.len() && sel[i] ==> exists|k: int| 0 <= k < m && row_of(g_out, k) == row_of(g_in, i),
    ensures
        row_sum(in_weight(alpha, beta, g_in, sum_in, sel), t) == row_sum(out_weight(alpha, beta, g_in, sum_in, sel, g_out, m, t), m),
    decreases t,
{
    let fin = in_weight(alpha, beta, g_in, sum_in, sel);
    lemma_fmod_small(0);
    if t == 0 {
        assert forall|k: int| 0 <= k < m implies #[trigger] out_weight(alpha, beta, g_in, sum_in, sel, g_out, m, 0)(k) == 0 by {
            let x = inv(g_out_fold(alpha, beta, g_out, m, k));
            assert(x * 0 == 0);
        }
        lemma_row_sum_zero(out_weight(alpha, beta, g_in, sum_in, sel, g_out, m, 0), m);
    } else {
        let r = t - 1;
        lemma_regroup(alpha, beta, g_in, sum_in, sel, g_out, m, r);
        let o0 = out_weight(alpha, beta, g_in, sum_in, sel, g_out, m, r);
        let o1 = out_weight(alpha, beta, g_in, sum_in, sel, g_out, m, t);
        let s = sum_in_fold(beta, sum_in, r);
        let x = inv(g_in_fold(alpha, beta, g_in, r));
        lemma_row_sum_range(fin, r);
        lemma_reduce(1 + fmul(beta, fold(beta, row_of(sum_in, r))));
        if !sel[r] {
            assert(0 * s == 0);
            assert(x * 0 == 0);
            assert(fin(r) == 0);
            lemma_fmod_small(row_sum(fin, r));
            lemma_row_sum_ext(o1, o0, m);
        } else {
            let k0 = choose|k: int| 0 <= k < m && row_of(g_out, k) == row_of(g_in, r);
            assert(1 * s == s);
            lemma_fmod_small(s);
            assert(fin(r) == fmul(x, s));
            assert(g_out_fold(alpha, beta, g_out, m, k0) == g_in_fold(alpha, beta, g_in, r));
            assert forall|k: int| 0 <= k < m && k != k0 implies #[trigger] o1(k) == o0(k) by {
                assert(row_of(g_out, k) != row_of(g_out, k0));
            }
            lemma_distribute(x, group_weight(beta, g_in, sum_in, sel, r, row_of(g_out, k0)), s);
            lemma_row_sum_point(o0, o1, m, k0, fmul(x, s));
        }
    }
}

/// For the grouping that the aggregation returns, the zero-sum identity of the honest
/// prover sums to zero over all rows.
pub proof fn lemma_zero_sum_holds(
    old_b: ProofBuilder,
    new_b: ProofBuilder,
    alpha: int,
    beta: int,
    g_in: Seq<Vec<Scalar>>,
    sum_in: Seq<Vec<Scalar>>,
    sel_in: Seq<bool>,
    agg: AggregatedColumns,
)
    requires
        inputs_wf(g_in, sum_in, sel_in, old_b.table_length as int),
        aggregates(agg, g_in, sum_in, sel_in, old_b.table_length as int),
        agg.count_column@.len() <= old_b.table_length,
        proves_group_by(old_b, new_b, alpha, beta, g_in, sum_in, sel_in, agg.group_by_columns@,
            agg.sum_columns@, agg.count_column@),
    ensures
        new_b.subpolynomials@[old_b.subpolynomials@.len() as int].holds(old_b.table_length as int),
{
    let n = old_b.table_length as int;
    let m = agg.count_column@.len() as int;
    let k = old_b.subpolynomials@.len() as int;
    let zs = new_b.subpolynomials@[k];
    let g_out = agg.group_by_columns@;
    let sum_out = agg.sum_columns@;
    let fin = in_weight(alpha, beta, g_in, sum_in, sel_in);
    let gw = |i: int| fmul(inv(g_out_fold(alpha, beta, g_out, m, i)), sum_out_fold(beta, sum_out, agg.count_column@, i));
    lemma_fmod_small(0);
    lemma_row_sum_ext(|i: int| zs.at(i), |i: int| fsub(fin(i), gw(i)), n);
    lemma_row_sum_sub(fin, gw, n);
    assert forall|i: int| m <= i < n implies #[trigger] gw(i) == 0 by {
        let x = inv(g_out_fold(alpha, beta, g_out, m, i));
        assert(x * 0 == 0);
    }
    lemma_row_sum_tail(gw, m, n);
    let o = out_weight(alpha, beta, g_in, sum_in, sel_in, g_out, m, n);
    assert forall|kk: int| 0 <= kk < m implies #[trigger] gw(kk) == o(kk) by {
        let key = row_of(g_out, kk);
        lemma_group_weight(beta, g_in, sum_in, sel_in, n, key);
        assert forall|j: int| 0 <= j < sum_in.len() implies #[trigger] row_of(sum_out, kk)[j] == sums_row(g_in, sum_in, sel_in, n, key)[j] by {
            assert(sum_out[j]@[kk].val() == group_sum(g_in, sum_in[j]@, sel_in, n, key));
            assert(column_wf(sum_out[j]@));
            assert(sum_out[j]@[kk].wf());
        }
        assert(row_of(sum_out, kk) =~= sums_row(g_in, sum_in, sel_in, n, key));
    }
    lemma_row_sum_ext(gw, o, m);
    lemma_regroup(alpha, beta, g_in, sum_in, sel_in, g_out, m, n);
    lemma_row_sum_range(fin, n);
    lemma_fmod_small(row_sum(fin, n) - row_sum(fin, n));
}

proof fn lemma_fsub_zero(a: int, b: int)
    requires
        0 <= a < MODULUS,
        0 <= b < MODULUS,
        fsub(a, b) == 0,
    ensures
        a == b,
{
    lemma_reduce(a - b);
    let q = (a - b) / (MODULUS as int);
    assert(a - b == (MODULUS as int) * q);
    if q > 0 {
        assert((MODULUS as int) * q >= MODULUS as int) by (nonlinear_arith)
            requires
                q > 0,
        ;
    }
    if q < 0 {
        assert((MODULUS as int) * q <= -(MODULUS as int)) by (nonlinear_arith)
            requires
                q < 0,
        ;
    }
}

/// A non-zero element times an invertible one is not zero.
proof fn lemma_no_zero_divisor(g: int, d: int)
    requires
        0 < d < MODULUS,
        fmul(g, inv(g)) == 1,
    ensures
        fmul(inv(g), d) != 0,
{
    let i = inv(g);
    if fmul(i, d) == 0 {
        lemma_fmul_noop(g, i * d);
        lemma_mul_mod_noop_right(d, g * i, MODULUS as int);
        assert(g * (i * d) == d * (g * i)) by (nonlinear_arith);
        lemma_fmod_small(d);
        lemma_fmod_small(0);
        assert(g * 0 == 0);
        assert(d * 1 == d);
    }
}

/// The weighted input rows balance the weighted groups, for the honest grouping.
proof fn lemma_honest_balance(
    old_b: ProofBuilder,
    new_b: ProofBuilder,
    alpha: int,
    beta: int,
    g_in: Seq<Vec<Scalar>>,
    sum_in: Seq<Vec<Scalar>>,
    sel_in: Seq<bool>,
    agg: AggregatedColumns,
)
    requires
        inputs_wf(g_in, sum_in, sel_in, old_b.table_length as int),
        aggregates(agg, g_in, sum_in, sel_in, old_b.table_length as int),
        agg.count_column@.len() <= old_b.table_length,
        proves_group_by(old_b, new_b, alpha, beta, g_in, sum_in, sel_in, agg.group_by_columns@,
            agg.sum_columns@, agg.count_column@),
    ensures
        row_sum(in_weight(alpha, beta, g_in, sum_in, sel_in), old_b.table_length as int)
            == row_sum(|i: int| fmul(inv(g_out_fold(alpha, beta, agg.group_by_columns@, agg.count_column@.len() as int, i)),
                sum_out_fold(beta, agg.sum_columns@, agg.count_column@, i)), old_b.table_length as int),
{
    let n = old_b.table_length as int;
    let m = agg.count_column@.len() as int;
    let fin = in_weight(alpha, beta, g_in, sum_in, sel_in);
    let gw = |i: int| fmul(inv(g_out_fold(alpha, beta, agg.group_by_columns@, m, i)), sum_out_fold(beta, agg.sum_columns@, agg.count_column@, i));
    let zs = new_b.subpolynomials@[old_b.subpolynomials@.len() as int];
    lemma_zero_sum_holds(old_b, new_b, alpha, beta, g_in, sum_in, sel_in, agg);
    lemma_row_sum_ext(|i: int| zs.at(i), |i: int| fsub(fin(i), gw(i)), n);
    lemma_row_sum_sub(fin, gw, n);
    lemma_row_sum_range(fin, n);
    lemma_row_sum_range(gw, n);
    lemma_fsub_zero(row_sum(fin, n), row_sum(gw, n));
}

/// Where one group's weight moves by a non-zero amount, the zero-sum total is no longer zero.
proof fn lemma_one_group_off(
    zb: Subpolynomial,
    fin: spec_fn(int) -> int,
    gw: spec_fn(int) -> int,
    gb: spec_fn(int) -> int,
    n: int,
    k0: int,
    d: int,
)
    requires
        zb.kind == SubpolynomialType::ZeroSum,
        forall|i: int| 0 <= i < n ==> #[trigger] zb.at(i) == fsub(fin(i), gb(i)),
        row_sum(fin, n) == row_sum(gw, n),
        0 <= k0 < n,
        forall|i: int| 0 <= i < n && i != k0 ==> #[trigger] gb(i) == gw(i),
        gb(k0) == fadd(gw(k0), d),
        0 < d < MODULUS,
    ensures
        !zb.holds(n),
{
    lemma_row_sum_point(gw, gb, n, k0, d);
    lemma_row_sum_ext(|i: int| zb.at(i), |i: int| fsub(fin(i), gb(i)), n);
    lemma_row_sum_sub(fin, gb, n);
    let a = row_sum(fin, n);
    lemma_fadd_noop(a, d);
    lemma_fsub_noop(a, a + d);
    assert(a - (a + d) == -d);
    if fsub(0, d) == 0 {
        lemma_fsub_zero(0, d);
    }
    lemma_fmod_small(0);
    assert(fmod(0 - d) == fsub(0, d));
}

/// Changing the count of one group whose fingerprint has an inverse, to a value that differs
/// in the field, makes the zero-sum identity fail.
pub proof fn lemma_mutated_count_fails(
    old_b: ProofBuilder,
    new_b: ProofBuilder,
    bad_b: ProofBuilder,
    alpha: int,
    beta: int,
    g_in: Seq<Vec<Scalar>>,
    sum_in: Seq<Vec<Scalar>>,
    sel_in: Seq<bool>,
    agg: AggregatedColumns,
    k0: int,
    bad_count: u64,
)
    requires
        inputs_wf(g_in, sum_in, sel_in, old_b.table_length as int),
        aggregates(agg, g_in, sum_in, sel_in, old_b.table_length as int),
        agg.count_column@.len() <= old_b.table_length,
        proves_group_by(old_b, new_b, alpha, beta, g_in, sum_in, sel_in, agg.group_by_columns@,
            agg.sum_columns@, agg.count_column@),
        0 <= k0 < agg.count_column@.len(),
        fmod(bad_count as int) != fmod(agg.count_column@[k0] as int),
        invertible(g_out_fold(alpha, beta, agg.group_by_columns@, agg.count_column@.len() as int, k0)),
        proves_group_by(old_b, bad_b, alpha, beta, g_in, sum_in, sel_in, agg.group_by_columns@,
            agg.sum_columns@, agg.count_column@.update(k0, bad_count)),
    ensures
        !bad_b.subpolynomials@[old_b.subpolynomials@.len() as int].holds(old_b.table_length as int),
{
    let n = old_b.table_length as int;
    let m = agg.count_column@.len() as int;
    let k = old_b.subpolynomials@.len() as int;
    let g_out = agg.group_by_columns@;
    let sum_out = agg.sum_columns@;
    let counts = agg.count_column@;
    let bad = counts.update(k0, bad_count);
    let fin = in_weight(alpha, beta, g_in, sum_in, sel_in);
    let gw = |i: int| fmul(inv(g_out_fold(alpha, beta, g_out, m, i)), sum_out_fold(beta, sum_out, counts, i));
    let gb = |i: int| fmul(inv(g_out_fold(alpha, beta, g_out, m, i)), sum_out_fold(beta, sum_out, bad, i));
    let zb = bad_b.subpolynomials@[k];
    lemma_honest_balance(old_b, new_b, alpha, beta, g_in, sum_in, sel_in, agg);

    let gi = inv(g_out_fold(alpha, beta, g_out, m, k0));
    let c0 = fmod(counts[k0] as int);
    let c1 = fmod(bad_count as int);
    let z = fmul(beta, fold(beta, row_of(sum_out, k0)));
    let delta = fsub(c1, c0);
    let d = fmul(gi, delta);
    lemma_reduce(counts[k0] as int);
    lemma_reduce(bad_count as int);
    lemma_reduce(c1 - c0);
    assert(delta != 0) by {
        if delta == 0 {
            lemma_fsub_zero(c1, c0);
        }
    }
    crate::scalar::lemma_inv_range(g_out_fold(alpha, beta, g_out, m, k0));
    lemma_no_zero_divisor(g_out_fold(alpha, beta, g_out, m, k0), delta);
    assert(gb(k0) == fadd(gw(k0), d)) by {
        lemma_fmul_noop(gi, c1 + z);
        lemma_fmul_noop(gi, c0 + z);
        lemma_fmul_noop(gi, c1 - c0);
        lemma_fadd_noop(gi * (c0 + z), gi * (c1 - c0));
        assert(gi * (c0 + z) + gi * (c1 - c0) == gi * (c1 + z)) by (nonlinear_arith);
    }
    assert forall|i: int| 0 <= i < n && i != k0 implies #[trigger] gb(i) == gw(i) by {}
    lemma_reduce(gi * delta);
    lemma_one_group_off(zb, fin, gw, gb, n, k0, d);
}

/// `d` multiplied by `b`, `j` times.
pub open spec fn scale(b: int, j: nat, d: int) -> int
    decreases j,
{
    if j == 0 {
        d
    } else {
        fmul(b, scale(b, (j - 1) as nat, d))
    }
}

/// An element with an inverse times a non-zero element is not zero.
proof fn lemma_invertible_times_nonzero(a: int, d: int)
    requires
        invertible(a),
        0 < d < MODULUS,
    ensures
        fmul(a, d) != 0,
{
    let y = choose|y: int| crate::scalar::is_inverse(a, y);
    if fmul(a, d) == 0 {
        lemma_fmul_noop(y, a * d);
        lemma_mul_mod_noop_right(d, a * y, MODULUS as int);
        assert(y * (a * d) == d * (a * y)) by (nonlinear_arith);
        lemma_fmod_small(d);
        lemma_fmod_small(0);
        assert(y * 0 == 0);
        assert(d * 1 == d);
    }
}

proof fn lemma_scale_nonzero(b: int, j: nat, d: int)
    requires
        invertible(b),
        0 < d < MODULUS,
    ensures
        0 < scale(b, j, d) < MODULUS,
    decreases j,
{
    if j > 0 {
        lemma_scale_nonzero(b, (j - 1) as nat, d);
        lemma_invertible_times_nonzero(b, scale(b, (j - 1) as nat, d));
        lemma_reduce(b * scale(b, (j - 1) as nat, d));
    }
}

/// Changing element `j` of a tuple by `d` changes its fold by `beta^j * d`.
proof fn lemma_fold_update(beta: int, a: Seq<Scalar>, j: int, x: Scalar)
    requires
        0 <= j < a.len(),
        x.wf(),
        a[j].wf(),
    ensures
        fold(beta, a.update(j, x)) == fadd(fold(beta, a), scale(beta, j as nat, fsub(x.val(), a[j].val()))),
    decreases j,
{
    let u = a.update(j, x);
    let delta = fsub(x.val(), a[j].val());
    if j == 0 {
        assert(u.drop_first() =~= a.drop_first());
        let z = fmul(beta, fold(beta, a.drop_first()));
        lemma_fadd_noop(a[0].val() + z, x.val() - a[0].val());
        lemma_fadd_noop(a[0].val(), z);
        assert(a[0].val() + z + (x.val() - a[0].val()) == x.val() + z);
    } else {
        assert(u.drop_first() =~= a.drop_first().update(j - 1, x));
        lemma_fold_update(beta, a.drop_first(), j - 1, x);
        let f = fold(beta, a.drop_first());
        let sc = scale(beta, (j - 1) as nat, delta);
        lemma_distribute(beta, f, sc);
        lemma_fadd_noop(a[0].val(), fmul(beta, f) + fmul(beta, sc));
        lemma_fadd_noop(a[0].val() + fmul(beta, f), fmul(beta, sc));
        lemma_fadd_noop(fmul(beta, f), fmul(beta, sc));
        assert(a[0].val() + (fmul(beta, f) + fmul(beta, sc)) == (a[0].val() + fmul(beta, f)) + fmul(beta, sc));
    }
}

/// Changing one sum of one group whose fingerprint has an inverse, to a different value,
/// makes the zero-sum identity fail where `beta` has an inverse.
pub proof fn lemma_mutated_sum_fails(
    old_b: ProofBuilder,
    new_b: ProofBuilder,
    bad_b: ProofBuilder,
    alpha: int,
    beta: int,
    g_in: Seq<Vec<Scalar>>,
    sum_in: Seq<Vec<Scalar>>,
    sel_in: Seq<bool>,
    agg: AggregatedColumns,
    bad_sums: Seq<Vec<Scalar>>,
    j: int,
    k0: int,
    x: Scalar,
)
    requires
        inputs_wf(g_in, sum_in, sel_in, old_b.table_length as int),
        aggregates(agg, g_in, sum_in, sel_in, old_b.table_length as int),
        agg.count_column@.len() <= old_b.table_length,
        proves_group_by(old_b, new_b, alpha, beta, g_in, sum_in, sel_in, agg.group_by_columns@,
            agg.sum_columns@, agg.count_column@),
        0 <= k0 < agg.count_column@.len(),
        0 <= j < agg.sum_columns@.len(),
        x.wf(),
        x != agg.sum_columns@[j]@[k0],
        bad_sums.len() == agg.sum_columns@.len(),
        forall|t: int| 0 <= t < bad_sums.len() && t != j ==> #[trigger] bad_sums[t]@ == agg.sum_columns@[t]@,
        bad_sums[j]@ == agg.sum_columns@[j]@.update(k0, x),
        invertible(beta),
        invertible(g_out_fold(alpha, beta, agg.group_by_columns@, agg.count_column@.len() as int, k0)),
        proves_group_by(old_b, bad_b, alpha, beta, g_in, sum_in, sel_in, agg.group_by_columns@,
            bad_sums, agg.count_column@),
    ensures
        !bad_b.subpolynomials@[old_b.subpolynomials@.len() as int].holds(old_b.table_length as int),
{
    let n = old_b.table_length as int;
    let m = agg.count_column@.len() as int;
    let k = old_b.subpolynomials@.len() as int;
    let g_out = agg.group_by_columns@;
    let sum_out = agg.sum_columns@;
    let counts = agg.count_column@;
    let fin = in_weight(alpha, beta, g_in, sum_in, sel_in);
    let gw = |i: int| fmul(inv(g_out_fold(alpha, beta, g_out, m, i)), sum_out_fold(beta, sum_out, counts, i));
    let gb = |i: int| fmul(inv(g_out_fold(alpha, beta, g_out, m, i)), sum_out_fold(beta, bad_sums, counts, i));
    let zb = bad_b.subpolynomials@[k];
    lemma_honest_balance(old_b, new_b, alpha, beta, g_in, sum_in, sel_in, agg);

    let row = row_of(sum_out, k0);
    let old_v = sum_out[j]@[k0];
    assert(column_wf(sum_out[j]@));
    assert(old_v.wf());
    assert(row_of(bad_sums, k0) =~= row.update(j, x)) by {
        assert forall|t: int| 0 <= t < row.len() implies #[trigger] row_of(bad_sums, k0)[t] == row.update(j, x)[t] by {
            if t != j {
                assert(bad_sums[t]@ == sum_out[t]@);
            }
        }
    }
    let delta = fsub(x.val(), old_v.val());
    lemma_reduce(x.val() - old_v.val());
    assert(delta != 0) by {
        if delta == 0 {
            lemma_fsub_zero(x.val(), old_v.val());
        }
    }
    lemma_fold_update(beta, row, j, x);
    let sc = scale(beta, j as nat, delta);
    lemma_scale_nonzero(beta, j as nat, delta);
    let c = fmod(counts[k0] as int);
    let f = fold(beta, row);
    let e = fmul(beta, sc);
    lemma_invertible_times_nonzero(beta, sc);
    lemma_reduce(beta * sc);
    let gi = inv(g_out_fold(alpha, beta, g_out, m, k0));
    crate::scalar::lemma_inv_range(g_out_fold(alpha, beta, g_out, m, k0));
    lemma_no_zero_divisor(g_out_fold(alpha, beta, g_out, m, k0), e);
    let d = fmul(gi, e);
    assert(sum_out_fold(beta, bad_sums, counts, k0) == fadd(sum_out_fold(beta, sum_out, counts, k0), e)) by {
        lemma_distribute(beta, f, sc);
        lemma_fadd_noop(c, fmul(beta, f) + e);
        lemma_fadd_noop(c + fmul(beta, f), e);
        assert(c + (fmul(beta, f) + e) == (c + fmul(beta, f)) + e);
    }
    lemma_distribute(gi, sum_out_fold(beta, sum_out, counts, k0), e);
    assert forall|i: int| 0 <= i < n && i != k0 implies #[trigger] gb(i) == gw(i) by {
        if i < m {
            assert(row_of(bad_sums, i) =~= row_of(sum_out, i)) by {
                assert forall|t: int| 0 <= t < bad_sums.len() implies #[trigger] row_of(bad_sums, i)[t] == row_of(sum_out, i)[t] by {
                    if t != j {
                        assert(bad_sums[t]@ == sum_out[t]@);
                    }
                }
            }
        }
    }
    lemma_reduce(gi * e);
    lemma_one_group_off(zb, fin, gw, gb, n, k0, d);
}

} // verus!
