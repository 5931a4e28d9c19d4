//! The folding-and-inversion argument that m output groups aggregate the selected input rows.
use vstd::prelude::*;
use crate::builders::{
    product_at, row_sum, terms_at, ProofBuilder, Subpolynomial, SubpolynomialType, Term, VerificationBuilder,
};
use crate::fold::{
    batch_inversion, column_wf, columns_wf, fold, fold_keys, fold_sums, fold_vals, key_fold,
    row_of, sum_fold,
};
use crate::scalar::{
    fadd, fmod, fmul, fsub, inv, invertible, lemma_congruent, lemma_fmod_small, lemma_inv_range, lemma_reduce,
    Scalar, MODULUS,
};
use vstd::arithmetic::div_mod::lemma_add_mod_noop_right;

verus! {

/// Zero or one for a selection flag.
pub open spec fn flag(b: bool) -> int {
    if b {
        1
    } else {
        0
    }
}

/// The fingerprint of input row `i`.
pub open spec fn g_in_fold(alpha: int, beta: int, g_in: Seq<Vec<Scalar>>, i: int) -> int {
    key_fold(alpha, beta, row_of(g_in, i))
}

/// The fingerprint of output row `k`; padding rows fold a zero tuple.
pub open spec fn g_out_fold(alpha: int, beta: int, g_out: Seq<Vec<Scalar>>, m: int, k: int) -> int {
    if k < m {
        key_fold(alpha, beta, row_of(g_out, k))
    } else {
        fmod(alpha)
    }
}

/// The folded sums of input row `i`, with unit weight.
pub open spec fn sum_in_fold(beta: int, sum_in: Seq<Vec<Scalar>>, i: int) -> int {
    sum_fold(1, beta, row_of(sum_in, i))
}

/// The folded sums of output row `k`, weighted by its count; zero on padding rows.
pub open spec fn sum_out_fold(beta: int, sum_out: Seq<Vec<Scalar>>, count_out: Seq<u64>, k: int) -> int {
    if k < count_out.len() {
        sum_fold(fmod(count_out[k] as int), beta, row_of(sum_out, k))
    } else {
        0
    }
}

/// The row value of the zero-sum identity: `gInStar * sel * sumIn - gOutStar * sumOut`.
pub open spec fn zero_sum_row(g_in_star: int, sel: int, s_in: int, g_out_star: int, s_out: int) -> int {
    fsub(fmul(g_in_star, fmul(sel, s_in)), fmul(g_out_star, s_out))
}

/// The row value of an inverse-binding identity: `star * folded - 1`.
pub open spec fn inverse_row(star: int, folded: int) -> int {
    fsub(fmul(star, folded), 1)
}

proof fn lemma_mul_one(x: int)
    requires
        0 <= x < MODULUS,
    ensures
        fmul(x, 1) == x,
        fmul(1, x) == x,
{
    lemma_fmod_small(x);
}

/// `1 * x + (-1) * y` is `x - y` in the field.
proof fn lemma_difference_terms(x: int, y: int)
    requires
        0 <= x < MODULUS,
        0 <= y < MODULUS,
    ensures
        fadd(fmul(1, x), fadd(fmul(MODULUS - 1, y), 0)) == fsub(x, y),
{
    let m = MODULUS as int;
    lemma_mul_one(x);
    lemma_reduce((m - 1) * y);
    let z = fmul(m - 1, y);
    lemma_fmod_small(z);
    assert((m - 1) * y == -y + m * y) by (nonlinear_arith);
    lemma_congruent((m - 1) * y, -y, y);
    lemma_add_mod_noop_right(x, (m - 1) * y, m);
    lemma_congruent(x + (m - 1) * y, x - y, y);
}

/// The value of a term list `[(1, [a, b, c]), (-1, [d, e])]` at row `i`.
proof fn lemma_zero_sum_terms(ts: Seq<Term>, i: int)
    requires
        ts.len() == 2,
        ts[0].coefficient.val() == 1,
        ts[1].coefficient.val() == MODULUS - 1,
        ts[0].multiplicands@.len() == 3,
        ts[1].multiplicands@.len() == 2,
        forall|j: int| 0 <= j < 3 ==> (#[trigger] ts[0].multiplicands@[j])@[i].wf(),
        forall|j: int| 0 <= j < 2 ==> (#[trigger] ts[1].multiplicands@[j])@[i].wf(),
    ensures
        terms_at(ts, i) == zero_sum_row(
            ts[0].multiplicands@[0]@[i].val(),
            ts[0].multiplicands@[1]@[i].val(),
            ts[0].multiplicands@[2]@[i].val(),
            ts[1].multiplicands@[0]@[i].val(),
            ts[1].multiplicands@[1]@[i].val(),
        ),
{
    reveal_with_fuel(product_at, 4);
    reveal_with_fuel(terms_at, 3);
    let a = ts[0].multiplicands@;
    let b = ts[1].multiplicands@;
    assert(ts[0].multiplicands@[0]@[i].wf());
    assert(ts[0].multiplicands@[1]@[i].wf());
    assert(ts[0].multiplicands@[2]@[i].wf());
    assert(ts[1].multiplicands@[0]@[i].wf());
    assert(ts[1].multiplicands@[1]@[i].wf());
    assert(a.drop_first().drop_first().drop_first().len() == 0);
    lemma_mul_one(a[2]@[i].val());
    assert(product_at(a.drop_first().drop_first(), i) == a[2]@[i].val());
    lemma_reduce(a[1]@[i].val() * a[2]@[i].val());
    assert(product_at(a, i) == fmul(a[0]@[i].val(), fmul(a[1]@[i].val(), a[2]@[i].val())));
    assert(b.drop_first().drop_first().len() == 0);
    lemma_mul_one(b[1]@[i].val());
    assert(product_at(b, i) == fmul(b[0]@[i].val(), b[1]@[i].val()));
    assert(ts.drop_first().drop_first().len() == 0);
    lemma_reduce(a[0]@[i].val() * fmul(a[1]@[i].val(), a[2]@[i].val()));
    lemma_reduce(b[0]@[i].val() * b[1]@[i].val());
    lemma_difference_terms(product_at(a, i), product_at(b, i));
}

/// The value of a term list `[(1, [a, b]), (-1, [])]` at row `i`.
proof fn lemma_inverse_terms(ts: Seq<Term>, i: int)
    requires
        ts.len() == 2,
        ts[0].coefficient.val() == 1,
        ts[1].coefficient.val() == MODULUS - 1,
        ts[0].multiplicands@.len() == 2,
        ts[1].multiplicands@.len() == 0,
        forall|j: int| 0 <= j < 2 ==> (#[trigger] ts[0].multiplicands@[j])@[i].wf(),
    ensures
        terms_at(ts, i) == inverse_row(
            ts[0].multiplicands@[0]@[i].val(),
            ts[0].multiplicands@[1]@[i].val(),
        ),
{
    reveal_with_fuel(product_at, 3);
    reveal_with_fuel(terms_at, 3);
    let a = ts[0].multiplicands@;
    assert(ts[0].multiplicands@[0]@[i].wf());
    assert(ts[0].multiplicands@[1]@[i].wf());
    assert(a.drop_first().drop_first().len() == 0);
    lemma_mul_one(a[1]@[i].val());
    assert(product_at(a, i) == fmul(a[0]@[i].val(), a[1]@[i].val()));
    assert(ts.drop_first().drop_first().len() == 0);
    lemma_reduce(a[0]@[i].val() * a[1]@[i].val());
    lemma_difference_terms(product_at(a, i), 1);
}

/// The all-zero tuple of `len` elements: the values of an output row past the last group.
pub open spec fn zero_row(len: nat) -> Seq<Scalar> {
    Seq::new(len, |j: int| Scalar { v: 0 })
}

/// The key or sum values of output row `k`, zero past the last group.
pub open spec fn out_row(cols: Seq<Vec<Scalar>>, m: int, k: int) -> Seq<Scalar> {
    if k < m {
        row_of(cols, k)
    } else {
        zero_row(cols.len())
    }
}

/// The count of output row `k` as a field element, zero past the last group.
pub open spec fn out_count(count_out: Seq<u64>, k: int) -> int {
    if k < count_out.len() {
        fmod(count_out[k] as int)
    } else {
        0
    }
}

/// A tuple of zeros folds to zero.
pub proof fn lemma_fold_zeros(beta: int, len: nat)
    ensures
        fold(beta, zero_row(len)) == 0,
    decreases len,
{
    if len > 0 {
        assert(zero_row(len).drop_first() =~= zero_row((len - 1) as nat));
        lemma_fold_zeros(beta, (len - 1) as nat);
        lemma_fmod_small(0);
    }
}

/// The sum of `f` over rows where it is zero is zero.
pub proof fn lemma_row_sum_zero(f: spec_fn(int) -> int, n: int)
    requires
        forall|i: int| 0 <= i < n ==> #[trigger] f(i) == 0,
    ensures
        row_sum(f, n) == 0,
    decreases n,
{
    if n > 0 {
        lemma_row_sum_zero(f, n - 1);
        lemma_fmod_small(0);
    }
}

/// Where a fingerprint has an inverse, the prover's witness entry is that inverse, and the
/// identity that binds it vanishes at that row.
pub proof fn lemma_inverse_witnesses(
    old_b: ProofBuilder,
    new_b: ProofBuilder,
    alpha: int,
    beta: int,
    g_in: Seq<Vec<Scalar>>,
    sum_in: Seq<Vec<Scalar>>,
    sel_in: Seq<bool>,
    g_out: Seq<Vec<Scalar>>,
    sum_out: Seq<Vec<Scalar>>,
    count_out: Seq<u64>,
)
    requires
        proves_group_by(old_b, new_b, alpha, beta, g_in, sum_in, sel_in, g_out, sum_out, count_out),
    ensures
        forall|i: int| 0 <= i < old_b.table_length && invertible(g_in_fold(alpha, beta, g_in, i))
            ==> fmul(#[trigger] new_b.intermediate_mles@[old_b.intermediate_mles@.len() as int]@[i].val(), g_in_fold(alpha, beta, g_in, i)) == 1
            && new_b.subpolynomials@[old_b.subpolynomials@.len() as int + 1].at(i) == 0,
        forall|i: int| 0 <= i < old_b.table_length && invertible(g_out_fold(alpha, beta, g_out, count_out.len() as int, i))
            ==> fmul(#[trigger] new_b.intermediate_mles@[old_b.intermediate_mles@.len() as int + 1]@[i].val(), g_out_fold(alpha, beta, g_out, count_out.len() as int, i)) == 1
            && new_b.subpolynomials@[old_b.subpolynomials@.len() as int + 2].at(i) == 0,
{
    let n = old_b.table_length as int;
    let m = count_out.len() as int;
    let w = old_b.intermediate_mles@.len() as int;
    let k = old_b.subpolynomials@.len() as int;
    assert forall|i: int| 0 <= i < n && invertible(g_in_fold(alpha, beta, g_in, i))
        implies fmul(#[trigger] new_b.intermediate_mles@[w]@[i].val(), g_in_fold(alpha, beta, g_in, i)) == 1
            && new_b.subpolynomials@[k + 1].at(i) == 0 by {
        let a = g_in_fold(alpha, beta, g_in, i);
        lemma_inv_range(a);
        assert(a * inv(a) == inv(a) * a) by (nonlinear_arith);
        lemma_fmod_small(0);
    }
    assert forall|i: int| 0 <= i < n && invertible(g_out_fold(alpha, beta, g_out, m, i))
        implies fmul(#[trigger] new_b.intermediate_mles@[w + 1]@[i].val(), g_out_fold(alpha, beta, g_out, m, i)) == 1
            && new_b.subpolynomials@[k + 2].at(i) == 0 by {
        let a = g_out_fold(alpha, beta, g_out, m, i);
        lemma_inv_range(a);
        assert(a * inv(a) == inv(a) * a) by (nonlinear_arith);
        lemma_fmod_small(0);
    }
}

/// At a row of the table, replaying the verify pass on that row's values (the all-ones and
/// selector evaluations being one) gives the values of the prover's three identities there.
pub proof fn lemma_verify_replays_prove(
    old_b: ProofBuilder,
    new_b: ProofBuilder,
    alpha: int,
    beta: int,
    g_in: Seq<Vec<Scalar>>,
    sum_in: Seq<Vec<Scalar>>,
    sel_in: Seq<bool>,
    g_out: Seq<Vec<Scalar>>,
    sum_out: Seq<Vec<Scalar>>,
    count_out: Seq<u64>,
    i: int,
)
    requires
        0 <= alpha < MODULUS,
        0 <= i < old_b.table_length,
        proves_group_by(old_b, new_b, alpha, beta, g_in, sum_in, sel_in, g_out, sum_out, count_out),
    ensures
        group_by_evaluations(
            alpha,
            beta,
            1,
            1,
            row_of(g_in, i),
            row_of(sum_in, i),
            flag(sel_in[i]),
            out_row(g_out, count_out.len() as int, i),
            out_row(sum_out, count_out.len() as int, i),
            out_count(count_out, i),
            new_b.intermediate_mles@[old_b.intermediate_mles@.len() as int]@[i].val(),
            new_b.intermediate_mles@[old_b.intermediate_mles@.len() as int + 1]@[i].val(),
        ) == seq![
            new_b.subpolynomials@[old_b.subpolynomials@.len() as int].at(i),
            new_b.subpolynomials@[old_b.subpolynomials@.len() as int + 1].at(i),
            new_b.subpolynomials@[old_b.subpolynomials@.len() as int + 2].at(i),
        ],
{
    let m = count_out.len() as int;
    let gin = g_in_fold(alpha, beta, g_in, i);
    let gout = g_out_fold(alpha, beta, g_out, m, i);
    lemma_mul_one(alpha);
    lemma_fmod_small(alpha);
    lemma_fmod_small(0);
    if i >= m {
        lemma_fold_zeros(beta, g_out.len());
        lemma_fold_zeros(beta, sum_out.len());
    }
    assert(key_fold_eval(alpha, beta, 1, row_of(g_in, i)) == gin);
    assert(key_fold_eval(alpha, beta, 1, out_row(g_out, m, i)) == gout);
    assert(sum_fold(out_count(count_out, i), beta, out_row(sum_out, m, i)) == sum_out_fold(beta, sum_out, count_out, i));
    let x = fsub(fmul(inv(gin), gin), 1);
    let y = fsub(fmul(inv(gout), gout), 1);
    lemma_reduce(fmul(inv(gin), gin) - 1);
    lemma_reduce(fmul(inv(gout), gout) - 1);
    lemma_mul_one(x);
    lemma_mul_one(y);
    assert(group_by_evaluations(
        alpha,
        beta,
        1,
        1,
        row_of(g_in, i),
        row_of(sum_in, i),
        flag(sel_in[i]),
        out_row(g_out, m, i),
        out_row(sum_out, m, i),
        out_count(count_out, i),
        new_b.intermediate_mles@[old_b.intermediate_mles@.len() as int]@[i].val(),
        new_b.intermediate_mles@[old_b.intermediate_mles@.len() as int + 1]@[i].val(),
    ) =~= seq![
        new_b.subpolynomials@[old_b.subpolynomials@.len() as int].at(i),
        new_b.subpolynomials@[old_b.subpolynomials@.len() as int + 1].at(i),
        new_b.subpolynomials@[old_b.subpolynomials@.len() as int + 2].at(i),
    ]);
}

/// With no group and no selected row, every row of the zero-sum identity is zero, so it
/// holds; the output witness is the inverse of `alpha` on every row, and where `alpha` has an
/// inverse the output binding identity holds too.
pub proof fn lemma_empty_selection(
    old_b: ProofBuilder,
    new_b: ProofBuilder,
    alpha: int,
    beta: int,
    g_in: Seq<Vec<Scalar>>,
    sum_in: Seq<Vec<Scalar>>,
    sel_in: Seq<bool>,
    g_out: Seq<Vec<Scalar>>,
    sum_out: Seq<Vec<Scalar>>,
    count_out: Seq<u64>,
)
    requires
        0 <= alpha < MODULUS,
        count_out.len() == 0,
        forall|i: int| 0 <= i < sel_in.len() ==> !sel_in[i],
        sel_in.len() == old_b.table_length,
        proves_group_by(old_b, new_b, alpha, beta, g_in, sum_in, sel_in, g_out, sum_out, count_out),
    ensures
        new_b.subpolynomials@[old_b.subpolynomials@.len() as int].holds(old_b.table_length as int),
        forall|i: int| 0 <= i < old_b.table_length
            ==> (#[trigger] new_b.intermediate_mles@[old_b.intermediate_mles@.len() as int + 1]@[i]).val() == inv(alpha),
        invertible(alpha) ==> new_b.subpolynomials@[old_b.subpolynomials@.len() as int + 2].holds(old_b.table_length as int),
{
    let n = old_b.table_length as int;
    let k = old_b.subpolynomials@.len() as int;
    let zs = new_b.subpolynomials@[k];
    lemma_fmod_small(alpha);
    lemma_fmod_small(0);
    assert forall|i: int| 0 <= i < n implies #[trigger] zs.at(i) == 0 by {
        let x = inv(g_in_fold(alpha, beta, g_in, i));
        let s_in = sum_in_fold(beta, sum_in, i);
        assert(0 * s_in == 0);
        assert(x * 0 == 0);
        assert(inv(alpha) * 0 == 0);
    }
    lemma_row_sum_zero(|i: int| zs.at(i), n);
    if invertible(alpha) {
        lemma_inverse_witnesses(old_b, new_b, alpha, beta, g_in, sum_in, sel_in, g_out, sum_out, count_out);
        assert forall|i: int| 0 <= i < n implies #[trigger] new_b.subpolynomials@[k + 2].at(i) == 0 by {
            assert(invertible(g_out_fold(alpha, beta, g_out, 0, i)));
            assert(new_b.intermediate_mles@[old_b.intermediate_mles@.len() as int + 1]@[i].val() == inv(alpha));
        }
    }
}

/// Each flag as zero or one.
pub fn mask_column(sel: &Vec<bool>) -> (r: Vec<Scalar>)
    ensures
        r@.len() == sel@.len(),
        column_wf(r@),
        forall|i: int| 0 <= i < sel@.len() ==> (#[trigger] r@[i]).val() == flag(sel@[i]),
{
    let mut r: Vec<Scalar> = Vec::new();
    let mut i: usize = 0;
    while i < sel.len()
        invariant
            i <= sel@.len(),
            r@.len() == i,
            column_wf(r@),
            forall|t: int| 0 <= t < i ==> (#[trigger] r@[t]).val() == flag(sel@[t]),
        decreases sel@.len() - i,
    {
        r.push(Scalar::from_bool(sel[i]));
        i = i + 1;
    }
    r
}

/// Each count as a field element.
pub fn count_column(counts: &Vec<u64>) -> (r: Vec<Scalar>)
    ensures
        r@.len() == counts@.len(),
        column_wf(r@),
        forall|i: int| 0 <= i < counts@.len() ==> (#[trigger] r@[i]).val() == fmod(counts@[i] as int),
{
    let mut r: Vec<Scalar> = Vec::new();
    let mut i: usize = 0;
    while i < counts.len()
        invariant
            i <= counts@.len(),
            r@.len() == i,
            column_wf(r@),
            forall|t: int| 0 <= t < i ==> (#[trigger] r@[t]).val() == fmod(counts@[t] as int),
        decreases counts@.len() - i,
    {
        r.push(Scalar::from_u64(counts[i]));
        i = i + 1;
    }
    r
}

/// The input side of the argument: key columns, sum columns and the selection, all of `n` rows.
pub open spec fn inputs_wf(g_in: Seq<Vec<Scalar>>, sum_in: Seq<Vec<Scalar>>, sel_in: Seq<bool>, n: int) -> bool {
    &&& columns_wf(g_in, n)
    &&& columns_wf(sum_in, n)
    &&& sel_in.len() == n
}

/// The output side: `m <= n` groups with their keys, sums and counts.
pub open spec fn outputs_wf(g_out: Seq<Vec<Scalar>>, sum_out: Seq<Vec<Scalar>>, count_out: Seq<u64>, n: int) -> bool {
    &&& count_out.len() <= n
    &&& columns_wf(g_out, count_out.len() as int)
    &&& columns_wf(sum_out, count_out.len() as int)
}

/// `v` has `n` entries, entry `i` being `f(i)`.
pub open spec fn entries(v: Seq<Scalar>, n: int, f: spec_fn(int) -> int) -> bool {
    &&& v.len() == n
    &&& forall|i: int| 0 <= i < n ==> (#[trigger] v[i]).val() == f(i)
}

/// `p` is `1 * (star * folded) - 1`, with the witness `star` and the folded vector as
/// its two multiplicands.
pub open spec fn inverse_terms(p: Subpolynomial, star: Seq<Scalar>, n: int, folded: spec_fn(int) -> int) -> bool {
    &&& p.terms@.len() == 2
    &&& p.terms@[0].coefficient.val() == 1
    &&& p.terms@[1].coefficient.val() == MODULUS - 1
    &&& p.terms@[0].multiplicands@.len() == 2
    &&& p.terms@[0].multiplicands@[0]@ == star
    &&& entries(p.terms@[0].multiplicands@[1]@, n, folded)
    &&& p.terms@[1].multiplicands@.len() == 0
}

/// The term lists of the three identities: `gInStar * sel * sumIn - gOutStar * sumOut`,
/// `gInStar * gIn - 1` and `gOutStar * gOut - 1`, over the registered witnesses and the folded
/// vectors; no term has more than three multiplicands.
pub open spec fn registers_terms(
    old_b: ProofBuilder,
    new_b: ProofBuilder,
    alpha: int,
    beta: int,
    g_in: Seq<Vec<Scalar>>,
    sum_in: Seq<Vec<Scalar>>,
    sel_in: Seq<bool>,
    g_out: Seq<Vec<Scalar>>,
    sum_out: Seq<Vec<Scalar>>,
    count_out: Seq<u64>,
) -> bool {
    let n = old_b.table_length as int;
    let m = count_out.len() as int;
    let w = old_b.intermediate_mles@.len() as int;
    let k = old_b.subpolynomials@.len() as int;
    let mles = new_b.intermediate_mles@;
    let zs = new_b.subpolynomials@[k];
    &&& zs.terms@.len() == 2
    &&& zs.terms@[0].coefficient.val() == 1
    &&& zs.terms@[1].coefficient.val() == MODULUS - 1
    &&& zs.terms@[0].multiplicands@.len() == 3
    &&& zs.terms@[0].multiplicands@[0]@ == mles[w]@
    &&& entries(zs.terms@[0].multiplicands@[1]@, n, |i: int| flag(sel_in[i]))
    &&& entries(zs.terms@[0].multiplicands@[2]@, n, |i: int| sum_in_fold(beta, sum_in, i))
    &&& zs.terms@[1].multiplicands@.len() == 2
    &&& zs.terms@[1].multiplicands@[0]@ == mles[w + 1]@
    &&& entries(zs.terms@[1].multiplicands@[1]@, n, |i: int| sum_out_fold(beta, sum_out, count_out, i))
    &&& inverse_terms(new_b.subpolynomials@[k + 1], mles[w]@, n, |i: int| g_in_fold(alpha, beta, g_in, i))
    &&& inverse_terms(new_b.subpolynomials@[k + 2], mles[w + 1]@, n, |i: int| g_out_fold(alpha, beta, g_out, m, i))
}

/// What the prove pass adds for one group-by node: the witnesses `gInStar` and `gOutStar`,
/// and the zero-sum and two inverse-binding identities, each given by its value at every row.
pub open spec fn proves_group_by(
    old_b: ProofBuilder,
    new_b: ProofBuilder,
    alpha: int,
    beta: int,
    g_in: Seq<Vec<Scalar>>,
    sum_in: Seq<Vec<Scalar>>,
    sel_in: Seq<bool>,
    g_out: Seq<Vec<Scalar>>,
    sum_out: Seq<Vec<Scalar>>,
    count_out: Seq<u64>,
) -> bool {
    let n = old_b.table_length as int;
    let m = count_out.len() as int;
    let w = old_b.intermediate_mles@.len() as int;
    let k = old_b.subpolynomials@.len() as int;
    let mles = new_b.intermediate_mles@;
    let sp = new_b.subpolynomials@;
    &&& new_b.table_length == old_b.table_length
    &&& new_b.post_result_challenges == old_b.post_result_challenges
    &&& new_b.next_challenge == old_b.next_challenge
    &&& mles.len() == w + 2
    &&& mles.subrange(0, w) == old_b.intermediate_mles@
    &&& mles[w]@.len() == n
    &&& mles[w + 1]@.len() == n
    &&& forall|i: int| 0 <= i < n ==> (#[trigger] mles[w]@[i]).val() == inv(g_in_fold(alpha, beta, g_in, i))
    &&& forall|i: int| 0 <= i < n ==> (#[trigger] mles[w + 1]@[i]).val() == inv(g_out_fold(alpha, beta, g_out, m, i))
    &&& sp.len() == k + 3
    &&& sp.subrange(0, k) == old_b.subpolynomials@
    &&& sp[k].kind == SubpolynomialType::ZeroSum
    &&& sp[k + 1].kind == SubpolynomialType::Identity
    &&& sp[k + 2].kind == SubpolynomialType::Identity
    &&& forall|i: int| 0 <= i < n ==> #[trigger] sp[k].at(i) == zero_sum_row(
        inv(g_in_fold(alpha, beta, g_in, i)),
        flag(sel_in[i]),
        sum_in_fold(beta, sum_in, i),
        inv(g_out_fold(alpha, beta, g_out, m, i)),
        sum_out_fold(beta, sum_out, count_out, i),
    )
    &&& forall|i: int| 0 <= i < n ==> #[trigger] sp[k + 1].at(i) == inverse_row(
        inv(g_in_fold(alpha, beta, g_in, i)),
        g_in_fold(alpha, beta, g_in, i),
    )
    &&& forall|i: int| 0 <= i < n ==> #[trigger] sp[k + 2].at(i) == inverse_row(
        inv(g_out_fold(alpha, beta, g_out, m, i)),
        g_out_fold(alpha, beta, g_out, m, i),
    )
    &&& registers_terms(old_b, new_b, alpha, beta, g_in, sum_in, sel_in, g_out, sum_out, count_out)
}

/// Produces the witnesses and identities of the group-by argument over `n` rows.
pub fn prove_group_by(
    builder: &mut ProofBuilder,
    alpha: Scalar,
    beta: Scalar,
    g_in: &Vec<Vec<Scalar>>,
    sum_in: &Vec<Vec<Scalar>>,
    sel_in: &Vec<bool>,
    g_out: &Vec<Vec<Scalar>>,
    sum_out: &Vec<Vec<Scalar>>,
    count_out: &Vec<u64>,
)
    requires
        alpha.wf(),
        alpha.val() != 0,
        beta.wf(),
        inputs_wf(g_in@, sum_in@, sel_in@, old(builder).table_length as int),
        outputs_wf(g_out@, sum_out@, count_out@, old(builder).table_length as int),
    ensures
        proves_group_by(*old(builder), *final(builder), alpha.val(), beta.val(), g_in@, sum_in@,
            sel_in@, g_out@, sum_out@, count_out@),
{
    let n: usize = builder.table_length();
    let m: usize = count_out.len();
    let ghost a = alpha.val();
    let ghost b = beta.val();
    proof {
        lemma_fmod_small(a);
    }

    let g_in_fold_v = fold_keys(alpha, beta, g_in, n, n);
    let g_out_fold_v = fold_keys(alpha, beta, g_out, m, n);
    let mut ones: Vec<Scalar> = Vec::new();
    let mut i: usize = 0;
    while i < n
        invariant
            i <= n,
            ones@.len() == i,
            forall|t: int| 0 <= t < i ==> (#[trigger] ones@[t]) == (Scalar { v: 1 }),
        decreases n - i,
    {
        ones.push(Scalar::one());
        i = i + 1;
    }
    let sum_in_fold_v = fold_sums(&ones, beta, sum_in, n);
    let counts = count_column(count_out);
    let sum_out_fold_v = fold_sums(&counts, beta, sum_out, n);
    let sel_v = mask_column(sel_in);

    let g_in_star = batch_inversion(&g_in_fold_v);
    let g_out_star = batch_inversion(&g_out_fold_v);

    let ghost old_b = *builder;
    builder.produce_intermediate_mle(g_in_star.clone());
    builder.produce_intermediate_mle(g_out_star.clone());

    let one = Scalar::one();
    let minus_one = one.neg();
    proof {
        lemma_congruent(0 - 1, MODULUS - 1, -1);
        lemma_fmod_small(MODULUS - 1);
    }

    let ghost sel_view = sel_v@;
    let ghost sum_in_view = sum_in_fold_v@;
    let ghost sum_out_view = sum_out_fold_v@;
    let ghost g_in_view = g_in_fold_v@;
    let ghost g_out_view = g_out_fold_v@;
    let zs_a = vec![g_in_star.clone(), sel_v, sum_in_fold_v];
    let zs_b = vec![g_out_star.clone(), sum_out_fold_v];
    let zero_sum = vec![
        Term { coefficient: one, multiplicands: zs_a },
        Term { coefficient: minus_one, multiplicands: zs_b },
    ];
    let ghost zero_sum_terms = zero_sum@;
    builder.produce_sumcheck_subpolynomial(SubpolynomialType::ZeroSum, zero_sum);

    let in_a = vec![g_in_star, g_in_fold_v];
    let in_id = vec![
        Term { coefficient: one, multiplicands: in_a },
        Term { coefficient: minus_one, multiplicands: Vec::new() },
    ];
    let ghost in_terms = in_id@;
    builder.produce_sumcheck_subpolynomial(SubpolynomialType::Identity, in_id);

    let out_a = vec![g_out_star, g_out_fold_v];
    let out_id = vec![
        Term { coefficient: one, multiplicands: out_a },
        Term { coefficient: minus_one, multiplicands: Vec::new() },
    ];
    let ghost out_terms = out_id@;
    builder.produce_sumcheck_subpolynomial(SubpolynomialType::Identity, out_id);

    proof {
        let k = old(builder).subpolynomials@.len() as int;
        let sp = builder.subpolynomials@;
        let w = old(builder).intermediate_mles@.len() as int;
        assert(builder.intermediate_mles@.subrange(0, w) =~= old(builder).intermediate_mles@);
        assert(sp.subrange(0, k) =~= old(builder).subpolynomials@);
        assert(sp[k].terms@ == zero_sum_terms);
        assert(sp[k + 1].terms@ == in_terms);
        assert(sp[k + 2].terms@ == out_terms);
        assert forall|i: int| 0 <= i < n implies #[trigger] sp[k].at(i) == zero_sum_row(
            inv(g_in_fold(a, b, g_in@, i)),
            flag(sel_in@[i]),
            sum_in_fold(b, sum_in@, i),
            inv(g_out_fold(a, b, g_out@, m as int, i)),
            sum_out_fold(b, sum_out@, count_out@, i),
        ) by {
            lemma_inv_range(g_in_fold(a, b, g_in@, i));
            lemma_inv_range(g_out_fold(a, b, g_out@, m as int, i));
            lemma_zero_sum_terms(zero_sum_terms, i);
        }
        assert forall|i: int| 0 <= i < n implies #[trigger] sp[k + 1].at(i) == inverse_row(
            inv(g_in_fold(a, b, g_in@, i)),
            g_in_fold(a, b, g_in@, i),
        ) by {
            lemma_inv_range(g_in_fold(a, b, g_in@, i));
            lemma_inverse_terms(in_terms, i);
        }
        assert forall|i: int| 0 <= i < n implies #[trigger] sp[k + 2].at(i) == inverse_row(
            inv(g_out_fold(a, b, g_out@, m as int, i)),
            g_out_fold(a, b, g_out@, m as int, i),
        ) by {
            lemma_inv_range(g_out_fold(a, b, g_out@, m as int, i));
            lemma_inverse_terms(out_terms, i);
        }
    }
}

/// The verifier's fingerprint of a key tuple from claimed evaluations.
pub open spec fn key_fold_eval(alpha: int, beta: int, one: int, evals: Seq<Scalar>) -> int {
    fadd(fmul(alpha, one), fold(beta, evals))
}

/// The verifier's value of an inverse-binding identity, scaled by the random selector.
pub open spec fn inverse_eval(rand: int, star: int, folded: int, one: int) -> int {
    fmul(rand, fsub(fmul(star, folded), one))
}

/// The three identity values that the verify pass hands on, in order.
pub open spec fn group_by_evaluations(
    alpha: int,
    beta: int,
    one: int,
    rand: int,
    g_in_evals: Seq<Scalar>,
    sum_in_evals: Seq<Scalar>,
    sel_in_eval: int,
    g_out_evals: Seq<Scalar>,
    sum_out_evals: Seq<Scalar>,
    count_out_eval: int,
    g_in_star_eval: int,
    g_out_star_eval: int,
) -> Seq<int> {
    let g_in_fold_eval = key_fold_eval(alpha, beta, one, g_in_evals);
    let g_out_fold_eval = key_fold_eval(alpha, beta, one, g_out_evals);
    let sum_in_fold_eval = sum_fold(one, beta, sum_in_evals);
    let sum_out_fold_eval = sum_fold(count_out_eval, beta, sum_out_evals);
    seq![
        zero_sum_row(g_in_star_eval, sel_in_eval, sum_in_fold_eval, g_out_star_eval, sum_out_fold_eval),
        inverse_eval(rand, g_in_star_eval, g_in_fold_eval, one),
        inverse_eval(rand, g_out_star_eval, g_out_fold_eval, one),
    ]
}

/// Replays the group-by argument on claimed evaluations: reads the two witness evaluations
/// and hands on the values of the three identities.
pub fn verify_group_by(
    builder: &mut VerificationBuilder,
    alpha: Scalar,
    beta: Scalar,
    g_in_evals: &Vec<Scalar>,
    sum_in_evals: &Vec<Scalar>,
    sel_in_eval: Scalar,
    g_out_evals: &Vec<Scalar>,
    sum_out_evals: &Vec<Scalar>,
    count_out_eval: Scalar,
)
    requires
        old(builder).wf(),
        old(builder).intermediate_evaluations.remaining() >= 2,
        alpha.wf(),
        beta.wf(),
        sel_in_eval.wf(),
        count_out_eval.wf(),
        column_wf(g_in_evals@),
        column_wf(sum_in_evals@),
        column_wf(g_out_evals@),
        column_wf(sum_out_evals@),
    ensures
        final(builder).wf(),
        final(builder).same_context(old(builder)),
        final(builder).column_evaluations == old(builder).column_evaluations,
        final(builder).result_evaluations == old(builder).result_evaluations,
        final(builder).post_result_challenges == old(builder).post_result_challenges,
        final(builder).intermediate_evaluations.values == old(builder).intermediate_evaluations.values,
        final(builder).intermediate_evaluations.next == old(builder).intermediate_evaluations.next + 2,
        final(builder).subpolynomial_evaluations@.map_values(|e: Scalar| e.val())
            == old(builder).subpolynomial_evaluations@.map_values(|e: Scalar| e.val()) + group_by_evaluations(
            alpha.val(),
            beta.val(),
            old(builder).one_evaluation.val(),
            old(builder).random_evaluation.val(),
            g_in_evals@,
            sum_in_evals@,
            sel_in_eval.val(),
            g_out_evals@,
            sum_out_evals@,
            count_out_eval.val(),
            old(builder).intermediate_evaluations.values@[old(builder).intermediate_evaluations.next as int].val(),
            old(builder).intermediate_evaluations.values@[old(builder).intermediate_evaluations.next + 1].val(),
        ),
{
    let one_eval = builder.one_evaluation;
    let rand_eval = builder.random_evaluation;

    let g_in_fold_eval = alpha.mul(one_eval).add(fold_vals(beta, g_in_evals));
    let g_out_fold_eval = alpha.mul(one_eval).add(fold_vals(beta, g_out_evals));
    let sum_in_fold_eval = one_eval.add(beta.mul(fold_vals(beta, sum_in_evals)));
    let sum_out_fold_eval = count_out_eval.add(beta.mul(fold_vals(beta, sum_out_evals)));

    let g_in_star_eval = builder.consume_intermediate_mle();
    let g_out_star_eval = builder.consume_intermediate_mle();

    let ghost old_evals = builder.subpolynomial_evaluations@;
    let e1 = g_in_star_eval.mul(sel_in_eval.mul(sum_in_fold_eval)).sub(g_out_star_eval.mul(sum_out_fold_eval));
    builder.produce_sumcheck_subpolynomial_evaluation(e1);
    let e2 = rand_eval.mul(g_in_star_eval.mul(g_in_fold_eval).sub(one_eval));
    builder.produce_sumcheck_subpolynomial_evaluation(e2);
    let e3 = rand_eval.mul(g_out_star_eval.mul(g_out_fold_eval).sub(one_eval));
    builder.produce_sumcheck_subpolynomial_evaluation(e3);
    proof {
        let f = |e: Scalar| e.val();
        assert(builder.subpolynomial_evaluations@ == old_evals.push(e1).push(e2).push(e3));
        assert(builder.subpolynomial_evaluations@.map_values(f) =~= old(builder).subpolynomial_evaluations@.map_values(f)
            + seq![e1.val(), e2.val(), e3.val()]);
    }
}

} // verus!
