//! Grouping of the selected rows by their key tuples, with per-group sums and counts.
use vstd::prelude::*;
use crate::fold::{column_row, column_wf, columns_wf, row_of};
use crate::scalar::{fadd, lemma_fmod_small, Scalar};

verus! {

/// The number of selected rows among the first `t`.
pub open spec fn selected_count(sel: Seq<bool>, t: int) -> int
    decreases t,
{
    if t <= 0 {
        0
    } else {
        selected_count(sel, t - 1) + if sel[t - 1] { 1int } else { 0int }
    }
}

/// The number of selected rows among the first `t` whose key tuple is `key`.
pub open spec fn group_count(g: Seq<Vec<Scalar>>, sel: Seq<bool>, t: int, key: Seq<Scalar>) -> int
    decreases t,
{
    if t <= 0 {
        0
    } else {
        group_count(g, sel, t - 1, key) + if sel[t - 1] && row_of(g, t - 1) == key { 1int } else { 0int }
    }
}

/// The field sum of `col` over the selected rows among the first `t` whose key tuple is `key`.
pub open spec fn group_sum(g: Seq<Vec<Scalar>>, col: Seq<Scalar>, sel: Seq<bool>, t: int, key: Seq<Scalar>) -> int
    decreases t,
{
    if t <= 0 {
        0
    } else if sel[t - 1] && row_of(g, t - 1) == key {
        fadd(group_sum(g, col, sel, t - 1, key), col[t - 1].val())
    } else {
        group_sum(g, col, sel, t - 1, key)
    }
}

/// The distinct key tuples of the selected rows among the first `t`, in order of first
/// appearance.
pub open spec fn first_keys(g: Seq<Vec<Scalar>>, sel: Seq<bool>, t: int) -> Seq<Seq<Scalar>>
    decreases t,
{
    if t <= 0 {
        Seq::empty()
    } else {
        let prev = first_keys(g, sel, t - 1);
        if sel[t - 1] && !prev.contains(row_of(g, t - 1)) {
            prev.push(row_of(g, t - 1))
        } else {
            prev
        }
    }
}

/// The sum of a sequence of counts.
pub open spec fn total(c: Seq<u64>) -> int
    decreases c.len(),
{
    if c.len() == 0 {
        0
    } else {
        total(c.drop_last()) + c.last()
    }
}

proof fn lemma_total_push(c: Seq<u64>, x: u64)
    ensures
        total(c.push(x)) == total(c) + x,
{
    assert(c.push(x).drop_last() =~= c);
}

proof fn lemma_total_update(c: Seq<u64>, k: int, x: u64)
    requires
        0 <= k < c.len(),
    ensures
        total(c.update(k, x)) == total(c) - c[k] + x,
    decreases c.len(),
{
    if k == c.len() - 1 {
        assert(c.update(k, x).drop_last() =~= c.drop_last());
    } else {
        assert(c.update(k, x).drop_last() =~= c.drop_last().update(k, x));
        lemma_total_update(c.drop_last(), k, x);
    }
}

/// A key that no selected row among the first `t` carries has count and sums zero.
proof fn lemma_absent_key(g: Seq<Vec<Scalar>>, col: Seq<Scalar>, sel: Seq<bool>, t: int, key: Seq<Scalar>)
    requires
        forall|i: int| 0 <= i < t && sel[i] ==> row_of(g, i) != key,
    ensures
        group_count(g, sel, t, key) == 0,
        group_sum(g, col, sel, t, key) == 0,
    decreases t,
{
    if t > 0 {
        lemma_absent_key(g, col, sel, t - 1, key);
    }
}

/// The field sum of `col` over the selected rows among the first `t`.
pub open spec fn selected_sum(col: Seq<Scalar>, sel: Seq<bool>, t: int) -> int
    decreases t,
{
    if t <= 0 {
        0
    } else if sel[t - 1] {
        fadd(selected_sum(col, sel, t - 1), col[t - 1].val())
    } else {
        selected_sum(col, sel, t - 1)
    }
}

proof fn lemma_total_at_least_len(c: Seq<u64>)
    requires
        forall|k: int| 0 <= k < c.len() ==> c[k] >= 1,
    ensures
        total(c) >= c.len(),
    decreases c.len(),
{
    if c.len() > 0 {
        lemma_total_at_least_len(c.drop_last());
    }
}

proof fn lemma_none_selected(sel: Seq<bool>, t: int)
    requires
        forall|i: int| 0 <= i < t ==> !sel[i],
    ensures
        selected_count(sel, t) == 0,
    decreases t,
{
    if t > 0 {
        lemma_none_selected(sel, t - 1);
    }
}

proof fn lemma_some_selected(sel: Seq<bool>, t: int)
    requires
        selected_count(sel, t) > 0,
    ensures
        exists|i: int| 0 <= i < t && sel[i],
    decreases t,
{
    if t > 0 && !sel[t - 1] {
        lemma_some_selected(sel, t - 1);
    }
}

/// Without key columns every row has the empty key, so a group gathers the whole selection.
proof fn lemma_empty_key(g: Seq<Vec<Scalar>>, col: Seq<Scalar>, sel: Seq<bool>, t: int)
    requires
        g.len() == 0,
    ensures
        group_count(g, sel, t, Seq::empty()) == selected_count(sel, t),
        group_sum(g, col, sel, t, Seq::empty()) == selected_sum(col, sel, t),
    decreases t,
{
    if t > 0 {
        assert(row_of(g, t - 1) =~= Seq::<Scalar>::empty());
        lemma_empty_key(g, col, sel, t - 1);
    }
}

/// With no selected row there is no group.
pub proof fn lemma_no_selection_no_groups(
    agg: AggregatedColumns,
    g: Seq<Vec<Scalar>>,
    s: Seq<Vec<Scalar>>,
    sel: Seq<bool>,
    n: int,
)
    requires
        aggregates(agg, g, s, sel, n),
        forall|i: int| 0 <= i < n ==> !sel[i],
    ensures
        agg.count_column@.len() == 0,
{
    lemma_none_selected(sel, n);
    lemma_total_at_least_len(agg.count_column@);
}

/// With no key columns, the selected rows form one group, whose count and sums are those of
/// the whole selection; with no selected row there is no group.
pub proof fn lemma_no_keys_one_group(
    agg: AggregatedColumns,
    g: Seq<Vec<Scalar>>,
    s: Seq<Vec<Scalar>>,
    sel: Seq<bool>,
    n: int,
)
    requires
        aggregates(agg, g, s, sel, n),
        g.len() == 0,
    ensures
        selected_count(sel, n) == 0 ==> agg.count_column@.len() == 0,
        selected_count(sel, n) > 0 ==> agg.count_column@.len() == 1
            && agg.count_column@[0] == selected_count(sel, n)
            && forall|j: int| 0 <= j < s.len() ==> (#[trigger] agg.sum_columns@[j]@[0]).val() == selected_sum(s[j]@, sel, n),
{
    let m = agg.count_column@.len() as int;
    let keys = agg.group_by_columns@;
    lemma_total_at_least_len(agg.count_column@);
    if m >= 2 {
        assert(row_of(keys, 0) =~= row_of(keys, 1));
    }
    if selected_count(sel, n) > 0 {
        lemma_some_selected(sel, n);
        let i = choose|i: int| 0 <= i < n && sel[i];
        assert(m >= 1);
        assert(row_of(keys, 0) =~= Seq::<Scalar>::empty());
        lemma_empty_key(g, s[0]@, sel, n);
        assert forall|j: int| 0 <= j < s.len() implies (#[trigger] agg.sum_columns@[j]@[0]).val() == selected_sum(s[j]@, sel, n) by {
            lemma_empty_key(g, s[j]@, sel, n);
        }
    }
}

/// The result of grouping: `m` distinct key tuples (one column per key column), the sum of each
/// sum column per group, and the number of rows per group.
pub struct AggregatedColumns {
    pub group_by_columns: Vec<Vec<Scalar>>,
    pub sum_columns: Vec<Vec<Scalar>>,
    pub count_column: Vec<u64>,
}

/// `a` is the grouping of the selected rows of `g` (keys) and `s` (sums) over `n` rows.
pub open spec fn aggregates(
    a: AggregatedColumns,
    g: Seq<Vec<Scalar>>,
    s: Seq<Vec<Scalar>>,
    sel: Seq<bool>,
    n: int,
) -> bool {
    let m = a.count_column@.len() as int;
    let keys = a.group_by_columns@;
    &&& keys.len() == g.len()
    &&& m == first_keys(g, sel, n).len()
    &&& forall|k: int| 0 <= k < m ==> #[trigger] row_of(keys, k) == first_keys(g, sel, n)[k]
    &&& a.sum_columns@.len() == s.len()
    &&& columns_wf(keys, m)
    &&& columns_wf(a.sum_columns@, m)
    &&& forall|k1: int, k2: int|
        0 <= k1 < m && 0 <= k2 < m && k1 != k2 ==> row_of(keys, k1) != row_of(keys, k2)
    &&& forall|i: int| 0 <= i < n && sel[i] ==> exists|k: int| 0 <= k < m && row_of(keys, k) == row_of(g, i)
    &&& forall|k: int| 0 <= k < m ==> a.count_column@[k] as int == group_count(g, sel, n, row_of(keys, k))
    &&& forall|k: int| 0 <= k < m ==> a.count_column@[k] >= 1
    &&& forall|j: int, k: int|
        0 <= j < s.len() && 0 <= k < m ==> (#[trigger] a.sum_columns@[j]@[k]).val() == group_sum(
            g,
            s[j]@,
            sel,
            n,
            row_of(keys, k),
        )
    &&& total(a.count_column@) == selected_count(sel, n)
}

/// The grouping is unique: two results that both group the same selected rows hold the same
/// keys, sums and counts, in the same order.
pub proof fn lemma_aggregation_unique(
    a1: AggregatedColumns,
    a2: AggregatedColumns,
    g: Seq<Vec<Scalar>>,
    s: Seq<Vec<Scalar>>,
    sel: Seq<bool>,
    n: int,
)
    requires
        aggregates(a1, g, s, sel, n),
        aggregates(a2, g, s, sel, n),
    ensures
        a1.count_column@ == a2.count_column@,
        forall|j: int| 0 <= j < g.len() ==> (#[trigger] a1.group_by_columns@[j])@ == a2.group_by_columns@[j]@,
        forall|j: int| 0 <= j < s.len() ==> (#[trigger] a1.sum_columns@[j])@ == a2.sum_columns@[j]@,
{
    let m = a1.count_column@.len() as int;
    let fk = first_keys(g, sel, n);
    assert forall|k: int| 0 <= k < m implies a1.count_column@[k] == a2.count_column@[k] by {
        assert(row_of(a1.group_by_columns@, k) == fk[k]);
        assert(row_of(a2.group_by_columns@, k) == fk[k]);
    }
    assert(a1.count_column@ =~= a2.count_column@);
    assert forall|j: int| 0 <= j < g.len() implies (#[trigger] a1.group_by_columns@[j])@ == a2.group_by_columns@[j]@ by {
        assert forall|k: int| 0 <= k < m implies a1.group_by_columns@[j]@[k] == a2.group_by_columns@[j]@[k] by {
            assert(row_of(a1.group_by_columns@, k) == fk[k]);
            assert(row_of(a2.group_by_columns@, k) == fk[k]);
            assert(row_of(a1.group_by_columns@, k)[j] == a1.group_by_columns@[j]@[k]);
            assert(row_of(a2.group_by_columns@, k)[j] == a2.group_by_columns@[j]@[k]);
        }
        assert(a1.group_by_columns@[j]@ =~= a2.group_by_columns@[j]@);
    }
    assert forall|j: int| 0 <= j < s.len() implies (#[trigger] a1.sum_columns@[j])@ == a2.sum_columns@[j]@ by {
        assert forall|k: int| 0 <= k < m implies a1.sum_columns@[j]@[k] == a2.sum_columns@[j]@[k] by {
            assert(row_of(a1.group_by_columns@, k) == fk[k]);
            assert(row_of(a2.group_by_columns@, k) == fk[k]);
            assert(a1.sum_columns@[j]@[k].val() == a2.sum_columns@[j]@[k].val());
        }
        assert(a1.sum_columns@[j]@ =~= a2.sum_columns@[j]@);
    }
}

proof fn lemma_same_rows(g1: Seq<Vec<Scalar>>, g2: Seq<Vec<Scalar>>, col: Seq<Scalar>, sel: Seq<bool>, t: int, key: Seq<Scalar>)
    requires
        forall|i: int| 0 <= i < t ==> #[trigger] row_of(g1, i) == row_of(g2, i),
    ensures
        group_count(g1, sel, t, key) == group_count(g2, sel, t, key),
        group_sum(g1, col, sel, t, key) == group_sum(g2, col, sel, t, key),
        first_keys(g1, sel, t) == first_keys(g2, sel, t),
    decreases t,
{
    if t > 0 {
        lemma_same_rows(g1, g2, col, sel, t - 1, key);
        assert(row_of(g1, t - 1) == row_of(g2, t - 1));
    }
}

/// Whether a result groups some columns depends only on their values.
pub proof fn lemma_grouping_same_views(
    a: AggregatedColumns,
    g1: Seq<Vec<Scalar>>,
    g2: Seq<Vec<Scalar>>,
    s1: Seq<Vec<Scalar>>,
    s2: Seq<Vec<Scalar>>,
    sel: Seq<bool>,
    n: int,
)
    requires
        aggregates(a, g2, s2, sel, n),
        g1.len() == g2.len(),
        s1.len() == s2.len(),
        forall|j: int| 0 <= j < s1.len() ==> (#[trigger] s1[j])@ == s2[j]@,
        forall|i: int| 0 <= i < n ==> #[trigger] row_of(g1, i) == row_of(g2, i),
    ensures
        aggregates(a, g1, s1, sel, n),
{
    let m = a.count_column@.len() as int;
    let keys = a.group_by_columns@;
    lemma_same_rows(g1, g2, s1[0]@, sel, n, Seq::empty());
    assert forall|k: int| 0 <= k < m implies a.count_column@[k] as int == group_count(g1, sel, n, row_of(keys, k)) by {
        lemma_same_rows(g1, g2, s1[0]@, sel, n, row_of(keys, k));
    }
    assert forall|j: int, k: int| 0 <= j < s1.len() && 0 <= k < m implies (#[trigger] a.sum_columns@[j]@[k]).val()
        == group_sum(g1, s1[j]@, sel, n, row_of(keys, k)) by {
        lemma_same_rows(g1, g2, s1[j]@, sel, n, row_of(keys, k));
    }
    assert forall|i: int| 0 <= i < n && sel[i] implies exists|k: int| 0 <= k < m && row_of(keys, k) == row_of(g1, i) by {
        assert(row_of(g1, i) == row_of(g2, i));
    }
}

/// The two sequences are equal.
fn scalars_equal(a: &Vec<Scalar>, b: &Vec<Scalar>) -> (r: bool)
    ensures
        r == (a@ == b@),
{
    if a.len() != b.len() {
        return false;
    }
    let mut i: usize = 0;
    while i < a.len()
        invariant
            a@.len() == b@.len(),
            i <= a@.len(),
            forall|t: int| 0 <= t < i ==> a@[t] == b@[t],
        decreases a@.len() - i,
    {
        if a[i] != b[i] {
            return false;
        }
        i = i + 1;
    }
    assert(a@ =~= b@);
    true
}

/// Each of `acc[j] + s[j][i]`.
fn add_row(acc: &Vec<Scalar>, s: &Vec<Vec<Scalar>>, i: usize) -> (r: Vec<Scalar>)
    requires
        acc@.len() == s@.len(),
        column_wf(acc@),
        forall|j: int| 0 <= j < s@.len() ==> i < (#[trigger] s@[j])@.len() && column_wf(s@[j]@),
    ensures
        r@.len() == acc@.len(),
        column_wf(r@),
        forall|j: int| 0 <= j < acc@.len() ==> (#[trigger] r@[j]).val() == fadd(acc@[j].val(), s@[j]@[i as int].val()),
{
    let mut r: Vec<Scalar> = Vec::new();
    let mut j: usize = 0;
    while j < acc.len()
        invariant
            acc@.len() == s@.len(),
            j <= acc@.len(),
            column_wf(acc@),
            forall|j: int| 0 <= j < s@.len() ==> i < (#[trigger] s@[j])@.len() && column_wf(s@[j]@),
            r@.len() == j,
            column_wf(r@),
            forall|t: int| 0 <= t < j ==> (#[trigger] r@[t]).val() == fadd(acc@[t].val(), s@[t]@[i as int].val()),
        decreases acc@.len() - j,
    {
        assert(column_wf(s@[j as int]@));
        r.push(acc[j].add(s[j][i]));
        j = j + 1;
    }
    r
}

/// Turns a list of rows of width `w` into `w` columns.
fn transpose(rows: &Vec<Vec<Scalar>>, w: usize) -> (r: Vec<Vec<Scalar>>)
    requires
        forall|k: int| 0 <= k < rows@.len() ==> (#[trigger] rows@[k])@.len() == w && column_wf(rows@[k]@),
    ensures
        r@.len() == w,
        columns_wf(r@, rows@.len() as int),
        forall|k: int| 0 <= k < rows@.len() ==> row_of(r@, k) == (#[trigger] rows@[k])@,
{
    let mut r: Vec<Vec<Scalar>> = Vec::new();
    let mut j: usize = 0;
    while j < w
        invariant
            j <= w,
            forall|k: int| 0 <= k < rows@.len() ==> (#[trigger] rows@[k])@.len() == w && column_wf(rows@[k]@),
            r@.len() == j,
            columns_wf(r@, rows@.len() as int),
            forall|t: int, k: int| 0 <= t < j && 0 <= k < rows@.len() ==> (#[trigger] r@[t]@[k]) == rows@[k]@[t],
        decreases w - j,
    {
        let mut col: Vec<Scalar> = Vec::new();
        let mut k: usize = 0;
        while k < rows.len()
            invariant
                j < w,
                k <= rows@.len(),
                forall|k: int| 0 <= k < rows@.len() ==> (#[trigger] rows@[k])@.len() == w && column_wf(rows@[k]@),
                col@.len() == k,
                column_wf(col@),
                forall|t: int| 0 <= t < k ==> (#[trigger] col@[t]) == rows@[t]@[j as int],
            decreases rows@.len() - k,
        {
            assert(column_wf(rows@[k as int]@));
            col.push(rows[k][j]);
            k = k + 1;
        }
        r.push(col);
        j = j + 1;
    }
    assert forall|k: int| 0 <= k < rows@.len() implies row_of(r@, k) == (#[trigger] rows@[k])@ by {
        assert(row_of(r@, k) =~= rows@[k]@);
    }
    r
}

/// The grouping state after the first `t` rows: `m` rows of distinct keys, of sums and counts.
pub open spec fn grouped(
    keys: Seq<Vec<Scalar>>,
    sums: Seq<Vec<Scalar>>,
    counts: Seq<u64>,
    g: Seq<Vec<Scalar>>,
    s: Seq<Vec<Scalar>>,
    sel: Seq<bool>,
    t: int,
) -> bool {
    let m = counts.len();
    &&& keys.len() == m
    &&& sums.len() == m
    &&& m == first_keys(g, sel, t).len()
    &&& forall|k: int| 0 <= k < m ==> (#[trigger] keys[k])@ == first_keys(g, sel, t)[k]
    &&& forall|k: int| 0 <= k < m ==> (#[trigger] keys[k])@.len() == g.len() && column_wf(keys[k]@)
    &&& forall|k: int| 0 <= k < m ==> (#[trigger] sums[k])@.len() == s.len() && column_wf(sums[k]@)
    &&& forall|k1: int, k2: int| 0 <= k1 < m && 0 <= k2 < m && k1 != k2 ==> keys[k1]@ != keys[k2]@
    &&& forall|i: int| 0 <= i < t && sel[i] ==> exists|k: int| 0 <= k < m && keys[k]@ == row_of(g, i)
    &&& forall|k: int| 0 <= k < m ==> (#[trigger] counts[k]) as int == group_count(g, sel, t, keys[k]@)
    &&& forall|k: int| 0 <= k < m ==> 1 <= #[trigger] counts[k] <= t
    &&& forall|k: int, j: int| 0 <= k < m && 0 <= j < s.len() ==> (#[trigger] sums[k]@[j]).val() == group_sum(g, s[j]@, sel, t, keys[k]@)
    &&& total(counts) == selected_count(sel, t)
}

/// Groups the selected rows by their key tuples, in order of first appearance, and sums each
/// sum column and counts the rows of each group.
pub fn aggregate_columns(
    group_by_columns: &Vec<Vec<Scalar>>,
    sum_columns: &Vec<Vec<Scalar>>,
    selection: &Vec<bool>,
) -> (r: AggregatedColumns)
    requires
        columns_wf(group_by_columns@, selection@.len() as int),
        columns_wf(sum_columns@, selection@.len() as int),
    ensures
        aggregates(r, group_by_columns@, sum_columns@, selection@, selection@.len() as int),
        r.count_column@.len() <= selection@.len(),
{
    let g = group_by_columns;
    let s = sum_columns;
    let n: usize = selection.len();
    let mut keys: Vec<Vec<Scalar>> = Vec::new();
    let mut sums: Vec<Vec<Scalar>> = Vec::new();
    let mut counts: Vec<u64> = Vec::new();
    let mut t: usize = 0;
    while t < n
        invariant
            n == selection@.len(),
            t <= n,
            columns_wf(g@, n as int),
            columns_wf(s@, n as int),
            grouped(keys@, sums@, counts@, g@, s@, selection@, t as int),
            counts@.len() <= t,
        decreases n - t,
    {
        let ghost ok = keys@;
        let ghost os = sums@;
        let ghost oc = counts@;
        let ghost ti = t as int;
        let ghost fk = first_keys(g@, selection@, ti);
        if selection[t] {
            let row = column_row(g, t);
            let mut k: usize = 0;
            let mut found: bool = false;
            while k < keys.len() && !found
                invariant
                    k <= keys@.len(),
                    found ==> k < keys@.len() && keys@[k as int]@ == row@,
                    forall|k2: int| 0 <= k2 < k && !found ==> keys@[k2]@ != row@,
                decreases keys@.len() - k + if found { 0int } else { 1int },
            {
                if scalars_equal(&keys[k], &row) {
                    found = true;
                } else {
                    k = k + 1;
                }
            }
            if found {
                proof {
                    assert(fk[k as int] == row@);
                    assert(fk.contains(row@));
                    assert(first_keys(g@, selection@, ti + 1) == fk);
                }
                let c: u64 = counts[k] + 1;
                counts.set(k, c);
                let new_sums = add_row(&sums[k], s, t);
                sums.set(k, new_sums);
                proof {
                    assert(ok[k as int]@ == row_of(g@, ti));
                    assert forall|k2: int| 0 <= k2 < oc.len() implies (#[trigger] counts@[k2]) as int
                        == group_count(g@, selection@, ti + 1, keys@[k2]@) by {
                        if k2 != k {
                            assert(keys@[k2]@ != row@);
                        }
                    }
                    assert forall|k2: int, j: int| 0 <= k2 < oc.len() && 0 <= j < s@.len() implies (#[trigger] sums@[k2]@[j]).val()
                        == group_sum(g@, s@[j]@, selection@, ti + 1, keys@[k2]@) by {
                        if k2 != k {
                            assert(keys@[k2]@ != row@);
                        }
                    }
                    lemma_total_update(oc, k as int, c);
                    assert forall|i: int| 0 <= i < ti + 1 && selection@[i] implies exists|k2: int| 0 <= k2 < counts@.len() && keys@[k2]@ == row_of(g@, i) by {
                        if i == ti {
                            assert(keys@[k as int]@ == row_of(g@, i));
                        }
                    }
                }
            } else {
                let first_sums = column_row(s, t);
                proof {
                    if fk.contains(row@) {
                        let idx = choose|idx: int| 0 <= idx < fk.len() && fk[idx] == row@;
                        assert(ok[idx]@ == fk[idx]);
                    }
                    assert(first_keys(g@, selection@, ti + 1) == fk.push(row@));
                    assert forall|i: int| 0 <= i < ti && selection@[i] implies row_of(g@, i) != row@ by {
                        let k2 = choose|k2: int| 0 <= k2 < ok.len() && ok[k2]@ == row_of(g@, i);
                        assert(ok[k2]@ != row@);
                    }
                    lemma_absent_key(g@, s@[0]@, selection@, ti, row@);
                    assert forall|j: int| 0 <= j < s@.len() implies (#[trigger] first_sums@[j]).val() == group_sum(g@, s@[j]@, selection@, ti + 1, row@) by {
                        lemma_absent_key(g@, s@[j]@, selection@, ti, row@);
                        assert(column_wf(s@[j]@));
                        assert(s@[j]@[ti].wf());
                        assert(first_sums@[j] == s@[j]@[ti]);
                        lemma_fmod_small(first_sums@[j].val());
                    }
                    assert forall|j: int| 0 <= j < first_sums@.len() implies #[trigger] first_sums@[j].wf() by {
                        assert(column_wf(s@[j]@));
                    }
                    assert forall|j: int| 0 <= j < row@.len() implies #[trigger] row@[j].wf() by {
                        assert(column_wf(g@[j]@));
                    }
                }
                keys.push(row);
                sums.push(first_sums);
                counts.push(1);
                proof {
                    let m = oc.len() as int;
                    assert(keys@[m] == row);
                    assert forall|k2: int| 0 <= k2 < m implies (#[trigger] counts@[k2]) as int
                        == group_count(g@, selection@, ti + 1, keys@[k2]@) by {
                        assert(keys@[k2]@ != row@);
                    }
                    assert forall|k2: int, j: int| 0 <= k2 < m && 0 <= j < s@.len() implies (#[trigger] sums@[k2]@[j]).val()
                        == group_sum(g@, s@[j]@, selection@, ti + 1, keys@[k2]@) by {
                        assert(keys@[k2]@ != row@);
                        assert(sums@[k2] == os[k2]);
                    }
                    lemma_total_push(oc, 1);
                    assert forall|k2: int| 0 <= k2 < counts@.len() implies (#[trigger] keys@[k2])@ == first_keys(g@, selection@, ti + 1)[k2] by {
                        if k2 < m {
                            assert(keys@[k2] == ok[k2]);
                        }
                    }
                    assert forall|i: int| 0 <= i < ti + 1 && selection@[i] implies exists|k2: int| 0 <= k2 < counts@.len() && keys@[k2]@ == row_of(g@, i) by {
                        if i == ti {
                            assert(keys@[m]@ == row_of(g@, i));
                        } else {
                            let k2 = choose|k2: int| 0 <= k2 < ok.len() && ok[k2]@ == row_of(g@, i);
                            assert(keys@[k2] == ok[k2]);
                        }
                    }
                }
            }
        } else {
            proof {
                assert forall|k2: int, j: int| 0 <= k2 < oc.len() && 0 <= j < s@.len() implies (#[trigger] sums@[k2]@[j]).val()
                    == group_sum(g@, s@[j]@, selection@, ti + 1, keys@[k2]@) by {
                }
            }
        }
        t = t + 1;
    }
    let gw: usize = g.len();
    let sw: usize = s.len();
    let group_by_columns_out = transpose(&keys, gw);
    let sum_columns_out = transpose(&sums, sw);
    let r = AggregatedColumns {
        group_by_columns: group_by_columns_out,
        sum_columns: sum_columns_out,
        count_column: counts,
    };
    proof {
        let m = counts@.len() as int;
        assert forall|j: int, k: int| 0 <= j < s@.len() && 0 <= k < m implies (#[trigger] r.sum_columns@[j]@[k]).val()
            == group_sum(g@, s@[j]@, selection@, n as int, row_of(r.group_by_columns@, k)) by {
            assert(row_of(r.sum_columns@, k) == sums@[k]@);
            assert(row_of(r.sum_columns@, k)[j] == r.sum_columns@[j]@[k]);
            assert(row_of(r.group_by_columns@, k) == keys@[k]@);
        }
        assert forall|i: int| 0 <= i < n && selection@[i] implies exists|k: int| 0 <= k < m && row_of(r.group_by_columns@, k) == row_of(g@, i) by {
            let k = choose|k: int| 0 <= k < m && keys@[k]@ == row_of(g@, i);
            assert(row_of(r.group_by_columns@, k) == keys@[k]@);
        }
        assert forall|k: int| 0 <= k < m implies #[trigger] row_of(r.group_by_columns@, k) == first_keys(g@, selection@, n as int)[k] by {
            assert(row_of(r.group_by_columns@, k) == keys@[k]@);
        }
        assert forall|k: int| 0 <= k < m implies r.count_column@[k] as int == group_count(g@, selection@, n as int, row_of(r.group_by_columns@, k)) by {
            assert(row_of(r.group_by_columns@, k) == keys@[k]@);
        }
        assert forall|k1: int, k2: int| 0 <= k1 < m && 0 <= k2 < m && k1 != k2 implies row_of(r.group_by_columns@, k1) != row_of(r.group_by_columns@, k2) by {
            assert(row_of(r.group_by_columns@, k1) == keys@[k1]@);
            assert(row_of(r.group_by_columns@, k2) == keys@[k2]@);
        }
    }
    r
}

} // verus!
