//! Mathematical sums over sequences, and the exchange-of-summation facts the
//! protocol's correctness rests on.

use vstd::prelude::*;

verus! {

/// Sum of a sequence of mathematical integers.
pub open spec fn sum_int(s: Seq<int>) -> int
    decreases s.len(),
{
    if s.len() == 0 {
        0
    } else {
        sum_int(s.drop_last()) + s.last()
    }
}

/// A `Vec<i64>`'s contents as mathematical integers.
pub open spec fn ints_of(s: Seq<i64>) -> Seq<int> {
    s.map_values(|x: i64| x as int)
}

/// A table of share rows as mathematical integers.
pub open spec fn matrix_of(rows: Seq<Vec<i64>>) -> Seq<Seq<int>> {
    rows.map_values(|row: Vec<i64>| ints_of(row@))
}

/// Column `j` of a table, read across all rows.
pub open spec fn col(m: Seq<Seq<int>>, j: int) -> Seq<int> {
    Seq::new(m.len(), |i: int| m[i][j])
}

/// Every column's sum, for a table of `n` columns.
pub open spec fn col_sums(m: Seq<Seq<int>>, n: int) -> Seq<int> {
    Seq::new(n as nat, |j: int| sum_int(col(m, j)))
}

/// Every row's sum.
pub open spec fn row_sums(m: Seq<Seq<int>>) -> Seq<int> {
    m.map_values(|row: Seq<int>| sum_int(row))
}

/// Column `j` of a table with every row not yet marked in `mask` read as zero.
pub open spec fn masked_col(m: Seq<Seq<int>>, j: int, mask: Seq<bool>) -> Seq<int> {
    Seq::new(m.len(), |i: int| if mask[i] { m[i][j] } else { 0 })
}

pub proof fn lemma_sum_push(s: Seq<int>, v: int)
    ensures
        sum_int(s.push(v)) == sum_int(s) + v,
{
    assert(s.push(v).drop_last() =~= s);
}

/// Replacing one element changes the sum by exactly the difference.
pub proof fn lemma_sum_update(s: Seq<int>, i: int, v: int)
    requires
        0 <= i < s.len(),
    ensures
        sum_int(s.update(i, v)) == sum_int(s) - s[i] + v,
    decreases s.len(),
{
    if i == s.len() - 1 {
        assert(s.update(i, v).drop_last() =~= s.drop_last());
    } else {
        lemma_sum_update(s.drop_last(), i, v);
        assert(s.update(i, v).drop_last() =~= s.drop_last().update(i, v));
    }
}

/// A sum of values each within `b` of zero is within `len * b` of zero.
pub proof fn lemma_sum_bound(s: Seq<int>, b: int)
    requires
        b >= 0,
        forall|i: int| 0 <= i < s.len() ==> -b <= #[trigger] s[i] <= b,
    ensures
        -((s.len() as int) * b) <= sum_int(s) <= (s.len() as int) * b,
    decreases s.len(),
{
    if s.len() == 0 {
    } else {
        lemma_sum_bound(s.drop_last(), b);
        assert(((s.len() - 1) as int) * b + b == (s.len() as int) * b) by (nonlinear_arith);
    }
}

/// Summing two sequences pointwise sums their totals.
pub proof fn lemma_sum_pointwise_add(x: Seq<int>, y: Seq<int>)
    requires
        x.len() == y.len(),
    ensures
        sum_int(Seq::new(x.len(), |j: int| x[j] + y[j])) == sum_int(x) + sum_int(y),
    decreases x.len(),
{
    if x.len() == 0 {
        assert(Seq::new(x.len(), |j: int| x[j] + y[j]) =~= Seq::<int>::empty());
    } else {
        lemma_sum_pointwise_add(x.drop_last(), y.drop_last());
        let z = Seq::new(x.len(), |j: int| x[j] + y[j]);
        assert(z.drop_last() =~= Seq::new(
            x.drop_last().len(),
            |j: int| x.drop_last()[j] + y.drop_last()[j],
        ));
        assert(z.last() == x.last() + y.last());
    }
}

/// Counting a table by columns gives the same total as counting it by rows.
pub proof fn lemma_matrix_total(m: Seq<Seq<int>>, n: int)
    requires
        n >= 0,
        forall|i: int| 0 <= i < m.len() ==> #[trigger] m[i].len() == n,
    ensures
        sum_int(col_sums(m, n)) == sum_int(row_sums(m)),
    decreases m.len(),
{
    if m.len() == 0 {
        lemma_sum_bound(col_sums(m, n), 0);
        assert((col_sums(m, n).len() as int) * 0 == 0) by (nonlinear_arith);
        assert(row_sums(m) =~= Seq::<int>::empty());
    } else {
        let m0 = m.drop_last();
        let r = m.last();
        lemma_matrix_total(m0, n);
        assert forall|j: int| 0 <= j < n implies #[trigger] col_sums(m, n)[j] == col_sums(m0, n)[j]
            + r[j] by {
            assert(col(m, j) =~= col(m0, j).push(r[j]));
            lemma_sum_push(col(m0, j), r[j]);
        }
        let rr = Seq::new(n as nat, |j: int| r[j]);
        assert(col_sums(m, n) =~= Seq::new(n as nat, |j: int| col_sums(m0, n)[j] + rr[j]));
        lemma_sum_pointwise_add(col_sums(m0, n), rr);
        assert(rr =~= r);
        assert(row_sums(m).drop_last() =~= row_sums(m0));
        assert(row_sums(m).last() == sum_int(r));
    }
}

/// How many entries of a mask are set.
pub open spec fn count_true(s: Seq<bool>) -> int
    decreases s.len(),
{
    if s.len() == 0 {
        0
    } else {
        count_true(s.drop_last()) + if s.last() {
            1int
        } else {
            0int
        }
    }
}

pub proof fn lemma_count_true_bounds(s: Seq<bool>)
    ensures
        0 <= count_true(s) <= s.len(),
    decreases s.len(),
{
    if s.len() > 0 {
        lemma_count_true_bounds(s.drop_last());
    }
}

/// Setting one unset entry raises the count by one.
pub proof fn lemma_count_true_update(s: Seq<bool>, i: int)
    requires
        0 <= i < s.len(),
        !s[i],
    ensures
        count_true(s.update(i, true)) == count_true(s) + 1,
    decreases s.len(),
{
    if i == s.len() - 1 {
        assert(s.update(i, true).drop_last() =~= s.drop_last());
    } else {
        lemma_count_true_update(s.drop_last(), i);
        assert(s.update(i, true).drop_last() =~= s.drop_last().update(i, true));
    }
}

/// A mask with two distinct unset entries is at least two short of full.
pub proof fn lemma_count_true_two_unset(s: Seq<bool>, i: int, j: int)
    requires
        0 <= i < s.len(),
        0 <= j < s.len(),
        i != j,
        !s[i],
        !s[j],
    ensures
        count_true(s) <= s.len() - 2,
{
    lemma_count_true_update(s, i);
    lemma_count_true_update(s.update(i, true), j);
    lemma_count_true_bounds(s.update(i, true).update(j, true));
}

/// A mask set everywhere but at one entry counts its length minus one.
pub proof fn lemma_count_true_except(s: Seq<bool>, c: int)
    requires
        0 <= c < s.len(),
        !s[c],
        forall|i: int| 0 <= i < s.len() && i != c ==> s[i],
    ensures
        count_true(s) == s.len() - 1,
    decreases s.len(),
{
    if c == s.len() - 1 {
        lemma_count_true_all(s.drop_last());
    } else {
        lemma_count_true_except(s.drop_last(), c);
    }
}

/// An empty mask counts zero.
pub proof fn lemma_count_true_none(s: Seq<bool>)
    requires
        forall|i: int| 0 <= i < s.len() ==> !s[i],
    ensures
        count_true(s) == 0,
    decreases s.len(),
{
    if s.len() > 0 {
        lemma_count_true_none(s.drop_last());
    }
}

/// A fully set mask counts its length.
pub proof fn lemma_count_true_all(s: Seq<bool>)
    requires
        forall|i: int| 0 <= i < s.len() ==> s[i],
    ensures
        count_true(s) == s.len(),
    decreases s.len(),
{
    if s.len() > 0 {
        lemma_count_true_all(s.drop_last());
    }
}

/// Marking row `i` in the mask adds exactly that row's entry to the masked
/// column sum.
pub proof fn lemma_masked_col_set(m: Seq<Seq<int>>, j: int, mask: Seq<bool>, i: int)
    requires
        mask.len() == m.len(),
        0 <= i < m.len(),
        !mask[i],
    ensures
        sum_int(masked_col(m, j, mask.update(i, true))) == sum_int(masked_col(m, j, mask))
            + m[i][j],
{
    assert(masked_col(m, j, mask.update(i, true)) =~= masked_col(m, j, mask).update(i, m[i][j]));
    lemma_sum_update(masked_col(m, j, mask), i, m[i][j]);
    assert(masked_col(m, j, mask)[i] == 0);
}

/// With nothing marked, a masked column sums to zero.
pub proof fn lemma_masked_col_empty(m: Seq<Seq<int>>, j: int, mask: Seq<bool>)
    requires
        mask.len() == m.len(),
        forall|i: int| 0 <= i < mask.len() ==> !mask[i],
    ensures
        sum_int(masked_col(m, j, mask)) == 0,
{
    lemma_sum_bound(masked_col(m, j, mask), 0);
    assert((masked_col(m, j, mask).len() as int) * 0 == 0) by (nonlinear_arith);
}

/// With every row but `c` marked, a masked column sums to the whole column
/// minus row `c`'s entry.
pub proof fn lemma_masked_col_full(m: Seq<Seq<int>>, j: int, mask: Seq<bool>, c: int)
    requires
        mask.len() == m.len(),
        0 <= c < m.len(),
        !mask[c],
        forall|i: int| 0 <= i < mask.len() && i != c ==> mask[i],
    ensures
        sum_int(masked_col(m, j, mask)) == sum_int(col(m, j)) - m[c][j],
{
    assert(masked_col(m, j, mask) =~= col(m, j).update(c, 0));
    lemma_sum_update(col(m, j), c, 0);
}

} // verus!
