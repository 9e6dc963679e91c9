//! Splitting a trade volume into parts across several exchanges.
//!
//! `amounts[i][k]` is what exchange `i` returns for `k` parts of the volume.
//! The dynamic program below picks, for every exchange, how many parts it
//! gets so that the total return is as large as possible.
use vstd::prelude::*;

use crate::error::OneSolError;
use crate::processor::Processor;

verus! {

/// The state of the inner maximisation for exchange `i` and `j` parts after
/// the candidates `1..=k` for exchange `i`'s own share were looked at:
/// the best value so far and the parts that remain for exchanges `0..i`.
///
/// Row `0` gives every part to exchange `0`. For a later row, the start is
/// "exchange `i` gets nothing"; a candidate replaces the current best only
/// when it is strictly larger, so the first best candidate wins.
pub open spec fn cell(a: Seq<Seq<i64>>, i: int, j: int, k: int) -> (int, int)
    decreases i, k,
{
    if i <= 0 {
        (a[0][j] as int, 0)
    } else if k <= 0 {
        (cell(a, i - 1, j, j).0, j)
    } else {
        let prev = cell(a, i, j, k - 1);
        let cand = cell(a, i - 1, j - k, j - k).0 + a[i][k];
        if cand > prev.0 {
            (cand, j - k)
        } else {
            prev
        }
    }
}

/// Best total return of exchanges `0..=i` sharing `j` parts.
pub open spec fn best(a: Seq<Seq<i64>>, i: int, j: int) -> int {
    cell(a, i, j, j).0
}

/// Parts left for exchanges `0..i` in the best split of `j` parts over `0..=i`.
pub open spec fn parent(a: Seq<Seq<i64>>, i: int, j: int) -> int {
    cell(a, i, j, j).1
}

/// The value the program adds when exchange `i` takes `k` of `j` parts.
pub open spec fn candidate(a: Seq<Seq<i64>>, i: int, j: int, k: int) -> int {
    best(a, i - 1, j - k) + a[i][k]
}

/// Every sum that the program forms for `n` exchanges and `s` parts fits in an `i64`.
pub open spec fn dp_fits(a: Seq<Seq<i64>>, n: int, s: int) -> bool {
    forall|i: int, j: int, k: int|
        1 <= i < n && 1 <= k <= j <= s ==> i64::MIN <= #[trigger] candidate(a, i, j, k)
            <= i64::MAX
}

/// The rows are long enough for every index the program reads.
pub open spec fn rows_cover(a: Seq<Seq<i64>>, s: int) -> bool {
    &&& a.len() >= 1
    &&& a[0].len() > s
    &&& forall|i: int| 1 <= i < a.len() ==> s == 0 || #[trigger] a[i].len() > s
}

/// Walks the parent links back from exchange `ex` with `left` parts, writing
/// each exchange's share into `d`.
pub open spec fn backtrack(a: Seq<Seq<i64>>, ex: int, left: int, d: Seq<u64>) -> Seq<u64>
    decreases ex + 1,
{
    if ex < 0 || left <= 0 {
        d
    } else {
        let p = parent(a, ex, left);
        backtrack(a, ex - 1, p, d.update(ex, (left - p) as u64))
    }
}

/// The distribution of `s` parts over the exchanges of `a`, in a vector of `size` entries.
pub open spec fn best_distribution(a: Seq<Seq<i64>>, s: int, size: nat) -> Seq<u64> {
    backtrack(a, a.len() - 1, s, Seq::new(size, |x: int| 0u64))
}

/// What exchange `x` contributes when it gets `d` parts: an exchange other
/// than the first one that gets nothing contributes nothing.
pub open spec fn gain(a: Seq<Seq<i64>>, x: int, d: int) -> int {
    if x == 0 || d > 0 {
        a[x][d] as int
    } else {
        0
    }
}

/// Total return of a distribution over exchanges `0..=upto`.
pub open spec fn total(a: Seq<Seq<i64>>, d: Seq<u64>, upto: int) -> int
    decreases upto + 1,
{
    if upto < 0 {
        0
    } else {
        total(a, d, upto - 1) + gain(a, upto, d[upto] as int)
    }
}

/// Number of parts a distribution hands to exchanges `0..=upto`.
pub open spec fn parts_sum(d: Seq<u64>, upto: int) -> int
    decreases upto + 1,
{
    if upto < 0 {
        0
    } else {
        parts_sum(d, upto - 1) + d[upto]
    }
}

/// The inner maximisation only ever improves on "exchange `i` gets nothing"
/// and on each candidate it has looked at.
proof fn lemma_cell_max(a: Seq<Seq<i64>>, i: int, j: int, k: int)
    requires
        i >= 1,
        0 <= k <= j,
    ensures
        cell(a, i, j, k).0 >= best(a, i - 1, j),
        forall|m: int| 1 <= m <= k ==> cell(a, i, j, k).0 >= #[trigger] candidate(a, i, j, m),
    decreases k,
{
    if k > 0 {
        lemma_cell_max(a, i, j, k - 1);
    }
}

/// The value of the inner maximisation is realised by its parent link.
proof fn lemma_cell_witness(a: Seq<Seq<i64>>, i: int, j: int, k: int)
    requires
        i >= 1,
        0 <= k <= j,
    ensures
        j - k <= cell(a, i, j, k).1 <= j,
        cell(a, i, j, k).1 == j ==> cell(a, i, j, k).0 == best(a, i - 1, j),
        cell(a, i, j, k).1 < j ==> cell(a, i, j, k).0 == best(a, i - 1, cell(a, i, j, k).1)
            + a[i][j - cell(a, i, j, k).1],
    decreases k,
{
    if k > 0 {
        lemma_cell_witness(a, i, j, k - 1);
    }
}

/// A best split's value is what the remaining exchanges get plus the share
/// of exchange `i`.
proof fn lemma_parent_split(a: Seq<Seq<i64>>, i: int, j: int)
    requires
        i >= 1,
        j >= 0,
    ensures
        0 <= parent(a, i, j) <= j,
        best(a, i, j) == best(a, i - 1, parent(a, i, j)) + gain(a, i, j - parent(a, i, j)),
{
    lemma_cell_witness(a, i, j, j);
}

/// With no parts to share, every row is worth what the first exchange gives for nothing.
proof fn lemma_best_zero(a: Seq<Seq<i64>>, i: int)
    requires
        i >= 0,
    ensures
        best(a, i, 0) == a[0][0],
    decreases i,
{
    if i > 0 {
        lemma_best_zero(a, i - 1);
    }
}

proof fn lemma_total_zero(a: Seq<Seq<i64>>, d: Seq<u64>, upto: int)
    requires
        upto < d.len(),
        forall|x: int| 0 <= x <= upto ==> d[x] == 0,
    ensures
        upto >= 0 ==> total(a, d, upto) == a[0][0],
        parts_sum(d, upto) == 0,
    decreases upto + 1,
{
    if upto >= 0 {
        lemma_total_zero(a, d, upto - 1);
        assert(d[upto] == 0);
        if upto == 0 {
            assert(total(a, d, -1) == 0);
            assert(parts_sum(d, -1) == 0);
        }
    }
}

/// `total` and `parts_sum` only look at the entries up to `upto`.
proof fn lemma_prefix_only(a: Seq<Seq<i64>>, d1: Seq<u64>, d2: Seq<u64>, upto: int)
    requires
        forall|x: int| 0 <= x <= upto ==> d1[x] == d2[x],
    ensures
        total(a, d1, upto) == total(a, d2, upto),
        parts_sum(d1, upto) == parts_sum(d2, upto),
    decreases upto + 1,
{
    if upto >= 0 {
        lemma_prefix_only(a, d1, d2, upto - 1);
    }
}

/// Walking the parent links from `ex` with `left` parts writes a split of
/// exactly `left` parts over `0..=ex` whose value is the best one, and
/// leaves the entries above `ex` alone.
proof fn lemma_backtrack(a: Seq<Seq<i64>>, ex: int, left: int, d: Seq<u64>)
    requires
        -1 <= ex < d.len(),
        0 <= left <= u64::MAX,
        forall|x: int| 0 <= x <= ex ==> d[x] == 0,
    ensures
        backtrack(a, ex, left, d).len() == d.len(),
        forall|x: int| ex < x < d.len() ==> #[trigger] backtrack(a, ex, left, d)[x] == d[x],
        ex >= 0 ==> parts_sum(backtrack(a, ex, left, d), ex) == left,
        ex >= 0 ==> total(a, backtrack(a, ex, left, d), ex) == best(a, ex, left),
    decreases ex + 1,
{
    if ex < 0 {
    } else if left <= 0 {
        lemma_total_zero(a, d, ex);
        lemma_best_zero(a, ex);
    } else {
        let p = parent(a, ex, left);
        if ex == 0 {
            assert(p == 0);
        } else {
            lemma_parent_split(a, ex, left);
        }
        let d2 = d.update(ex, (left - p) as u64);
        lemma_backtrack(a, ex - 1, p, d2);
        let r = backtrack(a, ex - 1, p, d2);
        assert(r == backtrack(a, ex, left, d));
        if ex == 0 {
            assert(r[0] == left);
            assert(parts_sum(r, -1) == 0);
            assert(total(a, r, -1) == 0);
        } else {
            assert(r[ex] == left - p);
        }
    }
}

/// No split of `j` parts over exchanges `0..=i` is worth more than the best one.
proof fn lemma_best_upper(a: Seq<Seq<i64>>, i: int, d: Seq<u64>, j: int)
    requires
        0 <= i < d.len(),
        parts_sum(d, i) == j,
    ensures
        total(a, d, i) <= best(a, i, j),
    decreases i,
{
    lemma_parts_nonneg(d, i - 1);
    if i == 0 {
        assert(parts_sum(d, -1) == 0);
        assert(total(a, d, -1) == 0);
    } else {
        let k = d[i] as int;
        lemma_best_upper(a, i - 1, d, j - k);
        lemma_cell_max(a, i, j, j);
        if k > 0 {
            assert(candidate(a, i, j, k) == best(a, i - 1, j - k) + a[i][k]);
            assert(best(a, i, j) >= candidate(a, i, j, k));
        }
    }
}

proof fn lemma_parts_nonneg(d: Seq<u64>, upto: int)
    ensures
        parts_sum(d, upto) >= 0,
    decreases upto + 1,
{
    if upto >= 0 {
        lemma_parts_nonneg(d, upto - 1);
    }
}

/// The split of `s` parts that the program returns hands out exactly `s`
/// parts over the exchanges of `a`, and no split of `s` parts over them is
/// worth more.
pub proof fn lemma_best_distribution_is_optimal(a: Seq<Seq<i64>>, s: u64, size: nat, d: Seq<u64>)
    requires
        a.len() >= 1,
        a.len() <= size,
        d.len() >= a.len(),
        parts_sum(d, a.len() - 1) == s,
    ensures
        best_distribution(a, s as int, size).len() == size,
        parts_sum(best_distribution(a, s as int, size), a.len() - 1) == s,
        total(a, best_distribution(a, s as int, size), a.len() - 1) == best(
            a,
            a.len() - 1,
            s as int,
        ),
        total(a, d, a.len() - 1) <= total(a, best_distribution(a, s as int, size), a.len() - 1),
{
    let z = Seq::new(size, |x: int| 0u64);
    lemma_backtrack(a, a.len() - 1, s as int, z);
    lemma_best_upper(a, a.len() - 1, d, s as int);
}

/// The distribution has room for one entry per exchange, and every exchange
/// past the last one gets no part.
pub proof fn lemma_best_distribution_shape(a: Seq<Seq<i64>>, s: u64, size: nat)
    requires
        a.len() >= 1,
        a.len() <= size,
    ensures
        best_distribution(a, s as int, size).len() == size,
        forall|x: int|
            a.len() <= x < size ==> #[trigger] best_distribution(a, s as int, size)[x] == 0,
{
    let z = Seq::new(size, |x: int| 0u64);
    lemma_backtrack(a, a.len() - 1, s as int, z);
}

/// `b` is `a` with every return the search reads multiplied by `c`.
pub open spec fn scaled_by(a: Seq<Seq<i64>>, b: Seq<Seq<i64>>, c: int, s: int) -> bool {
    &&& b.len() == a.len()
    &&& forall|i: int, k: int|
        0 <= i < a.len() && 0 <= k <= s && (i == 0 || s > 0) ==> #[trigger] b[i][k] == c * a[i][k]
}

proof fn lemma_scale_order(c: int, x: int, y: int)
    requires
        c > 0,
    ensures
        (c * x > c * y) == (x > y),
{
    assert((c * x > c * y) == (x > y)) by (nonlinear_arith)
        requires
            c > 0,
    ;
}

/// Scaling the returns scales every value of the search and keeps every
/// parent link.
proof fn lemma_cell_scaled(a: Seq<Seq<i64>>, b: Seq<Seq<i64>>, c: int, s: int, i: int, j: int, k: int)
    requires
        c > 0,
        scaled_by(a, b, c, s),
        0 <= i < a.len(),
        0 <= k <= j <= s,
    ensures
        cell(b, i, j, k).0 == c * cell(a, i, j, k).0,
        cell(b, i, j, k).1 == cell(a, i, j, k).1,
    decreases i, k,
{
    if i <= 0 {
        assert(b[0][j] == c * a[0][j]);
    } else if k <= 0 {
        lemma_cell_scaled(a, b, c, s, i - 1, j, j);
    } else {
        lemma_cell_scaled(a, b, c, s, i, j, k - 1);
        lemma_cell_scaled(a, b, c, s, i - 1, j - k, j - k);
        assert(b[i][k] == c * a[i][k]);
        let prev = cell(a, i, j, k - 1).0;
        let cand = cell(a, i - 1, j - k, j - k).0 + a[i][k];
        let x = cell(a, i - 1, j - k, j - k).0;
        let y = a[i][k] as int;
        assert(c * (x + y) == c * x + c * y) by (nonlinear_arith);
        lemma_scale_order(c, cand, prev);
    }
}

proof fn lemma_backtrack_scaled(
    a: Seq<Seq<i64>>,
    b: Seq<Seq<i64>>,
    c: int,
    s: int,
    ex: int,
    left: int,
    d: Seq<u64>,
)
    requires
        c > 0,
        scaled_by(a, b, c, s),
        -1 <= ex < a.len(),
        0 <= left <= s,
    ensures
        backtrack(b, ex, left, d) == backtrack(a, ex, left, d),
    decreases ex + 1,
{
    if ex >= 0 && left > 0 {
        lemma_cell_scaled(a, b, c, s, ex, left, left);
        let p = parent(a, ex, left);
        if ex >= 1 {
            lemma_parent_split(a, ex, left);
        }
        lemma_backtrack_scaled(a, b, c, s, ex - 1, p, d.update(ex, (left - p) as u64));
    }
}

/// Multiplying every return by the same positive factor does not change
/// the distribution.
pub proof fn lemma_distribution_scale_invariant(
    a: Seq<Seq<i64>>,
    b: Seq<Seq<i64>>,
    c: int,
    s: u64,
    size: nat,
)
    requires
        c > 0,
        scaled_by(a, b, c, s as int),
    ensures
        best_distribution(b, s as int, size) == best_distribution(a, s as int, size),
{
    lemma_backtrack_scaled(a, b, c, s as int, a.len() - 1, s as int, Seq::new(size, |x: int| 0u64));
}

/// With a single exchange, the distribution gives it every part.
pub proof fn lemma_single_exchange_takes_all(a: Seq<Seq<i64>>, s: u64, size: nat)
    requires
        a.len() == 1,
        size >= 1,
    ensures
        best_distribution(a, s as int, size)[0] == s,
{
    let z = Seq::new(size, |x: int| 0u64);
    lemma_backtrack(a, 0, s as int, z);
    assert(parts_sum(best_distribution(a, s as int, size), -1) == 0);
}

/// `d` hands out exactly `s` parts over the exchanges of `a`, and no other
/// split of `s` parts over them is worth more.
pub open spec fn best_split(a: Seq<Seq<i64>>, s: int, d: Seq<u64>) -> bool {
    &&& parts_sum(d, a.len() - 1) == s
    &&& forall|e: Seq<u64>|
        e.len() >= a.len() && #[trigger] parts_sum(e, a.len() - 1) == s ==> total(a, e, a.len() - 1)
            <= total(a, d, a.len() - 1)
}

proof fn lemma_best_split(a: Seq<Seq<i64>>, s: u64, size: nat)
    requires
        a.len() >= 1,
        a.len() <= size,
    ensures
        best_split(a, s as int, best_distribution(a, s as int, size)),
{
    let d = best_distribution(a, s as int, size);
    lemma_backtrack(a, a.len() - 1, s as int, Seq::new(size, |x: int| 0u64));
    assert forall|e: Seq<u64>|
        e.len() >= a.len() && #[trigger] parts_sum(e, a.len() - 1) == s implies total(
        a,
        e,
        a.len() - 1,
    ) <= total(a, d, a.len() - 1) by {
        lemma_best_upper(a, a.len() - 1, e, s as int);
    }
}

/// The quotes of the second reserve: one more than each size of the split.
pub open spec fn second_reserve_quotes(amount: u64, parts: u64) -> Seq<u64> {
    Seq::new(parts as nat, |i: int| (interpolation(amount, parts)[i] + 1) as u64)
}

impl Processor {
    /// Finds the best way to split `s` parts of a volume across the exchanges
    /// whose returns are the rows of `amounts`; the result has `size` entries,
    /// the share of exchange `i` at index `i`.
    pub fn _find_best_distribution(s: u64, amounts: Vec<Vec<i64>>, size: usize) -> (distribution:
        Vec<u64>)
        requires
            rows_cover(amounts.deep_view(), s as int),
            dp_fits(amounts.deep_view(), amounts.len() as int, s as int),
            s == 0 || amounts.len() <= size,
        ensures
            distribution@ == best_distribution(amounts.deep_view(), s as int, size as nat),
            amounts.len() <= size ==> best_split(amounts.deep_view(), s as int, distribution@),
    {
        proof {
            if amounts.len() <= size {
                lemma_best_split(amounts.deep_view(), s, size as nat);
            }
        }
        let ghost a = amounts.deep_view();
        let n = amounts.len();
        let first_len = amounts[0].len();
        assert(a[0].len() == first_len);
        let rows: usize = (s as usize) + 1;
        let mut answer: Vec<Vec<i64>> = Vec::new();
        let mut parent_of: Vec<Vec<u64>> = Vec::new();

        // The first exchange takes every part.
        let mut first: Vec<i64> = Vec::new();
        let mut first_parent: Vec<u64> = Vec::new();
        let mut j: usize = 0;
        while j < rows
            invariant
                a == amounts.deep_view(),
                rows == s + 1,
                rows_cover(a, s as int),
                j <= rows,
                first.len() == j,
                first_parent.len() == j,
                forall|c: int| 0 <= c < j ==> first[c] == best(a, 0, c),
                forall|c: int| 0 <= c < j ==> first_parent[c] == parent(a, 0, c),
            decreases rows - j,
        {
            assert(a[0][j as int] == amounts[0]@[j as int]);
            first.push(amounts[0][j]);
            first_parent.push(0);
            j = j + 1;
        }
        answer.push(first);
        parent_of.push(first_parent);

        let mut i: usize = 1;
        while i < n
            invariant
                a == amounts.deep_view(),
                n == amounts.len(),
                rows == s + 1,
                rows_cover(a, s as int),
                dp_fits(a, n as int, s as int),
                1 <= i <= n,
                answer.len() == i,
                parent_of.len() == i,
                forall|r: int| 0 <= r < i ==> #[trigger] answer@[r]@.len() == rows,
                forall|r: int| 0 <= r < i ==> #[trigger] parent_of@[r]@.len() == rows,
                forall|r: int, c: int|
                    0 <= r < i && 0 <= c < rows ==> #[trigger] answer@[r]@[c] == best(a, r, c),
                forall|r: int, c: int|
                    0 <= r < i && 0 <= c < rows ==> #[trigger] parent_of@[r]@[c] == parent(a, r, c),
            decreases n - i,
        {
            let mut row: Vec<i64> = Vec::new();
            let mut row_parent: Vec<u64> = Vec::new();
            let mut j: usize = 0;
            while j < rows
                invariant
                    a == amounts.deep_view(),
                    n == amounts.len(),
                    rows == s + 1,
                    rows_cover(a, s as int),
                    dp_fits(a, n as int, s as int),
                    1 <= i < n,
                    answer.len() == i,
                    forall|r: int| 0 <= r < i ==> #[trigger] answer@[r]@.len() == rows,
                    forall|r: int, c: int|
                        0 <= r < i && 0 <= c < rows ==> #[trigger] answer@[r]@[c] == best(a, r, c),
                    j <= rows,
                    row.len() == j,
                    row_parent.len() == j,
                    forall|c: int| 0 <= c < j ==> row[c] == best(a, i as int, c),
                    forall|c: int| 0 <= c < j ==> row_parent[c] == parent(a, i as int, c),
                decreases rows - j,
            {
                assert(answer@[i - 1]@.len() == rows);
                let mut cur: i64 = answer[i - 1][j];
                let mut par: u64 = j as u64;
                let mut k: usize = 1;
                while k <= j
                    invariant
                        a == amounts.deep_view(),
                        n == amounts.len(),
                        rows == s + 1,
                        rows_cover(a, s as int),
                        dp_fits(a, n as int, s as int),
                        1 <= i < n,
                        answer.len() == i,
                        forall|r: int| 0 <= r < i ==> #[trigger] answer@[r]@.len() == rows,
                        forall|r: int, c: int|
                            0 <= r < i && 0 <= c < rows ==> #[trigger] answer@[r]@[c] == best(a, r, c),
                        j < rows,
                        1 <= k <= j + 1,
                        cur as int == cell(a, i as int, j as int, k - 1).0,
                        par as int == cell(a, i as int, j as int, k - 1).1,
                    decreases j + 1 - k,
                {
                    assert(a[i as int].len() > s);
                    assert(a[i as int][k as int] == amounts[i as int]@[k as int]);
                    assert(i64::MIN <= candidate(a, i as int, j as int, k as int) <= i64::MAX);
                    let cand: i64 = answer[i - 1][j - k] + amounts[i][k];
                    if cand > cur {
                        cur = cand;
                        par = (j - k) as u64;
                    }
                    k = k + 1;
                }
                row.push(cur);
                row_parent.push(par);
                j = j + 1;
            }
            answer.push(row);
            parent_of.push(row_parent);
            i = i + 1;
        }

        // Walk the parent links back from the last exchange.
        let mut distribution: Vec<u64> = Vec::new();
        let mut z: usize = 0;
        while z < size
            invariant
                z <= size,
                distribution@ == Seq::new(z as nat, |x: int| 0u64),
            decreases size - z,
        {
            distribution.push(0);
            z = z + 1;
        }
        let mut parts_left: u64 = s;
        let mut cur_exchange: usize = n - 1;
        proof {
            assert(distribution@ == Seq::new(size as nat, |x: int| 0u64));
        }
        while parts_left > 0
            invariant_except_break
                a == amounts.deep_view(),
                n == amounts.len(),
                rows == s + 1,
                s == 0 || n <= size,
                cur_exchange < n,
                parts_left <= s,
                distribution.len() == size,
                answer.len() == n,
                parent_of.len() == n,
                forall|r: int| 0 <= r < n ==> #[trigger] parent_of@[r]@.len() == rows,
                forall|r: int, c: int|
                    0 <= r < n && 0 <= c < rows ==> #[trigger] parent_of@[r]@[c] == parent(a, r, c),
                backtrack(a, cur_exchange as int, parts_left as int, distribution@)
                    == best_distribution(a, s as int, size as nat),
            ensures
                distribution@ == best_distribution(a, s as int, size as nat),
            decreases cur_exchange,
        {
            assert(parent_of@[cur_exchange as int]@.len() == rows);
            let p = parent_of[cur_exchange][parts_left as usize];
            proof {
                if cur_exchange == 0 {
                    assert(p == 0);
                } else {
                    lemma_parent_split(a, cur_exchange as int, parts_left as int);
                }
            }
            distribution.set(cur_exchange, parts_left - p);
            parts_left = p;
            if cur_exchange == 0 {
                proof {
                    assert(backtrack(a, -1, parts_left as int, distribution@) == distribution@);
                }
                break;
            }
            cur_exchange = cur_exchange - 1;
        }
        distribution
    }
}


/// `parts` evenly spaced sizes up to `value`: entry `i` is `value * (i + 1) / parts`.
pub open spec fn interpolation(value: u64, parts: u64) -> Seq<u64> {
    Seq::new(parts as nat, |i: int| ((value * (i + 1)) / (parts as int)) as u64)
}

/// The computations of `interpolation` stay within `u64`.
pub open spec fn interpolation_fits(value: u64, parts: u64) -> bool {
    value * parts <= u64::MAX
}

/// What a quote contributes: its amount, or nothing when it failed.
pub open spec fn ok_or_zero(r: Result<u64, OneSolError>) -> u64 {
    match r {
        Ok(v) => v,
        Err(_) => 0,
    }
}

/// `v` is what a call of `calculate` on `x` may contribute.
pub open spec fn is_quote<T: Fn(u64) -> Result<u64, OneSolError>>(calculate: T, x: u64, v: u64) -> bool {
    exists|r: Result<u64, OneSolError>|
        #[trigger] call_ensures(calculate, (x,), r) && v == ok_or_zero(r)
}

/// `rets` holds, for each of the `parts` sizes, a return that `calculate`
/// may give for that size.
pub open spec fn quotes_of<T: Fn(u64) -> Result<u64, OneSolError>>(
    calculate: T,
    amount: u64,
    parts: u64,
    rets: Seq<u64>,
) -> bool {
    &&& rets.len() == parts
    &&& forall|j: int|
        0 <= j < parts ==> #[trigger] is_quote(calculate, interpolation(amount, parts)[j], rets[j])
}

/// `rets` holds one row of possible returns per calculator.
pub open spec fn quote_table<T: Fn(u64) -> Result<u64, OneSolError>>(
    calculates: Seq<T>,
    amount: u64,
    parts: u64,
    rets: Seq<Seq<u64>>,
) -> bool {
    &&& rets.len() == calculates.len()
    &&& forall|i: int|
        0 <= i < calculates.len() ==> #[trigger] quotes_of(calculates[i], amount, parts, rets[i])
}

/// The returns as the distribution search reads them: column `c` is the
/// return for `c` parts, column `0` is nothing.
pub open spec fn raw_matrix(rets: Seq<Seq<u64>>, parts: u64) -> Seq<Seq<i64>> {
    Seq::new(
        rets.len(),
        |i: int|
            Seq::new(
                (parts + 1) as nat,
                |c: int|
                    if c == 0 {
                        0i64
                    } else {
                        rets[i][c - 1] as i64
                    },
            ),
    )
}

/// Some exchange gives a positive return for some number of parts.
pub open spec fn any_positive(m: Seq<Seq<i64>>, parts: u64) -> bool {
    exists|i: int, c: int| 0 <= i < m.len() && 1 <= c <= parts && #[trigger] m[i][c] > 0
}

/// When no return is positive, a zero return for some parts counts as the
/// worst possible value, so that it is never preferred.
pub open spec fn expected_matrix(rets: Seq<Seq<u64>>, parts: u64) -> Seq<Seq<i64>> {
    let m = raw_matrix(rets, parts);
    if any_positive(m, parts) {
        m
    } else {
        Seq::new(
            m.len(),
            |i: int|
                Seq::new(
                    (parts + 1) as nat,
                    |c: int|
                        if c >= 1 && m[i][c] == 0 {
                            i64::MIN
                        } else {
                            m[i][c]
                        },
                ),
        )
    }
}

/// Entries of `interpolation` never pass `value`, grow with the index, and
/// the last one is `value` itself.
pub proof fn lemma_interpolation_shape(value: u64, parts: u64)
    requires
        parts > 0,
        interpolation_fits(value, parts),
    ensures
        interpolation(value, parts)[parts - 1] == value,
        forall|i: int| 0 <= i < parts ==> #[trigger] interpolation(value, parts)[i] <= value,
        forall|i: int, k: int|
            0 <= i <= k < parts ==> #[trigger] interpolation(value, parts)[i]
                <= #[trigger] interpolation(value, parts)[k],
{
    let p = parts as int;
    let v = value as int;
    assert(v * p / p == v) by (nonlinear_arith)
        requires
            p > 0,
    ;
    assert forall|i: int| 0 <= i < parts implies #[trigger] interpolation(value, parts)[i]
        <= value by {
        assert(v * (i + 1) / p <= v) by (nonlinear_arith)
            requires
                p > 0,
                0 <= i < p,
                v >= 0,
        ;
        assert(0 <= v * (i + 1) / p) by (nonlinear_arith)
            requires
                p > 0,
                0 <= i,
                v >= 0,
        ;
    }
    assert forall|i: int, k: int| 0 <= i <= k < parts implies #[trigger] interpolation(
        value,
        parts,
    )[i] <= #[trigger] interpolation(value, parts)[k] by {
        assert(v * (i + 1) / p <= v * (k + 1) / p) by (nonlinear_arith)
            requires
                p > 0,
                0 <= i <= k,
                v >= 0,
        ;
        assert(v * (k + 1) / p <= v) by (nonlinear_arith)
            requires
                p > 0,
                0 <= k < p,
                v >= 0,
        ;
        assert(0 <= v * (i + 1) / p) by (nonlinear_arith)
            requires
                p > 0,
                0 <= i,
                v >= 0,
        ;
    }
}

impl Processor {
    /// Splits `value` into `parts` growing sizes: entry `i` is
    /// `value * (i + 1) / parts`, so the sizes lie in `0..=value`.
    #[allow(non_snake_case)]
    pub fn _linearInterpolation(value: u64, parts: u64) -> (rets: Vec<u64>)
        requires
            interpolation_fits(value, parts),
        ensures
            rets@ == interpolation(value, parts),
    {
        let mut rets: Vec<u64> = Vec::new();
        let mut i: u64 = 0;
        while i < parts
            invariant
                interpolation_fits(value, parts),
                i <= parts,
                rets@ == interpolation(value, parts).take(i as int),
            decreases parts - i,
        {
            assert(value * (i + 1) <= value * parts) by (nonlinear_arith)
                requires
                    i < parts,
            ;
            let r = value * (i + 1) / parts;
            rets.push(r);
            i = i + 1;
            assert(rets@ =~= interpolation(value, parts).take(i as int));
        }
        assert(rets@ =~= interpolation(value, parts));
        rets
    }

    /// Asks `calculate` for the return of each size of the split of `amount`
    /// into `parts`; a failed quote counts as nothing. The second value is
    /// the cost of the quotes, which is nothing.
    pub fn _calculate_swap<T: Copy + Fn(u64) -> Result<u64, OneSolError>>(
        amount: u64,
        parts: u64,
        calculate: T,
    ) -> (res: (Vec<u64>, u64))
        requires
            interpolation_fits(amount, parts),
            forall|x: u64| call_requires(calculate, (x,)),
        ensures
            quotes_of(calculate, amount, parts, res.0@),
            res.1 == 0,
    {
        let amounts = Self::_linearInterpolation(amount, parts);
        let mut rets: Vec<u64> = Vec::new();
        let mut i: usize = 0;
        while i < amounts.len()
            invariant
                amounts@ == interpolation(amount, parts),
                forall|x: u64| call_requires(calculate, (x,)),
                i <= amounts.len(),
                rets.len() == i,
                forall|j: int|
                    0 <= j < i ==> #[trigger] is_quote(
                        calculate,
                        interpolation(amount, parts)[j],
                        rets@[j],
                    ),
            decreases amounts.len() - i,
        {
            let out = calculate(amounts[i]);
            let ret = match out {
                Ok(ret) => ret,
                Err(_) => 0,
            };
            rets.push(ret);
            assert(call_ensures(calculate, (interpolation(amount, parts)[i as int],), out));
            assert(is_quote(calculate, interpolation(amount, parts)[i as int], rets@[i as int]));
            i = i + 1;
        }
        assert(rets@.len() == parts);
        (rets, 0)
    }

    /// A calculator that never returns anything: every size of the split
    /// is worth nothing, at no cost.
    #[allow(non_snake_case)]
    pub fn _calculateNoReturn(amount: u64, parts: u64, flags: u64) -> (res: (Vec<u64>, u64))
        ensures
            res.0@ == Seq::new(parts as nat, |i: int| 0u64),
            res.1 == 0,
    {
        let mut rets: Vec<u64> = Vec::new();
        let mut i: u64 = 0;
        while i < parts
            invariant
                i <= parts,
                rets@ == Seq::new(i as nat, |x: int| 0u64),
            decreases parts - i,
        {
            rets.push(0);
            i = i + 1;
            assert(rets@ =~= Seq::new(i as nat, |x: int| 0u64));
        }
        (rets, 0)
    }

    /// The second reserve: each size of the split of `amount` into `parts`
    /// returns one more than the size, at no cost.
    #[allow(non_snake_case)]
    pub fn _calculateSwap2(amount: u64, parts: u64) -> (res: (Vec<u64>, u64))
        requires
            interpolation_fits(amount, parts),
            parts == 0 || amount < u64::MAX,
        ensures
            res.0@ == second_reserve_quotes(amount, parts),
            res.1 == 0,
    {
        let amounts = Self::_linearInterpolation(amount, parts);
        let mut rets: Vec<u64> = Vec::new();
        let mut i: usize = 0;
        while i < amounts.len()
            invariant
                amounts@ == interpolation(amount, parts),
                parts == 0 || amount < u64::MAX,
                interpolation_fits(amount, parts),
                i <= amounts.len(),
                rets@ == second_reserve_quotes(amount, parts).take(i as int),
            decreases amounts.len() - i,
        {
            proof {
                lemma_interpolation_shape(amount, parts);
                assert(amounts@[i as int] <= amount);
            }
            rets.push(amounts[i] + 1);
            i = i + 1;
            assert(rets@ =~= second_reserve_quotes(amount, parts).take(i as int));
        }
        assert(rets@ =~= second_reserve_quotes(amount, parts));
        (rets, 0)
    }

    /// Splits `amount` into `parts`, asks every calculator what each size
    /// returns, and finds the best distribution of the parts over the
    /// calculators followed by the second reserve (`_calculateSwap2`);
    /// entry `i` of the result is the share of calculator `i`, and the last
    /// entry is the share of the second reserve.
    pub fn get_expected_return_with_gas<T: Copy + Fn(u64) -> Result<u64, OneSolError>>(
        amount: u64,
        parts: u64,
        calculates: &[T],
    ) -> (distribution: Vec<u64>)
        requires
            calculates@.len() < usize::MAX,
            parts < u64::MAX,
            interpolation_fits(amount, parts),
            parts == 0 || amount < u64::MAX,
            forall|i: int, x: u64|
                0 <= i < calculates@.len() ==> #[trigger] call_requires(calculates@[i], (x,)),
            forall|rets: Seq<Seq<u64>>|
                #[trigger] quote_table(calculates@, amount, parts, rets) ==> dp_fits(
                    expected_matrix(rets.push(second_reserve_quotes(amount, parts)), parts),
                    calculates@.len() + 1int,
                    parts as int,
                ),
        ensures
            exists|rets: Seq<Seq<u64>>|
                #[trigger] quote_table(calculates@, amount, parts, rets) && {
                    let m = expected_matrix(rets.push(second_reserve_quotes(amount, parts)), parts);
                    &&& distribution@ == best_distribution(m, parts as int, (calculates@.len() + 1) as nat)
                    &&& best_split(m, parts as int, distribution@)
                },
    {
        let n = calculates.len();
        let reserves = n + 1;
        let mut at_least_one_positive = false;
        let mut matrix: Vec<Vec<i64>> = Vec::new();
        let mut gases: Vec<u64> = Vec::new();
        let ghost mut table: Seq<Seq<u64>> = Seq::empty();
        let ghost mut witness: (int, int) = (0, 0);

        let mut i: usize = 0;
        while i < reserves
            invariant
                n == calculates@.len(),
                reserves == n + 1,
                parts < u64::MAX,
                interpolation_fits(amount, parts),
                parts == 0 || amount < u64::MAX,
                forall|i: int, x: u64|
                    0 <= i < calculates@.len() ==> #[trigger] call_requires(calculates@[i], (x,)),
                i <= reserves,
                matrix.len() == i,
                gases.len() == i,
                table.len() == i,
                forall|r: int|
                    0 <= r < i && r < n ==> #[trigger] quotes_of(calculates@[r], amount, parts, table[r]),
                i > n ==> table[n as int] == second_reserve_quotes(amount, parts),
                forall|r: int| 0 <= r < i ==> #[trigger] matrix@[r]@.len() == parts + 1,
                forall|r: int, c: int|
                    0 <= r < i && 0 <= c <= parts ==> #[trigger] matrix@[r]@[c] == (if c == 0 {
                        0i64
                    } else {
                        table[r][c - 1] as i64
                    }),
                at_least_one_positive ==> 0 <= witness.0 < i && 1 <= witness.1 <= parts
                    && matrix@[witness.0]@[witness.1] > 0,
                !at_least_one_positive ==> forall|r: int, c: int|
                    0 <= r < i && 1 <= c <= parts ==> #[trigger] matrix@[r]@[c] <= 0,
            decreases reserves - i,
        {
            let (rets, gas) = if i < n {
                Self::_calculate_swap(amount, parts, calculates[i])
            } else {
                Self::_calculateSwap2(amount, parts)
            };
            gases.push(gas);
            proof {
                table = table.push(rets@);
            }
            let mut row: Vec<i64> = Vec::new();
            row.push(0);
            let mut j: usize = 0;
            while j < rets.len()
                invariant
                    rets.len() == parts,
                    gas == 0,
                    j <= rets.len(),
                    row.len() == j + 1,
                    row@[0] == 0,
                    forall|c: int| 1 <= c <= j ==> #[trigger] row@[c] == rets@[c - 1] as i64,
                    matrix.len() == i,
                    at_least_one_positive ==> (0 <= witness.0 < i && 1 <= witness.1 <= parts
                        && matrix@[witness.0]@[witness.1] > 0) || (witness.0 == i && 1 <= witness.1
                        <= j && row@[witness.1] > 0),
                    !at_least_one_positive ==> forall|r: int, c: int|
                        0 <= r < i && 1 <= c <= parts ==> #[trigger] matrix@[r]@[c] <= 0,
                    !at_least_one_positive ==> forall|c: int| 1 <= c <= j ==> #[trigger] row@[c] <= 0,
                decreases rets.len() - j,
            {
                let v: i64 = (rets[j] as i64) - (gas as i64);
                row.push(v);
                if !at_least_one_positive && v > 0 {
                    proof {
                        witness = (i as int, j + 1);
                    }
                }
                at_least_one_positive = at_least_one_positive || (v > 0);
                j = j + 1;
            }
            matrix.push(row);
            proof {
                assert(matrix@[i as int] == row);
                if !at_least_one_positive {
                    assert forall|r: int, c: int|
                        0 <= r < i + 1 && 1 <= c <= parts implies #[trigger] matrix@[r]@[c] <= 0 by {
                        if r == i as int {
                            assert(row@[c] <= 0);
                        }
                    }
                }
            }
            i = i + 1;
        }
        proof {
            assert(raw_matrix(table, parts).len() == reserves);
            assert(matrix.deep_view() =~~= raw_matrix(table, parts));
        }
        if !at_least_one_positive {
            let mut adjusted: Vec<Vec<i64>> = Vec::new();
            let mut r: usize = 0;
            while r < reserves
                invariant
                    reserves == matrix.len(),
                    r <= reserves,
                    adjusted.len() == r,
                    forall|x: int| 0 <= x < reserves ==> #[trigger] matrix@[x]@.len() == parts + 1,
                    forall|x: int|
                        0 <= x < r ==> #[trigger] adjusted@[x]@ == Seq::new(
                            (parts + 1) as nat,
                            |c: int|
                                if c >= 1 && matrix@[x]@[c] == 0 {
                                    i64::MIN
                                } else {
                                    matrix@[x]@[c]
                                },
                        ),
                decreases reserves - r,
            {
                let mut row: Vec<i64> = Vec::new();
                let mut c: usize = 0;
                while c < matrix[r].len()
                    invariant
                        r < reserves,
                        reserves == matrix.len(),
                        matrix@[r as int]@.len() == parts + 1,
                        c <= matrix@[r as int]@.len(),
                        row@ == Seq::new(
                            c as nat,
                            |y: int|
                                if y >= 1 && matrix@[r as int]@[y] == 0 {
                                    i64::MIN
                                } else {
                                    matrix@[r as int]@[y]
                                },
                        ),
                    decreases matrix@[r as int]@.len() - c,
                {
                    let v = matrix[r][c];
                    if c >= 1 && v == 0 {
                        row.push(i64::MIN);
                    } else {
                        row.push(v);
                    }
                    c = c + 1;
                    assert(row@ =~= Seq::new(
                        c as nat,
                        |y: int|
                            if y >= 1 && matrix@[r as int]@[y] == 0 {
                                i64::MIN
                            } else {
                                matrix@[r as int]@[y]
                            },
                    ));
                }
                adjusted.push(row);
                r = r + 1;
            }
            proof {
                assert(!any_positive(raw_matrix(table, parts), parts));
                assert(adjusted.deep_view() =~~= expected_matrix(table, parts));
            }
            matrix = adjusted;
        } else {
            proof {
                assert(raw_matrix(table, parts)[witness.0][witness.1] > 0);
                assert(any_positive(raw_matrix(table, parts), parts));
            }
        }
        proof {
            assert(table =~= table.take(n as int).push(second_reserve_quotes(amount, parts)));
            assert(matrix.deep_view() == expected_matrix(table, parts));
            assert(quote_table(calculates@, amount, parts, table.take(n as int)));
        }
        let distribution = Self::_find_best_distribution(parts, matrix, reserves);
        distribution
    }
}

} // verus!
