//! Cross-asset analytics: the Pearson correlation matrix over aligned
//! close-price series, and the comparative performance ranking of assets
//! under the default simulator configuration.

use vstd::prelude::*;
use vstd::multiset::Multiset;
use crate::engine::{
    TradingEngine, PortfolioSimulation, Params, default_params, spec_run,
    spec_final_value, spec_roi, trades_view, rows_ascending, lemma_spec_run_wf,
};
use crate::indicators::{IndicatorFrame, frame_bounded, sqrt_floor, lemma_sqrt_floor_is};
use crate::num::{tdiv, sum_int, div_i128, isqrt_u128, lemma_sum_int_eq, lemma_div_range};
use crate::{SCALE, PRICE_MAX, EngineError};

verus! {

/// Every value of a close-price series lies in the accepted price range.
pub open spec fn series_vals_ok(s: Seq<i64>) -> bool {
    forall|k: int| 0 <= k < s.len() ==> 0 <= #[trigger] s[k] <= PRICE_MAX
}

/// The value of bar `k`, as the summand of a sum.
pub open spec fn val_f(s: Seq<i64>) -> spec_fn(int) -> int {
    |k: int| s[k] as int
}

/// The mean of a series (floor division by its length).
pub open spec fn mean_of(s: Seq<i64>) -> int {
    sum_int(0, s.len() as int, val_f(s)) / (s.len() as int)
}

/// The product of the deviations of two series from their means, at `k`.
pub open spec fn devprod_f(x: Seq<i64>, y: Seq<i64>, mx: int, my: int) -> spec_fn(int) -> int {
    |k: int| (x[k] - mx) * (y[k] - my)
}

/// The squared deviation of a series from its mean, at `k`.
pub open spec fn sqdev2_f(s: Seq<i64>, m: int) -> spec_fn(int) -> int {
    |k: int| (s[k] - m) * (s[k] - m)
}

/// The Pearson correlation of two equal-length series as a scaled value in
/// [-SCALE, SCALE]: the deviation-product sum over the product of the two
/// root deviation-square sums, 0 when either variance is zero, clamped.
pub open spec fn pearson_of(x: Seq<i64>, y: Seq<i64>) -> int {
    let n = x.len() as int;
    let mx = mean_of(x);
    let my = mean_of(y);
    let num = sum_int(0, n, devprod_f(x, y, mx, my));
    let d1 = sum_int(0, n, sqdev2_f(x, mx));
    let d2 = sum_int(0, n, sqdev2_f(y, my));
    if d1 == 0 || d2 == 0 {
        0
    } else {
        let c = tdiv(num * SCALE, sqrt_floor(d1) * sqrt_floor(d2));
        if c < -SCALE {
            -(SCALE as int)
        } else if c > SCALE {
            SCALE as int
        } else {
            c
        }
    }
}

/// The correlation is symmetric in its two series.
pub proof fn lemma_pearson_sym(x: Seq<i64>, y: Seq<i64>)
    requires
        x.len() == y.len(),
    ensures
        pearson_of(x, y) == pearson_of(y, x),
{
    let n = x.len() as int;
    let mx = mean_of(x);
    let my = mean_of(y);
    assert forall|k: int| 0 <= k < n implies
        #[trigger] devprod_f(x, y, mx, my)(k) == #[trigger] devprod_f(y, x, my, mx)(k) by {
        assert((x[k] - mx) * (y[k] - my) == (y[k] - my) * (x[k] - mx)) by (nonlinear_arith);
    }
    lemma_sum_int_eq(0, n, devprod_f(x, y, mx, my), devprod_f(y, x, my, mx));
    let d1 = sum_int(0, n, sqdev2_f(x, mx));
    let d2 = sum_int(0, n, sqdev2_f(y, my));
    assert(sqrt_floor(d1) * sqrt_floor(d2) == sqrt_floor(d2) * sqrt_floor(d1)) by (nonlinear_arith);
}

/// Computes the mean of a bounded series.
fn mean_x(s: &Vec<i64>) -> (m: i64)
    requires
        series_vals_ok(s@),
        1 <= s@.len() <= 2000,
    ensures
        m == mean_of(s@),
        0 <= m <= PRICE_MAX,
{
    let n = s.len();
    let mut acc: i64 = 0;
    let mut j: usize = 0;
    while j < n
        invariant
            j <= n,
            n == s@.len(),
            1 <= n <= 2000,
            series_vals_ok(s@),
            acc == sum_int(0, j as int, val_f(s@)),
            0 <= acc <= (j as int) * PRICE_MAX,
        decreases n - j,
    {
        assert(0 <= s@[j as int] <= PRICE_MAX);
        assert(val_f(s@)(j as int) == s@[j as int]);
        acc = acc + s[j];
        j += 1;
    }
    proof {
        lemma_div_range(acc as int, n as int, 0, PRICE_MAX as int);
    }
    div_i128(acc as i128, n as i128) as i64
}

impl TradingEngine {
    /// The Pearson correlation of two close-price series, or an error for
    /// mismatched lengths or empty series.
    fn pearson_correlation(s1: &Vec<i64>, s2: &Vec<i64>) -> (r: Result<i64, EngineError>)
        requires
            series_vals_ok(s1@),
            series_vals_ok(s2@),
            s1@.len() <= 2000,
            s2@.len() <= 2000,
        ensures
            match r {
                Ok(v) => {
                    &&& s1@.len() == s2@.len()
                    &&& s1@.len() >= 1
                    &&& v == pearson_of(s1@, s2@)
                    &&& -SCALE <= v <= SCALE
                },
                Err(e) => {
                    ||| (e == EngineError::InputShape && s1@.len() != s2@.len())
                    ||| (e == EngineError::ComputeError && s1@.len() == s2@.len() && s1@.len() == 0)
                },
            },
    {
        let n = s1.len();
        if n != s2.len() {
            return Err(EngineError::InputShape);
        }
        if n == 0 {
            return Err(EngineError::ComputeError);
        }
        let mean1 = mean_x(s1);
        let mean2 = mean_x(s2);
        let ghost fnum = devprod_f(s1@, s2@, mean1 as int, mean2 as int);
        let ghost fd1 = sqdev2_f(s1@, mean1 as int);
        let ghost fd2 = sqdev2_f(s2@, mean2 as int);
        let mut num: i128 = 0;
        let mut d1: i128 = 0;
        let mut d2: i128 = 0;
        let mut j: usize = 0;
        while j < n
            invariant
                j <= n,
                n == s1@.len(),
                n == s2@.len(),
                1 <= n <= 2000,
                series_vals_ok(s1@),
                series_vals_ok(s2@),
                0 <= mean1 <= PRICE_MAX,
                0 <= mean2 <= PRICE_MAX,
                fnum == devprod_f(s1@, s2@, mean1 as int, mean2 as int),
                fd1 == sqdev2_f(s1@, mean1 as int),
                fd2 == sqdev2_f(s2@, mean2 as int),
                num == sum_int(0, j as int, fnum),
                d1 == sum_int(0, j as int, fd1),
                d2 == sum_int(0, j as int, fd2),
                -((j as i128) * 10_000_000_000_000_000_000_000_000_000i128) <= num,
                num <= (j as i128) * 10_000_000_000_000_000_000_000_000_000i128,
                0 <= d1 <= (j as i128) * 10_000_000_000_000_000_000_000_000_000i128,
                0 <= d2 <= (j as i128) * 10_000_000_000_000_000_000_000_000_000i128,
            decreases n - j,
        {
            assert(0 <= s1@[j as int] <= PRICE_MAX);
            assert(0 <= s2@[j as int] <= PRICE_MAX);
            let v1 = s1[j];
            let v2 = s2[j];
            let diff1: i64 = v1 - mean1;
            let diff2: i64 = v2 - mean2;
            proof {
                assert(fnum(j as int) == (diff1 as int) * (diff2 as int));
                assert(fd1(j as int) == (diff1 as int) * (diff1 as int));
                assert(fd2(j as int) == (diff2 as int) * (diff2 as int));
                assert(-10_000_000_000_000_000_000_000_000_000int <= (diff1 as int) * (diff2 as int)
                    <= 10_000_000_000_000_000_000_000_000_000int
                    && 0 <= (diff1 as int) * (diff1 as int) <= 10_000_000_000_000_000_000_000_000_000int
                    && 0 <= (diff2 as int) * (diff2 as int) <= 10_000_000_000_000_000_000_000_000_000int)
                    by (nonlinear_arith)
                    requires
                        -PRICE_MAX <= diff1 <= PRICE_MAX,
                        -PRICE_MAX <= diff2 <= PRICE_MAX;
            }
            num = num + (diff1 as i128) * (diff2 as i128);
            d1 = d1 + (diff1 as i128) * (diff1 as i128);
            d2 = d2 + (diff2 as i128) * (diff2 as i128);
            j += 1;
        }
        if d1 == 0 || d2 == 0 {
            return Ok(0);
        }
        let sq1 = isqrt_u128(d1 as u128);
        let sq2 = isqrt_u128(d2 as u128);
        proof {
            lemma_sqrt_floor_is(d1 as int, sq1 as int);
            lemma_sqrt_floor_is(d2 as int, sq2 as int);
            assert(1 <= sq1 && sq1 <= 5_000_000_000_000_000u128) by (nonlinear_arith)
                requires
                    0 <= sq1,
                    (sq1 as int) * (sq1 as int) <= d1 as int,
                    (d1 as int) < ((sq1 + 1) as int) * ((sq1 + 1) as int),
                    1 <= d1 <= 20_000_000_000_000_000_000_000_000_000_000i128;
            assert(1 <= sq2 && sq2 <= 5_000_000_000_000_000u128) by (nonlinear_arith)
                requires
                    0 <= sq2,
                    (sq2 as int) * (sq2 as int) <= d2 as int,
                    (d2 as int) < ((sq2 + 1) as int) * ((sq2 + 1) as int),
                    1 <= d2 <= 20_000_000_000_000_000_000_000_000_000_000i128;
            assert(1 <= (sq1 as int) * (sq2 as int)
                && (sq1 as int) * (sq2 as int) <= 100_000_000_000_000_000_000_000_000_000_000int)
                by (nonlinear_arith)
                requires
                    1 <= sq1 <= 5_000_000_000_000_000u128,
                    1 <= sq2 <= 5_000_000_000_000_000u128;
        }
        let denom: i128 = (sq1 as i128) * (sq2 as i128);
        let c = div_i128(num * (SCALE as i128), denom);
        let clamped: i64 = if c < -(SCALE as i128) {
            -SCALE
        } else if c > SCALE as i128 {
            SCALE
        } else {
            c as i64
        };
        Ok(clamped)
    }
}


/// All series in the batch share one length.
pub open spec fn lens_equal(data: Seq<(String, Vec<i64>)>) -> bool {
    forall|i: int, j: int| 0 <= i < data.len() && 0 <= j < data.len()
        ==> #[trigger] data[i].1@.len() == #[trigger] data[j].1@.len()
}

impl TradingEngine {
    /// The Pearson correlation matrix of the given close-price series: a
    /// square symmetric matrix with 1.0 on the diagonal and every entry in
    /// [-1, 1] (scaled). Series of unequal length are rejected, and a
    /// batch of two or more empty series cannot be correlated.
    pub fn calculate_correlation_matrix(price_data: &Vec<(String, Vec<i64>)>)
        -> (r: Result<Vec<Vec<i64>>, EngineError>)
        requires
            forall|i: int| 0 <= i < price_data@.len()
                ==> series_vals_ok(#[trigger] price_data@[i].1@) && price_data@[i].1@.len() <= 2000,
        ensures
            match r {
                Ok(mat) => {
                    &&& lens_equal(price_data@)
                    &&& !(price_data@.len() >= 2 && price_data@[0].1@.len() == 0)
                    &&& mat@.len() == price_data@.len()
                    &&& forall|i: int| 0 <= i < mat@.len() ==> (#[trigger] mat@[i])@.len() == mat@.len()
                    &&& forall|i: int| 0 <= i < mat@.len() ==> #[trigger] mat@[i]@[i] == SCALE
                    &&& forall|i: int, j: int| 0 <= i < mat@.len() && 0 <= j < mat@.len() && i != j
                        ==> #[trigger] mat@[i]@[j] == pearson_of(price_data@[i].1@, price_data@[j].1@)
                    &&& forall|i: int, j: int| 0 <= i < mat@.len() && 0 <= j < mat@.len()
                        ==> -SCALE <= #[trigger] mat@[i]@[j] <= SCALE
                    &&& forall|i: int, j: int| 0 <= i < mat@.len() && 0 <= j < mat@.len()
                        ==> #[trigger] mat@[i]@[j] == #[trigger] mat@[j]@[i]
                },
                Err(e) => {
                    ||| (e == EngineError::InputShape && !lens_equal(price_data@))
                    ||| (e == EngineError::ComputeError && lens_equal(price_data@)
                        && price_data@.len() >= 2 && price_data@[0].1@.len() == 0)
                },
            },
    {
        let k = price_data.len();
        let mut i: usize = 0;
        while i < k
            invariant
                i <= k,
                k == price_data@.len(),
                forall|a: int, b: int| 0 <= a < i && 0 <= b < i
                    ==> #[trigger] price_data@[a].1@.len() == #[trigger] price_data@[b].1@.len(),
            decreases k - i,
        {
            if i > 0 && price_data[i].1.len() != price_data[0].1.len() {
                return Err(EngineError::InputShape);
            }
            i += 1;
        }
        if k >= 2 && price_data[0].1.len() == 0 {
            return Err(EngineError::ComputeError);
        }
        let mut mat: Vec<Vec<i64>> = Vec::new();
        let mut a: usize = 0;
        while a < k
            invariant
                a <= k,
                k == price_data@.len(),
                forall|x: int| 0 <= x < k
                    ==> series_vals_ok(#[trigger] price_data@[x].1@) && price_data@[x].1@.len() <= 2000,
                lens_equal(price_data@),
                !(k >= 2 && price_data@[0].1@.len() == 0),
                mat@.len() == a,
                forall|x: int| 0 <= x < a ==> (#[trigger] mat@[x])@.len() == k,
                forall|x: int| 0 <= x < a ==> #[trigger] mat@[x]@[x] == SCALE,
                forall|x: int, y: int| 0 <= x < a && 0 <= y < k && x != y
                    ==> #[trigger] mat@[x]@[y] == pearson_of(price_data@[x].1@, price_data@[y].1@),
                forall|x: int, y: int| 0 <= x < a && 0 <= y < k
                    ==> -SCALE <= #[trigger] mat@[x]@[y] <= SCALE,
            decreases k - a,
        {
            let mut rowv: Vec<i64> = Vec::new();
            let mut b: usize = 0;
            while b < k
                invariant
                    b <= k,
                    a < k,
                    k == price_data@.len(),
                    forall|x: int| 0 <= x < k
                        ==> series_vals_ok(#[trigger] price_data@[x].1@) && price_data@[x].1@.len() <= 2000,
                    lens_equal(price_data@),
                    !(k >= 2 && price_data@[0].1@.len() == 0),
                    rowv@.len() == b,
                    forall|y: int| 0 <= y < b && y == a ==> #[trigger] rowv@[y] == SCALE,
                    forall|y: int| 0 <= y < b && y != a
                        ==> #[trigger] rowv@[y] == pearson_of(price_data@[a as int].1@, price_data@[y].1@),
                    forall|y: int| 0 <= y < b ==> -SCALE <= #[trigger] rowv@[y] <= SCALE,
                decreases k - b,
            {
                if b == a {
                    rowv.push(SCALE);
                } else {
                    let c = match Self::pearson_correlation(&price_data[a].1, &price_data[b].1) {
                        Ok(v) => v,
                        Err(_) => {
                            proof {
                                assert(price_data@[a as int].1@.len() == price_data@[b as int].1@.len());
                                assert(price_data@[a as int].1@.len() == price_data@[0].1@.len());
                                assert(false);
                            }
                            0
                        },
                    };
                    rowv.push(c);
                }
                b += 1;
            }
            mat.push(rowv);
            a += 1;
        }
        proof {
            assert forall|x: int, y: int| 0 <= x < k && 0 <= y < k implies
                #[trigger] mat@[x]@[y] == #[trigger] mat@[y]@[x] by {
                if x != y {
                    lemma_pearson_sym(price_data@[x].1@, price_data@[y].1@);
                }
            }
        }
        Ok(mat)
    }
}


/// Sorted by return on investment, descending.
pub open spec fn sorted_desc(s: Seq<PortfolioSimulation>) -> bool {
    forall|i: int, j: int| 0 <= i <= j < s.len() ==> #[trigger] s[i].roi >= #[trigger] s[j].roi
}

/// Inserts an outcome into a descending-sorted sequence, after any
/// outcomes with an equal return, so that ties keep their input order.
pub open spec fn insert_sorted(s: Seq<PortfolioSimulation>, x: PortfolioSimulation) -> Seq<PortfolioSimulation>
    decreases s.len(),
{
    if s.len() == 0 {
        seq![x]
    } else if s.last().roi >= x.roi {
        s.push(x)
    } else {
        insert_sorted(s.drop_last(), x).push(s.last())
    }
}

/// The stable descending sort by return on investment.
pub open spec fn sort_by_roi(s: Seq<PortfolioSimulation>) -> Seq<PortfolioSimulation>
    decreases s.len(),
{
    if s.len() == 0 {
        Seq::empty()
    } else {
        insert_sorted(sort_by_roi(s.drop_last()), s.last())
    }
}

/// Inserting into a sorted sequence keeps it sorted, adds exactly the new
/// outcome to the contents, and only rearranges existing outcomes.
proof fn lemma_insert_sorted_props(s: Seq<PortfolioSimulation>, x: PortfolioSimulation)
    requires
        sorted_desc(s),
    ensures
        sorted_desc(insert_sorted(s, x)),
        insert_sorted(s, x).len() == s.len() + 1,
        insert_sorted(s, x).to_multiset() =~= s.to_multiset().insert(x),
        forall|i: int| 0 <= i < insert_sorted(s, x).len()
            ==> #[trigger] insert_sorted(s, x)[i] == x
                || exists|j: int| 0 <= j < s.len() && insert_sorted(s, x)[i] == s[j],
    decreases s.len(),
{
    broadcast use vstd::seq_lib::group_to_multiset_ensures;
    let r = insert_sorted(s, x);
    if s.len() == 0 {
        assert(Seq::<PortfolioSimulation>::empty().push(x) =~= seq![x]);
        assert(seq![x].to_multiset() =~= Multiset::<PortfolioSimulation>::empty().insert(x));
        assert(r[0] == x);
    } else if s.last().roi >= x.roi {
        assert(forall|i: int| 0 <= i < s.len() ==> #[trigger] s[i].roi >= s.last().roi);
        assert forall|i: int| 0 <= i < r.len() implies
            #[trigger] r[i] == x || exists|j: int| 0 <= j < s.len() && r[i] == s[j] by {
            if i < s.len() {
                assert(r[i] == s[i]);
            }
        }
    } else {
        let dl = s.drop_last();
        assert(sorted_desc(dl)) by {
            assert(forall|i: int, j: int| 0 <= i <= j < dl.len() ==> s[i] == dl[i] && s[j] == dl[j]);
        }
        lemma_insert_sorted_props(dl, x);
        let inner = insert_sorted(dl, x);
        assert(s =~= dl.push(s.last()));
        assert(s.to_multiset() =~= dl.to_multiset().insert(s.last()));
        assert(r.to_multiset() =~= inner.to_multiset().insert(s.last()));
        assert(r.to_multiset() =~= dl.to_multiset().insert(x).insert(s.last()));
        assert(dl.to_multiset().insert(x).insert(s.last())
            =~= dl.to_multiset().insert(s.last()).insert(x));
        assert forall|i: int| 0 <= i < inner.len() implies #[trigger] inner[i].roi >= s.last().roi by {
            assert(inner[i] == x || exists|j: int| 0 <= j < dl.len() && inner[i] == dl[j]);
            if inner[i] == x {
                assert(x.roi > s.last().roi);
            } else {
                let j = choose|j: int| 0 <= j < dl.len() && inner[i] == dl[j];
                assert(s[j].roi >= s.last().roi);
            }
        }
        assert(sorted_desc(r)) by {
            assert(forall|i: int| 0 <= i < inner.len() ==> r[i] == inner[i]);
            assert(r.last() == s.last());
        }
        assert forall|i: int| 0 <= i < r.len() implies
            #[trigger] r[i] == x || exists|j: int| 0 <= j < s.len() && r[i] == s[j] by {
            if i < inner.len() {
                assert(r[i] == inner[i]);
                if inner[i] != x {
                    let j = choose|j: int| 0 <= j < dl.len() && inner[i] == dl[j];
                    assert(r[i] == s[j]);
                }
            } else {
                assert(r[i] == s[s.len() - 1]);
            }
        }
    }
}

/// The stable sort returns a permutation of its input, sorted by return
/// on investment descending. Ties keep their input order because each
/// outcome is inserted after the outcomes with an equal return that came
/// before it.
pub proof fn lemma_ranking_sorted_permutation(s: Seq<PortfolioSimulation>)
    ensures
        sorted_desc(sort_by_roi(s)),
        sort_by_roi(s).len() == s.len(),
        sort_by_roi(s).to_multiset() =~= s.to_multiset(),
    decreases s.len(),
{
    broadcast use vstd::seq_lib::group_to_multiset_ensures;
    if s.len() == 0 {
        assert(sort_by_roi(s) =~= Seq::<PortfolioSimulation>::empty());
    } else {
        let dl = s.drop_last();
        lemma_ranking_sorted_permutation(dl);
        lemma_insert_sorted_props(sort_by_roi(dl), s.last());
        assert(s =~= dl.push(s.last()));
        assert(s.to_multiset() =~= dl.to_multiset().insert(s.last()));
    }
}

/// The ranking predicate "has exactly this return".
pub open spec fn roi_is(r: i128) -> spec_fn(PortfolioSimulation) -> bool {
    |e: PortfolioSimulation| e.roi == r
}

/// Filtering commutes with push in the expected way.
proof fn lemma_filter_push(s: Seq<PortfolioSimulation>, x: PortfolioSimulation, p: spec_fn(PortfolioSimulation) -> bool)
    ensures
        s.push(x).filter(p) == if p(x) { s.filter(p).push(x) } else { s.filter(p) },
{
    reveal_with_fuel(Seq::<PortfolioSimulation>::filter, 2);
    assert(s.push(x).drop_last() =~= s);
    assert(s.push(x).last() == x);
    assert(s.push(x).len() == s.len() + 1);
}

/// Inserting an outcome adds it to the outcomes of its own return and
/// leaves the outcomes of every other return untouched, in order.
proof fn lemma_insert_sorted_filter(s: Seq<PortfolioSimulation>, x: PortfolioSimulation, r: i128)
    ensures
        insert_sorted(s, x).filter(roi_is(r)) == if x.roi == r {
            s.filter(roi_is(r)).push(x)
        } else {
            s.filter(roi_is(r))
        },
    decreases s.len(),
{
    let p = roi_is(r);
    if s.len() == 0 {
        assert(seq![x] =~= Seq::<PortfolioSimulation>::empty().push(x));
        lemma_filter_push(Seq::<PortfolioSimulation>::empty(), x, p);
        assert(Seq::<PortfolioSimulation>::empty().filter(p) =~= Seq::<PortfolioSimulation>::empty());
    } else if s.last().roi >= x.roi {
        lemma_filter_push(s, x, p);
    } else {
        let dl = s.drop_last();
        lemma_insert_sorted_filter(dl, x, r);
        lemma_filter_push(insert_sorted(dl, x), s.last(), p);
        assert(s =~= dl.push(s.last()));
        lemma_filter_push(dl, s.last(), p);
    }
}

/// The ranking is stable: for every return value, the outcomes with that
/// return appear in the ranking exactly in their input order.
pub proof fn lemma_ranking_stable(s: Seq<PortfolioSimulation>, r: i128)
    ensures
        sort_by_roi(s).filter(roi_is(r)) == s.filter(roi_is(r)),
    decreases s.len(),
{
    if s.len() > 0 {
        let dl = s.drop_last();
        lemma_ranking_stable(dl, r);
        lemma_insert_sorted_filter(sort_by_roi(dl), s.last(), r);
        assert(s =~= dl.push(s.last()));
        lemma_filter_push(dl, s.last(), roi_is(r));
    }
}

/// Inserting at the position the executable search finds is the stable
/// insertion.
proof fn lemma_insert_sorted_at(s: Seq<PortfolioSimulation>, x: PortfolioSimulation, k: int)
    requires
        0 <= k <= s.len(),
        forall|j: int| k <= j < s.len() ==> #[trigger] s[j].roi < x.roi,
        k > 0 ==> s[k - 1].roi >= x.roi,
    ensures
        insert_sorted(s, x) =~= s.insert(k, x),
    decreases s.len(),
{
    if s.len() == 0 {
        assert(insert_sorted(s, x) =~= s.insert(0, x));
    } else if s.last().roi >= x.roi {
        assert(k == s.len());
        assert(s.push(x) =~= s.insert(k, x));
    } else {
        assert(k < s.len());
        let dl = s.drop_last();
        lemma_insert_sorted_at(dl, x, k);
        assert(insert_sorted(dl, x).push(s.last()) =~= dl.insert(k, x).push(s.last()));
        assert(dl.insert(k, x).push(s.last()) =~= s.insert(k, x));
    }
}

/// Inserts an outcome into a descending-sorted vector, after any equal
/// returns.
fn insert_ps(out: &mut Vec<PortfolioSimulation>, x: PortfolioSimulation)
    ensures
        final(out)@ == insert_sorted(old(out)@, x),
{
    let mut k: usize = out.len();
    while k > 0 && out[k - 1].roi < x.roi
        invariant
            k <= out@.len(),
            out@ == old(out)@,
            forall|j: int| k <= j < out@.len() ==> #[trigger] out@[j].roi < x.roi,
        decreases k,
    {
        k -= 1;
    }
    proof {
        lemma_insert_sorted_at(out@, x, k as int);
    }
    out.insert(k, x);
}

/// The outcome of simulating one asset with the default configuration and
/// neutral sentiment.
pub open spec fn outcome_of(sym: String, rows: Seq<crate::indicators::IndicatorRow>) -> PortfolioSimulation {
    let st = spec_run(rows, 50u8, default_params());
    let fv = spec_final_value(st.cash, st.held, rows[rows.len() - 1].price as int);
    PortfolioSimulation {
        symbol: sym,
        roi: spec_roi(fv, default_params().initial_capital as int) as i128,
        final_value: fv as i128,
        num_trades: st.trades.len() as usize,
    }
}

/// The outcomes of a batch, in input order.
pub open spec fn outcomes_of(data: Seq<(String, IndicatorFrame)>) -> Seq<PortfolioSimulation> {
    data.map_values(|a: (String, IndicatorFrame)| outcome_of(a.0, a.1.rows@))
}

impl TradingEngine {
    /// Runs the simulator over every asset with the default configuration
    /// and neutral sentiment and ranks the outcomes by return on
    /// investment, descending, stable on ties.
    #[verifier::rlimit(100)]
    pub fn compare_assets_performance(assets_data: Vec<(String, IndicatorFrame)>, _days: usize)
        -> (r: Vec<PortfolioSimulation>)
        requires
            forall|i: int| 0 <= i < assets_data@.len() ==> {
                let rows = (#[trigger] assets_data@[i]).1.rows@;
                &&& frame_bounded(rows)
                &&& rows_ascending(rows)
                &&& rows.len() >= 1
            },
        ensures
            r@ == sort_by_roi(outcomes_of(assets_data@)),
            sorted_desc(r@),
            r@.to_multiset() == outcomes_of(assets_data@).to_multiset(),
    {
        let ghost orig = assets_data@;
        let mut assets = assets_data;
        let n0 = assets.len();
        let mut sims: Vec<PortfolioSimulation> = Vec::new();
        let mut i: usize = 0;
        while assets.len() > 0
            invariant
                i + assets@.len() == n0,
                n0 == orig.len(),
                assets@ == orig.skip(i as int),
                sims@ == outcomes_of(orig.take(i as int)),
                forall|x: int| 0 <= x < orig.len() ==> {
                    let rows = (#[trigger] orig[x]).1.rows@;
                    &&& frame_bounded(rows)
                    &&& rows_ascending(rows)
                    &&& rows.len() >= 1
                },
            decreases assets@.len(),
        {
            proof {
                assert(assets@[0] == orig[i as int]);
            }
            let (symbol, frame) = assets.remove(0);
            let ghost rows = frame.rows@;
            let params = Params::default();
            let mut engine = TradingEngine::new(frame, None, params);
            engine.run_simulation();
            proof {
                lemma_spec_run_wf(rows, 50u8, default_params());
                assert(trades_view(engine.trade_history@) == spec_run(rows, 50u8, default_params()).trades);
            }
            let summary = engine.get_summary();
            let ps = PortfolioSimulation {
                symbol,
                roi: summary.roi,
                final_value: summary.final_portfolio_value,
                num_trades: summary.num_trades,
            };
            sims.push(ps);
            proof {
                assert(ps == outcome_of(orig[i as int].0, orig[i as int].1.rows@));
                assert(orig.take(i + 1).drop_last() =~= orig.take(i as int));
                assert(outcomes_of(orig.take(i + 1)) =~= outcomes_of(orig.take(i as int)).push(ps));
                assert(orig.skip(i as int).drop_first() =~= orig.skip(i + 1));
            }
            i += 1;
        }
        proof {
            assert(orig.take(orig.len() as int) =~= orig);
        }
        let ghost all = outcomes_of(orig);
        let mut results: Vec<PortfolioSimulation> = Vec::new();
        let mut j: usize = 0;
        let total = sims.len();
        let ghost simsv = sims@;
        while sims.len() > 0
            invariant
                j + sims@.len() == total,
                total == simsv.len(),
                sims@ == simsv.skip(j as int),
                simsv == all,
                results@ == sort_by_roi(simsv.take(j as int)),
            decreases sims@.len(),
        {
            proof {
                assert(sims@[0] == simsv[j as int]);
            }
            let x = sims.remove(0);
            insert_ps(&mut results, x);
            proof {
                assert(simsv.take(j + 1).drop_last() =~= simsv.take(j as int));
                assert(simsv.take(j + 1).last() == simsv[j as int]);
                assert(simsv.skip(j as int).drop_first() =~= simsv.skip(j + 1));
            }
            j += 1;
        }
        proof {
            assert(simsv.take(simsv.len() as int) =~= simsv);
            lemma_ranking_sorted_permutation(all);
        }
        results
    }
}

} // verus!
