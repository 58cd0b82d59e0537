//! Choosing the asset that the next increment of funds goes to.

use vstd::prelude::*;
use crate::metric::{
    error, error_den, error_fits, error_num, lemma_squares_non_negative, sq, squared_differences,
};
use crate::ratio::{lemma_lt_le_trans, lemma_lt_trans, Ratio};
use crate::sums::{
    ints, lemma_sum_at_most, lemma_sum_bounds, lemma_sum_non_negative, lemma_sum_update,
    non_negative, sum, total,
};

verus! {

/// The whole that ideal fractions are parts of: they are given in millionths.
pub const FRACTION_SCALE: u64 = 1_000_000;

/// Asset `i` exists and one unit of it costs no more than `budget`.
pub open spec fn affordable(prices: Seq<int>, budget: int, i: int) -> bool {
    0 <= i < prices.len() && prices[i] <= budget
}

/// No asset can be bought with `budget`.
pub open spec fn none_affordable(prices: Seq<int>, budget: int) -> bool {
    forall|k: int| !affordable(prices, budget, k)
}

/// The equities once `amount` has been spent on asset `i`.
pub open spec fn funded(equities: Seq<int>, i: int, amount: int) -> Seq<int> {
    equities.update(i, equities[i] + amount)
}

/// Numerator of the error that the portfolio has against `ideal` once one
/// unit of asset `i` has been bought.
pub open spec fn trial_num(equities: Seq<int>, prices: Seq<int>, ideal: Seq<int>, i: int) -> int {
    error_num(
        funded(equities, i, prices[i]),
        sum(equities) + prices[i],
        ideal,
        FRACTION_SCALE as int,
    )
}

/// Denominator of that error.
pub open spec fn trial_den(equities: Seq<int>, prices: Seq<int>, ideal: Seq<int>, i: int) -> int {
    error_den(
        funded(equities, i, prices[i]),
        sum(equities) + prices[i],
        ideal,
        FRACTION_SCALE as int,
    )
}

/// Buying one unit of asset `i` leaves a strictly smaller error than buying
/// one unit of asset `k`.
pub open spec fn trial_less(
    equities: Seq<int>,
    prices: Seq<int>,
    ideal: Seq<int>,
    i: int,
    k: int,
) -> bool {
    trial_num(equities, prices, ideal, i) * trial_den(equities, prices, ideal, k) < trial_num(
        equities,
        prices,
        ideal,
        k,
    ) * trial_den(equities, prices, ideal, i)
}

/// Asset `i` is the one to fund: it is affordable, it leaves a strictly
/// smaller error than every affordable asset before it, and no affordable
/// asset after it leaves a smaller one.
pub open spec fn is_best(
    equities: Seq<int>,
    prices: Seq<int>,
    ideal: Seq<int>,
    budget: int,
    i: int,
) -> bool {
    &&& affordable(prices, budget, i)
    &&& forall|k: int|
        #![trigger affordable(prices, budget, k)]
        affordable(prices, budget, k) && k < i ==> trial_less(equities, prices, ideal, i, k)
    &&& forall|k: int|
        #![trigger affordable(prices, budget, k)]
        affordable(prices, budget, k) && k > i ==> !trial_less(equities, prices, ideal, k, i)
}

/// What a selection asks of its inputs: one equity, one positive price and
/// one ideal fraction of at most one per asset, and amounts small enough
/// for every error to be held in a [`Ratio`].
pub open spec fn selection_fits(
    equities: Seq<int>,
    prices: Seq<int>,
    ideal: Seq<int>,
    budget: int,
) -> bool {
    &&& equities.len() == prices.len()
    &&& equities.len() == ideal.len()
    &&& non_negative(equities)
    &&& budget >= 0
    &&& forall|j: int| 0 <= j < prices.len() ==> #[trigger] prices[j] > 0
    &&& forall|j: int|
        0 <= j < ideal.len() ==> 0 <= #[trigger] ideal[j] && ideal[j] <= FRACTION_SCALE
    &&& equities.len() * sq((sum(equities) + budget) * FRACTION_SCALE) <= u128::MAX
}

/// Position `m` holds the first of the least keys of `items`.
pub open spec fn is_first_least(items: Seq<(usize, Ratio)>, m: int) -> bool {
    &&& 0 <= m < items.len()
    &&& forall|k: int| 0 <= k < m ==> items[m].1.lt(#[trigger] items[k].1)
    &&& forall|k: int| m < k < items.len() ==> !(#[trigger] items[k].1).lt(items[m].1)
}

/// The first of the items whose key, the ratio, is least.
pub fn min_by_key(items: &Vec<(usize, Ratio)>) -> (r: Option<(usize, Ratio)>)
    requires
        forall|k: int| 0 <= k < items.len() ==> (#[trigger] items[k]).1.wf(),
    ensures
        r is None <==> items.len() == 0,
        r matches Some(least) ==> exists|m: int|
            is_first_least(items@, m) && #[trigger] items[m] == least,
{
    if items.len() == 0 {
        return None;
    }
    let mut at: usize = 0;
    let mut i: usize = 1;
    while i < items.len()
        invariant
            1 <= i <= items.len(),
            at < i,
            forall|k: int| 0 <= k < items.len() ==> (#[trigger] items[k]).1.wf(),
            is_first_least(items@.take(i as int), at as int),
        decreases items.len() - i,
    {
        let ghost before = items@.take(i as int);
        let ghost after = items@.take(i + 1);
        if items[i].1.less_than(&items[at].1) {
            proof {
                assert forall|k: int| 0 <= k < i implies after[i as int].1.lt(
                    #[trigger] after[k].1,
                ) by {
                    assert(before[k] == items[k]);
                    if k < at {
                        lemma_lt_trans(items[i as int].1, items[at as int].1, items[k].1);
                    } else if k > at {
                        lemma_lt_le_trans(items[i as int].1, items[at as int].1, items[k].1);
                    }
                }
            }
            at = i;
        }
        i += 1;
    }
    proof {
        assert(items@.take(i as int) =~= items@);
    }
    Some(items[at])
}

/// The error of every affordable trial can be held in a [`Ratio`].
pub proof fn lemma_trial_fits(
    equities: Seq<int>,
    prices: Seq<int>,
    ideal: Seq<int>,
    budget: int,
    i: int,
)
    requires
        selection_fits(equities, prices, ideal, budget),
        affordable(prices, budget, i),
    ensures
        sum(equities) + budget <= u64::MAX,
        non_negative(funded(equities, i, prices[i])),
        sum(funded(equities, i, prices[i])) == sum(equities) + prices[i],
        error_fits(
            funded(equities, i, prices[i]),
            sum(equities) + prices[i],
            ideal,
            FRACTION_SCALE as int,
        ),
        trial_den(equities, prices, ideal, i) > 0,
        trial_num(equities, prices, ideal, i) >= 0,
{
    let n = equities.len() as int;
    let price = prices[i];
    let trial = funded(equities, i, price);
    let whole = sum(equities) + price;
    let scale = FRACTION_SCALE as int;
    let most = sum(equities) + budget;
    lemma_sum_non_negative(equities);
    lemma_sum_update(equities, i, equities[i] + price);
    let unit = sq(whole * scale);
    let cap = sq(most * scale);
    assert(0 < unit <= cap) by (nonlinear_arith)
        requires
            0 < whole <= most,
            scale > 0,
            unit == (whole * scale) * (whole * scale),
            cap == (most * scale) * (most * scale),
    ;
    assert(n * unit <= n * cap && n * unit > 0 && cap <= n * cap) by (nonlinear_arith)
        requires
            n >= 1,
            0 < unit <= cap,
    ;
    assert(most <= u64::MAX) by (nonlinear_arith)
        requires
            most >= 0,
            scale == 1_000_000,
            cap == (most * scale) * (most * scale),
            cap <= u128::MAX,
    ;
    let squares = squared_differences(trial, whole, ideal, scale);
    lemma_squares_non_negative(trial, whole, ideal, scale);
    lemma_sum_non_negative(squares);
    assert forall|j: int| 0 <= j < squares.len() implies squares[j] <= unit by {
        lemma_sum_bounds(trial, j);
        let a = trial[j];
        let b = ideal[j];
        assert((a * scale - b * whole) * (a * scale - b * whole) <= (whole * scale) * (whole
            * scale)) by (nonlinear_arith)
            requires
                0 <= a <= whole,
                0 <= b <= scale,
        ;
    }
    lemma_sum_at_most(squares, unit);
}

/// A copy of `equities` in which `amount` has been added to asset `i`.
pub fn fund_one(equities: &Vec<u64>, i: usize, amount: u64) -> (r: Vec<u64>)
    requires
        i < equities.len(),
        equities[i as int] + amount <= u64::MAX,
    ensures
        ints(r@) == funded(ints(equities@), i as int, amount as int),
{
    let mut r: Vec<u64> = Vec::new();
    let mut j: usize = 0;
    while j < equities.len()
        invariant
            j <= equities.len(),
            i < equities.len(),
            equities[i as int] + amount <= u64::MAX,
            r.len() == j,
            forall|k: int|
                0 <= k < j ==> r[k] == if k == i {
                    equities[k] + amount
                } else {
                    equities[k] as int
                },
        decreases equities.len() - j,
    {
        if j != i {
            r.push(equities[j]);
        } else {
            r.push(equities[j] + amount);
        }
        j += 1;
    }
    r
}

/// Candidate `m` stands for an affordable asset, with the error that one
/// unit of it leaves.
spec fn stands_for_trial(
    candidates: Seq<(usize, Ratio)>,
    equities: Seq<int>,
    prices: Seq<int>,
    ideal: Seq<int>,
    budget: int,
    m: int,
) -> bool {
    let (i, e) = candidates[m];
    &&& affordable(prices, budget, i as int)
    &&& e.wf()
    &&& e.num == trial_num(equities, prices, ideal, i as int)
    &&& e.den == trial_den(equities, prices, ideal, i as int)
}

/// Asset `k` is among the candidates.
spec fn listed(candidates: Seq<(usize, Ratio)>, k: int) -> bool {
    exists|m: int| 0 <= m < candidates.len() && (#[trigger] candidates[m]).0 == k
}

/// The asset to spend the next increment on, with the increment, which is
/// the price of one unit of it: among the assets whose price is at most
/// `max_fund`, the first of those that leave the portfolio with the least
/// error against `ideal`. None where no asset is affordable.
pub fn best_asset_to_fund(
    equities: &Vec<u64>,
    prices: &Vec<u64>,
    ideal: &Vec<u64>,
    max_fund: u64,
) -> (r: Option<(usize, u64)>)
    requires
        selection_fits(ints(equities@), ints(prices@), ints(ideal@), max_fund as int),
    ensures
        match r {
            Some((i, amount)) => {
                &&& is_best(
                    ints(equities@),
                    ints(prices@),
                    ints(ideal@),
                    max_fund as int,
                    i as int,
                )
                &&& amount == prices[i as int]
            },
            None => none_affordable(ints(prices@), max_fund as int),
        },
{
    let ghost eq = ints(equities@);
    let ghost pr = ints(prices@);
    let ghost id = ints(ideal@);
    let ghost budget = max_fund as int;
    let n: usize = prices.len();
    if n == 0 {
        return None;
    }
    proof {
        lemma_sum_non_negative(eq);
        assert(sum(eq) <= u64::MAX) by (nonlinear_arith)
            requires
                sum(eq) >= 0,
                budget >= 0,
                n >= 1,
                n * (((sum(eq) + budget) * 1_000_000) * ((sum(eq) + budget) * 1_000_000))
                    <= u128::MAX,
        ;
    }
    let total: u64 = total(equities);
    let mut candidates: Vec<(usize, Ratio)> = Vec::new();
    let mut i: usize = 0;
    while i < n
        invariant
            i <= n,
            n == prices.len(),
            eq == ints(equities@),
            pr == ints(prices@),
            id == ints(ideal@),
            budget == max_fund,
            total == sum(eq),
            selection_fits(eq, pr, id, budget),
            forall|m: int|
                0 <= m < candidates.len() ==> stands_for_trial(
                    candidates@,
                    eq,
                    pr,
                    id,
                    budget,
                    m,
                ) && (#[trigger] candidates[m]).0 < i,
            forall|m: int, l: int|
                0 <= m < l < candidates.len() ==> (#[trigger] candidates[m]).0 < (
                #[trigger] candidates[l]).0,
            forall|k: int| 0 <= k < i && affordable(pr, budget, k) ==> listed(candidates@, k),
        decreases n - i,
    {
        let price: u64 = prices[i];
        if price <= max_fund {
            proof {
                lemma_trial_fits(eq, pr, id, budget, i as int);
                lemma_sum_bounds(funded(eq, i as int, price as int), i as int);
            }
            let trial = fund_one(equities, i, price);
            let ghost before = candidates@;
            match error(&trial, total + price, ideal, FRACTION_SCALE) {
                Some(e) => {
                    candidates.push((i, e));
                    proof {
                        let m = before.len() as int;
                        assert(candidates[m].0 == i);
                        assert forall|k: int|
                            0 <= k < i + 1 && affordable(pr, budget, k) implies listed(
                            candidates@,
                            k,
                        ) by {
                            if k < i {
                                let w = choose|w: int|
                                    0 <= w < before.len() && (#[trigger] before[w]).0 == k;
                                assert(candidates[w] == before[w]);
                            }
                        }
                    }
                },
                None => {},
            }
        }
        i += 1;
    }
    // the candidates are the affordable assets in their order, each with the
    // error that remains once it is funded: the first least of them is best
    match min_by_key(&candidates) {
        Some((at, _)) => Some((at, prices[at])),
        None => None,
    }
}

} // verus!
