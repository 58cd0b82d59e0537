//! Turning one pool of funds into an ordered list of purchases.

use vstd::prelude::*;
use crate::select::{
    affordable, best_asset_to_fund, funded, is_best, lemma_trial_fits, none_affordable,
    selection_fits,
};
use crate::metric::sq;
use crate::select::FRACTION_SCALE;
use crate::sums::{
    checked_total, ints, least, lemma_least, lemma_sum_bounds, lemma_sum_non_negative, sum,
};

verus! {

/// One purchase: `amount` to be spent on the asset at index `asset`.
#[derive(Clone, Copy, Debug, PartialEq, Eq, Structural)]
pub struct Purchase {
    pub asset: usize,
    pub amount: u64,
}

/// The purchases to make, in order, and the equities that the portfolio is
/// expected to have once they are made.
#[derive(Debug)]
pub struct PurchasePlan {
    pub purchases: Vec<Purchase>,
    pub equities: Vec<u64>,
}

/// What the purchases cost together.
pub open spec fn spent(purchases: Seq<Purchase>) -> int
    decreases purchases.len(),
{
    if purchases.len() == 0 {
        0
    } else {
        spent(purchases.drop_last()) + purchases.last().amount
    }
}

/// The equities once the purchases have been made, each adding its amount
/// to the equity of its asset.
pub open spec fn equities_after(initial: Seq<int>, purchases: Seq<Purchase>) -> Seq<int>
    decreases purchases.len(),
{
    if purchases.len() == 0 {
        initial
    } else {
        funded(
            equities_after(initial, purchases.drop_last()),
            purchases.last().asset as int,
            purchases.last().amount as int,
        )
    }
}

/// Purchase `t` is the greedy choice in the state that the purchases
/// before it lead to: it buys one unit of the best asset to fund with what
/// is left of the budget, at its price.
pub open spec fn is_greedy_step(
    initial: Seq<int>,
    prices: Seq<int>,
    ideal: Seq<int>,
    budget: int,
    purchases: Seq<Purchase>,
    t: int,
) -> bool {
    let before = purchases.take(t);
    &&& is_best(
        equities_after(initial, before),
        prices,
        ideal,
        budget - spent(before),
        purchases[t].asset as int,
    )
    &&& purchases[t].amount == prices[purchases[t].asset as int]
}

/// The purchases are what greedy planning gives: every one of them is the
/// greedy choice in its turn, and after the last no asset is affordable.
pub open spec fn is_greedy_plan(
    initial: Seq<int>,
    prices: Seq<int>,
    ideal: Seq<int>,
    budget: int,
    purchases: Seq<Purchase>,
) -> bool {
    &&& forall|t: int|
        0 <= t < purchases.len() ==> #[trigger] is_greedy_step(
            initial,
            prices,
            ideal,
            budget,
            purchases,
            t,
        )
    &&& none_affordable(prices, budget - spent(purchases))
}

/// The rounds that planning takes to arrive at `purchases`: one for each
/// purchase, and the one that finds nothing left to buy.
pub open spec fn rounds(purchases: Seq<Purchase>) -> int {
    purchases.len() as int + 1
}

/// `a / b`, rounded up.
pub open spec fn ceil_div(a: int, b: int) -> int {
    (a + b - 1) / b
}

/// A prefix that is one purchase longer costs that purchase more.
pub proof fn lemma_spent_step(purchases: Seq<Purchase>, t: int)
    requires
        0 <= t < purchases.len(),
    ensures
        spent(purchases.take(t + 1)) == spent(purchases.take(t)) + purchases[t].amount,
{
    assert(purchases.take(t + 1).drop_last() =~= purchases.take(t));
}

/// The first `t` purchases of a greedy plan cost at least `t` times any
/// amount that no price is below, and no more than the budget.
pub proof fn lemma_prefix_cost(
    initial: Seq<int>,
    prices: Seq<int>,
    ideal: Seq<int>,
    budget: int,
    purchases: Seq<Purchase>,
    floor: int,
    t: int,
)
    requires
        is_greedy_plan(initial, prices, ideal, budget, purchases),
        budget >= 0,
        forall|j: int| 0 <= j < prices.len() ==> floor <= #[trigger] prices[j],
        0 <= t <= purchases.len(),
    ensures
        t * floor <= spent(purchases.take(t)) <= budget,
    decreases t,
{
    if t > 0 {
        lemma_prefix_cost(initial, prices, ideal, budget, purchases, floor, t - 1);
        lemma_spent_step(purchases, t - 1);
        // the last of them was affordable, at a price of `floor` or more
        assert(is_greedy_step(initial, prices, ideal, budget, purchases, t - 1));
        assert(t * floor == (t - 1) * floor + floor) by (nonlinear_arith);
    }
}

/// A greedy plan never spends more than the budget, and no purchase costs
/// more than what the purchases before it have left: for every budget that
/// is not negative and all prices, the amounts sum to at most the budget,
/// and each is the price of its asset, which is at most the funds that
/// remain when it is chosen.
pub proof fn lemma_plan_within_budget(
    initial: Seq<int>,
    prices: Seq<int>,
    ideal: Seq<int>,
    budget: int,
    purchases: Seq<Purchase>,
)
    requires
        is_greedy_plan(initial, prices, ideal, budget, purchases),
        budget >= 0,
    ensures
        spent(purchases) <= budget,
        forall|t: int|
            #![trigger purchases[t]]
            0 <= t < purchases.len() ==> {
                &&& 0 <= purchases[t].asset < prices.len()
                &&& purchases[t].amount == prices[purchases[t].asset as int]
                &&& purchases[t].amount <= budget - spent(purchases.take(t))
            },
{
    let n = purchases.len() as int;
    if n > 0 {
        // the first purchase shows that there is a price
        assert(is_greedy_step(initial, prices, ideal, budget, purchases, 0));
        lemma_least(prices);
        lemma_prefix_cost(initial, prices, ideal, budget, purchases, least(prices), n);
        assert(purchases.take(n) =~= purchases);
    }
    assert forall|t: int|
        #![trigger purchases[t]]
        0 <= t < purchases.len() implies {
        &&& 0 <= purchases[t].asset < prices.len()
        &&& purchases[t].amount == prices[purchases[t].asset as int]
        &&& purchases[t].amount <= budget - spent(purchases.take(t))
    } by {
        assert(is_greedy_step(initial, prices, ideal, budget, purchases, t));
    }
}

/// Greedy planning is over within the budget divided by the least price,
/// rounded up, and one more round: with all prices positive, a plan has at
/// most that many purchases, each of which takes one round, and the last
/// round buys nothing.
pub proof fn lemma_rounds_bounded(
    initial: Seq<int>,
    prices: Seq<int>,
    ideal: Seq<int>,
    budget: int,
    purchases: Seq<Purchase>,
)
    requires
        is_greedy_plan(initial, prices, ideal, budget, purchases),
        budget >= 0,
        prices.len() > 0,
        forall|j: int| 0 <= j < prices.len() ==> #[trigger] prices[j] > 0,
    ensures
        purchases.len() * least(prices) <= budget,
        rounds(purchases) <= ceil_div(budget, least(prices)) + 1,
{
    let floor = least(prices);
    let n = purchases.len() as int;
    lemma_least(prices);
    lemma_prefix_cost(initial, prices, ideal, budget, purchases, floor, n);
    assert(purchases.take(n) =~= purchases);
    assert(n <= (budget + floor - 1) / floor) by (nonlinear_arith)
        requires
            n * floor <= budget,
            floor > 0,
            n >= 0,
    ;
}

/// With no funds nothing is bought.
pub proof fn lemma_no_funds_no_purchases(
    initial: Seq<int>,
    prices: Seq<int>,
    ideal: Seq<int>,
    purchases: Seq<Purchase>,
)
    requires
        is_greedy_plan(initial, prices, ideal, 0, purchases),
        forall|j: int| 0 <= j < prices.len() ==> #[trigger] prices[j] > 0,
    ensures
        purchases.len() == 0,
{
    if purchases.len() > 0 {
        assert(is_greedy_step(initial, prices, ideal, 0, purchases, 0));
        assert(purchases.take(0) =~= Seq::<Purchase>::empty());
    }
}

/// The same inputs have one greedy plan only.
pub proof fn lemma_greedy_plan_unique(
    initial: Seq<int>,
    prices: Seq<int>,
    ideal: Seq<int>,
    budget: int,
    one: Seq<Purchase>,
    other: Seq<Purchase>,
)
    requires
        is_greedy_plan(initial, prices, ideal, budget, one),
        is_greedy_plan(initial, prices, ideal, budget, other),
    ensures
        one == other,
{
    let n = other.len() as int;
    lemma_common_prefix(initial, prices, ideal, budget, other, one, n);
    assert(other.take(n) =~= other);
    if one.len() > n {
        // one more purchase would have been affordable after the last of `other`
        assert(is_greedy_step(initial, prices, ideal, budget, one, n));
    }
    assert(one.take(one.len() as int) =~= one);
}

/// Two greedy plans for the same inputs agree on their first `t` purchases,
/// as far as the second has that many.
proof fn lemma_common_prefix(
    initial: Seq<int>,
    prices: Seq<int>,
    ideal: Seq<int>,
    budget: int,
    one: Seq<Purchase>,
    other: Seq<Purchase>,
    t: int,
)
    requires
        is_greedy_plan(initial, prices, ideal, budget, one),
        is_greedy_plan(initial, prices, ideal, budget, other),
        0 <= t <= one.len(),
    ensures
        t <= other.len(),
        one.take(t) == other.take(t),
    decreases t,
{
    if t == 0 {
        assert(one.take(0) =~= other.take(0));
    } else {
        let s = t - 1;
        lemma_common_prefix(initial, prices, ideal, budget, one, other, s);
        assert(is_greedy_step(initial, prices, ideal, budget, one, s));
        if other.len() == s {
            // `other` would end where `one` still finds an asset affordable
            assert(other.take(s) =~= other);
        }
        // both choose the best asset of the same state: the same asset
        assert(is_greedy_step(initial, prices, ideal, budget, other, s));
        assert(one[s] == other[s]);
        assert(one.take(t) =~= one.take(s).push(one[s]));
        assert(other.take(t) =~= other.take(s).push(other[s]));
    }
}

/// Whether any asset costs no more than `budget`.
pub fn any_affordable(prices: &Vec<u64>, budget: u64) -> (r: bool)
    ensures
        r <==> !none_affordable(ints(prices@), budget as int),
{
    let mut i: usize = 0;
    while i < prices.len()
        invariant
            i <= prices.len(),
            forall|k: int| 0 <= k < i ==> !affordable(ints(prices@), budget as int, k),
        decreases prices.len() - i,
    {
        if prices[i] <= budget {
            assert(affordable(ints(prices@), budget as int, i as int));
            return true;
        }
        i += 1;
    }
    false
}

/// Whether every price is positive.
fn all_positive(prices: &Vec<u64>) -> (r: bool)
    ensures
        r <==> forall|j: int| 0 <= j < prices.len() ==> #[trigger] ints(prices@)[j] > 0,
{
    let mut i: usize = 0;
    while i < prices.len()
        invariant
            i <= prices.len(),
            forall|j: int| 0 <= j < i ==> #[trigger] ints(prices@)[j] > 0,
        decreases prices.len() - i,
    {
        if prices[i] == 0 {
            assert(ints(prices@)[i as int] == 0);
            return false;
        }
        i += 1;
    }
    true
}

/// Whether every share is at most the whole.
fn all_shares(ideal: &Vec<u64>) -> (r: bool)
    ensures
        r <==> forall|j: int|
            0 <= j < ideal.len() ==> 0 <= #[trigger] ints(ideal@)[j] && ints(ideal@)[j]
                <= FRACTION_SCALE,
{
    let mut i: usize = 0;
    while i < ideal.len()
        invariant
            i <= ideal.len(),
            forall|j: int|
                0 <= j < i ==> 0 <= #[trigger] ints(ideal@)[j] && ints(ideal@)[j]
                    <= FRACTION_SCALE,
        decreases ideal.len() - i,
    {
        if ideal[i] > FRACTION_SCALE {
            assert(ints(ideal@)[i as int] > FRACTION_SCALE);
            return false;
        }
        i += 1;
    }
    true
}

/// Whether the inputs are what [`generate_orders`] asks for.
pub fn inputs_fit(equities: &Vec<u64>, prices: &Vec<u64>, ideal: &Vec<u64>, max_fund: u64) -> (r:
    bool)
    ensures
        r == selection_fits(ints(equities@), ints(prices@), ints(ideal@), max_fund as int),
{
    let n: usize = equities.len();
    if prices.len() != n || ideal.len() != n {
        return false;
    }
    if !all_positive(prices) || !all_shares(ideal) {
        return false;
    }
    let ghost held = sum(ints(equities@));
    let ghost cap = sq((held + max_fund) * FRACTION_SCALE);
    proof {
        lemma_sum_non_negative(ints(equities@));
        assert(cap >= 0) by (nonlinear_arith)
            requires
                cap == ((held + max_fund) * 1_000_000) * ((held + max_fund) * 1_000_000),
        ;
    }
    if n == 0 {
        assert(n * cap == 0) by (nonlinear_arith)
            requires
                n == 0,
        ;
        return true;
    }
    proof {
        assert(n * cap >= cap) by (nonlinear_arith)
            requires
                n >= 1,
                cap >= 0,
        ;
        assert(held + max_fund > u64::MAX ==> cap > u128::MAX) by (nonlinear_arith)
            requires
                cap == ((held + max_fund) * 1_000_000) * ((held + max_fund) * 1_000_000),
        ;
    }
    let held_funds: u64 = match checked_total(equities) {
        Some(t) => t,
        None => {
            return false;
        },
    };
    let most: u64 = match held_funds.checked_add(max_fund) {
        Some(m) => m,
        None => {
            return false;
        },
    };
    let scaled: u128 = (most as u128) * 1_000_000;
    let squared: u128 = match scaled.checked_mul(scaled) {
        Some(s) => s,
        None => {
            return false;
        },
    };
    match (n as u128).checked_mul(squared) {
        Some(_) => true,
        None => false,
    }
}

/// Spends `max_fund` greedily: as long as some asset is affordable, buys
/// one unit of the best asset to fund, adds its price to that asset's
/// equity and takes it from the funds. Returns the purchases in the order
/// in which they were chosen, and the equities that result.
pub fn generate_orders(
    equities: Vec<u64>,
    prices: &Vec<u64>,
    ideal: &Vec<u64>,
    max_fund: u64,
) -> (plan: PurchasePlan)
    requires
        selection_fits(ints(equities@), ints(prices@), ints(ideal@), max_fund as int),
    ensures
        is_greedy_plan(
            ints(equities@),
            ints(prices@),
            ints(ideal@),
            max_fund as int,
            plan.purchases@,
        ),
        ints(plan.equities@) == equities_after(ints(equities@), plan.purchases@),
        sum(ints(plan.equities@)) == sum(ints(equities@)) + spent(plan.purchases@),
        spent(plan.purchases@) <= max_fund,
        forall|t: int|
            #![trigger plan.purchases[t]]
            0 <= t < plan.purchases.len() ==> {
                &&& plan.purchases[t].asset < prices.len()
                &&& plan.purchases[t].amount == prices[plan.purchases[t].asset as int]
                &&& 0 < plan.purchases[t].amount <= max_fund - spent(plan.purchases@.take(t))
            },
        prices.len() > 0 ==> rounds(plan.purchases@) <= ceil_div(
            max_fund as int,
            least(ints(prices@)),
        ) + 1,
        max_fund == 0 ==> plan.purchases.len() == 0,
{
    let ghost initial = ints(equities@);
    let ghost pr = ints(prices@);
    let ghost id = ints(ideal@);
    let ghost budget = max_fund as int;
    let mut purchases: Vec<Purchase> = Vec::new();
    let mut current: Vec<u64> = equities;
    let mut remaining: u64 = max_fund;
    let ghost mut turns: int = 0;
    loop
        invariant_except_break
            turns == purchases.len(),
        invariant
            pr == ints(prices@),
            id == ints(ideal@),
            budget == max_fund,
            ints(current@) == equities_after(initial, purchases@),
            remaining == budget - spent(purchases@),
            sum(ints(current@)) + remaining == sum(initial) + budget,
            selection_fits(ints(current@), pr, id, remaining as int),
            forall|t: int|
                0 <= t < purchases.len() ==> #[trigger] is_greedy_step(
                    initial,
                    pr,
                    id,
                    budget,
                    purchases@,
                    t,
                ),
            budget == 0 ==> purchases.len() == 0,
        ensures
            turns == rounds(purchases@),
            is_greedy_plan(initial, pr, id, budget, purchases@),
            ints(current@) == equities_after(initial, purchases@),
            sum(ints(current@)) == sum(initial) + spent(purchases@),
            spent(purchases@) <= budget,
            budget == 0 ==> purchases.len() == 0,
        decreases remaining,
    {
        proof {
            turns = turns + 1;
        }
        if !any_affordable(prices, remaining) {
            break;
        }
        match best_asset_to_fund(&current, prices, ideal, remaining) {
            Some((asset, amount)) => {
                let ghost before = purchases@;
                let ghost state = ints(current@);
                proof {
                    lemma_trial_fits(state, pr, id, remaining as int, asset as int);
                    lemma_sum_bounds(funded(state, asset as int, amount as int), asset as int);
                }
                purchases.push(Purchase { asset, amount });
                let raised: u64 = current[asset] + amount;
                current[asset] = raised;
                remaining = remaining - amount;
                proof {
                    let after = purchases@;
                    assert(ints(current@) =~= funded(state, asset as int, amount as int));
                    assert(after.take(before.len() as int) =~= before);
                    assert forall|t: int| 0 <= t < after.len() implies #[trigger] is_greedy_step(
                        initial,
                        pr,
                        id,
                        budget,
                        after,
                        t,
                    ) by {
                        if t < before.len() {
                            assert(is_greedy_step(initial, pr, id, budget, before, t));
                            assert(after.take(t) =~= before.take(t));
                        }
                    }
                }
            },
            None => {
                break;
            },
        }
    }
    proof {
        lemma_plan_within_budget(initial, pr, id, budget, purchases@);
        if prices.len() > 0 {
            lemma_rounds_bounded(initial, pr, id, budget, purchases@);
        }
    }
    PurchasePlan { purchases, equities: current }
}

} // verus!
