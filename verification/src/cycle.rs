//! One funding cycle: from the checkpoint and the positions to the orders.

use vstd::prelude::*;
use crate::checkpoint::{
    current_prices, market_values, prices_of, table, value_of, values_of, Checkpoint, Position,
};
use crate::order::{limit_price_of, quantity_of, size_order};
use crate::plan::{
    equities_after, generate_orders, inputs_fit, is_greedy_plan, spent, PurchasePlan,
};
use crate::select::selection_fits;
use crate::sums::ints;

verus! {

/// A buy order for the day.
#[derive(Debug)]
pub struct Order {
    pub symbol: String,
    /// The limit price, in cents.
    pub limit_price: u64,
    /// The units to buy.
    pub quantity: u64,
}

/// The share that the checkpoint means each position to have, in
/// millionths and in the order of the positions: nothing for a symbol that
/// the checkpoint does not know.
pub open spec fn ideal_of(state: Checkpoint, positions: Seq<Position>) -> Seq<int> {
    Seq::new(
        positions.len(),
        |j: int|
            match value_of(table(state.ideal_allocations@), positions[j].symbol@) {
                Some(share) => share as int,
                None => 0,
            },
    )
}

/// The ideal share of each position, in the order of the positions.
pub fn ideal_shares(state: &Checkpoint, positions: &Vec<Position>) -> (r: Vec<u64>)
    ensures
        ints(r@) == ideal_of(*state, positions@),
{
    let mut r: Vec<u64> = Vec::new();
    let mut j: usize = 0;
    while j < positions.len()
        invariant
            j <= positions.len(),
            r.len() == j,
            forall|k: int| 0 <= k < j ==> r[k] == ideal_of(*state, positions@)[k],
        decreases positions.len() - j,
    {
        r.push(state.ideal_share(&positions[j].symbol));
        j += 1;
    }
    r
}

/// The purchases of a cycle that has `budget` to invest: the greedy plan
/// for the market values and prices of the positions against the ideal
/// shares of the checkpoint. There is none where the positions, the shares
/// and the budget are not what planning asks for.
pub fn plan_cycle(state: &Checkpoint, positions: &Vec<Position>, budget: u64) -> (r: Option<
    PurchasePlan,
>)
    ensures
        r is Some <==> selection_fits(
            market_values(positions@),
            current_prices(positions@),
            ideal_of(*state, positions@),
            budget as int,
        ),
        r matches Some(plan) ==> {
            &&& is_greedy_plan(
                market_values(positions@),
                current_prices(positions@),
                ideal_of(*state, positions@),
                budget as int,
                plan.purchases@,
            )
            &&& ints(plan.equities@) == equities_after(
                market_values(positions@),
                plan.purchases@,
            )
            &&& spent(plan.purchases@) <= budget
            &&& forall|t: int|
                #![trigger plan.purchases[t]]
                0 <= t < plan.purchases.len() ==> {
                    &&& plan.purchases[t].asset < positions.len()
                    &&& plan.purchases[t].amount
                        == positions[plan.purchases[t].asset as int].current_price
                    &&& 0 < plan.purchases[t].amount <= budget - spent(plan.purchases@.take(t))
                }
        },
{
    let equities = values_of(positions);
    let prices = prices_of(positions);
    let ideal = ideal_shares(state, positions);
    if inputs_fit(&equities, &prices, &ideal, budget) {
        let plan = generate_orders(equities, &prices, &ideal, budget);
        proof {
            assert forall|t: int|
                #![trigger plan.purchases[t]]
                0 <= t < plan.purchases.len() implies plan.purchases[t].amount
                == positions[plan.purchases[t].asset as int].current_price by {
                let asset = plan.purchases[t].asset as int;
                assert(ints(prices@)[asset] == current_prices(positions@)[asset]);
            }
        }
        Some(plan)
    } else {
        None
    }
}

/// The orders that carry out the purchases, in their order: each for the
/// symbol of its asset, sized by the asset's price and the amount of the
/// purchase.
pub fn orders_of(plan: &PurchasePlan, positions: &Vec<Position>) -> (r: Vec<Order>)
    requires
        forall|t: int|
            #![trigger plan.purchases[t]]
            0 <= t < plan.purchases.len() ==> {
                &&& plan.purchases[t].asset < positions.len()
                &&& positions[plan.purchases[t].asset as int].current_price > 0
            },
    ensures
        r.len() == plan.purchases.len(),
        forall|t: int|
            #![trigger r[t]]
            0 <= t < r.len() ==> {
                let position = positions[plan.purchases[t].asset as int];
                &&& r[t].symbol@ == position.symbol@
                &&& r[t].limit_price == limit_price_of(position.current_price as int)
                &&& r[t].quantity == quantity_of(
                    plan.purchases[t].amount as int,
                    position.current_price as int,
                )
            },
{
    let mut r: Vec<Order> = Vec::new();
    let mut t: usize = 0;
    while t < plan.purchases.len()
        invariant
            t <= plan.purchases.len(),
            r.len() == t,
            forall|s: int|
                #![trigger plan.purchases[s]]
                0 <= s < plan.purchases.len() ==> {
                    &&& plan.purchases[s].asset < positions.len()
                    &&& positions[plan.purchases[s].asset as int].current_price > 0
                },
            forall|s: int|
                #![trigger r[s]]
                0 <= s < t ==> {
                    let position = positions[plan.purchases[s].asset as int];
                    &&& r[s].symbol@ == position.symbol@
                    &&& r[s].limit_price == limit_price_of(position.current_price as int)
                    &&& r[s].quantity == quantity_of(
                        plan.purchases[s].amount as int,
                        position.current_price as int,
                    )
                },
        decreases plan.purchases.len() - t,
    {
        let purchase = plan.purchases[t];
        let position = &positions[purchase.asset];
        let size = size_order(position.current_price, purchase.amount);
        r.push(
            Order {
                symbol: position.symbol.clone(),
                limit_price: size.limit_price,
                quantity: size.quantity,
            },
        );
        t += 1;
    }
    r
}

} // verus!
