use rebalance::checkpoint::{Checkpoint, Entry, Position};
use rebalance::cycle::{ideal_shares, orders_of, plan_cycle};
use rebalance::order::{size_order, OrderSize};
use rebalance::plan::{Purchase, PurchasePlan};
use rebalance::time::Timestamp;

fn state(ideal: &[(&str, u64)]) -> Checkpoint {
    Checkpoint {
        last_funding_date: None,
        reference_equities: vec![],
        ideal_allocations: ideal
            .iter()
            .map(|(s, v)| Entry { symbol: s.to_string(), value: *v })
            .collect(),
        target_investment_equity_ratio: 1_000_000,
        finish_date: Timestamp { secs: 0, nanos: 0 },
    }
}

fn position(symbol: &str, market_value: u64, current_price: u64) -> Position {
    Position { symbol: symbol.to_string(), market_value, current_price }
}

#[test]
fn order_is_priced_a_tenth_of_a_percent_below() {
    assert_eq!(size_order(10_000, 50_000), OrderSize { limit_price: 9_990, quantity: 5 });
    assert_eq!(size_order(12_345, 100_000).limit_price, 12_333);
}

#[test]
fn order_quantity_is_rounded_down() {
    // 99.90 buys once for 99.90 and not twice for 199.79
    assert_eq!(size_order(10_000, 9_990).quantity, 1);
    assert_eq!(size_order(10_000, 9_989).quantity, 0);
    assert_eq!(size_order(10_000, 19_979).quantity, 1);
    assert_eq!(size_order(10_000, 19_980).quantity, 2);
    assert_eq!(size_order(10_000, 0).quantity, 0);
}

#[test]
fn limit_price_ties_go_to_the_even_cent() {
    assert_eq!(size_order(500, 1).limit_price, 500);
    assert_eq!(size_order(1_500, 1).limit_price, 1_498);
    assert_eq!(size_order(501, 1).limit_price, 500);
    assert_eq!(size_order(499, 1).limit_price, 499);
    assert_eq!(size_order(1, 1).limit_price, 1);
}

#[test]
fn order_quantity_is_capped() {
    assert_eq!(size_order(1, u64::MAX), OrderSize { limit_price: 1, quantity: u64::MAX });
    assert_eq!(
        size_order(u64::MAX, u64::MAX),
        OrderSize { limit_price: 18_428_297_329_635_842_063, quantity: 1 }
    );
}

#[test]
fn ideal_shares_follow_the_positions() {
    let s = state(&[("BBB", 600_000), ("AAA", 400_000)]);
    let positions = vec![position("AAA", 1, 1), position("CCC", 1, 1), position("BBB", 1, 1)];
    assert_eq!(ideal_shares(&s, &positions), vec![400_000, 0, 600_000]);
}

#[test]
fn cycle_plans_against_the_ideal_shares_of_the_checkpoint() {
    let s = state(&[("AAA", 500_000), ("BBB", 500_000)]);
    let positions = vec![position("AAA", 0, 1_000), position("BBB", 10_000, 1_000)];
    let plan = plan_cycle(&s, &positions, 2_500).unwrap();
    assert_eq!(
        plan.purchases,
        vec![Purchase { asset: 0, amount: 1_000 }, Purchase { asset: 0, amount: 1_000 }]
    );
    assert_eq!(plan.equities, vec![2_000, 10_000]);
    let orders = orders_of(&plan, &positions);
    assert_eq!(orders.len(), 2);
    for order in &orders {
        assert_eq!(order.symbol, "AAA");
        assert_eq!(order.limit_price, 999);
        assert_eq!(order.quantity, 1);
    }
}

#[test]
fn cycle_does_not_plan_what_planning_cannot_take() {
    let s = state(&[("AAA", 500_000), ("BBB", 500_000)]);
    let positions = vec![position("AAA", 0, 0), position("BBB", 10_000, 1_000)];
    assert!(plan_cycle(&s, &positions, 2_500).is_none());
    let s = state(&[("AAA", 1_500_000)]);
    let positions = vec![position("AAA", 0, 1_000)];
    assert!(plan_cycle(&s, &positions, 2_500).is_none());
    let s = state(&[("AAA", 500_000)]);
    let positions = vec![position("AAA", u64::MAX, 1_000)];
    assert!(plan_cycle(&s, &positions, 2_500).is_none());
}

#[test]
fn orders_follow_the_purchases() {
    let positions = vec![position("AAA", 0, 10_000), position("BBB", 0, 2_500)];
    let plan = PurchasePlan {
        purchases: vec![
            Purchase { asset: 1, amount: 2_500 },
            Purchase { asset: 0, amount: 50_000 },
        ],
        equities: vec![50_000, 2_500],
    };
    let orders = orders_of(&plan, &positions);
    let got: Vec<(String, u64, u64)> =
        orders.iter().map(|o| (o.symbol.clone(), o.limit_price, o.quantity)).collect();
    // 2498 is the even of 2497 and 2498, which 2497.5 lies between
    assert_eq!(got, vec![("BBB".to_string(), 2_498, 1), ("AAA".to_string(), 9_990, 5)]);
}
