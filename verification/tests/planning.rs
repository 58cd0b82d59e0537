use rebalance::metric::error;
use rebalance::plan::{any_affordable, generate_orders, inputs_fit, Purchase};
use rebalance::select::{best_asset_to_fund, fund_one, min_by_key};
use rebalance::ratio::Ratio;

#[test]
fn selector_takes_the_only_affordable_asset() {
    let equities = vec![10_000, 10_000];
    let prices = vec![1_000, 2_000];
    let ideal = vec![500_000, 500_000];
    assert_eq!(best_asset_to_fund(&equities, &prices, &ideal, 1_000), Some((0, 1_000)));
    // the allocation that results: 11000 / 21000 and 10000 / 21000
    let after = fund_one(&equities, 0, 1_000);
    assert_eq!(after, vec![11_000, 10_000]);
    let e = error(&after, 21_000, &ideal, 1_000_000).unwrap();
    // each fraction is 1/42 away from one half
    assert!(e.equals(&Ratio { num: 1, den: 42 * 42 }));
}

#[test]
fn selector_finds_nothing_where_nothing_is_affordable() {
    let equities = vec![10_000, 10_000];
    let prices = vec![1_000, 2_000];
    let ideal = vec![500_000, 500_000];
    assert_eq!(best_asset_to_fund(&equities, &prices, &ideal, 999), None);
    assert_eq!(best_asset_to_fund(&vec![], &vec![], &vec![], 5_000), None);
}

#[test]
fn selector_takes_the_asset_that_leaves_the_least_error() {
    let equities = vec![5_000, 5_000];
    let prices = vec![1_000, 1_500];
    let ideal = vec![250_000, 750_000];
    assert_eq!(best_asset_to_fund(&equities, &prices, &ideal, 4_000), Some((1, 1_500)));
}

#[test]
fn selector_takes_the_first_of_equal_candidates() {
    let prices = vec![1_000, 1_000];
    let ideal = vec![500_000, 500_000];
    assert_eq!(best_asset_to_fund(&vec![0, 0], &prices, &ideal, 1_000), Some((0, 1_000)));
    assert_eq!(best_asset_to_fund(&vec![700, 700], &prices, &ideal, 5_000), Some((0, 1_000)));
}

#[test]
fn least_key_is_found_and_the_first_wins() {
    assert_eq!(min_by_key(&vec![]), None);
    let items = vec![
        (4, Ratio { num: 1, den: 2 }),
        (7, Ratio { num: 1, den: 3 }),
        (9, Ratio { num: 2, den: 6 }),
        (11, Ratio { num: 3, den: 4 }),
    ];
    assert_eq!(min_by_key(&items), Some((7, Ratio { num: 1, den: 3 })));
}

#[test]
fn planner_funds_the_asset_furthest_from_ideal() {
    let prices = vec![1_000, 1_000];
    let ideal = vec![500_000, 500_000];
    let plan = generate_orders(vec![0, 10_000], &prices, &ideal, 2_500);
    assert_eq!(
        plan.purchases,
        vec![Purchase { asset: 0, amount: 1_000 }, Purchase { asset: 0, amount: 1_000 }]
    );
    assert_eq!(plan.equities, vec![2_000, 10_000]);
    let total: u64 = plan.purchases.iter().map(|p| p.amount).sum();
    assert!(total <= 2_500);
}

#[test]
fn planner_buys_nothing_without_funds() {
    let prices = vec![1_000, 1_000];
    let ideal = vec![500_000, 500_000];
    let plan = generate_orders(vec![0, 10_000], &prices, &ideal, 0);
    assert!(plan.purchases.is_empty());
    assert_eq!(plan.equities, vec![0, 10_000]);
}

#[test]
fn planner_buys_nothing_of_no_assets() {
    let plan = generate_orders(vec![], &vec![], &vec![], 1_000_000);
    assert!(plan.purchases.is_empty());
    assert!(plan.equities.is_empty());
}

#[test]
fn planner_turns_to_what_is_still_affordable() {
    let prices = vec![1_000, 1_500];
    let ideal = vec![250_000, 750_000];
    let plan = generate_orders(vec![5_000, 5_000], &prices, &ideal, 4_000);
    assert_eq!(
        plan.purchases,
        vec![
            Purchase { asset: 1, amount: 1_500 },
            Purchase { asset: 1, amount: 1_500 },
            Purchase { asset: 0, amount: 1_000 },
        ]
    );
    assert_eq!(plan.equities, vec![6_000, 8_000]);
}

#[test]
fn planner_stays_within_budget_and_within_the_bound_on_rounds() {
    let prices = vec![700, 1_100, 1_900];
    let ideal = vec![200_000, 300_000, 500_000];
    for budget in [0u64, 699, 700, 1_000, 5_000, 12_345, 100_000] {
        let plan = generate_orders(vec![1_000, 50_000, 3_000], &prices, &ideal, budget);
        let mut left = budget;
        let mut equities = vec![1_000u64, 50_000, 3_000];
        for p in &plan.purchases {
            assert_eq!(p.amount, prices[p.asset]);
            assert!(p.amount > 0 && p.amount <= left);
            left -= p.amount;
            equities[p.asset] += p.amount;
        }
        assert!(prices.iter().all(|&p| p > left));
        assert_eq!(plan.equities, equities);
        let bound = (budget + 700 - 1) / 700;
        assert!(plan.purchases.len() as u64 + 1 <= bound + 1);
    }
}

#[test]
fn affordability_is_price_at_most_budget() {
    assert!(any_affordable(&vec![300, 200], 200));
    assert!(!any_affordable(&vec![300, 200], 199));
    assert!(!any_affordable(&vec![], 1_000));
}

#[test]
fn inputs_are_checked_before_planning() {
    let ideal = vec![500_000, 500_000];
    assert!(inputs_fit(&vec![0, 10_000], &vec![1_000, 1_000], &ideal, 2_500));
    assert!(inputs_fit(&vec![], &vec![], &vec![], u64::MAX));
    // one price too few
    assert!(!inputs_fit(&vec![0, 10_000], &vec![1_000], &ideal, 2_500));
    // one share too few
    assert!(!inputs_fit(&vec![0, 10_000], &vec![1_000, 1_000], &vec![500_000], 2_500));
    // a price of nothing
    assert!(!inputs_fit(&vec![0, 10_000], &vec![1_000, 0], &ideal, 2_500));
    // a share of more than the whole
    assert!(!inputs_fit(&vec![0, 10_000], &vec![1_000, 1_000], &vec![1_000_001, 0], 2_500));
    // amounts beyond what the errors can be computed for
    assert!(!inputs_fit(&vec![u64::MAX, 1], &vec![1_000, 1_000], &ideal, 0));
    assert!(!inputs_fit(&vec![0, 0], &vec![1_000, 1_000], &ideal, u64::MAX));
    assert!(!inputs_fit(&vec![1 << 44, 0], &vec![1_000, 1_000], &ideal, 0));
    assert!(inputs_fit(&vec![1 << 43, 0], &vec![1_000, 1_000], &ideal, 0));
}
