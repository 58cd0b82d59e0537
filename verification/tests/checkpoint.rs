use rebalance::checkpoint::{
    generate_default_state, lookup, prices_of, values_of, Checkpoint, Entry, Position,
};
use rebalance::time::Timestamp;

fn entry(symbol: &str, value: u64) -> Entry {
    Entry { symbol: symbol.to_string(), value }
}

fn position(symbol: &str, market_value: u64, current_price: u64) -> Position {
    Position { symbol: symbol.to_string(), market_value, current_price }
}

fn pairs(entries: &Vec<Entry>) -> Vec<(String, u64)> {
    entries.iter().map(|e| (e.symbol.clone(), e.value)).collect()
}

#[test]
fn lookup_finds_the_value_of_a_symbol() {
    let entries = vec![entry("AAA", 1), entry("BBB", 2), entry("CCC", 3)];
    assert_eq!(lookup(&entries, &"BBB".to_string()), Some(2));
    assert_eq!(lookup(&entries, &"AAA".to_string()), Some(1));
    assert_eq!(lookup(&entries, &"DDD".to_string()), None);
    assert_eq!(lookup(&vec![], &"AAA".to_string()), None);
}

#[test]
fn lookup_takes_the_last_entry_of_a_symbol() {
    let entries = vec![entry("AAA", 1), entry("BBB", 2), entry("AAA", 3)];
    assert_eq!(lookup(&entries, &"AAA".to_string()), Some(3));
}

#[test]
fn ideal_share_of_an_unknown_symbol_is_nothing() {
    let state = Checkpoint {
        last_funding_date: None,
        reference_equities: vec![],
        ideal_allocations: vec![entry("AAA", 400_000), entry("BBB", 600_000)],
        target_investment_equity_ratio: 1_000_000,
        finish_date: Timestamp { secs: 0, nanos: 0 },
    };
    assert_eq!(state.ideal_share(&"BBB".to_string()), 600_000);
    assert_eq!(state.ideal_share(&"ZZZ".to_string()), 0);
}

#[test]
fn default_state_samples_the_portfolio() {
    let now = Timestamp { secs: 1_700_000_000, nanos: 42 };
    let positions = vec![position("AAA", 3_000, 100), position("BBB", 1_000, 50)];
    let state = generate_default_state(&positions, &now).unwrap();
    assert_eq!(state.last_funding_date, None);
    assert_eq!(state.target_investment_equity_ratio, 1_000_000);
    assert_eq!(state.finish_date, Timestamp { secs: 1_700_000_000 + 365 * 86_400, nanos: 42 });
    assert_eq!(
        pairs(&state.reference_equities),
        vec![("AAA".to_string(), 3_000), ("BBB".to_string(), 1_000)]
    );
    assert_eq!(
        pairs(&state.ideal_allocations),
        vec![("AAA".to_string(), 750_000), ("BBB".to_string(), 250_000)]
    );
}

#[test]
fn default_state_rounds_shares_down() {
    let now = Timestamp { secs: 0, nanos: 0 };
    let positions = vec![position("A", 1, 1), position("B", 1, 1), position("C", 1, 1)];
    let state = generate_default_state(&positions, &now).unwrap();
    assert_eq!(
        pairs(&state.ideal_allocations),
        vec![("A".to_string(), 333_333), ("B".to_string(), 333_333), ("C".to_string(), 333_333)]
    );
}

#[test]
fn default_state_of_an_empty_portfolio() {
    let now = Timestamp { secs: 0, nanos: 0 };
    let state = generate_default_state(&vec![], &now).unwrap();
    assert!(state.reference_equities.is_empty());
    assert!(state.ideal_allocations.is_empty());
    let state = generate_default_state(&vec![position("A", 0, 10)], &now).unwrap();
    assert_eq!(pairs(&state.ideal_allocations), vec![("A".to_string(), 0)]);
}

#[test]
fn default_state_fails_beyond_the_limits() {
    let now = Timestamp { secs: 0, nanos: 0 };
    let positions = vec![position("A", u64::MAX, 1), position("B", 1, 1)];
    assert!(generate_default_state(&positions, &now).is_none());
    let late = Timestamp { secs: i64::MAX - 364 * 86_400, nanos: 0 };
    assert!(generate_default_state(&vec![], &late).is_none());
}

#[test]
fn marking_funded_changes_the_date_only() {
    let now = Timestamp { secs: 1_700_000_000, nanos: 42 };
    let positions = vec![position("AAA", 3_000, 100), position("BBB", 1_000, 50)];
    let mut state = generate_default_state(&positions, &now).unwrap();
    let later = Timestamp { secs: 1_700_090_000, nanos: 7 };
    state.mark_funded(later);
    assert_eq!(state.last_funding_date, Some(later));
    assert_eq!(state.target_investment_equity_ratio, 1_000_000);
    assert_eq!(state.finish_date, Timestamp { secs: 1_700_000_000 + 365 * 86_400, nanos: 42 });
    assert_eq!(
        pairs(&state.ideal_allocations),
        vec![("AAA".to_string(), 750_000), ("BBB".to_string(), 250_000)]
    );
    assert_eq!(
        pairs(&state.reference_equities),
        vec![("AAA".to_string(), 3_000), ("BBB".to_string(), 1_000)]
    );
}

#[test]
fn positions_give_their_values_and_prices() {
    let positions = vec![position("AAA", 3_000, 100), position("BBB", 1_000, 50)];
    assert_eq!(values_of(&positions), vec![3_000, 1_000]);
    assert_eq!(prices_of(&positions), vec![100, 50]);
}
