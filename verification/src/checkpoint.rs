//! The state that is kept from one funding cycle to the next.

use vstd::prelude::*;
use crate::select::FRACTION_SCALE;
use crate::sums::{checked_total, ints, lemma_sum_bounds, sum};
use crate::time::Timestamp;

verus! {

/// The days from the first sampling of a portfolio to its finish date.
pub const FUNDING_PERIOD_DAYS: i64 = 365;

/// A value kept for a symbol: an equity in cents, or a fraction in
/// millionths.
#[derive(Debug)]
pub struct Entry {
    pub symbol: String,
    pub value: u64,
}

/// A holding as the broker reports it: market value and price in cents.
#[derive(Debug)]
pub struct Position {
    pub symbol: String,
    pub market_value: u64,
    pub current_price: u64,
}

/// The snapshot that a funding cycle starts from and leaves behind.
#[derive(Debug)]
pub struct Checkpoint {
    /// When funds were last invested; `None` until the first cycle has
    /// funded.
    pub last_funding_date: Option<Timestamp>,
    /// The equity of each symbol, in cents, when the portfolio was sampled.
    pub reference_equities: Vec<Entry>,
    /// The share of the portfolio that each symbol is meant to have, in
    /// millionths.
    pub ideal_allocations: Vec<Entry>,
    /// The share of the account's equity that is to be invested by the
    /// finish date, in millionths.
    pub target_investment_equity_ratio: u32,
    /// When the target is to be reached.
    pub finish_date: Timestamp,
}

/// The mapping that a list of entries stands for: each symbol has the
/// value of the last entry that names it.
pub open spec fn table(entries: Seq<Entry>) -> Map<Seq<char>, u64>
    decreases entries.len(),
{
    if entries.len() == 0 {
        Map::empty()
    } else {
        table(entries.drop_last()).insert(entries.last().symbol@, entries.last().value)
    }
}

/// The value that `map` has for `symbol`, if it has one.
pub open spec fn value_of(map: Map<Seq<char>, u64>, symbol: Seq<char>) -> Option<u64> {
    if map.contains_key(symbol) {
        Some(map[symbol])
    } else {
        None
    }
}

/// The value that the entries hold for `symbol`, if they hold one.
pub fn lookup(entries: &Vec<Entry>, symbol: &String) -> (r: Option<u64>)
    ensures
        r == value_of(table(entries@), symbol@),
{
    let mut found: Option<u64> = None;
    let mut i: usize = 0;
    while i < entries.len()
        invariant
            i <= entries.len(),
            found == value_of(table(entries@.take(i as int)), symbol@),
        decreases entries.len() - i,
    {
        proof {
            assert(entries@.take(i + 1).drop_last() =~= entries@.take(i as int));
        }
        if entries[i].symbol == *symbol {
            found = Some(entries[i].value);
        }
        i += 1;
    }
    proof {
        assert(entries@.take(i as int) =~= entries@);
    }
    found
}

/// The share that `part` has of `whole`, in millionths and rounded down;
/// nothing where there is no whole.
pub open spec fn share_of(part: int, whole: int) -> int {
    if whole > 0 {
        part * FRACTION_SCALE / whole
    } else {
        0
    }
}

/// The market values of the positions, in their order.
pub open spec fn market_values(positions: Seq<Position>) -> Seq<int> {
    Seq::new(positions.len(), |j: int| positions[j].market_value as int)
}

/// The prices of the positions, in their order.
pub open spec fn current_prices(positions: Seq<Position>) -> Seq<int> {
    Seq::new(positions.len(), |j: int| positions[j].current_price as int)
}

/// The market values of the positions, in their order.
pub fn values_of(positions: &Vec<Position>) -> (r: Vec<u64>)
    ensures
        ints(r@) == market_values(positions@),
{
    let mut r: Vec<u64> = Vec::new();
    let mut j: usize = 0;
    while j < positions.len()
        invariant
            j <= positions.len(),
            r.len() == j,
            forall|k: int| 0 <= k < j ==> r[k] == positions[k].market_value,
        decreases positions.len() - j,
    {
        r.push(positions[j].market_value);
        j += 1;
    }
    r
}

/// The prices of the positions, in their order.
pub fn prices_of(positions: &Vec<Position>) -> (r: Vec<u64>)
    ensures
        ints(r@) == current_prices(positions@),
{
    let mut r: Vec<u64> = Vec::new();
    let mut j: usize = 0;
    while j < positions.len()
        invariant
            j <= positions.len(),
            r.len() == j,
            forall|k: int| 0 <= k < j ==> r[k] == positions[k].current_price,
        decreases positions.len() - j,
    {
        r.push(positions[j].current_price);
        j += 1;
    }
    r
}

/// The checkpoint `c` is what sampling `positions` at `now` gives: never
/// funded, each symbol with its market value and with the share that this
/// value has of the whole portfolio, all of the account's equity to be
/// invested, within a year of `now`.
pub open spec fn is_sample_of(c: Checkpoint, positions: Seq<Position>, now: Timestamp) -> bool {
    let whole = sum(market_values(positions));
    &&& c.last_funding_date is None
    &&& c.target_investment_equity_ratio == FRACTION_SCALE
    &&& now.shifted(FUNDING_PERIOD_DAYS as int) == Some(c.finish_date)
    &&& c.reference_equities.len() == positions.len()
    &&& c.ideal_allocations.len() == positions.len()
    &&& forall|j: int|
        #![trigger positions[j]]
        0 <= j < positions.len() ==> {
            &&& c.reference_equities[j].symbol@ == positions[j].symbol@
            &&& c.reference_equities[j].value == positions[j].market_value
            &&& c.ideal_allocations[j].symbol@ == positions[j].symbol@
            &&& c.ideal_allocations[j].value == share_of(positions[j].market_value as int, whole)
        }
}

/// The checkpoint of a portfolio that has none yet, sampled from its
/// positions at `now`. There is none where the market values together
/// exceed what an amount can hold, or where the clock cannot hold the
/// finish date.
pub fn generate_default_state(positions: &Vec<Position>, now: &Timestamp) -> (r: Option<
    Checkpoint,
>)
    ensures
        match r {
            Some(c) => is_sample_of(c, positions@, *now),
            None => {
                ||| sum(market_values(positions@)) > u64::MAX
                ||| now.shifted(FUNDING_PERIOD_DAYS as int) is None
            },
        },
{
    let values = values_of(positions);
    let whole: u64 = match checked_total(&values) {
        Some(w) => w,
        None => {
            return None;
        },
    };
    let finish_date: Timestamp = match now.plus_days(FUNDING_PERIOD_DAYS) {
        Some(t) => t,
        None => {
            return None;
        },
    };
    let ghost mv = market_values(positions@);
    let mut reference_equities: Vec<Entry> = Vec::new();
    let mut ideal_allocations: Vec<Entry> = Vec::new();
    let mut j: usize = 0;
    while j < positions.len()
        invariant
            j <= positions.len(),
            mv == market_values(positions@),
            whole == sum(mv),
            reference_equities.len() == j,
            ideal_allocations.len() == j,
            forall|k: int|
                #![trigger positions[k]]
                0 <= k < j ==> {
                    &&& reference_equities[k].symbol@ == positions[k].symbol@
                    &&& reference_equities[k].value == positions[k].market_value
                    &&& ideal_allocations[k].symbol@ == positions[k].symbol@
                    &&& ideal_allocations[k].value == share_of(
                        positions[k].market_value as int,
                        whole as int,
                    )
                },
        decreases positions.len() - j,
    {
        let value: u64 = positions[j].market_value;
        proof {
            lemma_sum_bounds(mv, j as int);
        }
        let share: u64 = if whole > 0 {
            let scaled: u128 = (value as u128) * (FRACTION_SCALE as u128);
            let quotient: u128 = scaled / (whole as u128);
            proof {
                assert(value * 1_000_000 / (whole as int) <= 1_000_000) by (nonlinear_arith)
                    requires
                        0 <= value <= whole,
                        whole > 0,
                ;
            }
            quotient as u64
        } else {
            0
        };
        reference_equities.push(Entry { symbol: positions[j].symbol.clone(), value });
        ideal_allocations.push(Entry { symbol: positions[j].symbol.clone(), value: share });
        j += 1;
    }
    Some(
        Checkpoint {
            last_funding_date: None,
            reference_equities,
            ideal_allocations,
            target_investment_equity_ratio: 1_000_000,
            finish_date,
        },
    )
}

impl Checkpoint {
    /// Records that the cycle of `now` has invested its funds. Nothing else
    /// changes.
    pub fn mark_funded(&mut self, now: Timestamp)
        ensures
            final(self).last_funding_date == Some(now),
            final(self).reference_equities == old(self).reference_equities,
            final(self).ideal_allocations == old(self).ideal_allocations,
            final(self).target_investment_equity_ratio == old(
                self,
            ).target_investment_equity_ratio,
            final(self).finish_date == old(self).finish_date,
    {
        self.last_funding_date = Some(now);
    }

    /// The share that the portfolio is meant to hold of `symbol`, in
    /// millionths: nothing for a symbol that the checkpoint does not know.
    pub fn ideal_share(&self, symbol: &String) -> (r: u64)
        ensures
            r == match value_of(table(self.ideal_allocations@), symbol@) {
                Some(share) => share,
                None => 0,
            },
    {
        match lookup(&self.ideal_allocations, symbol) {
            Some(share) => share,
            None => 0,
        }
    }
}

} // verus!
