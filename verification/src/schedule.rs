//! How much to invest today.

use vstd::prelude::*;
use crate::checkpoint::Checkpoint;
use crate::select::FRACTION_SCALE;
use crate::time::{whole_days, Timestamp};

verus! {

/// What the broker reports of the account, in cents.
#[derive(Clone, Copy, Debug, PartialEq, Eq, Structural)]
pub struct Account {
    pub equity: i64,
    pub cash: i64,
    pub buying_power: i64,
}

/// Why a cycle cannot be funded. Either is a fault of the configuration or
/// of the account, not something that the next cycle would mend.
#[derive(Clone, Copy, Debug, PartialEq, Eq, Structural)]
pub enum FundingError {
    /// Not one whole day is left until the finish date.
    FinishDateReached,
    /// The account's buying power does not cover one day's funding.
    InsufficientBuyingPower,
}

/// The funds of one cycle, in cents.
#[derive(Clone, Copy, Debug, PartialEq, Eq, Structural)]
pub struct Funding {
    /// What is to be invested per day.
    pub daily: i64,
    /// What is to be invested in this cycle: the daily amount for each day
    /// since funds were last invested.
    pub today: i128,
}

/// The whole days from `now` to the finish date.
pub open spec fn days_remaining(state: Checkpoint, now: Timestamp) -> int {
    whole_days(state.finish_date.instant() - now.instant())
}

/// The whole days since funds were last invested; one where they never
/// were.
pub open spec fn days_elapsed(state: Checkpoint, now: Timestamp) -> int {
    match state.last_funding_date {
        Some(last) => whole_days(now.instant() - last.instant()),
        None => 1,
    }
}

/// What is invested of the account: its equity less its cash.
pub open spec fn total_invested(account: Account) -> int {
    account.equity - account.cash
}

/// What is still to be invested to reach the target share of the
/// account's equity, in millionths of a cent.
pub open spec fn additional_needed(state: Checkpoint, account: Account) -> int {
    account.equity * state.target_investment_equity_ratio - total_invested(account)
        * FRACTION_SCALE
}

/// What is to be invested per day: what is still needed, spread evenly over
/// the days that remain and rounded down to a cent; nothing where nothing
/// is needed.
pub open spec fn daily_funding(state: Checkpoint, account: Account, now: Timestamp) -> int {
    if additional_needed(state, account) <= 0 {
        0
    } else {
        additional_needed(state, account) / (FRACTION_SCALE * days_remaining(state, now))
    }
}

/// What is to be invested in this cycle.
pub open spec fn funding_of_cycle(state: Checkpoint, account: Account, now: Timestamp) -> int {
    daily_funding(state, account, now) * days_elapsed(state, now)
}

/// Why the cycle of `now` cannot be funded, if it cannot.
pub open spec fn rejection(state: Checkpoint, account: Account, now: Timestamp) -> Option<
    FundingError,
> {
    if days_remaining(state, now) <= 0 {
        Some(FundingError::FinishDateReached)
    } else if account.buying_power < daily_funding(state, account, now) {
        Some(FundingError::InsufficientBuyingPower)
    } else {
        None
    }
}

/// The funds of the cycle of `now`: the daily amount, and that amount for
/// each whole day since funds were last invested (for one day where they
/// never were). The cycle is rejected where no whole day is left until the
/// finish date, and otherwise where the buying power is less than the
/// daily amount.
pub fn funding_today(state: &Checkpoint, account: &Account, now: &Timestamp) -> (r: Result<
    Funding,
    FundingError,
>)
    ensures
        match r {
            Ok(funding) => {
                &&& rejection(*state, *account, *now) is None
                &&& funding.daily == daily_funding(*state, *account, *now)
                &&& funding.today == funding_of_cycle(*state, *account, *now)
                &&& 0 <= funding.daily <= account.buying_power
            },
            Err(e) => rejection(*state, *account, *now) == Some(e),
        },
{
    let remaining: i64 = state.finish_date.whole_days_since(now);
    if remaining <= 0 {
        return Err(FundingError::FinishDateReached);
    }
    let ratio: i128 = state.target_investment_equity_ratio as i128;
    let invested: i128 = (account.equity as i128) - (account.cash as i128);
    proof {
        let e = account.equity as int;
        assert(-0x8000_0000_0000_0000 * 0x1_0000_0000 <= e * ratio <= 0x8000_0000_0000_0000
            * 0x1_0000_0000) by (nonlinear_arith)
            requires
                -0x8000_0000_0000_0000 <= e < 0x8000_0000_0000_0000,
                0 <= ratio < 0x1_0000_0000,
        ;
    }
    let needed: i128 = (account.equity as i128) * ratio - invested * 1_000_000;
    let daily: i128 = if needed <= 0 {
        0
    } else {
        let span: i128 = 1_000_000 * (remaining as i128);
        proof {
            assert(0 <= needed / span <= needed) by (nonlinear_arith)
                requires
                    needed > 0,
                    span >= 1,
            ;
        }
        needed / span
    };
    if (account.buying_power as i128) < daily {
        return Err(FundingError::InsufficientBuyingPower);
    }
    let elapsed: i64 = match state.last_funding_date {
        Some(last) => now.whole_days_since(&last),
        None => 1,
    };
    proof {
        assert(-0x8000_0000_0000_0000 * 0x8000_0000_0000_0000 <= daily * elapsed
            <= 0x8000_0000_0000_0000 * 0x8000_0000_0000_0000) by (nonlinear_arith)
            requires
                0 <= daily < 0x8000_0000_0000_0000,
                -0x8000_0000_0000_0000 <= elapsed < 0x8000_0000_0000_0000,
        ;
    }
    Ok(Funding { daily: daily as i64, today: daily * (elapsed as i128) })
}

impl Funding {
    /// Whether the cycle has anything to invest.
    pub fn is_due(&self) -> (r: bool)
        ensures
            r == (self.today > 0),
    {
        self.today > 0
    }

    /// The budget that planning gets: the funds of the cycle, where there
    /// are any and an amount can hold them.
    pub fn budget(&self) -> (r: Option<u64>)
        ensures
            r == if 0 < self.today <= u64::MAX {
                Some(self.today as u64)
            } else {
                None
            },
    {
        if self.today > 0 && self.today <= (u64::MAX as i128) {
            Some(self.today as u64)
        } else {
            None
        }
    }
}

/// A cycle on or after the finish date is rejected, whatever the account
/// holds: the days that remain are not rounded up to one.
pub proof fn lemma_rejected_from_finish_date(state: Checkpoint, account: Account, now: Timestamp)
    requires
        now.instant() >= state.finish_date.instant(),
    ensures
        days_remaining(state, now) <= 0,
        rejection(state, account, now) == Some(FundingError::FinishDateReached),
{
    let back = now.instant() - state.finish_date.instant();
    assert(back / 86_400_000_000_000 >= 0) by (nonlinear_arith)
        requires
            back >= 0,
    ;
}

/// The daily amount is never negative.
pub proof fn lemma_daily_funding_not_negative(state: Checkpoint, account: Account, now: Timestamp)
    requires
        days_remaining(state, now) > 0,
    ensures
        daily_funding(state, account, now) >= 0,
{
    let needed = additional_needed(state, account);
    let span = FRACTION_SCALE * days_remaining(state, now);
    if needed > 0 {
        assert(needed / span >= 0) by (nonlinear_arith)
            requires
                needed > 0,
                span > 0,
        ;
    }
}

} // verus!
