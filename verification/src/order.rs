//! Sizing the buy order that carries out a purchase.

use vstd::prelude::*;

verus! {

/// The limit price is this many thousandths of the reference price.
pub const LIMIT_PER_MILLE: u64 = 999;

/// A buy order for the day: a limit price in cents and a whole number of
/// units.
#[derive(Clone, Copy, Debug, PartialEq, Eq, Structural)]
pub struct OrderSize {
    pub limit_price: u64,
    pub quantity: u64,
}

/// `n / d` rounded to the nearest integer, a tie to the even one.
pub open spec fn round_half_even(n: int, d: int) -> int {
    let q = n / d;
    let r = n % d;
    if 2 * r > d || (2 * r == d && q % 2 == 1) {
        q + 1
    } else {
        q
    }
}

/// The limit price for a reference price: a tenth of a percent below it,
/// rounded to the nearest cent.
pub open spec fn limit_price_of(price: int) -> int {
    round_half_even(price * LIMIT_PER_MILLE, 1000)
}

/// The units that `funds` buy at a tenth of a percent below `price`,
/// rounded down, and capped at what a quantity can hold.
pub open spec fn quantity_of(funds: int, price: int) -> int {
    let units = (funds * 1000) / (price * LIMIT_PER_MILLE);
    if units > u64::MAX {
        u64::MAX as int
    } else {
        units
    }
}

/// The order that spends `funds` on an asset whose reference price is
/// `price`.
pub fn size_order(price: u64, funds: u64) -> (r: OrderSize)
    requires
        price > 0,
    ensures
        r.limit_price == limit_price_of(price as int),
        r.quantity == quantity_of(funds as int, price as int),
{
    let discounted: u128 = (price as u128) * 999;
    let whole: u128 = discounted / 1000;
    let rest: u128 = discounted % 1000;
    let limit: u128 = if rest > 500 || (rest == 500 && whole % 2 == 1) {
        whole + 1
    } else {
        whole
    };
    let units: u128 = ((funds as u128) * 1000) / discounted;
    let quantity: u64 = if units > (u64::MAX as u128) {
        u64::MAX
    } else {
        units as u64
    };
    OrderSize { limit_price: limit as u64, quantity }
}

/// The limit price is below the reference price, or equal to it where a
/// tenth of a percent is less than half a cent; it is never more than a
/// cent below what the discount gives.
pub proof fn lemma_limit_price_bounds(price: int)
    requires
        price > 0,
    ensures
        limit_price_of(price) <= price,
        1000 * limit_price_of(price) - 500 <= price * LIMIT_PER_MILLE <= 1000 * limit_price_of(
            price,
        ) + 500,
{
}

} // verus!
