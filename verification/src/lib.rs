//! Planning for a funds-limited portfolio rebalancer.
//!
//! Given the share that each asset of a portfolio is meant to have, the
//! funds that a day brings and the value and price of each holding, the
//! library decides what to buy so that the portfolio moves toward those
//! shares: [`schedule`] says how much to invest today, [`select`] picks the
//! asset that the next increment goes to, [`plan`] spends a pool of funds
//! increment by increment, [`order`] sizes the orders, and [`cycle`] puts
//! these together for the positions that the broker reports.
//!
//! Money is counted in whole cents and shares in millionths, so every
//! quantity is an integer. The divergence of a portfolio from its ideal is a
//! [`ratio::Ratio`], compared exactly.

pub mod calendar;
pub mod checkpoint;
pub mod cycle;
pub mod metric;
pub mod order;
pub mod plan;
pub mod ratio;
pub mod schedule;
pub mod select;
pub mod sums;
pub mod time;
