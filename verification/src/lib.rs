//! Portfolio rebalancing on exact decimal amounts.
//!
//! Holdings are valued against market prices, a strategy of target
//! fractions is turned into target amounts, and the difference between the
//! two is quantised into whole units to buy or sell.

pub mod amount;
pub mod asset;
pub mod asset_map;
pub mod decimal;
pub mod entries;
pub mod rebalance;
pub mod target;
pub mod valuation;
