//! Assets: an equity named by its ticker, or a cash position.

use crate::amount::{Amount, Dec};
use vstd::prelude::*;
use vstd::std_specs::cmp::PartialEqSpecImpl;

verus! {

/// Something a portfolio can hold.
#[derive(Debug)]
pub enum Asset {
    /// An equity, identified by its ticker symbol.
    Stock { ticker: String },
    /// A cash position of the given amount.
    Cash(Amount),
}

/// The identity of an asset: the ticker of an equity, the value of a cash
/// position. Two assets are the same asset exactly when their identities are
/// equal.
pub enum AssetId {
    Stock(Seq<char>),
    Cash(int),
}

/// The mathematical content of an [`Asset`].
pub enum AssetView {
    Stock { ticker: Seq<char> },
    Cash(Dec),
}

impl AssetView {
    /// The identity of this asset.
    pub open spec fn id(self) -> AssetId {
        match self {
            AssetView::Stock { ticker } => AssetId::Stock(ticker),
            AssetView::Cash(amount) => AssetId::Cash(amount.units()),
        }
    }
}

impl View for Asset {
    type V = AssetView;

    open spec fn view(&self) -> AssetView {
        match self {
            Asset::Stock { ticker } => AssetView::Stock { ticker: ticker@ },
            Asset::Cash(amount) => AssetView::Cash(amount@),
        }
    }
}

impl Asset {
    /// An equity with the given ticker.
    pub fn stock(ticker: &str) -> (r: Asset)
        ensures
            r@ == (AssetView::Stock { ticker: ticker@ }),
    {
        Asset::Stock { ticker: ticker.to_owned() }
    }

    /// A cash position of the given amount.
    pub fn cash(amount: Amount) -> (r: Asset)
        ensures
            r == Asset::Cash(amount),
    {
        Asset::Cash(amount)
    }
}

impl Clone for Asset {
    fn clone(&self) -> (r: Asset)
        ensures
            r == *self,
    {
        match self {
            Asset::Stock { ticker } => Asset::Stock { ticker: ticker.clone() },
            Asset::Cash(amount) => Asset::Cash(*amount),
        }
    }
}

impl PartialEq for Asset {
    fn eq(&self, other: &Asset) -> (r: bool) {
        match self {
            Asset::Stock { ticker } => match other {
                Asset::Stock { ticker: other_ticker } => *ticker == *other_ticker,
                Asset::Cash(_) => false,
            },
            Asset::Cash(amount) => match other {
                Asset::Stock { .. } => false,
                Asset::Cash(other_amount) => amount.same_value(*other_amount),
            },
        }
    }
}

impl PartialEqSpecImpl for Asset {
    open spec fn obeys_eq_spec() -> bool {
        true
    }

    open spec fn eq_spec(&self, other: &Asset) -> bool {
        self@.id() == other@.id()
    }
}

impl Eq for Asset {}

} // verus!
