//! Valuation: what the holdings of a portfolio are worth at market prices.

use crate::amount::{dec_value, pow10, Amount, Dec, MAX_SCALE};
use crate::asset::{Asset, AssetId, AssetView};
use crate::asset_map::{Capital, Market, Portfolio};
use crate::entries::{
    distinct, filter_map_values, holds, lemma_filter_map_values_lookup,
    lemma_filter_map_values_next, lookup,
};
use vstd::prelude::*;

verus! {

/// The value of `quantity` units of `asset` on `market`. A cash position is
/// worth its own amount, whatever the market and the quantity. An equity is
/// worth its price times the quantity; it has no value where the market has
/// no price for it or the product is out of range.
pub open spec fn holding_value(asset: AssetView, quantity: u64, market: Seq<(AssetView, Dec)>) -> Option<
    Dec,
> {
    match asset {
        AssetView::Cash(amount) => Some(amount),
        AssetView::Stock { .. } => match lookup(market, asset.id()) {
            Some(price) => price.product(Dec::integer(quantity as int)),
            None => None,
        },
    }
}

/// [`holding_value`] on a fixed market.
pub open spec fn priced_on(market: Seq<(AssetView, Dec)>) -> spec_fn(AssetView, u64) -> Option<Dec> {
    |asset: AssetView, quantity: u64| holding_value(asset, quantity, market)
}

/// The capital of a portfolio: its holdings in their order, each with its
/// value on `market`; a holding without a value is left out.
pub open spec fn valuation(portfolio: Seq<(AssetView, u64)>, market: Seq<(AssetView, Dec)>) -> Seq<
    (AssetView, Dec),
> {
    filter_map_values(portfolio, priced_on(market))
}

/// The value of `quantity` units of `asset` on `market`.
pub fn value_of(asset: &Asset, quantity: u64, market: &Market) -> (r: Option<Amount>)
    ensures
        dec_value(r) == holding_value(asset@, quantity, market@),
{
    match asset {
        Asset::Stock { .. } => match market.get(asset) {
            Some(price) => price.times(Amount::from_units(quantity)),
            None => None,
        },
        Asset::Cash(amount) => Some(*amount),
    }
}

/// Values the holdings of `portfolio` at the prices of `market`.
pub fn capitalize(portfolio: &Portfolio, market: &Market) -> (capital: Capital)
    ensures
        capital@ == valuation(portfolio@, market@),
        distinct(capital@),
{
    let mut capital = Capital::new();
    let n = portfolio.len();
    let mut i: usize = 0;
    assert(portfolio@.take(0) =~= Seq::empty());
    while i < n
        invariant
            i <= n,
            n == portfolio@.len(),
            distinct(portfolio@),
            capital@ == valuation(portfolio@.take(i as int), market@),
        decreases n - i,
    {
        let asset = portfolio.asset_at(i);
        let quantity = portfolio.value_at(i);
        proof {
            lemma_filter_map_values_next(portfolio@, priced_on(market@), i as int);
        }
        match value_of(asset, quantity, market) {
            Some(value) => {
                capital.append(asset.clone(), value);
            },
            None => {},
        }
        i += 1;
    }
    proof {
        assert(portfolio@.take(n as int) =~= portfolio@);
        lemma_valuation_lookup(portfolio@, market@);
    }
    capital
}

/// A portfolio without holdings has no capital, whatever the market.
pub proof fn lemma_valuation_of_nothing(market: Seq<(AssetView, Dec)>)
    ensures
        valuation(Seq::empty(), market) == Seq::<(AssetView, Dec)>::empty(),
{
}

/// The capital gives each asset of the portfolio the value of its holding,
/// and no other asset a value.
pub proof fn lemma_valuation_lookup(portfolio: Seq<(AssetView, u64)>, market: Seq<(AssetView, Dec)>)
    requires
        distinct(portfolio),
    ensures
        distinct(valuation(portfolio, market)),
        forall|i: int|
            0 <= i < portfolio.len() ==> lookup(
                valuation(portfolio, market),
                (#[trigger] portfolio[i]).0.id(),
            ) == holding_value(portfolio[i].0, portfolio[i].1, market),
        forall|id: AssetId|
            !holds(portfolio, id) ==> !(#[trigger] holds(valuation(portfolio, market), id)),
{
    lemma_filter_map_values_lookup(portfolio, priced_on(market));
}

/// An equity for which the market has no price is not part of the capital.
pub proof fn lemma_unpriced_equity_excluded(
    portfolio: Seq<(AssetView, u64)>,
    market: Seq<(AssetView, Dec)>,
    i: int,
)
    requires
        distinct(portfolio),
        0 <= i < portfolio.len(),
        portfolio[i].0 is Stock,
        !holds(market, portfolio[i].0.id()),
    ensures
        !holds(valuation(portfolio, market), portfolio[i].0.id()),
{
    lemma_valuation_lookup(portfolio, market);
}

/// An equity with a price is worth the product of price and quantity. Where
/// that product can be held without rounding, the capital has the equity at
/// exactly the price times the quantity.
pub proof fn lemma_priced_equity_value(
    portfolio: Seq<(AssetView, u64)>,
    market: Seq<(AssetView, Dec)>,
    i: int,
    price: Dec,
)
    requires
        distinct(portfolio),
        0 <= i < portfolio.len(),
        portfolio[i].0 is Stock,
        lookup(market, portfolio[i].0.id()) == Some(price),
    ensures
        lookup(valuation(portfolio, market), portfolio[i].0.id()) == price.product(
            Dec::integer(portfolio[i].1 as int),
        ),
        price.scale <= MAX_SCALE && price.product_is_exact(Dec::integer(portfolio[i].1 as int))
            ==> match lookup(valuation(portfolio, market), portfolio[i].0.id()) {
            Some(value) => value.units() == price.units() * portfolio[i].1,
            None => false,
        },
{
    lemma_valuation_lookup(portfolio, market);
    let quantity = portfolio[i].1 as int;
    let count = Dec::integer(quantity);
    if price.scale <= MAX_SCALE && price.product_is_exact(count) {
        let unit = pow10((MAX_SCALE - price.scale) as nat);
        let value = price.product(count)->Some_0;
        assert(lookup(valuation(portfolio, market), portfolio[i].0.id()) == Some(value));
        if price.mantissa == 0 || quantity == 0 {
            assert(value.units() == 0);
            assert(price.units() * quantity == 0) by (nonlinear_arith)
                requires
                    price.units() == 0 || quantity == 0,
            ;
        } else {
            assert(value == price.exact_product(count));
            assert(value.units() == (price.mantissa * quantity) * unit);
            assert((price.mantissa * quantity) * unit == (price.mantissa * unit) * quantity)
                by (nonlinear_arith);
        }
    }
}

/// A cash position is part of the capital at its own amount, whatever the
/// market holds and however many units of it are held.
pub proof fn lemma_cash_passes_through(
    portfolio: Seq<(AssetView, u64)>,
    market: Seq<(AssetView, Dec)>,
    i: int,
)
    requires
        distinct(portfolio),
        0 <= i < portfolio.len(),
        portfolio[i].0 is Cash,
    ensures
        lookup(valuation(portfolio, market), portfolio[i].0.id()) == Some(portfolio[i].0->Cash_0),
{
    lemma_valuation_lookup(portfolio, market);
}

} // verus!
