use balancer::amount::Amount;
use balancer::asset::Asset;
use balancer::asset_map::{Capital, Market, Portfolio};
use balancer::valuation::capitalize;

fn stock(ticker: &str) -> Asset {
    Asset::Stock { ticker: ticker.to_string() }
}

#[test]
fn empty_portfolio_empty_market_empty_capital() {
    let portfolio = Portfolio::new();
    let market = Market::new();
    let expected = Capital::new();

    let actual = capitalize(&portfolio, &market);
    assert_eq!(actual, expected);
}

#[test]
fn market_does_not_have_portfolio_assets_empty_capital() {
    let mut portfolio = Portfolio::new();
    portfolio.insert(stock("ticker1"), 5);
    let mut market = Market::new();
    market.insert(stock("ticker2"), Amount::new(10, 0));
    let expected = Capital::new();
    let actual = capitalize(&portfolio, &market);
    assert_eq!(actual, expected);
}

#[test]
fn capitalize_assets_in_portfolio_by_market() {
    let mut portfolio = Portfolio::new();
    portfolio.insert(stock("ticker1"), 5);
    portfolio.insert(stock("ticker2"), 7);
    portfolio.insert(stock("ticker3"), 1);
    let mut market = Market::new();
    market.insert(stock("ticker1"), Amount::new(3725, 2));
    market.insert(stock("ticker2"), Amount::new(100324, 2));
    market.insert(stock("ticker3"), Amount::new(5070, 2));

    let mut expected = Capital::new();
    expected.insert(stock("ticker1"), Amount::new(3725 * 5, 2));
    expected.insert(stock("ticker2"), Amount::new(100324 * 7, 2));
    expected.insert(stock("ticker3"), Amount::new(5070, 2));

    let actual = capitalize(&portfolio, &market);
    assert_eq!(actual, expected);
}

#[test]
fn portfolio_has_cash() {
    let mut portfolio = Portfolio::new();
    portfolio.insert(stock("ticker1"), 5);
    portfolio.insert(Asset::Cash(Amount::new(65000, 2)), 1);
    let mut market = Market::new();
    market.insert(stock("ticker1"), Amount::new(3725, 2));

    let mut expected = Capital::new();
    expected.insert(stock("ticker1"), Amount::new(3725 * 5, 2));
    expected.insert(Asset::Cash(Amount::new(65000, 2)), Amount::new(65000, 2));

    let actual = capitalize(&portfolio, &market);
    assert_eq!(actual, expected);
}
