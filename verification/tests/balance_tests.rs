use balancer::amount::Amount;
use balancer::asset::Asset;
use balancer::asset_map::{Market, Portfolio, Strategy};
use balancer::rebalance::{balance, Transaction};
use rust_decimal::prelude::FromPrimitive;
use rust_decimal::Decimal;

fn stock(ticker: &str) -> Asset {
    Asset::Stock { ticker: ticker.to_string() }
}

fn cash(num: i64, scale: u32) -> Asset {
    Asset::Cash(Amount::new(num, scale))
}

fn fraction(f: f32) -> Amount {
    let d = Decimal::from_f32(f).unwrap();
    Amount::from_i128_with_scale(d.mantissa(), d.scale()).unwrap()
}

#[test]
fn empty_portfolio_empty_strategy_empty_transactions() {
    let portfolio = Portfolio::new();
    let mut market = Market::new();
    market.insert(stock("ticker2"), Amount::new(10, 0));
    let strategy = Strategy::new();

    let expected: Vec<Transaction> = Vec::new();

    let actual = balance(&portfolio, &market, &strategy);

    assert_eq!(actual, expected);
}

#[test]
fn empty_market_empty_transactions() {
    let mut portfolio = Portfolio::new();
    portfolio.insert(stock("ticker1"), 5);
    let market = Market::new();
    let mut strategy = Strategy::new();
    strategy.insert(stock("ticker1"), fraction(1.0));

    let expected: Vec<Transaction> = Vec::new();

    let actual = balance(&portfolio, &market, &strategy);

    assert_eq!(actual, expected);
}

#[test]
fn only_cash_in_portfolio_cash_and_stock_in_strategy() {
    let mut portfolio = Portfolio::new();
    portfolio.insert(cash(6000, 0), 1);
    let mut market = Market::new();
    market.insert(stock("ticker1"), Amount::new(7825, 2));
    let mut strategy = Strategy::new();
    strategy.insert(stock("ticker1"), fraction(0.98));
    strategy.insert(Asset::Cash(Amount::zero()), fraction(0.02));

    let expected: Vec<Transaction> = vec![(stock("ticker1"), 75)];

    let actual = balance(&portfolio, &market, &strategy);

    assert_eq!(actual, expected);
}

#[test]
fn portfolio_have_some_part_of_strategy() {
    let mut portfolio = Portfolio::new();
    portfolio.insert(stock("ticker1"), 15);
    portfolio.insert(cash(3000, 0), 1);
    let mut market = Market::new();
    market.insert(stock("ticker1"), Amount::new(7825, 2));
    let mut strategy = Strategy::new();
    strategy.insert(stock("ticker1"), fraction(1.0));

    let expected: Vec<Transaction> = vec![(stock("ticker1"), 38)];

    let actual = balance(&portfolio, &market, &strategy);

    assert_eq!(actual, expected);
}

#[test]
fn portfolio_has_not_enough_cash_for_buy_transaction() {
    let mut portfolio = Portfolio::new();
    portfolio.insert(stock("ticker1"), 15);
    portfolio.insert(cash(78, 0), 1);
    let mut market = Market::new();
    market.insert(stock("ticker1"), Amount::new(7825, 2));
    let mut strategy = Strategy::new();
    strategy.insert(stock("ticker1"), fraction(1.0));

    let expected: Vec<Transaction> = vec![];

    let actual = balance(&portfolio, &market, &strategy);

    assert_eq!(actual, expected);
}

#[test]
fn portfolio_has_stock_strategy_in_cash() {
    let mut portfolio = Portfolio::new();
    portfolio.insert(stock("ticker1"), 15);
    let mut market = Market::new();
    market.insert(stock("ticker1"), Amount::new(7825, 2));
    let mut strategy = Strategy::new();
    strategy.insert(Asset::Cash(Amount::zero()), fraction(1.0));

    let expected: Vec<Transaction> = vec![(stock("ticker1"), -15)];

    let actual = balance(&portfolio, &market, &strategy);

    assert_eq!(actual, expected);
}

#[test]
fn strategy_has_part_of_portfolio() {
    let mut portfolio = Portfolio::new();
    portfolio.insert(stock("ticker1"), 15);
    let mut market = Market::new();
    market.insert(stock("ticker1"), Amount::new(7825, 2));
    let mut strategy = Strategy::new();
    strategy.insert(stock("ticker1"), fraction(0.5));
    strategy.insert(Asset::Cash(Amount::zero()), fraction(0.5));

    let expected: Vec<Transaction> = vec![(stock("ticker1"), -7)];

    let actual = balance(&portfolio, &market, &strategy);

    assert_eq!(actual, expected);
}

#[test]
fn sold_asset_allow_to_buy_another() {
    let mut portfolio = Portfolio::new();
    portfolio.insert(stock("ticker1"), 15);
    let mut market = Market::new();
    market.insert(stock("ticker1"), Amount::new(7825, 2));
    market.insert(stock("ticker2"), Amount::new(24312, 3));
    let mut strategy = Strategy::new();
    strategy.insert(stock("ticker1"), fraction(0.86));
    strategy.insert(stock("ticker2"), fraction(0.14));

    let expected: Vec<Transaction> = vec![(stock("ticker1"), -2), (stock("ticker2"), 6)];

    let actual = balance(&portfolio, &market, &strategy);

    assert_eq!(actual, expected);
}

#[test]
fn full_sale_one_asset_for_buying_another() {
    let mut portfolio = Portfolio::new();
    portfolio.insert(stock("ticker1"), 15);
    let mut market = Market::new();
    market.insert(stock("ticker1"), Amount::new(7825, 2));
    market.insert(stock("ticker2"), Amount::new(24312, 3));
    let mut strategy = Strategy::new();
    strategy.insert(stock("ticker2"), fraction(1.0));

    let expected: Vec<Transaction> = vec![(stock("ticker1"), -15), (stock("ticker2"), 48)];

    let actual = balance(&portfolio, &market, &strategy);

    assert_eq!(actual, expected);
}
