use balancer::amount::Amount;
use balancer::asset::Asset;
use balancer::asset_map::{Capital, Strategy};
use balancer::target::get_target_capital;
use rust_decimal::prelude::FromPrimitive;
use rust_decimal::Decimal;

fn stock(ticker: &str) -> Asset {
    Asset::Stock { ticker: ticker.to_string() }
}

fn fraction(f: f32) -> Amount {
    let d = Decimal::from_f32(f).unwrap();
    Amount::from_i128_with_scale(d.mantissa(), d.scale()).unwrap()
}

#[test]
fn empty_strategy_empty_portfolio() {
    let strategy = Strategy::new();
    let total = Amount::new(65000, 2);

    let expected = Capital::new();

    let actual = get_target_capital(&strategy, total);

    assert_eq!(actual, expected);
}

#[test]
fn strategy_has_one_stock() {
    let mut strategy = Strategy::new();
    strategy.insert(stock("ticker1"), fraction(1.0));
    let total = Amount::new(65000, 2);

    let mut expected = Capital::new();
    expected.insert(stock("ticker1"), Amount::new(65000, 2));

    let actual = get_target_capital(&strategy, total);

    assert_eq!(actual, expected);
}

#[test]
fn strategy_has_two_stock_with_different_parts() {
    let mut strategy = Strategy::new();
    strategy.insert(stock("ticker1"), fraction(0.62));
    strategy.insert(stock("ticker2"), fraction(0.38));
    let total = Amount::new(783412, 2);

    let mut expected = Capital::new();
    expected.insert(stock("ticker1"), Amount::new(48571544, 4));
    expected.insert(stock("ticker2"), Amount::new(29769656, 4));

    let actual = get_target_capital(&strategy, total);

    assert_eq!(actual, expected);
}

#[test]
fn strategy_has_cash() {
    let mut strategy = Strategy::new();
    strategy.insert(stock("ticker1"), fraction(0.62));
    strategy.insert(stock("ticker2"), fraction(0.37));
    strategy.insert(Asset::Cash(Amount::zero()), fraction(0.01));
    let total = Amount::new(783412, 2);

    let mut expected = Capital::new();
    expected.insert(stock("ticker1"), Amount::new(48571544, 4));
    expected.insert(stock("ticker2"), Amount::new(28986244, 4));
    expected.insert(Asset::Cash(Amount::zero()), Amount::new(783412, 4));

    let actual = get_target_capital(&strategy, total);

    assert_eq!(actual, expected);
}
