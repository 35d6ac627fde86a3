//! Rebalancing: the whole units to buy or sell so that a portfolio moves
//! toward a strategy.

use crate::amount::{dec_value, lemma_fraction_truncates, pow10, Amount, Dec};
use crate::asset::{Asset, AssetId, AssetView};
use crate::asset_map::{Capital, Market, Portfolio, Strategy};
use crate::entries::{
    and_then_values, distinct, except, filter_map_values, holds, lemma_filter_map_values_all,
    lemma_filter_map_values_lookup, lemma_filter_map_values_next, lemma_filter_map_values_none,
    lemma_filter_map_values_origin, lemma_filter_map_values_same, lemma_filter_map_values_twice,
    lemma_filter_map_values_without, lemma_take_distinct, lookup, position, without,
};
use crate::target::{get_target_capital, target_allocation};
use crate::valuation::{capitalize, valuation};
use vstd::prelude::*;

verus! {

/// An asset and the number of its units to buy, where positive, or to sell,
/// where negative.
pub type Transaction = (Asset, i64);

/// The mathematical content of a list of transactions.
pub open spec fn trades(list: Seq<Transaction>) -> Seq<(AssetView, i64)> {
    Seq::new(list.len(), |i: int| (list[i].0@, list[i].1))
}

/// The sum of the values of `capital`, added up from zero in their order;
/// `None` where a sum on the way is out of range.
pub open spec fn total(capital: Seq<(AssetView, Dec)>) -> Option<Dec>
    decreases capital.len(),
{
    if capital.len() == 0 {
        Some(Dec::zero())
    } else {
        match total(capital.drop_last()) {
            Some(sum) => sum.sum(capital.last().1),
            None => None,
        }
    }
}

/// The quotient of `target - current` by `price`, as the decimal arithmetic
/// gives it; `None` where the difference or the quotient is out of range or
/// the price is zero.
pub open spec fn units_apart(target: Dec, current: Dec, price: Dec) -> Option<Dec> {
    match target.difference(current) {
        Some(difference) => difference.quotient(price),
        None => None,
    }
}

/// The order that a quotient of units asks for: its whole units, fractional
/// digits cut off, where they fit in 64 bits and are not zero.
pub open spec fn order_for(units: Dec) -> Option<i64> {
    match units.whole_units() {
        Some(count) => if count != 0 {
            Some(count)
        } else {
            None
        },
        None => None,
    }
}

/// The whole units to trade to get from `current` to `target` at `price`,
/// where there are any: never zero.
pub open spec fn order(target: Dec, current: Dec, price: Dec) -> Option<i64> {
    match units_apart(target, current, price) {
        Some(units) => order_for(units),
        None => None,
    }
}

/// The order for an asset that is held: from its current value to its
/// target, or to zero where it has none. No order without a price.
pub open spec fn adjusting(market: Seq<(AssetView, Dec)>, target: Seq<(AssetView, Dec)>) -> spec_fn(
    AssetView,
    Dec,
) -> Option<i64> {
    |asset: AssetView, current: Dec|
        match lookup(market, asset.id()) {
            Some(price) => order(
                match lookup(target, asset.id()) {
                    Some(goal) => goal,
                    None => Dec::zero(),
                },
                current,
                price,
            ),
            None => None,
        }
}

/// The order for an asset with a target that has no value yet: from zero
/// to its target. No order without a price.
pub open spec fn opening(market: Seq<(AssetView, Dec)>) -> spec_fn(AssetView, Dec) -> Option<i64> {
    |asset: AssetView, goal: Dec|
        match lookup(market, asset.id()) {
            Some(price) => order(goal, Dec::zero(), price),
            None => None,
        }
}

/// The order for an asset with a target: none where `capital` has a value
/// for it, else as [`opening`] says.
pub open spec fn entering(market: Seq<(AssetView, Dec)>, capital: Seq<(AssetView, Dec)>) -> spec_fn(
    AssetView,
    Dec,
) -> Option<i64> {
    |asset: AssetView, goal: Dec|
        if holds(capital, asset.id()) {
            None
        } else {
            opening(market)(asset, goal)
        }
}

/// The transactions that move `capital` toward `target` at the prices of
/// `market`: first an order for each asset of `capital`, in its order, then
/// one for each asset of `target` that `capital` has not, in the order of
/// `target`.
pub open spec fn reconcile(
    capital: Seq<(AssetView, Dec)>,
    target: Seq<(AssetView, Dec)>,
    market: Seq<(AssetView, Dec)>,
) -> Seq<(AssetView, i64)> {
    filter_map_values(capital, adjusting(market, target)) + filter_map_values(
        target,
        entering(market, capital),
    )
}

/// The transactions that move `portfolio` toward `strategy` at the prices
/// of `market`. The portfolio is valued, the total of its capital is shared
/// out as the strategy says, and capital and target are reconciled. Where
/// the total is out of range there are no transactions.
pub open spec fn rebalance(
    portfolio: Seq<(AssetView, u64)>,
    market: Seq<(AssetView, Dec)>,
    strategy: Seq<(AssetView, Dec)>,
) -> Seq<(AssetView, i64)> {
    let capital = valuation(portfolio, market);
    match total(capital) {
        Some(sum) => reconcile(capital, target_allocation(strategy, sum), market),
        None => Seq::empty(),
    }
}

/// The sum of the values of `capital`, `None` where it is out of range.
pub fn total_of(capital: &Capital) -> (r: Option<Amount>)
    ensures
        dec_value(r) == total(capital@),
{
    let mut sum = Amount::zero();
    let n = capital.len();
    let mut i: usize = 0;
    assert(capital@.take(0) =~= Seq::empty());
    while i < n
        invariant
            i <= n,
            n == capital@.len(),
            total(capital@.take(i as int)) == Some(sum@),
        decreases n - i,
    {
        proof {
            assert(capital@.take(i + 1).drop_last() =~= capital@.take(i as int));
        }
        match sum.plus(capital.value_at(i)) {
            Some(next) => {
                sum = next;
            },
            None => {
                proof {
                    lemma_total_stays_out_of_range(capital@, i + 1);
                }
                return None;
            },
        }
        i += 1;
    }
    assert(capital@.take(n as int) =~= capital@);
    Some(sum)
}

/// Once a sum on the way is out of range, the total is.
pub proof fn lemma_total_stays_out_of_range(capital: Seq<(AssetView, Dec)>, upto: int)
    requires
        0 <= upto <= capital.len(),
        total(capital.take(upto)).is_none(),
    ensures
        total(capital).is_none(),
    decreases capital.len() - upto,
{
    if upto < capital.len() {
        assert(capital.take(upto + 1).drop_last() =~= capital.take(upto));
        lemma_total_stays_out_of_range(capital, upto + 1);
    } else {
        assert(capital.take(upto) =~= capital);
    }
}

/// The units between `current` and `target` at `price`: the quotient of
/// their difference by the price.
pub fn units_between(target: Amount, current: Amount, price: Amount) -> (r: Option<Amount>)
    ensures
        dec_value(r) == units_apart(target@, current@, price@),
{
    match target.minus(current) {
        Some(difference) => difference.divided_by(price),
        None => None,
    }
}

/// The whole units that a quotient of units asks to trade. There are none
/// where the quotient lies strictly between minus one and one, nor where
/// its whole units do not fit in 64 bits.
pub fn order_of(units: Amount) -> (r: Option<i64>)
    ensures
        r == order_for(units@),
        units@.magnitude() < pow10(units@.scale) ==> r.is_none(),
        r matches Some(count) ==> count != 0 && count == units@.whole(),
{
    proof {
        lemma_fraction_truncates(units@);
    }
    match units.to_whole_units() {
        Some(count) => if count != 0 {
            Some(count)
        } else {
            None
        },
        None => None,
    }
}

/// Keeps the target of an asset unless `capital` has a value and `market`
/// a price for it.
pub open spec fn unconsumed(capital: Seq<(AssetView, Dec)>, market: Seq<(AssetView, Dec)>) -> spec_fn(
    AssetView,
    Dec,
) -> Option<Dec> {
    |asset: AssetView, goal: Dec|
        if holds(capital, asset.id()) && holds(market, asset.id()) {
            None
        } else {
            Some(goal)
        }
}

/// The targets that are still open once the assets of `capital` that have
/// a price have been dealt with.
pub open spec fn open_targets(
    target: Seq<(AssetView, Dec)>,
    capital: Seq<(AssetView, Dec)>,
    market: Seq<(AssetView, Dec)>,
) -> Seq<(AssetView, Dec)> {
    filter_map_values(target, unconsumed(capital, market))
}

/// Dealing with one more asset of `capital`: its target is still as
/// `target` has it, and is closed if the asset has a price.
pub proof fn lemma_consume(
    target: Seq<(AssetView, Dec)>,
    capital: Seq<(AssetView, Dec)>,
    market: Seq<(AssetView, Dec)>,
    i: int,
)
    requires
        distinct(target),
        distinct(capital),
        0 <= i < capital.len(),
    ensures
        lookup(open_targets(target, capital.take(i), market), capital[i].0.id()) == lookup(
            target,
            capital[i].0.id(),
        ),
        open_targets(target, capital.take(i + 1), market) == if holds(market, capital[i].0.id()) {
            without(open_targets(target, capital.take(i), market), capital[i].0.id())
        } else {
            open_targets(target, capital.take(i), market)
        },
{
    let id = capital[i].0.id();
    let seen = capital.take(i);
    let next = capital.take(i + 1);
    let keep = unconsumed(seen, market);
    lemma_take_distinct(capital, i);
    assert(next[i] == capital[i]);
    assert forall|other: AssetId| other != id implies holds(next, other) == holds(seen, other) by {
        if holds(seen, other) {
            let p = position(seen, other);
            assert(next[p] == seen[p]);
        }
        if holds(next, other) {
            let p = position(next, other);
            assert(seen[p] == next[p]);
        }
    }
    lemma_filter_map_values_lookup(target, keep);
    if holds(target, id) {
        let p = position(target, id);
        assert(target[p].0.id() == id);
    }
    if holds(market, id) {
        lemma_filter_map_values_without(target, keep, id);
        lemma_filter_map_values_same(target, except(keep, id), unconsumed(next, market));
    } else {
        lemma_filter_map_values_same(target, keep, unconsumed(next, market));
    }
}

/// An open target with a price is for an asset that `capital` has not.
pub proof fn lemma_open_target_is_new(
    target: Seq<(AssetView, Dec)>,
    capital: Seq<(AssetView, Dec)>,
    market: Seq<(AssetView, Dec)>,
    at: int,
)
    requires
        0 <= at < open_targets(target, capital, market).len(),
        holds(market, open_targets(target, capital, market)[at].0.id()),
    ensures
        !holds(capital, open_targets(target, capital, market)[at].0.id()),
{
    let from = lemma_filter_map_values_origin(target, unconsumed(capital, market), at);
}

/// Opening the open targets is entering the targets that `capital` has not.
pub proof fn lemma_open_targets_enter(
    target: Seq<(AssetView, Dec)>,
    capital: Seq<(AssetView, Dec)>,
    market: Seq<(AssetView, Dec)>,
)
    ensures
        filter_map_values(open_targets(target, capital, market), opening(market))
            == filter_map_values(target, entering(market, capital)),
{
    lemma_filter_map_values_twice(target, unconsumed(capital, market), opening(market));
    lemma_filter_map_values_same(
        target,
        and_then_values(unconsumed(capital, market), opening(market)),
        entering(market, capital),
    );
}

/// The transactions that move `capital` toward the targets of
/// `target_capital` at the prices of `market`: first those for the assets of
/// `capital`, then those for the assets that only have a target. Both
/// mappings are working copies: a target is taken out once its asset has
/// been dealt with, and what is left is dealt with in the second pass.
pub fn reconcile_capital(
    capital: Capital,
    target_capital: Capital,
    market: &Market,
) -> (transactions: Vec<Transaction>)
    ensures
        trades(transactions@) == reconcile(capital@, target_capital@, market@),
        forall|k: int| 0 <= k < transactions@.len() ==> (#[trigger] transactions@[k]).1 != 0,
{
    let mut transactions: Vec<Transaction> = Vec::new();
    let mut capital = capital;
    let mut target_capital = target_capital;
    let ghost held = capital@;
    let ghost target = target_capital@;
    // `len` recalls that the targets are distinct.
    let _ = target_capital.len();
    let n = capital.len();
    let mut i: usize = 0;
    proof {
        assert(held.take(0) =~= Seq::empty());
        assert(trades(transactions@) =~= Seq::empty());
        lemma_filter_map_values_all(target, unconsumed(held.take(0), market@));
    }
    while i < n
        invariant
            i <= n,
            n == held.len(),
            capital@ == held,
            distinct(held),
            distinct(target),
            target_capital@ == open_targets(target, held.take(i as int), market@),
            trades(transactions@) == filter_map_values(
                held.take(i as int),
                adjusting(market@, target),
            ),
        decreases n - i,
    {
        let asset = capital.asset_at(i);
        let current = capital.value_at(i);
        proof {
            lemma_filter_map_values_next(held, adjusting(market@, target), i as int);
            lemma_consume(target, held, market@, i as int);
        }
        match market.get(asset) {
            Some(price) => {
                let goal = match target_capital.remove(asset) {
                    Some(goal) => goal,
                    None => Amount::zero(),
                };
                match units_between(goal, current, price) {
                    Some(units) => match order_of(units) {
                        Some(count) => {
                            let ghost before = trades(transactions@);
                            transactions.push((asset.clone(), count));
                            assert(trades(transactions@) =~= before.push((asset@, count)));
                        },
                        None => {},
                    },
                    None => {},
                }
            },
            None => {},
        }
        i += 1;
    }
    assert(held.take(n as int) =~= held);

    let ghost first = trades(transactions@);
    let ghost open = target_capital@;
    let m = target_capital.len();
    let mut j: usize = 0;
    assert(open.take(0) =~= Seq::empty());
    assert(first + Seq::<(AssetView, i64)>::empty() =~= first);
    while j < m
        invariant
            j <= m,
            m == open.len(),
            capital@ == held,
            target_capital@ == open,
            distinct(open),
            open == open_targets(target, held, market@),
            trades(transactions@) == first + filter_map_values(
                open.take(j as int),
                opening(market@),
            ),
        decreases m - j,
    {
        let asset = target_capital.asset_at(j);
        let goal = target_capital.value_at(j);
        proof {
            lemma_filter_map_values_next(open, opening(market@), j as int);
        }
        match market.get(asset) {
            Some(price) => {
                proof {
                    lemma_open_target_is_new(target, held, market@, j as int);
                }
                let current = match capital.remove(asset) {
                    Some(current) => current,
                    None => Amount::zero(),
                };
                match units_between(goal, current, price) {
                    Some(units) => match order_of(units) {
                        Some(count) => {
                            let ghost before = trades(transactions@);
                            let ghost opened = filter_map_values(
                                open.take(j as int),
                                opening(market@),
                            );
                            transactions.push((asset.clone(), count));
                            assert(trades(transactions@) =~= before.push((asset@, count)));
                            assert((first + opened).push((asset@, count)) =~= first + opened.push(
                                (asset@, count),
                            ));
                        },
                        None => {},
                    },
                    None => {},
                }
            },
            None => {},
        }
        j += 1;
    }
    proof {
        assert(open.take(m as int) =~= open);
        lemma_open_targets_enter(target, held, market@);
        lemma_transactions_sound(held, target, market@);
        assert forall|k: int| 0 <= k < transactions@.len() implies (#[trigger] transactions@[k]).1
            != 0 by {
            assert(trades(transactions@)[k].1 == transactions@[k].1);
            assert(reconcile(held, target, market@)[k].1 != 0);
        }
    }
    transactions
}

/// The transactions that move `portfolio` toward `strategy` at the prices
/// of `market`: the portfolio is valued, the total of its capital is shared
/// out as the strategy says, and capital and targets are reconciled.
pub fn balance(portfolio: &Portfolio, market: &Market, strategy: &Strategy) -> (transactions: Vec<
    Transaction,
>)
    ensures
        trades(transactions@) == rebalance(portfolio@, market@, strategy@),
        forall|k: int| 0 <= k < transactions@.len() ==> (#[trigger] transactions@[k]).1 != 0,
{
    let capital = capitalize(portfolio, market);
    match total_of(&capital) {
        Some(sum) => {
            let target_capital = get_target_capital(strategy, sum);
            reconcile_capital(capital, target_capital, market)
        },
        None => {
            let transactions: Vec<Transaction> = Vec::new();
            assert(trades(transactions@) =~= Seq::empty());
            transactions
        },
    }
}

/// `current` and `target` are less than one unit apart at `price`: their
/// quotient lies strictly between minus one and one.
pub open spec fn less_than_a_unit_apart(target: Dec, current: Dec, price: Dec) -> bool {
    match units_apart(target, current, price) {
        Some(units) => units.magnitude() < pow10(units.scale),
        None => false,
    }
}

/// Less than one unit apart, there is nothing to trade.
pub proof fn lemma_fraction_of_a_unit_no_order(target: Dec, current: Dec, price: Dec)
    requires
        less_than_a_unit_apart(target, current, price),
    ensures
        order(target, current, price).is_none(),
{
    lemma_fraction_truncates(units_apart(target, current, price)->Some_0);
}

/// Where every asset with a price is less than one unit from its target,
/// no transactions are emitted: neither for an asset of `capital`, whose
/// target is zero where `target` has none, nor for an asset that only
/// `target` has, whose current value is zero.
pub proof fn lemma_settled_no_transactions(
    capital: Seq<(AssetView, Dec)>,
    target: Seq<(AssetView, Dec)>,
    market: Seq<(AssetView, Dec)>,
)
    requires
        forall|i: int|
            0 <= i < capital.len() ==> match lookup(market, (#[trigger] capital[i]).0.id()) {
                Some(price) => less_than_a_unit_apart(
                    match lookup(target, capital[i].0.id()) {
                        Some(goal) => goal,
                        None => Dec::zero(),
                    },
                    capital[i].1,
                    price,
                ),
                None => true,
            },
        forall|j: int|
            0 <= j < target.len() && !holds(capital, (#[trigger] target[j]).0.id()) ==> match lookup(
                market,
                target[j].0.id(),
            ) {
                Some(price) => less_than_a_unit_apart(target[j].1, Dec::zero(), price),
                None => true,
            },
    ensures
        reconcile(capital, target, market) == Seq::<(AssetView, i64)>::empty(),
{
    assert forall|i: int| 0 <= i < capital.len() implies adjusting(market, target)(
        (#[trigger] capital[i]).0,
        capital[i].1,
    ).is_none() by {
        match lookup(market, capital[i].0.id()) {
            Some(price) => {
                lemma_fraction_of_a_unit_no_order(
                    match lookup(target, capital[i].0.id()) {
                        Some(goal) => goal,
                        None => Dec::zero(),
                    },
                    capital[i].1,
                    price,
                );
            },
            None => {},
        }
    }
    assert forall|j: int| 0 <= j < target.len() implies entering(market, capital)(
        (#[trigger] target[j]).0,
        target[j].1,
    ).is_none() by {
        if !holds(capital, target[j].0.id()) {
            match lookup(market, target[j].0.id()) {
                Some(price) => {
                    lemma_fraction_of_a_unit_no_order(target[j].1, Dec::zero(), price);
                },
                None => {},
            }
        }
    }
    lemma_filter_map_values_none(capital, adjusting(market, target));
    lemma_filter_map_values_none(target, entering(market, capital));
    assert(reconcile(capital, target, market) =~= Seq::<(AssetView, i64)>::empty());
}

/// A portfolio whose every priced asset is less than one unit from its
/// target is left as it is.
pub proof fn lemma_rebalance_settled(
    portfolio: Seq<(AssetView, u64)>,
    market: Seq<(AssetView, Dec)>,
    strategy: Seq<(AssetView, Dec)>,
)
    requires
        total(valuation(portfolio, market)).is_some(),
        ({
            let capital = valuation(portfolio, market);
            let target = target_allocation(strategy, total(capital)->Some_0);
            &&& forall|i: int|
                0 <= i < capital.len() ==> match lookup(market, (#[trigger] capital[i]).0.id()) {
                    Some(price) => less_than_a_unit_apart(
                        match lookup(target, capital[i].0.id()) {
                            Some(goal) => goal,
                            None => Dec::zero(),
                        },
                        capital[i].1,
                        price,
                    ),
                    None => true,
                }
            &&& forall|j: int|
                0 <= j < target.len() && !holds(capital, (#[trigger] target[j]).0.id())
                    ==> match lookup(market, target[j].0.id()) {
                    Some(price) => less_than_a_unit_apart(target[j].1, Dec::zero(), price),
                    None => true,
                }
        }),
    ensures
        rebalance(portfolio, market, strategy) == Seq::<(AssetView, i64)>::empty(),
{
    let capital = valuation(portfolio, market);
    let target = target_allocation(strategy, total(capital)->Some_0);
    lemma_settled_no_transactions(capital, target, market);
}

/// Every transaction is for an asset with a price, counts at least one
/// unit, and is the only one for its asset; an asset that is neither valued
/// nor given a target has none.
pub proof fn lemma_transactions_sound(
    capital: Seq<(AssetView, Dec)>,
    target: Seq<(AssetView, Dec)>,
    market: Seq<(AssetView, Dec)>,
)
    requires
        distinct(capital),
        distinct(target),
    ensures
        distinct(reconcile(capital, target, market)),
        forall|k: int|
            0 <= k < reconcile(capital, target, market).len() ==> {
                let entry = #[trigger] reconcile(capital, target, market)[k];
                &&& entry.1 != 0
                &&& holds(market, entry.0.id())
                &&& holds(capital, entry.0.id()) || holds(target, entry.0.id())
            },
{
    let first = filter_map_values(capital, adjusting(market, target));
    let second = filter_map_values(target, entering(market, capital));
    let all = reconcile(capital, target, market);
    lemma_filter_map_values_lookup(capital, adjusting(market, target));
    lemma_filter_map_values_lookup(target, entering(market, capital));
    assert forall|k: int| 0 <= k < all.len() implies {
        let entry = #[trigger] all[k];
        &&& entry.1 != 0
        &&& holds(market, entry.0.id())
        &&& if k < first.len() {
            holds(capital, entry.0.id())
        } else {
            holds(target, entry.0.id()) && !holds(capital, entry.0.id())
        }
    } by {
        if k < first.len() {
            let from = lemma_filter_map_values_origin(capital, adjusting(market, target), k);
            assert(all[k] == first[k]);
        } else {
            let from = lemma_filter_map_values_origin(
                target,
                entering(market, capital),
                k - first.len(),
            );
            assert(all[k] == second[k - first.len()]);
        }
    }
    assert forall|i: int, j: int| 0 <= i < j < all.len() implies (#[trigger] all[i]).0.id() != (
    #[trigger] all[j]).0.id() by {
        if j < first.len() {
            assert(all[i] == first[i] && all[j] == first[j]);
        } else if i >= first.len() {
            assert(all[i] == second[i - first.len()] && all[j] == second[j - first.len()]);
        }
    }
}

} // verus!
