//! Target allocation: the share of a total that a strategy gives each asset.

use crate::amount::{lemma_product_value, pow10, Amount, Dec, MAX_SCALE};
use crate::asset::{AssetId, AssetView};
use crate::asset_map::{Capital, Strategy};
use crate::entries::{
    distinct, filter_map_values, holds, lemma_filter_map_values_every,
    lemma_filter_map_values_lookup, lemma_filter_map_values_next, lookup,
};
use vstd::prelude::*;

verus! {

/// The share of `total` that goes to an asset with the given fraction.
pub open spec fn share_of(total: Dec) -> spec_fn(AssetView, Dec) -> Option<Dec> {
    |asset: AssetView, fraction: Dec| total.product(fraction)
}

/// The target capital of a strategy: its assets in their order, each with
/// `total` times its fraction; an asset whose product is out of range is
/// left out.
pub open spec fn target_allocation(strategy: Seq<(AssetView, Dec)>, total: Dec) -> Seq<
    (AssetView, Dec),
> {
    filter_map_values(strategy, share_of(total))
}

/// The amount of `total` that each asset of `strategy` is to hold.
pub fn get_target_capital(strategy: &Strategy, total: Amount) -> (target: Capital)
    ensures
        target@ == target_allocation(strategy@, total@),
        distinct(target@),
{
    let mut target = Capital::new();
    let n = strategy.len();
    let mut i: usize = 0;
    assert(strategy@.take(0) =~= Seq::empty());
    while i < n
        invariant
            i <= n,
            n == strategy@.len(),
            distinct(strategy@),
            target@ == target_allocation(strategy@.take(i as int), total@),
        decreases n - i,
    {
        let asset = strategy.asset_at(i);
        let fraction = strategy.value_at(i);
        proof {
            lemma_filter_map_values_next(strategy@, share_of(total@), i as int);
        }
        match total.times(fraction) {
            Some(share) => {
                target.append(asset.clone(), share);
            },
            None => {},
        }
        i += 1;
    }
    proof {
        assert(strategy@.take(n as int) =~= strategy@);
        lemma_target_lookup(strategy@, total@);
    }
    target
}

/// The target gives each asset of the strategy the product of the total and
/// its fraction, and no other asset a value.
pub proof fn lemma_target_lookup(strategy: Seq<(AssetView, Dec)>, total: Dec)
    requires
        distinct(strategy),
    ensures
        distinct(target_allocation(strategy, total)),
        forall|i: int|
            0 <= i < strategy.len() ==> lookup(
                target_allocation(strategy, total),
                (#[trigger] strategy[i]).0.id(),
            ) == total.product(strategy[i].1),
        forall|id: AssetId|
            !holds(strategy, id) ==> !(#[trigger] holds(target_allocation(strategy, total), id)),
{
    lemma_filter_map_values_lookup(strategy, share_of(total));
}

/// Where the product of the total and the fraction of an asset can be held
/// without rounding, the target of that asset is exactly the total times
/// the fraction.
pub proof fn lemma_target_share_exact(strategy: Seq<(AssetView, Dec)>, total: Dec, i: int)
    requires
        distinct(strategy),
        0 <= i < strategy.len(),
        total.product_is_exact(strategy[i].1),
    ensures
        match lookup(target_allocation(strategy, total), strategy[i].0.id()) {
            Some(share) => share.units() * pow10(MAX_SCALE as nat) == total.units()
                * strategy[i].1.units(),
            None => false,
        },
{
    lemma_target_lookup(strategy, total);
    lemma_product_value(total, strategy[i].1);
}

/// Where every product is in range, the target has exactly one entry for
/// each entry of the strategy, in the same order.
pub proof fn lemma_target_one_entry_each(strategy: Seq<(AssetView, Dec)>, total: Dec)
    requires
        forall|i: int| 0 <= i < strategy.len() ==> total.product((#[trigger] strategy[i]).1).is_some(),
    ensures
        target_allocation(strategy, total).len() == strategy.len(),
        forall|i: int|
            0 <= i < strategy.len() ==> (#[trigger] target_allocation(strategy, total)[i]).0
                == strategy[i].0 && Some(target_allocation(strategy, total)[i].1) == total.product(
                strategy[i].1,
            ),
{
    lemma_filter_map_values_every(strategy, share_of(total));
}

/// The sum of the values of `entries`, in units of 10^-28.
pub open spec fn sum_units(entries: Seq<(AssetView, Dec)>) -> int
    decreases entries.len(),
{
    if entries.len() == 0 {
        0
    } else {
        sum_units(entries.drop_last()) + entries.last().1.units()
    }
}

/// Where every product can be held without rounding, the targets add up to
/// the total times the sum of the fractions.
pub proof fn lemma_target_sum_proportional(strategy: Seq<(AssetView, Dec)>, total: Dec)
    requires
        forall|i: int|
            0 <= i < strategy.len() ==> total.product_is_exact((#[trigger] strategy[i]).1),
    ensures
        sum_units(target_allocation(strategy, total)) * pow10(MAX_SCALE as nat) == total.units()
            * sum_units(strategy),
    decreases strategy.len(),
{
    if strategy.len() == 0 {
        assert(total.units() * 0 == 0);
    } else {
        let shorter = strategy.drop_last();
        let last = strategy.last();
        assert(last == strategy[strategy.len() - 1]);
        assert forall|i: int| 0 <= i < shorter.len() implies total.product_is_exact(
            (#[trigger] shorter[i]).1,
        ) by {
            assert(shorter[i] == strategy[i]);
        }
        lemma_target_sum_proportional(shorter, total);
        lemma_product_value(total, last.1);
        let share = total.product(last.1)->Some_0;
        let before = target_allocation(shorter, total);
        let target = target_allocation(strategy, total);
        assert(target == before.push((last.0, share)));
        assert(target.drop_last() =~= before);
        assert(sum_units(target) == sum_units(before) + share.units());
        let unit = pow10(MAX_SCALE as nat);
        assert((sum_units(before) + share.units()) * unit == total.units() * (sum_units(shorter)
            + last.1.units())) by (nonlinear_arith)
            requires
                sum_units(before) * unit == total.units() * sum_units(shorter),
                share.units() * unit == total.units() * last.1.units(),
        ;
    }
}

} // verus!
