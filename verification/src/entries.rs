//! Sequences of entries, each an asset with a value: what the mappings of
//! this library hold, and what passing over them entry by entry gives.

use crate::amount::Dec;
use crate::asset::{AssetId, AssetView};
use vstd::prelude::*;

verus! {

/// Some entry of `entries` is for the asset `id`.
pub open spec fn holds<X>(entries: Seq<(AssetView, X)>, id: AssetId) -> bool {
    exists|i: int| 0 <= i < entries.len() && (#[trigger] entries[i]).0.id() == id
}

/// The place of an entry for the asset `id`, where there is one.
pub open spec fn position<X>(entries: Seq<(AssetView, X)>, id: AssetId) -> int {
    choose|i: int| 0 <= i < entries.len() && (#[trigger] entries[i]).0.id() == id
}

/// The value that `entries` gives to the asset `id`.
pub open spec fn lookup<X>(entries: Seq<(AssetView, X)>, id: AssetId) -> Option<X> {
    if holds(entries, id) {
        Some(entries[position(entries, id)].1)
    } else {
        None
    }
}

/// No two entries are for the same asset.
pub open spec fn distinct<X>(entries: Seq<(AssetView, X)>) -> bool {
    forall|i: int, j: int|
        0 <= i < j < entries.len() ==> (#[trigger] entries[i]).0.id() != (#[trigger] entries[j]).0.id()
}

/// `entries` after `asset` has been given `value`: an entry for the same
/// asset keeps its place and its key and takes the new value, else a new
/// entry goes to the end.
pub open spec fn with_entry<X>(entries: Seq<(AssetView, X)>, asset: AssetView, value: X) -> Seq<
    (AssetView, X),
> {
    if holds(entries, asset.id()) {
        let at = position(entries, asset.id());
        entries.update(at, (entries[at].0, value))
    } else {
        entries.push((asset, value))
    }
}

/// `entries` without the entry for the asset `id`, the others in their
/// order.
pub open spec fn without<X>(entries: Seq<(AssetView, X)>, id: AssetId) -> Seq<(AssetView, X)> {
    if holds(entries, id) {
        entries.remove(position(entries, id))
    } else {
        entries
    }
}

/// In distinct entries, an entry for `id` found at `at` is the entry for
/// `id`.
pub proof fn lemma_position_is<X>(entries: Seq<(AssetView, X)>, id: AssetId, at: int)
    requires
        distinct(entries),
        0 <= at < entries.len(),
        entries[at].0.id() == id,
    ensures
        holds(entries, id),
        position(entries, id) == at,
        lookup(entries, id) == Some(entries[at].1),
{
    let p = position(entries, id);
    assert(0 <= p < entries.len() && entries[p].0.id() == id);
    if p < at {
        assert(entries[p].0.id() != entries[at].0.id());
    } else if at < p {
        assert(entries[at].0.id() != entries[p].0.id());
    }
}

/// Distinct entries stay distinct when one of them takes another value.
pub proof fn lemma_update_distinct<X>(entries: Seq<(AssetView, X)>, at: int, value: X)
    requires
        distinct(entries),
        0 <= at < entries.len(),
    ensures
        distinct(entries.update(at, (entries[at].0, value))),
{
    let after = entries.update(at, (entries[at].0, value));
    assert forall|i: int, j: int| 0 <= i < j < after.len() implies (#[trigger] after[i]).0.id() != (
    #[trigger] after[j]).0.id() by {
        assert(after[i].0.id() == entries[i].0.id());
        assert(after[j].0.id() == entries[j].0.id());
    }
}

/// Distinct entries stay distinct when one is taken out.
pub proof fn lemma_remove_distinct<X>(entries: Seq<(AssetView, X)>, at: int)
    requires
        distinct(entries),
        0 <= at < entries.len(),
    ensures
        distinct(entries.remove(at)),
{
    let after = entries.remove(at);
    assert forall|i: int, j: int| 0 <= i < j < after.len() implies (#[trigger] after[i]).0.id() != (
    #[trigger] after[j]).0.id() by {
        let i0 = if i < at { i } else { i + 1 };
        let j0 = if j < at { j } else { j + 1 };
        assert(after[i] == entries[i0]);
        assert(after[j] == entries[j0]);
    }
}

/// The entries of `entries`, in their order, each with its value replaced by
/// what `f` makes of it; an entry for which `f` gives `None` is left out.
pub open spec fn filter_map_values<X, Y>(
    entries: Seq<(AssetView, X)>,
    f: spec_fn(AssetView, X) -> Option<Y>,
) -> Seq<(AssetView, Y)>
    decreases entries.len(),
{
    if entries.len() == 0 {
        Seq::empty()
    } else {
        let before = filter_map_values(entries.drop_last(), f);
        let last = entries.last();
        match f(last.0, last.1) {
            Some(y) => before.push((last.0, y)),
            None => before,
        }
    }
}

/// One more entry at the end adds at most one entry at the end of the
/// result.
pub proof fn lemma_filter_map_values_push<X, Y>(
    entries: Seq<(AssetView, X)>,
    f: spec_fn(AssetView, X) -> Option<Y>,
    asset: AssetView,
    value: X,
)
    ensures
        filter_map_values(entries.push((asset, value)), f) == match f(asset, value) {
            Some(y) => filter_map_values(entries, f).push((asset, y)),
            None => filter_map_values(entries, f),
        },
{
    assert(entries.push((asset, value)).drop_last() =~= entries);
}

/// The first `upto` of distinct entries are distinct, and have no entry for
/// the asset of the next one.
pub proof fn lemma_take_distinct<X>(entries: Seq<(AssetView, X)>, upto: int)
    requires
        distinct(entries),
        0 <= upto <= entries.len(),
    ensures
        distinct(entries.take(upto)),
        upto < entries.len() ==> !holds(entries.take(upto), entries[upto].0.id()),
{
    let seen = entries.take(upto);
    assert forall|i: int, j: int| 0 <= i < j < seen.len() implies (#[trigger] seen[i]).0.id() != (
    #[trigger] seen[j]).0.id() by {
        assert(seen[i] == entries[i] && seen[j] == entries[j]);
    }
    if upto < entries.len() && holds(seen, entries[upto].0.id()) {
        let p = position(seen, entries[upto].0.id());
        assert(seen[p] == entries[p]);
        assert(entries[p].0.id() != entries[upto].0.id());
    }
}

/// Distinct entries with one more at the end, for an asset that they do not
/// hold, are distinct, and hold the other assets as before.
pub proof fn lemma_push_distinct<X>(entries: Seq<(AssetView, X)>, asset: AssetView, value: X)
    requires
        distinct(entries),
        !holds(entries, asset.id()),
    ensures
        distinct(entries.push((asset, value))),
        lookup(entries.push((asset, value)), asset.id()) == Some(value),
        forall|id: AssetId|
            id != asset.id() ==> #[trigger] lookup(entries.push((asset, value)), id) == lookup(
                entries,
                id,
            ),
{
    let longer = entries.push((asset, value));
    assert forall|i: int, j: int| 0 <= i < j < longer.len() implies (#[trigger] longer[i]).0.id() != (
    #[trigger] longer[j]).0.id() by {
        assert(longer[i] == entries[i]);
        if j < entries.len() {
            assert(longer[j] == entries[j]);
        }
    }
    assert(longer[entries.len() as int] == (asset, value));
    lemma_position_is(longer, asset.id(), entries.len() as int);
    assert forall|id: AssetId| id != asset.id() implies #[trigger] lookup(longer, id) == lookup(
        entries,
        id,
    ) by {
        if holds(entries, id) {
            let p = position(entries, id);
            assert(longer[p] == entries[p]);
            lemma_position_is(longer, id, p);
        } else if holds(longer, id) {
            let p = position(longer, id);
            if p < entries.len() {
                assert(longer[p] == entries[p]);
            }
        }
    }
}

/// Over distinct entries the result is distinct too, and gives each asset
/// what `f` makes of the value it had: nothing where it had none.
pub proof fn lemma_filter_map_values_lookup<X, Y>(
    entries: Seq<(AssetView, X)>,
    f: spec_fn(AssetView, X) -> Option<Y>,
)
    requires
        distinct(entries),
    ensures
        distinct(filter_map_values(entries, f)),
        forall|i: int|
            0 <= i < entries.len() ==> lookup(
                filter_map_values(entries, f),
                (#[trigger] entries[i]).0.id(),
            ) == f(entries[i].0, entries[i].1),
        forall|id: AssetId|
            !holds(entries, id) ==> !(#[trigger] holds(filter_map_values(entries, f), id)),
    decreases entries.len(),
{
    let result = filter_map_values(entries, f);
    if entries.len() > 0 {
        let n = entries.len() - 1;
        let shorter = entries.drop_last();
        let before = filter_map_values(shorter, f);
        let last = entries.last();
        assert(shorter =~= entries.take(n));
        lemma_take_distinct(entries, n);
        lemma_filter_map_values_lookup(shorter, f);
        assert(!holds(before, last.0.id()));
        match f(last.0, last.1) {
            Some(y) => {
                lemma_push_distinct(before, last.0, y);
            },
            None => {},
        }
        assert forall|i: int| 0 <= i < entries.len() implies lookup(
            result,
            (#[trigger] entries[i]).0.id(),
        ) == f(entries[i].0, entries[i].1) by {
            if i < n {
                assert(shorter[i] == entries[i]);
                assert(entries[i].0.id() != entries[n].0.id());
            }
        }
        assert forall|id: AssetId| !holds(entries, id) implies !(#[trigger] holds(result, id)) by {
            assert(id != last.0.id());
            if holds(shorter, id) {
                let p = position(shorter, id);
                assert(shorter[p] == entries[p]);
            }
            assert(lookup(before, id).is_none());
        }
    }
}

/// Going through one more of distinct entries adds at most one entry at the
/// end, for an asset that the result did not hold.
pub proof fn lemma_filter_map_values_next<X, Y>(
    entries: Seq<(AssetView, X)>,
    f: spec_fn(AssetView, X) -> Option<Y>,
    i: int,
)
    requires
        distinct(entries),
        0 <= i < entries.len(),
    ensures
        filter_map_values(entries.take(i + 1), f) == match f(entries[i].0, entries[i].1) {
            Some(y) => filter_map_values(entries.take(i), f).push((entries[i].0, y)),
            None => filter_map_values(entries.take(i), f),
        },
        !holds(filter_map_values(entries.take(i), f), entries[i].0.id()),
{
    assert(entries.take(i + 1) =~= entries.take(i).push(entries[i]));
    lemma_filter_map_values_push(entries.take(i), f, entries[i].0, entries[i].1);
    lemma_take_distinct(entries, i);
    lemma_filter_map_values_lookup(entries.take(i), f);
}

/// Every entry of the result stands for an entry of `entries` with the
/// same asset, of whose value `f` made the value it has.
pub proof fn lemma_filter_map_values_origin<X, Y>(
    entries: Seq<(AssetView, X)>,
    f: spec_fn(AssetView, X) -> Option<Y>,
    at: int,
) -> (from: int)
    requires
        0 <= at < filter_map_values(entries, f).len(),
    ensures
        0 <= from < entries.len(),
        entries[from].0 == filter_map_values(entries, f)[at].0,
        f(entries[from].0, entries[from].1) == Some(filter_map_values(entries, f)[at].1),
    decreases entries.len(),
{
    let shorter = entries.drop_last();
    let before = filter_map_values(shorter, f);
    if at < before.len() {
        let from = lemma_filter_map_values_origin(shorter, f, at);
        assert(shorter[from] == entries[from]);
        from
    } else {
        entries.len() - 1
    }
}

/// Two functions that agree on every entry give the same result.
pub proof fn lemma_filter_map_values_same<X, Y>(
    entries: Seq<(AssetView, X)>,
    f: spec_fn(AssetView, X) -> Option<Y>,
    g: spec_fn(AssetView, X) -> Option<Y>,
)
    requires
        forall|i: int|
            0 <= i < entries.len() ==> f((#[trigger] entries[i]).0, entries[i].1) == g(
                entries[i].0,
                entries[i].1,
            ),
    ensures
        filter_map_values(entries, f) == filter_map_values(entries, g),
    decreases entries.len(),
{
    if entries.len() > 0 {
        let shorter = entries.drop_last();
        assert forall|i: int| 0 <= i < shorter.len() implies f(
            (#[trigger] shorter[i]).0,
            shorter[i].1,
        ) == g(shorter[i].0, shorter[i].1) by {
            assert(shorter[i] == entries[i]);
        }
        lemma_filter_map_values_same(shorter, f, g);
        assert(entries.last() == entries[entries.len() - 1]);
    }
}

/// `f`, and then `g` on what `f` gives.
pub open spec fn and_then_values<X, Y, Z>(
    f: spec_fn(AssetView, X) -> Option<Y>,
    g: spec_fn(AssetView, Y) -> Option<Z>,
) -> spec_fn(AssetView, X) -> Option<Z> {
    |asset: AssetView, x: X|
        match f(asset, x) {
            Some(y) => g(asset, y),
            None => None,
        }
}

/// Going through `f` and then through `g` is going through both at once.
pub proof fn lemma_filter_map_values_twice<X, Y, Z>(
    entries: Seq<(AssetView, X)>,
    f: spec_fn(AssetView, X) -> Option<Y>,
    g: spec_fn(AssetView, Y) -> Option<Z>,
)
    ensures
        filter_map_values(filter_map_values(entries, f), g) == filter_map_values(
            entries,
            and_then_values(f, g),
        ),
    decreases entries.len(),
{
    if entries.len() > 0 {
        let shorter = entries.drop_last();
        let last = entries.last();
        lemma_filter_map_values_twice(shorter, f, g);
        match f(last.0, last.1) {
            Some(y) => {
                lemma_filter_map_values_push(filter_map_values(shorter, f), g, last.0, y);
            },
            None => {},
        }
    }
}

/// `f`, but nothing for the asset `id`.
pub open spec fn except<X, Y>(f: spec_fn(AssetView, X) -> Option<Y>, id: AssetId) -> spec_fn(
    AssetView,
    X,
) -> Option<Y> {
    |asset: AssetView, x: X|
        if asset.id() == id {
            None
        } else {
            f(asset, x)
        }
}

/// Taking the entry for an asset out of the result is leaving that asset
/// out from the start.
pub proof fn lemma_filter_map_values_without<X, Y>(
    entries: Seq<(AssetView, X)>,
    f: spec_fn(AssetView, X) -> Option<Y>,
    id: AssetId,
)
    requires
        distinct(entries),
    ensures
        without(filter_map_values(entries, f), id) == filter_map_values(entries, except(f, id)),
    decreases entries.len(),
{
    let result = filter_map_values(entries, f);
    if entries.len() > 0 {
        let n = entries.len() - 1;
        let shorter = entries.drop_last();
        let before = filter_map_values(shorter, f);
        let last = entries.last();
        assert(shorter =~= entries.take(n));
        lemma_take_distinct(entries, n);
        lemma_filter_map_values_without(shorter, f, id);
        lemma_filter_map_values_lookup(shorter, f);
        match f(last.0, last.1) {
            Some(y) => {
                lemma_push_distinct(before, last.0, y);
                if last.0.id() == id {
                    assert(result[before.len() as int] == (last.0, y));
                    lemma_position_is(result, id, before.len() as int);
                    assert(result.remove(before.len() as int) =~= before);
                } else if holds(before, id) {
                    let p = position(before, id);
                    assert(result[p] == before[p]);
                    lemma_position_is(result, id, p);
                    assert(result.remove(p) =~= before.remove(p).push((last.0, y)));
                }
            },
            None => {},
        }
    } else {
        assert(!holds(result, id));
    }
}

/// Where `f` keeps every value as it is, every entry stays as it is.
pub proof fn lemma_filter_map_values_all<X>(
    entries: Seq<(AssetView, X)>,
    f: spec_fn(AssetView, X) -> Option<X>,
)
    requires
        forall|i: int|
            0 <= i < entries.len() ==> f((#[trigger] entries[i]).0, entries[i].1) == Some(
                entries[i].1,
            ),
    ensures
        filter_map_values(entries, f) == entries,
    decreases entries.len(),
{
    if entries.len() > 0 {
        let shorter = entries.drop_last();
        assert forall|i: int| 0 <= i < shorter.len() implies f(
            (#[trigger] shorter[i]).0,
            shorter[i].1,
        ) == Some(shorter[i].1) by {
            assert(shorter[i] == entries[i]);
        }
        lemma_filter_map_values_all(shorter, f);
        assert(entries.last() == entries[entries.len() - 1]);
        assert(shorter.push(entries.last()) =~= entries);
    }
}

/// Where `f` gives nothing for any entry, nothing is left.
pub proof fn lemma_filter_map_values_none<X, Y>(
    entries: Seq<(AssetView, X)>,
    f: spec_fn(AssetView, X) -> Option<Y>,
)
    requires
        forall|i: int| 0 <= i < entries.len() ==> f((#[trigger] entries[i]).0, entries[i].1).is_none(),
    ensures
        filter_map_values(entries, f) == Seq::<(AssetView, Y)>::empty(),
    decreases entries.len(),
{
    if entries.len() > 0 {
        let shorter = entries.drop_last();
        assert forall|i: int| 0 <= i < shorter.len() implies f(
            (#[trigger] shorter[i]).0,
            shorter[i].1,
        ).is_none() by {
            assert(shorter[i] == entries[i]);
        }
        lemma_filter_map_values_none(shorter, f);
        assert(entries.last() == entries[entries.len() - 1]);
    }
}

/// Where `f` gives something for every entry, every entry is kept in its
/// place.
pub proof fn lemma_filter_map_values_every<X, Y>(
    entries: Seq<(AssetView, X)>,
    f: spec_fn(AssetView, X) -> Option<Y>,
)
    requires
        forall|i: int| 0 <= i < entries.len() ==> f((#[trigger] entries[i]).0, entries[i].1).is_some(),
    ensures
        filter_map_values(entries, f).len() == entries.len(),
        forall|i: int|
            0 <= i < entries.len() ==> (#[trigger] filter_map_values(entries, f)[i]).0
                == entries[i].0 && Some(filter_map_values(entries, f)[i].1) == f(
                entries[i].0,
                entries[i].1,
            ),
    decreases entries.len(),
{
    if entries.len() > 0 {
        let shorter = entries.drop_last();
        assert forall|i: int| 0 <= i < shorter.len() implies f(
            (#[trigger] shorter[i]).0,
            shorter[i].1,
        ).is_some() by {
            assert(shorter[i] == entries[i]);
        }
        lemma_filter_map_values_every(shorter, f);
        assert(entries.last() == entries[entries.len() - 1]);
        let result = filter_map_values(entries, f);
        assert forall|i: int| 0 <= i < entries.len() implies (#[trigger] result[i]).0 == entries[i].0
            && Some(result[i].1) == f(entries[i].0, entries[i].1) by {
            if i < shorter.len() {
                assert(shorter[i] == entries[i]);
                assert(result[i] == filter_map_values(shorter, f)[i]);
            }
        }
    }
}

/// Two mappings of amounts give the same assets values that denote the
/// same numbers.
pub open spec fn same_amounts(a: Seq<(AssetView, Dec)>, b: Seq<(AssetView, Dec)>) -> bool {
    &&& a.len() == b.len()
    &&& forall|i: int|
        0 <= i < a.len() ==> match lookup(b, (#[trigger] a[i]).0.id()) {
            Some(value) => value.same_value(a[i].1),
            None => false,
        }
}

} // verus!
