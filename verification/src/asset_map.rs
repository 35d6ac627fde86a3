//! Mappings from assets to values that keep the order in which their
//! entries were first inserted.

use crate::amount::Amount;
use crate::asset::{Asset, AssetView};
use crate::entries::{
    distinct, holds, lemma_position_is, lemma_push_distinct, lemma_remove_distinct,
    lemma_update_distinct, lookup, same_amounts, with_entry, without,
};
use vstd::prelude::*;
use vstd::std_specs::cmp::PartialEqSpecImpl;

verus! {

/// A mapping from assets to values, in insertion order.
#[derive(Debug)]
pub struct AssetMap<V: View + Copy> {
    entries: Vec<(Asset, V)>,
}

/// Units held of each asset.
pub type Portfolio = AssetMap<u64>;

/// Price per unit of each asset.
pub type Market = AssetMap<Amount>;

/// Monetary value of each asset.
pub type Capital = AssetMap<Amount>;

/// Target fraction of the total for each asset.
pub type Strategy = AssetMap<Amount>;

impl<V: View + Copy> View for AssetMap<V> {
    type V = Seq<(AssetView, V::V)>;

    closed spec fn view(&self) -> Seq<(AssetView, V::V)> {
        Self::model(self.entries@)
    }
}

impl<V: View + Copy> AssetMap<V> {
    #[verifier::type_invariant]
    closed spec fn inv(self) -> bool {
        distinct(self@)
    }

    spec fn model(entries: Seq<(Asset, V)>) -> Seq<(AssetView, V::V)> {
        Seq::new(entries.len(), |i: int| (entries[i].0@, entries[i].1@))
    }

    /// A mapping without entries.
    pub fn new() -> (r: Self)
        ensures
            r@ == Seq::<(AssetView, V::V)>::empty(),
    {
        let r = AssetMap { entries: Vec::new() };
        assert(r@ =~= Seq::<(AssetView, V::V)>::empty());
        r
    }

    /// The number of entries, no two of which are for the same asset.
    pub fn len(&self) -> (r: usize)
        ensures
            r == self@.len(),
            distinct(self@),
    {
        proof {
            use_type_invariant(self);
        }
        self.entries.len()
    }

    /// The asset of the entry at `i`.
    pub fn asset_at(&self, i: usize) -> (r: &Asset)
        requires
            i < self@.len(),
        ensures
            r@ == self@[i as int].0,
    {
        &self.entries[i].0
    }

    /// The value of the entry at `i`.
    pub fn value_at(&self, i: usize) -> (r: V)
        requires
            i < self@.len(),
        ensures
            r@ == self@[i as int].1,
    {
        self.entries[i].1
    }

    fn find(&self, asset: &Asset) -> (r: Option<usize>)
        ensures
            match r {
                Some(at) => at < self@.len() && self@[at as int].0.id() == asset@.id(),
                None => !holds(self@, asset@.id()),
            },
    {
        let mut i: usize = 0;
        while i < self.entries.len()
            invariant
                i <= self.entries@.len(),
                self@.len() == self.entries@.len(),
                forall|j: int| 0 <= j < i ==> (#[trigger] self@[j]).0.id() != asset@.id(),
            decreases self.entries@.len() - i,
        {
            if self.entries[i].0 == *asset {
                return Some(i);
            }
            i += 1;
        }
        None
    }

    /// The value given to `asset`, if any.
    pub fn get(&self, asset: &Asset) -> (r: Option<V>)
        ensures
            match r {
                Some(v) => lookup(self@, asset@.id()) == Some(v@),
                None => lookup(self@, asset@.id()).is_none(),
            },
    {
        proof {
            use_type_invariant(self);
        }
        match self.find(asset) {
            Some(at) => {
                proof {
                    lemma_position_is(self@, asset@.id(), at as int);
                }
                Some(self.entries[at].1)
            },
            None => None,
        }
    }

    /// Gives `asset` the value `value` and returns the value it had. An
    /// entry that was there keeps its place and its key; a new one goes to
    /// the end.
    pub fn insert(&mut self, asset: Asset, value: V) -> (r: Option<V>)
        ensures
            final(self)@ == with_entry(old(self)@, asset@, value@),
            match r {
                Some(v) => lookup(old(self)@, asset@.id()) == Some(v@),
                None => lookup(old(self)@, asset@.id()).is_none(),
            },
    {
        proof {
            use_type_invariant(&*self);
        }
        let ghost before = self@;
        match self.find(&asset) {
            Some(at) => {
                proof {
                    lemma_position_is(before, asset@.id(), at as int);
                }
                let previous = self.entries[at].1;
                let key = self.entries[at].0.clone();
                let mut entries: Vec<(Asset, V)> = Vec::new();
                core::mem::swap(&mut self.entries, &mut entries);
                entries.set(at, (key, value));
                proof {
                    assert(Self::model(entries@) =~= before.update(
                        at as int,
                        (before[at as int].0, value@),
                    ));
                    lemma_update_distinct(before, at as int, value@);
                }
                core::mem::swap(&mut self.entries, &mut entries);
                Some(previous)
            },
            None => {
                self.append(asset, value);
                None
            },
        }
    }

    /// Takes out the entry for `asset` and returns its value; the other
    /// entries keep their order.
    pub fn remove(&mut self, asset: &Asset) -> (r: Option<V>)
        ensures
            final(self)@ == without(old(self)@, asset@.id()),
            match r {
                Some(v) => lookup(old(self)@, asset@.id()) == Some(v@),
                None => lookup(old(self)@, asset@.id()).is_none(),
            },
    {
        proof {
            use_type_invariant(&*self);
        }
        let ghost before = self@;
        match self.find(asset) {
            Some(at) => {
                proof {
                    lemma_position_is(before, asset@.id(), at as int);
                }
                let mut entries: Vec<(Asset, V)> = Vec::new();
                core::mem::swap(&mut self.entries, &mut entries);
                let entry = entries.remove(at);
                proof {
                    assert(Self::model(entries@) =~= before.remove(at as int));
                    lemma_remove_distinct(before, at as int);
                }
                core::mem::swap(&mut self.entries, &mut entries);
                Some(entry.1)
            },
            None => None,
        }
    }

    /// Adds an entry for an asset that has none.
    pub(crate) fn append(&mut self, asset: Asset, value: V)
        requires
            !holds(old(self)@, asset@.id()),
        ensures
            final(self)@ == old(self)@.push((asset@, value@)),
    {
        proof {
            use_type_invariant(&*self);
        }
        let ghost before = self@;
        let mut entries: Vec<(Asset, V)> = Vec::new();
        core::mem::swap(&mut self.entries, &mut entries);
        entries.push((asset, value));
        proof {
            assert(Self::model(entries@) =~= before.push((asset@, value@)));
            lemma_push_distinct(before, asset@, value@);
        }
        core::mem::swap(&mut self.entries, &mut entries);
    }
}

impl PartialEq for AssetMap<Amount> {
    fn eq(&self, other: &AssetMap<Amount>) -> (r: bool) {
        let n = self.len();
        if n != other.len() {
            return false;
        }
        let mut i: usize = 0;
        while i < n
            invariant
                i <= n,
                n == self@.len(),
                n == other@.len(),
                forall|k: int|
                    0 <= k < i ==> match lookup(other@, (#[trigger] self@[k]).0.id()) {
                        Some(value) => value.same_value(self@[k].1),
                        None => false,
                    },
            decreases n - i,
        {
            match other.get(self.asset_at(i)) {
                Some(value) => {
                    if !value.same_value(self.value_at(i)) {
                        return false;
                    }
                },
                None => {
                    return false;
                },
            }
            i += 1;
        }
        true
    }
}

impl PartialEqSpecImpl for AssetMap<Amount> {
    open spec fn obeys_eq_spec() -> bool {
        true
    }

    open spec fn eq_spec(&self, other: &AssetMap<Amount>) -> bool {
        same_amounts(self@, other@)
    }
}

} // verus!
