//! A small map from keys to values, kept as a list of pairs.

use vstd::prelude::*;
use crate::types::{Address, Role};

verus! {

/// Keys that can be compared: `same` decides equality.
pub trait Key: Copy {
    /// Whether the two keys are equal.
    fn same(&self, other: &Self) -> (b: bool)
        ensures
            b == (*self == *other),
    ;
}

impl Key for Address {
    fn same(&self, other: &Self) -> (b: bool) {
        *self == *other
    }
}

impl Key for Role {
    fn same(&self, other: &Self) -> (b: bool) {
        *self == *other
    }
}

impl Key for u64 {
    fn same(&self, other: &Self) -> (b: bool) {
        *self == *other
    }
}

/// A user and a token: the key of a refund balance.
#[derive(Copy, Clone, Debug, PartialEq, Eq, Structural)]
pub struct UserToken {
    /// Who owns the balance.
    pub user: Address,
    /// The token that the balance is held in.
    pub token: Address,
}

impl Key for UserToken {
    fn same(&self, other: &Self) -> (b: bool) {
        *self == *other
    }
}

/// An account and a role: the key of a role assignment.
#[derive(Copy, Clone, Debug, PartialEq, Eq, Structural)]
pub struct Membership {
    /// The account.
    pub account: Address,
    /// The role it may hold.
    pub role: Role,
}

impl Key for Membership {
    fn same(&self, other: &Self) -> (b: bool) {
        *self == *other
    }
}

/// A map from `K` to `V`. Its view is the mathematical map.
#[derive(Debug)]
pub struct Table<K, V> {
    entries: Vec<(K, V)>,
}

/// The map that a list of pairs stands for: a later pair hides an earlier one
/// with the same key.
pub open spec fn map_of<K, V>(entries: Seq<(K, V)>) -> Map<K, V>
    decreases entries.len(),
{
    if entries.len() == 0 {
        Map::empty()
    } else {
        map_of(entries.drop_last()).insert(entries.last().0, entries.last().1)
    }
}

impl<K, V> View for Table<K, V> {
    type V = Map<K, V>;

    closed spec fn view(&self) -> Map<K, V> {
        map_of(self.entries@)
    }
}

impl<K: Key, V: Copy> Table<K, V> {
    /// The empty table.
    pub fn new() -> (table: Self)
        ensures
            table@ == Map::<K, V>::empty(),
    {
        Table { entries: Vec::new() }
    }

    /// The value stored under `key`, if there is one.
    pub fn get(&self, key: K) -> (value: Option<V>)
        ensures
            value == self@.get(key),
    {
        let mut i: usize = self.entries.len();
        assert(self.entries@.take(i as int) =~= self.entries@);
        while i > 0
            invariant
                i <= self.entries.len(),
                map_of(self.entries@.take(i as int)).get(key) == self@.get(key),
            decreases i,
        {
            let ghost prefix = self.entries@.take(i as int);
            assert(prefix.drop_last() =~= self.entries@.take(i - 1));
            i = i - 1;
            if self.entries[i].0.same(&key) {
                return Some(self.entries[i].1);
            }
        }
        assert(self.entries@.take(0) =~= Seq::empty());
        None
    }

    /// Whether a value is stored under `key`.
    pub fn has(&self, key: K) -> (b: bool)
        ensures
            b == self@.contains_key(key),
    {
        self.get(key).is_some()
    }

    /// Drops the value stored under `key`, if there is one.
    pub fn remove(&mut self, key: K)
        ensures
            final(self)@ == old(self)@.remove(key),
    {
        let mut kept: Vec<(K, V)> = Vec::new();
        let mut i: usize = 0;
        while i < self.entries.len()
            invariant
                i <= self.entries.len(),
                self.entries == old(self).entries,
                map_of(kept@) == map_of(self.entries@.take(i as int)).remove(key),
            decreases self.entries.len() - i,
        {
            let entry: (K, V) = self.entries[i];
            let ghost before = kept@;
            assert(self.entries@.take(i + 1).drop_last() =~= self.entries@.take(i as int));
            if !entry.0.same(&key) {
                kept.push(entry);
                assert(kept@.drop_last() =~= before);
            }
            i = i + 1;
            assert(map_of(kept@) =~= map_of(self.entries@.take(i as int)).remove(key));
        }
        assert(self.entries@.take(i as int) =~= self.entries@);
        self.entries = kept;
    }

    /// Stores `value` under `key`, in place of what was there.
    pub fn set(&mut self, key: K, value: V)
        ensures
            final(self)@ == old(self)@.insert(key, value),
    {
        self.remove(key);
        let ghost before = self.entries@;
        self.entries.push((key, value));
        assert(self.entries@.drop_last() =~= before);
        assert(self@ =~= old(self)@.insert(key, value));
    }

    /// A second table with the same contents.
    pub fn duplicate(&self) -> (copy: Self)
        ensures
            copy@ == self@,
    {
        let mut entries: Vec<(K, V)> = Vec::new();
        let mut i: usize = 0;
        while i < self.entries.len()
            invariant
                i <= self.entries.len(),
                entries@ == self.entries@.take(i as int),
            decreases self.entries.len() - i,
        {
            entries.push(self.entries[i]);
            i = i + 1;
            assert(entries@ =~= self.entries@.take(i as int));
        }
        assert(entries@ =~= self.entries@);
        Table { entries }
    }
}

} // verus!
