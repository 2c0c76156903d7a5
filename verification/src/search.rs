//! Searching, and the interfaces of symbol tables.

pub mod binary;

pub use binary::{binary_search, BinarySearch};

use crate::order::{ge, le, total_order};
use vstd::prelude::*;

verus! {

/// A way of finding an item in a slice. What an implementer promises of
/// its `search`, and of which slices, is for it to state.
pub trait Searcher {
    /// An index at which `item` stands in `x`, if the search finds one.
    fn search<T: PartialEq + PartialOrd>(x: &[T], item: T) -> Option<usize>;
}

/// A symbol table is a collection of key-value pairs in which the value
/// of a given key can be looked up. Each key has one value: to put a key
/// that is present replaces its value.
pub trait SymbolTable<K, V>: Sized {
    /// The pairs of the table.
    spec fn pairs(&self) -> Map<K, V>;

    /// The empty table.
    fn new() -> (table: Self)
        ensures
            table.pairs() == Map::<K, V>::empty(),
    ;

    /// Puts a key-value pair into the table.
    fn put(&mut self, key: K, val: V)
        ensures
            final(self).pairs() == old(self).pairs().insert(key, val),
    ;

    /// The value paired with the key, if the key is in the table.
    fn get(&self, key: K) -> (val: Option<V>)
        ensures
            self.pairs().contains_key(key) ==> val == Some(self.pairs()[key]),
            !self.pairs().contains_key(key) ==> val is None,
    ;

    /// Removes the key and its value from the table.
    fn del(&mut self, key: K)
        ensures
            final(self).pairs() == old(self).pairs().remove(key),
    ;

    /// Whether the key is in the table.
    fn contains(&self, key: K) -> (found: bool)
        ensures
            found == self.pairs().contains_key(key),
    ;

    /// Whether the table has no pairs.
    fn is_empty(&self) -> (empty: bool)
        ensures
            empty == (self.pairs() == Map::<K, V>::empty()),
    ;

    /// The number of pairs in the table.
    fn size(&self) -> (n: usize)
        ensures
            self.pairs().dom().finite(),
            n == self.pairs().dom().len(),
    ;

    /// An iterator through the keys of the table.
    fn keys<I: Iterator>(&self) -> I;
}

/// `k` is the least of `keys`.
pub open spec fn is_min_key<K: PartialOrd>(keys: Set<K>, k: K) -> bool {
    keys.contains(k) && forall|j: K| keys.contains(j) ==> le(k, j)
}

/// `k` is the greatest of `keys`.
pub open spec fn is_max_key<K: PartialOrd>(keys: Set<K>, k: K) -> bool {
    keys.contains(k) && forall|j: K| keys.contains(j) ==> ge(k, j)
}

/// The members of `keys` that are less than `key`.
pub open spec fn keys_below<K: PartialOrd>(keys: Set<K>, key: K) -> Set<K> {
    keys.filter(|j: K| crate::order::lt(j, key))
}

/// What a symbol table offers beyond lookup when its keys are ordered.
/// The contracts hold for keys under a total order.
pub trait OrderedSymbolTable<K: PartialOrd, V>: Sized {
    /// The keys of the table.
    spec fn key_set(&self) -> Set<K>;

    /// The least key, if the table is not empty.
    fn min(&self) -> (r: Option<K>)
        ensures
            total_order::<K>() ==> match r {
                Some(k) => is_min_key(self.key_set(), k),
                None => self.key_set() == Set::<K>::empty(),
            },
    ;

    /// The greatest key, if the table is not empty.
    fn max(&self) -> (r: Option<K>)
        ensures
            total_order::<K>() ==> match r {
                Some(k) => is_max_key(self.key_set(), k),
                None => self.key_set() == Set::<K>::empty(),
            },
    ;

    /// The greatest key less than or equal to `key`, if there is one.
    fn floor(&self, key: K) -> (r: Option<K>)
        ensures
            total_order::<K>() ==> match r {
                Some(k) => is_max_key(self.key_set().filter(|j: K| le(j, key)), k),
                None => self.key_set().filter(|j: K| le(j, key)) == Set::<K>::empty(),
            },
    ;

    /// The least key greater than or equal to `key`, if there is one.
    fn ceiling(&self, key: K) -> (r: Option<K>)
        ensures
            total_order::<K>() ==> match r {
                Some(k) => is_min_key(self.key_set().filter(|j: K| ge(j, key)), k),
                None => self.key_set().filter(|j: K| ge(j, key)) == Set::<K>::empty(),
            },
    ;

    /// The number of keys less than `key`.
    fn rank(&self, key: K) -> (n: usize)
        ensures
            total_order::<K>() && self.key_set().finite() ==> n == keys_below(
                self.key_set(),
                key,
            ).len(),
    ;

    /// The key that has `rank` keys below it, if there is one.
    fn select(&self, rank: usize) -> (r: Option<K>)
        ensures
            total_order::<K>() && self.key_set().finite() ==> match r {
                Some(k) => self.key_set().contains(k) && keys_below(self.key_set(), k).len()
                    == rank,
                None => rank >= self.key_set().len(),
            },
    ;

    /// Removes the least key.
    fn del_min(&mut self)
        ensures
            total_order::<K>() ==> forall|k: K|
                is_min_key(old(self).key_set(), k) ==> final(self).key_set() == old(self)
                    .key_set().remove(k),
            total_order::<K>() && old(self).key_set() == Set::<K>::empty() ==> final(self).key_set()
                == Set::<K>::empty(),
    ;

    /// Removes the greatest key.
    fn del_max(&mut self)
        ensures
            total_order::<K>() ==> forall|k: K|
                is_max_key(old(self).key_set(), k) ==> final(self).key_set() == old(self)
                    .key_set().remove(k),
            total_order::<K>() && old(self).key_set() == Set::<K>::empty() ==> final(self).key_set()
                == Set::<K>::empty(),
    ;

    /// An iterator through the keys from `low` up to, but not including,
    /// `high`.
    fn keys_within<I: Iterator>(&self, low: K, high: K) -> I;
}

} // verus!
