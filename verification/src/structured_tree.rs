//! A tree of typed values: each value passes through an encoding on its way into
//! the database and out of it.

use vstd::prelude::*;
use std::marker::PhantomData;
use crate::bytes::{
    bytes_of, entry_of, has_prefix, is_scan, key_lt, lookup, put, within, KeyBound,
};
use crate::encoding::{stored, view_of, written, Encoding};
use crate::engine::{
    applied, has_at_most, is_first_after, is_greatest, is_last_before, is_least,
    iter_rest, tree_apply_batch, tree_clear, tree_compare_and_swap, tree_contains_key,
    tree_entries,
    tree_fetch_and_update, tree_flush, tree_get, tree_get_gt, tree_get_lt,
    tree_insert, tree_is_empty, tree_len, tree_pop_max, tree_pop_min, tree_range, tree_remove,
    tree_scan_prefix, tree_update_and_fetch, tree_watch_prefix, txn_apply_batch, txn_entries,
    tree_take, txn_get, txn_insert, txn_remove, txn_take,
};
use crate::error::{coerce, TreeError};
use crate::structured_batch::StructuredBatch;
use crate::store::Store;
use crate::structured_iter::StructuredIter;

verus! {

/// Why a compare-and-swap did not write: the key held `current`, not the value
/// that was expected, and `proposed` was not stored.
pub struct CompareAndSwapError<V> {
    /// What the key holds.
    pub current: Option<V>,
    /// What was to be stored.
    pub proposed: Option<V>,
}

/// A tree of values of type `V`, stored as the encoding `E` writes them.
pub struct StructuredTree<'s, V, E> {
    tree: sled::Tree,
    name: String,
    store: PhantomData<&'s Store>,
    value: PhantomData<V>,
    encoding: PhantomData<E>,
}

/// A tree as a transaction sees it: reads see the writes of the transaction, and
/// the writes reach the tree when the transaction ends well.
pub struct StructuredTransactionalTree<V, E> {
    tree: sled::transaction::TransactionalTree,
    value: PhantomData<V>,
    encoding: PhantomData<E>,
}

/// `r` is what reading the stored bytes `raw` gives: no value where nothing is
/// stored, the value that the bytes decode to, or the encoding's error where
/// they do not decode.
pub open spec fn reads_as<V: View, E: Encoding<V>>(
    raw: Option<Seq<u8>>,
    r: Result<Option<V>, TreeError>,
) -> bool {
    match raw {
        None => r matches Ok(None),
        Some(bytes) => match E::decoding(bytes) {
            Some(value) => r matches Ok(Some(v)) && v@ == value,
            None => r matches Err(e) && !e.is_engine(),
        },
    }
}

/// `r` is what reading the stored entry `raw` gives: as `reads_as`, with the
/// key beside the value.
pub open spec fn reads_entry_as<V: View, E: Encoding<V>>(
    raw: Option<(Seq<u8>, Seq<u8>)>,
    r: Result<Option<(Vec<u8>, V)>, TreeError>,
) -> bool {
    match raw {
        None => r matches Ok(None),
        Some((key, bytes)) => match E::decoding(bytes) {
            Some(value) => r matches Ok(Some((k, v))) && k@ == key && v@ == value,
            None => r matches Err(e) && !e.is_engine(),
        },
    }
}

/// `f` can turn the stored bytes `before` into `after`: it is given the value that
/// `before` reads as (nothing, where they cannot be read), and what it returns is
/// written as `after` (nothing, where it cannot be written).
pub open spec fn updates<V: View, E: Encoding<V>, F: Fn(Option<V>) -> Option<V>>(
    f: &F,
    before: Option<Seq<u8>>,
    after: Option<Seq<u8>>,
) -> bool {
    exists|given: Option<V>, made: Option<V>|
        view_of(given) == stored::<V, E>(before) && #[trigger] call_ensures(*f, (given,), made)
            && after == written::<V, E>(view_of(made))
}

/// `r` and `after` are what a compare-and-swap on `before` gives, where the
/// engine does not fail.
///
/// A value that cannot be written fails, and nothing changes. Where `key` holds
/// the bytes of `expected`, it is set to those of `proposed`. Otherwise nothing
/// changes, and the inner error carries what the key holds and what was
/// proposed, as far as both can be read; where one cannot, the encoding's error
/// comes instead.
pub open spec fn swapped<V: View, E: Encoding<V>>(
    before: Map<Seq<u8>, Seq<u8>>,
    after: Map<Seq<u8>, Seq<u8>>,
    key: Seq<u8>,
    expected: Option<V::V>,
    proposed: Option<V::V>,
    r: Result<Result<(), CompareAndSwapError<V>>, TreeError>,
) -> bool {
    let wanted = written::<V, E>(expected);
    let offered = written::<V, E>(proposed);
    let held = lookup(before, key);
    if (expected is Some && wanted is None) || (proposed is Some && offered is None) {
        encoding_failed(r) && after == before
    } else if held == wanted {
        r matches Ok(Ok(())) && after == put(before, key, offered)
    } else if (stored::<V, E>(held) is None && held is Some) || (stored::<V, E>(offered) is None
        && offered is Some) {
        encoding_failed(r) && after == before
    } else {
        &&& after == before
        &&& r matches Ok(Err(e))
        &&& view_of(e.current) == stored::<V, E>(held)
        &&& view_of(e.proposed) == stored::<V, E>(offered)
    }
}

/// There is a value, and it cannot be written.
pub open spec fn unwritable<V: View, E: Encoding<V>>(value: Option<V::V>) -> bool {
    value is Some && written::<V, E>(value) is None
}

/// The engine failed.
pub open spec fn engine_failed<T>(r: Result<T, TreeError>) -> bool {
    r matches Err(e) && e.is_engine()
}

/// The encoding failed.
pub open spec fn encoding_failed<T>(r: Result<T, TreeError>) -> bool {
    r matches Err(e) && !e.is_engine()
}

impl<'s, V: View, E: Encoding<V>> StructuredTree<'s, V, E> {
    /// The bytes that the tree holds under each of its keys.
    pub closed spec fn raw(&self) -> Map<Seq<u8>, Seq<u8>> {
        tree_entries(self.tree)
    }

    /// The name under which the tree was opened.
    pub closed spec fn name_view(&self) -> Seq<char> {
        self.name@
    }

    /// Opens the tree called `name` in `store`, and makes it if there is none.
    /// The tree borrows the store for as long as it is used; a tree that was
    /// opened before, and is used no longer, can be opened again. Whether the
    /// tree can be opened is for the database to decide.
    pub fn new(store: &'s mut Store, name: &str) -> (r: Result<Self, TreeError>)
        ensures
            match r {
                Ok(tree) => tree.name_view() == name@,
                Err(e) => e.is_engine(),
            },
    {
        match store.open(name) {
            Ok(tree) => Ok(Self::over(tree, name)),
            Err(e) => Err(TreeError::Sled(e)),
        }
    }

    /// One more handle on the same tree. It borrows `self`, which is not used
    /// while the new handle is: so one handle alone writes to the tree at any
    /// time. What the new handle wrote is found through `self` afterwards.
    pub fn cloned<'a>(&'a mut self) -> (r: StructuredTree<'a, V, E>)
        ensures
            r.raw() == old(self).raw(),
            r.name_view() == old(self).name_view(),
            final(self).name_view() == old(self).name_view(),
    {
        StructuredTree {
            tree: tree_take(&mut self.tree),
            name: self.name.clone(),
            store: PhantomData,
            value: PhantomData,
            encoding: PhantomData,
        }
    }

    /// The tree `tree` of the database, which was opened under `name`.
    pub(crate) fn over(tree: sled::Tree, name: &str) -> (r: Self)
        ensures
            r.raw() == tree_entries(tree),
            r.name_view() == name@,
    {
        StructuredTree {
            tree,
            name: name.to_owned(),
            store: PhantomData,
            value: PhantomData,
            encoding: PhantomData,
        }
    }

    /// What the database answered to a lookup, as a value.
    pub fn read_back(found: Option<Vec<u8>>) -> (r: Result<Option<V>, TreeError>)
        ensures
            reads_as::<V, E>(bytes_of(found), r),
    {
        match found {
            Some(bytes) => match E::decode(bytes.as_slice()) {
                Ok(value) => Ok(Some(value)),
                Err(e) => Err(e),
            },
            None => Ok(None),
        }
    }

    /// What the database answered to a search for an entry, with the value read.
    pub fn read_entry_back(found: Option<(Vec<u8>, Vec<u8>)>) -> (r: Result<
        Option<(Vec<u8>, V)>,
        TreeError,
    >)
        ensures
            reads_entry_as::<V, E>(entry_of(found), r),
    {
        match found {
            Some((key, bytes)) => match E::decode(bytes.as_slice()) {
                Ok(value) => Ok(Some((key, value))),
                Err(e) => Err(e),
            },
            None => Ok(None),
        }
    }

    /// The value stored under `key`, if there is one.
    pub fn get(&self, key: &[u8]) -> (r: Result<Option<V>, TreeError>)
        ensures
            engine_failed(r) || reads_as::<V, E>(lookup(self.raw(), key@), r),
    {
        match tree_get(&self.tree, key) {
            Ok(found) => Self::read_back(found),
            Err(e) => Err(TreeError::Sled(e)),
        }
    }

    /// Stores `value` under `key` and returns what was stored there before.
    ///
    /// A value that cannot be written is refused and nothing changes. Where the
    /// value before cannot be read, the new value is stored all the same, and
    /// the result is the encoding's error.
    pub fn insert(&mut self, key: &[u8], value: V) -> (r: Result<Option<V>, TreeError>)
        ensures
            final(self).name_view() == old(self).name_view(),
            match E::encoding(value@) {
                None => encoding_failed(r) && final(self).raw() == old(self).raw(),
                Some(bytes) => engine_failed(r) || {
                    &&& final(self).raw() == old(self).raw().insert(key@, bytes)
                    &&& reads_as::<V, E>(lookup(old(self).raw(), key@), r)
                },
            },
    {
        let bytes = match E::encode(&value) {
            Ok(bytes) => bytes,
            Err(e) => {
                return Err(e);
            },
        };
        match tree_insert(&mut self.tree, key, bytes) {
            Ok(previous) => Self::read_back(previous),
            Err(e) => Err(TreeError::Sled(e)),
        }
    }

    /// Removes `key` and returns what was stored there.
    ///
    /// Where the value cannot be read, the key is removed all the same, and the
    /// result is the encoding's error.
    pub fn remove(&mut self, key: &[u8]) -> (r: Result<Option<V>, TreeError>)
        ensures
            final(self).name_view() == old(self).name_view(),
            engine_failed(r) || {
                &&& final(self).raw() == old(self).raw().remove(key@)
                &&& reads_as::<V, E>(lookup(old(self).raw(), key@), r)
            },
    {
        match tree_remove(&mut self.tree, key) {
            Ok(previous) => Self::read_back(previous),
            Err(e) => Err(TreeError::Sled(e)),
        }
    }

    /// What an optional value is written as, or the error of the encoding.
    pub fn write_out(value: Option<V>) -> (r: Result<Option<Vec<u8>>, TreeError>)
        ensures
            match value {
                None => r matches Ok(None),
                Some(v) => match E::encoding(v@) {
                    Some(bytes) => r matches Ok(Some(b)) && b@ == bytes,
                    None => encoding_failed(r),
                },
            },
    {
        coerce(
            match value {
                Some(v) => Some(E::encode(&v)),
                None => None,
            },
        )
    }

    /// What the database answered to a compare-and-swap, with the values read.
    pub fn read_swap_back(
        answer: Result<(), (Option<Vec<u8>>, Option<Vec<u8>>)>,
    ) -> (r: Result<Result<(), CompareAndSwapError<V>>, TreeError>)
        ensures
            match answer {
                Ok(()) => r matches Ok(Ok(())),
                Err((current, proposed)) => {
                    if (current matches Some(b) && E::decoding(b@) is None) || (proposed matches Some(
                        b,
                    ) && E::decoding(b@) is None) {
                        encoding_failed(r)
                    } else {
                        r matches Ok(Err(e)) && view_of(e.current) == stored::<V, E>(bytes_of(current))
                            && view_of(e.proposed) == stored::<V, E>(bytes_of(proposed))
                    }
                },
            },
    {
        match answer {
            Ok(()) => Ok(Ok(())),
            Err((current, proposed)) => {
                let current = match Self::read_back(current) {
                    Ok(value) => value,
                    Err(e) => {
                        return Err(e);
                    },
                };
                let proposed = match Self::read_back(proposed) {
                    Ok(value) => value,
                    Err(e) => {
                        return Err(e);
                    },
                };
                Ok(Err(CompareAndSwapError { current, proposed }))
            },
        }
    }

    /// Stores `proposed` under `key` if the key holds `expected`, and tells
    /// otherwise what it holds.
    ///
    /// `None` for `expected` stands for a key that holds nothing, `None` for
    /// `proposed` for removing the key. The values are compared as the bytes that
    /// they are written as. A value that cannot be written is refused and nothing
    /// changes.
    pub fn compare_and_swap(&mut self, key: &[u8], expected: Option<V>, proposed: Option<V>) -> (r:
        Result<Result<(), CompareAndSwapError<V>>, TreeError>)
        ensures
            final(self).name_view() == old(self).name_view(),
            unwritable::<V, E>(view_of(expected)) || unwritable::<V, E>(view_of(proposed))
                ==> encoding_failed(r) && final(self).raw() == old(self).raw(),
            engine_failed(r) || swapped::<V, E>(
                old(self).raw(),
                final(self).raw(),
                key@,
                view_of(expected),
                view_of(proposed),
                r,
            ),
    {
        let wanted = match Self::write_out(expected) {
            Ok(bytes) => bytes,
            Err(e) => {
                return Err(e);
            },
        };
        let offered = match Self::write_out(proposed) {
            Ok(bytes) => bytes,
            Err(e) => {
                return Err(e);
            },
        };
        match tree_compare_and_swap(&mut self.tree, key, wanted, offered) {
            Ok(answer) => Self::read_swap_back(answer),
            Err(e) => Err(TreeError::Sled(e)),
        }
    }

    /// What `f` makes of stored bytes: it is given the value that they read as
    /// (nothing, where they cannot be read), and what it returns is written out
    /// (as nothing, where it cannot be written).
    pub fn rewrite<F: Fn(Option<V>) -> Option<V>>(f: &F, found: Option<Vec<u8>>) -> (r: Option<
        Vec<u8>,
    >)
        requires
            forall|given: Option<V>| call_requires(*f, (given,)),
        ensures
            updates::<V, E, F>(f, bytes_of(found), bytes_of(r)),
    {
        let given = match found {
            Some(bytes) => match E::decode(bytes.as_slice()) {
                Ok(value) => Some(value),
                Err(_) => None,
            },
            None => None,
        };
        let ghost handed = given;
        let made = f(given);
        let ghost returned = made;
        let r = match made {
            Some(value) => match E::encode(&value) {
                Ok(bytes) => Some(bytes),
                Err(_) => None,
            },
            None => None,
        };
        assert(view_of(handed) == stored::<V, E>(bytes_of(found)) && call_ensures(
            *f,
            (handed,),
            returned,
        ) && bytes_of(r) == written::<V, E>(view_of(returned)));
        r
    }

    /// Replaces what `key` holds by what `f` makes of it, and returns the new
    /// value. `f` may be called more than once.
    pub fn update_and_fetch<F: Fn(Option<V>) -> Option<V>>(&mut self, key: &[u8], f: F) -> (r:
        Result<Option<V>, TreeError>)
        requires
            forall|given: Option<V>| call_requires(f, (given,)),
        ensures
            final(self).name_view() == old(self).name_view(),
            engine_failed(r) || exists|current: Option<Seq<u8>>|
                {
                    &&& #[trigger] updates::<V, E, F>(&f, lookup(old(self).raw(), key@), current)
                    &&& final(self).raw() == put(old(self).raw(), key@, current)
                    &&& reads_as::<V, E>(current, r)
                },
    {
        let ghost held = lookup(self.raw(), key@);
        let by = &f;
        let g = |found: Option<Vec<u8>>| -> (out: Option<Vec<u8>>)
            ensures
                updates::<V, E, F>(by, bytes_of(found), bytes_of(out)),
            { Self::rewrite(by, found) };
        match tree_update_and_fetch(&mut self.tree, key, g) {
            Ok(current) => {
                let ghost now = bytes_of(current);
                let r = Self::read_back(current);
                assert(updates::<V, E, F>(&f, held, now));
                r
            },
            Err(e) => Err(TreeError::Sled(e)),
        }
    }

    /// Replaces what `key` holds by what `f` makes of it, and returns the value
    /// from before. `f` may be called more than once.
    pub fn fetch_and_update<F: Fn(Option<V>) -> Option<V>>(&mut self, key: &[u8], f: F) -> (r:
        Result<Option<V>, TreeError>)
        requires
            forall|given: Option<V>| call_requires(f, (given,)),
        ensures
            final(self).name_view() == old(self).name_view(),
            engine_failed(r) || exists|current: Option<Seq<u8>>|
                {
                    &&& #[trigger] updates::<V, E, F>(&f, lookup(old(self).raw(), key@), current)
                    &&& final(self).raw() == put(old(self).raw(), key@, current)
                    &&& reads_as::<V, E>(lookup(old(self).raw(), key@), r)
                },
    {
        let ghost held = lookup(self.raw(), key@);
        let by = &f;
        let g = |found: Option<Vec<u8>>| -> (out: Option<Vec<u8>>)
            ensures
                updates::<V, E, F>(by, bytes_of(found), bytes_of(out)),
            { Self::rewrite(by, found) };
        match tree_fetch_and_update(&mut self.tree, key, g) {
            Ok(previous) => {
                let ghost now = lookup(self.raw(), key@);
                let r = Self::read_back(previous);
                assert(updates::<V, E, F>(&f, held, now));
                r
            },
            Err(e) => Err(TreeError::Sled(e)),
        }
    }

    /// Writes what is pending to disk.
    pub fn flush(&self) -> (r: Result<(), TreeError>)
        ensures
            r matches Err(e) ==> e.is_engine(),
    {
        match tree_flush(&self.tree) {
            Ok(()) => Ok(()),
            Err(e) => Err(TreeError::Sled(e)),
        }
    }

    /// Whether the tree holds `key`.
    pub fn contains_key(&self, key: &[u8]) -> (r: Result<bool, TreeError>)
        ensures
            match r {
                Ok(found) => found == self.raw().contains_key(key@),
                Err(e) => e.is_engine(),
            },
    {
        match tree_contains_key(&self.tree, key) {
            Ok(found) => Ok(found),
            Err(e) => Err(TreeError::Sled(e)),
        }
    }

    /// The entry with the greatest key below `key`.
    pub fn get_lt(&self, key: &[u8]) -> (r: Result<Option<(Vec<u8>, V)>, TreeError>)
        ensures
            engine_failed(r) || exists|found: Option<(Seq<u8>, Seq<u8>)>|
                {
                    &&& #[trigger] reads_entry_as::<V, E>(found, r)
                    &&& match found {
                        Some((k, bytes)) => is_last_before(self.raw(), k, key@) && self.raw()[k]
                            == bytes,
                        None => forall|other: Seq<u8>| #[trigger]
                            self.raw().contains_key(other) ==> !key_lt(other, key@),
                    }
                },
    {
        match tree_get_lt(&self.tree, key) {
            Ok(found) => {
                let r = Self::read_entry_back(found);
                assert(reads_entry_as::<V, E>(entry_of(found), r));
                r
            },
            Err(e) => Err(TreeError::Sled(e)),
        }
    }

    /// The entry with the least key above `key`.
    pub fn get_gt(&self, key: &[u8]) -> (r: Result<Option<(Vec<u8>, V)>, TreeError>)
        ensures
            engine_failed(r) || exists|found: Option<(Seq<u8>, Seq<u8>)>|
                {
                    &&& #[trigger] reads_entry_as::<V, E>(found, r)
                    &&& match found {
                        Some((k, bytes)) => is_first_after(self.raw(), k, key@) && self.raw()[k]
                            == bytes,
                        None => forall|other: Seq<u8>| #[trigger]
                            self.raw().contains_key(other) ==> !key_lt(key@, other),
                    }
                },
    {
        match tree_get_gt(&self.tree, key) {
            Ok(found) => {
                let r = Self::read_entry_back(found);
                assert(reads_entry_as::<V, E>(entry_of(found), r));
                r
            },
            Err(e) => Err(TreeError::Sled(e)),
        }
    }

    /// Removes the entry with the greatest key and returns it.
    ///
    /// Where its value cannot be read, the entry is removed all the same, and the
    /// result is the encoding's error.
    pub fn pop_max(&mut self) -> (r: Result<Option<(Vec<u8>, V)>, TreeError>)
        ensures
            final(self).name_view() == old(self).name_view(),
            engine_failed(r) || exists|found: Option<(Seq<u8>, Seq<u8>)>|
                {
                    &&& #[trigger] reads_entry_as::<V, E>(found, r)
                    &&& match found {
                        Some((k, bytes)) => {
                            &&& is_greatest(old(self).raw(), k)
                            &&& old(self).raw()[k] == bytes
                            &&& final(self).raw() == old(self).raw().remove(k)
                        },
                        None => {
                            &&& old(self).raw() == Map::<Seq<u8>, Seq<u8>>::empty()
                            &&& final(self).raw() == old(self).raw()
                        },
                    }
                },
    {
        match tree_pop_max(&mut self.tree) {
            Ok(found) => {
                let r = Self::read_entry_back(found);
                assert(reads_entry_as::<V, E>(entry_of(found), r));
                r
            },
            Err(e) => Err(TreeError::Sled(e)),
        }
    }

    /// Removes the entry with the least key and returns it.
    ///
    /// Where its value cannot be read, the entry is removed all the same, and the
    /// result is the encoding's error.
    pub fn pop_min(&mut self) -> (r: Result<Option<(Vec<u8>, V)>, TreeError>)
        ensures
            final(self).name_view() == old(self).name_view(),
            engine_failed(r) || exists|found: Option<(Seq<u8>, Seq<u8>)>|
                {
                    &&& #[trigger] reads_entry_as::<V, E>(found, r)
                    &&& match found {
                        Some((k, bytes)) => {
                            &&& is_least(old(self).raw(), k)
                            &&& old(self).raw()[k] == bytes
                            &&& final(self).raw() == old(self).raw().remove(k)
                        },
                        None => {
                            &&& old(self).raw() == Map::<Seq<u8>, Seq<u8>>::empty()
                            &&& final(self).raw() == old(self).raw()
                        },
                    }
                },
    {
        match tree_pop_min(&mut self.tree) {
            Ok(found) => {
                let r = Self::read_entry_back(found);
                assert(reads_entry_as::<V, E>(entry_of(found), r));
                r
            },
            Err(e) => Err(TreeError::Sled(e)),
        }
    }

    /// The number of keys in the tree, counted by a walk over the whole tree. A
    /// read that fails on the way is counted as a key, so the tree holds as many
    /// keys as this says, or fewer.
    pub fn len(&self) -> (r: usize)
        ensures
            has_at_most(self.raw(), r as nat),
    {
        tree_len(&self.tree)
    }

    /// Whether the tree holds no key. Where this says so, it holds none; where a
    /// read fails, this may say otherwise of a tree that holds none.
    pub fn is_empty(&self) -> (r: bool)
        ensures
            r ==> self.raw() == Map::<Seq<u8>, Seq<u8>>::empty(),
    {
        tree_is_empty(&self.tree)
    }

    /// Removes every key. Other users of the tree may see it half cleared.
    pub fn clear(&mut self) -> (r: Result<(), TreeError>)
        ensures
            final(self).name_view() == old(self).name_view(),
            match r {
                Ok(()) => final(self).raw() == Map::<Seq<u8>, Seq<u8>>::empty(),
                Err(e) => e.is_engine(),
            },
    {
        match tree_clear(&mut self.tree) {
            Ok(()) => Ok(()),
            Err(e) => Err(TreeError::Sled(e)),
        }
    }

    /// The name under which the tree was opened.
    pub fn name(&self) -> (r: String)
        ensures
            r@ == self.name_view(),
    {
        self.name.clone()
    }

    /// Applies the writes of `batch` in one step.
    pub fn apply_batch(&mut self, batch: StructuredBatch<V, E>) -> (r: Result<(), TreeError>)
        ensures
            final(self).name_view() == old(self).name_view(),
            match r {
                Ok(()) => final(self).raw() == applied(old(self).raw(), batch.writes()),
                Err(e) => e.is_engine(),
            },
    {
        match tree_apply_batch(&mut self.tree, batch.into_inner()) {
            Ok(()) => Ok(()),
            Err(e) => Err(TreeError::Sled(e)),
        }
    }

    /// A subscription to the writes under keys that start with `prefix`.
    pub fn watch_prefix(&self, prefix: Vec<u8>) -> sled::Subscriber {
        tree_watch_prefix(&self.tree, prefix)
    }

    /// The walk of the database over all entries.
    pub(crate) fn walk_all(&self) -> (r: sled::Iter)
        ensures
            is_scan(iter_rest(r), self.raw(), |key: Seq<u8>| true),
    {
        tree_range(&self.tree, KeyBound::Unbounded, KeyBound::Unbounded)
    }

    /// The walk of the database over the entries whose keys lie between `from`
    /// and `to`.
    pub(crate) fn walk_range(&self, from: KeyBound, to: KeyBound) -> (r: sled::Iter)
        ensures
            is_scan(iter_rest(r), self.raw(), |key: Seq<u8>| within(key, from, to)),
    {
        tree_range(&self.tree, from, to)
    }

    /// The walk of the database over the entries whose keys start with `prefix`.
    pub(crate) fn walk_prefix(&self, prefix: &[u8]) -> (r: sled::Iter)
        ensures
            is_scan(iter_rest(r), self.raw(), |key: Seq<u8>| has_prefix(key, prefix@)),
    {
        tree_scan_prefix(&self.tree, prefix)
    }

    /// A walk over all entries, in the order of their keys.
    pub fn iter<'a>(&'a self) -> (r: StructuredIter<'a, V, E>)
        ensures
            is_scan(r.rest(), self.raw(), |key: Seq<u8>| true),
    {
        StructuredIter::over(self.walk_all(), self)
    }

    /// A walk over the entries whose keys lie between `from` and `to`, in the
    /// order of their keys.
    pub fn range<'a>(&'a self, from: KeyBound, to: KeyBound) -> (r: StructuredIter<'a, V, E>)
        ensures
            is_scan(r.rest(), self.raw(), |key: Seq<u8>| within(key, from, to)),
    {
        StructuredIter::over(self.walk_range(from, to), self)
    }

    /// A walk over the entries whose keys start with `prefix`, in the order of
    /// their keys.
    pub fn scan_prefix<'a>(&'a self, prefix: &[u8]) -> (r: StructuredIter<'a, V, E>)
        ensures
            is_scan(r.rest(), self.raw(), |key: Seq<u8>| has_prefix(key, prefix@)),
    {
        StructuredIter::over(self.walk_prefix(prefix), self)
    }
}

/// Why a transaction was given up.
#[derive(Debug)]
pub enum TransactionError {
    /// The body of the transaction gave it up.
    Abort,
    /// The storage failed.
    Storage(sled::Error),
}

/// What a transaction gives back: the value of its body, or why it was given up.
pub type Transacted<R> = Result<Result<R, TreeError>, TransactionError>;

/// What one run of the body of a transaction gives back: its value, or a conflict
/// or a reason to give the transaction up.
pub type Ran<R> = Result<Result<R, TreeError>, sled::transaction::ConflictableTransactionError<()>>;

/// An error of a run that carries `()` as the same error carrying `carried`:
/// `Abort(())` becomes `Abort(carried)`, and `Conflict` and `Storage` stay what
/// they are.
#[verifier::external_body]
fn carry<L>(e: sled::transaction::ConflictableTransactionError<()>, carried: L) -> (r:
    sled::transaction::ConflictableTransactionError<L>)
{
    match e {
        sled::transaction::ConflictableTransactionError::Abort(()) => {
            sled::transaction::ConflictableTransactionError::Abort(carried)
        },
        sled::transaction::ConflictableTransactionError::Conflict => {
            sled::transaction::ConflictableTransactionError::Conflict
        },
        sled::transaction::ConflictableTransactionError::Storage(e) => {
            sled::transaction::ConflictableTransactionError::Storage(e)
        },
    }
}

/// One run of the body `g` of a transaction, on the tree as the transaction sees
/// it. What the body hands out beside its result is carried along with the
/// result, and with the error where the run gives the transaction up.
pub(crate) fn run_transaction<V: View, E: Encoding<V>, G, R, L>(
    g: &G,
    view: sled::transaction::TransactionalTree,
) -> (r: Result<(Result<R, TreeError>, L), sled::transaction::ConflictableTransactionError<L>>) where
    G: Fn(&mut StructuredTransactionalTree<V, E>) -> (Ran<R>, L),

    requires
        forall|seen: &mut StructuredTransactionalTree<V, E>|
            seen.seen() == txn_entries(view) ==> call_requires(*g, (seen,)),
    ensures
        r matches Ok((inner, carried)) ==> exists|seen: &mut StructuredTransactionalTree<V, E>|
            seen.seen() == txn_entries(view) && call_ensures(
                *g,
                (seen,),
                (
                    Ok::<Result<R, TreeError>, sled::transaction::ConflictableTransactionError<()>>(
                        inner,
                    ),
                    carried,
                ),
            ),
{
    let mut seen = StructuredTransactionalTree {
        tree: view,
        value: PhantomData,
        encoding: PhantomData,
    };
    assert(seen.seen() == txn_entries(view));
    let (ran, carried) = g(&mut seen);
    match ran {
        Ok(inner) => Ok((inner, carried)),
        Err(e) => Err(carry(e, carried)),
    }
}

/// `sled::Tree::transaction`: runs the body on the tree as the transaction sees
/// it, which at first is the tree as it is, and again after each conflict, until
/// a run ends without one. Each run gets the handle that sled lends it as a
/// handle of its own, by `Clone::clone`. Where a run ends well, what the
/// transaction sees at its end is committed to the tree, and the value of the
/// run returned. The transaction is given up only where a run of the body ends
/// with an error, and the tree then stays as it was. In both cases what that run
/// handed out beside its result comes back too; after a failure of the storage
/// nothing comes.
#[verifier::external_body]
fn tree_transaction<V: View, E: Encoding<V>, G, R, L>(tree: &mut sled::Tree, g: &G) -> (r: (
    Transacted<R>,
    Option<L>,
)) where G: Fn(&mut StructuredTransactionalTree<V, E>) -> (Ran<R>, L)
    requires
        forall|seen: &mut StructuredTransactionalTree<V, E>|
            seen.seen() == tree_entries(*old(tree)) ==> call_requires(*g, (seen,)),
    ensures
        r.0 matches Ok(value) ==> exists|seen: &mut StructuredTransactionalTree<V, E>, carried: L|
            {
                &&& seen.seen() == tree_entries(*old(tree))
                &&& call_ensures(
                    *g,
                    (seen,),
                    (
                        Ok::<
                            Result<R, TreeError>,
                            sled::transaction::ConflictableTransactionError<()>,
                        >(value),
                        carried,
                    ),
                )
                &&& r.1 == Some(carried)
                &&& tree_entries(*final(tree)) == final(seen).seen()
            },
        r.0 matches Err(TransactionError::Abort) ==> {
            &&& tree_entries(*final(tree)) == tree_entries(*old(tree))
            &&& exists|
                seen: &mut StructuredTransactionalTree<V, E>,
                given_up: sled::transaction::ConflictableTransactionError<()>,
                carried: L,
            |
                {
                    &&& seen.seen() == tree_entries(*old(tree))
                    &&& call_ensures(
                        *g,
                        (seen,),
                        (
                            Err::<
                                Result<R, TreeError>,
                                sled::transaction::ConflictableTransactionError<()>,
                            >(given_up),
                            carried,
                        ),
                    )
                    &&& r.1 == Some(carried)
                }
        },
{
    match tree.transaction(|view| run_transaction(g, view.clone())) {
        Ok((value, carried)) => (Ok(value), Some(carried)),
        Err(sled::transaction::TransactionError::Abort(carried)) => {
            (Err(TransactionError::Abort), Some(carried))
        },
        Err(sled::transaction::TransactionError::Storage(e)) => {
            (Err(TransactionError::Storage(e)), None)
        },
    }
}

/// One run of the body `g` of a transaction on three trees, as the transaction
/// sees them. What the body hands out beside its result is carried along with
/// the result, and with the error where the run gives the transaction up.
pub(crate) fn run_transaction_on_three<
    V1: View,
    E1: Encoding<V1>,
    V2: View,
    E2: Encoding<V2>,
    V3: View,
    E3: Encoding<V3>,
    G,
    R,
    L,
>(
    g: &G,
    first: sled::transaction::TransactionalTree,
    second: sled::transaction::TransactionalTree,
    third: sled::transaction::TransactionalTree,
) -> (r: Result<(Result<R, TreeError>, L), sled::transaction::ConflictableTransactionError<L>>) where
    G: Fn(
        &mut StructuredTransactionalTree<V1, E1>,
        &mut StructuredTransactionalTree<V2, E2>,
        &mut StructuredTransactionalTree<V3, E3>,
    ) -> (Ran<R>, L),

    requires
        forall|
            a: &mut StructuredTransactionalTree<V1, E1>,
            b: &mut StructuredTransactionalTree<V2, E2>,
            c: &mut StructuredTransactionalTree<V3, E3>,
        |
            a.seen() == txn_entries(first) && b.seen() == txn_entries(second) && c.seen()
                == txn_entries(third) ==> call_requires(*g, (a, b, c)),
    ensures
        r matches Ok((inner, carried)) ==> exists|
            a: &mut StructuredTransactionalTree<V1, E1>,
            b: &mut StructuredTransactionalTree<V2, E2>,
            c: &mut StructuredTransactionalTree<V3, E3>,
        |
            a.seen() == txn_entries(first) && b.seen() == txn_entries(second) && c.seen()
                == txn_entries(third) && call_ensures(
                *g,
                (a, b, c),
                (
                    Ok::<Result<R, TreeError>, sled::transaction::ConflictableTransactionError<()>>(
                        inner,
                    ),
                    carried,
                ),
            ),
{
    let mut a = StructuredTransactionalTree { tree: first, value: PhantomData, encoding: PhantomData };
    let mut b = StructuredTransactionalTree {
        tree: second,
        value: PhantomData,
        encoding: PhantomData,
    };
    let mut c = StructuredTransactionalTree { tree: third, value: PhantomData, encoding: PhantomData };
    let (ran, carried) = g(&mut a, &mut b, &mut c);
    match ran {
        Ok(inner) => Ok((inner, carried)),
        Err(e) => Err(carry(e, carried)),
    }
}

/// `sled::Transactional::transaction` on three trees: as `sled::Tree::transaction`
/// on one, with the three trees changed together or not at all. Each run gets
/// the handles that sled lends it as handles of its own, by `Clone::clone`.
/// Where a run ends well, what the transaction sees of the three trees at its
/// end is committed to them, and the value of the run returned. The
/// transaction is given up only where a run of the body ends with an error, and
/// the trees then stay as they were. In both cases what that run handed out
/// beside its result comes back too; after a failure of the storage nothing
/// comes.
#[verifier::external_body]
fn trees_transaction<
    V1: View,
    E1: Encoding<V1>,
    V2: View,
    E2: Encoding<V2>,
    V3: View,
    E3: Encoding<V3>,
    G,
    R,
    L,
>(
    first: &mut sled::Tree,
    second: &mut sled::Tree,
    third: &mut sled::Tree,
    g: &G,
) -> (r: (Transacted<R>, Option<L>)) where
    G: Fn(
        &mut StructuredTransactionalTree<V1, E1>,
        &mut StructuredTransactionalTree<V2, E2>,
        &mut StructuredTransactionalTree<V3, E3>,
    ) -> (Ran<R>, L),

    requires
        forall|
            a: &mut StructuredTransactionalTree<V1, E1>,
            b: &mut StructuredTransactionalTree<V2, E2>,
            c: &mut StructuredTransactionalTree<V3, E3>,
        |
            a.seen() == tree_entries(*old(first)) && b.seen() == tree_entries(*old(second))
                && c.seen() == tree_entries(*old(third))
                ==> call_requires(*g, (a, b, c)),
    ensures
        r.0 matches Ok(value) ==> exists|
            a: &mut StructuredTransactionalTree<V1, E1>,
            b: &mut StructuredTransactionalTree<V2, E2>,
            c: &mut StructuredTransactionalTree<V3, E3>,
            carried: L,
        |
            {
                &&& a.seen() == tree_entries(*old(first))
                &&& b.seen() == tree_entries(*old(second))
                &&& c.seen() == tree_entries(*old(third))
                &&& call_ensures(
                    *g,
                    (a, b, c),
                    (
                        Ok::<
                            Result<R, TreeError>,
                            sled::transaction::ConflictableTransactionError<()>,
                        >(value),
                        carried,
                    ),
                )
                &&& r.1 == Some(carried)
                &&& tree_entries(*final(first)) == final(a).seen()
                &&& tree_entries(*final(second)) == final(b).seen()
                &&& tree_entries(*final(third)) == final(c).seen()
            },
        r.0 matches Err(TransactionError::Abort) ==> {
            &&& tree_entries(*final(first)) == tree_entries(*old(first))
            &&& tree_entries(*final(second)) == tree_entries(*old(second))
            &&& tree_entries(*final(third)) == tree_entries(*old(third))
            &&& exists|
            a: &mut StructuredTransactionalTree<V1, E1>,
            b: &mut StructuredTransactionalTree<V2, E2>,
            c: &mut StructuredTransactionalTree<V3, E3>,
                given_up: sled::transaction::ConflictableTransactionError<()>,
                carried: L,
            |
                {
                    &&& a.seen() == tree_entries(*old(first))
                    &&& b.seen() == tree_entries(*old(second))
                    &&& c.seen() == tree_entries(*old(third))
                    &&& call_ensures(
                        *g,
                        (a, b, c),
                        (
                            Err::<
                                Result<R, TreeError>,
                                sled::transaction::ConflictableTransactionError<()>,
                            >(given_up),
                            carried,
                        ),
                    )
                    &&& r.1 == Some(carried)
                }
        },
{
    let trees = (&*first, &*second, &*third);
    match sled::Transactional::transaction(
        &trees,
        |views| run_transaction_on_three(g, views.0.clone(), views.1.clone(), views.2.clone()),
    ) {
        Ok((value, carried)) => (Ok(value), Some(carried)),
        Err(sled::transaction::TransactionError::Abort(carried)) => {
            (Err(TransactionError::Abort), Some(carried))
        },
        Err(sled::transaction::TransactionError::Storage(e)) => {
            (Err(TransactionError::Storage(e)), None)
        },
    }
}

/// Runs `g` as one transaction on three trees, and hands back what the last run
/// of `g` handed out beside its result. All that `g` writes to the three trees
/// reaches them together, or nothing does. Whether the transaction ends well is
/// for `g` and the database to decide.
pub(crate) fn transaction_on_three<
    V1: View,
    E1: Encoding<V1>,
    V2: View,
    E2: Encoding<V2>,
    V3: View,
    E3: Encoding<V3>,
    G,
    R,
    L,
>(
    first: &mut StructuredTree<V1, E1>,
    second: &mut StructuredTree<V2, E2>,
    third: &mut StructuredTree<V3, E3>,
    g: &G,
) -> (r: (Transacted<R>, Option<L>)) where
    G: Fn(
        &mut StructuredTransactionalTree<V1, E1>,
        &mut StructuredTransactionalTree<V2, E2>,
        &mut StructuredTransactionalTree<V3, E3>,
    ) -> (Ran<R>, L),

    requires
        forall|
            a: &mut StructuredTransactionalTree<V1, E1>,
            b: &mut StructuredTransactionalTree<V2, E2>,
            c: &mut StructuredTransactionalTree<V3, E3>,
        |
            a.seen() == old(first).raw() && b.seen() == old(second).raw() && c.seen() == old(third).raw()
                ==> call_requires(*g, (a, b, c)),
    ensures
        final(first).name_view() == old(first).name_view(),
        final(second).name_view() == old(second).name_view(),
        final(third).name_view() == old(third).name_view(),
        r.0 matches Ok(value) ==> exists|
            a: &mut StructuredTransactionalTree<V1, E1>,
            b: &mut StructuredTransactionalTree<V2, E2>,
            c: &mut StructuredTransactionalTree<V3, E3>,
            carried: L,
        |
            {
                &&& a.seen() == old(first).raw()
                &&& b.seen() == old(second).raw()
                &&& c.seen() == old(third).raw()
                &&& call_ensures(
                    *g,
                    (a, b, c),
                    (
                        Ok::<
                            Result<R, TreeError>,
                            sled::transaction::ConflictableTransactionError<()>,
                        >(value),
                        carried,
                    ),
                )
                &&& r.1 == Some(carried)
                &&& final(first).raw() == final(a).seen()
                &&& final(second).raw() == final(b).seen()
                &&& final(third).raw() == final(c).seen()
            },
        r.0 matches Err(TransactionError::Abort) ==> {
            &&& final(first).raw() == old(first).raw()
            &&& final(second).raw() == old(second).raw()
            &&& final(third).raw() == old(third).raw()
            &&& exists|
            a: &mut StructuredTransactionalTree<V1, E1>,
            b: &mut StructuredTransactionalTree<V2, E2>,
            c: &mut StructuredTransactionalTree<V3, E3>,
                given_up: sled::transaction::ConflictableTransactionError<()>,
                carried: L,
            |
                {
                    &&& a.seen() == old(first).raw()
                    &&& b.seen() == old(second).raw()
                    &&& c.seen() == old(third).raw()
                    &&& call_ensures(
                        *g,
                        (a, b, c),
                        (
                            Err::<
                                Result<R, TreeError>,
                                sled::transaction::ConflictableTransactionError<()>,
                            >(given_up),
                            carried,
                        ),
                    )
                    &&& r.1 == Some(carried)
                }
        },
{
    trees_transaction(&mut first.tree, &mut second.tree, &mut third.tree, g)
}

impl<V: View, E: Encoding<V>> StructuredTree<'_, V, E> {
    /// Runs `g` as a transaction on the tree, and hands back what the last run of
    /// `g` handed out beside its result: see `transaction`.
    pub(crate) fn transaction_carrying<G, R, L>(&mut self, g: &G) -> (r: (Transacted<R>, Option<L>))
        where G: Fn(&mut StructuredTransactionalTree<V, E>) -> (Ran<R>, L)
        requires
            forall|seen: &mut StructuredTransactionalTree<V, E>|
                seen.seen() == old(self).raw() ==> call_requires(*g, (seen,)),
        ensures
            final(self).name_view() == old(self).name_view(),
            r.0 matches Ok(value) ==> exists|
                seen: &mut StructuredTransactionalTree<V, E>,
                carried: L,
            |
                {
                    &&& seen.seen() == old(self).raw()
                    &&& call_ensures(
                        *g,
                        (seen,),
                        (
                            Ok::<
                                Result<R, TreeError>,
                                sled::transaction::ConflictableTransactionError<()>,
                            >(value),
                            carried,
                        ),
                    )
                    &&& r.1 == Some(carried)
                    &&& final(self).raw() == final(seen).seen()
                },
            r.0 matches Err(TransactionError::Abort) ==> {
                &&& final(self).raw() == old(self).raw()
                &&& exists|
                    seen: &mut StructuredTransactionalTree<V, E>,
                    given_up: sled::transaction::ConflictableTransactionError<()>,
                    carried: L,
                |
                    {
                        &&& seen.seen() == old(self).raw()
                        &&& call_ensures(
                            *g,
                            (seen,),
                            (
                                Err::<
                                    Result<R, TreeError>,
                                    sled::transaction::ConflictableTransactionError<()>,
                                >(given_up),
                                carried,
                            ),
                        )
                        &&& r.1 == Some(carried)
                    }
            },
    {
        tree_transaction(&mut self.tree, g)
    }

    /// Runs `g` as a transaction on the tree: all of its writes reach the tree, or
    /// none. `g` is run again after each conflict, so it may run more than once.
    ///
    /// Where a run ends well, the tree holds what the transaction saw at the end
    /// of that run. The transaction is given up only where a run of `g` ends with
    /// an error, and the tree then stays as it was. Whether the transaction ends
    /// well is for `g` and the database to decide.
    ///
    /// `g` is to work through the view that it is given: the database lets no
    /// tree be read or written from elsewhere while a transaction runs, and a
    /// call to another tree from within `g` does not return.
    pub fn transaction<G, R>(&mut self, g: G) -> (r: Transacted<R>) where
        G: Fn(&mut StructuredTransactionalTree<V, E>) -> Ran<R>,

        requires
            forall|seen: &mut StructuredTransactionalTree<V, E>|
                seen.seen() == old(self).raw() ==> call_requires(g, (seen,)),
        ensures
            final(self).name_view() == old(self).name_view(),
            r matches Ok(value) ==> exists|seen: &mut StructuredTransactionalTree<V, E>|
                {
                    &&& seen.seen() == old(self).raw()
                    &&& call_ensures(
                        g,
                        (seen,),
                        Ok::<
                            Result<R, TreeError>,
                            sled::transaction::ConflictableTransactionError<()>,
                        >(value),
                    )
                    &&& final(self).raw() == final(seen).seen()
                },
            r matches Err(TransactionError::Abort) ==> {
                &&& final(self).raw() == old(self).raw()
                &&& exists|
                    seen: &mut StructuredTransactionalTree<V, E>,
                    given_up: sled::transaction::ConflictableTransactionError<()>,
                |
                    seen.seen() == old(self).raw() && call_ensures(
                        g,
                        (seen,),
                        Err::<
                            Result<R, TreeError>,
                            sled::transaction::ConflictableTransactionError<()>,
                        >(given_up),
                    )
            },
    {
        let run = &g;
        let ghost start = *self;
        let body = |seen: &mut StructuredTransactionalTree<V, E>| -> (out: (Ran<R>, ()))
            requires
                old(seen).seen() == start.raw(),
            ensures
                exists|inner: &mut StructuredTransactionalTree<V, E>|
                    {
                        &&& inner.seen() == start.raw()
                        &&& call_ensures(*run, (inner,), out.0)
                        &&& final(inner).seen() == final(seen).seen()
                    },
            {
                let mut inner = seen.handle();
                let ran = run(&mut inner);
                *seen = inner;
                (ran, ())
            };
        self.transaction_carrying(&body).0
    }
}

/// `inner` and `after` are what a write or a read of a value in a transaction
/// gives and leaves, where `done` tells what the write does to the stored bytes
/// `held`.
pub open spec fn answers<V: View, E: Encoding<V>>(
    before: Map<Seq<u8>, Seq<u8>>,
    after: Map<Seq<u8>, Seq<u8>>,
    key: Seq<u8>,
    done: Map<Seq<u8>, Seq<u8>>,
    inner: Result<Option<V>, TreeError>,
) -> bool {
    after == done && reads_as::<V, E>(lookup(before, key), inner)
}

impl<V: View, E: Encoding<V>> StructuredTransactionalTree<V, E> {
    /// The bytes under each key as the transaction sees them: what the tree held
    /// when the transaction began, changed by what the transaction has written.
    pub closed spec fn seen(&self) -> Map<Seq<u8>, Seq<u8>> {
        txn_entries(self.tree)
    }

    /// One more handle on the tree as the transaction sees it. It takes the
    /// place of `self`, of which nothing is known from here on.
    pub(crate) fn handle(&mut self) -> (r: Self)
        ensures
            r.seen() == old(self).seen(),
    {
        StructuredTransactionalTree {
            tree: txn_take(&mut self.tree),
            value: PhantomData,
            encoding: PhantomData,
        }
    }

    /// What the database answered to a read or a write within a transaction,
    /// with the value read: its error as it came, and else what reading the bytes
    /// that it found gives.
    pub fn read_answer(
        answer: Result<Option<Vec<u8>>, sled::transaction::ConflictableTransactionError<()>>,
    ) -> (r: Ran<Option<V>>)
        ensures
            match answer {
                Ok(found) => r matches Ok(inner) && reads_as::<V, E>(bytes_of(found), inner),
                Err(e) => r == Err::<
                    Result<Option<V>, TreeError>,
                    sled::transaction::ConflictableTransactionError<()>,
                >(e),
            },
    {
        match answer {
            Ok(found) => Ok(StructuredTree::<V, E>::read_back(found)),
            Err(e) => Err(e),
        }
    }

    /// Stores `value` under `key` within the transaction, and returns what the
    /// key held as the transaction sees it. A value that cannot be written is
    /// refused, and nothing changes.
    pub fn insert(&mut self, key: Vec<u8>, value: V) -> (r: Ran<Option<V>>)
        ensures
            match E::encoding(value@) {
                None => final(self).seen() == old(self).seen() && (r matches Ok(inner)
                    && encoding_failed(inner)),
                Some(bytes) => r matches Ok(inner) ==> answers::<V, E>(
                    old(self).seen(),
                    final(self).seen(),
                    key@,
                    old(self).seen().insert(key@, bytes),
                    inner,
                ),
            },
    {
        let bytes = match E::encode(&value) {
            Ok(bytes) => bytes,
            Err(e) => {
                return Ok(Err(e));
            },
        };
        Self::read_answer(txn_insert(&mut self.tree, key, bytes))
    }

    /// Removes `key` within the transaction, and returns what the key held as the
    /// transaction sees it. Whether it succeeds is for the database to decide.
    pub fn remove(&mut self, key: Vec<u8>) -> (r: Ran<Option<V>>)
        ensures
            r matches Ok(inner) ==> answers::<V, E>(
                old(self).seen(),
                final(self).seen(),
                key@,
                old(self).seen().remove(key@),
                inner,
            ),
    {
        Self::read_answer(txn_remove(&mut self.tree, key))
    }

    /// What `key` holds as the transaction sees it. Whether the read succeeds is
    /// for the database to decide.
    pub fn get(&self, key: &[u8]) -> (r: Ran<Option<V>>)
        ensures
            r matches Ok(inner) ==> reads_as::<V, E>(lookup(self.seen(), key@), inner),
    {
        Self::read_answer(txn_get(&self.tree, key))
    }

    /// Makes the writes of `batch` within the transaction. The result is the
    /// answer of the database as it came.
    pub fn apply_batch(&mut self, batch: StructuredBatch<V, E>) -> (r: Result<
        (),
        sled::transaction::ConflictableTransactionError<()>,
    >)
        ensures
            r is Ok ==> final(self).seen() == applied(old(self).seen(), batch.writes()),
    {
        txn_apply_batch(&mut self.tree, batch.as_inner())
    }

    /// Replaces what `key` holds within the transaction by what `f` makes of it,
    /// and returns the new value. Whether the outer result is `Ok` is for the
    /// database to decide.
    pub(crate) fn update_and_fetch<F: Fn(Option<V>) -> Option<V>>(&mut self, key: &[u8], f: F) -> (r:
        Ran<Option<V>>)
        requires
            forall|given: Option<V>| call_requires(f, (given,)),
        ensures
            r matches Ok(inner) ==> exists|current: Option<Seq<u8>>|
                {
                    &&& #[trigger] updates::<V, E, F>(&f, lookup(old(self).seen(), key@), current)
                    &&& final(self).seen() == put(old(self).seen(), key@, current)
                    &&& reads_as::<V, E>(current, inner)
                },
    {
        let ghost held = lookup(self.seen(), key@);
        let found = match txn_get(&self.tree, key) {
            Ok(found) => found,
            Err(e) => {
                return Err(e);
            },
        };
        let current = StructuredTree::<V, E>::rewrite(&f, found);
        let ghost now = bytes_of(current);
        let at = vstd::slice::slice_to_vec(key);
        let written = match current {
            Some(bytes) => {
                let copy = vstd::slice::slice_to_vec(bytes.as_slice());
                match txn_insert(&mut self.tree, at, bytes) {
                    Ok(_) => Some(copy),
                    Err(e) => {
                        return Err(e);
                    },
                }
            },
            None => match txn_remove(&mut self.tree, at) {
                Ok(_) => None,
                Err(e) => {
                    return Err(e);
                },
            },
        };
        let inner = StructuredTree::<V, E>::read_back(written);
        assert(updates::<V, E, F>(&f, held, now));
        Ok(inner)
    }
}

} // verus!
