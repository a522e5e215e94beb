//! A tree that keeps, for each key, the time at which it expires.
//!
//! Beside the tree of values stand the two trees of expiry times. Storing,
//! reading and removing a value renew or forget the expiry of its key, as the
//! settings of the tree say, and the expired keys are found by walking the
//! buckets from the earliest time up to the present.

use vstd::prelude::*;
use vstd::string::StringExecFns;
use std::marker::PhantomData;
use crate::bytes::{has_prefix, is_scan, key_lt, lookup, put, within, KeyBound};
use crate::consistency::{
    can_take, consistent, expiry_of, faithful, in_bucket, lemma_expired_are_due,
    lemma_forget_keeps_agreement, lemma_refresh_keeps_agreement,
};
use crate::encoding::{view_of, Encoding};
use crate::engine::{
    applied, has_at_most, is_first_after, is_greatest, is_last_before, is_least,
};
use crate::error::TreeError;
use crate::expiring_batch::ExpiringBatch;
use crate::expiring_iter::ExpiringIter;
use crate::expiring_transaction::ExpiringTransactionalTree;
use crate::expiry::{
    after_write, expired_in, forget_expiry, forgotten, held_by, is_due, notes_of, refreshed,
    refreshed_all, refreshed_all_if, refreshed_if, renew_expiry, seen_by, settled, unreadable,
    Expirations, Note,
};
use crate::key_set::{key_views, KeySet};
use crate::store::Store;
use crate::structured_iter::reads_item_as;
use crate::structured_tree::{
    encoding_failed, engine_failed, reads_as, reads_entry_as, swapped, transaction_on_three,
    unwritable, updates, CompareAndSwapError, Ran, StructuredTransactionalTree, StructuredTree,
    Transacted, TransactionError,
};
use crate::time::{Duration, Timestamp};

verus! {

/// A tree of values of type `V`, written by the encoding `F`, with the expiry
/// times of its keys, written by the encoding `E`.
pub struct ExpiringTree<'s, V, E, F> {
    data: StructuredTree<'s, V, F>,
    expires_at: StructuredTree<'s, Timestamp, E>,
    expires_at_inverse: StructuredTree<'s, KeySet, E>,
    extend_on_update: bool,
    extend_on_fetch: bool,
    expiration_length: Duration,
}

/// The settings of an expiring tree that is yet to be opened: whether storing and
/// reading renew the expiry of a key, and how long after its renewal a key
/// expires.
pub struct ExpiringTreeBuilder<V, E, F> {
    data: String,
    extend_on_update: bool,
    extend_on_fetch: bool,
    expiration_length: Duration,
    value: PhantomData<V>,
    encoding: PhantomData<E>,
    data_encoding: PhantomData<F>,
}

/// `r` and `after` are what a read of the stored bytes `held` gives when the
/// step `then` on the expiry times follows it.
///
/// Where `held` cannot be read, the encoding's error comes and the step is not
/// taken. Else the step is taken; where it fails, the encoding's error comes,
/// and where it succeeds, the value that was read.
pub open spec fn followed_by<V: View, F: Encoding<V>>(
    held: Option<Seq<u8>>,
    before: Expirations,
    then: (Expirations, bool),
    after: Expirations,
    r: Result<Option<V>, TreeError>,
) -> bool {
    if unreadable::<V, F>(held) {
        encoding_failed(r) && after == before
    } else {
        &&& after == then.0
        &&& if then.1 {
            reads_as::<V, F>(held, r)
        } else {
            encoding_failed(r)
        }
    }
}

/// As `followed_by`, for an entry that was found with its key.
pub open spec fn entry_followed_by<V: View, F: Encoding<V>>(
    found: Option<(Seq<u8>, Seq<u8>)>,
    before: Expirations,
    then: (Expirations, bool),
    after: Expirations,
    r: Result<Option<(Vec<u8>, V)>, TreeError>,
) -> bool {
    if found matches Some((_, bytes)) && F::decoding(bytes) is None {
        encoding_failed(r) && after == before
    } else {
        &&& after == then.0
        &&& if then.1 {
            reads_entry_as::<V, F>(found, r)
        } else {
            encoding_failed(r)
        }
    }
}

impl<'s, V: View, E: Encoding<Timestamp> + Encoding<KeySet>, F: Encoding<V>> ExpiringTree<
    's,
    V,
    E,
    F,
> {
    /// The bytes that the tree of values holds under each key.
    pub closed spec fn data(&self) -> Map<Seq<u8>, Seq<u8>> {
        self.data.raw()
    }

    /// What the two trees of expiry times hold.
    pub closed spec fn expirations(&self) -> Expirations {
        held_by(self.expires_at, self.expires_at_inverse)
    }

    /// Whether storing a value renews the expiry of its key.
    pub closed spec fn extends_on_update(&self) -> bool {
        self.extend_on_update
    }

    /// Whether reading a value renews the expiry of its key.
    pub closed spec fn extends_on_fetch(&self) -> bool {
        self.extend_on_fetch
    }

    /// How long after its renewal a key expires.
    pub closed spec fn length(&self) -> Duration {
        self.expiration_length
    }

    /// The name under which the tree of values was opened.
    pub closed spec fn name_view(&self) -> Seq<char> {
        self.data.name_view()
    }

    /// The name under which the tree of the times was opened.
    pub closed spec fn expires_at_name(&self) -> Seq<char> {
        self.expires_at.name_view()
    }

    /// The name under which the tree of the buckets was opened.
    pub closed spec fn expires_at_inverse_name(&self) -> Seq<char> {
        self.expires_at_inverse.name_view()
    }

    /// Whether reading a value renews the expiry of its key.
    pub(crate) fn renews_on_fetch(&self) -> (r: bool)
        ensures
            r == self.extends_on_fetch(),
    {
        self.extend_on_fetch
    }

    /// The settings and the names are the same in `self` and `other`.
    pub open spec fn same_settings(&self, other: &Self) -> bool {
        &&& self.extends_on_update() == other.extends_on_update()
        &&& self.extends_on_fetch() == other.extends_on_fetch()
        &&& self.length() == other.length()
        &&& self.name_view() == other.name_view()
        &&& self.expires_at_name() == other.expires_at_name()
        &&& self.expires_at_inverse_name() == other.expires_at_inverse_name()
    }

    /// Forgets the expiry of `key`: removes its time, and takes it out of the
    /// bucket of that time, which goes when it was its last key.
    pub fn remove_expires_at(&mut self, key: &[u8]) -> (r: Result<(), TreeError>)
        ensures
            final(self).same_settings(old(self)),
            final(self).data() == old(self).data(),
            engine_failed(r) || {
                &&& final(self).expirations() == forgotten::<E>(old(self).expirations(), key@).0
                &&& r is Ok == forgotten::<E>(old(self).expirations(), key@).1
            },
            faithful::<E>() && consistent::<E>(old(self).expirations()) ==> engine_failed(r) || {
                &&& r is Ok
                &&& consistent::<E>(final(self).expirations())
                &&& !final(self).expirations().expires_at.contains_key(key@)
                &&& forall|text: Seq<u8>| !#[trigger] in_bucket::<E>(final(self).expirations(), text, key@)
            },
    {
        proof {
            if faithful::<E>() && consistent::<E>(self.expirations()) {
                lemma_forget_keeps_agreement::<E>(self.expirations(), key@);
            }
        }
        forget_expiry(&mut self.expires_at, &mut self.expires_at_inverse, key)
    }

    /// Sets the expiry of `key` to `now` and the length of the tree: stores the
    /// time under the key, takes the key out of the bucket of its time before,
    /// and puts it into the bucket of the new time.
    pub fn update_expires_at(&mut self, key: &[u8], now: &Timestamp) -> (r: Result<(), TreeError>)
        ensures
            final(self).same_settings(old(self)),
            final(self).data() == old(self).data(),
            <E as Encoding<Timestamp>>::encoding(now.shifted(old(self).length())) is None
                ==> encoding_failed(r) && final(self).expirations() == old(self).expirations(),
            engine_failed(r) || {
                &&& final(self).expirations() == refreshed::<E>(
                    old(self).expirations(),
                    key@,
                    now.shifted(old(self).length()),
                ).0
                &&& r is Ok == refreshed::<E>(
                    old(self).expirations(),
                    key@,
                    now.shifted(old(self).length()),
                ).1
            },
            faithful::<E>() && consistent::<E>(old(self).expirations()) && can_take::<E>(
                old(self).expirations(),
                key@,
            ) ==> engine_failed(r) || {
                &&& r is Ok
                &&& consistent::<E>(final(self).expirations())
                &&& expiry_of::<E>(final(self).expirations(), key@) == Some(
                    now.shifted(old(self).length()),
                )
                &&& forall|text: Seq<u8>| #[trigger]
                    in_bucket::<E>(final(self).expirations(), text, key@) <==> text == now.shifted(
                        old(self).length(),
                    ).text()
            },
    {
        proof {
            use_type_invariant(now);
            Timestamp::lemma_at_offset_valid(now.offset() + self.length().total());
            if faithful::<E>() && consistent::<E>(self.expirations()) && can_take::<E>(
                self.expirations(),
                key@,
            ) {
                lemma_refresh_keeps_agreement::<E>(
                    self.expirations(),
                    key@,
                    now.shifted(self.length()),
                );
            }
        }
        renew_expiry(
            &mut self.expires_at,
            &mut self.expires_at_inverse,
            &self.expiration_length,
            key,
            now,
        )
    }

    /// What `insert_at` gives and leaves.
    ///
    /// A value that cannot be written fails, and nothing changes. Else the value
    /// is stored, and the expiry of the key is renewed where the tree extends on
    /// update.
    pub open spec fn inserted(
        before: Self,
        after: Self,
        key: Seq<u8>,
        value: V::V,
        now: Timestamp,
        r: Result<Option<V>, TreeError>,
    ) -> bool {
        match F::encoding(value) {
            None => encoding_failed(r) && after.data() == before.data() && after.expirations()
                == before.expirations(),
            Some(bytes) => {
                &&& after.data() == before.data().insert(key, bytes)
                &&& followed_by::<V, F>(
                    lookup(before.data(), key),
                    before.expirations(),
                    refreshed_if::<E>(
                        before.extends_on_update(),
                        before.expirations(),
                        key,
                        now.shifted(before.length()),
                    ),
                    after.expirations(),
                    r,
                )
            },
        }
    }

    /// Stores `value` under `key` at the time `now`, and returns what was stored
    /// there before.
    pub fn insert_at(&mut self, key: &[u8], value: V, now: &Timestamp) -> (r: Result<
        Option<V>,
        TreeError,
    >)
        ensures
            final(self).same_settings(old(self)),
            F::encoding(value@) is None ==> encoding_failed(r) && final(self).data() == old(self).data()
                && final(self).expirations() == old(self).expirations(),
            engine_failed(r) || Self::inserted(*old(self), *final(self), key@, value@, *now, r),
            faithful::<E>() && consistent::<E>(old(self).expirations()) && can_take::<E>(
                old(self).expirations(),
                key@,
            ) && r is Ok ==> {
                &&& consistent::<E>(final(self).expirations())
                &&& old(self).extends_on_update() ==> forall|text: Seq<u8>| #[trigger]
                    in_bucket::<E>(final(self).expirations(), text, key@) <==> text == now.shifted(
                        old(self).length(),
                    ).text()
            },
    {
        let previous = match self.data.insert(key, value) {
            Ok(previous) => previous,
            Err(e) => {
                return Err(e);
            },
        };
        if self.extend_on_update {
            match self.update_expires_at(key, now) {
                Ok(()) => {},
                Err(e) => {
                    return Err(e);
                },
            }
        }
        Ok(previous)
    }

    /// Stores `value` under `key` and returns what was stored there before. The
    /// expiry of the key is renewed from the clock where the tree extends on
    /// update.
    pub fn insert(&mut self, key: &[u8], value: V) -> (r: Result<Option<V>, TreeError>)
        ensures
            final(self).same_settings(old(self)),
            F::encoding(value@) is None ==> encoding_failed(r) && final(self).data() == old(self).data()
                && final(self).expirations() == old(self).expirations(),
            engine_failed(r) || exists|now: Timestamp|
                now.is_valid() && #[trigger] Self::inserted(
                    *old(self),
                    *final(self),
                    key@,
                    value@,
                    now,
                    r,
                ),
    {
        let now = Timestamp::now();
        self.insert_at(key, value, &now)
    }

    /// What `remove` gives and leaves: the key is gone, and so is its expiry.
    pub open spec fn removed(
        before: Self,
        after: Self,
        key: Seq<u8>,
        r: Result<Option<V>, TreeError>,
    ) -> bool {
        &&& after.data() == before.data().remove(key)
        &&& followed_by::<V, F>(
            lookup(before.data(), key),
            before.expirations(),
            forgotten::<E>(before.expirations(), key),
            after.expirations(),
            r,
        )
    }

    /// Removes `key` with its expiry, and returns what was stored under it.
    pub fn remove(&mut self, key: &[u8]) -> (r: Result<Option<V>, TreeError>)
        ensures
            final(self).same_settings(old(self)),
            engine_failed(r) || Self::removed(*old(self), *final(self), key@, r),
            faithful::<E>() && consistent::<E>(old(self).expirations()) && r is Ok ==> {
                &&& consistent::<E>(final(self).expirations())
                &&& !final(self).data().contains_key(key@)
                &&& !final(self).expirations().expires_at.contains_key(key@)
                &&& forall|text: Seq<u8>| !#[trigger] in_bucket::<E>(final(self).expirations(), text, key@)
            },
    {
        proof {
            if faithful::<E>() && consistent::<E>(self.expirations()) {
                lemma_forget_keeps_agreement::<E>(self.expirations(), key@);
            }
        }
        let previous = match self.data.remove(key) {
            Ok(previous) => previous,
            Err(e) => {
                return Err(e);
            },
        };
        match self.remove_expires_at(key) {
            Ok(()) => Ok(previous),
            Err(e) => Err(e),
        }
    }

    /// What `get_at` gives and leaves: the values stay, and the expiry of the key
    /// is renewed where the tree extends on fetch, whether the key holds a value
    /// or not.
    pub open spec fn fetched(
        before: Self,
        after: Self,
        key: Seq<u8>,
        now: Timestamp,
        r: Result<Option<V>, TreeError>,
    ) -> bool {
        &&& after.data() == before.data()
        &&& followed_by::<V, F>(
            lookup(before.data(), key),
            before.expirations(),
            refreshed_if::<E>(
                before.extends_on_fetch(),
                before.expirations(),
                key,
                now.shifted(before.length()),
            ),
            after.expirations(),
            r,
        )
    }

    /// The value stored under `key`, read at the time `now`.
    pub fn get_at(&mut self, key: &[u8], now: &Timestamp) -> (r: Result<Option<V>, TreeError>)
        ensures
            final(self).same_settings(old(self)),
            final(self).data() == old(self).data(),
            engine_failed(r) || Self::fetched(*old(self), *final(self), key@, *now, r),
    {
        let found = match self.data.get(key) {
            Ok(found) => found,
            Err(e) => {
                return Err(e);
            },
        };
        if self.extend_on_fetch {
            match self.update_expires_at(key, now) {
                Ok(()) => {},
                Err(e) => {
                    return Err(e);
                },
            }
        }
        Ok(found)
    }

    /// The value stored under `key`. The expiry of the key is renewed from the
    /// clock where the tree extends on fetch.
    pub fn get(&mut self, key: &[u8]) -> (r: Result<Option<V>, TreeError>)
        ensures
            final(self).same_settings(old(self)),
            final(self).data() == old(self).data(),
            engine_failed(r) || exists|now: Timestamp|
                now.is_valid() && #[trigger] Self::fetched(*old(self), *final(self), key@, now, r),
    {
        let now = Timestamp::now();
        self.get_at(key, &now)
    }

    /// What `compare_and_swap_at` gives and leaves.
    ///
    /// The values change as in a compare-and-swap on the tree of values. Where it
    /// wrote, the expiry of the key is forgotten if no value was proposed, and
    /// renewed if a value was proposed and the tree extends on update.
    pub open spec fn swapped_at(
        before: Self,
        after: Self,
        key: Seq<u8>,
        expected: Option<V::V>,
        proposed: Option<V::V>,
        now: Timestamp,
        r: Result<Result<(), CompareAndSwapError<V>>, TreeError>,
    ) -> bool {
        exists|first: Result<Result<(), CompareAndSwapError<V>>, TreeError>|
            {
                &&& #[trigger] swapped::<V, F>(
                    before.data(),
                    after.data(),
                    key,
                    expected,
                    proposed,
                    first,
                )
                &&& match first {
                    Ok(Ok(())) => {
                        let then = after_write::<E>(
                            proposed is Some,
                            before.extends_on_update(),
                            before.expirations(),
                            key,
                            now.shifted(before.length()),
                        );
                        &&& after.expirations() == then.0
                        &&& if then.1 {
                            r matches Ok(Ok(()))
                        } else {
                            encoding_failed(r)
                        }
                    },
                    _ => after.expirations() == before.expirations() && r == first,
                }
            }
    }

    /// Stores `proposed` under `key` if the key holds `expected`, at the time
    /// `now`, and tells otherwise what it holds.
    pub fn compare_and_swap_at(
        &mut self,
        key: &[u8],
        expected: Option<V>,
        proposed: Option<V>,
        now: &Timestamp,
    ) -> (r: Result<Result<(), CompareAndSwapError<V>>, TreeError>)
        ensures
            final(self).same_settings(old(self)),
            unwritable::<V, F>(view_of(expected)) || unwritable::<V, F>(view_of(proposed))
                ==> encoding_failed(r) && final(self).data() == old(self).data()
                && final(self).expirations() == old(self).expirations(),
            engine_failed(r) || Self::swapped_at(
                *old(self),
                *final(self),
                key@,
                view_of(expected),
                view_of(proposed),
                *now,
                r,
            ),
    {
        let to_delete = proposed.is_none();
        let to_update = proposed.is_some();
        let res = match self.data.compare_and_swap(key, expected, proposed) {
            Ok(res) => res,
            Err(e) => {
                let r = Err(e);
                assert(engine_failed(r) || swapped::<V, F>(
                    old(self).data(),
                    self.data(),
                    key@,
                    view_of(expected),
                    view_of(proposed),
                    r,
                ));
                return r;
            },
        };
        let ghost first: Result<Result<(), CompareAndSwapError<V>>, TreeError> = Ok(res);
        assert(swapped::<V, F>(
            old(self).data(),
            self.data(),
            key@,
            view_of(expected),
            view_of(proposed),
            first,
        ));
        let success = res.is_ok();
        if to_delete && success {
            match self.remove_expires_at(key) {
                Ok(()) => {},
                Err(e) => {
                    return Err(e);
                },
            }
        } else if to_update && success && self.extend_on_update {
            match self.update_expires_at(key, now) {
                Ok(()) => {},
                Err(e) => {
                    return Err(e);
                },
            }
        }
        Ok(res)
    }

    /// Stores `proposed` under `key` if the key holds `expected`, and tells
    /// otherwise what it holds. `None` for `expected` stands for a key that holds
    /// nothing, `None` for `proposed` for removing the key. The expiry of the key
    /// follows from the clock.
    pub fn compare_and_swap(&mut self, key: &[u8], expected: Option<V>, proposed: Option<V>) -> (r:
        Result<Result<(), CompareAndSwapError<V>>, TreeError>)
        ensures
            final(self).same_settings(old(self)),
            unwritable::<V, F>(view_of(expected)) || unwritable::<V, F>(view_of(proposed))
                ==> encoding_failed(r) && final(self).data() == old(self).data()
                && final(self).expirations() == old(self).expirations(),
            engine_failed(r) || exists|now: Timestamp|
                now.is_valid() && #[trigger] Self::swapped_at(
                    *old(self),
                    *final(self),
                    key@,
                    view_of(expected),
                    view_of(proposed),
                    now,
                    r,
                ),
    {
        let now = Timestamp::now();
        self.compare_and_swap_at(key, expected, proposed, &now)
    }

    /// What `update_and_fetch_at` gives and leaves.
    ///
    /// The key holds what `f` made of the bytes it held. Where that is a value,
    /// the expiry of the key is renewed if the tree extends on update, and left
    /// as it is if not; where it is no value, the expiry is forgotten.
    pub open spec fn updated<G: Fn(Option<V>) -> Option<V>>(
        before: Self,
        after: Self,
        key: Seq<u8>,
        f: &G,
        now: Timestamp,
        r: Result<Option<V>, TreeError>,
    ) -> bool {
        exists|current: Option<Seq<u8>>|
            {
                &&& #[trigger] updates::<V, F, G>(f, lookup(before.data(), key), current)
                &&& after.data() == put(before.data(), key, current)
                &&& followed_by::<V, F>(
                    current,
                    before.expirations(),
                    after_write::<E>(
                        current is Some,
                        before.extends_on_update(),
                        before.expirations(),
                        key,
                        now.shifted(before.length()),
                    ),
                    after.expirations(),
                    r,
                )
            }
    }

    /// Replaces what `key` holds by what `f` makes of it, at the time `now`, and
    /// returns the new value. `f` may be called more than once.
    pub fn update_and_fetch_at<G: Fn(Option<V>) -> Option<V>>(
        &mut self,
        key: &[u8],
        f: G,
        now: &Timestamp,
    ) -> (r: Result<Option<V>, TreeError>)
        requires
            forall|given: Option<V>| call_requires(f, (given,)),
        ensures
            final(self).same_settings(old(self)),
            engine_failed(r) || Self::updated(*old(self), *final(self), key@, &f, *now, r),
    {
        let current = match self.data.update_and_fetch(key, f) {
            Ok(current) => current,
            Err(e) => {
                return Err(e);
            },
        };
        let done = if current.is_none() {
            self.remove_expires_at(key)
        } else if self.extend_on_update {
            self.update_expires_at(key, now)
        } else {
            Ok(())
        };
        match done {
            Ok(()) => Ok(current),
            Err(e) => Err(e),
        }
    }

    /// Replaces what `key` holds by what `f` makes of it, and returns the new
    /// value. `f` may be called more than once. The expiry of the key follows
    /// from the clock.
    pub fn update_and_fetch<G: Fn(Option<V>) -> Option<V>>(&mut self, key: &[u8], f: G) -> (r:
        Result<Option<V>, TreeError>)
        requires
            forall|given: Option<V>| call_requires(f, (given,)),
        ensures
            final(self).same_settings(old(self)),
            engine_failed(r) || exists|now: Timestamp|
                now.is_valid() && #[trigger] Self::updated(
                    *old(self),
                    *final(self),
                    key@,
                    &f,
                    now,
                    r,
                ),
    {
        let now = Timestamp::now();
        self.update_and_fetch_at(key, f, &now)
    }

    /// What `fetch_and_update_at` gives and leaves.
    ///
    /// The key holds what `f` made of the bytes it held. The expiry goes by that
    /// new value: with a value it is renewed if the tree extends on update, and
    /// left as it is if not; with no value it is forgotten.
    pub open spec fn replaced<G: Fn(Option<V>) -> Option<V>>(
        before: Self,
        after: Self,
        key: Seq<u8>,
        f: &G,
        now: Timestamp,
        r: Result<Option<V>, TreeError>,
    ) -> bool {
        exists|current: Option<Seq<u8>>|
            {
                &&& #[trigger] updates::<V, F, G>(f, lookup(before.data(), key), current)
                &&& after.data() == put(before.data(), key, current)
                &&& followed_by::<V, F>(
                    lookup(before.data(), key),
                    before.expirations(),
                    after_write::<E>(
                        current is Some,
                        before.extends_on_update(),
                        before.expirations(),
                        key,
                        now.shifted(before.length()),
                    ),
                    after.expirations(),
                    r,
                )
            }
    }

    /// Replaces what `key` holds by what `f` makes of it, at the time `now`, and
    /// returns the value from before. `f` may be called more than once.
    pub fn fetch_and_update_at<G: Fn(Option<V>) -> Option<V>>(
        &mut self,
        key: &[u8],
        f: G,
        now: &Timestamp,
    ) -> (r: Result<Option<V>, TreeError>)
        requires
            forall|given: Option<V>| call_requires(f, (given,)),
        ensures
            final(self).same_settings(old(self)),
            engine_failed(r) || Self::replaced(*old(self), *final(self), key@, &f, *now, r),
    {
        let previous = match self.data.fetch_and_update(key, f) {
            Ok(previous) => previous,
            Err(e) => {
                return Err(e);
            },
        };
        // The database hands back the value from before: whether the key now
        // holds a value is read from the tree.
        let present = match self.data.contains_key(key) {
            Ok(present) => present,
            Err(e) => {
                return Err(e);
            },
        };
        let done = if !present {
            self.remove_expires_at(key)
        } else if self.extend_on_update {
            self.update_expires_at(key, now)
        } else {
            Ok(())
        };
        match done {
            Ok(()) => Ok(previous),
            Err(e) => Err(e),
        }
    }

    /// Replaces what `key` holds by what `f` makes of it, and returns the value
    /// from before. `f` may be called more than once. The expiry of the key
    /// follows from the clock.
    pub fn fetch_and_update<G: Fn(Option<V>) -> Option<V>>(&mut self, key: &[u8], f: G) -> (r:
        Result<Option<V>, TreeError>)
        requires
            forall|given: Option<V>| call_requires(f, (given,)),
        ensures
            final(self).same_settings(old(self)),
            engine_failed(r) || exists|now: Timestamp|
                now.is_valid() && #[trigger] Self::replaced(
                    *old(self),
                    *final(self),
                    key@,
                    &f,
                    now,
                    r,
                ),
    {
        let now = Timestamp::now();
        self.fetch_and_update_at(key, f, &now)
    }

    /// Writes what is pending in the three trees to disk.
    pub fn flush(&self) -> (r: Result<(), TreeError>)
        ensures
            r matches Err(e) ==> e.is_engine(),
    {
        match self.data.flush() {
            Ok(()) => {},
            Err(e) => {
                return Err(e);
            },
        }
        match self.expires_at.flush() {
            Ok(()) => {},
            Err(e) => {
                return Err(e);
            },
        }
        self.expires_at_inverse.flush()
    }

    /// Whether the tree holds a value under `key`.
    pub fn contains_key(&self, key: &[u8]) -> (r: Result<bool, TreeError>)
        ensures
            match r {
                Ok(found) => found == self.data().contains_key(key@),
                Err(e) => e.is_engine(),
            },
    {
        self.data.contains_key(key)
    }

    /// What `get_lt_at` and `get_gt_at` give and leave for the entry `found`: the
    /// values stay, and the expiry of the key that was found is renewed where the
    /// tree extends on fetch.
    pub open spec fn found_at(
        before: Self,
        after: Self,
        found: Option<(Seq<u8>, Seq<u8>)>,
        now: Timestamp,
        r: Result<Option<(Vec<u8>, V)>, TreeError>,
    ) -> bool {
        &&& after.data() == before.data()
        &&& entry_followed_by::<V, F>(
            found,
            before.expirations(),
            match found {
                Some((k, _)) => refreshed_if::<E>(
                    before.extends_on_fetch(),
                    before.expirations(),
                    k,
                    now.shifted(before.length()),
                ),
                None => (before.expirations(), true),
            },
            after.expirations(),
            r,
        )
    }

    /// The entry with the greatest key below `key`, read at the time `now`.
    pub fn get_lt_at(&mut self, key: &[u8], now: &Timestamp) -> (r: Result<
        Option<(Vec<u8>, V)>,
        TreeError,
    >)
        ensures
            final(self).same_settings(old(self)),
            final(self).data() == old(self).data(),
            engine_failed(r) || exists|found: Option<(Seq<u8>, Seq<u8>)>|
                {
                    &&& #[trigger] Self::found_at(*old(self), *final(self), found, *now, r)
                    &&& match found {
                        Some((k, bytes)) => is_last_before(old(self).data(), k, key@) && old(self).data()[k] == bytes,
                        None => forall|other: Seq<u8>| #[trigger]
                            old(self).data().contains_key(other) ==> !key_lt(other, key@),
                    }
                },
    {
        let first = self.data.get_lt(key);
        let ghost seen = choose|found: Option<(Seq<u8>, Seq<u8>)>|
            {
                &&& #[trigger] reads_entry_as::<V, F>(found, first)
                &&& match found {
                    Some((k, bytes)) => is_last_before(self.data(), k, key@) && self.data()[k]
                        == bytes,
                    None => forall|other: Seq<u8>| #[trigger]
                        self.data().contains_key(other) ==> !key_lt(other, key@),
                }
            };
        let r = match first {
            Ok(found) => self.touch_found(found, now),
            Err(e) => Err(e),
        };
        assert(engine_failed(r) || Self::found_at(*old(self), *self, seen, *now, r));
        r
    }

    /// The entry with the greatest key below `key`. The expiry of its key is
    /// renewed from the clock where the tree extends on fetch.
    pub fn get_lt(&mut self, key: &[u8]) -> (r: Result<Option<(Vec<u8>, V)>, TreeError>)
        ensures
            final(self).same_settings(old(self)),
            final(self).data() == old(self).data(),
            engine_failed(r) || exists|found: Option<(Seq<u8>, Seq<u8>)>, now: Timestamp|
                {
                    &&& now.is_valid()
                    &&& #[trigger] Self::found_at(*old(self), *final(self), found, now, r)
                    &&& match found {
                        Some((k, bytes)) => is_last_before(old(self).data(), k, key@) && old(self).data()[k] == bytes,
                        None => forall|other: Seq<u8>| #[trigger]
                            old(self).data().contains_key(other) ==> !key_lt(other, key@),
                    }
                },
    {
        let now = Timestamp::now();
        self.get_lt_at(key, &now)
    }

    /// The entry with the least key above `key`, read at the time `now`.
    pub fn get_gt_at(&mut self, key: &[u8], now: &Timestamp) -> (r: Result<
        Option<(Vec<u8>, V)>,
        TreeError,
    >)
        ensures
            final(self).same_settings(old(self)),
            final(self).data() == old(self).data(),
            engine_failed(r) || exists|found: Option<(Seq<u8>, Seq<u8>)>|
                {
                    &&& #[trigger] Self::found_at(*old(self), *final(self), found, *now, r)
                    &&& match found {
                        Some((k, bytes)) => is_first_after(old(self).data(), k, key@) && old(self).data()[k] == bytes,
                        None => forall|other: Seq<u8>| #[trigger]
                            old(self).data().contains_key(other) ==> !key_lt(key@, other),
                    }
                },
    {
        let first = self.data.get_gt(key);
        let ghost seen = choose|found: Option<(Seq<u8>, Seq<u8>)>|
            {
                &&& #[trigger] reads_entry_as::<V, F>(found, first)
                &&& match found {
                    Some((k, bytes)) => is_first_after(self.data(), k, key@) && self.data()[k]
                        == bytes,
                    None => forall|other: Seq<u8>| #[trigger]
                        self.data().contains_key(other) ==> !key_lt(key@, other),
                }
            };
        let r = match first {
            Ok(found) => self.touch_found(found, now),
            Err(e) => Err(e),
        };
        assert(engine_failed(r) || Self::found_at(*old(self), *self, seen, *now, r));
        r
    }

    /// The entry with the least key above `key`. The expiry of its key is renewed
    /// from the clock where the tree extends on fetch.
    pub fn get_gt(&mut self, key: &[u8]) -> (r: Result<Option<(Vec<u8>, V)>, TreeError>)
        ensures
            final(self).same_settings(old(self)),
            final(self).data() == old(self).data(),
            engine_failed(r) || exists|found: Option<(Seq<u8>, Seq<u8>)>, now: Timestamp|
                {
                    &&& now.is_valid()
                    &&& #[trigger] Self::found_at(*old(self), *final(self), found, now, r)
                    &&& match found {
                        Some((k, bytes)) => is_first_after(old(self).data(), k, key@) && old(self).data()[k] == bytes,
                        None => forall|other: Seq<u8>| #[trigger]
                            old(self).data().contains_key(other) ==> !key_lt(key@, other),
                    }
                },
    {
        let now = Timestamp::now();
        self.get_gt_at(key, &now)
    }

    /// Renews the expiry of the key of an entry that was read, where the tree
    /// extends on fetch, and hands the entry on.
    fn touch_found(&mut self, found: Option<(Vec<u8>, V)>, now: &Timestamp) -> (r: Result<
        Option<(Vec<u8>, V)>,
        TreeError,
    >)
        ensures
            final(self).same_settings(old(self)),
            final(self).data() == old(self).data(),
            engine_failed(r) || {
                let then = match found {
                    Some((k, _)) => refreshed_if::<E>(
                        old(self).extends_on_fetch(),
                        old(self).expirations(),
                        k@,
                        now.shifted(old(self).length()),
                    ),
                    None => (old(self).expirations(), true),
                };
                &&& final(self).expirations() == then.0
                &&& if then.1 {
                    r == Ok::<Option<(Vec<u8>, V)>, TreeError>(found)
                } else {
                    encoding_failed(r)
                }
            },
    {
        match found {
            Some((k, v)) => {
                if self.extend_on_fetch {
                    match self.update_expires_at(k.as_slice(), now) {
                        Ok(()) => {},
                        Err(e) => {
                            return Err(e);
                        },
                    }
                }
                Ok(Some((k, v)))
            },
            None => Ok(None),
        }
    }

    /// What `pop_max` and `pop_min` give and leave for the entry `found`: the
    /// entry is gone, and so is the expiry of its key.
    pub open spec fn popped(
        before: Self,
        after: Self,
        found: Option<(Seq<u8>, Seq<u8>)>,
        r: Result<Option<(Vec<u8>, V)>, TreeError>,
    ) -> bool {
        match found {
            Some((k, _)) => {
                &&& after.data() == before.data().remove(k)
                &&& entry_followed_by::<V, F>(
                    found,
                    before.expirations(),
                    forgotten::<E>(before.expirations(), k),
                    after.expirations(),
                    r,
                )
            },
            None => {
                &&& before.data() == Map::<Seq<u8>, Seq<u8>>::empty()
                &&& after.data() == before.data()
                &&& after.expirations() == before.expirations()
                &&& r matches Ok(None)
            },
        }
    }

    /// Removes the entry with the greatest key, with the expiry of the key, and
    /// returns it.
    pub fn pop_max(&mut self) -> (r: Result<Option<(Vec<u8>, V)>, TreeError>)
        ensures
            final(self).same_settings(old(self)),
            engine_failed(r) || exists|found: Option<(Seq<u8>, Seq<u8>)>|
                {
                    &&& #[trigger] Self::popped(*old(self), *final(self), found, r)
                    &&& found matches Some((k, bytes)) ==> is_greatest(old(self).data(), k) && old(self).data()[k] == bytes
                },
    {
        let first = self.data.pop_max();
        let ghost seen = choose|found: Option<(Seq<u8>, Seq<u8>)>|
            {
                &&& #[trigger] reads_entry_as::<V, F>(found, first)
                &&& match found {
                    Some((k, bytes)) => {
                        &&& is_greatest(old(self).data(), k)
                        &&& old(self).data()[k] == bytes
                        &&& self.data() == old(self).data().remove(k)
                    },
                    None => {
                        &&& old(self).data() == Map::<Seq<u8>, Seq<u8>>::empty()
                        &&& self.data() == old(self).data()
                    },
                }
            };
        let r = match first {
            Ok(found) => self.forget_found(found),
            Err(e) => Err(e),
        };
        assert(engine_failed(r) || Self::popped(*old(self), *self, seen, r));
        r
    }

    /// Removes the entry with the least key, with the expiry of the key, and
    /// returns it.
    pub fn pop_min(&mut self) -> (r: Result<Option<(Vec<u8>, V)>, TreeError>)
        ensures
            final(self).same_settings(old(self)),
            engine_failed(r) || exists|found: Option<(Seq<u8>, Seq<u8>)>|
                {
                    &&& #[trigger] Self::popped(*old(self), *final(self), found, r)
                    &&& found matches Some((k, bytes)) ==> is_least(old(self).data(), k) && old(self).data()[k] == bytes
                },
    {
        let first = self.data.pop_min();
        let ghost seen = choose|found: Option<(Seq<u8>, Seq<u8>)>|
            {
                &&& #[trigger] reads_entry_as::<V, F>(found, first)
                &&& match found {
                    Some((k, bytes)) => {
                        &&& is_least(old(self).data(), k)
                        &&& old(self).data()[k] == bytes
                        &&& self.data() == old(self).data().remove(k)
                    },
                    None => {
                        &&& old(self).data() == Map::<Seq<u8>, Seq<u8>>::empty()
                        &&& self.data() == old(self).data()
                    },
                }
            };
        let r = match first {
            Ok(found) => self.forget_found(found),
            Err(e) => Err(e),
        };
        assert(engine_failed(r) || Self::popped(*old(self), *self, seen, r));
        r
    }

    /// Forgets the expiry of the key of an entry that was removed, and hands the
    /// entry on.
    fn forget_found(&mut self, found: Option<(Vec<u8>, V)>) -> (r: Result<
        Option<(Vec<u8>, V)>,
        TreeError,
    >)
        ensures
            final(self).same_settings(old(self)),
            final(self).data() == old(self).data(),
            engine_failed(r) || {
                let then = match found {
                    Some((k, _)) => forgotten::<E>(old(self).expirations(), k@),
                    None => (old(self).expirations(), true),
                };
                &&& final(self).expirations() == then.0
                &&& if then.1 {
                    r == Ok::<Option<(Vec<u8>, V)>, TreeError>(found)
                } else {
                    encoding_failed(r)
                }
            },
    {
        match found {
            Some((k, v)) => {
                match self.remove_expires_at(k.as_slice()) {
                    Ok(()) => {},
                    Err(e) => {
                        return Err(e);
                    },
                }
                Ok(Some((k, v)))
            },
            None => Ok(None),
        }
    }

    /// The number of values in the tree, counted by a walk over the whole tree.
    /// A read that fails on the way is counted as a value, so the tree holds as
    /// many values as this says, or fewer.
    pub fn len(&self) -> (r: usize)
        ensures
            has_at_most(self.data(), r as nat),
    {
        self.data.len()
    }

    /// Whether the tree holds no value. Where this says so, it holds none; where
    /// a read fails, this may say otherwise of a tree that holds none.
    pub fn is_empty(&self) -> (r: bool)
        ensures
            r ==> self.data() == Map::<Seq<u8>, Seq<u8>>::empty(),
    {
        self.data.is_empty()
    }

    /// Removes every value and every expiry. The three trees are cleared one
    /// after the other: an error leaves those after it as they were, and other
    /// users may see the trees half cleared.
    pub fn clear(&mut self) -> (r: Result<(), TreeError>)
        ensures
            final(self).same_settings(old(self)),
            match r {
                Ok(()) => {
                    &&& final(self).data() == Map::<Seq<u8>, Seq<u8>>::empty()
                    &&& final(self).expirations().expires_at == Map::<Seq<u8>, Seq<u8>>::empty()
                    &&& final(self).expirations().expires_at_inverse == Map::<
                        Seq<u8>,
                        Seq<u8>,
                    >::empty()
                },
                Err(e) => e.is_engine(),
            },
    {
        match self.data.clear() {
            Ok(()) => {},
            Err(e) => {
                return Err(e);
            },
        }
        match self.expires_at.clear() {
            Ok(()) => {},
            Err(e) => {
                return Err(e);
            },
        }
        self.expires_at_inverse.clear()
    }

    /// The name under which the tree of values was opened.
    pub fn name(&self) -> (r: String)
        ensures
            r@ == self.name_view(),
    {
        self.data.name()
    }

    /// One more handle on the same three trees, with the same settings. It
    /// borrows `self`, which is not used while the new handle is: so one handle
    /// alone writes to the trees at any time. What the new handle wrote is found
    /// through `self` afterwards.
    pub fn cloned<'a>(&'a mut self) -> (r: ExpiringTree<'a, V, E, F>)
        ensures
            r.same_settings(old(self)),
            r.data() == old(self).data(),
            r.expirations() == old(self).expirations(),
            final(self).same_settings(old(self)),
    {
        ExpiringTree {
            data: self.data.cloned(),
            expires_at: self.expires_at.cloned(),
            expires_at_inverse: self.expires_at_inverse.cloned(),
            extend_on_update: self.extend_on_update,
            extend_on_fetch: self.extend_on_fetch,
            expiration_length: self.expiration_length,
        }
    }

    /// What `apply_batch_at` gives and leaves.
    ///
    /// The values change by the writes of the batch. Where the tree extends on
    /// update, the expiry of each key under which the batch stores a value is
    /// renewed, one key after the other. The expiry of a key that the batch
    /// removes stays as it is.
    pub open spec fn batch_applied(
        before: Self,
        after: Self,
        batch: ExpiringBatch<V, F>,
        now: Timestamp,
        r: Result<(), TreeError>,
    ) -> bool {
        let then = refreshed_all_if::<E>(
            before.extends_on_update(),
            before.expirations(),
            batch.inserted(),
            now.shifted(before.length()),
        );
        &&& after.data() == applied(before.data(), batch.writes())
        &&& after.expirations() == then.0
        &&& if then.1 {
            r is Ok
        } else {
            encoding_failed(r)
        }
    }

    /// Applies the writes of `batch` in one step, at the time `now`.
    pub fn apply_batch_at(&mut self, batch: ExpiringBatch<V, F>, now: &Timestamp) -> (r: Result<
        (),
        TreeError,
    >)
        ensures
            final(self).same_settings(old(self)),
            engine_failed(r) || Self::batch_applied(*old(self), *final(self), batch, *now, r),
    {
        let (writes, keys) = batch.into_parts();
        match self.data.apply_batch(writes) {
            Ok(()) => {},
            Err(e) => {
                return Err(e);
            },
        }
        if self.extend_on_update {
            let ghost all = key_views(keys@);
            let ghost start = self.expirations();
            let ghost expiry = now.shifted(self.length());
            let mut i: usize = 0;
            assert(all.skip(0) =~= all);
            while i < keys.len()
                invariant
                    i <= keys@.len(),
                    all == key_views(keys@),
                    all == batch.inserted(),
                    start == old(self).expirations(),
                    self.same_settings(old(self)),
                    self.extends_on_update(),
                    expiry == now.shifted(self.length()),
                    self.data() == applied(old(self).data(), batch.writes()),
                    refreshed_all::<E>(self.expirations(), all.skip(i as int), expiry)
                        == refreshed_all::<E>(start, all, expiry),
                decreases keys@.len() - i,
            {
                let ghost here = self.expirations();
                assert(all.skip(i as int).first() == keys@[i as int]@);
                assert(all.skip(i as int).drop_first() =~= all.skip(i as int + 1));
                let step = self.update_expires_at(keys[i].as_slice(), now);
                assert(engine_failed(step) || refreshed_all::<E>(here, all.skip(i as int), expiry) == {
                    let first = refreshed::<E>(here, keys@[i as int]@, expiry);
                    if first.1 {
                        refreshed_all::<E>(first.0, all.skip(i as int + 1), expiry)
                    } else {
                        first
                    }
                });
                match step {
                    Ok(()) => {},
                    Err(e) => {
                        return Err(e);
                    },
                }
                i += 1;
            }
        }
        Ok(())
    }

    /// Applies the writes of `batch` in one step. Where the tree extends on
    /// update, the expiry of each key under which the batch stores a value is
    /// renewed from the clock.
    pub fn apply_batch(&mut self, batch: ExpiringBatch<V, F>) -> (r: Result<(), TreeError>)
        ensures
            final(self).same_settings(old(self)),
            engine_failed(r) || exists|now: Timestamp|
                now.is_valid() && #[trigger] Self::batch_applied(
                    *old(self),
                    *final(self),
                    batch,
                    now,
                    r,
                ),
    {
        let now = Timestamp::now();
        self.apply_batch_at(batch, &now)
    }

    /// The keys whose expiry lies before `now`, from the earliest expiry on. The
    /// keys of one time come in the order in which they joined its bucket, and a
    /// bucket that cannot be read is passed over. Nothing is removed.
    pub fn expired_at(&self, now: &Timestamp) -> (r: Result<Vec<Vec<u8>>, TreeError>)
        ensures
            match r {
                Ok(keys) => exists|items: Seq<(Seq<u8>, Seq<u8>)>|
                    {
                        &&& #[trigger] is_due(
                            items,
                            self.expirations().expires_at_inverse,
                            now.text(),
                        )
                        &&& key_views(keys@) == expired_in::<E>(items)
                    },
                Err(e) => e.is_engine(),
            },
            consistent::<E>(self.expirations()) ==> (r matches Ok(keys) ==> {
                &&& key_views(keys@).no_duplicates()
                &&& forall|key: Seq<u8>|
                    #[trigger] key_views(keys@).contains(key) <==> (expiry_of::<E>(
                        self.expirations(),
                        key,
                    ) matches Some(t) && key_lt(t.text(), now.text()))
                &&& forall|i: int, j: int|
                    0 <= i < j < keys@.len() ==> !key_lt(
                        expiry_of::<E>(self.expirations(), #[trigger] keys@[j]@).unwrap().text(),
                        expiry_of::<E>(self.expirations(), #[trigger] keys@[i]@).unwrap().text(),
                    )
            }),
    {
        let end = now.to_text();
        let mut walk = self.expires_at_inverse.range(KeyBound::Unbounded, KeyBound::Excluded(end));
        let ghost all = walk.rest();
        assert(is_due(all, self.expirations().expires_at_inverse, now.text()));
        let mut out: Vec<Vec<u8>> = Vec::new();
        let ghost mut seen: int = 0;
        assert(all.take(0) =~= Seq::<(Seq<u8>, Seq<u8>)>::empty());
        assert(key_views(out@) =~= Seq::<Seq<u8>>::empty());
        loop
            invariant
                0 <= seen <= all.len(),
                walk.rest() == all.skip(seen),
                key_views(out@) == expired_in::<E>(all.take(seen)),
            ensures
                key_views(out@) == expired_in::<E>(all),
            decreases all.len() - seen,
        {
            let ghost before = walk.rest();
            let ghost had = out@;
            match walk.next() {
                None => {
                    assert(all.take(seen) =~= all);
                    break ;
                },
                Some(Ok((_, bucket))) => {
                    let mut keys = bucket.into_keys();
                    let ghost added = keys@;
                    out.append(&mut keys);
                    proof {
                        assert(before.first() == all[seen]);
                        assert(before.drop_first() =~= all.skip(seen + 1));
                        assert(all.take(seen + 1).drop_last() =~= all.take(seen));
                        assert(all.take(seen + 1).last() == all[seen]);
                        assert(key_views(out@) =~= key_views(had) + key_views(added));
                        seen = seen + 1;
                    }
                },
                Some(Err(e)) => {
                    if e.from_engine() {
                        return Err(e);
                    }
                    proof {
                        assert(before.first() == all[seen]);
                        assert(before.drop_first() =~= all.skip(seen + 1));
                        assert(all.take(seen + 1).drop_last() =~= all.take(seen));
                        assert(all.take(seen + 1).last() == all[seen]);
                        assert(key_views(out@) + Seq::<Seq<u8>>::empty() =~= key_views(out@));
                        seen = seen + 1;
                    }
                },
            }
        }
        proof {
            if consistent::<E>(self.expirations()) {
                lemma_expired_are_due::<E>(self.expirations(), all, *now);
                assert forall|i: int, j: int| 0 <= i < j < out@.len() implies !key_lt(
                    expiry_of::<E>(self.expirations(), #[trigger] out@[j]@).unwrap().text(),
                    expiry_of::<E>(self.expirations(), #[trigger] out@[i]@).unwrap().text(),
                ) by {
                    assert(key_views(out@)[i] == out@[i]@ && key_views(out@)[j] == out@[j]@);
                }
            }
        }
        Ok(out)
    }

    /// The keys whose expiry lies before the time on the clock. See `expired_at`.
    pub fn expired(&self) -> (r: Result<Vec<Vec<u8>>, TreeError>)
        ensures
            match r {
                Ok(keys) => exists|items: Seq<(Seq<u8>, Seq<u8>)>, now: Timestamp|
                    {
                        &&& now.is_valid()
                        &&& #[trigger] is_due(
                            items,
                            self.expirations().expires_at_inverse,
                            now.text(),
                        )
                        &&& key_views(keys@) == expired_in::<E>(items)
                    },
                Err(e) => e.is_engine(),
            },
    {
        let now = Timestamp::now();
        self.expired_at(&now)
    }
}

impl<'s, V: View, E: Encoding<Timestamp> + Encoding<KeySet>, F: Encoding<V>> ExpiringTree<
    's,
    V,
    E,
    F,
> {
    /// What one step of a walk gives and leaves for the stored entry `entry`: the
    /// values stay, and the expiry of the key is renewed where the tree extends
    /// on fetch. An entry that cannot be read gives the encoding's error, and no
    /// expiry is renewed.
    pub open spec fn walked(
        before: Self,
        after: Self,
        entry: (Seq<u8>, Seq<u8>),
        now: Timestamp,
        item: Result<(Vec<u8>, V), TreeError>,
    ) -> bool {
        let then = refreshed_if::<E>(
            before.extends_on_fetch(),
            before.expirations(),
            entry.0,
            now.shifted(before.length()),
        );
        &&& after.data() == before.data()
        &&& match F::decoding(entry.1) {
            None => encoding_failed(item) && after.expirations() == before.expirations(),
            Some(_) => {
                &&& after.expirations() == then.0
                &&& if then.1 {
                    reads_item_as::<V, F>(entry, item)
                } else {
                    encoding_failed(item)
                }
            },
        }
    }

    /// A walk over all entries, in the order of their keys.
    pub fn iter<'a>(&'a mut self) -> (r: ExpiringIter<'a, 's, V, E, F>)
        ensures
            r.tree() == *old(self),
            is_scan(r.rest(), old(self).data(), |key: Seq<u8>| true),
    {
        let iter = self.data.walk_all();
        ExpiringIter::over(iter, self)
    }

    /// A walk over the entries whose keys lie between `from` and `to`, in the
    /// order of their keys.
    pub fn range<'a>(&'a mut self, from: KeyBound, to: KeyBound) -> (r: ExpiringIter<'a, 's, V, E, F>)
        ensures
            r.tree() == *old(self),
            is_scan(r.rest(), old(self).data(), |key: Seq<u8>| within(key, from, to)),
    {
        let iter = self.data.walk_range(from, to);
        ExpiringIter::over(iter, self)
    }

    /// A walk over the entries whose keys start with `prefix`, in the order of
    /// their keys.
    pub fn scan_prefix<'a>(&'a mut self, prefix: &[u8]) -> (r: ExpiringIter<'a, 's, V, E, F>)
        ensures
            r.tree() == *old(self),
            is_scan(r.rest(), old(self).data(), |key: Seq<u8>| has_prefix(key, prefix@)),
    {
        let iter = self.data.walk_prefix(prefix);
        ExpiringIter::over(iter, self)
    }
}

impl<'s, V: View, E: Encoding<Timestamp> + Encoding<KeySet>, F: Encoding<V>> ExpiringTree<
    's,
    V,
    E,
    F,
> {
    /// Follows the notes of a transaction, one after the other. A note that
    /// cannot be followed because a time or a bucket cannot be read or written
    /// does not stop the work, and the first such error is returned at the end;
    /// a failure of the database stops it.
    fn settle(&mut self, notes: Vec<Note>) -> (r: Result<(), TreeError>)
        ensures
            final(self).same_settings(old(self)),
            final(self).data() == old(self).data(),
            engine_failed(r) || {
                &&& final(self).expirations() == settled::<E>(
                    old(self).expirations(),
                    notes_of(notes@),
                    old(self).length(),
                ).0
                &&& r is Ok == settled::<E>(
                    old(self).expirations(),
                    notes_of(notes@),
                    old(self).length(),
                ).1
            },
    {
        let ghost all = notes_of(notes@);
        let ghost start = self.expirations();
        let ghost length = self.length();
        let mut failed: Option<TreeError> = None;
        let mut i: usize = 0;
        assert(all.skip(0) =~= all);
        while i < notes.len()
            invariant
                i <= notes@.len(),
                all == notes_of(notes@),
                self.same_settings(old(self)),
                length == self.length(),
                self.data() == old(self).data(),
                start == old(self).expirations(),
                failed matches Some(e) ==> !e.is_engine(),
                settled::<E>(self.expirations(), all.skip(i as int), length).0 == settled::<E>(
                    start,
                    all,
                    length,
                ).0,
                (failed is None && settled::<E>(self.expirations(), all.skip(i as int), length).1)
                    == settled::<E>(start, all, length).1,
            decreases notes@.len() - i,
        {
            let ghost here = self.expirations();
            assert(all.skip(i as int).first() == all[i as int]);
            assert(all.skip(i as int).drop_first() =~= all.skip(i as int + 1));
            let step = match notes[i].1 {
                Some(now) => self.update_expires_at(notes[i].0.as_slice(), &now),
                None => self.remove_expires_at(notes[i].0.as_slice()),
            };
            assert(engine_failed(step) || settled::<E>(here, all.skip(i as int), length) == {
                let first = match all[i as int].1 {
                    Some(now) => refreshed::<E>(here, all[i as int].0, now.shifted(length)),
                    None => forgotten::<E>(here, all[i as int].0),
                };
                let rest = settled::<E>(first.0, all.skip(i as int + 1), length);
                (rest.0, first.1 && rest.1)
            });
            match step {
                Ok(()) => {},
                Err(e) => {
                    if e.from_engine() {
                        return Err(e);
                    }
                    if failed.is_none() {
                        failed = Some(e);
                    }
                },
            }
            i += 1;
        }
        match failed {
            None => Ok(()),
            Some(e) => Err(e),
        }
    }

    /// What a transaction gives back once its notes have been followed, for the
    /// answer `first` of the transaction itself and the outcome `done` of
    /// following the notes. An error of following the notes comes in the place
    /// of the value of a transaction that ended well; after a transaction that
    /// was given up, only a failure of the database is told.
    pub fn answer_after<R>(first: Transacted<R>, done: Result<(), TreeError>) -> (r: Transacted<R>)
        ensures
            r == match done {
                Ok(()) => first,
                Err(e) => match first {
                    Ok(_) => Ok::<Result<R, TreeError>, TransactionError>(Err(e)),
                    Err(TransactionError::Abort) => match e {
                        TreeError::Sled(failure) => Err(TransactionError::Storage(failure)),
                        _ => Err(TransactionError::Abort),
                    },
                    Err(TransactionError::Storage(failure)) => Err(
                        TransactionError::Storage(failure),
                    ),
                },
            },
    {
        match done {
            Ok(()) => first,
            Err(e) => match first {
                Ok(_) => Ok(Err(e)),
                Err(TransactionError::Abort) => match e {
                    TreeError::Sled(failure) => Err(TransactionError::Storage(failure)),
                    _ => Err(TransactionError::Abort),
                },
                Err(TransactionError::Storage(failure)) => Err(TransactionError::Storage(failure)),
            },
        }
    }

    /// Runs `g` as a transaction on the three trees. `g` is run again after each
    /// conflict, so it may run more than once.
    ///
    /// Where a run ends well, all that it wrote, to the values and to the expiry
    /// times, reaches the trees together: they hold what the transaction saw at
    /// the end of that run. The transaction is given up only where a run of `g`
    /// ends with an error. The values then stay as they were; the expiry times
    /// do not: each expiry that the run renewed or forgot is renewed or
    /// forgotten once more, outside the transaction, as the run noted it. Whether
    /// the transaction ends well is for `g` and the database to decide.
    ///
    /// `g` is to work through the view that it is given: the database lets no
    /// tree be read or written from elsewhere while a transaction runs, and a
    /// call to another tree from within `g` does not return.
    pub fn transaction<G, R>(&mut self, g: G) -> (r: Transacted<R>) where
        G: Fn(&mut ExpiringTransactionalTree<V, E, F>) -> Ran<R>,

        requires
            forall|seen: &mut ExpiringTransactionalTree<V, E, F>|
                seen.begins(old(self)) ==> call_requires(g, (seen,)),
        ensures
            final(self).same_settings(old(self)),
            r matches Ok(value) ==> exists|seen: &mut ExpiringTransactionalTree<V, E, F>|
                {
                    &&& seen.begins(old(self))
                    &&& call_ensures(
                        g,
                        (seen,),
                        Ok::<
                            Result<R, TreeError>,
                            sled::transaction::ConflictableTransactionError<()>,
                        >(value),
                    )
                    &&& final(self).data() == final(seen).data()
                    &&& final(self).expirations() == final(seen).expirations()
                },
            r matches Err(TransactionError::Abort) ==> {
                &&& final(self).data() == old(self).data()
                &&& exists|
                    seen: &mut ExpiringTransactionalTree<V, E, F>,
                    given_up: sled::transaction::ConflictableTransactionError<()>,
                |
                    {
                        &&& seen.begins(old(self))
                        &&& call_ensures(
                            g,
                            (seen,),
                            Err::<
                                Result<R, TreeError>,
                                sled::transaction::ConflictableTransactionError<()>,
                            >(given_up),
                        )
                        &&& final(self).expirations() == settled::<E>(
                            old(self).expirations(),
                            final(seen).noted(),
                            old(self).length(),
                        ).0
                    }
            },
    {
        let run = &g;
        let extend_on_update = self.extend_on_update;
        let extend_on_fetch = self.extend_on_fetch;
        let expiration_length = self.expiration_length;
        let ghost start = *self;
        assert(forall|seen: &mut ExpiringTransactionalTree<V, E, F>|
            seen.begins(&start) ==> call_requires(*run, (seen,)));
        assert(start.extends_on_update() == extend_on_update && start.extends_on_fetch()
            == extend_on_fetch && start.length() == expiration_length);
        let body = |
            data: &mut StructuredTransactionalTree<V, F>,
            expires_at: &mut StructuredTransactionalTree<Timestamp, E>,
            expires_at_inverse: &mut StructuredTransactionalTree<KeySet, E>,
        | -> (out: (Ran<R>, Vec<Note>))
            requires
                old(data).seen() == start.data(),
                seen_by(*old(expires_at), *old(expires_at_inverse)) == start.expirations(),
            ensures
                exists|seen: &mut ExpiringTransactionalTree<V, E, F>|
                    {
                        &&& seen.begins(&start)
                        &&& call_ensures(*run, (seen,), out.0)
                        &&& final(data).seen() == final(seen).data()
                        &&& final(seen).expirations() == seen_by(
                            *final(expires_at),
                            *final(expires_at_inverse),
                        )
                        &&& notes_of(out.1@) == final(seen).noted()
                    },
            {
                let mut seen = ExpiringTransactionalTree::over(
                    data.handle(),
                    expires_at.handle(),
                    expires_at_inverse.handle(),
                    extend_on_update,
                    extend_on_fetch,
                    expiration_length,
                );
                assert(seen.begins(&start));
                let ran = run(&mut seen);
                let (values, times, buckets, notes) = seen.into_parts();
                *data = values;
                *expires_at = times;
                *expires_at_inverse = buckets;
                (ran, notes)
            };
        let (first, carried) = transaction_on_three(
            &mut self.data,
            &mut self.expires_at,
            &mut self.expires_at_inverse,
            &body,
        );
        match first {
            Err(TransactionError::Abort) => match carried {
                Some(notes) => {
                    let done = self.settle(notes);
                    Self::answer_after(Err(TransactionError::Abort), done)
                },
                None => Err(TransactionError::Abort),
            },
            other => other,
        }
    }
}

impl<V: View, E: Encoding<Timestamp> + Encoding<KeySet>, F: Encoding<V>> ExpiringTreeBuilder<
    V,
    E,
    F,
> {
    /// The name of the tree of values.
    pub closed spec fn name_view(&self) -> Seq<char> {
        self.data@
    }

    /// Whether storing a value is to renew the expiry of its key.
    pub closed spec fn extends_on_update(&self) -> bool {
        self.extend_on_update
    }

    /// Whether reading a value is to renew the expiry of its key.
    pub closed spec fn extends_on_fetch(&self) -> bool {
        self.extend_on_fetch
    }

    /// How long after its renewal a key is to expire.
    pub closed spec fn length(&self) -> Duration {
        self.expiration_length
    }

    /// The settings of a tree called `data` that renews no expiry, and whose keys
    /// expire twelve hours after their renewal.
    pub fn new(data: &str) -> (r: Self)
        ensures
            r.name_view() == data@,
            !r.extends_on_update(),
            !r.extends_on_fetch(),
            r.length().total() == 12 * 3600 * 1_000_000_000,
    {
        ExpiringTreeBuilder {
            data: data.to_owned(),
            extend_on_update: false,
            extend_on_fetch: false,
            expiration_length: Duration::hours(12),
            value: PhantomData,
            encoding: PhantomData,
            data_encoding: PhantomData,
        }
    }

    /// Lets storing a value renew the expiry of its key.
    pub fn extend_on_update(&mut self) -> (r: &mut Self)
        ensures
            r.extends_on_update(),
            r.extends_on_fetch() == old(self).extends_on_fetch(),
            r.length() == old(self).length(),
            r.name_view() == old(self).name_view(),
            *final(self) == *final(r),
    {
        self.extend_on_update = true;
        self
    }

    /// Lets reading a value renew the expiry of its key.
    pub fn extend_on_fetch(&mut self) -> (r: &mut Self)
        ensures
            r.extends_on_fetch(),
            r.extends_on_update() == old(self).extends_on_update(),
            r.length() == old(self).length(),
            r.name_view() == old(self).name_view(),
            *final(self) == *final(r),
    {
        self.extend_on_fetch = true;
        self
    }

    /// Lets a key expire `expiration_length` after its renewal.
    pub fn expiration_length(&mut self, expiration_length: Duration) -> (r: &mut Self)
        ensures
            r.length() == expiration_length,
            r.extends_on_update() == old(self).extends_on_update(),
            r.extends_on_fetch() == old(self).extends_on_fetch(),
            r.name_view() == old(self).name_view(),
            *final(self) == *final(r),
    {
        self.expiration_length = expiration_length;
        self
    }

    /// Opens the tree with these settings in `store`: the tree of values under
    /// its name, the tree of the times under `expires_at_name_of` that name, and
    /// the tree of the buckets under `expires_at_inverse_name_of` it, in this
    /// order. The tree borrows the store for as long as it is used; when it is
    /// used no longer, the same settings open the same three trees again.
    /// Whether the trees can be opened is for the database to decide.
    pub fn build<'s>(&self, store: &'s mut Store) -> (r: Result<ExpiringTree<'s, V, E, F>, TreeError>)
        ensures
            match r {
                Ok(tree) => {
                    &&& tree.name_view() == self.name_view()
                    &&& tree.expires_at_name() == expires_at_name_of(self.name_view())
                    &&& tree.expires_at_inverse_name() == expires_at_inverse_name_of(
                        self.name_view(),
                    )
                    &&& tree.extends_on_update() == self.extends_on_update()
                    &&& tree.extends_on_fetch() == self.extends_on_fetch()
                    &&& tree.length() == self.length()
                },
                Err(e) => e.is_engine(),
            },
    {
        let data = match store.open(self.data.as_str()) {
            Ok(tree) => StructuredTree::over(tree, self.data.as_str()),
            Err(e) => {
                return Err(TreeError::Sled(e));
            },
        };
        let forward = self.data.clone().concat("-expires-at");
        let expires_at = match store.open(forward.as_str()) {
            Ok(tree) => StructuredTree::over(tree, forward.as_str()),
            Err(e) => {
                return Err(TreeError::Sled(e));
            },
        };
        let inverse = self.data.clone().concat("-expires-at-inverse");
        let expires_at_inverse = match store.open(inverse.as_str()) {
            Ok(tree) => StructuredTree::over(tree, inverse.as_str()),
            Err(e) => {
                return Err(TreeError::Sled(e));
            },
        };
        Ok(
            ExpiringTree {
                data,
                expires_at,
                expires_at_inverse,
                extend_on_update: self.extend_on_update,
                extend_on_fetch: self.extend_on_fetch,
                expiration_length: self.expiration_length,
            },
        )
    }
}

/// The name of the tree that holds the times of the tree called `name`.
pub open spec fn expires_at_name_of(name: Seq<char>) -> Seq<char> {
    name + "-expires-at"@
}

/// The name of the tree that holds the buckets of the tree called `name`.
pub open spec fn expires_at_inverse_name_of(name: Seq<char>) -> Seq<char> {
    name + "-expires-at-inverse"@
}

} // verus!
