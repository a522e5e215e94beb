//! An expiring tree within a transaction.
//!
//! The values and the expiry times are read and written within the
//! transaction: an expiry is renewed or forgotten by the call that asks for
//! it, and its error is the inner error of that call. Where the transaction
//! ends well, the three trees change together. Where it is given up, the
//! database takes back what was written to the three trees; the expiry times
//! are then renewed and forgotten once more, outside the transaction, as the
//! transaction noted them, so that only the values are as they were before.

use vstd::prelude::*;
use crate::bytes::lookup;
use crate::encoding::Encoding;
use crate::engine::applied;
use crate::error::TreeError;
use crate::expiring_batch::ExpiringBatch;
use crate::expiring_tree::{followed_by, ExpiringTree};
use crate::expiry::{
    forget_expiry_in, forgotten, notes_of, refreshed, refreshed_all, refreshed_all_if,
    refreshed_if, renew_expiry_in, seen_by, unreadable, Expirations, Note,
};
use crate::key_set::{key_views, KeySet};
use crate::structured_tree::{encoding_failed, Ran, StructuredTransactionalTree};
use crate::time::{Duration, Timestamp};

verus! {

/// An expiring tree as a transaction sees it. What it writes to the values and
/// to the expiry times reaches the three trees together when the transaction
/// ends well. When the transaction is given up, the values stay as they were,
/// and the expiry times are renewed and forgotten as the transaction noted.
pub struct ExpiringTransactionalTree<V, E, F> {
    data: StructuredTransactionalTree<V, F>,
    expires_at: StructuredTransactionalTree<Timestamp, E>,
    expires_at_inverse: StructuredTransactionalTree<KeySet, E>,
    notes: Vec<Note>,
    extend_on_update: bool,
    extend_on_fetch: bool,
    expiration_length: Duration,
}

/// The notes with one more for `key`, where `on` is set.
pub open spec fn noted_if(
    on: bool,
    notes: Seq<(Seq<u8>, Option<Timestamp>)>,
    key: Seq<u8>,
    at: Option<Timestamp>,
) -> Seq<(Seq<u8>, Option<Timestamp>)> {
    if on {
        notes.push((key, at))
    } else {
        notes
    }
}

/// The notes with one more for each of `keys`, all at the time `now`, where `on`
/// is set.
pub open spec fn noted_all_if(
    on: bool,
    notes: Seq<(Seq<u8>, Option<Timestamp>)>,
    keys: Seq<Seq<u8>>,
    now: Timestamp,
) -> Seq<(Seq<u8>, Option<Timestamp>)> {
    if on {
        notes + Seq::new(keys.len(), |i: int| (keys[i], Some(now)))
    } else {
        notes
    }
}

impl<V: View, E: Encoding<Timestamp> + Encoding<KeySet>, F: Encoding<V>> ExpiringTransactionalTree<
    V,
    E,
    F,
> {
    /// The bytes under each key of the tree of values, as the transaction sees
    /// them.
    pub closed spec fn data(&self) -> Map<Seq<u8>, Seq<u8>> {
        self.data.seen()
    }

    /// What the two trees of expiry times hold, as the transaction sees them.
    pub closed spec fn expirations(&self) -> Expirations {
        seen_by(self.expires_at, self.expires_at_inverse)
    }

    /// The expiries that the transaction has renewed and forgotten so far, in
    /// the order in which it did: each key with the time from which its expiry
    /// was renewed, or with none where it was forgotten.
    pub closed spec fn noted(&self) -> Seq<(Seq<u8>, Option<Timestamp>)> {
        notes_of(self.notes@)
    }

    /// Whether storing a value renews the expiry of its key.
    pub closed spec fn extends_on_update(&self) -> bool {
        self.extend_on_update
    }

    /// Whether reading a value renews the expiry of its key.
    pub closed spec fn extends_on_fetch(&self) -> bool {
        self.extend_on_fetch
    }

    /// How long after its renewal a key expires.
    pub closed spec fn length(&self) -> Duration {
        self.expiration_length
    }

    /// The three trees as a transaction sees them, with the settings of an
    /// expiring tree and no note yet.
    pub(crate) fn over(
        data: StructuredTransactionalTree<V, F>,
        expires_at: StructuredTransactionalTree<Timestamp, E>,
        expires_at_inverse: StructuredTransactionalTree<KeySet, E>,
        extend_on_update: bool,
        extend_on_fetch: bool,
        expiration_length: Duration,
    ) -> (r: Self)
        ensures
            r.data() == data.seen(),
            r.expirations() == seen_by(expires_at, expires_at_inverse),
            r.noted() == Seq::<(Seq<u8>, Option<Timestamp>)>::empty(),
            r.extends_on_update() == extend_on_update,
            r.extends_on_fetch() == extend_on_fetch,
            r.length() == expiration_length,
    {
        let r = ExpiringTransactionalTree {
            data,
            expires_at,
            expires_at_inverse,
            notes: Vec::new(),
            extend_on_update,
            extend_on_fetch,
            expiration_length,
        };
        assert(r.noted() =~= Seq::<(Seq<u8>, Option<Timestamp>)>::empty());
        r
    }

    /// The three trees as the transaction sees them, and its notes.
    pub(crate) fn into_parts(self) -> (r: (
        StructuredTransactionalTree<V, F>,
        StructuredTransactionalTree<Timestamp, E>,
        StructuredTransactionalTree<KeySet, E>,
        Vec<Note>,
    ))
        ensures
            r.0.seen() == self.data(),
            seen_by(r.1, r.2) == self.expirations(),
            notes_of(r.3@) == self.noted(),
    {
        (self.data, self.expires_at, self.expires_at_inverse, self.notes)
    }

    /// The transaction has the settings of `tree`, sees what `tree` holds, and
    /// has noted nothing: it has done nothing yet.
    pub open spec fn begins(&self, tree: &ExpiringTree<V, E, F>) -> bool {
        &&& self.extends_on_update() == tree.extends_on_update()
        &&& self.extends_on_fetch() == tree.extends_on_fetch()
        &&& self.length() == tree.length()
        &&& self.data() == tree.data()
        &&& self.expirations() == tree.expirations()
        &&& self.noted() == Seq::<(Seq<u8>, Option<Timestamp>)>::empty()
    }

    /// The settings are the same in `self` and `other`.
    pub open spec fn same_settings(&self, other: &Self) -> bool {
        &&& self.extends_on_update() == other.extends_on_update()
        &&& self.extends_on_fetch() == other.extends_on_fetch()
        &&& self.length() == other.length()
    }

    /// Adds a note.
    fn note(&mut self, key: Vec<u8>, at: Option<Timestamp>)
        ensures
            final(self).same_settings(old(self)),
            final(self).data() == old(self).data(),
            final(self).expirations() == old(self).expirations(),
            final(self).noted() == old(self).noted().push((key@, at)),
    {
        let ghost before = self.noted();
        self.notes.push((key, at));
        assert(self.noted() =~= before.push((key@, at)));
    }

    /// What a write or a read of a value gives when a step on the expiry times
    /// has followed it: the error of the step, where it has one, and else the
    /// value `first` that the tree of values gave.
    pub fn answer_after(first: Option<V>, step: Result<(), TreeError>) -> (r: Result<
        Option<V>,
        TreeError,
    >)
        ensures
            r == match step {
                Ok(()) => Ok::<Option<V>, TreeError>(first),
                Err(e) => Err(e),
            },
    {
        match step {
            Ok(()) => Ok(first),
            Err(e) => Err(e),
        }
    }

    /// What `insert_at` gives and leaves, where the database answers.
    ///
    /// A value that cannot be written is not stored, and nothing else changes.
    /// Else the value is stored. Where what the key held before cannot be read,
    /// the encoding's error comes and the expiry stays. Else, where the tree
    /// extends on update, the expiry of the key is renewed and noted; an error of
    /// the renewal is the inner error.
    pub open spec fn inserted(
        before: Self,
        after: Self,
        key: Seq<u8>,
        value: V::V,
        now: Timestamp,
        inner: Result<Option<V>, TreeError>,
    ) -> bool {
        match F::encoding(value) {
            None => {
                &&& encoding_failed(inner)
                &&& after.data() == before.data()
                &&& after.expirations() == before.expirations()
                &&& after.noted() == before.noted()
            },
            Some(bytes) => {
                &&& after.data() == before.data().insert(key, bytes)
                &&& followed_by::<V, F>(
                    lookup(before.data(), key),
                    before.expirations(),
                    refreshed_if::<E>(
                        before.extends_on_update(),
                        before.expirations(),
                        key,
                        now.shifted(before.length()),
                    ),
                    after.expirations(),
                    inner,
                )
                &&& after.noted() == noted_if(
                    before.extends_on_update() && !unreadable::<V, F>(lookup(before.data(), key)),
                    before.noted(),
                    key,
                    Some(now),
                )
            },
        }
    }

    /// Stores `value` under `key` within the transaction, at the time `now`, and
    /// returns what the key held as the transaction sees it. Where the tree
    /// extends on update, the expiry of the key is renewed before the call
    /// returns.
    ///
    /// A value that cannot be written is refused before the database is asked,
    /// and the outer result is `Ok`. For every other value it is for the
    /// database to decide whether the outer result is `Ok`; where it is not,
    /// nothing is noted.
    pub fn insert_at(&mut self, key: Vec<u8>, value: V, now: &Timestamp) -> (r: Ran<Option<V>>)
        ensures
            final(self).same_settings(old(self)),
            F::encoding(value@) is None ==> r is Ok,
            r matches Ok(inner) ==> Self::inserted(*old(self), *final(self), key@, value@, *now, inner),
            r is Err ==> final(self).noted() == old(self).noted(),
    {
        let at = vstd::slice::slice_to_vec(key.as_slice());
        let first = match self.data.insert(key, value) {
            Ok(first) => first,
            Err(e) => {
                return Err(e);
            },
        };
        match first {
            Ok(previous) => {
                if self.extend_on_update {
                    let step = match renew_expiry_in(
                        &mut self.expires_at,
                        &mut self.expires_at_inverse,
                        &self.expiration_length,
                        at.as_slice(),
                        now,
                    ) {
                        Ok(step) => step,
                        Err(e) => {
                            return Err(e);
                        },
                    };
                    self.note(at, Some(*now));
                    Ok(Self::answer_after(previous, step))
                } else {
                    Ok(Ok(previous))
                }
            },
            Err(e) => Ok(Err(e)),
        }
    }

    /// Stores `value` under `key` within the transaction, and returns what the
    /// key held as the transaction sees it. Where the tree extends on update, the
    /// expiry of the key is renewed from the clock before the call returns.
    pub fn insert(&mut self, key: Vec<u8>, value: V) -> (r: Ran<Option<V>>)
        ensures
            final(self).same_settings(old(self)),
            F::encoding(value@) is None ==> r is Ok,
            r matches Ok(inner) ==> exists|now: Timestamp|
                now.is_valid() && #[trigger] Self::inserted(
                    *old(self),
                    *final(self),
                    key@,
                    value@,
                    now,
                    inner,
                ),
            r is Err ==> final(self).noted() == old(self).noted(),
    {
        let now = Timestamp::now();
        self.insert_at(key, value, &now)
    }

    /// What `remove` gives and leaves, where the database answers: the key is
    /// gone. Where what it held cannot be read, the encoding's error comes and
    /// the expiry stays. Else the expiry of the key is forgotten, and that is
    /// noted; an error of the forgetting is the inner error.
    pub open spec fn removed(
        before: Self,
        after: Self,
        key: Seq<u8>,
        inner: Result<Option<V>, TreeError>,
    ) -> bool {
        &&& after.data() == before.data().remove(key)
        &&& followed_by::<V, F>(
            lookup(before.data(), key),
            before.expirations(),
            forgotten::<E>(before.expirations(), key),
            after.expirations(),
            inner,
        )
        &&& after.noted() == noted_if(
            !unreadable::<V, F>(lookup(before.data(), key)),
            before.noted(),
            key,
            None,
        )
    }

    /// Removes `key` with its expiry within the transaction, and returns what the
    /// key held as the transaction sees it. Whether the outer result is `Ok` is
    /// for the database to decide; where it is not, nothing is noted.
    pub fn remove(&mut self, key: Vec<u8>) -> (r: Ran<Option<V>>)
        ensures
            final(self).same_settings(old(self)),
            r matches Ok(inner) ==> Self::removed(*old(self), *final(self), key@, inner),
            r is Err ==> final(self).noted() == old(self).noted(),
    {
        let at = vstd::slice::slice_to_vec(key.as_slice());
        let first = match self.data.remove(key) {
            Ok(first) => first,
            Err(e) => {
                return Err(e);
            },
        };
        match first {
            Ok(previous) => {
                let step = match forget_expiry_in(
                    &mut self.expires_at,
                    &mut self.expires_at_inverse,
                    at.as_slice(),
                ) {
                    Ok(step) => step,
                    Err(e) => {
                        return Err(e);
                    },
                };
                self.note(at, None);
                Ok(Self::answer_after(previous, step))
            },
            Err(e) => Ok(Err(e)),
        }
    }

    /// What `get_at` gives and leaves, where the database answers: the values
    /// stay. Where what the key holds cannot be read, the encoding's error comes
    /// and the expiry stays. Else, where the tree extends on fetch, the expiry of
    /// the key is renewed and noted; an error of the renewal is the inner error.
    pub open spec fn fetched(
        before: Self,
        after: Self,
        key: Seq<u8>,
        now: Timestamp,
        inner: Result<Option<V>, TreeError>,
    ) -> bool {
        &&& after.data() == before.data()
        &&& followed_by::<V, F>(
            lookup(before.data(), key),
            before.expirations(),
            refreshed_if::<E>(
                before.extends_on_fetch(),
                before.expirations(),
                key,
                now.shifted(before.length()),
            ),
            after.expirations(),
            inner,
        )
        &&& after.noted() == noted_if(
            before.extends_on_fetch() && !unreadable::<V, F>(lookup(before.data(), key)),
            before.noted(),
            key,
            Some(now),
        )
    }

    /// What `key` holds as the transaction sees it, read at the time `now`. The
    /// values stay as they are, whatever the database answers; whether the outer
    /// result is `Ok` is for the database to decide, and where it is not,
    /// nothing is noted.
    pub fn get_at(&mut self, key: &[u8], now: &Timestamp) -> (r: Ran<Option<V>>)
        ensures
            final(self).same_settings(old(self)),
            final(self).data() == old(self).data(),
            r matches Ok(inner) ==> Self::fetched(*old(self), *final(self), key@, *now, inner),
            r is Err ==> final(self).noted() == old(self).noted(),
    {
        let first = match self.data.get(key) {
            Ok(first) => first,
            Err(e) => {
                return Err(e);
            },
        };
        match first {
            Ok(found) => {
                if self.extend_on_fetch {
                    let step = match renew_expiry_in(
                        &mut self.expires_at,
                        &mut self.expires_at_inverse,
                        &self.expiration_length,
                        key,
                        now,
                    ) {
                        Ok(step) => step,
                        Err(e) => {
                            return Err(e);
                        },
                    };
                    self.note(vstd::slice::slice_to_vec(key), Some(*now));
                    Ok(Self::answer_after(found, step))
                } else {
                    Ok(Ok(found))
                }
            },
            Err(e) => Ok(Err(e)),
        }
    }

    /// What `key` holds as the transaction sees it. Where the tree extends on
    /// fetch, the expiry of the key is renewed from the clock before the call
    /// returns. The values stay as they are, whatever the database answers.
    pub fn get(&mut self, key: &[u8]) -> (r: Ran<Option<V>>)
        ensures
            final(self).same_settings(old(self)),
            final(self).data() == old(self).data(),
            r matches Ok(inner) ==> exists|now: Timestamp|
                now.is_valid() && #[trigger] Self::fetched(*old(self), *final(self), key@, now, inner),
            r is Err ==> final(self).noted() == old(self).noted(),
    {
        let now = Timestamp::now();
        self.get_at(key, &now)
    }

    /// What `apply_batch_at` gives and leaves, where the database answers: the
    /// values change by the writes of the batch. Where the tree extends on
    /// update, the expiry of each key under which the batch stores a value is
    /// noted, and renewed, one key after the other, up to the first for which
    /// that fails; its error is the inner error. The expiry of a key that the
    /// batch removes stays.
    pub open spec fn batch_applied(
        before: Self,
        after: Self,
        batch: ExpiringBatch<V, F>,
        now: Timestamp,
        inner: Result<(), TreeError>,
    ) -> bool {
        let then = refreshed_all_if::<E>(
            before.extends_on_update(),
            before.expirations(),
            batch.inserted(),
            now.shifted(before.length()),
        );
        &&& after.data() == applied(before.data(), batch.writes())
        &&& after.expirations() == then.0
        &&& if then.1 {
            inner is Ok
        } else {
            encoding_failed(inner)
        }
        &&& after.noted() == noted_all_if(
            before.extends_on_update(),
            before.noted(),
            batch.inserted(),
            now,
        )
    }

    /// Makes the writes of `batch` within the transaction, at the time `now`,
    /// and renews the expiries before the call returns. Whether the outer result
    /// is `Ok` is for the database to decide.
    pub fn apply_batch_at(&mut self, batch: ExpiringBatch<V, F>, now: &Timestamp) -> (r: Ran<()>)
        ensures
            final(self).same_settings(old(self)),
            r matches Ok(inner) ==> Self::batch_applied(*old(self), *final(self), batch, *now, inner),
    {
        let (writes, keys) = batch.into_parts();
        match self.data.apply_batch(writes) {
            Ok(()) => {},
            Err(e) => {
                return Err(e);
            },
        }
        if self.extend_on_update {
            let ghost all = key_views(keys@);
            let ghost noted = self.noted();
            let mut n: usize = 0;
            while n < keys.len()
                invariant
                    n <= keys@.len(),
                    all == key_views(keys@),
                    self.same_settings(old(self)),
                    self.expirations() == old(self).expirations(),
                    self.data() == applied(old(self).data(), batch.writes()),
                    self.noted() == noted + Seq::new(n as nat, |j: int| (all[j], Some(*now))),
                decreases keys@.len() - n,
            {
                self.note(vstd::slice::slice_to_vec(keys[n].as_slice()), Some(*now));
                assert(self.noted() =~= noted + Seq::new(
                    (n + 1) as nat,
                    |j: int| (all[j], Some(*now)),
                ));
                n += 1;
            }
            let ghost start = self.expirations();
            let ghost expiry = now.shifted(self.length());
            assert(self.noted() =~= noted_all_if(
                true,
                old(self).noted(),
                batch.inserted(),
                *now,
            ));
            let mut i: usize = 0;
            assert(all.skip(0) =~= all);
            while i < keys.len()
                invariant
                    i <= keys@.len(),
                    all == key_views(keys@),
                    all == batch.inserted(),
                    start == old(self).expirations(),
                    self.same_settings(old(self)),
                    self.extends_on_update(),
                    self.noted() == noted_all_if(true, old(self).noted(), batch.inserted(), *now),
                    expiry == now.shifted(self.length()),
                    self.data() == applied(old(self).data(), batch.writes()),
                    refreshed_all::<E>(self.expirations(), all.skip(i as int), expiry)
                        == refreshed_all::<E>(start, all, expiry),
                decreases keys@.len() - i,
            {
                let ghost here = self.expirations();
                assert(all.skip(i as int).first() == keys@[i as int]@);
                assert(all.skip(i as int).drop_first() =~= all.skip(i as int + 1));
                let step = renew_expiry_in(
                    &mut self.expires_at,
                    &mut self.expires_at_inverse,
                    &self.expiration_length,
                    keys[i].as_slice(),
                    now,
                );
                assert(step is Err || refreshed_all::<E>(here, all.skip(i as int), expiry) == {
                    let first = refreshed::<E>(here, keys@[i as int]@, expiry);
                    if first.1 {
                        refreshed_all::<E>(first.0, all.skip(i as int + 1), expiry)
                    } else {
                        first
                    }
                });
                match step {
                    Ok(Ok(())) => {},
                    Ok(Err(e)) => {
                        return Ok(Err(e));
                    },
                    Err(e) => {
                        return Err(e);
                    },
                }
                i += 1;
            }
        }
        Ok(Ok(()))
    }

    /// Makes the writes of `batch` within the transaction. Where the tree extends
    /// on update, the expiry of each key under which the batch stores a value is
    /// renewed from the clock before the call returns. Whether the outer result
    /// is `Ok` is for the database to decide.
    pub fn apply_batch(&mut self, batch: ExpiringBatch<V, F>) -> (r: Ran<()>)
        ensures
            final(self).same_settings(old(self)),
            r matches Ok(inner) ==> exists|now: Timestamp|
                now.is_valid() && #[trigger] Self::batch_applied(
                    *old(self),
                    *final(self),
                    batch,
                    now,
                    inner,
                ),
    {
        let now = Timestamp::now();
        self.apply_batch_at(batch, &now)
    }
}

} // verus!
