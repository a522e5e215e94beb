//! The expiry times of keys, in two trees. One holds, under each key, the time
//! at which the key expires. The other holds, under the text of each such time,
//! the set of the keys that expire then: its bucket.
//!
//! Here is what renewing and forgetting an expiry do to the two trees, and the
//! code that does it.

use vstd::prelude::*;
use crate::bytes::{is_scan, key_lt, lookup, put};
use crate::encoding::{stored, view_of, Encoding};
use crate::error::TreeError;
use crate::key_set::{with_key, without_key, KeySet};
use crate::structured_tree::{
    encoding_failed, engine_failed, Ran, StructuredTransactionalTree, StructuredTree,
};
use crate::time::{Duration, Timestamp};

verus! {

/// What the two trees of expiry times hold, as stored bytes.
pub struct Expirations {
    /// Under each key, the time at which it expires.
    pub expires_at: Map<Seq<u8>, Seq<u8>>,
    /// Under the text of each expiry time, the keys that expire then.
    pub expires_at_inverse: Map<Seq<u8>, Seq<u8>>,
}

/// Something is stored, and it cannot be read as a `T`.
pub open spec fn unreadable<T: View, E: Encoding<T>>(raw: Option<Seq<u8>>) -> bool {
    raw matches Some(bytes) && E::decoding(bytes) is None
}

/// The keys of a bucket once `key` has left it: no bucket where none was, and
/// none where `key` was its last key.
pub open spec fn taken_out(bucket: Option<Seq<Seq<u8>>>, key: Seq<u8>) -> Option<Seq<Seq<u8>>> {
    match bucket {
        Some(keys) => if without_key(keys, key).len() == 0 {
            None
        } else {
            Some(without_key(keys, key))
        },
        None => None,
    }
}

/// The keys of a bucket once `key` has joined it.
pub open spec fn put_in(bucket: Option<Seq<Seq<u8>>>, key: Seq<u8>) -> Option<Seq<Seq<u8>>> {
    match bucket {
        Some(keys) => Some(with_key(keys, key)),
        None => Some(seq![key]),
    }
}

/// The stored bucket once `key` has left it. A bucket that cannot be read counts
/// as none, and so does one that cannot be written.
pub open spec fn bucket_without<E: Encoding<KeySet>>(raw: Option<Seq<u8>>, key: Seq<u8>) -> Option<
    Seq<u8>,
> {
    match taken_out(stored::<KeySet, E>(raw), key) {
        Some(keys) => E::encoding(keys),
        None => None,
    }
}

/// The stored bucket once `key` has joined it. A bucket that cannot be read counts
/// as none, and so does one that cannot be written.
pub open spec fn bucket_with<E: Encoding<KeySet>>(raw: Option<Seq<u8>>, key: Seq<u8>) -> Option<
    Seq<u8>,
> {
    match put_in(stored::<KeySet, E>(raw), key) {
        Some(keys) => E::encoding(keys),
        None => None,
    }
}

/// The buckets once `key` has left the bucket of the time `from`.
pub open spec fn moved_out<E: Encoding<KeySet>>(
    buckets: Map<Seq<u8>, Seq<u8>>,
    key: Seq<u8>,
    from: Timestamp,
) -> Map<Seq<u8>, Seq<u8>> {
    put(buckets, from.text(), bucket_without::<E>(lookup(buckets, from.text()), key))
}

/// The buckets once `key` has joined the bucket of the time `to`.
pub open spec fn moved_in<E: Encoding<KeySet>>(
    buckets: Map<Seq<u8>, Seq<u8>>,
    key: Seq<u8>,
    to: Timestamp,
) -> Map<Seq<u8>, Seq<u8>> {
    put(buckets, to.text(), bucket_with::<E>(lookup(buckets, to.text()), key))
}

/// What forgetting the expiry of `key` leaves, and whether it succeeds.
///
/// The key's time is removed. Where it cannot be read, the work ends there and
/// fails. Else the key leaves the bucket of that time; where what is left of the
/// bucket cannot be read back, the work fails.
pub open spec fn forgotten<E: Encoding<Timestamp> + Encoding<KeySet>>(
    before: Expirations,
    key: Seq<u8>,
) -> (Expirations, bool) {
    let expires_at = before.expires_at.remove(key);
    match lookup(before.expires_at, key) {
        None => (Expirations { expires_at, expires_at_inverse: before.expires_at_inverse }, true),
        Some(bytes) => match <E as Encoding<Timestamp>>::decoding(bytes) {
            None => (
                Expirations { expires_at, expires_at_inverse: before.expires_at_inverse },
                false,
            ),
            Some(from) => {
                let left = moved_out::<E>(before.expires_at_inverse, key, from);
                (
                    Expirations { expires_at, expires_at_inverse: left },
                    !unreadable::<KeySet, E>(lookup(left, from.text())),
                )
            },
        },
    }
}

/// What setting the expiry of `key` to `expiry` leaves, and whether it succeeds.
///
/// A time that cannot be written changes nothing and fails. Else the time is
/// stored under the key. Where the time stored before cannot be read, the work
/// ends there and fails. Else the key leaves the bucket of the time before and
/// joins that of `expiry`; where a bucket cannot be read back after its change,
/// the work ends there and fails.
pub open spec fn refreshed<E: Encoding<Timestamp> + Encoding<KeySet>>(
    before: Expirations,
    key: Seq<u8>,
    expiry: Timestamp,
) -> (Expirations, bool) {
    match <E as Encoding<Timestamp>>::encoding(expiry) {
        None => (before, false),
        Some(bytes) => {
            let expires_at = before.expires_at.insert(key, bytes);
            let held = lookup(before.expires_at, key);
            if unreadable::<Timestamp, E>(held) {
                (Expirations { expires_at, expires_at_inverse: before.expires_at_inverse }, false)
            } else {
                let left = match stored::<Timestamp, E>(held) {
                    Some(from) => moved_out::<E>(before.expires_at_inverse, key, from),
                    None => before.expires_at_inverse,
                };
                if stored::<Timestamp, E>(held) matches Some(from) && unreadable::<KeySet, E>(
                    lookup(left, from.text()),
                ) {
                    (Expirations { expires_at, expires_at_inverse: left }, false)
                } else {
                    let joined = moved_in::<E>(left, key, expiry);
                    (
                        Expirations { expires_at, expires_at_inverse: joined },
                        !unreadable::<KeySet, E>(lookup(joined, expiry.text())),
                    )
                }
            }
        },
    }
}

/// What renewing the expiry of `key` leaves where `on` is set, and nothing new
/// where it is not.
pub open spec fn refreshed_if<E: Encoding<Timestamp> + Encoding<KeySet>>(
    on: bool,
    before: Expirations,
    key: Seq<u8>,
    expiry: Timestamp,
) -> (Expirations, bool) {
    if on {
        refreshed::<E>(before, key, expiry)
    } else {
        (before, true)
    }
}

/// What the expiry times become when `key` has been given a new value, or none:
/// with a value the expiry is renewed where `on` is set and left alone where it
/// is not, and with no value it is forgotten.
pub open spec fn after_write<E: Encoding<Timestamp> + Encoding<KeySet>>(
    present: bool,
    on: bool,
    before: Expirations,
    key: Seq<u8>,
    expiry: Timestamp,
) -> (Expirations, bool) {
    if present {
        refreshed_if::<E>(on, before, key, expiry)
    } else {
        forgotten::<E>(before, key)
    }
}

/// What renewing the expiry of each of `keys` in turn leaves, and whether it
/// succeeds. The work ends with the first key for which it fails.
pub open spec fn refreshed_all<E: Encoding<Timestamp> + Encoding<KeySet>>(
    before: Expirations,
    keys: Seq<Seq<u8>>,
    expiry: Timestamp,
) -> (Expirations, bool)
    decreases keys.len(),
{
    if keys.len() == 0 {
        (before, true)
    } else {
        let first = refreshed::<E>(before, keys.first(), expiry);
        if first.1 {
            refreshed_all::<E>(first.0, keys.drop_first(), expiry)
        } else {
            first
        }
    }
}

/// What renewing the expiry of each of `keys` leaves where `on` is set, and
/// nothing new where it is not.
pub open spec fn refreshed_all_if<E: Encoding<Timestamp> + Encoding<KeySet>>(
    on: bool,
    before: Expirations,
    keys: Seq<Seq<u8>>,
    expiry: Timestamp,
) -> (Expirations, bool) {
    if on {
        refreshed_all::<E>(before, keys, expiry)
    } else {
        (before, true)
    }
}

/// The keys in the buckets of `items`, bucket after bucket. A bucket that cannot
/// be read gives none.
pub open spec fn expired_in<E: Encoding<KeySet>>(items: Seq<(Seq<u8>, Seq<u8>)>) -> Seq<Seq<u8>>
    decreases items.len(),
{
    if items.len() == 0 {
        Seq::empty()
    } else {
        expired_in::<E>(items.drop_last()) + match E::decoding(items.last().1) {
            Some(keys) => keys,
            None => Seq::empty(),
        }
    }
}

/// `items` are the buckets of the times whose text comes before `text`, in the
/// order of their texts.
pub open spec fn is_due(
    items: Seq<(Seq<u8>, Seq<u8>)>,
    buckets: Map<Seq<u8>, Seq<u8>>,
    text: Seq<u8>,
) -> bool {
    is_scan(items, buckets, |key: Seq<u8>| key_lt(key, text))
}

/// What two trees of expiry times hold.
pub open spec fn held_by<E: Encoding<Timestamp> + Encoding<KeySet>>(
    expires_at: StructuredTree<Timestamp, E>,
    expires_at_inverse: StructuredTree<KeySet, E>,
) -> Expirations {
    Expirations { expires_at: expires_at.raw(), expires_at_inverse: expires_at_inverse.raw() }
}

/// Forgets the expiry of `key` in the two trees of expiry times.
pub(crate) fn forget_expiry<E: Encoding<Timestamp> + Encoding<KeySet>>(
    expires_at: &mut StructuredTree<Timestamp, E>,
    expires_at_inverse: &mut StructuredTree<KeySet, E>,
    key: &[u8],
) -> (r: Result<(), TreeError>)
    ensures
        final(expires_at).name_view() == old(expires_at).name_view(),
        final(expires_at_inverse).name_view() == old(expires_at_inverse).name_view(),
        engine_failed(r) || {
            &&& held_by(*final(expires_at), *final(expires_at_inverse)) == forgotten::<E>(
                held_by(*old(expires_at), *old(expires_at_inverse)),
                key@,
            ).0
            &&& r is Ok == forgotten::<E>(
                held_by(*old(expires_at), *old(expires_at_inverse)),
                key@,
            ).1
        },
{
    let from = match expires_at.remove(key) {
        Ok(Some(from)) => from,
        Ok(None) => {
            assert(expires_at.raw() =~= old(expires_at).raw());
            return Ok(());
        },
        Err(e) => {
            return Err(e);
        },
    };
    let text = from.to_text();
    let f = |bucket: Option<KeySet>| -> (out: Option<KeySet>)
        ensures
            view_of(out) == taken_out(view_of(bucket), key@),
        {
            match bucket {
                Some(keys) => {
                    let mut keys = keys;
                    keys.remove(key);
                    if keys.is_empty() {
                        None
                    } else {
                        Some(keys)
                    }
                },
                None => None,
            }
        };
    match expires_at_inverse.update_and_fetch(text.as_slice(), f) {
        Ok(_) => Ok(()),
        Err(e) => Err(e),
    }
}

/// Sets the expiry of `key` to `now` and `length` in the two trees of expiry
/// times. A time that cannot be written is refused before the database is asked.
pub(crate) fn renew_expiry<E: Encoding<Timestamp> + Encoding<KeySet>>(
    expires_at: &mut StructuredTree<Timestamp, E>,
    expires_at_inverse: &mut StructuredTree<KeySet, E>,
    length: &Duration,
    key: &[u8],
    now: &Timestamp,
) -> (r: Result<(), TreeError>)
    ensures
        final(expires_at).name_view() == old(expires_at).name_view(),
        final(expires_at_inverse).name_view() == old(expires_at_inverse).name_view(),
        <E as Encoding<Timestamp>>::encoding(now.shifted(*length)) is None ==> encoding_failed(r)
            && held_by(*final(expires_at), *final(expires_at_inverse)) == held_by(
            *old(expires_at),
            *old(expires_at_inverse),
        ),
        engine_failed(r) || {
            &&& held_by(*final(expires_at), *final(expires_at_inverse)) == refreshed::<E>(
                held_by(*old(expires_at), *old(expires_at_inverse)),
                key@,
                now.shifted(*length),
            ).0
            &&& r is Ok == refreshed::<E>(
                held_by(*old(expires_at), *old(expires_at_inverse)),
                key@,
                now.shifted(*length),
            ).1
        },
{
    let expiry = now.plus(length);
    let previous = match expires_at.insert(key, expiry) {
        Ok(previous) => previous,
        Err(e) => {
            return Err(e);
        },
    };
    match previous {
        Some(from) => {
            let text = from.to_text();
            let f = |bucket: Option<KeySet>| -> (out: Option<KeySet>)
                ensures
                    view_of(out) == taken_out(view_of(bucket), key@),
                {
                    match bucket {
                        Some(keys) => {
                            let mut keys = keys;
                            keys.remove(key);
                            if keys.is_empty() {
                                None
                            } else {
                                Some(keys)
                            }
                        },
                        None => None,
                    }
                };
            match expires_at_inverse.update_and_fetch(text.as_slice(), f) {
                Ok(_) => {},
                Err(e) => {
                    return Err(e);
                },
            }
        },
        None => {},
    }
    let text = expiry.to_text();
    let f = |bucket: Option<KeySet>| -> (out: Option<KeySet>)
        ensures
            view_of(out) == put_in(view_of(bucket), key@),
        {
            let mut keys = match bucket {
                Some(keys) => keys,
                None => KeySet::new(),
            };
            keys.insert(vstd::slice::slice_to_vec(key));
            assert(seq![key@] =~= Seq::<Seq<u8>>::empty().push(key@));
            Some(keys)
        };
    match expires_at_inverse.update_and_fetch(text.as_slice(), f) {
        Ok(_) => Ok(()),
        Err(e) => Err(e),
    }
}

/// A note that a transaction leaves for after its end: a key with the time at
/// which its expiry is to be renewed, or with no time where the expiry is to be
/// forgotten.
pub type Note = (Vec<u8>, Option<Timestamp>);

/// The notes of a list, each with the bytes of its key.
pub open spec fn notes_of(notes: Seq<Note>) -> Seq<(Seq<u8>, Option<Timestamp>)> {
    Seq::new(notes.len(), |i: int| (notes[i].0@, notes[i].1))
}

/// What following the notes in turn leaves, and whether it succeeds: for each
/// note the expiry of its key is renewed from the time of the note and `length`,
/// or forgotten where the note has no time. A note for which this fails does
/// not keep the notes behind it from being followed.
pub open spec fn settled<E: Encoding<Timestamp> + Encoding<KeySet>>(
    before: Expirations,
    notes: Seq<(Seq<u8>, Option<Timestamp>)>,
    length: Duration,
) -> (Expirations, bool)
    decreases notes.len(),
{
    if notes.len() == 0 {
        (before, true)
    } else {
        let first = match notes.first().1 {
            Some(now) => refreshed::<E>(before, notes.first().0, now.shifted(length)),
            None => forgotten::<E>(before, notes.first().0),
        };
        let rest = settled::<E>(first.0, notes.drop_first(), length);
        (rest.0, first.1 && rest.1)
    }
}

/// What two trees of expiry times hold as a transaction sees them.
pub open spec fn seen_by<E: Encoding<Timestamp> + Encoding<KeySet>>(
    expires_at: StructuredTransactionalTree<Timestamp, E>,
    expires_at_inverse: StructuredTransactionalTree<KeySet, E>,
) -> Expirations {
    Expirations { expires_at: expires_at.seen(), expires_at_inverse: expires_at_inverse.seen() }
}

/// Forgets the expiry of `key` within a transaction. Whether the outer result is
/// `Ok` is for the database to decide.
pub(crate) fn forget_expiry_in<E: Encoding<Timestamp> + Encoding<KeySet>>(
    expires_at: &mut StructuredTransactionalTree<Timestamp, E>,
    expires_at_inverse: &mut StructuredTransactionalTree<KeySet, E>,
    key: &[u8],
) -> (r: Ran<()>)
    ensures
        r matches Ok(inner) ==> {
            &&& seen_by(*final(expires_at), *final(expires_at_inverse)) == forgotten::<E>(
                seen_by(*old(expires_at), *old(expires_at_inverse)),
                key@,
            ).0
            &&& inner is Ok == forgotten::<E>(
                seen_by(*old(expires_at), *old(expires_at_inverse)),
                key@,
            ).1
            &&& inner is Err ==> encoding_failed(inner)
        },
{
    let from = match expires_at.remove(vstd::slice::slice_to_vec(key)) {
        Ok(Ok(Some(from))) => from,
        Ok(Ok(None)) => {
            assert(expires_at.seen() =~= old(expires_at).seen());
            return Ok(Ok(()));
        },
        Ok(Err(e)) => {
            return Ok(Err(e));
        },
        Err(e) => {
            return Err(e);
        },
    };
    let text = from.to_text();
    let f = |bucket: Option<KeySet>| -> (out: Option<KeySet>)
        ensures
            view_of(out) == taken_out(view_of(bucket), key@),
        {
            match bucket {
                Some(keys) => {
                    let mut keys = keys;
                    keys.remove(key);
                    if keys.is_empty() {
                        None
                    } else {
                        Some(keys)
                    }
                },
                None => None,
            }
        };
    match expires_at_inverse.update_and_fetch(text.as_slice(), f) {
        Ok(Ok(_)) => Ok(Ok(())),
        Ok(Err(e)) => Ok(Err(e)),
        Err(e) => Err(e),
    }
}

/// Sets the expiry of `key` to `now` and `length` within a transaction.
///
/// A time that cannot be written is refused before the database is asked: the
/// outer result is then `Ok`. For every other time it is for the database to
/// decide whether the outer result is `Ok`.
pub(crate) fn renew_expiry_in<E: Encoding<Timestamp> + Encoding<KeySet>>(
    expires_at: &mut StructuredTransactionalTree<Timestamp, E>,
    expires_at_inverse: &mut StructuredTransactionalTree<KeySet, E>,
    length: &Duration,
    key: &[u8],
    now: &Timestamp,
) -> (r: Ran<()>)
    ensures
        <E as Encoding<Timestamp>>::encoding(now.shifted(*length)) is None ==> r is Ok,
        r matches Ok(inner) ==> {
            &&& seen_by(*final(expires_at), *final(expires_at_inverse)) == refreshed::<E>(
                seen_by(*old(expires_at), *old(expires_at_inverse)),
                key@,
                now.shifted(*length),
            ).0
            &&& inner is Ok == refreshed::<E>(
                seen_by(*old(expires_at), *old(expires_at_inverse)),
                key@,
                now.shifted(*length),
            ).1
            &&& inner is Err ==> encoding_failed(inner)
        },
{
    let expiry = now.plus(length);
    let previous = match expires_at.insert(vstd::slice::slice_to_vec(key), expiry) {
        Ok(Ok(previous)) => previous,
        Ok(Err(e)) => {
            return Ok(Err(e));
        },
        Err(e) => {
            return Err(e);
        },
    };
    match previous {
        Some(from) => {
            let text = from.to_text();
            let f = |bucket: Option<KeySet>| -> (out: Option<KeySet>)
                ensures
                    view_of(out) == taken_out(view_of(bucket), key@),
                {
                    match bucket {
                        Some(keys) => {
                            let mut keys = keys;
                            keys.remove(key);
                            if keys.is_empty() {
                                None
                            } else {
                                Some(keys)
                            }
                        },
                        None => None,
                    }
                };
            match expires_at_inverse.update_and_fetch(text.as_slice(), f) {
                Ok(Ok(_)) => {},
                Ok(Err(e)) => {
                    return Ok(Err(e));
                },
                Err(e) => {
                    return Err(e);
                },
            }
        },
        None => {},
    }
    let text = expiry.to_text();
    let f = |bucket: Option<KeySet>| -> (out: Option<KeySet>)
        ensures
            view_of(out) == put_in(view_of(bucket), key@),
        {
            let mut keys = match bucket {
                Some(keys) => keys,
                None => KeySet::new(),
            };
            keys.insert(vstd::slice::slice_to_vec(key));
            assert(seq![key@] =~= Seq::<Seq<u8>>::empty().push(key@));
            Some(keys)
        };
    match expires_at_inverse.update_and_fetch(text.as_slice(), f) {
        Ok(Ok(_)) => Ok(Ok(())),
        Ok(Err(e)) => Ok(Err(e)),
        Err(e) => Err(e),
    }
}

} // verus!
