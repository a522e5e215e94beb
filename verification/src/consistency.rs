//! When the two trees of expiry times agree with each other, and why renewing and
//! forgetting an expiry keep them so.

use vstd::prelude::*;
use crate::bytes::{key_lt, lemma_key_lt_irreflexive, lemma_key_lt_transitive, lookup};
use crate::encoding::{round_trips, stored, Encoding};
use crate::error::TreeError;
use crate::expiring_tree::ExpiringTree;
use crate::expiry::{
    expired_in, forgotten, is_due, moved_in, moved_out, put_in, refreshed, settled, taken_out,
    unreadable, Expirations,
};
use crate::key_set::{
    has_short_lengths, lemma_with_key, lemma_with_key_stays_short, lemma_without_key,
    without_key, KeySet,
};
use crate::time::{Duration, Timestamp};

verus! {

/// `E` writes every time, and every set of keys whose lengths can be written in
/// eight bytes, and reads back what it wrote.
pub open spec fn faithful<E: Encoding<Timestamp> + Encoding<KeySet>>() -> bool {
    &&& round_trips::<Timestamp, E>()
    &&& round_trips::<KeySet, E>()
    &&& forall|t: Timestamp| t.is_valid() ==> (#[trigger] <E as Encoding<Timestamp>>::encoding(t)) is Some
    &&& forall|keys: Seq<Seq<u8>>|
        keys.no_duplicates() && has_short_lengths(keys) ==> (#[trigger] <E as Encoding<
            KeySet,
        >>::encoding(keys)) is Some
}

/// The time at which `key` expires, if one is stored and can be read.
pub open spec fn expiry_of<E: Encoding<Timestamp>>(x: Expirations, key: Seq<u8>) -> Option<Timestamp> {
    stored::<Timestamp, E>(lookup(x.expires_at, key))
}

/// The keys in the bucket under `text`, if one is stored and can be read.
pub open spec fn bucket_of<E: Encoding<KeySet>>(x: Expirations, text: Seq<u8>) -> Option<
    Seq<Seq<u8>>,
> {
    stored::<KeySet, E>(lookup(x.expires_at_inverse, text))
}

/// `key` is in the bucket under `text`.
pub open spec fn in_bucket<E: Encoding<KeySet>>(x: Expirations, text: Seq<u8>, key: Seq<u8>) -> bool {
    bucket_of::<E>(x, text) matches Some(keys) && keys.contains(key)
}

/// `key` expires at a time whose text is `text`.
pub open spec fn expires_under<E: Encoding<Timestamp>>(
    x: Expirations,
    key: Seq<u8>,
    text: Seq<u8>,
) -> bool {
    expiry_of::<E>(x, key) matches Some(t) && t.text() == text
}

/// Every stored bucket can be read, holds a key, and holds none twice; and its
/// lengths can be written in eight bytes.
pub open spec fn buckets_are_sets<E: Encoding<KeySet>>(buckets: Map<Seq<u8>, Seq<u8>>) -> bool {
    forall|text: Seq<u8>| #[trigger]
        buckets.contains_key(text) ==> {
            &&& <E as Encoding<KeySet>>::decoding(buckets[text]) matches Some(keys)
            &&& keys.no_duplicates()
            &&& keys.len() > 0
            &&& has_short_lengths(keys)
        }
}

/// Every stored bucket has room for one more key: no machine holds a bucket of
/// which this fails.
pub open spec fn has_room<E: Encoding<KeySet>>(buckets: Map<Seq<u8>, Seq<u8>>) -> bool {
    forall|text: Seq<u8>| #[trigger]
        buckets.contains_key(text) ==> (<E as Encoding<KeySet>>::decoding(
            buckets[text],
        ) matches Some(keys) ==> keys.len() < u64::MAX)
}

/// The two trees agree: every stored time can be read and is valid, every bucket
/// is a set that is not empty, and a key is in a bucket exactly when it expires
/// at the time of that bucket. So a key with a time is in one bucket and no
/// other, and no bucket holds a key that expires at another time, or at none.
pub open spec fn consistent<E: Encoding<Timestamp> + Encoding<KeySet>>(x: Expirations) -> bool {
    &&& forall|key: Seq<u8>| #[trigger]
        x.expires_at.contains_key(key) ==> (expiry_of::<E>(x, key) matches Some(t) && t.is_valid())
    &&& buckets_are_sets::<E>(x.expires_at_inverse)
    &&& forall|text: Seq<u8>, key: Seq<u8>| #[trigger]
        in_bucket::<E>(x, text, key) <==> expires_under::<E>(x, key, text)
}

/// The expiry of `key` can be renewed: the key is short enough to be written,
/// and every bucket has room for it.
pub open spec fn can_take<E: Encoding<KeySet>>(x: Expirations, key: Seq<u8>) -> bool {
    has_room::<E>(x.expires_at_inverse) && key.len() <= u64::MAX
}

/// Taking `key` out of the bucket at `from` changes that bucket alone, and leaves
/// every bucket a set.
pub proof fn lemma_moved_out<E: Encoding<Timestamp> + Encoding<KeySet>>(
    buckets: Map<Seq<u8>, Seq<u8>>,
    key: Seq<u8>,
    from: Timestamp,
)
    requires
        faithful::<E>(),
        buckets_are_sets::<E>(buckets),
    ensures
        buckets_are_sets::<E>(moved_out::<E>(buckets, key, from)),
        forall|text: Seq<u8>|
            stored::<KeySet, E>(#[trigger] lookup(moved_out::<E>(buckets, key, from), text)) == if text
                == from.text() {
                taken_out(stored::<KeySet, E>(lookup(buckets, text)), key)
            } else {
                stored::<KeySet, E>(lookup(buckets, text))
            },
        !unreadable::<KeySet, E>(lookup(moved_out::<E>(buckets, key, from), from.text())),
        has_room::<E>(buckets) ==> has_room::<E>(moved_out::<E>(buckets, key, from)),
{
    let at = from.text();
    let after = moved_out::<E>(buckets, key, from);
    if buckets.contains_key(at) {
        let keys = <E as Encoding<KeySet>>::decoding(buckets[at]).unwrap();
        lemma_without_key(keys, key);
        let left = without_key(keys, key);
        if left.len() > 0 {
            assert(<E as Encoding<KeySet>>::encoding(left) is Some);
        }
    }
    assert forall|text: Seq<u8>| #[trigger] after.contains_key(text) implies {
        &&& <E as Encoding<KeySet>>::decoding(after[text]) matches Some(keys)
        &&& keys.no_duplicates()
        &&& keys.len() > 0
    } by {
        if text != at {
            assert(buckets.contains_key(text));
        }
    }
}

/// Putting `key` into the bucket at `to` changes that bucket alone, and leaves
/// every bucket a set, where the key is short and the bucket has room for it.
pub proof fn lemma_moved_in<E: Encoding<Timestamp> + Encoding<KeySet>>(
    buckets: Map<Seq<u8>, Seq<u8>>,
    key: Seq<u8>,
    to: Timestamp,
)
    requires
        faithful::<E>(),
        buckets_are_sets::<E>(buckets),
        has_room::<E>(buckets),
        key.len() <= u64::MAX,
    ensures
        buckets_are_sets::<E>(moved_in::<E>(buckets, key, to)),
        forall|text: Seq<u8>|
            stored::<KeySet, E>(#[trigger] lookup(moved_in::<E>(buckets, key, to), text)) == if text
                == to.text() {
                put_in(stored::<KeySet, E>(lookup(buckets, text)), key)
            } else {
                stored::<KeySet, E>(lookup(buckets, text))
            },
        !unreadable::<KeySet, E>(lookup(moved_in::<E>(buckets, key, to), to.text())),
{
    let at = to.text();
    let after = moved_in::<E>(buckets, key, to);
    let joined = put_in(stored::<KeySet, E>(lookup(buckets, at)), key).unwrap();
    if buckets.contains_key(at) {
        let keys = <E as Encoding<KeySet>>::decoding(buckets[at]).unwrap();
        lemma_with_key(keys, key);
        lemma_with_key_stays_short(keys, key);
    } else {
        assert(seq![key].no_duplicates());
        assert(has_short_lengths(seq![key]));
    }
    assert(joined.contains(key)) by {
        if buckets.contains_key(at) {
        } else {
            assert(seq![key][0] == key);
        }
    }
    assert(<E as Encoding<KeySet>>::encoding(joined) is Some);
    assert forall|text: Seq<u8>| #[trigger] after.contains_key(text) implies {
        &&& <E as Encoding<KeySet>>::decoding(after[text]) matches Some(keys)
        &&& keys.no_duplicates()
        &&& keys.len() > 0
    } by {
        if text != at {
            assert(buckets.contains_key(text));
        }
    }
}

/// Renewing an expiry that can be renewed keeps the two trees in agreement, and
/// succeeds. After it the key expires at the new time, every other key when it
/// did before, and the key is in the bucket of the new time and in no other.
pub proof fn lemma_refresh_keeps_agreement<E: Encoding<Timestamp> + Encoding<KeySet>>(
    before: Expirations,
    key: Seq<u8>,
    expiry: Timestamp,
)
    requires
        faithful::<E>(),
        consistent::<E>(before),
        can_take::<E>(before, key),
        expiry.is_valid(),
    ensures
        refreshed::<E>(before, key, expiry).1,
        consistent::<E>(refreshed::<E>(before, key, expiry).0),
        forall|other: Seq<u8>|
            #[trigger] expiry_of::<E>(refreshed::<E>(before, key, expiry).0, other) == if other == key {
                Some(expiry)
            } else {
                expiry_of::<E>(before, other)
            },
        forall|text: Seq<u8>|
            #[trigger] in_bucket::<E>(refreshed::<E>(before, key, expiry).0, text, key) <==> text
                == expiry.text(),
{
    let after = refreshed::<E>(before, key, expiry).0;
    let bytes = <E as Encoding<Timestamp>>::encoding(expiry).unwrap();
    assert(<E as Encoding<Timestamp>>::decoding(bytes) == Some(expiry));
    let held = lookup(before.expires_at, key);
    if before.expires_at.contains_key(key) {
        assert(expiry_of::<E>(before, key) is Some);
    }
    let left = match stored::<Timestamp, E>(held) {
        Some(from) => moved_out::<E>(before.expires_at_inverse, key, from),
        None => before.expires_at_inverse,
    };
    match stored::<Timestamp, E>(held) {
        Some(from) => {
            lemma_moved_out::<E>(before.expires_at_inverse, key, from);
        },
        None => {},
    }
    lemma_moved_in::<E>(left, key, expiry);
    assert forall|other: Seq<u8>| #[trigger] expiry_of::<E>(after, other) == if other == key {
        Some(expiry)
    } else {
        expiry_of::<E>(before, other)
    } by {}
    assert forall|text: Seq<u8>, k: Seq<u8>| #[trigger]
        in_bucket::<E>(after, text, k) <==> expires_under::<E>(after, k, text) by {
        lemma_bucket_after_refresh::<E>(before, key, expiry, text, k);
    }
    assert forall|text: Seq<u8>| #[trigger] in_bucket::<E>(after, text, key) <==> text
        == expiry.text() by {
        assert(in_bucket::<E>(after, text, key) <==> expires_under::<E>(after, key, text));
    }
}

/// Whether `k` is in the bucket under `text` after an expiry was renewed.
proof fn lemma_bucket_after_refresh<E: Encoding<Timestamp> + Encoding<KeySet>>(
    before: Expirations,
    key: Seq<u8>,
    expiry: Timestamp,
    text: Seq<u8>,
    k: Seq<u8>,
)
    requires
        faithful::<E>(),
        consistent::<E>(before),
        can_take::<E>(before, key),
        expiry.is_valid(),
    ensures
        in_bucket::<E>(refreshed::<E>(before, key, expiry).0, text, k) <==> expires_under::<E>(
            refreshed::<E>(before, key, expiry).0,
            k,
            text,
        ),
{
    let after = refreshed::<E>(before, key, expiry).0;
    let bytes = <E as Encoding<Timestamp>>::encoding(expiry).unwrap();
    assert(<E as Encoding<Timestamp>>::decoding(bytes) == Some(expiry));
    let held = lookup(before.expires_at, key);
    if before.expires_at.contains_key(key) {
        assert(expiry_of::<E>(before, key) is Some);
    }
    let left = match stored::<Timestamp, E>(held) {
        Some(from) => moved_out::<E>(before.expires_at_inverse, key, from),
        None => before.expires_at_inverse,
    };
    let middle = Expirations { expires_at: before.expires_at, expires_at_inverse: left };
    assert(in_bucket::<E>(before, text, k) <==> expires_under::<E>(before, k, text));
    assert(in_bucket::<E>(before, text, key) <==> expires_under::<E>(before, key, text));
    match stored::<Timestamp, E>(held) {
        Some(from) => {
            lemma_moved_out::<E>(before.expires_at_inverse, key, from);
            assert(stored::<KeySet, E>(lookup(left, text)) == if text == from.text() {
                taken_out(stored::<KeySet, E>(lookup(before.expires_at_inverse, text)), key)
            } else {
                stored::<KeySet, E>(lookup(before.expires_at_inverse, text))
            });
            if text == from.text() {
                let keys = bucket_of::<E>(before, text).unwrap();
                lemma_without_key(keys, key);
                if without_key(keys, key).len() == 0 {
                    if keys.contains(k) && k != key {
                        assert(without_key(keys, key).contains(k));
                    }
                }
            }
        },
        None => {},
    }
    // After the key has left its bucket, it is in none, and the other keys are
    // where they were.
    assert(in_bucket::<E>(middle, text, k) <==> k != key && in_bucket::<E>(before, text, k));
    lemma_moved_in::<E>(left, key, expiry);
    assert(stored::<KeySet, E>(lookup(after.expires_at_inverse, text)) == if text == expiry.text() {
        put_in(stored::<KeySet, E>(lookup(left, text)), key)
    } else {
        stored::<KeySet, E>(lookup(left, text))
    });
    if text == expiry.text() {
        match bucket_of::<E>(middle, text) {
            Some(keys) => {
                assert(left.contains_key(text));
                lemma_with_key(keys, key);
            },
            None => {
                assert(seq![key][0] == key);
                if seq![key].contains(k) {
                    let i = choose|i: int| 0 <= i < seq![key].len() && seq![key][i] == k;
                    assert(k == key);
                }
            },
        }
    }
    assert(in_bucket::<E>(after, text, k) <==> (k == key && text == expiry.text()) || in_bucket::<E>(
        middle,
        text,
        k,
    ));
}

/// Forgetting an expiry keeps the two trees in agreement, and succeeds. After it
/// the key has no time and is in no bucket, and every other key expires when it
/// did before.
pub proof fn lemma_forget_keeps_agreement<E: Encoding<Timestamp> + Encoding<KeySet>>(
    before: Expirations,
    key: Seq<u8>,
)
    requires
        faithful::<E>(),
        consistent::<E>(before),
    ensures
        forgotten::<E>(before, key).1,
        consistent::<E>(forgotten::<E>(before, key).0),
        !forgotten::<E>(before, key).0.expires_at.contains_key(key),
        forall|text: Seq<u8>| !#[trigger] in_bucket::<E>(forgotten::<E>(before, key).0, text, key),
        forall|other: Seq<u8>|
            other != key ==> #[trigger] expiry_of::<E>(forgotten::<E>(before, key).0, other)
                == expiry_of::<E>(before, other),
{
    let after = forgotten::<E>(before, key).0;
    let held = lookup(before.expires_at, key);
    if before.expires_at.contains_key(key) {
        assert(expiry_of::<E>(before, key) is Some);
    }
    match stored::<Timestamp, E>(held) {
        Some(from) => {
            lemma_moved_out::<E>(before.expires_at_inverse, key, from);
        },
        None => {},
    }
    assert forall|text: Seq<u8>, k: Seq<u8>| #[trigger]
        in_bucket::<E>(after, text, k) <==> expires_under::<E>(after, k, text) by {
        assert(in_bucket::<E>(before, text, k) <==> expires_under::<E>(before, k, text));
        assert(in_bucket::<E>(before, text, key) <==> expires_under::<E>(before, key, text));
        match stored::<Timestamp, E>(held) {
            Some(from) => {
                assert(stored::<KeySet, E>(lookup(after.expires_at_inverse, text)) == if text
                    == from.text() {
                    taken_out(stored::<KeySet, E>(lookup(before.expires_at_inverse, text)), key)
                } else {
                    stored::<KeySet, E>(lookup(before.expires_at_inverse, text))
                });
                if text == from.text() {
                    let keys = bucket_of::<E>(before, text).unwrap();
                    lemma_without_key(keys, key);
                    if without_key(keys, key).len() == 0 {
                        if keys.contains(k) && k != key {
                            assert(without_key(keys, key).contains(k));
                        }
                    }
                }
            },
            None => {},
        }
        assert(in_bucket::<E>(after, text, k) <==> k != key && in_bucket::<E>(before, text, k));
    }
    assert forall|text: Seq<u8>| !#[trigger] in_bucket::<E>(after, text, key) by {
        assert(in_bucket::<E>(after, text, key) <==> expires_under::<E>(after, key, text));
    }
}

/// Each expiry that the notes renew can be renewed when its turn comes.
pub open spec fn can_settle<E: Encoding<Timestamp> + Encoding<KeySet>>(
    before: Expirations,
    notes: Seq<(Seq<u8>, Option<Timestamp>)>,
    length: Duration,
) -> bool
    decreases notes.len(),
{
    notes.len() == 0 || match notes.first().1 {
        Some(now) => {
            &&& can_take::<E>(before, notes.first().0)
            &&& can_settle::<E>(
                refreshed::<E>(before, notes.first().0, now.shifted(length)).0,
                notes.drop_first(),
                length,
            )
        },
        None => can_settle::<E>(
            forgotten::<E>(before, notes.first().0).0,
            notes.drop_first(),
            length,
        ),
    }
}

/// Following what a transaction noted succeeds and keeps the expiry times in
/// agreement, whatever it noted and however the transaction ended, where each
/// expiry that the notes renew can be renewed.
pub proof fn lemma_settling_keeps_agreement<E: Encoding<Timestamp> + Encoding<KeySet>>(
    before: Expirations,
    notes: Seq<(Seq<u8>, Option<Timestamp>)>,
    length: Duration,
)
    requires
        faithful::<E>(),
        consistent::<E>(before),
        can_settle::<E>(before, notes, length),
    ensures
        settled::<E>(before, notes, length).1,
        consistent::<E>(settled::<E>(before, notes, length).0),
    decreases notes.len(),
{
    if notes.len() > 0 {
        let key = notes.first().0;
        match notes.first().1 {
            Some(now) => {
                let expiry = now.shifted(length);
                Timestamp::lemma_at_offset_valid(now.offset() + length.total());
                lemma_refresh_keeps_agreement::<E>(before, key, expiry);
                lemma_settling_keeps_agreement::<E>(
                    refreshed::<E>(before, key, expiry).0,
                    notes.drop_first(),
                    length,
                );
            },
            None => {
                lemma_forget_keeps_agreement::<E>(before, key);
                lemma_settling_keeps_agreement::<E>(
                    forgotten::<E>(before, key).0,
                    notes.drop_first(),
                    length,
                );
            },
        }
    }
}

/// The expiry times of a tree agree with each other.
pub open spec fn agrees<V: View, E: Encoding<Timestamp> + Encoding<KeySet>, F: Encoding<V>>(
    tree: ExpiringTree<V, E, F>,
) -> bool {
    consistent::<E>(tree.expirations())
}

/// Every key that holds a value has an expiry time.
pub open spec fn covers<V: View, E: Encoding<Timestamp> + Encoding<KeySet>, F: Encoding<V>>(
    tree: ExpiringTree<V, E, F>,
) -> bool {
    forall|key: Seq<u8>| #[trigger]
        tree.data().contains_key(key) ==> expiry_of::<E>(tree.expirations(), key) is Some
}

/// The tree holds no value and no expiry time.
pub open spec fn is_blank<V: View, E: Encoding<Timestamp> + Encoding<KeySet>, F: Encoding<V>>(
    tree: ExpiringTree<V, E, F>,
) -> bool {
    &&& tree.data() == Map::<Seq<u8>, Seq<u8>>::empty()
    &&& tree.expirations().expires_at == Map::<Seq<u8>, Seq<u8>>::empty()
    &&& tree.expirations().expires_at_inverse == Map::<Seq<u8>, Seq<u8>>::empty()
}

/// A store, a removal or a read of one key.
pub enum Operation<T> {
    /// `value` is stored under `key`.
    Insert { key: Seq<u8>, value: T },
    /// `key` is removed.
    Remove { key: Seq<u8> },
    /// `key` is read.
    Get { key: Seq<u8> },
}

/// The key of an operation.
pub open spec fn key_of<T>(operation: Operation<T>) -> Seq<u8> {
    match operation {
        Operation::Insert { key, value } => key,
        Operation::Remove { key } => key,
        Operation::Get { key } => key,
    }
}

/// `operation` took the tree from `before` to `after`, and succeeded.
pub open spec fn performed<V: View, E: Encoding<Timestamp> + Encoding<KeySet>, F: Encoding<V>>(
    before: ExpiringTree<V, E, F>,
    after: ExpiringTree<V, E, F>,
    operation: Operation<V::V>,
) -> bool {
    &&& after.same_settings(&before)
    &&& match operation {
        Operation::Insert { key, value } => exists|now: Timestamp, r: Result<Option<V>, TreeError>|
            now.is_valid() && r is Ok && #[trigger] ExpiringTree::inserted(
                before,
                after,
                key,
                value,
                now,
                r,
            ),
        Operation::Remove { key } => exists|r: Result<Option<V>, TreeError>|
            r is Ok && #[trigger] ExpiringTree::removed(before, after, key, r),
        Operation::Get { key } => exists|now: Timestamp, r: Result<Option<V>, TreeError>|
            now.is_valid() && r is Ok && #[trigger] ExpiringTree::fetched(before, after, key, now, r),
    }
}

/// A store, a removal or a read that succeeds keeps the expiry times in
/// agreement; and where the tree extends on update, every key that holds a value
/// still has an expiry time after it. The key is one whose expiry can be
/// renewed.
pub proof fn lemma_operation_keeps_agreement<
    V: View,
    E: Encoding<Timestamp> + Encoding<KeySet>,
    F: Encoding<V>,
>(before: ExpiringTree<V, E, F>, after: ExpiringTree<V, E, F>, operation: Operation<V::V>)
    requires
        faithful::<E>(),
        agrees(before),
        can_take::<E>(before.expirations(), key_of(operation)),
        performed(before, after, operation),
    ensures
        agrees(after),
        before.extends_on_update() && covers(before) ==> covers(after),
{
    let x = before.expirations();
    match operation {
        Operation::Insert { key, value } => {
            let (now, r) = choose|now: Timestamp, r: Result<Option<V>, TreeError>|
                now.is_valid() && r is Ok && #[trigger] ExpiringTree::inserted(
                    before,
                    after,
                    key,
                    value,
                    now,
                    r,
                );
            let expiry = now.shifted(before.length());
            Timestamp::lemma_at_offset_valid(now.offset() + before.length().total());
            lemma_refresh_keeps_agreement::<E>(x, key, expiry);
            if before.extends_on_update() && covers(before) {
                assert forall|other: Seq<u8>| #[trigger]
                    after.data().contains_key(other) implies expiry_of::<E>(
                    after.expirations(),
                    other,
                ) is Some by {
                    if other != key {
                        assert(before.data().contains_key(other));
                    }
                }
            }
        },
        Operation::Remove { key } => {
            let r = choose|r: Result<Option<V>, TreeError>|
                r is Ok && #[trigger] ExpiringTree::removed(before, after, key, r);
            lemma_forget_keeps_agreement::<E>(x, key);
            if before.extends_on_update() && covers(before) {
                assert forall|other: Seq<u8>| #[trigger]
                    after.data().contains_key(other) implies expiry_of::<E>(
                    after.expirations(),
                    other,
                ) is Some by {
                    assert(before.data().contains_key(other));
                }
            }
        },
        Operation::Get { key } => {
            let (now, r) = choose|now: Timestamp, r: Result<Option<V>, TreeError>|
                now.is_valid() && r is Ok && #[trigger] ExpiringTree::fetched(
                    before,
                    after,
                    key,
                    now,
                    r,
                );
            let expiry = now.shifted(before.length());
            Timestamp::lemma_at_offset_valid(now.offset() + before.length().total());
            lemma_refresh_keeps_agreement::<E>(x, key, expiry);
            if before.extends_on_update() && covers(before) {
                assert forall|other: Seq<u8>| #[trigger]
                    after.data().contains_key(other) implies expiry_of::<E>(
                    after.expirations(),
                    other,
                ) is Some by {
                    assert(before.data().contains_key(other));
                }
            }
        },
    }
}

/// After any stores, removals and reads that succeed on a blank tree that extends
/// on update, the expiry times agree, and every key that holds a value has an
/// expiry time and is in the bucket of that time and in no other. Each key is one
/// whose expiry can be renewed when its turn comes.
pub proof fn lemma_agreement_after_operations<
    V: View,
    E: Encoding<Timestamp> + Encoding<KeySet>,
    F: Encoding<V>,
>(states: Seq<ExpiringTree<V, E, F>>, operations: Seq<Operation<V::V>>)
    requires
        faithful::<E>(),
        states.len() == operations.len() + 1,
        is_blank(states[0]),
        states[0].extends_on_update(),
        forall|i: int|
            0 <= i < operations.len() ==> performed(
                #[trigger] states[i],
                states[i + 1],
                operations[i],
            ),
        forall|i: int|
            0 <= i < operations.len() ==> can_take::<E>(
                (#[trigger] states[i]).expirations(),
                key_of(operations[i]),
            ),
    ensures
        forall|i: int| 0 <= i < states.len() ==> agrees(#[trigger] states[i]) && covers(states[i]),
        forall|i: int, key: Seq<u8>|
            0 <= i < states.len() && #[trigger] states[i].data().contains_key(key) ==> {
                &&& expiry_of::<E>(states[i].expirations(), key) matches Some(t)
                &&& forall|text: Seq<u8>| #[trigger]
                    in_bucket::<E>(states[i].expirations(), text, key) <==> text == t.text()
            },
    decreases operations.len(),
{
    if operations.len() == 0 {
        let x = states[0].expirations();
        assert forall|text: Seq<u8>, key: Seq<u8>| #[trigger]
            in_bucket::<E>(x, text, key) <==> expires_under::<E>(x, key, text) by {}
    } else {
        let n = operations.len() as int;
        let before = states.drop_last();
        let earlier = operations.drop_last();
        assert forall|i: int| 0 <= i < earlier.len() implies performed(
            #[trigger] before[i],
            before[i + 1],
            earlier[i],
        ) by {
            assert(performed(states[i], states[i + 1], operations[i]));
        }
        assert forall|i: int| 0 <= i < earlier.len() implies can_take::<E>(
            (#[trigger] before[i]).expirations(),
            key_of(earlier[i]),
        ) by {
            assert(can_take::<E>(states[i].expirations(), key_of(operations[i])));
        }
        lemma_agreement_after_operations::<V, E, F>(before, earlier);
        assert(agrees(before[n - 1]) && covers(before[n - 1]));
        assert forall|i: int| 0 <= i < n implies #[trigger] states[i].extends_on_update() by {
            lemma_settings_stay::<V, E, F>(states, operations, i);
        }
        assert(performed(states[n - 1], states[n], operations[n - 1]));
        assert(can_take::<E>(states[n - 1].expirations(), key_of(operations[n - 1])));
        lemma_operation_keeps_agreement::<V, E, F>(states[n - 1], states[n], operations[n - 1]);
        assert forall|i: int| 0 <= i < states.len() implies agrees(#[trigger] states[i]) && covers(
            states[i],
        ) by {
            if i < n {
                assert(states[i] == before[i]);
            }
        }
    }
    assert forall|i: int, key: Seq<u8>|
        0 <= i < states.len() && #[trigger] states[i].data().contains_key(key) implies {
        &&& expiry_of::<E>(states[i].expirations(), key) matches Some(t)
        &&& forall|text: Seq<u8>| #[trigger]
            in_bucket::<E>(states[i].expirations(), text, key) <==> text == t.text()
    } by {
        let x = states[i].expirations();
        assert(agrees(states[i]) && covers(states[i]));
        let t = expiry_of::<E>(x, key).unwrap();
        assert forall|text: Seq<u8>| #[trigger] in_bucket::<E>(x, text, key) <==> text
            == t.text() by {
            assert(in_bucket::<E>(x, text, key) <==> expires_under::<E>(x, key, text));
        }
    }
}

/// The settings of a tree stay through its operations.
proof fn lemma_settings_stay<V: View, E: Encoding<Timestamp> + Encoding<KeySet>, F: Encoding<V>>(
    states: Seq<ExpiringTree<V, E, F>>,
    operations: Seq<Operation<V::V>>,
    at: int,
)
    requires
        states.len() == operations.len() + 1,
        0 <= at < states.len(),
        forall|i: int|
            0 <= i < operations.len() ==> performed(
                #[trigger] states[i],
                states[i + 1],
                operations[i],
            ),
    ensures
        states[at].extends_on_update() == states[0].extends_on_update(),
    decreases at,
{
    if at > 0 {
        lemma_settings_stay::<V, E, F>(states, operations, at - 1);
        assert(performed(states[at - 1], states[at], operations[at - 1]));
    }
}

/// The texts of instants sort as the instants do.
pub open spec fn texts_sort() -> bool {
    forall|a: Timestamp, b: Timestamp|
        a.is_valid() && b.is_valid() ==> (a.before(b) <==> #[trigger] key_lt(a.text(), b.text()))
}

/// `items` are stored buckets of `x`, in the order of their texts, none twice.
pub open spec fn are_buckets(x: Expirations, items: Seq<(Seq<u8>, Seq<u8>)>) -> bool {
    &&& forall|i: int, j: int|
        0 <= i < j < items.len() ==> key_lt(#[trigger] items[i].0, #[trigger] items[j].0)
    &&& forall|i: int|
        0 <= i < items.len() ==> x.expires_at_inverse.contains_key(#[trigger] items[i].0)
            && x.expires_at_inverse[items[i].0] == items[i].1
}

/// `first` is in a bucket of `items`, and `second` in the same or a later one.
pub open spec fn in_order<E: Encoding<Timestamp> + Encoding<KeySet>>(
    x: Expirations,
    items: Seq<(Seq<u8>, Seq<u8>)>,
    first: Seq<u8>,
    second: Seq<u8>,
) -> bool {
    exists|a: int, b: int|
        0 <= a <= b < items.len() && in_bucket::<E>(x, #[trigger] items[a].0, first)
            && in_bucket::<E>(x, #[trigger] items[b].0, second)
}

/// The keys of some buckets, bucket after bucket: each key of those buckets
/// comes once, and a key of an earlier bucket before one of a later bucket.
proof fn lemma_expired_in<E: Encoding<Timestamp> + Encoding<KeySet>>(
    x: Expirations,
    items: Seq<(Seq<u8>, Seq<u8>)>,
)
    requires
        consistent::<E>(x),
        are_buckets(x, items),
    ensures
        expired_in::<E>(items).no_duplicates(),
        forall|key: Seq<u8>|
            #[trigger] expired_in::<E>(items).contains(key) <==> exists|i: int|
                0 <= i < items.len() && in_bucket::<E>(x, #[trigger] items[i].0, key),
        forall|i: int, j: int|
            0 <= i < j < expired_in::<E>(items).len() ==> in_order::<E>(
                x,
                items,
                #[trigger] expired_in::<E>(items)[i],
                #[trigger] expired_in::<E>(items)[j],
            ),
    decreases items.len(),
{
    let all = expired_in::<E>(items);
    if items.len() == 0 {
    } else {
        let n = items.len() as int - 1;
        let front = items.drop_last();
        let early = expired_in::<E>(front);
        let text = items[n].0;
        assert(x.expires_at_inverse.contains_key(text));
        let last = <E as Encoding<KeySet>>::decoding(items[n].1).unwrap();
        assert(bucket_of::<E>(x, text) == Some(last));
        assert(all == early + last);
        assert(are_buckets(x, front)) by {
            assert forall|i: int, j: int| 0 <= i < j < front.len() implies key_lt(
                #[trigger] front[i].0,
                #[trigger] front[j].0,
            ) by {
                assert(key_lt(items[i].0, items[j].0));
            }
            assert forall|i: int| 0 <= i < front.len() implies x.expires_at_inverse.contains_key(
                #[trigger] front[i].0,
            ) && x.expires_at_inverse[front[i].0] == front[i].1 by {
                assert(x.expires_at_inverse.contains_key(items[i].0));
            }
        }
        lemma_expired_in::<E>(x, front);
        // Which bucket of `front` a key of `early` comes from.
        assert forall|key: Seq<u8>| #[trigger] all.contains(key) <==> exists|i: int|
            0 <= i < items.len() && in_bucket::<E>(x, #[trigger] items[i].0, key) by {
            if all.contains(key) {
                let at = choose|at: int| 0 <= at < all.len() && all[at] == key;
                if at < early.len() {
                    assert(early[at] == key);
                    assert(early.contains(key));
                    let i = choose|i: int|
                        0 <= i < front.len() && in_bucket::<E>(x, #[trigger] front[i].0, key);
                    assert(in_bucket::<E>(x, items[i].0, key));
                } else {
                    assert(last[at - early.len()] == key);
                    assert(in_bucket::<E>(x, items[n].0, key));
                }
            }
            if exists|i: int| 0 <= i < items.len() && in_bucket::<E>(x, #[trigger] items[i].0, key) {
                let i = choose|i: int|
                    0 <= i < items.len() && in_bucket::<E>(x, #[trigger] items[i].0, key);
                if i < n {
                    assert(in_bucket::<E>(x, front[i].0, key));
                    assert(early.contains(key));
                    let at = choose|at: int| 0 <= at < early.len() && early[at] == key;
                    assert(all[at] == key);
                } else {
                    let at = choose|at: int| 0 <= at < last.len() && last[at] == key;
                    assert(all[early.len() + at] == key);
                }
            }
        }
        // A key of the last bucket is in no earlier one: it expires at one time.
        assert forall|key: Seq<u8>| early.contains(key) && last.contains(key) implies false by {
            let i = choose|i: int|
                0 <= i < front.len() && in_bucket::<E>(x, #[trigger] front[i].0, key);
            assert(in_bucket::<E>(x, front[i].0, key) <==> expires_under::<E>(x, key, front[i].0));
            assert(in_bucket::<E>(x, text, key) <==> expires_under::<E>(x, key, text));
            assert(key_lt(items[i].0, items[n].0));
            lemma_key_lt_irreflexive(text);
        }
        assert(all.no_duplicates()) by {
            assert forall|i: int, j: int| 0 <= i < all.len() && 0 <= j < all.len() && i != j implies all[i]
                != all[j] by {
                let (lo, hi) = if i < j {
                    (i, j)
                } else {
                    (j, i)
                };
                if hi < early.len() {
                    assert(early[lo] != early[hi]);
                } else if lo >= early.len() {
                    assert(last[lo - early.len()] != last[hi - early.len()]);
                } else {
                    assert(early.contains(early[lo]));
                    assert(last.contains(last[hi - early.len()]));
                }
            }
        }
        assert forall|i: int, j: int| 0 <= i < j < all.len() implies in_order::<E>(
            x,
            items,
            #[trigger] all[i],
            #[trigger] all[j],
        ) by {
            if j < early.len() {
                assert(early[i] == all[i] && early[j] == all[j]);
                assert(in_order::<E>(x, front, early[i], early[j]));
                let (a, b) = choose|a: int, b: int|
                    0 <= a <= b < front.len() && in_bucket::<E>(x, #[trigger] front[a].0, early[i])
                        && in_bucket::<E>(x, #[trigger] front[b].0, early[j]);
                assert(in_bucket::<E>(x, items[a].0, all[i]) && in_bucket::<E>(
                    x,
                    items[b].0,
                    all[j],
                ));
            } else {
                assert(last[j - early.len()] == all[j]);
                assert(last.contains(all[j]));
                assert(in_bucket::<E>(x, items[n].0, all[j]));
                if i < early.len() {
                    assert(early[i] == all[i]);
                    assert(early.contains(all[i]));
                    let a = choose|a: int|
                        0 <= a < front.len() && in_bucket::<E>(x, #[trigger] front[a].0, all[i]);
                    assert(in_bucket::<E>(x, items[a].0, all[i]));
                } else {
                    assert(last[i - early.len()] == all[i]);
                    assert(last.contains(all[i]));
                    assert(in_bucket::<E>(x, items[n].0, all[i]));
                }
            }
        }
    }
}

/// What a walk for expired keys yields, where the expiry times agree: the keys
/// whose time has a text before that of `now`, each once, a key of an earlier
/// time before a key of a later time. Where texts sort as the instants do, these
/// are the keys that expire before `now`, in the order of their times; and none
/// where no key expires before `now`.
pub proof fn lemma_expired_are_due<E: Encoding<Timestamp> + Encoding<KeySet>>(
    x: Expirations,
    items: Seq<(Seq<u8>, Seq<u8>)>,
    now: Timestamp,
)
    requires
        consistent::<E>(x),
        is_due(items, x.expires_at_inverse, now.text()),
    ensures
        expired_in::<E>(items).no_duplicates(),
        forall|key: Seq<u8>|
            #[trigger] expired_in::<E>(items).contains(key) <==> (expiry_of::<E>(x, key) matches Some(
                t,
            ) && key_lt(t.text(), now.text())),
        forall|i: int, j: int|
            0 <= i < j < expired_in::<E>(items).len() ==> !key_lt(
                expiry_of::<E>(x, #[trigger] expired_in::<E>(items)[j]).unwrap().text(),
                expiry_of::<E>(x, #[trigger] expired_in::<E>(items)[i]).unwrap().text(),
            ),
        texts_sort() && now.is_valid() ==> {
            &&& forall|key: Seq<u8>|
                #[trigger] expired_in::<E>(items).contains(key) <==> (expiry_of::<E>(
                    x,
                    key,
                ) matches Some(t) && t.before(now))
            &&& forall|i: int, j: int|
                0 <= i < j < expired_in::<E>(items).len() ==> !expiry_of::<E>(
                    x,
                    #[trigger] expired_in::<E>(items)[j],
                ).unwrap().before(expiry_of::<E>(x, #[trigger] expired_in::<E>(items)[i]).unwrap())
        },
{
    let all = expired_in::<E>(items);
    let bound = now.text();
    assert(are_buckets(x, items));
    lemma_expired_in::<E>(x, items);
    assert forall|key: Seq<u8>| #[trigger] all.contains(key) <==> (expiry_of::<E>(x, key) matches Some(
        t,
    ) && key_lt(t.text(), bound)) by {
        if all.contains(key) {
            let i = choose|i: int|
                0 <= i < items.len() && in_bucket::<E>(x, #[trigger] items[i].0, key);
            assert(in_bucket::<E>(x, items[i].0, key) <==> expires_under::<E>(x, key, items[i].0));
        }
        if expiry_of::<E>(x, key) matches Some(t) && key_lt(t.text(), bound) {
            let t = expiry_of::<E>(x, key).unwrap();
            assert(in_bucket::<E>(x, t.text(), key) <==> expires_under::<E>(x, key, t.text()));
            assert(x.expires_at_inverse.contains_key(t.text()));
            let i = choose|i: int| 0 <= i < items.len() && #[trigger] items[i].0 == t.text();
            assert(in_bucket::<E>(x, items[i].0, key));
        }
    }
    assert forall|i: int, j: int| 0 <= i < j < all.len() implies !key_lt(
        expiry_of::<E>(x, #[trigger] all[j]).unwrap().text(),
        expiry_of::<E>(x, #[trigger] all[i]).unwrap().text(),
    ) by {
        assert(in_order::<E>(x, items, all[i], all[j]));
        let (a, b) = choose|a: int, b: int|
            0 <= a <= b < items.len() && in_bucket::<E>(x, #[trigger] items[a].0, all[i])
                && in_bucket::<E>(x, #[trigger] items[b].0, all[j]);
        assert(in_bucket::<E>(x, items[a].0, all[i]) <==> expires_under::<E>(x, all[i], items[a].0));
        assert(in_bucket::<E>(x, items[b].0, all[j]) <==> expires_under::<E>(x, all[j], items[b].0));
        lemma_key_lt_irreflexive(items[a].0);
        if a < b {
            assert(key_lt(items[a].0, items[b].0));
            if key_lt(items[b].0, items[a].0) {
                lemma_key_lt_transitive(items[a].0, items[b].0, items[a].0);
            }
        }
    }
    if texts_sort() && now.is_valid() {
        assert forall|key: Seq<u8>| #[trigger] all.contains(key) <==> (expiry_of::<E>(
            x,
            key,
        ) matches Some(t) && t.before(now)) by {
            if expiry_of::<E>(x, key) is Some {
                let t = expiry_of::<E>(x, key).unwrap();
                assert(x.expires_at.contains_key(key));
                assert(t.before(now) <==> key_lt(t.text(), now.text()));
            }
        }
        assert forall|i: int, j: int| 0 <= i < j < all.len() implies !expiry_of::<E>(
            x,
            #[trigger] all[j],
        ).unwrap().before(expiry_of::<E>(x, #[trigger] all[i]).unwrap()) by {
            assert(all.contains(all[i]) && all.contains(all[j]));
            let a = expiry_of::<E>(x, all[i]).unwrap();
            let b = expiry_of::<E>(x, all[j]).unwrap();
            assert(x.expires_at.contains_key(all[i]) && x.expires_at.contains_key(all[j]));
            assert(b.before(a) <==> key_lt(b.text(), a.text()));
        }
    }
}

} // verus!
