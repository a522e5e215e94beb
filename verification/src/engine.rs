//! The calls into the database. Nothing here is proved: each function states what
//! sled documents of the call it makes.
//!
//! A tree is described as its only user sees it. What `tree_entries` tells of a
//! handle holds as long as nothing else writes to the tree: no other handle on
//! it, in this thread or another, and no other process. Of the handles that this
//! library makes no two are in use on one tree together: a tree borrows its
//! `Store` while it is used, and a second handle borrows the first.

use vstd::prelude::*;
use crate::bytes::{
    bytes_of, entry_of, has_prefix, is_scan, key_lt, lookup, put, within, KeyBound,
};

verus! {

#[verifier::external_type_specification]
#[verifier::external_body]
pub struct ExTree(sled::Tree);

#[verifier::external_type_specification]
#[verifier::external_body]
pub struct ExDb(sled::Db);

/// The items of `sled::Iter` hold it: the walk cannot be declared without it.
#[verifier::external_type_specification]
#[verifier::external_body]
pub struct ExIVec(sled::IVec);

/// The output of `sled::Subscriber` holds it: the subscription cannot be
/// declared without it.
#[verifier::external_type_specification]
#[verifier::external_body]
pub struct ExEvent(sled::Event);

#[verifier::external_type_specification]
#[verifier::external_body]
pub struct ExIter(sled::Iter);

#[verifier::external_type_specification]
#[verifier::external_body]
pub struct ExBatch(sled::Batch);

#[verifier::external_type_specification]
#[verifier::external_body]
pub struct ExSubscriber(sled::Subscriber);

#[verifier::external_type_specification]
#[verifier::external_body]
pub struct ExTransactionalTree(sled::transaction::TransactionalTree);

#[verifier::external_type_specification]
#[verifier::external_body]
#[verifier::reject_recursive_types(T)]
pub struct ExConflictableTransactionError<T>(sled::transaction::ConflictableTransactionError<T>);

/// What a tree holds: each of its keys with the bytes stored under it, as the only
/// user of the tree sees them.
pub uninterp spec fn tree_entries(tree: sled::Tree) -> Map<Seq<u8>, Seq<u8>>;

/// The entries that a walk over a tree has yet to give, in the order of their
/// keys, as long as the tree is not written to.
pub uninterp spec fn iter_rest(iter: sled::Iter) -> Seq<(Seq<u8>, Seq<u8>)>;

/// What a tree holds as a transaction sees it: what it held when the transaction
/// began, changed by the writes that the transaction has made so far.
pub uninterp spec fn txn_entries(view: sled::transaction::TransactionalTree) -> Map<Seq<u8>, Seq<u8>>;

/// What a batch will write: under each key that it names the bytes to store, or
/// `None` where the key is to be removed.
pub uninterp spec fn batch_writes(batch: sled::Batch) -> Map<Seq<u8>, Option<Seq<u8>>>;

/// `entries` after the writes of a batch.
pub open spec fn applied(entries: Map<Seq<u8>, Seq<u8>>, writes: Map<Seq<u8>, Option<Seq<u8>>>) -> Map<
    Seq<u8>,
    Seq<u8>,
> {
    Map::new(
        |key: Seq<u8>|
            if writes.contains_key(key) {
                writes[key] is Some
            } else {
                entries.contains_key(key)
            },
        |key: Seq<u8>|
            if writes.contains_key(key) {
                writes[key].unwrap()
            } else {
                entries[key]
            },
    )
}

/// `key` is in `entries`, below `bound`, and no key of `entries` lies between them.
pub open spec fn is_last_before(entries: Map<Seq<u8>, Seq<u8>>, key: Seq<u8>, bound: Seq<u8>) -> bool {
    &&& entries.contains_key(key)
    &&& key_lt(key, bound)
    &&& forall|other: Seq<u8>| #[trigger]
        entries.contains_key(other) && key_lt(other, bound) ==> !key_lt(key, other)
}

/// `key` is in `entries`, above `bound`, and no key of `entries` lies between them.
pub open spec fn is_first_after(entries: Map<Seq<u8>, Seq<u8>>, key: Seq<u8>, bound: Seq<u8>) -> bool {
    &&& entries.contains_key(key)
    &&& key_lt(bound, key)
    &&& forall|other: Seq<u8>| #[trigger]
        entries.contains_key(other) && key_lt(bound, other) ==> !key_lt(other, key)
}

/// `key` is the least key of `entries`.
pub open spec fn is_least(entries: Map<Seq<u8>, Seq<u8>>, key: Seq<u8>) -> bool {
    &&& entries.contains_key(key)
    &&& forall|other: Seq<u8>| #[trigger] entries.contains_key(other) ==> !key_lt(other, key)
}

/// `key` is the greatest key of `entries`.
pub open spec fn is_greatest(entries: Map<Seq<u8>, Seq<u8>>, key: Seq<u8>) -> bool {
    &&& entries.contains_key(key)
    &&& forall|other: Seq<u8>| #[trigger] entries.contains_key(other) ==> !key_lt(key, other)
}

/// `entries` has `n` keys at most.
pub open spec fn has_at_most(entries: Map<Seq<u8>, Seq<u8>>, n: nat) -> bool {
    entries.dom().finite() && entries.dom().len() <= n
}

/// `g` can turn the stored bytes `before` into `after`.
pub open spec fn rewritten<G: Fn(Option<Vec<u8>>) -> Option<Vec<u8>>>(
    g: G,
    before: Option<Seq<u8>>,
    after: Option<Seq<u8>>,
) -> bool {
    exists|a: Option<Vec<u8>>, b: Option<Vec<u8>>|
        bytes_of(a) == before && bytes_of(b) == after && #[trigger] call_ensures(g, (a,), b)
}

/// `sled::Db::open_tree`: the tree of that name, made if there was none. Nothing
/// is known of what it holds.
#[verifier::external_body]
pub(crate) fn db_open_tree(db: &sled::Db, name: &str) -> (r: Result<sled::Tree, sled::Error>)
{
    db.open_tree(name)
}

/// `Clone::clone` of `sled::Tree`: one more handle on the same tree, which sees
/// what the other saw when the call was made. What is written through the new
/// handle shows through the old one too, so nothing is said of the old one
/// after the call.
#[verifier::external_body]
pub(crate) fn tree_take(tree: &mut sled::Tree) -> (r: sled::Tree)
    ensures
        tree_entries(r) == tree_entries(*old(tree)),
{
    tree.clone()
}

/// `sled::Tree::get`: on success, the bytes stored under `key`, if any.
#[verifier::external_body]
pub(crate) fn tree_get(tree: &sled::Tree, key: &[u8]) -> (r: Result<Option<Vec<u8>>, sled::Error>)
    ensures
        r matches Ok(found) ==> bytes_of(found) == lookup(tree_entries(*tree), key@),
{
    tree.get(key).map(|found| found.map(|bytes| bytes.to_vec()))
}

/// `sled::Tree::insert`: on success `key` holds `value`, the other keys are as
/// before, and the result is what `key` held before.
#[verifier::external_body]
pub(crate) fn tree_insert(tree: &mut sled::Tree, key: &[u8], value: Vec<u8>) -> (r: Result<
    Option<Vec<u8>>,
    sled::Error,
>)
    ensures
        r matches Ok(previous) ==> {
            &&& bytes_of(previous) == lookup(tree_entries(*old(tree)), key@)
            &&& tree_entries(*final(tree)) == tree_entries(*old(tree)).insert(key@, value@)
        },
{
    tree.insert(key, value).map(|found| found.map(|bytes| bytes.to_vec()))
}

/// `sled::Tree::remove`: on success `key` is gone, the other keys are as before, and
/// the result is what `key` held before.
#[verifier::external_body]
pub(crate) fn tree_remove(tree: &mut sled::Tree, key: &[u8]) -> (r: Result<Option<Vec<u8>>, sled::Error>)
    ensures
        r matches Ok(previous) ==> {
            &&& bytes_of(previous) == lookup(tree_entries(*old(tree)), key@)
            &&& tree_entries(*final(tree)) == tree_entries(*old(tree)).remove(key@)
        },
{
    tree.remove(key).map(|found| found.map(|bytes| bytes.to_vec()))
}

/// `sled::Tree::compare_and_swap`: where `key` holds `expected` (nothing, for
/// `None`), it is set to `proposed` (removed, for `None`) and the inner result is
/// `Ok`. Otherwise nothing changes, and the inner error carries what `key` holds
/// and the value that was proposed.
#[verifier::external_body]
pub(crate) fn tree_compare_and_swap(
    tree: &mut sled::Tree,
    key: &[u8],
    expected: Option<Vec<u8>>,
    proposed: Option<Vec<u8>>,
) -> (r: Result<Result<(), (Option<Vec<u8>>, Option<Vec<u8>>)>, sled::Error>)
    ensures
        r matches Ok(Ok(())) ==> {
            &&& lookup(tree_entries(*old(tree)), key@) == bytes_of(expected)
            &&& tree_entries(*final(tree)) == put(tree_entries(*old(tree)), key@, bytes_of(proposed))
        },
        r matches Ok(Err((current, refused))) ==> {
            &&& lookup(tree_entries(*old(tree)), key@) != bytes_of(expected)
            &&& bytes_of(current) == lookup(tree_entries(*old(tree)), key@)
            &&& bytes_of(refused) == bytes_of(proposed)
            &&& tree_entries(*final(tree)) == tree_entries(*old(tree))
        },
{
    match tree.compare_and_swap(key, expected, proposed) {
        Ok(Ok(())) => Ok(Ok(())),
        Ok(Err(e)) => Ok(Err((e.current.map(|b| b.to_vec()), e.proposed.map(|b| b.to_vec())))),
        Err(e) => Err(e),
    }
}

/// `sled::Tree::update_and_fetch`: on success `key` holds what `g` made of the bytes
/// it held (is removed, where `g` gave `None`), and the result is that new value.
#[verifier::external_body]
pub(crate) fn tree_update_and_fetch<G: Fn(Option<Vec<u8>>) -> Option<Vec<u8>>>(
    tree: &mut sled::Tree,
    key: &[u8],
    g: G,
) -> (r: Result<Option<Vec<u8>>, sled::Error>)
    requires
        forall|a: Option<Vec<u8>>| call_requires(g, (a,)),
    ensures
        r matches Ok(current) ==> {
            &&& rewritten(g, lookup(tree_entries(*old(tree)), key@), bytes_of(current))
            &&& tree_entries(*final(tree)) == put(tree_entries(*old(tree)), key@, bytes_of(current))
        },
{
    tree.update_and_fetch(key, |found| g(found.map(|bytes| bytes.to_vec()))).map(
        |found| found.map(|bytes| bytes.to_vec()),
    )
}

/// `sled::Tree::fetch_and_update`: on success `key` holds what `g` made of the bytes
/// it held (is removed, where `g` gave `None`), and the result is what it held
/// before.
#[verifier::external_body]
pub(crate) fn tree_fetch_and_update<G: Fn(Option<Vec<u8>>) -> Option<Vec<u8>>>(
    tree: &mut sled::Tree,
    key: &[u8],
    g: G,
) -> (r: Result<Option<Vec<u8>>, sled::Error>)
    requires
        forall|a: Option<Vec<u8>>| call_requires(g, (a,)),
    ensures
        r matches Ok(previous) ==> {
            &&& bytes_of(previous) == lookup(tree_entries(*old(tree)), key@)
            &&& rewritten(g, bytes_of(previous), lookup(tree_entries(*final(tree)), key@))
            &&& tree_entries(*final(tree)) == put(
                tree_entries(*old(tree)),
                key@,
                lookup(tree_entries(*final(tree)), key@),
            )
        },
{
    tree.fetch_and_update(key, |found| g(found.map(|bytes| bytes.to_vec()))).map(
        |found| found.map(|bytes| bytes.to_vec()),
    )
}

/// `sled::Tree::contains_key`: on success, whether `key` is in the tree.
#[verifier::external_body]
pub(crate) fn tree_contains_key(tree: &sled::Tree, key: &[u8]) -> (r: Result<bool, sled::Error>)
    ensures
        r matches Ok(found) ==> found == tree_entries(*tree).contains_key(key@),
{
    tree.contains_key(key)
}

/// `sled::Tree::get_lt`: on success, the entry with the greatest key below `key`,
/// or `None` where the tree has no key below it.
#[verifier::external_body]
pub(crate) fn tree_get_lt(tree: &sled::Tree, key: &[u8]) -> (r: Result<
    Option<(Vec<u8>, Vec<u8>)>,
    sled::Error,
>)
    ensures
        r matches Ok(found) ==> match entry_of(found) {
            Some((k, bytes)) => is_last_before(tree_entries(*tree), k, key@) && tree_entries(
                *tree,
            )[k] == bytes,
            None => forall|other: Seq<u8>| #[trigger]
                tree_entries(*tree).contains_key(other) ==> !key_lt(other, key@),
        },
{
    tree.get_lt(key).map(|found| found.map(|(k, bytes)| (k.to_vec(), bytes.to_vec())))
}

/// `sled::Tree::get_gt`: on success, the entry with the least key above `key`, or
/// `None` where the tree has no key above it.
#[verifier::external_body]
pub(crate) fn tree_get_gt(tree: &sled::Tree, key: &[u8]) -> (r: Result<
    Option<(Vec<u8>, Vec<u8>)>,
    sled::Error,
>)
    ensures
        r matches Ok(found) ==> match entry_of(found) {
            Some((k, bytes)) => is_first_after(tree_entries(*tree), k, key@) && tree_entries(
                *tree,
            )[k] == bytes,
            None => forall|other: Seq<u8>| #[trigger]
                tree_entries(*tree).contains_key(other) ==> !key_lt(key@, other),
        },
{
    tree.get_gt(key).map(|found| found.map(|(k, bytes)| (k.to_vec(), bytes.to_vec())))
}

/// `sled::Tree::pop_max`: on success the entry with the greatest key, which is then
/// gone from the tree, or `None` where the tree is empty.
#[verifier::external_body]
pub(crate) fn tree_pop_max(tree: &mut sled::Tree) -> (r: Result<Option<(Vec<u8>, Vec<u8>)>, sled::Error>)
    ensures
        r matches Ok(found) ==> match entry_of(found) {
            Some((k, bytes)) => {
                &&& is_greatest(tree_entries(*old(tree)), k)
                &&& tree_entries(*old(tree))[k] == bytes
                &&& tree_entries(*final(tree)) == tree_entries(*old(tree)).remove(k)
            },
            None => {
                &&& tree_entries(*old(tree)) == Map::<Seq<u8>, Seq<u8>>::empty()
                &&& tree_entries(*final(tree)) == tree_entries(*old(tree))
            },
        },
{
    tree.pop_max().map(|found| found.map(|(k, bytes)| (k.to_vec(), bytes.to_vec())))
}

/// `sled::Tree::pop_min`: on success the entry with the least key, which is then
/// gone from the tree, or `None` where the tree is empty.
#[verifier::external_body]
pub(crate) fn tree_pop_min(tree: &mut sled::Tree) -> (r: Result<Option<(Vec<u8>, Vec<u8>)>, sled::Error>)
    ensures
        r matches Ok(found) ==> match entry_of(found) {
            Some((k, bytes)) => {
                &&& is_least(tree_entries(*old(tree)), k)
                &&& tree_entries(*old(tree))[k] == bytes
                &&& tree_entries(*final(tree)) == tree_entries(*old(tree)).remove(k)
            },
            None => {
                &&& tree_entries(*old(tree)) == Map::<Seq<u8>, Seq<u8>>::empty()
                &&& tree_entries(*final(tree)) == tree_entries(*old(tree))
            },
        },
{
    tree.pop_min().map(|found| found.map(|(k, bytes)| (k.to_vec(), bytes.to_vec())))
}

/// `sled::Tree::len`: the number of items that a walk over the whole tree hands
/// out. The walk hands out each entry once, and a read that fails as an item of
/// its own, so the tree holds no more keys than were counted; it may hold fewer.
#[verifier::external_body]
pub(crate) fn tree_len(tree: &sled::Tree) -> (r: usize)
    ensures
        has_at_most(tree_entries(*tree), r as nat),
{
    tree.len()
}

/// `sled::Tree::is_empty`: whether a walk over the tree hands out nothing. Where
/// it says so, the tree holds no key. A first read that fails counts as
/// something, so it may say otherwise of a tree that holds none.
#[verifier::external_body]
pub(crate) fn tree_is_empty(tree: &sled::Tree) -> (r: bool)
    ensures
        r ==> tree_entries(*tree) == (Map::<Seq<u8>, Seq<u8>>::empty()),
{
    tree.is_empty()
}

/// `sled::Tree::clear`: on success the tree holds nothing.
#[verifier::external_body]
pub(crate) fn tree_clear(tree: &mut sled::Tree) -> (r: Result<(), sled::Error>)
    ensures
        r is Ok ==> tree_entries(*final(tree)) == (Map::<Seq<u8>, Seq<u8>>::empty()),
{
    tree.clear()
}

/// `sled::Tree::flush`: writes what is pending to disk. The number of bytes written
/// is dropped.
#[verifier::external_body]
pub(crate) fn tree_flush(tree: &sled::Tree) -> (r: Result<(), sled::Error>)
{
    tree.flush().map(|_| ())
}

/// `sled::Tree::range`: a walk over the entries whose keys lie between `from` and
/// `to`, in the order of their keys.
#[verifier::external_body]
pub(crate) fn tree_range(tree: &sled::Tree, from: KeyBound, to: KeyBound) -> (r: sled::Iter)
    ensures
        is_scan(iter_rest(r), tree_entries(*tree), |key: Seq<u8>| within(key, from, to)),
{
    let start = match from {
        KeyBound::Unbounded => std::ops::Bound::Unbounded,
        KeyBound::Included(key) => std::ops::Bound::Included(key),
        KeyBound::Excluded(key) => std::ops::Bound::Excluded(key),
    };
    let end = match to {
        KeyBound::Unbounded => std::ops::Bound::Unbounded,
        KeyBound::Included(key) => std::ops::Bound::Included(key),
        KeyBound::Excluded(key) => std::ops::Bound::Excluded(key),
    };
    tree.range::<Vec<u8>, _>((start, end))
}

/// `sled::Tree::scan_prefix`: a walk over the entries whose keys start with
/// `prefix`, in the order of their keys.
#[verifier::external_body]
pub(crate) fn tree_scan_prefix(tree: &sled::Tree, prefix: &[u8]) -> (r: sled::Iter)
    ensures
        is_scan(iter_rest(r), tree_entries(*tree), |key: Seq<u8>| has_prefix(key, prefix@)),
{
    tree.scan_prefix(prefix)
}

/// `Iterator::next` of `sled::Iter`: the first entry yet to come, which the walk
/// then has behind it, or `None` where none is left. Where the database reports
/// an error, nothing is known of the walk from there on.
#[verifier::external_body]
pub(crate) fn iter_next(iter: &mut sled::Iter) -> (r: Option<Result<(Vec<u8>, Vec<u8>), sled::Error>>)
    ensures
        match r {
            Some(Ok((key, bytes))) => {
                &&& iter_rest(*old(iter)).len() > 0
                &&& iter_rest(*old(iter)).first() == (key@, bytes@)
                &&& iter_rest(*final(iter)) == iter_rest(*old(iter)).drop_first()
            },
            Some(Err(_)) => true,
            None => iter_rest(*old(iter)).len() == 0 && iter_rest(*final(iter)) == iter_rest(
                *old(iter),
            ),
        },
{
    iter.next().map(|item| item.map(|(key, bytes)| (key.to_vec(), bytes.to_vec())))
}

/// `DoubleEndedIterator::next_back` of `sled::Iter`: the last entry yet to come,
/// which the walk then has behind it, or `None` where none is left. Where the
/// database reports an error, nothing is known of the walk from there on.
#[verifier::external_body]
pub(crate) fn iter_next_back(iter: &mut sled::Iter) -> (r: Option<
    Result<(Vec<u8>, Vec<u8>), sled::Error>,
>)
    ensures
        match r {
            Some(Ok((key, bytes))) => {
                &&& iter_rest(*old(iter)).len() > 0
                &&& iter_rest(*old(iter)).last() == (key@, bytes@)
                &&& iter_rest(*final(iter)) == iter_rest(*old(iter)).drop_last()
            },
            Some(Err(_)) => true,
            None => iter_rest(*old(iter)).len() == 0 && iter_rest(*final(iter)) == iter_rest(
                *old(iter),
            ),
        },
{
    iter.next_back().map(|item| item.map(|(key, bytes)| (key.to_vec(), bytes.to_vec())))
}

/// `Default::default` of `sled::Batch`: a batch that writes nothing.
#[verifier::external_body]
pub(crate) fn batch_new() -> (r: sled::Batch)
    ensures
        batch_writes(r) == (Map::<Seq<u8>, Option<Seq<u8>>>::empty()),
{
    sled::Batch::default()
}

/// `sled::Batch::insert`: the batch will store `value` under `key`, whatever it
/// was to do with that key before.
#[verifier::external_body]
pub(crate) fn batch_insert(batch: &mut sled::Batch, key: Vec<u8>, value: Vec<u8>)
    ensures
        batch_writes(*final(batch)) == batch_writes(*old(batch)).insert(key@, Some(value@)),
{
    batch.insert(key, value)
}

/// `sled::Batch::remove`: the batch will remove `key`, whatever it was to do with
/// that key before.
#[verifier::external_body]
pub(crate) fn batch_remove(batch: &mut sled::Batch, key: Vec<u8>)
    ensures
        batch_writes(*final(batch)) == batch_writes(*old(batch)).insert(key@, None),
{
    batch.remove(key)
}

/// `sled::Tree::apply_batch`: on success the tree holds what it held, changed by
/// the writes of the batch.
#[verifier::external_body]
pub(crate) fn tree_apply_batch(tree: &mut sled::Tree, batch: sled::Batch) -> (r: Result<(), sled::Error>)
    ensures
        r is Ok ==> tree_entries(*final(tree)) == applied(
            tree_entries(*old(tree)),
            batch_writes(batch),
        ),
{
    tree.apply_batch(batch)
}

/// `sled::Tree::watch_prefix`: a subscription to the writes under keys that start
/// with `prefix`.
#[verifier::external_body]
pub(crate) fn tree_watch_prefix(tree: &sled::Tree, prefix: Vec<u8>) -> (r: sled::Subscriber)
{
    tree.watch_prefix(prefix)
}

/// `Clone::clone` of `sled::transaction::TransactionalTree`: one more handle on the
/// same view of the transaction, which sees what the other saw when the call was
/// made. What is written through the new handle shows through the old one too,
/// so nothing is said of the old one after the call.
#[verifier::external_body]
pub(crate) fn txn_take(view: &mut sled::transaction::TransactionalTree) -> (r:
    sled::transaction::TransactionalTree)
    ensures
        txn_entries(r) == txn_entries(*old(view)),
{
    view.clone()
}

/// `sled::transaction::TransactionalTree::insert`: on success the transaction sees
/// `value` under `key`, and the result is what it saw there before. The error is
/// a conflict or a failure of the storage.
#[verifier::external_body]
pub(crate) fn txn_insert(
    view: &mut sled::transaction::TransactionalTree,
    key: Vec<u8>,
    value: Vec<u8>,
) -> (r: Result<Option<Vec<u8>>, sled::transaction::ConflictableTransactionError<()>>)
    ensures
        r matches Ok(previous) ==> {
            &&& bytes_of(previous) == lookup(txn_entries(*old(view)), key@)
            &&& txn_entries(*final(view)) == txn_entries(*old(view)).insert(key@, value@)
        },
{
    view.insert(key, value).map(|found| found.map(|bytes| bytes.to_vec())).map_err(|e| e.into())
}

/// `sled::transaction::TransactionalTree::remove`: on success the transaction sees
/// nothing under `key`, and the result is what it saw there before. The error is
/// a conflict or a failure of the storage.
#[verifier::external_body]
pub(crate) fn txn_remove(view: &mut sled::transaction::TransactionalTree, key: Vec<u8>) -> (r:
    Result<Option<Vec<u8>>, sled::transaction::ConflictableTransactionError<()>>)
    ensures
        r matches Ok(previous) ==> {
            &&& bytes_of(previous) == lookup(txn_entries(*old(view)), key@)
            &&& txn_entries(*final(view)) == txn_entries(*old(view)).remove(key@)
        },
{
    view.remove(key).map(|found| found.map(|bytes| bytes.to_vec())).map_err(|e| e.into())
}

/// `sled::transaction::TransactionalTree::get`: on success, what the transaction
/// sees under `key`. The error is a conflict or a failure of the storage.
#[verifier::external_body]
pub(crate) fn txn_get(view: &sled::transaction::TransactionalTree, key: &[u8]) -> (r: Result<
    Option<Vec<u8>>,
    sled::transaction::ConflictableTransactionError<()>,
>)
    ensures
        r matches Ok(found) ==> bytes_of(found) == lookup(txn_entries(*view), key@),
{
    view.get(key).map(|found| found.map(|bytes| bytes.to_vec())).map_err(|e| e.into())
}

/// `sled::transaction::TransactionalTree::apply_batch`: on success the transaction
/// sees what it saw, changed by the writes of the batch. The error is a conflict
/// or a failure of the storage.
#[verifier::external_body]
pub(crate) fn txn_apply_batch(
    view: &mut sled::transaction::TransactionalTree,
    batch: &sled::Batch,
) -> (r: Result<(), sled::transaction::ConflictableTransactionError<()>>)
    ensures
        r is Ok ==> txn_entries(*final(view)) == applied(
            txn_entries(*old(view)),
            batch_writes(*batch),
        ),
{
    view.apply_batch(batch).map_err(|e| e.into())
}

} // verus!
