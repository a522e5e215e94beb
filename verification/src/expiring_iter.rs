//! Walks over the entries of an expiring tree.

use vstd::prelude::*;
use crate::encoding::Encoding;
use crate::engine::{iter_next, iter_next_back, iter_rest};
use crate::error::TreeError;
use crate::expiring_tree::ExpiringTree;
use crate::key_set::KeySet;
use crate::structured_iter::{keys_of, reads_item_as, values_of, StructuredIter};
use crate::structured_tree::{encoding_failed, engine_failed};
use crate::time::Timestamp;

verus! {

/// A walk over entries of an expiring tree, from either end. Where the tree
/// extends on fetch, the expiry of each key is renewed as the walk gives its
/// entry. While the walk lasts, the tree is used through it alone.
pub struct ExpiringIter<'a, 's, V, E, F> {
    iter: sled::Iter,
    tree: &'a mut ExpiringTree<'s, V, E, F>,
}

impl<'a, 's, V: View, E: Encoding<Timestamp> + Encoding<KeySet>, F: Encoding<V>> ExpiringIter<
    'a,
    's,
    V,
    E,
    F,
> {
    /// The entries that the walk has yet to give, as stored bytes, in the order of
    /// their keys.
    pub closed spec fn rest(&self) -> Seq<(Seq<u8>, Seq<u8>)> {
        iter_rest(self.iter)
    }

    /// The tree as the walk has left it so far.
    pub closed spec fn tree(&self) -> ExpiringTree<V, E, F> {
        *self.tree
    }

    /// The walk `iter` of the database over entries of the values of `tree`.
    pub(crate) fn over(iter: sled::Iter, tree: &'a mut ExpiringTree<'s, V, E, F>) -> (r: Self)
        ensures
            r.rest() == iter_rest(iter),
            r.tree() == *old(tree),
    {
        ExpiringIter { iter, tree }
    }

    /// What a step of the walk gives and leaves, for what the database gave.
    fn touch_item(&mut self, item: Result<(Vec<u8>, Vec<u8>), sled::Error>, now: &Timestamp) -> (r:
        Result<(Vec<u8>, V), TreeError>)
        ensures
            final(self).rest() == old(self).rest(),
            final(self).tree().same_settings(&old(self).tree()),
            final(self).tree().data() == old(self).tree().data(),
            match item {
                Ok((key, bytes)) => engine_failed(r) || ExpiringTree::walked(
                    old(self).tree(),
                    final(self).tree(),
                    (key@, bytes@),
                    *now,
                    r,
                ),
                Err(_) => engine_failed(r),
            },
    {
        match StructuredIter::<'a, V, F>::read_item(item) {
            Ok((key, value)) => {
                if self.tree.renews_on_fetch() {
                    match self.tree.update_expires_at(key.as_slice(), now) {
                        Ok(()) => {},
                        Err(e) => {
                            return Err(e);
                        },
                    }
                }
                Ok((key, value))
            },
            Err(e) => Err(e),
        }
    }

    /// The first entry that the walk has yet to give, read at the time `now`, or
    /// `None` at its end.
    pub fn next_at(&mut self, now: &Timestamp) -> (r: Option<Result<(Vec<u8>, V), TreeError>>)
        ensures
            final(self).tree().same_settings(&old(self).tree()),
            final(self).tree().data() == old(self).tree().data(),
            match r {
                None => {
                    &&& old(self).rest().len() == 0
                    &&& final(self).rest() == old(self).rest()
                    &&& final(self).tree().data() == old(self).tree().data()
                    &&& final(self).tree().expirations() == old(self).tree().expirations()
                },
                Some(item) => engine_failed(item) || {
                    &&& old(self).rest().len() > 0
                    &&& final(self).rest() == old(self).rest().drop_first()
                    &&& ExpiringTree::walked(
                        old(self).tree(),
                        final(self).tree(),
                        old(self).rest().first(),
                        *now,
                        item,
                    )
                },
            },
    {
        match iter_next(&mut self.iter) {
            Some(item) => Some(self.touch_item(item, now)),
            None => None,
        }
    }

    /// The first entry that the walk has yet to give, or `None` at its end. The
    /// expiry of its key is renewed from the clock where the tree extends on
    /// fetch.
    pub fn next(&mut self) -> (r: Option<Result<(Vec<u8>, V), TreeError>>)
        ensures
            final(self).tree().same_settings(&old(self).tree()),
            final(self).tree().data() == old(self).tree().data(),
            match r {
                None => {
                    &&& old(self).rest().len() == 0
                    &&& final(self).rest() == old(self).rest()
                    &&& final(self).tree().data() == old(self).tree().data()
                    &&& final(self).tree().expirations() == old(self).tree().expirations()
                },
                Some(item) => engine_failed(item) || {
                    &&& old(self).rest().len() > 0
                    &&& final(self).rest() == old(self).rest().drop_first()
                    &&& exists|now: Timestamp|
                        now.is_valid() && #[trigger] ExpiringTree::walked(
                            old(self).tree(),
                            final(self).tree(),
                            old(self).rest().first(),
                            now,
                            item,
                        )
                },
            },
    {
        let now = Timestamp::now();
        self.next_at(&now)
    }

    /// The last entry that the walk has yet to give, read at the time `now`, or
    /// `None` at its end.
    pub fn next_back_at(&mut self, now: &Timestamp) -> (r: Option<Result<(Vec<u8>, V), TreeError>>)
        ensures
            final(self).tree().same_settings(&old(self).tree()),
            final(self).tree().data() == old(self).tree().data(),
            match r {
                None => {
                    &&& old(self).rest().len() == 0
                    &&& final(self).rest() == old(self).rest()
                    &&& final(self).tree().data() == old(self).tree().data()
                    &&& final(self).tree().expirations() == old(self).tree().expirations()
                },
                Some(item) => engine_failed(item) || {
                    &&& old(self).rest().len() > 0
                    &&& final(self).rest() == old(self).rest().drop_last()
                    &&& ExpiringTree::walked(
                        old(self).tree(),
                        final(self).tree(),
                        old(self).rest().last(),
                        *now,
                        item,
                    )
                },
            },
    {
        match iter_next_back(&mut self.iter) {
            Some(item) => Some(self.touch_item(item, now)),
            None => None,
        }
    }

    /// The last entry that the walk has yet to give, or `None` at its end. The
    /// expiry of its key is renewed from the clock where the tree extends on
    /// fetch.
    pub fn next_back(&mut self) -> (r: Option<Result<(Vec<u8>, V), TreeError>>)
        ensures
            final(self).tree().same_settings(&old(self).tree()),
            final(self).tree().data() == old(self).tree().data(),
            match r {
                None => {
                    &&& old(self).rest().len() == 0
                    &&& final(self).rest() == old(self).rest()
                    &&& final(self).tree().data() == old(self).tree().data()
                    &&& final(self).tree().expirations() == old(self).tree().expirations()
                },
                Some(item) => engine_failed(item) || {
                    &&& old(self).rest().len() > 0
                    &&& final(self).rest() == old(self).rest().drop_last()
                    &&& exists|now: Timestamp|
                        now.is_valid() && #[trigger] ExpiringTree::walked(
                            old(self).tree(),
                            final(self).tree(),
                            old(self).rest().last(),
                            now,
                            item,
                        )
                },
            },
    {
        let now = Timestamp::now();
        self.next_back_at(&now)
    }

    /// The entries that the walk has yet to give, each read, with the expiry of
    /// its key renewed from the clock where the tree extends on fetch. The list
    /// ends with the first error of the database, if there is one. An entry that
    /// can be read gives the encoding's error only where the tree extends on
    /// fetch and the expiry of its key cannot be renewed.
    pub fn entries(self) -> (r: Vec<Result<(Vec<u8>, V), TreeError>>)
        ensures
            r@.len() <= self.rest().len() + 1,
            forall|i: int|
                0 <= i < r@.len() ==> (engine_failed(#[trigger] r@[i]) && i == r@.len() - 1) || (i
                    < self.rest().len() && match F::decoding(self.rest()[i].1) {
                    Some(_) => (self.tree().extends_on_fetch() && encoding_failed(r@[i]))
                        || reads_item_as::<V, F>(self.rest()[i], r@[i]),
                    None => encoding_failed(r@[i]),
                }),
            r@.len() == self.rest().len() || (r@.len() > 0 && engine_failed(r@.last())),
    {
        let ghost all = self.rest();
        let ghost renews = self.tree().extends_on_fetch();
        let mut walk = self;
        let mut out: Vec<Result<(Vec<u8>, V), TreeError>> = Vec::new();
        let mut done = false;
        while !done
            invariant
                out@.len() <= all.len() + 1,
                !done ==> out@.len() <= all.len() && walk.rest() == all.skip(out@.len() as int),
                forall|i: int|
                    0 <= i < out@.len() ==> (engine_failed(#[trigger] out@[i]) && i == out@.len() - 1)
                        || (i < all.len() && match F::decoding(all[i].1) {
                        Some(_) => (renews && encoding_failed(out@[i])) || reads_item_as::<V, F>(
                            all[i],
                            out@[i],
                        ),
                        None => encoding_failed(out@[i]),
                    }),
                walk.tree().extends_on_fetch() == renews,
                done ==> out@.len() == all.len() || (out@.len() > 0 && engine_failed(out@.last())),
                !done ==> forall|i: int| 0 <= i < out@.len() ==> !engine_failed(#[trigger] out@[i]),
            decreases all.len() + 1 - out@.len(), if done { 0int } else { 1int },
        {
            let ghost before = walk.rest();
            match walk.next() {
                None => {
                    done = true;
                },
                Some(item) => {
                    let stop = match &item {
                        Err(e) => e.from_engine(),
                        Ok(_) => false,
                    };
                    proof {
                        if !stop {
                            assert(before.first() == all[out@.len() as int]);
                            assert(before.drop_first() =~= all.skip(out@.len() as int + 1));
                        }
                    }
                    out.push(item);
                    if stop {
                        done = true;
                    }
                },
            }
        }
        out
    }

    /// The keys of the entries that the walk has yet to give. See `entries`.
    pub fn keys(self) -> (r: Vec<Result<Vec<u8>, TreeError>>)
        ensures
            r@.len() <= self.rest().len() + 1,
            forall|i: int|
                0 <= i < r@.len() ==> (engine_failed(#[trigger] r@[i]) && i == r@.len() - 1) || (i
                    < self.rest().len() && match F::decoding(self.rest()[i].1) {
                    Some(_) => (self.tree().extends_on_fetch() && encoding_failed(r@[i])) || (
                    r@[i] matches Ok(key) && key@ == self.rest()[i].0),
                    None => encoding_failed(r@[i]),
                }),
            r@.len() == self.rest().len() || (r@.len() > 0 && engine_failed(r@.last())),
    {
        keys_of(self.entries())
    }

    /// The values of the entries that the walk has yet to give. See `entries`.
    pub fn values(self) -> (r: Vec<Result<V, TreeError>>)
        ensures
            r@.len() <= self.rest().len() + 1,
            forall|i: int|
                0 <= i < r@.len() ==> (engine_failed(#[trigger] r@[i]) && i == r@.len() - 1) || (i
                    < self.rest().len() && match F::decoding(self.rest()[i].1) {
                    Some(value) => (self.tree().extends_on_fetch() && encoding_failed(r@[i])) || (
                    r@[i] matches Ok(v) && v@ == value),
                    None => encoding_failed(r@[i]),
                }),
            r@.len() == self.rest().len() || (r@.len() > 0 && engine_failed(r@.last())),
    {
        values_of(self.entries())
    }
}

} // verus!
