//! Walks over the entries of a tree of typed values.

use vstd::prelude::*;
use crate::encoding::Encoding;
use crate::engine::{iter_next, iter_next_back, iter_rest};
use crate::error::TreeError;
use crate::structured_tree::{encoding_failed, engine_failed, StructuredTree};

verus! {

/// A walk over entries of a tree, from either end. While it lasts, the tree is
/// not written to through the handle that it came from.
pub struct StructuredIter<'a, V, E> {
    iter: sled::Iter,
    tree: &'a StructuredTree<'a, V, E>,
}

/// `item` is what reading the entry `raw` gives: the key with the value that the
/// bytes decode to, or the encoding's error where they do not decode.
pub open spec fn reads_item_as<V: View, E: Encoding<V>>(
    raw: (Seq<u8>, Seq<u8>),
    item: Result<(Vec<u8>, V), TreeError>,
) -> bool {
    match E::decoding(raw.1) {
        Some(value) => item matches Ok((k, v)) && k@ == raw.0 && v@ == value,
        None => encoding_failed(item),
    }
}

impl<'a, V: View, E: Encoding<V>> StructuredIter<'a, V, E> {
    /// The entries that the walk has yet to give, as stored bytes, in the order of
    /// their keys.
    pub closed spec fn rest(&self) -> Seq<(Seq<u8>, Seq<u8>)> {
        iter_rest(self.iter)
    }

    /// The walk `iter` of the database over entries of `tree`.
    pub(crate) fn over(iter: sled::Iter, tree: &'a StructuredTree<'a, V, E>) -> (r: Self)
        ensures
            r.rest() == iter_rest(iter),
    {
        StructuredIter { iter, tree }
    }

    /// What the database gave for one step of a walk, with the value read.
    pub fn read_item(item: Result<(Vec<u8>, Vec<u8>), sled::Error>) -> (r: Result<
        (Vec<u8>, V),
        TreeError,
    >)
        ensures
            match item {
                Ok((key, bytes)) => reads_item_as::<V, E>((key@, bytes@), r),
                Err(_) => engine_failed(r),
            },
    {
        match item {
            Ok((key, bytes)) => match E::decode(bytes.as_slice()) {
                Ok(value) => Ok((key, value)),
                Err(e) => Err(e),
            },
            Err(e) => Err(TreeError::Sled(e)),
        }
    }

    /// The first entry that the walk has yet to give, or `None` at its end.
    pub fn next(&mut self) -> (r: Option<Result<(Vec<u8>, V), TreeError>>)
        ensures
            match r {
                None => old(self).rest().len() == 0 && final(self).rest() == old(self).rest(),
                Some(item) => engine_failed(item) || {
                    &&& old(self).rest().len() > 0
                    &&& final(self).rest() == old(self).rest().drop_first()
                    &&& reads_item_as::<V, E>(old(self).rest().first(), item)
                },
            },
    {
        match iter_next(&mut self.iter) {
            Some(item) => Some(Self::read_item(item)),
            None => None,
        }
    }

    /// The last entry that the walk has yet to give, or `None` at its end.
    pub fn next_back(&mut self) -> (r: Option<Result<(Vec<u8>, V), TreeError>>)
        ensures
            match r {
                None => old(self).rest().len() == 0 && final(self).rest() == old(self).rest(),
                Some(item) => engine_failed(item) || {
                    &&& old(self).rest().len() > 0
                    &&& final(self).rest() == old(self).rest().drop_last()
                    &&& reads_item_as::<V, E>(old(self).rest().last(), item)
                },
            },
    {
        match iter_next_back(&mut self.iter) {
            Some(item) => Some(Self::read_item(item)),
            None => None,
        }
    }

    /// The entries that the walk has yet to give, each read. The list ends with
    /// the first error of the database, if there is one.
    pub fn entries(self) -> (r: Vec<Result<(Vec<u8>, V), TreeError>>)
        ensures
            r@.len() <= self.rest().len() + 1,
            forall|i: int|
                0 <= i < r@.len() ==> (engine_failed(#[trigger] r@[i]) && i == r@.len() - 1) || (i
                    < self.rest().len() && reads_item_as::<V, E>(self.rest()[i], r@[i])),
            r@.len() == self.rest().len() || (r@.len() > 0 && engine_failed(r@.last())),
    {
        let ghost all = self.rest();
        let mut walk = self;
        let mut out: Vec<Result<(Vec<u8>, V), TreeError>> = Vec::new();
        let mut done = false;
        while !done
            invariant
                out@.len() <= all.len() + 1,
                !done ==> out@.len() <= all.len() && walk.rest() == all.skip(out@.len() as int),
                forall|i: int|
                    0 <= i < out@.len() ==> (engine_failed(#[trigger] out@[i]) && i == out@.len() - 1)
                        || (i < all.len() && reads_item_as::<V, E>(all[i], out@[i])),
                done ==> out@.len() == all.len() || (out@.len() > 0 && engine_failed(out@.last())),
                !done ==> forall|i: int| 0 <= i < out@.len() ==> !engine_failed(#[trigger] out@[i]),
            decreases all.len() + 1 - out@.len(), if done { 0int } else { 1int },
        {
            let ghost before = walk.rest();
            match walk.next() {
                None => {
                    done = true;
                },
                Some(item) => {
                    let stop = match &item {
                        Err(e) => e.from_engine(),
                        Ok(_) => false,
                    };
                    proof {
                        if !stop {
                            assert(before.first() == all[out@.len() as int]);
                            assert(before.drop_first() =~= all.skip(out@.len() as int + 1));
                        }
                    }
                    out.push(item);
                    if stop {
                        done = true;
                    }
                },
            }
        }
        out
    }

    /// The keys of the entries that the walk has yet to give. The list ends with
    /// the first error of the database, if there is one.
    pub fn keys(self) -> (r: Vec<Result<Vec<u8>, TreeError>>)
        ensures
            r@.len() <= self.rest().len() + 1,
            forall|i: int|
                0 <= i < r@.len() ==> (engine_failed(#[trigger] r@[i]) && i == r@.len() - 1) || (i
                    < self.rest().len() && match E::decoding(self.rest()[i].1) {
                    Some(_) => r@[i] matches Ok(key) && key@ == self.rest()[i].0,
                    None => encoding_failed(r@[i]),
                }),
            r@.len() == self.rest().len() || (r@.len() > 0 && engine_failed(r@.last())),
    {
        keys_of(self.entries())
    }

    /// The values of the entries that the walk has yet to give. The list ends
    /// with the first error of the database, if there is one.
    pub fn values(self) -> (r: Vec<Result<V, TreeError>>)
        ensures
            r@.len() <= self.rest().len() + 1,
            forall|i: int|
                0 <= i < r@.len() ==> (engine_failed(#[trigger] r@[i]) && i == r@.len() - 1) || (i
                    < self.rest().len() && match E::decoding(self.rest()[i].1) {
                    Some(value) => r@[i] matches Ok(v) && v@ == value,
                    None => encoding_failed(r@[i]),
                }),
            r@.len() == self.rest().len() || (r@.len() > 0 && engine_failed(r@.last())),
    {
        values_of(self.entries())
    }
}

/// The key of an entry that was read, or the error in its place.
pub open spec fn key_part<V>(item: Result<(Vec<u8>, V), TreeError>) -> Result<Vec<u8>, TreeError> {
    match item {
        Ok((key, _)) => Ok(key),
        Err(e) => Err(e),
    }
}

/// The value of an entry that was read, or the error in its place.
pub open spec fn value_part<V>(item: Result<(Vec<u8>, V), TreeError>) -> Result<V, TreeError> {
    match item {
        Ok((_, value)) => Ok(value),
        Err(e) => Err(e),
    }
}

/// The items of `list`, last first.
fn reversed<T>(list: Vec<T>) -> (r: Vec<T>)
    ensures
        r@ == list@.reverse(),
{
    let mut list = list;
    let ghost all = list@;
    let mut out: Vec<T> = Vec::new();
    while list.len() > 0
        invariant
            list@.len() + out@.len() == all.len(),
            forall|i: int| 0 <= i < list@.len() ==> list@[i] == all[i],
            forall|i: int| 0 <= i < out@.len() ==> out@[i] == all[all.len() - 1 - i],
        decreases list@.len(),
    {
        let item = list.pop().unwrap();
        out.push(item);
    }
    assert(out@ =~= all.reverse());
    out
}

/// The keys of entries that were read, each in its place.
pub(crate) fn keys_of<V>(entries: Vec<Result<(Vec<u8>, V), TreeError>>) -> (r: Vec<
    Result<Vec<u8>, TreeError>,
>)
    ensures
        r@.len() == entries@.len(),
        forall|i: int| 0 <= i < r@.len() ==> #[trigger] r@[i] == key_part(entries@[i]),
{
    let ghost all = entries@;
    let mut back = reversed(entries);
    let mut out: Vec<Result<Vec<u8>, TreeError>> = Vec::new();
    while back.len() > 0
        invariant
            back@.len() + out@.len() == all.len(),
            forall|i: int| 0 <= i < back@.len() ==> back@[i] == all[all.len() - 1 - i],
            forall|i: int| 0 <= i < out@.len() ==> #[trigger] out@[i] == key_part(all[i]),
        decreases back@.len(),
    {
        let item = back.pop().unwrap();
        out.push(
            match item {
                Ok((key, _)) => Ok(key),
                Err(e) => Err(e),
            },
        );
    }
    out
}

/// The values of entries that were read, each in its place.
pub(crate) fn values_of<V>(entries: Vec<Result<(Vec<u8>, V), TreeError>>) -> (r: Vec<
    Result<V, TreeError>,
>)
    ensures
        r@.len() == entries@.len(),
        forall|i: int| 0 <= i < r@.len() ==> #[trigger] r@[i] == value_part(entries@[i]),
{
    let ghost all = entries@;
    let mut back = reversed(entries);
    let mut out: Vec<Result<V, TreeError>> = Vec::new();
    while back.len() > 0
        invariant
            back@.len() + out@.len() == all.len(),
            forall|i: int| 0 <= i < back@.len() ==> back@[i] == all[all.len() - 1 - i],
            forall|i: int| 0 <= i < out@.len() ==> #[trigger] out@[i] == value_part(all[i]),
        decreases back@.len(),
    {
        let item = back.pop().unwrap();
        out.push(
            match item {
                Ok((_, value)) => Ok(value),
                Err(e) => Err(e),
            },
        );
    }
    out
}

} // verus!
