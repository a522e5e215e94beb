//! Writes to a tree of typed values that are applied in one step.

use vstd::prelude::*;
use std::marker::PhantomData;
use crate::encoding::Encoding;
use crate::engine::{batch_insert, batch_new, batch_remove, batch_writes};
use crate::error::TreeError;
use crate::structured_tree::encoding_failed;

verus! {

/// Writes to be applied to a tree in one step.
pub struct StructuredBatch<V, E> {
    batch: sled::Batch,
    value: PhantomData<V>,
    encoding: PhantomData<E>,
}

impl<V: View, E: Encoding<V>> StructuredBatch<V, E> {
    /// What the batch will write: under each key that it names the bytes to
    /// store, or `None` where the key is to be removed.
    pub closed spec fn writes(&self) -> Map<Seq<u8>, Option<Seq<u8>>> {
        batch_writes(self.batch)
    }

    /// The batch as the database keeps it.
    pub(crate) fn into_inner(self) -> (r: sled::Batch)
        ensures
            batch_writes(r) == self.writes(),
    {
        self.batch
    }

    /// The batch as the database keeps it.
    pub(crate) fn as_inner(&self) -> (r: &sled::Batch)
        ensures
            batch_writes(*r) == self.writes(),
    {
        &self.batch
    }

    /// A batch that writes nothing.
    pub fn new() -> (r: Self)
        ensures
            r.writes() == Map::<Seq<u8>, Option<Seq<u8>>>::empty(),
    {
        StructuredBatch { batch: batch_new(), value: PhantomData, encoding: PhantomData }
    }

    /// Lets the batch store `value` under `key`. A value that cannot be written is
    /// refused, and the batch stays as it was.
    pub fn insert(&mut self, key: Vec<u8>, value: V) -> (r: Result<(), TreeError>)
        ensures
            match E::encoding(value@) {
                Some(bytes) => r is Ok && final(self).writes() == old(self).writes().insert(
                    key@,
                    Some(bytes),
                ),
                None => encoding_failed(r) && final(self).writes() == old(self).writes(),
            },
    {
        match E::encode(&value) {
            Ok(bytes) => {
                batch_insert(&mut self.batch, key, bytes);
                Ok(())
            },
            Err(e) => Err(e),
        }
    }

    /// Lets the batch remove `key`.
    pub fn remove(&mut self, key: Vec<u8>)
        ensures
            final(self).writes() == old(self).writes().insert(key@, None),
    {
        batch_remove(&mut self.batch, key)
    }
}

impl<V: View, E: Encoding<V>> Default for StructuredBatch<V, E> {
    fn default() -> (r: Self)
        ensures
            r.writes() == Map::<Seq<u8>, Option<Seq<u8>>>::empty(),
    {
        StructuredBatch::new()
    }
}

} // verus!
