//! Writes to an expiring tree that are applied in one step.

use vstd::prelude::*;
use crate::encoding::Encoding;
use crate::error::TreeError;
use crate::key_set::{key_views, with_key, without_key, KeySet};
use crate::structured_batch::StructuredBatch;
use crate::structured_tree::encoding_failed;

verus! {

/// Writes to be applied to an expiring tree in one step, with the keys under which
/// they store a value.
pub struct ExpiringBatch<V, F> {
    batch: StructuredBatch<V, F>,
    keys: KeySet,
}

impl<V: View, F: Encoding<V>> ExpiringBatch<V, F> {
    /// What the batch will write: under each key that it names the bytes to
    /// store, or `None` where the key is to be removed.
    pub closed spec fn writes(&self) -> Map<Seq<u8>, Option<Seq<u8>>> {
        self.batch.writes()
    }

    /// The keys under which the batch stores a value, in the order in which they
    /// came.
    pub closed spec fn inserted(&self) -> Seq<Seq<u8>> {
        self.keys@
    }

    /// The writes of the batch, and the keys under which it stores a value.
    pub(crate) fn into_parts(self) -> (r: (StructuredBatch<V, F>, Vec<Vec<u8>>))
        ensures
            r.0.writes() == self.writes(),
            key_views(r.1@) == self.inserted(),
    {
        (self.batch, self.keys.into_keys())
    }

    /// A batch that writes nothing.
    pub fn new() -> (r: Self)
        ensures
            r.writes() == Map::<Seq<u8>, Option<Seq<u8>>>::empty(),
            r.inserted() == Seq::<Seq<u8>>::empty(),
    {
        ExpiringBatch { batch: StructuredBatch::new(), keys: KeySet::new() }
    }

    /// Lets the batch store `value` under `key`. A value that cannot be written
    /// is refused, and the batch stays as it was.
    pub fn insert(&mut self, key: Vec<u8>, value: V) -> (r: Result<(), TreeError>)
        ensures
            match F::encoding(value@) {
                Some(bytes) => {
                    &&& r is Ok
                    &&& final(self).writes() == old(self).writes().insert(key@, Some(bytes))
                    &&& final(self).inserted() == with_key(old(self).inserted(), key@)
                },
                None => {
                    &&& encoding_failed(r)
                    &&& final(self).writes() == old(self).writes()
                    &&& final(self).inserted() == old(self).inserted()
                },
            },
    {
        let at = vstd::slice::slice_to_vec(key.as_slice());
        match self.batch.insert(key, value) {
            Ok(()) => {
                self.keys.insert(at);
                Ok(())
            },
            Err(e) => Err(e),
        }
    }

    /// Lets the batch remove `key`, which no longer counts as stored under.
    pub fn remove(&mut self, key: Vec<u8>)
        ensures
            final(self).inserted() == without_key(old(self).inserted(), key@),
            final(self).writes() == old(self).writes().insert(key@, None),
    {
        self.keys.remove(key.as_slice());
        self.batch.remove(key)
    }
}

impl<V: View, F: Encoding<V>> Default for ExpiringBatch<V, F> {
    fn default() -> (r: Self)
        ensures
            r.writes() == Map::<Seq<u8>, Option<Seq<u8>>>::empty(),
            r.inserted() == Seq::<Seq<u8>>::empty(),
    {
        ExpiringBatch::new()
    }
}

} // verus!
