//! Opening trees in a database.

use vstd::prelude::*;
use crate::encoding::{BincodeEncoding, CborEncoding, Encoding, JsonEncoding, PlainEncoding};
use crate::error::TreeError;
use crate::expiring_tree::ExpiringTreeBuilder;
use crate::key_set::KeySet;
use crate::store::Store;
use crate::structured_tree::StructuredTree;
use crate::time::Timestamp;

verus! {

/// Ways to open the trees of this library in a database. A tree borrows the
/// database for as long as it is used.
pub trait DbExt: Sized {
    /// The settings of the expiring tree called `name`, to be opened with
    /// `build` in this database. `E` writes the expiry times, `F` the values.
    fn open_expiring_tree<V: View, E: Encoding<Timestamp> + Encoding<KeySet>, F: Encoding<V>>(
        &self,
        name: &str,
    ) -> (r: ExpiringTreeBuilder<V, E, F>)
        ensures
            r.name_view() == name@,
            !r.extends_on_update(),
            !r.extends_on_fetch(),
            r.length().total() == 12 * 3600 * 1_000_000_000,
    ;

    /// Opens the tree called `name`, whose values `E` writes.
    fn open_structured_tree<V: View, E: Encoding<V>>(&mut self, name: &str) -> (r: Result<
        StructuredTree<V, E>,
        TreeError,
    >)
        ensures
            match r {
                Ok(tree) => tree.name_view() == name@,
                Err(e) => e.is_engine(),
            },
    ;

    /// The settings of an expiring tree whose values and expiry times one
    /// encoding writes.
    fn open_expiring_structured_tree<
        V: View,
        E: Encoding<V> + Encoding<Timestamp> + Encoding<KeySet>,
    >(&self, name: &str) -> (r: ExpiringTreeBuilder<V, E, E>)
        ensures
            r.name_view() == name@,
            !r.extends_on_update(),
            !r.extends_on_fetch(),
            r.length().total() == 12 * 3600 * 1_000_000_000,
    {
        self.open_expiring_tree(name)
    }

    /// The settings of an expiring tree whose values are bytes, stored as they
    /// are.
    fn open_expiring_plain_tree<E: Encoding<Timestamp> + Encoding<KeySet>>(&self, name: &str) -> (r:
        ExpiringTreeBuilder<Vec<u8>, E, PlainEncoding>)
        ensures
            r.name_view() == name@,
            !r.extends_on_update(),
            !r.extends_on_fetch(),
            r.length().total() == 12 * 3600 * 1_000_000_000,
    {
        self.open_expiring_tree(name)
    }

    /// Opens a tree whose values are written with bincode.
    fn open_bincode_tree<V: View>(&mut self, name: &str) -> (r: Result<
        StructuredTree<V, BincodeEncoding>,
        TreeError,
    >) where BincodeEncoding: Encoding<V>
        ensures
            match r {
                Ok(tree) => tree.name_view() == name@,
                Err(e) => e.is_engine(),
            },
    {
        self.open_structured_tree(name)
    }

    /// The settings of an expiring tree whose values and expiry times are written
    /// with bincode.
    fn open_expiring_bincode_tree<V: View>(&self, name: &str) -> (r: ExpiringTreeBuilder<
        V,
        BincodeEncoding,
        BincodeEncoding,
    >) where BincodeEncoding: Encoding<V>
        ensures
            r.name_view() == name@,
            !r.extends_on_update(),
            !r.extends_on_fetch(),
            r.length().total() == 12 * 3600 * 1_000_000_000,
    {
        self.open_expiring_tree(name)
    }

    /// The settings of an expiring tree whose values are bytes and whose expiry
    /// times are written with bincode.
    fn open_expiring_plain_bincode_tree(&self, name: &str) -> (r: ExpiringTreeBuilder<
        Vec<u8>,
        BincodeEncoding,
        PlainEncoding,
    >)
        ensures
            r.name_view() == name@,
            !r.extends_on_update(),
            !r.extends_on_fetch(),
            r.length().total() == 12 * 3600 * 1_000_000_000,
    {
        self.open_expiring_tree(name)
    }

    /// Opens a tree whose values are written as CBOR.
    fn open_cbor_tree<V: View>(&mut self, name: &str) -> (r: Result<
        StructuredTree<V, CborEncoding>,
        TreeError,
    >) where CborEncoding: Encoding<V>
        ensures
            match r {
                Ok(tree) => tree.name_view() == name@,
                Err(e) => e.is_engine(),
            },
    {
        self.open_structured_tree(name)
    }

    /// The settings of an expiring tree whose values and expiry times are written
    /// as CBOR.
    fn open_expiring_cbor_tree<V: View>(&self, name: &str) -> (r: ExpiringTreeBuilder<
        V,
        CborEncoding,
        CborEncoding,
    >) where CborEncoding: Encoding<V>
        ensures
            r.name_view() == name@,
            !r.extends_on_update(),
            !r.extends_on_fetch(),
            r.length().total() == 12 * 3600 * 1_000_000_000,
    {
        self.open_expiring_tree(name)
    }

    /// The settings of an expiring tree whose values are bytes and whose expiry
    /// times are written as CBOR.
    fn open_expiring_plain_cbor_tree(&self, name: &str) -> (r: ExpiringTreeBuilder<
        Vec<u8>,
        CborEncoding,
        PlainEncoding,
    >)
        ensures
            r.name_view() == name@,
            !r.extends_on_update(),
            !r.extends_on_fetch(),
            r.length().total() == 12 * 3600 * 1_000_000_000,
    {
        self.open_expiring_tree(name)
    }

    /// Opens a tree whose values are written as JSON.
    fn open_json_tree<V: View>(&mut self, name: &str) -> (r: Result<
        StructuredTree<V, JsonEncoding>,
        TreeError,
    >) where JsonEncoding: Encoding<V>
        ensures
            match r {
                Ok(tree) => tree.name_view() == name@,
                Err(e) => e.is_engine(),
            },
    {
        self.open_structured_tree(name)
    }

    /// The settings of an expiring tree whose values and expiry times are written
    /// as JSON.
    fn open_expiring_json_tree<V: View>(&self, name: &str) -> (r: ExpiringTreeBuilder<
        V,
        JsonEncoding,
        JsonEncoding,
    >) where JsonEncoding: Encoding<V>
        ensures
            r.name_view() == name@,
            !r.extends_on_update(),
            !r.extends_on_fetch(),
            r.length().total() == 12 * 3600 * 1_000_000_000,
    {
        self.open_expiring_tree(name)
    }

    /// The settings of an expiring tree whose values are bytes and whose expiry
    /// times are written as JSON.
    fn open_expiring_plain_json_tree(&self, name: &str) -> (r: ExpiringTreeBuilder<
        Vec<u8>,
        JsonEncoding,
        PlainEncoding,
    >)
        ensures
            r.name_view() == name@,
            !r.extends_on_update(),
            !r.extends_on_fetch(),
            r.length().total() == 12 * 3600 * 1_000_000_000,
    {
        self.open_expiring_tree(name)
    }
}

impl DbExt for Store {
    fn open_expiring_tree<V: View, E: Encoding<Timestamp> + Encoding<KeySet>, F: Encoding<V>>(
        &self,
        name: &str,
    ) -> (r: ExpiringTreeBuilder<V, E, F>) {
        ExpiringTreeBuilder::new(name)
    }

    fn open_structured_tree<V: View, E: Encoding<V>>(&mut self, name: &str) -> (r: Result<
        StructuredTree<V, E>,
        TreeError,
    >) {
        StructuredTree::new(self, name)
    }
}

} // verus!
