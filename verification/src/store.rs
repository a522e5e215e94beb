//! A database that lends itself to one tree at a time.

use vstd::prelude::*;
use crate::engine::db_open_tree;

verus! {

/// A database of which this library is the only user. A tree that is opened in
/// it borrows it for as long as the tree is in use, so that of the trees
/// opened in one store no two are in use together, and no two handles write to
/// one tree of the database. When a tree is no longer used, the store can open
/// a tree again, the same or another.
pub struct Store {
    db: sled::Db,
}

impl Store {
    /// Takes over the database `db`. The trees of `db` are to be reached through
    /// the store alone from here on.
    pub fn new(db: sled::Db) -> Store {
        Store { db }
    }

    /// Opens the tree called `name`, and makes it if there is none.
    pub(crate) fn open(&mut self, name: &str) -> Result<sled::Tree, sled::Error> {
        db_open_tree(&self.db, name)
    }
}

} // verus!
