//! Typed trees and expiring trees on top of the sled embedded database.
//!
//! A [`structured_tree::StructuredTree`] stores values of one type under byte keys and
//! passes them through an [`encoding::Encoding`] on the way in and out. An
//! [`expiring_tree::ExpiringTree`] adds, in two more trees, the time at which each key
//! expires and, for each such time, the keys that expire then.
//!
//! The contracts describe a tree as its only user sees it: what it holds is changed by
//! the calls made through the handle at hand, and by nothing else in between. A
//! [`store::Store`] lends its database to one tree at a time, and a second handle on a
//! tree borrows the first, so of the handles that the library gives out no two write to
//! one tree at one time.

pub mod bytes;
pub mod consistency;
pub mod db;
pub mod encoding;
pub mod engine;
pub mod error;
pub mod expiring_batch;
pub mod expiring_iter;
pub mod expiring_transaction;
pub mod expiring_tree;
pub mod expiry;
pub mod key_set;
pub mod store;
pub mod structured_batch;
pub mod structured_iter;
pub mod structured_tree;
pub mod time;
