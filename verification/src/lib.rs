//! A user directory kept in two cooperating stores.
//!
//! The primary store owns its records outright. The foreign store is a second,
//! separately managed collection that the directory reaches only through a
//! narrow boundary of calls and opaque handles. Every record carries an
//! ownership tag that names the one side allowed to release it, and a daily
//! scheduler flushes signups, ages records, and periodically merges the two
//! stores.

pub mod limits;
pub mod text;
pub mod error;
pub mod ownership;
pub mod slots;
pub mod record;
pub mod primary;
pub mod session;
pub mod foreign;
pub mod wrapper;
pub mod state;
pub mod directory;
pub mod laws;
pub mod merge_laws;
pub mod day_laws;
