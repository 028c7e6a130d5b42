//! Sizes and thresholds shared by both stores.

use vstd::prelude::*;

verus! {

/// Number of record slots a store has unless another capacity is asked for.
pub const MAX_USERS: usize = 1000;

/// Size of the username buffer, terminator included.
pub const MAX_NAME_LEN: usize = 50;

/// Size of the email buffer, terminator included.
pub const MAX_EMAIL_LEN: usize = 50;

/// Size of the password buffer, terminator included.
pub const MAX_PASSWORD_LENGTH: usize = 100;

/// Size of the session token buffer, terminator included.
pub const MAX_SESSION_TOKEN_LEN: usize = 32;

/// Size of the session token buffer under the name the directory uses for it.
pub const SESSION_TOKEN_MAX_LEN: usize = 32;

/// A record whose inactivity count exceeds this is evicted at the next tick.
pub const INACTIVITY_THRESHOLD: i32 = 5;

/// A signup that still has more than this many entries pending, itself
/// included, is placed in the foreign store.
pub const PENDING_LOAD_THRESHOLD: usize = 5;

/// The two stores are merged on every day that is a multiple of this.
pub const MERGE_PERIOD: i32 = 5;

} // verus!
