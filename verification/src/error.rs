//! The ways an operation of the directory can fail.

use vstd::prelude::*;

verus! {

/// Why an operation did not go through.
#[derive(Clone, Copy, Debug, PartialEq, Eq, Structural)]
pub enum StoreError {
    /// The store has no free slot; the signup is dropped.
    CapacityExceeded,
    /// No record with that username in either store.
    LookupFailure,
    /// The password does not match the record's.
    AuthFailure,
    /// The token is not one of an open session.
    SessionInvalid,
    /// An input string cannot be stored, such as one with a zero byte in it.
    CreationFailure,
    /// A side that is not authoritative for a record tried to release it, or
    /// a shared record entered a path meant for unshared ones. This is fatal:
    /// the run must stop.
    OwnershipViolation,
}

impl StoreError {
    /// Whether the run must stop on this error.
    pub open spec fn is_fatal(self) -> bool {
        self == StoreError::OwnershipViolation
    }

    /// Whether the run must stop on this error.
    pub fn fatal(self) -> (r: bool)
        ensures
            r == self.is_fatal(),
    {
        match self {
            StoreError::OwnershipViolation => true,
            _ => false,
        }
    }

    /// A short text for logs.
    pub fn message(self) -> (text: &'static str)
        ensures
            text@ == match self {
                StoreError::CapacityExceeded => "Store is full"@,
                StoreError::LookupFailure => "User not found in any backend"@,
                StoreError::AuthFailure => "Incorrect password"@,
                StoreError::SessionInvalid => "Invalid session"@,
                StoreError::CreationFailure => "Failed to create user"@,
                StoreError::OwnershipViolation => "Ownership violation"@,
            },
    {
        match self {
            StoreError::CapacityExceeded => "Store is full",
            StoreError::LookupFailure => "User not found in any backend",
            StoreError::AuthFailure => "Incorrect password",
            StoreError::SessionInvalid => "Invalid session",
            StoreError::CreationFailure => "Failed to create user",
            StoreError::OwnershipViolation => "Ownership violation",
        }
    }
}

} // verus!
