//! The ownership tag of a record and the transitions it may take.
//!
//! At any instant exactly one side may release a record: the side its tag
//! names. Every change of a tag, and every release, goes through
//! `transition`.

use vstd::prelude::*;
use crate::error::StoreError;

verus! {

/// Which side may release a record, and whether the record is shared.
#[allow(non_camel_case_types)]
#[derive(Clone, Copy, Debug, PartialEq, Eq, Structural)]
pub enum OwnershipType {
    /// Held by the primary store alone.
    RUST_OWNED,
    /// Held by the foreign store alone.
    C_OWNED,
    /// Shared; the primary store is authoritative.
    SHARED_RUST_PRIMARY,
    /// Shared; the foreign store is authoritative.
    SHARED_C_PRIMARY,
}

/// One of the two stores.
#[derive(Clone, Copy, Debug, PartialEq, Eq, Structural)]
pub enum Backend {
    Primary,
    Foreign,
}

/// What can happen to a record's tag.
#[derive(Clone, Copy, Debug, PartialEq, Eq, Structural)]
pub enum OwnershipEvent {
    /// A fresh record is created in the primary store.
    CreateInPrimary,
    /// A fresh record is created in the foreign store.
    CreateInForeign,
    /// A record of the primary store is shared with the foreign store.
    SharePrimaryToForeign,
    /// The primary store takes back a record it had shared.
    ReclaimForeignToPrimary,
    /// The given side releases the record's storage.
    Release(Backend),
}

impl OwnershipType {
    /// Whether both stores hold the record.
    pub open spec fn is_shared(self) -> bool {
        self == OwnershipType::SHARED_RUST_PRIMARY || self == OwnershipType::SHARED_C_PRIMARY
    }

    /// The one side that may release a record with this tag.
    pub open spec fn authority(self) -> Backend {
        match self {
            OwnershipType::RUST_OWNED => Backend::Primary,
            OwnershipType::SHARED_RUST_PRIMARY => Backend::Primary,
            OwnershipType::C_OWNED => Backend::Foreign,
            OwnershipType::SHARED_C_PRIMARY => Backend::Foreign,
        }
    }

    /// Whether both stores hold the record.
    pub fn shared(self) -> (r: bool)
        ensures
            r == self.is_shared(),
    {
        match self {
            OwnershipType::SHARED_RUST_PRIMARY => true,
            OwnershipType::SHARED_C_PRIMARY => true,
            _ => false,
        }
    }

    /// The one side that may release a record with this tag.
    pub fn authoritative_side(self) -> (side: Backend)
        ensures
            side == self.authority(),
    {
        match self {
            OwnershipType::RUST_OWNED => Backend::Primary,
            OwnershipType::SHARED_RUST_PRIMARY => Backend::Primary,
            OwnershipType::C_OWNED => Backend::Foreign,
            OwnershipType::SHARED_C_PRIMARY => Backend::Foreign,
        }
    }
}

/// The tag a record has after `event`, or the violation the event is.
///
/// - Creation stamps an unshared record for the creating side; a shared record
///   may not enter a creation path.
/// - Sharing turns a record of the primary store alone into a shared one with
///   the foreign store authoritative, leaves a shared record as it is, and is
///   a violation on a record of the foreign store alone.
/// - Reclaiming makes the primary store authoritative for a shared record and
///   is a violation on an unshared one.
/// - Release keeps the tag and is a violation unless the releasing side is the
///   authoritative one.
pub open spec fn next_tag(tag: OwnershipType, event: OwnershipEvent) -> Result<
    OwnershipType,
    StoreError,
> {
    match event {
        OwnershipEvent::CreateInPrimary => if tag.is_shared() {
            Err(StoreError::OwnershipViolation)
        } else {
            Ok(OwnershipType::RUST_OWNED)
        },
        OwnershipEvent::CreateInForeign => if tag.is_shared() {
            Err(StoreError::OwnershipViolation)
        } else {
            Ok(OwnershipType::C_OWNED)
        },
        OwnershipEvent::SharePrimaryToForeign => match tag {
            OwnershipType::RUST_OWNED => Ok(OwnershipType::SHARED_C_PRIMARY),
            OwnershipType::C_OWNED => Err(StoreError::OwnershipViolation),
            _ => Ok(tag),
        },
        OwnershipEvent::ReclaimForeignToPrimary => if tag.is_shared() {
            Ok(OwnershipType::SHARED_RUST_PRIMARY)
        } else {
            Err(StoreError::OwnershipViolation)
        },
        OwnershipEvent::Release(side) => if tag.authority() == side {
            Ok(tag)
        } else {
            Err(StoreError::OwnershipViolation)
        },
    }
}

/// The single place where a tag changes or a release is cleared.
pub fn transition(tag: OwnershipType, event: OwnershipEvent) -> (r: Result<
    OwnershipType,
    StoreError,
>)
    ensures
        r == next_tag(tag, event),
{
    match event {
        OwnershipEvent::CreateInPrimary => {
            if tag.shared() {
                Err(StoreError::OwnershipViolation)
            } else {
                Ok(OwnershipType::RUST_OWNED)
            }
        },
        OwnershipEvent::CreateInForeign => {
            if tag.shared() {
                Err(StoreError::OwnershipViolation)
            } else {
                Ok(OwnershipType::C_OWNED)
            }
        },
        OwnershipEvent::SharePrimaryToForeign => {
            match tag {
                OwnershipType::RUST_OWNED => Ok(OwnershipType::SHARED_C_PRIMARY),
                OwnershipType::C_OWNED => Err(StoreError::OwnershipViolation),
                _ => Ok(tag),
            }
        },
        OwnershipEvent::ReclaimForeignToPrimary => {
            if tag.shared() {
                Ok(OwnershipType::SHARED_RUST_PRIMARY)
            } else {
                Err(StoreError::OwnershipViolation)
            }
        },
        OwnershipEvent::Release(side) => {
            if tag.authoritative_side() == side {
                Ok(tag)
            } else {
                Err(StoreError::OwnershipViolation)
            }
        },
    }
}

/// No event takes a shared record back to an unshared tag.
pub proof fn lemma_shared_stays_shared(tag: OwnershipType, event: OwnershipEvent)
    requires
        tag.is_shared(),
    ensures
        next_tag(tag, event) matches Ok(after) ==> after.is_shared(),
{
}

/// Sharing a record a second time changes nothing.
pub proof fn lemma_share_is_idempotent(tag: OwnershipType)
    ensures
        next_tag(tag, OwnershipEvent::SharePrimaryToForeign) matches Ok(once) ==> next_tag(
            once,
            OwnershipEvent::SharePrimaryToForeign,
        ) == Ok::<OwnershipType, StoreError>(once),
{
}

/// A release is cleared for exactly one side, whatever the tag, and it leaves
/// the tag as it is.
pub proof fn lemma_one_side_releases(tag: OwnershipType)
    ensures
        next_tag(tag, OwnershipEvent::Release(Backend::Primary)) is Ok != next_tag(
            tag,
            OwnershipEvent::Release(Backend::Foreign),
        ) is Ok,
        forall|side: Backend| #[trigger]
            next_tag(tag, OwnershipEvent::Release(side)) is Ok <==> side == tag.authority(),
        forall|side: Backend| #[trigger]
            next_tag(tag, OwnershipEvent::Release(side)) matches Ok(after) ==> after == tag,
{
}

/// A shared record that enters a creation path is a violation.
pub proof fn lemma_shared_cannot_be_created(tag: OwnershipType)
    requires
        tag.is_shared(),
    ensures
        next_tag(tag, OwnershipEvent::CreateInPrimary) == Err::<OwnershipType, StoreError>(
            StoreError::OwnershipViolation,
        ),
        next_tag(tag, OwnershipEvent::CreateInForeign) == Err::<OwnershipType, StoreError>(
            StoreError::OwnershipViolation,
        ),
{
}

} // verus!
