use user_directory::error::StoreError;
use user_directory::ownership::{transition, Backend, OwnershipEvent, OwnershipType};

const ALL_TAGS: [OwnershipType; 4] = [
    OwnershipType::RUST_OWNED,
    OwnershipType::C_OWNED,
    OwnershipType::SHARED_RUST_PRIMARY,
    OwnershipType::SHARED_C_PRIMARY,
];

const ALL_EVENTS: [OwnershipEvent; 6] = [
    OwnershipEvent::CreateInPrimary,
    OwnershipEvent::CreateInForeign,
    OwnershipEvent::SharePrimaryToForeign,
    OwnershipEvent::ReclaimForeignToPrimary,
    OwnershipEvent::Release(Backend::Primary),
    OwnershipEvent::Release(Backend::Foreign),
];

#[test]
fn creation_stamps_unshared_tags() {
    assert_eq!(
        transition(OwnershipType::RUST_OWNED, OwnershipEvent::CreateInPrimary),
        Ok(OwnershipType::RUST_OWNED)
    );
    assert_eq!(
        transition(OwnershipType::RUST_OWNED, OwnershipEvent::CreateInForeign),
        Ok(OwnershipType::C_OWNED)
    );
    assert_eq!(
        transition(OwnershipType::C_OWNED, OwnershipEvent::CreateInPrimary),
        Ok(OwnershipType::RUST_OWNED)
    );
}

#[test]
fn shared_record_cannot_enter_a_creation_path() {
    for tag in [OwnershipType::SHARED_RUST_PRIMARY, OwnershipType::SHARED_C_PRIMARY] {
        assert_eq!(
            transition(tag, OwnershipEvent::CreateInPrimary),
            Err(StoreError::OwnershipViolation)
        );
        assert_eq!(
            transition(tag, OwnershipEvent::CreateInForeign),
            Err(StoreError::OwnershipViolation)
        );
    }
}

#[test]
fn sharing_is_allowed_from_primary_and_idempotent() {
    let once = transition(OwnershipType::RUST_OWNED, OwnershipEvent::SharePrimaryToForeign);
    assert_eq!(once, Ok(OwnershipType::SHARED_C_PRIMARY));
    assert_eq!(
        transition(once.unwrap(), OwnershipEvent::SharePrimaryToForeign),
        Ok(OwnershipType::SHARED_C_PRIMARY)
    );
    assert_eq!(
        transition(OwnershipType::SHARED_RUST_PRIMARY, OwnershipEvent::SharePrimaryToForeign),
        Ok(OwnershipType::SHARED_RUST_PRIMARY)
    );
    assert_eq!(
        transition(OwnershipType::C_OWNED, OwnershipEvent::SharePrimaryToForeign),
        Err(StoreError::OwnershipViolation)
    );
}

#[test]
fn reclaim_makes_the_primary_store_authoritative() {
    assert_eq!(
        transition(OwnershipType::SHARED_C_PRIMARY, OwnershipEvent::ReclaimForeignToPrimary),
        Ok(OwnershipType::SHARED_RUST_PRIMARY)
    );
    assert_eq!(
        transition(OwnershipType::SHARED_RUST_PRIMARY, OwnershipEvent::ReclaimForeignToPrimary),
        Ok(OwnershipType::SHARED_RUST_PRIMARY)
    );
    assert_eq!(
        transition(OwnershipType::RUST_OWNED, OwnershipEvent::ReclaimForeignToPrimary),
        Err(StoreError::OwnershipViolation)
    );
    assert_eq!(
        transition(OwnershipType::C_OWNED, OwnershipEvent::ReclaimForeignToPrimary),
        Err(StoreError::OwnershipViolation)
    );
}

#[test]
fn release_is_cleared_for_the_authoritative_side_only() {
    let expected = [
        (OwnershipType::RUST_OWNED, Backend::Primary),
        (OwnershipType::C_OWNED, Backend::Foreign),
        (OwnershipType::SHARED_RUST_PRIMARY, Backend::Primary),
        (OwnershipType::SHARED_C_PRIMARY, Backend::Foreign),
    ];
    for (tag, side) in expected {
        assert_eq!(tag.authoritative_side(), side);
        for candidate in [Backend::Primary, Backend::Foreign] {
            let cleared = transition(tag, OwnershipEvent::Release(candidate));
            if candidate == side {
                assert_eq!(cleared, Ok(tag));
            } else {
                assert_eq!(cleared, Err(StoreError::OwnershipViolation));
            }
        }
    }
}

#[test]
fn no_event_unshares_a_shared_record() {
    for tag in ALL_TAGS {
        for event in ALL_EVENTS {
            if let Ok(after) = transition(tag, event) {
                if tag.shared() {
                    assert!(after.shared());
                }
            }
        }
    }
}

#[test]
fn shared_tags_are_the_two_shared_ones() {
    assert!(!OwnershipType::RUST_OWNED.shared());
    assert!(!OwnershipType::C_OWNED.shared());
    assert!(OwnershipType::SHARED_RUST_PRIMARY.shared());
    assert!(OwnershipType::SHARED_C_PRIMARY.shared());
}

#[test]
fn only_the_ownership_violation_is_fatal() {
    assert!(StoreError::OwnershipViolation.fatal());
    for error in [
        StoreError::CapacityExceeded,
        StoreError::LookupFailure,
        StoreError::AuthFailure,
        StoreError::SessionInvalid,
        StoreError::CreationFailure,
    ] {
        assert!(!error.fatal());
    }
}

#[test]
fn errors_have_their_messages() {
    assert_eq!(StoreError::CapacityExceeded.message(), "Store is full");
    assert_eq!(StoreError::LookupFailure.message(), "User not found in any backend");
    assert_eq!(StoreError::AuthFailure.message(), "Incorrect password");
    assert_eq!(StoreError::SessionInvalid.message(), "Invalid session");
    assert_eq!(StoreError::CreationFailure.message(), "Failed to create user");
    assert_eq!(StoreError::OwnershipViolation.message(), "Ownership violation");
}
