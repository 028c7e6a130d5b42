use user_directory::error::StoreError;
use user_directory::ownership::OwnershipType;
use user_directory::record::create_user;
use user_directory::wrapper::{initialize_enhanced_database, DatabaseExtensions, UserReference};

fn text(buffer: &[u8]) -> &[u8] {
    let end = buffer.iter().position(|b| *b == 0).unwrap_or(buffer.len());
    &buffer[..end]
}

#[test]
fn boundary_starts_with_an_empty_store() {
    let day = 4;
    let ext = initialize_enhanced_database(&day);
    assert_eq!(ext.user_count(), 0);
    assert_eq!(ext.day(), 4);
    assert!(ext.has_room());
    assert_eq!(ext.get_last_user_id(), 0);
    assert!(ext.print_database_full().is_empty());
    let other = DatabaseExtensions::new(0);
    assert_eq!(other.user_count(), 0);
    assert_eq!(other.day(), 0);
}

#[test]
fn user_is_created_in_the_foreign_store() {
    let mut ext = DatabaseExtensions::with_capacity(4, 0);
    assert_eq!(ext.sync_user_to_c_backend("Carol", "carol@x", 0, "pw"), Ok(()));
    assert_eq!(ext.user_count(), 1);
    assert_eq!(ext.get_last_user_id(), 1);
    let handle = ext.get_user_in_c_backend("carol").unwrap();
    let record = ext.read_user(&handle).unwrap();
    assert_eq!(text(&record.username), b"Carol");
    assert_eq!(record.user_id, 1);
    assert_eq!(record.ownership, OwnershipType::C_OWNED);
    assert_eq!(record.is_active, 1);
    assert_eq!(ext.get_user_password(&handle), Some("pw".to_string()));
    assert_eq!(ext.password_matches(&handle, "pw"), Some(true));
    assert_eq!(ext.password_matches(&handle, "pW"), Some(false));
    assert_eq!(ext.password_matches(&handle, ""), Some(false));
    assert!(ext.get_user_in_c_backend("dave").is_none());
}

#[test]
fn string_with_a_zero_byte_is_rejected() {
    let mut ext = DatabaseExtensions::with_capacity(4, 0);
    assert_eq!(
        ext.sync_user_to_c_backend("Ca\0rol", "carol@x", 0, "pw"),
        Err(StoreError::CreationFailure)
    );
    assert_eq!(
        ext.sync_user_to_c_backend("Carol", "carol\0@x", 0, "pw"),
        Err(StoreError::CreationFailure)
    );
    assert_eq!(
        ext.sync_user_to_c_backend("Carol", "carol@x", 0, "\0"),
        Err(StoreError::CreationFailure)
    );
    assert_eq!(ext.user_count(), 0);
    assert_eq!(ext.get_last_user_id(), 0);
}

#[test]
fn full_foreign_store_drops_the_signup() {
    let mut ext = DatabaseExtensions::with_capacity(1, 0);
    assert_eq!(ext.sync_user_to_c_backend("a", "e", 0, "p"), Ok(()));
    assert!(!ext.has_room());
    assert_eq!(ext.sync_user_to_c_backend("b", "e", 0, "p"), Err(StoreError::CapacityExceeded));
    assert_eq!(ext.user_count(), 1);
    // a malformed string is reported before the lack of room
    assert_eq!(ext.sync_user_to_c_backend("b\0", "e", 0, "p"), Err(StoreError::CreationFailure));
}

#[test]
fn sharing_tags_the_record_and_copies_it() {
    let mut ext = DatabaseExtensions::with_capacity(4, 0);
    let mut alice = *create_user("Alice", "alice@x", 0, "p1");
    alice.inactivity_count = 2;
    assert_eq!(ext.sync_user_from_rust_db(&mut alice), Ok(()));
    assert_eq!(alice.ownership, OwnershipType::SHARED_C_PRIMARY);
    assert_eq!(ext.user_count(), 1);
    let copy = ext.read_user(&ext.get_user_in_c_backend("alice").unwrap()).unwrap();
    assert_eq!(copy.ownership, OwnershipType::SHARED_C_PRIMARY);
    assert_eq!(copy.inactivity_count, 2);
    assert_eq!(copy.user_id, 1);
    assert_eq!(copy.username, alice.username);
    assert_eq!(copy.password, alice.password);
}

#[test]
fn sharing_twice_is_a_no_op() {
    let mut ext = DatabaseExtensions::with_capacity(4, 0);
    let mut alice = *create_user("Alice", "alice@x", 0, "p1");
    ext.sync_user_from_rust_db(&mut alice).unwrap();
    assert_eq!(ext.sync_user_from_rust_db(&mut alice), Ok(()));
    assert_eq!(alice.ownership, OwnershipType::SHARED_C_PRIMARY);
    assert_eq!(ext.user_count(), 1);
    alice.ownership = OwnershipType::SHARED_RUST_PRIMARY;
    assert_eq!(ext.sync_user_from_rust_db(&mut alice), Ok(()));
    assert_eq!(alice.ownership, OwnershipType::SHARED_RUST_PRIMARY);
    assert_eq!(ext.user_count(), 1);
}

#[test]
fn sharing_a_record_of_the_foreign_store_is_a_violation() {
    let mut ext = DatabaseExtensions::with_capacity(4, 0);
    let mut carol = *create_user("Carol", "c", 0, "p");
    carol.ownership = OwnershipType::C_OWNED;
    assert_eq!(ext.sync_user_from_rust_db(&mut carol), Err(StoreError::OwnershipViolation));
    assert_eq!(carol.ownership, OwnershipType::C_OWNED);
    assert_eq!(ext.user_count(), 0);
}

#[test]
fn sharing_into_a_full_store_shares_nothing() {
    let mut ext = DatabaseExtensions::with_capacity(1, 0);
    ext.sync_user_to_c_backend("a", "e", 0, "p").unwrap();
    let mut alice = *create_user("Alice", "alice@x", 0, "p1");
    assert_eq!(ext.sync_user_from_rust_db(&mut alice), Ok(()));
    assert_eq!(alice.ownership, OwnershipType::RUST_OWNED);
    assert_eq!(ext.user_count(), 1);
    assert!(ext.get_user_in_c_backend("alice").is_none());
}

#[test]
fn reclaim_returns_copies_for_the_primary_store() {
    let mut ext = DatabaseExtensions::with_capacity(4, 0);
    ext.sync_user_to_c_backend("carol", "c", 0, "p").unwrap();
    let mut alice = *create_user("Alice", "alice@x", 0, "p1");
    ext.sync_user_from_rust_db(&mut alice).unwrap();
    let copies = ext.get_all_user_references();
    assert_eq!(copies.len(), 1);
    assert_eq!(text(&copies[0].username), b"Alice");
    assert_eq!(copies[0].ownership, OwnershipType::SHARED_RUST_PRIMARY);
    let kept = ext.read_user(&ext.get_user_in_c_backend("alice").unwrap()).unwrap();
    assert_eq!(kept.ownership, OwnershipType::SHARED_RUST_PRIMARY);
    let carol = ext.read_user(&ext.get_user_in_c_backend("carol").unwrap()).unwrap();
    assert_eq!(carol.ownership, OwnershipType::C_OWNED);
    assert!(ext.get_all_user_references().is_empty());
    assert_eq!(ext.user_count(), 2);
}

#[test]
fn session_of_a_primary_user_validates() {
    let mut ext = DatabaseExtensions::with_capacity(4, 0);
    let mut alice = *create_user("Alice", "alice@x", 0, "p1");
    alice.user_id = 17;
    let token = ext.create_session(&alice).unwrap();
    assert_eq!(token, "00000000000000000000");
    assert_eq!(ext.validate_session(&token), Ok(17));
    assert_eq!(ext.validate_session("00000000000000000001"), Err(StoreError::SessionInvalid));
    assert_eq!(ext.validate_session(""), Err(StoreError::SessionInvalid));
    assert_eq!(ext.validate_session("0000000000000000000\0"), Err(StoreError::SessionInvalid));
    let second = ext.create_session(&alice).unwrap();
    assert_eq!(second, "00000000000000000001");
    assert_ne!(token, second);
    assert_eq!(ext.validate_session(&second), Ok(17));
    alice.session_token[..20].copy_from_slice(second.as_bytes());
    assert_eq!(ext.validate_session_of(&alice), Ok(17));
    alice.session_token[19] = b'9';
    assert_eq!(ext.validate_session_of(&alice), Err(StoreError::SessionInvalid));
}

#[test]
fn session_of_the_user_with_id_zero_never_validates() {
    let mut ext = DatabaseExtensions::with_capacity(4, 0);
    let first = *create_user("First", "f", 0, "p");
    let token = ext.create_session(&first).unwrap();
    assert_eq!(ext.validate_session(&token), Err(StoreError::SessionInvalid));
}

#[test]
fn foreign_user_logs_in_by_name_and_by_handle() {
    let mut ext = DatabaseExtensions::with_capacity(4, 0);
    ext.sync_user_to_c_backend("carol", "c", 0, "p").unwrap();
    ext.sync_user_to_c_backend("dave", "d", 0, "q").unwrap();
    ext.increment_day(1);
    ext.deactivate_idle_users();
    let token = ext.login_user("Dave").unwrap();
    assert_eq!(token, "00000000000000000000");
    assert_eq!(ext.validate_session(&token), Ok(2));
    let dave = ext.read_user(&ext.get_user_in_c_backend("dave").unwrap()).unwrap();
    assert_eq!(dave.inactivity_count, 0);
    assert_eq!(dave.is_active, 1);
    assert_eq!(text(&dave.session_token), token.as_bytes());
    assert_eq!(ext.login_user("erin"), Err(StoreError::LookupFailure));
    let handle = ext.get_user_in_c_backend("carol").unwrap();
    let second = ext.create_session_for_c_ptr(&handle).unwrap();
    assert_eq!(second, "00000000000000000001");
    assert_eq!(ext.validate_session(&second), Ok(1));
    let carol = ext.read_user(&handle).unwrap();
    assert_eq!(carol.inactivity_count, 0);
    assert_eq!(carol.is_active, 1);
}

#[test]
fn handle_of_an_evicted_record_is_a_lookup_failure() {
    let mut ext = DatabaseExtensions::with_capacity(4, 0);
    ext.sync_user_to_c_backend("carol", "c", 0, "p").unwrap();
    let handle = ext.get_user_in_c_backend("carol").unwrap();
    for day in 1..=7 {
        ext.increment_day(day);
    }
    assert_eq!(ext.user_count(), 0);
    assert_eq!(ext.day(), 7);
    assert_eq!(ext.create_session_for_c_ptr(&handle), Err(StoreError::LookupFailure));
    assert_eq!(ext.get_user_password(&handle), None);
    assert_eq!(ext.password_matches(&handle, "p"), None);
    assert!(ext.read_user(&handle).is_none());
}

#[test]
fn deactivation_reaches_every_foreign_record() {
    let mut ext = DatabaseExtensions::with_capacity(4, 0);
    ext.sync_user_to_c_backend("carol", "c", 0, "p").unwrap();
    ext.sync_user_to_c_backend("dave", "d", 0, "q").unwrap();
    ext.deactivate_idle_users();
    for name in ["carol", "dave"] {
        let record = ext.read_user(&ext.get_user_in_c_backend(name).unwrap()).unwrap();
        assert_eq!(record.is_active, 0);
        assert_eq!(record.inactivity_count, 0);
    }
}

#[test]
fn cast_keeps_every_field() {
    let mut alice = *create_user("Alice", "alice@x", 0, "p1");
    alice.user_id = 5;
    alice.ownership = OwnershipType::SHARED_RUST_PRIMARY;
    let cast = DatabaseExtensions::cast_user_struct(&alice);
    assert_eq!(cast.username, alice.username);
    assert_eq!(cast.email, alice.email);
    assert_eq!(cast.password, alice.password);
    assert_eq!(cast.user_id, 5);
    assert_eq!(cast.ownership, OwnershipType::SHARED_RUST_PRIMARY);
}

#[test]
fn reference_keeps_name_and_handle() {
    let mut ext = DatabaseExtensions::with_capacity(4, 0);
    ext.sync_user_to_c_backend("carol", "c", 0, "p").unwrap();
    let handle = ext.get_user_in_c_backend("carol").unwrap();
    let reference = UserReference::new("carol".to_string(), handle);
    assert_eq!(reference.username, "carol");
    assert_eq!(text(&ext.read_user(&reference.ptr).unwrap().username), b"carol");
}

#[test]
fn foreign_lines_are_those_of_its_records() {
    let mut ext = DatabaseExtensions::with_capacity(4, 0);
    ext.sync_user_to_c_backend("carol", "c@x", 0, "p").unwrap();
    assert_eq!(
        ext.print_database_full(),
        vec!["User: \"carol\", ID: 1 Email: \"c@x\", Inactivity: 0, Password: \"p\"".to_string()]
    );
}
