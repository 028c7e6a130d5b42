use user_directory::foreign::{UserDatabaseT, UserStructT};
use user_directory::session::make_token;
use user_directory::text::text_equals;
use user_directory::ownership::OwnershipType;
use user_directory::record::create_user;

fn text(buffer: &[u8]) -> &[u8] {
    let end = buffer.iter().position(|b| *b == 0).unwrap_or(buffer.len());
    &buffer[..end]
}

fn store_with(names: &[&str], capacity: usize) -> UserDatabaseT {
    let mut db = UserDatabaseT::with_capacity(capacity, 0);
    for name in names {
        db.add_user(UserDatabaseT::create_user(name, "e@x", 0, "secret"));
    }
    db
}

fn tagged(name: &str, tag: OwnershipType) -> UserStructT {
    let mut user = UserDatabaseT::create_user(name, "e@x", 0, "secret");
    user.ownership = tag;
    user
}

#[test]
fn new_foreign_store_is_empty() {
    let db = UserDatabaseT::init_database(3);
    assert_eq!(db.count(), 0);
    assert_eq!(db.capacity(), 1000);
    assert_eq!(db.next_id(), 1);
    assert_eq!(db.day(), 3);
    assert!(db.has_room());
    assert!(db.get_user_reference_for_debugging().is_empty());
    assert_eq!(db.get_non_null_ref_count(), 0);
    assert!(db.print_database().is_empty());
}

#[test]
fn foreign_record_is_created_as_the_foreign_stores_own() {
    let user = UserDatabaseT::create_user("Carol", "carol@x", 5, "pw");
    assert_eq!(text(&user.username), b"Carol");
    assert_eq!(text(&user.email), b"carol@x");
    assert_eq!(text(&user.password), b"pw");
    assert_eq!(user.user_id, 5);
    assert_eq!(user.inactivity_count, 0);
    assert_eq!(user.is_active, 1);
    assert_eq!(user.ownership, OwnershipType::C_OWNED);
    assert!(user.session_token.iter().all(|b| *b == 0));
    let long = UserDatabaseT::create_user(&"n".repeat(80), "e", 0, "p");
    assert_eq!(&long.username[..49], "n".repeat(49).as_bytes());
    assert_eq!(long.username[49], 0);
}

#[test]
fn foreign_insert_gives_ids_from_one_upwards() {
    let db = store_with(&["a", "b", "c"], 5);
    assert_eq!(db.count(), 3);
    assert_eq!(db.next_id(), 4);
    let handles = db.get_user_reference_for_debugging();
    assert_eq!(handles.len(), 3);
    assert_eq!(db.get_non_null_ref_count(), 3);
    let ids: Vec<i32> = handles.iter().map(|h| db.read(h).unwrap().user_id).collect();
    assert_eq!(ids, vec![1, 2, 3]);
    let names: Vec<Vec<u8>> =
        handles.iter().map(|h| text(&db.read(h).unwrap().username).to_vec()).collect();
    assert_eq!(names, vec![b"a".to_vec(), b"b".to_vec(), b"c".to_vec()]);
}

#[test]
fn foreign_insert_is_silently_capped() {
    let mut db = store_with(&["a", "b"], 2);
    assert!(!db.has_room());
    db.add_user(UserDatabaseT::create_user("c", "e", 0, "p"));
    assert_eq!(db.count(), 2);
    assert_eq!(db.next_id(), 3);
    assert!(db.find_user_by_username("c").is_none());
    assert!(db.find_user_by_username("a").is_some());
}

#[test]
fn foreign_lookup_ignores_case_and_takes_the_first() {
    let mut db = UserDatabaseT::with_capacity(4, 0);
    db.add_user(UserDatabaseT::create_user("Dave", "first", 0, "p1"));
    db.add_user(UserDatabaseT::create_user("DAVE", "second", 0, "p2"));
    let handle = db.find_user_by_username("dave").unwrap();
    let found = db.read(&handle).unwrap();
    assert_eq!(found.user_id, 1);
    assert_eq!(text(&found.email), b"first");
    assert!(db.find_user_by_username("dav").is_none());
    assert_eq!(text(&db.get_password(&handle).unwrap()), b"p1");
}

#[test]
fn tokens_are_twenty_digits() {
    let first = make_token(0);
    assert_eq!(text(&first), b"00000000000000000000");
    assert!(first[20..].iter().all(|b| *b == 0));
    assert_eq!(text(&make_token(42)), b"00000000000000000042");
    assert_eq!(text(&make_token(1234567890)), b"00000000001234567890");
    assert_eq!(text(&make_token(u64::MAX as usize)), b"18446744073709551615");
}

#[test]
fn buffer_text_is_compared_exactly() {
    assert!(text_equals(b"abc\0def", b"abc"));
    assert!(!text_equals(b"abc\0def", b"abc\0def"));
    assert!(!text_equals(b"abc", b"ab"));
    assert!(!text_equals(b"abc", b"Abc"));
    assert!(text_equals(b"\0", b""));
}

#[test]
fn session_tokens_validate_to_their_user() {
    let mut db = store_with(&["a", "b"], 4);
    let a = db.read(&db.find_user_by_username("a").unwrap()).unwrap();
    let b = db.read(&db.find_user_by_username("b").unwrap()).unwrap();
    let token_a = db.create_user_session(&a);
    let token_b = db.create_user_session(&b);
    assert_eq!(text(&token_a), b"00000000000000000000");
    assert_eq!(text(&token_b), b"00000000000000000001");
    assert_eq!(db.validate_user_session(text(&token_a)), 1);
    assert_eq!(db.validate_user_session(text(&token_b)), 2);
    assert_eq!(db.validate_user_session(b"00000000000000000002"), 0);
    assert_eq!(db.validate_user_session(b""), 0);
    assert_eq!(db.validate_user_session(b"0000000000000000000"), 0);
}

#[test]
fn foreign_login_marks_the_record() {
    let mut db = store_with(&["a", "b"], 4);
    db.update_database_daily(1);
    db.deactivate_users();
    let token = db.user_login("B").unwrap();
    assert_eq!(text(&token), b"00000000000000000000");
    let b = db.read(&db.find_user_by_username("b").unwrap()).unwrap();
    assert_eq!(b.inactivity_count, 0);
    assert_eq!(b.is_active, 1);
    assert_eq!(b.session_token, token);
    assert_eq!(b.user_id, 2);
    let a = db.read(&db.find_user_by_username("a").unwrap()).unwrap();
    assert_eq!(a.inactivity_count, 1);
    assert_eq!(a.is_active, 0);
    assert_eq!(db.validate_user_session(text(&token)), 2);
    assert!(db.user_login("nobody").is_none());
    assert_eq!(db.validate_user_session(b"00000000000000000001"), 0);
}

#[test]
fn handle_operations_reach_their_record() {
    let mut db = store_with(&["a"], 4);
    db.add_user(tagged("b", OwnershipType::SHARED_RUST_PRIMARY));
    db.update_database_daily(1);
    let handle = db.find_user_by_username("b").unwrap();
    let b = db.read(&handle).unwrap();
    assert_eq!(b.ownership, OwnershipType::SHARED_RUST_PRIMARY);
    assert_eq!(b.inactivity_count, 1);
    assert_eq!(b.user_id, 2);
    let token = db.create_session_for(&handle).unwrap();
    let b = db.read(&handle).unwrap();
    assert_eq!(b.session_token, token);
    assert_eq!(b.inactivity_count, 0);
    assert_eq!(b.is_active, 1);
    assert_eq!(b.ownership, OwnershipType::SHARED_RUST_PRIMARY);
    assert_eq!(db.validate_user_session(text(&token)), 2);
    let a = db.read(&db.find_user_by_username("a").unwrap()).unwrap();
    assert_eq!(a.ownership, OwnershipType::C_OWNED);
    assert_eq!(a.inactivity_count, 1);
}

#[test]
fn maintenance_ages_and_evicts_what_the_foreign_store_owns() {
    let mut db = store_with(&["a"], 4);
    db.add_user(tagged("b", OwnershipType::SHARED_RUST_PRIMARY));
    db.add_user(tagged("c", OwnershipType::SHARED_C_PRIMARY));
    for day in 1..=6 {
        db.update_database_daily(day);
        assert_eq!(db.count(), 3);
    }
    assert_eq!(db.day(), 6);
    let ages: Vec<i32> = db
        .get_user_reference_for_debugging()
        .iter()
        .map(|h| db.read(h).unwrap().inactivity_count)
        .collect();
    assert_eq!(ages, vec![6, 6, 6]);
    db.update_database_daily(7);
    // a and c were the foreign store's to release; b is the primary store's
    assert_eq!(db.count(), 1);
    let left = db.get_user_reference_for_debugging();
    assert_eq!(left.len(), 1);
    let kept = db.read(&left[0]).unwrap();
    assert_eq!(text(&kept.username), b"b");
    assert_eq!(kept.inactivity_count, 6);
    db.update_database_daily(8);
    assert_eq!(db.count(), 1);
    let still = db.read(&db.find_user_by_username("b").unwrap()).unwrap();
    assert_eq!(still.inactivity_count, 6);
}

#[test]
fn maintenance_moves_records_to_the_front() {
    let mut db = store_with(&["a", "b", "c"], 4);
    for day in 1..=6 {
        db.update_database_daily(day);
    }
    let c_before = db.find_user_by_username("c").unwrap();
    assert!(db.user_login("b").is_some());
    assert!(db.user_login("c").is_some());
    db.update_database_daily(7);
    // a was evicted; b and c moved one slot to the front, in their order
    assert_eq!(db.count(), 2);
    let names: Vec<Vec<u8>> = db
        .get_user_reference_for_debugging()
        .iter()
        .map(|h| text(&db.read(h).unwrap().username).to_vec())
        .collect();
    assert_eq!(names, vec![b"b".to_vec(), b"c".to_vec()]);
    // the handle from before the move no longer resolves
    assert!(db.read(&c_before).is_none());
    assert!(db.create_session_for(&c_before).is_none());
    assert!(db.get_password(&c_before).is_none());
    let c_now = db.find_user_by_username("c").unwrap();
    assert_eq!(db.read(&c_now).unwrap().user_id, 3);
    // the freed slot is at the end and is used by the next insert
    db.add_user(UserDatabaseT::create_user("d", "e", 0, "p"));
    assert_eq!(db.count(), 3);
    assert_eq!(db.read(&db.find_user_by_username("d").unwrap()).unwrap().user_id, 4);
}

#[test]
fn stale_handle_does_not_reach_the_slots_next_record() {
    let mut db = store_with(&["a"], 1);
    let a = db.find_user_by_username("a").unwrap();
    for day in 1..=7 {
        db.update_database_daily(day);
    }
    assert_eq!(db.count(), 0);
    db.add_user(UserDatabaseT::create_user("b", "e", 0, "other"));
    assert_eq!(db.count(), 1);
    assert!(db.read(&a).is_none());
    assert!(db.get_password(&a).is_none());
    assert!(db.create_session_for(&a).is_none());
    let b = db.read(&db.find_user_by_username("b").unwrap()).unwrap();
    assert_eq!(b.user_id, 2);
    assert_eq!(b.ownership, OwnershipType::C_OWNED);
}

#[test]
fn reclaim_hands_out_what_was_shared() {
    let mut db = UserDatabaseT::with_capacity(4, 0);
    db.add_user(tagged("a", OwnershipType::SHARED_C_PRIMARY));
    db.add_user(tagged("b", OwnershipType::C_OWNED));
    db.add_user(tagged("c", OwnershipType::SHARED_C_PRIMARY));
    let copies = db.reclaim_shared();
    assert_eq!(copies.len(), 2);
    assert_eq!(text(&copies[0].username), b"a");
    assert_eq!(text(&copies[1].username), b"c");
    for copy in &copies {
        assert_eq!(copy.ownership, OwnershipType::SHARED_RUST_PRIMARY);
    }
    let tags: Vec<OwnershipType> = db
        .get_user_reference_for_debugging()
        .iter()
        .map(|h| db.read(h).unwrap().ownership)
        .collect();
    assert_eq!(
        tags,
        vec![
            OwnershipType::SHARED_RUST_PRIMARY,
            OwnershipType::C_OWNED,
            OwnershipType::SHARED_RUST_PRIMARY
        ]
    );
    assert!(db.reclaim_shared().is_empty());
}

#[test]
fn records_are_carried_over_field_by_field() {
    let mut user = *create_user("Alice", "alice@x", 9, "p1");
    user.inactivity_count = 3;
    user.is_active = 0;
    user.session_token[0] = b'7';
    user.ownership = OwnershipType::SHARED_C_PRIMARY;
    let record = UserStructT::from_record(&user);
    assert_eq!(record.username, user.username);
    assert_eq!(record.email, user.email);
    assert_eq!(record.password, user.password);
    assert_eq!(record.session_token, user.session_token);
    assert_eq!(record.user_id, 9);
    assert_eq!(record.inactivity_count, 3);
    assert_eq!(record.is_active, 0);
    assert_eq!(record.ownership, OwnershipType::SHARED_C_PRIMARY);
    let back = record.to_record();
    assert_eq!(back.username, user.username);
    assert_eq!(back.email, user.email);
    assert_eq!(back.password, user.password);
    assert_eq!(back.session_token, user.session_token);
    assert_eq!(back.user_id, 9);
    assert_eq!(back.inactivity_count, 3);
    assert_eq!(back.is_active, 0);
    assert_eq!(back.ownership, OwnershipType::SHARED_C_PRIMARY);
}

#[test]
fn foreign_store_is_described_in_index_order() {
    let db = store_with(&["a", "b"], 3);
    assert_eq!(
        db.print_database(),
        vec![
            "User: \"a\", ID: 1 Email: \"e@x\", Inactivity: 0, Password: \"secret\"".to_string(),
            "User: \"b\", ID: 2 Email: \"e@x\", Inactivity: 0, Password: \"secret\"".to_string(),
        ]
    );
}

#[test]
fn compacting_keeps_the_order() {
    let mut db = store_with(&["a", "b", "c", "d"], 6);
    db.compact();
    assert_eq!(db.count(), 4);
    let ids: Vec<i32> = db
        .get_user_reference_for_debugging()
        .iter()
        .map(|h| db.read(h).unwrap().user_id)
        .collect();
    assert_eq!(ids, vec![1, 2, 3, 4]);
}
