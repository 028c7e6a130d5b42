use user_directory::error::StoreError;
use user_directory::ownership::OwnershipType;
use user_directory::primary::{
    add_user, find_slot_by_username, find_user_by_id, find_user_by_username,
    find_user_by_username_mut, get_password, init_database, print_database, print_user,
    update_database_daily, update_password, update_username, user_login, UserDatabase,
};
use user_directory::record::{create_user, UserStruct};

fn text(buffer: &[u8]) -> &[u8] {
    let end = buffer.iter().position(|b| *b == 0).unwrap_or(buffer.len());
    &buffer[..end]
}

#[test]
fn new_store_is_empty() {
    let db = init_database();
    assert_eq!(db.count, 0);
    assert_eq!(db.capacity, 1000);
    assert_eq!(db.users.len(), 1000);
    assert!(db.users.iter().all(|slot| slot.is_none()));
    let small = UserDatabase::with_capacity(3);
    assert_eq!(small.capacity, 3);
    assert_eq!(small.users.len(), 3);
}

#[test]
fn default_record_is_blank() {
    let user = UserStruct::default();
    assert_eq!(user.user_id, 0);
    assert_eq!(user.inactivity_count, 0);
    assert_eq!(user.is_active, 0);
    assert_eq!(user.ownership, OwnershipType::RUST_OWNED);
    assert!(user.username.iter().all(|b| *b == 0));
    assert!(user.email.iter().all(|b| *b == 0));
    assert!(user.password.iter().all(|b| *b == 0));
    assert!(user.session_token.iter().all(|b| *b == 0));
}

#[test]
fn created_user_holds_its_strings() {
    let user = create_user("Mallory", "mallory@nus.edu.sg", 7, "malloryisnotevil");
    assert_eq!(text(&user.username), b"Mallory");
    assert_eq!(text(&user.email), b"mallory@nus.edu.sg");
    assert_eq!(text(&user.password), b"malloryisnotevil");
    assert_eq!(user.user_id, 7);
    assert_eq!(user.inactivity_count, 0);
    assert_eq!(user.is_active, 1);
    assert_eq!(user.ownership, OwnershipType::RUST_OWNED);
    assert!(user.session_token.iter().all(|b| *b == 0));
    assert!(user.username[7..].iter().all(|b| *b == 0));
}

#[test]
fn created_user_is_cut_to_fit_and_terminated() {
    let long_username = "C".repeat(99);
    let long_password = "p".repeat(150);
    let user = create_user(&long_username, "e", 0, &long_password);
    assert_eq!(&user.username[..49], "C".repeat(49).as_bytes());
    assert_eq!(user.username[49], 0);
    assert_eq!(&user.password[..99], "p".repeat(99).as_bytes());
    assert_eq!(user.password[99], 0);
}

#[test]
fn added_users_get_their_slot_as_id() {
    let mut db = init_database();
    for (i, name) in ["Mallory", "Alice", "Bob", "Eve"].iter().enumerate() {
        assert_eq!(add_user(&mut db, create_user(name, "x@nus.edu.sg", 99, "pw")), Ok(()));
        assert_eq!(db.count, i as i32 + 1);
        assert_eq!(db.users[i].as_ref().unwrap().user_id, i as i32);
        assert_eq!(text(&db.users[i].as_ref().unwrap().username), name.as_bytes());
    }
    assert!(db.users[4].is_none());
}

#[test]
fn full_store_refuses_an_insert() {
    let mut db = UserDatabase::with_capacity(2);
    assert_eq!(add_user(&mut db, create_user("a", "a", 0, "a")), Ok(()));
    assert_eq!(add_user(&mut db, create_user("b", "b", 0, "b")), Ok(()));
    assert_eq!(
        add_user(&mut db, create_user("c", "c", 0, "c")),
        Err(StoreError::CapacityExceeded)
    );
    assert_eq!(db.count, 2);
    assert!(find_user_by_username(&db, "c").is_none());
    assert!(find_user_by_username(&db, "a").is_some());
    assert!(find_user_by_username(&db, "b").is_some());
}

#[test]
fn store_without_slots_refuses_everything() {
    let mut db = UserDatabase::with_capacity(0);
    assert_eq!(
        add_user(&mut db, create_user("a", "a", 0, "a")),
        Err(StoreError::CapacityExceeded)
    );
    assert_eq!(db.count, 0);
    assert_eq!(update_database_daily(&mut db), Ok(()));
}

#[test]
fn insert_reuses_the_first_free_slot() {
    let mut db = UserDatabase::with_capacity(3);
    for name in ["a", "b", "c"] {
        add_user(&mut db, create_user(name, "e", 0, "p")).unwrap();
    }
    db.users[0].as_mut().unwrap().inactivity_count = 6;
    assert_eq!(update_database_daily(&mut db), Ok(()));
    assert_eq!(db.count, 2);
    assert!(db.users[0].is_none());
    assert_eq!(add_user(&mut db, create_user("d", "e", 0, "p")), Ok(()));
    assert_eq!(db.count, 3);
    assert_eq!(text(&db.users[0].as_ref().unwrap().username), b"d");
    assert_eq!(db.users[0].as_ref().unwrap().user_id, 0);
    assert_eq!(db.users[1].as_ref().unwrap().user_id, 1);
    assert_eq!(db.users[2].as_ref().unwrap().user_id, 2);
}

#[test]
fn lookup_by_name_ignores_case_and_takes_the_first() {
    let mut db = init_database();
    add_user(&mut db, create_user("Alice", "first@nus.edu.sg", 0, "p1")).unwrap();
    add_user(&mut db, create_user("ALICE", "second@nus.edu.sg", 0, "p2")).unwrap();
    let found = find_user_by_username(&db, "alice").unwrap();
    assert_eq!(found.user_id, 0);
    assert_eq!(text(&found.email), b"first@nus.edu.sg");
    assert_eq!(find_slot_by_username(&db, "aLiCe"), 0);
    assert!(find_user_by_username(&db, "alic").is_none());
    assert!(find_user_by_username(&db, "alice ").is_none());
    assert_eq!(find_slot_by_username(&db, "nobody"), 1000);
}

#[test]
fn lookup_by_name_for_writing_reaches_the_slot() {
    let mut db = init_database();
    add_user(&mut db, create_user("Alice", "a", 0, "p1")).unwrap();
    add_user(&mut db, create_user("Bob", "b", 0, "p2")).unwrap();
    {
        let bob = find_user_by_username_mut(&mut db, "bob").unwrap();
        bob.inactivity_count = 4;
        bob.is_active = 0;
    }
    assert_eq!(db.users[1].as_ref().unwrap().inactivity_count, 4);
    assert_eq!(db.users[1].as_ref().unwrap().is_active, 0);
    assert_eq!(db.users[0].as_ref().unwrap().inactivity_count, 0);
    assert!(find_user_by_username_mut(&mut db, "carol").is_none());
    assert_eq!(db.count, 2);
}

#[test]
fn login_resets_the_inactivity_count() {
    let mut db = init_database();
    add_user(&mut db, create_user("Alice", "a", 0, "p1")).unwrap();
    for _ in 0..3 {
        update_database_daily(&mut db).unwrap();
    }
    assert_eq!(find_user_by_username(&db, "Alice").unwrap().inactivity_count, 3);
    user_login(&mut db, "ALICE");
    assert_eq!(find_user_by_username(&db, "Alice").unwrap().inactivity_count, 0);
}

#[test]
fn login_of_an_unknown_name_changes_nothing() {
    let mut db = init_database();
    add_user(&mut db, create_user("Alice", "a", 0, "p1")).unwrap();
    update_database_daily(&mut db).unwrap();
    user_login(&mut db, "Bob");
    assert_eq!(db.count, 1);
    assert_eq!(find_user_by_username(&db, "Alice").unwrap().inactivity_count, 1);
}

#[test]
fn tick_ages_a_user_at_the_threshold() {
    let mut db = init_database();
    add_user(&mut db, create_user("Alice", "a", 0, "p1")).unwrap();
    db.users[0].as_mut().unwrap().inactivity_count = 5;
    assert_eq!(update_database_daily(&mut db), Ok(()));
    assert_eq!(db.count, 1);
    assert_eq!(db.users[0].as_ref().unwrap().inactivity_count, 6);
}

#[test]
fn tick_evicts_a_user_beyond_the_threshold() {
    let mut db = init_database();
    add_user(&mut db, create_user("Alice", "a", 0, "p1")).unwrap();
    add_user(&mut db, create_user("Bob", "b", 0, "p2")).unwrap();
    add_user(&mut db, create_user("Eve", "e", 0, "p3")).unwrap();
    db.users[0].as_mut().unwrap().inactivity_count = 6;
    db.users[2].as_mut().unwrap().inactivity_count = 6;
    assert_eq!(update_database_daily(&mut db), Ok(()));
    assert_eq!(db.count, 1);
    assert!(db.users[0].is_none());
    assert!(db.users[2].is_none());
    assert_eq!(db.users[1].as_ref().unwrap().inactivity_count, 1);
    assert!(find_user_by_username(&db, "Alice").is_none());
    assert!(find_user_by_username(&db, "Bob").is_some());
}

#[test]
fn tick_reaches_records_behind_a_gap() {
    let mut db = UserDatabase::with_capacity(4);
    for name in ["a", "b", "c"] {
        add_user(&mut db, create_user(name, "e", 0, "p")).unwrap();
    }
    db.users[0].as_mut().unwrap().inactivity_count = 6;
    update_database_daily(&mut db).unwrap();
    assert_eq!(db.count, 2);
    update_database_daily(&mut db).unwrap();
    assert_eq!(db.users[1].as_ref().unwrap().inactivity_count, 2);
    assert_eq!(db.users[2].as_ref().unwrap().inactivity_count, 2);
}

#[test]
fn eviction_of_a_record_the_foreign_store_is_authoritative_for_is_a_violation() {
    let mut db = init_database();
    add_user(&mut db, create_user("Alice", "a", 0, "p1")).unwrap();
    add_user(&mut db, create_user("Bob", "b", 0, "p2")).unwrap();
    db.users[1].as_mut().unwrap().inactivity_count = 6;
    db.users[1].as_mut().unwrap().ownership = OwnershipType::SHARED_C_PRIMARY;
    assert_eq!(update_database_daily(&mut db), Err(StoreError::OwnershipViolation));
    // nothing was changed
    assert_eq!(db.count, 2);
    assert_eq!(db.users[0].as_ref().unwrap().inactivity_count, 0);
    assert_eq!(db.users[1].as_ref().unwrap().inactivity_count, 6);
    // a record that is not due is aged whatever its tag
    db.users[1].as_mut().unwrap().inactivity_count = 5;
    assert_eq!(update_database_daily(&mut db), Ok(()));
    assert_eq!(db.users[1].as_ref().unwrap().inactivity_count, 6);
}

#[test]
fn eviction_of_a_shared_record_the_primary_store_is_authoritative_for_goes_through() {
    let mut db = init_database();
    add_user(&mut db, create_user("Alice", "a", 0, "p1")).unwrap();
    db.users[0].as_mut().unwrap().inactivity_count = 6;
    db.users[0].as_mut().unwrap().ownership = OwnershipType::SHARED_RUST_PRIMARY;
    assert_eq!(update_database_daily(&mut db), Ok(()));
    assert_eq!(db.count, 0);
}

#[test]
fn user_is_found_by_id() {
    let mut db = init_database();
    add_user(&mut db, create_user("John", "John@gmail.com", 0, "John123")).unwrap();
    add_user(&mut db, create_user("Jim", "Jim@u.nus.edu", 0, "Jim000")).unwrap();
    let jim = find_user_by_id(&db, 1).unwrap();
    assert_eq!(text(&jim.username), b"Jim");
    assert!(find_user_by_id(&db, -1).is_none());
    assert!(find_user_by_id(&db, 2).is_none());
}

#[test]
fn username_is_updated_in_place() {
    let mut db = init_database();
    add_user(&mut db, create_user("Jim", "Jim@u.nus.edu", 0, "Jim000")).unwrap();
    update_username(&mut db, "Jim", "Jimmy");
    assert!(find_user_by_username(&db, "Jim").is_none());
    let jimmy = find_user_by_username(&db, "Jimmy").unwrap();
    assert_eq!(text(&jimmy.email), b"Jim@u.nus.edu");
    assert_eq!(jimmy.user_id, 0);
    update_username(&mut db, "nobody", "somebody");
    assert!(find_user_by_username(&db, "somebody").is_none());
}

#[test]
fn overlong_username_update_is_cut_to_fit() {
    let mut db = init_database();
    add_user(&mut db, create_user("Mallory", "m", 0, "malloryisnotevil")).unwrap();
    update_username(&mut db, "Mallory", &"C".repeat(99));
    let user = db.users[0].as_ref().unwrap();
    assert_eq!(&user.username[..49], "C".repeat(49).as_bytes());
    assert_eq!(user.username[49], 0);
    assert_eq!(text(&user.password), b"malloryisnotevil");
    assert_eq!(text(&user.email), b"m");
}

#[test]
fn shorter_username_update_leaves_the_tail_behind_the_terminator() {
    let mut db = init_database();
    add_user(&mut db, create_user("Alexander", "a", 0, "p")).unwrap();
    update_username(&mut db, "alexander", "Al");
    let user = db.users[0].as_ref().unwrap();
    assert_eq!(&user.username[..10], b"Al\0xander\0");
    assert!(find_user_by_username(&db, "al").is_some());
}

#[test]
fn password_is_read_and_updated() {
    let mut db = init_database();
    add_user(&mut db, create_user("Jimmy", "j", 0, "Jim000")).unwrap();
    assert_eq!(get_password(&db, "jimmy"), Some("Jim000".to_string()));
    assert_eq!(get_password(&db, "nobody"), None);
    let mut user = Some(create_user("Jimmy", "j", 0, "Jim000"));
    update_password(&mut user, "Jimmy999");
    assert_eq!(text(&user.as_ref().unwrap().password), b"Jimmy999");
    assert_eq!(text(&user.as_ref().unwrap().username), b"Jimmy");
    let mut nobody = None;
    update_password(&mut nobody, "x");
    assert!(nobody.is_none());
}

#[test]
fn overlong_password_update_is_cut_to_fit() {
    let mut user = Some(create_user("Jimmy", "j", 0, "Jim000"));
    update_password(&mut user, &"q".repeat(120));
    let record = user.unwrap();
    assert_eq!(&record.password[..99], "q".repeat(99).as_bytes());
    assert_eq!(record.password[99], 0);
}

#[test]
fn user_line_has_the_fixed_layout() {
    let mut user = create_user("Alice", "alice@nus.edu.sg", 3, "p1");
    user.inactivity_count = 2;
    assert_eq!(
        print_user(&user),
        "User: \"Alice\", ID: 3 Email: \"alice@nus.edu.sg\", Inactivity: 2, Password: \"p1\""
    );
}

#[test]
fn store_is_described_in_index_order() {
    let mut db = UserDatabase::with_capacity(4);
    for name in ["a", "b", "c"] {
        add_user(&mut db, create_user(name, "e", 0, "p")).unwrap();
    }
    db.users[1].as_mut().unwrap().inactivity_count = 6;
    update_database_daily(&mut db).unwrap();
    let lines = print_database(&db);
    assert_eq!(
        lines,
        vec![
            "User: \"a\", ID: 0 Email: \"e\", Inactivity: 1, Password: \"p\"".to_string(),
            "User: \"c\", ID: 2 Email: \"e\", Inactivity: 1, Password: \"p\"".to_string(),
        ]
    );
    assert!(print_database(&UserDatabase::with_capacity(2)).is_empty());
}

#[test]
fn well_formedness_can_be_checked() {
    let mut db = UserDatabase::with_capacity(3);
    assert!(db.is_well_formed());
    add_user(&mut db, create_user("a", "e", 0, "p")).unwrap();
    add_user(&mut db, create_user("b", "e", 0, "p")).unwrap();
    assert!(db.is_well_formed());
    db.count = 3;
    assert!(!db.is_well_formed());
    db.count = 2;
    db.users[1].as_mut().unwrap().user_id = 5;
    assert!(!db.is_well_formed());
    db.users[1].as_mut().unwrap().user_id = 1;
    assert!(db.is_well_formed());
    db.users.push(None);
    assert!(!db.is_well_formed());
    db.capacity = 4;
    assert!(db.is_well_formed());
    db.users[3] = db.users[0];
    assert!(!db.is_well_formed());
}

#[test]
fn store_creates_records_with_its_count_as_id() {
    let mut db = init_database();
    let first = db.create("Alice", "alice@nus.edu.sg", "p1");
    assert_eq!(first.user_id, 0);
    assert_eq!(text(&first.username), b"Alice");
    assert_eq!(first.inactivity_count, 0);
    assert_eq!(first.is_active, 1);
    assert_eq!(first.ownership, OwnershipType::RUST_OWNED);
    add_user(&mut db, first).unwrap();
    let second = db.create("Bob", "bob@nus.edu.sg", "p2");
    assert_eq!(second.user_id, 1);
    add_user(&mut db, second).unwrap();
    assert_eq!(db.users[1].as_ref().unwrap().user_id, 1);
    assert_eq!(db.count, 2);
}
