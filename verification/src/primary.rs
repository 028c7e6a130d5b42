//! The primary store: a table of record slots that owns what it holds.

use vstd::prelude::*;
use vstd::string::StringSliceAdditionalSpecFns;
use vstd::utf8::{decode_utf8, valid_utf8};
use crate::error::StoreError;
use crate::limits::{INACTIVITY_THRESHOLD, MAX_NAME_LEN, MAX_PASSWORD_LENGTH, MAX_USERS};
use crate::ownership::{transition, Backend, OwnershipEvent};
use crate::record::{create_user, UserStruct};
use crate::slots::{
    first_free, first_index, is_dense, is_free, lemma_dense_first_free, lemma_first_index,
    lemma_first_index_is, lemma_free_exists, lemma_occupied_bound, lemma_occupied_none,
    lemma_occupied_update, occupied,
};
use crate::text::{
    copied, copy_string, name_matches, text_matches, text_of, u8_to_string_no_nullt, utf8_lossy,
};

verus! {

/// A table of `capacity` slots, `count` of them occupied.
#[derive(Debug)]
pub struct UserDatabase {
    pub users: Vec<Option<UserStruct>>,
    pub count: i32,
    pub capacity: i32,
}

/// A table has `capacity` slots, `count` is the number of occupied ones, and
/// each record's id is the index of its slot.
pub open spec fn table_wf(users: Seq<Option<UserStruct>>, count: int, capacity: int) -> bool {
    &&& 0 <= capacity <= i32::MAX
    &&& users.len() == capacity
    &&& count == occupied(users)
    &&& forall|i: int|
        0 <= i < users.len() && (#[trigger] users[i]) is Some ==> users[i]->0.user_id == i
}

/// Whether every record of a table is one the primary store may release.
pub open spec fn all_releasable(users: Seq<Option<UserStruct>>) -> bool {
    forall|i: int|
        0 <= i < users.len() && (#[trigger] users[i]) is Some ==> users[i]->0.ownership.authority()
            == Backend::Primary
}

impl UserDatabase {
    /// The table has `capacity` slots, `count` is the number of occupied
    /// ones, and each record's id is the index of its slot.
    pub open spec fn wf(&self) -> bool {
        table_wf(self.users@, self.count as int, self.capacity as int)
    }

    /// Whether nothing is stored.
    pub open spec fn is_empty(&self) -> bool {
        forall|i: int| 0 <= i < self.users@.len() ==> self.users@[i] is None
    }

    /// Whether every record is one the primary store may release.
    pub open spec fn all_releasable(&self) -> bool {
        all_releasable(self.users@)
    }

    /// Whether the store is well-formed. The fields of a store are open to
    /// its users; this is how one of them can tell that a store is still fit
    /// for the functions that ask for a well-formed one.
    pub fn is_well_formed(&self) -> (ok: bool)
        ensures
            ok == self.wf(),
    {
        if self.capacity < 0 || self.users.len() != self.capacity as usize {
            return false;
        }
        let mut held: usize = 0;
        let mut i: usize = 0;
        while i < self.users.len()
            invariant
                i <= self.users@.len(),
                held == occupied(self.users@.take(i as int)),
                held <= i,
                forall|j: int|
                    0 <= j < i && (#[trigger] self.users@[j]) is Some ==> self.users@[j]->0.user_id
                        == j,
            decreases self.users@.len() - i,
        {
            proof {
                assert(self.users@.take(i + 1).drop_last() =~= self.users@.take(i as int));
            }
            if let Some(user) = &self.users[i] {
                if user.user_id < 0 || user.user_id as usize != i {
                    return false;
                }
                held += 1;
            }
            i += 1;
        }
        proof {
            assert(self.users@.take(i as int) =~= self.users@);
        }
        self.count >= 0 && self.count as usize == held
    }

    /// Makes the record of a new user of this store. Its id is the number of
    /// records the store holds, which is the index of the slot an insert puts
    /// it in as long as the store has no gap.
    pub fn create(&self, username: &str, email: &str, password: &str) -> (user: Box<UserStruct>)
        ensures
            user.is_fresh(
                username.spec_bytes(),
                email.spec_bytes(),
                self.count,
                password.spec_bytes(),
            ),
            user.wf(),
    {
        create_user(username, email, self.count, password)
    }

    /// An empty store with `capacity` slots.
    pub fn with_capacity(capacity: usize) -> (db: UserDatabase)
        requires
            capacity <= i32::MAX,
        ensures
            db.wf(),
            db.is_empty(),
            db.count == 0,
            db.capacity == capacity,
    {
        let mut users: Vec<Option<UserStruct>> = Vec::new();
        while users.len() < capacity
            invariant
                users@.len() <= capacity,
                forall|i: int| 0 <= i < users@.len() ==> users@[i] is None,
            decreases capacity - users@.len(),
        {
            users.push(None);
        }
        proof {
            lemma_occupied_none(users@);
        }
        UserDatabase { users, count: 0, capacity: capacity as i32 }
    }
}

/// The predicate of a slot that holds a record named `name`, case aside.
pub open spec fn named(name: Seq<u8>) -> spec_fn(Option<UserStruct>) -> bool {
    |o: Option<UserStruct>| o is Some && name_matches(o->0.username@, name)
}

/// The predicate of a slot that holds a record whose username is exactly
/// `name`, byte for byte.
pub open spec fn exactly_named(name: Seq<u8>) -> spec_fn(Option<UserStruct>) -> bool {
    |o: Option<UserStruct>| o is Some && text_of(o->0.username@) == name
}

/// The predicate of a slot that holds a record with the id `user_id`.
pub open spec fn has_id(user_id: i32) -> spec_fn(Option<UserStruct>) -> bool {
    |o: Option<UserStruct>| o is Some && o->0.user_id == user_id
}

/// Index of the first slot that holds a record named `name`, or the length of
/// the table.
pub open spec fn first_named(s: Seq<Option<UserStruct>>, name: Seq<u8>) -> int {
    first_index(s, named(name), 0)
}

/// The record a lookup by name yields: the one in the first slot, in index
/// order, whose username is `name`, case aside.
pub open spec fn lookup(s: Seq<Option<UserStruct>>, name: Seq<u8>) -> Option<UserStruct> {
    if first_named(s, name) < s.len() {
        s[first_named(s, name)]
    } else {
        None
    }
}

/// The table after `user` was inserted: in the first free slot, with that
/// slot's index as its id.
pub open spec fn with_inserted(users: Seq<Option<UserStruct>>, user: UserStruct) -> Seq<
    Option<UserStruct>,
> {
    users.update(first_free(users), Some(UserStruct { user_id: first_free(users) as i32, ..user }))
}

/// Whether a record has been inactive for longer than the threshold.
pub open spec fn is_due(u: UserStruct) -> bool {
    u.inactivity_count > INACTIVITY_THRESHOLD
}

/// A record one day more inactive.
pub open spec fn aged(u: UserStruct) -> UserStruct {
    UserStruct { inactivity_count: (u.inactivity_count + 1) as i32, ..u }
}

/// What a daily tick makes of one slot: a record that is due is removed, any
/// other is aged by a day.
pub open spec fn decay_slot(o: Option<UserStruct>) -> Option<UserStruct> {
    match o {
        None => None,
        Some(u) => if is_due(u) {
            None
        } else {
            Some(aged(u))
        },
    }
}

/// What a daily tick makes of a table.
pub open spec fn decayed(s: Seq<Option<UserStruct>>) -> Seq<Option<UserStruct>> {
    Seq::new(s.len(), |i: int| decay_slot(s[i]))
}

/// Number of records of a table that are due for eviction.
pub open spec fn due_count(s: Seq<Option<UserStruct>>) -> nat
    decreases s.len(),
{
    if s.len() == 0 {
        0
    } else if s.last() is Some && is_due(s.last()->0) {
        due_count(s.drop_last()) + 1
    } else {
        due_count(s.drop_last())
    }
}

/// Whether some record is due for eviction that `side` may not release.
pub open spec fn release_refused(s: Seq<Option<UserStruct>>, side: Backend) -> bool {
    exists|i: int|
        0 <= i < s.len() && (#[trigger] s[i]) is Some && is_due(s[i]->0)
            && s[i]->0.ownership.authority() != side
}

/// An empty store with the default number of slots.
pub fn init_database() -> (db: Box<UserDatabase>)
    ensures
        db.wf(),
        db.is_empty(),
        db.count == 0,
        db.capacity == MAX_USERS,
{
    Box::new(UserDatabase::with_capacity(MAX_USERS))
}

/// Inserts a record into the first empty slot and gives it that slot's index
/// as its id. A full store refuses the record and is left as it was.
pub fn add_user(db: &mut UserDatabase, user: Box<UserStruct>) -> (r: Result<(), StoreError>)
    requires
        old(db).wf(),
    ensures
        final(db).wf(),
        final(db).capacity == old(db).capacity,
        old(db).count == old(db).capacity ==> r == Err::<(), StoreError>(
            StoreError::CapacityExceeded,
        ) && final(db).users@ == old(db).users@ && final(db).count == old(db).count,
        old(db).count < old(db).capacity ==> r is Ok && final(db).count == old(db).count + 1 && ({
            let slot = first_free(old(db).users@);
            &&& 0 <= slot < old(db).users@.len()
            &&& old(db).users@[slot] is None
            &&& final(db).users@ == with_inserted(old(db).users@, *user)
        }),
{
    proof {
        lemma_occupied_bound(db.users@);
    }
    if db.count >= db.capacity {
        return Err(StoreError::CapacityExceeded);
    }
    proof {
        lemma_free_exists(db.users@);
    }
    let mut i: usize = 0;
    while i < db.users.len() && db.users[i].is_some()
        invariant
            i <= db.users@.len(),
            db.users@ == old(db).users@,
            forall|j: int| 0 <= j < i ==> !is_free::<UserStruct>()(#[trigger] db.users@[j]),
        decreases db.users@.len() - i,
    {
        i += 1;
    }
    proof {
        lemma_first_index_is(db.users@, is_free::<UserStruct>(), i as int);
        lemma_occupied_update(
            db.users@,
            i as int,
            Some(UserStruct { user_id: i as i32, ..*user }),
        );
    }
    let mut record: UserStruct = *user;
    record.user_id = i as i32;
    db.users[i] = Some(record);
    db.count = db.count + 1;
    Ok(())
}

/// Index of the first slot whose record is named `name`, case aside, or the
/// number of slots.
pub fn find_slot_named(db: &UserDatabase, name: &[u8]) -> (idx: usize)
    ensures
        idx == first_named(db.users@, name@),
        idx <= db.users@.len(),
        idx < db.users@.len() ==> db.users@[idx as int] is Some,
{
    let mut i: usize = 0;
    while i < db.users.len()
        invariant
            i <= db.users@.len(),
            forall|j: int| 0 <= j < i ==> !named(name@)(#[trigger] db.users@[j]),
        decreases db.users@.len() - i,
    {
        if let Some(user) = &db.users[i] {
            if text_matches(&user.username, name) {
                proof {
                    lemma_first_index_is(db.users@, named(name@), i as int);
                }
                return i;
            }
        }
        i += 1;
    }
    proof {
        lemma_first_index_is(db.users@, named(name@), i as int);
    }
    i
}

/// Index of the first slot whose record is named `username`, case aside, or
/// the number of slots.
pub fn find_slot_by_username(db: &UserDatabase, username: &str) -> (idx: usize)
    ensures
        idx == first_named(db.users@, username.spec_bytes()),
        idx <= db.users@.len(),
        idx < db.users@.len() ==> db.users@[idx as int] is Some,
{
    find_slot_named(db, username.as_bytes())
}

/// The first record, in index order, whose username is `username`, case of
/// ASCII letters aside.
pub fn find_user_by_username<'a>(db: &'a UserDatabase, username: &'a str) -> (found: Option<
    &'a UserStruct,
>)
    ensures
        found is Some <==> lookup(db.users@, username.spec_bytes()) is Some,
        found is Some ==> *found->0 == lookup(db.users@, username.spec_bytes())->0,
        found is None <==> forall|i: int|
            0 <= i < db.users@.len() ==> !named(username.spec_bytes())(#[trigger] db.users@[i]),
{
    let idx = find_slot_by_username(db, username);
    proof {
        lemma_first_index(db.users@, named(username.spec_bytes()), 0);
    }
    if idx < db.users.len() {
        match &db.users[idx] {
            Some(user) => Some(user),
            None => None,
        }
    } else {
        None
    }
}

/// The same record as `find_user_by_username`, for writing. What the caller
/// writes to it is what the slot holds afterwards; nothing else changes.
pub fn find_user_by_username_mut<'a>(db: &'a mut UserDatabase, username: &'a str) -> (found:
    Option<&'a mut UserStruct>)
    ensures
        found is Some <==> lookup(old(db).users@, username.spec_bytes()) is Some,
        found is Some ==> *found->0 == lookup(old(db).users@, username.spec_bytes())->0,
        found is Some ==> final(db).users@ == old(db).users@.update(
            first_named(old(db).users@, username.spec_bytes()),
            Some(*final(found->0)),
        ),
        found is None ==> final(db).users@ == old(db).users@,
        final(db).count == old(db).count,
        final(db).capacity == old(db).capacity,
{
    let idx = find_slot_by_username(db, username);
    if idx < db.users.len() {
        match &mut db.users[idx] {
            Some(user) => Some(user),
            None => None,
        }
    } else {
        None
    }
}

/// A copy of the first record, in index order, whose id is `user_id`.
pub fn find_user_by_id(db: &UserDatabase, user_id: i32) -> (found: Option<Box<UserStruct>>)
    ensures
        first_index(db.users@, has_id(user_id), 0) < db.users@.len() ==> found is Some
            && *found->0 == db.users@[first_index(db.users@, has_id(user_id), 0)]->0,
        first_index(db.users@, has_id(user_id), 0) >= db.users@.len() ==> found is None,
{
    let mut i: usize = 0;
    while i < db.users.len()
        invariant
            i <= db.users@.len(),
            forall|j: int| 0 <= j < i ==> !has_id(user_id)(#[trigger] db.users@[j]),
        decreases db.users@.len() - i,
    {
        if let Some(user) = &db.users[i] {
            if user.user_id == user_id {
                proof {
                    lemma_first_index_is(db.users@, has_id(user_id), i as int);
                }
                return Some(Box::new(*user));
            }
        }
        i += 1;
    }
    proof {
        lemma_first_index_is(db.users@, has_id(user_id), i as int);
    }
    None
}

/// Marks a login: the record named `username` is no longer inactive. A name
/// that no record has changes nothing.
pub fn user_login(db: &mut UserDatabase, username: &str)
    ensures
        final(db).count == old(db).count,
        final(db).capacity == old(db).capacity,
        lookup(old(db).users@, username.spec_bytes()) is None ==> final(db).users@ == old(
            db,
        ).users@,
        lookup(old(db).users@, username.spec_bytes()) matches Some(user) ==> final(db).users@
            == old(db).users@.update(
            first_named(old(db).users@, username.spec_bytes()),
            Some(UserStruct { inactivity_count: 0, ..user }),
        ),
        old(db).wf() ==> final(db).wf(),
{
    proof {
        lemma_first_index(db.users@, named(username.spec_bytes()), 0);
        if let Some(user) = lookup(db.users@, username.spec_bytes()) {
            lemma_occupied_update(
                db.users@,
                first_named(db.users@, username.spec_bytes()),
                Some(UserStruct { inactivity_count: 0, ..user }),
            );
        }
    }
    let user = find_user_by_username_mut(db, username);
    if let Some(_user) = user {
        _user.inactivity_count = 0;
    }
}

/// Renames the record named `username`: the new name is stored in its
/// username buffer, cut to fit and terminated. A name that no record has
/// changes nothing.
pub fn update_username(db: &mut UserDatabase, username: &str, new_username: &str)
    ensures
        final(db).count == old(db).count,
        final(db).capacity == old(db).capacity,
        lookup(old(db).users@, username.spec_bytes()) is None ==> final(db).users@ == old(
            db,
        ).users@,
        lookup(old(db).users@, username.spec_bytes()) matches Some(user) ==> ({
            let slot = first_named(old(db).users@, username.spec_bytes());
            &&& final(db).users@.len() == old(db).users@.len()
            &&& final(db).users@[slot] is Some
            &&& final(db).users@ == old(db).users@.update(slot, final(db).users@[slot])
            &&& final(db).users@[slot]->0 == UserStruct {
                username: final(db).users@[slot]->0.username,
                ..user
            }
            &&& final(db).users@[slot]->0.username@ == copied(
                user.username@,
                new_username.spec_bytes(),
                MAX_NAME_LEN - 1,
            )
        }),
{
    proof {
        lemma_first_index(db.users@, named(username.spec_bytes()), 0);
    }
    let user = find_user_by_username_mut(db, username);
    if let Some(_user) = user {
        copy_string(&mut _user.username, new_username, MAX_NAME_LEN - 1);
    }
}

/// The password of the record named `username`, as a string.
pub fn get_password(db: &UserDatabase, username: &str) -> (password: Option<String>)
    ensures
        password is Some <==> lookup(db.users@, username.spec_bytes()) is Some,
        password is Some ==> password->0@ == utf8_lossy(
            text_of(lookup(db.users@, username.spec_bytes())->0.password@),
        ),
        password is Some && valid_utf8(
            text_of(lookup(db.users@, username.spec_bytes())->0.password@),
        ) ==> password->0@ == decode_utf8(
            text_of(lookup(db.users@, username.spec_bytes())->0.password@),
        ),
{
    match find_user_by_username(db, username) {
        Some(user) => Some(u8_to_string_no_nullt(&user.password)),
        None => None,
    }
}

/// Stores a new password in the record, cut to fit and terminated. Nothing
/// happens when there is no record.
pub fn update_password(user: &mut Option<Box<UserStruct>>, password: &str)
    ensures
        *old(user) is None ==> *final(user) is None,
        *old(user) matches Some(before)
            ==> *final(user) is Some && *(*final(user))->0 == (UserStruct {
            password: (*final(user))->0.password,
            ..*before
        }) && (*final(user))->0.password@ == copied(
            before.password@,
            password.spec_bytes(),
            MAX_PASSWORD_LENGTH - 1,
        ),
{
    if let Some(boxed) = user.take() {
        let mut record: UserStruct = *boxed;
        copy_string(&mut record.password, password, MAX_PASSWORD_LENGTH - 1);
        *user = Some(Box::new(record));
    }
}

/// One daily tick. Every record that has been inactive for longer than the
/// threshold is removed and the count drops by one for each; every other
/// record is aged by a day. Removal is a release: when a record that is due
/// is not the primary store's to release, nothing is changed and the tick
/// ends in an ownership violation.
pub fn update_database_daily(db: &mut UserDatabase) -> (r: Result<(), StoreError>)
    requires
        old(db).wf(),
    ensures
        final(db).wf(),
        final(db).capacity == old(db).capacity,
        release_refused(old(db).users@, Backend::Primary) ==> r == Err::<(), StoreError>(
            StoreError::OwnershipViolation,
        ) && final(db).users@ == old(db).users@ && final(db).count == old(db).count,
        !release_refused(old(db).users@, Backend::Primary) ==> r is Ok && final(db).users@
            == decayed(old(db).users@) && final(db).count == old(db).count - due_count(
            old(db).users@,
        ),
{
    let mut k: usize = 0;
    while k < db.users.len()
        invariant
            k <= db.users@.len(),
            old(db).wf(),
            db.users@ == old(db).users@,
            db.count == old(db).count,
            db.capacity == old(db).capacity,
            forall|j: int|
                0 <= j < k && (#[trigger] db.users@[j]) is Some && is_due(db.users@[j]->0)
                    ==> db.users@[j]->0.ownership.authority() == Backend::Primary,
        decreases db.users@.len() - k,
    {
        if let Some(user) = &db.users[k] {
            if user.inactivity_count > INACTIVITY_THRESHOLD {
                let cleared = transition(user.ownership, OwnershipEvent::Release(Backend::Primary));
                if cleared.is_err() {
                    return Err(StoreError::OwnershipViolation);
                }
            }
        }
        k += 1;
    }
    let mut removed: i32 = 0;
    let mut i: usize = 0;
    while i < db.users.len()
        invariant
            i <= db.users@.len(),
            db.users@.len() == old(db).users@.len(),
            old(db).wf(),
            db.count == old(db).count,
            db.capacity == old(db).capacity,
            removed == due_count(old(db).users@.take(i as int)),
            removed <= i,
            forall|j: int| 0 <= j < i ==> db.users@[j] == decay_slot(old(db).users@[j]),
            forall|j: int| i <= j < db.users@.len() ==> db.users@[j] == old(db).users@[j],
        decreases db.users@.len() - i,
    {
        proof {
            lemma_due_count_step(old(db).users@, i as int);
        }
        let slot: Option<UserStruct> = db.users[i];
        if let Some(user) = slot {
            if user.inactivity_count > INACTIVITY_THRESHOLD {
                db.users[i] = None;
                removed = removed + 1;
            } else {
                let mut kept: UserStruct = user;
                kept.inactivity_count = kept.inactivity_count + 1;
                db.users[i] = Some(kept);
            }
        }
        i += 1;
    }
    proof {
        assert(old(db).users@.take(i as int) =~= old(db).users@);
        assert(db.users@ =~= decayed(old(db).users@));
        lemma_decayed_count(old(db).users@);
    }
    db.count = db.count - removed;
    Ok(())
}

/// The line that describes a user with these values.
pub uninterp spec fn user_line(
    username: Seq<char>,
    user_id: i32,
    email: Seq<char>,
    inactivity_count: i32,
    password: Seq<char>,
) -> Seq<char>;

/// The line `format!` makes of a user's values; a function of those values
/// alone.
#[verifier::external_body]
fn format_user_line(
    username: &String,
    user_id: i32,
    email: &String,
    inactivity_count: i32,
    password: &String,
) -> (line: String)
    ensures
        line@ == user_line(username@, user_id, email@, inactivity_count, password@),
{
    format!(
        "User: {:?}, ID: {:?} Email: {:?}, Inactivity: {:?}, Password: {:?}",
        username, user_id, email, inactivity_count, password
    )
}

/// The line that describes a record.
pub open spec fn line_of(user: UserStruct) -> Seq<char> {
    user_line(
        utf8_lossy(text_of(user.username@)),
        user.user_id,
        utf8_lossy(text_of(user.email@)),
        user.inactivity_count,
        utf8_lossy(text_of(user.password@)),
    )
}

/// The lines that describe a table: one for each record, in index order.
pub open spec fn lines_of(s: Seq<Option<UserStruct>>) -> Seq<Seq<char>>
    decreases s.len(),
{
    if s.len() == 0 {
        Seq::empty()
    } else if s.last() is Some {
        lines_of(s.drop_last()).push(line_of(s.last()->0))
    } else {
        lines_of(s.drop_last())
    }
}

/// The line that describes a record, for the caller to print.
pub fn print_user(user: &Box<UserStruct>) -> (line: String)
    ensures
        line@ == line_of(**user),
{
    let username = u8_to_string_no_nullt(&user.username);
    let email = u8_to_string_no_nullt(&user.email);
    let password = u8_to_string_no_nullt(&user.password);
    format_user_line(&username, user.user_id, &email, user.inactivity_count, &password)
}

/// The lines that describe the records of a table, in index order.
pub fn describe_slots(users: &Vec<Option<UserStruct>>) -> (lines: Vec<String>)
    ensures
        lines@.len() == lines_of(users@).len(),
        forall|k: int| 0 <= k < lines@.len() ==> (#[trigger] lines@[k])@ == lines_of(users@)[k],
{
    let mut lines: Vec<String> = Vec::new();
    let mut i: usize = 0;
    while i < users.len()
        invariant
            i <= users@.len(),
            lines@.len() == lines_of(users@.take(i as int)).len(),
            forall|k: int|
                0 <= k < lines@.len() ==> (#[trigger] lines@[k])@ == lines_of(
                    users@.take(i as int),
                )[k],
        decreases users@.len() - i,
    {
        proof {
            assert(users@.take(i + 1).drop_last() =~= users@.take(i as int));
        }
        if let Some(user) = &users[i] {
            let boxed = Box::new(*user);
            lines.push(print_user(&boxed));
        }
        i += 1;
    }
    proof {
        assert(users@.take(i as int) =~= users@);
    }
    lines
}

/// The lines that describe the records of a store, in index order, for the
/// caller to print.
pub fn print_database(db: &UserDatabase) -> (lines: Vec<String>)
    ensures
        lines@.len() == lines_of(db.users@).len(),
        forall|k: int| 0 <= k < lines@.len() ==> (#[trigger] lines@[k])@ == lines_of(db.users@)[k],
{
    describe_slots(&db.users)
}

/// The count of a well-formed store is never negative and never above the
/// capacity.
pub proof fn lemma_count_in_bounds(db: UserDatabase)
    requires
        db.wf(),
    ensures
        0 <= db.count <= db.capacity,
{
    lemma_occupied_bound(db.users@);
}

/// Within a well-formed store no two records have the same id.
pub proof fn lemma_ids_unique(db: UserDatabase, i: int, j: int)
    requires
        db.wf(),
        0 <= i < db.users@.len(),
        0 <= j < db.users@.len(),
        db.users@[i] is Some,
        db.users@[j] is Some,
        i != j,
    ensures
        db.users@[i]->0.user_id != db.users@[j]->0.user_id,
{
}

/// An insert into a table that is not full leaves it well-formed, with one
/// record more: the new one, in the first free slot.
pub proof fn lemma_with_inserted(
    users: Seq<Option<UserStruct>>,
    count: int,
    capacity: int,
    user: UserStruct,
)
    requires
        table_wf(users, count, capacity),
        count < capacity,
    ensures
        table_wf(with_inserted(users, user), count + 1, capacity),
        0 <= first_free(users) < users.len(),
        users[first_free(users)] is None,
        with_inserted(users, user)[first_free(users)] == Some(
            UserStruct { user_id: first_free(users) as i32, ..user },
        ),
        forall|j: int|
            0 <= j < users.len() && j != first_free(users) ==> (#[trigger] with_inserted(
                users,
                user,
            )[j]) == users[j],
{
    lemma_free_exists(users);
    lemma_occupied_update(
        users,
        first_free(users),
        Some(UserStruct { user_id: first_free(users) as i32, ..user }),
    );
}

/// In a store with no gap before its last record, a new record's id is the
/// count of records before it.
pub proof fn lemma_dense_insert_id(db: UserDatabase)
    requires
        db.wf(),
        is_dense(db.users@),
    ensures
        first_free(db.users@) == db.count,
{
    lemma_dense_first_free(db.users@);
}

/// A tick removes one record per record that is due.
pub proof fn lemma_decayed_count(s: Seq<Option<UserStruct>>)
    ensures
        occupied(decayed(s)) + due_count(s) == occupied(s),
        due_count(s) <= occupied(s),
    decreases s.len(),
{
    if s.len() > 0 {
        assert(decayed(s).drop_last() =~= decayed(s.drop_last()));
        lemma_decayed_count(s.drop_last());
    }
}

/// The count of due records of a prefix grows with the slot that follows it.
pub proof fn lemma_due_count_step(s: Seq<Option<UserStruct>>, i: int)
    requires
        0 <= i < s.len(),
    ensures
        due_count(s.take(i + 1)) == due_count(s.take(i)) + (if s[i] is Some && is_due(s[i]->0) {
            1nat
        } else {
            0nat
        }),
        due_count(s.take(i + 1)) <= i + 1,
        due_count(s.take(i)) <= i,
{
    assert(s.take(i + 1).drop_last() =~= s.take(i));
    lemma_decayed_count(s.take(i));
    lemma_decayed_count(s.take(i + 1));
    lemma_occupied_bound(s.take(i));
    lemma_occupied_bound(s.take(i + 1));
}

/// A tick on a table whose records are all the primary store's to release is
/// refused nothing, and leaves such a table.
pub proof fn lemma_decayed_all_releasable(s: Seq<Option<UserStruct>>)
    requires
        all_releasable(s),
    ensures
        !release_refused(s, Backend::Primary),
        all_releasable(decayed(s)),
{
    assert forall|i: int| 0 <= i < decayed(s).len() && (#[trigger] decayed(s)[i]) is Some implies
        decayed(
        s,
    )[i]->0.ownership.authority() == Backend::Primary by {
        assert(s[i] is Some);
    }
}

/// A table with no record that is due loses none in a tick.
pub proof fn lemma_none_due(s: Seq<Option<UserStruct>>)
    requires
        forall|i: int| 0 <= i < s.len() && (#[trigger] s[i]) is Some ==> !is_due(s[i]->0),
    ensures
        due_count(s) == 0,
        occupied(decayed(s)) == occupied(s),
    decreases s.len(),
{
    lemma_decayed_count(s);
    if s.len() > 0 {
        assert(s.last() == s[s.len() - 1]);
        assert forall|i: int| 0 <= i < s.drop_last().len() && (#[trigger] s.drop_last()[i])
            is Some implies !is_due(s.drop_last()[i]->0) by {
            assert(s.drop_last()[i] == s[i]);
        }
        lemma_none_due(s.drop_last());
    }
}

/// What a tick does to a record at the threshold and to one beyond it: the
/// first is kept with one day more, the second is gone, and the store holds
/// one record less for each record that was beyond it.
pub proof fn lemma_tick_at_threshold(s: Seq<Option<UserStruct>>, i: int)
    requires
        0 <= i < s.len(),
        s[i] is Some,
    ensures
        s[i]->0.inactivity_count == INACTIVITY_THRESHOLD ==> decayed(s)[i] == Some(
            UserStruct { inactivity_count: (INACTIVITY_THRESHOLD + 1) as i32, ..s[i]->0 },
        ),
        s[i]->0.inactivity_count == INACTIVITY_THRESHOLD + 1 ==> decayed(s)[i] is None,
        occupied(decayed(s)) == occupied(s) - due_count(s),
{
    lemma_decayed_count(s);
}

} // verus!
