//! The foreign store: a second table of records, managed on its own terms
//! and reached only through the calls of this module.
//!
//! A record inside the store is referred to by a handle. A handle stays
//! valid for as long as its record is stored in the slot it was issued for;
//! after that it resolves to nothing, also when another record has taken the
//! slot.

use vstd::prelude::*;
use vstd::string::StringSliceAdditionalSpecFns;
use crate::limits::{
    INACTIVITY_THRESHOLD, MAX_EMAIL_LEN, MAX_NAME_LEN, MAX_PASSWORD_LENGTH,
    MAX_SESSION_TOKEN_LEN, MAX_USERS,
};
use crate::ownership::{transition, Backend, OwnershipEvent, OwnershipType};
use crate::primary::{describe_slots, lines_of};
use crate::record::{fresh_user, lemma_fresh_user, UserStruct};
use crate::session::{
    lemma_session_token_text, lemma_token_array, lemma_tokens_differ, make_token, session_owner,
    session_token_text, token_array, Session,
};
use crate::slots::{
    first_free, first_index, is_free, kept, lemma_first_index_is, lemma_free_exists, lemma_kept,
    lemma_kept_step, lemma_occupied_none, lemma_occupied_slots, lemma_occupied_slots_step,
    lemma_occupied_update, lemma_packed, occupied, occupied_slots, packed,
};
use crate::text::{
    copy_string, lemma_stored_text, name_matches, stored, text_equals, text_of, username_matches,
};

verus! {

/// A record in the foreign store's own representation.
#[derive(Clone, Copy, Debug)]
pub struct UserStructT {
    pub password: [u8; MAX_PASSWORD_LENGTH],
    pub username: [u8; MAX_NAME_LEN],
    pub user_id: i32,
    pub email: [u8; MAX_EMAIL_LEN],
    pub inactivity_count: i32,
    pub is_active: i32,
    pub session_token: [u8; MAX_SESSION_TOKEN_LEN],
    pub ownership: OwnershipType,
}

impl View for UserStructT {
    type V = UserStruct;

    /// The record of the directory with the same values.
    open spec fn view(&self) -> UserStruct {
        UserStruct {
            password: self.password,
            username: self.username,
            user_id: self.user_id,
            email: self.email,
            inactivity_count: self.inactivity_count,
            is_active: self.is_active,
            session_token: self.session_token,
            ownership: self.ownership,
        }
    }
}

/// A record of the directory in the foreign store's representation: the
/// same values, field by field.
pub open spec fn marshal(user: UserStruct) -> UserStructT {
    UserStructT {
        password: user.password,
        username: user.username,
        user_id: user.user_id,
        email: user.email,
        inactivity_count: user.inactivity_count,
        is_active: user.is_active,
        session_token: user.session_token,
        ownership: user.ownership,
    }
}

impl UserStructT {
    /// Carries a record of the directory over, field by field.
    pub fn from_record(user: &UserStruct) -> (record: UserStructT)
        ensures
            record == marshal(*user),
            record@ == *user,
    {
        UserStructT {
            password: user.password,
            username: user.username,
            user_id: user.user_id,
            email: user.email,
            inactivity_count: user.inactivity_count,
            is_active: user.is_active,
            session_token: user.session_token,
            ownership: user.ownership,
        }
    }

    /// Carries this record over to the directory, field by field.
    pub fn to_record(&self) -> (user: UserStruct)
        ensures
            user == self@,
    {
        UserStruct {
            password: self.password,
            username: self.username,
            user_id: self.user_id,
            email: self.email,
            inactivity_count: self.inactivity_count,
            is_active: self.is_active,
            session_token: self.session_token,
            ownership: self.ownership,
        }
    }

    /// Whether this is the record the foreign store makes of these values:
    /// the three strings stored in their buffers, cut to fit; no token;
    /// active; not inactive for any day; held by the foreign store alone.
    pub open spec fn is_fresh(
        &self,
        username: Seq<u8>,
        email: Seq<u8>,
        user_id: i32,
        password: Seq<u8>,
    ) -> bool {
        &&& self.username@ == stored(username, MAX_NAME_LEN as int)
        &&& self.email@ == stored(email, MAX_EMAIL_LEN as int)
        &&& self.password@ == stored(password, MAX_PASSWORD_LENGTH as int)
        &&& self.session_token@ == Seq::new(MAX_SESSION_TOKEN_LEN as nat, |i: int| 0u8)
        &&& self.user_id == user_id
        &&& self.inactivity_count == 0
        &&& self.is_active == 1
        &&& self.ownership == OwnershipType::C_OWNED
    }
}

/// The record the foreign store makes of these values.
pub open spec fn fresh_foreign_user(
    username: Seq<u8>,
    email: Seq<u8>,
    user_id: i32,
    password: Seq<u8>,
) -> UserStructT {
    marshal(
        UserStruct {
            ownership: OwnershipType::C_OWNED,
            ..fresh_user(username, email, user_id, password)
        },
    )
}

/// An opaque reference to a record inside the foreign store.
#[derive(Clone, Copy, Debug)]
pub struct UserHandle {
    slot: usize,
    user_id: i32,
}

impl UserHandle {
    /// The slot the handle was issued for.
    pub closed spec fn slot(&self) -> int {
        self.slot as int
    }

    /// The id of the record the handle was issued for.
    pub closed spec fn id(&self) -> i32 {
        self.user_id
    }

    /// The handle issued for the record with the id `id` in the slot `slot`.
    pub closed spec fn issued(slot: int, id: i32) -> UserHandle {
        UserHandle { slot: slot as usize, user_id: id }
    }
}

/// What the foreign store holds, as its contract speaks of it.
pub ghost struct ForeignState {
    /// The slots, in index order.
    pub records: Seq<Option<UserStructT>>,
    /// Number of occupied slots.
    pub count: int,
    /// Number of slots.
    pub capacity: int,
    /// The id the next inserted record gets.
    pub next_id: int,
    /// The sessions opened so far, oldest first.
    pub sessions: Seq<Session>,
    /// The day the store was last told of.
    pub day: int,
}

/// The predicate of a slot that holds a record named `name`, case aside.
pub open spec fn named_t(name: Seq<u8>) -> spec_fn(Option<UserStructT>) -> bool {
    |o: Option<UserStructT>| o is Some && name_matches(o->0.username@, name)
}

/// A record after a login: active, not inactive for any day, and holding the
/// token of the session the login opened.
pub open spec fn logged_in(user: UserStructT, token: [u8; MAX_SESSION_TOKEN_LEN]) -> UserStructT {
    UserStructT { inactivity_count: 0, is_active: 1, session_token: token, ..user }
}

/// What the foreign store's daily maintenance makes of one slot. A record
/// that has been inactive for longer than the threshold is removed when the
/// foreign store may release it and is left as it is when it may not; any
/// other record is aged by a day.
pub open spec fn maintain_slot(o: Option<UserStructT>) -> Option<UserStructT> {
    match o {
        None => None,
        Some(u) => if u.inactivity_count > INACTIVITY_THRESHOLD {
            if u.ownership.authority() == Backend::Foreign {
                None
            } else {
                Some(u)
            }
        } else {
            Some(UserStructT { inactivity_count: (u.inactivity_count + 1) as i32, ..u })
        },
    }
}

/// A slot whose record, if any, is no longer active.
pub open spec fn deactivate_slot(o: Option<UserStructT>) -> Option<UserStructT> {
    match o {
        None => None,
        Some(u) => Some(UserStructT { is_active: 0, ..u }),
    }
}

/// What a reclaim makes of one slot: a shared record that the foreign store
/// was authoritative for becomes one that the primary store is authoritative
/// for; anything else stays.
pub open spec fn reclaim_slot(o: Option<UserStructT>) -> Option<UserStructT> {
    match o {
        None => None,
        Some(u) => if u.ownership == OwnershipType::SHARED_C_PRIMARY {
            Some(UserStructT { ownership: OwnershipType::SHARED_RUST_PRIMARY, ..u })
        } else {
            Some(u)
        },
    }
}

/// The copies a reclaim hands out: one of each shared record that the foreign
/// store was authoritative for, in index order, each already tagged as the
/// primary store's to release.
pub open spec fn reclaimed(records: Seq<Option<UserStructT>>) -> Seq<UserStructT>
    decreases records.len(),
{
    if records.len() == 0 {
        Seq::empty()
    } else if records.last() is Some && records.last()->0.ownership
        == OwnershipType::SHARED_C_PRIMARY {
        reclaimed(records.drop_last()).push(
            UserStructT { ownership: OwnershipType::SHARED_RUST_PRIMARY, ..records.last()->0 },
        )
    } else {
        reclaimed(records.drop_last())
    }
}

impl ForeignState {
    /// The state of a store with `capacity` slots that holds nothing, has
    /// opened no session, and has been told of day `dc`.
    pub open spec fn empty(capacity: int, dc: int) -> ForeignState {
        ForeignState {
            records: Seq::new(capacity as nat, |i: int| None::<UserStructT>),
            count: 0,
            capacity,
            next_id: 1,
            sessions: Seq::<Session>::empty(),
            day: dc,
        }
    }

    /// The slot table is as long as the capacity, the count is the number of
    /// occupied slots, the ids in use are distinct, positive, and below the
    /// next one to be given, and each session has the token of its serial
    /// number.
    pub open spec fn wf(self) -> bool {
        &&& 0 <= self.capacity <= i32::MAX
        &&& self.records.len() == self.capacity
        &&& self.count == occupied(self.records)
        &&& 1 <= self.next_id <= i32::MAX
        &&& self.sessions.len() <= u64::MAX
        &&& forall|i: int|
            0 <= i < self.sessions.len() ==> (#[trigger] self.sessions[i]).token == token_array(
                i as nat,
            )
        &&& forall|i: int|
            0 <= i < self.records.len() && (#[trigger] self.records[i]) is Some ==> 1
                <= self.records[i]->0.user_id < self.next_id
        &&& forall|i: int, j: int|
            0 <= i < j < self.records.len() && (#[trigger] self.records[i]) is Some && (
            #[trigger] self.records[j]) is Some ==> self.records[i]->0.user_id
                != self.records[j]->0.user_id
    }

    /// Whether no record is in the middle of a merge: shared, with the
    /// foreign store still authoritative.
    pub open spec fn settled(self) -> bool {
        forall|i: int|
            0 <= i < self.records.len() && (#[trigger] self.records[i]) is Some
                ==> self.records[i]->0.ownership != OwnershipType::SHARED_C_PRIMARY
    }

    /// Whether an insert is taken: there is a free slot and an id to give.
    pub open spec fn takes_insert(self) -> bool {
        self.count < self.capacity && self.next_id < i32::MAX
    }

    /// The state after `user` was handed to an insert: stored in the first
    /// free slot under the next id when the insert is taken, and otherwise
    /// the same state.
    pub open spec fn inserted(self, user: UserStructT) -> ForeignState {
        if self.takes_insert() {
            ForeignState {
                records: self.records.update(
                    first_free(self.records),
                    Some(UserStructT { user_id: self.next_id as i32, ..user }),
                ),
                count: self.count + 1,
                next_id: self.next_id + 1,
                ..self
            }
        } else {
            self
        }
    }

    /// Index of the first slot that holds a record named `name`, or the
    /// number of slots.
    pub open spec fn first_named(self, name: Seq<u8>) -> int {
        first_index(self.records, named_t(name), 0)
    }

    /// The record a lookup by name yields: the one in the first slot, in
    /// index order, whose username is `name`, case aside.
    pub open spec fn lookup(self, name: Seq<u8>) -> Option<UserStructT> {
        if self.first_named(name) < self.records.len() {
            self.records[self.first_named(name)]
        } else {
            None
        }
    }

    /// The handle to the record a lookup by name yields.
    pub open spec fn handle_of(self, name: Seq<u8>) -> UserHandle {
        UserHandle::issued(self.first_named(name), self.lookup(name)->0.user_id)
    }

    /// The record a handle refers to, if it is still stored.
    pub open spec fn resolve(self, handle: UserHandle) -> Option<UserStructT> {
        if 0 <= handle.slot() < self.records.len() && self.records[handle.slot()] is Some
            && self.records[handle.slot()]->0.user_id == handle.id() {
            self.records[handle.slot()]
        } else {
            None
        }
    }

    /// The state after the record in `slot` was replaced by `user`.
    pub open spec fn with_record(self, slot: int, user: UserStructT) -> ForeignState {
        ForeignState { records: self.records.update(slot, Some(user)), ..self }
    }

    /// The state after a session was opened for the user `user_id`.
    pub open spec fn with_session(
        self,
        token: [u8; MAX_SESSION_TOKEN_LEN],
        user_id: i32,
    ) -> ForeignState {
        ForeignState { sessions: self.sessions.push(Session { token, user_id }), ..self }
    }

    /// The token the next session gets.
    pub open spec fn next_token(self) -> [u8; MAX_SESSION_TOKEN_LEN] {
        token_array(self.sessions.len())
    }

    /// The state after a session was opened for the user `user_id` under the
    /// next token.
    pub open spec fn session_opened(self, user_id: i32) -> ForeignState {
        self.with_session(self.next_token(), user_id)
    }

    /// The state after the record in `slot` was logged in: a session was
    /// opened for it, and the record is active, not inactive for any day, and
    /// holds the session's token.
    pub open spec fn logged_in_at(self, slot: int) -> ForeignState {
        self.session_opened(self.records[slot]->0.user_id).with_record(
            slot,
            logged_in(self.records[slot]->0, self.next_token()),
        )
    }

    /// The state after every slot was treated as `maintain_slot` says.
    pub open spec fn decayed(self) -> ForeignState {
        let records = Seq::new(self.records.len(), |i: int| maintain_slot(self.records[i]));
        ForeignState { records, count: occupied(records) as int, ..self }
    }

    /// The state after the records were moved to the front of the table, in
    /// their order.
    pub open spec fn compacted(self) -> ForeignState {
        ForeignState { records: packed(self.records), ..self }
    }

    /// The state after the daily maintenance on day `dc`: the store has been
    /// told of the day, every slot has been treated as `maintain_slot` says,
    /// and what is left has been moved to the front of the table.
    pub open spec fn maintained(self, dc: int) -> ForeignState {
        ForeignState { day: dc, ..self.decayed().compacted() }
    }

    /// The state after a reclaim.
    pub open spec fn after_reclaim(self) -> ForeignState {
        ForeignState {
            records: Seq::new(self.records.len(), |i: int| reclaim_slot(self.records[i])),
            ..self
        }
    }

    /// The state after every record was deactivated.
    pub open spec fn deactivated(self) -> ForeignState {
        ForeignState {
            records: Seq::new(self.records.len(), |i: int| deactivate_slot(self.records[i])),
            ..self
        }
    }

    /// The records as the directory sees them, slot by slot.
    pub open spec fn as_records(self) -> Seq<Option<UserStruct>> {
        Seq::new(
            self.records.len(),
            |i: int|
                match self.records[i] {
                    Some(u) => Some(u@),
                    None => None,
                },
        )
    }
}

/// The foreign store.
pub struct UserDatabaseT {
    users: Vec<Option<UserStructT>>,
    count: i32,
    capacity: i32,
    next_id: i32,
    sessions: Vec<Session>,
    day: i32,
}

impl View for UserDatabaseT {
    type V = ForeignState;

    closed spec fn view(&self) -> ForeignState {
        ForeignState {
            records: self.users@,
            count: self.count as int,
            capacity: self.capacity as int,
            next_id: self.next_id as int,
            sessions: self.sessions@,
            day: self.day as int,
        }
    }
}

impl UserDatabaseT {
    /// An empty store with `capacity` slots that has been told of day `dc`.
    pub fn with_capacity(capacity: usize, dc: i32) -> (db: UserDatabaseT)
        requires
            capacity <= i32::MAX,
        ensures
            db@.wf(),
            db@ == ForeignState::empty(capacity as int, dc as int),
    {
        let mut users: Vec<Option<UserStructT>> = Vec::new();
        while users.len() < capacity
            invariant
                users@.len() <= capacity,
                forall|i: int| 0 <= i < users@.len() ==> users@[i] is None,
            decreases capacity - users@.len(),
        {
            users.push(None);
        }
        proof {
            lemma_occupied_none(users@);
            assert(users@ =~= Seq::new(capacity as nat, |i: int| None::<UserStructT>));
        }
        let sessions: Vec<Session> = Vec::new();
        proof {
            assert(sessions@ =~= Seq::<Session>::empty());
        }
        UserDatabaseT { users, count: 0, capacity: capacity as i32, next_id: 1, sessions, day: dc }
    }

    /// An empty store with the default number of slots.
    pub fn init_database(dc: i32) -> (db: UserDatabaseT)
        ensures
            db@.wf(),
            db@ == ForeignState::empty(MAX_USERS as int, dc as int),
    {
        UserDatabaseT::with_capacity(MAX_USERS, dc)
    }

    /// Makes a record of the foreign store's own. Each string is cut to what
    /// its buffer holds before the terminator.
    pub fn create_user(username: &str, email: &str, user_id: i32, password: &str) -> (user:
        UserStructT)
        ensures
            user.is_fresh(
                username.spec_bytes(),
                email.spec_bytes(),
                user_id,
                password.spec_bytes(),
            ),
    {
        let mut user = UserStructT {
            username: [0u8; MAX_NAME_LEN],
            email: [0u8; MAX_EMAIL_LEN],
            password: [0u8; MAX_PASSWORD_LENGTH],
            user_id: user_id,
            inactivity_count: 0,
            is_active: 1,
            session_token: [0u8; MAX_SESSION_TOKEN_LEN],
            ownership: OwnershipType::RUST_OWNED,
        };
        if let Ok(tag) = transition(user.ownership, OwnershipEvent::CreateInForeign) {
            user.ownership = tag;
        }
        proof {
            assert(user.username@ =~= Seq::new(MAX_NAME_LEN as nat, |i: int| 0u8));
            assert(user.email@ =~= Seq::new(MAX_EMAIL_LEN as nat, |i: int| 0u8));
            assert(user.password@ =~= Seq::new(MAX_PASSWORD_LENGTH as nat, |i: int| 0u8));
            assert(user.session_token@ =~= Seq::new(MAX_SESSION_TOKEN_LEN as nat, |i: int| 0u8));
            lemma_stored_text(username.spec_bytes(), MAX_NAME_LEN as int);
            lemma_stored_text(email.spec_bytes(), MAX_EMAIL_LEN as int);
            lemma_stored_text(password.spec_bytes(), MAX_PASSWORD_LENGTH as int);
        }
        copy_string(&mut user.username, username, MAX_NAME_LEN - 1);
        copy_string(&mut user.email, email, MAX_EMAIL_LEN - 1);
        copy_string(&mut user.password, password, MAX_PASSWORD_LENGTH - 1);
        user
    }

    /// Number of records stored.
    pub fn count(&self) -> (n: i32)
        ensures
            n == self@.count,
    {
        self.count
    }

    /// Number of slots.
    pub fn capacity(&self) -> (n: i32)
        ensures
            n == self@.capacity,
    {
        self.capacity
    }

    /// The id the next inserted record gets.
    pub fn next_id(&self) -> (n: i32)
        ensures
            n == self@.next_id,
    {
        self.next_id
    }

    /// The day the store was last told of.
    pub fn day(&self) -> (n: i32)
        ensures
            n == self@.day,
    {
        self.day
    }

    /// Whether an insert would be taken.
    pub fn has_room(&self) -> (r: bool)
        ensures
            r == self@.takes_insert(),
    {
        self.count < self.capacity && self.next_id < i32::MAX
    }

    /// Stores a record in the first free slot under the next id. A store
    /// with no free slot, or with no id left to give, drops the record
    /// without a word.
    pub fn add_user(&mut self, user: UserStructT)
        requires
            old(self)@.wf(),
        ensures
            final(self)@.wf(),
            final(self)@ == old(self)@.inserted(user),
            old(self)@.takes_insert() ==> 0 <= first_free(old(self)@.records) < old(
                self,
            )@.records.len() && old(self)@.records[first_free(old(self)@.records)] is None,
    {
        if !(self.count < self.capacity && self.next_id < i32::MAX) {
            return ;
        }
        proof {
            lemma_free_exists(self.users@);
        }
        let mut i: usize = 0;
        while i < self.users.len() && self.users[i].is_some()
            invariant
                i <= self.users@.len(),
                self.users@ == old(self).users@,
                forall|j: int| 0 <= j < i ==> !is_free::<UserStructT>()(#[trigger] self.users@[j]),
            decreases self.users@.len() - i,
        {
            i += 1;
        }
        proof {
            lemma_first_index_is(self.users@, is_free::<UserStructT>(), i as int);
            lemma_occupied_update(
                self.users@,
                i as int,
                Some(UserStructT { user_id: self.next_id, ..user }),
            );
        }
        let mut record: UserStructT = user;
        record.user_id = self.next_id;
        self.users[i] = Some(record);
        self.count = self.count + 1;
        self.next_id = self.next_id + 1;
    }

    /// A handle to the first record, in index order, whose username is
    /// `name`, case of ASCII letters aside.
    pub fn find_user_by_username(&self, name: &str) -> (found: Option<UserHandle>)
        ensures
            found is Some <==> self@.lookup(name.spec_bytes()) is Some,
            found is Some ==> found->0 == self@.handle_of(name.spec_bytes()) && found->0.slot()
                == self@.first_named(name.spec_bytes()) && self@.resolve(found->0)
                == self@.lookup(name.spec_bytes()),
    {
        let mut i: usize = 0;
        while i < self.users.len()
            invariant
                i <= self.users@.len(),
                forall|j: int|
                    0 <= j < i ==> !named_t(name.spec_bytes())(#[trigger] self.users@[j]),
            decreases self.users@.len() - i,
        {
            if let Some(user) = &self.users[i] {
                if username_matches(&user.username, name) {
                    proof {
                        lemma_first_index_is(self.users@, named_t(name.spec_bytes()), i as int);
                    }
                    return Some(UserHandle { slot: i, user_id: user.user_id });
                }
            }
            i += 1;
        }
        proof {
            lemma_first_index_is(self.users@, named_t(name.spec_bytes()), i as int);
        }
        None
    }

    /// A copy of the record a handle refers to, if it is still stored.
    pub fn read(&self, handle: &UserHandle) -> (record: Option<UserStructT>)
        ensures
            record == self@.resolve(*handle),
    {
        if handle.slot < self.users.len() {
            match &self.users[handle.slot] {
                Some(user) => {
                    if user.user_id == handle.user_id {
                        Some(*user)
                    } else {
                        None
                    }
                },
                None => None,
            }
        } else {
            None
        }
    }

    /// A copy of the password buffer of the record a handle refers to.
    pub fn get_password(&self, handle: &UserHandle) -> (password: Option<[u8;
        MAX_PASSWORD_LENGTH]>)
        ensures
            password is Some <==> self@.resolve(*handle) is Some,
            password is Some ==> password->0 == self@.resolve(*handle)->0.password,
    {
        match self.read(handle) {
            Some(user) => Some(user.password),
            None => None,
        }
    }

    /// Replaces the record a handle refers to. The id stays what it was. A
    /// handle that resolves to nothing changes nothing.
    fn write(&mut self, handle: &UserHandle, user: UserStructT) -> (done: bool)
        requires
            old(self)@.wf(),
        ensures
            final(self)@.wf(),
            done == old(self)@.resolve(*handle) is Some,
            done ==> final(self)@ == old(self)@.with_record(
                handle.slot(),
                UserStructT { user_id: handle.id(), ..user },
            ),
            !done ==> final(self)@ == old(self)@,
    {
        if self.read(handle).is_none() {
            return false;
        }
        let mut record: UserStructT = user;
        record.user_id = handle.user_id;
        proof {
            lemma_occupied_update(self.users@, handle.slot as int, Some(record));
        }
        self.users[handle.slot] = Some(record);
        true
    }

    /// Opens a session for the user of the given record and returns its
    /// token: the text of the returned buffer.
    pub fn create_user_session(&mut self, user: &UserStructT) -> (token: [u8;
        MAX_SESSION_TOKEN_LEN])
        requires
            old(self)@.wf(),
        ensures
            final(self)@.wf(),
            token == old(self)@.next_token(),
            final(self)@ == old(self)@.session_opened(user.user_id),
    {
        let token = make_token(self.sessions.len());
        self.sessions.push(Session { token, user_id: user.user_id });
        proof {
            assert(self.sessions@.len() == self.sessions.len());
        }
        token
    }

    /// The id of the user that the newest session with this token was issued
    /// to, or 0 when the token is of no session.
    pub fn validate_user_session(&self, wanted: &[u8]) -> (user_id: i32)
        ensures
            user_id == session_owner(self@.sessions, wanted@),
    {
        let mut i: usize = self.sessions.len();
        proof {
            assert(self.sessions@.take(i as int) =~= self.sessions@);
        }
        while i > 0
            invariant
                i <= self.sessions@.len(),
                session_owner(self.sessions@, wanted@) == session_owner(
                    self.sessions@.take(i as int),
                    wanted@,
                ),
            decreases i,
        {
            proof {
                assert(self.sessions@.take(i as int).drop_last() =~= self.sessions@.take(
                    i as int - 1,
                ));
            }
            let session = &self.sessions[i - 1];
            if text_equals(&session.token, wanted) {
                return session.user_id;
            }
            i -= 1;
        }
        proof {
            assert(self.sessions@.take(0).len() == 0);
        }
        0
    }

    /// Logs the record a handle refers to in: a session is opened for it, and
    /// the record becomes active, not inactive for any day, and holds the
    /// session's token. A handle that resolves to nothing changes nothing.
    pub fn create_session_for(&mut self, handle: &UserHandle) -> (token: Option<[u8;
        MAX_SESSION_TOKEN_LEN]>)
        requires
            old(self)@.wf(),
        ensures
            final(self)@.wf(),
            token is Some <==> old(self)@.resolve(*handle) is Some,
            token is None ==> final(self)@ == old(self)@,
            token is Some ==> token->0 == old(self)@.next_token() && final(self)@ == old(
                self,
            )@.logged_in_at(handle.slot()),
    {
        match self.read(handle) {
            Some(user) => {
                let token = self.create_user_session(&user);
                let mut record: UserStructT = user;
                record.inactivity_count = 0;
                record.is_active = 1;
                record.session_token = token;
                let done = self.write(handle, record);
                Some(token)
            },
            None => None,
        }
    }

    /// Logs the user named `name` in, as `create_session_for` does for the
    /// first record of that name. A name that no record has changes nothing.
    pub fn user_login(&mut self, name: &str) -> (token: Option<[u8; MAX_SESSION_TOKEN_LEN]>)
        requires
            old(self)@.wf(),
        ensures
            final(self)@.wf(),
            token is Some <==> old(self)@.lookup(name.spec_bytes()) is Some,
            token is None ==> final(self)@ == old(self)@,
            token is Some ==> token->0 == old(self)@.next_token() && final(self)@ == old(
                self,
            )@.logged_in_at(old(self)@.first_named(name.spec_bytes())),
    {
        match self.find_user_by_username(name) {
            Some(handle) => self.create_session_for(&handle),
            None => None,
        }
    }

    /// The daily maintenance: the store is told of the day, every slot is
    /// treated as `maintain_slot` says, and what is left is moved to the
    /// front of the table. Nothing is released that the foreign store is not
    /// authoritative for.
    pub fn update_database_daily(&mut self, dc: i32)
        requires
            old(self)@.wf(),
        ensures
            final(self)@.wf(),
            final(self)@ == old(self)@.maintained(dc as int),
    {
        self.day = dc;
        let mut i: usize = 0;
        while i < self.users.len()
            invariant
                i <= self.users@.len(),
                self.users@.len() == old(self).users@.len(),
                old(self)@.wf(),
                self@.wf(),
                self.capacity == old(self).capacity,
                self.next_id == old(self).next_id,
                self.sessions == old(self).sessions,
                self.day == dc,
                forall|j: int| 0 <= j < i ==> self.users@[j] == maintain_slot(old(self).users@[j]),
                forall|j: int| i <= j < self.users@.len() ==> self.users@[j] == old(self).users@[j],
            decreases self.users@.len() - i,
        {
            let slot: Option<UserStructT> = self.users[i];
            if let Some(user) = slot {
                if user.inactivity_count > INACTIVITY_THRESHOLD {
                    let cleared = transition(
                        user.ownership,
                        OwnershipEvent::Release(Backend::Foreign),
                    );
                    if cleared.is_ok() {
                        proof {
                            lemma_occupied_update(self.users@, i as int, None);
                        }
                        self.users[i] = None;
                        self.count = self.count - 1;
                    }
                } else {
                    let mut kept: UserStructT = user;
                    kept.inactivity_count = kept.inactivity_count + 1;
                    proof {
                        lemma_occupied_update(self.users@, i as int, Some(kept));
                    }
                    self.users[i] = Some(kept);
                }
            }
            i += 1;
        }
        proof {
            assert(self@.records =~= old(self)@.decayed().records);
        }
        self.compact();
    }

    /// Moves the records to the front of the table, in their order. Handles
    /// issued before may resolve to nothing afterwards. No two slots ever
    /// hold the same id, so there is no duplicate to remove.
    pub fn compact(&mut self)
        requires
            old(self)@.wf(),
        ensures
            final(self)@.wf(),
            final(self)@ == old(self)@.compacted(),
    {
        let mut moved: Vec<Option<UserStructT>> = Vec::new();
        let mut i: usize = 0;
        while i < self.users.len()
            invariant
                i <= self.users@.len(),
                self.users@ == old(self).users@,
                moved@.len() == kept(self.users@.take(i as int)).len(),
                moved@.len() <= i,
                forall|j: int|
                    0 <= j < moved@.len() ==> moved@[j] == Some(
                        kept(self.users@.take(i as int))[j],
                    ),
            decreases self.users@.len() - i,
        {
            proof {
                lemma_kept_step(self.users@, i as int);
            }
            let slot: Option<UserStructT> = self.users[i];
            if slot.is_some() {
                moved.push(slot);
            }
            i += 1;
        }
        proof {
            assert(self.users@.take(i as int) =~= self.users@);
        }
        let ghost packed_len = moved@.len();
        while moved.len() < self.users.len()
            invariant
                packed_len <= moved@.len() <= self.users@.len(),
                self.users@ == old(self).users@,
                packed_len == kept(self.users@).len(),
                forall|j: int|
                    0 <= j < packed_len ==> moved@[j] == Some(kept(self.users@)[j]),
                forall|j: int| packed_len <= j < moved@.len() ==> moved@[j] is None,
            decreases self.users@.len() - moved@.len(),
        {
            moved.push(None);
        }
        proof {
            let before = old(self).users@;
            assert(moved@ =~= packed(before));
            lemma_packed(before);
            lemma_kept(before);
            let slots = occupied_slots(before);
            assert forall|a: int| 0 <= a < moved@.len() && (#[trigger] moved@[a]) is Some implies 1
                <= moved@[a]->0.user_id < old(self)@.next_id by {
                assert(before[slots[a]] == moved@[a]);
            }
            assert forall|a: int, b: int|
                0 <= a < b < moved@.len() && (#[trigger] moved@[a]) is Some
                    && (#[trigger] moved@[b])
                    is Some implies moved@[a]->0.user_id != moved@[b]->0.user_id by {
                assert(before[slots[a]] == moved@[a]);
                assert(before[slots[b]] == moved@[b]);
                assert(slots[a] < slots[b]);
            }
        }
        self.users = moved;
    }

    /// Hands the primary store a copy of each shared record that the foreign
    /// store was authoritative for, and from then on treats each of them as
    /// the primary store's to release.
    pub fn reclaim_shared(&mut self) -> (copies: Vec<UserStructT>)
        requires
            old(self)@.wf(),
        ensures
            final(self)@.wf(),
            final(self)@ == old(self)@.after_reclaim(),
            copies@ == reclaimed(old(self)@.records),
    {
        let mut copies: Vec<UserStructT> = Vec::new();
        let mut i: usize = 0;
        while i < self.users.len()
            invariant
                i <= self.users@.len(),
                self.users@.len() == old(self).users@.len(),
                old(self)@.wf(),
                self@.wf(),
                self.count == old(self).count,
                self.capacity == old(self).capacity,
                self.next_id == old(self).next_id,
                self.sessions == old(self).sessions,
                self.day == old(self).day,
                copies@ == reclaimed(old(self).users@.take(i as int)),
                forall|j: int| 0 <= j < i ==> self.users@[j] == reclaim_slot(old(self).users@[j]),
                forall|j: int| i <= j < self.users@.len() ==> self.users@[j] == old(self).users@[j],
            decreases self.users@.len() - i,
        {
            proof {
                assert(old(self).users@.take(i + 1).drop_last() =~= old(self).users@.take(
                    i as int,
                ));
            }
            let slot: Option<UserStructT> = self.users[i];
            if let Some(user) = slot {
                if user.ownership == OwnershipType::SHARED_C_PRIMARY {
                    let tag = transition(user.ownership, OwnershipEvent::ReclaimForeignToPrimary);
                    if let Ok(after) = tag {
                        let mut record: UserStructT = user;
                        record.ownership = after;
                        proof {
                            lemma_occupied_update(self.users@, i as int, Some(record));
                        }
                        self.users[i] = Some(record);
                        copies.push(record);
                    }
                }
            }
            i += 1;
        }
        proof {
            assert(old(self).users@.take(i as int) =~= old(self).users@);
            assert(self@.records =~= old(self)@.after_reclaim().records);
        }
        copies
    }

    /// Deactivates every record.
    pub fn deactivate_users(&mut self)
        requires
            old(self)@.wf(),
        ensures
            final(self)@.wf(),
            final(self)@ == old(self)@.deactivated(),
    {
        let mut i: usize = 0;
        while i < self.users.len()
            invariant
                i <= self.users@.len(),
                self.users@.len() == old(self).users@.len(),
                old(self)@.wf(),
                self@.wf(),
                self.count == old(self).count,
                self.capacity == old(self).capacity,
                self.next_id == old(self).next_id,
                self.sessions == old(self).sessions,
                self.day == old(self).day,
                forall|j: int|
                    0 <= j < i ==> self.users@[j] == deactivate_slot(old(self).users@[j]),
                forall|j: int| i <= j < self.users@.len() ==> self.users@[j] == old(self).users@[j],
            decreases self.users@.len() - i,
        {
            let slot: Option<UserStructT> = self.users[i];
            if let Some(user) = slot {
                let mut record: UserStructT = user;
                record.is_active = 0;
                proof {
                    lemma_occupied_update(self.users@, i as int, Some(record));
                }
                self.users[i] = Some(record);
            }
            i += 1;
        }
        proof {
            assert(self@.records =~= old(self)@.deactivated().records);
        }
    }

    /// Handles to all records stored, in index order.
    pub fn get_user_reference_for_debugging(&self) -> (handles: Vec<UserHandle>)
        ensures
            handles@.len() == occupied_slots(self@.records).len(),
            forall|k: int|
                0 <= k < handles@.len() ==> (#[trigger] handles@[k]).slot()
                    == occupied_slots(self@.records)[k] && self@.resolve(handles@[k])
                    == self@.records[handles@[k].slot()] && self@.resolve(handles@[k]) is Some,
    {
        let mut handles: Vec<UserHandle> = Vec::new();
        let mut i: usize = 0;
        while i < self.users.len()
            invariant
                i <= self.users@.len(),
                handles@.len() == occupied_slots(self.users@.take(i as int)).len(),
                forall|k: int|
                    0 <= k < handles@.len() ==> (#[trigger] handles@[k]).slot()
                        == occupied_slots(self.users@.take(i as int))[k]
                        && self@.resolve(handles@[k]) == self@.records[handles@[k].slot()]
                        && self@.resolve(handles@[k]) is Some,
            decreases self.users@.len() - i,
        {
            proof {
                lemma_occupied_slots_step(self.users@, i as int);
            }
            if let Some(user) = &self.users[i] {
                handles.push(UserHandle { slot: i, user_id: user.user_id });
            }
            i += 1;
        }
        proof {
            assert(self.users@.take(i as int) =~= self.users@);
        }
        handles
    }

    /// Number of handles `get_user_reference_for_debugging` returns.
    pub fn get_non_null_ref_count(&self) -> (n: i32)
        requires
            self@.wf(),
        ensures
            n == self@.count,
            n == occupied_slots(self@.records).len(),
    {
        proof {
            lemma_occupied_slots(self.users@);
        }
        self.count
    }

    /// The lines that describe the records stored, in index order, for the
    /// caller to print.
    pub fn print_database(&self) -> (lines: Vec<String>)
        ensures
            lines@.len() == lines_of(self@.as_records()).len(),
            forall|k: int|
                0 <= k < lines@.len() ==> (#[trigger] lines@[k])@ == lines_of(
                    self@.as_records(),
                )[k],
    {
        let mut copies: Vec<Option<UserStruct>> = Vec::new();
        let mut i: usize = 0;
        while i < self.users.len()
            invariant
                i <= self.users@.len(),
                copies@.len() == i,
                forall|j: int| 0 <= j < i ==> copies@[j] == self@.as_records()[j],
            decreases self.users@.len() - i,
        {
            match &self.users[i] {
                Some(user) => copies.push(Some(user.to_record())),
                None => copies.push(None),
            }
            i += 1;
        }
        proof {
            assert(copies@ =~= self@.as_records());
        }
        describe_slots(&copies)
    }
}

/// There is one record the foreign store makes of given values.
pub proof fn lemma_fresh_foreign_user(
    username: Seq<u8>,
    email: Seq<u8>,
    user_id: i32,
    password: Seq<u8>,
)
    ensures
        fresh_foreign_user(username, email, user_id, password).is_fresh(
            username,
            email,
            user_id,
            password,
        ),
        forall|user: UserStructT|
            user.is_fresh(username, email, user_id, password) ==> user == fresh_foreign_user(
                username,
                email,
                user_id,
                password,
            ),
{
    lemma_fresh_user(username, email, user_id, password);
    let made = fresh_foreign_user(username, email, user_id, password);
    assert forall|user: UserStructT|
        user.is_fresh(username, email, user_id, password) implies user == made by {
        assert(user.username =~= made.username);
        assert(user.email =~= made.email);
        assert(user.password =~= made.password);
        assert(user.session_token =~= made.session_token);
    }
}

/// An insert leaves a well-formed store well-formed. When it is taken, the
/// record is in the first free slot under the next id, and no other slot
/// differs.
pub proof fn lemma_inserted(state: ForeignState, user: UserStructT)
    requires
        state.wf(),
    ensures
        state.inserted(user).wf(),
        state.inserted(user).records.len() == state.records.len(),
        state.takes_insert() ==> 0 <= first_free(state.records) < state.records.len()
            && state.records[first_free(state.records)] is None && state.inserted(
            user,
        ).records[first_free(state.records)] == Some(
            UserStructT { user_id: state.next_id as i32, ..user },
        ),
        forall|j: int|
            0 <= j < state.records.len() && (#[trigger] state.records[j]) is Some
                ==> state.inserted(user).records[j] == state.records[j],
        forall|j: int|
            0 <= j < state.records.len() && j != first_free(state.records) ==> (
            #[trigger] state.inserted(user).records[j]) == state.records[j],
{
    if state.takes_insert() {
        lemma_free_exists(state.records);
        lemma_occupied_update(
            state.records,
            first_free(state.records),
            Some(UserStructT { user_id: state.next_id as i32, ..user }),
        );
    }
}

/// The maintenance leaves a well-formed store well-formed, and a settled one
/// settled.
pub proof fn lemma_maintained(state: ForeignState, dc: int)
    requires
        state.wf(),
    ensures
        state.maintained(dc).wf(),
        state.maintained(dc).day == dc,
        state.maintained(dc).sessions == state.sessions,
        state.settled() ==> state.maintained(dc).settled(),
{
    let decayed = state.decayed();
    assert(decayed.wf()) by {
        assert forall|i: int|
            0 <= i < decayed.records.len() && (#[trigger] decayed.records[i]) is Some implies 1
            <= decayed.records[i]->0.user_id < decayed.next_id by {
            assert(state.records[i] is Some);
        }
        assert forall|i: int, j: int|
            0 <= i < j < decayed.records.len() && (#[trigger] decayed.records[i]) is Some && (
            #[trigger] decayed.records[j]) is Some implies decayed.records[i]->0.user_id
            != decayed.records[j]->0.user_id by {
            assert(state.records[i] is Some);
            assert(state.records[j] is Some);
        }
    }
    let after = decayed.compacted();
    lemma_packed(decayed.records);
    lemma_kept(decayed.records);
    let slots = occupied_slots(decayed.records);
    assert forall|a: int|
        0 <= a < after.records.len() && (#[trigger] after.records[a]) is Some implies
        1
        <= after.records[a]->0.user_id < after.next_id && (state.settled()
        ==> after.records[a]->0.ownership != OwnershipType::SHARED_C_PRIMARY) by {
        assert(decayed.records[slots[a]] == after.records[a]);
        assert(state.records[slots[a]] is Some);
    }
    assert forall|a: int, b: int|
        0 <= a < b < after.records.len() && (#[trigger] after.records[a]) is Some && (
        #[trigger] after.records[b]) is Some implies after.records[a]->0.user_id
        != after.records[b]->0.user_id by {
        assert(decayed.records[slots[a]] == after.records[a]);
        assert(decayed.records[slots[b]] == after.records[b]);
        assert(slots[a] < slots[b]);
    }
}

/// Every copy a reclaim hands out is of a record that was stored, is tagged
/// as the primary store's, and has the name of the record it is a copy of.
pub proof fn lemma_reclaimed(records: Seq<Option<UserStructT>>)
    ensures
        forall|k: int|
            0 <= k < reclaimed(records).len() ==> (#[trigger] reclaimed(records)[k]).ownership
                == OwnershipType::SHARED_RUST_PRIMARY && exists|i: int|
                0 <= i < records.len() && records[i] is Some && records[i]->0.ownership
                    == OwnershipType::SHARED_C_PRIMARY && reclaimed(records)[k] == (UserStructT {
                    ownership: OwnershipType::SHARED_RUST_PRIMARY,
                    ..records[i]->0
                }),
    decreases records.len(),
{
    if records.len() > 0 {
        let front = records.drop_last();
        lemma_reclaimed(front);
        assert forall|k: int| 0 <= k < reclaimed(records).len() implies (#[trigger] reclaimed(
            records,
        )[k]).ownership == OwnershipType::SHARED_RUST_PRIMARY && exists|i: int|
            0 <= i < records.len() && records[i] is Some && records[i]->0.ownership
                == OwnershipType::SHARED_C_PRIMARY && reclaimed(records)[k] == (UserStructT {
                ownership: OwnershipType::SHARED_RUST_PRIMARY,
                ..records[i]->0
            }) by {
            if k < reclaimed(front).len() {
                assert(reclaimed(records)[k] == reclaimed(front)[k]);
                let i = choose|i: int|
                    0 <= i < front.len() && front[i] is Some && front[i]->0.ownership
                        == OwnershipType::SHARED_C_PRIMARY && reclaimed(front)[k] == (UserStructT {
                        ownership: OwnershipType::SHARED_RUST_PRIMARY,
                        ..front[i]->0
                    });
                assert(records[i] == front[i]);
            } else {
                let i = records.len() - 1;
                assert(records[i] is Some);
            }
        }
    }
}

/// The token of a session that was just opened belongs to the user it was
/// opened for.
pub proof fn lemma_new_session_validates(
    state: ForeignState,
    token: [u8; MAX_SESSION_TOKEN_LEN],
    user_id: i32,
)
    ensures
        session_owner(state.with_session(token, user_id).sessions, text_of(token@))
            == user_id,
{
    let after = state.with_session(token, user_id).sessions;
    assert(after.last() == Session { token, user_id });
}

/// A token names its session for good: whatever sessions are opened later,
/// the token of the session with the serial number `k` is that of the user
/// the session was opened for.
pub proof fn lemma_token_names_its_session(state: ForeignState, k: int)
    requires
        state.wf(),
        0 <= k < state.sessions.len(),
    ensures
        session_owner(state.sessions, session_token_text(k as nat)) == state.sessions[k].user_id,
    decreases state.sessions.len(),
{
    let last = state.sessions.len() - 1;
    lemma_token_array(last as nat);
    lemma_session_token_text(last as nat);
    assert(state.sessions.last() == state.sessions[last]);
    if k != last {
        lemma_tokens_differ(k as nat, last as nat);
        let before = ForeignState { sessions: state.sessions.drop_last(), ..state };
        assert forall|i: int| 0 <= i < before.sessions.len() implies
            (#[trigger] before.sessions[i]).token
            == token_array(i as nat) by {
            assert(before.sessions[i] == state.sessions[i]);
        }
        lemma_token_names_its_session(before, k);
    }
}

} // verus!
