//! The directory's side of the boundary to the foreign store: strings in and
//! out, the ownership protocol, and errors in place of missing results.

use vstd::prelude::*;
use vstd::slice::slice_subrange;
use vstd::string::StringSliceAdditionalSpecFns;
use vstd::utf8::{decode_utf8, encode_utf8, valid_utf8};
use crate::error::StoreError;
use crate::foreign::{
    fresh_foreign_user, lemma_fresh_foreign_user, marshal, named_t, reclaimed, ForeignState,
    UserDatabaseT, UserHandle, UserStructT,
};
use crate::limits::{MAX_SESSION_TOKEN_LEN, MAX_USERS};
use crate::ownership::{transition, OwnershipEvent, OwnershipType};
use crate::primary::lines_of;
use crate::record::UserStruct;
use crate::session::{
    lemma_session_token_text, lemma_token_array, session_owner, session_token_text, token_array,
};
use crate::slots::lemma_first_index;
use crate::text::{
    ascii_chars, bytes_to_string, contains_nul, get_nullt_index_from_u8, has_nul,
    lemma_ascii_utf8, text_equals, text_of, utf8_lossy,
};

verus! {

/// A username together with the handle under which the foreign store was
/// last seen to hold its record.
pub struct UserReference {
    pub username: String,
    pub ptr: UserHandle,
}

impl UserReference {
    /// A reference to the record behind `ptr` under the name `username`.
    pub fn new(username: String, ptr: UserHandle) -> (r: UserReference)
        ensures
            r.username == username,
            r.ptr == ptr,
    {
        UserReference { username, ptr }
    }
}

/// The characters of the token of the session with the serial number
/// `serial`.
pub open spec fn token_chars(serial: nat) -> Seq<char> {
    ascii_chars(session_token_text(serial))
}

/// What sharing a record of the primary store does to the record. A record
/// of the primary store alone becomes shared with the foreign store
/// authoritative when the foreign store takes the insert; in every other case
/// the record stays as it is.
pub open spec fn shared_record(state: ForeignState, user: UserStruct) -> UserStruct {
    if user.ownership == OwnershipType::RUST_OWNED && state.takes_insert() {
        UserStruct { ownership: OwnershipType::SHARED_C_PRIMARY, ..user }
    } else {
        user
    }
}

/// What sharing a record of the primary store does to the foreign store: it
/// gets a copy of the record as shared, when the record is shared by this
/// call, and stays as it is otherwise.
pub open spec fn shared_state(state: ForeignState, user: UserStruct) -> ForeignState {
    if user.ownership == OwnershipType::RUST_OWNED && state.takes_insert() {
        state.inserted(marshal(UserStruct { ownership: OwnershipType::SHARED_C_PRIMARY, ..user }))
    } else {
        state
    }
}

/// The foreign store as the directory holds it.
pub struct DatabaseExtensions {
    db: UserDatabaseT,
}

impl View for DatabaseExtensions {
    type V = ForeignState;

    closed spec fn view(&self) -> ForeignState {
        self.db@
    }
}

impl DatabaseExtensions {
    /// A foreign store with the default number of slots that has been told of
    /// day `dc`.
    pub fn new(dc: i32) -> (ext: DatabaseExtensions)
        ensures
            ext@.wf(),
            ext@ == ForeignState::empty(MAX_USERS as int, dc as int),
    {
        DatabaseExtensions { db: UserDatabaseT::init_database(dc) }
    }

    /// A foreign store with `capacity` slots that has been told of day `dc`.
    pub fn with_capacity(capacity: usize, dc: i32) -> (ext: DatabaseExtensions)
        requires
            capacity <= i32::MAX,
        ensures
            ext@.wf(),
            ext@ == ForeignState::empty(capacity as int, dc as int),
    {
        DatabaseExtensions { db: UserDatabaseT::with_capacity(capacity, dc) }
    }

    /// Number of records in the foreign store.
    pub fn user_count(&self) -> (n: i32)
        ensures
            n == self@.count,
    {
        self.db.count()
    }

    /// Whether the foreign store would take an insert.
    pub fn has_room(&self) -> (r: bool)
        ensures
            r == self@.takes_insert(),
    {
        self.db.has_room()
    }

    /// The day the foreign store was last told of.
    pub fn day(&self) -> (n: i32)
        ensures
            n == self@.day,
    {
        self.db.day()
    }

    /// A copy of the record a handle refers to, carried over to the
    /// directory's representation.
    pub fn read_user(&self, user: &UserHandle) -> (record: Option<UserStruct>)
        ensures
            record is Some <==> self@.resolve(*user) is Some,
            record is Some ==> record->0 == self@.resolve(*user)->0@,
    {
        match self.db.read(user) {
            Some(found) => Some(found.to_record()),
            None => None,
        }
    }

    /// The password of the record a handle refers to, as a string.
    pub fn get_user_password(&self, user: &UserHandle) -> (password: Option<String>)
        ensures
            password is Some <==> self@.resolve(*user) is Some,
            password is Some ==> password->0@ == utf8_lossy(
                text_of(self@.resolve(*user)->0.password@),
            ),
            password is Some && valid_utf8(text_of(self@.resolve(*user)->0.password@))
                ==> password->0@ == decode_utf8(text_of(self@.resolve(*user)->0.password@)),
    {
        match self.db.get_password(user) {
            Some(buffer) => Some(bytes_to_string(buffer.as_slice())),
            None => None,
        }
    }

    /// Whether `password` is the password of the record a handle refers to:
    /// the text of its password buffer, byte for byte.
    pub fn password_matches(&self, user: &UserHandle, password: &str) -> (r: Option<bool>)
        ensures
            r is Some <==> self@.resolve(*user) is Some,
            r is Some ==> r->0 == (text_of(self@.resolve(*user)->0.password@)
                == password.spec_bytes()),
    {
        match self.db.get_password(user) {
            Some(buffer) => Some(text_equals(buffer.as_slice(), password.as_bytes())),
            None => None,
        }
    }

    /// A handle to the first record of the foreign store, in index order,
    /// whose username is `username`, case of ASCII letters aside.
    pub fn get_user_in_c_backend(&self, username: &str) -> (found: Option<UserHandle>)
        ensures
            found is Some <==> self@.lookup(username.spec_bytes()) is Some,
            found is Some ==> found->0 == self@.handle_of(username.spec_bytes())
                && found->0.slot() == self@.first_named(username.spec_bytes()) && self@.resolve(
                found->0,
            ) == self@.lookup(username.spec_bytes()),
    {
        self.db.find_user_by_username(username)
    }

    /// The id the foreign store gave to the record it took last, or 0 when it
    /// has taken none.
    pub fn get_last_user_id(&self) -> (id: i32)
        requires
            self@.wf(),
        ensures
            id == self@.next_id - 1,
    {
        self.db.next_id() - 1
    }

    /// Creates a user in the foreign store. A string with a zero byte in it
    /// cannot cross the boundary: the signup is rejected. A store that would
    /// not take the insert is full: the signup is dropped. Either way nothing
    /// changes.
    pub fn sync_user_to_c_backend(
        &mut self,
        username: &str,
        email: &str,
        user_id: i32,
        password: &str,
    ) -> (r: Result<(), StoreError>)
        requires
            old(self)@.wf(),
        ensures
            final(self)@.wf(),
            (has_nul(username.spec_bytes()) || has_nul(email.spec_bytes()) || has_nul(
                password.spec_bytes(),
            )) ==> r == Err::<(), StoreError>(StoreError::CreationFailure) && final(self)@ == old(
                self,
            )@,
            !(has_nul(username.spec_bytes()) || has_nul(email.spec_bytes()) || has_nul(
                password.spec_bytes(),
            )) && !old(self)@.takes_insert() ==> r == Err::<(), StoreError>(
                StoreError::CapacityExceeded,
            ) && final(self)@ == old(self)@,
            !(has_nul(username.spec_bytes()) || has_nul(email.spec_bytes()) || has_nul(
                password.spec_bytes(),
            )) && old(self)@.takes_insert() ==> r is Ok && final(self)@ == old(self)@.inserted(
                fresh_foreign_user(
                    username.spec_bytes(),
                    email.spec_bytes(),
                    user_id,
                    password.spec_bytes(),
                ),
            ),
    {
        if contains_nul(username) || contains_nul(email) || contains_nul(password) {
            return Err(StoreError::CreationFailure);
        }
        if !self.db.has_room() {
            return Err(StoreError::CapacityExceeded);
        }
        let user = UserDatabaseT::create_user(username, email, user_id, password);
        proof {
            lemma_fresh_foreign_user(
                username.spec_bytes(),
                email.spec_bytes(),
                user_id,
                password.spec_bytes(),
            );
        }
        self.db.add_user(user);
        Ok(())
    }

    /// Shares a record of the primary store with the foreign store. A record
    /// of the primary store alone is tagged as shared with the foreign store
    /// authoritative, and the foreign store gets a copy of it; when the
    /// foreign store would not take the copy, the record is not shared. A
    /// record that is shared already is left alone. A record of the foreign
    /// store alone has no business here: that is an ownership violation.
    pub fn sync_user_from_rust_db(&mut self, user: &mut UserStruct) -> (r: Result<(), StoreError>)
        requires
            old(self)@.wf(),
        ensures
            final(self)@.wf(),
            r is Ok <==> old(user).ownership != OwnershipType::C_OWNED,
            r is Err ==> r == Err::<(), StoreError>(StoreError::OwnershipViolation) && final(self)@
                == old(self)@ && *final(user) == *old(user),
            r is Ok ==> *final(user) == shared_record(old(self)@, *old(user)) && final(self)@
                == shared_state(old(self)@, *old(user)),
    {
        let before = user.ownership;
        match transition(before, OwnershipEvent::SharePrimaryToForeign) {
            Err(e) => Err(e),
            Ok(tag) => {
                if !before.shared() && self.db.has_room() {
                    user.ownership = tag;
                    let copy = UserStructT::from_record(user);
                    self.db.add_user(copy);
                }
                Ok(())
            },
        }
    }

    /// A record of the directory in the foreign store's representation.
    pub fn cast_user_struct(user: &UserStruct) -> (record: UserStructT)
        ensures
            record == marshal(*user),
    {
        UserStructT::from_record(user)
    }

    /// Opens a session for a user of the primary store and returns its
    /// token.
    pub fn create_session(&mut self, user: &UserStruct) -> (r: Result<String, StoreError>)
        requires
            old(self)@.wf(),
        ensures
            final(self)@.wf(),
            r is Ok,
            r->Ok_0@ == token_chars(old(self)@.sessions.len()),
            final(self)@ == old(self)@.session_opened(user.user_id),
    {
        let ghost serial = self@.sessions.len();
        let record = DatabaseExtensions::cast_user_struct(user);
        let token = self.db.create_user_session(&record);
        Ok(token_string(&token, Ghost(serial)))
    }

    /// The id of the user that the newest session with this token was issued
    /// to. A token of no session, or of a session of the user 0, is invalid.
    pub fn validate_session(&self, token: &str) -> (r: Result<i32, StoreError>)
        ensures
            session_owner(self@.sessions, token.spec_bytes()) != 0 ==> r == Ok::<i32, StoreError>(
                session_owner(self@.sessions, token.spec_bytes()),
            ),
            session_owner(self@.sessions, token.spec_bytes()) == 0 ==> r == Err::<i32, StoreError>(
                StoreError::SessionInvalid,
            ),
    {
        let user_id = self.db.validate_user_session(token.as_bytes());
        if user_id == 0 {
            Err(StoreError::SessionInvalid)
        } else {
            Ok(user_id)
        }
    }

    /// The same check for the token a record holds: the text of its token
    /// buffer.
    pub fn validate_session_of(&self, user: &UserStruct) -> (r: Result<i32, StoreError>)
        ensures
            session_owner(self@.sessions, text_of(user.session_token@)) != 0 ==> r == Ok::<
                i32,
                StoreError,
            >(session_owner(self@.sessions, text_of(user.session_token@))),
            session_owner(self@.sessions, text_of(user.session_token@)) == 0 ==> r == Err::<
                i32,
                StoreError,
            >(StoreError::SessionInvalid),
    {
        let end = get_nullt_index_from_u8(user.session_token.as_slice());
        let token = slice_subrange(user.session_token.as_slice(), 0, end);
        let user_id = self.db.validate_user_session(token);
        if user_id == 0 {
            Err(StoreError::SessionInvalid)
        } else {
            Ok(user_id)
        }
    }

    /// Logs a user of the foreign store in by name and returns the token of
    /// the session. A name that no record of the foreign store has is a
    /// lookup failure and changes nothing.
    pub fn login_user(&mut self, user_name: &str) -> (r: Result<String, StoreError>)
        requires
            old(self)@.wf(),
        ensures
            final(self)@.wf(),
            old(self)@.lookup(user_name.spec_bytes()) is None ==> r == Err::<String, StoreError>(
                StoreError::LookupFailure,
            ) && final(self)@ == old(self)@,
            old(self)@.lookup(user_name.spec_bytes()) is Some ==> r is Ok && r->Ok_0@
                == token_chars(old(self)@.sessions.len()) && final(self)@ == old(
                self,
            )@.logged_in_at(old(self)@.first_named(user_name.spec_bytes())),
    {
        let ghost serial = self@.sessions.len();
        proof {
            lemma_first_index(
                self@.records,
                named_t(user_name.spec_bytes()),
                0,
            );
        }
        match self.db.user_login(user_name) {
            Some(token) => Ok(token_string(&token, Ghost(serial))),
            None => Err(StoreError::LookupFailure),
        }
    }

    /// Logs the record a handle refers to in and returns the token of the
    /// session. A handle that resolves to nothing is a lookup failure and
    /// changes nothing.
    pub fn create_session_for_c_ptr(&mut self, user: &UserHandle) -> (r: Result<
        String,
        StoreError,
    >)
        requires
            old(self)@.wf(),
        ensures
            final(self)@.wf(),
            old(self)@.resolve(*user) is None ==> r == Err::<String, StoreError>(
                StoreError::LookupFailure,
            ) && final(self)@ == old(self)@,
            old(self)@.resolve(*user) is Some ==> r is Ok && r->Ok_0@ == token_chars(
                old(self)@.sessions.len(),
            ) && final(self)@ == old(self)@.logged_in_at(user.slot()),
    {
        let ghost serial = self@.sessions.len();
        match self.db.create_session_for(user) {
            Some(token) => Ok(token_string(&token, Ghost(serial))),
            None => Err(StoreError::LookupFailure),
        }
    }

    /// The reclaim half of a merge: a copy, tagged as the primary store's to
    /// release, of each shared record that the foreign store was
    /// authoritative for, in index order. The foreign store from then on
    /// treats each of them as the primary store's.
    pub fn get_all_user_references(&mut self) -> (copies: Vec<Box<UserStruct>>)
        requires
            old(self)@.wf(),
        ensures
            final(self)@.wf(),
            final(self)@ == old(self)@.after_reclaim(),
            copies@.len() == reclaimed(old(self)@.records).len(),
            forall|k: int|
                0 <= k < copies@.len() ==> *(#[trigger] copies@[k]) == reclaimed(
                    old(self)@.records,
                )[k]@,
    {
        let taken = self.db.reclaim_shared();
        let mut copies: Vec<Box<UserStruct>> = Vec::new();
        let mut i: usize = 0;
        while i < taken.len()
            invariant
                i <= taken@.len(),
                copies@.len() == i,
                forall|k: int| 0 <= k < i ==> *(#[trigger] copies@[k]) == taken@[k]@,
            decreases taken@.len() - i,
        {
            copies.push(Box::new(taken[i].to_record()));
            i += 1;
        }
        copies
    }

    /// Tells the foreign store of the day and lets it do its daily
    /// maintenance.
    pub fn increment_day(&mut self, dc: i32)
        requires
            old(self)@.wf(),
        ensures
            final(self)@.wf(),
            final(self)@ == old(self)@.maintained(dc as int),
    {
        self.db.update_database_daily(dc);
    }

    /// Deactivates every record of the foreign store.
    pub fn deactivate_idle_users(&mut self)
        requires
            old(self)@.wf(),
        ensures
            final(self)@.wf(),
            final(self)@ == old(self)@.deactivated(),
    {
        self.db.deactivate_users();
    }

    /// The lines that describe the records of the foreign store, in index
    /// order, for the caller to print.
    pub fn print_database_full(&self) -> (lines: Vec<String>)
        ensures
            lines@.len() == lines_of(self@.as_records()).len(),
            forall|k: int|
                0 <= k < lines@.len() ==> (#[trigger] lines@[k])@ == lines_of(
                    self@.as_records(),
                )[k],
    {
        self.db.print_database()
    }
}

/// A foreign store that has been told of the day in `dc`.
pub fn initialize_enhanced_database(dc: &i32) -> (ext: DatabaseExtensions)
    ensures
        ext@.wf(),
        ext@ == ForeignState::empty(MAX_USERS as int, *dc as int),
{
    DatabaseExtensions::new(*dc)
}

/// The string of a token buffer that was just issued.
fn token_string(token: &[u8; MAX_SESSION_TOKEN_LEN], Ghost(serial): Ghost<nat>) -> (s: String)
    requires
        *token == token_array(serial),
    ensures
        s@ == token_chars(serial),
{
    proof {
        lemma_token_array(serial);
        lemma_session_token_text(serial);
        lemma_token_chars(serial);
    }
    bytes_to_string(token.as_slice())
}

/// A token as a string is as long as its text and not empty, and its bytes
/// are its text.
pub proof fn lemma_token_chars(serial: nat)
    ensures
        token_chars(serial).len() == 20,
        encode_utf8(token_chars(serial)) == session_token_text(serial),
        valid_utf8(session_token_text(serial)),
        decode_utf8(session_token_text(serial)) == token_chars(serial),
{
    lemma_session_token_text(serial);
    lemma_ascii_utf8(session_token_text(serial));
}

} // verus!
