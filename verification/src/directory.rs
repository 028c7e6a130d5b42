//! The directory over both stores: signups and their placement, logins, the
//! merge, and the daily schedule.

use vstd::prelude::*;
use vstd::slice::slice_subrange;
use vstd::string::StringSliceAdditionalSpecFns;
use vstd::utf8::encode_utf8;
use crate::error::StoreError;
use crate::foreign::{
    fresh_foreign_user, lemma_fresh_foreign_user, lemma_inserted, lemma_maintained,
    lemma_reclaimed, UserHandle,
};
use crate::laws::lemma_login_resets_inactivity;
use crate::limits::{MAX_USERS, MERGE_PERIOD, PENDING_LOAD_THRESHOLD};
use crate::merge_laws::{
    evolves, lemma_merge_inserts_nothing, lemma_merge_keeps_names_and_sharing, usernames,
};
use crate::ownership::{transition, Backend, OwnershipEvent, OwnershipType};
use crate::primary::{
    add_user, exactly_named, find_slot_by_username, find_slot_named, find_user_by_username,
    first_named, lemma_decayed_all_releasable, lines_of, lookup, named, print_database, table_wf,
    update_database_daily, user_login, UserDatabase,
};
use crate::record::{fresh_user, lemma_fresh_user, lemma_same_but_for_id, UserStruct};
use crate::session::lemma_token_array;
use crate::slots::{
    first_index, lemma_first_index, lemma_first_index_is, lemma_free_exists,
    lemma_occupied_update,
};
use crate::state::{
    accepted, cached_as, initial_state, invalid_sessions, lemma_flush_from, placement,
    reclaimed_records, take_over_slot, with_token, CachedReference, DirectoryState, Signup,
};
use crate::text::{
    contains_nul, get_nullt_index_from_u8, same_string, string_to_bytes, text_equals, text_of,
};
use crate::wrapper::{lemma_token_chars, token_chars, DatabaseExtensions, UserReference};

verus! {

/// A signup that waits for the next flush.
pub struct UserInfoT {
    email: String,
    username: String,
    password: String,
}

impl View for UserInfoT {
    type V = Signup;

    closed spec fn view(&self) -> Signup {
        Signup {
            username: encode_utf8(self.username@),
            email: encode_utf8(self.email@),
            password: encode_utf8(self.password@),
        }
    }
}

/// What happened on one day, for the caller to log.
pub struct DayReport {
    /// How each signup of the flushed queue ended, in queue order.
    pub signups: Vec<Result<(), StoreError>>,
    /// The ids of the active users of the primary store whose session was
    /// found invalid.
    pub invalid_sessions: Vec<i32>,
    /// Whether the stores were merged.
    pub merged: bool,
}

/// The directory.
pub struct EnhancedStudentDatabase {
    rust_db: UserDatabase,
    c_extensions: DatabaseExtensions,
    user_references: Vec<UserReference>,
    session_tokens: Vec<String>,
    pending_requests: Vec<UserInfoT>,
    _day_counter: i32,
    c_allocated_users: Vec<i32>,
}

/// The signups of a queue, as the contracts speak of them.
pub closed spec fn signups_of(queue: Seq<UserInfoT>) -> Seq<Signup> {
    Seq::new(queue.len(), |i: int| queue[i]@)
}

/// The tokens of a list of issued tokens, as the contracts speak of them.
pub closed spec fn tokens_of(issued: Seq<String>) -> Seq<Seq<char>> {
    Seq::new(issued.len(), |i: int| issued[i]@)
}

/// The references of a cache, as the contracts speak of them.
pub closed spec fn references_of(cache: Seq<UserReference>) -> Seq<CachedReference> {
    Seq::new(
        cache.len(),
        |i: int| CachedReference { username: cache[i].username@, handle: cache[i].ptr },
    )
}

impl View for EnhancedStudentDatabase {
    type V = DirectoryState;

    closed spec fn view(&self) -> DirectoryState {
        DirectoryState {
            users: self.rust_db.users@,
            count: self.rust_db.count as int,
            capacity: self.rust_db.capacity as int,
            foreign: self.c_extensions@,
            pending: signups_of(self.pending_requests@),
            day: self._day_counter as int,
            tokens: tokens_of(self.session_tokens@),
            references: references_of(self.user_references@),
            foreign_ids: self.c_allocated_users@,
        }
    }
}

/// Where a signup goes; see `placement`.
pub fn choose_backend(pending_count: usize, count: i32, capacity: i32) -> (backend: Backend)
    ensures
        backend == placement(pending_count as int, count as int, capacity as int),
{
    if pending_count > PENDING_LOAD_THRESHOLD || count >= capacity {
        Backend::Foreign
    } else {
        Backend::Primary
    }
}

/// Index of the first slot whose record has exactly the username `username`,
/// byte for byte, or the number of slots.
pub fn find_slot_by_exact_name(db: &UserDatabase, username: &str) -> (idx: usize)
    ensures
        idx == first_index(db.users@, exactly_named(username.spec_bytes()), 0),
        idx <= db.users@.len(),
        idx < db.users@.len() ==> db.users@[idx as int] is Some && text_of(
            db.users@[idx as int]->0.username@,
        ) == username.spec_bytes(),
{
    let mut i: usize = 0;
    while i < db.users.len()
        invariant
            i <= db.users@.len(),
            forall|j: int|
                0 <= j < i ==> !exactly_named(username.spec_bytes())(#[trigger] db.users@[j]),
        decreases db.users@.len() - i,
    {
        if let Some(user) = &db.users[i] {
            if text_equals(user.username.as_slice(), username.as_bytes()) {
                proof {
                    lemma_first_index_is(
                        db.users@,
                        exactly_named(username.spec_bytes()),
                        i as int,
                    );
                }
                return i;
            }
        }
        i += 1;
    }
    proof {
        lemma_first_index_is(db.users@, exactly_named(username.spec_bytes()), i as int);
    }
    i
}

impl EnhancedStudentDatabase {
    /// A directory with two empty stores of the default size, on day 0.
    pub fn new() -> (db: EnhancedStudentDatabase)
        ensures
            db@.wf(),
            db@ == initial_state(MAX_USERS as int, MAX_USERS as int),
    {
        EnhancedStudentDatabase::with_capacities(MAX_USERS, MAX_USERS)
    }

    /// A directory with two empty stores of the given sizes, on day 0.
    pub fn with_capacities(primary_capacity: usize, foreign_capacity: usize) -> (db:
        EnhancedStudentDatabase)
        requires
            primary_capacity <= i32::MAX,
            foreign_capacity <= i32::MAX,
        ensures
            db@.wf(),
            db@ == initial_state(primary_capacity as int, foreign_capacity as int),
    {
        let dc: i32 = 0;
        let c_extensions = DatabaseExtensions::with_capacity(foreign_capacity, dc);
        let rust_db = UserDatabase::with_capacity(primary_capacity);
        let db = EnhancedStudentDatabase {
            rust_db,
            user_references: Vec::new(),
            session_tokens: Vec::new(),
            pending_requests: Vec::new(),
            _day_counter: dc,
            c_extensions,
            c_allocated_users: Vec::new(),
        };
        proof {
            let init = initial_state(primary_capacity as int, foreign_capacity as int);
            assert(db@.users =~= init.users);
            assert(db@.pending =~= init.pending);
            assert(db@.tokens =~= init.tokens);
            assert(db@.references =~= init.references);
            assert(db@.foreign_ids =~= init.foreign_ids);
        }
        db
    }

    /// Queues a signup for the next flush.
    pub fn enqueue_user(&mut self, username: String, email: String, password: String) -> (r:
        Result<(), StoreError>)
        ensures
            r is Ok,
            final(self)@ == (DirectoryState {
                pending: old(self)@.pending.push(
                    Signup {
                        username: encode_utf8(username@),
                        email: encode_utf8(email@),
                        password: encode_utf8(password@),
                    },
                ),
                ..old(self)@
            }),
    {
        let user_info = UserInfoT { email, username, password };
        self.pending_requests.push(user_info);
        proof {
            assert(self@.pending =~= old(self)@.pending.push(user_info@));
        }
        Ok(())
    }

    /// Signs a user up. The signup is placed as `placement` says, with
    /// `pending_count` the number of signups of its batch that are still
    /// pending, this one included.
    pub fn add_user_with_sync(
        &mut self,
        username: &str,
        email: &str,
        password: &str,
        pending_count: usize,
    ) -> (r: Result<(), StoreError>)
        requires
            old(self)@.wf(),
        ensures
            final(self)@.wf(),
            r == old(self)@.signup_result(
                Signup {
                    username: username.spec_bytes(),
                    email: email.spec_bytes(),
                    password: password.spec_bytes(),
                },
                pending_count as int,
            ),
            final(self)@ == old(self)@.signed_up(
                Signup {
                    username: username.spec_bytes(),
                    email: email.spec_bytes(),
                    password: password.spec_bytes(),
                },
                pending_count as int,
            ),
    {
        if contains_nul(username) || contains_nul(email) || contains_nul(password) {
            return Err(StoreError::CreationFailure);
        }
        match choose_backend(pending_count, self.rust_db.count, self.rust_db.capacity) {
            Backend::Foreign => {
                proof {
                    lemma_fresh_foreign_user(
                        username.spec_bytes(),
                        email.spec_bytes(),
                        0,
                        password.spec_bytes(),
                    );
                    lemma_inserted(
                        self@.foreign,
                        fresh_foreign_user(
                            username.spec_bytes(),
                            email.spec_bytes(),
                            0,
                            password.spec_bytes(),
                        ),
                    );
                }
                match self.c_extensions.sync_user_to_c_backend(username, email, 0, password) {
                    Err(e) => Err(e),
                    Ok(()) => {
                        let id = self.c_extensions.get_last_user_id();
                        self.c_allocated_users.push(id);
                        Ok(())
                    },
                }
            },
            Backend::Primary => {
                let mut user = self.rust_db.create(username, email, password);
                if let Ok(tag) = transition(user.ownership, OwnershipEvent::CreateInPrimary) {
                    user.ownership = tag;
                }
                proof {
                    lemma_fresh_user(
                        username.spec_bytes(),
                        email.spec_bytes(),
                        self.rust_db.count,
                        password.spec_bytes(),
                    );
                    lemma_same_but_for_id(
                        *user,
                        fresh_user(
                            username.spec_bytes(),
                            email.spec_bytes(),
                            0,
                            password.spec_bytes(),
                        ),
                    );
                    lemma_fresh_user(
                        username.spec_bytes(),
                        email.spec_bytes(),
                        0,
                        password.spec_bytes(),
                    );
                    lemma_free_exists(self.rust_db.users@);
                }
                let added = add_user(&mut self.rust_db, user);
                Ok(())
            },
        }
    }

    /// Flushes the queue: the signups that wait are signed up in queue order,
    /// each with the number of signups from itself on as its pending count,
    /// and the queue is left empty. Returns how each signup ended. With no
    /// eviction in between, the two stores together hold one record more for
    /// each accepted signup.
    pub fn sync_database(&mut self) -> (results: Vec<Result<(), StoreError>>)
        requires
            old(self)@.wf(),
        ensures
            final(self)@.wf(),
            final(self)@ == old(self)@.flushed(),
            results@ == old(self)@.flush_outcome(),
            results@.len() == old(self)@.pending.len(),
            final(self)@.total_users() == old(self)@.total_users() + accepted(results@),
            final(self)@.day == old(self)@.day,
            final(self)@.pending.len() == 0,
    {
        let mut drained_users: Vec<UserInfoT> = Vec::new();
        core::mem::swap(&mut self.pending_requests, &mut drained_users);
        let ghost entries = old(self)@.pending;
        let ghost start = old(self)@.drained();
        proof {
            assert(self@.pending =~= Seq::<Signup>::empty());
            assert(self@ == start);
            lemma_flush_from(start, entries, 0);
        }
        let mut results: Vec<Result<(), StoreError>> = Vec::new();
        let mut i: usize = 0;
        while i < drained_users.len()
            invariant
                i <= drained_users@.len(),
                drained_users@.len() == entries.len(),
                forall|k: int|
                    0 <= k < entries.len() ==> (#[trigger] drained_users@[k])@ == entries[k],
                self@.wf(),
                self@.flush_from(entries, i as int) == start.flush_from(entries, 0),
                results@ + self@.flush_results(entries, i as int) == start.flush_results(
                    entries,
                    0,
                ),
            decreases drained_users@.len() - i,
        {
            let user = &drained_users[i];
            let pending_count: usize = drained_users.len() - i;
            let ghost before = self@;
            let r = self.add_user_with_sync(
                user.username.as_str(),
                user.email.as_str(),
                user.password.as_str(),
                pending_count,
            );
            proof {
                assert(user@ == entries[i as int]);
                assert(self@ == before.signed_up(entries[i as int], entries.len() - i));
                assert(results@.push(r) + self@.flush_results(entries, i + 1) =~= results@
                    + before.flush_results(entries, i as int));
            }
            results.push(r);
            i += 1;
        }
        proof {
            assert(results@ =~= start.flush_results(entries, 0));
        }
        results
    }

    /// The first record of `db`, in index order, whose username is
    /// exactly `username`, byte for byte.
    pub fn find_user_by_name<'a>(&self, db: &'a UserDatabase, username: &str) -> (found: Option<
        &'a UserStruct,
    >)
        ensures
            first_index(db.users@, exactly_named(username.spec_bytes()), 0) < db.users@.len()
                ==> found is Some && *found->0 == db.users@[first_index(
                db.users@,
                exactly_named(username.spec_bytes()),
                0,
            )]->0,
            first_index(db.users@, exactly_named(username.spec_bytes()), 0) >= db.users@.len()
                ==> found is None,
    {
        let idx = find_slot_by_exact_name(db, username);
        if idx < db.users.len() {
            match &db.users[idx] {
                Some(user) => Some(user),
                None => None,
            }
        } else {
            None
        }
    }

    /// A copy of the record named `username`, case of ASCII letters aside, in
    /// the combined view of both stores: the first such record of the primary
    /// store, or failing that the first such record of the foreign store.
    pub fn find_user_by_username(&self, username: &str) -> (found: Option<UserStruct>)
        ensures
            found == self@.find(username.spec_bytes()),
    {
        match find_user_by_username(&self.rust_db, username) {
            Some(user) => Some(*user),
            None => {
                match self.c_extensions.get_user_in_c_backend(username) {
                    Some(handle) => self.c_extensions.read_user(&handle),
                    None => None,
                }
            },
        }
    }

    /// Marks a login in the primary store: the first record whose username is
    /// `user_name`, case of ASCII letters aside, is no longer inactive.
    pub fn activate_user(&mut self, user_name: &str)
        requires
            old(self)@.wf(),
        ensures
            final(self)@.wf(),
            lookup(old(self)@.users, user_name.spec_bytes()) is None
                ==> final(self)@ == old(self)@,
            lookup(old(self)@.users, user_name.spec_bytes()) matches Some(user)
                ==> final(self)@ == (DirectoryState {
                users: old(self)@.users.update(
                    first_named(old(self)@.users, user_name.spec_bytes()),
                    Some(UserStruct { inactivity_count: 0, ..user }),
                ),
                ..old(self)@
            }),
    {
        proof {
            lemma_first_index(self@.users, named(user_name.spec_bytes()), 0);
        }
        user_login(&mut self.rust_db, user_name);
    }

    /// Logs a user in. The record is looked up in the primary store by name,
    /// then among the cached references, then in the foreign store by name;
    /// both stores compare names without regard to the case of ASCII letters.
    /// A name that no record has is a lookup failure; a password that is not
    /// the text of the record's password buffer is an authentication failure;
    /// and otherwise a session is opened and its token returned.
    pub fn login_user(&mut self, user_name: &str, password: &str) -> (r: Result<String, StoreError>)
        requires
            old(self)@.wf(),
        ensures
            final(self)@.wf(),
            final(self)@ == old(self)@.after_login(user_name@, password.spec_bytes()),
            r is Ok <==> old(self)@.credentials_match(user_name@, password.spec_bytes()),
            r is Ok ==> r->Ok_0@ == token_chars(old(self)@.foreign.sessions.len())
                && r->Ok_0@.len() > 0,
            r == Err::<String, StoreError>(StoreError::AuthFailure) <==> old(self)@.subject(
                user_name@,
            ) is Some && !old(self)@.credentials_match(user_name@, password.spec_bytes()),
            r == Err::<String, StoreError>(StoreError::LookupFailure) <==> old(self)@.subject(
                user_name@,
            ) is None,
            r is Ok ==> final(self)@.record_at(
                old(self)@.subject(user_name@)->0,
            ).inactivity_count == 0,
    {
        proof {
            lemma_token_chars(self@.foreign.sessions.len());
            if self@.login_result(user_name@, password.spec_bytes()) is Ok {
                lemma_login_resets_inactivity(
                    self@,
                    user_name@,
                    password.spec_bytes(),
                );
            }
        }
        let idx = find_slot_by_username(&self.rust_db, user_name);
        if idx < self.rust_db.users.len() {
            let slot: Option<UserStruct> = self.rust_db.users[idx];
            if let Some(user) = slot {
                if !text_equals(user.password.as_slice(), password.as_bytes()) {
                    return Err(StoreError::AuthFailure);
                }
                let ghost serial = self@.foreign.sessions.len();
                match self.c_extensions.create_session(&user) {
                    Err(e) => {
                        return Err(e);
                    },
                    Ok(token) => {
                        let mut updated: UserStruct = user;
                        updated.session_token = string_to_bytes(token.clone());
                        updated.inactivity_count = 0;
                        updated.is_active = 1;
                        proof {
                            lemma_token_chars(serial);
                            lemma_token_array(serial);
                            lemma_occupied_update(
                                self.rust_db.users@,
                                idx as int,
                                Some(updated),
                            );
                        }
                        self.rust_db.users[idx] = Some(updated);
                        self.remember_token(&token);
                        return Ok(token);
                    },
                }
            }
        }
        let k = self.find_reference(user_name);
        if k < self.user_references.len() {
            let handle: UserHandle = self.user_references[k].ptr;
            match self.c_extensions.password_matches(&handle, password) {
                Some(true) => {
                    match self.c_extensions.create_session_for_c_ptr(&handle) {
                        Err(e) => {
                            return Err(e);
                        },
                        Ok(token) => {
                            self.remember_token(&token);
                            return Ok(token);
                        },
                    }
                },
                Some(false) => {
                    return Err(StoreError::AuthFailure);
                },
                None => {},
            }
        }
        match self.c_extensions.get_user_in_c_backend(user_name) {
            None => Err(StoreError::LookupFailure),
            Some(handle) => {
                self.cache_reference(k, user_name, handle);
                match self.c_extensions.password_matches(&handle, password) {
                    Some(true) => {
                        match self.c_extensions.login_user(user_name) {
                            Err(e) => Err(e),
                            Ok(token) => {
                                self.remember_token(&token);
                                Ok(token)
                            },
                        }
                    },
                    _ => Err(StoreError::AuthFailure),
                }
            },
        }
    }

    /// Index of the first cached reference under `name`, or the number of
    /// references.
    fn find_reference(&self, name: &str) -> (k: usize)
        ensures
            k == self@.cached_slot(name@),
            k <= self.user_references@.len(),
            self.user_references@.len() == self@.references.len(),
    {
        let mut i: usize = 0;
        while i < self.user_references.len()
            invariant
                i <= self.user_references@.len(),
                self.user_references@.len() == self@.references.len(),
                forall|j: int| 0 <= j < i ==> !cached_as(name@)(#[trigger] self@.references[j]),
            decreases self.user_references@.len() - i,
        {
            if same_string(self.user_references[i].username.as_str(), name) {
                proof {
                    lemma_first_index_is(self@.references, cached_as(name@), i as int);
                }
                return i;
            }
            i += 1;
        }
        proof {
            lemma_first_index_is(self@.references, cached_as(name@), i as int);
        }
        i
    }

    /// Puts a reference into the cache under `name`: in place of the
    /// reference at `k`, or as a new one when `k` is the number of
    /// references.
    fn cache_reference(&mut self, k: usize, name: &str, handle: UserHandle)
        requires
            k <= old(self)@.references.len(),
        ensures
            final(self)@ == (DirectoryState {
                references: if k < old(self)@.references.len() {
                    old(self)@.references.update(
                        k as int,
                        CachedReference { username: name@, handle },
                    )
                } else {
                    old(self)@.references.push(CachedReference { username: name@, handle })
                },
                ..old(self)@
            }),
    {
        let reference = UserReference::new(name.to_owned(), handle);
        if k < self.user_references.len() {
            self.user_references[k] = reference;
        } else {
            self.user_references.push(reference);
        }
        proof {
            let found = CachedReference { username: name@, handle };
            if k < old(self)@.references.len() {
                assert(self@.references =~= old(self)@.references.update(k as int, found));
            } else {
                assert(self@.references =~= old(self)@.references.push(found));
            }
        }
    }

    /// Adds a token to the issued ones unless it is there.
    fn remember_token(&mut self, token: &String)
        ensures
            final(self)@ == (DirectoryState {
                tokens: with_token(old(self)@.tokens, token@),
                ..old(self)@
            }),
    {
        let mut i: usize = 0;
        while i < self.session_tokens.len()
            invariant
                i <= self.session_tokens@.len(),
                self@ == old(self)@,
                self.session_tokens@.len() == self@.tokens.len(),
                forall|j: int| 0 <= j < i ==> self@.tokens[j] != token@,
            decreases self.session_tokens@.len() - i,
        {
            if same_string(self.session_tokens[i].as_str(), token.as_str()) {
                assert(self@.tokens[i as int] == token@);
                return ;
            }
            i += 1;
        }
        self.session_tokens.push(token.clone());
        proof {
            assert(self@.tokens =~= old(self)@.tokens.push(token@));
        }
    }

    /// Merges the two stores. First every record of the primary store that
    /// is not shared yet is shared with the foreign store, which gets a copy
    /// of it and becomes authoritative. Then the primary store reclaims: on
    /// both sides every shared record that the foreign store was
    /// authoritative for becomes the primary store's to release, and a copy
    /// of such a record whose name the primary store does not hold is
    /// inserted there. A merge never fails on a well-formed directory; it
    /// changes no username, takes no record away, and turns no shared record
    /// back into an unshared one.
    pub fn join_databases(&mut self) -> (r: Result<(), StoreError>)
        requires
            old(self)@.stores_wf(),
        ensures
            r is Ok,
            final(self)@.stores_wf(),
            final(self)@ == old(self)@.merged(),
            final(self)@.day == old(self)@.day,
            final(self)@.foreign.day == old(self)@.foreign.day,
            final(self)@.foreign.sessions == old(self)@.foreign.sessions,
            final(self)@.pending == old(self)@.pending,
            final(self)@.count == old(self)@.count,
            usernames(final(self)@) == usernames(old(self)@),
            evolves(old(self)@, final(self)@),
    {
        proof {
            lemma_merge_keeps_names_and_sharing(self@);
            lemma_merge_inserts_nothing(self@);
        }
        let mut i: usize = 0;
        while i < self.rust_db.users.len()
            invariant
                i <= self.rust_db.users@.len(),
                self.rust_db.users@.len() == old(self).rust_db.users@.len(),
                table_wf(self@.users, self@.count, self@.capacity),
                self@.foreign.wf(),
                self@.day == old(self)@.day,
                self@.foreign.day == old(self)@.foreign.day,
                self@.foreign.sessions == old(self)@.foreign.sessions,
                self@.pending == old(self)@.pending,
                forall|j: int|
                    0 <= j < self@.users.len() && (#[trigger] self@.users[j]) is Some
                        ==> self@.users[j]->0.ownership != OwnershipType::C_OWNED,
                forall|j: int|
                    i <= j < self@.users.len() && (#[trigger] self@.users[j]) is Some
                        ==> self@.users[j]->0.ownership.authority() == Backend::Primary,
                self@.share_from(i as int) == old(self)@.share_from(0),
            decreases self.rust_db.users@.len() - i,
        {
            let slot: Option<UserStruct> = self.rust_db.users[i];
            let ghost before = self@;
            if let Some(user) = slot {
                let mut shared: UserStruct = user;
                match self.c_extensions.sync_user_from_rust_db(&mut shared) {
                    Err(e) => {
                        return Err(e);
                    },
                    Ok(()) => {
                        proof {
                            lemma_occupied_update(
                                self.rust_db.users@,
                                i as int,
                                Some(shared),
                            );
                        }
                        self.rust_db.users[i] = Some(shared);
                    },
                }
            }
            proof {
                assert(self@ == before.share_slot(i as int));
            }
            i += 1;
        }
        let ghost after_sharing = self@;
        let copies = self.c_extensions.get_all_user_references();
        let mut j: usize = 0;
        while j < self.rust_db.users.len()
            invariant
                j <= self.rust_db.users@.len(),
                self.rust_db.users@.len() == after_sharing.users.len(),
                table_wf(self@.users, self@.count, self@.capacity),
                self@.foreign == after_sharing.foreign.after_reclaim(),
                self@.count == after_sharing.count,
                self@.capacity == after_sharing.capacity,
                self@.pending == after_sharing.pending,
                self@.day == after_sharing.day,
                self@.tokens == after_sharing.tokens,
                self@.references == after_sharing.references,
                self@.foreign_ids == after_sharing.foreign_ids,
                forall|k: int|
                    0 <= k < after_sharing.users.len()
                        && (#[trigger] after_sharing.users[k]) is Some
                        ==> after_sharing.users[k]->0.ownership != OwnershipType::C_OWNED,
                forall|k: int|
                    0 <= k < j ==> self@.users[k] == take_over_slot(after_sharing.users[k]),
                forall|k: int|
                    j <= k < self@.users.len() ==> self@.users[k] == after_sharing.users[k],
            decreases self.rust_db.users@.len() - j,
        {
            let slot: Option<UserStruct> = self.rust_db.users[j];
            let ghost before = self@;
            if let Some(user) = slot {
                if user.ownership == OwnershipType::SHARED_C_PRIMARY {
                    if let Ok(tag) = transition(
                        user.ownership,
                        OwnershipEvent::ReclaimForeignToPrimary,
                    ) {
                        let mut taken: UserStruct = user;
                        taken.ownership = tag;
                        proof {
                            lemma_occupied_update(
                                self.rust_db.users@,
                                j as int,
                                Some(taken),
                            );
                        }
                        self.rust_db.users[j] = Some(taken);
                    }
                }
            }
            j += 1;
        }
        proof {
            assert(self@.users =~= after_sharing.taken_over().users);
            assert(self@ == after_sharing.taken_over());
            lemma_reclaimed(after_sharing.foreign.records);
        }
        let ghost adopted = reclaimed_records(after_sharing.foreign.records);
        let mut k: usize = 0;
        while k < copies.len()
            invariant
                k <= copies@.len(),
                copies@.len() == adopted.len(),
                forall|n: int| 0 <= n < copies@.len() ==> *(#[trigger] copies@[n]) == adopted[n],
                forall|n: int|
                    0 <= n < adopted.len() ==> (#[trigger] adopted[n]).ownership
                        == OwnershipType::SHARED_RUST_PRIMARY,
                self@.stores_wf(),
                self@.day == after_sharing.day,
                self@.foreign.day == after_sharing.foreign.day,
                self@.foreign.sessions == after_sharing.foreign.sessions,
                self@.pending == after_sharing.pending,
                self@.adopt_from(adopted, k as int) == after_sharing.taken_over().adopt_from(
                    adopted,
                    0,
                ),
            decreases copies@.len() - k,
        {
            let copy: UserStruct = *copies[k];
            let ghost before = self@;
            let end = get_nullt_index_from_u8(copy.username.as_slice());
            let name = slice_subrange(copy.username.as_slice(), 0, end);
            let at = find_slot_named(&self.rust_db, name);
            if at >= self.rust_db.users.len() && self.rust_db.count < self.rust_db.capacity {
                proof {
                    lemma_first_index(self@.users, named(name@), 0);
                    lemma_free_exists(self@.users);
                }
                let added = add_user(&mut self.rust_db, Box::new(copy));
            }
            proof {
                lemma_first_index(before.users, named(name@), 0);
                assert(self@ == before.adopt(adopted[k as int]));
            }
            k += 1;
        }
        Ok(())
    }

    /// Checks the session of every active record of the primary store with
    /// the foreign store. Returns the ids of the records whose token is of no
    /// session, in index order; nothing is changed on their account.
    pub fn validate_active_user_session(&self) -> (invalid: Vec<i32>)
        ensures
            invalid@ == invalid_sessions(self@.users, self@.foreign.sessions),
    {
        let mut invalid: Vec<i32> = Vec::new();
        let mut i: usize = 0;
        while i < self.rust_db.users.len()
            invariant
                i <= self.rust_db.users@.len(),
                invalid@ == invalid_sessions(
                    self.rust_db.users@.take(i as int),
                    self@.foreign.sessions,
                ),
            decreases self.rust_db.users@.len() - i,
        {
            proof {
                assert(self.rust_db.users@.take(i + 1).drop_last() =~= self.rust_db.users@.take(
                    i as int,
                ));
            }
            if let Some(u) = &self.rust_db.users[i] {
                if u.is_active == 1 {
                    if self.c_extensions.validate_session_of(u).is_err() {
                        invalid.push(u.user_id);
                    }
                }
            }
            i += 1;
        }
        proof {
            assert(self.rust_db.users@.take(i as int) =~= self.rust_db.users@);
        }
        invalid
    }

    /// One day of the schedule, in this order: the queue is flushed; the day
    /// counter goes up by one; the sessions of the active records of the
    /// primary store are checked; the primary store ages and evicts; on every
    /// fifth day the stores are merged; and the foreign store does its
    /// maintenance under the new day. On a well-formed directory no step
    /// ends in an ownership violation.
    pub fn increase_day(&mut self) -> (r: Result<DayReport, StoreError>)
        requires
            old(self)@.wf(),
            old(self)@.day < i32::MAX,
        ensures
            r is Ok,
            final(self)@.wf(),
            final(self)@ == old(self)@.next_day(),
            r->Ok_0.signups@ == old(self)@.flush_outcome(),
            r->Ok_0.invalid_sessions@ == old(self)@.next_day_invalid_sessions(),
            r->Ok_0.merged == old(self)@.next_day().is_merge_day(),
    {
        let signups = self.sync_database();
        let ghost flushed = self@;
        self._day_counter = self._day_counter + 1;
        let invalid_sessions = self.validate_active_user_session();
        let ghost counted = self@;
        proof {
            lemma_decayed_all_releasable(self@.users);
        }
        match update_database_daily(&mut self.rust_db) {
            Err(e) => {
                return Err(e);
            },
            Ok(()) => {},
        }
        proof {
            assert(self@ == counted.aged());
        }
        let merged = self._day_counter % MERGE_PERIOD == 0;
        let ghost aged = self@;
        if merged {
            match self.join_databases() {
                Err(e) => {
                    return Err(e);
                },
                Ok(()) => {},
            }
        }
        proof {
            lemma_maintained(self@.foreign, self@.day);
        }
        self.c_extensions.increment_day(self._day_counter);
        Ok(DayReport { signups, invalid_sessions, merged })
    }

    /// The lines that describe the records of both stores, for the caller to
    /// print: first those of the foreign store, then those of the primary
    /// store, each in index order.
    pub fn print_both_databases(&self) -> (lines: (Vec<String>, Vec<String>))
        ensures
            lines.0@.len() == lines_of(self@.foreign.as_records()).len(),
            forall|k: int|
                0 <= k < lines.0@.len() ==> (#[trigger] lines.0@[k])@ == lines_of(
                    self@.foreign.as_records(),
                )[k],
            lines.1@.len() == lines_of(self@.users).len(),
            forall|k: int|
                0 <= k < lines.1@.len() ==> (#[trigger] lines.1@[k])@ == lines_of(
                    self@.users,
                )[k],
    {
        let foreign = self.c_extensions.print_database_full();
        let primary = print_database(&self.rust_db);
        (foreign, primary)
    }

    /// The primary store, for reading.
    pub fn primary(&self) -> (db: &UserDatabase)
        ensures
            db.users@ == self@.users,
            db.count == self@.count,
            db.capacity == self@.capacity,
    {
        &self.rust_db
    }

    /// The boundary to the foreign store, for reading.
    pub fn foreign(&self) -> (ext: &DatabaseExtensions)
        ensures
            ext@ == self@.foreign,
    {
        &self.c_extensions
    }

    /// The ids the foreign store gave to the signups placed there, in the
    /// order of their placement.
    pub fn foreign_ids(&self) -> (ids: &Vec<i32>)
        ensures
            ids@ == self@.foreign_ids,
    {
        &self.c_allocated_users
    }

    /// The day counter.
    pub fn day(&self) -> (day: i32)
        ensures
            day == self@.day,
    {
        self._day_counter
    }

    /// Number of signups that wait for the next flush.
    pub fn pending_count(&self) -> (n: usize)
        ensures
            n == self@.pending.len(),
    {
        self.pending_requests.len()
    }

    /// Number of records in the primary store.
    pub fn primary_count(&self) -> (n: i32)
        ensures
            n == self@.count,
    {
        self.rust_db.count
    }

    /// Number of records in the foreign store.
    pub fn foreign_count(&self) -> (n: i32)
        ensures
            n == self@.foreign.count,
    {
        self.c_extensions.user_count()
    }

    /// Number of tokens issued so far, each counted once.
    pub fn issued_token_count(&self) -> (n: usize)
        ensures
            n == self@.tokens.len(),
    {
        self.session_tokens.len()
    }

    /// Number of cached references to records of the foreign store.
    pub fn cached_reference_count(&self) -> (n: usize)
        ensures
            n == self@.references.len(),
    {
        self.user_references.len()
    }
}

} // verus!
