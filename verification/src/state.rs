//! What the directory holds, as its contracts speak of it, and what each of
//! its operations makes of that.

use vstd::prelude::*;
use vstd::utf8::encode_utf8;
use crate::error::StoreError;
use crate::foreign::{fresh_foreign_user, reclaimed, ForeignState, UserHandle, UserStructT};
use crate::limits::{MERGE_PERIOD, PENDING_LOAD_THRESHOLD};
use crate::ownership::{Backend, OwnershipType};
use crate::primary::{
    all_releasable, decayed, due_count, first_named, lookup, table_wf, with_inserted,
};
use crate::record::{fresh_user, lemma_fresh_user, UserStruct};
use crate::session::{session_owner, Session};
use crate::slots::{first_free, first_index, lemma_free_exists, lemma_occupied_update};
use crate::text::{has_nul, text_of};
use crate::wrapper::{shared_record, shared_state, token_chars};

verus! {

/// A signup as it waits in the queue: the three strings, as bytes.
pub ghost struct Signup {
    pub username: Seq<u8>,
    pub email: Seq<u8>,
    pub password: Seq<u8>,
}

/// A cached reference as the contracts speak of it.
pub ghost struct CachedReference {
    pub username: Seq<char>,
    pub handle: UserHandle,
}

/// What the directory holds, as its contracts speak of it.
pub ghost struct DirectoryState {
    /// The slots of the primary store, in index order.
    pub users: Seq<Option<UserStruct>>,
    /// Number of occupied slots of the primary store.
    pub count: int,
    /// Number of slots of the primary store.
    pub capacity: int,
    /// The foreign store.
    pub foreign: ForeignState,
    /// The signups that wait for the next flush, oldest first.
    pub pending: Seq<Signup>,
    /// The day counter.
    pub day: int,
    /// The tokens issued so far, each once, in the order of their issue.
    pub tokens: Seq<Seq<char>>,
    /// The cached references to records of the foreign store.
    pub references: Seq<CachedReference>,
    /// The ids the foreign store gave to the signups placed there.
    pub foreign_ids: Seq<i32>,
}

/// Where a signup goes: to the foreign store when more than five signups of
/// the batch are still pending, this one included, or when the primary store
/// is full; to the primary store otherwise.
pub open spec fn placement(pending_count: int, count: int, capacity: int) -> Backend {
    if pending_count > PENDING_LOAD_THRESHOLD || count >= capacity {
        Backend::Foreign
    } else {
        Backend::Primary
    }
}

/// The predicate of a cached reference under the name `name`.
pub open spec fn cached_as(name: Seq<char>) -> spec_fn(CachedReference) -> bool {
    |r: CachedReference| r.username == name
}

/// The tokens after `token` was issued: it is added unless it is there.
pub open spec fn with_token(tokens: Seq<Seq<char>>, token: Seq<char>) -> Seq<Seq<char>> {
    if tokens.contains(token) {
        tokens
    } else {
        tokens.push(token)
    }
}

/// What the primary store's half of a reclaim makes of one slot: a shared
/// record that the foreign store was authoritative for becomes one that the
/// primary store is authoritative for; anything else stays.
pub open spec fn take_over_slot(o: Option<UserStruct>) -> Option<UserStruct> {
    match o {
        None => None,
        Some(u) => if u.ownership == OwnershipType::SHARED_C_PRIMARY {
            Some(UserStruct { ownership: OwnershipType::SHARED_RUST_PRIMARY, ..u })
        } else {
            Some(u)
        },
    }
}

/// The copies a reclaim hands out, as records of the directory.
pub open spec fn reclaimed_records(records: Seq<Option<UserStructT>>) -> Seq<UserStruct> {
    Seq::new(reclaimed(records).len(), |k: int| reclaimed(records)[k]@)
}

/// The ids of the active records of a table whose session token is of no
/// session, in index order.
pub open spec fn invalid_sessions(users: Seq<Option<UserStruct>>, sessions: Seq<Session>) -> Seq<
    i32,
>
    decreases users.len(),
{
    if users.len() == 0 {
        Seq::empty()
    } else if users.last() is Some && users.last()->0.is_active == 1 && session_owner(
        sessions,
        text_of(users.last()->0.session_token@),
    ) == 0 {
        invalid_sessions(users.drop_last(), sessions).push(users.last()->0.user_id)
    } else {
        invalid_sessions(users.drop_last(), sessions)
    }
}

/// Number of accepted signups among the results of a flush.
pub open spec fn accepted(results: Seq<Result<(), StoreError>>) -> nat
    decreases results.len(),
{
    if results.len() == 0 {
        0
    } else if results[0] is Ok {
        accepted(results.drop_first()) + 1
    } else {
        accepted(results.drop_first())
    }
}

/// The directory before anything has happened, with stores of the given
/// sizes.
pub open spec fn initial_state(primary_capacity: int, foreign_capacity: int) -> DirectoryState {
    DirectoryState {
        users: Seq::new(primary_capacity as nat, |i: int| None::<UserStruct>),
        count: 0,
        capacity: primary_capacity,
        foreign: ForeignState::empty(foreign_capacity, 0),
        pending: Seq::<Signup>::empty(),
        day: 0,
        tokens: Seq::<Seq<char>>::empty(),
        references: Seq::<CachedReference>::empty(),
        foreign_ids: Seq::<i32>::empty(),
    }
}

impl DirectoryState {
    /// Both stores are well-formed, every record of the primary store is the
    /// primary store's to release, and no record of the foreign store is in
    /// the middle of a merge.
    pub open spec fn stores_wf(self) -> bool {
        &&& table_wf(self.users, self.count, self.capacity)
        &&& all_releasable(self.users)
        &&& self.foreign.wf()
        &&& self.foreign.settled()
    }

    /// The stores are as `stores_wf` says, and both sides know the same day.
    pub open spec fn wf(self) -> bool {
        &&& self.stores_wf()
        &&& 0 <= self.day <= i32::MAX
        &&& self.foreign.day == self.day
    }

    /// Number of records in both stores together.
    pub open spec fn total_users(self) -> int {
        self.count + self.foreign.count
    }

    /// The record named `name`, case aside, in the combined view of both
    /// stores: the first such record of the primary store, or failing that
    /// the first such record of the foreign store.
    pub open spec fn find(self, name: Seq<u8>) -> Option<UserStruct> {
        if lookup(self.users, name) is Some {
            lookup(self.users, name)
        } else if self.foreign.lookup(name) is Some {
            Some(self.foreign.lookup(name)->0@)
        } else {
            None
        }
    }

    /// Whether a signup contains a string that cannot be stored: one with a
    /// zero byte in it.
    pub open spec fn is_malformed(s: Signup) -> bool {
        has_nul(s.username) || has_nul(s.email) || has_nul(s.password)
    }

    /// How a signup ends when `pending_count` signups of its batch are still
    /// pending, this one included. A signup with a zero byte in one of its
    /// strings is rejected, wherever it would have been placed. One placed
    /// in the foreign store is dropped when that store takes no insert. Any
    /// other signup is accepted.
    pub open spec fn signup_result(self, s: Signup, pending_count: int) -> Result<(), StoreError> {
        if Self::is_malformed(s) {
            Err(StoreError::CreationFailure)
        } else if placement(pending_count, self.count, self.capacity) == Backend::Foreign
            && !self.foreign.takes_insert() {
            Err(StoreError::CapacityExceeded)
        } else {
            Ok(())
        }
    }

    /// The directory after a signup. An accepted signup is a new record in
    /// the store it was placed in, and for the foreign store the id it got
    /// there is noted; any other signup changes nothing.
    pub open spec fn signed_up(self, s: Signup, pending_count: int) -> DirectoryState {
        if self.signup_result(s, pending_count) is Err {
            self
        } else if placement(pending_count, self.count, self.capacity) == Backend::Foreign {
            DirectoryState {
                foreign: self.foreign.inserted(
                    fresh_foreign_user(s.username, s.email, 0, s.password),
                ),
                foreign_ids: self.foreign_ids.push(self.foreign.next_id as i32),
                ..self
            }
        } else {
            DirectoryState {
                users: with_inserted(self.users, fresh_user(s.username, s.email, 0, s.password)),
                count: self.count + 1,
                ..self
            }
        }
    }

    /// The directory after the signups `entries[i..]` of a batch were
    /// processed in queue order. Each sees as pending the signups of the
    /// batch from itself on.
    pub open spec fn flush_from(self, entries: Seq<Signup>, i: int) -> DirectoryState
        decreases entries.len() - i,
    {
        if i < 0 || i >= entries.len() {
            self
        } else {
            self.signed_up(entries[i], entries.len() - i).flush_from(entries, i + 1)
        }
    }

    /// How the signups `entries[i..]` of a batch end, in queue order.
    pub open spec fn flush_results(self, entries: Seq<Signup>, i: int) -> Seq<
        Result<(), StoreError>,
    >
        decreases entries.len() - i,
    {
        if i < 0 || i >= entries.len() {
            Seq::empty()
        } else {
            seq![self.signup_result(entries[i], entries.len() - i)] + self.signed_up(
                entries[i],
                entries.len() - i,
            ).flush_results(entries, i + 1)
        }
    }

    /// The directory with an empty queue.
    pub open spec fn drained(self) -> DirectoryState {
        DirectoryState { pending: Seq::empty(), ..self }
    }

    /// The directory after a flush of the queue.
    pub open spec fn flushed(self) -> DirectoryState {
        self.drained().flush_from(self.pending, 0)
    }

    /// How the signups of the queue end in a flush, in queue order.
    pub open spec fn flush_outcome(self) -> Seq<Result<(), StoreError>> {
        self.drained().flush_results(self.pending, 0)
    }

    /// Index of the first slot of the primary store whose record is named
    /// `name`, case of ASCII letters aside, or the number of slots.
    pub open spec fn primary_slot(self, name: Seq<char>) -> int {
        first_named(self.users, encode_utf8(name))
    }

    /// Index of the first cached reference under `name`, or the number of
    /// references.
    pub open spec fn cached_slot(self, name: Seq<char>) -> int {
        first_index(self.references, cached_as(name), 0)
    }

    /// Whether the cache holds a reference under `name` whose record is still
    /// in the foreign store.
    pub open spec fn cache_hit(self, name: Seq<char>) -> bool {
        self.cached_slot(name) < self.references.len() && self.foreign.resolve(
            self.references[self.cached_slot(name)].handle,
        ) is Some
    }

    /// The record a login under `name` is about, as its store and slot: the
    /// first record of that name in the primary store, case aside; failing
    /// that, the record a cached reference under that name resolves to;
    /// failing that, the first record of that name in the foreign store,
    /// case aside.
    pub open spec fn subject(self, name: Seq<char>) -> Option<(Backend, int)> {
        if self.primary_slot(name) < self.users.len() {
            Some((Backend::Primary, self.primary_slot(name)))
        } else if self.cache_hit(name) {
            Some((Backend::Foreign, self.references[self.cached_slot(name)].handle.slot()))
        } else if self.foreign.lookup(encode_utf8(name)) is Some {
            Some((Backend::Foreign, self.foreign.first_named(encode_utf8(name))))
        } else {
            None
        }
    }

    /// The record in a slot of a store.
    pub open spec fn record_at(self, place: (Backend, int)) -> UserStruct {
        match place.0 {
            Backend::Primary => self.users[place.1]->0,
            Backend::Foreign => self.foreign.records[place.1]->0@,
        }
    }

    /// Whether `password` is the password of the record a login under `name`
    /// is about: the text of its password buffer, byte for byte.
    pub open spec fn credentials_match(self, name: Seq<char>, password: Seq<u8>) -> bool {
        self.subject(name) is Some && text_of(
            self.record_at(self.subject(name)->0).password@,
        ) == password
    }

    /// How a login ends: with a lookup failure when it is about no record,
    /// with an authentication failure when the password is not the record's,
    /// and with the token of a new session otherwise.
    pub open spec fn login_result(self, name: Seq<char>, password: Seq<u8>) -> Result<
        Seq<char>,
        StoreError,
    > {
        if self.subject(name) is None {
            Err(StoreError::LookupFailure)
        } else if !self.credentials_match(name, password) {
            Err(StoreError::AuthFailure)
        } else {
            Ok(token_chars(self.foreign.sessions.len()))
        }
    }

    /// The cache after a login under `name`. A login that had to ask the
    /// foreign store by name, and found a record, leaves a reference to it
    /// under `name`: in place of the one that no longer resolved, or as a new
    /// one. Any other login leaves the cache as it is.
    pub open spec fn references_after_login(self, name: Seq<char>) -> Seq<CachedReference> {
        if self.primary_slot(name) < self.users.len() || self.cache_hit(name)
            || self.foreign.lookup(encode_utf8(name)) is None {
            self.references
        } else {
            let found = CachedReference {
                username: name,
                handle: self.foreign.handle_of(encode_utf8(name)),
            };
            if self.cached_slot(name) < self.references.len() {
                self.references.update(self.cached_slot(name), found)
            } else {
                self.references.push(found)
            }
        }
    }

    /// The directory after a login. A failed login changes no record. A
    /// successful one opens a session, and the record it is about becomes
    /// active, not inactive for any day, and holds the session's token; the
    /// token is added to the issued ones unless it is there.
    pub open spec fn after_login(self, name: Seq<char>, password: Seq<u8>) -> DirectoryState {
        let references = self.references_after_login(name);
        if self.login_result(name, password) is Err {
            DirectoryState { references, ..self }
        } else {
            let place = self.subject(name)->0;
            let tokens = with_token(self.tokens, self.login_result(name, password)->Ok_0);
            match place.0 {
                Backend::Primary => DirectoryState {
                    users: self.users.update(
                        place.1,
                        Some(
                            UserStruct {
                                session_token: self.foreign.next_token(),
                                inactivity_count: 0,
                                is_active: 1,
                                ..self.users[place.1]->0
                            },
                        ),
                    ),
                    foreign: self.foreign.session_opened(self.users[place.1]->0.user_id),
                    tokens,
                    references,
                    ..self
                },
                Backend::Foreign => DirectoryState {
                    foreign: self.foreign.logged_in_at(place.1),
                    tokens,
                    references,
                    ..self
                },
            }
        }
    }

    /// One step of sharing: the record in slot `i` of the primary store, if
    /// there is one, is shared with the foreign store as `shared_record` and
    /// `shared_state` say.
    pub open spec fn share_slot(self, i: int) -> DirectoryState {
        if 0 <= i < self.users.len() && self.users[i] is Some {
            DirectoryState {
                users: self.users.update(
                    i,
                    Some(shared_record(self.foreign, self.users[i]->0)),
                ),
                foreign: shared_state(self.foreign, self.users[i]->0),
                ..self
            }
        } else {
            self
        }
    }

    /// The directory after the records in the slots from `i` on were shared,
    /// in index order.
    pub open spec fn share_from(self, i: int) -> DirectoryState
        decreases self.users.len() - i,
    {
        if i < 0 || i >= self.users.len() {
            self
        } else {
            self.share_slot(i).share_from(i + 1)
        }
    }

    /// The directory after both stores took note of a reclaim: on either
    /// side, every shared record that the foreign store was authoritative for
    /// is now the primary store's to release.
    pub open spec fn taken_over(self) -> DirectoryState {
        DirectoryState {
            users: Seq::new(self.users.len(), |i: int| take_over_slot(self.users[i])),
            foreign: self.foreign.after_reclaim(),
            ..self
        }
    }

    /// One step of adopting: a reclaimed copy is inserted into the primary
    /// store unless the store holds a record of that name already, or is
    /// full.
    pub open spec fn adopt(self, copy: UserStruct) -> DirectoryState {
        if lookup(self.users, text_of(copy.username@)) is Some || self.count
            >= self.capacity {
            self
        } else {
            DirectoryState {
                users: with_inserted(self.users, copy),
                count: self.count + 1,
                ..self
            }
        }
    }

    /// The directory after the reclaimed copies from the `k`-th on were
    /// adopted, in order.
    pub open spec fn adopt_from(self, copies: Seq<UserStruct>, k: int) -> DirectoryState
        decreases copies.len() - k,
    {
        if k < 0 || k >= copies.len() {
            self
        } else {
            self.adopt(copies[k]).adopt_from(copies, k + 1)
        }
    }

    /// The directory after a merge: first every record of the primary store
    /// is shared with the foreign store, then the primary store reclaims what
    /// the foreign store holds as shared.
    pub open spec fn merged(self) -> DirectoryState {
        let shared = self.share_from(0);
        shared.taken_over().adopt_from(reclaimed_records(shared.foreign.records), 0)
    }

    /// The directory after the primary store's daily tick.
    pub open spec fn aged(self) -> DirectoryState {
        DirectoryState {
            users: decayed(self.users),
            count: self.count - due_count(self.users),
            ..self
        }
    }

    /// Whether the two stores are merged on the day the counter shows.
    pub open spec fn is_merge_day(self) -> bool {
        self.day % (MERGE_PERIOD as int) == 0
    }

    /// The directory after one day: the queue is flushed, the day counter
    /// goes up by one, the primary store ages and evicts, on every fifth day
    /// the stores are merged, and the foreign store does its maintenance
    /// under the new day.
    pub open spec fn next_day(self) -> DirectoryState {
        let flushed = self.flushed();
        let counted = DirectoryState { day: flushed.day + 1, ..flushed };
        let aged = counted.aged();
        let merged = if aged.is_merge_day() {
            aged.merged()
        } else {
            aged
        };
        DirectoryState { foreign: merged.foreign.maintained(merged.day), ..merged }
    }

    /// The ids of the active records of the primary store whose session is
    /// found invalid on the day after this state.
    pub open spec fn next_day_invalid_sessions(self) -> Seq<i32> {
        invalid_sessions(self.flushed().users, self.flushed().foreign.sessions)
    }
}

/// A signup leaves a well-formed directory well-formed, and adds one record
/// to the two stores together exactly when it is accepted.
pub proof fn lemma_signed_up(state: DirectoryState, s: Signup, pending_count: int)
    requires
        state.wf(),
    ensures
        state.signed_up(s, pending_count).wf(),
        state.signed_up(s, pending_count).pending == state.pending,
        state.signed_up(s, pending_count).day == state.day,
        state.signup_result(s, pending_count) is Ok ==> state.signed_up(
            s,
            pending_count,
        ).total_users() == state.total_users() + 1,
        state.signup_result(s, pending_count) is Err ==> state.signed_up(s, pending_count)
            == state,
{
    let after = state.signed_up(s, pending_count);
    if state.signup_result(s, pending_count) is Ok {
        if placement(pending_count, state.count, state.capacity) == Backend::Foreign {
            let user = fresh_foreign_user(s.username, s.email, 0, s.password);
            lemma_free_exists(state.foreign.records);
            lemma_occupied_update(
                state.foreign.records,
                first_free(state.foreign.records),
                Some(UserStructT { user_id: state.foreign.next_id as i32, ..user }),
            );
        } else {
            let user = fresh_user(s.username, s.email, 0, s.password);
            lemma_fresh_user(s.username, s.email, 0, s.password);
            lemma_free_exists(state.users);
            lemma_occupied_update(
                state.users,
                first_free(state.users),
                Some(UserStruct { user_id: first_free(state.users) as i32, ..user }),
            );
        }
    }
}

/// A flush leaves a well-formed directory well-formed, and the two stores
/// together hold one record more for each accepted signup.
pub proof fn lemma_flush_from(state: DirectoryState, entries: Seq<Signup>, i: int)
    requires
        state.wf(),
        0 <= i <= entries.len(),
    ensures
        state.flush_from(entries, i).wf(),
        state.flush_from(entries, i).pending == state.pending,
        state.flush_from(entries, i).day == state.day,
        state.flush_results(entries, i).len() == entries.len() - i,
        state.flush_from(entries, i).total_users() == state.total_users() + accepted(
            state.flush_results(entries, i),
        ),
    decreases entries.len() - i,
{
    if i < entries.len() {
        let next = state.signed_up(entries[i], entries.len() - i);
        lemma_signed_up(state, entries[i], entries.len() - i);
        lemma_flush_from(next, entries, i + 1);
        let results = state.flush_results(entries, i);
        assert(results.drop_first() =~= next.flush_results(entries, i + 1));
    }
}

} // verus!
