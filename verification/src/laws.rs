//! What holds of signups and logins, whatever the state of the directory.

use vstd::prelude::*;
use vstd::utf8::encode_utf8;
use crate::error::StoreError;
use crate::foreign::{
    fresh_foreign_user, lemma_fresh_foreign_user, lemma_new_session_validates, named_t,
};
use crate::limits::{MAX_NAME_LEN, PENDING_LOAD_THRESHOLD};
use crate::ownership::Backend;
use crate::primary::named;
use crate::record::lemma_fresh_user;
use crate::session::{lemma_session_token_text, lemma_token_array, session_owner};
use crate::slots::{first_free, lemma_first_index, lemma_free_exists};
use crate::state::{accepted, lemma_flush_from, lemma_signed_up, placement, DirectoryState, Signup};
use crate::text::{has_nul, lemma_stored_roundtrip, name_matches, stored};
use crate::wrapper::lemma_token_chars;

verus! {

/// A login with the right password ends with a token that is not empty; a
/// login with a wrong password for a known user ends with an authentication
/// failure and never with a token.
pub proof fn lemma_login_outcome(state: DirectoryState, name: Seq<char>, password: Seq<u8>)
    ensures
        state.credentials_match(name, password) ==> state.login_result(name, password) is Ok
            && state.login_result(name, password)->Ok_0.len() > 0,
        state.subject(name) is Some && !state.credentials_match(name, password)
            ==> state.login_result(name, password) == Err::<Seq<char>, StoreError>(
            StoreError::AuthFailure,
        ),
        state.subject(name) is None ==> state.login_result(name, password) == Err::<
            Seq<char>,
            StoreError,
        >(StoreError::LookupFailure),
{
    lemma_token_chars(state.foreign.sessions.len());
}

/// After a login that succeeded, the record it was about is where it was, is
/// active, and has been inactive for no day.
pub proof fn lemma_login_resets_inactivity(
    state: DirectoryState,
    name: Seq<char>,
    password: Seq<u8>,
)
    requires
        state.login_result(name, password) is Ok,
    ensures
        state.subject(name) is Some,
        state.after_login(name, password).record_at(state.subject(name)->0).inactivity_count == 0,
        state.after_login(name, password).record_at(state.subject(name)->0).is_active == 1,
        state.after_login(name, password).record_at(state.subject(name)->0).username
            == state.record_at(state.subject(name)->0).username,
{
    let place = state.subject(name)->0;
    let after = state.after_login(name, password);
    match place.0 {
        Backend::Primary => {
            lemma_first_index(state.users, named(encode_utf8(name)), 0);
            assert(after.users[place.1] is Some);
        },
        Backend::Foreign => {
            if !state.cache_hit(name) {
                lemma_first_index(state.foreign.records, named_t(encode_utf8(name)), 0);
            }
            assert(0 <= place.1 < state.foreign.records.len());
            assert(after.foreign == state.foreign.logged_in_at(place.1));
            assert(after.foreign.records[place.1] is Some);
        },
    }
}

/// The token a successful login returns is, from then on, that of a session
/// of the user the login was about.
pub proof fn lemma_login_token_validates(
    state: DirectoryState,
    name: Seq<char>,
    password: Seq<u8>,
)
    requires
        state.login_result(name, password) is Ok,
    ensures
        session_owner(
            state.after_login(name, password).foreign.sessions,
            encode_utf8(state.login_result(name, password)->Ok_0),
        ) == state.record_at(state.subject(name)->0).user_id,
{
    let serial = state.foreign.sessions.len();
    let place = state.subject(name)->0;
    let user_id = state.record_at(place).user_id;
    lemma_token_chars(serial);
    lemma_token_array(serial);
    lemma_session_token_text(serial);
    lemma_new_session_validates(state.foreign, state.foreign.next_token(), user_id);
}

/// A login finds a record of the primary store under its name whatever the
/// case of the ASCII letters the name is given in, and is then about a record
/// of the primary store.
pub proof fn lemma_login_finds_primary_by_name(state: DirectoryState, name: Seq<char>, i: int)
    requires
        0 <= i < state.users.len(),
        state.users[i] is Some,
        name_matches(state.users[i]->0.username@, encode_utf8(name)),
    ensures
        state.subject(name) == Some((Backend::Primary, state.primary_slot(name))),
        0 <= state.primary_slot(name) <= i,
        state.users[state.primary_slot(name)] is Some,
        name_matches(state.users[state.primary_slot(name)]->0.username@, encode_utf8(name)),
{
    assert(named(encode_utf8(name))(state.users[i]));
    lemma_first_index(state.users, named(encode_utf8(name)), 0);
}

/// A failed login changes no record of either store.
pub proof fn lemma_login_failure_changes_nothing(
    state: DirectoryState,
    name: Seq<char>,
    password: Seq<u8>,
)
    requires
        state.login_result(name, password) is Err,
    ensures
        state.after_login(name, password).users == state.users,
        state.after_login(name, password).foreign == state.foreign,
        state.after_login(name, password).tokens == state.tokens,
{
}

/// In a flush, a signup is placed in the foreign store exactly when more than
/// five signups of the batch are pending as its turn comes, itself included,
/// or the primary store is full by then. In a batch of six that is the
/// signup with all six still pending: the first in queue order.
pub proof fn lemma_placement_rule(state: DirectoryState, entries: Seq<Signup>, i: int)
    requires
        0 <= i < entries.len(),
    ensures
        placement(entries.len() - i, state.count, state.capacity) == Backend::Foreign <==> (
        entries.len() - i > PENDING_LOAD_THRESHOLD || state.count >= state.capacity),
        state.flush_from(entries, i) == state.signed_up(entries[i], entries.len() - i).flush_from(
            entries,
            i + 1,
        ),
{
}

/// A signup with a zero byte in its username, email or password is rejected,
/// wherever it would have been placed, and changes nothing.
pub proof fn lemma_malformed_signup_is_rejected(
    state: DirectoryState,
    s: Signup,
    pending_count: int,
)
    requires
        has_nul(s.username) || has_nul(s.email) || has_nul(s.password),
    ensures
        state.signup_result(s, pending_count) == Err::<(), StoreError>(
            StoreError::CreationFailure,
        ),
        state.signed_up(s, pending_count) == state,
{
}

/// A signup is rejected for its strings only: one that ends in a creation
/// failure has a zero byte in one of them.
pub proof fn lemma_creation_failure_means_malformed(
    state: DirectoryState,
    s: Signup,
    pending_count: int,
)
    ensures
        state.signup_result(s, pending_count) == Err::<(), StoreError>(
            StoreError::CreationFailure,
        ) <==> DirectoryState::is_malformed(s),
{
}

/// Of a batch of at most five signups into a primary store with room for all
/// of them, none reaches the foreign store: each is placed in the primary
/// store, or rejected for its strings.
pub proof fn lemma_small_batch_never_reaches_foreign(
    state: DirectoryState,
    entries: Seq<Signup>,
    i: int,
)
    requires
        state.wf(),
        0 <= i <= entries.len(),
        entries.len() - i <= PENDING_LOAD_THRESHOLD,
        state.count + (entries.len() - i) <= state.capacity,
    ensures
        state.flush_from(entries, i).foreign == state.foreign,
        state.flush_from(entries, i).foreign_ids == state.foreign_ids,
        state.flush_from(entries, i).count <= state.count + (entries.len() - i),
        forall|k: int|
            0 <= k < entries.len() - i ==> (#[trigger] state.flush_results(entries, i)[k]) is Ok
                || state.flush_results(entries, i)[k] == Err::<(), StoreError>(
                StoreError::CreationFailure,
            ),
    decreases entries.len() - i,
{
    if i < entries.len() {
        let next = state.signed_up(entries[i], entries.len() - i);
        lemma_signed_up(state, entries[i], entries.len() - i);
        lemma_small_batch_never_reaches_foreign(next, entries, i + 1);
        lemma_flush_from(next, entries, i + 1);
        lemma_flush_from(state, entries, i);
        let results = state.flush_results(entries, i);
        assert(results.drop_first() =~= next.flush_results(entries, i + 1));
        assert forall|k: int| 0 <= k < entries.len() - i implies (#[trigger] results[k]) is Ok
            || results[k] == Err::<(), StoreError>(StoreError::CreationFailure) by {
            if k > 0 {
                assert(results[k] == next.flush_results(entries, i + 1)[k - 1]);
            }
        }
    }
}

/// A batch of at most five well-formed signups into a primary store with
/// room for all of them goes to the primary store whole: every signup is
/// accepted, and the foreign store is left as it was.
pub proof fn lemma_small_batch_stays_primary(state: DirectoryState, entries: Seq<Signup>, i: int)
    requires
        state.wf(),
        0 <= i <= entries.len(),
        entries.len() - i <= PENDING_LOAD_THRESHOLD,
        state.count + (entries.len() - i) <= state.capacity,
        forall|k: int|
            i <= k < entries.len() ==> !DirectoryState::is_malformed(#[trigger] entries[k]),
    ensures
        state.flush_from(entries, i).count == state.count + (entries.len() - i),
        state.flush_from(entries, i).foreign == state.foreign,
        state.flush_from(entries, i).foreign_ids == state.foreign_ids,
        accepted(state.flush_results(entries, i)) == entries.len() - i,
        forall|k: int|
            0 <= k < entries.len() - i ==> (#[trigger] state.flush_results(entries, i)[k]) is Ok,
    decreases entries.len() - i,
{
    if i < entries.len() {
        let next = state.signed_up(entries[i], entries.len() - i);
        lemma_signed_up(state, entries[i], entries.len() - i);
        lemma_small_batch_stays_primary(next, entries, i + 1);
        lemma_flush_from(next, entries, i + 1);
        lemma_flush_from(state, entries, i);
        let results = state.flush_results(entries, i);
        assert(results.drop_first() =~= next.flush_results(entries, i + 1));
        assert forall|k: int| 0 <= k < entries.len() - i implies (#[trigger] results[k]) is Ok by {
            if k > 0 {
                assert(results[k] == next.flush_results(entries, i + 1)[k - 1]);
            }
        }
    }
}

/// A batch of more than five well-formed signups, into stores with room for
/// them, is split by load: the signups that still see more than five pending
/// go to the foreign store and the last five go to the primary store.
pub proof fn lemma_large_batch_is_split(state: DirectoryState, entries: Seq<Signup>, i: int)
    requires
        state.wf(),
        0 <= i <= entries.len(),
        entries.len() - i >= PENDING_LOAD_THRESHOLD,
        forall|k: int|
            i <= k < entries.len() ==> !DirectoryState::is_malformed(#[trigger] entries[k]),
        state.count + PENDING_LOAD_THRESHOLD <= state.capacity,
        state.foreign.count + (entries.len() - i - PENDING_LOAD_THRESHOLD)
            <= state.foreign.capacity,
        state.foreign.next_id + (entries.len() - i - PENDING_LOAD_THRESHOLD) <= i32::MAX,
    ensures
        state.flush_from(entries, i).count == state.count + PENDING_LOAD_THRESHOLD,
        state.flush_from(entries, i).foreign.count == state.foreign.count + (entries.len() - i
            - PENDING_LOAD_THRESHOLD),
        accepted(state.flush_results(entries, i)) == entries.len() - i,
    decreases entries.len() - i,
{
    if entries.len() - i == PENDING_LOAD_THRESHOLD {
        lemma_small_batch_stays_primary(state, entries, i);
    } else {
        let next = state.signed_up(entries[i], entries.len() - i);
        lemma_signed_up(state, entries[i], entries.len() - i);
        assert(placement(entries.len() - i, state.count, state.capacity) == Backend::Foreign);
        assert(state.foreign.takes_insert());
        lemma_large_batch_is_split(next, entries, i + 1);
        let results = state.flush_results(entries, i);
        assert(results.drop_first() =~= next.flush_results(entries, i + 1));
    }
}

/// A signup into a full primary store is not turned away: it is created in
/// the foreign store, as long as that store has a free slot and the strings
/// have no zero byte in them. An id is a 32-bit number, so the foreign store
/// must also have one left to give; it gives each id once. The primary store
/// is left as it was, and the user is found by name in the combined view of
/// both stores when the name fits its buffer.
pub proof fn lemma_overflow_goes_to_foreign(state: DirectoryState, s: Signup, pending_count: int)
    requires
        state.wf(),
        state.count == state.capacity,
        !DirectoryState::is_malformed(s),
        state.foreign.count < state.foreign.capacity,
        state.foreign.next_id < i32::MAX,
    ensures
        state.signup_result(s, pending_count) is Ok,
        state.signed_up(s, pending_count).users == state.users,
        state.signed_up(s, pending_count).foreign == state.foreign.inserted(
            fresh_foreign_user(s.username, s.email, 0, s.password),
        ),
        state.signed_up(s, pending_count).foreign.count == state.foreign.count + 1,
        s.username.len() < MAX_NAME_LEN ==> state.signed_up(s, pending_count).find(s.username)
            is Some,
{
    let after = state.signed_up(s, pending_count);
    if s.username.len() < MAX_NAME_LEN {
        lemma_signup_is_found(state, s, pending_count);
    }
}

/// After an accepted signup whose name fits its buffer and has no zero byte,
/// the user is found by name in the combined view of both stores.
pub proof fn lemma_signup_is_found(state: DirectoryState, s: Signup, pending_count: int)
    requires
        state.wf(),
        state.signup_result(s, pending_count) is Ok,
        s.username.len() < MAX_NAME_LEN,
        !has_nul(s.username),
    ensures
        state.signed_up(s, pending_count).find(s.username) is Some,
{
    let after = state.signed_up(s, pending_count);
    lemma_stored_roundtrip(s.username, MAX_NAME_LEN as int);
    lemma_fresh_user(s.username, s.email, 0, s.password);
    lemma_fresh_foreign_user(s.username, s.email, 0, s.password);
    if placement(pending_count, state.count, state.capacity) == Backend::Foreign {
        lemma_free_exists(state.foreign.records);
        let slot = first_free(state.foreign.records);
        let record = after.foreign.records[slot];
        assert(record is Some);
        assert(record->0.username@ == stored(s.username, MAX_NAME_LEN as int));
        assert(named_t(s.username)(record));
        lemma_first_index(after.foreign.records, named_t(s.username), 0);
    } else {
        lemma_free_exists(state.users);
        let slot = first_free(state.users);
        let record = after.users[slot];
        assert(record is Some);
        assert(record->0.username@ == stored(s.username, MAX_NAME_LEN as int));
        assert(named(s.username)(record));
        lemma_first_index(after.users, named(s.username), 0);
    }
}

} // verus!
