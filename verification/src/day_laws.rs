//! What holds of the directory from one day to the next.

use vstd::prelude::*;
use vstd::utf8::encode_utf8;
use crate::foreign::{
    fresh_foreign_user, lemma_fresh_foreign_user, lemma_inserted, lemma_maintained,
    lemma_reclaimed, marshal, named_t, reclaimed, ForeignState, UserStructT,
};
use crate::limits::{MAX_EMAIL_LEN, MAX_NAME_LEN, MAX_PASSWORD_LENGTH, MAX_SESSION_TOKEN_LEN};
use crate::merge_laws::{
    lemma_merge_keeps_names_and_sharing, lemma_share_from, lemma_share_slot, lemma_taken_over,
    mergeable,
};
use crate::ownership::{Backend, OwnershipType};
use crate::primary::{
    decayed, lemma_decayed_all_releasable, lemma_decayed_count, lemma_with_inserted, named,
    table_wf,
};
use crate::record::{fresh_user, lemma_fresh_user, lemma_zeros_terminated, UserStruct};
use crate::session::{lemma_token_array, session_token_text, token_array};
use crate::slots::{
    first_free, lemma_first_index, lemma_kept, lemma_occupied_bound, lemma_occupied_update,
    lemma_packed, occupied_slots,
};
use crate::state::{
    cached_as, lemma_flush_from, lemma_signed_up, reclaimed_records, DirectoryState, Signup,
};
use crate::text::lemma_stored_text;

verus! {

/// Whether every record of a table of the primary store has terminated
/// buffers and an inactivity count that is not negative.
pub open spec fn records_wf(users: Seq<Option<UserStruct>>) -> bool {
    forall|i: int| 0 <= i < users.len() && (#[trigger] users[i]) is Some ==> users[i]->0.wf()
}

/// The same of a table of the foreign store.
pub open spec fn foreign_records_wf(records: Seq<Option<UserStructT>>) -> bool {
    forall|i: int| 0 <= i < records.len() && (#[trigger] records[i]) is Some ==> records[i]->0@.wf()
}

/// Whether every record of both stores has terminated buffers and an
/// inactivity count that is not negative.
pub open spec fn all_records_wf(state: DirectoryState) -> bool {
    records_wf(state.users) && foreign_records_wf(state.foreign.records)
}

/// The count of a well-formed foreign store is never negative and never
/// above the capacity.
pub proof fn lemma_foreign_count_in_bounds(state: ForeignState)
    requires
        state.wf(),
    ensures
        0 <= state.count <= state.capacity,
{
    lemma_occupied_bound(state.records);
}

/// A signup stores a record with terminated buffers.
pub proof fn lemma_signup_keeps_records(state: DirectoryState, s: Signup, pending_count: int)
    requires
        state.wf(),
        all_records_wf(state),
    ensures
        all_records_wf(state.signed_up(s, pending_count)),
{
    let after = state.signed_up(s, pending_count);
    lemma_fresh_user(s.username, s.email, 0, s.password);
    lemma_fresh_foreign_user(s.username, s.email, 0, s.password);
    if after != state {
        if after.users != state.users {
            lemma_with_inserted(
                state.users,
                state.count,
                state.capacity,
                fresh_user(s.username, s.email, 0, s.password),
            );
            assert forall|i: int| 0 <= i < after.users.len() && (#[trigger] after.users[i])
                is Some implies after.users[i]->0.wf() by {
                if i != first_free(state.users) {
                    assert(after.users[i] == state.users[i]);
                }
            }
        } else {
            let made = fresh_foreign_user(s.username, s.email, 0, s.password);
            lemma_inserted(state.foreign, made);
            lemma_stored_text(s.username, MAX_NAME_LEN as int);
            lemma_stored_text(s.email, MAX_EMAIL_LEN as int);
            lemma_stored_text(s.password, MAX_PASSWORD_LENGTH as int);
            lemma_zeros_terminated(MAX_SESSION_TOKEN_LEN as int);
            assert forall|i: int|
                0 <= i < after.foreign.records.len() && (#[trigger] after.foreign.records[i])
                    is Some implies after.foreign.records[i]->0@.wf() by {
                if i != first_free(state.foreign.records) {
                    assert(after.foreign.records[i] == state.foreign.records[i]);
                }
            }
        }
    }
}

/// A flush stores records with terminated buffers only.
pub proof fn lemma_flush_keeps_records(state: DirectoryState, entries: Seq<Signup>, i: int)
    requires
        state.wf(),
        all_records_wf(state),
        0 <= i <= entries.len(),
    ensures
        all_records_wf(state.flush_from(entries, i)),
    decreases entries.len() - i,
{
    if i < entries.len() {
        lemma_signed_up(state, entries[i], entries.len() - i);
        lemma_signup_keeps_records(state, entries[i], entries.len() - i);
        lemma_flush_keeps_records(state.signed_up(entries[i], entries.len() - i), entries, i + 1);
    }
}

/// A login leaves the directory well-formed and every buffer terminated: the
/// token it stores is terminated.
pub proof fn lemma_login_keeps_wf(state: DirectoryState, name: Seq<char>, password: Seq<u8>)
    requires
        state.wf(),
        state.foreign.sessions.len() < u64::MAX,
    ensures
        state.after_login(name, password).wf(),
        all_records_wf(state) ==> all_records_wf(state.after_login(name, password)),
        state.after_login(name, password).count == state.count,
        state.after_login(name, password).foreign.count == state.foreign.count,
        state.after_login(name, password).day == state.day,
        state.after_login(name, password).pending == state.pending,
        state.after_login(name, password).references.len() >= state.references.len(),
{
    let after = state.after_login(name, password);
    let serial = state.foreign.sessions.len();
    lemma_token_array(serial);
    lemma_stored_text(session_token_text(serial), MAX_SESSION_TOKEN_LEN as int);
    lemma_first_index(state.references, cached_as(name), 0);
    if state.login_result(name, password) is Ok {
        let place = state.subject(name)->0;
        match place.0 {
            Backend::Primary => {
                lemma_first_index(
                    state.users,
                    named(encode_utf8(name)),
                    0,
                );
                lemma_occupied_update(state.users, place.1, after.users[place.1]);
                assert forall|i: int| 0 <= i < after.users.len() && (#[trigger] after.users[i])
                    is Some implies after.users[i]->0.user_id == i
                    && after.users[i]->0.ownership.authority() == Backend::Primary && (
                all_records_wf(state) ==> after.users[i]->0.wf()) by {
                    assert(state.users[i] is Some);
                }
            },
            Backend::Foreign => {
                if !state.cache_hit(name) {
                    lemma_first_index(
                        state.foreign.records,
                        named_t(encode_utf8(name)),
                        0,
                    );
                }
                lemma_occupied_update(
                    state.foreign.records,
                    place.1,
                    after.foreign.records[place.1],
                );
                assert forall|i: int|
                    0 <= i < after.foreign.records.len() && (#[trigger] after.foreign.records[i])
                        is Some implies 1 <= after.foreign.records[i]->0.user_id
                    < after.foreign.next_id && after.foreign.records[i]->0.ownership
                    != OwnershipType::SHARED_C_PRIMARY && (all_records_wf(state)
                    ==> after.foreign.records[i]->0@.wf()) by {
                    assert(state.foreign.records[i] is Some);
                }
                assert forall|i: int, j: int|
                    0 <= i < j < after.foreign.records.len()
                        && (#[trigger] after.foreign.records[i])
                        is Some && (#[trigger] after.foreign.records[j])
                        is Some implies after.foreign.records[i]->0.user_id
                    != after.foreign.records[j]->0.user_id by {
                    assert(state.foreign.records[i] is Some);
                    assert(state.foreign.records[j] is Some);
                }
            },
        }
        assert forall|i: int| 0 <= i < after.foreign.sessions.len() implies (
        #[trigger] after.foreign.sessions[i]).token == token_array(i as nat) by {
            if i < serial {
                assert(after.foreign.sessions[i] == state.foreign.sessions[i]);
            }
        }
    }
}

/// The daily tick of the primary store keeps the inactivity counts from going
/// negative, and touches no buffer.
pub proof fn lemma_aged_keeps_records(state: DirectoryState)
    requires
        all_records_wf(state),
    ensures
        all_records_wf(state.aged()),
{
    let after = state.aged();
    assert forall|i: int| 0 <= i < after.users.len() && (#[trigger] after.users[i]) is Some implies
        after.users[i]->0.wf() by {
        assert(state.users[i] is Some);
    }
}

/// Sharing every slot from `i` on touches no buffer.
pub proof fn lemma_share_keeps_records(state: DirectoryState, i: int)
    requires
        mergeable(state),
        all_records_wf(state),
        0 <= i,
    ensures
        all_records_wf(state.share_from(i)),
    decreases state.users.len() - i,
{
    if i < state.users.len() {
        let mid = state.share_slot(i);
        lemma_share_slot(state, i);
        if state.users[i] is Some {
            let user = state.users[i]->0;
            let copy = marshal(UserStruct { ownership: OwnershipType::SHARED_C_PRIMARY, ..user });
            lemma_inserted(state.foreign, copy);
            assert forall|j: int|
                0 <= j < mid.users.len() && (#[trigger] mid.users[j]) is Some implies
                mid.users[j]->0.wf() by {
                assert(state.users[j] is Some);
            }
            assert forall|j: int|
                0 <= j < mid.foreign.records.len() && (#[trigger] mid.foreign.records[j])
                    is Some implies mid.foreign.records[j]->0@.wf() by {
                if state.foreign.records[j] is Some {
                    assert(mid.foreign.records[j] == state.foreign.records[j]);
                } else {
                    assert(j == first_free(state.foreign.records));
                }
            }
        }
        lemma_share_keeps_records(mid, i + 1);
    }
}

/// Adopting copies with terminated buffers keeps every buffer terminated.
pub proof fn lemma_adopt_keeps_records(state: DirectoryState, copies: Seq<UserStruct>, k: int)
    requires
        table_wf(state.users, state.count, state.capacity),
        all_records_wf(state),
        0 <= k,
        forall|n: int| 0 <= n < copies.len() ==> (#[trigger] copies[n]).wf(),
    ensures
        all_records_wf(state.adopt_from(copies, k)),
    decreases copies.len() - k,
{
    if k < copies.len() {
        let next = state.adopt(copies[k]);
        if next != state {
            lemma_with_inserted(state.users, state.count, state.capacity, copies[k]);
            assert forall|j: int|
                0 <= j < next.users.len() && (#[trigger] next.users[j]) is Some implies
                next.users[j]->0.wf() by {
                if j != first_free(state.users) {
                    assert(next.users[j] == state.users[j]);
                }
            }
        }
        lemma_adopt_keeps_records(next, copies, k + 1);
    }
}

/// A merge touches no buffer, and changes nothing but the two tables: the
/// queue, the day, the sessions, the issued tokens and the cached references
/// are what they were.
pub proof fn lemma_merge_touches_tables_only(state: DirectoryState)
    requires
        state.stores_wf(),
    ensures
        all_records_wf(state) ==> all_records_wf(state.merged()),
        state.merged().pending == state.pending,
        state.merged().day == state.day,
        state.merged().tokens == state.tokens,
        state.merged().references == state.references,
        state.merged().foreign_ids == state.foreign_ids,
        state.merged().foreign.sessions == state.foreign.sessions,
        state.merged().foreign.day == state.foreign.day,
{
    assert(mergeable(state));
    let shared = state.share_from(0);
    let taken = shared.taken_over();
    let copies = reclaimed_records(shared.foreign.records);
    lemma_share_from(state, 0);
    lemma_taken_over(shared);
    lemma_reclaimed(shared.foreign.records);
    if all_records_wf(state) {
        lemma_share_keeps_records(state, 0);
        assert(all_records_wf(taken)) by {
            assert forall|j: int|
                0 <= j < taken.users.len() && (#[trigger] taken.users[j]) is Some implies
                taken.users[j]->0.wf() by {
                assert(shared.users[j] is Some);
            }
            assert forall|j: int|
                0 <= j < taken.foreign.records.len() && (#[trigger] taken.foreign.records[j])
                    is Some implies taken.foreign.records[j]->0@.wf() by {
                assert(shared.foreign.records[j] is Some);
            }
        }
        assert forall|n: int| 0 <= n < copies.len() implies (#[trigger] copies[n]).wf() by {
            let source = reclaimed(shared.foreign.records)[n];
            let j = choose|j: int|
                0 <= j < shared.foreign.records.len() && shared.foreign.records[j] is Some
                    && shared.foreign.records[j]->0.ownership == OwnershipType::SHARED_C_PRIMARY
                    && source == (UserStructT {
                    ownership: OwnershipType::SHARED_RUST_PRIMARY,
                    ..shared.foreign.records[j]->0
                });
            assert(shared.foreign.records[j]->0@.wf());
        }
        lemma_adopt_keeps_records(taken, copies, 0);
    }
    lemma_share_fields(state, 0);
    lemma_adopt_fields(taken, copies, 0);
}

/// Sharing changes nothing but the two tables.
pub proof fn lemma_share_fields(state: DirectoryState, i: int)
    requires
        0 <= i,
    ensures
        state.share_from(i).pending == state.pending,
        state.share_from(i).day == state.day,
        state.share_from(i).tokens == state.tokens,
        state.share_from(i).references == state.references,
        state.share_from(i).foreign_ids == state.foreign_ids,
        state.share_from(i).foreign.sessions == state.foreign.sessions,
        state.share_from(i).foreign.day == state.foreign.day,
    decreases state.users.len() - i,
{
    if i < state.users.len() {
        lemma_share_fields(state.share_slot(i), i + 1);
    }
}

/// Adopting changes nothing but the table of the primary store.
pub proof fn lemma_adopt_fields(state: DirectoryState, copies: Seq<UserStruct>, k: int)
    requires
        0 <= k,
    ensures
        state.adopt_from(copies, k).foreign == state.foreign,
        state.adopt_from(copies, k).pending == state.pending,
        state.adopt_from(copies, k).day == state.day,
        state.adopt_from(copies, k).tokens == state.tokens,
        state.adopt_from(copies, k).references == state.references,
        state.adopt_from(copies, k).foreign_ids == state.foreign_ids,
    decreases copies.len() - k,
{
    if k < copies.len() {
        lemma_adopt_fields(state.adopt(copies[k]), copies, k + 1);
    }
}

/// The maintenance of the foreign store keeps the inactivity counts from
/// going negative, and touches no buffer.
pub proof fn lemma_maintenance_keeps_records(state: ForeignState, dc: int)
    requires
        state.wf(),
        foreign_records_wf(state.records),
    ensures
        foreign_records_wf(state.maintained(dc).records),
{
    let decayed = state.decayed();
    let after = state.maintained(dc);
    lemma_packed(decayed.records);
    lemma_kept(decayed.records);
    let slots = occupied_slots(decayed.records);
    assert forall|a: int|
        0 <= a < after.records.len() && (#[trigger] after.records[a]) is Some implies
        after.records[a]->0@.wf() by {
        assert(decayed.records[slots[a]] == after.records[a]);
        assert(state.records[slots[a]] is Some);
    }
}

/// One day leaves a well-formed directory well-formed. The day counter has
/// gone up by one and both sides know the new day; no signup waits any
/// longer; and every record still has terminated buffers and an inactivity
/// count that is not negative.
pub proof fn lemma_next_day(state: DirectoryState)
    requires
        state.wf(),
        state.day < i32::MAX,
    ensures
        state.next_day().wf(),
        state.next_day().day == state.day + 1,
        state.next_day().foreign.day == state.day + 1,
        state.next_day().pending.len() == 0,
        state.next_day().foreign.sessions == state.foreign.sessions,
        all_records_wf(state) ==> all_records_wf(state.next_day()),
{
    let start = state.drained();
    let flushed = state.flushed();
    lemma_flush_from(start, state.pending, 0);
    let counted = DirectoryState { day: flushed.day + 1, ..flushed };
    let aged = counted.aged();
    lemma_decayed_count(counted.users);
    lemma_decayed_all_releasable(counted.users);
    assert(aged.stores_wf()) by {
        assert forall|i: int|
            0 <= i < aged.users.len() && (#[trigger] aged.users[i]) is Some implies
            aged.users[i]->0.user_id
            == i by {
            assert(counted.users[i] is Some);
        }
    }
    let merged = if aged.is_merge_day() {
        aged.merged()
    } else {
        aged
    };
    if aged.is_merge_day() {
        lemma_merge_keeps_names_and_sharing(aged);
        lemma_merge_touches_tables_only(aged);
    }
    lemma_maintained(merged.foreign, merged.day);
    lemma_flush_sessions(start, state.pending, 0);
    if all_records_wf(state) {
        lemma_flush_keeps_records(start, state.pending, 0);
        lemma_aged_keeps_records(counted);
        lemma_maintenance_keeps_records(merged.foreign, merged.day);
    }
}

/// A flush opens no session.
pub proof fn lemma_flush_sessions(state: DirectoryState, entries: Seq<Signup>, i: int)
    requires
        0 <= i <= entries.len(),
    ensures
        state.flush_from(entries, i).foreign.sessions == state.foreign.sessions,
    decreases entries.len() - i,
{
    if i < entries.len() {
        lemma_flush_sessions(state.signed_up(entries[i], entries.len() - i), entries, i + 1);
    }
}

} // verus!
