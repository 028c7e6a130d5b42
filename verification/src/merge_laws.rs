//! What holds of a merge of the two stores.

use vstd::prelude::*;
use crate::foreign::{
    lemma_inserted, lemma_reclaimed, marshal, reclaim_slot, reclaimed, UserStructT,
};
use crate::ownership::{Backend, OwnershipType};
use crate::primary::{lemma_with_inserted, lookup, named, table_wf};
use crate::record::UserStruct;
use crate::slots::{first_free, lemma_first_index, lemma_occupied_same_shape, lemma_occupied_update};
use crate::state::{reclaimed_records, take_over_slot, DirectoryState};
use crate::text::text_of;
use crate::wrapper::shared_record;

verus! {

/// Whether a table of the primary store holds a record with the username
/// `name`.
pub open spec fn primary_holds(users: Seq<Option<UserStruct>>, name: Seq<u8>) -> bool {
    exists|i: int|
        0 <= i < users.len() && (#[trigger] users[i]) is Some && text_of(users[i]->0.username@)
            == name
}

/// Whether a table of the foreign store holds a record with the username
/// `name`.
pub open spec fn foreign_holds(records: Seq<Option<UserStructT>>, name: Seq<u8>) -> bool {
    exists|i: int|
        0 <= i < records.len() && (#[trigger] records[i]) is Some && text_of(
            records[i]->0.username@,
        ) == name
}

/// Whether either store holds a record with the username `name`.
pub open spec fn holds_name(state: DirectoryState, name: Seq<u8>) -> bool {
    primary_holds(state.users, name) || foreign_holds(state.foreign.records, name)
}

/// The usernames the directory knows: those of the records of both stores.
pub open spec fn usernames(state: DirectoryState) -> Set<Seq<u8>> {
    Set::new(|name: Seq<u8>| holds_name(state, name))
}

/// Whether `after` is `before` with nothing lost: every record is still in
/// its slot under its name, a shared record is still shared, and every record
/// of `after` has the name of a record of `before`.
pub open spec fn evolves(before: DirectoryState, after: DirectoryState) -> bool {
    &&& after.users.len() == before.users.len()
    &&& after.foreign.records.len() == before.foreign.records.len()
    &&& forall|j: int|
        0 <= j < before.users.len() && (#[trigger] before.users[j]) is Some ==> after.users[j]
            is Some && after.users[j]->0.username == before.users[j]->0.username && (
        before.users[j]->0.ownership.is_shared() ==> after.users[j]->0.ownership.is_shared())
    &&& forall|j: int|
        0 <= j < before.foreign.records.len() && (#[trigger] before.foreign.records[j]) is Some
            ==> after.foreign.records[j] is Some && after.foreign.records[j]->0.username
            == before.foreign.records[j]->0.username && (
        before.foreign.records[j]->0.ownership.is_shared()
            ==> after.foreign.records[j]->0.ownership.is_shared())
    &&& forall|j: int|
        0 <= j < after.users.len() && (#[trigger] after.users[j]) is Some ==> holds_name(
            before,
            text_of(after.users[j]->0.username@),
        )
    &&& forall|j: int|
        0 <= j < after.foreign.records.len() && (#[trigger] after.foreign.records[j]) is Some
            ==> holds_name(before, text_of(after.foreign.records[j]->0.username@))
}

/// What a merge needs of a directory: both stores are well-formed and the
/// primary store holds no record of the foreign store alone.
pub open spec fn mergeable(state: DirectoryState) -> bool {
    &&& table_wf(state.users, state.count, state.capacity)
    &&& state.foreign.wf()
    &&& forall|j: int|
        0 <= j < state.users.len() && (#[trigger] state.users[j]) is Some
            ==> state.users[j]->0.ownership != OwnershipType::C_OWNED
}

/// Whether every record that is in the middle of a merge has a record of the
/// same username in the primary store: the one it is a copy of.
pub open spec fn shared_have_partners(state: DirectoryState) -> bool {
    forall|j: int|
        0 <= j < state.foreign.records.len() && (#[trigger] state.foreign.records[j]) is Some
            && state.foreign.records[j]->0.ownership
            == OwnershipType::SHARED_C_PRIMARY ==> exists|i: int|
            0 <= i < state.users.len() && (#[trigger] state.users[i]) is Some
                && state.users[i]->0.username == state.foreign.records[j]->0.username
}

/// A merge changes no username and takes no record away: the set of
/// usernames the directory knows is the same after it, every record is still
/// in its slot, and a record that was shared is still shared. It leaves a
/// well-formed directory well-formed.
pub proof fn lemma_merge_keeps_names_and_sharing(state: DirectoryState)
    requires
        state.stores_wf(),
    ensures
        state.merged().stores_wf(),
        usernames(state.merged()) == usernames(state),
        evolves(state, state.merged()),
{
    assert(mergeable(state)) by {
        assert forall|j: int|
            0 <= j < state.users.len() && (#[trigger] state.users[j]) is Some implies
            state.users[j]->0.ownership
            != OwnershipType::C_OWNED by {}
    }
    let shared = state.share_from(0);
    lemma_share_from(state, 0);
    let taken = shared.taken_over();
    lemma_taken_over(shared);
    lemma_evolves_transitive(state, shared, taken);
    let copies = reclaimed_records(shared.foreign.records);
    lemma_reclaimed(shared.foreign.records);
    assert forall|n: int| 0 <= n < copies.len() implies (#[trigger] copies[n]).ownership.authority()
        == Backend::Primary && holds_name(taken, text_of(copies[n].username@)) by {
        let source = reclaimed(shared.foreign.records)[n];
        let i = choose|i: int|
            0 <= i < shared.foreign.records.len() && shared.foreign.records[i] is Some
                && shared.foreign.records[i]->0.ownership
                == OwnershipType::SHARED_C_PRIMARY && source == (UserStructT {
                ownership: OwnershipType::SHARED_RUST_PRIMARY,
                ..shared.foreign.records[i]->0
            });
        assert(taken.foreign.records[i] is Some);
        assert(taken.foreign.records[i]->0.username == copies[n].username);
    }
    lemma_adopt_from(taken, copies, 0);
    lemma_evolves_transitive(state, taken, state.merged());
    lemma_evolves_names(state, state.merged());
}

/// Two merges in direct succession change no username and turn no shared
/// record back into an unshared one, in either store.
pub proof fn lemma_merge_twice(state: DirectoryState)
    requires
        state.stores_wf(),
    ensures
        usernames(state.merged().merged()) == usernames(state),
        evolves(state, state.merged().merged()),
        forall|j: int|
            0 <= j < state.users.len() && (#[trigger] state.users[j]) is Some
                && state.users[j]->0.ownership.is_shared() ==> state.merged().merged().users[j]
                is Some && state.merged().merged().users[j]->0.ownership.is_shared(),
        forall|j: int|
            0 <= j < state.foreign.records.len() && (#[trigger] state.foreign.records[j]) is Some
                && state.foreign.records[j]->0.ownership.is_shared()
                ==> state.merged().merged().foreign.records[j] is Some
                && state.merged().merged().foreign.records[j]->0.ownership.is_shared(),
{
    lemma_merge_keeps_names_and_sharing(state);
    lemma_merge_keeps_names_and_sharing(state.merged());
    lemma_evolves_transitive(state, state.merged(), state.merged().merged());
}

/// A merge inserts nothing into the primary store: what it reclaims are the
/// copies of records the primary store holds, so that no record is there
/// twice on its account. The merge is the sharing followed by the taking
/// over, and the primary store holds as many records as before, in the same
/// slots.
pub proof fn lemma_merge_inserts_nothing(state: DirectoryState)
    requires
        state.stores_wf(),
    ensures
        state.merged() == state.share_from(0).taken_over(),
        state.merged().count == state.count,
        forall|j: int|
            0 <= j < state.users.len() ==> (#[trigger] state.merged().users[j] is Some
                <==> state.users[j] is Some),
{
    assert(mergeable(state));
    assert(shared_have_partners(state));
    let shared = state.share_from(0);
    lemma_share_from(state, 0);
    lemma_share_from_partners(state, 0);
    let taken = shared.taken_over();
    lemma_taken_over(shared);
    let copies = reclaimed_records(shared.foreign.records);
    lemma_reclaimed(shared.foreign.records);
    assert forall|n: int| 0 <= n < copies.len() implies lookup(
        taken.users,
        text_of((#[trigger] copies[n]).username@),
    ) is Some by {
        let source = reclaimed(shared.foreign.records)[n];
        let j = choose|j: int|
            0 <= j < shared.foreign.records.len() && shared.foreign.records[j] is Some
                && shared.foreign.records[j]->0.ownership
                == OwnershipType::SHARED_C_PRIMARY && source == (UserStructT {
                ownership: OwnershipType::SHARED_RUST_PRIMARY,
                ..shared.foreign.records[j]->0
            });
        let i = choose|i: int|
            0 <= i < shared.users.len() && (#[trigger] shared.users[i]) is Some
                && shared.users[i]->0.username == shared.foreign.records[j]->0.username;
        assert(taken.users[i] is Some);
        assert(taken.users[i]->0.username == copies[n].username);
        lemma_found_under_own_name(taken.users, i);
    }
    lemma_adopt_from_nothing(taken, copies, 0);
    assert forall|j: int| 0 <= j < state.users.len() implies (#[trigger] state.merged().users[j]
        is Some <==> state.users[j] is Some) by {
        if state.users[j] is Some {
            assert(shared.users[j] is Some);
        }
        if state.merged().users[j] is Some {
            assert(shared.users[j] is Some);
            if state.users[j] is None {
                lemma_share_from_keeps_gaps(state, 0, j);
            }
        }
    }
}

/// A merge is idempotent: a second merge right after a first changes
/// nothing at all.
pub proof fn lemma_merge_is_idempotent(state: DirectoryState)
    requires
        state.stores_wf(),
    ensures
        state.merged().merged() == state.merged(),
{
    lemma_merge_inserts_nothing(state);
    assert(mergeable(state));
    let shared = state.share_from(0);
    lemma_share_from(state, 0);
    lemma_share_from_saturates(state, 0);
    let once = shared.taken_over();
    lemma_taken_over(shared);
    assert(once == state.merged());
    // a second sharing finds every record shared, or the foreign store full
    assert forall|j: int| 0 <= j < once.users.len() && (#[trigger] once.users[j]) is Some implies
        once.users[j]->0.ownership
        != OwnershipType::RUST_OWNED || !once.foreign.takes_insert() by {
        assert(shared.users[j] is Some);
    }
    lemma_share_from_nothing(once, 0);
    // a second taking over finds nothing to take over
    assert(once.taken_over().users =~= once.users) by {
        assert forall|j: int| 0 <= j < once.users.len() implies take_over_slot(
            once.users[j],
        ) == once.users[j] by {
            if once.users[j] is Some {
                assert(shared.users[j] is Some);
            }
        }
    }
    assert(once.foreign.after_reclaim().records =~= once.foreign.records) by {
        assert forall|j: int| 0 <= j < once.foreign.records.len() implies reclaim_slot(
            once.foreign.records[j],
        ) == once.foreign.records[j] by {
            if once.foreign.records[j] is Some {
                assert(shared.foreign.records[j] is Some);
            }
        }
    }
    assert(once.taken_over() == once);
    lemma_nothing_to_reclaim(once.foreign.records);
    let copies = reclaimed_records(once.foreign.records);
    assert(copies =~= Seq::<UserStruct>::empty());
}

/// With nothing lost and every name an old one, the usernames are the same.
pub proof fn lemma_evolves_names(before: DirectoryState, after: DirectoryState)
    requires
        evolves(before, after),
    ensures
        forall|name: Seq<u8>| holds_name(after, name) <==> holds_name(before, name),
        usernames(after) == usernames(before),
{
    assert forall|name: Seq<u8>| holds_name(after, name) <==> holds_name(before, name) by {
        if primary_holds(before.users, name) {
            let i = choose|i: int|
                0 <= i < before.users.len() && (#[trigger] before.users[i]) is Some && text_of(
                    before.users[i]->0.username@,
                ) == name;
            assert(after.users[i] is Some);
        }
        if foreign_holds(before.foreign.records, name) {
            let i = choose|i: int|
                0 <= i < before.foreign.records.len() && (#[trigger] before.foreign.records[i])
                    is Some && text_of(before.foreign.records[i]->0.username@) == name;
            assert(after.foreign.records[i] is Some);
        }
        if primary_holds(after.users, name) {
            let i = choose|i: int|
                0 <= i < after.users.len() && (#[trigger] after.users[i]) is Some && text_of(
                    after.users[i]->0.username@,
                ) == name;
        }
        if foreign_holds(after.foreign.records, name) {
            let i = choose|i: int|
                0 <= i < after.foreign.records.len() && (#[trigger] after.foreign.records[i])
                    is Some && text_of(after.foreign.records[i]->0.username@) == name;
        }
    }
    assert(usernames(after) =~= usernames(before));
}

/// Nothing is lost where nothing happens.
pub proof fn lemma_evolves_reflexive(state: DirectoryState)
    ensures
        evolves(state, state),
{
}

/// Nothing is lost over two steps when nothing is lost in either.
pub proof fn lemma_evolves_transitive(a: DirectoryState, b: DirectoryState, c: DirectoryState)
    requires
        evolves(a, b),
        evolves(b, c),
    ensures
        evolves(a, c),
{
    lemma_evolves_names(a, b);
    assert forall|j: int| 0 <= j < a.users.len() && (#[trigger] a.users[j]) is Some implies
        c.users[j]
        is Some && c.users[j]->0.username == a.users[j]->0.username && (
    a.users[j]->0.ownership.is_shared() ==> c.users[j]->0.ownership.is_shared()) by {
        assert(b.users[j] is Some);
    }
    assert forall|j: int|
        0 <= j < a.foreign.records.len() && (#[trigger] a.foreign.records[j]) is Some
            implies c.foreign.records[j]
        is Some && c.foreign.records[j]->0.username == a.foreign.records[j]->0.username && (
    a.foreign.records[j]->0.ownership.is_shared()
        ==> c.foreign.records[j]->0.ownership.is_shared()) by {
        assert(b.foreign.records[j] is Some);
    }
}

/// Sharing one slot loses nothing, and the copy the foreign store may get has
/// the name of the record it is a copy of.
pub proof fn lemma_share_slot(state: DirectoryState, i: int)
    requires
        mergeable(state),
    ensures
        mergeable(state.share_slot(i)),
        evolves(state, state.share_slot(i)),
        state.share_slot(i).count == state.count,
        state.share_slot(i).capacity == state.capacity,
{
    let after = state.share_slot(i);
    if 0 <= i < state.users.len() && state.users[i] is Some {
        let user = state.users[i]->0;
        let shared = shared_record(state.foreign, user);
        lemma_occupied_update(state.users, i, Some(shared));
        let copy = marshal(
            UserStruct { ownership: OwnershipType::SHARED_C_PRIMARY, ..user },
        );
        lemma_inserted(state.foreign, copy);
        assert forall|j: int|
            0 <= j < after.foreign.records.len() && (#[trigger] after.foreign.records[j])
                is Some implies holds_name(
            state,
            text_of(after.foreign.records[j]->0.username@),
        ) by {
            if state.foreign.records[j] is Some {
                assert(after.foreign.records[j] == state.foreign.records[j]);
            } else {
                assert(j == first_free(state.foreign.records));
                assert(after.foreign.records[j]->0.username == user.username);
                assert(state.users[i] is Some);
            }
        }
        assert forall|j: int|
            0 <= j < after.users.len() && (#[trigger] after.users[j]) is Some implies
            holds_name(
            state,
            text_of(after.users[j]->0.username@),
        ) by {
            assert(state.users[j] is Some);
        }
    }
}

/// Sharing every slot from `i` on loses nothing.
pub proof fn lemma_share_from(state: DirectoryState, i: int)
    requires
        mergeable(state),
        0 <= i,
    ensures
        mergeable(state.share_from(i)),
        evolves(state, state.share_from(i)),
        state.share_from(i).count == state.count,
        state.share_from(i).capacity == state.capacity,
    decreases state.users.len() - i,
{
    if i < state.users.len() {
        lemma_share_slot(state, i);
        lemma_share_from(state.share_slot(i), i + 1);
        lemma_evolves_transitive(state, state.share_slot(i), state.share_from(i));
    }
}

/// Taking over what was shared loses nothing, and leaves every record of the
/// primary store the primary store's to release.
pub proof fn lemma_taken_over(state: DirectoryState)
    requires
        mergeable(state),
    ensures
        state.taken_over().stores_wf(),
        evolves(state, state.taken_over()),
{
    let after = state.taken_over();
    lemma_occupied_same_shape(state.users, after.users);
    lemma_occupied_same_shape(state.foreign.records, after.foreign.records);
    assert forall|j: int| 0 <= j < after.users.len() && (#[trigger] after.users[j]) is Some implies
        holds_name(
        state,
        text_of(after.users[j]->0.username@),
    ) by {
        assert(state.users[j] is Some);
    }
    assert forall|j: int|
        0 <= j < after.foreign.records.len() && (#[trigger] after.foreign.records[j])
            is Some implies holds_name(state, text_of(after.foreign.records[j]->0.username@)) by {
        assert(state.foreign.records[j] is Some);
    }
    assert forall|j: int| 0 <= j < state.users.len() && (#[trigger] state.users[j]) is Some implies
        after.users[j]
        is Some && after.users[j]->0.username == state.users[j]->0.username && (
    state.users[j]->0.ownership.is_shared() ==> after.users[j]->0.ownership.is_shared()) by {}
    assert forall|j: int|
        0 <= j < state.foreign.records.len() && (#[trigger] state.foreign.records[j])
            is Some implies after.foreign.records[j] is Some
        && after.foreign.records[j]->0.username == state.foreign.records[j]->0.username && (
    state.foreign.records[j]->0.ownership.is_shared()
        ==> after.foreign.records[j]->0.ownership.is_shared()) by {}
    assert forall|j: int| 0 <= j < after.users.len() && (#[trigger] after.users[j]) is Some implies
        after.users[j]->0.ownership.authority()
        == Backend::Primary by {
        assert(state.users[j] is Some);
    }
    assert(after.foreign.wf()) by {
        assert forall|a: int, b: int|
            0 <= a < b < after.foreign.records.len() && (#[trigger] after.foreign.records[a])
                is Some && (#[trigger] after.foreign.records[b])
                is Some implies after.foreign.records[a]->0.user_id
            != after.foreign.records[b]->0.user_id by {
            assert(state.foreign.records[a] is Some);
            assert(state.foreign.records[b] is Some);
        }
        assert forall|a: int|
            0 <= a < after.foreign.records.len() && (#[trigger] after.foreign.records[a])
                is Some implies 1 <= after.foreign.records[a]->0.user_id
            < after.foreign.next_id by {
            assert(state.foreign.records[a] is Some);
        }
    }
    assert(table_wf(after.users, after.count, after.capacity)) by {
        assert forall|a: int|
            0 <= a < after.users.len() && (#[trigger] after.users[a]) is Some implies
            after.users[a]->0.user_id
            == a by {
            assert(state.users[a] is Some);
        }
    }
}

/// Adopting a copy that is the primary store's to release, and has the name
/// of a record the directory holds, loses nothing.
pub proof fn lemma_adopt(state: DirectoryState, copy: UserStruct)
    requires
        state.stores_wf(),
        copy.ownership.authority() == Backend::Primary,
        holds_name(state, text_of(copy.username@)),
    ensures
        state.adopt(copy).stores_wf(),
        evolves(state, state.adopt(copy)),
{
    let after = state.adopt(copy);
    if after != state {
        lemma_with_inserted(state.users, state.count, state.capacity, copy);
        let slot = first_free(state.users);
        assert forall|j: int|
            0 <= j < after.users.len() && (#[trigger] after.users[j]) is Some implies
            holds_name(
            state,
            text_of(after.users[j]->0.username@),
        ) && after.users[j]->0.ownership.authority() == Backend::Primary by {
            if j != slot {
                assert(after.users[j] == state.users[j]);
                assert(state.users[j] is Some);
            }
        }
        assert forall|j: int|
            0 <= j < state.users.len() && (#[trigger] state.users[j]) is Some implies
            after.users[j]
            is Some && after.users[j]->0.username == state.users[j]->0.username && (
        state.users[j]->0.ownership.is_shared() ==> after.users[j]->0.ownership.is_shared()) by {
            assert(j != slot);
            assert(after.users[j] == state.users[j]);
        }
        assert forall|j: int|
            0 <= j < after.foreign.records.len() && (#[trigger] after.foreign.records[j])
                is Some implies holds_name(
            state,
            text_of(after.foreign.records[j]->0.username@),
        ) by {
            assert(state.foreign.records[j] is Some);
        }
    } else {
        lemma_evolves_reflexive(state);
    }
}

/// Adopting the copies from the `k`-th on loses nothing.
pub proof fn lemma_adopt_from(state: DirectoryState, copies: Seq<UserStruct>, k: int)
    requires
        state.stores_wf(),
        0 <= k,
        forall|n: int|
            0 <= n < copies.len() ==> (#[trigger] copies[n]).ownership.authority()
                == Backend::Primary && holds_name(state, text_of(copies[n].username@)),
    ensures
        state.adopt_from(copies, k).stores_wf(),
        evolves(state, state.adopt_from(copies, k)),
    decreases copies.len() - k,
{
    if k < copies.len() {
        let next = state.adopt(copies[k]);
        lemma_adopt(state, copies[k]);
        lemma_evolves_names(state, next);
        lemma_adopt_from(next, copies, k + 1);
        lemma_evolves_transitive(state, next, state.adopt_from(copies, k));
    } else {
        lemma_evolves_reflexive(state);
    }
}

/// A record is found under its own username.
pub proof fn lemma_found_under_own_name(users: Seq<Option<UserStruct>>, i: int)
    requires
        0 <= i < users.len(),
        users[i] is Some,
    ensures
        lookup(users, text_of(users[i]->0.username@)) is Some,
{
    let name = text_of(users[i]->0.username@);
    assert(named(name)(users[i]));
    lemma_first_index(users, named(name), 0);
}

/// Sharing one slot gives every copy it makes a partner.
pub proof fn lemma_share_slot_partners(state: DirectoryState, i: int)
    requires
        mergeable(state),
        shared_have_partners(state),
    ensures
        shared_have_partners(state.share_slot(i)),
{
    let after = state.share_slot(i);
    if 0 <= i < state.users.len() && state.users[i] is Some {
        let user = state.users[i]->0;
        let copy = marshal(
            UserStruct { ownership: OwnershipType::SHARED_C_PRIMARY, ..user },
        );
        lemma_inserted(state.foreign, copy);
        assert forall|j: int|
            0 <= j < after.foreign.records.len() && (#[trigger] after.foreign.records[j]) is Some
                && after.foreign.records[j]->0.ownership
                == OwnershipType::SHARED_C_PRIMARY implies exists|k: int|
            0 <= k < after.users.len() && (#[trigger] after.users[k]) is Some
                && after.users[k]->0.username == after.foreign.records[j]->0.username by {
            if state.foreign.records[j] is Some {
                assert(after.foreign.records[j] == state.foreign.records[j]);
                let k = choose|k: int|
                    0 <= k < state.users.len() && (#[trigger] state.users[k]) is Some
                        && state.users[k]->0.username == state.foreign.records[j]->0.username;
                assert(after.users[k] is Some);
                assert(after.users[k]->0.username == state.users[k]->0.username);
            } else {
                assert(j == first_free(state.foreign.records));
                assert(after.users[i] is Some);
                assert(after.users[i]->0.username == user.username);
            }
        }
    }
}

/// Sharing every slot from `i` on gives every copy it makes a partner.
pub proof fn lemma_share_from_partners(state: DirectoryState, i: int)
    requires
        mergeable(state),
        shared_have_partners(state),
        0 <= i,
    ensures
        shared_have_partners(state.share_from(i)),
    decreases state.users.len() - i,
{
    if i < state.users.len() {
        lemma_share_slot(state, i);
        lemma_share_slot_partners(state, i);
        lemma_share_from_partners(state.share_slot(i), i + 1);
    }
}

/// Copies whose names the primary store holds are not adopted.
pub proof fn lemma_adopt_from_nothing(state: DirectoryState, copies: Seq<UserStruct>, k: int)
    requires
        0 <= k,
        forall|n: int|
            k <= n < copies.len() ==> lookup(
                state.users,
                text_of((#[trigger] copies[n]).username@),
            ) is Some,
    ensures
        state.adopt_from(copies, k) == state,
    decreases copies.len() - k,
{
    if k < copies.len() {
        assert(state.adopt(copies[k]) == state);
        lemma_adopt_from_nothing(state, copies, k + 1);
    }
}

/// Sharing fills no empty slot of the primary store.
pub proof fn lemma_share_from_keeps_gaps(state: DirectoryState, i: int, j: int)
    requires
        0 <= i,
        0 <= j < state.users.len(),
        state.users[j] is None,
    ensures
        state.share_from(i).users.len() == state.users.len(),
        state.share_from(i).users[j] is None,
    decreases state.users.len() - i,
{
    if i < state.users.len() {
        lemma_share_from_keeps_gaps(state.share_slot(i), i + 1, j);
    }
}

/// Once the foreign store takes no insert, sharing changes nothing; and what
/// sharing leaves as a record of the primary store alone, it left so because
/// the foreign store took no insert.
pub proof fn lemma_share_from_saturates(state: DirectoryState, i: int)
    requires
        mergeable(state),
        0 <= i,
    ensures
        state.share_from(i).users.len() == state.users.len(),
        forall|j: int|
            0 <= j < i && j < state.users.len() ==> (#[trigger] state.share_from(i).users[j])
            == state.users[j],
        !state.foreign.takes_insert() ==> !state.share_from(i).foreign.takes_insert(),
        forall|j: int|
            i <= j < state.users.len() && (#[trigger] state.share_from(i).users[j]) is Some
                && state.share_from(i).users[j]->0.ownership
                == OwnershipType::RUST_OWNED ==> !state.share_from(
                i,
            ).foreign.takes_insert(),
    decreases state.users.len() - i,
{
    if i < state.users.len() {
        let mid = state.share_slot(i);
        lemma_share_slot(state, i);
        lemma_share_from_saturates(mid, i + 1);
        let after = state.share_from(i);
        assert(after.users[i] == mid.users[i]);
        assert forall|j: int| 0 <= j < i && j < state.users.len() implies
            (#[trigger] after.users[j])
            == state.users[j] by {
            assert(after.users[j] == mid.users[j]);
        }
    }
}

/// Sharing changes nothing when every record is shared already or the
/// foreign store takes no insert.
pub proof fn lemma_share_from_nothing(state: DirectoryState, i: int)
    requires
        0 <= i,
        forall|j: int|
            i <= j < state.users.len() && (#[trigger] state.users[j]) is Some
                ==> state.users[j]->0.ownership != OwnershipType::RUST_OWNED
                || !state.foreign.takes_insert(),
    ensures
        state.share_from(i) == state,
    decreases state.users.len() - i,
{
    if i < state.users.len() {
        let mid = state.share_slot(i);
        if state.users[i] is Some {
            assert(mid.users =~= state.users);
        }
        assert(mid == state);
        lemma_share_from_nothing(state, i + 1);
    }
}

/// A settled store has nothing to reclaim.
pub proof fn lemma_nothing_to_reclaim(records: Seq<Option<UserStructT>>)
    requires
        forall|i: int|
            0 <= i < records.len() && (#[trigger] records[i]) is Some ==> records[i]->0.ownership
                != OwnershipType::SHARED_C_PRIMARY,
    ensures
        reclaimed(records) == Seq::<UserStructT>::empty(),
    decreases records.len(),
{
    if records.len() > 0 {
        assert(records.last() == records[records.len() - 1]);
        assert forall|i: int|
            0 <= i < records.drop_last().len() && (#[trigger] records.drop_last()[i])
            is Some implies records.drop_last()[i]->0.ownership
            != OwnershipType::SHARED_C_PRIMARY by {
            assert(records.drop_last()[i] == records[i]);
        }
        lemma_nothing_to_reclaim(records.drop_last());
    }
}

} // verus!
