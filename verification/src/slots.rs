//! Facts about a table of optional slots: how many are occupied, which slot
//! is the first with some property, and what the table is once its records
//! are moved to the front.

use vstd::prelude::*;

verus! {

/// Number of occupied slots of a table.
pub open spec fn occupied<T>(s: Seq<Option<T>>) -> nat
    decreases s.len(),
{
    if s.len() == 0 {
        0
    } else if s.last() is Some {
        occupied(s.drop_last()) + 1
    } else {
        occupied(s.drop_last())
    }
}

/// Index of the first slot at or after `from` that satisfies `p`, or the
/// length of the table when there is none.
pub open spec fn first_index<T>(s: Seq<T>, p: spec_fn(T) -> bool, from: int) -> int
    decreases s.len() - from,
{
    if from < 0 || from >= s.len() {
        s.len() as int
    } else if p(s[from]) {
        from
    } else {
        first_index(s, p, from + 1)
    }
}

/// The predicate of an empty slot.
pub open spec fn is_free<T>() -> spec_fn(Option<T>) -> bool {
    |o: Option<T>| o is None
}

/// Index of the first empty slot, or the length of the table.
pub open spec fn first_free<T>(s: Seq<Option<T>>) -> int {
    first_index(s, is_free::<T>(), 0)
}

/// Whether the occupied slots are exactly the first ones.
pub open spec fn is_dense<T>(s: Seq<Option<T>>) -> bool {
    forall|i: int, j: int| 0 <= i < j < s.len() && s[j] is Some ==> s[i] is Some
}

/// The indices of the occupied slots of a table, in increasing order.
pub open spec fn occupied_slots<T>(s: Seq<Option<T>>) -> Seq<int>
    decreases s.len(),
{
    if s.len() == 0 {
        Seq::empty()
    } else if s.last() is Some {
        occupied_slots(s.drop_last()).push(s.len() - 1)
    } else {
        occupied_slots(s.drop_last())
    }
}

/// The records of the occupied slots of a table, in index order.
pub open spec fn kept<T>(s: Seq<Option<T>>) -> Seq<T>
    decreases s.len(),
{
    if s.len() == 0 {
        Seq::empty()
    } else if s.last() is Some {
        kept(s.drop_last()).push(s.last()->0)
    } else {
        kept(s.drop_last())
    }
}

/// A table with its records moved to the front: the same records in the same
/// order, with no gap between them, in a table of the same size.
pub open spec fn packed<T>(s: Seq<Option<T>>) -> Seq<Option<T>> {
    Seq::new(
        s.len(),
        |i: int|
            if i < kept(s).len() {
                Some(kept(s)[i])
            } else {
                None
            },
    )
}

/// The first index lies at or after `from`, no slot between the two
/// satisfies `p`, and the slot at it does unless it is the length.
pub proof fn lemma_first_index<T>(s: Seq<T>, p: spec_fn(T) -> bool, from: int)
    requires
        0 <= from <= s.len(),
    ensures
        from <= first_index(s, p, from) <= s.len(),
        forall|j: int| from <= j < first_index(s, p, from) ==> !p(#[trigger] s[j]),
        first_index(s, p, from) < s.len() ==> p(s[first_index(s, p, from)]),
    decreases s.len() - from,
{
    if from < s.len() && !p(s[from]) {
        lemma_first_index(s, p, from + 1);
    }
}

/// A slot that satisfies `p`, or the end, with no such slot before it, is the
/// first index.
pub proof fn lemma_first_index_is<T>(s: Seq<T>, p: spec_fn(T) -> bool, k: int)
    requires
        0 <= k <= s.len(),
        forall|j: int| 0 <= j < k ==> !p(#[trigger] s[j]),
        k < s.len() ==> p(s[k]),
    ensures
        first_index(s, p, 0) == k,
{
    lemma_first_index(s, p, 0);
}

/// A table holds no more records than it has slots.
pub proof fn lemma_occupied_bound<T>(s: Seq<Option<T>>)
    ensures
        occupied(s) <= s.len(),
    decreases s.len(),
{
    if s.len() > 0 {
        lemma_occupied_bound(s.drop_last());
    }
}

/// A table of empty slots holds nothing.
pub proof fn lemma_occupied_none<T>(s: Seq<Option<T>>)
    requires
        forall|j: int| 0 <= j < s.len() ==> s[j] is None,
    ensures
        occupied(s) == 0,
    decreases s.len(),
{
    if s.len() > 0 {
        lemma_occupied_none(s.drop_last());
    }
}

/// A table with no empty slot is full.
pub proof fn lemma_occupied_all<T>(s: Seq<Option<T>>)
    requires
        forall|j: int| 0 <= j < s.len() ==> !is_free::<T>()(#[trigger] s[j]),
    ensures
        occupied(s) == s.len(),
    decreases s.len(),
{
    if s.len() > 0 {
        assert(!is_free::<T>()(s[s.len() - 1]));
        assert forall|j: int| 0 <= j < s.drop_last().len() implies !is_free::<T>()(
            #[trigger] s.drop_last()[j],
        ) by {
            assert(s.drop_last()[j] == s[j]);
            assert(!is_free::<T>()(s[j]));
        }
        lemma_occupied_all(s.drop_last());
    }
}

/// A table occupied exactly on its first `k` slots holds `k`.
pub proof fn lemma_occupied_prefix<T>(s: Seq<Option<T>>, k: int)
    requires
        0 <= k <= s.len(),
        forall|j: int| 0 <= j < k ==> !is_free::<T>()(#[trigger] s[j]),
        forall|j: int| k <= j < s.len() ==> s[j] is None,
    ensures
        occupied(s) == k,
    decreases s.len(),
{
    if s.len() > 0 {
        if k == s.len() {
            lemma_occupied_all(s);
        } else {
            let front = s.drop_last();
            assert forall|j: int| 0 <= j < k implies !is_free::<T>()(#[trigger] front[j]) by {
                assert(front[j] == s[j]);
                assert(!is_free::<T>()(s[j]));
            }
            lemma_occupied_prefix(front, k);
        }
    }
}

/// A table with fewer occupied slots than slots has an empty one.
pub proof fn lemma_free_exists<T>(s: Seq<Option<T>>)
    requires
        occupied(s) < s.len(),
    ensures
        0 <= first_free(s) < s.len(),
        s[first_free(s)] is None,
{
    lemma_first_index(s, is_free::<T>(), 0);
    if first_free(s) == s.len() {
        lemma_occupied_all(s);
    }
}

/// Writing one slot changes the count by what the slot gains or loses.
pub proof fn lemma_occupied_update<T>(s: Seq<Option<T>>, k: int, v: Option<T>)
    requires
        0 <= k < s.len(),
    ensures
        occupied(s.update(k, v)) + (if s[k] is Some { 1int } else { 0 })
            == occupied(s) + (if v is Some { 1int } else { 0 }),
    decreases s.len(),
{
    let t = s.update(k, v);
    if k == s.len() - 1 {
        assert(t.drop_last() =~= s.drop_last());
    } else {
        assert(t.drop_last() =~= s.drop_last().update(k, v));
        lemma_occupied_update(s.drop_last(), k, v);
    }
}

/// Two tables occupied at the same slots hold equally many.
pub proof fn lemma_occupied_same_shape<T, U>(s: Seq<Option<T>>, t: Seq<Option<U>>)
    requires
        s.len() == t.len(),
        forall|j: int| 0 <= j < s.len() ==> (s[j] is Some <==> t[j] is Some),
    ensures
        occupied(s) == occupied(t),
    decreases s.len(),
{
    if s.len() > 0 {
        lemma_occupied_same_shape(s.drop_last(), t.drop_last());
    }
}

/// In a dense table the first empty slot is the one at the count.
pub proof fn lemma_dense_first_free<T>(s: Seq<Option<T>>)
    requires
        is_dense(s),
    ensures
        first_free(s) == occupied(s),
    decreases s.len(),
{
    lemma_first_index(s, is_free::<T>(), 0);
    let f = first_free(s);
    assert forall|j: int| f <= j < s.len() implies s[j] is None by {
        if s[j] is Some && f < j {
            assert(s[f] is Some);
        }
    }
    lemma_occupied_prefix(s, f);
}

/// There is one index for each occupied slot, each is the index of an
/// occupied slot, and every occupied slot has its index listed.
pub proof fn lemma_occupied_slots<T>(s: Seq<Option<T>>)
    ensures
        occupied_slots(s).len() == occupied(s),
        forall|k: int|
            0 <= k < occupied_slots(s).len() ==> 0 <= (#[trigger] occupied_slots(s)[k]) < s.len()
                && s[occupied_slots(s)[k]] is Some,
        forall|i: int|
            0 <= i < s.len() && (#[trigger] s[i]) is Some ==> occupied_slots(s).contains(i),
    decreases s.len(),
{
    if s.len() > 0 {
        let front = s.drop_last();
        lemma_occupied_slots(front);
        let slots = occupied_slots(s);
        assert forall|k: int| 0 <= k < slots.len() implies 0 <= (#[trigger] slots[k]) < s.len()
            && s[slots[k]] is Some by {
            if k < occupied_slots(front).len() {
                assert(slots[k] == occupied_slots(front)[k]);
                assert(front[slots[k]] == s[slots[k]]);
            }
        }
        assert forall|i: int| 0 <= i < s.len() && (#[trigger] s[i]) is Some implies slots.contains(
            i,
        ) by {
            if i < front.len() {
                assert(front[i] is Some);
                let k = choose|k: int|
                    0 <= k < occupied_slots(front).len() && occupied_slots(front)[k] == i;
                assert(slots[k] == i);
            } else {
                assert(slots[slots.len() - 1] == i);
            }
        }
    }
}

/// The listed indices of a prefix grow with the slot that follows it.
pub proof fn lemma_occupied_slots_step<T>(s: Seq<Option<T>>, i: int)
    requires
        0 <= i < s.len(),
    ensures
        s[i] is Some ==> occupied_slots(s.take(i + 1)) == occupied_slots(s.take(i)).push(i),
        s[i] is None ==> occupied_slots(s.take(i + 1)) == occupied_slots(s.take(i)),
{
    assert(s.take(i + 1).drop_last() =~= s.take(i));
}

/// The records kept are those of the occupied slots, one for each, in the
/// order of their slots.
pub proof fn lemma_kept<T>(s: Seq<Option<T>>)
    ensures
        kept(s).len() == occupied(s),
        kept(s).len() == occupied_slots(s).len(),
        kept(s).len() <= s.len(),
        forall|k: int|
            0 <= k < kept(s).len() ==> 0 <= (#[trigger] occupied_slots(s)[k]) < s.len()
                && s[occupied_slots(s)[k]] == Some(kept(s)[k]),
        forall|a: int, b: int|
            0 <= a < b < kept(s).len() ==> (#[trigger] occupied_slots(s)[a]) < (
            #[trigger] occupied_slots(s)[b]),
    decreases s.len(),
{
    if s.len() > 0 {
        let front = s.drop_last();
        lemma_kept(front);
        lemma_occupied_bound(front);
        assert forall|k: int| 0 <= k < kept(s).len() implies 0 <= (#[trigger] occupied_slots(
            s,
        )[k]) < s.len() && s[occupied_slots(s)[k]] == Some(kept(s)[k]) by {
            if k < kept(front).len() {
                assert(occupied_slots(s)[k] == occupied_slots(front)[k]);
                assert(front[occupied_slots(front)[k]] == s[occupied_slots(front)[k]]);
            }
        }
        assert forall|a: int, b: int| 0 <= a < b < kept(s).len() implies (
        #[trigger] occupied_slots(s)[a]) < (#[trigger] occupied_slots(s)[b]) by {
            assert(occupied_slots(s)[a] == occupied_slots(front)[a]);
            if b < kept(front).len() {
                assert(occupied_slots(s)[b] == occupied_slots(front)[b]);
            }
        }
    }
}

/// The records kept of a prefix grow with the slot that follows it.
pub proof fn lemma_kept_step<T>(s: Seq<Option<T>>, i: int)
    requires
        0 <= i < s.len(),
    ensures
        s[i] is Some ==> kept(s.take(i + 1)) == kept(s.take(i)).push(s[i]->0),
        s[i] is None ==> kept(s.take(i + 1)) == kept(s.take(i)),
{
    assert(s.take(i + 1).drop_last() =~= s.take(i));
}

/// A table whose first slots hold the records `values`, in order, and whose
/// other slots are empty, keeps exactly `values`.
pub proof fn lemma_kept_of_prefix<T>(p: Seq<Option<T>>, values: Seq<T>)
    requires
        values.len() <= p.len(),
        forall|j: int| 0 <= j < values.len() ==> p[j] == Some(values[j]),
        forall|j: int| values.len() <= j < p.len() ==> p[j] is None,
    ensures
        kept(p) == values,
    decreases p.len(),
{
    if p.len() > 0 {
        let front = p.drop_last();
        if values.len() == p.len() {
            let fewer = values.drop_last();
            lemma_kept_of_prefix(front, fewer);
            assert(kept(p) =~= values);
        } else {
            lemma_kept_of_prefix(front, values);
        }
    } else {
        assert(values =~= Seq::<T>::empty());
    }
}

/// A packed table holds as many records as the table it was made of, and has
/// no gap before its last record.
pub proof fn lemma_packed<T>(s: Seq<Option<T>>)
    ensures
        packed(s).len() == s.len(),
        occupied(packed(s)) == occupied(s),
        is_dense(packed(s)),
        kept(packed(s)) == kept(s),
{
    lemma_kept(s);
    let p = packed(s);
    let n = kept(s).len() as int;
    assert forall|j: int| 0 <= j < n implies !is_free::<T>()(#[trigger] p[j]) by {}
    lemma_occupied_prefix(p, n);
    lemma_kept_of_prefix(p, kept(s));
}

} // verus!
