//! Laws of the slot table: properties that relate several operations,
//! stated over the model sequences that the operations' contracts speak of
//! and proved once for every input.

use vstd::prelude::*;

verus! {

use crate::table::accepts;
use crate::table::after_delete;
use crate::table::after_set;
use crate::table::lookup;
use crate::table::occupied_count;
use crate::table::slot_of;

/// Replacing slot `i` of `s` by `x` changes the occupied count exactly by
/// the occupancy lost at `i` and the occupancy brought by `x`.
proof fn lemma_occupied_count_update<T>(
    s: Seq<Option<(Seq<char>, T)>>,
    i: int,
    x: Option<(Seq<char>, T)>,
)
    requires
        0 <= i < s.len(),
    ensures
        occupied_count(s.update(i, x)) + (if s[i] is Some {
            1nat
        } else {
            0nat
        }) == occupied_count(s) + (if x is Some {
            1nat
        } else {
            0nat
        }),
    decreases s.len(),
{
    let t = s.update(i, x);
    if i == s.len() - 1 {
        assert(t.drop_last() =~= s.drop_last());
    } else {
        assert(t.drop_last() =~= s.drop_last().update(i, x));
        lemma_occupied_count_update(s.drop_last(), i, x);
        assert(t.last() == s.last());
    }
}

/// Round trip: after an accepted `set(key, value)`, looking `key` up
/// returns that very value.
pub proof fn lemma_round_trip<T>(s: Seq<Option<(Seq<char>, T)>>, key: Seq<char>, value: T)
    requires
        accepts(s, key),
    ensures
        lookup(after_set(s, key, value), key) == Some(value),
{
}

/// Overwrite idempotence: after an accepted `set(key, v1)`, a second
/// `set(key, v2)` is accepted too, leaves the occupied count (and with it
/// the load factor) unchanged, and looking `key` up returns `v2`.
pub proof fn lemma_overwrite_keeps_load<T>(
    s: Seq<Option<(Seq<char>, T)>>,
    key: Seq<char>,
    v1: T,
    v2: T,
)
    requires
        accepts(s, key),
    ensures
        accepts(after_set(s, key, v1), key),
        lookup(after_set(after_set(s, key, v1), key, v2), key) == Some(v2),
        occupied_count(after_set(after_set(s, key, v1), key, v2)) == occupied_count(
            after_set(s, key, v1),
        ),
        after_set(after_set(s, key, v1), key, v2).len() == s.len(),
{
    let s1 = after_set(s, key, v1);
    let i = slot_of(key, s.len()) as int;
    lemma_occupied_count_update(s1, i, Some((key, v2)));
}

/// Collision rejection at capacity 1: inserting `key_a` into the empty
/// one-slot table is accepted, any write of a different `key_b` afterwards
/// is rejected and leaves the table untouched, and `key_a` keeps its
/// original value.
pub proof fn lemma_collision_rejection<T>(
    s: Seq<Option<(Seq<char>, T)>>,
    key_a: Seq<char>,
    key_b: Seq<char>,
    value_a: T,
    value_b: T,
)
    requires
        s.len() == 1,
        s[0] is None,
        key_a != key_b,
    ensures
        accepts(s, key_a),
        !accepts(after_set(s, key_a, value_a), key_b),
        after_set(after_set(s, key_a, value_a), key_b, value_b) == after_set(s, key_a, value_a),
        lookup(after_set(s, key_a, value_a), key_a) == Some(value_a),
{
}

/// Delete clears the slot: after `delete(key)` a lookup of `key` misses,
/// the capacity is unchanged, and the occupied count drops by exactly one
/// when the key's slot had been occupied and stays unchanged when it was
/// already empty.
pub proof fn lemma_delete_clears_slot<T>(s: Seq<Option<(Seq<char>, T)>>, key: Seq<char>)
    ensures
        lookup(after_delete(s, key), key) is None,
        after_delete(s, key).len() == s.len(),
        s.len() > 0 ==> occupied_count(after_delete(s, key)) + (if s[slot_of(
            key,
            s.len(),
        ) as int] is Some {
            1nat
        } else {
            0nat
        }) == occupied_count(s),
{
    if s.len() > 0 {
        lemma_occupied_count_update(s, slot_of(key, s.len()) as int, None);
    }
}

} // verus!
