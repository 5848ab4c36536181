//! The slot table itself: its mathematical model, its view, and the five
//! operations (`new`, `set`, `get`, `get_mut`, `delete`) plus the `load`
//! query.
//!
//! A table of capacity `N` is a sequence of `N` slots, each empty or holding
//! one `(key, value)` pair. Every keyed operation hashes the key's bytes and
//! reduces the hash modulo `N` to pick the one slot it may touch; there is no
//! probing, chaining or resizing. A table of capacity 0 is permanently empty
//! and rejects every write, so that no operation ever divides by zero.

use vstd::prelude::*;

verus! {

use core::hash::Hasher;
use std::collections::hash_map::DefaultHasher;
use vstd::std_specs::hash::DefaultHasherAdditionalSpecFns;
use vstd::string::StringSliceAdditionalSpecFns;
use vstd::utf8::encode_utf8;

/// The slot index that `key` is routed to in a table of `cap` slots: the
/// key's UTF-8 bytes are fed to the standard SipHash-based hasher in one
/// `write`, and the 64-bit digest is reduced modulo `cap`.
///
/// The digest is deterministic within a process, so a key is always routed
/// to the same slot of a given table, but slot placement is not promised to
/// be reproducible across toolchains.
pub open spec fn slot_of(key: Seq<char>, cap: nat) -> nat
    recommends
        cap > 0,
{
    (DefaultHasher::spec_finish(seq![encode_utf8(key)]) as nat) % cap
}

/// Whether a table in state `s` accepts a write of `key`: the capacity is
/// nonzero and the key's slot is empty or already holds that very key. A
/// write to a slot occupied by a different key is rejected.
pub open spec fn accepts<T>(s: Seq<Option<(Seq<char>, T)>>, key: Seq<char>) -> bool {
    &&& s.len() > 0
    &&& match s[slot_of(key, s.len()) as int] {
        Some(entry) => entry.0 == key,
        None => true,
    }
}

/// The table state after `set(key, value)`: the key's slot is overwritten
/// when the write is accepted, and nothing changes when it is rejected.
pub open spec fn after_set<T>(
    s: Seq<Option<(Seq<char>, T)>>,
    key: Seq<char>,
    value: T,
) -> Seq<Option<(Seq<char>, T)>> {
    if accepts(s, key) {
        s.update(slot_of(key, s.len()) as int, Some((key, value)))
    } else {
        s
    }
}

/// The table state after `delete(key)`: the key's slot is cleared
/// unconditionally, whatever it held. A capacity-0 table is unchanged.
pub open spec fn after_delete<T>(
    s: Seq<Option<(Seq<char>, T)>>,
    key: Seq<char>,
) -> Seq<Option<(Seq<char>, T)>> {
    if s.len() == 0 {
        s
    } else {
        s.update(slot_of(key, s.len()) as int, None)
    }
}

/// The value stored under `key`: the contents of the key's slot, if that
/// slot holds exactly this key.
pub open spec fn lookup<T>(s: Seq<Option<(Seq<char>, T)>>, key: Seq<char>) -> Option<T> {
    if s.len() == 0 {
        None
    } else {
        match s[slot_of(key, s.len()) as int] {
            Some(entry) => if entry.0 == key {
                Some(entry.1)
            } else {
                None
            },
            None => None,
        }
    }
}

/// How many slots of `s` are occupied.
pub open spec fn occupied_count<T>(s: Seq<Option<(Seq<char>, T)>>) -> nat
    decreases s.len(),
{
    if s.len() == 0 {
        0
    } else {
        occupied_count(s.drop_last()) + (if s.last() is Some {
            1nat
        } else {
            0nat
        })
    }
}

/// One occupied slot: an owned key together with its value.
pub struct MapItem<T> {
    key: String,
    value: T,
}

impl<T> View for MapItem<T> {
    type V = (Seq<char>, T);

    closed spec fn view(&self) -> (Seq<char>, T) {
        (self.key@, self.value)
    }
}

/// A fixed-capacity table of slots, each empty or holding one key-value
/// pair. The capacity is set at construction and never changes.
pub struct StringMap<T> {
    items: Vec<Option<MapItem<T>>>,
}

impl<T> View for StringMap<T> {
    type V = Seq<Option<(Seq<char>, T)>>;

    closed spec fn view(&self) -> Seq<Option<(Seq<char>, T)>> {
        Seq::new(
            self.items@.len(),
            |i: int|
                match self.items@[i] {
                    Some(item) => Some((item.key@, item.value)),
                    None => None,
                },
        )
    }
}

impl<T> StringMap<T> {
    /// Creates a table with `size` slots, all empty.
    ///
    /// `size` 0 is allowed and yields a degenerate table that stays empty
    /// forever: every `set` is rejected, every `get` misses, and `delete`
    /// does nothing, so no operation ever reduces a hash modulo 0.
    pub fn new(size: usize) -> (table: StringMap<T>)
        ensures
            table@.len() == size,
            forall|i: int| 0 <= i < size ==> table@[i] is None,
    {
        let mut items: Vec<Option<MapItem<T>>> = Vec::with_capacity(size);
        let mut n: usize = 0;
        while n < size
            invariant
                n <= size,
                items@.len() == n,
                forall|i: int| 0 <= i < n ==> items@[i] is None,
            decreases size - n,
        {
            items.push(None);
            n = n + 1;
        }
        StringMap { items }
    }

    /// Hashes `key` and reduces the digest modulo the capacity.
    fn index_of(&self, key: &str) -> (i: usize)
        requires
            self@.len() > 0,
        ensures
            i as nat == slot_of(key@, self@.len()),
            i < self@.len(),
    {
        let mut hasher = DefaultHasher::new();
        hasher.write(key.as_bytes());
        let digest: u64 = hasher.finish();
        proof {
            assert(hasher@ =~= seq![encode_utf8(key@)]);
        }
        let cap: u64 = self.items.len() as u64;
        (digest % cap) as usize
    }

    /// Stores `value` under `key` if the key's slot is free for it, and
    /// reports whether the write took place.
    ///
    /// The write is accepted when the slot is empty (a fresh insert) or
    /// already holds `key` (an overwrite in place); it is rejected, leaving
    /// the table untouched, when the slot holds a different key.
    pub fn set(&mut self, key: &str, value: T) -> (ok: bool)
        ensures
            ok == accepts(old(self)@, key@),
            final(self)@ == after_set(old(self)@, key@, value),
    {
        if self.items.len() == 0 {
            return false;
        }
        let i = self.index_of(key);
        let owned_key: String = key.to_owned();
        let change: bool = match &self.items[i] {
            Some(item) => item.key == owned_key,
            None => true,
        };
        if change {
            self.items[i] = Some(MapItem { key: owned_key, value });
            proof {
                assert(self@ =~= after_set(old(self)@, key@, value));
            }
            true
        } else {
            false
        }
    }

    /// Returns a reference to the value stored under `key`, or `None` when
    /// the key's slot is empty or holds a different key. The table itself
    /// is left untouched.
    pub fn get(&mut self, key: &str) -> (result: Option<&T>)
        ensures
            *final(self) == *old(self),
            match lookup(old(self)@, key@) {
                Some(v) => result is Some && *result.unwrap() == v,
                None => result is None,
            },
    {
        if self.items.len() == 0 {
            return None;
        }
        let i = self.index_of(key);
        let owned_key: String = key.to_owned();
        match &self.items[i] {
            Some(item) => if item.key == owned_key {
                Some(&item.value)
            } else {
                None
            },
            None => None,
        }
    }

    /// Returns a mutable reference to the value stored under `key`, or
    /// `None` when the key's slot is empty or holds a different key. The
    /// caller may rewrite the value in place; the key and the occupancy of
    /// every slot stay as they were.
    pub fn get_mut(&mut self, key: &str) -> (result: Option<&mut T>)
        ensures
            lookup(old(self)@, key@) is None ==> result is None && *final(self) == *old(self),
            lookup(old(self)@, key@) matches Some(v) ==> {
                &&& result is Some
                &&& *result.unwrap() == v
                &&& final(self)@ =~= after_set(old(self)@, key@, *final(result.unwrap()))
            },
    {
        if self.items.len() == 0 {
            return None;
        }
        let i = self.index_of(key);
        let owned_key: String = key.to_owned();
        let hit: bool = match &self.items[i] {
            Some(item) => item.key == owned_key,
            None => false,
        };
        if hit {
            match &mut self.items[i] {
                Some(item) => Some(&mut item.value),
                None => None,
            }
        } else {
            None
        }
    }

    /// Clears the slot that `key` hashes to, unconditionally: whatever the
    /// slot held — this key, a different key, or nothing — it is empty
    /// afterwards. This is an index-level clear, not a verified key
    /// removal: deleting a key can erase an unrelated occupant that shares
    /// its slot.
    pub fn delete(&mut self, key: &str)
        ensures
            final(self)@ == after_delete(old(self)@, key@),
    {
        if self.items.len() == 0 {
            return;
        }
        let i = self.index_of(key);
        self.items[i] = None;
        proof {
            assert(self@ =~= after_delete(old(self)@, key@));
        }
    }

    /// Reports the load of the table as the pair (occupied slots,
    /// capacity): the load factor is their quotient. Both are counted by a
    /// full scan; nothing is cached.
    pub fn load(&self) -> (r: (usize, usize))
        ensures
            r.0 as nat == occupied_count(self@),
            r.1 as nat == self@.len(),
            r.0 <= r.1,
    {
        let ghost view = self@;
        let mut count: usize = 0;
        let mut i: usize = 0;
        while i < self.items.len()
            invariant
                i <= self.items@.len(),
                count <= i,
                view == self@,
                view.len() == self.items@.len(),
                count as nat == occupied_count(view.take(i as int)),
            decreases self.items@.len() - i,
        {
            if self.items[i].is_some() {
                count = count + 1;
            }
            i = i + 1;
            proof {
                assert(view.take(i as int).drop_last() =~= view.take(i - 1));
            }
        }
        proof {
            assert(view.take(view.len() as int) =~= view);
        }
        (count, self.items.len())
    }
}

} // verus!
