//! The mathematical model of the interning pool.
//!
//! A pool is modelled as a sequence of entries together with the next free
//! identity.  Each entry carries the canonical value, a never-reused
//! identity and the number of client handles that currently reference it.
//! The executable pool in [`crate::store`] is specified entirely in terms of
//! this model: each operation's postcondition names the model of the new
//! state via [`intern_post`], [`release_post`] or [`clone_post`].

use vstd::prelude::*;
use vstd::std_specs::cmp::PartialEqSpec;

verus! {

/// One canonical value of the pool: its identity, the number of client
/// handles currently referencing it, and the value itself.
pub struct Entry<T> {
    /// Identity of the entry; never reused within one pool.
    pub id: u64,
    /// Number of outstanding client handles for this value.
    pub count: usize,
    /// The canonical value.
    pub value: T,
}

/// The ghost state of a pool: its entries and the next free identity.
#[verifier::ext_equal]
pub ghost struct PoolModel<T> {
    /// The live entries, one per distinct canonical value.
    pub items: Seq<Entry<T>>,
    /// The identity the next freshly inserted value will receive.
    pub next: u64,
}

/// Whether some entry's value equals `v` under `T`'s equality.
pub open spec fn contains_value<T: PartialEqSpec>(s: Seq<Entry<T>>, v: T) -> bool {
    exists|i: int| 0 <= i < s.len() && (#[trigger] s[i]).value.eq_spec(&v)
}

/// The index of an entry whose value equals `v`; meaningful only when
/// `contains_value(s, v)` holds, and pinned down by [`entries_inv`], which
/// makes such an entry unique.
pub open spec fn index_of_value<T: PartialEqSpec>(s: Seq<Entry<T>>, v: T) -> int {
    choose|i: int| 0 <= i < s.len() && (#[trigger] s[i]).value.eq_spec(&v)
}

/// Whether some entry carries the identity `id`.
pub open spec fn has_id<T>(s: Seq<Entry<T>>, id: u64) -> bool {
    exists|i: int| 0 <= i < s.len() && (#[trigger] s[i]).id == id
}

/// The index of the entry with identity `id`; meaningful only when
/// `has_id(s, id)` holds, and unique under [`entries_inv`].
pub open spec fn index_of_id<T>(s: Seq<Entry<T>>, id: u64) -> int {
    choose|i: int| 0 <= i < s.len() && (#[trigger] s[i]).id == id
}

/// Well-formedness of the entries: identities are distinct, no two entries
/// hold equal values (at most one canonical copy per distinct value), and
/// every entry is referenced by at least one client handle (the store never
/// keeps a value nobody references).
pub open spec fn entries_inv<T: PartialEqSpec>(s: Seq<Entry<T>>) -> bool {
    &&& forall|i: int, j: int|
        0 <= i < s.len() && 0 <= j < s.len() && i != j ==> (#[trigger] s[i]).id != (
        #[trigger] s[j]).id
    &&& forall|i: int, j: int|
        0 <= i < s.len() && 0 <= j < s.len() && i != j ==> !(#[trigger] s[i]).value.eq_spec(
            &(#[trigger] s[j]).value,
        )
    &&& forall|i: int| 0 <= i < s.len() ==> (#[trigger] s[i]).count >= 1
}

/// Well-formedness of a whole pool: well-formed entries whose identities all
/// lie below the next free identity.
pub open spec fn pool_inv<T: PartialEqSpec>(m: PoolModel<T>) -> bool {
    &&& entries_inv(m.items)
    &&& forall|i: int| 0 <= i < m.items.len() ==> (#[trigger] m.items[i]).id < m.next
}

/// `T`'s equality follows its specification and is an equivalence relation.
/// This mirrors the `Eq` contract the element type owes its callers; a type
/// whose equality is unstable is outside the pool's contract.
pub open spec fn eq_is_equivalence<T: PartialEqSpec>() -> bool {
    &&& T::obeys_eq_spec()
    &&& forall|a: T| #[trigger] a.eq_spec(&a)
    &&& forall|a: T, b: T| #[trigger] a.eq_spec(&b) ==> b.eq_spec(&a)
    &&& forall|a: T, b: T, c: T|
        #[trigger] a.eq_spec(&b) && #[trigger] b.eq_spec(&c) ==> a.eq_spec(&c)
}

/// The machine limits an intern call needs: a fresh identity is available
/// and no handle count can overflow.
pub open spec fn can_intern<T: PartialEqSpec>(m: PoolModel<T>) -> bool {
    &&& m.next < u64::MAX
    &&& forall|i: int| 0 <= i < m.items.len() ==> (#[trigger] m.items[i]).count < usize::MAX
}

/// The pool after interning `v`: on a hit the matching entry's handle count
/// grows by one and the offered value is discarded; on a miss `v` becomes a
/// new canonical value with one handle and the fresh identity `m.next`.
pub open spec fn intern_post<T: PartialEqSpec>(m: PoolModel<T>, v: T) -> PoolModel<T> {
    if contains_value(m.items, v) {
        let i = index_of_value(m.items, v);
        PoolModel {
            items: m.items.update(
                i,
                Entry {
                    id: m.items[i].id,
                    count: (m.items[i].count + 1) as usize,
                    value: m.items[i].value,
                },
            ),
            next: m.next,
        }
    } else {
        PoolModel {
            items: m.items.push(Entry { id: m.next, count: 1, value: v }),
            next: (m.next + 1) as u64,
        }
    }
}

/// The identity of the handle an intern call for `v` returns.
pub open spec fn intern_id<T: PartialEqSpec>(m: PoolModel<T>, v: T) -> u64 {
    if contains_value(m.items, v) {
        m.items[index_of_value(m.items, v)].id
    } else {
        m.next
    }
}

/// The pool after releasing one handle for the entry with identity `id`:
/// if the released handle was the last client reference the entry is
/// evicted, otherwise only its handle count drops by one.
pub open spec fn release_post<T>(m: PoolModel<T>, id: u64) -> PoolModel<T> {
    let i = index_of_id(m.items, id);
    if m.items[i].count == 1 {
        PoolModel { items: m.items.remove(i), next: m.next }
    } else {
        PoolModel {
            items: m.items.update(
                i,
                Entry {
                    id: m.items[i].id,
                    count: (m.items[i].count - 1) as usize,
                    value: m.items[i].value,
                },
            ),
            next: m.next,
        }
    }
}

/// The pool after cloning a handle for the entry with identity `id`: that
/// entry's handle count grows by one and nothing else changes.
pub open spec fn clone_post<T>(m: PoolModel<T>, id: u64) -> PoolModel<T> {
    let i = index_of_id(m.items, id);
    PoolModel {
        items: m.items.update(
            i,
            Entry {
                id: m.items[i].id,
                count: (m.items[i].count + 1) as usize,
                value: m.items[i].value,
            },
        ),
        next: m.next,
    }
}

/// The canonical value of the entry with identity `id`.
pub open spec fn value_of<T>(m: PoolModel<T>, id: u64) -> T {
    m.items[index_of_id(m.items, id)].value
}

/// The number of client handles outstanding for the entry with identity `id`.
pub open spec fn count_of<T>(m: PoolModel<T>, id: u64) -> int {
    m.items[index_of_id(m.items, id)].count as int
}

/// The total number of client handles outstanding across all entries.
pub open spec fn total_refs<T>(s: Seq<Entry<T>>) -> int
    decreases s.len(),
{
    if s.len() == 0 {
        0
    } else {
        s[0].count + total_refs(s.drop_first())
    }
}

} // verus!
