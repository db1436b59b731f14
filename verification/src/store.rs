//! The interning pool and its handles.
//!
//! [`Interner`] owns the canonical values of one element type.  Interning a
//! value either finds the entry already holding an equal value or inserts
//! the value as a new canonical entry; either way the caller receives an
//! [`ArcIntern`] handle.  Handles are released and cloned through the pool,
//! which keeps an exact per-entry count of outstanding handles and evicts a
//! canonical value the moment its last handle is released.

use core::cmp::Ordering;
use vstd::prelude::*;
use vstd::std_specs::cmp::{OrdSpec, PartialEqSpec, PartialOrdSpec};
use crate::model::{
    Entry, PoolModel, contains_value, index_of_value, has_id, index_of_id, pool_inv,
    eq_is_equivalence, can_intern, intern_post, intern_id, release_post, clone_post, value_of,
    count_of,
};
use crate::laws::{
    lemma_index_of_value_unique, lemma_index_of_id_unique, lemma_intern_preserves_inv,
    lemma_release_preserves_inv, lemma_clone_preserves_inv,
};

verus! {

/// A handle to one canonical value of an [`Interner`].
///
/// A handle records only the identity of the entry it references, so
/// comparing or hashing two handles is an identity check, not a structural
/// comparison of the underlying values: the pool keeps at most one entry
/// per distinct value, which makes the identity check equivalent to value
/// equality for handles of the same pool.  Hashing a handle therefore does
/// not agree with hashing the underlying value; that asymmetry is by
/// design.  Ordering of the underlying values is offered by the pool
/// ([`Interner::lt`] and friends), which compares the values themselves.
#[derive(Debug, PartialEq, Eq, Hash, Structural)]
pub struct ArcIntern {
    id: u64,
}

/// Two handles are equal exactly when they reference the same entry.
pub proof fn lemma_handle_identity(a: ArcIntern, b: ArcIntern)
    ensures
        (a == b) <==> (a.id() == b.id()),
{
}

/// The interning pool for one element type: the set of canonical values,
/// each paired with its identity and the count of outstanding handles.
pub struct Interner<T> {
    entries: Vec<Entry<T>>,
    next_id: u64,
}

impl<T> View for Interner<T> {
    type V = PoolModel<T>;

    closed spec fn view(&self) -> PoolModel<T> {
        PoolModel { items: self.entries@, next: self.next_id }
    }
}

impl<T: PartialEqSpec> Interner<T> {
    /// Creates an empty pool.
    pub fn new() -> (pool: Self)
        ensures
            pool@.items.len() == 0,
            pool@.next == 0,
            pool_inv(pool@),
            can_intern(pool@),
    {
        Interner { entries: Vec::new(), next_id: 0 }
    }

    /// The number of distinct canonical values currently interned.
    pub fn count(&self) -> (n: usize)
        ensures
            n == self@.items.len(),
    {
        self.entries.len()
    }

    /// Scans for an entry whose value equals `v`.
    fn find_value(&self, v: &T) -> (found: Option<usize>)
        requires
            T::obeys_eq_spec(),
        ensures
            match found {
                Some(i) => 0 <= i < self@.items.len() && self@.items[i as int].value.eq_spec(v),
                None => forall|j: int|
                    0 <= j < self@.items.len() ==> !(#[trigger] self@.items[j]).value.eq_spec(v),
            },
    {
        let n = self.entries.len();
        let mut i: usize = 0;
        while i < n
            invariant
                T::obeys_eq_spec(),
                n == self@.items.len(),
                0 <= i <= n,
                forall|j: int| 0 <= j < i ==> !(#[trigger] self@.items[j]).value.eq_spec(v),
            decreases n - i,
        {
            if self.entries[i].value == *v {
                return Some(i);
            }
            i = i + 1;
        }
        None
    }

    /// Scans for the entry with identity `id`.
    fn find_id(&self, id: u64) -> (i: usize)
        requires
            pool_inv(self@),
            has_id(self@.items, id),
        ensures
            0 <= i < self@.items.len(),
            self@.items[i as int].id == id,
            i as int == index_of_id(self@.items, id),
    {
        let n = self.entries.len();
        let mut i: usize = 0;
        while i < n
            invariant
                pool_inv(self@),
                has_id(self@.items, id),
                n == self@.items.len(),
                0 <= i <= n,
                forall|j: int| 0 <= j < i ==> (#[trigger] self@.items[j]).id != id,
            decreases n - i,
        {
            if self.entries[i].id == id {
                proof {
                    lemma_index_of_id_unique(self@.items, id, i as int);
                }
                return i;
            }
            i = i + 1;
        }
        proof {
            let k = choose|k: int| 0 <= k < self@.items.len() && (#[trigger] self@.items[k]).id
                == id;
            assert(self@.items[k].id != id);
            assert(false);
        }
        0
    }

    /// Interns `v`: returns a handle for the canonical entry holding a
    /// value equal to `v`.  On a hit the existing entry's handle count
    /// grows by one and the offered `v` is discarded without being stored;
    /// on a miss `v` becomes a new canonical value with one outstanding
    /// handle and a fresh identity.
    pub fn get_or_insert(&mut self, v: T) -> (h: ArcIntern)
        requires
            pool_inv(old(self)@),
            eq_is_equivalence::<T>(),
            can_intern(old(self)@),
        ensures
            final(self)@ == intern_post(old(self)@, v),
            h.id() == intern_id(old(self)@, v),
            pool_inv(final(self)@),
    {
        proof {
            lemma_intern_preserves_inv(old(self)@, v);
        }
        match self.find_value(&v) {
            Some(i) => {
                proof {
                    lemma_index_of_value_unique(old(self)@.items, v, i as int);
                }
                let ghost m0 = self@;
                let mut e = self.entries.remove(i);
                let id = e.id;
                e.count = e.count + 1;
                self.entries.insert(i, e);
                proof {
                    let ii = i as int;
                    let e2 = Entry {
                        id: m0.items[ii].id,
                        count: (m0.items[ii].count + 1) as usize,
                        value: m0.items[ii].value,
                    };
                    m0.items.remove_ensures(ii);
                    m0.items.remove(ii).insert_ensures(ii, e2);
                    assert(self@.items =~= m0.items.update(ii, e2));
                    assert(self@ =~= intern_post(m0, v));
                }
                ArcIntern { id }
            },
            None => {
                let id = self.next_id;
                self.next_id = self.next_id + 1;
                self.entries.push(Entry { id, count: 1, value: v });
                proof {
                    assert(!contains_value(old(self)@.items, v));
                    assert(self@ =~= intern_post(old(self)@, v));
                }
                ArcIntern { id }
            },
        }
    }

    /// Releases one handle: the eviction protocol.  If the released handle
    /// was the last client reference to its canonical value, the entry is
    /// evicted from the pool; otherwise only its handle count drops by
    /// one.
    pub fn release(&mut self, h: ArcIntern)
        requires
            pool_inv(old(self)@),
            has_id(old(self)@.items, h.id()),
        ensures
            final(self)@ == release_post(old(self)@, h.id()),
            pool_inv(final(self)@),
    {
        proof {
            lemma_release_preserves_inv(old(self)@, h.id());
        }
        let i = self.find_id(h.id);
        let ghost m0 = self@;
        let ghost ii = i as int;
        if self.entries[i].count == 1 {
            let _evicted = self.entries.remove(i);
            proof {
                assert(self@ =~= release_post(m0, h.id()));
            }
        } else {
            let mut e = self.entries.remove(i);
            e.count = e.count - 1;
            self.entries.insert(i, e);
            proof {
                let e2 = Entry {
                    id: m0.items[ii].id,
                    count: (m0.items[ii].count - 1) as usize,
                    value: m0.items[ii].value,
                };
                m0.items.remove_ensures(ii);
                m0.items.remove(ii).insert_ensures(ii, e2);
                assert(self@.items =~= m0.items.update(ii, e2));
                assert(self@ =~= release_post(m0, h.id()));
            }
        }
    }

    /// Clones a handle: the entry's handle count grows by one, and the
    /// returned handle references the same canonical value.  This is the
    /// only way, beside interning an equal value, to obtain a second
    /// handle for one entry.
    pub fn clone_handle(&mut self, h: &ArcIntern) -> (r: ArcIntern)
        requires
            pool_inv(old(self)@),
            has_id(old(self)@.items, h.id()),
            count_of(old(self)@, h.id()) < usize::MAX,
        ensures
            final(self)@ == clone_post(old(self)@, h.id()),
            r.id() == h.id(),
            pool_inv(final(self)@),
    {
        proof {
            lemma_clone_preserves_inv(old(self)@, h.id());
        }
        let i = self.find_id(h.id);
        let ghost m0 = self@;
        let ghost ii = i as int;
        let mut e = self.entries.remove(i);
        let id = e.id;
        e.count = e.count + 1;
        self.entries.insert(i, e);
        proof {
            let e2 = Entry {
                id: m0.items[ii].id,
                count: (m0.items[ii].count + 1) as usize,
                value: m0.items[ii].value,
            };
            m0.items.remove_ensures(ii);
            m0.items.remove(ii).insert_ensures(ii, e2);
            assert(self@.items =~= m0.items.update(ii, e2));
            assert(self@ =~= clone_post(m0, h.id()));
        }
        ArcIntern { id }
    }

    /// The number of client handles outstanding for `h`'s canonical value.
    pub fn refcount_of(&self, h: &ArcIntern) -> (n: usize)
        requires
            pool_inv(self@),
            has_id(self@.items, h.id()),
        ensures
            n == count_of(self@, h.id()),
    {
        let i = self.find_id(h.id);
        self.entries[i].count
    }

    /// Read-only access to `h`'s canonical value.
    pub fn get(&self, h: &ArcIntern) -> (value: &T)
        requires
            pool_inv(self@),
            has_id(self@.items, h.id()),
        ensures
            *value == value_of(self@, h.id()),
    {
        let i = self.find_id(h.id);
        &self.entries[i].value
    }
}

impl<T: PartialEqSpec + PartialOrdSpec> Interner<T> {
    /// Whether `a`'s canonical value orders strictly below `b`'s.  Ordering
    /// of handles compares the underlying values, never identities.
    pub fn lt(&self, a: &ArcIntern, b: &ArcIntern) -> (r: bool)
        requires
            pool_inv(self@),
            has_id(self@.items, a.id()),
            has_id(self@.items, b.id()),
        ensures
            T::obeys_partial_cmp_spec() ==> (r <==> value_of(self@, a.id()).partial_cmp_spec(
                &value_of(self@, b.id()),
            ) == Some(Ordering::Less)),
    {
        let va = self.get(a);
        let vb = self.get(b);
        va.lt(vb)
    }

    /// Whether `a`'s canonical value orders below or equal to `b`'s.
    pub fn le(&self, a: &ArcIntern, b: &ArcIntern) -> (r: bool)
        requires
            pool_inv(self@),
            has_id(self@.items, a.id()),
            has_id(self@.items, b.id()),
        ensures
            T::obeys_partial_cmp_spec() ==> (r <==> (value_of(self@, a.id()).partial_cmp_spec(
                &value_of(self@, b.id()),
            ) matches Some(Ordering::Less | Ordering::Equal))),
    {
        let va = self.get(a);
        let vb = self.get(b);
        va.le(vb)
    }

    /// Whether `a`'s canonical value orders strictly above `b`'s.
    pub fn gt(&self, a: &ArcIntern, b: &ArcIntern) -> (r: bool)
        requires
            pool_inv(self@),
            has_id(self@.items, a.id()),
            has_id(self@.items, b.id()),
        ensures
            T::obeys_partial_cmp_spec() ==> (r <==> value_of(self@, a.id()).partial_cmp_spec(
                &value_of(self@, b.id()),
            ) == Some(Ordering::Greater)),
    {
        let va = self.get(a);
        let vb = self.get(b);
        va.gt(vb)
    }

    /// Whether `a`'s canonical value orders above or equal to `b`'s.
    pub fn ge(&self, a: &ArcIntern, b: &ArcIntern) -> (r: bool)
        requires
            pool_inv(self@),
            has_id(self@.items, a.id()),
            has_id(self@.items, b.id()),
        ensures
            T::obeys_partial_cmp_spec() ==> (r <==> (value_of(self@, a.id()).partial_cmp_spec(
                &value_of(self@, b.id()),
            ) matches Some(Ordering::Greater | Ordering::Equal))),
    {
        let va = self.get(a);
        let vb = self.get(b);
        va.ge(vb)
    }

    /// Compares the canonical values of `a` and `b` by the element type's
    /// partial order.
    pub fn partial_cmp(&self, a: &ArcIntern, b: &ArcIntern) -> (r: Option<Ordering>)
        requires
            pool_inv(self@),
            has_id(self@.items, a.id()),
            has_id(self@.items, b.id()),
        ensures
            T::obeys_partial_cmp_spec() ==> r == value_of(self@, a.id()).partial_cmp_spec(
                &value_of(self@, b.id()),
            ),
    {
        let va = self.get(a);
        let vb = self.get(b);
        va.partial_cmp(vb)
    }
}

impl<T: PartialEqSpec + OrdSpec> Interner<T> {
    /// Compares the canonical values of `a` and `b` by the element type's
    /// total order.
    pub fn cmp(&self, a: &ArcIntern, b: &ArcIntern) -> (r: Ordering)
        requires
            pool_inv(self@),
            has_id(self@.items, a.id()),
            has_id(self@.items, b.id()),
        ensures
            T::obeys_cmp_spec() ==> r == value_of(self@, a.id()).cmp_spec(
                &value_of(self@, b.id()),
            ),
    {
        let va = self.get(a);
        let vb = self.get(b);
        va.cmp(vb)
    }
}

impl ArcIntern {
    /// The identity of the pool entry this handle references.
    pub closed spec fn id(&self) -> u64 {
        self.id
    }

    /// Interns `val` in `pool` and returns the handle; see
    /// [`Interner::get_or_insert`].
    pub fn new<T: PartialEqSpec>(pool: &mut Interner<T>, val: T) -> (h: ArcIntern)
        requires
            pool_inv(old(pool)@),
            eq_is_equivalence::<T>(),
            can_intern(old(pool)@),
        ensures
            final(pool)@ == intern_post(old(pool)@, val),
            h.id() == intern_id(old(pool)@, val),
            pool_inv(final(pool)@),
    {
        pool.get_or_insert(val)
    }

    /// The number of distinct canonical values currently interned in
    /// `pool`.
    pub fn num_objects_interned<T: PartialEqSpec>(pool: &Interner<T>) -> (n: usize)
        ensures
            n == pool@.items.len(),
    {
        pool.count()
    }

    /// The number of client handles outstanding for this handle's
    /// canonical value.
    pub fn refcount<T: PartialEqSpec>(&self, pool: &Interner<T>) -> (n: usize)
        requires
            pool_inv(pool@),
            has_id(pool@.items, self.id()),
        ensures
            n == count_of(pool@, self.id()),
    {
        pool.refcount_of(self)
    }
}

/// The drop-time tie-break of the eviction protocol, stated over the strong
/// count of a shared owner as std's `Arc::strong_count` reports it: one
/// reference is the store's own bookkeeping reference and one is held by
/// the handle now being released.  Eviction is due exactly when no further
/// client reference remains beside those two.
pub fn eviction_due(strong_count: usize) -> (due: bool)
    ensures
        due == (strong_count == 2),
{
    strong_count == 2
}

/// The number of client handles behind a shared owner's strong count: all
/// references except the store's own bookkeeping reference.
pub fn client_refcount(strong_count: usize) -> (clients: usize)
    requires
        strong_count >= 1,
    ensures
        clients == strong_count - 1,
{
    strong_count - 1
}

} // verus!
