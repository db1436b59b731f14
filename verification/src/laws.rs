//! The laws of the interning pool, proved over the model of
//! [`crate::model`].

use vstd::prelude::*;
use vstd::std_specs::cmp::PartialEqSpec;
use crate::model::{
    Entry, PoolModel, contains_value, index_of_value, has_id, index_of_id, entries_inv, pool_inv,
    eq_is_equivalence, can_intern, intern_post, intern_id, release_post, clone_post, value_of,
    count_of, total_refs,
};

verus! {

/// An entry whose value equals `v` is the one `index_of_value` names:
/// under the pool invariant at most one entry can hold a value equal to
/// `v`.
pub proof fn lemma_index_of_value_unique<T: PartialEqSpec>(s: Seq<Entry<T>>, v: T, i: int)
    requires
        eq_is_equivalence::<T>(),
        entries_inv(s),
        0 <= i < s.len(),
        s[i].value.eq_spec(&v),
    ensures
        contains_value(s, v),
        index_of_value(s, v) == i,
{
    assert(contains_value(s, v));
    let j = index_of_value(s, v);
    if j != i {
        assert(s[j].value.eq_spec(&v));
        assert(v.eq_spec(&s[j].value));
        assert(s[i].value.eq_spec(&s[j].value));
        assert(false);
    }
}

/// An entry with identity `id` is the one `index_of_id` names: identities
/// are unique under the pool invariant.
pub proof fn lemma_index_of_id_unique<T: PartialEqSpec>(s: Seq<Entry<T>>, id: u64, i: int)
    requires
        entries_inv(s),
        0 <= i < s.len(),
        s[i].id == id,
    ensures
        has_id(s, id),
        index_of_id(s, id) == i,
{
    assert(has_id(s, id));
}

/// Interning preserves the pool invariant: identities stay distinct, no
/// second entry for an equal value can appear, and every entry keeps at
/// least one outstanding handle.
pub proof fn lemma_intern_preserves_inv<T: PartialEqSpec>(m: PoolModel<T>, v: T)
    requires
        eq_is_equivalence::<T>(),
        pool_inv(m),
        can_intern(m),
    ensures
        pool_inv(intern_post(m, v)),
{
    let s = m.items;
    let m1 = intern_post(m, v);
    let s1 = m1.items;
    if contains_value(s, v) {
        let i = index_of_value(s, v);
        assert(0 <= i < s.len() && s[i].value.eq_spec(&v));
        assert forall|k: int| 0 <= k < s1.len() implies (#[trigger] s1[k]).id == s[k].id
            && s1[k].value == s[k].value && s1[k].count >= 1 by {
            if k == i {
                assert(s[i].count < usize::MAX);
            } else {
                assert(s1[k] == s[k]);
            }
        }
        assert forall|k: int, l: int|
            0 <= k < s1.len() && 0 <= l < s1.len() && k != l implies (#[trigger] s1[k]).id != (
        #[trigger] s1[l]).id && !s1[k].value.eq_spec(&s1[l].value) by {
            assert(s1[k].id == s[k].id && s1[l].id == s[l].id);
            assert(s1[k].value == s[k].value && s1[l].value == s[l].value);
            assert(s[k].id != s[l].id);
            assert(!s[k].value.eq_spec(&s[l].value));
        }
        assert forall|k: int| 0 <= k < s1.len() implies (#[trigger] s1[k]).id < m1.next by {
            assert(s1[k].id == s[k].id);
            assert(s[k].id < m.next);
        }
    } else {
        let ln = s.len() as int;
        assert(s1.len() == ln + 1);
        assert forall|k: int, l: int|
            0 <= k < s1.len() && 0 <= l < s1.len() && k != l implies (#[trigger] s1[k]).id != (
        #[trigger] s1[l]).id && !s1[k].value.eq_spec(&s1[l].value) by {
            if k < ln && l < ln {
                assert(s1[k] == s[k] && s1[l] == s[l]);
            } else if k == ln && l < ln {
                assert(s1[k] == Entry { id: m.next, count: 1, value: v } && s1[l] == s[l]);
                assert(s[l].id < m.next);
                assert(!s[l].value.eq_spec(&v));
                if v.eq_spec(&s[l].value) {
                    assert(s[l].value.eq_spec(&v));
                }
            } else {
                assert(l == ln && k < ln);
                assert(s1[l] == Entry { id: m.next, count: 1, value: v } && s1[k] == s[k]);
                assert(s[k].id < m.next);
                assert(!s[k].value.eq_spec(&v));
            }
        }
        assert forall|k: int| 0 <= k < s1.len() implies (#[trigger] s1[k]).count >= 1 && s1[k].id
            < m1.next by {
            if k < ln {
                assert(s1[k] == s[k]);
                assert(s[k].id < m.next);
            } else {
                assert(s1[k] == Entry { id: m.next, count: 1, value: v });
            }
            assert(m1.next == m.next + 1);
        }
    }
}

/// Releasing a handle preserves the pool invariant, whether the entry is
/// evicted or only its handle count drops.
pub proof fn lemma_release_preserves_inv<T: PartialEqSpec>(m: PoolModel<T>, id: u64)
    requires
        pool_inv(m),
        has_id(m.items, id),
    ensures
        pool_inv(release_post(m, id)),
{
    let s = m.items;
    let i = index_of_id(s, id);
    assert(0 <= i < s.len() && s[i].id == id);
    let m1 = release_post(m, id);
    let s1 = m1.items;
    if s[i].count == 1 {
        s.remove_ensures(i);
        assert(s1.len() == s.len() - 1);
        assert forall|k: int, l: int|
            0 <= k < s1.len() && 0 <= l < s1.len() && k != l implies (#[trigger] s1[k]).id != (
        #[trigger] s1[l]).id && !s1[k].value.eq_spec(&s1[l].value) by {
            let k0 = if k < i { k } else { k + 1 };
            let l0 = if l < i { l } else { l + 1 };
            assert(s1[k] == s[k0]);
            assert(s1[l] == s[l0]);
            assert(k0 != l0);
        }
        assert forall|k: int| 0 <= k < s1.len() implies (#[trigger] s1[k]).count >= 1 && s1[k].id
            < m1.next by {
            let k0 = if k < i { k } else { k + 1 };
            assert(s1[k] == s[k0]);
            assert(s[k0].count >= 1 && s[k0].id < m.next);
        }
    } else {
        assert(s[i].count >= 1);
        assert forall|k: int| 0 <= k < s1.len() implies (#[trigger] s1[k]).id == s[k].id
            && s1[k].value == s[k].value && s1[k].count >= 1 by {
            if k != i {
                assert(s1[k] == s[k]);
            }
        }
        assert forall|k: int, l: int|
            0 <= k < s1.len() && 0 <= l < s1.len() && k != l implies (#[trigger] s1[k]).id != (
        #[trigger] s1[l]).id && !s1[k].value.eq_spec(&s1[l].value) by {
            assert(s1[k].id == s[k].id && s1[l].id == s[l].id);
            assert(s1[k].value == s[k].value && s1[l].value == s[l].value);
            assert(s[k].id != s[l].id);
            assert(!s[k].value.eq_spec(&s[l].value));
        }
        assert forall|k: int| 0 <= k < s1.len() implies (#[trigger] s1[k]).id < m1.next by {
            assert(s1[k].id == s[k].id);
            assert(s[k].id < m.next);
        }
    }
}

/// Cloning a handle preserves the pool invariant: only one handle count
/// grows.
pub proof fn lemma_clone_preserves_inv<T: PartialEqSpec>(m: PoolModel<T>, id: u64)
    requires
        pool_inv(m),
        has_id(m.items, id),
        count_of(m, id) < usize::MAX,
    ensures
        pool_inv(clone_post(m, id)),
{
    let s = m.items;
    let i = index_of_id(s, id);
    assert(0 <= i < s.len() && s[i].id == id);
    let m1 = clone_post(m, id);
    let s1 = m1.items;
    assert forall|k: int| 0 <= k < s1.len() implies (#[trigger] s1[k]).id == s[k].id
        && s1[k].value == s[k].value && s1[k].count >= 1 by {
        if k == i {
            assert(s[i].count < usize::MAX);
        } else {
            assert(s1[k] == s[k]);
        }
    }
    assert forall|k: int, l: int|
        0 <= k < s1.len() && 0 <= l < s1.len() && k != l implies (#[trigger] s1[k]).id != (
    #[trigger] s1[l]).id && !s1[k].value.eq_spec(&s1[l].value) by {
        assert(s1[k].id == s[k].id && s1[l].id == s[l].id);
        assert(s1[k].value == s[k].value && s1[l].value == s[l].value);
        assert(s[k].id != s[l].id);
        assert(!s[k].value.eq_spec(&s[l].value));
    }
    assert forall|k: int| 0 <= k < s1.len() implies (#[trigger] s1[k]).id < m1.next by {
        assert(s1[k].id == s[k].id);
        assert(s[k].id < m.next);
    }
}

/// At most one canonical entry exists for any value: two entries whose
/// values both equal `v` are the same entry.  This is the invariant that
/// makes identity comparison of handles equivalent to value equality.
pub proof fn lemma_at_most_one_canonical<T: PartialEqSpec>(s: Seq<Entry<T>>, v: T, i: int, j: int)
    requires
        eq_is_equivalence::<T>(),
        entries_inv(s),
        0 <= i < s.len(),
        0 <= j < s.len(),
        s[i].value.eq_spec(&v),
        s[j].value.eq_spec(&v),
    ensures
        i == j,
{
    lemma_index_of_value_unique(s, v, i);
    lemma_index_of_value_unique(s, v, j);
}

/// Uniqueness: interning two equal values, in either order, yields handles
/// with the same identity.  The lemma states one order; for the other,
/// apply it with the arguments swapped, using the symmetry of the
/// equivalence.
pub proof fn lemma_intern_uniqueness<T: PartialEqSpec>(m: PoolModel<T>, v1: T, v2: T)
    requires
        eq_is_equivalence::<T>(),
        pool_inv(m),
        can_intern(m),
        v1.eq_spec(&v2),
    ensures
        intern_id(intern_post(m, v1), v2) == intern_id(m, v1),
{
    let m1 = intern_post(m, v1);
    lemma_intern_preserves_inv(m, v1);
    if contains_value(m.items, v1) {
        let i = index_of_value(m.items, v1);
        assert(0 <= i < m.items.len() && m.items[i].value.eq_spec(&v1));
        assert(m1.items[i].value == m.items[i].value);
        assert(m.items[i].value.eq_spec(&v2));
        lemma_index_of_value_unique(m1.items, v2, i);
        assert(m1.items[i].id == m.items[i].id);
    } else {
        let ln = m.items.len() as int;
        assert(m1.items[ln] == Entry { id: m.next, count: 1, value: v1 });
        lemma_index_of_value_unique(m1.items, v2, ln);
    }
}

/// Distinctness: interning two values that are not equal yields handles
/// with distinct identities.
pub proof fn lemma_intern_distinctness<T: PartialEqSpec>(m: PoolModel<T>, v1: T, v2: T)
    requires
        eq_is_equivalence::<T>(),
        pool_inv(m),
        can_intern(m),
        !v1.eq_spec(&v2),
    ensures
        intern_id(intern_post(m, v1), v2) != intern_id(m, v1),
{
    let m1 = intern_post(m, v1);
    lemma_intern_preserves_inv(m, v1);
    if contains_value(m.items, v1) {
        let i = index_of_value(m.items, v1);
        assert(0 <= i < m.items.len() && m.items[i].value.eq_spec(&v1));
        if contains_value(m1.items, v2) {
            let j = index_of_value(m1.items, v2);
            assert(0 <= j < m1.items.len() && m1.items[j].value.eq_spec(&v2));
            if j == i {
                assert(m1.items[i].value == m.items[i].value);
                assert(v1.eq_spec(&m.items[i].value));
                assert(v1.eq_spec(&v2));
                assert(false);
            }
            assert(m1.items[j].id != m1.items[i].id);
            assert(m1.items[i].id == m.items[i].id);
        } else {
            assert(m.items[i].id < m.next);
        }
    } else {
        let ln = m.items.len() as int;
        assert(m1.items[ln] == Entry { id: m.next, count: 1, value: v1 });
        if contains_value(m1.items, v2) {
            let j = index_of_value(m1.items, v2);
            assert(0 <= j < m1.items.len() && m1.items[j].value.eq_spec(&v2));
            if j == ln {
                assert(v1.eq_spec(&v2));
                assert(false);
            }
            assert(m1.items[j] == m.items[j]);
            assert(m.items[j].id < m.next);
        }
    }
}

/// The total handle count of a sequence of entries is never negative.
proof fn lemma_total_refs_nonneg<T>(s: Seq<Entry<T>>)
    ensures
        total_refs(s) >= 0,
    decreases s.len(),
{
    if s.len() > 0 {
        lemma_total_refs_nonneg(s.drop_first());
    }
}

/// Appending an entry adds its handle count to the total.
proof fn lemma_total_refs_push<T>(s: Seq<Entry<T>>, e: Entry<T>)
    ensures
        total_refs(s.push(e)) == total_refs(s) + e.count,
    decreases s.len(),
{
    if s.len() == 0 {
        assert(s.push(e)[0] == e);
        assert(s.push(e).drop_first() =~= Seq::<Entry<T>>::empty());
        assert(total_refs(s.push(e).drop_first()) == 0);
        assert(total_refs(s.push(e)) == e.count + total_refs(s.push(e).drop_first()));
        assert(total_refs(s) == 0);
    } else {
        assert(s.push(e).drop_first() =~= s.drop_first().push(e));
        lemma_total_refs_push(s.drop_first(), e);
        assert(s.push(e)[0] == s[0]);
        assert(total_refs(s.push(e)) == s[0].count + total_refs(s.push(e).drop_first()));
        assert(total_refs(s) == s[0].count + total_refs(s.drop_first()));
    }
}

/// Replacing an entry changes the total by the difference of the counts.
proof fn lemma_total_refs_update<T>(s: Seq<Entry<T>>, i: int, e: Entry<T>)
    requires
        0 <= i < s.len(),
    ensures
        total_refs(s.update(i, e)) == total_refs(s) - s[i].count + e.count,
    decreases s.len(),
{
    if i == 0 {
        assert(s.update(0, e).drop_first() =~= s.drop_first());
        assert(s.update(0, e)[0] == e);
    } else {
        assert(s.update(i, e).drop_first() =~= s.drop_first().update(i - 1, e));
        lemma_total_refs_update(s.drop_first(), i - 1, e);
        assert(s.drop_first()[i - 1] == s[i]);
        assert(s.update(i, e)[0] == s[0]);
    }
}

/// Removing an entry subtracts its handle count from the total.
proof fn lemma_total_refs_remove<T>(s: Seq<Entry<T>>, i: int)
    requires
        0 <= i < s.len(),
    ensures
        total_refs(s.remove(i)) == total_refs(s) - s[i].count,
    decreases s.len(),
{
    s.remove_ensures(i);
    if i == 0 {
        assert(s.remove(0) =~= s.drop_first());
    } else {
        assert(s.remove(i).drop_first() =~= s.drop_first().remove(i - 1));
        lemma_total_refs_remove(s.drop_first(), i - 1);
        assert(s.drop_first()[i - 1] == s[i]);
        assert(s.remove(i)[0] == s[0]);
    }
}

/// Every intern call leaves exactly one more client handle outstanding.
pub proof fn lemma_intern_total_refs<T: PartialEqSpec>(m: PoolModel<T>, v: T)
    requires
        pool_inv(m),
        can_intern(m),
    ensures
        total_refs(intern_post(m, v).items) == total_refs(m.items) + 1,
{
    if contains_value(m.items, v) {
        let i = index_of_value(m.items, v);
        assert(0 <= i < m.items.len() && m.items[i].value.eq_spec(&v));
        assert(m.items[i].count < usize::MAX);
        let e = Entry {
            id: m.items[i].id,
            count: (m.items[i].count + 1) as usize,
            value: m.items[i].value,
        };
        lemma_total_refs_update(m.items, i, e);
    } else {
        lemma_total_refs_push(m.items, Entry { id: m.next, count: 1, value: v });
    }
}

/// Every release leaves exactly one less client handle outstanding,
/// whether or not it evicts the entry.
pub proof fn lemma_release_total_refs<T: PartialEqSpec>(m: PoolModel<T>, id: u64)
    requires
        pool_inv(m),
        has_id(m.items, id),
    ensures
        total_refs(release_post(m, id).items) == total_refs(m.items) - 1,
{
    let i = index_of_id(m.items, id);
    assert(0 <= i < m.items.len() && m.items[i].id == id);
    if m.items[i].count == 1 {
        lemma_total_refs_remove(m.items, i);
    } else {
        assert(m.items[i].count >= 1);
        let e = Entry {
            id: m.items[i].id,
            count: (m.items[i].count - 1) as usize,
            value: m.items[i].value,
        };
        lemma_total_refs_update(m.items, i, e);
    }
}

/// Liveness accounting: once every handle has been released, the pool is
/// empty — with [`lemma_intern_total_refs`] and
/// [`lemma_release_total_refs`], interning any number of values and
/// releasing every handle obtained brings the total to zero, and a pool
/// with no outstanding handle holds no canonical value at all.
pub proof fn lemma_no_refs_empty<T: PartialEqSpec>(m: PoolModel<T>)
    requires
        pool_inv(m),
    ensures
        (total_refs(m.items) == 0) <==> (m.items.len() == 0),
{
    if m.items.len() > 0 {
        assert(m.items[0].count >= 1);
        lemma_total_refs_nonneg(m.items.drop_first());
        assert(total_refs(m.items) >= 1);
    }
}

/// Interning an equal value again returns the existing identity and
/// raises that entry's handle count by exactly one.
pub proof fn lemma_intern_refcount<T: PartialEqSpec>(m: PoolModel<T>, v: T, id: u64)
    requires
        eq_is_equivalence::<T>(),
        pool_inv(m),
        can_intern(m),
        has_id(m.items, id),
        value_of(m, id).eq_spec(&v),
    ensures
        intern_id(m, v) == id,
        has_id(intern_post(m, v).items, id),
        count_of(intern_post(m, v), id) == count_of(m, id) + 1,
{
    let i = index_of_id(m.items, id);
    assert(0 <= i < m.items.len() && m.items[i].id == id);
    lemma_index_of_value_unique(m.items, v, i);
    assert(m.items[i].count < usize::MAX);
    lemma_intern_preserves_inv(m, v);
    lemma_index_of_id_unique(intern_post(m, v).items, id, i);
}

/// Releasing one of several handles of an entry lowers its count by
/// exactly one and keeps the entry interned.
pub proof fn lemma_release_refcount<T: PartialEqSpec>(m: PoolModel<T>, id: u64)
    requires
        pool_inv(m),
        has_id(m.items, id),
        count_of(m, id) >= 2,
    ensures
        has_id(release_post(m, id).items, id),
        count_of(release_post(m, id), id) == count_of(m, id) - 1,
{
    let i = index_of_id(m.items, id);
    assert(0 <= i < m.items.len() && m.items[i].id == id);
    lemma_release_preserves_inv(m, id);
    lemma_index_of_id_unique(release_post(m, id).items, id, i);
}

/// The pool after interning `v` `k` times in a row, retaining every
/// handle.
pub open spec fn intern_iter<T: PartialEqSpec>(m: PoolModel<T>, v: T, k: nat) -> PoolModel<T>
    decreases k,
{
    if k == 0 {
        m
    } else {
        intern_post(intern_iter(m, v, (k - 1) as nat), v)
    }
}

/// Reference counting: interning a fresh value `k` times while retaining
/// every handle leaves exactly one canonical entry for it, whose handle
/// count is exactly `k`; the rest of the pool is untouched.
pub proof fn lemma_refcount_after_k_interns<T: PartialEqSpec>(m: PoolModel<T>, v: T, k: nat)
    requires
        eq_is_equivalence::<T>(),
        pool_inv(m),
        can_intern(m),
        m.next + 1 < u64::MAX,
        !contains_value(m.items, v),
        1 <= k <= usize::MAX,
    ensures
        intern_iter(m, v, k).items == m.items.push(
            Entry { id: m.next, count: k as usize, value: v },
        ),
        intern_iter(m, v, k).next == m.next + 1,
        pool_inv(intern_iter(m, v, k)),
        has_id(intern_iter(m, v, k).items, intern_id(m, v)),
        count_of(intern_iter(m, v, k), intern_id(m, v)) == k,
    decreases k,
{
    let ln = m.items.len() as int;
    if k == 1 {
        assert(intern_iter(m, v, 1) == intern_post(intern_iter(m, v, 0), v));
        assert(intern_iter(m, v, 0) == m);
        lemma_intern_preserves_inv(m, v);
        lemma_index_of_id_unique(intern_post(m, v).items, m.next, ln);
    } else {
        lemma_refcount_after_k_interns(m, v, (k - 1) as nat);
        let mp = intern_iter(m, v, (k - 1) as nat);
        let ep = Entry { id: m.next, count: (k - 1) as usize, value: v };
        assert(mp.items == m.items.push(ep));
        assert(mp.items[ln] == ep);
        assert(v.eq_spec(&v));
        lemma_index_of_value_unique(mp.items, v, ln);
        assert(contains_value(mp.items, v));
        assert(can_intern(mp)) by {
            assert forall|i: int| 0 <= i < mp.items.len() implies (#[trigger] mp.items[i]).count
                < usize::MAX by {
                if i < ln {
                    assert(mp.items[i] == m.items[i]);
                } else {
                    assert(mp.items[i] == ep);
                }
            }
        }
        lemma_intern_preserves_inv(mp, v);
        let e = Entry { id: m.next, count: k as usize, value: v };
        assert(intern_iter(m, v, k).items =~= m.items.push(e));
        lemma_index_of_id_unique(intern_iter(m, v, k).items, m.next, ln);
    }
}

/// Round trip through cloning: cloning a handle and then releasing one
/// handle of the same entry leaves the pool exactly as it was, so the
/// clone-and-release pair changes neither the number of interned values
/// nor any reference count.
pub proof fn lemma_clone_then_release<T: PartialEqSpec>(m: PoolModel<T>, id: u64)
    requires
        pool_inv(m),
        has_id(m.items, id),
        count_of(m, id) < usize::MAX,
    ensures
        release_post(clone_post(m, id), id) == m,
{
    let i = index_of_id(m.items, id);
    assert(0 <= i < m.items.len() && m.items[i].id == id);
    let m1 = clone_post(m, id);
    lemma_clone_preserves_inv(m, id);
    lemma_index_of_id_unique(m1.items, id, i);
    assert(m1.items[i].count == m.items[i].count + 1);
    assert(m.items[i].count >= 1);
    let m2 = release_post(m1, id);
    assert(m2.items =~= m.items);
    assert(m2 =~= m);
}

} // verus!
