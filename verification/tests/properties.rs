use arc_interner::{client_refcount, eviction_due, ArcIntern, Interner};

// Uniqueness: equal values yield handles with the same identity,
// regardless of call order.
#[test]
fn uniqueness_equal_values() {
    let mut pool: Interner<u64> = Interner::new();
    let a = ArcIntern::new(&mut pool, 5);
    let b = ArcIntern::new(&mut pool, 5);
    assert_eq!(a, b);
    pool.release(a);
    pool.release(b);
}

// Distinctness: unequal values yield handles with distinct identities.
#[test]
fn distinctness_unequal_values() {
    let mut pool: Interner<u64> = Interner::new();
    let a = ArcIntern::new(&mut pool, 5);
    let b = ArcIntern::new(&mut pool, 6);
    assert_ne!(a, b);
    pool.release(a);
    pool.release(b);
}

// Liveness accounting: after interning distinct values and releasing
// every handle, the pool reports zero live values.
#[test]
fn liveness_accounting() {
    let mut pool: Interner<String> = Interner::new();
    let a = ArcIntern::new(&mut pool, "a".to_string());
    let b = ArcIntern::new(&mut pool, "b".to_string());
    let c = ArcIntern::new(&mut pool, "c".to_string());
    assert_eq!(pool.count(), 3);
    pool.release(a);
    pool.release(b);
    pool.release(c);
    assert_eq!(pool.count(), 0);
}

// Reference counting: interning the same value k times yields refcount k
// on each handle; each release lowers it by exactly one.
#[test]
fn reference_counting() {
    let mut pool: Interner<String> = Interner::new();
    let h1 = ArcIntern::new(&mut pool, "x".to_string());
    let h2 = ArcIntern::new(&mut pool, "x".to_string());
    let h3 = ArcIntern::new(&mut pool, "x".to_string());
    let h4 = ArcIntern::new(&mut pool, "x".to_string());
    assert_eq!(h1.refcount(&pool), 4);
    assert_eq!(h2.refcount(&pool), 4);
    assert_eq!(h3.refcount(&pool), 4);
    assert_eq!(h4.refcount(&pool), 4);
    pool.release(h4);
    assert_eq!(h1.refcount(&pool), 3);
    pool.release(h3);
    assert_eq!(h1.refcount(&pool), 2);
    pool.release(h2);
    assert_eq!(h1.refcount(&pool), 1);
    pool.release(h1);
    assert_eq!(pool.count(), 0);
}

// Round trip through cloning: cloning a handle and releasing the
// original leaves the clone's value correctly interned, and the
// clone-and-release pair leaves the live count unchanged.
#[test]
fn clone_round_trip() {
    let mut pool: Interner<String> = Interner::new();
    let original = ArcIntern::new(&mut pool, "keep".to_string());
    assert_eq!(pool.count(), 1);
    let clone = pool.clone_handle(&original);
    assert_eq!(clone, original);
    assert_eq!(clone.refcount(&pool), 2);
    pool.release(original);
    assert_eq!(pool.count(), 1);
    assert_eq!(clone.refcount(&pool), 1);
    assert_eq!(pool.get(&clone).as_str(), "keep");
    pool.release(clone);
    assert_eq!(pool.count(), 0);
}

// Concrete scenario: two interns of "foo" compare equal with one live
// value; releasing both empties the pool; after interning "foo" and
// "bar", releasing only "bar" leaves one live value that reads "foo".
#[test]
fn scenario_foo_bar() {
    let mut pool: Interner<String> = Interner::new();
    let foo1 = ArcIntern::new(&mut pool, "foo".to_string());
    let foo2 = ArcIntern::new(&mut pool, "foo".to_string());
    assert_eq!(foo1, foo2);
    assert_eq!(ArcIntern::num_objects_interned(&pool), 1);
    pool.release(foo1);
    pool.release(foo2);
    assert_eq!(ArcIntern::num_objects_interned(&pool), 0);

    let foo = ArcIntern::new(&mut pool, "foo".to_string());
    let bar = ArcIntern::new(&mut pool, "bar".to_string());
    assert_eq!(ArcIntern::num_objects_interned(&pool), 2);
    pool.release(bar);
    assert_eq!(ArcIntern::num_objects_interned(&pool), 1);
    assert_eq!(pool.get(&foo).as_str(), "foo");
    pool.release(foo);
}

// A duplicate offered on a hit is discarded: the canonical value stays
// the first one stored, and no second entry appears.
#[test]
fn duplicate_discarded_on_hit() {
    let mut pool: Interner<String> = Interner::new();
    let first = ArcIntern::new(&mut pool, "dup".to_string());
    let second = ArcIntern::new(&mut pool, String::from("dup"));
    assert_eq!(pool.count(), 1);
    assert_eq!(pool.get(&second).as_str(), "dup");
    pool.release(first);
    pool.release(second);
}

// The value ordering the pool exposes follows the element type, not the
// handle identities.
#[test]
fn value_ordering() {
    let mut pool: Interner<i32> = Interner::new();
    let small = ArcIntern::new(&mut pool, -3);
    let large = ArcIntern::new(&mut pool, 10);
    assert!(pool.lt(&small, &large));
    assert!(pool.le(&small, &large));
    assert!(pool.gt(&large, &small));
    assert!(pool.ge(&large, &small));
    assert!(!pool.lt(&large, &small));
    assert_eq!(pool.cmp(&small, &large), std::cmp::Ordering::Less);
    assert_eq!(pool.cmp(&small, &small), std::cmp::Ordering::Equal);
    assert_eq!(
        pool.partial_cmp(&large, &small),
        Some(std::cmp::Ordering::Greater)
    );
    pool.release(small);
    pool.release(large);
}

// A fresh pool is empty.
#[test]
fn empty_pool() {
    let pool: Interner<u8> = Interner::new();
    assert_eq!(pool.count(), 0);
    assert_eq!(ArcIntern::num_objects_interned(&pool), 0);
}

// The drop-time tie-break: with exactly the store's reference and the
// handle being dropped remaining, eviction is due; otherwise not.
#[test]
fn eviction_tie_break() {
    assert!(eviction_due(2));
    assert!(!eviction_due(1));
    assert!(!eviction_due(3));
    assert!(!eviction_due(100));
}

// Client handles behind a strong count: everything but the store's own
// reference.
#[test]
fn client_refcount_excludes_store() {
    assert_eq!(client_refcount(1), 0);
    assert_eq!(client_refcount(2), 1);
    assert_eq!(client_refcount(5), 4);
}
