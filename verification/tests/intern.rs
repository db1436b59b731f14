use arc_interner::{ArcIntern, Interner};

// Test basic functionality.
#[test]
fn basic() {
    let mut pool: Interner<&str> = Interner::new();
    let foo1 = ArcIntern::new(&mut pool, "foo");
    let foo2 = ArcIntern::new(&mut pool, "foo");
    assert_eq!(foo1, foo2);
    let bar = ArcIntern::new(&mut pool, "bar");
    assert_ne!(foo1, bar);
    pool.release(foo1);
    pool.release(foo2);
    pool.release(bar);
    // The above handles have been released by now.
    assert_eq!(ArcIntern::num_objects_interned(&pool), 0);

    let mut spool: Interner<String> = Interner::new();
    let interned1 = ArcIntern::new(&mut spool, "foo".to_string());
    {
        let interned2 = ArcIntern::new(&mut spool, "foo".to_string());
        let interned3 = ArcIntern::new(&mut spool, "bar".to_string());

        assert_eq!(interned2.refcount(&spool), 2);
        assert_eq!(interned3.refcount(&spool), 1);
        // We now have two unique interned strings: "foo" and "bar".
        assert_eq!(ArcIntern::num_objects_interned(&spool), 2);
        spool.release(interned2);
        spool.release(interned3);
    }

    // "bar" is now gone.
    assert_eq!(ArcIntern::num_objects_interned(&spool), 1);
    spool.release(interned1);
}

// Ordering should be based on values, not identities.
#[test]
fn sorting() {
    let mut pool: Interner<i32> = Interner::new();
    let mut interned_vals = vec![
        ArcIntern::new(&mut pool, 4),
        ArcIntern::new(&mut pool, 2),
        ArcIntern::new(&mut pool, 5),
        ArcIntern::new(&mut pool, 0),
        ArcIntern::new(&mut pool, 1),
        ArcIntern::new(&mut pool, 3),
    ];
    // Insertion sort by the value ordering the pool exposes.
    let mut k = 1;
    while k < interned_vals.len() {
        let mut j = k;
        while j > 0 && pool.lt(&interned_vals[j], &interned_vals[j - 1]) {
            interned_vals.swap(j, j - 1);
            j -= 1;
        }
        k += 1;
    }
    let sorted: Vec<String> = interned_vals
        .iter()
        .map(|v| format!("{}", pool.get(v)))
        .collect();
    assert_eq!(&sorted.join(","), "0,1,2,3,4,5");
}

#[derive(Eq, PartialEq, Hash)]
pub struct TestStruct2(String, u64);

#[test]
fn sequential() {
    let mut pool: Interner<TestStruct2> = Interner::new();
    for _i in 0..10_000 {
        let mut interned = Vec::with_capacity(100);
        for j in 0..100 {
            interned.push(ArcIntern::new(&mut pool, TestStruct2("foo".to_string(), j)));
        }
        for h in interned {
            pool.release(h);
        }
    }

    assert_eq!(ArcIntern::num_objects_interned(&pool), 0);
}
