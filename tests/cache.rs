use indexed_cache::indexed_cache::IndexedCache;

#[test]
fn interning_repeats_reuse_first_index() {
    let mut c = IndexedCache::new();
    assert_eq!(c.cache(10), 0);
    assert_eq!(c.cache(20), 1);
    assert_eq!(c.cache(10), 0);
    assert_eq!(c.len(), 2);
}

#[test]
fn interning_twice_returns_same_index() {
    let mut c = IndexedCache::new();
    for v in [5u64, 9, 5, 7, 9, 9, 1] {
        let before = c.len();
        let first = c.cache(v);
        let second = c.cache(v);
        assert_eq!(first, second);
        assert!(c.len() <= before + 1);
    }
    assert_eq!(c.len(), 4);
}

#[test]
fn canonical_order_kept_when_already_sorted() {
    let mut c = IndexedCache::new();
    c.cache(10);
    c.cache(20);
    c.cache(10);
    let s = c.sorted();
    assert_eq!(s.lookup(&10), Some(0));
    assert_eq!(s.lookup(&20), Some(1));
    assert!(s == c);
}

#[test]
fn canonical_order_changes_raw_indices() {
    let mut c = IndexedCache::new();
    assert_eq!(c.cache(20), 0);
    assert_eq!(c.cache(10), 1);
    let s = c.sorted();
    assert_eq!(s.lookup(&20), Some(1));
    assert_eq!(s.lookup(&10), Some(0));
    assert_eq!(*s.get(0), 10);
    assert_eq!(*s.get(1), 20);
    // the original is left as it was
    assert_eq!(c.lookup(&20), Some(0));
    assert!(!(s == c));
}

#[test]
fn canonical_forms_of_same_values_are_equal() {
    let a = IndexedCache::from_iter(vec![3, 1, 4, 15, 9, 2, 6]);
    let b = IndexedCache::from_iter(vec![9, 15, 6, 1, 2, 4, 3, 1]);
    assert!(!(a == b));
    let sa = a.sorted();
    let sb = b.sorted();
    assert!(sa == sb);
    assert_eq!(sa.into_values(), vec![1, 2, 3, 4, 6, 9, 15]);
}

#[test]
fn lookup_of_get_gives_index() {
    let c = IndexedCache::from_iter(vec![42, 7, 99, 7, 0]);
    assert_eq!(c.len(), 4);
    for i in 0..c.len() {
        assert_eq!(c.lookup(c.get(i)), Some(i));
    }
    assert_eq!(c.lookup(&1000), None);
}

#[test]
fn safe_get_out_of_range_is_none() {
    let c = IndexedCache::from_iter(vec![8, 6]);
    assert_eq!(c.safe_get(0), Some(&8));
    assert_eq!(c.safe_get(1), Some(&6));
    assert_eq!(c.safe_get(2), None);
    assert_eq!(c.safe_get(usize::MAX), None);
    let empty = IndexedCache::new();
    assert_eq!(empty.safe_get(0), None);
}

#[test]
fn bulk_construction_keeps_order_and_first_index() {
    let c = IndexedCache::from_iter(vec![30, 10, 30, 20]);
    assert_eq!(c.lookup(&30), Some(0));
    assert_eq!(c.lookup(&10), Some(1));
    assert_eq!(c.lookup(&20), Some(2));
    let mut d = IndexedCache::new();
    d.cache(30);
    d.cache(10);
    d.cache(20);
    assert!(c == d);
    assert_eq!(c.into_values(), vec![30, 10, 20]);
}

#[test]
fn empty_tables_are_equal() {
    let a = IndexedCache::new();
    let b = IndexedCache::from_iter(vec![]);
    assert!(a == b);
    assert_eq!(a.sorted().len(), 0);
}
