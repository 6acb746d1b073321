use fractal_generator::cache::{FractalCache, ViewRegion};

fn region(i: i32) -> ViewRegion {
    ViewRegion::new(i, i + 1, -i, -i + 1, 1)
}

#[test]
fn hit_while_fresh() {
    let mut c: FractalCache<Vec<u8>> = FractalCache::new(4, 2);
    c.insert(region(0), vec![1, 2, 3], 100);
    assert_eq!(c.get(&region(0), 100), Some(&vec![1, 2, 3]));
    assert_eq!(c.get(&region(0), 2099), Some(&vec![1, 2, 3]));
    assert_eq!(c.get(&region(1), 100), None);
}

#[test]
fn stale_entry_is_a_miss_but_not_purged() {
    let mut c: FractalCache<u32> = FractalCache::new(4, 2);
    c.insert(region(0), 7, 100);
    assert_eq!(c.get(&region(0), 2100), None);
    assert_eq!(c.get(&region(0), 5000), None);
    assert_eq!(c.len(), 1);
}

#[test]
fn overflow_evicts_earliest() {
    let mut c: FractalCache<u32> = FractalCache::new(3, 300);
    for i in 0..4 {
        c.insert(region(i), i as u32, 10 * i as u64);
    }
    assert_eq!(c.len(), 3);
    assert_eq!(c.get(&region(0), 40), None);
    assert_eq!(c.get(&region(1), 40), Some(&1));
    assert_eq!(c.get(&region(2), 40), Some(&2));
    assert_eq!(c.get(&region(3), 40), Some(&3));
}

#[test]
fn full_cache_purges_expired_first() {
    let mut c: FractalCache<u32> = FractalCache::new(3, 1);
    c.insert(region(0), 0, 0);
    c.insert(region(1), 1, 500);
    c.insert(region(2), 2, 1200);
    c.insert(region(3), 3, 1600);
    assert_eq!(c.len(), 2);
    assert_eq!(c.get(&region(2), 1600), Some(&2));
    assert_eq!(c.get(&region(3), 1600), Some(&3));
}

#[test]
fn same_region_is_replaced() {
    let mut c: FractalCache<u32> = FractalCache::new(2, 10);
    c.insert(region(0), 1, 0);
    c.insert(region(0), 2, 5);
    assert_eq!(c.len(), 1);
    assert_eq!(c.get(&region(0), 5), Some(&2));
}

#[test]
fn regions_differ_by_level() {
    let mut c: FractalCache<u32> = FractalCache::new(2, 10);
    c.insert(ViewRegion::new(0, 4, 0, 3, 1), 1, 0);
    c.insert(ViewRegion::new(0, 4, 0, 3, 2), 2, 0);
    assert_eq!(c.len(), 2);
    assert_eq!(c.get(&ViewRegion::new(0, 4, 0, 3, 2), 0), Some(&2));
}

#[test]
fn zero_capacity_stores_nothing() {
    let mut c: FractalCache<u32> = FractalCache::new(0, 10);
    c.insert(region(0), 1, 0);
    assert!(c.is_empty());
    assert_eq!(c.get(&region(0), 0), None);
}

#[test]
fn clear_empties() {
    let mut c: FractalCache<u32> = FractalCache::new(2, 10);
    c.insert(region(0), 1, 0);
    c.insert(region(1), 2, 0);
    c.clear();
    assert!(c.is_empty());
    assert_eq!(c.get(&region(1), 0), None);
}

#[test]
fn huge_max_age_saturates() {
    let mut c: FractalCache<u32> = FractalCache::new(2, u64::MAX);
    c.insert(region(0), 1, 0);
    assert_eq!(c.get(&region(0), u64::MAX - 1), Some(&1));
    assert_eq!(c.get(&region(0), u64::MAX), None);
}

#[test]
fn earlier_clock_reads_as_fresh() {
    let mut c: FractalCache<u32> = FractalCache::new(2, 1);
    c.insert(region(0), 1, 5000);
    assert_eq!(c.get(&region(0), 10), Some(&1));
    assert_eq!(c.get(&region(0), 5999), Some(&1));
    assert_eq!(c.get(&region(0), 6000), None);
}

#[test]
fn overflow_with_tied_stamps_evicts_earliest() {
    let mut c: FractalCache<u32> = FractalCache::new(3, 300);
    for i in 0..4 {
        c.insert(region(i), i as u32, 42);
    }
    assert_eq!(c.len(), 3);
    assert_eq!(c.get(&region(0), 42), None);
    for i in 1..4 {
        assert_eq!(c.get(&region(i), 42), Some(&(i as u32)));
    }
}
