//! Region cache: rendered images memoised by quantised view region,
//! bounded by entry count and by age.
//!
//! Entries are kept in a vector with unique regions; timestamps are
//! milliseconds on a monotonic clock that the caller reads and hands in.

use vstd::prelude::*;
use crate::progressive::elapsed_ms;

verus! {

/// A view of the complex plane snapped to a coarse integer grid, with the
/// resolution divisor it was rendered at. Two views that snap to the same
/// box at the same divisor share one cache entry.
#[derive(Clone, Copy, PartialEq, Eq, Hash, Debug, Structural)]
pub struct ViewRegion {
    x_min: i32,
    x_max: i32,
    y_min: i32,
    y_max: i32,
    resolution: u32,
}

impl ViewRegion {
    pub fn new(x_min: i32, x_max: i32, y_min: i32, y_max: i32, resolution: u32) -> (r: Self)
        ensures
            r.x_min() == x_min,
            r.x_max() == x_max,
            r.y_min() == y_min,
            r.y_max() == y_max,
            r.resolution() == resolution,
    {
        ViewRegion { x_min, x_max, y_min, y_max, resolution }
    }

    pub closed spec fn x_min(&self) -> i32 {
        self.x_min
    }

    pub closed spec fn x_max(&self) -> i32 {
        self.x_max
    }

    pub closed spec fn y_min(&self) -> i32 {
        self.y_min
    }

    pub closed spec fn y_max(&self) -> i32 {
        self.y_max
    }

    pub closed spec fn resolution(&self) -> u32 {
        self.resolution
    }
}

/// One cached image, the region it shows and when it was stored.
pub struct CacheEntry<T> {
    pub region: ViewRegion,
    pub image: T,
    pub timestamp_ms: u64,
}

/// An entry is served while its age is below the maximum age.
pub open spec fn is_fresh<T>(e: CacheEntry<T>, max_age: u64, now: u64) -> bool {
    elapsed_ms(e.timestamp_ms, now) < max_age
}

/// The entries that a purge at time `now` keeps, in their order.
pub open spec fn fresh_entries<T>(s: Seq<CacheEntry<T>>, max_age: u64, now: u64) -> Seq<CacheEntry<T>> {
    s.filter(|e: CacheEntry<T>| is_fresh(e, max_age, now))
}

pub open spec fn unique_regions<T>(s: Seq<CacheEntry<T>>) -> bool {
    forall|i: int, j: int|
        0 <= i < s.len() && 0 <= j < s.len() && i != j ==> s[i].region != s[j].region
}

pub open spec fn has_region<T>(s: Seq<CacheEntry<T>>, region: ViewRegion) -> bool {
    exists|i: int| 0 <= i < s.len() && s[i].region == region
}

/// Where `region` is stored (meaningful when `has_region` holds).
pub open spec fn region_index<T>(s: Seq<CacheEntry<T>>, region: ViewRegion) -> int {
    choose|i: int| 0 <= i < s.len() && s[i].region == region
}

/// Index of the first entry with the smallest timestamp.
pub open spec fn oldest_index<T>(s: Seq<CacheEntry<T>>) -> int
    decreases s.len(),
{
    if s.len() <= 1 {
        0
    } else {
        let j = oldest_index(s.drop_last());
        if s.last().timestamp_ms < s[j].timestamp_ms {
            s.len() - 1
        } else {
            j
        }
    }
}

/// Stores `e`, replacing the entry of the same region if there is one.
pub open spec fn upsert<T>(s: Seq<CacheEntry<T>>, e: CacheEntry<T>) -> Seq<CacheEntry<T>> {
    if has_region(s, e.region) {
        s.update(region_index(s, e.region), e)
    } else {
        s.push(e)
    }
}

/// The entries after inserting `e` (stamped `e.timestamp_ms`) into a cache
/// of capacity `max_entries`: when full, expired entries are purged first,
/// then, if still full, the oldest entry is evicted. A cache of capacity
/// zero stores nothing.
pub open spec fn after_insert<T>(
    s: Seq<CacheEntry<T>>,
    max_entries: nat,
    max_age: u64,
    e: CacheEntry<T>,
) -> Seq<CacheEntry<T>> {
    if max_entries == 0 {
        s
    } else {
        let kept = if s.len() >= max_entries {
            let p = fresh_entries(s, max_age, e.timestamp_ms);
            if p.len() >= max_entries {
                p.remove(oldest_index(p))
            } else {
                p
            }
        } else {
            s
        };
        upsert(kept, e)
    }
}

/// Maximum age in milliseconds for a maximum age in seconds, saturating.
pub open spec fn age_limit_ms(max_age_secs: u64) -> u64 {
    if max_age_secs <= u64::MAX / 1000 {
        (max_age_secs * 1000) as u64
    } else {
        u64::MAX
    }
}

pub struct FractalCache<T> {
    cache: Vec<CacheEntry<T>>,
    max_entries: usize,
    max_age_ms: u64,
}

impl<T> FractalCache<T> {
    pub closed spec fn entries(&self) -> Seq<CacheEntry<T>> {
        self.cache@
    }

    pub closed spec fn capacity(&self) -> nat {
        self.max_entries as nat
    }

    pub closed spec fn max_age(&self) -> u64 {
        self.max_age_ms
    }

    pub open spec fn wf(&self) -> bool {
        &&& self.entries().len() <= self.capacity()
        &&& unique_regions(self.entries())
    }

    /// An empty cache holding at most `max_entries` images, each served for
    /// `max_age_secs` seconds.
    pub fn new(max_entries: usize, max_age_secs: u64) -> (r: Self)
        ensures
            r.wf(),
            r.entries() == Seq::<CacheEntry<T>>::empty(),
            r.capacity() == max_entries,
            r.max_age() == age_limit_ms(max_age_secs),
    {
        let max_age_ms: u64 = if max_age_secs <= u64::MAX / 1000 {
            max_age_secs * 1000
        } else {
            u64::MAX
        };
        FractalCache { cache: Vec::new(), max_entries, max_age_ms }
    }

    fn position_of(&self, region: &ViewRegion) -> (r: Option<usize>)
        requires
            self.wf(),
        ensures
            match r {
                Some(i) => has_region(self.entries(), *region) && i == region_index(
                    self.entries(),
                    *region,
                ),
                None => !has_region(self.entries(), *region),
            },
    {
        let mut i: usize = 0;
        while i < self.cache.len()
            invariant
                self.wf(),
                0 <= i <= self.cache.len(),
                forall|k: int| 0 <= k < i ==> self.cache@[k].region != *region,
            decreases self.cache.len() - i,
        {
            if self.cache[i].region == *region {
                proof {
                    assert(self.entries()[i as int].region == *region);
                }
                return Some(i);
            }
            i = i + 1;
        }
        None
    }

    /// The image stored for `region`, if there is one and it is younger
    /// than the maximum age at time `now_ms`. A miss changes nothing.
    pub fn get(&self, region: &ViewRegion, now_ms: u64) -> (r: Option<&T>)
        requires
            self.wf(),
        ensures
            match r {
                Some(img) => has_region(self.entries(), *region) && is_fresh(
                    self.entries()[region_index(self.entries(), *region)],
                    self.max_age(),
                    now_ms,
                ) && *img == self.entries()[region_index(self.entries(), *region)].image,
                None => !has_region(self.entries(), *region) || !is_fresh(
                    self.entries()[region_index(self.entries(), *region)],
                    self.max_age(),
                    now_ms,
                ),
            },
    {
        match self.position_of(region) {
            Some(i) => {
                let ts = self.cache[i].timestamp_ms;
                let age: u64 = if now_ms >= ts {
                    now_ms - ts
                } else {
                    0
                };
                if age < self.max_age_ms {
                    Some(&self.cache[i].image)
                } else {
                    None
                }
            },
            None => None,
        }
    }

    /// Stores `image` for `region` stamped `now_ms`. When the cache is full,
    /// expired entries are purged first; if it is still full, the oldest
    /// entry is evicted so that exactly one slot frees.
    pub fn insert(&mut self, region: ViewRegion, image: T, now_ms: u64)
        requires
            old(self).wf(),
        ensures
            final(self).wf(),
            final(self).entries() == after_insert(
                old(self).entries(),
                old(self).capacity(),
                old(self).max_age(),
                CacheEntry { region, image, timestamp_ms: now_ms },
            ),
            final(self).capacity() == old(self).capacity(),
            final(self).max_age() == old(self).max_age(),
    {
        if self.max_entries == 0 {
            return;
        }
        if self.cache.len() >= self.max_entries {
            self.remove_expired_entries(now_ms);
            if self.cache.len() >= self.max_entries {
                self.remove_oldest_entries();
            }
        }
        self.upsert(CacheEntry { region, image, timestamp_ms: now_ms });
    }

    fn upsert(&mut self, e: CacheEntry<T>)
        requires
            unique_regions(old(self).entries()),
            old(self).entries().len() < old(self).capacity() || has_region(
                old(self).entries(),
                e.region,
            ),
            old(self).entries().len() <= old(self).capacity(),
        ensures
            final(self).wf(),
            final(self).entries() == upsert(old(self).entries(), e),
            final(self).capacity() == old(self).capacity(),
            final(self).max_age() == old(self).max_age(),
    {
        match self.position_of(&e.region) {
            Some(i) => {
                self.cache[i] = e;
                proof {
                    let s = self.entries();
                    assert forall|a: int, b: int|
                        0 <= a < s.len() && 0 <= b < s.len() && a != b implies s[a].region
                        != s[b].region by {
                        let o = old(self).entries();
                        if a != i && b != i {
                            assert(o[a].region != o[b].region);
                        } else if a == i {
                            assert(o[b].region != o[i as int].region);
                        } else {
                            assert(o[a].region != o[i as int].region);
                        }
                    }
                }
            },
            None => {
                self.cache.push(e);
                proof {
                    let s = self.entries();
                    let o = old(self).entries();
                    assert forall|a: int, b: int|
                        0 <= a < s.len() && 0 <= b < s.len() && a != b implies s[a].region
                        != s[b].region by {
                        if a < o.len() && b < o.len() {
                            assert(o[a].region != o[b].region);
                        } else if a == o.len() {
                            assert(s[b] == o[b]);
                        } else {
                            assert(s[a] == o[a]);
                        }
                    }
                }
            },
        }
    }

    /// Drops every entry whose age at `now_ms` has reached the maximum age.
    fn remove_expired_entries(&mut self, now_ms: u64)
        requires
            old(self).wf(),
        ensures
            final(self).wf(),
            final(self).entries() == fresh_entries(old(self).entries(), old(self).max_age(), now_ms),
            final(self).capacity() == old(self).capacity(),
            final(self).max_age() == old(self).max_age(),
    {
        let ghost orig = self.cache@;
        let ghost mut j: int = 0;
        let mut i: usize = 0;
        proof {
            assert(orig.subrange(0, 0) =~= Seq::<CacheEntry<T>>::empty());
            lemma_fresh_entries_step(orig, 0, self.max_age_ms, now_ms);
            assert(self.cache@.subrange(0, 0) =~= fresh_entries(orig.subrange(0, 0), self.max_age_ms, now_ms));
            assert(self.cache@.subrange(0, self.cache@.len() as int) =~= orig.subrange(0, orig.len() as int));
        }
        while i < self.cache.len()
            invariant
                self.wf(),
                self.capacity() == old(self).capacity(),
                self.max_age() == old(self).max_age(),
                orig == old(self).entries(),
                0 <= i <= self.cache.len(),
                0 <= j <= orig.len(),
                self.cache@.len() - i == orig.len() - j,
                self.cache@.subrange(0, i as int) == fresh_entries(orig.subrange(0, j), self.max_age_ms, now_ms),
                self.cache@.subrange(i as int, self.cache@.len() as int) == orig.subrange(j, orig.len() as int),
            decreases self.cache.len() - i,
        {
            let ghost before = self.cache@;
            let ghost tail = before.subrange(i as int, before.len() as int);
            let ghost otail = orig.subrange(j, orig.len() as int);
            proof {
                assert(tail == otail);
                assert(before[i as int] == orig[j]) by {
                    assert(before.subrange(i as int, before.len() as int)[0] == before[i as int]);
                }
                lemma_fresh_entries_step(orig, j, self.max_age_ms, now_ms);
            }
            let ts = self.cache[i].timestamp_ms;
            let age: u64 = if now_ms >= ts {
                now_ms - ts
            } else {
                0
            };
            if age < self.max_age_ms {
                i = i + 1;
                proof {
                    j = j + 1;
                    assert(self.cache@.subrange(0, i as int) =~= before.subrange(0, i - 1).push(before[i - 1]));
                    assert forall|k: int| 0 <= k < before.len() - i implies #[trigger] before.subrange(i as int, before.len() as int)[k] == orig.subrange(j, orig.len() as int)[k] by {
                        assert(tail[k + 1] == before[i + k]);
                        assert(otail[k + 1] == orig[j + k]);
                    }
                    assert(self.cache@.subrange(i as int, self.cache@.len() as int) =~= orig.subrange(j, orig.len() as int));
                }
            } else {
                self.cache.remove(i);
                proof {
                    j = j + 1;
                    let s = self.cache@;
                    assert(s.subrange(0, i as int) =~= before.subrange(0, i as int));
                    assert forall|k: int| 0 <= k < s.len() - i implies #[trigger] s.subrange(i as int, s.len() as int)[k] == orig.subrange(j, orig.len() as int)[k] by {
                        assert(s[i + k] == before[i + k + 1]);
                        assert(tail[k + 1] == before[i + k + 1]);
                        assert(otail[k + 1] == orig[j + k]);
                    }
                    assert(s.subrange(i as int, s.len() as int) =~= orig.subrange(j, orig.len() as int));
                    assert forall|a: int, b: int|
                        0 <= a < s.len() && 0 <= b < s.len() && a != b implies s[a].region
                        != s[b].region by {
                        let a0 = if a < i { a } else { a + 1 };
                        let b0 = if b < i { b } else { b + 1 };
                        assert(s[a] == before[a0]);
                        assert(s[b] == before[b0]);
                    }
                }
            }
        }
        proof {
            assert(self.cache@.subrange(0, i as int) =~= self.cache@);
            assert(orig.subrange(0, j) =~= orig);
        }
    }

    /// Evicts the entry with the oldest timestamp (the first such entry).
    fn remove_oldest_entries(&mut self)
        requires
            old(self).wf(),
            old(self).entries().len() > 0,
        ensures
            final(self).wf(),
            final(self).entries() == old(self).entries().remove(oldest_index(old(self).entries())),
            final(self).entries().len() == old(self).entries().len() - 1,
            final(self).capacity() == old(self).capacity(),
            final(self).max_age() == old(self).max_age(),
    {
        let ghost s = self.cache@;
        let mut best: usize = 0;
        let mut i: usize = 1;
        proof {
            assert(s.subrange(0, 1).len() == 1);
        }
        while i < self.cache.len()
            invariant
                self.cache@ == s,
                s.len() > 0,
                1 <= i <= s.len(),
                best == oldest_index(s.subrange(0, i as int)),
                0 <= best < i,
            decreases s.len() - i,
        {
            proof {
                let t = s.subrange(0, i + 1);
                assert(t.drop_last() =~= s.subrange(0, i as int));
                assert(t[best as int] == s[best as int]);
                assert(t.last() == s[i as int]);
            }
            if self.cache[i].timestamp_ms < self.cache[best].timestamp_ms {
                best = i;
            }
            i = i + 1;
        }
        proof {
            assert(s.subrange(0, i as int) =~= s);
        }
        self.cache.remove(best);
        proof {
            let r = self.cache@;
            s.remove_ensures(best as int);
            assert forall|a: int, b: int|
                0 <= a < r.len() && 0 <= b < r.len() && a != b implies r[a].region
                != r[b].region by {
                let a0 = if a < best { a } else { a + 1 };
                let b0 = if b < best { b } else { b + 1 };
                assert(r[a] == s[a0]);
                assert(r[b] == s[b0]);
            }
        }
    }

    pub fn len(&self) -> (r: usize)
        ensures
            r == self.entries().len(),
    {
        self.cache.len()
    }

    pub fn is_empty(&self) -> (r: bool)
        ensures
            r == (self.entries().len() == 0),
    {
        self.cache.len() == 0
    }

    /// Drops every entry; callers use it when something outside the key
    /// (palette, fractal type, iteration cap) changes.
    pub fn clear(&mut self)
        requires
            old(self).wf(),
        ensures
            final(self).wf(),
            final(self).entries() == Seq::<CacheEntry<T>>::empty(),
            final(self).capacity() == old(self).capacity(),
            final(self).max_age() == old(self).max_age(),
    {
        self.cache.clear();
    }
}

/// One more entry of `s` either joins the purged prefix or is dropped.
proof fn lemma_fresh_entries_step<T>(s: Seq<CacheEntry<T>>, j: int, max_age: u64, now: u64)
    requires
        0 <= j <= s.len(),
    ensures
        j == 0 ==> fresh_entries(s.subrange(0, 0), max_age, now) == Seq::<CacheEntry<T>>::empty(),
        j < s.len() ==> fresh_entries(s.subrange(0, j + 1), max_age, now) == if is_fresh(
            s[j],
            max_age,
            now,
        ) {
            fresh_entries(s.subrange(0, j), max_age, now).push(s[j])
        } else {
            fresh_entries(s.subrange(0, j), max_age, now)
        },
{
    reveal(Seq::filter);
    if j < s.len() {
        let t = s.subrange(0, j + 1);
        assert(t.drop_last() =~= s.subrange(0, j));
        assert(t.last() == s[j]);
    }
}

/// The entries after inserting each of `es` in turn, each stamped with its
/// own timestamp.
pub open spec fn after_inserts<T>(
    s: Seq<CacheEntry<T>>,
    max_entries: nat,
    max_age: u64,
    es: Seq<CacheEntry<T>>,
) -> Seq<CacheEntry<T>>
    decreases es.len(),
{
    if es.len() == 0 {
        s
    } else {
        after_insert(after_inserts(s, max_entries, max_age, es.drop_last()), max_entries, max_age, es.last())
    }
}

/// Inserted in time order; equal stamps (one clock tick) are allowed.
pub open spec fn nondecreasing_timestamps<T>(es: Seq<CacheEntry<T>>) -> bool {
    forall|i: int, j: int| 0 <= i < j < es.len() ==> es[i].timestamp_ms <= es[j].timestamp_ms
}

proof fn lemma_inserts_below_capacity<T>(max_entries: nat, max_age: u64, es: Seq<CacheEntry<T>>, k: int)
    requires
        0 <= k <= max_entries,
        k <= es.len(),
        unique_regions(es),
    ensures
        after_inserts(Seq::<CacheEntry<T>>::empty(), max_entries, max_age, es.subrange(0, k)) == es.subrange(0, k),
    decreases k,
{
    let t = es.subrange(0, k);
    if k > 0 {
        assert(t.drop_last() =~= es.subrange(0, k - 1));
        lemma_inserts_below_capacity(max_entries, max_age, es, k - 1);
        let prev = es.subrange(0, k - 1);
        assert(!has_region(prev, es[k - 1].region)) by {
            if has_region(prev, es[k - 1].region) {
                let i = choose|i: int| 0 <= i < prev.len() && prev[i].region == es[k - 1].region;
                assert(es[i].region != es[k - 1].region);
            }
        }
        assert(prev.push(es[k - 1]) =~= t);
    } else {
        assert(t =~= Seq::<CacheEntry<T>>::empty());
    }
}

proof fn lemma_all_fresh_kept<T>(s: Seq<CacheEntry<T>>, max_age: u64, now: u64)
    requires
        forall|i: int| 0 <= i < s.len() ==> is_fresh(#[trigger] s[i], max_age, now),
    ensures
        fresh_entries(s, max_age, now) == s,
    decreases s.len(),
{
    reveal(Seq::filter);
    if s.len() > 0 {
        let d = s.drop_last();
        assert forall|i: int| 0 <= i < d.len() implies is_fresh(#[trigger] d[i], max_age, now) by {
            assert(d[i] == s[i]);
        }
        lemma_all_fresh_kept(d, max_age, now);
        assert(is_fresh(s.last(), max_age, now));
        assert(d.push(s.last()) =~= s);
    }
}

proof fn lemma_oldest_is_first<T>(s: Seq<CacheEntry<T>>)
    requires
        nondecreasing_timestamps(s),
    ensures
        oldest_index(s) == 0,
    decreases s.len(),
{
    if s.len() > 1 {
        let d = s.drop_last();
        assert(nondecreasing_timestamps(d));
        lemma_oldest_is_first(d);
        assert(s.last().timestamp_ms >= s[0].timestamp_ms);
    }
}

/// Inserting one more distinct region than the capacity, in time order
/// (ties allowed) and with none of them expired, into an empty cache leaves exactly
/// `max_entries` entries: the earliest insert is the one evicted.
pub proof fn lemma_full_cache_evicts_earliest<T>(max_entries: nat, max_age: u64, es: Seq<CacheEntry<T>>)
    requires
        max_entries >= 1,
        es.len() == max_entries + 1,
        unique_regions(es),
        nondecreasing_timestamps(es),
        elapsed_ms(es[0].timestamp_ms, es.last().timestamp_ms) < max_age,
    ensures
        after_inserts(Seq::<CacheEntry<T>>::empty(), max_entries, max_age, es) == es.subrange(1, es.len() as int),
        after_inserts(Seq::<CacheEntry<T>>::empty(), max_entries, max_age, es).len() == max_entries,
{
    let n = es.len() as int;
    let prev = es.subrange(0, n - 1);
    assert(es.drop_last() =~= prev);
    lemma_inserts_below_capacity(max_entries, max_age, es, n - 1);
    let now = es.last().timestamp_ms;
    assert forall|i: int| 0 <= i < prev.len() implies is_fresh(#[trigger] prev[i], max_age, now) by {
        if i > 0 {
            assert(es[0].timestamp_ms <= es[i].timestamp_ms);
        }
        assert(es[i].timestamp_ms <= es[n - 1].timestamp_ms);
    }
    lemma_all_fresh_kept(prev, max_age, now);
    assert(nondecreasing_timestamps(prev));
    lemma_oldest_is_first(prev);
    let kept = prev.remove(0);
    assert(kept =~= es.subrange(1, n - 1));
    assert(!has_region(kept, es.last().region)) by {
        if has_region(kept, es.last().region) {
            let i = choose|i: int| 0 <= i < kept.len() && kept[i].region == es.last().region;
            assert(es[i + 1].region != es[n - 1].region);
        }
    }
    assert(kept.push(es.last()) =~= es.subrange(1, n));
}

} // verus!
