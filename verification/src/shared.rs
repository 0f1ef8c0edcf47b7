//! The shared, concurrently accessed cache instance.
//!
//! One [`SharedThumbCache`] exists per monitored directory, owned by the
//! composition root for the process lifetime and handed by reference to the
//! scanning workers (writers) and the listing handlers (readers). It wraps
//! the verified [`ThumbCache`] in a verified reader/writer lock whose
//! invariant is the cache's well-formedness; no input/output ever happens
//! while the lock is held. What each operation does to the map is stated on
//! [`ThumbCache`]; through the lock, other writers may run between any two
//! operations.

use vstd::prelude::*;
use vstd::rwlock::{RwLock, RwLockPredicate};

use crate::cache::ThumbCache;
use crate::record::{Thumb, ThumbView};
use crate::scan::{
    evict_records, item_views, plan_scan, source_views, spec_evict, spec_items, str_views,
    ScanPlan, SourceInfo, WorkItem,
};

verus! {

/// The lock invariant: the cache's keys stay pairwise distinct.
pub struct CacheInv;

impl RwLockPredicate<ThumbCache> for CacheInv {
    open spec fn inv(self, v: ThumbCache) -> bool {
        v.wf()
    }
}

pub struct SharedThumbCache {
    lock: RwLock<ThumbCache, CacheInv>,
}

impl SharedThumbCache {
    #[verifier::type_invariant]
    closed spec fn locked_inv(&self) -> bool {
        self.lock.pred() == (CacheInv {  })
    }

    /// A new, empty shared cache.
    pub fn new() -> SharedThumbCache {
        SharedThumbCache { lock: RwLock::new(ThumbCache::new(), Ghost(CacheInv {  })) }
    }

    /// Inserts or replaces one record under a write lock. The critical
    /// section is the one map update; the lock is released at once.
    pub fn upsert(&self, key: String, rec: Thumb) {
        proof {
            use_type_invariant(self);
        }
        let (mut c, handle) = self.lock.acquire_write();
        c.upsert(key, rec);
        handle.release_write(c);
    }

    /// Removes one record under a write lock.
    pub fn remove(&self, key: &str) {
        proof {
            use_type_invariant(self);
        }
        let (mut c, handle) = self.lock.acquire_write();
        c.remove(key);
        handle.release_write(c);
    }

    /// Looks one record up under a read lock; a miss is an ordinary outcome
    /// and the caller falls back to a record with unknown dimensions.
    pub fn get(&self, key: &str) -> (r: Option<Thumb>) {
        proof {
            use_type_invariant(self);
        }
        let handle = self.lock.acquire_read();
        let r = handle.borrow().get(key);
        handle.release_read();
        r
    }

    /// A consistent point-in-time copy of all records, taken under a read
    /// lock; sorting and serializing happen after the lock is gone.
    pub fn snapshot(&self) -> (r: Vec<Thumb>) {
        proof {
            use_type_invariant(self);
        }
        let handle = self.lock.acquire_read();
        let r = handle.borrow().snapshot();
        handle.release_read();
        r
    }

    /// Plans one scan against the cached state, under a read lock.
    ///
    /// The eviction list and every item field but the probe flags are
    /// functions of the arguments alone; the probe flags depend on what the
    /// locked cache held at the moment of planning, so the map they were
    /// judged against is existentially bound. See [`plan_scan`] for the
    /// plan's full meaning.
    pub fn plan_scan_locked(
        &self,
        dir: &str,
        sources: &Vec<SourceInfo>,
        existing_thumbs: &Vec<String>,
        first_run: bool,
    ) -> (plan: ScanPlan)
        ensures
            exists|m: Map<Seq<char>, ThumbView>|
                item_views(plan.items@) == #[trigger] spec_items(
                    dir@,
                    source_views(sources@),
                    first_run,
                    m,
                ),
            str_views(plan.evict@) == spec_evict(
                str_views(existing_thumbs@),
                source_views(sources@),
            ),
    {
        proof {
            use_type_invariant(self);
        }
        let handle = self.lock.acquire_read();
        let cache = handle.borrow();
        let ghost m = cache@;
        let plan = plan_scan(dir, sources, existing_thumbs, first_run, cache);
        proof {
            assert(item_views(plan.items@) == spec_items(
                dir@,
                source_views(sources@),
                first_run,
                m,
            ));
        }
        handle.release_read();
        plan
    }

    /// Drops every record no current work item claims, under a write lock;
    /// see [`evict_records`] for the exact effect on the map.
    pub fn evict_unclaimed(&self, keep: &Vec<WorkItem>) {
        proof {
            use_type_invariant(self);
        }
        let (mut c, handle) = self.lock.acquire_write();
        evict_records(&mut c, keep);
        handle.release_write(c);
    }

    /// The number of records, under a read lock.
    pub fn len(&self) -> (n: usize) {
        proof {
            use_type_invariant(self);
        }
        let handle = self.lock.acquire_read();
        let n = handle.borrow().len();
        handle.release_read();
        n
    }
}

} // verus!
