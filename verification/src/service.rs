//! The concurrency wrapper: one shared Bloom filter behind a verified
//! multiple-readers/single-writer lock. Queries take the shared side,
//! inserts the exclusive side, so reads run concurrently while writes are
//! serialized against everything.
//!
//! The lock carries the filter's well-formedness and its fixed geometry as
//! an invariant: every caller, on any interleaving, finds a usable filter
//! with the same `m` and `k` it was built with, so no access is ever out
//! of range and no torn state is ever observed.

use vstd::prelude::*;
use vstd::rwlock::{RwLock, RwLockPredicate};
use crate::filter::{spec_contains, BloomFilter};
use crate::hashing::StableHash;

verus! {

/// The lock invariant: the filter inside is well formed and keeps the
/// geometry fixed at construction.
pub struct FilterGeometry {
    pub m: nat,
    pub k: nat,
}

impl RwLockPredicate<BloomFilter> for FilterGeometry {
    open spec fn inv(self, v: BloomFilter) -> bool {
        &&& v.wf()
        &&& v.spec_m() == self.m
        &&& v.spec_k() == self.k
    }
}

/// One shared Bloom filter behind a reader-writer lock; the object the
/// external service layer calls into.
pub struct BloomdService {
    bloom_filter: RwLock<BloomFilter, FilterGeometry>,
}

impl BloomdService {
    /// The fixed geometry every state behind the lock keeps.
    pub closed spec fn geometry(&self) -> FilterGeometry {
        self.bloom_filter.pred()
    }

    /// Wraps a filter; its geometry becomes the lock's invariant.
    pub fn new(bloom_filter: BloomFilter) -> (s: Self)
        requires
            bloom_filter.wf(),
        ensures
            s.geometry() == (FilterGeometry {
                m: bloom_filter.spec_m(),
                k: bloom_filter.spec_k(),
            }),
    {
        let ghost geometry = FilterGeometry {
            m: bloom_filter.spec_m(),
            k: bloom_filter.spec_k(),
        };
        BloomdService { bloom_filter: RwLock::new(bloom_filter, Ghost(geometry)) }
    }

    /// Inserts an item under the exclusive side of the lock: no reader or
    /// other writer runs while the bits change, and the filter handed back
    /// to the lock is again well formed with the same geometry.
    pub fn insert<T: StableHash>(&self, item: &T) {
        let (mut filter, write_handle) = self.bloom_filter.acquire_write();
        filter.insert(item);
        write_handle.release_write(filter);
    }

    /// Queries an item under the shared side of the lock. The answer is
    /// the verdict of some well-formed filter state of this service's
    /// geometry: the state some prefix of the serialized inserts built.
    pub fn contains<T: StableHash>(&self, item: &T) -> (r: bool)
        ensures
            exists|bits: Seq<bool>|
                bits.len() == self.geometry().m && r == spec_contains(
                    bits,
                    self.geometry().k,
                    item.stable_bytes(),
                ),
    {
        let read_handle = self.bloom_filter.acquire_read();
        let r = read_handle.borrow().contains(item);
        proof {
            let bits = read_handle.view().spec_bits();
            assert(bits.len() == self.geometry().m && r == spec_contains(
                bits,
                self.geometry().k,
                item.stable_bytes(),
            ));
        }
        read_handle.release_read();
        r
    }
}

} // verus!
