//! A cache of checksums.

use lru::LruCache;
use std::num::NonZeroUsize;
use vstd::prelude::*;

verus! {

/// `lru::LruCache`, whose contents only the functions of this module speak of.
#[verifier::external_type_specification]
#[verifier::external_body]
#[verifier::reject_recursive_types(K)]
#[verifier::reject_recursive_types(V)]
#[verifier::reject_recursive_types(S)]
pub struct ExLruCache<K, V, S>(lru::LruCache<K, V, S>);

/// `lru::DefaultHasher`, by which caches find their entries.
#[verifier::external_type_specification]
#[verifier::external_body]
pub struct ExDefaultHasher(lru::DefaultHasher);

/// The keys and values of a cache.
pub uninterp spec fn cache_entries(cache: LruCache<u64, u32>) -> Map<u64, u32>;

/// How many entries a cache holds at most.
pub uninterp spec fn cache_limit(cache: LruCache<u64, u32>) -> nat;

/// Creates a cache by `LruCache::new`, which is empty and holds at most `limit` entries.
/// Room for all of them is set aside at once, which cannot be had for more.
#[verifier::external_body]
fn cache_new(limit: usize) -> (cache: LruCache<u64, u32>)
    requires
        0 < limit <= isize::MAX / 64,
    ensures
        cache_entries(cache).dom() == Set::<u64>::empty(),
        cache_limit(cache) == limit,
{
    LruCache::new(NonZeroUsize::new(limit).unwrap())
}

/// Creates a cache by `LruCache::unbounded`, which is empty, and whose limit is the largest number
/// of entries that can be counted.
#[verifier::external_body]
fn cache_unbounded() -> (cache: LruCache<u64, u32>)
    ensures
        cache_entries(cache).dom() == Set::<u64>::empty(),
        cache_limit(cache) == usize::MAX,
{
    LruCache::unbounded()
}

/// Asks by `LruCache::cap` how many entries a cache holds at most.
#[verifier::external_body]
fn cache_cap(cache: &LruCache<u64, u32>) -> (limit: usize)
    ensures
        limit == cache_limit(*cache),
{
    cache.cap().get()
}

/// A cache of the checksums of entries.
pub struct CrcCache(LruCache<u64, u32>);

impl CrcCache {
    /// The checksums in the cache.
    pub closed spec fn entries(&self) -> Map<u64, u32> {
        cache_entries(self.0)
    }

    /// How many checksums the cache holds at most.
    pub closed spec fn spec_limit(&self) -> nat {
        cache_limit(self.0)
    }

    /// Creates an empty cache that holds at most `limit` checksums.
    pub fn new(limit: usize) -> (cache: CrcCache)
        requires
            0 < limit <= isize::MAX / 64,
        ensures
            cache.entries().dom() == Set::<u64>::empty(),
            cache.spec_limit() == limit,
    {
        CrcCache(cache_new(limit))
    }

    /// Creates an empty cache that holds any number of checksums.
    pub fn unbounded() -> (cache: CrcCache)
        ensures
            cache.entries().dom() == Set::<u64>::empty(),
            cache.spec_limit() == usize::MAX,
    {
        CrcCache(cache_unbounded())
    }

    /// How many checksums the cache holds at most.
    pub fn limit(&self) -> (limit: usize)
        ensures
            limit == self.spec_limit(),
    {
        cache_cap(&self.0)
    }
}

} // verus!
