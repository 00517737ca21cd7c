//! Caches for SRV record targets.
use vstd::prelude::*;

verus! {

/// Relies on `SystemTime::elapsed` of std, applied to the Unix epoch: the
/// number of milliseconds the system clock reads past the epoch (0 when the
/// clock stands before it). Nothing is promised of the reading.
#[verifier::external_body]
fn clock_millis() -> u64 {
    std::time::UNIX_EPOCH.elapsed().map_or(0, |d| d.as_millis() as u64)
}

/// A cache of items valid for a limited period of time.
///
/// Instants are milliseconds since the Unix epoch.
#[derive(Debug)]
pub struct Cache<T> {
    valid_until: u64,
    items: Vec<T>,
}

impl<T> Cache<T> {
    /// The cached items, in the order they were given.
    pub closed spec fn spec_items(&self) -> Seq<T> {
        self.items@
    }

    /// The last instant at which the cache may serve.
    pub closed spec fn spec_valid_until(&self) -> u64 {
        self.valid_until
    }

    /// A cache serves at `now` when it holds items and has not expired.
    pub open spec fn fresh_at(&self, now: u64) -> bool {
        self.spec_items().len() > 0 && now <= self.spec_valid_until()
    }

    /// Creates a new cache of items valid until some time.
    pub fn new(items: Vec<T>, valid_until: u64) -> (r: Self)
        ensures
            r.spec_items() == items@,
            r.spec_valid_until() == valid_until,
    {
        Cache { valid_until, items }
    }

    /// Determines if a cache is valid at the instant `now`.
    pub fn valid_at(&self, now: u64) -> (r: bool)
        ensures
            r == self.fresh_at(now),
    {
        self.items.len() > 0 && now <= self.valid_until
    }

    /// Determines if a cache is valid at the instant the system clock reads.
    pub fn valid(&self) -> (r: bool)
        ensures
            exists|now: u64| r == #[trigger] self.fresh_at(now),
            self.spec_items().len() == 0 ==> !r,
    {
        let now = clock_millis();
        let r = self.valid_at(now);
        assert(r == self.fresh_at(now));
        r
    }

    /// Gets the items stored in a cache.
    pub fn items(&self) -> (r: &[T])
        ensures
            r@ == self.spec_items(),
    {
        self.items.as_slice()
    }

    /// The last instant at which the cache may serve.
    pub fn valid_until(&self) -> (r: u64)
        ensures
            r == self.spec_valid_until(),
    {
        self.valid_until
    }
}

impl<T> Default for Cache<T> {
    /// An empty cache that expired at the epoch, so that its first use refreshes it.
    fn default() -> (r: Self)
        ensures
            r.spec_items().len() == 0,
            r.spec_valid_until() == 0,
    {
        Cache::new(Vec::new(), 0)
    }
}

} // verus!
