//! Clients based on SRV lookups.
use std::sync::Arc;
use vstd::prelude::*;

use arc_swap::ArcSwap;

use crate::record::{is_ordering, record_uri};
use crate::resolver::libresolv::LibResolvSrvRecord;
use cache::Cache;
use execution::{Attempts, AttemptsView};
use policy::{built_from, parse_records, uris_of_records, Affinity, Policy};

pub mod cache;
pub mod execution;
pub mod policy;

verus! {

/// Errors encountered during SRV record resolution.
#[derive(Debug)]
pub enum SrvError<Lookup> {
    /// SRV lookup errors.
    Lookup(Lookup),
    /// SRV record parsing errors.
    RecordParsing(http::Error),
    /// Produced when there are no SRV targets for a client to use.
    NoTargets,
}

/// Execution mode to use when performing an operation on SRV targets.
#[derive(Clone, Copy, Debug)]
pub enum Execution {
    /// Operations are performed *serially* (i.e. one after the other).
    Serial,
    /// Operations are performed *concurrently* (i.e. all at once).
    /// Note that this does not imply parallelism--no additional tasks are spawned.
    Concurrent,
}

impl Default for Execution {
    fn default() -> (r: Self)
        ensures
            r is Serial,
    {
        Execution::Serial
    }
}

/// The cache of a client, held in an arc-swap cell: readers take a snapshot
/// and keep it while a refresh replaces the cell's content.
#[verifier::external_body]
#[verifier::reject_recursive_types(T)]
struct CacheSlot<T> {
    cell: ArcSwap<Cache<T>>,
}

impl<T> CacheSlot<T> {
    /// Relies on arc-swap's `ArcSwap::from_pointee`: a cell holding `initial`.
    #[verifier::external_body]
    fn new(initial: Cache<T>) -> Self {
        CacheSlot { cell: ArcSwap::from_pointee(initial) }
    }

    /// Relies on arc-swap's `ArcSwapAny::load_full`: a snapshot of what the
    /// cell holds at the moment of the call. Any holder of the client may have
    /// refreshed it, so nothing is promised of it.
    #[verifier::external_body]
    fn load_full(&self) -> Arc<Cache<T>> {
        self.cell.load_full()
    }

    /// Relies on arc-swap's `ArcSwapAny::store`: the cell holds `cache` from
    /// now on, and the caller gets a handle that shares it.
    #[verifier::external_body]
    fn replace(&self, cache: Cache<T>) -> (r: Arc<Cache<T>>)
        ensures
            *r == cache,
    {
        let shared = Arc::new(cache);
        self.cell.store(Arc::clone(&shared));
        shared
    }
}

/// Client for intelligently performing operations on a service located by SRV records.
///
/// The client keeps the configuration (service name, resolver, scheme and path
/// prefix of the addresses, target selection policy) and the cache of targets.
/// Each builder method resets the cache.
pub struct SrvClient<Resolver, P: Policy = Affinity> {
    srv: String,
    resolver: Resolver,
    http_scheme: String,
    path_prefix: String,
    policy: P,
    cache: CacheSlot<P::CacheItem>,
}

impl<Resolver, P: Policy> SrvClient<Resolver, P> {
    /// The SRV name that the client looks up.
    pub closed spec fn spec_srv(&self) -> Seq<char> {
        self.srv@
    }

    /// The client's resolver.
    pub closed spec fn spec_resolver(&self) -> Resolver {
        self.resolver
    }

    /// The scheme of the client's addresses.
    pub closed spec fn spec_http_scheme(&self) -> Seq<char> {
        self.http_scheme@
    }

    /// The path prefix of the client's addresses.
    pub closed spec fn spec_path_prefix(&self) -> Seq<char> {
        self.path_prefix@
    }

    /// The client's target selection policy.
    pub closed spec fn spec_policy(&self) -> P {
        self.policy
    }

    /// Creates a new client for communicating with services located by
    /// `srv_name`, with the default resolver.
    pub fn new(srv_name: &str) -> (r: Self)
        where
            Resolver: Default,
            P: Default,
        ensures
            r.spec_srv() == srv_name@,
            r.spec_http_scheme() == "https"@,
            r.spec_path_prefix() == "/"@,
    {
        Self::new_with_resolver(srv_name, Resolver::default())
    }

    /// Creates a new client for communicating with services located by `srv_name`.
    pub fn new_with_resolver(srv_name: &str, resolver: Resolver) -> (r: Self)
        where
            P: Default,
        ensures
            r.spec_srv() == srv_name@,
            r.spec_resolver() == resolver,
            r.spec_http_scheme() == "https"@,
            r.spec_path_prefix() == "/"@,
    {
        SrvClient {
            srv: srv_name.to_owned(),
            resolver,
            http_scheme: "https".to_owned(),
            path_prefix: "/".to_owned(),
            policy: P::default(),
            cache: CacheSlot::new(Cache::default()),
        }
    }

    /// Sets the SRV name of the client.
    pub fn srv_name(self, srv_name: &str) -> (r: Self)
        ensures
            r.spec_srv() == srv_name@,
            r.spec_resolver() == self.spec_resolver(),
            r.spec_http_scheme() == self.spec_http_scheme(),
            r.spec_path_prefix() == self.spec_path_prefix(),
            r.spec_policy() == self.spec_policy(),
    {
        SrvClient {
            srv: srv_name.to_owned(),
            resolver: self.resolver,
            http_scheme: self.http_scheme,
            path_prefix: self.path_prefix,
            policy: self.policy,
            cache: CacheSlot::new(Cache::default()),
        }
    }

    /// Sets the resolver of the client.
    pub fn resolver<R>(self, resolver: R) -> (r: SrvClient<R, P>)
        ensures
            r.spec_srv() == self.spec_srv(),
            r.spec_resolver() == resolver,
            r.spec_http_scheme() == self.spec_http_scheme(),
            r.spec_path_prefix() == self.spec_path_prefix(),
            r.spec_policy() == self.spec_policy(),
    {
        SrvClient {
            srv: self.srv,
            resolver,
            http_scheme: self.http_scheme,
            path_prefix: self.path_prefix,
            policy: self.policy,
            cache: CacheSlot::new(Cache::default()),
        }
    }

    /// Sets the policy of the client.
    pub fn policy<Q: Policy>(self, policy: Q) -> (r: SrvClient<Resolver, Q>)
        ensures
            r.spec_srv() == self.spec_srv(),
            r.spec_resolver() == self.spec_resolver(),
            r.spec_http_scheme() == self.spec_http_scheme(),
            r.spec_path_prefix() == self.spec_path_prefix(),
            r.spec_policy() == policy,
    {
        SrvClient {
            srv: self.srv,
            resolver: self.resolver,
            http_scheme: self.http_scheme,
            path_prefix: self.path_prefix,
            policy,
            cache: CacheSlot::new(Cache::default()),
        }
    }

    /// Sets the http scheme of the client.
    pub fn http_scheme(self, http_scheme: &str) -> (r: Self)
        ensures
            r.spec_srv() == self.spec_srv(),
            r.spec_resolver() == self.spec_resolver(),
            r.spec_http_scheme() == http_scheme@,
            r.spec_path_prefix() == self.spec_path_prefix(),
            r.spec_policy() == self.spec_policy(),
    {
        SrvClient {
            srv: self.srv,
            resolver: self.resolver,
            http_scheme: http_scheme.to_owned(),
            path_prefix: self.path_prefix,
            policy: self.policy,
            cache: CacheSlot::new(Cache::default()),
        }
    }

    /// Sets the path prefix of the client.
    pub fn path_prefix(self, path_prefix: &str) -> (r: Self)
        ensures
            r.spec_srv() == self.spec_srv(),
            r.spec_resolver() == self.spec_resolver(),
            r.spec_http_scheme() == self.spec_http_scheme(),
            r.spec_path_prefix() == path_prefix@,
            r.spec_policy() == self.spec_policy(),
    {
        SrvClient {
            srv: self.srv,
            resolver: self.resolver,
            http_scheme: self.http_scheme,
            path_prefix: path_prefix.to_owned(),
            policy: self.policy,
            cache: CacheSlot::new(Cache::default()),
        }
    }

    /// The SRV name that the client looks up.
    pub fn srv(&self) -> (r: &str)
        ensures
            r@ == self.spec_srv(),
    {
        self.srv.as_str()
    }

    /// The resolver that performs the client's lookups.
    pub fn resolver_ref(&self) -> (r: &Resolver)
        ensures
            *r == self.spec_resolver(),
    {
        &self.resolver
    }

    /// The client's target selection policy.
    pub fn policy_ref(&self) -> (r: &P)
        ensures
            *r == self.spec_policy(),
    {
        &self.policy
    }

    fn parse_record(&self, record: &LibResolvSrvRecord) -> (r: Result<String, http::Error>)
        ensures
            match r {
                Ok(uri) => record_uri(*record, self.spec_http_scheme(), self.spec_path_prefix())
                    == Some(uri@),
                Err(_) => record_uri(*record, self.spec_http_scheme(), self.spec_path_prefix()) is None,
            },
    {
        record.parse(self.http_scheme.as_str(), self.path_prefix.as_str())
    }

    /// Parses the target/port pairs of a fresh set of SRV records (as the
    /// resolver ordered them) into addresses, which are returned along with the
    /// time they are valid until, i.e. the time a cache of them should expire.
    pub fn get_fresh_uri_candidates<L>(
        &self,
        records: &[LibResolvSrvRecord],
        valid_until: u64,
    ) -> (r: Result<(Vec<String>, u64), SrvError<L>>)
        ensures
            match r {
                Ok((uris, until)) => until == valid_until && uris_of_records(
                    Ok(uris),
                    records@,
                    self.spec_http_scheme(),
                    self.spec_path_prefix(),
                ),
                Err(SrvError::RecordParsing(e)) => uris_of_records(
                    Err(e),
                    records@,
                    self.spec_http_scheme(),
                    self.spec_path_prefix(),
                ),
                Err(_) => false,
            },
    {
        match parse_records(records, self.http_scheme.as_str(), self.path_prefix.as_str()) {
            Ok(uris) => Ok((uris, valid_until)),
            Err(e) => Err(SrvError::RecordParsing(e)),
        }
    }

    /// Gets a snapshot of the client's cache if it is valid now; `None` means
    /// that the cache must be refreshed.
    pub fn get_valid_cache(&self) -> (r: Option<Arc<Cache<P::CacheItem>>>)
        ensures
            r matches Some(cache) ==> cache.spec_items().len() > 0 && exists|now: u64|
                #[trigger] cache.fresh_at(now),
    {
        let cache = self.cache.load_full();
        if cache.valid() {
            Some(cache)
        } else {
            None
        }
    }

    /// Refreshes the client's cache from a fresh set of SRV records (as the
    /// resolver ordered them) valid until `valid_until`, and returns it. Where
    /// some record has no address, the cache is left as it was.
    pub fn refresh_cache<L>(&self, records: &[LibResolvSrvRecord], valid_until: u64) -> (r: Result<
        Arc<Cache<P::CacheItem>>,
        SrvError<L>,
    >)
        ensures
            match r {
                Ok(cache) => built_from(
                    Ok(*cache),
                    records@,
                    valid_until,
                    self.spec_http_scheme(),
                    self.spec_path_prefix(),
                    |i| P::item_uri(i),
                    |rec, i| P::keeps_record(rec, i),
                ),
                Err(SrvError::RecordParsing(e)) => built_from(
                    Err(e),
                    records@,
                    valid_until,
                    self.spec_http_scheme(),
                    self.spec_path_prefix(),
                    |i| P::item_uri(i),
                    |rec, i| P::keeps_record(rec, i),
                ),
                Err(_) => false,
            },
    {
        match self.policy.refresh_cache(
            records,
            valid_until,
            self.http_scheme.as_str(),
            self.path_prefix.as_str(),
        ) {
            Ok(cache) => Ok(self.cache.replace(cache)),
            Err(e) => Err(SrvError::RecordParsing(e)),
        }
    }

    /// The order in which the policy would try the items of `cache` now.
    pub fn order_candidates(&self, cache: &Cache<P::CacheItem>) -> (r: Vec<usize>)
        ensures
            is_ordering(r@, cache.spec_items().len()),
    {
        self.policy.order(cache.items())
    }

    /// Starts an execution over the items of `cache`, in the order the
    /// policy gives.
    pub fn start_execution<T, E>(&self, execution_mode: Execution, cache: &Cache<P::CacheItem>) -> (r:
        Attempts<T, E>)
        ensures
            r.wf(),
            r@.mode == execution_mode,
            r@ == AttemptsView::<T, E>::initial(execution_mode, r@.order),
            is_ordering(r@.order, cache.spec_items().len()),
    {
        let order = self.order_candidates(cache);
        Attempts::new(execution_mode, order)
    }

    /// The address of the cache item `idx`.
    pub fn candidate_uri<'a>(&self, cache: &'a Cache<P::CacheItem>, idx: usize) -> (r: &'a String)
        requires
            idx < cache.spec_items().len(),
        ensures
            r@ == P::item_uri(cache.spec_items()[idx as int]),
    {
        P::cache_item_to_uri(&cache.items()[idx])
    }

    /// Reports to the policy whether the attempt on cache item `idx` succeeded.
    pub fn note_outcome(&self, cache: &Cache<P::CacheItem>, idx: usize, succeeded: bool)
        requires
            idx < cache.spec_items().len(),
    {
        let uri = self.candidate_uri(cache, idx);
        if succeeded {
            self.policy.note_success(uri);
        } else {
            self.policy.note_failure(uri);
        }
    }

    /// Reports the outcome of the attempt on cache item `idx` to the policy,
    /// and records it in the execution.
    pub fn record_outcome<T, E>(
        &self,
        cache: &Cache<P::CacheItem>,
        attempts: &mut Attempts<T, E>,
        idx: usize,
        outcome: Result<T, E>,
    )
        requires
            old(attempts).wf(),
            old(attempts)@.pending(idx),
            !old(attempts)@.succeeded(),
            idx < cache.spec_items().len(),
        ensures
            final(attempts).wf(),
            final(attempts)@ == old(attempts)@.after_complete(idx, outcome),
    {
        self.note_outcome(cache, idx, outcome.is_ok());
        attempts.complete(idx, outcome);
    }
}

} // verus!
