//! SRV records: their ordering per RFC 2782.
use vstd::prelude::*;

use crate::resolver::libresolv::LibResolvSrvRecord;

verus! {

/// Relies on rand's `random`: a value drawn from the thread-local generator.
/// Nothing is promised of it beyond its type.
pub assume_specification<T>[ rand::random::<T> ]() -> (r: T)
    where
        rand::distributions::Standard: rand::distributions::Distribution<T>,
;

/// The error that http reports for an address it cannot build.
#[verifier::external_type_specification]
#[verifier::external_body]
pub struct ExHttpError(http::Error);

/// The address that http builds from a scheme, a path (with query) and the
/// authority `target:port`, or `None` where http refuses one of the parts.
pub uninterp spec fn uri_from_parts(
    scheme: Seq<char>,
    path_and_query: Seq<char>,
    target: Seq<char>,
    port: u16,
) -> Option<Seq<char>>;

/// Relies on http's `Uri::builder` (`scheme`, `path_and_query`, `authority`,
/// `build`) and on the `Display` of `Uri`: the text of the address that was
/// built, or the error of the part that http refused. The result depends on
/// the arguments alone.
#[verifier::external_body]
fn build_uri(scheme: &str, path_and_query: &str, target: &str, port: u16) -> (r: Result<
    String,
    http::Error,
>)
    ensures
        match r {
            Ok(uri) => uri_from_parts(scheme@, path_and_query@, target@, port) == Some(uri@),
            Err(_) => uri_from_parts(scheme@, path_and_query@, target@, port) is None,
        },
{
    http::Uri::builder().scheme(scheme).path_and_query(path_and_query).authority(
        format!("{}:{}", target, port).as_str(),
    ).build().map(|uri| uri.to_string())
}

/// The address of a record under a scheme and a path prefix.
pub open spec fn record_uri(record: LibResolvSrvRecord, scheme: Seq<char>, path_and_query: Seq<char>) -> Option<
    Seq<char>,
> {
    uri_from_parts(scheme, path_and_query, record.target@, record.port)
}

impl LibResolvSrvRecord {
    /// Parses a SRV record into a URI with a given scheme (e.g. https) and
    /// `path_and_query` (used as a suffix in the URI).
    pub fn parse(&self, scheme: &str, path_and_query: &str) -> (r: Result<String, http::Error>)
        ensures
            match r {
                Ok(uri) => record_uri(*self, scheme@, path_and_query@) == Some(uri@),
                Err(_) => record_uri(*self, scheme@, path_and_query@) is None,
            },
    {
        build_uri(scheme, path_and_query, self.target.as_str(), self.port)
    }
}

/// Representation of types that contain the fields of a SRV record.
pub trait SrvRecord {
    /// Gets a SRV record's target.
    fn target(&self) -> &str;

    /// Gets a SRV record's port.
    fn port(&self) -> u16;

    /// Gets a SRV record's priority.
    fn priority(&self) -> u16;

    /// Gets a SRV record's weight.
    fn weight(&self) -> u16;
}

impl SrvRecord for LibResolvSrvRecord {
    fn target(&self) -> (r: &str)
        ensures
            r@ == self.target@,
    {
        self.target.as_str()
    }

    fn port(&self) -> (r: u16)
        ensures
            r == self.port,
    {
        self.port
    }

    fn priority(&self) -> (r: u16)
        ensures
            r == self.priority,
    {
        self.priority
    }

    fn weight(&self) -> (r: u16)
        ensures
            r == self.weight,
    {
        self.weight
    }
}

/// The sort key of a record: its priority, then its weight scaled by a random draw.
pub open spec fn key_of(priority: u16, weight: u16, draw: u16) -> (u16, u32) {
    (priority, (weight * draw) as u32)
}

/// Index `a` comes before index `b`: lower priority first, then the larger
/// scaled weight, then the earlier index (the order is stable).
pub open spec fn ranks_before(keys: Seq<(u16, u32)>, a: int, b: int) -> bool {
    ||| keys[a].0 < keys[b].0
    ||| (keys[a].0 == keys[b].0 && keys[a].1 > keys[b].1)
    ||| (keys[a] == keys[b] && a < b)
}

/// `order` lists each index below `n` exactly once.
pub open spec fn is_ordering(order: Seq<usize>, n: nat) -> bool {
    &&& order.len() == n
    &&& forall|i: int| 0 <= i < n ==> #[trigger] order[i] < n
    &&& forall|i: int, j: int| 0 <= i < j < n ==> order[i] != order[j]
}

/// `order` lists the indices of `keys` in their ranking.
pub open spec fn is_ranked(keys: Seq<(u16, u32)>, order: Seq<usize>) -> bool {
    forall|i: int, j: int|
        0 <= i < j < order.len() ==> ranks_before(keys, #[trigger] order[i] as int, #[trigger] order[j] as int)
}

/// `arranged` holds the items of `items` in the order `order`.
pub open spec fn is_arranged<T>(items: Seq<T>, order: Seq<usize>, arranged: Seq<T>) -> bool {
    &&& arranged.len() == order.len()
    &&& forall|i: int| 0 <= i < order.len() ==> #[trigger] arranged[i] == items[order[i] as int]
}

/// The keys of a list of records under the given draws.
pub open spec fn record_keys(records: Seq<LibResolvSrvRecord>, draws: Seq<u16>) -> Seq<(u16, u32)> {
    Seq::new(records.len(), |i: int| key_of(records[i].priority, records[i].weight, draws[i]))
}

/// In an order ranked by these keys, priorities never decrease: every target
/// of a more preferred tier comes before any target of a less preferred one.
pub proof fn lemma_ranked_priorities(keys: Seq<(u16, u32)>, order: Seq<usize>)
    requires
        is_ranked(keys, order),
    ensures
        forall|i: int, j: int|
            0 <= i < j < order.len() ==> keys[#[trigger] order[i] as int].0 <= keys[#[trigger] order[j] as int].0,
{
    assert forall|i: int, j: int| 0 <= i < j < order.len() implies keys[#[trigger] order[i] as int].0
        <= keys[#[trigger] order[j] as int].0 by {
        assert(ranks_before(keys, order[i] as int, order[j] as int));
    }
}

/// Generates a key to sort a SRV record by priority and weight per RFC 2782:
/// ascending by priority, then descending by the weight times `draw`.
pub fn sort_key(priority: u16, weight: u16, draw: u16) -> (r: (u16, u32))
    ensures
        r == key_of(priority, weight, draw),
{
    assert(weight * draw <= 65535 * 65535) by (nonlinear_arith)
        requires
            weight <= 65535,
            draw <= 65535,
    ;
    (priority, weight as u32 * draw as u32)
}

/// Draws `n` random values, one for each item to be ordered.
pub fn random_draws(n: usize) -> (r: Vec<u16>)
    ensures
        r@.len() == n,
{
    let mut draws: Vec<u16> = Vec::new();
    let mut i: usize = 0;
    while i < n
        invariant
            i <= n,
            draws@.len() == i,
        decreases n - i,
    {
        draws.push(rand::random::<u16>());
        i = i + 1;
    }
    draws
}

fn ranks_before_exec(keys: &[(u16, u32)], a: usize, b: usize) -> (r: bool)
    requires
        a < keys@.len(),
        b < keys@.len(),
    ensures
        r == ranks_before(keys@, a as int, b as int),
{
    let (pa, wa) = keys[a];
    let (pb, wb) = keys[b];
    pa < pb || (pa == pb && wa > wb) || (pa == pb && wa == wb && a < b)
}

/// Orders the indices of `keys` by rank: a stable sort, ascending by
/// priority and descending by scaled weight.
pub fn rank_order(keys: &[(u16, u32)]) -> (r: Vec<usize>)
    ensures
        is_ordering(r@, keys@.len()),
        is_ranked(keys@, r@),
{
    let n = keys.len();
    let mut order: Vec<usize> = Vec::new();
    let mut i: usize = 0;
    while i < n
        invariant
            i <= n,
            n == keys@.len(),
            order@.len() == i,
            forall|k: int| 0 <= k < i ==> #[trigger] order@[k] == k,
        decreases n - i,
    {
        order.push(i);
        i = i + 1;
    }
    let mut i: usize = 1;
    while i < n
        invariant
            1 <= i || n == 0,
            n == keys@.len(),
            is_ordering(order@, n as nat),
            forall|a: int, b: int|
                0 <= a < b < i && b < n ==> ranks_before(keys@, #[trigger] order@[a] as int, #[trigger] order@[b] as int),
        decreases n - i,
    {
        let mut j: usize = i;
        while j > 0 && ranks_before_exec(keys, order[j], order[j - 1])
            invariant
                0 <= j <= i < n,
                n == keys@.len(),
                is_ordering(order@, n as nat),
                forall|a: int, b: int|
                    0 <= a < b <= i && a != j && b != j ==> ranks_before(keys@, #[trigger] order@[a] as int, #[trigger] order@[b] as int),
                forall|b: int| j < b <= i ==> ranks_before(keys@, order@[j as int] as int, #[trigger] order@[b] as int),
            decreases j,
        {
            let x = order[j];
            let y = order[j - 1];
            order.set(j, y);
            order.set(j - 1, x);
            j = j - 1;
        }
        assert forall|a: int, b: int|
            0 <= a < b < i + 1 && b < n implies ranks_before(keys@, #[trigger] order@[a] as int, #[trigger] order@[b] as int) by {
            if b == j && a < j {
                assert(ranks_before(keys@, order@[j - 1] as int, order@[j as int] as int));
                if a < j - 1 {
                    assert(ranks_before(keys@, order@[a] as int, order@[j - 1] as int));
                }
            }
        }
        i = i + 1;
    }
    order
}

/// Sorts SRV records by priority and weight per RFC 2782, with one draw per record.
pub fn order_srv_records_with(records: &mut Vec<LibResolvSrvRecord>, draws: &[u16])
    requires
        draws@.len() == old(records)@.len(),
    ensures
        exists|order: Seq<usize>|
            #[trigger] is_ordering(order, old(records)@.len())
                && is_ranked(record_keys(old(records)@, draws@), order)
                && is_arranged(old(records)@, order, final(records)@),
{
    let n = records.len();
    let mut keys: Vec<(u16, u32)> = Vec::new();
    let mut i: usize = 0;
    while i < n
        invariant
            i <= n,
            n == records@.len(),
            draws@.len() == n,
            keys@.len() == i,
            forall|k: int| 0 <= k < i ==> #[trigger] keys@[k] == record_keys(records@, draws@)[k],
        decreases n - i,
    {
        keys.push(sort_key(records[i].priority, records[i].weight, draws[i]));
        i = i + 1;
    }
    assert(keys@ == record_keys(records@, draws@));
    let order = rank_order(keys.as_slice());
    let mut arranged: Vec<LibResolvSrvRecord> = Vec::new();
    let mut i: usize = 0;
    while i < n
        invariant
            i <= n,
            n == records@.len(),
            is_ordering(order@, n as nat),
            arranged@.len() == i,
            forall|k: int| 0 <= k < i ==> #[trigger] arranged@[k] == records@[order@[k] as int],
        decreases n - i,
    {
        arranged.push(records[order[i]].duplicate());
        i = i + 1;
    }
    let ghost before = records@;
    *records = arranged;
    assert(is_arranged(before, order@, records@));
    assert(is_ordering(order@, before.len()));
}

/// Sorts SRV records by priority and weight per RFC 2782, drawing the random
/// factors afresh.
pub fn order_srv_records(records: &mut Vec<LibResolvSrvRecord>)
    ensures
        exists|draws: Seq<u16>, order: Seq<usize>|
            draws.len() == old(records)@.len()
                && #[trigger] is_ordering(order, old(records)@.len())
                && is_ranked(#[trigger] record_keys(old(records)@, draws), order)
                && is_arranged(old(records)@, order, final(records)@),
        forall|i: int, j: int|
            0 <= i < j < final(records)@.len() ==> #[trigger] final(records)@[i].priority
                <= #[trigger] final(records)@[j].priority,
{
    let ghost before = records@;
    let draws = random_draws(records.len());
    order_srv_records_with(records, draws.as_slice());
    proof {
        let keys = record_keys(before, draws@);
        let order = choose|order: Seq<usize>|
            #[trigger] is_ordering(order, before.len()) && is_ranked(keys, order) && is_arranged(
                before,
                order,
                records@,
            );
        lemma_ranked_priorities(keys, order);
        assert forall|i: int, j: int| 0 <= i < j < records@.len() implies #[trigger] records@[i].priority
            <= #[trigger] records@[j].priority by {
            assert(records@[i] == before[order[i] as int]);
            assert(records@[j] == before[order[j] as int]);
            assert(keys[order[i] as int].0 <= keys[order[j] as int].0);
        }
    }
}

} // verus!
