//! SRV target selection policies.
use std::sync::Arc;
use vstd::prelude::*;

use arc_swap::ArcSwapOption;

use crate::client::cache::Cache;
use crate::record::{
    is_ordering, is_ranked, key_of, ranks_before, lemma_ranked_priorities, random_draws, rank_order, record_uri,
    sort_key,
};
use crate::resolver::libresolv::LibResolvSrvRecord;

verus! {

/// The target that the affinity policy remembers, held in an arc-swap cell
/// that any holder of the policy may replace at any time.
#[verifier::external_body]
struct TargetCell {
    cell: ArcSwapOption<String>,
}

impl TargetCell {
    /// Relies on arc-swap's `ArcSwapOption::empty`: a cell that holds nothing.
    #[verifier::external_body]
    fn empty() -> Self {
        TargetCell { cell: ArcSwapOption::empty() }
    }

    /// Relies on arc-swap's `ArcSwapAny::load_full`: a snapshot of what the
    /// cell holds at the moment of the call. Another holder may have stored
    /// into it, so nothing is promised of it.
    #[verifier::external_body]
    fn load_full(&self) -> Option<Arc<String>> {
        self.cell.load_full()
    }

    /// Relies on arc-swap's `ArcSwapAny::store`: replaces what the cell holds.
    #[verifier::external_body]
    fn store(&self, target: Option<Arc<String>>) {
        self.cell.store(target)
    }
}

/// The items of a cache built from `records` stand for them, in order: each
/// item holds its record's address and keeps what the policy keeps of the
/// record (`keeps`). The build fails exactly when some record has no address.
pub open spec fn built_from<I>(
    r: Result<Cache<I>, http::Error>,
    records: Seq<LibResolvSrvRecord>,
    valid_until: u64,
    scheme: Seq<char>,
    path_prefix: Seq<char>,
    uri_of: spec_fn(I) -> Seq<char>,
    keeps: spec_fn(LibResolvSrvRecord, I) -> bool,
) -> bool {
    match r {
        Ok(cache) => {
            &&& cache.spec_valid_until() == valid_until
            &&& cache.spec_items().len() == records.len()
            &&& forall|i: int|
                0 <= i < records.len() ==> #[trigger] record_uri(records[i], scheme, path_prefix)
                    == Some(uri_of(cache.spec_items()[i])) && keeps(records[i], cache.spec_items()[i])
        },
        Err(_) => exists|i: int|
            0 <= i < records.len() && #[trigger] record_uri(records[i], scheme, path_prefix) is None,
    }
}

/// Policy for a client to use when selecting SRV targets to recommend.
pub trait Policy: Sized {
    /// Type of item stored in a client's cache.
    type CacheItem;

    /// The address that a cached item stands for.
    spec fn item_uri(item: Self::CacheItem) -> Seq<char>;

    /// What a cached item keeps of the record it was built from, besides its address.
    spec fn keeps_record(record: LibResolvSrvRecord, item: Self::CacheItem) -> bool;

    /// Builds a refreshed cache from the records of a lookup (in the order the
    /// resolver gave them), the instant until which they are valid, and the
    /// scheme and path prefix of the client's addresses.
    fn refresh_cache(
        &self,
        records: &[LibResolvSrvRecord],
        valid_until: u64,
        scheme: &str,
        path_prefix: &str,
    ) -> (r: Result<Cache<Self::CacheItem>, http::Error>)
        ensures
            built_from(
                r,
                records@,
                valid_until,
                scheme@,
                path_prefix@,
                |i| Self::item_uri(i),
                |rec, i| Self::keeps_record(rec, i),
            ),
    ;

    /// Creates the indices of cache items in the order a client should try
    /// using them to perform an operation.
    fn order(&self, items: &[Self::CacheItem]) -> (r: Vec<usize>)
        ensures
            is_ordering(r@, items@.len()),
    ;

    /// Converts a reference to a cached item into a reference to its address.
    fn cache_item_to_uri(item: &Self::CacheItem) -> (r: &String)
        ensures
            r@ == Self::item_uri(*item),
    ;

    /// Makes any policy adjustments following a successful execution on `uri`.
    fn note_success(&self, uri: &String) {
    }

    /// Makes any policy adjustments following a failed execution on `uri`.
    fn note_failure(&self, uri: &String) {
    }
}

/// The addresses of `records`, in order, where each of them has one.
pub open spec fn uris_of_records(
    r: Result<Vec<String>, http::Error>,
    records: Seq<LibResolvSrvRecord>,
    scheme: Seq<char>,
    path_prefix: Seq<char>,
) -> bool {
    match r {
        Ok(uris) => {
            &&& uris@.len() == records.len()
            &&& forall|i: int|
                0 <= i < records.len() ==> #[trigger] record_uri(records[i], scheme, path_prefix)
                    == Some(uris@[i]@)
        },
        Err(_) => exists|i: int|
            0 <= i < records.len() && #[trigger] record_uri(records[i], scheme, path_prefix) is None,
    }
}

/// Parses the address of each record, failing at the first record that has none.
pub fn parse_records(records: &[LibResolvSrvRecord], scheme: &str, path_prefix: &str) -> (r: Result<
    Vec<String>,
    http::Error,
>)
    ensures
        uris_of_records(r, records@, scheme@, path_prefix@),
{
    let mut uris: Vec<String> = Vec::new();
    let mut i: usize = 0;
    while i < records.len()
        invariant
            i <= records@.len(),
            uris@.len() == i,
            forall|k: int|
                0 <= k < i ==> #[trigger] record_uri(records@[k], scheme@, path_prefix@) == Some(
                    uris@[k]@,
                ),
        decreases records@.len() - i,
    {
        match records[i].parse(scheme, path_prefix) {
            Ok(uri) => {
                uris.push(uri);
            },
            Err(e) => {
                assert(record_uri(records@[i as int], scheme@, path_prefix@) is None);
                return Err(e);
            },
        }
        i = i + 1;
    }
    Ok(uris)
}

/// The indices from `from` up to `n`, leaving out `skip`.
pub open spec fn indices_skipping(from: int, n: int, skip: int) -> Seq<usize>
    decreases n - from,
{
    if from >= n {
        Seq::empty()
    } else if from == skip {
        indices_skipping(from + 1, n, skip)
    } else {
        seq![from as usize].add(indices_skipping(from + 1, n, skip))
    }
}

/// The affinity order of `n` targets of which the one at `preferred` is
/// preferred: that one first, then the others in their order.
pub open spec fn affinity_order(n: int, preferred: int) -> Seq<usize> {
    if 0 <= preferred < n {
        seq![preferred as usize].add(indices_skipping(0, n, preferred))
    } else {
        Seq::empty()
    }
}

/// Whether http reads the two texts as the same address.
pub uninterp spec fn uri_equal(a: Seq<char>, b: Seq<char>) -> bool;

/// Relies on http's `FromStr` for `Uri` and its `PartialEq` for `Uri`: both
/// texts parse and the addresses are equal (scheme and authority compared
/// without regard to case, then path and query). The result depends on the
/// arguments alone.
#[verifier::external_body]
fn same_uri(a: &str, b: &str) -> (r: bool)
    ensures
        r == uri_equal(a@, b@),
{
    match (a.parse::<http::Uri>(), b.parse::<http::Uri>()) {
        (Ok(x), Ok(y)) => x == y,
        _ => false,
    }
}

/// The first position at or after `from` of an address equal to `target`.
pub open spec fn position_from(uris: Seq<String>, target: Seq<char>, from: int) -> Option<int>
    decreases uris.len() - from,
{
    if from < 0 || from >= uris.len() {
        None
    } else if uri_equal(uris[from]@, target) {
        Some(from)
    } else {
        position_from(uris, target, from + 1)
    }
}

/// The position of the preferred address among `uris`: its first occurrence,
/// or 0 where there is none or it does not occur.
pub open spec fn preferred_position(uris: Seq<String>, preferred: Option<Seq<char>>) -> int {
    match preferred {
        Some(target) => match position_from(uris, target, 0) {
            Some(p) => p,
            None => 0,
        },
        None => 0,
    }
}

proof fn lemma_indices_skipping(from: int, n: int, skip: int)
    requires
        0 <= from,
        n <= usize::MAX,
    ensures
        forall|i: int|
            0 <= i < indices_skipping(from, n, skip).len() ==> {
                let x = #[trigger] indices_skipping(from, n, skip)[i];
                from <= x < n && x != skip
            },
        forall|i: int, j: int|
            0 <= i < j < indices_skipping(from, n, skip).len() ==> #[trigger] indices_skipping(
                from,
                n,
                skip,
            )[i] < #[trigger] indices_skipping(from, n, skip)[j],
        indices_skipping(from, n, skip).len() == if from >= n {
            0
        } else if from <= skip < n {
            n - from - 1
        } else {
            n - from
        },
    decreases n - from,
{
    if from < n {
        lemma_indices_skipping(from + 1, n, skip);
        let rest = indices_skipping(from + 1, n, skip);
        if from != skip {
            let s = seq![from as usize].add(rest);
            assert(s == indices_skipping(from, n, skip));
            assert forall|i: int| 0 < i < s.len() implies s[i] == rest[i - 1] by {}
            assert forall|i: int, j: int| 0 <= i < j < s.len() implies s[i] < s[j] by {
                if i > 0 {
                    assert(rest[i - 1] < rest[j - 1]);
                } else {
                    assert(from + 1 <= rest[j - 1]);
                }
            }
        }
    }
}

proof fn lemma_indices_from(from: int, n: int)
    requires
        1 <= from <= n <= usize::MAX,
    ensures
        indices_skipping(from, n, 0) == Seq::new((n - from) as nat, |i: int| (from + i) as usize),
    decreases n - from,
{
    if from < n {
        lemma_indices_from(from + 1, n);
        assert(indices_skipping(from, n, 0) =~= Seq::new(
            (n - from) as nat,
            |i: int| (from + i) as usize,
        ));
    } else {
        assert(indices_skipping(from, n, 0) =~= Seq::new(0, |i: int| (from + i) as usize));
    }
}

/// Without a remembered target (or with the first one remembered), the
/// affinity order is the order in which the targets were discovered.
pub proof fn lemma_affinity_without_preference(n: int)
    requires
        0 <= n <= usize::MAX,
    ensures
        affinity_order(n, 0) == Seq::new(n as nat, |i: int| i as usize),
{
    if n > 0 {
        assert(indices_skipping(0, n, 0) == indices_skipping(1, n, 0));
        lemma_indices_from(1, n);
        assert(affinity_order(n, 0) =~= Seq::new(n as nat, |i: int| i as usize));
    } else {
        assert(affinity_order(n, 0) =~= Seq::new(n as nat, |i: int| i as usize));
    }
}

proof fn lemma_affinity_order_is_ordering(n: int, preferred: int)
    requires
        0 <= n <= usize::MAX,
        0 <= preferred,
        preferred < n || n == 0,
    ensures
        is_ordering(affinity_order(n, preferred), n as nat),
{
    if n > 0 {
        lemma_indices_skipping(0, n, preferred);
        let rest = indices_skipping(0, n, preferred);
        let s = affinity_order(n, preferred);
        assert forall|i: int| 0 < i < s.len() implies s[i] == rest[i - 1] by {}
        assert forall|i: int, j: int| 0 <= i < j < n implies s[i] != s[j] by {
            if i > 0 {
                assert(rest[i - 1] < rest[j - 1]);
            } else {
                assert(rest[j - 1] != preferred);
            }
        }
    }
}

/// Policy that selects targets based on past successes--if a target was used
/// successfully in a past execution, it will be recommended first.
pub struct Affinity {
    last_working_target: TargetCell,
}

impl Default for Affinity {
    fn default() -> (r: Self) {
        Affinity { last_working_target: TargetCell::empty() }
    }
}

/// Iterator over addresses based on affinity. See [`Affinity`].
pub struct AffinityUriIter {
    /// Number of addresses in the cache.
    n: usize,
    /// Index of the address to produce first (i.e. the preferred address).
    /// `0` if the first is preferred or there is no preferred address at all.
    preferred: usize,
    /// Index of the next address to be produced.
    /// If `None`, the preferred address will be produced.
    next: Option<usize>,
}

impl AffinityUriIter {
    /// Indices that are still to be produced.
    pub closed spec fn remaining(&self) -> Seq<usize> {
        match self.next {
            None => affinity_order(self.n as int, self.preferred as int),
            Some(k) => indices_skipping(k as int, self.n as int, self.preferred as int),
        }
    }

    /// Produces the next index, or `None` once every index has been produced.
    pub fn next(&mut self) -> (r: Option<usize>)
        ensures
            old(self).remaining().len() == 0 ==> r is None && final(self).remaining() == old(
                self,
            ).remaining(),
            old(self).remaining().len() > 0 ==> r == Some(old(self).remaining()[0])
                && final(self).remaining() == old(self).remaining().drop_first(),
    {
        match self.next {
            None => {
                if self.preferred < self.n {
                    self.next = Some(0);
                    assert(old(self).remaining().drop_first() =~= self.remaining());
                    Some(self.preferred)
                } else {
                    None
                }
            },
            Some(k) => {
                let ghost p = self.preferred as int;
                let ghost n = self.n as int;
                if k >= self.n {
                    None
                } else if k == self.preferred {
                    assert(indices_skipping(k as int, n, p) == indices_skipping(k + 1, n, p));
                    if k + 1 < self.n {
                        assert(indices_skipping(k + 1, n, p) == seq![(k + 1) as usize].add(
                            indices_skipping(k + 2, n, p),
                        ));
                        self.next = Some(k + 2);
                        assert(old(self).remaining().drop_first() =~= self.remaining());
                        Some(k + 1)
                    } else {
                        None
                    }
                } else {
                    assert(indices_skipping(k as int, n, p) == seq![k].add(
                        indices_skipping(k + 1, n, p),
                    ));
                    self.next = Some(k + 1);
                    assert(old(self).remaining().drop_first() =~= self.remaining());
                    Some(k)
                }
            },
        }
    }

    /// Collects every index that is still to be produced.
    pub fn to_vec(self) -> (r: Vec<usize>)
        ensures
            r@ == self.remaining(),
    {
        let mut iter = self;
        let mut out: Vec<usize> = Vec::new();
        loop
            invariant
                out@ + iter.remaining() == self.remaining(),
            decreases iter.remaining().len(),
        {
            match iter.next() {
                Some(idx) => {
                    out.push(idx);
                },
                None => {
                    assert(out@ =~= self.remaining());
                    return out;
                },
            }
        }
    }
}

/// The first position of an address equal to `target`.
fn position_of(uris: &[String], target: &String) -> (r: Option<usize>)
    ensures
        r == match position_from(uris@, target@, 0) {
            Some(p) => Some(p as usize),
            None => None::<usize>,
        },
{
    let mut i: usize = 0;
    while i < uris.len()
        invariant
            i <= uris@.len(),
            position_from(uris@, target@, 0) == position_from(uris@, target@, i as int),
        decreases uris@.len() - i,
    {
        if same_uri(uris[i].as_str(), target.as_str()) {
            return Some(i);
        }
        i = i + 1;
    }
    None
}

impl Affinity {
    /// Orders the addresses of a cache, preferring `preferred` where it occurs.
    pub fn uris_preferring(uris: &[String], preferred: Option<&String>) -> (r: AffinityUriIter)
        ensures
            r.remaining() == affinity_order(
                uris@.len() as int,
                preferred_position(
                    uris@,
                    match preferred {
                        Some(p) => Some(p@),
                        None => None,
                    },
                ),
            ),
    {
        proof {
            if let Some(t) = preferred {
                lemma_position_in_range(uris@, t@, 0);
            }
        }
        let position: usize = match preferred {
            Some(target) => match position_of(uris, target) {
                Some(p) => p,
                None => 0,
            },
            None => 0,
        };
        AffinityUriIter { n: uris.len(), preferred: position, next: None }
    }
}

impl Policy for Affinity {
    type CacheItem = String;

    open spec fn item_uri(item: String) -> Seq<char> {
        item@
    }

    /// An affinity item is the address alone.
    open spec fn keeps_record(record: LibResolvSrvRecord, item: String) -> bool {
        true
    }

    fn refresh_cache(
        &self,
        records: &[LibResolvSrvRecord],
        valid_until: u64,
        scheme: &str,
        path_prefix: &str,
    ) -> (r: Result<Cache<String>, http::Error>) {
        match parse_records(records, scheme, path_prefix) {
            Ok(uris) => Ok(Cache::new(uris, valid_until)),
            Err(e) => Err(e),
        }
    }

    fn order(&self, uris: &[String]) -> (r: Vec<usize>)
        ensures
            exists|preferred: Option<Seq<char>>|
                r@ == affinity_order(uris@.len() as int, #[trigger] preferred_position(uris@, preferred)),
    {
        let n = uris.len();
        let last = self.last_working_target.load_full();
        let iter = match &last {
            Some(target) => Affinity::uris_preferring(uris, Some(&**target)),
            None => Affinity::uris_preferring(uris, None),
        };
        let ghost preferred = match &last {
            Some(target) => Some((**target)@),
            None => None,
        };
        proof {
            let p = preferred_position(uris@, preferred);
            if let Some(t) = preferred {
                lemma_position_in_range(uris@, t, 0);
            }
            lemma_affinity_order_is_ordering(n as int, p);
        }
        iter.to_vec()
    }

    fn cache_item_to_uri(item: &String) -> (r: &String) {
        item
    }

    fn note_success(&self, uri: &String) {
        self.last_working_target.store(Some(Arc::new(uri.clone())));
    }
}

/// Policy that selects targets based on the algorithm in RFC 2782, reshuffling
/// by weight for each selection.
pub struct Rfc2782;

impl Default for Rfc2782 {
    fn default() -> (r: Self) {
        Rfc2782
    }
}

/// Representation of a SRV record with its target and port parsed into an address.
pub struct ParsedRecord {
    uri: String,
    priority: u16,
    weight: u16,
}

impl ParsedRecord {
    /// The record's address.
    pub closed spec fn spec_uri(&self) -> Seq<char> {
        self.uri@
    }

    /// The record's priority.
    pub closed spec fn spec_priority(&self) -> u16 {
        self.priority
    }

    /// The record's weight.
    pub closed spec fn spec_weight(&self) -> u16 {
        self.weight
    }

    /// Pairs a record's priority and weight with its address.
    pub fn new(record: &LibResolvSrvRecord, uri: String) -> (r: Self)
        ensures
            r.spec_uri() == uri@,
            r.spec_priority() == record.priority,
            r.spec_weight() == record.weight,
    {
        ParsedRecord { uri, priority: record.priority, weight: record.weight }
    }

    /// The record's address.
    pub fn uri(&self) -> (r: &String)
        ensures
            r@ == self.spec_uri(),
    {
        &self.uri
    }

    /// The record's priority.
    pub fn priority(&self) -> (r: u16)
        ensures
            r == self.spec_priority(),
    {
        self.priority
    }

    /// The record's weight.
    pub fn weight(&self) -> (r: u16)
        ensures
            r == self.spec_weight(),
    {
        self.weight
    }
}

/// The sort keys of parsed records under the given draws.
pub open spec fn parsed_keys(records: Seq<ParsedRecord>, draws: Seq<u16>) -> Seq<(u16, u32)> {
    Seq::new(
        records.len(),
        |i: int| key_of(records[i].spec_priority(), records[i].spec_weight(), draws[i]),
    )
}

impl Rfc2782 {
    /// Orders records by priority, then by weight scaled by the draw of each
    /// record (one draw per record).
    pub fn order_with(records: &[ParsedRecord], draws: &[u16]) -> (r: Vec<usize>)
        requires
            draws@.len() == records@.len(),
        ensures
            is_ordering(r@, records@.len()),
            is_ranked(parsed_keys(records@, draws@), r@),
    {
        let n = records.len();
        let mut keys: Vec<(u16, u32)> = Vec::new();
        let mut i: usize = 0;
        while i < n
            invariant
                i <= n,
                n == records@.len(),
                draws@.len() == n,
                keys@.len() == i,
                forall|k: int| 0 <= k < i ==> #[trigger] keys@[k] == parsed_keys(records@, draws@)[k],
            decreases n - i,
        {
            keys.push(sort_key(records[i].priority(), records[i].weight(), draws[i]));
            i = i + 1;
        }
        assert(keys@ == parsed_keys(records@, draws@));
        rank_order(keys.as_slice())
    }
}

/// Raising the weight of one record never moves it later in the order of its
/// tier: under the same draws, every record placed before record `k` once its
/// weight is raised was placed before it already.
pub proof fn lemma_heavier_never_later(
    records: Seq<ParsedRecord>,
    heavier: Seq<ParsedRecord>,
    draws: Seq<u16>,
    k: int,
    order: Seq<usize>,
    heavier_order: Seq<usize>,
    p: int,
    hp: int,
)
    requires
        records.len() == heavier.len(),
        draws.len() == records.len(),
        forall|j: int| 0 <= j < records.len() && j != k ==> heavier[j] == records[j],
        heavier[k].spec_priority() == records[k].spec_priority(),
        heavier[k].spec_weight() >= records[k].spec_weight(),
        is_ordering(order, records.len()),
        is_ranked(parsed_keys(records, draws), order),
        is_ordering(heavier_order, records.len()),
        is_ranked(parsed_keys(heavier, draws), heavier_order),
        0 <= p < records.len(),
        0 <= hp < records.len(),
        order[p] == k,
        heavier_order[hp] == k,
    ensures
        forall|a: int, ha: int|
            0 <= a < records.len() && 0 <= ha < hp && #[trigger] heavier_order[ha]
                == #[trigger] order[a] ==> a < p,
{
    let keys = parsed_keys(records, draws);
    let hkeys = parsed_keys(heavier, draws);
    let w = records[k].spec_weight();
    let hw = heavier[k].spec_weight();
    let d = draws[k];
    assert(w * d <= hw * d) by (nonlinear_arith)
        requires
            w <= hw,
    ;
    assert(hw * d <= 65535 * 65535) by (nonlinear_arith)
        requires
            hw <= 65535,
            d <= 65535,
    ;
    assert(hkeys[k].1 >= keys[k].1);
    assert forall|a: int, ha: int|
        0 <= a < records.len() && 0 <= ha < hp && #[trigger] heavier_order[ha]
            == #[trigger] order[a] implies a < p by {
        let j = order[a] as int;
        assert(heavier_order[ha] != heavier_order[hp]);
        assert(ranks_before(hkeys, heavier_order[ha] as int, heavier_order[hp] as int));
        assert(hkeys[j] == keys[j]);
        assert(ranks_before(keys, j, k));
        if a > p {
            assert(ranks_before(keys, order[p] as int, order[a] as int));
        }
    }
}

impl Policy for Rfc2782 {
    type CacheItem = ParsedRecord;

    open spec fn item_uri(item: ParsedRecord) -> Seq<char> {
        item.spec_uri()
    }

    /// A parsed record keeps its record's priority and weight.
    open spec fn keeps_record(record: LibResolvSrvRecord, item: ParsedRecord) -> bool {
        item.spec_priority() == record.priority && item.spec_weight() == record.weight
    }

    fn refresh_cache(
        &self,
        records: &[LibResolvSrvRecord],
        valid_until: u64,
        scheme: &str,
        path_prefix: &str,
    ) -> (r: Result<Cache<ParsedRecord>, http::Error>) {
        let uris = match parse_records(records, scheme, path_prefix) {
            Ok(uris) => uris,
            Err(e) => {
                return Err(e);
            },
        };
        let mut parsed: Vec<ParsedRecord> = Vec::new();
        let mut i: usize = 0;
        while i < records.len()
            invariant
                i <= records@.len(),
                uris@.len() == records@.len(),
                parsed@.len() == i,
                forall|k: int|
                    0 <= k < records@.len() ==> #[trigger] record_uri(records@[k], scheme@, path_prefix@)
                        == Some(uris@[k]@),
                forall|k: int|
                    0 <= k < i ==> #[trigger] record_uri(records@[k], scheme@, path_prefix@) == Some(
                        parsed@[k].spec_uri(),
                    ) && parsed@[k].spec_priority() == records@[k].priority
                        && parsed@[k].spec_weight() == records@[k].weight,
            decreases records@.len() - i,
        {
            parsed.push(ParsedRecord::new(&records[i], uris[i].clone()));
            i = i + 1;
        }
        Ok(Cache::new(parsed, valid_until))
    }

    fn order(&self, records: &[ParsedRecord]) -> (r: Vec<usize>)
        ensures
            exists|draws: Seq<u16>|
                draws.len() == records@.len() && is_ranked(#[trigger] parsed_keys(records@, draws), r@),
            forall|i: int, j: int|
                0 <= i < j < r@.len() ==> records@[#[trigger] r@[i] as int].spec_priority()
                    <= records@[#[trigger] r@[j] as int].spec_priority(),
    {
        let draws = random_draws(records.len());
        let r = Rfc2782::order_with(records, draws.as_slice());
        proof {
            let keys = parsed_keys(records@, draws@);
            lemma_ranked_priorities(keys, r@);
            assert forall|i: int, j: int| 0 <= i < j < r@.len() implies records@[#[trigger] r@[i] as int].spec_priority()
                <= records@[#[trigger] r@[j] as int].spec_priority() by {
                assert(keys[r@[i] as int].0 <= keys[r@[j] as int].0);
            }
        }
        r
    }

    fn cache_item_to_uri(item: &ParsedRecord) -> (r: &String) {
        item.uri()
    }
}

proof fn lemma_position_in_range(uris: Seq<String>, target: Seq<char>, from: int)
    requires
        0 <= from,
    ensures
        position_from(uris, target, from) matches Some(p) ==> from <= p < uris.len(),
    decreases uris.len() - from,
{
    if from < uris.len() && !uri_equal(uris[from]@, target) {
        lemma_position_in_range(uris, target, from + 1);
    }
}

} // verus!
