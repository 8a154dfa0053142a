//! DNS query resolution logic.
//!
//! Each query is parsed, checked against the blocklist, looked up in the cache, and
//! otherwise handed back to the transport to forward. The resolver does no I/O.
use vstd::prelude::*;
use crate::cache::{
    DnsCache, CacheMap, after_lookup, cached_answer, expiry, response_ttl, is_fresh,
};
use crate::dns::{
    DnsQuery, blocked_wire, be16, be32, u16_bytes, sinkhole_answer, lemma_be16_bytes, name_wire, lemma_blocked_wire, message_id, query_class, query_domain, query_name,
    query_type, query_well_formed, with_id,
};
use crate::filter::{Blocklist, suffix_blocked};
use crate::stats::{Stats, StatsSnapshot};
use vstd::wrapping::u64_specs::wrapping_add;

verus! {

/// Action to take for a DNS query.
pub enum QueryAction {
    /// Query is blocked, return this response immediately.
    Blocked { response: Vec<u8>, domain: String },
    /// Query was found in cache, return this response immediately.
    Cached { response: Vec<u8>, domain: String },
    /// Query should be forwarded to upstream.
    Forward { domain: String },
    /// Query could not be parsed.
    Invalid,
}

/// The decision for a query, with the bytes of the answer where one is given.
pub enum Decision {
    Blocked(Seq<u8>),
    Cached(Seq<u8>),
    Forward,
    Invalid,
}

impl QueryAction {
    /// The decision this action carries out.
    pub open spec fn decision(&self) -> Decision {
        match self {
            QueryAction::Blocked { response, .. } => Decision::Blocked(response@),
            QueryAction::Cached { response, .. } => Decision::Cached(response@),
            QueryAction::Forward { .. } => Decision::Forward,
            QueryAction::Invalid => Decision::Invalid,
        }
    }

    /// The domain the action names, where it names one.
    pub open spec fn domain_named(&self) -> Option<Seq<char>> {
        match self {
            QueryAction::Blocked { domain, .. } => Some(domain@),
            QueryAction::Cached { domain, .. } => Some(domain@),
            QueryAction::Forward { domain } => Some(domain@),
            QueryAction::Invalid => None,
        }
    }
}

/// The cache key of a well-formed query: its type and its lowercased domain.
pub open spec fn query_key(data: Seq<u8>) -> (u16, Seq<char>) {
    (query_type(data), query_domain(data))
}

/// What the resolver decides for the query `data` at time `now`, given the blocked domains
/// and the cache: malformed queries are invalid; then the blocklist answers; then a fresh
/// cache entry; otherwise the query is forwarded.
pub open spec fn decide(bl: Set<Seq<u8>>, c: CacheMap, data: Seq<u8>, now: u64) -> Decision {
    if !query_well_formed(data) {
        Decision::Invalid
    } else if suffix_blocked(bl, query_name(data)) {
        Decision::Blocked(
            blocked_wire(message_id(data), query_name(data), query_type(data), query_class(data)),
        )
    } else {
        match cached_answer(c, query_key(data), message_id(data), now) {
            Some(bytes) => Decision::Cached(bytes),
            None => Decision::Forward,
        }
    }
}

/// The cache after deciding on the query `data` at `now`: only a cache lookup changes it,
/// by dropping an expired entry.
pub open spec fn cache_after_query(bl: Set<Seq<u8>>, c: CacheMap, data: Seq<u8>, now: u64) -> CacheMap {
    if query_well_formed(data) && !suffix_blocked(bl, query_name(data)) {
        after_lookup(c, query_key(data), now)
    } else {
        c
    }
}

/// The cache after an upstream response arrives at `now`: a response whose question can
/// be read is stored under it.
pub open spec fn cache_after_response(c: CacheMap, response: Seq<u8>, now: u64) -> CacheMap {
    if query_well_formed(response) {
        c.insert(query_key(response), (response, expiry(now, response_ttl(response))))
    } else {
        c
    }
}

/// A query for a blocked domain (or a domain under one) is answered with the sinkhole: the
/// response carries the query's id, and its answer is type A, class IN, TTL 300 with the
/// address 0.0.0.0.
pub proof fn lemma_blocked_query_answer(bl: Set<Seq<u8>>, c: CacheMap, data: Seq<u8>, now: u64)
    requires
        query_well_formed(data),
        suffix_blocked(bl, query_name(data)),
    ensures
        decide(bl, c, data, now) matches Decision::Blocked(b) && {
            let n = b.len() as int;
            &&& n >= 18
            &&& be16(b[0], b[1]) == message_id(data)
            &&& b.subrange(n - 16, n) == sinkhole_answer()
            &&& be16(b[n - 14], b[n - 13]) == 1
            &&& be16(b[n - 12], b[n - 11]) == 1
            &&& be32(b[n - 10], b[n - 9], b[n - 8], b[n - 7]) == 300
            &&& b.subrange(n - 4, n) == seq![0u8, 0u8, 0u8, 0u8]
        },
{
    let b = blocked_wire(message_id(data), query_name(data), query_type(data), query_class(data));
    let n = b.len() as int;
    let head = u16_bytes(message_id(data)) + seq![0x81u8, 0x80, 0x00, 0x01, 0x00, 0x01, 0x00, 0x00, 0x00, 0x00]
        + name_wire(query_name(data)) + u16_bytes(query_type(data)) + u16_bytes(query_class(data));
    assert(b == head + sinkhole_answer());
    assert(b.subrange(n - 16, n) =~= sinkhole_answer());
    assert(b[0] == u16_bytes(message_id(data))[0]);
    assert(b[1] == u16_bytes(message_id(data))[1]);
    lemma_be16_bytes(message_id(data));
    assert(b.subrange(n - 4, n) =~= seq![0u8, 0u8, 0u8, 0u8]);
}

/// After a response is cached at `t0`, a query for the same domain and type that is not
/// blocked is answered from the cache until its bounded TTL has elapsed, with the stored
/// bytes under the query's own id.
pub proof fn lemma_cached_until_expiry(
    bl: Set<Seq<u8>>,
    c: CacheMap,
    response: Seq<u8>,
    t0: u64,
    query: Seq<u8>,
    t1: u64,
)
    requires
        query_well_formed(response),
        query_well_formed(query),
        query_key(query) == query_key(response),
        !suffix_blocked(bl, query_name(query)),
        t0 <= t1 < t0 + response_ttl(response) * 1000,
    ensures
        decide(bl, cache_after_response(c, response, t0), query, t1) == Decision::Cached(
            with_id(response, message_id(query)),
        ),
{
    let c1 = cache_after_response(c, response, t0);
    assert(c1 == c.insert(query_key(response), (response, expiry(t0, response_ttl(response)))));
    assert(c1[query_key(query)] == (response, expiry(t0, response_ttl(response))));
}

/// Once the bounded TTL of a cached response has elapsed, the same query is forwarded
/// again, and the stale entry leaves the cache.
pub proof fn lemma_forwarded_after_expiry(
    bl: Set<Seq<u8>>,
    c: CacheMap,
    response: Seq<u8>,
    t0: u64,
    query: Seq<u8>,
    t1: u64,
)
    requires
        query_well_formed(response),
        query_well_formed(query),
        query_key(query) == query_key(response),
        !suffix_blocked(bl, query_name(query)),
        t1 >= t0 + response_ttl(response) * 1000,
    ensures
        decide(bl, cache_after_response(c, response, t0), query, t1) == Decision::Forward,
        !cache_after_query(bl, cache_after_response(c, response, t0), query, t1).contains_key(
            query_key(query),
        ),
{
    let c1 = cache_after_response(c, response, t0);
    assert(c1 == c.insert(query_key(response), (response, expiry(t0, response_ttl(response)))));
    assert(c1[query_key(query)] == (response, expiry(t0, response_ttl(response))));
}

/// A cache entry that is still fresh at `now` is left as it is by any query decided at
/// `now`, so a run of queries made before it expires keeps finding it.
pub proof fn lemma_fresh_entry_kept(
    bl: Set<Seq<u8>>,
    c: CacheMap,
    data: Seq<u8>,
    now: u64,
    key: (u16, Seq<char>),
)
    requires
        c.contains_key(key),
        now < c[key].1,
    ensures
        cache_after_query(bl, c, data, now).contains_key(key),
        cache_after_query(bl, c, data, now)[key] == c[key],
{
}

/// Every response in the cache parses as a query.
pub open spec fn cached_responses_parse(c: CacheMap) -> bool {
    forall|k: (u16, Seq<char>)| #[trigger] c.contains_key(k) ==> query_well_formed(c[k].0)
}

/// Over a cache whose responses parse, a query that parses and is not blocked is forwarded
/// exactly when the cache holds no unexpired entry for its type and domain; otherwise it is
/// answered from that entry under the query's id.
pub proof fn lemma_forward_iff_no_fresh_entry(bl: Set<Seq<u8>>, c: CacheMap, data: Seq<u8>, now: u64)
    requires
        cached_responses_parse(c),
        query_well_formed(data),
        !suffix_blocked(bl, query_name(data)),
    ensures
        (decide(bl, c, data, now) == Decision::Forward) == !is_fresh(c, query_key(data), now),
        is_fresh(c, query_key(data), now) ==> decide(bl, c, data, now) == Decision::Cached(
            with_id(c[query_key(data)].0, message_id(data)),
        ),
{
    if c.contains_key(query_key(data)) {
        assert(query_well_formed(c[query_key(data)].0));
    }
}

/// Resolver handles DNS query processing decisions.
pub struct Resolver {
    blocklist: Blocklist,
    cache: DnsCache,
    stats: Stats,
}

impl Resolver {
    /// The blocked domains, as bytes.
    pub closed spec fn blocked_domains(&self) -> Set<Seq<u8>> {
        self.blocklist@
    }

    /// The cache's entries.
    pub closed spec fn cached(&self) -> CacheMap {
        self.cache@
    }

    /// The counters.
    pub closed spec fn counters(&self) -> Stats {
        self.stats
    }

    /// The resolver's invariant: those of its blocklist and cache, and every cached
    /// response parses as a query.
    pub closed spec fn wf(&self) -> bool {
        &&& self.blocklist.wf()
        &&& self.cache.wf()
        &&& cached_responses_parse(self.cache@)
    }

    /// What the invariant gives callers: every cached response parses as a query.
    pub proof fn lemma_wf(&self)
        requires
            self.wf(),
        ensures
            cached_responses_parse(self.cached()),
            self.cached().dom().finite(),
    {
        self.cache.lemma_finite();
    }

    /// Creates a resolver with the given blocklist, an empty cache and zeroed counters.
    pub fn new(blocklist: Blocklist) -> (r: Self)
        requires
            blocklist.wf(),
        ensures
            r.wf(),
            r.blocked_domains() == blocklist@,
            r.cached() == CacheMap::empty(),
            r.counters().requests == 0,
            r.counters().forwarded == 0,
            r.counters().cached == 0,
            r.counters().blocked == 0,
            r.counters().total_response_time_us == 0,
    {
        Resolver { blocklist, cache: DnsCache::new(), stats: Stats::new() }
    }

    /// Decides what to do with the query `data` (without TCP length prefix) at time `now`
    /// on the cache's clock.
    pub fn process_query_at(&mut self, data: &[u8], now: u64) -> (r: QueryAction)
        requires
            old(self).wf(),
        ensures
            final(self).wf(),
            final(self).counters() == old(self).counters(),
            final(self).blocked_domains() == old(self).blocked_domains(),
            final(self).cached() == cache_after_query(
                old(self).blocked_domains(),
                old(self).cached(),
                data@,
                now,
            ),
            r.decision() == decide(old(self).blocked_domains(), old(self).cached(), data@, now),
            r.domain_named() == (if query_well_formed(data@) {
                Some(query_domain(data@))
            } else {
                None
            }),
    {
        let query = match DnsQuery::parse(data) {
            Some(q) => q,
            None => return QueryAction::Invalid,
        };
        let domain = query.domain.clone();

        if self.blocklist.is_blocked(query.domain.as_str()) {
            let blocked = query.blocked_response();
            let response = blocked.to_bytes();
            proof {
                lemma_blocked_wire(blocked, query);
            }
            return QueryAction::Blocked { response, domain };
        }
        match self.cache.get_at(&query, now) {
            Some(response) => QueryAction::Cached { response, domain },
            None => QueryAction::Forward { domain },
        }
    }

    /// Decides what to do with the query `data` now; see `process_query_at`.
    pub fn process_query(&mut self, data: &[u8]) -> (r: QueryAction)
        requires
            old(self).wf(),
        ensures
            final(self).wf(),
            final(self).counters() == old(self).counters(),
            final(self).blocked_domains() == old(self).blocked_domains(),
            exists|now: u64|
                {
                    &&& final(self).cached() == cache_after_query(
                        old(self).blocked_domains(),
                        old(self).cached(),
                        data@,
                        now,
                    )
                    &&& r.decision() == decide(
                        old(self).blocked_domains(),
                        old(self).cached(),
                        data@,
                        now,
                    )
                },
            r.domain_named() == (if query_well_formed(data@) {
                Some(query_domain(data@))
            } else {
                None
            }),
    {
        let now = self.cache.now_ms();
        self.process_query_at(data, now)
    }

    /// Caches an upstream response received at time `now`; a response whose question
    /// cannot be read is ignored. The cache must have room for one more entry
    /// (`cache_len() < usize::MAX`).
    pub fn process_response_at(&mut self, response: &[u8], now: u64)
        requires
            old(self).wf(),
            old(self).cached().len() < usize::MAX,
        ensures
            final(self).wf(),
            final(self).counters() == old(self).counters(),
            final(self).blocked_domains() == old(self).blocked_domains(),
            final(self).cached() == cache_after_response(old(self).cached(), response@, now),
    {
        match DnsQuery::parse(response) {
            Some(query) => {
                self.cache.put_at(&query, response, now);
            },
            None => {},
        }
    }

    /// Caches an upstream response now; see `process_response_at`.
    pub fn process_response(&mut self, response: &[u8])
        requires
            old(self).wf(),
            old(self).cached().len() < usize::MAX,
        ensures
            final(self).wf(),
            final(self).counters() == old(self).counters(),
            final(self).blocked_domains() == old(self).blocked_domains(),
            exists|now: u64|
                final(self).cached() == cache_after_response(old(self).cached(), response@, now),
    {
        let now = self.cache.now_ms();
        self.process_response_at(response, now)
    }

    /// Milliseconds on the resolver's clock, the time base of `process_query_at`.
    pub fn now_ms(&self) -> u64 {
        self.cache.now_ms()
    }

    /// The number of domains in the blocklist.
    pub fn blocked_count(&self) -> (r: usize)
        ensures
            r == self.blocked_domains().len(),
    {
        self.blocklist.len()
    }

    /// The number of entries in the cache.
    pub fn cache_len(&self) -> (r: usize)
        requires
            self.wf(),
        ensures
            r == self.cached().len(),
    {
        self.cache.len()
    }

    /// Records a forwarded request with its response time in microseconds.
    pub fn record_forwarded(&mut self, response_time_us: u64)
        ensures
            final(self).wf() == old(self).wf(),
            final(self).blocked_domains() == old(self).blocked_domains(),
            final(self).cached() == old(self).cached(),
            final(self).counters().requests == wrapping_add(old(self).counters().requests, 1),
            final(self).counters().forwarded == wrapping_add(old(self).counters().forwarded, 1),
            final(self).counters().cached == old(self).counters().cached,
            final(self).counters().blocked == old(self).counters().blocked,
            final(self).counters().total_response_time_us == wrapping_add(
                old(self).counters().total_response_time_us,
                response_time_us,
            ),
    {
        self.stats.record_forwarded(response_time_us);
    }

    /// Records a response served from the cache with its response time in microseconds.
    pub fn record_cached(&mut self, response_time_us: u64)
        ensures
            final(self).wf() == old(self).wf(),
            final(self).blocked_domains() == old(self).blocked_domains(),
            final(self).cached() == old(self).cached(),
            final(self).counters().requests == wrapping_add(old(self).counters().requests, 1),
            final(self).counters().cached == wrapping_add(old(self).counters().cached, 1),
            final(self).counters().forwarded == old(self).counters().forwarded,
            final(self).counters().blocked == old(self).counters().blocked,
            final(self).counters().total_response_time_us == wrapping_add(
                old(self).counters().total_response_time_us,
                response_time_us,
            ),
    {
        self.stats.record_cached(response_time_us);
    }

    /// Records a blocked request with its response time in microseconds.
    pub fn record_blocked(&mut self, response_time_us: u64)
        ensures
            final(self).wf() == old(self).wf(),
            final(self).blocked_domains() == old(self).blocked_domains(),
            final(self).cached() == old(self).cached(),
            final(self).counters().requests == wrapping_add(old(self).counters().requests, 1),
            final(self).counters().blocked == wrapping_add(old(self).counters().blocked, 1),
            final(self).counters().forwarded == old(self).counters().forwarded,
            final(self).counters().cached == old(self).counters().cached,
            final(self).counters().total_response_time_us == wrapping_add(
                old(self).counters().total_response_time_us,
                response_time_us,
            ),
    {
        self.stats.record_blocked(response_time_us);
    }

    /// Reads the counters and resets them.
    pub fn stats_snapshot_and_reset(&mut self) -> (r: StatsSnapshot)
        ensures
            final(self).wf() == old(self).wf(),
            final(self).blocked_domains() == old(self).blocked_domains(),
            final(self).cached() == old(self).cached(),
            r.requests == old(self).counters().requests,
            r.forwarded == old(self).counters().forwarded,
            r.cached == old(self).counters().cached,
            r.blocked == old(self).counters().blocked,
            r.total_response_us == old(self).counters().total_response_time_us,
            final(self).counters().requests == 0,
            final(self).counters().forwarded == 0,
            final(self).counters().cached == 0,
            final(self).counters().blocked == 0,
            final(self).counters().total_response_time_us == 0,
    {
        self.stats.snapshot_and_reset()
    }
}

} // verus!
