//! DNS response cache with TTL-based expiration.
//!
//! Entries are kept in a two-level table, record type then domain, so that a lookup needs
//! no composite key. Time is counted in milliseconds on the cache's own monotonic clock.
use vstd::prelude::*;
use rustc_hash::FxHashMap;
use std::time::Instant;
use crate::dns::{DnsQuery, DnsResponse, min_ttl, with_id};

verus! {

/// Lower bound of a cached response's lifetime, in seconds.
pub const MIN_TTL_SECS: u64 = 60;

/// Upper bound of a cached response's lifetime, in seconds.
pub const MAX_TTL_SECS: u64 = 86400;

/// `std::time::Instant`, the origin of the cache's clock.
#[verifier::external_type_specification]
#[verifier::external_body]
pub struct ExInstant(std::time::Instant);

/// A cached response and the time at which it expires.
pub struct CacheEntry {
    response: Vec<u8>,
    expires_at: u128,
}

/// Per domain, a cached response and its expiry.
pub type DomainEntries = Map<Seq<char>, (Seq<u8>, u128)>;

/// Per record type, the entries of its domain table.
pub type TypeEntries = Map<u16, DomainEntries>;

/// Per (record type, domain), a cached response and its expiry.
pub type CacheMap = Map<(u16, Seq<char>), (Seq<u8>, u128)>;

/// The domain table of one record type.
pub type Bucket = FxHashMap<String, CacheEntry>;

/// The outer table, by record type.
pub type TypeIndex = FxHashMap<u16, Bucket>;

/// What one table of a record type holds: per domain, the response and its expiry.
pub uninterp spec fn bucket_entries(m: Bucket) -> DomainEntries;

/// What the outer table holds: per record type, the contents of its domain table.
pub uninterp spec fn type_buckets(
    m: TypeIndex,
) -> TypeEntries;

/// Relies on `FxHashMap::default`: a new table holds nothing.
#[verifier::external_body]
fn index_new() -> (r: TypeIndex)
    ensures
        type_buckets(r) == TypeEntries::empty(),
{
    FxHashMap::default()
}

/// Relies on `HashMap::get`: the domain table of a record type, if there is one.
#[verifier::external_body]
fn index_get<'a>(m: &'a TypeIndex, qtype: u16) -> (r: Option<
    &'a Bucket,
>)
    ensures
        r is Some <==> type_buckets(*m).contains_key(qtype),
        r matches Some(b) ==> bucket_entries(*b) == type_buckets(*m)[qtype],
{
    m.get(&qtype)
}

/// Relies on `HashMap::entry` and `Entry::or_default`: the domain table of a record type,
/// put in empty first when there is none.
#[verifier::external_body]
fn index_bucket_mut<'a>(m: &'a mut TypeIndex, qtype: u16) -> (r:
    &'a mut Bucket)
    ensures
        bucket_entries(*r) == (if type_buckets(*old(m)).contains_key(qtype) {
            type_buckets(*old(m))[qtype]
        } else {
            DomainEntries::empty()
        }),
        type_buckets(*final(m)) == type_buckets(*old(m)).insert(qtype, bucket_entries(*final(r))),
{
    m.entry(qtype).or_default()
}

/// Relies on `HashMap::get`: the entry stored under a domain, if there is one.
#[verifier::external_body]
fn bucket_get<'a>(b: &'a Bucket, domain: &str) -> (r: Option<&'a CacheEntry>)
    ensures
        r is Some <==> bucket_entries(*b).contains_key(domain@),
        r matches Some(e) ==> bucket_entries(*b)[domain@] == (e.response@, e.expires_at),
{
    b.get(domain)
}

/// Relies on `HashMap::insert`: the entry replaces any under the same domain, and the
/// previous one comes back.
#[verifier::external_body]
fn bucket_insert(b: &mut Bucket, domain: String, e: CacheEntry) -> (r:
    Option<CacheEntry>)
    ensures
        bucket_entries(*final(b)) == bucket_entries(*old(b)).insert(
            domain@,
            (e.response@, e.expires_at),
        ),
        r is Some <==> bucket_entries(*old(b)).contains_key(domain@),
{
    b.insert(domain, e)
}

/// Relies on `HashMap::remove`: the entry under a domain leaves the table and comes back.
#[verifier::external_body]
fn bucket_remove(b: &mut Bucket, domain: &str) -> (r: Option<CacheEntry>)
    ensures
        bucket_entries(*final(b)) == bucket_entries(*old(b)).remove(domain@),
        r is Some <==> bucket_entries(*old(b)).contains_key(domain@),
{
    b.remove(domain)
}

/// Relies on `Instant::now`: the origin of a new clock.
#[verifier::external_body]
fn clock_origin() -> (r: Instant) {
    Instant::now()
}

/// Relies on `Instant::elapsed`: milliseconds since `origin`; nothing is promised of it.
#[verifier::external_body]
fn elapsed_ms(origin: &Instant) -> (r: u64) {
    origin.elapsed().as_millis() as u64
}

/// The two-level table seen as one map from (record type, domain) to (response, expiry).
pub open spec fn flatten(tb: TypeEntries) -> CacheMap {
    Map::new(
        |k: (u16, Seq<char>)| tb.contains_key(k.0) && tb[k.0].contains_key(k.1),
        |k: (u16, Seq<char>)| tb[k.0][k.1],
    )
}

/// `ttl` bounded to `[MIN_TTL_SECS, MAX_TTL_SECS]`.
pub open spec fn clamp_ttl(ttl: u64) -> u64 {
    if ttl < MIN_TTL_SECS {
        MIN_TTL_SECS
    } else if ttl > MAX_TTL_SECS {
        MAX_TTL_SECS
    } else {
        ttl
    }
}

/// The lifetime in seconds of a cached response: its minimum record TTL (the lower bound
/// when it has none), bounded.
pub open spec fn response_ttl(response: Seq<u8>) -> u64 {
    clamp_ttl(
        match min_ttl(response) {
            Some(t) => t as u64,
            None => MIN_TTL_SECS,
        },
    )
}

/// `now` plus `ttl` seconds, in milliseconds; a bounded TTL always fits past the end of
/// the `u64` clock.
pub open spec fn expiry(now: u64, ttl: u64) -> u128 {
    (now + ttl * 1000) as u128
}

/// The entry for `key` is present and has not expired at `now`.
pub open spec fn is_fresh(c: CacheMap, key: (u16, Seq<char>), now: u64) -> bool {
    c.contains_key(key) && now < c[key].1
}

/// What a lookup of `key` at `now` returns: the stored bytes with the id rewritten, while
/// the entry is fresh and long enough to hold an id.
pub open spec fn cached_answer(
    c: CacheMap,
    key: (u16, Seq<char>),
    id: u16,
    now: u64,
) -> Option<Seq<u8>> {
    if is_fresh(c, key, now) && c[key].0.len() >= 2 {
        Some(with_id(c[key].0, id))
    } else {
        None
    }
}

/// The cache after a lookup of `key` at `now`: an expired entry is dropped.
pub open spec fn after_lookup(
    c: CacheMap,
    key: (u16, Seq<char>),
    now: u64,
) -> CacheMap {
    if c.contains_key(key) && now >= c[key].1 {
        c.remove(key)
    } else {
        c
    }
}

/// TTL-based DNS cache.
pub struct DnsCache {
    entries: TypeIndex,
    count: usize,
    origin: Instant,
}

impl View for DnsCache {
    type V = CacheMap;

    /// The cached responses with their expiry, by (record type, domain).
    closed spec fn view(&self) -> Self::V {
        flatten(type_buckets(self.entries))
    }
}

impl DnsCache {
    /// The cache's invariant: finitely many entries, counted exactly.
    pub closed spec fn wf(&self) -> bool {
        &&& self@.dom().finite()
        &&& self.count == self@.len()
    }

    /// A well-formed cache holds finitely many entries.
    pub proof fn lemma_finite(&self)
        requires
            self.wf(),
        ensures
            self@.dom().finite(),
    {
    }

    /// An empty cache whose clock starts now.
    pub fn new() -> (r: Self)
        ensures
            r.wf(),
            r@ == CacheMap::empty(),
    {
        let entries = index_new();
        let r = DnsCache { entries, count: 0, origin: clock_origin() };
        assert(r@ =~= CacheMap::empty());
        r
    }

    /// Milliseconds on the cache's clock.
    pub fn now_ms(&self) -> u64 {
        elapsed_ms(&self.origin)
    }

    /// Looks up a cached response at time `now`; an expired entry is removed.
    pub fn get_at(&mut self, query: &DnsQuery, now: u64) -> (r: Option<Vec<u8>>)
        requires
            old(self).wf(),
        ensures
            final(self).wf(),
            final(self)@ == after_lookup(old(self)@, (query.qtype, query.domain@), now),
            final(self)@.len() == (if old(self)@.contains_key((query.qtype, query.domain@)) && now
                >= old(self)@[(query.qtype, query.domain@)].1 {
                old(self)@.len() as int - 1
            } else {
                old(self)@.len() as int
            }),
            r is Some <==> cached_answer(old(self)@, (query.qtype, query.domain@), query.id, now) is Some,
            r matches Some(v) ==> v@ == cached_answer(
                old(self)@,
                (query.qtype, query.domain@),
                query.id,
                now,
            ).unwrap(),
    {
        let ghost key = (query.qtype, query.domain@);
        let mut expired = false;
        match index_get(&self.entries, query.qtype) {
            Some(bucket) => {
                match bucket_get(bucket, query.domain.as_str()) {
                    Some(entry) => {
                        assert(self@.contains_key(key));
                        if (now as u128) < entry.expires_at {
                            return query.response_from_cache(entry.response.as_slice());
                        }
                        expired = true;
                    },
                    None => {
                        assert(!self@.contains_key(key));
                    },
                }
            },
            None => {
                assert(!self@.contains_key(key));
            },
        }
        if expired {
            let bucket = index_bucket_mut(&mut self.entries, query.qtype);
            let removed = bucket_remove(bucket, query.domain.as_str());
            proof {
                assert(removed is Some);
                assert(self@ =~= old(self)@.remove(key));
                assert(self@.dom() =~= old(self)@.dom().remove(key));
            }
            self.count = self.count - 1;
        }
        None
    }

    /// Stores a response at time `now`, replacing any entry for the same record type and
    /// domain; it lives for its bounded minimum TTL. The count of entries must have room for
    /// one more.
    pub fn put_at(&mut self, query: &DnsQuery, response: &[u8], now: u64)
        requires
            old(self).wf(),
            old(self)@.len() < usize::MAX,
        ensures
            final(self).wf(),
            final(self)@ == old(self)@.insert(
                (query.qtype, query.domain@),
                (response@, expiry(now, response_ttl(response@))),
            ),
            final(self)@.len() == old(self)@.len() + (if old(self)@.contains_key(
                (query.qtype, query.domain@),
            ) {
                0int
            } else {
                1int
            }),
    {
        let ttl = DnsResponse::parse_min_ttl(response, MIN_TTL_SECS);
        let ttl = if ttl < MIN_TTL_SECS {
            MIN_TTL_SECS
        } else if ttl > MAX_TTL_SECS {
            MAX_TTL_SECS
        } else {
            ttl
        };
        let expires_at = now as u128 + (ttl as u128) * 1000;
        let ghost key = (query.qtype, query.domain@);
        let entry = CacheEntry { response: vstd::slice::slice_to_vec(response), expires_at };
        let bucket = index_bucket_mut(&mut self.entries, query.qtype);
        let previous = bucket_insert(bucket, query.domain.clone(), entry);
        proof {
            assert(self@ =~= old(self)@.insert(key, (response@, expiry(now, response_ttl(response@)))));
            assert(previous is Some <==> old(self)@.contains_key(key));
            assert(self@.dom() =~= old(self)@.dom().insert(key));
        }
        if previous.is_none() {
            self.count = self.count + 1;
        }
    }

    /// Looks up a cached response now; see `get_at`.
    pub fn get(&mut self, query: &DnsQuery) -> (r: Option<Vec<u8>>)
        requires
            old(self).wf(),
        ensures
            final(self).wf(),
            exists|now: u64|
                {
                    &&& final(self)@ == after_lookup(old(self)@, (query.qtype, query.domain@), now)
                    &&& final(self)@.len() == (if old(self)@.contains_key(
                        (query.qtype, query.domain@),
                    ) && now >= old(self)@[(query.qtype, query.domain@)].1 {
                        old(self)@.len() as int - 1
                    } else {
                        old(self)@.len() as int
                    })
                    &&& r is Some <==> cached_answer(
                        old(self)@,
                        (query.qtype, query.domain@),
                        query.id,
                        now,
                    ) is Some
                    &&& r matches Some(v) ==> v@ == cached_answer(
                        old(self)@,
                        (query.qtype, query.domain@),
                        query.id,
                        now,
                    ).unwrap()
                },
    {
        let now = self.now_ms();
        self.get_at(query, now)
    }

    /// Stores a response now; see `put_at`.
    pub fn put(&mut self, query: &DnsQuery, response: &[u8])
        requires
            old(self).wf(),
            old(self)@.len() < usize::MAX,
        ensures
            final(self).wf(),
            exists|now: u64|
                final(self)@ == old(self)@.insert(
                    (query.qtype, query.domain@),
                    (response@, expiry(now, response_ttl(response@))),
                ),
            final(self)@.len() == old(self)@.len() + (if old(self)@.contains_key(
                (query.qtype, query.domain@),
            ) {
                0int
            } else {
                1int
            }),
    {
        let now = self.now_ms();
        self.put_at(query, response, now)
    }

    /// The number of cached entries.
    pub fn len(&self) -> (r: usize)
        requires
            self.wf(),
        ensures
            r == self@.len(),
    {
        self.count
    }
}

impl Default for DnsCache {
    /// An empty cache, as `DnsCache::new`.
    fn default() -> (r: Self)
        ensures
            r.wf(),
            r@ == CacheMap::empty(),
    {
        Self::new()
    }
}

} // verus!
