//! The pending-query table of the UDP front end.
//!
//! Forwarded queries wait in a table keyed by their 16-bit transaction id. The first
//! upstream reply with a matching id takes the entry out and goes to the client; later
//! replies for the same id find nothing and are dropped. A new query with an id already
//! pending overwrites the older entry.
use vstd::prelude::*;
use std::collections::HashMap;
use crate::dns::{message_id, read_u16, query_domain, query_well_formed};
use crate::resolver::{
    QueryAction, Resolver, cache_after_query, cache_after_response, decide,
};

verus! {

broadcast use vstd::std_specs::hash::group_hash_axioms;

/// Datagrams shorter than a DNS header are dropped.
pub const MIN_DATAGRAM: usize = 12;

/// A forwarded query waiting for its first upstream reply.
pub struct PendingQuery<C> {
    /// The client to reply to.
    pub client: C,
    /// The queried domain.
    pub domain: String,
    /// When the query arrived.
    pub start_time: u64,
    /// When it was sent upstream.
    pub upstream_start: u64,
}

/// The pending table after a client datagram: a query that is forwarded is recorded under
/// its id, replacing any entry there.
pub open spec fn pending_after_query<C>(
    p: Map<u16, PendingQuery<C>>,
    forwarded: bool,
    data: Seq<u8>,
    entry: PendingQuery<C>,
) -> Map<u16, PendingQuery<C>> {
    if forwarded {
        p.insert(message_id(data), entry)
    } else {
        p
    }
}

/// The entry an upstream datagram is delivered for: the one pending under its id.
pub open spec fn upstream_delivery<C>(p: Map<u16, PendingQuery<C>>, data: Seq<u8>) -> Option<
    PendingQuery<C>,
> {
    if data.len() >= MIN_DATAGRAM && p.contains_key(message_id(data)) {
        Some(p[message_id(data)])
    } else {
        None
    }
}

/// The pending table after an upstream datagram: its id is no longer pending.
pub open spec fn pending_after_upstream<C>(p: Map<u16, PendingQuery<C>>, data: Seq<u8>) -> Map<
    u16,
    PendingQuery<C>,
> {
    if data.len() >= MIN_DATAGRAM {
        p.remove(message_id(data))
    } else {
        p
    }
}

/// The state of the UDP front end: the queries sent upstream and not yet answered.
pub struct UdpSession<C> {
    pending: HashMap<u16, PendingQuery<C>>,
}

impl<C> UdpSession<C> {
    /// The pending queries by transaction id.
    pub closed spec fn pending(&self) -> Map<u16, PendingQuery<C>> {
        self.pending@
    }

    /// A session with nothing pending.
    pub fn new() -> (r: Self)
        ensures
            r.pending() == Map::<u16, PendingQuery<C>>::empty(),
    {
        UdpSession { pending: HashMap::new() }
    }

    /// Handles a datagram from `client` that arrived at `now` on the resolver's clock, and
    /// at `arrival` on the caller's own clock (which the pending entry keeps for timing).
    /// Datagrams shorter than a header are dropped as invalid; others are decided by the
    /// resolver, and a query to forward is recorded as pending before the caller sends it to
    /// every upstream.
    pub fn on_client_datagram(
        &mut self,
        resolver: &mut Resolver,
        data: &[u8],
        client: C,
        now: u64,
        arrival: u64,
    ) -> (r: QueryAction)
        requires
            old(resolver).wf(),
        ensures
            final(resolver).wf(),
            final(resolver).blocked_domains() == old(resolver).blocked_domains(),
            final(resolver).counters() == old(resolver).counters(),
            data@.len() < MIN_DATAGRAM ==> r is Invalid && final(resolver).cached() == old(
                resolver,
            ).cached() && final(self).pending() == old(self).pending(),
            data@.len() >= MIN_DATAGRAM ==> {
                &&& r.decision() == decide(
                    old(resolver).blocked_domains(),
                    old(resolver).cached(),
                    data@,
                    now,
                )
                &&& final(resolver).cached() == cache_after_query(
                    old(resolver).blocked_domains(),
                    old(resolver).cached(),
                    data@,
                    now,
                )
                &&& r.domain_named() == (if query_well_formed(data@) {
                    Some(query_domain(data@))
                } else {
                    None
                })
                &&& r is Forward ==> {
                    let e = final(self).pending()[message_id(data@)];
                    &&& final(self).pending() == pending_after_query(old(self).pending(), true, data@, e)
                    &&& e.client == client
                    &&& e.domain@ == query_domain(data@)
                    &&& e.start_time == arrival
                    &&& e.upstream_start == arrival
                }
                &&& !(r is Forward) ==> final(self).pending() == old(self).pending()
            },
    {
        if data.len() < MIN_DATAGRAM {
            return QueryAction::Invalid;
        }
        let action = resolver.process_query_at(data, now);
        match action {
            QueryAction::Forward { domain } => {
                let id = read_u16(data, 0);
                let entry = PendingQuery {
                    client,
                    domain: domain.clone(),
                    start_time: arrival,
                    upstream_start: arrival,
                };
                self.pending.insert(id, entry);
                QueryAction::Forward { domain }
            },
            other => other,
        }
    }

    /// Handles a datagram from an upstream. When its id is pending, the entry leaves the
    /// table and comes back, so that the caller relays the datagram unchanged to that
    /// client; the response is then cached, unless the cache already counts `usize::MAX`
    /// entries. Otherwise (a late or duplicate reply, or a
    /// datagram shorter than a header) nothing changes and `None` comes back.
    pub fn on_upstream_datagram(&mut self, resolver: &mut Resolver, data: &[u8], now: u64) -> (r:
        Option<PendingQuery<C>>)
        requires
            old(resolver).wf(),
        ensures
            final(resolver).wf(),
            final(resolver).blocked_domains() == old(resolver).blocked_domains(),
            final(resolver).counters() == old(resolver).counters(),
            r == upstream_delivery(old(self).pending(), data@),
            final(self).pending() == pending_after_upstream(old(self).pending(), data@),
            r is Some ==> final(resolver).cached() == if old(resolver).cached().len() < usize::MAX {
                cache_after_response(old(resolver).cached(), data@, now)
            } else {
                old(resolver).cached()
            },
            r is None ==> final(resolver).cached() == old(resolver).cached(),
    {
        if data.len() < MIN_DATAGRAM {
            return None;
        }
        let id = read_u16(data, 0);
        let removed = self.pending.remove(&id);
        proof {
            assert(self.pending@ =~= old(self).pending().remove(id));
        }
        match removed {
            Some(entry) => {
                if resolver.cache_len() < usize::MAX {
                    resolver.process_response_at(data, now);
                }
                Some(entry)
            },
            None => None,
        }
    }

    /// The number of pending queries.
    pub fn pending_len(&self) -> (r: usize)
        ensures
            r == self.pending().len(),
    {
        self.pending.len()
    }
}

/// With an upstream that echoes a forwarded query, the client that sent it gets exactly one
/// reply: the first echo is delivered to that client (the datagram is relayed unchanged, so
/// the id is the query's), and a second copy finds nothing pending.
pub proof fn lemma_echo_delivered_once<C>(
    p: Map<u16, PendingQuery<C>>,
    data: Seq<u8>,
    entry: PendingQuery<C>,
)
    requires
        data.len() >= MIN_DATAGRAM,
    ensures
        upstream_delivery(pending_after_query(p, true, data, entry), data) == Some(entry),
        upstream_delivery(
            pending_after_upstream(pending_after_query(p, true, data, entry), data),
            data,
        ) is None,
{
}

/// Once a reply has been delivered for an id, any later upstream datagram with the same id
/// (a late reply from a slower upstream) is delivered to nobody.
pub proof fn lemma_late_reply_dropped<C>(
    p: Map<u16, PendingQuery<C>>,
    first: Seq<u8>,
    late: Seq<u8>,
)
    requires
        first.len() >= MIN_DATAGRAM,
        late.len() >= MIN_DATAGRAM,
        message_id(late) == message_id(first),
    ensures
        upstream_delivery(pending_after_upstream(p, first), late) is None,
{
}

/// The pending table after the queries `qs` are forwarded in turn, `qs[i]` recorded as
/// `es[i]`.
pub open spec fn forward_all<C>(
    p: Map<u16, PendingQuery<C>>,
    qs: Seq<Seq<u8>>,
    es: Seq<PendingQuery<C>>,
) -> Map<u16, PendingQuery<C>>
    decreases qs.len(),
{
    if qs.len() == 0 || es.len() != qs.len() {
        p
    } else {
        pending_after_query(
            forward_all(p, qs.drop_last(), es.drop_last()),
            true,
            qs.last(),
            es.last(),
        )
    }
}

/// The pending table after the upstream datagrams `rs` arrive in turn.
pub open spec fn relay_all<C>(p: Map<u16, PendingQuery<C>>, rs: Seq<Seq<u8>>) -> Map<
    u16,
    PendingQuery<C>,
>
    decreases rs.len(),
{
    if rs.len() == 0 {
        p
    } else {
        pending_after_upstream(relay_all(p, rs.drop_last()), rs.last())
    }
}

/// Forwarded queries with distinct ids are each recorded under their own id.
proof fn lemma_forward_all_holds<C>(
    p: Map<u16, PendingQuery<C>>,
    qs: Seq<Seq<u8>>,
    es: Seq<PendingQuery<C>>,
    i: int,
)
    requires
        es.len() == qs.len(),
        0 <= i < qs.len(),
        forall|a: int, b: int|
            0 <= a < b < qs.len() ==> message_id(#[trigger] qs[a]) != message_id(#[trigger] qs[b]),
    ensures
        forward_all(p, qs, es).contains_key(message_id(qs[i])),
        forward_all(p, qs, es)[message_id(qs[i])] == es[i],
    decreases qs.len(),
{
    if i < qs.len() - 1 {
        let qs0 = qs.drop_last();
        assert forall|a: int, b: int|
            0 <= a < b < qs0.len() implies message_id(#[trigger] qs0[a]) != message_id(
                #[trigger] qs0[b],
            ) by {
            assert(qs0[a] == qs[a] && qs0[b] == qs[b]);
        }
        lemma_forward_all_holds(p, qs0, es.drop_last(), i);
        assert(qs0[i] == qs[i]);
        assert(es.drop_last()[i] == es[i]);
        assert(message_id(qs[i]) != message_id(qs[qs.len() - 1]));
    }
}

/// Upstream datagrams for other ids leave the entry under `id` as it was.
proof fn lemma_relay_others_keeps<C>(p: Map<u16, PendingQuery<C>>, rs: Seq<Seq<u8>>, id: u16)
    requires
        p.contains_key(id),
        forall|j: int| 0 <= j < rs.len() ==> message_id(#[trigger] rs[j]) != id,
    ensures
        relay_all(p, rs).contains_key(id),
        relay_all(p, rs)[id] == p[id],
    decreases rs.len(),
{
    if rs.len() > 0 {
        let rs0 = rs.drop_last();
        assert forall|j: int| 0 <= j < rs0.len() implies message_id(#[trigger] rs0[j]) != id by {
            assert(rs0[j] == rs[j]);
        }
        lemma_relay_others_keeps(p, rs0, id);
        assert(message_id(rs[rs.len() - 1]) != id);
    }
}

/// With an upstream that echoes every query, a client that sends queries with distinct ids
/// gets exactly one reply to each: whatever replies for other ids came first, the echo of
/// `qs[i]` is delivered to the entry recorded for it (the datagram is relayed unchanged, so
/// with its id), and a second copy of it is delivered to nobody.
pub proof fn lemma_echoes_delivered_once<C>(
    p: Map<u16, PendingQuery<C>>,
    qs: Seq<Seq<u8>>,
    es: Seq<PendingQuery<C>>,
    i: int,
    earlier: Seq<Seq<u8>>,
)
    requires
        es.len() == qs.len(),
        0 <= i < qs.len(),
        qs[i].len() >= MIN_DATAGRAM,
        forall|a: int, b: int|
            0 <= a < b < qs.len() ==> message_id(#[trigger] qs[a]) != message_id(#[trigger] qs[b]),
        forall|j: int| 0 <= j < earlier.len() ==> message_id(#[trigger] earlier[j]) != message_id(qs[i]),
    ensures
        ({
            let before = relay_all(forward_all(p, qs, es), earlier);
            &&& upstream_delivery(before, qs[i]) == Some(es[i])
            &&& upstream_delivery(pending_after_upstream(before, qs[i]), qs[i]) is None
        }),
{
    let id = message_id(qs[i]);
    lemma_forward_all_holds(p, qs, es, i);
    lemma_relay_others_keeps(forward_all(p, qs, es), earlier, id);
}

} // verus!
