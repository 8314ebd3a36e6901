//! The transactional outbox: a durable queue of change events with
//! at-least-once delivery. Events are queued in creation order, claimed
//! oldest-first in atomic batches, and published exactly once per claim;
//! no two claimers ever take the same event.

use vstd::prelude::*;

verus! {

/// The kind of a queued change event.
#[derive(Clone, Copy, PartialEq, Eq, Structural, Debug)]
pub enum OutboxKind {
    Upsert,
    SupersededBy,
    RevokeCapsule,
}

/// The error for an event kind string that names no kind: on read this is
/// a fatal deserialization error, never a silently-ignored unknown.
#[derive(Clone, Copy, PartialEq, Eq, Structural, Debug)]
pub struct UnknownOutboxKind;

impl OutboxKind {
    /// The exact wire string of this kind.
    pub open spec fn spec_str(self) -> Seq<char> {
        match self {
            OutboxKind::Upsert => "UPSERT"@,
            OutboxKind::SupersededBy => "SUPERSEDED_BY"@,
            OutboxKind::RevokeCapsule => "REVOKE_CAPSULE"@,
        }
    }

    /// The wire string of this kind.
    pub fn as_str(&self) -> (r: &'static str)
        ensures
            r@ == self.spec_str(),
    {
        match self {
            OutboxKind::Upsert => "UPSERT",
            OutboxKind::SupersededBy => "SUPERSEDED_BY",
            OutboxKind::RevokeCapsule => "REVOKE_CAPSULE",
        }
    }
}

/// Parse a wire kind string. Exactly the three wire strings are accepted;
/// anything else is an error, never ignored.
pub fn parse_outbox_kind(s: &str) -> (r: Result<OutboxKind, UnknownOutboxKind>)
    ensures
        match r {
            Ok(k) => s@ == k.spec_str(),
            Err(_) => s@ != "UPSERT"@ && s@ != "SUPERSEDED_BY"@ && s@ != "REVOKE_CAPSULE"@,
        },
{
    let owned: String = s.to_owned();
    if owned == String::from_str("UPSERT") {
        Ok(OutboxKind::Upsert)
    } else if owned == String::from_str("SUPERSEDED_BY") {
        Ok(OutboxKind::SupersededBy)
    } else if owned == String::from_str("REVOKE_CAPSULE") {
        Ok(OutboxKind::RevokeCapsule)
    } else {
        Err(UnknownOutboxKind)
    }
}

/// What a change event says happened, as structured values; the transport
/// layer turns these into wire payloads.
pub enum EventPayload {
    /// A capsule was stored under a key it did not occupy before.
    Upsert { tenant: String, key: String, hash: String },
    /// A capsule's content was replaced: same key, different hash.
    Superseded { tenant: String, old_hash: String, new_hash: String },
    /// A capsule was purged and its hash revoked.
    Revoke { tenant: String, capsule_id: String, hash: String },
}

/// Mathematical model of an event payload.
pub enum EventPayloadView {
    Upsert { tenant: Seq<char>, key: Seq<char>, hash: Seq<char> },
    Superseded { tenant: Seq<char>, old_hash: Seq<char>, new_hash: Seq<char> },
    Revoke { tenant: Seq<char>, capsule_id: Seq<char>, hash: Seq<char> },
}

impl View for EventPayload {
    type V = EventPayloadView;

    open spec fn view(&self) -> EventPayloadView {
        match self {
            EventPayload::Upsert { tenant, key, hash } => EventPayloadView::Upsert {
                tenant: tenant@,
                key: key@,
                hash: hash@,
            },
            EventPayload::Superseded { tenant, old_hash, new_hash } => EventPayloadView::Superseded {
                tenant: tenant@,
                old_hash: old_hash@,
                new_hash: new_hash@,
            },
            EventPayload::Revoke { tenant, capsule_id, hash } => EventPayloadView::Revoke {
                tenant: tenant@,
                capsule_id: capsule_id@,
                hash: hash@,
            },
        }
    }
}

impl Clone for EventPayload {
    fn clone(&self) -> (r: Self)
        ensures
            r@ == self@,
    {
        match self {
            EventPayload::Upsert { tenant, key, hash } => EventPayload::Upsert {
                tenant: tenant.clone(),
                key: key.clone(),
                hash: hash.clone(),
            },
            EventPayload::Superseded { tenant, old_hash, new_hash } => EventPayload::Superseded {
                tenant: tenant.clone(),
                old_hash: old_hash.clone(),
                new_hash: new_hash.clone(),
            },
            EventPayload::Revoke { tenant, capsule_id, hash } => EventPayload::Revoke {
                tenant: tenant.clone(),
                capsule_id: capsule_id.clone(),
                hash: hash.clone(),
            },
        }
    }
}

/// A queued fact: sequential identity, owning tenant, kind, payload,
/// creation instant, and the publication instant once a claimer took it.
pub struct OutboxEvent {
    pub id: i64,
    pub tenant_id: u128,
    pub kind: OutboxKind,
    pub payload: EventPayload,
    pub created_at: i64,
    pub published_at: Option<i64>,
}

/// Mathematical model of a queued event.
pub struct OutboxEventView {
    pub id: i64,
    pub tenant_id: u128,
    pub kind: OutboxKind,
    pub payload: EventPayloadView,
    pub created_at: i64,
    pub published_at: Option<i64>,
}

impl View for OutboxEvent {
    type V = OutboxEventView;

    open spec fn view(&self) -> OutboxEventView {
        OutboxEventView {
            id: self.id,
            tenant_id: self.tenant_id,
            kind: self.kind,
            payload: self.payload@,
            created_at: self.created_at,
            published_at: self.published_at,
        }
    }
}

impl Clone for OutboxEvent {
    fn clone(&self) -> (r: Self)
        ensures
            r@ == self@,
    {
        OutboxEvent {
            id: self.id,
            tenant_id: self.tenant_id,
            kind: self.kind,
            payload: self.payload.clone(),
            created_at: self.created_at,
            published_at: self.published_at,
        }
    }
}

/// The models of a sequence of queued events.
pub open spec fn event_views(v: Seq<OutboxEvent>) -> Seq<OutboxEventView> {
    v.map_values(|e: OutboxEvent| e@)
}

/// Identities strictly increase along the queue: later events are younger.
pub open spec fn event_ids_increasing(s: Seq<OutboxEventView>) -> bool {
    forall|i: int, j: int| #![trigger s[i].id, s[j].id] 0 <= i < j < s.len() ==> s[i].id < s[j].id
}

/// An event as a claim hands it out: published at `now`.
pub open spec fn published_as(now: i64) -> spec_fn(OutboxEventView) -> OutboxEventView {
    |e: OutboxEventView| OutboxEventView { published_at: Some(now), ..e }
}

/// The event `enqueue` appends.
pub open spec fn queued_event(
    id: i64,
    tenant: u128,
    kind: OutboxKind,
    payload: EventPayloadView,
    now: i64,
) -> OutboxEventView {
    OutboxEventView { id, tenant_id: tenant, kind, payload, created_at: now, published_at: None }
}

/// The in-process outbox: a FIFO queue of unpublished events behind one
/// lock. Claiming marks events published and removes them in the same
/// operation, so no two claimers can see the same event.
pub struct InMemoryOutboxRepository {
    pending: Vec<OutboxEvent>,
    next_id: i64,
}

/// Mathematical model of the outbox: the pending queue and the identity
/// the next event will take.
pub struct OutboxView {
    pub pending: Seq<OutboxEventView>,
    pub next_id: i64,
}

impl View for InMemoryOutboxRepository {
    type V = OutboxView;

    closed spec fn view(&self) -> OutboxView {
        OutboxView { pending: event_views(self.pending@), next_id: self.next_id }
    }
}

impl InMemoryOutboxRepository {
    /// The queue is well formed when identities strictly increase along it
    /// and stay below the next identity to hand out, and nothing queued has
    /// been published yet.
    pub open spec fn wf(&self) -> bool {
        &&& event_ids_increasing(self@.pending)
        &&& forall|i: int|
            0 <= i < self@.pending.len() ==> (#[trigger] self@.pending[i]).id < self@.next_id
        &&& forall|i: int|
            0 <= i < self@.pending.len() ==> (#[trigger] self@.pending[i]).published_at is None
    }

    /// An empty outbox; the first event takes identity 1.
    pub fn new() -> (r: Self)
        ensures
            r@.pending =~= Seq::<OutboxEventView>::empty(),
            r@.next_id == 1,
            r.wf(),
    {
        let r = InMemoryOutboxRepository { pending: Vec::new(), next_id: 1 };
        proof {
            assert(r@.pending =~= Seq::<OutboxEventView>::empty());
        }
        r
    }

    /// Whether another event can still take an identity: callers check
    /// this before queueing.
    pub fn can_enqueue(&self) -> (r: bool)
        ensures
            r == (self@.next_id < i64::MAX),
    {
        self.next_id < i64::MAX
    }

    /// Append an event for `tenant` and return its identity. Ordering key
    /// is the creation instant: the queue holds events oldest first.
    pub fn enqueue(&mut self, tenant: u128, kind: OutboxKind, payload: EventPayload, now: i64) -> (r:
        i64)
        requires
            old(self).wf(),
            old(self)@.next_id < i64::MAX,
        ensures
            final(self).wf(),
            r == old(self)@.next_id,
            final(self)@.next_id == old(self)@.next_id + 1,
            final(self)@.pending == old(self)@.pending.push(
                queued_event(old(self)@.next_id, tenant, kind, payload@, now),
            ),
    {
        let ghost p0 = self@.pending;
        let id = self.next_id;
        let event = OutboxEvent {
            id,
            tenant_id: tenant,
            kind,
            payload,
            created_at: now,
            published_at: None,
        };
        let ghost ev = event@;
        self.pending.push(event);
        self.next_id = id + 1;
        proof {
            assert(self@.pending =~= p0.push(ev));
            assert(forall|k: int| 0 <= k < p0.len() ==> #[trigger] self@.pending[k] == p0[k]);
        }
        id
    }

    /// Atomically select up to `size` oldest unpublished events, mark them
    /// published at `now`, and remove them from the queue: the claimed
    /// batch is exactly the queue's first `min(size, len)` events, and no
    /// later claimer can ever see them again.
    pub fn claim_batch(&mut self, size: usize, now: i64) -> (r: Vec<OutboxEvent>)
        requires
            old(self).wf(),
        ensures
            final(self).wf(),
            final(self)@.next_id == old(self)@.next_id,
            ({
                let n = if size <= old(self)@.pending.len() {
                    size as int
                } else {
                    old(self)@.pending.len() as int
                };
                &&& event_views(r@) == old(self)@.pending.take(n).map_values(published_as(now))
                &&& final(self)@.pending == old(self)@.pending.skip(n)
            }),
    {
        let ghost p0 = self@.pending;
        let mut out: Vec<OutboxEvent> = Vec::new();
        let n = if size <= self.pending.len() {
            size
        } else {
            self.pending.len()
        };
        let mut t: usize = 0;
        proof {
            assert(event_views(out@) =~= p0.take(0).map_values(published_as(now)));
            assert(self@.pending =~= p0.skip(0));
        }
        while t < n
            invariant
                t <= n,
                n <= p0.len(),
                self@.next_id == old(self)@.next_id,
                event_ids_increasing(p0),
                forall|i: int| 0 <= i < p0.len() ==> (#[trigger] p0[i]).id < self@.next_id,
                forall|i: int| 0 <= i < p0.len() ==> (#[trigger] p0[i]).published_at is None,
                event_views(out@) == p0.take(t as int).map_values(published_as(now)),
                self@.pending == p0.skip(t as int),
            decreases n - t,
        {
            let ghost pb = self@.pending;
            proof {
                assert(self.pending@.len() == pb.len());
                assert(pb.len() > 0);
            }
            let mut ev = self.pending.remove(0);
            proof {
                assert(ev@ == pb[0]);
                assert(ev@ == p0.skip(t as int)[0]);
                assert(ev@ == p0[t as int]);
            }
            ev.published_at = Some(now);
            proof {
                assert(ev@ == OutboxEventView { published_at: Some(now), ..p0[t as int] });
                assert(published_as(now)(p0[t as int]) == OutboxEventView {
                    published_at: Some(now),
                    ..p0[t as int]
                });
            }
            let ghost ov = event_views(out@);
            out.push(ev);
            proof {
                assert(event_views(out@) =~= ov.push(published_as(now)(p0[t as int])));
                assert(p0.take((t + 1) as int) =~= p0.take(t as int).push(p0[t as int]));
                assert(event_views(out@) =~= p0.take((t + 1) as int).map_values(published_as(now)));
                assert(self@.pending =~= pb.drop_first());
                assert(pb.drop_first() =~= p0.skip((t + 1) as int));
            }
            t = t + 1;
        }
        proof {
            assert(forall|i: int, j: int|
                #![trigger self@.pending[i].id, self@.pending[j].id]
                0 <= i < j < self@.pending.len() ==> self@.pending[i].id < self@.pending[j].id);
        }
        out
    }

    /// Publication happens at claim time in this backend, so marking again
    /// is an idempotent no-op: the queue is unchanged.
    pub fn mark_published(&mut self, ids: &Vec<i64>) -> (r: Result<(), ()>)
        ensures
            final(self)@ == old(self)@,
            r is Ok,
    {
        let _ = ids.len();
        Ok(())
    }
}

/// Two consecutive claims take consecutive slices: together they cover the
/// queue's first `n1 + n2` events, each exactly once.
pub proof fn lemma_claims_partition(q: Seq<OutboxEventView>, n1: int, n2: int)
    requires
        0 <= n1,
        0 <= n2,
        n1 + n2 <= q.len(),
    ensures
        q.take(n1) + q.skip(n1).take(n2) == q.take(n1 + n2),
{
    assert(q.take(n1) + q.skip(n1).take(n2) =~= q.take(n1 + n2));
}

/// Outbox exclusivity, pairwise: when identities strictly increase along
/// the queue, no event of one claim batch appears in the next — no event
/// is ever claimed twice.
pub proof fn lemma_claims_exclusive(q: Seq<OutboxEventView>, n1: int, n2: int)
    requires
        event_ids_increasing(q),
        0 <= n1,
        0 <= n2,
        n1 + n2 <= q.len(),
    ensures
        forall|a: int, b: int|
            0 <= a < n1 && 0 <= b < n2 ==> (#[trigger] q.take(n1)[a]).id != (#[trigger] q.skip(
                n1,
            ).take(n2)[b]).id,
{
    assert forall|a: int, b: int| 0 <= a < n1 && 0 <= b < n2 implies (#[trigger] q.take(
        n1,
    )[a]).id != (#[trigger] q.skip(n1).take(n2)[b]).id by {
        assert(q.take(n1)[a] == q[a]);
        assert(q.skip(n1).take(n2)[b] == q[n1 + b]);
    }
}

/// The concatenation of claim batches of size `k`, drained from the front
/// of the queue until it is empty.
pub open spec fn batches_concat(q: Seq<OutboxEventView>, k: int) -> Seq<OutboxEventView>
    decreases q.len(),
    when k >= 1
{
    if q.len() == 0 {
        Seq::empty()
    } else {
        let n = if k < q.len() {
            k
        } else {
            q.len() as int
        };
        q.take(n) + batches_concat(q.skip(n), k)
    }
}

/// Outbox exclusivity, in the large: claimers of any batch size `k >= 1`
/// that keep claiming until the queue is empty receive, concatenated,
/// exactly the queued events — none left unclaimed, none claimed twice.
pub proof fn lemma_batches_cover(q: Seq<OutboxEventView>, k: int)
    requires
        k >= 1,
    ensures
        batches_concat(q, k) == q,
    decreases q.len(),
{
    if q.len() == 0 {
        assert(batches_concat(q, k) =~= q);
    } else {
        let n = if k < q.len() {
            k
        } else {
            q.len() as int
        };
        lemma_batches_cover(q.skip(n), k);
        assert(batches_concat(q, k) =~= q);
    }
}

} // verus!
