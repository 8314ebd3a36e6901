//! The capsule service flows: ingest (store a capsule, detecting
//! supersession and queueing the matching change event), lookup (read a
//! capsule back with its remaining time-to-live), and purge (remove
//! capsules by key and queue revocations). Storage is the source of truth;
//! events are queued after the storage mutation succeeds.

use vstd::prelude::*;

use crate::capsule::{CapsuleIngestRequest, CapsuleLookupResponse, IngestRequestView};
use crate::ident::{spec_decimal, u128_to_decimal};
use crate::node::{KnowledgeNode, NodePayload, NodeView, PayloadView, UpsertOutcome};
use crate::outbox::{
    queued_event, EventPayload, EventPayloadView, InMemoryOutboxRepository, OutboxEventView,
    OutboxKind,
};
use crate::store::{find_by_key, key_pred, upsert_model, InMemoryNodeRepository};
use crate::translate::{ingest_node_model, lookup_model, CapsuleError};

verus! {

/// The change event an ingest queues: `Upsert` for a key not stored
/// before, `Superseded` when the key's content hash changed, and none when
/// an unchanged capsule was re-ingested.
pub open spec fn ingest_event_model(
    existing_hash: Option<Seq<char>>,
    req: IngestRequestView,
) -> Option<EventPayloadView> {
    match existing_hash {
        None => Some(
            EventPayloadView::Upsert {
                tenant: req.artifact.policy.tenant,
                key: req.key,
                hash: req.artifact.hash,
            },
        ),
        Some(old_hash) => if old_hash != req.artifact.hash {
            Some(
                EventPayloadView::Superseded {
                    tenant: req.artifact.policy.tenant,
                    old_hash,
                    new_hash: req.artifact.hash,
                },
            )
        } else {
            None
        },
    }
}

/// The ingest eventing decision for any backend: given the content hash
/// already stored under the key (if any), the event to queue, or none when
/// an unchanged capsule was re-ingested. Backends that keep their rows
/// elsewhere read the existing hash, call this, and queue what it returns.
pub fn plan_capsule_event(
    existing_hash: Option<&String>,
    slug: &str,
    key: &str,
    hash: &str,
) -> (r: Option<(OutboxKind, EventPayload)>)
    ensures
        match existing_hash {
            None => r matches Some((kind, payload)) && kind == OutboxKind::Upsert && payload@
                == (EventPayloadView::Upsert { tenant: slug@, key: key@, hash: hash@ }),
            Some(oh) => if oh@ != hash@ {
                r matches Some((kind, payload)) && kind == OutboxKind::SupersededBy && payload@
                    == (EventPayloadView::Superseded {
                    tenant: slug@,
                    old_hash: oh@,
                    new_hash: hash@,
                })
            } else {
                r is None
            },
        },
{
    match existing_hash {
        None => Some(
            (
                OutboxKind::Upsert,
                EventPayload::Upsert {
                    tenant: slug.to_owned(),
                    key: key.to_owned(),
                    hash: hash.to_owned(),
                },
            ),
        ),
        Some(oh) => {
            let new_hash: String = hash.to_owned();
            if *oh == new_hash {
                None
            } else {
                Some(
                    (
                        OutboxKind::SupersededBy,
                        EventPayload::Superseded {
                            tenant: slug.to_owned(),
                            old_hash: oh.clone(),
                            new_hash,
                        },
                    ),
                )
            }
        },
    }
}

/// Store a capsule under `tenant`.
///
/// The request is validated first and a rejected capsule changes nothing.
/// A key not stored before reports `Created`; a key already stored reports
/// `Updated`, replacing the old row (in place when the content hash is
/// unchanged, so `created_at` is preserved, or by removing the superseded
/// row when the hash changed, since the new content addresses a new
/// identity). With eventing enabled, exactly one `UPSERT` event is queued
/// for a fresh key, exactly one `SUPERSEDED_BY` event when the hash
/// changed, and none when an unchanged capsule is re-ingested.
pub fn ingest_capsule(
    store: &mut InMemoryNodeRepository,
    outbox: &mut InMemoryOutboxRepository,
    events_enabled: bool,
    tenant: u128,
    req: CapsuleIngestRequest,
    now: i64,
) -> (r: Result<UpsertOutcome, CapsuleError>)
    requires
        old(store).wf(),
        old(outbox).wf(),
        old(outbox)@.next_id < i64::MAX,
    ensures
        final(store).wf(),
        final(outbox).wf(),
        ({
            let m = ingest_node_model(req@, tenant, now);
            match (r, m) {
                (Err(e), Err(em)) => e == em && final(store)@ == old(store)@ && final(outbox)@
                    == old(outbox)@,
                (Ok(outcome), Ok(node)) => {
                    let i = find_by_key(old(store)@, tenant, req@.key);
                    let existing_hash = if i == -1 {
                        None
                    } else {
                        old(store)@[i].capsule_hash()
                    };
                    let event = ingest_event_model(existing_hash, req@);
                    &&& outcome == (if i == -1 {
                        UpsertOutcome::Created
                    } else {
                        UpsertOutcome::Updated
                    })
                    &&& final(store)@ == (if i == -1 || existing_hash == Some(req@.artifact.hash) {
                        upsert_model(old(store)@, tenant, node, now)
                    } else {
                        upsert_model(old(store)@.remove(i), tenant, node, now)
                    })
                    &&& final(outbox)@.pending == (match event {
                        Some(payload) => if events_enabled {
                            old(outbox)@.pending.push(
                                queued_event(
                                    old(outbox)@.next_id,
                                    tenant,
                                    (if existing_hash is None {
                                        OutboxKind::Upsert
                                    } else {
                                        OutboxKind::SupersededBy
                                    }),
                                    payload,
                                    now,
                                ),
                            )
                        } else {
                            old(outbox)@.pending
                        },
                        None => old(outbox)@.pending,
                    })
                },
                _ => false,
            }
        }),
{
    let key = req.key.clone();
    let hash = req.artifact.hash.clone();
    let slug = req.artifact.policy.tenant.clone();
    let node = match req.into_node(tenant, now) {
        Ok(node) => node,
        Err(e) => {
            return Err(e);
        },
    };
    match store.get_by_key(tenant, key.as_str()) {
        None => {
            store.upsert(tenant, node, now);
            if events_enabled {
                let payload = EventPayload::Upsert { tenant: slug, key, hash };
                outbox.enqueue(tenant, OutboxKind::Upsert, payload, now);
            }
            Ok(UpsertOutcome::Created)
        },
        Some(existing) => {
            proof {
                crate::order::lemma_first_where_props(key_pred(tenant, key@), old(store)@);
            }
            let old_hash = match &existing.payload {
                NodePayload::Capsule(stored) => stored.artifact.hash.clone(),
                NodePayload::Raw(_) => vstd::pervasive::unreached(),
            };
            if old_hash == hash {
                store.upsert(tenant, node, now);
            } else {
                store.delete_by_key(tenant, key.as_str());
                store.upsert(tenant, node, now);
                if events_enabled {
                    let payload = EventPayload::Superseded {
                        tenant: slug,
                        old_hash,
                        new_hash: hash,
                    };
                    outbox.enqueue(tenant, OutboxKind::SupersededBy, payload, now);
                }
            }
            Ok(UpsertOutcome::Updated)
        },
    }
}

/// Read the capsule stored under `key` back, with expiry and remaining
/// time-to-live computed at `now`. Absence is a normal `None`.
pub fn lookup_capsule(
    store: &InMemoryNodeRepository,
    tenant: u128,
    key: &str,
    now: i64,
) -> (r: Option<CapsuleLookupResponse>)
    ensures
        ({
            let i = find_by_key(store@, tenant, key@);
            match r {
                None => i == -1,
                Some(resp) => i != -1 && Ok::<_, CapsuleError>(resp@) == lookup_model(
                    store@[i],
                    now,
                ),
            }
        }),
{
    match store.get_by_key(tenant, key) {
        None => None,
        Some(node) => {
            proof {
                crate::order::lemma_first_where_props(key_pred(tenant, key@), store@);
            }
            match CapsuleLookupResponse::from_node(&node, now) {
                Ok(resp) => Some(resp),
                Err(_) => vstd::pervasive::unreached(),
            }
        },
    }
}

/// The hash a purge revokes: the stored content hash, or the node's
/// identity rendered in decimal when the capsule was stored without one —
/// the same substitution the lookup path makes.
pub open spec fn revoked_hash_of(n: NodeView) -> Seq<char> {
    match n.payload {
        PayloadView::Capsule(req) => if req.artifact.hash.len() == 0 {
            spec_decimal(n.id as int)
        } else {
            req.artifact.hash
        },
        PayloadView::Raw(_) => Seq::empty(),
    }
}

/// The revocation event a purged node queues.
pub open spec fn revoke_payload_of(n: NodeView) -> EventPayloadView {
    match n.payload {
        PayloadView::Capsule(req) => EventPayloadView::Revoke {
            tenant: if req.artifact.policy.tenant.len() == 0 {
                "default"@
            } else {
                req.artifact.policy.tenant
            },
            capsule_id: req.key,
            hash: revoked_hash_of(n),
        },
        PayloadView::Raw(_) => EventPayloadView::Revoke {
            tenant: Seq::empty(),
            capsule_id: Seq::empty(),
            hash: Seq::empty(),
        },
    }
}

/// Everything one purge call does: the store it leaves, the hashes it
/// revoked, the events it queued, and how many capsules it removed.
pub struct PurgeEffect {
    pub nodes: Seq<NodeView>,
    pub revoked: Seq<Seq<char>>,
    pub events: Seq<OutboxEventView>,
    pub purged: int,
}

/// The purge flow over a list of keys, key by key: each key stored in the
/// store loses its first matching row, contributes its revoked hash, and —
/// with eventing enabled — queues one `REVOKE_CAPSULE` event; keys not
/// stored contribute nothing.
pub open spec fn purge_all(
    s: Seq<NodeView>,
    tenant: u128,
    keys: Seq<Seq<char>>,
    events_enabled: bool,
    next_id: i64,
    now: i64,
) -> PurgeEffect
    decreases keys.len(),
{
    if keys.len() == 0 {
        PurgeEffect { nodes: s, revoked: Seq::empty(), events: Seq::empty(), purged: 0 }
    } else {
        let i = find_by_key(s, tenant, keys[0]);
        if i == -1 {
            purge_all(s, tenant, keys.drop_first(), events_enabled, next_id, now)
        } else {
            let n = s[i];
            let rest = purge_all(
                s.remove(i),
                tenant,
                keys.drop_first(),
                events_enabled,
                if events_enabled {
                    (next_id + 1) as i64
                } else {
                    next_id
                },
                now,
            );
            PurgeEffect {
                nodes: rest.nodes,
                revoked: seq![revoked_hash_of(n)] + rest.revoked,
                events: if events_enabled {
                    seq![
                        queued_event(next_id, tenant, OutboxKind::RevokeCapsule, revoke_payload_of(n), now),
                    ] + rest.events
                } else {
                    rest.events
                },
                purged: rest.purged + 1,
            }
        }
    }
}

/// What a purge reports back: how many capsules were removed, and the
/// revoked content hashes in purge order.
pub struct PurgeOutcome {
    pub purged: usize,
    pub revoked_hashes: Vec<String>,
}

/// The models of the revoked hashes.
pub open spec fn hash_views(v: Seq<String>) -> Seq<Seq<char>> {
    v.map_values(|h: String| h@)
}

/// Purge the capsules stored under `keys`: each key's first stored row is
/// removed from every subsequent lookup, its content hash is reported
/// revoked, and — with eventing enabled — exactly one `REVOKE_CAPSULE`
/// event carrying that hash is queued per purged capsule. Keys not stored
/// are skipped, not errors.
pub fn purge_capsules(
    store: &mut InMemoryNodeRepository,
    outbox: &mut InMemoryOutboxRepository,
    events_enabled: bool,
    tenant: u128,
    keys: &Vec<String>,
    now: i64,
) -> (r: PurgeOutcome)
    requires
        old(store).wf(),
        old(outbox).wf(),
        old(outbox)@.next_id + keys@.len() <= i64::MAX,
    ensures
        final(store).wf(),
        final(outbox).wf(),
        ({
            let eff = purge_all(
                old(store)@,
                tenant,
                hash_views(keys@),
                events_enabled,
                old(outbox)@.next_id,
                now,
            );
            &&& final(store)@ == eff.nodes
            &&& hash_views(r.revoked_hashes@) == eff.revoked
            &&& r.purged == eff.purged
            &&& final(outbox)@.pending == old(outbox)@.pending + eff.events
            &&& final(outbox)@.next_id == old(outbox)@.next_id + eff.events.len()
        }),
{
    let ghost s0 = store@;
    let ghost q0 = outbox@.pending;
    let ghost id0 = outbox@.next_id;
    let ghost kv = hash_views(keys@);
    let mut purged: usize = 0;
    let mut revoked: Vec<String> = Vec::new();
    let count = keys.len();
    let mut t: usize = 0;
    proof {
        assert(kv.skip(0) =~= kv);
        assert(hash_views(revoked@) =~= Seq::<Seq<char>>::empty());
        assert(q0 + Seq::<OutboxEventView>::empty() =~= q0);
    }
    while t < count
        invariant
            t <= count,
            count == keys@.len(),
            kv == hash_views(keys@),
            store.wf(),
            outbox.wf(),
            purged <= t,
            outbox@.next_id == id0 + (outbox@.pending.len() - q0.len()),
            outbox@.next_id + (count - t) <= i64::MAX,
            ({
                let eff = purge_all(s0, tenant, kv, events_enabled, id0, now);
                let rest = purge_all(
                    store@,
                    tenant,
                    kv.skip(t as int),
                    events_enabled,
                    outbox@.next_id,
                    now,
                );
                &&& eff.nodes == rest.nodes
                &&& eff.revoked == hash_views(revoked@) + rest.revoked
                &&& eff.events.len() == outbox@.pending.len() - q0.len() + rest.events.len()
                &&& q0 + eff.events == outbox@.pending + rest.events
                &&& eff.purged == purged + rest.purged
            }),
        decreases count - t,
    {
        let ghost sb = store@;
        let ghost qb = outbox@.pending;
        let ghost idb = outbox@.next_id;
        let ghost rv0 = hash_views(revoked@);
        proof {
            assert(kv.skip(t as int)[0] == kv[t as int]);
            assert(kv.skip(t as int).drop_first() =~= kv.skip((t + 1) as int));
            assert(keys@[t as int]@ == kv[t as int]);
        }
        match store.delete_by_key(tenant, keys[t].as_str()) {
            None => {},
            Some(node) => {
                proof {
                    crate::order::lemma_first_where_props(key_pred(tenant, kv[t as int]), sb);
                }
                purged = purged + 1;
                let hash: String = match &node.payload {
                    NodePayload::Capsule(stored) => {
                        if stored.artifact.hash.as_str().is_empty() {
                            u128_to_decimal(node.id)
                        } else {
                            stored.artifact.hash.clone()
                        }
                    },
                    NodePayload::Raw(_) => vstd::pervasive::unreached(),
                };
                proof {
                    assert(hash@ == revoked_hash_of(node@));
                }
                if events_enabled {
                    let slug: String = match &node.payload {
                        NodePayload::Capsule(stored) => {
                            if stored.artifact.policy.tenant.as_str().is_empty() {
                                String::from_str("default")
                            } else {
                                stored.artifact.policy.tenant.clone()
                            }
                        },
                        NodePayload::Raw(_) => vstd::pervasive::unreached(),
                    };
                    let capsule_id: String = match &node.payload {
                        NodePayload::Capsule(stored) => stored.key.clone(),
                        NodePayload::Raw(_) => vstd::pervasive::unreached(),
                    };
                    let payload = EventPayload::Revoke { tenant: slug, capsule_id, hash: hash.clone() };
                    proof {
                        assert(payload@ == revoke_payload_of(node@));
                    }
                    outbox.enqueue(tenant, OutboxKind::RevokeCapsule, payload, now);
                }
                revoked.push(hash);
                proof {
                    assert(hash_views(revoked@) =~= rv0.push(revoked_hash_of(node@)));
                }
            },
        }
        proof {
            let eff = purge_all(s0, tenant, kv, events_enabled, id0, now);
            let restb = purge_all(sb, tenant, kv.skip(t as int), events_enabled, idb, now);
            let rest = purge_all(
                store@,
                tenant,
                kv.skip((t + 1) as int),
                events_enabled,
                outbox@.next_id,
                now,
            );
            let i = find_by_key(sb, tenant, kv[t as int]);
            if i == -1 {
                assert(restb == rest);
            } else {
                let h = revoked_hash_of(sb[i]);
                assert(restb.revoked == seq![h] + rest.revoked);
                assert(hash_views(revoked@) == rv0.push(h));
                assert(rv0 + restb.revoked =~= hash_views(revoked@) + rest.revoked);
                if events_enabled {
                    let ev = queued_event(
                        idb,
                        tenant,
                        OutboxKind::RevokeCapsule,
                        revoke_payload_of(sb[i]),
                        now,
                    );
                    assert(restb.events == seq![ev] + rest.events);
                    assert(outbox@.pending == qb.push(ev));
                    assert(qb + restb.events =~= outbox@.pending + rest.events);
                } else {
                    assert(restb.events == rest.events);
                }
            }
            assert(eff.revoked =~= hash_views(revoked@) + rest.revoked);
            assert(q0 + eff.events =~= outbox@.pending + rest.events);
            assert(eff.purged == purged + rest.purged);
        }
        t = t + 1;
    }
    proof {
        let eff = purge_all(s0, tenant, kv, events_enabled, id0, now);
        assert(kv.skip(count as int).len() == 0);
        let rest = purge_all(
            store@,
            tenant,
            kv.skip(count as int),
            events_enabled,
            outbox@.next_id,
            now,
        );
        assert(rest.nodes == store@ && rest.revoked.len() == 0 && rest.events.len() == 0
            && rest.purged == 0);
        assert(eff.revoked =~= hash_views(revoked@));
        assert(q0 + eff.events =~= outbox@.pending);
    }
    PurgeOutcome { purged, revoked_hashes: revoked }
}

/// Purge revocation: when a tenant stores at most one row under a key,
/// purging that key removes it from every subsequent lookup — after the
/// removal, no row of the tenant answers to the key at all.
pub proof fn lemma_purge_revokes(s: Seq<NodeView>, tenant: u128, key: Seq<char>)
    requires
        ({
            let i = find_by_key(s, tenant, key);
            i != -1 ==> forall|j: int|
                i < j < s.len() ==> !(key_pred(tenant, key)(#[trigger] s[j]))
        }),
    ensures
        ({
            let i = find_by_key(s, tenant, key);
            i != -1 ==> find_by_key(s.remove(i), tenant, key) == -1
        }),
{
    let p = key_pred(tenant, key);
    let i = find_by_key(s, tenant, key);
    crate::order::lemma_first_where_props(p, s);
    if i != -1 {
        let s2 = s.remove(i);
        assert(forall|k: int|
            0 <= k < s2.len() ==> #[trigger] s2[k] == (if k < i {
                s[k]
            } else {
                s[k + 1]
            }));
        assert(forall|k: int| 0 <= k < s2.len() ==> !(p(#[trigger] s2[k])));
        crate::order::lemma_first_where_none(p, s2);
    }
}

} // verus!
