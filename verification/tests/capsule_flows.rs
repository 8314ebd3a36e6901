use synagraph::capsule::{CapsuleArtifact, CapsuleIngestRequest, CapsuleLookupResponse, CapsulePolicy, CapsuleProvenance};
use synagraph::ident::u128_to_decimal;
use synagraph::node::{KnowledgeNode, NodePayload, UpsertOutcome};
use synagraph::outbox::{EventPayload, InMemoryOutboxRepository, OutboxKind};
use synagraph::service::{ingest_capsule, lookup_capsule, purge_capsules};
use synagraph::store::InMemoryNodeRepository;
use synagraph::translate::CapsuleError;

fn sample_request(key: &str, hash: &str, tenant: &str, ttl: Option<i64>) -> CapsuleIngestRequest {
    CapsuleIngestRequest {
        key: key.to_string(),
        artifact: CapsuleArtifact {
            answer: "\"Quarterly revenue was up 23%.\"".to_string(),
            policy: CapsulePolicy {
                tenant: tenant.to_string(),
                phi: false,
                pii: false,
                region: None,
                compliance_tags: vec![],
            },
            provenance: vec![CapsuleProvenance {
                source: "synagraph:artifact".to_string(),
                hash: hash.to_string(),
                version: Some("v1".to_string()),
                generated_at: None,
            }],
            metrics: None,
            ttl_seconds: ttl,
            hash: hash.to_string(),
            metadata: None,
        },
        expires_at: None,
    }
}

#[test]
fn capsule_store_persists_payload() {
    let mut store = InMemoryNodeRepository::new();
    let mut outbox = InMemoryOutboxRepository::new();
    let tenant: u128 = 1;

    let req = sample_request("acme:analytics:report", "sg-123", "acme", Some(3600));
    let outcome = ingest_capsule(&mut store, &mut outbox, false, tenant, req, 1000).unwrap();
    assert!(matches!(outcome, UpsertOutcome::Created));

    let stored = store.get_by_key(tenant, "acme:analytics:report");
    assert!(stored.is_some());
}

#[test]
fn capsule_lookup_hits_cache() {
    let mut store = InMemoryNodeRepository::new();
    let mut outbox = InMemoryOutboxRepository::new();
    let tenant: u128 = 1;

    let req = sample_request("acme:analytics:report", "sg-123", "acme", Some(3600));
    ingest_capsule(&mut store, &mut outbox, false, tenant, req, 1000).unwrap();

    let response = lookup_capsule(&store, tenant, "acme:analytics:report", 1000).unwrap();
    assert_eq!(response.key, "acme:analytics:report");
    assert_eq!(response.artifact.hash, "sg-123");
    assert_eq!(response.artifact.policy.tenant, "acme");
    assert!(response.ttl_remaining_seconds.is_some());
}

#[test]
fn capsule_lookup_miss_returns_404() {
    let store = InMemoryNodeRepository::new();
    let response = lookup_capsule(&store, 1, "missing", 1000);
    assert!(response.is_none());
}

#[test]
fn capsule_purge_removes_records() {
    let mut store = InMemoryNodeRepository::new();
    let mut outbox = InMemoryOutboxRepository::new();
    let tenant: u128 = 1;

    let req = sample_request("acme:analytics:report", "sg-123", "acme", Some(3600));
    ingest_capsule(&mut store, &mut outbox, false, tenant, req, 1000).unwrap();

    let keys = vec!["acme:analytics:report".to_string()];
    let outcome = purge_capsules(&mut store, &mut outbox, false, tenant, &keys, 1001);
    assert_eq!(outcome.purged, 1);

    let remaining = store.get_by_key(tenant, "acme:analytics:report");
    assert!(remaining.is_none());
}

#[test]
fn ttl_only_derives_expiry() {
    let mut store = InMemoryNodeRepository::new();
    let mut outbox = InMemoryOutboxRepository::new();
    let tenant: u128 = 1;

    let req = sample_request("k1", "h1", "acme", Some(3600));
    ingest_capsule(&mut store, &mut outbox, false, tenant, req, 5000).unwrap();

    let response = lookup_capsule(&store, tenant, "k1", 5000).unwrap();
    // the node's updated_at is the ingest instant, so expiry is 5000 + 3600
    assert_eq!(response.expires_at, Some(8600));
    assert_eq!(response.artifact.ttl_seconds, Some(3600));
    assert_eq!(response.ttl_remaining_seconds, Some(3600));
}

#[test]
fn expiry_only_derives_ttl() {
    let mut store = InMemoryNodeRepository::new();
    let mut outbox = InMemoryOutboxRepository::new();
    let tenant: u128 = 1;

    let mut req = sample_request("k2", "h2", "acme", None);
    req.expires_at = Some(8600);
    ingest_capsule(&mut store, &mut outbox, false, tenant, req, 5000).unwrap();

    let response = lookup_capsule(&store, tenant, "k2", 6000).unwrap();
    assert_eq!(response.expires_at, Some(8600));
    assert_eq!(response.artifact.ttl_seconds, Some(3600));
    assert_eq!(response.ttl_remaining_seconds, Some(2600));
}

#[test]
fn expired_capsule_reports_zero_remaining() {
    let mut store = InMemoryNodeRepository::new();
    let mut outbox = InMemoryOutboxRepository::new();
    let tenant: u128 = 1;

    let req = sample_request("k3", "h3", "acme", Some(10));
    ingest_capsule(&mut store, &mut outbox, false, tenant, req, 100).unwrap();

    let response = lookup_capsule(&store, tenant, "k3", 10_000).unwrap();
    assert_eq!(response.expires_at, Some(110));
    assert_eq!(response.ttl_remaining_seconds, Some(0));
}

#[test]
fn no_ttl_and_no_expiry_reports_neither() {
    let mut store = InMemoryNodeRepository::new();
    let mut outbox = InMemoryOutboxRepository::new();
    let tenant: u128 = 1;

    let req = sample_request("k4", "h4", "acme", None);
    ingest_capsule(&mut store, &mut outbox, false, tenant, req, 100).unwrap();

    let response = lookup_capsule(&store, tenant, "k4", 200).unwrap();
    assert!(response.expires_at.is_none());
    assert!(response.ttl_remaining_seconds.is_none());
}

#[test]
fn reingest_same_capsule_is_idempotent() {
    let mut store = InMemoryNodeRepository::new();
    let mut outbox = InMemoryOutboxRepository::new();
    let tenant: u128 = 1;

    let req = sample_request("k5", "h5", "acme", None);
    let first = ingest_capsule(&mut store, &mut outbox, false, tenant, req.clone(), 100).unwrap();
    assert!(matches!(first, UpsertOutcome::Created));
    let id_before = store.get_by_key(tenant, "k5").unwrap().id;
    let created_before = store.get_by_key(tenant, "k5").unwrap().created_at;

    let second = ingest_capsule(&mut store, &mut outbox, false, tenant, req, 200).unwrap();
    assert!(matches!(second, UpsertOutcome::Updated));
    let after = store.get_by_key(tenant, "k5").unwrap();
    assert_eq!(after.id, id_before);
    assert_eq!(after.created_at, created_before);
}

#[test]
fn different_content_derives_different_identity() {
    let mut store = InMemoryNodeRepository::new();
    let mut outbox = InMemoryOutboxRepository::new();
    let tenant: u128 = 1;

    ingest_capsule(&mut store, &mut outbox, false, tenant, sample_request("ka", "h1", "acme", None), 1).unwrap();
    let id1 = store.get_by_key(tenant, "ka").unwrap().id;
    ingest_capsule(&mut store, &mut outbox, false, tenant, sample_request("kb", "h1", "acme", None), 2).unwrap();
    let id2 = store.get_by_key(tenant, "kb").unwrap().id;
    assert_ne!(id1, id2);
}

#[test]
fn supersession_emits_single_event() {
    let mut store = InMemoryNodeRepository::new();
    let mut outbox = InMemoryOutboxRepository::new();
    let tenant: u128 = 1;

    let first = ingest_capsule(
        &mut store,
        &mut outbox,
        true,
        tenant,
        sample_request("kk", "h1", "acme", None),
        100,
    )
    .unwrap();
    assert!(matches!(first, UpsertOutcome::Created));

    let second = ingest_capsule(
        &mut store,
        &mut outbox,
        true,
        tenant,
        sample_request("kk", "h2", "acme", None),
        200,
    )
    .unwrap();
    assert!(matches!(second, UpsertOutcome::Updated));

    let events = outbox.claim_batch(10, 300);
    assert_eq!(events.len(), 2);
    assert!(matches!(events[0].kind, OutboxKind::Upsert));
    assert!(matches!(events[1].kind, OutboxKind::SupersededBy));
    match &events[1].payload {
        EventPayload::Superseded { tenant, old_hash, new_hash } => {
            assert_eq!(tenant, "acme");
            assert_eq!(old_hash, "h1");
            assert_eq!(new_hash, "h2");
        }
        _ => panic!("expected a supersession payload"),
    }
    // the stored capsule now carries the new hash
    let response = lookup_capsule(&store, tenant, "kk", 300).unwrap();
    assert_eq!(response.artifact.hash, "h2");
}

#[test]
fn reingest_unchanged_emits_no_event() {
    let mut store = InMemoryNodeRepository::new();
    let mut outbox = InMemoryOutboxRepository::new();
    let tenant: u128 = 1;

    ingest_capsule(&mut store, &mut outbox, true, tenant, sample_request("kq", "h1", "acme", None), 1).unwrap();
    ingest_capsule(&mut store, &mut outbox, true, tenant, sample_request("kq", "h1", "acme", None), 2).unwrap();
    let events = outbox.claim_batch(10, 3);
    assert_eq!(events.len(), 1);
    assert!(matches!(events[0].kind, OutboxKind::Upsert));
}

#[test]
fn purge_emits_revoke_event() {
    let mut store = InMemoryNodeRepository::new();
    let mut outbox = InMemoryOutboxRepository::new();
    let tenant: u128 = 1;

    ingest_capsule(&mut store, &mut outbox, false, tenant, sample_request("kp", "hp", "acme", None), 1).unwrap();
    let keys = vec!["kp".to_string(), "absent".to_string()];
    let outcome = purge_capsules(&mut store, &mut outbox, true, tenant, &keys, 10);
    assert_eq!(outcome.purged, 1);
    assert_eq!(outcome.revoked_hashes, vec!["hp".to_string()]);

    let events = outbox.claim_batch(10, 20);
    assert_eq!(events.len(), 1);
    assert!(matches!(events[0].kind, OutboxKind::RevokeCapsule));
    match &events[0].payload {
        EventPayload::Revoke { tenant, capsule_id, hash } => {
            assert_eq!(tenant, "acme");
            assert_eq!(capsule_id, "kp");
            assert_eq!(hash, "hp");
        }
        _ => panic!("expected a revocation payload"),
    }
    assert!(lookup_capsule(&store, tenant, "kp", 20).is_none());
}

#[test]
fn missing_policy_tenant_is_rejected() {
    let mut store = InMemoryNodeRepository::new();
    let mut outbox = InMemoryOutboxRepository::new();
    let req = sample_request("kx", "hx", "", None);
    let err = ingest_capsule(&mut store, &mut outbox, false, 1, req, 1).unwrap_err();
    assert_eq!(err, CapsuleError::MissingPolicyTenant);
}

#[test]
fn missing_hash_is_rejected() {
    let mut store = InMemoryNodeRepository::new();
    let mut outbox = InMemoryOutboxRepository::new();
    let req = sample_request("ky", "", "acme", None);
    let err = ingest_capsule(&mut store, &mut outbox, false, 1, req, 1).unwrap_err();
    assert_eq!(err, CapsuleError::MissingArtifactHash);
}

#[test]
fn raw_node_is_not_a_capsule() {
    let node = KnowledgeNode::new(1, 1, "note".to_string(), NodePayload::Raw("{}".to_string()), 1);
    match CapsuleLookupResponse::from_node(&node, 2) {
        Err(err) => assert_eq!(err, CapsuleError::NotACapsule),
        Ok(_) => panic!("a raw payload must be rejected"),
    }
}

#[test]
fn lookup_defaults_blank_fields() {
    // a capsule stored with no provenance, no policy tenant and no hash:
    // lookup synthesizes one empty record, the sentinel tenant, and the
    // node identity as hash
    let req = CapsuleIngestRequest {
        key: "kz".to_string(),
        artifact: CapsuleArtifact {
            answer: "null".to_string(),
            policy: CapsulePolicy {
                tenant: "".to_string(),
                phi: false,
                pii: false,
                region: None,
                compliance_tags: vec![],
            },
            provenance: vec![],
            metrics: None,
            ttl_seconds: None,
            hash: "".to_string(),
            metadata: None,
        },
        expires_at: None,
    };
    let node = KnowledgeNode::new(987654321, 1, "capsule".to_string(), NodePayload::Capsule(req), 1);
    let response = CapsuleLookupResponse::from_node(&node, 2).unwrap();
    assert_eq!(response.artifact.provenance.len(), 1);
    assert_eq!(response.artifact.provenance[0].source, "");
    assert_eq!(response.artifact.policy.tenant, "default");
    assert_eq!(response.artifact.hash, u128_to_decimal(987654321));
}

#[test]
fn decimal_rendering_is_exact() {
    assert_eq!(u128_to_decimal(0), "0");
    assert_eq!(u128_to_decimal(7), "7");
    assert_eq!(u128_to_decimal(12345), "12345");
    assert_eq!(u128_to_decimal(u128::MAX), "340282366920938463463374607431768211455");
}

#[test]
fn expiry_round_trips_through_ingest_and_lookup() {
    let mut store = InMemoryNodeRepository::new();
    let mut outbox = InMemoryOutboxRepository::new();
    let tenant: u128 = 1;
    let ingest_instant: i64 = 5000;

    // establish an expiry through an absolute instant
    let mut req = sample_request("rt", "h-rt", "acme", None);
    req.expires_at = Some(9200);
    ingest_capsule(&mut store, &mut outbox, false, tenant, req, ingest_instant).unwrap();
    let first = lookup_capsule(&store, tenant, "rt", ingest_instant).unwrap();
    assert_eq!(first.expires_at, Some(9200));
    let derived_ttl = first.artifact.ttl_seconds.unwrap();

    // re-ingest the derived time-to-live at the same instant: the same
    // expiry instant comes back
    let again = sample_request("rt2", "h-rt2", "acme", Some(derived_ttl));
    ingest_capsule(&mut store, &mut outbox, false, tenant, again, ingest_instant).unwrap();
    let second = lookup_capsule(&store, tenant, "rt2", ingest_instant).unwrap();
    assert_eq!(second.expires_at, Some(9200));
}
