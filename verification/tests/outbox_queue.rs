use synagraph::outbox::{
    parse_outbox_kind, EventPayload, InMemoryOutboxRepository, OutboxKind, UnknownOutboxKind,
};

fn sample_payload(n: u32) -> EventPayload {
    EventPayload::Upsert {
        tenant: "acme".to_string(),
        key: format!("key-{}", n),
        hash: format!("hash-{}", n),
    }
}

#[test]
fn kind_strings_are_exact() {
    assert_eq!(OutboxKind::Upsert.as_str(), "UPSERT");
    assert_eq!(OutboxKind::SupersededBy.as_str(), "SUPERSEDED_BY");
    assert_eq!(OutboxKind::RevokeCapsule.as_str(), "REVOKE_CAPSULE");
}

#[test]
fn kind_strings_round_trip() {
    assert_eq!(parse_outbox_kind("UPSERT"), Ok(OutboxKind::Upsert));
    assert_eq!(parse_outbox_kind("SUPERSEDED_BY"), Ok(OutboxKind::SupersededBy));
    assert_eq!(parse_outbox_kind("REVOKE_CAPSULE"), Ok(OutboxKind::RevokeCapsule));
}

#[test]
fn unknown_kind_is_fatal() {
    assert_eq!(parse_outbox_kind("upsert"), Err(UnknownOutboxKind));
    assert_eq!(parse_outbox_kind(""), Err(UnknownOutboxKind));
    assert_eq!(parse_outbox_kind("DELETE"), Err(UnknownOutboxKind));
}

#[test]
fn enqueue_assigns_sequential_identities() {
    let mut outbox = InMemoryOutboxRepository::new();
    let a = outbox.enqueue(1, OutboxKind::Upsert, sample_payload(1), 10);
    let b = outbox.enqueue(1, OutboxKind::Upsert, sample_payload(2), 11);
    let c = outbox.enqueue(2, OutboxKind::RevokeCapsule, sample_payload(3), 12);
    assert_eq!(a, 1);
    assert_eq!(b, 2);
    assert_eq!(c, 3);
}

#[test]
fn claim_marks_published_and_preserves_order() {
    let mut outbox = InMemoryOutboxRepository::new();
    outbox.enqueue(1, OutboxKind::Upsert, sample_payload(1), 10);
    outbox.enqueue(1, OutboxKind::Upsert, sample_payload(2), 11);

    let events = outbox.claim_batch(5, 20);
    assert_eq!(events.len(), 2);
    assert_eq!(events[0].id, 1);
    assert_eq!(events[1].id, 2);
    assert_eq!(events[0].created_at, 10);
    assert_eq!(events[0].published_at, Some(20));
    assert_eq!(events[1].published_at, Some(20));
}

#[test]
fn concurrent_claimers_never_share_an_event() {
    let mut outbox = InMemoryOutboxRepository::new();
    for n in 0..5u32 {
        outbox.enqueue(1, OutboxKind::Upsert, sample_payload(n), 10 + n as i64);
    }

    // two claimers with batch size 3: 2 * 3 >= 5, so together they must
    // drain the queue, each event claimed exactly once
    let first = outbox.claim_batch(3, 100);
    let second = outbox.claim_batch(3, 101);
    assert_eq!(first.len(), 3);
    assert_eq!(second.len(), 2);

    let mut ids: Vec<i64> = first.iter().chain(second.iter()).map(|e| e.id).collect();
    ids.sort();
    assert_eq!(ids, vec![1, 2, 3, 4, 5]);

    let third = outbox.claim_batch(3, 102);
    assert!(third.is_empty());
}

#[test]
fn mark_published_is_idempotent_noop() {
    let mut outbox = InMemoryOutboxRepository::new();
    outbox.enqueue(1, OutboxKind::Upsert, sample_payload(1), 10);
    let claimed = outbox.claim_batch(1, 20);
    let ids: Vec<i64> = claimed.iter().map(|e| e.id).collect();
    assert!(outbox.mark_published(&ids).is_ok());
    assert!(outbox.mark_published(&ids).is_ok());
}
