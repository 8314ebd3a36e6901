use synagraph::node::{KnowledgeNode, NodePayload, UpsertOutcome};
use synagraph::store::InMemoryNodeRepository;

fn raw_node(id: u128, tenant: u128, kind: &str, text: &str, now: i64) -> KnowledgeNode {
    KnowledgeNode::new(id, tenant, kind.to_string(), NodePayload::Raw(text.to_string()), now)
}

#[test]
fn new_initializes_fields() {
    let tenant: u128 = 42;
    let node = KnowledgeNode::new(
        7,
        tenant,
        "test".to_string(),
        NodePayload::Raw("{\"foo\": \"bar\"}".to_string()),
        100,
    );

    assert_eq!(node.tenant_id, tenant);
    assert_eq!(node.kind, "test");
    assert!(matches!(&node.payload, NodePayload::Raw(text) if text == "{\"foo\": \"bar\"}"));
    assert!(node.vector.is_none());
    assert!(node.provenance.is_none());
}

#[test]
fn touch_updates_timestamp() {
    let tenant: u128 = 42;
    let mut node = KnowledgeNode::new(9, tenant, "note".to_string(), NodePayload::Raw("{}".to_string()), 50);
    let original = node.updated_at;
    node.touch(51);
    assert!(node.updated_at >= original);
}

#[test]
fn upsert_inserts_and_updates_nodes() {
    let mut repo = InMemoryNodeRepository::new();
    let tenant: u128 = 1;

    let node = raw_node(11, tenant, "note", "{\"title\": \"hello\"}", 10);
    let outcome = repo.upsert(tenant, node.clone(), 10);
    assert!(matches!(outcome, UpsertOutcome::Created));

    let mut updated_node = node.clone();
    updated_node.payload = NodePayload::Raw("{\"title\": \"updated\"}".to_string());
    let outcome = repo.upsert(tenant, updated_node.clone(), 11);
    assert!(matches!(outcome, UpsertOutcome::Updated));

    let fetched = repo.get(tenant, node.id);
    assert!(fetched.is_some());
    assert!(matches!(
        &fetched.unwrap().payload,
        NodePayload::Raw(text) if text == "{\"title\": \"updated\"}"
    ));
}

#[test]
fn query_by_kind_respects_cursor() {
    let mut repo = InMemoryNodeRepository::new();
    let tenant: u128 = 2;

    let mut ids = Vec::new();
    let mut now: i64 = 0;
    for (n, title) in ["a", "b", "c"].iter().enumerate() {
        now += 1;
        let id = 100 + n as u128;
        let node = raw_node(id, tenant, "note", &format!("{{\"title\": \"{}\"}}", title), now);
        ids.push(id);
        repo.upsert(tenant, node, now);
    }

    let first_page = repo.query_by_kind(tenant, "note", 2, None);
    assert_eq!(first_page.len(), 2);

    let cursor = first_page.last().unwrap().id;
    let second_page = repo.query_by_kind(tenant, "note", 2, Some(cursor));
    assert_eq!(second_page.len(), 1);
}

#[test]
fn upsert_preserves_created_at() {
    let mut repo = InMemoryNodeRepository::new();
    let tenant: u128 = 3;
    let node = raw_node(5, tenant, "note", "{}", 100);
    repo.upsert(tenant, node.clone(), 100);
    let second = repo.upsert(tenant, node, 200);
    assert!(matches!(second, UpsertOutcome::Updated));
    let fetched = repo.get(tenant, 5).unwrap();
    assert_eq!(fetched.created_at, 100);
    assert_eq!(fetched.updated_at, 200);
}

#[test]
fn get_under_other_tenant_is_absent() {
    let mut repo = InMemoryNodeRepository::new();
    let t1: u128 = 10;
    let t2: u128 = 20;
    let node = raw_node(77, t1, "note", "{}", 1);
    repo.upsert(t1, node, 1);
    assert!(repo.get(t1, 77).is_some());
    assert!(repo.get(t2, 77).is_none());
}

#[test]
fn pages_concatenate_to_full_listing() {
    let mut repo = InMemoryNodeRepository::new();
    let tenant: u128 = 4;
    for n in 0..5u128 {
        let node = raw_node(200 + n, tenant, "doc", "{}", 1 + n as i64);
        repo.upsert(tenant, node, 1 + n as i64);
    }

    let full: Vec<u128> = repo
        .query_by_kind(tenant, "doc", 100, None)
        .iter()
        .map(|n| n.id)
        .collect();
    assert_eq!(full.len(), 5);

    let mut paged: Vec<u128> = Vec::new();
    let mut cursor: Option<u128> = None;
    loop {
        let page = repo.query_by_kind(tenant, "doc", 2, cursor);
        if page.is_empty() {
            break;
        }
        cursor = Some(page.last().unwrap().id);
        paged.extend(page.iter().map(|n| n.id));
    }
    assert_eq!(paged, full);
}

#[test]
fn query_orders_by_created_at_then_id() {
    let mut repo = InMemoryNodeRepository::new();
    let tenant: u128 = 5;
    repo.upsert(tenant, raw_node(302, tenant, "k", "{}", 7), 7);
    repo.upsert(tenant, raw_node(301, tenant, "k", "{}", 7), 7);
    repo.upsert(tenant, raw_node(300, tenant, "k", "{}", 3), 3);
    let listing: Vec<u128> = repo
        .query_by_kind(tenant, "k", 10, None)
        .iter()
        .map(|n| n.id)
        .collect();
    assert_eq!(listing, vec![300, 301, 302]);
}

#[test]
fn delete_by_key_is_terminal() {
    let mut repo = InMemoryNodeRepository::new();
    let tenant: u128 = 6;
    assert!(repo.delete_by_key(tenant, "missing").is_none());
    assert!(repo.health_check().is_ok());
}

#[test]
fn keyset_cursor_ignores_earlier_inserts() {
    let mut repo = InMemoryNodeRepository::new();
    let tenant: u128 = 7;
    repo.upsert(tenant, raw_node(401, tenant, "doc", "{}", 10), 10);
    repo.upsert(tenant, raw_node(402, tenant, "doc", "{}", 20), 20);
    repo.upsert(tenant, raw_node(403, tenant, "doc", "{}", 30), 30);

    let first_page = repo.query_by_kind(tenant, "doc", 2, None);
    let cursor = first_page.last().unwrap().id;
    assert_eq!(cursor, 402);

    // a node sorting before the cursor arrives between the two pages: it
    // is invisible to the next page, and the page is neither duplicated
    // nor shifted
    repo.upsert(tenant, raw_node(400, tenant, "doc", "{}", 5), 5);
    // one sorting after the cursor arrives too: it joins a later page
    repo.upsert(tenant, raw_node(404, tenant, "doc", "{}", 40), 40);

    let second_page: Vec<u128> = repo
        .query_by_kind(tenant, "doc", 2, Some(cursor))
        .iter()
        .map(|n| n.id)
        .collect();
    assert_eq!(second_page, vec![403, 404]);
}

#[test]
fn unknown_cursor_restarts_from_the_top() {
    let mut repo = InMemoryNodeRepository::new();
    let tenant: u128 = 8;
    repo.upsert(tenant, raw_node(500, tenant, "doc", "{}", 1), 1);
    repo.upsert(tenant, raw_node(501, tenant, "doc", "{}", 2), 2);
    let page: Vec<u128> = repo
        .query_by_kind(tenant, "doc", 10, Some(999))
        .iter()
        .map(|n| n.id)
        .collect();
    assert_eq!(page, vec![500, 501]);
}
