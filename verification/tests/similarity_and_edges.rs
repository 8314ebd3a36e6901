use synagraph::bus::{InMemoryBus, InMemoryCache};
use synagraph::edges::InMemoryEdgeRepository;
use synagraph::embeddings::{InMemoryEmbeddingRepository, NodeEmbedding};
use synagraph::node::{KnowledgeNode, NodePayload};
use synagraph::similarity::dot_product;
use synagraph::store::InMemoryNodeRepository;

fn vector_node(id: u128, tenant: u128, coords: Vec<i32>, now: i64) -> KnowledgeNode {
    let mut node = KnowledgeNode::new(id, tenant, "vec".to_string(), NodePayload::Raw("{}".to_string()), now);
    node.vector = Some(coords);
    node
}

#[test]
fn similarity_ranks_by_dot_product() {
    let mut repo = InMemoryNodeRepository::new();
    let tenant: u128 = 1;
    // the vectors [1, 0], [0, 1] and [0.9, 0.1], in tenths
    repo.upsert(tenant, vector_node(1, tenant, vec![10, 0], 1), 1);
    repo.upsert(tenant, vector_node(2, tenant, vec![0, 10], 2), 2);
    repo.upsert(tenant, vector_node(3, tenant, vec![9, 1], 3), 3);

    // query [1, 0]: scores 100, 0 and 90 — limit 2 keeps the first and the
    // third node, in that order, and excludes the second
    let query = vec![10, 0];
    let results = repo.search_similar(tenant, &query, 2);
    let ids: Vec<u128> = results.iter().map(|n| n.id).collect();
    assert_eq!(ids, vec![1, 3]);
}

#[test]
fn empty_query_vector_yields_empty() {
    let mut repo = InMemoryNodeRepository::new();
    let tenant: u128 = 1;
    repo.upsert(tenant, vector_node(1, tenant, vec![10, 0], 1), 1);
    let query: Vec<i32> = vec![];
    assert!(repo.search_similar(tenant, &query, 5).is_empty());
}

#[test]
fn nodes_without_vectors_are_not_candidates() {
    let mut repo = InMemoryNodeRepository::new();
    let tenant: u128 = 1;
    let plain = KnowledgeNode::new(9, tenant, "vec".to_string(), NodePayload::Raw("{}".to_string()), 1);
    repo.upsert(tenant, plain, 1);
    repo.upsert(tenant, vector_node(1, tenant, vec![5, 5], 2), 2);
    let query = vec![1, 1];
    let ids: Vec<u128> = repo.search_similar(tenant, &query, 10).iter().map(|n| n.id).collect();
    assert_eq!(ids, vec![1]);
}

#[test]
fn equal_scores_keep_store_order() {
    let mut repo = InMemoryNodeRepository::new();
    let tenant: u128 = 1;
    repo.upsert(tenant, vector_node(4, tenant, vec![3, 0], 1), 1);
    repo.upsert(tenant, vector_node(5, tenant, vec![3, 0], 2), 2);
    let query = vec![2, 0];
    let ids: Vec<u128> = repo.search_similar(tenant, &query, 10).iter().map(|n| n.id).collect();
    assert_eq!(ids, vec![4, 5]);
}

#[test]
fn dot_product_truncates_to_common_prefix() {
    assert_eq!(dot_product(&vec![1, 2, 3], &vec![4, 5]), 14);
    assert_eq!(dot_product(&vec![], &vec![4, 5]), 0);
    assert_eq!(dot_product(&vec![i32::MAX, i32::MIN], &vec![i32::MAX, i32::MAX]),
        (i32::MAX as i128) * (i32::MAX as i128) + (i32::MIN as i128) * (i32::MAX as i128));
}

#[test]
fn neighbors_follows_matching_edges() {
    let mut edges = InMemoryEdgeRepository::new();
    let tenant: u128 = 1;
    edges.link(tenant, 10, 20, "RELATED".to_string(), 100, None, 5);
    edges.link(tenant, 10, 30, "CITES".to_string(), 100, None, 6);
    edges.link(tenant, 11, 40, "RELATED".to_string(), 100, None, 7);

    let all = edges.neighbors(tenant, 10, None, 10);
    let targets: Vec<u128> = all.iter().map(|n| n.id).collect();
    assert_eq!(targets, vec![20, 30]);

    let related = edges.neighbors(tenant, 10, Some("RELATED"), 10);
    assert_eq!(related.len(), 1);
    assert_eq!(related[0].id, 20);
    assert_eq!(related[0].kind, "RELATED");

    let limited = edges.neighbors(tenant, 10, None, 1);
    assert_eq!(limited.len(), 1);
}

#[test]
fn neighbors_respects_tenant() {
    let mut edges = InMemoryEdgeRepository::new();
    edges.link(1, 10, 20, "RELATED".to_string(), 100, None, 5);
    assert!(edges.neighbors(2, 10, None, 10).is_empty());
}

#[test]
fn embedding_store_is_inert() {
    let repo = InMemoryEmbeddingRepository::new();
    let embedding = NodeEmbedding {
        node_id: 1,
        tenant_id: 1,
        model: "small".to_string(),
        dim: 2,
        vec: vec![1, 2],
        created_at: 1,
    };
    assert!(repo.upsert_embedding(1, embedding).is_ok());
    assert!(repo.get_embeddings(1, 1).unwrap().is_empty());
}

#[test]
fn cache_and_bus_are_inert() {
    let cache = InMemoryCache::default();
    assert_eq!(cache.get(1, "k"), Ok(None));
    assert!(cache.set(1, "k", "v", 60).is_ok());
    assert!(cache.purge(1, "k").is_ok());

    let bus = InMemoryBus::default();
    assert!(bus.publish("topic", "{}").is_ok());
    let mut sub = bus.subscribe("topic").unwrap();
    assert_eq!(sub.try_next(), Ok(None));
}
