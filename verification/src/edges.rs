//! Directed, weighted edges between node identities within one tenant.
//! Edges only accumulate: there is no deletion or weight update, and
//! traversal answers a single hop.

use vstd::prelude::*;

use crate::node::{KnowledgeNode, NodePayload, NodeView, PayloadView};

verus! {

/// A directed relation between two node identities of one tenant. The
/// weight is a fixed-point integer; optional properties are carried as
/// opaque JSON text.
pub struct KnowledgeEdge {
    pub id: u64,
    pub tenant_id: u128,
    pub src: u128,
    pub dst: u128,
    pub rel: String,
    pub weight: i64,
    pub props: Option<String>,
    pub created_at: i64,
}

/// Mathematical model of an edge.
pub struct EdgeView {
    pub id: u64,
    pub tenant_id: u128,
    pub src: u128,
    pub dst: u128,
    pub rel: Seq<char>,
    pub weight: i64,
    pub props: Option<Seq<char>>,
    pub created_at: i64,
}

impl View for KnowledgeEdge {
    type V = EdgeView;

    open spec fn view(&self) -> EdgeView {
        EdgeView {
            id: self.id,
            tenant_id: self.tenant_id,
            src: self.src,
            dst: self.dst,
            rel: self.rel@,
            weight: self.weight,
            props: match self.props {
                Some(ref s) => Some(s@),
                None => None,
            },
            created_at: self.created_at,
        }
    }
}

impl Clone for KnowledgeEdge {
    fn clone(&self) -> (r: Self)
        ensures
            r@ == self@,
    {
        KnowledgeEdge {
            id: self.id,
            tenant_id: self.tenant_id,
            src: self.src,
            dst: self.dst,
            rel: self.rel.clone(),
            weight: self.weight,
            props: match &self.props {
                Some(s) => Some(s.clone()),
                None => None,
            },
            created_at: self.created_at,
        }
    }
}

/// Whether an edge is one that `neighbors` follows: owned by the tenant,
/// leaving `src`, and carrying the requested relation type if one was
/// asked for.
pub open spec fn edge_matches(e: EdgeView, tenant: u128, src: u128, rel: Option<Seq<char>>) -> bool {
    e.tenant_id == tenant && e.src == src && (match rel {
        None => true,
        Some(r) => e.rel == r,
    })
}

/// The edges `neighbors` follows, in insertion order.
pub open spec fn matching_edges(
    s: Seq<EdgeView>,
    tenant: u128,
    src: u128,
    rel: Option<Seq<char>>,
) -> Seq<EdgeView>
    decreases s.len(),
{
    if s.len() == 0 {
        Seq::empty()
    } else {
        let rest = matching_edges(s.drop_last(), tenant, src, rel);
        if edge_matches(s.last(), tenant, src, rel) {
            rest.push(s.last())
        } else {
            rest
        }
    }
}

/// The placeholder node a followed edge presents its target as: the target
/// identity under the edge's relation type, stamped with the edge's
/// creation instant.
pub open spec fn neighbor_of(e: EdgeView) -> NodeView {
    NodeView {
        id: e.dst,
        tenant_id: e.tenant_id,
        kind: e.rel,
        payload: PayloadView::Raw(Seq::empty()),
        vector: None,
        provenance: None,
        policy: None,
        created_at: e.created_at,
        updated_at: e.created_at,
    }
}

/// What a neighbors query returns: the targets of the first `limit`
/// matching edges.
pub open spec fn neighbors_model(
    s: Seq<EdgeView>,
    tenant: u128,
    src: u128,
    rel: Option<Seq<char>>,
    limit: int,
) -> Seq<NodeView> {
    let m = matching_edges(s, tenant, src, rel);
    let stop = if limit < m.len() {
        limit
    } else {
        m.len() as int
    };
    m.take(stop).map_values(|e: EdgeView| neighbor_of(e))
}

/// The models of a sequence of stored edges.
pub open spec fn edge_views(v: Seq<KnowledgeEdge>) -> Seq<EdgeView> {
    v.map_values(|e: KnowledgeEdge| e@)
}

/// The in-process edge store: every edge of every tenant in one
/// append-only collection with sequential identities.
pub struct InMemoryEdgeRepository {
    edges: Vec<KnowledgeEdge>,
    next_id: u64,
}

/// Mathematical model of the edge store.
pub struct EdgeStoreView {
    pub edges: Seq<EdgeView>,
    pub next_id: u64,
}

impl View for InMemoryEdgeRepository {
    type V = EdgeStoreView;

    closed spec fn view(&self) -> EdgeStoreView {
        EdgeStoreView { edges: edge_views(self.edges@), next_id: self.next_id }
    }
}

impl InMemoryEdgeRepository {
    /// An empty edge store; the first edge takes identity 1.
    pub fn new() -> (r: Self)
        ensures
            r@.edges =~= Seq::<EdgeView>::empty(),
            r@.next_id == 1,
    {
        let r = InMemoryEdgeRepository { edges: Vec::new(), next_id: 1 };
        proof {
            assert(r@.edges =~= Seq::<EdgeView>::empty());
        }
        r
    }

    /// Whether another edge can still take an identity: callers check this
    /// before linking.
    pub fn can_link(&self) -> (r: bool)
        ensures
            r == (self@.next_id < u64::MAX),
    {
        self.next_id < u64::MAX
    }

    /// Append a new edge row; edges are never updated in place, so linking
    /// the same pair again appends a second row.
    pub fn link(
        &mut self,
        tenant: u128,
        src: u128,
        dst: u128,
        rel: String,
        weight: i64,
        props: Option<String>,
        now: i64,
    )
        requires
            old(self)@.next_id < u64::MAX,
        ensures
            final(self)@.next_id == old(self)@.next_id + 1,
            final(self)@.edges == old(self)@.edges.push(
                EdgeView {
                    id: old(self)@.next_id,
                    tenant_id: tenant,
                    src,
                    dst,
                    rel: rel@,
                    weight,
                    props: (match props {
                        Some(ref s) => Some(s@),
                        None => None,
                    }),
                    created_at: now,
                },
            ),
    {
        let ghost e0 = self@.edges;
        let id = self.next_id;
        let edge = KnowledgeEdge { id, tenant_id: tenant, src, dst, rel, weight, props, created_at: now };
        let ghost ev = edge@;
        self.edges.push(edge);
        self.next_id = id + 1;
        proof {
            assert(self@.edges =~= e0.push(ev));
        }
    }

    /// The one-hop neighborhood of `id`: the targets of up to `limit`
    /// matching edges, each presented as a placeholder node under the
    /// edge's relation type. Deeper traversal is an extension point, not
    /// implemented here.
    pub fn neighbors(
        &self,
        tenant: u128,
        id: u128,
        rel: Option<&str>,
        limit: usize,
    ) -> (r: Vec<KnowledgeNode>)
        ensures
            crate::store::views_of(r@) == neighbors_model(
                self@.edges,
                tenant,
                id,
                (match rel {
                    Some(s) => Some(s@),
                    None => None,
                }),
                limit as int,
            ),
    {
        let ghost relv: Option<Seq<char>> = match rel {
            Some(s) => Some(s@),
            None => None,
        };
        let wanted: Option<String> = match rel {
            Some(s) => Some(s.to_owned()),
            None => None,
        };
        let mut out: Vec<KnowledgeNode> = Vec::new();
        let count = self.edges.len();
        let mut i: usize = 0;
        proof {
            assert(self@.edges.take(0) =~= Seq::<EdgeView>::empty());
            assert(crate::store::views_of(out@) =~= matching_edges(
                self@.edges.take(0),
                tenant,
                id,
                relv,
            ).take(0).map_values(|e: EdgeView| neighbor_of(e)));
        }
        while i < count
            invariant
                count == self.edges@.len(),
                i <= count,
                out@.len() <= limit,
                (match (wanted, relv) {
                    (Some(w), Some(rv)) => w@ == rv,
                    (None, None) => true,
                    _ => false,
                }),
                ({
                    let m = matching_edges(self@.edges.take(i as int), tenant, id, relv);
                    let stop = if (limit as int) < m.len() {
                        limit as int
                    } else {
                        m.len() as int
                    };
                    crate::store::views_of(out@) == m.take(stop).map_values(
                        |e: EdgeView| neighbor_of(e),
                    )
                }),
            decreases count - i,
        {
            let matched = self.edges[i].tenant_id == tenant && self.edges[i].src == id && (
            match &wanted {
                Some(w) => self.edges[i].rel == *w,
                None => true,
            });
            if matched && out.len() < limit {
                let e = &self.edges[i];
                let node = KnowledgeNode::new(
                    e.dst,
                    e.tenant_id,
                    e.rel.clone(),
                    NodePayload::Raw(String::new()),
                    e.created_at,
                );
                proof {
                    assert(node@ == neighbor_of(self@.edges[i as int]));
                }
                let ghost ov = crate::store::views_of(out@);
                out.push(node);
                proof {
                    assert(crate::store::views_of(out@) =~= ov.push(
                        neighbor_of(self@.edges[i as int]),
                    ));
                }
            }
            proof {
                let pre = self@.edges.take(i as int);
                let cur = self@.edges.take((i + 1) as int);
                assert(cur.drop_last() =~= pre);
                assert(cur.last() == self@.edges[i as int]);
                let m0 = matching_edges(pre, tenant, id, relv);
                let m1 = matching_edges(cur, tenant, id, relv);
                let stop1 = if (limit as int) < m1.len() {
                    limit as int
                } else {
                    m1.len() as int
                };
                if edge_matches(self@.edges[i as int], tenant, id, relv) && m0.len() < (limit as int) {
                    assert(m1.take(stop1) =~= m0.take(
                        if (limit as int) < m0.len() {
                            limit as int
                        } else {
                            m0.len() as int
                        },
                    ).push(self@.edges[i as int]));
                } else {
                    assert(m1.take(stop1) =~= m0.take(
                        if (limit as int) < m0.len() {
                            limit as int
                        } else {
                            m0.len() as int
                        },
                    ));
                }
                assert(crate::store::views_of(out@) =~= m1.take(stop1).map_values(
                    |e: EdgeView| neighbor_of(e),
                ));
            }
            i = i + 1;
        }
        proof {
            assert(self@.edges.take(count as int) =~= self@.edges);
        }
        out
    }
}

} // verus!
