//! The knowledge node: the fundamental vertex persisted by every backend.

use vstd::prelude::*;

use crate::capsule::{
    ArtifactView, CapsuleIngestRequest, CapsulePolicy, CapsuleProvenance, IngestRequestView,
    PolicyView, ProvenanceView,
};

verus! {

/// What a node's payload holds: either a structured capsule request (the
/// shape the capsule flows read back), or an opaque JSON text that this
/// crate only carries through.
pub enum NodePayload {
    Capsule(CapsuleIngestRequest),
    Raw(String),
}

/// Mathematical model of a node payload.
pub enum PayloadView {
    Capsule(IngestRequestView),
    Raw(Seq<char>),
}

impl View for NodePayload {
    type V = PayloadView;

    open spec fn view(&self) -> PayloadView {
        match self {
            NodePayload::Capsule(req) => PayloadView::Capsule(req@),
            NodePayload::Raw(text) => PayloadView::Raw(text@),
        }
    }
}

impl Clone for NodePayload {
    fn clone(&self) -> (r: Self)
        ensures
            r@ == self@,
    {
        match self {
            NodePayload::Capsule(req) => NodePayload::Capsule(req.clone()),
            NodePayload::Raw(text) => NodePayload::Raw(text.clone()),
        }
    }
}

/// A typed vertex owned by exactly one tenant. Identity and tenant are
/// 128-bit values; timestamps are unix seconds; the optional vector holds
/// fixed-point coordinates for similarity search.
pub struct KnowledgeNode {
    pub id: u128,
    pub tenant_id: u128,
    pub kind: String,
    pub payload: NodePayload,
    pub vector: Option<Vec<i32>>,
    pub provenance: Option<Vec<CapsuleProvenance>>,
    pub policy: Option<CapsulePolicy>,
    pub created_at: i64,
    pub updated_at: i64,
}

/// Mathematical model of a knowledge node.
pub struct NodeView {
    pub id: u128,
    pub tenant_id: u128,
    pub kind: Seq<char>,
    pub payload: PayloadView,
    pub vector: Option<Seq<i32>>,
    pub provenance: Option<Seq<ProvenanceView>>,
    pub policy: Option<PolicyView>,
    pub created_at: i64,
    pub updated_at: i64,
}

impl View for KnowledgeNode {
    type V = NodeView;

    open spec fn view(&self) -> NodeView {
        NodeView {
            id: self.id,
            tenant_id: self.tenant_id,
            kind: self.kind@,
            payload: self.payload@,
            vector: match self.vector {
                Some(ref v) => Some(v@),
                None => None,
            },
            provenance: match self.provenance {
                Some(ref p) => Some(p@.map_values(|r: CapsuleProvenance| r@)),
                None => None,
            },
            policy: match self.policy {
                Some(ref p) => Some(p@),
                None => None,
            },
            created_at: self.created_at,
            updated_at: self.updated_at,
        }
    }
}

impl Clone for KnowledgeNode {
    fn clone(&self) -> (r: Self)
        ensures
            r@ == self@,
    {
        let vector = match &self.vector {
            Some(v) => {
                let c = v.clone();
                proof {
                    assert(c@ =~= v@);
                }
                Some(c)
            },
            None => None,
        };
        let provenance = match &self.provenance {
            Some(p) => {
                let c = p.clone();
                proof {
                    assert(c@.map_values(|r: CapsuleProvenance| r@) =~= p@.map_values(
                        |r: CapsuleProvenance| r@,
                    ));
                }
                Some(c)
            },
            None => None,
        };
        KnowledgeNode {
            id: self.id,
            tenant_id: self.tenant_id,
            kind: self.kind.clone(),
            payload: self.payload.clone(),
            vector,
            provenance,
            policy: match &self.policy {
                Some(p) => Some(p.clone()),
                None => None,
            },
            created_at: self.created_at,
            updated_at: self.updated_at,
        }
    }
}

impl NodeView {
    /// The capsule key this node is stored under, if its payload is a
    /// capsule; nodes with opaque payloads have no key.
    pub open spec fn key(self) -> Option<Seq<char>> {
        match self.payload {
            PayloadView::Capsule(req) => Some(req.key),
            PayloadView::Raw(_) => None,
        }
    }

    /// The content hash of the capsule carried by this node, if any.
    pub open spec fn capsule_hash(self) -> Option<Seq<char>> {
        match self.payload {
            PayloadView::Capsule(req) => Some(req.artifact.hash),
            PayloadView::Raw(_) => None,
        }
    }
}

impl KnowledgeNode {
    /// A fresh node: both timestamps start at `now`, no vector, no
    /// denormalized policy or provenance.
    pub fn new(id: u128, tenant_id: u128, kind: String, payload: NodePayload, now: i64) -> (r: Self)
        ensures
            r@ == (NodeView {
                id,
                tenant_id,
                kind: kind@,
                payload: payload@,
                vector: None,
                provenance: None,
                policy: None,
                created_at: now,
                updated_at: now,
            }),
    {
        KnowledgeNode {
            id,
            tenant_id,
            kind,
            payload,
            vector: None,
            provenance: None,
            policy: None,
            created_at: now,
            updated_at: now,
        }
    }

    /// Record a write at `now`: the update timestamp moves forward, and
    /// nothing else changes. `created_at` is immutable after first write,
    /// and `updated_at` never moves backwards.
    pub fn touch(&mut self, now: i64)
        requires
            old(self).updated_at <= now,
        ensures
            final(self)@ == (NodeView { updated_at: now, ..old(self)@ }),
    {
        self.updated_at = now;
    }
}

/// Whether a node upsert inserted a fresh row or replaced an existing one.
#[derive(Clone, Copy, PartialEq, Eq, Structural, Debug)]
pub enum UpsertOutcome {
    Created,
    Updated,
}

} // verus!
