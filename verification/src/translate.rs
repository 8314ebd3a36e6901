//! Capsule translation: a stored node's payload read back as a capsule
//! lookup response (with derived expiry and remaining time-to-live), and an
//! inbound capsule request turned into a storable node with a stable,
//! content-addressed identity.

use vstd::prelude::*;

use crate::capsule::{
    spec_expiry_of_ttl, spec_seconds_until, ArtifactView, CapsuleIngestRequest,
    CapsuleLookupResponse, CapsuleProvenance, expiry_of_ttl, seconds_until, IngestRequestView,
    LookupResponseView, PolicyView, ProvenanceView,
};
use crate::ident::{derive_capsule_id, spec_decimal, stable_capsule_id, u128_to_decimal};
use crate::node::{KnowledgeNode, NodePayload, NodeView, PayloadView};

verus! {

/// Why a capsule operation was rejected. Validation never partially
/// applies: a rejected capsule is not stored.
#[derive(Clone, Copy, PartialEq, Eq, Structural, Debug)]
pub enum CapsuleError {
    /// The node's payload does not carry a capsule.
    NotACapsule,
    /// The ingest request carries no `policy.tenant`.
    MissingPolicyTenant,
    /// The ingest request carries no `artifact.hash`.
    MissingArtifactHash,
}

/// A provenance list as the lookup path presents it: never empty.
pub open spec fn defaulted_provenance(prov: Seq<ProvenanceView>) -> Seq<ProvenanceView> {
    if prov.len() == 0 {
        seq![ProvenanceView::empty()]
    } else {
        prov
    }
}

/// What reading a node back as a capsule yields: the stored request with
/// provenance defaulted to one empty record, an empty policy tenant
/// defaulted to `default`, a missing hash substituted by the node's
/// identity rendered in decimal, the expiry and time-to-live derived from
/// each other against the node's update instant, and the remaining
/// time-to-live recomputed against `now`.
pub open spec fn lookup_model(n: NodeView, now: i64) -> Result<LookupResponseView, CapsuleError> {
    match n.payload {
        PayloadView::Raw(_) => Err(CapsuleError::NotACapsule),
        PayloadView::Capsule(req) => Ok(
            {
                let prov = defaulted_provenance(req.artifact.provenance);
                let tenant = if req.artifact.policy.tenant.len() == 0 {
                    "default"@
                } else {
                    req.artifact.policy.tenant
                };
                let hash = if req.artifact.hash.len() == 0 {
                    spec_decimal(n.id as int)
                } else {
                    req.artifact.hash
                };
                let expires_at = match req.expires_at {
                    Some(e) => Some(e),
                    None => match req.artifact.ttl_seconds {
                        Some(t) => Some(spec_expiry_of_ttl(n.updated_at, t)),
                        None => None,
                    },
                };
                let ttl = match req.artifact.ttl_seconds {
                    Some(t) => Some(t),
                    None => match expires_at {
                        Some(e) => Some(spec_seconds_until(e, n.updated_at)),
                        None => None,
                    },
                };
                LookupResponseView {
                    key: req.key,
                    artifact: ArtifactView {
                        provenance: prov,
                        policy: PolicyView { tenant, ..req.artifact.policy },
                        hash,
                        ttl_seconds: ttl,
                        ..req.artifact
                    },
                    expires_at,
                    ttl_remaining_seconds: match expires_at {
                        Some(e) => Some(spec_seconds_until(e, now)),
                        None => None,
                    },
                }
            },
        ),
    }
}

/// The node an ingest request stores: content-addressed identity derived
/// from `(key, hash)`, kind tag `capsule`, the request itself as payload
/// (with provenance defaulted), and policy and provenance denormalized
/// beside it so lookup needs no join. Requests without a policy tenant or
/// a content hash are rejected, never partially applied.
pub open spec fn ingest_node_model(req: IngestRequestView, tenant: u128, now: i64) -> Result<
    NodeView,
    CapsuleError,
> {
    if req.artifact.policy.tenant.len() == 0 {
        Err(CapsuleError::MissingPolicyTenant)
    } else if req.artifact.hash.len() == 0 {
        Err(CapsuleError::MissingArtifactHash)
    } else {
        let prov = defaulted_provenance(req.artifact.provenance);
        let stored = IngestRequestView {
            artifact: ArtifactView { provenance: prov, ..req.artifact },
            ..req
        };
        Ok(
            NodeView {
                id: stable_capsule_id(req.key, req.artifact.hash),
                tenant_id: tenant,
                kind: "capsule"@,
                payload: PayloadView::Capsule(stored),
                vector: None,
                provenance: Some(prov),
                policy: Some(req.artifact.policy),
                created_at: now,
                updated_at: now,
            },
        )
    }
}

impl CapsuleLookupResponse {
    /// Read a stored node back as a capsule, deriving expiry and remaining
    /// time-to-live at the lookup instant `now`. A node whose payload is
    /// not a capsule is rejected.
    pub fn from_node(node: &KnowledgeNode, now: i64) -> (r: Result<Self, CapsuleError>)
        ensures
            match (r, lookup_model(node@, now)) {
                (Ok(resp), Ok(m)) => resp@ == m,
                (Err(e), Err(em)) => e == em,
                _ => false,
            },
    {
        match &node.payload {
            NodePayload::Raw(_) => Err(CapsuleError::NotACapsule),
            NodePayload::Capsule(req) => {
                let mut artifact = req.artifact.clone();
                artifact.ensure_defaults();
                if artifact.policy.tenant.as_str().is_empty() {
                    artifact.policy.tenant = String::from_str("default");
                }
                if artifact.hash.as_str().is_empty() {
                    artifact.hash = u128_to_decimal(node.id);
                }
                let expires_at: Option<i64> = match req.expires_at {
                    Some(e) => Some(e),
                    None => match artifact.ttl_seconds {
                        Some(t) => Some(expiry_of_ttl(node.updated_at, t)),
                        None => None,
                    },
                };
                let ttl: Option<i64> = match artifact.ttl_seconds {
                    Some(t) => Some(t),
                    None => match expires_at {
                        Some(e) => Some(seconds_until(e, node.updated_at)),
                        None => None,
                    },
                };
                artifact.ttl_seconds = ttl;
                let ttl_remaining_seconds: Option<i64> = match expires_at {
                    Some(e) => Some(seconds_until(e, now)),
                    None => None,
                };
                Ok(
                    CapsuleLookupResponse {
                        key: req.key.clone(),
                        artifact,
                        expires_at,
                        ttl_remaining_seconds,
                    },
                )
            },
        }
    }
}

impl CapsuleIngestRequest {
    /// Turn this request into a storable node owned by `tenant`, with a
    /// deterministic identity derived from the key and content hash, so
    /// that re-ingesting an unchanged capsule updates in place instead of
    /// inserting a duplicate.
    pub fn into_node(self, tenant_id: u128, now: i64) -> (r: Result<KnowledgeNode, CapsuleError>)
        ensures
            match (r, ingest_node_model(self@, tenant_id, now)) {
                (Ok(node), Ok(m)) => node@ == m,
                (Err(e), Err(em)) => e == em,
                _ => false,
            },
    {
        let mut capsule = self;
        capsule.artifact.ensure_defaults();
        if capsule.artifact.policy.tenant.as_str().is_empty() {
            return Err(CapsuleError::MissingPolicyTenant);
        }
        if capsule.artifact.hash.as_str().is_empty() {
            return Err(CapsuleError::MissingArtifactHash);
        }
        let id = derive_capsule_id(capsule.key.as_str(), capsule.artifact.hash.as_str());
        let policy = capsule.artifact.policy.clone();
        let provenance = capsule.artifact.provenance.clone();
        proof {
            assert(provenance@.map_values(|p: CapsuleProvenance| p@)
                =~= capsule.artifact.provenance@.map_values(|p: CapsuleProvenance| p@));
        }
        Ok(
            KnowledgeNode {
                id,
                tenant_id,
                kind: String::from_str("capsule"),
                payload: NodePayload::Capsule(capsule),
                vector: None,
                provenance: Some(provenance),
                policy: Some(policy),
                created_at: now,
                updated_at: now,
            },
        )
    }
}

} // verus!
