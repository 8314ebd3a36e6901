//! The capsule artifact model: a cached-answer value with policy, provenance
//! and a time-to-live, materialized over a stored node's payload.
//!
//! Opaque JSON blobs (the answer, metrics, metadata) are carried as text;
//! timestamps are unix seconds.

use vstd::prelude::*;

verus! {

/// One provenance record of a capsule: where the answer came from.
pub struct CapsuleProvenance {
    pub source: String,
    pub hash: String,
    pub version: Option<String>,
    pub generated_at: Option<i64>,
}

/// Mathematical model of a provenance record.
pub struct ProvenanceView {
    pub source: Seq<char>,
    pub hash: Seq<char>,
    pub version: Option<Seq<char>>,
    pub generated_at: Option<i64>,
}

impl View for CapsuleProvenance {
    type V = ProvenanceView;

    open spec fn view(&self) -> ProvenanceView {
        ProvenanceView {
            source: self.source@,
            hash: self.hash@,
            version: match self.version {
                Some(ref s) => Some(s@),
                None => None,
            },
            generated_at: self.generated_at,
        }
    }
}

impl Clone for CapsuleProvenance {
    fn clone(&self) -> (r: Self)
        ensures
            r@ == self@,
    {
        CapsuleProvenance {
            source: self.source.clone(),
            hash: self.hash.clone(),
            version: match &self.version {
                Some(s) => Some(s.clone()),
                None => None,
            },
            generated_at: self.generated_at,
        }
    }
}

impl ProvenanceView {
    /// The record synthesized when a capsule arrives with no provenance.
    pub open spec fn empty() -> ProvenanceView {
        ProvenanceView { source: Seq::empty(), hash: Seq::empty(), version: None, generated_at: None }
    }
}

impl Default for CapsuleProvenance {
    /// An empty provenance record: blank source and hash, nothing else.
    fn default() -> (r: Self)
        ensures
            r@ == ProvenanceView::empty(),
    {
        CapsuleProvenance { source: String::new(), hash: String::new(), version: None, generated_at: None }
    }
}

/// The policy block of a capsule: owning tenant slug and compliance flags.
pub struct CapsulePolicy {
    pub tenant: String,
    pub phi: bool,
    pub pii: bool,
    pub region: Option<String>,
    pub compliance_tags: Vec<String>,
}

/// Mathematical model of a policy block.
pub struct PolicyView {
    pub tenant: Seq<char>,
    pub phi: bool,
    pub pii: bool,
    pub region: Option<Seq<char>>,
    pub compliance_tags: Seq<Seq<char>>,
}

impl View for CapsulePolicy {
    type V = PolicyView;

    open spec fn view(&self) -> PolicyView {
        PolicyView {
            tenant: self.tenant@,
            phi: self.phi,
            pii: self.pii,
            region: match self.region {
                Some(ref s) => Some(s@),
                None => None,
            },
            compliance_tags: self.compliance_tags.deep_view(),
        }
    }
}

impl Clone for CapsulePolicy {
    fn clone(&self) -> (r: Self)
        ensures
            r@ == self@,
    {
        let tags = self.compliance_tags.clone();
        proof {
            assert(tags.deep_view() =~= self.compliance_tags.deep_view());
        }
        CapsulePolicy {
            tenant: self.tenant.clone(),
            phi: self.phi,
            pii: self.pii,
            region: match &self.region {
                Some(s) => Some(s.clone()),
                None => None,
            },
            compliance_tags: tags,
        }
    }
}

impl PolicyView {
    /// The policy of a capsule that arrived without one: everything blank.
    pub open spec fn empty() -> PolicyView {
        PolicyView {
            tenant: Seq::empty(),
            phi: false,
            pii: false,
            region: None,
            compliance_tags: Seq::empty(),
        }
    }
}

impl Default for CapsulePolicy {
    /// A blank policy: empty tenant, no flags, no tags.
    fn default() -> (r: Self)
        ensures
            r@ == PolicyView::empty(),
    {
        let r = CapsulePolicy {
            tenant: String::new(),
            phi: false,
            pii: false,
            region: None,
            compliance_tags: Vec::new(),
        };
        proof {
            assert(r.compliance_tags.deep_view() =~= Seq::<Seq<char>>::empty());
        }
        r
    }
}

/// A capsule artifact: the cached answer plus policy, provenance, an
/// optional time-to-live in seconds, and a content hash.
pub struct CapsuleArtifact {
    /// The answer value, an opaque JSON text.
    pub answer: String,
    pub policy: CapsulePolicy,
    pub provenance: Vec<CapsuleProvenance>,
    /// Optional metrics, an opaque JSON text.
    pub metrics: Option<String>,
    pub ttl_seconds: Option<i64>,
    pub hash: String,
    /// Optional metadata, an opaque JSON text.
    pub metadata: Option<String>,
}

/// Mathematical model of a capsule artifact.
pub struct ArtifactView {
    pub answer: Seq<char>,
    pub policy: PolicyView,
    pub provenance: Seq<ProvenanceView>,
    pub metrics: Option<Seq<char>>,
    pub ttl_seconds: Option<i64>,
    pub hash: Seq<char>,
    pub metadata: Option<Seq<char>>,
}

impl View for CapsuleArtifact {
    type V = ArtifactView;

    open spec fn view(&self) -> ArtifactView {
        ArtifactView {
            answer: self.answer@,
            policy: self.policy@,
            provenance: self.provenance@.map_values(|p: CapsuleProvenance| p@),
            metrics: match self.metrics {
                Some(ref s) => Some(s@),
                None => None,
            },
            ttl_seconds: self.ttl_seconds,
            hash: self.hash@,
            metadata: match self.metadata {
                Some(ref s) => Some(s@),
                None => None,
            },
        }
    }
}

impl Clone for CapsuleArtifact {
    fn clone(&self) -> (r: Self)
        ensures
            r@ == self@,
    {
        let provenance = self.provenance.clone();
        proof {
            assert(provenance@.map_values(|p: CapsuleProvenance| p@) =~= self.provenance@.map_values(
                |p: CapsuleProvenance| p@,
            ));
        }
        CapsuleArtifact {
            answer: self.answer.clone(),
            policy: self.policy.clone(),
            provenance,
            metrics: match &self.metrics {
                Some(s) => Some(s.clone()),
                None => None,
            },
            ttl_seconds: self.ttl_seconds,
            hash: self.hash.clone(),
            metadata: match &self.metadata {
                Some(s) => Some(s.clone()),
                None => None,
            },
        }
    }
}

impl CapsuleArtifact {
    /// A capsule never carries an empty provenance list: a capsule without
    /// provenance gets one synthesized empty record.
    pub fn ensure_defaults(&mut self)
        ensures
            final(self)@ == (ArtifactView {
                provenance: if old(self)@.provenance.len() == 0 {
                    seq![ProvenanceView::empty()]
                } else {
                    old(self)@.provenance
                },
                ..old(self)@
            }),
    {
        if self.provenance.len() == 0 {
            self.provenance.push(CapsuleProvenance::default());
            proof {
                assert(self.provenance@.map_values(|p: CapsuleProvenance| p@) =~= seq![
                    ProvenanceView::empty(),
                ]);
            }
        }
    }
}

/// An inbound request to store a capsule under a key, optionally with an
/// absolute expiry instant.
pub struct CapsuleIngestRequest {
    pub key: String,
    pub artifact: CapsuleArtifact,
    pub expires_at: Option<i64>,
}

/// Mathematical model of an ingest request.
pub struct IngestRequestView {
    pub key: Seq<char>,
    pub artifact: ArtifactView,
    pub expires_at: Option<i64>,
}

impl View for CapsuleIngestRequest {
    type V = IngestRequestView;

    open spec fn view(&self) -> IngestRequestView {
        IngestRequestView { key: self.key@, artifact: self.artifact@, expires_at: self.expires_at }
    }
}

impl Clone for CapsuleIngestRequest {
    fn clone(&self) -> (r: Self)
        ensures
            r@ == self@,
    {
        CapsuleIngestRequest {
            key: self.key.clone(),
            artifact: self.artifact.clone(),
            expires_at: self.expires_at,
        }
    }
}

/// The outbound shape of a capsule lookup: the artifact plus the computed
/// expiry instant and the time-to-live still remaining at lookup time.
pub struct CapsuleLookupResponse {
    pub key: String,
    pub artifact: CapsuleArtifact,
    pub expires_at: Option<i64>,
    pub ttl_remaining_seconds: Option<i64>,
}

/// Mathematical model of a lookup response.
pub struct LookupResponseView {
    pub key: Seq<char>,
    pub artifact: ArtifactView,
    pub expires_at: Option<i64>,
    pub ttl_remaining_seconds: Option<i64>,
}

impl View for CapsuleLookupResponse {
    type V = LookupResponseView;

    open spec fn view(&self) -> LookupResponseView {
        LookupResponseView {
            key: self.key@,
            artifact: self.artifact@,
            expires_at: self.expires_at,
            ttl_remaining_seconds: self.ttl_remaining_seconds,
        }
    }
}

/// The difference `expires_at - reference`, clamped below at zero and above
/// at `i64::MAX`: the number of whole seconds from `reference` until the
/// expiry, as far as an `i64` can carry it.
pub open spec fn spec_seconds_until(expires_at: i64, reference: i64) -> i64 {
    if expires_at - reference < 0 {
        0i64
    } else if expires_at - reference > i64::MAX {
        i64::MAX
    } else {
        (expires_at - reference) as i64
    }
}

/// Seconds from `reference` until `expires_at`, clamped at zero (an expiry
/// in the past yields zero, never a negative count).
pub fn seconds_until(expires_at: i64, reference: i64) -> (r: i64)
    ensures
        r == spec_seconds_until(expires_at, reference),
{
    match expires_at.checked_sub(reference) {
        Some(d) => if d < 0 {
            0
        } else {
            d
        },
        None => if expires_at < reference {
            // underflow: expires_at far below reference
            0
        } else {
            i64::MAX
        },
    }
}

/// The instant `updated_at + ttl` seconds, saturating at the `i64` range.
pub open spec fn spec_expiry_of_ttl(updated_at: i64, ttl: i64) -> i64 {
    if updated_at + ttl > i64::MAX {
        i64::MAX
    } else if updated_at + ttl < i64::MIN {
        i64::MIN
    } else {
        (updated_at + ttl) as i64
    }
}

/// The absolute expiry instant derived from a base instant and a
/// time-to-live in seconds.
pub fn expiry_of_ttl(updated_at: i64, ttl: i64) -> (r: i64)
    ensures
        r == spec_expiry_of_ttl(updated_at, ttl),
{
    match updated_at.checked_add(ttl) {
        Some(s) => s,
        None => if ttl > 0 {
            i64::MAX
        } else {
            i64::MIN
        },
    }
}

/// Time-to-live and absolute expiry are two representations of the same
/// fact: deriving one from the other and back reproduces the original,
/// whenever the sum stays inside the `i64` range and the time-to-live is
/// not negative.
pub proof fn lemma_ttl_expiry_duality(updated_at: i64, ttl: i64)
    requires
        0 <= ttl,
        updated_at + ttl <= i64::MAX,
    ensures
        spec_seconds_until(spec_expiry_of_ttl(updated_at, ttl), updated_at) == ttl,
{
}

/// The other direction of the duality: an expiry at or after the base
/// instant is reproduced exactly by deriving its time-to-live and adding it
/// back, whenever the distance between the two instants fits in an `i64`.
pub proof fn lemma_expiry_ttl_duality(expires_at: i64, updated_at: i64)
    requires
        updated_at <= expires_at,
        expires_at - updated_at <= i64::MAX,
    ensures
        spec_expiry_of_ttl(updated_at, spec_seconds_until(expires_at, updated_at)) == expires_at,
{
}

} // verus!
