//! Evidence, signals, decisions, and the verification report.

use vstd::prelude::*;

use crate::digest::{ascii_bytes, ascii_seq, domain_digest, Sha256Digest};
use crate::error::CoreError;
use crate::identity::{opt_view, ComponentId, ComponentRef};
use crate::sort::{stable_sort, stable_sorted, text_lt, text_lt_exec, views_of, Precedes};
use crate::text::chars_of;

verus! {

/// Attributable evidence category.
#[derive(Clone, Copy, Debug, PartialEq, Eq, Structural, Hash, PartialOrd, Ord)]
pub enum EvidenceKind {
    /// Package-registry source or owner metadata.
    Registry,
    /// Repository metadata/history.
    Repository,
    /// Official project documentation reference.
    Documentation,
    /// Domain relationship.
    Domain,
    /// Release/tag signature.
    Signature,
    /// SLSA/Sigstore-style provenance.
    Provenance,
    /// Fork or rename lineage.
    Lineage,
    /// Content/instruction similarity.
    Similarity,
    /// Local lock or policy fact.
    LocalTrust,
    /// Provider unavailable, malformed, or rate limited.
    Unavailable,
}

pub open spec fn kind_rank(k: EvidenceKind) -> nat {
    match k {
        EvidenceKind::Registry => 0,
        EvidenceKind::Repository => 1,
        EvidenceKind::Documentation => 2,
        EvidenceKind::Domain => 3,
        EvidenceKind::Signature => 4,
        EvidenceKind::Provenance => 5,
        EvidenceKind::Lineage => 6,
        EvidenceKind::Similarity => 7,
        EvidenceKind::LocalTrust => 8,
        EvidenceKind::Unavailable => 9,
    }
}

impl EvidenceKind {
    pub fn rank(&self) -> (r: u8)
        ensures
            r == kind_rank(*self),
    {
        match self {
            EvidenceKind::Registry => 0,
            EvidenceKind::Repository => 1,
            EvidenceKind::Documentation => 2,
            EvidenceKind::Domain => 3,
            EvidenceKind::Signature => 4,
            EvidenceKind::Provenance => 5,
            EvidenceKind::Lineage => 6,
            EvidenceKind::Similarity => 7,
            EvidenceKind::LocalTrust => 8,
            EvidenceKind::Unavailable => 9,
        }
    }

    /// The variant's name, as `{:?}` prints it.
    pub fn name(&self) -> (s: &'static str)
        ensures
            s@ == kind_name(*self),
    {
        match self {
            EvidenceKind::Registry => "Registry",
            EvidenceKind::Repository => "Repository",
            EvidenceKind::Documentation => "Documentation",
            EvidenceKind::Domain => "Domain",
            EvidenceKind::Signature => "Signature",
            EvidenceKind::Provenance => "Provenance",
            EvidenceKind::Lineage => "Lineage",
            EvidenceKind::Similarity => "Similarity",
            EvidenceKind::LocalTrust => "LocalTrust",
            EvidenceKind::Unavailable => "Unavailable",
        }
    }
}

pub open spec fn kind_name(k: EvidenceKind) -> Seq<char> {
    match k {
        EvidenceKind::Registry => "Registry"@,
        EvidenceKind::Repository => "Repository"@,
        EvidenceKind::Documentation => "Documentation"@,
        EvidenceKind::Domain => "Domain"@,
        EvidenceKind::Signature => "Signature"@,
        EvidenceKind::Provenance => "Provenance"@,
        EvidenceKind::Lineage => "Lineage"@,
        EvidenceKind::Similarity => "Similarity"@,
        EvidenceKind::LocalTrust => "LocalTrust"@,
        EvidenceKind::Unavailable => "Unavailable"@,
    }
}

/// Strength of an evidence claim, not an aggregate risk score.
#[derive(Clone, Copy, Debug, PartialEq, Eq, Structural, Hash, PartialOrd, Ord)]
pub enum EvidenceStrength {
    /// Informational and not identity-establishing alone.
    Weak,
    /// Independently useful but not authoritative alone.
    Supporting,
    /// Direct statement by a relevant authority.
    Strong,
    /// Cryptographically or locally pinned trust root.
    Authoritative,
}

/// A UTC instant: seconds since the Unix epoch and a sub-second part.
#[derive(Clone, Copy, Debug, PartialEq, Eq, Structural, Hash, PartialOrd, Ord)]
pub struct Timestamp {
    pub seconds: i64,
    pub nanos: u32,
}

/// Nanoseconds since the Unix epoch.
pub open spec fn nanos_of(t: Timestamp) -> int {
    t.seconds * 1_000_000_000 + t.nanos
}

impl Timestamp {
    /// Nanoseconds from `earlier` to `self`.
    pub fn nanos_since(&self, earlier: &Timestamp) -> (d: i128)
        ensures
            d == nanos_of(*self) - nanos_of(*earlier),
    {
        let a = (self.seconds as i128) * 1_000_000_000i128 + (self.nanos as i128);
        let b = (earlier.seconds as i128) * 1_000_000_000i128 + (earlier.nanos as i128);
        a - b
    }

    /// `self` shifted by `seconds`, when that stays representable.
    pub fn plus_seconds(&self, seconds: i64) -> (r: Option<Timestamp>)
        ensures
            match r {
                Some(t) => t.seconds == self.seconds + seconds && t.nanos == self.nanos,
                None => self.seconds + seconds > i64::MAX || self.seconds + seconds < i64::MIN,
            },
    {
        match self.seconds.checked_add(seconds) {
            Some(s) => Some(Timestamp { seconds: s, nanos: self.nanos }),
            None => None,
        }
    }
}

/// One source-attributed identity or security fact.
#[derive(Clone, Debug, PartialEq, Eq)]
pub struct Evidence {
    /// Stable evidence category.
    pub kind: EvidenceKind,
    /// URL, registry, manifest, policy, or lock source.
    pub source: String,
    /// Human-readable bounded claim.
    pub claim: String,
    /// Identity weight of this fact.
    pub strength: EvidenceStrength,
    /// Observation time.
    pub observed_at: Timestamp,
    /// Optional cache expiry.
    pub expires_at: Option<Timestamp>,
    /// Non-sensitive structured facts, ordered by key.
    pub metadata: Vec<(String, String)>,
}

pub ghost struct EvidenceView {
    pub kind: EvidenceKind,
    pub source: Seq<char>,
    pub claim: Seq<char>,
    pub strength: EvidenceStrength,
    pub observed_at: Timestamp,
    pub expires_at: Option<Timestamp>,
    pub metadata: Seq<(Seq<char>, Seq<char>)>,
}

pub open spec fn pairs_view(m: Seq<(String, String)>) -> Seq<(Seq<char>, Seq<char>)> {
    m.map_values(|p: (String, String)| (p.0@, p.1@))
}

impl View for Evidence {
    type V = EvidenceView;

    open spec fn view(&self) -> EvidenceView {
        EvidenceView {
            kind: self.kind,
            source: self.source@,
            claim: self.claim@,
            strength: self.strength,
            observed_at: self.observed_at,
            expires_at: self.expires_at,
            metadata: pairs_view(self.metadata@),
        }
    }
}

/// Ordered signal severity.
#[derive(Clone, Copy, Debug, PartialEq, Eq, Structural, Hash, PartialOrd, Ord)]
pub enum Severity {
    /// Context only.
    Info,
    /// Low-confidence or low-impact issue.
    Low,
    /// Review-worthy issue.
    Medium,
    /// Unsafe without explicit review.
    High,
    /// Non-bypassable invariant violation.
    Critical,
}

pub open spec fn sev_rank(s: Severity) -> nat {
    match s {
        Severity::Info => 0,
        Severity::Low => 1,
        Severity::Medium => 2,
        Severity::High => 3,
        Severity::Critical => 4,
    }
}

impl Severity {
    pub fn rank(&self) -> (r: u8)
        ensures
            r == sev_rank(*self),
    {
        match self {
            Severity::Info => 0,
            Severity::Low => 1,
            Severity::Medium => 2,
            Severity::High => 3,
            Severity::Critical => 4,
        }
    }
}

/// Stable machine-readable finding.
#[derive(Clone, Debug, PartialEq, Eq)]
pub struct Signal {
    /// Stable code such as `RS-IDENTITY-MISMATCH`.
    pub code: String,
    /// Severity.
    pub severity: Severity,
    /// Safe explanation.
    pub message: String,
    /// Optional evidence-source reference.
    pub evidence_source: Option<String>,
    /// Safe next action.
    pub remediation: String,
}

pub ghost struct SignalView {
    pub code: Seq<char>,
    pub severity: Severity,
    pub message: Seq<char>,
    pub evidence_source: Option<Seq<char>>,
    pub remediation: Seq<char>,
}

impl View for Signal {
    type V = SignalView;

    open spec fn view(&self) -> SignalView {
        SignalView {
            code: self.code@,
            severity: self.severity,
            message: self.message@,
            evidence_source: opt_view(self.evidence_source),
            remediation: self.remediation@,
        }
    }
}

pub open spec fn signals_view(s: Seq<Signal>) -> Seq<SignalView> {
    views_of(s)
}

pub open spec fn evidence_view(s: Seq<Evidence>) -> Seq<EvidenceView> {
    views_of(s)
}

/// Final enforcement decision.
#[derive(Clone, Copy, Debug, PartialEq, Eq, Structural, Hash)]
pub enum Decision {
    /// Identity and policy checks are sufficiently established.
    Verified,
    /// Explicit human or enterprise review is required.
    Review,
    /// Acquisition must not execute.
    Blocked,
}

/// Coarse risk label for display and policy thresholds.
#[derive(Clone, Copy, Debug, PartialEq, Eq, Structural, Hash, PartialOrd, Ord)]
pub enum Risk {
    /// No material unresolved signal.
    Low,
    /// Review is prudent.
    Medium,
    /// Unsafe without explicit approval.
    High,
    /// Invariant violation.
    Critical,
}

// ---------------------------------------------------------------------------
// Report order
// ---------------------------------------------------------------------------

/// Signals come most severe first, then by code, then by message.
pub open spec fn signal_precedes(a: SignalView, b: SignalView) -> bool {
    sev_rank(a.severity) > sev_rank(b.severity) || (sev_rank(a.severity) == sev_rank(b.severity)
        && (text_lt(a.code, b.code) || (a.code == b.code && text_lt(a.message, b.message))))
}

/// Evidence comes by kind, then by source, then by claim.
pub open spec fn evidence_precedes(a: EvidenceView, b: EvidenceView) -> bool {
    kind_rank(a.kind) < kind_rank(b.kind) || (kind_rank(a.kind) == kind_rank(b.kind) && (text_lt(
        a.source,
        b.source,
    ) || (a.source == b.source && text_lt(a.claim, b.claim))))
}

fn text_eq(a: &[char], b: &[char]) -> (r: bool)
    ensures
        r == (a@ == b@),
{
    crate::text::chars_eq(a, b)
}

impl Precedes for Signal {
    open spec fn order() -> spec_fn(SignalView, SignalView) -> bool {
        |a: SignalView, b: SignalView| signal_precedes(a, b)
    }

    fn precedes_exec(&self, other: &Self) -> (r: bool) {
        let a = self.severity.rank();
        let b = other.severity.rank();
        if a != b {
            return a > b;
        }
        let ac = chars_of(self.code.as_str());
        let bc = chars_of(other.code.as_str());
        if text_lt_exec(ac.as_slice(), bc.as_slice()) {
            return true;
        }
        if !text_eq(ac.as_slice(), bc.as_slice()) {
            return false;
        }
        let am = chars_of(self.message.as_str());
        let bm = chars_of(other.message.as_str());
        text_lt_exec(am.as_slice(), bm.as_slice())
    }
}

impl Precedes for Evidence {
    open spec fn order() -> spec_fn(EvidenceView, EvidenceView) -> bool {
        |a: EvidenceView, b: EvidenceView| evidence_precedes(a, b)
    }

    fn precedes_exec(&self, other: &Self) -> (r: bool) {
        let a = self.kind.rank();
        let b = other.kind.rank();
        if a != b {
            return a < b;
        }
        let asrc = chars_of(self.source.as_str());
        let bsrc = chars_of(other.source.as_str());
        if text_lt_exec(asrc.as_slice(), bsrc.as_slice()) {
            return true;
        }
        if !text_eq(asrc.as_slice(), bsrc.as_slice()) {
            return false;
        }
        let ac = chars_of(self.claim.as_str());
        let bc = chars_of(other.claim.as_str());
        text_lt_exec(ac.as_slice(), bc.as_slice())
    }
}

fn clone_opt_string(o: &Option<String>) -> (r: Option<String>)
    ensures
        opt_view(r) == opt_view(*o),
{
    match o {
        Some(s) => Some(s.clone()),
        None => None,
    }
}

impl Signal {
    /// A copy of this signal.
    pub fn duplicate(&self) -> (r: Signal)
        ensures
            r@ == self@,
    {
        Signal {
            code: self.code.clone(),
            severity: self.severity,
            message: self.message.clone(),
            evidence_source: clone_opt_string(&self.evidence_source),
            remediation: self.remediation.clone(),
        }
    }
}

/// A copy of every signal of `v`, in order.
pub fn clone_signals(v: &Vec<Signal>) -> (out: Vec<Signal>)
    ensures
        signals_view(out@) == signals_view(v@),
{
    let mut out: Vec<Signal> = Vec::new();
    let mut i: usize = 0;
    while i < v.len()
        invariant
            i <= v.len(),
            signals_view(out@) == signals_view(v@).take(i as int),
        decreases v.len() - i,
    {
        let x = v[i].duplicate();
        let ghost o = signals_view(out@);
        out.push(x);
        proof {
            assert(signals_view(out@) =~= o.push(v@[i as int]@));
            assert(signals_view(v@).take(i + 1) =~= signals_view(v@).take(i as int).push(
                v@[i as int]@,
            ));
        }
        i += 1;
    }
    proof {
        assert(signals_view(v@).take(v.len() as int) =~= signals_view(v@));
    }
    out
}

/// Signals in report order.
pub open spec fn sorted_signals(s: Seq<SignalView>) -> Seq<SignalView> {
    stable_sorted(s, Signal::order())
}

/// Evidence in report order.
pub open spec fn sorted_evidence(s: Seq<EvidenceView>) -> Seq<EvidenceView> {
    stable_sorted(s, Evidence::order())
}

// ---------------------------------------------------------------------------
// Verification report
// ---------------------------------------------------------------------------

/// Stable verification report consumed by every integration.
#[derive(Clone, Debug, PartialEq, Eq)]
pub struct VerificationReport {
    /// Schema version.
    pub schema_version: u16,
    /// Correlation identifier.
    pub request_id: String,
    /// Exact normalized request.
    pub request: ComponentRef,
    /// Likely authoritative component, when established.
    pub canonical: Option<ComponentRef>,
    /// Final policy result.
    pub decision: Decision,
    /// Display risk.
    pub risk: Risk,
    /// Ordered findings.
    pub signals: Vec<Signal>,
    /// Ordered attributable evidence.
    pub evidence: Vec<Evidence>,
    /// Time of decision.
    pub evaluated_at: Timestamp,
    /// Canonical hash of all preceding report fields.
    pub report_hash: Sha256Digest,
}

pub open spec fn opt_component_view(c: Option<ComponentRef>) -> Option<ComponentId> {
    match c {
        Some(x) => Some(x@),
        None => None,
    }
}

/// The placeholder hash a report carries until it is sealed.
pub open spec fn placeholder_hash() -> Seq<char> {
    domain_digest(ascii_seq("report-placeholder/v1"@), Seq::<u8>::empty())
}

pub open spec fn report_domain() -> Seq<u8> {
    ascii_seq("verification-report/v1"@)
}

impl VerificationReport {
    /// Creates an unsealed report: signals and evidence are put in their
    /// deterministic order and the hash is a placeholder until `seal`.
    pub fn new(
        request: ComponentRef,
        canonical: Option<ComponentRef>,
        decision: Decision,
        risk: Risk,
        signals: Vec<Signal>,
        evidence: Vec<Evidence>,
        request_id: String,
        evaluated_at: Timestamp,
    ) -> (r: Self)
        ensures
            r.schema_version == 1,
            r.request_id@ == request_id@,
            r.request@ == request@,
            opt_component_view(r.canonical) == opt_component_view(canonical),
            r.decision == decision,
            r.risk == risk,
            signals_view(r.signals@) == sorted_signals(signals_view(signals@)),
            evidence_view(r.evidence@) == sorted_evidence(evidence_view(evidence@)),
            r.evaluated_at == evaluated_at,
            r.report_hash@ == placeholder_hash(),
    {
        let sorted_signals = stable_sort(signals);
        let sorted_evidence = stable_sort(evidence);
        proof {
            reveal_strlit("report-placeholder/v1");
        }
        let tag = ascii_bytes("report-placeholder/v1");
        let empty: Vec<u8> = Vec::new();
        let placeholder = Sha256Digest::domain(tag.as_slice(), empty.as_slice());
        proof {
            assert(empty@ =~= Seq::<u8>::empty());
        }
        VerificationReport {
            schema_version: 1,
            request_id,
            request,
            canonical,
            decision,
            risk,
            signals: sorted_signals,
            evidence: sorted_evidence,
            evaluated_at,
            report_hash: placeholder,
        }
    }

    /// The report hash for the canonical JSON of every other field.
    pub fn compute_hash(canonical_fields: &[u8]) -> (d: Sha256Digest)
        ensures
            d@ == domain_digest(report_domain(), canonical_fields@),
    {
        proof {
            reveal_strlit("verification-report/v1");
        }
        let tag = ascii_bytes("verification-report/v1");
        Sha256Digest::domain(tag.as_slice(), canonical_fields)
    }

    /// Binds the canonical JSON of every other field into `report_hash`.
    pub fn seal(&mut self, canonical_fields: &[u8])
        ensures
            final(self).report_hash@ == domain_digest(report_domain(), canonical_fields@),
            final(self).schema_version == old(self).schema_version,
            final(self).request_id == old(self).request_id,
            final(self).request == old(self).request,
            final(self).canonical == old(self).canonical,
            final(self).decision == old(self).decision,
            final(self).risk == old(self).risk,
            final(self).signals == old(self).signals,
            final(self).evidence == old(self).evidence,
            final(self).evaluated_at == old(self).evaluated_at,
    {
        self.report_hash = Self::compute_hash(canonical_fields);
    }

    /// Verifies report integrity against the canonical JSON of its fields.
    pub fn verify_hash(&self, canonical_fields: &[u8]) -> (r: Result<(), CoreError>)
        ensures
            r is Ok <==> self.report_hash@ == domain_digest(report_domain(), canonical_fields@),
            r matches Err(e) ==> e == CoreError::HashMismatch,
    {
        let d = Self::compute_hash(canonical_fields);
        if d.same_as(&self.report_hash) {
            Ok(())
        } else {
            Err(CoreError::HashMismatch)
        }
    }
}

} // verus!
