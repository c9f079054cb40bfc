use reposeal::identity::{ComponentRef, Ecosystem};
use reposeal::policy::{
    CompiledPolicy, Defaults, Mode, PolicyDocument, PolicyError, Rules, UnresolvedAction,
};
use reposeal::report::{
    Decision, Evidence, EvidenceKind, EvidenceStrength, Risk, Severity, Signal, Timestamp,
};
use reposeal::resolver::Resolution;

fn now() -> Timestamp {
    Timestamp { seconds: 1_700_000_000, nanos: 0 }
}

fn requested() -> ComponentRef {
    ComponentRef::new(Ecosystem::Github, "astral-sh/uv", None)
        .unwrap_or_else(|error| panic!("{error:?}"))
}

fn strong_resolution() -> Resolution {
    Resolution {
        canonical: Some(requested()),
        evidence: vec![Evidence {
            kind: EvidenceKind::Repository,
            source: "fixture".to_owned(),
            claim: "established repository".to_owned(),
            strength: EvidenceStrength::Strong,
            observed_at: now(),
            expires_at: None,
            metadata: Vec::new(),
        }],
        signals: Vec::new(),
        hallusquat_candidates: Vec::new(),
    }
}

fn evaluate(resolution: Resolution, locked: bool) -> reposeal::report::VerificationReport {
    CompiledPolicy::secure_default().evaluate(
        requested(),
        resolution,
        locked,
        "request".to_owned(),
        now(),
    )
}

fn document(allow: Vec<String>, deny: Vec<String>) -> PolicyDocument {
    PolicyDocument {
        api_version: "reposeal.dev/v1".to_owned(),
        kind: "RepoSealPolicy".to_owned(),
        defaults: Defaults {
            mode: Mode::Enforce,
            unresolved: UnresolvedAction::Block,
            block_high: false,
            require_lock_offline: true,
            require_strong_sandbox: true,
        },
        rules: Rules {
            allow_components: allow,
            deny_components: deny,
            deny_owners: Vec::new(),
            deny_domains: Vec::new(),
            trusted_domains: Vec::new(),
        },
    }
}

#[test]
fn strong_matching_identity_is_verified() {
    let mut report = evaluate(strong_resolution(), false);
    assert_eq!(report.decision, Decision::Verified);
    report.seal(b"{\"canonical\":\"fields\"}");
    assert!(report.verify_hash(b"{\"canonical\":\"fields\"}").is_ok());
}

#[test]
fn critical_signal_cannot_be_allowlisted_away() {
    let mut resolution = strong_resolution();
    resolution.signals.push(Signal {
        code: "RS-IDENTITY-MISMATCH".to_owned(),
        severity: Severity::Critical,
        message: "wrong owner".to_owned(),
        evidence_source: None,
        remediation: "use canonical".to_owned(),
    });
    let report = evaluate(resolution, true);
    assert_eq!(report.decision, Decision::Blocked);
}

#[test]
fn unresolved_defaults_to_block() {
    let report = evaluate(Resolution::empty(), false);
    assert_eq!(report.decision, Decision::Blocked);
}

#[test]
fn unknown_policy_fields_and_allow_deny_conflict_fail() {
    let conflict = document(
        vec!["github:owner/project".to_owned()],
        vec!["github:owner/project".to_owned()],
    );
    assert!(CompiledPolicy::from_document(conflict).is_err());
}

#[test]
fn valid_document_compiles_and_is_kept() {
    let policy = CompiledPolicy::from_document(document(Vec::new(), Vec::new()))
        .unwrap_or_else(|error| panic!("{error:?}"));
    assert_eq!(policy.document().kind, "RepoSealPolicy");
}

#[test]
fn wrong_api_version_is_a_validation_error() {
    let mut doc = document(Vec::new(), Vec::new());
    doc.api_version = "reposeal.dev/v2".to_owned();
    assert!(matches!(
        CompiledPolicy::from_document(doc),
        Err(PolicyError::Validation(_))
    ));
}

#[test]
fn explicitly_denied_component_is_blocked() {
    let policy = CompiledPolicy::from_document(document(
        Vec::new(),
        vec!["github:astral-sh/uv".to_owned()],
    ))
    .unwrap_or_else(|error| panic!("{error:?}"));
    let report = policy.evaluate(requested(), strong_resolution(), true, "r".to_owned(), now());
    assert_eq!(report.decision, Decision::Blocked);
    assert!(report
        .signals
        .iter()
        .any(|s| s.code == "RS-POLICY-COMPONENT-DENIED" && s.severity == Severity::Critical));
}

#[test]
fn verified_reports_are_low_risk_and_high_signals_need_review() {
    let report = evaluate(strong_resolution(), false);
    assert_eq!(report.risk, Risk::Low);
    let mut resolution = strong_resolution();
    resolution.signals.push(Signal {
        code: "RS-LIFECYCLE".to_owned(),
        severity: Severity::High,
        message: "install script".to_owned(),
        evidence_source: None,
        remediation: "review".to_owned(),
    });
    let report = evaluate(resolution, false);
    assert_eq!(report.decision, Decision::Review);
    assert_eq!(report.risk, Risk::High);
}

#[test]
fn unresolved_request_gains_the_unresolved_signal() {
    let report = evaluate(Resolution::empty(), false);
    assert!(report
        .signals
        .iter()
        .any(|s| s.code == "RS-CANONICAL-UNRESOLVED" && s.severity == Severity::High));
}

#[test]
fn allowlisted_request_without_canonical_is_not_unresolved() {
    let policy = CompiledPolicy::from_document(document(
        vec!["github:astral-sh/uv".to_owned()],
        Vec::new(),
    ))
    .unwrap_or_else(|error| panic!("{error:?}"));
    let report = policy.evaluate(requested(), Resolution::empty(), false, "r".to_owned(), now());
    assert_eq!(report.decision, Decision::Verified);
}
