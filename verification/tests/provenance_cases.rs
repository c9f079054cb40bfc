use reposeal::identity::ComponentRef;
use reposeal::provenance::{
    instruction_hash, AttestationPolicy, CapabilityManifest, CapabilityPermissions,
    ExternalVerification, ManifestMetadata, ProvenanceError,
};

const CANONICAL_MANIFEST: &[u8] = br#"{"apiVersion":"reposeal.dev/v1","dependencies":[],"domains":["astral.sh"],"identities":["github:astral-sh/uv","pypi:uv"],"kind":"CapabilityManifest","metadata":{"name":"uv","version":"1"},"permissions":{"environmentRead":[],"filesystem":["project","cache"],"network":["pypi.org"],"shell":false},"provenance":[]}"#;

fn manifest() -> CapabilityManifest {
    CapabilityManifest {
        api_version: "reposeal.dev/v1".to_owned(),
        kind: "CapabilityManifest".to_owned(),
        metadata: ManifestMetadata { name: "uv".to_owned(), version: "1".to_owned() },
        identities: vec!["github:astral-sh/uv".to_owned(), "pypi:uv".to_owned()],
        domains: vec!["astral.sh".to_owned()],
        dependencies: Vec::new(),
        permissions: CapabilityPermissions {
            filesystem: vec!["project".to_owned(), "cache".to_owned()],
            network: vec!["pypi.org".to_owned()],
            environment_read: Vec::new(),
            shell: false,
        },
        provenance: Vec::new(),
    }
}

#[test]
fn strict_manifest_hash_and_identity_are_deterministic() {
    let manifest = manifest();
    assert!(manifest.validate().is_ok());
    let first = CapabilityManifest::digest(CANONICAL_MANIFEST);
    let second = CapabilityManifest::digest(CANONICAL_MANIFEST);
    assert!(first.same_as(&second));
    let component: ComponentRef = "github:astral-sh/uv"
        .parse()
        .unwrap_or_else(|error| panic!("{error:?}"));
    assert!(manifest.declares(&component));
}

#[test]
fn external_verification_must_bind_trusted_identity_manifest_and_commit() {
    let policy = AttestationPolicy {
        issuers: vec!["https://token.actions.githubusercontent.com".to_owned()],
        subjects: vec!["repo:astral-sh/uv:ref:refs/heads/main".to_owned()],
    };
    let result = ExternalVerification {
        signature_verified: true,
        issuer: "https://token.actions.githubusercontent.com".to_owned(),
        subject: "repo:astral-sh/uv:ref:refs/heads/main".to_owned(),
        manifest_digest: CapabilityManifest::digest(CANONICAL_MANIFEST),
        commit: "38b94d4".to_owned(),
        log_index: Some(42),
    };
    assert!(policy.authorize(&result, CANONICAL_MANIFEST, "38b94d4").is_ok());
    assert!(policy.authorize(&result, CANONICAL_MANIFEST, "different").is_err());
}

#[test]
fn instruction_hash_normalizes_line_endings_but_not_content() {
    let windows = instruction_hash(b"# Skill\r\nRun safe tool\r\n")
        .unwrap_or_else(|error| panic!("{error:?}"));
    let unix =
        instruction_hash(b"# Skill\nRun safe tool\n").unwrap_or_else(|error| panic!("{error:?}"));
    assert!(windows.same_as(&unix));
    let safe = instruction_hash(b"Run safe tool").unwrap_or_else(|error| panic!("{error:?}"));
    let unsafe_hash =
        instruction_hash(b"Run unsafe tool").unwrap_or_else(|error| panic!("{error:?}"));
    assert!(!safe.same_as(&unsafe_hash));
}

#[test]
fn instruction_hash_maps_lone_carriage_returns_and_refuses_invalid_utf8() {
    let lone = instruction_hash(b"a\rb").unwrap_or_else(|error| panic!("{error:?}"));
    let unix = instruction_hash(b"a\nb").unwrap_or_else(|error| panic!("{error:?}"));
    assert!(lone.same_as(&unix));
    assert_eq!(instruction_hash(&[0xff, 0xfe]).unwrap_err(), ProvenanceError::InvalidUtf8);
}

#[test]
fn attestation_errors_name_their_cause() {
    let policy = AttestationPolicy {
        issuers: vec!["issuer".to_owned()],
        subjects: vec!["subject".to_owned()],
    };
    let mut result = ExternalVerification {
        signature_verified: false,
        issuer: "issuer".to_owned(),
        subject: "subject".to_owned(),
        manifest_digest: CapabilityManifest::digest(CANONICAL_MANIFEST),
        commit: "c".to_owned(),
        log_index: None,
    };
    assert_eq!(
        policy.authorize(&result, CANONICAL_MANIFEST, "c").unwrap_err(),
        ProvenanceError::SignatureNotVerified
    );
    result.signature_verified = true;
    result.subject = "other".to_owned();
    assert_eq!(
        policy.authorize(&result, CANONICAL_MANIFEST, "c").unwrap_err(),
        ProvenanceError::UntrustedIdentity
    );
    result.subject = "subject".to_owned();
    assert_eq!(
        policy.authorize(&result, b"{}", "c").unwrap_err(),
        ProvenanceError::AttestationBinding
    );
}

#[test]
fn manifest_validation_errors_name_their_cause() {
    let mut m = manifest();
    m.kind = "Other".to_owned();
    assert_eq!(m.validate().unwrap_err(), ProvenanceError::InvalidSchema);
    let mut m = manifest();
    m.identities = Vec::new();
    assert_eq!(m.validate().unwrap_err(), ProvenanceError::InvalidMetadata);
    let mut m = manifest();
    m.identities = vec!["github:Astral-SH/uv".to_owned()];
    assert_eq!(
        m.validate().unwrap_err(),
        ProvenanceError::InvalidIdentity("github:Astral-SH/uv".to_owned())
    );
    let mut m = manifest();
    m.domains = vec!["bad domain".to_owned()];
    assert_eq!(
        m.validate().unwrap_err(),
        ProvenanceError::InvalidDomain("bad domain".to_owned())
    );
}
