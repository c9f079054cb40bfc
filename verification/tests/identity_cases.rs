use std::str::FromStr;

use reposeal::digest::Sha256Digest;
use reposeal::error::CoreError;
use reposeal::identity::{parse_component, ComponentRef, Ecosystem};

#[test]
fn parses_and_normalizes_supported_identities() {
    let cases = [
        ("https://github.com/Astral-SH/uv.git", "github:astral-sh/uv"),
        ("git@github.com:astral-sh/uv.git", "github:astral-sh/uv"),
        (
            "npm:@ModelContextProtocol/sdk@1.2.3",
            "npm:@modelcontextprotocol/sdk@1.2.3",
        ),
        ("pypi:Foo_Bar@2.0", "pypi:foo-bar@2.0"),
        ("cargo:serde@1.0.0", "cargo:serde@1.0.0"),
        (
            "go:golang.org/x/tools@v0.1.0",
            "go:golang.org/x/tools@v0.1.0",
        ),
        (
            "skill:Example/Security-Review",
            "skill:example/security-review",
        ),
    ];
    for (input, expected) in cases {
        let parsed = ComponentRef::from_str(input)
            .unwrap_or_else(|error| panic!("{input}: {error:?}"));
        assert_eq!(parsed.id(), expected);
    }
}

#[test]
fn rejects_ambiguous_or_unsafe_references() {
    for input in [
        "http://github.com/owner/project",
        "https://user@github.com/owner/project",
        "github:owner/project/extra",
        "github:owner/../project",
        "url:http://example.com/install.sh",
        "npm:Package With Spaces",
    ] {
        assert!(ComponentRef::from_str(input).is_err(), "{input}");
    }
}

#[test]
fn github_owner_project_is_explicit() {
    let component = ComponentRef::new(Ecosystem::Github, "owner/project", None)
        .unwrap_or_else(|error| panic!("{error:?}"));
    assert_eq!(component.owner_project(), Some(("owner", "project")));
}

#[test]
fn reference_errors_name_their_cause() {
    assert_eq!(parse_component("   ").unwrap_err(), CoreError::InvalidReference);
    assert_eq!(
        parse_component("svn:owner/project").unwrap_err(),
        CoreError::UnsupportedEcosystem
    );
    assert_eq!(
        parse_component("github:owner/project/extra").unwrap_err(),
        CoreError::InvalidName
    );
    assert_eq!(
        parse_component("url:http://example.com/install.sh").unwrap_err(),
        CoreError::InvalidUrl
    );
    assert_eq!(
        ComponentRef::new(Ecosystem::Npm, "pkg", Some("1 0".to_owned())).unwrap_err(),
        CoreError::InvalidVersion
    );
}

#[test]
fn identity_round_trips_through_its_id() {
    let first = parse_component("pypi:Foo_Bar@2.0").unwrap_or_else(|error| panic!("{error:?}"));
    let again = parse_component(&first.id()).unwrap_or_else(|error| panic!("{error:?}"));
    assert_eq!(again.id(), first.id());
    assert_eq!(again.id(), "pypi:foo-bar@2.0");
}

#[test]
fn pypi_names_collapse_separators() {
    let c = ComponentRef::new(Ecosystem::Pypi, "__Foo._bar__", None)
        .unwrap_or_else(|error| panic!("{error:?}"));
    assert_eq!(c.id(), "pypi:foo-bar");
}

#[test]
fn digest_text_is_prefixed_hex_and_parses_back() {
    let d = Sha256Digest::domain(b"test", b"payload");
    assert_eq!(d.as_str().len(), 71);
    assert!(d.as_str().starts_with("sha256:"));
    let parsed = Sha256Digest::parse(d.as_str()).unwrap_or_else(|error| panic!("{error:?}"));
    assert!(parsed.same_as(&d));
    assert_eq!(
        Sha256Digest::parse("sha256:XYZ").unwrap_err(),
        CoreError::InvalidDigest
    );
}

#[test]
fn digest_domains_separate_equal_payloads() {
    let a = Sha256Digest::domain(b"one", b"payload");
    let b = Sha256Digest::domain(b"two", b"payload");
    assert!(!a.same_as(&b));
    // The framing of an empty domain and payload is fixed, so its digest is too.
    let empty = Sha256Digest::domain(b"", b"");
    assert_eq!(empty.as_str(), Sha256Digest::domain(b"", b"").as_str());
}

#[test]
fn domain_digest_matches_the_framed_sha256() {
    let d = Sha256Digest::domain(b"test", b"payload");
    assert_eq!(
        d.as_str(),
        "sha256:ba7e931e86877acf901f55f1a88af87ae175e1256cffc96e94a66c2fac1ef2ac"
    );
}

#[test]
fn component_ids_parse_back_to_the_component_built() {
    let cases = [
        (Ecosystem::Npm, "@Scope/Pkg", Some("1.2.3")),
        (Ecosystem::Npm, "left-pad", None),
        (Ecosystem::Cargo, "Serde_JSON", Some("1.0")),
        (Ecosystem::Go, "GitHub.com/spf13/cobra", None),
        (Ecosystem::Github, "Astral-SH/uv", None),
        (Ecosystem::Skill, "Example/Security-Review", Some("0.4.0")),
        (Ecosystem::Pypi, "Foo__Bar.baz", Some("2.0")),
        (Ecosystem::Url, "https://example.com/install.sh", None),
    ];
    for (ecosystem, name, version) in cases {
        let built = ComponentRef::new(ecosystem, name, version.map(str::to_owned))
            .unwrap_or_else(|error| panic!("{error:?}"));
        let parsed = parse_component(&built.id()).unwrap_or_else(|error| panic!("{error:?}"));
        assert_eq!(parsed, built);
    }
}

#[test]
fn an_at_sign_inside_an_npm_name_is_read_as_a_version() {
    let built = ComponentRef::new(Ecosystem::Npm, "a@b", None)
        .unwrap_or_else(|error| panic!("{error:?}"));
    let parsed = parse_component(&built.id()).unwrap_or_else(|error| panic!("{error:?}"));
    assert_eq!(parsed.name, "a");
    assert_eq!(parsed.version.as_deref(), Some("b"));
}

#[test]
fn a_pypi_name_of_separators_only_is_refused() {
    assert_eq!(
        ComponentRef::new(Ecosystem::Pypi, "-._", None).unwrap_err(),
        CoreError::InvalidName
    );
    assert_eq!(parse_component("pypi:-").unwrap_err(), CoreError::InvalidName);
}

#[test]
fn rebuilding_from_the_normalized_name_gives_the_same_component() {
    let cases = [
        (Ecosystem::Github, "/Astral-SH/uv/", None),
        (Ecosystem::Npm, " @Scope/Pkg ", Some("1.2.3")),
        (Ecosystem::Pypi, "__Foo._bar__", None),
        (Ecosystem::Cargo, "Serde_JSON", Some("1.0")),
        (Ecosystem::Go, "GitHub.com/spf13/cobra/", None),
        (Ecosystem::Url, "https://example.com/install.sh/", None),
    ];
    for (ecosystem, name, version) in cases {
        let built = ComponentRef::new(ecosystem, name, version.map(str::to_owned))
            .unwrap_or_else(|error| panic!("{error:?}"));
        let again = ComponentRef::new(ecosystem, &built.name, built.version.clone())
            .unwrap_or_else(|error| panic!("{error:?}"));
        assert_eq!(again, built);
    }
    let spaced = ComponentRef::new(Ecosystem::Url, "https://x.invalid/a /", None)
        .unwrap_or_else(|error| panic!("{error:?}"));
    assert_eq!(spaced.name, "https://x.invalid/a ");
    let again = ComponentRef::new(Ecosystem::Url, &spaced.name, None)
        .unwrap_or_else(|error| panic!("{error:?}"));
    assert_eq!(again.name, "https://x.invalid/a");
}
