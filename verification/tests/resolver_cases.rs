use reposeal::resolver::{search_outcome, ResolveError};
use std::str::FromStr;

use reposeal::identity::{ComponentRef, Ecosystem};
use reposeal::report::{Severity, Timestamp};
use reposeal::resolver::{
    apply_identity_comparison, crates_api_url, github_api_url, github_identity_from_repository_url,
    github_search_url, go_versions_url, hallusquat_candidates, has_lifecycle_scripts,
    npm_registry_url, pypi_json_url, GithubProfile, Resolution, MAX_HALLUSQUAT_CANDIDATES,
};

#[test]
fn candidate_generation_is_bounded_deterministic_and_transferable() {
    let requested = ComponentRef::new(Ecosystem::Github, "astral-sh/uv", None)
        .unwrap_or_else(|error| panic!("{error:?}"));
    let first = hallusquat_candidates(&requested);
    let second = hallusquat_candidates(&requested);
    assert_eq!(first, second);
    assert!(first.len() <= 256);
    assert!(first.contains(&"uv/uv".to_owned()));
    assert!(first.contains(&"uv-ai/uv".to_owned()));
    assert!(first.contains(&"uv-official/uv".to_owned()));
    assert!(!first.contains(&requested.name));
}

#[test]
fn package_candidates_exclude_the_request_and_are_sorted() {
    let requested = ComponentRef::new(Ecosystem::Npm, "left-pad", None)
        .unwrap_or_else(|error| panic!("{error:?}"));
    let candidates = hallusquat_candidates(&requested);
    assert!(!candidates.contains(&"left-pad".to_owned()));
    assert!(candidates.contains(&"leftpad".to_owned()));
    assert!(candidates.contains(&"left-pad-cli".to_owned()));
    assert!(candidates.len() <= MAX_HALLUSQUAT_CANDIDATES);
    let mut sorted = candidates.clone();
    sorted.sort();
    sorted.dedup();
    assert_eq!(sorted, candidates);
}

#[test]
fn lifecycle_scripts_are_version_specific() {
    let versions = vec![
        ("1.0.0".to_owned(), vec!["postinstall".to_owned()]),
        ("1.0.1".to_owned(), Vec::new()),
    ];
    assert!(has_lifecycle_scripts(&versions, "1.0.0"));
    assert!(!has_lifecycle_scripts(&versions, "1.0.1"));
}

#[test]
fn github_profile_flags_new_repository_without_popularity_override() {
    let now = chrono::Utc::now();
    let created = (now - chrono::TimeDelta::hours(2)).to_rfc3339();
    let pushed = now.to_rfc3339();
    let profile = GithubProfile::from_fields(
        Some("attacker/cool-project"),
        Some(created.as_str()),
        Some(pushed.as_str()),
        Some(50000),
        Some(1),
        Some(false),
        Some(false),
        Some("main"),
    )
    .unwrap_or_else(|error| panic!("{error:?}"));
    let instant = Timestamp {
        seconds: now.timestamp(),
        nanos: now.timestamp_subsec_nanos(),
    };
    assert!(profile.signals(instant).iter().any(|signal| {
        signal.code == "RS-REPOSITORY-VERY-YOUNG" && signal.severity == Severity::Critical
    }));
}

#[test]
fn repository_url_normalizes_to_github_identity() {
    let parsed = ComponentRef::from_str("https://github.com/astral-sh/uv.git")
        .unwrap_or_else(|error| panic!("{error:?}"));
    assert_eq!(parsed.id(), "github:astral-sh/uv");
}

#[test]
fn registry_repository_fields_map_to_github_identities() {
    let found = github_identity_from_repository_url("git+https://github.com/Owner/Project.git")
        .unwrap_or_else(|| panic!("expected an identity"));
    assert_eq!(found.id(), "github:owner/project");
    assert!(github_identity_from_repository_url("https://gitlab.com/owner/project").is_none());
}

#[test]
fn lookalike_of_the_canonical_identity_is_flagged_with_its_similarity() {
    let requested = ComponentRef::new(Ecosystem::Github, "astral-sh/uvv", None)
        .unwrap_or_else(|error| panic!("{error:?}"));
    let canonical = ComponentRef::new(Ecosystem::Github, "astral-sh/uv", None)
        .unwrap_or_else(|error| panic!("{error:?}"));
    let mut resolution = Resolution::empty();
    resolution.canonical = Some(canonical);
    apply_identity_comparison(&requested, &mut resolution);
    assert_eq!(resolution.signals.len(), 2);
    assert_eq!(resolution.signals[0].code, "RS-IDENTITY-MISMATCH");
    assert_eq!(resolution.signals[0].severity, Severity::Critical);
    assert_eq!(resolution.signals[1].code, "RS-HALLUSQUAT-NAME-SIMILARITY");
    assert_eq!(
        resolution.signals[1].message,
        "Requested identity is 92% similar to canonical"
    );
}

#[test]
fn identical_identity_raises_no_comparison_signal() {
    let requested = ComponentRef::new(Ecosystem::Github, "astral-sh/uv", None)
        .unwrap_or_else(|error| panic!("{error:?}"));
    let mut resolution = Resolution::empty();
    resolution.canonical = Some(requested.clone_ref());
    apply_identity_comparison(&requested, &mut resolution);
    assert!(resolution.signals.is_empty());
}

#[test]
fn provider_addresses_are_built_from_the_normalized_name() {
    let npm = ComponentRef::from_str("npm:@modelcontextprotocol/sdk").unwrap();
    assert_eq!(npm_registry_url(&npm), "https://registry.npmjs.org/@modelcontextprotocol%2Fsdk");
    let pypi = ComponentRef::from_str("pypi:ruff").unwrap();
    assert_eq!(pypi_json_url(&pypi), "https://pypi.org/pypi/ruff/json");
    let cargo = ComponentRef::from_str("cargo:serde").unwrap();
    assert_eq!(crates_api_url(&cargo), "https://crates.io/api/v1/crates/serde");
    let go = ComponentRef::from_str("go:github.com/spf13/cobra").unwrap();
    assert_eq!(go_versions_url(&go), "https://proxy.golang.org/github.com/spf13/cobra/@v/list");
    let github = ComponentRef::from_str("github:astral-sh/uv").unwrap();
    assert_eq!(github_api_url(&github).unwrap(), "https://api.github.com/repos/astral-sh/uv");
}

#[test]
fn repository_search_query_is_form_encoded() {
    assert_eq!(
        github_search_url("uv"),
        "https://api.github.com/search/repositories?q=uv+in%3Aname&sort=stars&order=desc&per_page=10"
    );
    assert_eq!(
        github_search_url("my.proj_x"),
        "https://api.github.com/search/repositories?q=my.proj_x+in%3Aname&sort=stars&order=desc&per_page=10"
    );
}

#[test]
fn github_evidence_states_popularity_and_rfc3339_times() {
    let profile = GithubProfile::from_fields(
        Some("Astral-SH/UV"),
        Some("2023-10-31T12:00:00Z"),
        None,
        Some(1200),
        Some(30),
        None,
        None,
        None,
    )
    .unwrap_or_else(|error| panic!("{error:?}"));
    assert_eq!(profile.full_name, "astral-sh/uv");
    assert_eq!(profile.default_branch, "unknown");
    let now = Timestamp { seconds: 1_700_000_000, nanos: 0 };
    let evidence = profile.evidence("https://api.github.com/repos/astral-sh/uv", now);
    assert_eq!(
        evidence.claim,
        "GitHub identifies astral-sh/uv with 1200 stars, 30 forks, created 2023-10-31T12:00:00+00:00"
    );
    assert!(evidence
        .metadata
        .contains(&("created_at".to_owned(), "2023-10-31T12:00:00+00:00".to_owned())));
    assert!(evidence.metadata.contains(&("pushed_at".to_owned(), String::new())));
    assert_eq!(evidence.expires_at, Some(Timestamp { seconds: 1_700_000_900, nanos: 0 }));
}

#[test]
fn github_profile_without_a_parsable_creation_time_is_malformed() {
    let profile = GithubProfile::from_fields(
        Some("astral-sh/uv"),
        Some("yesterday"),
        None,
        None,
        None,
        None,
        None,
        None,
    );
    assert!(profile.is_err());
}

#[test]
fn search_prefers_an_earlier_established_match_over_a_later_malformed_result() {
    let profile = |name: &str, created: &str, stars: u64| {
        GithubProfile::from_fields(Some(name), Some(created), None, Some(stars), None, None, None, None)
            .unwrap_or_else(|error| panic!("{error:?}"))
    };
    let requested = profile("attacker/uv", "2024-06-01T00:00:00Z", 3);
    let canonical = profile("astral-sh/uv", "2023-01-01T00:00:00Z", 50000);
    let items = vec![canonical.clone()];
    assert_eq!(search_outcome("uv", &requested, &items, true), Ok(Some(0)));
    assert_eq!(search_outcome("uv", &requested, &items, false), Ok(Some(0)));
    assert_eq!(
        search_outcome("uv", &requested, &Vec::new(), true),
        Err(ResolveError::MalformedProvider)
    );
    assert_eq!(search_outcome("uv", &requested, &Vec::new(), false), Ok(None));
}
