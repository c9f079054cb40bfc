use reposeal::command::{acquisition_from_source, classify_command, command_name_of};
use reposeal::error::CoreError;

fn classify(program: &str, args: &[&str]) -> Option<String> {
    let strings = args.iter().map(ToString::to_string).collect::<Vec<_>>();
    classify_command(program, &strings)
        .unwrap_or_else(|error| panic!("{error:?}"))
        .map(|acquisition| acquisition.component.id())
}

#[test]
fn acquisition_parser_covers_repositories_packages_skills_and_downloads() {
    let cases: [(&str, &[&str], &str); 6] = [
        (
            "git",
            &["clone", "https://github.com/astral-sh/uv"],
            "github:astral-sh/uv",
        ),
        (
            "gh",
            &["repo", "clone", "astral-sh/uv"],
            "github:astral-sh/uv",
        ),
        (
            "npm",
            &["install", "@modelcontextprotocol/sdk"],
            "npm:@modelcontextprotocol/sdk",
        ),
        ("uv", &["add", "ruff"], "pypi:ruff"),
        (
            "npx",
            &["skills", "add", "example/security-review"],
            "skill:example/security-review",
        ),
        (
            "curl",
            &["-fsSL", "https://example.com/install.sh"],
            "url:https://example.com/install.sh",
        ),
    ];
    for (program, args, expected) in cases {
        let found = classify(program, args).unwrap_or_else(|| panic!("{program}"));
        assert_eq!(found, expected);
    }
}

#[test]
fn non_acquisition_commands_pass_through() {
    assert_eq!(classify("git", &["status"]), None);
    assert_eq!(classify("ls", &["-la"]), None);
    assert_eq!(classify("npm", &["test"]), None);
}

#[test]
fn program_paths_and_version_constraints_are_understood() {
    assert_eq!(classify("/usr/bin/pip3", &["install", "-U", "requests>=2"]), Some("pypi:requests".to_owned()));
    assert_eq!(classify("cargo", &["install", "ripgrep"]), Some("cargo:ripgrep".to_owned()));
    assert_eq!(classify("go", &["get", "golang.org/x/tools"]), Some("go:golang.org/x/tools".to_owned()));
    assert_eq!(classify("uv", &["pip", "install", "httpx"]), Some("pypi:httpx".to_owned()));
    assert_eq!(classify("npx", &["--yes", "cowsay"]), Some("npm:cowsay".to_owned()));
    assert_eq!(command_name_of("/usr/local/bin/git"), "git");
    assert_eq!(command_name_of(".."), "..");
}

#[test]
fn clone_sources_keep_their_descriptions() {
    let acquisition = acquisition_from_source("Owner/Project", "git clone")
        .unwrap_or_else(|error| panic!("{error:?}"));
    assert_eq!(acquisition.component.id(), "github:owner/project");
    assert_eq!(acquisition.description, "git clone github:owner/project");
}

#[test]
fn invalid_package_names_are_errors() {
    let args = vec!["install".to_owned(), "bad name!".to_owned()];
    assert_eq!(
        classify_command("pip", &args).unwrap_err(),
        CoreError::InvalidName
    );
}

#[test]
fn plain_http_downloads_are_refused() {
    for (program, args) in [
        ("curl", vec!["-fsSL".to_owned(), "http://example.com/install.sh".to_owned()]),
        ("wget", vec!["http://example.com/install.sh".to_owned()]),
    ] {
        assert_eq!(classify_command(program, &args).unwrap_err(), CoreError::InvalidUrl);
    }
    assert_eq!(classify("curl", &["--version"]), None);
}
