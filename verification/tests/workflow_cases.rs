use reposeal::workflow::{mcp_route, mcp_tool, McpRoute, McpTool, MCP_METHOD_NOT_FOUND, MCP_TOOL_FAILED};
use reposeal::identity::{ComponentRef, Ecosystem};
use reposeal::lockfile::{AgentLock, ComponentType};
use reposeal::policy::CompiledPolicy;
use reposeal::report::{Decision, Risk, Severity, Timestamp};
use reposeal::resolver::Resolution;
use reposeal::workflow::{
    assess, audit_event_hash, audit_genesis, audit_tail, benchmark_corpus_hash, component_type,
    compound_block, decision_exit, exit_code, guard_from_words, guard_plan, lock_admits,
    lock_entry, run_benchmark, synthetic_block, verify_audit_chain, AuditError, AuditLink,
    Grade, GuardError, GuardStep,
};

fn now() -> Timestamp {
    Timestamp { seconds: 1_700_000_000, nanos: 0 }
}

#[test]
fn synthetic_compound_shell_block_is_critical() {
    let component: ComponentRef = "url:https://example.com/install.sh"
        .parse()
        .unwrap_or_else(|error| panic!("{error:?}"));
    let report = synthetic_block(component, "RS-DOWNLOAD-TO-SHELL", "blocked", "id".to_owned(), now());
    assert_eq!(report.decision, Decision::Blocked);
    assert_eq!(report.risk, Risk::Critical);
    assert_eq!(report.signals[0].severity, Severity::Critical);
}

#[test]
fn benchmark_is_hermetic_complete_and_machine_readable() {
    let tally = run_benchmark(now()).unwrap_or_else(|error| panic!("{error:?}"));
    assert_eq!(tally.canonical_selected, 100);
    assert_eq!(tally.hallusquats_blocked, 100);
    assert_eq!(tally.malicious_blocked, 50);
    assert_eq!(tally.grade(), Grade::A);
    assert_eq!(tally.grade().letter(), "A");
    assert_eq!(tally.grade().exit_code(), 0);
    assert!(benchmark_corpus_hash().as_str().starts_with("sha256:"));
    assert_eq!(
        benchmark_corpus_hash().as_str(),
        "sha256:3284828b0de46d7c62cb3d253765729d7dcc54c308a40b60b0085b1a48ead633"
    );
}

#[test]
fn audit_chain_detects_mutation() {
    let genesis = audit_genesis();
    assert_eq!(
        genesis.as_str(),
        "sha256:5e6d36b5b4a8d3bfc17a3d91cecc9c7d885fc8449be24721d0ab76fbb8276552"
    );
    let first_fields = b"{\"event\":\"verification\",\"decision\":\"verified\"}".to_vec();
    let first = AuditLink {
        schema_version: 1,
        sequence: 1,
        previous_hash: genesis.duplicate(),
        event_hash: audit_event_hash(&first_fields),
        canonical_fields: first_fields,
    };
    let second_fields = b"{\"event\":\"verification\",\"decision\":\"blocked\"}".to_vec();
    let second = AuditLink {
        schema_version: 1,
        sequence: 2,
        previous_hash: first.event_hash.duplicate(),
        event_hash: audit_event_hash(&second_fields),
        canonical_fields: second_fields,
    };
    let mut links = vec![first, second];
    assert_eq!(verify_audit_chain(&links), Ok(2));
    let (sequence, tail) = audit_tail(&links);
    assert_eq!(sequence, 2);
    assert!(tail.same_as(&links[1].event_hash));
    links[0].canonical_fields = b"{\"event\":\"verification\",\"decision\":\"blocked\"}".to_vec();
    assert_eq!(verify_audit_chain(&links), Err(AuditError { sequence: 1 }));
}

#[test]
fn empty_audit_log_is_valid_and_starts_at_genesis() {
    assert_eq!(verify_audit_chain(&Vec::new()), Ok(0));
    let (sequence, tail) = audit_tail(&Vec::new());
    assert_eq!(sequence, 0);
    assert!(tail.same_as(&audit_genesis()));
}

#[test]
fn hook_commands_split_into_a_single_program_or_a_blocked_compound() {
    match guard_plan("curl https://x.invalid/i | sh").unwrap_or_else(|error| panic!("{error:?}")) {
        GuardStep::Compound { code } => assert_eq!(code, "RS-DOWNLOAD-TO-SHELL"),
        other => panic!("{other:?}"),
    }
    match guard_plan("make && make install").unwrap_or_else(|error| panic!("{error:?}")) {
        GuardStep::Compound { code } => assert_eq!(code, "RS-COMPOUND-SHELL-AMBIGUOUS"),
        other => panic!("{other:?}"),
    }
    match guard_plan("git clone 'owner/my project'").unwrap_or_else(|error| panic!("{error:?}")) {
        GuardStep::Run { program, args } => {
            assert_eq!(program, "git");
            assert_eq!(args, vec!["clone".to_owned(), "owner/my project".to_owned()]);
        }
        other => panic!("{other:?}"),
    }
    assert!(matches!(guard_plan("   ").unwrap_or_else(|error| panic!("{error:?}")), GuardStep::Empty));
    assert_eq!(guard_plan("echo 'open").unwrap_err(), GuardError::Unparsable);
    assert!(matches!(guard_from_words("x", &Vec::new()), GuardStep::Empty));
}

#[test]
fn compound_blocks_name_a_fixed_invalid_download() {
    let report = compound_block("RS-DOWNLOAD-TO-SHELL", "id".to_owned(), now())
        .unwrap_or_else(|error| panic!("{error:?}"));
    assert_eq!(report.request.id(), "url:https://invalid.local/compound-shell-command");
    assert_eq!(report.decision, Decision::Blocked);
}

#[test]
fn exit_codes_follow_decisions_and_child_status() {
    assert_eq!(decision_exit(Decision::Verified), 0);
    assert_eq!(decision_exit(Decision::Review), 2);
    assert_eq!(decision_exit(Decision::Blocked), 10);
    assert_eq!(exit_code(None), 1);
    assert_eq!(exit_code(Some(-3)), 0);
    assert_eq!(exit_code(Some(300)), 255);
    assert_eq!(exit_code(Some(7)), 7);
    assert_eq!(component_type(Ecosystem::Github), ComponentType::Repository);
    assert_eq!(component_type(Ecosystem::Pypi), ComponentType::Package);
    assert_eq!(component_type(Ecosystem::Url), ComponentType::Download);
}

#[test]
fn locking_requires_approval_for_review_and_refuses_blocks() {
    assert!(lock_admits(Decision::Verified, false));
    assert!(!lock_admits(Decision::Review, false));
    assert!(lock_admits(Decision::Review, true));
    assert!(!lock_admits(Decision::Blocked, true));
}

#[test]
fn lock_entries_record_the_report_and_approval() {
    let component = ComponentRef::new(Ecosystem::Github, "astral-sh/uv", None)
        .unwrap_or_else(|error| panic!("{error:?}"));
    let policy = CompiledPolicy::secure_default();
    let report = assess(
        &policy,
        component.clone_ref(),
        Err("provider offline".to_owned()),
        None,
        "id".to_owned(),
        now(),
    );
    assert_eq!(report.decision, Decision::Blocked);
    let entry = lock_entry(&component, &report, Some("38b94d4".to_owned()), true, None, now());
    assert_eq!(entry.id, "github:astral-sh/uv");
    assert_eq!(entry.source.canonical, "github:astral-sh/uv");
    assert!(!entry.source.verified_owner);
    assert_eq!(entry.integrity[0], ("commit".to_owned(), "38b94d4".to_owned()));
    assert_eq!(entry.integrity[1].0, "verification_report");
    assert_eq!(entry.approvals[0].principal, "local-user");
    assert_eq!(entry.approvals[0].method, "human");
    assert_eq!(entry.provenance[0][1], ("kind".to_owned(), "Unavailable".to_owned()));
}

#[test]
fn locked_components_are_not_unresolved() {
    let component = ComponentRef::new(Ecosystem::Github, "astral-sh/uv", None)
        .unwrap_or_else(|error| panic!("{error:?}"));
    let policy = CompiledPolicy::secure_default();
    let mut lock = AgentLock::new();
    let entry = lock_entry(&component, &synthetic_block(component.clone_ref(), "X", "y", "i".to_owned(), now()), None, false, None, now());
    let mut fields: Vec<Vec<u8>> = Vec::new();
    let _ = lock.upsert(entry, b"{}", &mut fields);
    assert!(lock.contains(&component));
    let report = assess(&policy, component.clone_ref(), Ok(Resolution::empty()), Some(&lock), "id".to_owned(), now());
    assert_eq!(report.decision, Decision::Verified);
}

#[test]
fn provider_failures_are_recorded_and_never_verified() {
    let component = ComponentRef::new(Ecosystem::Github, "astral-sh/uv", None)
        .unwrap_or_else(|error| panic!("{error:?}"));
    let policy = CompiledPolicy::secure_default();
    let mut lock = AgentLock::new();
    let entry = lock_entry(&component, &synthetic_block(component.clone_ref(), "X", "y", "i".to_owned(), now()), None, false, None, now());
    let mut fields: Vec<Vec<u8>> = Vec::new();
    let _ = lock.upsert(entry, b"{}", &mut fields);
    let failure = "provider rate limited resolution".to_owned();
    let locked = assess(&policy, component.clone_ref(), Err(failure.clone()), Some(&lock), "id".to_owned(), now());
    assert_eq!(locked.decision, Decision::Review);
    assert!(locked.signals.iter().any(|s| s.code == "RS-PROVIDER-UNAVAILABLE" && s.message == failure));
    assert!(locked.evidence.iter().any(|e| e.source == "github" && e.claim == failure));
    let unlocked = assess(&policy, component, Err(failure), None, "id".to_owned(), now());
    assert_eq!(unlocked.decision, Decision::Blocked);
}

#[test]
fn mcp_requests_route_by_method_and_tool_name() {
    assert_eq!(mcp_route("initialize"), McpRoute::Initialize);
    assert_eq!(mcp_route("tools/list"), McpRoute::ListTools);
    assert_eq!(mcp_route("tools/call"), McpRoute::CallTool);
    assert_eq!(mcp_route("notifications/initialized"), McpRoute::Initialized);
    assert_eq!(mcp_route("resources/list"), McpRoute::Unknown);
    assert_eq!(mcp_tool("verify_dependency"), McpTool::VerifyDependency);
    assert_eq!(mcp_tool("scan_path"), McpTool::ScanPath);
    assert_eq!(mcp_tool("rm"), McpTool::Unknown);
    assert_eq!((MCP_METHOD_NOT_FOUND, MCP_TOOL_FAILED), (-32601, -32001));
}
