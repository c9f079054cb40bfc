//! The decisions of the command-line workflows: hook commands, synthetic
//! blocks, exit codes, lock entries for verified components, the hermetic
//! benchmark and the audit hash chain.

use vstd::prelude::*;

use crate::error::CoreError;
use crate::identity::{lacks, lemma_split_two, all_in_class, in_class, normalize_spec, safe_slug, CharClass, id_of, prefix_of, new_spec, opt_view, strings_view, ComponentId, ComponentRef, Ecosystem};
use crate::digest::{ascii_bytes, ascii_seq, domain_digest, Sha256Digest};
use crate::lockfile::{ids, AgentLock};
use crate::policy::{
    allowlisted, component_denied, conflict_code, deny_signal, domain_denied, explicit_denies, has_conflict, identity_sufficient, if_seq, max_rank, owner_denied, decision_of, decision_on, final_signals, is_secure_default, law_verified_is_clean, risk_of, CompiledPolicy,
    PolicyDocument,
};
use crate::resolver::unavailable_evidence;
use crate::resolver::Resolution;
use crate::lockfile::{Approval, ComponentType, LockedComponent, Permissions, SourceIdentity};
use crate::report::{
    evidence_view, kind_name, EvidenceKind, EvidenceStrength, opt_component_view, pairs_view, Evidence, EvidenceView, placeholder_hash, signals_view, sorted_evidence,
    sev_rank, sorted_signals, Decision, Risk, Severity, Signal, SignalView, Timestamp, VerificationReport,
};
use crate::sandbox::{is_ascii_text, lemma_ascii_utf8_len};
use crate::sort::views_of;
use crate::text::{is_digit, is_lower, is_white, occurs_at, split, trim, trim_by, trim_char, trim_pred, utf8_len, TrimKind, digit_char, append_chars, append_str, chars_of, contains_str, contains_sub, decimal, decimal_chars, str_eq, string_of};

verus! {

// ---------------------------------------------------------------------------
// Hook commands
// ---------------------------------------------------------------------------

/// The words of `line` as POSIX-style shell splitting gives them, or `None`
/// when a quote is left open.
pub uninterp spec fn shell_split(line: Seq<char>) -> Option<Seq<Seq<char>>>;

#[verifier::external_type_specification]
#[verifier::external_body]
pub struct ExShellParseError(shell_words::ParseError);

/// `shell_words::split`. The contract claims that the outcome is
/// `shell_split` of the line: an error exactly when it is `None`, and
/// otherwise the words it names.
#[verifier::external_body]
fn split_shell_words(line: &str) -> (r: Result<Vec<String>, shell_words::ParseError>)
    ensures
        match shell_split(line@) {
            Some(w) => r matches Ok(v) && strings_view(v@) == w,
            None => r is Err,
        },
{
    shell_words::split(line)
}

/// A shell control operator that chains commands.
pub open spec fn is_operator(w: Seq<char>) -> bool {
    w == "|"@ || w == ";"@ || w == "&&"@ || w == "||"@
}

/// What a hook does with a command line, once split into words.
#[derive(Clone, Debug)]
pub enum GuardStep {
    /// A compound command is blocked outright, with the given signal code.
    Compound { code: String },
    /// Nothing to run.
    Empty,
    /// A single command to classify.
    Run { program: String, args: Vec<String> },
}

pub enum GuardView {
    Compound(Seq<char>),
    Empty,
    Run(Seq<char>, Seq<Seq<char>>),
}

impl View for GuardStep {
    type V = GuardView;

    open spec fn view(&self) -> GuardView {
        match self {
            GuardStep::Compound { code } => GuardView::Compound(code@),
            GuardStep::Empty => GuardView::Empty,
            GuardStep::Run { program, args } => GuardView::Run(program@, strings_view(args@)),
        }
    }
}

/// The code of a blocked compound command: a download piped to a shell when
/// the text mentions `curl` or `wget`, an ambiguous compound otherwise.
pub open spec fn compound_code(command: Seq<char>) -> Seq<char> {
    if contains_sub(command, "curl"@) || contains_sub(command, "wget"@) {
        "RS-DOWNLOAD-TO-SHELL"@
    } else {
        "RS-COMPOUND-SHELL-AMBIGUOUS"@
    }
}

/// The hook step for `command` split into `words`: any control operator
/// makes it a blocked compound; otherwise the first word is the program.
pub open spec fn guard_spec(command: Seq<char>, words: Seq<Seq<char>>) -> GuardView {
    if exists|i: int| 0 <= i < words.len() && is_operator(#[trigger] words[i]) {
        GuardView::Compound(compound_code(command))
    } else if words.len() == 0 {
        GuardView::Empty
    } else {
        GuardView::Run(words[0], words.drop_first())
    }
}

/// Decides the hook step for a command line already split into words.
pub fn guard_from_words(command: &str, words: &Vec<String>) -> (r: GuardStep)
    ensures
        r@ == guard_spec(command@, strings_view(words@)),
{
    let ghost wv = strings_view(words@);
    let mut i: usize = 0;
    while i < words.len()
        invariant
            i <= words.len(),
            wv == strings_view(words@),
            forall|j: int| 0 <= j < i ==> !is_operator(#[trigger] wv[j]),
        decreases words.len() - i,
    {
        let w = words[i].as_str();
        proof {
            assert(wv[i as int] == words@[i as int]@);
        }
        if str_eq(w, "|") || str_eq(w, ";") || str_eq(w, "&&") || str_eq(w, "||") {
            let cc = chars_of(command);
            let code = if contains_str(cc.as_slice(), "curl") || contains_str(cc.as_slice(), "wget") {
                "RS-DOWNLOAD-TO-SHELL".to_string()
            } else {
                "RS-COMPOUND-SHELL-AMBIGUOUS".to_string()
            };
            return GuardStep::Compound { code };
        }
        i += 1;
    }
    if words.len() == 0 {
        return GuardStep::Empty;
    }
    let program = words[0].clone();
    let mut args: Vec<String> = Vec::new();
    let mut k: usize = 1;
    proof {
        assert(strings_view(args@) =~= wv.subrange(1, 1));
    }
    while k < words.len()
        invariant
            1 <= k <= words.len(),
            wv == strings_view(words@),
            strings_view(args@) == wv.subrange(1, k as int),
        decreases words.len() - k,
    {
        let ghost before = strings_view(args@);
        args.push(words[k].clone());
        proof {
            assert(strings_view(args@) =~= before.push(words@[k as int]@));
            assert(wv.subrange(1, k + 1) =~= wv.subrange(1, k as int).push(wv[k as int]));
        }
        k += 1;
    }
    proof {
        assert(wv.subrange(1, words.len() as int) =~= wv.drop_first());
        assert(wv[0] == words@[0]@);
    }
    GuardStep::Run { program, args }
}

/// A hook command line that shell splitting refused.
#[derive(Clone, Copy, Debug, PartialEq, Eq, Structural)]
pub enum GuardError {
    /// A quote was left open.
    Unparsable,
}

/// Splits a hook command line and decides its step.
pub fn guard_plan(command: &str) -> (r: Result<GuardStep, GuardError>)
    ensures
        match shell_split(command@) {
            Some(w) => r matches Ok(s) && s@ == guard_spec(command@, w),
            None => r == Err::<GuardStep, GuardError>(GuardError::Unparsable),
        },
{
    match split_shell_words(command) {
        Ok(words) => Ok(guard_from_words(command, &words)),
        Err(_) => Err(GuardError::Unparsable),
    }
}

// ---------------------------------------------------------------------------
// Synthetic blocks and exit codes
// ---------------------------------------------------------------------------

/// The signal of a block raised by the command parser itself.
pub open spec fn parser_signal(code: Seq<char>, message: Seq<char>) -> SignalView {
    SignalView {
        code,
        severity: Severity::Critical,
        message,
        evidence_source: Some("command-parser"@),
        remediation: "Split the operation and verify a typed dependency before execution"@,
    }
}

/// A blocked, critical report for `component` carrying one parser signal
/// (unsealed, like every new report).
pub fn synthetic_block(
    component: ComponentRef,
    code: &str,
    message: &str,
    request_id: String,
    evaluated_at: Timestamp,
) -> (r: VerificationReport)
    ensures
        r.request@ == component@,
        r.canonical is None,
        r.decision == Decision::Blocked,
        r.risk == Risk::Critical,
        signals_view(r.signals@) == sorted_signals(seq![parser_signal(code@, message@)]),
        r.evidence@.len() == 0,
        r.request_id@ == request_id@,
        r.evaluated_at == evaluated_at,
        r.report_hash@ == placeholder_hash(),
{
    let signal = Signal {
        code: code.to_string(),
        severity: Severity::Critical,
        message: message.to_string(),
        evidence_source: Some("command-parser".to_string()),
        remediation: "Split the operation and verify a typed dependency before execution".to_string(),
    };
    let mut signals: Vec<Signal> = Vec::new();
    signals.push(signal);
    let evidence = Vec::new();
    proof {
        assert(signals_view(signals@) =~= seq![parser_signal(code@, message@)]);
        assert(evidence_view(evidence@) =~= Seq::empty());
    }
    let r = VerificationReport::new(
        component,
        None,
        Decision::Blocked,
        Risk::Critical,
        signals,
        evidence,
        request_id,
        evaluated_at,
    );
    proof {
        lemma_sorted_evidence_empty();
        assert(r.evidence@.len() == evidence_view(r.evidence@).len());
    }
    r
}

proof fn lemma_sorted_evidence_empty()
    ensures
        sorted_evidence(Seq::empty()).len() == 0,
{
    reveal_with_fuel(crate::sort::stable_sorted, 1);
}

/// The component under which a compound command is blocked.
pub open spec fn compound_component() -> Result<ComponentId, CoreError> {
    new_spec(Ecosystem::Url, "https://invalid.local/compound-shell-command"@, None)
}

/// The blocked report for a compound hook command with signal `code`.
pub fn compound_block(code: &str, request_id: String, evaluated_at: Timestamp) -> (r: Result<
    VerificationReport,
    CoreError,
>)
    ensures
        match compound_component() {
            Ok(c) => r matches Ok(rep) && rep.request@ == c && rep.decision == Decision::Blocked
                && rep.risk == Risk::Critical && signals_view(rep.signals@) == sorted_signals(
                seq![
                    parser_signal(
                        code@,
                        "Compound shell acquisition commands are blocked before execution"@,
                    ),
                ],
            ) && rep.request_id@ == request_id@ && rep.evaluated_at == evaluated_at
                && rep.canonical is None && rep.evidence@.len() == 0
                && rep.report_hash@ == placeholder_hash(),
            Err(e) => r matches Err(x) && x == e,
        },
{
    match ComponentRef::new(Ecosystem::Url, "https://invalid.local/compound-shell-command", None) {
        Ok(component) => Ok(
            synthetic_block(
                component,
                code,
                "Compound shell acquisition commands are blocked before execution",
                request_id,
                evaluated_at,
            ),
        ),
        Err(e) => Err(e),
    }
}

pub open spec fn decision_code(d: Decision) -> u8 {
    match d {
        Decision::Verified => 0,
        Decision::Review => 2,
        Decision::Blocked => 10,
    }
}

/// Process exit code of a decision: 0 verified, 2 review, 10 blocked.
pub fn decision_exit(decision: Decision) -> (code: u8)
    ensures
        code == decision_code(decision),
{
    match decision {
        Decision::Verified => 0,
        Decision::Review => 2,
        Decision::Blocked => 10,
    }
}

pub open spec fn component_type_of(e: Ecosystem) -> ComponentType {
    match e {
        Ecosystem::Github => ComponentType::Repository,
        Ecosystem::Npm | Ecosystem::Pypi | Ecosystem::Cargo | Ecosystem::Go => ComponentType::Package,
        Ecosystem::Skill => ComponentType::AgentSkill,
        Ecosystem::Mcp => ComponentType::McpServer,
        Ecosystem::Plugin => ComponentType::Plugin,
        Ecosystem::Url => ComponentType::Download,
    }
}

/// The lockfile artifact class of an ecosystem.
pub fn component_type(ecosystem: Ecosystem) -> (t: ComponentType)
    ensures
        t == component_type_of(ecosystem),
{
    match ecosystem {
        Ecosystem::Github => ComponentType::Repository,
        Ecosystem::Npm | Ecosystem::Pypi | Ecosystem::Cargo | Ecosystem::Go => ComponentType::Package,
        Ecosystem::Skill => ComponentType::AgentSkill,
        Ecosystem::Mcp => ComponentType::McpServer,
        Ecosystem::Plugin => ComponentType::Plugin,
        Ecosystem::Url => ComponentType::Download,
    }
}

pub open spec fn exit_code_spec(code: Option<i32>) -> u8 {
    match code {
        None => 1,
        Some(c) => if c < 0 {
            0
        } else if c > 255 {
            255
        } else {
            c as u8
        },
    }
}

/// The exit code passed on for a child process: its own code clamped to
/// `0..=255`, or 1 when it was ended by a signal.
pub fn exit_code(code: Option<i32>) -> (r: u8)
    ensures
        r == exit_code_spec(code),
{
    match code {
        None => 1,
        Some(c) => if c < 0 {
            0
        } else if c > 255 {
            255
        } else {
            c as u8
        },
    }
}

/// Exit code of a sandbox plan that is only shown: 0 when strong, else 2.
pub fn plan_exit(strong: bool) -> (r: u8)
    ensures
        r == (if strong {
            0u8
        } else {
            2u8
        }),
{
    if strong {
        0
    } else {
        2
    }
}

// ---------------------------------------------------------------------------
// Lock entries
// ---------------------------------------------------------------------------

/// Whether a verification result may be locked: never when blocked, and a
/// review result only with explicit approval.
pub open spec fn lock_admits_spec(decision: Decision, approve: bool) -> bool {
    !(decision == Decision::Blocked || (decision == Decision::Review && !approve))
}

pub fn lock_admits(decision: Decision, approve: bool) -> (r: bool)
    ensures
        r == lock_admits_spec(decision, approve),
{
    !(decision == Decision::Blocked || (decision == Decision::Review && !approve))
}

/// Integrity facts of a new entry, ordered by key: the commit when pinned,
/// and the hash of the verification report.
pub open spec fn integrity_spec(report_hash: Seq<char>, commit: Option<Seq<char>>) -> Seq<
    (Seq<char>, Seq<char>),
> {
    match commit {
        Some(c) => seq![("commit"@, c), ("verification_report"@, report_hash)],
        None => seq![("verification_report"@, report_hash)],
    }
}

/// The provenance record of one piece of evidence, ordered by key.
pub open spec fn provenance_record(e: EvidenceView) -> Seq<(Seq<char>, Seq<char>)> {
    seq![("claim"@, e.claim), ("kind"@, kind_name(e.kind)), ("source"@, e.source)]
}

pub open spec fn provenance_spec(ev: Seq<EvidenceView>) -> Seq<Seq<(Seq<char>, Seq<char>)>>
    decreases ev.len(),
{
    if ev.len() == 0 {
        Seq::empty()
    } else {
        provenance_spec(ev.drop_last()).push(provenance_record(ev.last()))
    }
}

pub open spec fn records_view(p: Seq<Vec<(String, String)>>) -> Seq<Seq<(Seq<char>, Seq<char>)>> {
    p.map_values(|r: Vec<(String, String)>| pairs_view(r@))
}

/// Who approves a lock entry: the local user for an explicit approval
/// (`local-user` when unknown), the policy otherwise.
pub open spec fn approver(approve: bool, user: Option<Seq<char>>) -> (Seq<char>, Seq<char>) {
    if approve {
        (
            match user {
                Some(u) => u,
                None => "local-user"@,
            },
            "human"@,
        )
    } else {
        ("reposeal-policy"@, "policy"@)
    }
}

pub open spec fn entry_placeholder() -> Seq<char> {
    domain_digest(ascii_seq("placeholder"@), Seq::<u8>::empty())
}

fn pair(a: &str, b: String) -> (p: (String, String))
    ensures
        p.0@ == a@,
        p.1@ == b@,
{
    (a.to_string(), b)
}

fn provenance_of(evidence: &Vec<Evidence>) -> (out: Vec<Vec<(String, String)>>)
    ensures
        records_view(out@) == provenance_spec(evidence_view(evidence@)),
{
    let ghost ev = evidence_view(evidence@);
    let mut out: Vec<Vec<(String, String)>> = Vec::new();
    let mut i: usize = 0;
    proof {
        assert(ev.take(0) =~= Seq::<EvidenceView>::empty());
        assert(records_view(out@) =~= Seq::<Seq<(Seq<char>, Seq<char>)>>::empty());
    }
    while i < evidence.len()
        invariant
            i <= evidence.len(),
            ev == evidence_view(evidence@),
            records_view(out@) == provenance_spec(ev.take(i as int)),
        decreases evidence.len() - i,
    {
        let e = &evidence[i];
        let mut record: Vec<(String, String)> = Vec::new();
        record.push(pair("claim", e.claim.clone()));
        record.push(pair("kind", e.kind.name().to_string()));
        record.push(pair("source", e.source.clone()));
        let ghost before = records_view(out@);
        proof {
            assert(ev[i as int] == e@);
            assert(pairs_view(record@) =~= provenance_record(e@));
        }
        out.push(record);
        proof {
            assert(records_view(out@) =~= before.push(provenance_record(e@)));
            assert(ev.take(i + 1).drop_last() =~= ev.take(i as int));
        }
        i += 1;
    }
    proof {
        assert(ev.take(evidence.len() as int) =~= ev);
    }
    out
}

/// The lock entry recording a verified (or approved) component.
pub fn lock_entry(
    component: &ComponentRef,
    report: &VerificationReport,
    commit: Option<String>,
    approve: bool,
    user: Option<String>,
    now: Timestamp,
) -> (e: LockedComponent)
    ensures
        e.id@ == id_of(component@),
        e.component_type == component_type_of(component.ecosystem),
        opt_view(e.version) == opt_view(component.version),
        opt_view(e.commit) == opt_view(commit),
        e.source.requested@ == id_of(component@),
        e.source.canonical@ == (match report.canonical {
            Some(c) => id_of(c@),
            None => id_of(component@),
        }),
        e.source.verified_owner == (report.decision == Decision::Verified),
        pairs_view(e.integrity@) == integrity_spec(report.report_hash@, opt_view(commit)),
        e.permissions.filesystem@.len() == 0,
        e.permissions.network@.len() == 0,
        e.permissions.environment_read@.len() == 0,
        !e.permissions.shell,
        e.dependencies@.len() == 0,
        e.instruction_hash is None,
        records_view(e.provenance@) == provenance_spec(evidence_view(report.evidence@)),
        e.approvals@.len() == 1,
        (e.approvals@[0].principal@, e.approvals@[0].method@) == approver(approve, opt_view(user)),
        e.approvals@[0].approved_at == now,
        e.approvals@[0].report_hash@ == report.report_hash@,
        e.reviewed_at == now,
        e.entry_hash@ == entry_placeholder(),
{
    let id = component.id();
    let canonical = match &report.canonical {
        Some(c) => c.id(),
        None => component.id(),
    };
    let (principal, method) = if approve {
        let p = match user {
            Some(u) => u,
            None => "local-user".to_string(),
        };
        (p, "human".to_string())
    } else {
        ("reposeal-policy".to_string(), "policy".to_string())
    };
    let mut approvals: Vec<Approval> = Vec::new();
    approvals.push(
        Approval { principal, method, approved_at: now, report_hash: report.report_hash.duplicate() },
    );
    let mut integrity: Vec<(String, String)> = Vec::new();
    let commit_copy = match &commit {
        Some(c) => Some(c.clone()),
        None => None,
    };
    match commit_copy {
        Some(c) => integrity.push(pair("commit", c)),
        None => {},
    }
    integrity.push(pair("verification_report", report.report_hash.as_str().to_string()));
    proof {
        assert(pairs_view(integrity@) =~= integrity_spec(report.report_hash@, opt_view(commit)));
    }
    proof {
        reveal_strlit("placeholder");
    }
    let tag = ascii_bytes("placeholder");
    let empty: Vec<u8> = Vec::new();
    let entry_hash = Sha256Digest::domain(tag.as_slice(), empty.as_slice());
    proof {
        assert(empty@ =~= Seq::<u8>::empty());
    }
    LockedComponent {
        id: component.id(),
        component_type: component_type(component.ecosystem),
        version: match &component.version {
            Some(v) => Some(v.clone()),
            None => None,
        },
        commit,
        source: SourceIdentity {
            requested: id,
            canonical,
            verified_owner: report.decision == Decision::Verified,
        },
        integrity,
        permissions: Permissions {
            filesystem: Vec::new(),
            network: Vec::new(),
            environment_read: Vec::new(),
            shell: false,
        },
        dependencies: Vec::new(),
        instruction_hash: None,
        provenance: provenance_of(&report.evidence),
        approvals,
        reviewed_at: now,
        entry_hash,
    }
}

// ---------------------------------------------------------------------------
// The hermetic benchmark
// ---------------------------------------------------------------------------

/// Canonical repositories in the corpus.
pub const CANONICAL_CASES: u32 = 100;

/// Predictable HalluSquat requests in the corpus.
pub const HALLUSQUAT_CASES: u32 = 100;

/// Inert malicious install fixtures in the corpus.
pub const MALICIOUS_CASES: u32 = 50;

/// The evidence every synthetic fixture carries.
pub open spec fn fixture_evidence(now: Timestamp) -> EvidenceView {
    EvidenceView {
        kind: EvidenceKind::LocalTrust,
        source: "benchmark"@,
        claim: "versioned inert canonical fixture"@,
        strength: EvidenceStrength::Authoritative,
        observed_at: now,
        expires_at: None,
        metadata: Seq::empty(),
    }
}

/// A fixture resolution: `canonical` established by local trust, with the
/// given signals and no candidates.
pub fn synthetic_resolution(canonical: ComponentRef, signals: Vec<Signal>, now: Timestamp) -> (r:
    Resolution)
    ensures
        r.canonical matches Some(c) && c@ == canonical@,
        signals_view(r.signals@) == signals_view(signals@),
        evidence_view(r.evidence@) == seq![fixture_evidence(now)],
        r.hallusquat_candidates@.len() == 0,
{
    let mut evidence: Vec<Evidence> = Vec::new();
    evidence.push(
        Evidence {
            kind: EvidenceKind::LocalTrust,
            source: "benchmark".to_string(),
            claim: "versioned inert canonical fixture".to_string(),
            strength: EvidenceStrength::Authoritative,
            observed_at: now,
            expires_at: None,
            metadata: Vec::new(),
        },
    );
    proof {
        assert(pairs_view(evidence@[0].metadata@) =~= Seq::empty());
        assert(evidence_view(evidence@) =~= seq![fixture_evidence(now)]);
    }
    Resolution {
        canonical: Some(canonical),
        evidence,
        signals,
        hallusquat_candidates: Vec::new(),
    }
}

pub open spec fn fixture_signal(code: Seq<char>, message: Seq<char>, remediation: Seq<char>) -> SignalView {
    SignalView {
        code,
        severity: Severity::Critical,
        message,
        evidence_source: Some("benchmark"@),
        remediation,
    }
}

pub open spec fn mismatch_signal() -> SignalView {
    fixture_signal(
        "RS-IDENTITY-MISMATCH"@,
        "synthetic HalluSquat owner mismatch"@,
        "use canonical fixture"@,
    )
}

pub open spec fn payload_signal() -> SignalView {
    fixture_signal("RS-DOWNLOAD-TO-SHELL"@, "inert benchmark lifecycle payload"@, "block"@)
}

/// `head` + n + `mid` + n.
pub open spec fn fixture_name(head: Seq<char>, mid: Seq<char>, n: nat) -> Seq<char> {
    head + decimal(n) + mid + decimal(n)
}

/// The corpus case families.
#[derive(Clone, Copy, Debug, PartialEq, Eq, Structural)]
pub enum CaseKind {
    /// `official-N/project-N`, resolved to itself: must be verified.
    Canonical,
    /// `project-N-official/project-N`, resolved to `vendor-N/project-N`
    /// with an owner mismatch: must be blocked.
    Hallusquat,
    /// The skill `attacker-N/skill-N` with a download-to-shell payload:
    /// must be blocked.
    Malicious,
}

/// Whether case `n` of a family comes out as it must under `p`, or the
/// error met building its fixture.
pub open spec fn case_outcome(p: PolicyDocument, kind: CaseKind, n: nat, now: Timestamp) -> Result<
    bool,
    CoreError,
> {
    match kind {
        CaseKind::Canonical => match new_spec(
            Ecosystem::Github,
            fixture_name("official-"@, "/project-"@, n),
            None,
        ) {
            Err(e) => Err(e),
            Ok(req) => Ok(
                decision_on(p, req, Seq::empty(), true, seq![fixture_evidence(now)], false)
                    == Decision::Verified,
            ),
        },
        CaseKind::Hallusquat => match new_spec(
            Ecosystem::Github,
            fixture_name("project-"@, "-official/project-"@, n),
            None,
        ) {
            Err(e) => Err(e),
            Ok(req) => match new_spec(
                Ecosystem::Github,
                fixture_name("vendor-"@, "/project-"@, n),
                None,
            ) {
                Err(e) => Err(e),
                Ok(_) => Ok(
                    decision_on(
                        p,
                        req,
                        seq![mismatch_signal()],
                        true,
                        seq![fixture_evidence(now)],
                        false,
                    ) == Decision::Blocked,
                ),
            },
        },
        CaseKind::Malicious => match new_spec(
            Ecosystem::Skill,
            fixture_name("attacker-"@, "/skill-"@, n),
            None,
        ) {
            Err(e) => Err(e),
            Ok(req) => Ok(
                decision_on(p, req, seq![payload_signal()], true, seq![fixture_evidence(now)], false)
                    == Decision::Blocked,
            ),
        },
    }
}

/// How many of the first `n` cases of a family come out as they must, or
/// the first error.
pub open spec fn tally(p: PolicyDocument, kind: CaseKind, n: nat, now: Timestamp) -> Result<
    nat,
    CoreError,
>
    decreases n,
{
    if n == 0 {
        Ok(0)
    } else {
        match tally(p, kind, (n - 1) as nat, now) {
            Err(e) => Err(e),
            Ok(c) => match case_outcome(p, kind, (n - 1) as nat, now) {
                Err(e) => Err(e),
                Ok(b) => Ok(
                    if b {
                        c + 1
                    } else {
                        c
                    },
                ),
            },
        }
    }
}

/// Benchmark counts.
#[derive(Clone, Copy, Debug, PartialEq, Eq, Structural)]
pub struct BenchmarkTally {
    pub canonical_selected: u32,
    pub canonical_total: u32,
    pub hallusquats_blocked: u32,
    pub hallusquats_total: u32,
    pub malicious_blocked: u32,
    pub malicious_total: u32,
    pub false_positives: u32,
}

/// The tally of the whole corpus under `p`, or the first error.
pub open spec fn benchmark_spec(p: PolicyDocument, now: Timestamp) -> Result<BenchmarkTally, CoreError> {
    match tally(p, CaseKind::Canonical, CANONICAL_CASES as nat, now) {
        Err(e) => Err(e),
        Ok(c) => match tally(p, CaseKind::Hallusquat, HALLUSQUAT_CASES as nat, now) {
            Err(e) => Err(e),
            Ok(h) => match tally(p, CaseKind::Malicious, MALICIOUS_CASES as nat, now) {
                Err(e) => Err(e),
                Ok(m) => Ok(
                    BenchmarkTally {
                        canonical_selected: c as u32,
                        canonical_total: CANONICAL_CASES,
                        hallusquats_blocked: h as u32,
                        hallusquats_total: HALLUSQUAT_CASES,
                        malicious_blocked: m as u32,
                        malicious_total: MALICIOUS_CASES,
                        false_positives: (CANONICAL_CASES - c) as u32,
                    },
                ),
            },
        },
    }
}

fn fixture_text(head: &str, mid: &str, n: u32) -> (out: String)
    ensures
        out@ == fixture_name(head@, mid@, n as nat),
{
    let d = decimal_chars(n as u64);
    let mut v: Vec<char> = Vec::new();
    append_str(&mut v, head);
    append_chars(&mut v, d.as_slice());
    append_str(&mut v, mid);
    append_chars(&mut v, d.as_slice());
    string_of(v.as_slice())
}

fn fixture_signal_exec(code: &str, message: &str, remediation: &str) -> (s: Signal)
    ensures
        s@ == fixture_signal(code@, message@, remediation@),
{
    Signal {
        code: code.to_string(),
        severity: Severity::Critical,
        message: message.to_string(),
        evidence_source: Some("benchmark".to_string()),
        remediation: remediation.to_string(),
    }
}

fn run_case(policy: &CompiledPolicy, kind: CaseKind, n: u32, now: Timestamp) -> (r: Result<
    bool,
    CoreError,
>)
    ensures
        r == case_outcome(policy.doc(), kind, n as nat, now),
{
    match kind {
        CaseKind::Canonical => {
            let name = fixture_text("official-", "/project-", n);
            let requested = match ComponentRef::new(Ecosystem::Github, name.as_str(), None) {
                Ok(c) => c,
                Err(e) => return Err(e),
            };
            let signals: Vec<Signal> = Vec::new();
            proof {
                assert(signals_view(signals@) =~= Seq::empty());
            }
            let resolution = synthetic_resolution(requested.clone_ref(), signals, now);
            let o = policy.decide(&requested, &resolution, false);
            Ok(o.decision == Decision::Verified)
        },
        CaseKind::Hallusquat => {
            let name = fixture_text("project-", "-official/project-", n);
            let requested = match ComponentRef::new(Ecosystem::Github, name.as_str(), None) {
                Ok(c) => c,
                Err(e) => return Err(e),
            };
            let vendor = fixture_text("vendor-", "/project-", n);
            let canonical = match ComponentRef::new(Ecosystem::Github, vendor.as_str(), None) {
                Ok(c) => c,
                Err(e) => return Err(e),
            };
            let mut signals: Vec<Signal> = Vec::new();
            signals.push(
                fixture_signal_exec(
                    "RS-IDENTITY-MISMATCH",
                    "synthetic HalluSquat owner mismatch",
                    "use canonical fixture",
                ),
            );
            proof {
                assert(signals_view(signals@) =~= seq![mismatch_signal()]);
            }
            let resolution = synthetic_resolution(canonical, signals, now);
            let o = policy.decide(&requested, &resolution, false);
            Ok(o.decision == Decision::Blocked)
        },
        CaseKind::Malicious => {
            let name = fixture_text("attacker-", "/skill-", n);
            let requested = match ComponentRef::new(Ecosystem::Skill, name.as_str(), None) {
                Ok(c) => c,
                Err(e) => return Err(e),
            };
            let mut signals: Vec<Signal> = Vec::new();
            signals.push(
                fixture_signal_exec(
                    "RS-DOWNLOAD-TO-SHELL",
                    "inert benchmark lifecycle payload",
                    "block",
                ),
            );
            proof {
                assert(signals_view(signals@) =~= seq![payload_signal()]);
            }
            let resolution = synthetic_resolution(requested.clone_ref(), signals, now);
            let o = policy.decide(&requested, &resolution, false);
            Ok(o.decision == Decision::Blocked)
        },
    }
}

fn run_family(policy: &CompiledPolicy, kind: CaseKind, total: u32, now: Timestamp) -> (r: Result<
    u32,
    CoreError,
>)
    ensures
        match tally(policy.doc(), kind, total as nat, now) {
            Ok(c) => r == Ok::<u32, CoreError>(c as u32) && c <= total,
            Err(e) => r == Err::<u32, CoreError>(e),
        },
{
    let mut count: u32 = 0;
    let mut i: u32 = 0;
    while i < total
        invariant
            i <= total,
            count <= i,
            tally(policy.doc(), kind, i as nat, now) == Ok::<nat, CoreError>(count as nat),
        decreases total - i,
    {
        match run_case(policy, kind, i, now) {
            Err(e) => {
                proof {
                    lemma_tally_error_sticks(policy.doc(), kind, (i + 1) as nat, total as nat, now);
                }
                return Err(e);
            },
            Ok(b) => {
                if b {
                    count = count + 1;
                }
            },
        }
        i = i + 1;
    }
    Ok(count)
}

proof fn lemma_tally_error_sticks(p: PolicyDocument, kind: CaseKind, n: nat, total: nat, now: Timestamp)
    requires
        n <= total,
        tally(p, kind, n, now) is Err,
    ensures
        tally(p, kind, total, now) == tally(p, kind, n, now),
    decreases total - n,
{
    if n < total {
        lemma_tally_error_sticks(p, kind, n + 1, total, now);
    }
}

/// Runs the hermetic corpus against `policy`.
pub fn run_benchmark_with(policy: &CompiledPolicy, now: Timestamp) -> (r: Result<
    BenchmarkTally,
    CoreError,
>)
    ensures
        r == benchmark_spec(policy.doc(), now),
{
    let c = match run_family(policy, CaseKind::Canonical, CANONICAL_CASES, now) {
        Ok(c) => c,
        Err(e) => return Err(e),
    };
    let h = match run_family(policy, CaseKind::Hallusquat, HALLUSQUAT_CASES, now) {
        Ok(h) => h,
        Err(e) => return Err(e),
    };
    let m = match run_family(policy, CaseKind::Malicious, MALICIOUS_CASES, now) {
        Ok(m) => m,
        Err(e) => return Err(e),
    };
    Ok(
        BenchmarkTally {
            canonical_selected: c,
            canonical_total: CANONICAL_CASES,
            hallusquats_blocked: h,
            hallusquats_total: HALLUSQUAT_CASES,
            malicious_blocked: m,
            malicious_total: MALICIOUS_CASES,
            false_positives: CANONICAL_CASES - c,
        },
    )
}

/// Runs the hermetic corpus against the secure default policy.
pub fn run_benchmark(now: Timestamp) -> (r: Result<BenchmarkTally, CoreError>)
    ensures
        exists|d: PolicyDocument| #[trigger] is_secure_default(d) && r == benchmark_spec(d, now),
{
    let policy = CompiledPolicy::secure_default();
    let r = run_benchmark_with(&policy, now);
    proof {
        assert(is_secure_default(policy.doc()));
    }
    r
}

/// Benchmark grade.
#[derive(Clone, Copy, Debug, PartialEq, Eq, Structural)]
pub enum Grade {
    A,
    B,
    F,
}

/// A: every canonical repository selected, at least 98% of HalluSquats and
/// 94% of malicious installs blocked, and a false-positive rate of at most
/// 2%. B: at least 90% and 80% blocked. F otherwise.
pub open spec fn grade_spec(t: BenchmarkTally) -> Grade {
    if t.canonical_selected == t.canonical_total && t.hallusquats_blocked >= 98
        && t.malicious_blocked >= 47 && t.false_positives * 50 <= t.canonical_total {
        Grade::A
    } else if t.hallusquats_blocked >= 90 && t.malicious_blocked >= 40 {
        Grade::B
    } else {
        Grade::F
    }
}

impl BenchmarkTally {
    /// The grade of these counts.
    pub fn grade(&self) -> (g: Grade)
        ensures
            g == grade_spec(*self),
    {
        if self.canonical_selected == self.canonical_total && self.hallusquats_blocked >= 98
            && self.malicious_blocked >= 47 && (self.false_positives as u64) * 50
            <= self.canonical_total as u64 {
            Grade::A
        } else if self.hallusquats_blocked >= 90 && self.malicious_blocked >= 40 {
            Grade::B
        } else {
            Grade::F
        }
    }
}

impl Grade {
    /// The grade's letter.
    pub fn letter(&self) -> (s: &'static str)
        ensures
            s@ == (match *self {
                Grade::A => "A"@,
                Grade::B => "B"@,
                Grade::F => "F"@,
            }),
    {
        match self {
            Grade::A => "A",
            Grade::B => "B",
            Grade::F => "F",
        }
    }

    /// Process exit code of a benchmark run: 0 for grade A, 10 otherwise.
    pub fn exit_code(&self) -> (code: u8)
        ensures
            code == (if *self == Grade::A {
                0u8
            } else {
                10u8
            }),
    {
        match self {
            Grade::A => 0,
            _ => 10,
        }
    }
}

/// The identifier of the hermetic corpus.
pub open spec fn corpus_text() -> Seq<char> {
    "reposeal-benchmark-v1:100-canonical:100-hallusquat:50-malicious"@
}

/// The corpus hash reported with every benchmark run.
pub fn benchmark_corpus_hash() -> (d: Sha256Digest)
    ensures
        d@ == domain_digest(ascii_seq("benchmark-corpus/v1"@), ascii_seq(corpus_text())),
{
    proof {
        reveal_strlit("benchmark-corpus/v1");
        reveal_strlit("reposeal-benchmark-v1:100-canonical:100-hallusquat:50-malicious");
    }
    let tag = ascii_bytes("benchmark-corpus/v1");
    let corpus = ascii_bytes("reposeal-benchmark-v1:100-canonical:100-hallusquat:50-malicious");
    Sha256Digest::domain(tag.as_slice(), corpus.as_slice())
}

// ---------------------------------------------------------------------------
// The audit hash chain
// ---------------------------------------------------------------------------

pub open spec fn audit_genesis_spec() -> Seq<char> {
    domain_digest(ascii_seq("audit-genesis/v1"@), Seq::<u8>::empty())
}

pub open spec fn audit_domain() -> Seq<u8> {
    ascii_seq("audit-event/v1"@)
}

/// The hash that precedes the first audit event.
pub fn audit_genesis() -> (d: Sha256Digest)
    ensures
        d@ == audit_genesis_spec(),
{
    proof {
        reveal_strlit("audit-genesis/v1");
    }
    let tag = ascii_bytes("audit-genesis/v1");
    let empty: Vec<u8> = Vec::new();
    proof {
        assert(empty@ =~= Seq::<u8>::empty());
    }
    Sha256Digest::domain(tag.as_slice(), empty.as_slice())
}

/// The hash of an audit event whose other fields encode to
/// `canonical_fields` (canonical JSON without `event_hash`).
pub fn audit_event_hash(canonical_fields: &[u8]) -> (d: Sha256Digest)
    ensures
        d@ == domain_digest(audit_domain(), canonical_fields@),
{
    proof {
        reveal_strlit("audit-event/v1");
    }
    let tag = ascii_bytes("audit-event/v1");
    Sha256Digest::domain(tag.as_slice(), canonical_fields)
}

/// What the chain check reads of one audit event.
pub struct AuditLink {
    pub schema_version: u16,
    pub sequence: u64,
    pub previous_hash: Sha256Digest,
    pub event_hash: Sha256Digest,
    /// Canonical JSON of every field but `event_hash`.
    pub canonical_fields: Vec<u8>,
}

pub struct AuditLinkView {
    pub schema_version: u16,
    pub sequence: u64,
    pub previous_hash: Seq<char>,
    pub event_hash: Seq<char>,
    pub canonical_fields: Seq<u8>,
}

impl View for AuditLink {
    type V = AuditLinkView;

    open spec fn view(&self) -> AuditLinkView {
        AuditLinkView {
            schema_version: self.schema_version,
            sequence: self.sequence,
            previous_hash: self.previous_hash@,
            event_hash: self.event_hash@,
            canonical_fields: self.canonical_fields@,
        }
    }
}

/// Whether `l` correctly follows an event numbered `expected - 1` whose
/// hash is `previous`.
pub open spec fn link_ok(l: AuditLinkView, expected: u64, previous: Seq<char>) -> bool {
    &&& l.schema_version == 1
    &&& l.sequence == expected
    &&& l.previous_hash == previous
    &&& domain_digest(audit_domain(), l.canonical_fields) == l.event_hash
}

/// Walking the chain: the next expected sequence number and the last hash,
/// or the sequence number of the first broken event.
pub open spec fn chain_walk(links: Seq<AuditLinkView>) -> Result<(u64, Seq<char>), u64>
    decreases links.len(),
{
    if links.len() == 0 {
        Ok((1u64, audit_genesis_spec()))
    } else {
        match chain_walk(links.drop_last()) {
            Err(s) => Err(s),
            Ok((expected, previous)) => {
                let l = links.last();
                if link_ok(l, expected, previous) {
                    Ok((expected.saturating_add(1), l.event_hash))
                } else {
                    Err(l.sequence)
                }
            },
        }
    }
}

/// The number of events of a valid chain, or the sequence number of the
/// first invalid event.
pub open spec fn audit_chain_spec(links: Seq<AuditLinkView>) -> Result<u64, u64> {
    match chain_walk(links) {
        Ok((expected, _)) => Ok(expected.saturating_sub(1)),
        Err(s) => Err(s),
    }
}

/// An audit event that breaks the chain.
#[derive(Clone, Copy, Debug, PartialEq, Eq, Structural)]
pub struct AuditError {
    /// The sequence number that the event claims.
    pub sequence: u64,
}

/// Checks an audit log: each event has schema 1, the next sequence number,
/// the previous event's hash, and a hash that binds its other fields.
pub fn verify_audit_chain(links: &Vec<AuditLink>) -> (r: Result<u64, AuditError>)
    ensures
        match audit_chain_spec(views_of(links@)) {
            Ok(n) => r == Ok::<u64, AuditError>(n),
            Err(s) => r == Err::<u64, AuditError>(AuditError { sequence: s }),
        },
{
    let ghost lv = views_of(links@);
    let mut previous = audit_genesis();
    let mut expected: u64 = 1;
    let mut i: usize = 0;
    proof {
        assert(lv.take(0) =~= Seq::<AuditLinkView>::empty());
    }
    while i < links.len()
        invariant
            i <= links.len(),
            lv == views_of(links@),
            chain_walk(lv.take(i as int)) == Ok::<(u64, Seq<char>), u64>((expected, previous@)),
        decreases links.len() - i,
    {
        let l = &links[i];
        proof {
            assert(lv.take(i + 1).drop_last() =~= lv.take(i as int));
            assert(lv.take(i + 1).last() == l@);
        }
        let hash = audit_event_hash(l.canonical_fields.as_slice());
        if l.schema_version != 1 || l.sequence != expected || !l.previous_hash.same_as(&previous)
            || !hash.same_as(&l.event_hash) {
            proof {
                lemma_chain_error_sticks(lv, i + 1);
            }
            return Err(AuditError { sequence: l.sequence });
        }
        previous = l.event_hash.duplicate();
        expected = expected.saturating_add(1);
        i += 1;
    }
    proof {
        assert(lv.take(links.len() as int) =~= lv);
    }
    Ok(expected.saturating_sub(1))
}

proof fn lemma_chain_error_sticks(links: Seq<AuditLinkView>, n: int)
    requires
        0 <= n <= links.len(),
        chain_walk(links.take(n)) is Err,
    ensures
        chain_walk(links) == chain_walk(links.take(n)),
    decreases links.len() - n,
{
    if n < links.len() {
        assert(links.take(n + 1).drop_last() =~= links.take(n));
        lemma_chain_error_sticks(links, n + 1);
    } else {
        assert(links.take(n) =~= links);
    }
}

/// Where the next audit event attaches: after the last event of a valid
/// chain (its sequence number and hash), or at sequence 0 after the genesis
/// hash for an empty log.
pub open spec fn audit_tail_spec(links: Seq<AuditLinkView>) -> (u64, Seq<char>) {
    if links.len() == 0 {
        (0u64, audit_genesis_spec())
    } else {
        (links.last().sequence, links.last().event_hash)
    }
}

pub fn audit_tail(links: &Vec<AuditLink>) -> (r: (u64, Sha256Digest))
    ensures
        (r.0, r.1@) == audit_tail_spec(views_of(links@)),
{
    if links.len() == 0 {
        (0, audit_genesis())
    } else {
        let l = &links[links.len() - 1];
        (l.sequence, l.event_hash.duplicate())
    }
}

/// A valid chain ends where its tail says: the next event number is one
/// after the tail's, and the last hash is the tail's.
pub proof fn lemma_chain_tail(links: Seq<AuditLinkView>)
    requires
        chain_walk(links) is Ok,
        links.len() < u64::MAX,
    ensures
        chain_walk(links) == Ok::<(u64, Seq<char>), u64>(
            ((audit_tail_spec(links).0 + 1) as u64, audit_tail_spec(links).1),
        ),
        links.len() > 0 ==> audit_tail_spec(links).0 == links.len(),
    decreases links.len(),
{
    if links.len() > 0 {
        lemma_chain_tail(links.drop_last());
    }
}

/// Appending an event built from a valid chain's tail (next sequence
/// number, the tail's hash, and its own hash over its fields) keeps the
/// chain valid and counts one more event.
pub proof fn law_audit_append(links: Seq<AuditLinkView>, next: AuditLinkView)
    requires
        audit_chain_spec(links) is Ok,
        links.len() + 1 < u64::MAX,
        next.schema_version == 1,
        next.sequence == (audit_tail_spec(links).0 + 1) as u64,
        next.previous_hash == audit_tail_spec(links).1,
        next.event_hash == domain_digest(audit_domain(), next.canonical_fields),
    ensures
        audit_chain_spec(links.push(next)) == Ok::<u64, u64>((links.len() + 1) as u64),
{
    lemma_chain_tail(links);
    assert(links.push(next).drop_last() =~= links);
    if links.len() > 0 {
        assert(audit_tail_spec(links).0 == links.len());
    }
}

/// Altering the fields of any event of a valid chain, keeping its recorded
/// hash, breaks the chain at that event unless the new fields hash the same.
pub proof fn law_audit_tamper(links: Seq<AuditLinkView>, i: int, fields: Seq<u8>)
    requires
        audit_chain_spec(links) is Ok,
        0 <= i < links.len(),
        domain_digest(audit_domain(), fields) != links[i].event_hash,
    ensures
        audit_chain_spec(links.update(i, AuditLinkView { canonical_fields: fields, ..links[i] }))
            == Err::<u64, u64>(links[i].sequence),
{
    let t = links.update(i, AuditLinkView { canonical_fields: fields, ..links[i] });
    lemma_walk_prefix_ok(links, i + 1);
    assert(t.take(i) =~= links.take(i));
    assert(t.take(i + 1).drop_last() =~= t.take(i));
    assert(links.take(i + 1).drop_last() =~= links.take(i));
    assert(t.take(i + 1).last() == t[i]);
    assert(links.take(i + 1).last() == links[i]);
    lemma_chain_error_sticks(t, i + 1);
}

proof fn lemma_walk_prefix_ok(links: Seq<AuditLinkView>, n: int)
    requires
        chain_walk(links) is Ok,
        0 <= n <= links.len(),
    ensures
        chain_walk(links.take(n)) is Ok,
    decreases links.len() - n,
{
    if n < links.len() {
        lemma_walk_prefix_ok(links, n + 1);
        assert(links.take(n + 1).drop_last() =~= links.take(n));
    } else {
        assert(links.take(n) =~= links);
    }
}

// ---------------------------------------------------------------------------
// Verifying one component
// ---------------------------------------------------------------------------

/// The resolution recorded when a provider could not be reached: no
/// canonical identity, unavailable evidence from the ecosystem, and a high
/// signal carrying the provider's error.
pub fn provider_failure_resolution(component: &ComponentRef, message: &str, now: Timestamp) -> (r:
    Resolution)
    ensures
        r.canonical is None,
        evidence_view(r.evidence@) == seq![
            EvidenceView {
                kind: EvidenceKind::Unavailable,
                source: prefix_of(component.ecosystem),
                claim: message@,
                strength: EvidenceStrength::Weak,
                observed_at: now,
                expires_at: None,
                metadata: Seq::<(Seq<char>, Seq<char>)>::empty(),
            },
        ],
        signals_view(r.signals@) == seq![
            SignalView {
                code: "RS-PROVIDER-UNAVAILABLE"@,
                severity: Severity::High,
                message: message@,
                evidence_source: None,
                remediation: "Retry with provider access or use an exact verified lock entry"@,
            },
        ],
        r.hallusquat_candidates@.len() == 0,
{
    let mut evidence: Vec<Evidence> = Vec::new();
    evidence.push(unavailable_evidence(component.ecosystem.prefix(), message, now));
    let mut signals: Vec<Signal> = Vec::new();
    signals.push(
        Signal {
            code: "RS-PROVIDER-UNAVAILABLE".to_string(),
            severity: Severity::High,
            message: message.to_string(),
            evidence_source: None,
            remediation: "Retry with provider access or use an exact verified lock entry".to_string(),
        },
    );
    let r = Resolution {
        canonical: None,
        evidence,
        signals,
        hallusquat_candidates: Vec::new(),
    };
    proof {
        assert(evidence_view(r.evidence@) =~= seq![r.evidence@[0]@]);
        assert(signals_view(r.signals@) =~= seq![r.signals@[0]@]);
    }
    r
}

/// Whether `lock` holds an entry for `component`.
pub open spec fn locked_spec(lock: Option<&AgentLock>, component: ComponentId) -> bool {
    match lock {
        Some(l) => ids(l.components@).contains(id_of(component)),
        None => false,
    }
}

/// `r` is the unsealed report that policy `p` gives on `res` for `req`.
pub open spec fn assessed_on(
    r: VerificationReport,
    p: PolicyDocument,
    req: ComponentId,
    res: Resolution,
    locked: bool,
) -> bool {
    &&& r.decision == decision_of(p, req, res, locked)
    &&& r.risk == risk_of(p, req, res, locked)
    &&& signals_view(r.signals@) == sorted_signals(final_signals(p, req, res, locked))
    &&& evidence_view(r.evidence@) == sorted_evidence(evidence_view(res.evidence@))
    &&& opt_component_view(r.canonical) == opt_component_view(res.canonical)
    &&& r.schema_version == 1
    &&& r.report_hash@ == placeholder_hash()
}

/// The unsealed report for `component`: locked when the lock lists it, and
/// evaluated on the provider's resolution or, when the provider failed with
/// a message, on [`provider_failure_resolution`].
pub fn assess(
    policy: &CompiledPolicy,
    component: ComponentRef,
    resolution: Result<Resolution, String>,
    lock: Option<&AgentLock>,
    request_id: String,
    now: Timestamp,
) -> (r: VerificationReport)
    ensures
        r.request@ == component@,
        r.request_id@ == request_id@,
        r.evaluated_at == now,
        match resolution {
            Ok(res) => assessed_on(r, policy.doc(), component@, res, locked_spec(lock, component@)),
            Err(message) => exists|res: Resolution| #[trigger] failure_resolution_of(res, component@, message@, now)
                && assessed_on(r, policy.doc(), component@, res, locked_spec(lock, component@)),
        },
        resolution is Err ==> r.decision != Decision::Verified,
{
    let locked = match lock {
        Some(l) => l.contains(&component),
        None => false,
    };
    let res = match resolution {
        Ok(res) => res,
        Err(message) => {
            let res = provider_failure_resolution(&component, message.as_str(), now);
            proof {
                assert(failure_resolution_of(res, component@, message@, now));
                law_provider_failure_is_never_verified(
                    policy.doc(),
                    component@,
                    message@,
                    now,
                    res,
                    locked_spec(lock, component@),
                );
            }
            res
        },
    };
    policy.evaluate(component, res, locked, request_id, now)
}

/// `res` is the provider-failure resolution for `component` and `message`.
pub open spec fn failure_resolution_of(res: Resolution, component: ComponentId, message: Seq<char>, now: Timestamp) -> bool {
    &&& res.canonical is None
    &&& evidence_view(res.evidence@) == seq![
        EvidenceView {
            kind: EvidenceKind::Unavailable,
            source: prefix_of(component.ecosystem),
            claim: message,
            strength: EvidenceStrength::Weak,
            observed_at: now,
            expires_at: None,
            metadata: Seq::<(Seq<char>, Seq<char>)>::empty(),
        },
    ]
    &&& signals_view(res.signals@) == seq![
        SignalView {
            code: "RS-PROVIDER-UNAVAILABLE"@,
            severity: Severity::High,
            message,
            evidence_source: None,
            remediation: "Retry with provider access or use an exact verified lock entry"@,
        },
    ]
}


/// A provider that could not answer never yields a verified decision: its
/// failure stands in the report as a high signal, never as silent success,
/// whatever the policy, the lock or the message.
pub proof fn law_provider_failure_is_never_verified(
    p: PolicyDocument,
    component: ComponentId,
    message: Seq<char>,
    now: Timestamp,
    res: Resolution,
    locked: bool,
)
    requires
        failure_resolution_of(res, component, message, now),
    ensures
        decision_of(p, component, res, locked) != Decision::Verified,
{
    law_verified_is_clean(p, component, res, locked);
    let f = final_signals(p, component, res, locked);
    assert(res.signals@[0]@.severity == Severity::High);
    assert(f[0] == signals_view(res.signals@)[0]);
    assert(sev_rank(f[0].severity) == 3);
}

// ---------------------------------------------------------------------------
// The benchmark's promise under the secure default
// ---------------------------------------------------------------------------

/// Lowercase ASCII letters, digits and `-` only.
pub open spec fn fixture_chars(s: Seq<char>) -> bool {
    forall|i: int| 0 <= i < s.len() ==> is_lower(#[trigger] s[i]) || is_digit(s[i]) || s[i] == '-'
}

proof fn lemma_decimal_digits(n: nat)
    ensures
        fixture_chars(decimal(n)),
        n < 100 ==> decimal(n).len() <= 2,
        decimal(n).len() >= 1,
    decreases n,
{
    if n >= 10 {
        lemma_decimal_digits(n / 10);
        let d = decimal(n / 10);
        assert forall|i: int| 0 <= i < decimal(n).len() implies is_lower(#[trigger] decimal(n)[i])
            || is_digit(decimal(n)[i]) || decimal(n)[i] == '-' by {
            if i < d.len() {
                assert(decimal(n)[i] == d[i]);
            } else {
                assert(decimal(n)[i] == digit_char(n % 10));
            }
        }
    } else {
        assert(decimal(n)[0] == digit_char(n));
    }
}

proof fn lemma_fixture_concat(a: Seq<char>, b: Seq<char>)
    requires
        fixture_chars(a),
        fixture_chars(b),
    ensures
        fixture_chars(a + b),
{
    assert forall|i: int| 0 <= i < (a + b).len() implies is_lower(#[trigger] (a + b)[i]) || is_digit(
        (a + b)[i],
    ) || (a + b)[i] == '-' by {
        if i < a.len() {
            assert((a + b)[i] == a[i]);
        } else {
            assert((a + b)[i] == b[i - a.len()]);
        }
    }
}

proof fn lemma_fixture_ascii(s: Seq<char>)
    requires
        fixture_chars(s),
    ensures
        is_ascii_text(s),
        forall|i: int| 0 <= i < s.len() ==> !is_white(#[trigger] s[i]) && s[i] != '/' && s[i] != '.',
        all_in_class(CharClass::Slug, s),
{
    assert forall|i: int| 0 <= i < s.len() implies (#[trigger] s[i] as u32) < 0x80 by {
        assert(is_lower(s[i]) || is_digit(s[i]) || s[i] == '-');
    }
    assert forall|i: int| 0 <= i < s.len() implies in_class(CharClass::Slug, #[trigger] s[i]) by {
        assert(is_lower(s[i]) || is_digit(s[i]) || s[i] == '-');
    }
}

/// `a/b` with both parts short fixture text names a valid owner and project.
proof fn lemma_pair_normalizes(e: Ecosystem, a: Seq<char>, b: Seq<char>)
    requires
        e == Ecosystem::Github || e == Ecosystem::Skill,
        fixture_chars(a),
        fixture_chars(b),
        1 <= a.len() <= 100,
        1 <= b.len() <= 100,
    ensures
        normalize_spec(e, a + seq!['/'] + b) is Ok,
{
    let s = a + seq!['/'] + b;
    lemma_fixture_ascii(a);
    lemma_fixture_ascii(b);
    assert(s[0] == a[0]);
    assert(s.last() == b[b.len() - 1]);
    assert(trim(s) == s) by {
        assert(!is_white(s[0]));
        assert(!is_white(s.last()));
        assert(!(trim_pred(TrimKind::White))(s[0]));
        assert(!(trim_pred(TrimKind::White))(s.last()));
    }
    assert(trim_char(s, '/') == s) by {
        assert(!(trim_pred(TrimKind::Char('/')))(s[0]));
        assert(!(trim_pred(TrimKind::Char('/')))(s.last()));
    }
    assert(is_ascii_text(s)) by {
        assert forall|i: int| 0 <= i < s.len() implies (#[trigger] s[i] as u32) < 0x80 by {
            if i < a.len() {
                assert(s[i] == a[i]);
            } else if i > a.len() {
                assert(s[i] == b[i - a.len() - 1]);
            } else {
                assert(s[i] == '/');
            }
        }
    }
    lemma_ascii_utf8_len(s);
    assert(!contains_sub(s, ".."@)) by {
        reveal_strlit("..");
        if contains_sub(s, ".."@) {
            let i = choose|i: int| occurs_at(s, ".."@, i);
            assert(s.subrange(i, i + 2)[0] == '.');
            assert(s[i] == '.');
            if i < a.len() {
                assert(s[i] == a[i]);
            } else if i > a.len() {
                assert(s[i] == b[i - a.len() - 1]);
            }
        }
    }
    assert(lacks(a, '/') && lacks(b, '/')) by {
        assert forall|i: int| 0 <= i < a.len() implies #[trigger] a[i] != '/' by {
            assert(fixture_chars(a));
        }
        assert forall|i: int| 0 <= i < b.len() implies #[trigger] b[i] != '/' by {
            assert(fixture_chars(b));
        }
    }
    lemma_split_two(a, b, '/');
    assert(safe_slug(a));
    assert(safe_slug(b));
}

proof fn lemma_literal_fixture(s: Seq<char>)
    requires
        forall|i: int| 0 <= i < s.len() ==> is_lower(#[trigger] s[i]) || s[i] == '-',
    ensures
        fixture_chars(s),
{
}

proof fn lemma_no_denies(p: PolicyDocument, req: ComponentId)
    requires
        is_secure_default(p),
    ensures
        explicit_denies(p.rules, req) == Seq::<SignalView>::empty(),
        !allowlisted(p, req),
{
    assert(strings_view(p.rules.deny_components@).len() == 0);
    assert(strings_view(p.rules.deny_owners@).len() == 0);
    assert(strings_view(p.rules.deny_domains@).len() == 0);
    assert(strings_view(p.rules.allow_components@).len() == 0);
    assert(!component_denied(p.rules, req));
    assert(!owner_denied(p.rules, req));
    assert(!domain_denied(p.rules, req));
    assert(explicit_denies(p.rules, req) =~= Seq::<SignalView>::empty());
}

/// Every corpus case comes out as it must under the secure default.
proof fn lemma_case_ok(p: PolicyDocument, kind: CaseKind, n: nat, now: Timestamp)
    requires
        is_secure_default(p),
        n < 100,
    ensures
        case_outcome(p, kind, n, now) == Ok::<bool, CoreError>(true),
{
    let d = decimal(n);
    lemma_decimal_digits(n);
    reveal_strlit("official-");
    reveal_strlit("/project-");
    reveal_strlit("project-");
    reveal_strlit("-official/project-");
    reveal_strlit("vendor-");
    reveal_strlit("attacker-");
    reveal_strlit("/skill-");
    reveal_strlit("-official");
    reveal_strlit("skill-");
    match kind {
        CaseKind::Canonical => {
            let a = "official-"@ + d;
            let b = "project-"@ + d;
            lemma_literal_fixture("official-"@);
            lemma_literal_fixture("project-"@);
            lemma_fixture_concat("official-"@, d);
            lemma_fixture_concat("project-"@, d);
            assert(fixture_name("official-"@, "/project-"@, n) =~= a + seq!['/'] + b);
            lemma_pair_normalizes(Ecosystem::Github, a, b);
            let req = new_spec(Ecosystem::Github, fixture_name("official-"@, "/project-"@, n), None)->Ok_0;
            lemma_no_denies(p, req);
            let sigs = Seq::<SignalView>::empty() + explicit_denies(p.rules, req);
            assert(sigs =~= Seq::<SignalView>::empty());
            assert(!has_conflict(sigs));
            assert(max_rank(sigs) == 0);
            let ev = seq![fixture_evidence(now)];
            assert(ev[0].strength != EvidenceStrength::Weak && ev[0].kind != EvidenceKind::Unavailable);
            assert(identity_sufficient(ev, false, false));
        },
        CaseKind::Hallusquat => {
            let a = "project-"@ + d + "-official"@;
            let b = "project-"@ + d;
            let v = "vendor-"@ + d;
            lemma_literal_fixture("project-"@);
            lemma_literal_fixture("-official"@);
            lemma_literal_fixture("vendor-"@);
            lemma_fixture_concat("project-"@, d);
            lemma_fixture_concat("project-"@ + d, "-official"@);
            lemma_fixture_concat("vendor-"@, d);
            assert(fixture_name("project-"@, "-official/project-"@, n) =~= a + seq!['/'] + b);
            assert(fixture_name("vendor-"@, "/project-"@, n) =~= v + seq!['/'] + b);
            lemma_pair_normalizes(Ecosystem::Github, a, b);
            lemma_pair_normalizes(Ecosystem::Github, v, b);
            let req = new_spec(
                Ecosystem::Github,
                fixture_name("project-"@, "-official/project-"@, n),
                None,
            )->Ok_0;
            lemma_no_denies(p, req);
            let sigs = seq![mismatch_signal()] + explicit_denies(p.rules, req);
            assert(sigs[0] == mismatch_signal());
            assert(conflict_code(sigs[0].code));
            assert(has_conflict(sigs));
        },
        CaseKind::Malicious => {
            let a = "attacker-"@ + d;
            let b = "skill-"@ + d;
            lemma_literal_fixture("attacker-"@);
            lemma_literal_fixture("skill-"@);
            lemma_fixture_concat("attacker-"@, d);
            lemma_fixture_concat("skill-"@, d);
            assert(fixture_name("attacker-"@, "/skill-"@, n) =~= a + seq!['/'] + b);
            lemma_pair_normalizes(Ecosystem::Skill, a, b);
            let req = new_spec(Ecosystem::Skill, fixture_name("attacker-"@, "/skill-"@, n), None)->Ok_0;
            lemma_no_denies(p, req);
            let sigs = seq![payload_signal()] + explicit_denies(p.rules, req);
            assert(sigs =~= seq![payload_signal()]);
            assert(max_rank(sigs.drop_last()) == 0);
            assert(max_rank(sigs) == 4);
        },
    }
}

proof fn lemma_tally_all(p: PolicyDocument, kind: CaseKind, n: nat, now: Timestamp)
    requires
        is_secure_default(p),
        n <= 100,
    ensures
        tally(p, kind, n, now) == Ok::<nat, CoreError>(n),
    decreases n,
{
    if n > 0 {
        lemma_tally_all(p, kind, (n - 1) as nat, now);
        lemma_case_ok(p, kind, (n - 1) as nat, now);
    }
}

/// Under the secure default the hermetic benchmark selects every canonical
/// repository, blocks every HalluSquat and every malicious install, has no
/// false positive, and earns grade A.
pub proof fn law_benchmark_grade_a(p: PolicyDocument, now: Timestamp)
    requires
        is_secure_default(p),
    ensures
        benchmark_spec(p, now) == Ok::<BenchmarkTally, CoreError>(
            BenchmarkTally {
                canonical_selected: 100,
                canonical_total: 100,
                hallusquats_blocked: 100,
                hallusquats_total: 100,
                malicious_blocked: 50,
                malicious_total: 50,
                false_positives: 0,
            },
        ),
        grade_spec(benchmark_spec(p, now)->Ok_0) == Grade::A,
{
    lemma_tally_all(p, CaseKind::Canonical, 100, now);
    lemma_tally_all(p, CaseKind::Hallusquat, 100, now);
    lemma_tally_all(p, CaseKind::Malicious, 50, now);
}


// ---------------------------------------------------------------------------
// MCP requests
// ---------------------------------------------------------------------------

/// The largest MCP frame (one JSON-RPC message per line) that is read.
pub const MAX_MCP_FRAME_BYTES: usize = 1048576;

/// The JSON-RPC error code of an unknown method.
pub const MCP_METHOD_NOT_FOUND: i32 = -32601;

/// The JSON-RPC error code of a tool call that failed.
pub const MCP_TOOL_FAILED: i32 = -32001;

/// What an MCP request asks for.
#[derive(Clone, Copy, Debug, PartialEq, Eq, Structural)]
pub enum McpRoute {
    /// `initialize`: the server's protocol version, name and capabilities.
    Initialize,
    /// `tools/list`: the two tools.
    ListTools,
    /// `tools/call`: one tool call.
    CallTool,
    /// `notifications/initialized`: nothing is answered.
    Initialized,
    /// Any other method: a method-not-found error.
    Unknown,
}

pub open spec fn mcp_route_spec(method: Seq<char>) -> McpRoute {
    if method == "initialize"@ {
        McpRoute::Initialize
    } else if method == "tools/list"@ {
        McpRoute::ListTools
    } else if method == "tools/call"@ {
        McpRoute::CallTool
    } else if method == "notifications/initialized"@ {
        McpRoute::Initialized
    } else {
        McpRoute::Unknown
    }
}

/// Routes an MCP request by its method name.
pub fn mcp_route(method: &str) -> (r: McpRoute)
    ensures
        r == mcp_route_spec(method@),
{
    if str_eq(method, "initialize") {
        McpRoute::Initialize
    } else if str_eq(method, "tools/list") {
        McpRoute::ListTools
    } else if str_eq(method, "tools/call") {
        McpRoute::CallTool
    } else if str_eq(method, "notifications/initialized") {
        McpRoute::Initialized
    } else {
        McpRoute::Unknown
    }
}

/// The tools that the MCP server offers.
#[derive(Clone, Copy, Debug, PartialEq, Eq, Structural)]
pub enum McpTool {
    /// `verify_dependency`: resolve and verify one reference.
    VerifyDependency,
    /// `scan_path`: statically scan local content.
    ScanPath,
    /// Any other name: the call fails.
    Unknown,
}

pub open spec fn mcp_tool_spec(name: Seq<char>) -> McpTool {
    if name == "verify_dependency"@ {
        McpTool::VerifyDependency
    } else if name == "scan_path"@ {
        McpTool::ScanPath
    } else {
        McpTool::Unknown
    }
}

/// The tool that a `tools/call` request names.
pub fn mcp_tool(name: &str) -> (r: McpTool)
    ensures
        r == mcp_tool_spec(name@),
{
    if str_eq(name, "verify_dependency") {
        McpTool::VerifyDependency
    } else if str_eq(name, "scan_path") {
        McpTool::ScanPath
    } else {
        McpTool::Unknown
    }
}

} // verus!
