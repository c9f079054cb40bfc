//! Strict policy documents and the deterministic decision engine.

use vstd::prelude::*;

use crate::identity::{
    any_control, any_control_exec, id_of, owner_project_of, parse_url, parsed_url, strings_view,
    ComponentId, ComponentRef, Ecosystem,
};
use crate::report::{
    clone_signals,    evidence_view, opt_component_view, placeholder_hash, sev_rank, signals_view, sorted_evidence,
    sorted_signals, Decision, EvidenceKind, EvidenceStrength, EvidenceView,
    Risk, Severity, Signal, SignalView, Timestamp, VerificationReport,
};
use crate::resolver::Resolution;
use crate::sort::stable_sorted;
use crate::text::{chars_eq, chars_of, lower, lower_chars, utf8_len, utf8_len_exceeds};

verus! {

/// Stable policy API.
pub const POLICY_API_VERSION: &'static str = "reposeal.dev/v1";

/// Enforcement mode.
#[derive(Clone, Copy, Debug, PartialEq, Eq, Structural)]
pub enum Mode {
    /// Block decisions prevent child execution.
    Enforce,
    /// Blocks are reported but the calling integration may observe only.
    Audit,
}

/// Behavior when canonical identity cannot be established.
#[derive(Clone, Copy, Debug, PartialEq, Eq, Structural)]
pub enum UnresolvedAction {
    /// Do not execute.
    Block,
    /// Require explicit review.
    Review,
}

/// Default decision behavior.
#[derive(Clone, Copy, Debug, PartialEq, Eq, Structural)]
pub struct Defaults {
    /// Enforcement versus observation.
    pub mode: Mode,
    /// Missing canonical evidence behavior.
    pub unresolved: UnresolvedAction,
    /// Escalate any high signal from review to block.
    pub block_high: bool,
    /// Require a matching lock entry when offline.
    pub require_lock_offline: bool,
    /// Require strong OS sandbox for dynamic install inspection.
    pub require_strong_sandbox: bool,
}

/// Explicit policy lists of exact values; each list is a set.
#[derive(Clone, Debug, Default)]
pub struct Rules {
    /// Exact canonical component IDs that may resolve from lock/policy evidence.
    pub allow_components: Vec<String>,
    /// Exact component IDs denied regardless of provider evidence.
    pub deny_components: Vec<String>,
    /// Lowercase GitHub/skill/MCP/plugin owners denied.
    pub deny_owners: Vec<String>,
    /// Lowercase direct-download domains denied.
    pub deny_domains: Vec<String>,
    /// Trusted direct-download domains; integrity is still required separately.
    pub trusted_domains: Vec<String>,
}

/// Strict top-level policy.
#[derive(Clone, Debug)]
pub struct PolicyDocument {
    /// Must be `reposeal.dev/v1`.
    pub api_version: String,
    /// Must be `RepoSealPolicy`.
    pub kind: String,
    /// Default decisions.
    pub defaults: Defaults,
    /// Exact allow/deny roots.
    pub rules: Rules,
}

/// Policy validation error.
#[derive(Clone, Debug)]
pub enum PolicyError {
    /// Semantic policy validation failed.
    Validation(String),
}

/// Serde default for the two boolean defaults that start enabled.
pub fn default_true() -> (r: bool)
    ensures
        r,
{
    true
}

// ---------------------------------------------------------------------------
// Validation
// ---------------------------------------------------------------------------

/// A rule value: non-empty, at most 2048 bytes, no control characters, and
/// already in ASCII lowercase.
pub open spec fn rule_value_ok(v: Seq<char>) -> bool {
    v.len() > 0 && utf8_len(v) <= 2048 && !any_control(v) && v == lower(v)
}

pub open spec fn all_rule_values_ok(vs: Seq<Seq<char>>) -> bool {
    forall|i: int| 0 <= i < vs.len() ==> rule_value_ok(#[trigger] vs[i])
}

pub open spec fn rules_ok(r: Rules) -> bool {
    &&& all_rule_values_ok(strings_view(r.allow_components@))
    &&& all_rule_values_ok(strings_view(r.deny_components@))
    &&& all_rule_values_ok(strings_view(r.deny_owners@))
    &&& all_rule_values_ok(strings_view(r.deny_domains@))
    &&& all_rule_values_ok(strings_view(r.trusted_domains@))
}

pub open spec fn overlap(a: Seq<Seq<char>>, b: Seq<Seq<char>>) -> bool {
    exists|i: int| 0 <= i < a.len() && b.contains(#[trigger] a[i])
}

/// The validation message for `d`, or `None` when `d` is a valid policy.
pub open spec fn validation_error(d: PolicyDocument) -> Option<Seq<char>> {
    if d.api_version@ != "reposeal.dev/v1"@ {
        Some("apiVersion must be reposeal.dev/v1"@)
    } else if d.kind@ != "RepoSealPolicy"@ {
        Some("kind must be RepoSealPolicy"@)
    } else if !rules_ok(d.rules) {
        Some("rule values must be bounded lowercase values without controls"@)
    } else if overlap(
        strings_view(d.rules.allow_components@),
        strings_view(d.rules.deny_components@),
    ) {
        Some("the same component cannot be both allowed and denied"@)
    } else {
        None
    }
}

fn rule_value_ok_exec(v: &String) -> (r: bool)
    ensures
        r == rule_value_ok(v@),
{
    let c = chars_of(v.as_str());
    if c.len() == 0 || utf8_len_exceeds(c.as_slice(), 2048) || any_control_exec(c.as_slice()) {
        return false;
    }
    let l = lower_chars(c.as_slice());
    chars_eq(c.as_slice(), l.as_slice())
}

fn all_rule_values_ok_exec(vs: &Vec<String>) -> (r: bool)
    ensures
        r == all_rule_values_ok(strings_view(vs@)),
{
    let mut i: usize = 0;
    while i < vs.len()
        invariant
            i <= vs.len(),
            forall|k: int| 0 <= k < i ==> rule_value_ok(#[trigger] strings_view(vs@)[k]),
        decreases vs.len() - i,
    {
        if !rule_value_ok_exec(&vs[i]) {
            proof {
                assert(strings_view(vs@)[i as int] == vs@[i as int]@);
            }
            return false;
        }
        i += 1;
    }
    true
}

/// Whether `x` is one of the values of `vs`.
pub fn contains_string(vs: &Vec<String>, x: &String) -> (r: bool)
    ensures
        r == strings_view(vs@).contains(x@),
{
    let mut i: usize = 0;
    while i < vs.len()
        invariant
            i <= vs.len(),
            forall|k: int| 0 <= k < i ==> strings_view(vs@)[k] != x@,
        decreases vs.len() - i,
    {
        if vs[i] == *x {
            proof {
                assert(strings_view(vs@)[i as int] == x@);
            }
            return true;
        }
        i += 1;
    }
    false
}

fn overlap_exec(a: &Vec<String>, b: &Vec<String>) -> (r: bool)
    ensures
        r == overlap(strings_view(a@), strings_view(b@)),
{
    let mut i: usize = 0;
    while i < a.len()
        invariant
            i <= a.len(),
            forall|k: int| 0 <= k < i ==> !strings_view(b@).contains(#[trigger] strings_view(a@)[k]),
        decreases a.len() - i,
    {
        if contains_string(b, &a[i]) {
            proof {
                assert(strings_view(a@)[i as int] == a@[i as int]@);
                assert(strings_view(b@).contains(strings_view(a@)[i as int]));
            }
            return true;
        }
        i += 1;
    }
    false
}

fn text_is(s: &String, lit: &str) -> (r: bool)
    ensures
        r == (s@ == lit@),
{
    let a = chars_of(s.as_str());
    let b = chars_of(lit);
    chars_eq(a.as_slice(), b.as_slice())
}

/// Checks API version, kind, rule-value shape, and allow/deny disjointness.
pub fn validate(document: &PolicyDocument) -> (r: Result<(), PolicyError>)
    ensures
        match validation_error(*document) {
            None => r is Ok,
            Some(m) => r matches Err(PolicyError::Validation(x)) && x@ == m,
        },
{
    if !text_is(&document.api_version, "reposeal.dev/v1") {
        return Err(PolicyError::Validation(String::from_str("apiVersion must be reposeal.dev/v1")));
    }
    if !text_is(&document.kind, "RepoSealPolicy") {
        return Err(PolicyError::Validation(String::from_str("kind must be RepoSealPolicy")));
    }
    let r = &document.rules;
    if !all_rule_values_ok_exec(&r.allow_components) || !all_rule_values_ok_exec(
        &r.deny_components,
    ) || !all_rule_values_ok_exec(&r.deny_owners) || !all_rule_values_ok_exec(&r.deny_domains)
        || !all_rule_values_ok_exec(&r.trusted_domains) {
        return Err(
            PolicyError::Validation(
                String::from_str("rule values must be bounded lowercase values without controls"),
            ),
        );
    }
    if overlap_exec(&r.allow_components, &r.deny_components) {
        return Err(
            PolicyError::Validation(
                String::from_str("the same component cannot be both allowed and denied"),
            ),
        );
    }
    Ok(())
}

// ---------------------------------------------------------------------------
// Compiled policy
// ---------------------------------------------------------------------------

/// Validated immutable policy.
#[derive(Clone, Debug)]
pub struct CompiledPolicy {
    document: PolicyDocument,
}

impl CompiledPolicy {
    /// The authoring document of this policy.
    pub closed spec fn doc(&self) -> PolicyDocument {
        self.document
    }

    /// Validates a parsed policy document.
    pub fn from_document(document: PolicyDocument) -> (r: Result<Self, PolicyError>)
        ensures
            match validation_error(document) {
                None => r matches Ok(p) && p.doc() == document,
                Some(m) => r matches Err(PolicyError::Validation(x)) && x@ == m,
            },
    {
        match validate(&document) {
            Ok(()) => Ok(CompiledPolicy { document }),
            Err(e) => Err(e),
        }
    }

    /// Secure default for local enforcement.
    pub fn secure_default() -> (p: Self)
        ensures
            is_secure_default(p.doc()),
            p.doc().api_version@ == "reposeal.dev/v1"@,
            p.doc().kind@ == "RepoSealPolicy"@,
            p.doc().defaults == (Defaults {
                mode: Mode::Enforce,
                unresolved: UnresolvedAction::Block,
                block_high: false,
                require_lock_offline: true,
                require_strong_sandbox: true,
            }),
            p.doc().rules.allow_components@.len() == 0,
            p.doc().rules.deny_components@.len() == 0,
            p.doc().rules.deny_owners@.len() == 0,
            p.doc().rules.deny_domains@.len() == 0,
            p.doc().rules.trusted_domains@.len() == 0,
            validation_error(p.doc()) is None,
    {
        let document = PolicyDocument {
            api_version: String::from_str(POLICY_API_VERSION),
            kind: String::from_str("RepoSealPolicy"),
            defaults: Defaults {
                mode: Mode::Enforce,
                unresolved: UnresolvedAction::Block,
                block_high: false,
                require_lock_offline: true,
                require_strong_sandbox: true,
            },
            rules: Rules {
                allow_components: Vec::new(),
                deny_components: Vec::new(),
                deny_owners: Vec::new(),
                deny_domains: Vec::new(),
                trusted_domains: Vec::new(),
            },
        };
        proof {
            reveal_strlit("reposeal.dev/v1");
            reveal_strlit("RepoSealPolicy");
            assert(strings_view(document.rules.allow_components@) =~= Seq::<Seq<char>>::empty());
            assert(strings_view(document.rules.deny_components@) =~= Seq::<Seq<char>>::empty());
            assert(strings_view(document.rules.deny_owners@) =~= Seq::<Seq<char>>::empty());
            assert(strings_view(document.rules.deny_domains@) =~= Seq::<Seq<char>>::empty());
            assert(strings_view(document.rules.trusted_domains@) =~= Seq::<Seq<char>>::empty());
        }
        CompiledPolicy { document }
    }

    /// The policy in force: the given document once validated, or the
    /// secure default when none is configured.
    pub fn load(document: Option<PolicyDocument>) -> (r: Result<Self, PolicyError>)
        ensures
            match document {
                None => r matches Ok(p) && is_secure_default(p.doc()),
                Some(d) => match validation_error(d) {
                    None => r matches Ok(p) && p.doc() == d,
                    Some(m) => r matches Err(PolicyError::Validation(x)) && x@ == m,
                },
            },
    {
        match document {
            None => Ok(CompiledPolicy::secure_default()),
            Some(d) => CompiledPolicy::from_document(d),
        }
    }

    /// Returns the authoring document.
    pub fn document(&self) -> (d: &PolicyDocument)
        ensures
            *d == self.doc(),
    {
        &self.document
    }
}


/// The secure default: enforce, block unresolved identities, review high
/// signals, and no allow or deny rules.
pub open spec fn is_secure_default(d: PolicyDocument) -> bool {
    &&& d.defaults == (Defaults {
        mode: Mode::Enforce,
        unresolved: UnresolvedAction::Block,
        block_high: false,
        require_lock_offline: true,
        require_strong_sandbox: true,
    })
    &&& d.rules.allow_components@.len() == 0
    &&& d.rules.deny_components@.len() == 0
    &&& d.rules.deny_owners@.len() == 0
    &&& d.rules.deny_domains@.len() == 0
    &&& d.rules.trusted_domains@.len() == 0
}

// ---------------------------------------------------------------------------
// Decision engine
// ---------------------------------------------------------------------------

pub open spec fn deny_remediation() -> Seq<char> {
    "Remove the request or change policy through reviewed administration"@
}

/// The critical signal recorded when policy explicitly denies a request.
pub open spec fn deny_signal(code: Seq<char>, message: Seq<char>) -> SignalView {
    SignalView {
        code,
        severity: Severity::Critical,
        message,
        evidence_source: Some("policy"@),
        remediation: deny_remediation(),
    }
}

pub fn critical_deny(code: &str, message: &str) -> (s: Signal)
    ensures
        s@ == deny_signal(code@, message@),
{
    Signal {
        code: String::from_str(code),
        severity: Severity::Critical,
        message: String::from_str(message),
        evidence_source: Some(String::from_str("policy")),
        remediation: String::from_str(
            "Remove the request or change policy through reviewed administration",
        ),
    }
}

pub open spec fn component_denied(rules: Rules, req: ComponentId) -> bool {
    strings_view(rules.deny_components@).contains(id_of(req))
}

pub open spec fn owner_denied(rules: Rules, req: ComponentId) -> bool {
    match owner_project_of(req.name) {
        Some((o, _)) => strings_view(rules.deny_owners@).contains(o),
        None => false,
    }
}

pub open spec fn domain_denied(rules: Rules, req: ComponentId) -> bool {
    req.ecosystem == Ecosystem::Url && match parsed_url(req.name) {
        Some(u) => match u.host {
            Some(h) => strings_view(rules.deny_domains@).contains(h),
            None => false,
        },
        None => false,
    }
}

pub open spec fn if_seq(b: bool, s: SignalView) -> Seq<SignalView> {
    if b {
        seq![s]
    } else {
        Seq::<SignalView>::empty()
    }
}

/// The critical signals that explicit policy denials add, in this order:
/// denied component, denied owner, denied download domain.
pub open spec fn explicit_denies(rules: Rules, req: ComponentId) -> Seq<SignalView> {
    if_seq(
        component_denied(rules, req),
        deny_signal("RS-POLICY-COMPONENT-DENIED"@, "Component is explicitly denied by policy"@),
    ) + if_seq(
        owner_denied(rules, req),
        deny_signal("RS-POLICY-OWNER-DENIED"@, "Component owner is explicitly denied by policy"@),
    ) + if_seq(
        domain_denied(rules, req),
        deny_signal(
            "RS-POLICY-DOMAIN-DENIED"@,
            "Download domain is explicitly denied by policy"@,
        ),
    )
}

pub fn apply_explicit_denies(rules: &Rules, requested: &ComponentRef, signals: &mut Vec<Signal>)
    ensures
        signals_view(final(signals)@) == signals_view(old(signals)@) + explicit_denies(
            *rules,
            requested@,
        ),
{
    let ghost start = signals_view(signals@);
    let id = requested.id();
    let c = contains_string(&rules.deny_components, &id);
    if c {
        signals.push(
            critical_deny("RS-POLICY-COMPONENT-DENIED", "Component is explicitly denied by policy"),
        );
    }
    let ghost s1 = signals_view(signals@);
    proof {
        reveal_strlit("RS-POLICY-COMPONENT-DENIED");
        reveal_strlit("Component is explicitly denied by policy");
        assert(s1 =~= start + if_seq(
            component_denied(*rules, requested@),
            deny_signal(
                "RS-POLICY-COMPONENT-DENIED"@,
                "Component is explicitly denied by policy"@,
            ),
        ));
    }
    let o = match requested.owner_project() {
        Some((owner, _)) => {
            let os = String::from_str(owner);
            contains_string(&rules.deny_owners, &os)
        },
        None => false,
    };
    if o {
        signals.push(
            critical_deny(
                "RS-POLICY-OWNER-DENIED",
                "Component owner is explicitly denied by policy",
            ),
        );
    }
    let ghost s2 = signals_view(signals@);
    proof {
        assert(s2 =~= s1 + if_seq(
            owner_denied(*rules, requested@),
            deny_signal(
                "RS-POLICY-OWNER-DENIED"@,
                "Component owner is explicitly denied by policy"@,
            ),
        ));
    }
    let d = if requested.ecosystem == Ecosystem::Url {
        match parse_url(requested.name.as_str()) {
            Some(u) => match &u.host {
                Some(h) => contains_string(&rules.deny_domains, h),
                None => false,
            },
            None => false,
        }
    } else {
        false
    };
    if d {
        signals.push(
            critical_deny(
                "RS-POLICY-DOMAIN-DENIED",
                "Download domain is explicitly denied by policy",
            ),
        );
    }
    proof {
        assert(signals_view(signals@) =~= s2 + if_seq(
            domain_denied(*rules, requested@),
            deny_signal(
                "RS-POLICY-DOMAIN-DENIED"@,
                "Download domain is explicitly denied by policy"@,
            ),
        ));
    }
}

/// The highest severity rank among `s` (0, the rank of `Info`, when empty).
pub open spec fn max_rank(s: Seq<SignalView>) -> nat
    decreases s.len(),
{
    if s.len() == 0 {
        0
    } else {
        let m = max_rank(s.drop_last());
        if sev_rank(s.last().severity) > m {
            sev_rank(s.last().severity)
        } else {
            m
        }
    }
}

pub fn max_severity_rank(signals: &Vec<Signal>) -> (r: u8)
    ensures
        r == max_rank(signals_view(signals@)),
{
    let mut m: u8 = 0;
    let mut i: usize = 0;
    while i < signals.len()
        invariant
            i <= signals.len(),
            m == max_rank(signals_view(signals@).take(i as int)),
        decreases signals.len() - i,
    {
        proof {
            assert(signals_view(signals@).take(i + 1).drop_last() =~= signals_view(signals@).take(
                i as int,
            ));
        }
        let r = signals[i].severity.rank();
        if r > m {
            m = r;
        }
        i += 1;
    }
    proof {
        assert(signals_view(signals@).take(signals.len() as int) == signals_view(signals@));
    }
    m
}

/// Codes that mean the requested identity conflicts with the canonical one.
pub open spec fn conflict_code(c: Seq<char>) -> bool {
    c == "RS-IDENTITY-MISMATCH"@ || c == "RS-CANONICAL-OWNER-MISMATCH"@ || c
        == "RS-REPOSITORY-NOT-FOUND"@
}

pub open spec fn has_conflict(s: Seq<SignalView>) -> bool {
    exists|i: int| 0 <= i < s.len() && conflict_code(#[trigger] s[i].code)
}

fn has_conflict_exec(signals: &Vec<Signal>) -> (r: bool)
    ensures
        r == has_conflict(signals_view(signals@)),
{
    let mut i: usize = 0;
    while i < signals.len()
        invariant
            i <= signals.len(),
            forall|k: int| 0 <= k < i ==> !conflict_code(#[trigger] signals_view(signals@)[k].code),
        decreases signals.len() - i,
    {
        let c = &signals[i].code;
        if text_is(c, "RS-IDENTITY-MISMATCH") || text_is(c, "RS-CANONICAL-OWNER-MISMATCH")
            || text_is(c, "RS-REPOSITORY-NOT-FOUND") {
            proof {
                assert(signals_view(signals@)[i as int].code == c@);
            }
            return true;
        }
        proof {
            assert(signals_view(signals@)[i as int].code == c@);
        }
        i += 1;
    }
    false
}

/// Identity is sufficiently established: locked, allowlisted, or backed by
/// some non-weak evidence from an available provider.
pub open spec fn identity_sufficient(ev: Seq<EvidenceView>, locked: bool, allowlisted: bool) -> bool {
    locked || allowlisted || exists|i: int|
        0 <= i < ev.len() && (#[trigger] ev[i]).strength != EvidenceStrength::Weak && ev[i].kind
            != EvidenceKind::Unavailable
}

pub fn identity_evidence_sufficient(resolution: &Resolution, locked: bool, allowlisted: bool) -> (r:
    bool)
    ensures
        r == identity_sufficient(evidence_view(resolution.evidence@), locked, allowlisted),
{
    if locked || allowlisted {
        return true;
    }
    let ghost e = evidence_view(resolution.evidence@);
    let mut i: usize = 0;
    while i < resolution.evidence.len()
        invariant
            i <= resolution.evidence.len(),
            e == evidence_view(resolution.evidence@),
            forall|k: int|
                0 <= k < i ==> !((#[trigger] e[k]).strength != EvidenceStrength::Weak && e[k].kind
                    != EvidenceKind::Unavailable),
        decreases resolution.evidence.len() - i,
    {
        proof {
            assert(e[i as int] == resolution.evidence@[i as int]@);
        }
        if resolution.evidence[i].strength != EvidenceStrength::Weak && resolution.evidence[i].kind
            != EvidenceKind::Unavailable {
            proof {
                assert(e[i as int].strength != EvidenceStrength::Weak && e[i as int].kind
                    != EvidenceKind::Unavailable);
            }
            return true;
        }
        i += 1;
    }
    false
}

/// The decision for the signals after explicit denials.
pub open spec fn decide_spec(
    d: Defaults,
    sigs: Seq<SignalView>,
    unresolved: bool,
    ev: Seq<EvidenceView>,
    locked: bool,
    allowlisted: bool,
) -> Decision {
    let m = max_rank(sigs);
    if has_conflict(sigs) || m == 4 {
        Decision::Blocked
    } else if unresolved {
        match d.unresolved {
            UnresolvedAction::Block => Decision::Blocked,
            UnresolvedAction::Review => Decision::Review,
        }
    } else if m == 3 {
        if d.block_high {
            Decision::Blocked
        } else {
            Decision::Review
        }
    } else if m == 2 {
        Decision::Review
    } else if identity_sufficient(ev, locked, allowlisted) {
        Decision::Verified
    } else {
        Decision::Review
    }
}

/// The signal added when the canonical identity was not established.
pub open spec fn unresolved_signal(a: UnresolvedAction) -> SignalView {
    SignalView {
        code: "RS-CANONICAL-UNRESOLVED"@,
        severity: if a == UnresolvedAction::Block {
            Severity::High
        } else {
            Severity::Medium
        },
        message: "Canonical project identity was not established"@,
        evidence_source: None,
        remediation: "Use authoritative project documentation, policy, or a reviewed lock entry"@,
    }
}

pub open spec fn risk_spec(m: nat, decision: Decision) -> Risk {
    if m == 4 {
        Risk::Critical
    } else if m == 3 {
        Risk::High
    } else if m == 2 {
        Risk::Medium
    } else if decision == Decision::Verified {
        Risk::Low
    } else {
        Risk::Medium
    }
}

/// The decision, risk, and final signals (before report ordering).
pub struct Outcome {
    pub decision: Decision,
    pub risk: Risk,
    pub signals: Vec<Signal>,
}

/// The signals after explicit denials.
pub open spec fn denied_signals(p: PolicyDocument, req: ComponentId, res: Resolution) -> Seq<
    SignalView,
> {
    signals_view(res.signals@) + explicit_denies(p.rules, req)
}

pub open spec fn allowlisted(p: PolicyDocument, req: ComponentId) -> bool {
    strings_view(p.rules.allow_components@).contains(id_of(req))
}

pub open spec fn unresolved(p: PolicyDocument, req: ComponentId, res: Resolution, locked: bool) -> bool {
    res.canonical is None && !locked && !allowlisted(p, req)
}

/// The decision from what policy reads of a resolution: its signals,
/// whether it names a canonical identity, and its evidence.
pub open spec fn decision_on(
    p: PolicyDocument,
    req: ComponentId,
    sigs: Seq<SignalView>,
    has_canonical: bool,
    ev: Seq<EvidenceView>,
    locked: bool,
) -> Decision {
    decide_spec(
        p.defaults,
        sigs + explicit_denies(p.rules, req),
        !has_canonical && !locked && !allowlisted(p, req),
        ev,
        locked,
        allowlisted(p, req),
    )
}

pub open spec fn decision_of(p: PolicyDocument, req: ComponentId, res: Resolution, locked: bool) -> Decision {
    decision_on(
        p,
        req,
        signals_view(res.signals@),
        res.canonical is Some,
        evidence_view(res.evidence@),
        locked,
    )
}

pub open spec fn final_signals(p: PolicyDocument, req: ComponentId, res: Resolution, locked: bool) -> Seq<
    SignalView,
> {
    if unresolved(p, req, res, locked) {
        denied_signals(p, req, res).push(unresolved_signal(p.defaults.unresolved))
    } else {
        denied_signals(p, req, res)
    }
}

pub open spec fn risk_of(p: PolicyDocument, req: ComponentId, res: Resolution, locked: bool) -> Risk {
    risk_spec(max_rank(final_signals(p, req, res, locked)), decision_of(p, req, res, locked))
}

impl CompiledPolicy {
    /// Converts resolver evidence into the final non-bypassable decision.
    pub fn decide(&self, requested: &ComponentRef, resolution: &Resolution, locked: bool) -> (o:
        Outcome)
        ensures
            o.decision == decision_of(self.doc(), requested@, *resolution, locked),
            o.risk == risk_of(self.doc(), requested@, *resolution, locked),
            signals_view(o.signals@) == final_signals(self.doc(), requested@, *resolution, locked),
    {
        let mut signals = clone_signals(&resolution.signals);
        apply_explicit_denies(&self.document.rules, requested, &mut signals);
        let id = requested.id();
        let allow = contains_string(&self.document.rules.allow_components, &id);
        let maximum = max_severity_rank(&signals);
        let unres = resolution.canonical.is_none() && !locked && !allow;
        let conflict = has_conflict_exec(&signals);
        let decision = if conflict || maximum == 4 {
            Decision::Blocked
        } else if unres {
            match self.document.defaults.unresolved {
                UnresolvedAction::Block => Decision::Blocked,
                UnresolvedAction::Review => Decision::Review,
            }
        } else if maximum == 3 {
            if self.document.defaults.block_high {
                Decision::Blocked
            } else {
                Decision::Review
            }
        } else if maximum == 2 {
            Decision::Review
        } else if identity_evidence_sufficient(resolution, locked, allow) {
            Decision::Verified
        } else {
            Decision::Review
        };
        if unres {
            let ghost before = signals_view(signals@);
            let sig = Signal {
                code: String::from_str("RS-CANONICAL-UNRESOLVED"),
                severity: if self.document.defaults.unresolved == UnresolvedAction::Block {
                    Severity::High
                } else {
                    Severity::Medium
                },
                message: String::from_str("Canonical project identity was not established"),
                evidence_source: None,
                remediation: String::from_str(
                    "Use authoritative project documentation, policy, or a reviewed lock entry",
                ),
            };
            signals.push(sig);
            proof {
                assert(signals_view(signals@) =~= before.push(
                    unresolved_signal(self.doc().defaults.unresolved),
                ));
            }
        }
        let final_max = max_severity_rank(&signals);
        let risk = if final_max == 4 {
            Risk::Critical
        } else if final_max == 3 {
            Risk::High
        } else if final_max == 2 {
            Risk::Medium
        } else if decision == Decision::Verified {
            Risk::Low
        } else {
            Risk::Medium
        };
        Outcome { decision, risk, signals }
    }

    /// Converts resolver evidence into the final non-bypassable decision and
    /// an unsealed report (see `VerificationReport::seal`).
    pub fn evaluate(
        &self,
        requested: ComponentRef,
        resolution: Resolution,
        locked: bool,
        request_id: String,
        evaluated_at: Timestamp,
    ) -> (r: VerificationReport)
        ensures
            r.decision == decision_of(self.doc(), requested@, resolution, locked),
            r.risk == risk_of(self.doc(), requested@, resolution, locked),
            signals_view(r.signals@) == sorted_signals(
                final_signals(self.doc(), requested@, resolution, locked),
            ),
            evidence_view(r.evidence@) == sorted_evidence(evidence_view(resolution.evidence@)),
            r.request@ == requested@,
            opt_component_view(r.canonical) == opt_component_view(resolution.canonical),
            r.schema_version == 1,
            r.request_id@ == request_id@,
            r.evaluated_at == evaluated_at,
            r.report_hash@ == placeholder_hash(),
    {
        let outcome = self.decide(&requested, &resolution, locked);
        VerificationReport::new(
            requested,
            resolution.canonical,
            outcome.decision,
            outcome.risk,
            outcome.signals,
            resolution.evidence,
            request_id,
            evaluated_at,
        )
    }
}


// ---------------------------------------------------------------------------
// Laws of the decision engine
// ---------------------------------------------------------------------------

proof fn lemma_max_rank_bounds(s: Seq<SignalView>)
    ensures
        max_rank(s) <= 4,
        forall|i: int| 0 <= i < s.len() ==> sev_rank(#[trigger] s[i].severity) <= max_rank(s),
    decreases s.len(),
{
    if s.len() > 0 {
        lemma_max_rank_bounds(s.drop_last());
        assert forall|i: int| 0 <= i < s.len() implies sev_rank(#[trigger] s[i].severity)
            <= max_rank(s) by {
            if i < s.len() - 1 {
                assert(s[i] == s.drop_last()[i]);
            }
        }
    }
}

/// A critical signal from the resolver blocks the request, whatever the
/// lock, allowlist or defaults say.
pub proof fn law_critical_signal_blocks(p: PolicyDocument, req: ComponentId, res: Resolution, locked: bool, i: int)
    requires
        0 <= i < res.signals@.len(),
        res.signals@[i].severity == Severity::Critical,
    ensures
        decision_of(p, req, res, locked) == Decision::Blocked,
        risk_of(p, req, res, locked) == Risk::Critical,
{
    let sigs = signals_view(res.signals@) + explicit_denies(p.rules, req);
    assert(sigs[i] == res.signals@[i]@);
    assert(sigs[i].severity == Severity::Critical);
    lemma_max_rank_bounds(sigs);
    assert(sev_rank(sigs[i].severity) <= max_rank(sigs));
    let f = final_signals(p, req, res, locked);
    assert(f[i] == sigs[i]);
    lemma_max_rank_bounds(f);
    assert(sev_rank(f[i].severity) <= max_rank(f));
}

/// A resolver signal reporting an identity conflict blocks the request,
/// whatever its severity and whatever the lock or allowlist say.
pub proof fn law_identity_conflict_blocks(p: PolicyDocument, req: ComponentId, res: Resolution, locked: bool, i: int)
    requires
        0 <= i < res.signals@.len(),
        conflict_code(res.signals@[i].code@),
    ensures
        decision_of(p, req, res, locked) == Decision::Blocked,
{
    let sigs = signals_view(res.signals@) + explicit_denies(p.rules, req);
    assert(sigs[i] == res.signals@[i]@);
    assert(conflict_code(sigs[i].code));
    assert(has_conflict(sigs));
}

/// A component that policy denies by ID is blocked, even when it is also
/// allowlisted or locked.
pub proof fn law_denied_component_blocks(p: PolicyDocument, req: ComponentId, res: Resolution, locked: bool)
    requires
        component_denied(p.rules, req),
    ensures
        decision_of(p, req, res, locked) == Decision::Blocked,
{
    let base = signals_view(res.signals@);
    let d = explicit_denies(p.rules, req);
    let sigs = base + d;
    assert(d[0] == deny_signal("RS-POLICY-COMPONENT-DENIED"@, "Component is explicitly denied by policy"@));
    assert(sigs[base.len() as int] == d[0]);
    lemma_max_rank_bounds(sigs);
}

/// Under the secure default, a request whose canonical identity was not
/// established, that is neither locked nor allowlisted, is blocked.
pub proof fn law_unresolved_blocks_by_default(p: PolicyDocument, req: ComponentId, res: Resolution)
    requires
        is_secure_default(p),
        res.canonical is None,
    ensures
        decision_of(p, req, res, false) == Decision::Blocked,
{
    assert(strings_view(p.rules.allow_components@).len() == 0);
    assert(!allowlisted(p, req));
}

/// A resolved request whose worst signal is of high severity, with no
/// critical signal, no identity conflict and no explicit denial, is blocked
/// exactly when the policy blocks high findings, and sent to review
/// otherwise; its risk is high either way.
pub proof fn law_high_signal_follows_block_high(
    p: PolicyDocument,
    req: ComponentId,
    res: Resolution,
    locked: bool,
    i: int,
)
    requires
        res.canonical is Some,
        !component_denied(p.rules, req),
        !owner_denied(p.rules, req),
        !domain_denied(p.rules, req),
        0 <= i < res.signals@.len(),
        res.signals@[i].severity == Severity::High,
        forall|k: int|
            0 <= k < res.signals@.len() ==> (#[trigger] res.signals@[k]).severity
                != Severity::Critical && !conflict_code(res.signals@[k].code@),
    ensures
        decision_of(p, req, res, locked) == (if p.defaults.block_high {
            Decision::Blocked
        } else {
            Decision::Review
        }),
        risk_of(p, req, res, locked) == Risk::High,
{
    let base = signals_view(res.signals@);
    assert(explicit_denies(p.rules, req) =~= Seq::<SignalView>::empty());
    let sigs = base + explicit_denies(p.rules, req);
    assert(sigs =~= base);
    lemma_max_rank_bounds(sigs);
    assert(sigs[i] == res.signals@[i]@);
    assert(sigs[i].severity == Severity::High);
    assert(sev_rank(sigs[i].severity) <= max_rank(sigs));
    assert(max_rank(sigs) >= 3);
    assert forall|k: int| 0 <= k < sigs.len() implies sev_rank(#[trigger] sigs[k].severity) <= 3 by {
        assert(sigs[k] == res.signals@[k]@);
        assert(res.signals@[k].severity != Severity::Critical);
    }
    lemma_max_rank_at_most(sigs, 3);
    assert(!has_conflict(sigs)) by {
        if has_conflict(sigs) {
            let k = choose|k: int| 0 <= k < sigs.len() && conflict_code(#[trigger] sigs[k].code);
            assert(sigs[k] == res.signals@[k]@);
        }
    }
    assert(final_signals(p, req, res, locked) == sigs);
}

/// A maximum is at most any bound of every element.
proof fn lemma_max_rank_at_most(s: Seq<SignalView>, b: nat)
    requires
        forall|k: int| 0 <= k < s.len() ==> sev_rank(#[trigger] s[k].severity) <= b,
    ensures
        max_rank(s) <= b,
    decreases s.len(),
{
    if s.len() > 0 {
        assert forall|k: int| 0 <= k < s.drop_last().len() implies sev_rank(
            #[trigger] s.drop_last()[k].severity,
        ) <= b by {
            assert(s.drop_last()[k] == s[k]);
        }
        lemma_max_rank_at_most(s.drop_last(), b);
        assert(s.last() == s[s.len() - 1]);
    }
}

/// A verified request carries no signal of medium severity or above, has
/// established identity evidence, and is rated low risk; a low-risk report
/// is always a verified one.
pub proof fn law_verified_is_clean(p: PolicyDocument, req: ComponentId, res: Resolution, locked: bool)
    ensures
        decision_of(p, req, res, locked) == Decision::Verified ==> {
            &&& forall|i: int|
                0 <= i < final_signals(p, req, res, locked).len() ==> sev_rank(
                    #[trigger] final_signals(p, req, res, locked)[i].severity,
                ) < 2
            &&& identity_sufficient(evidence_view(res.evidence@), locked, allowlisted(p, req))
            &&& risk_of(p, req, res, locked) == Risk::Low
        },
        risk_of(p, req, res, locked) == Risk::Low ==> decision_of(p, req, res, locked)
            == Decision::Verified,
{
    let f = final_signals(p, req, res, locked);
    lemma_max_rank_bounds(f);
    lemma_max_rank_bounds(denied_signals(p, req, res));
    if unresolved(p, req, res, locked) {
        let d = denied_signals(p, req, res);
        assert(f[d.len() as int] == unresolved_signal(p.defaults.unresolved));
    } else {
        assert(f == denied_signals(p, req, res));
    }
}

} // verus!
