//! Static acquisition scanning, operator ignore lists, install-trace summaries
//! and OS-sandbox execution plans.

use vstd::prelude::*;

use crate::digest::hex_digit;
use crate::identity::{first_index, lemma_first_index, strings_view};
use crate::provenance::utf8_text;
use crate::report::{sev_rank, Severity};
use crate::resolver::{lemma_set_insert_contains, min_int, set_insert, NameSet};
use crate::sort::{
    lemma_stable_sorted_sorted, lemma_text_lt_asymmetric, lemma_text_lt_irreflexive,
    lemma_text_lt_transitive, lemma_text_lt_trichotomy, sorted_by, stable_sort, stable_sorted,
    strict_weak, text_lt, text_lt_exec, views_of, Precedes,
};
use crate::text::{occurs_at, lemma_lines_prefix, 
    char_from_ascii, char_width, chars_of, contains_str, utf8_len, contains_sub, ends_with, find_char, has_char, has_prefix_str,
    has_suffix_str, lines, lines_of, slice_chars, split, split_chars, starts_with, string_of,
    views, chars_eq, str_eq, decimal, decimal_chars, join, join_chars, trim, trim_char, trim_chars,
    trim_char_exec, utf8_len_exceeds, append_chars, append_str, replace_char, replace_char_exec,
};
use vstd::utf8::{decode_utf8, valid_utf8};

verus! {

// ---------------------------------------------------------------------------
// Install-trace summaries
// ---------------------------------------------------------------------------

/// Upper bound on the trace lines that are read.
pub const MAX_TRACE_LINES: usize = 100000;

/// Metadata-only observed install behaviour; every field is a sorted set.
#[derive(Clone, Debug)]
pub struct BehaviorReport {
    /// Files or sensitive scopes read.
    pub filesystem_reads: NameSet,
    /// Files or persistence scopes written.
    pub filesystem_writes: NameSet,
    /// Network endpoints attempted.
    pub network: NameSet,
    /// Environment variable names observed, never values.
    pub environment_reads: NameSet,
    /// Child executables attempted.
    pub processes: NameSet,
    /// High-risk behaviour labels.
    pub risks: NameSet,
}

/// The six sets of a [`BehaviorReport`], each sorted and without repeats.
pub struct BehaviorView {
    pub filesystem_reads: Seq<Seq<char>>,
    pub filesystem_writes: Seq<Seq<char>>,
    pub network: Seq<Seq<char>>,
    pub environment_reads: Seq<Seq<char>>,
    pub processes: Seq<Seq<char>>,
    pub risks: Seq<Seq<char>>,
}

impl View for BehaviorReport {
    type V = BehaviorView;

    open spec fn view(&self) -> BehaviorView {
        BehaviorView {
            filesystem_reads: self.filesystem_reads.view_items(),
            filesystem_writes: self.filesystem_writes.view_items(),
            network: self.network.view_items(),
            environment_reads: self.environment_reads.view_items(),
            processes: self.processes.view_items(),
            risks: self.risks.view_items(),
        }
    }
}

pub open spec fn empty_behavior() -> BehaviorView {
    BehaviorView {
        filesystem_reads: Seq::empty(),
        filesystem_writes: Seq::empty(),
        network: Seq::empty(),
        environment_reads: Seq::empty(),
        processes: Seq::empty(),
        risks: Seq::empty(),
    }
}

impl BehaviorReport {
    /// A report in which nothing was observed.
    pub fn new() -> (r: BehaviorReport)
        ensures
            r@ == empty_behavior(),
    {
        BehaviorReport {
            filesystem_reads: NameSet::new(),
            filesystem_writes: NameSet::new(),
            network: NameSet::new(),
            environment_reads: NameSet::new(),
            processes: NameSet::new(),
            risks: NameSet::new(),
        }
    }
}

/// The text between the first two double quotes of a trace line.
pub open spec fn quoted_path_of(l: Seq<char>) -> Option<Seq<char>> {
    if has_char(l, '"') {
        let rest = l.skip(first_index(l, '"') + 1);
        if has_char(rest, '"') {
            Some(rest.take(first_index(rest, '"')))
        } else {
            None
        }
    } else {
        None
    }
}

/// The label under which a traced path is recorded: credential and socket
/// locations by their class, `/tmp` collapsed, anything else by its first
/// 256 characters.
pub open spec fn classify_path_spec(p: Seq<char>) -> Seq<char> {
    if contains_sub(p, "/.ssh/"@) {
        "~/.ssh/*"@
    } else if contains_sub(p, "/.aws/"@) {
        "~/.aws/*"@
    } else if contains_sub(p, "/.config/gcloud/"@) {
        "~/.config/gcloud/*"@
    } else if contains_sub(p, "docker.sock"@) {
        "docker-socket"@
    } else if starts_with(p, "/tmp/"@) {
        "/tmp/*"@
    } else {
        p.take(min_int(256, p.len() as int))
    }
}

pub open spec fn add_risk(r: BehaviorView, label: Seq<char>) -> BehaviorView {
    BehaviorView { risks: set_insert(r.risks, label), ..r }
}

/// What a trace line that names the path `p` records.
pub open spec fn path_effects(r: BehaviorView, l: Seq<char>, p: Seq<char>) -> BehaviorView {
    let r1 = if contains_sub(l, "O_WRONLY"@) || contains_sub(l, "O_RDWR"@) || contains_sub(
        l,
        "O_CREAT"@,
    ) {
        BehaviorView {
            filesystem_writes: set_insert(r.filesystem_writes, classify_path_spec(p)),
            ..r
        }
    } else if contains_sub(l, "open"@) || contains_sub(l, "stat"@) || contains_sub(l, "access"@) {
        BehaviorView { filesystem_reads: set_insert(r.filesystem_reads, classify_path_spec(p)), ..r }
    } else {
        r
    };
    let r2 = if contains_sub(p, "/.ssh/"@) || contains_sub(p, "/.aws/"@) || contains_sub(
        p,
        "/.config/gcloud/"@,
    ) {
        add_risk(r1, "credential-file-access"@)
    } else {
        r1
    };
    let r3 = if ends_with(p, "/.bashrc"@) || ends_with(p, "/.zshrc"@) || contains_sub(
        p,
        "LaunchAgents"@,
    ) {
        add_risk(r2, "shell-persistence"@)
    } else {
        r2
    };
    if contains_sub(p, "docker.sock"@) {
        add_risk(r3, "docker-socket-access"@)
    } else {
        r3
    }
}

/// The program of an `execve("...` line: what follows the opening quote, up
/// to the next quote.
pub open spec fn execve_target(l: Seq<char>) -> Seq<char> {
    let rest = l.skip("execve(\""@.len() as int);
    if has_char(rest, '"') {
        rest.take(first_index(rest, '"'))
    } else {
        rest
    }
}

/// What one trace line adds to the report.
pub open spec fn trace_line(r: BehaviorView, l: Seq<char>) -> BehaviorView {
    let r1 = match quoted_path_of(l) {
        Some(p) => path_effects(r, l, p),
        None => r,
    };
    let r2 = if contains_sub(l, "connect("@) {
        BehaviorView { network: set_insert(r1.network, "network-connect-attempt"@), ..r1 }
    } else {
        r1
    };
    let r3 = if starts_with(l, "execve(\""@) {
        BehaviorView { processes: set_insert(r2.processes, execve_target(l)), ..r2 }
    } else {
        r2
    };
    if contains_sub(l, "environ"@) || contains_sub(l, "/proc/self/environ"@) {
        add_risk(
            BehaviorView { environment_reads: set_insert(r3.environment_reads, "*"@), ..r3 },
            "broad-environment-read"@,
        )
    } else {
        r3
    }
}

/// The report built from `ls`, one line after another.
pub open spec fn trace_lines(ls: Seq<Seq<char>>) -> BehaviorView
    decreases ls.len(),
{
    if ls.len() == 0 {
        empty_behavior()
    } else {
        trace_line(trace_lines(ls.drop_last()), ls.last())
    }
}

/// The report of a transcript: its first `MAX_TRACE_LINES` lines.
pub open spec fn behavior_of(trace: Seq<char>) -> BehaviorView {
    trace_lines(lines(trace).take(min_int(MAX_TRACE_LINES as int, lines(trace).len() as int)))
}

fn quoted_path(line: &[char]) -> (r: Option<Vec<char>>)
    ensures
        r is Some <==> quoted_path_of(line@) is Some,
        r matches Some(p) ==> quoted_path_of(line@) == Some(p@),
{
    let len = line.len();
    match find_char(line, '"') {
        None => None,
        Some(i) => {
            proof {
                lemma_first_index(line@, '"', i as int);
                assert(i < len);
            }
            let rest = slice_chars(line, i + 1, len);
            proof {
                assert(rest@ == line@.skip(i + 1));
            }
            match find_char(rest.as_slice(), '"') {
                None => None,
                Some(j) => {
                    proof {
                        lemma_first_index(rest@, '"', j as int);
                    }
                    let p = slice_chars(rest.as_slice(), 0, j);
                    proof {
                        assert(p@ == rest@.take(j as int));
                    }
                    Some(p)
                },
            }
        },
    }
}

/// The label of a traced path.
pub fn classify_path(p: &[char]) -> (out: Vec<char>)
    ensures
        out@ == classify_path_spec(p@),
{
    if contains_str(p, "/.ssh/") {
        chars_of("~/.ssh/*")
    } else if contains_str(p, "/.aws/") {
        chars_of("~/.aws/*")
    } else if contains_str(p, "/.config/gcloud/") {
        chars_of("~/.config/gcloud/*")
    } else if contains_str(p, "docker.sock") {
        chars_of("docker-socket")
    } else if has_prefix_str(p, "/tmp/") {
        chars_of("/tmp/*")
    } else {
        let n = if p.len() < 256 {
            p.len()
        } else {
            256
        };
        let out = slice_chars(p, 0, n);
        proof {
            assert(out@ == p@.take(n as int));
        }
        out
    }
}

fn insert_label(set: &mut NameSet, label: &str)
    ensures
        final(set).view_items() == set_insert(old(set).view_items(), label@),
{
    set.insert(chars_of(label));
}

fn record_path(report: &mut BehaviorReport, line: &[char], p: &[char])
    ensures
        final(report)@ == path_effects(old(report)@, line@, p@),
{
    if contains_str(line, "O_WRONLY") || contains_str(line, "O_RDWR") || contains_str(
        line,
        "O_CREAT",
    ) {
        report.filesystem_writes.insert(classify_path(p));
    } else if contains_str(line, "open") || contains_str(line, "stat") || contains_str(
        line,
        "access",
    ) {
        report.filesystem_reads.insert(classify_path(p));
    }
    if contains_str(p, "/.ssh/") || contains_str(p, "/.aws/") || contains_str(
        p,
        "/.config/gcloud/",
    ) {
        insert_label(&mut report.risks, "credential-file-access");
    }
    if has_suffix_str(p, "/.bashrc") || has_suffix_str(p, "/.zshrc") || contains_str(
        p,
        "LaunchAgents",
    ) {
        insert_label(&mut report.risks, "shell-persistence");
    }
    if contains_str(p, "docker.sock") {
        insert_label(&mut report.risks, "docker-socket-access");
    }
}

fn execve_program(line: &[char]) -> (out: Vec<char>)
    requires
        starts_with(line@, "execve(\""@),
    ensures
        out@ == execve_target(line@),
{
    let prefix = chars_of("execve(\"");
    let rest = slice_chars(line, prefix.len(), line.len());
    proof {
        assert(rest@ == line@.skip("execve(\""@.len() as int));
    }
    match find_char(rest.as_slice(), '"') {
        None => rest,
        Some(j) => {
            proof {
                lemma_first_index(rest@, '"', j as int);
            }
            let p = slice_chars(rest.as_slice(), 0, j);
            proof {
                assert(p@ == rest@.take(j as int));
            }
            p
        },
    }
}

fn record_line(report: &mut BehaviorReport, line: &[char])
    ensures
        final(report)@ == trace_line(old(report)@, line@),
{
    match quoted_path(line) {
        Some(p) => record_path(report, line, p.as_slice()),
        None => {},
    }
    if contains_str(line, "connect(") {
        insert_label(&mut report.network, "network-connect-attempt");
    }
    if has_prefix_str(line, "execve(\"") {
        report.processes.insert(execve_program(line));
    }
    if contains_str(line, "environ") || contains_str(line, "/proc/self/environ") {
        insert_label(&mut report.environment_reads, "*");
        insert_label(&mut report.risks, "broad-environment-read");
    }
}

/// Summarises a bounded `strace`-style transcript as metadata-only behaviour.
pub fn parse_behavior_trace(trace: &str) -> (r: BehaviorReport)
    ensures
        r@ == behavior_of(trace@),
{
    let chars = chars_of(trace);
    let ls = lines_of(chars.as_slice());
    let n = if ls.len() < MAX_TRACE_LINES {
        ls.len()
    } else {
        MAX_TRACE_LINES
    };
    let mut report = BehaviorReport::new();
    let mut i: usize = 0;
    proof {
        assert(views(ls@).take(0) =~= Seq::<Seq<char>>::empty());
    }
    while i < n
        invariant
            i <= n <= ls.len(),
            n == min_int(MAX_TRACE_LINES as int, lines(trace@).len() as int),
            views(ls@) == lines(trace@),
            report@ == trace_lines(views(ls@).take(i as int)),
        decreases n - i,
    {
        record_line(&mut report, ls[i].as_slice());
        proof {
            assert(views(ls@).take(i + 1).drop_last() =~= views(ls@).take(i as int));
            assert(views(ls@)[i as int] == ls@[i as int]@);
        }
        i += 1;
    }
    report
}

// ---------------------------------------------------------------------------
// Excerpts
// ---------------------------------------------------------------------------

/// Lowercase hexadecimal digits of `n`, without leading zeros.
pub open spec fn hex_text(n: nat) -> Seq<char>
    decreases n,
{
    if n < 16 {
        seq![hex_digit(n)]
    } else {
        hex_text(n / 16).push(hex_digit(n % 16))
    }
}

/// `char::escape_default`: the named escapes, a backslash before quotes and
/// backslashes, printable ASCII as itself, and `\u{..}` for the rest.
pub open spec fn escape_char(c: char) -> Seq<char> {
    if c == '\t' {
        seq!['\\', 't']
    } else if c == '\r' {
        seq!['\\', 'r']
    } else if c == '\n' {
        seq!['\\', 'n']
    } else if c == '\\' || c == '\'' || c == '"' {
        seq!['\\', c]
    } else if 0x20 <= (c as u32) && (c as u32) <= 0x7e {
        seq![c]
    } else {
        seq!['\\', 'u', '{'] + hex_text(c as nat) + seq!['}']
    }
}

/// Every character of `s` escaped, in order.
pub open spec fn escape_text(s: Seq<char>) -> Seq<char>
    decreases s.len(),
{
    if s.len() == 0 {
        Seq::<char>::empty()
    } else {
        escape_text(s.drop_last()) + escape_char(s.last())
    }
}

/// Upper bound on the characters of a line that are escaped.
pub const EXCERPT_CHARS: usize = 240;

/// Upper bound on the bytes of an escaped excerpt before it is cut.
pub const EXCERPT_BYTES: usize = 260;

/// A bounded, control-escaped excerpt of a line: its first 240 characters
/// escaped, cut to 260 bytes and marked with `…` when longer.
pub open spec fn safe_excerpt_of(l: Seq<char>) -> Seq<char> {
    let e = escape_text(l.take(min_int(EXCERPT_CHARS as int, l.len() as int)));
    if utf8_len(e) > EXCERPT_BYTES {
        e.take(EXCERPT_BYTES as int) + seq!['…']
    } else {
        e
    }
}

pub open spec fn is_ascii_text(s: Seq<char>) -> bool {
    forall|i: int| 0 <= i < s.len() ==> (#[trigger] s[i] as u32) < 0x80
}

proof fn lemma_hex_ascii(n: nat)
    ensures
        is_ascii_text(hex_text(n)),
        hex_text(n).len() >= 1,
    decreases n,
{
    if n >= 16 {
        lemma_hex_ascii(n / 16);
    }
}

/// Escaped text is ASCII, so it has as many bytes as characters.
pub proof fn lemma_escape_ascii(s: Seq<char>)
    ensures
        is_ascii_text(escape_text(s)),
        utf8_len(escape_text(s)) == escape_text(s).len(),
    decreases s.len(),
{
    if s.len() > 0 {
        lemma_escape_ascii(s.drop_last());
        let c = s.last();
        if !(c == '\t' || c == '\r' || c == '\n' || c == '\\' || c == '\'' || c == '"' || (0x20
            <= (c as u32) && (c as u32) <= 0x7e)) {
            lemma_hex_ascii(c as nat);
        }
        let a = escape_text(s.drop_last());
        let b = escape_char(c);
        assert(escape_text(s) == a + b);
        assert(is_ascii_text(a + b)) by {
            assert forall|i: int| 0 <= i < (a + b).len() implies ((a + b)[i] as u32) < 0x80 by {
                if i < a.len() {
                    assert((a + b)[i] == a[i]);
                } else {
                    assert((a + b)[i] == b[i - a.len()]);
                }
            }
        }
        lemma_ascii_utf8_len(a + b);
    }
}

pub proof fn lemma_ascii_utf8_len(s: Seq<char>)
    requires
        is_ascii_text(s),
    ensures
        utf8_len(s) == s.len(),
    decreases s.len(),
{
    if s.len() > 0 {
        assert(is_ascii_text(s.drop_last())) by {
            assert forall|i: int| 0 <= i < s.drop_last().len() implies (s.drop_last()[i] as u32)
                < 0x80 by {
                assert(s.drop_last()[i] == s[i]);
            }
        }
        lemma_ascii_utf8_len(s.drop_last());
        assert((s[s.len() - 1] as u32) < 0x80);
    }
}

fn hex_chars(n: u32) -> (out: Vec<char>)
    ensures
        out@ == hex_text(n as nat),
    decreases n,
{
    let d = n % 16;
    let c = if d < 10 {
        char_from_ascii(48 + d)
    } else {
        char_from_ascii(87 + d)
    };
    if n < 16 {
        let mut v: Vec<char> = Vec::new();
        v.push(c);
        proof {
            assert(v@ =~= seq![hex_digit(n as nat)]);
        }
        v
    } else {
        let mut v = hex_chars(n / 16);
        v.push(c);
        v
    }
}

fn escape_into(out: &mut Vec<char>, c: char)
    ensures
        final(out)@ == old(out)@ + escape_char(c),
{
    let u = c as u32;
    let ghost before = out@;
    if c == '\t' {
        out.push('\\');
        out.push('t');
    } else if c == '\r' {
        out.push('\\');
        out.push('r');
    } else if c == '\n' {
        out.push('\\');
        out.push('n');
    } else if c == '\\' || c == '\'' || c == '"' {
        out.push('\\');
        out.push(c);
    } else if 0x20 <= u && u <= 0x7e {
        out.push(c);
    } else {
        out.push('\\');
        out.push('u');
        out.push('{');
        let h = hex_chars(u);
        let mut i: usize = 0;
        let ghost mid = out@;
        while i < h.len()
            invariant
                i <= h.len(),
                out@ == mid + h@.take(i as int),
            decreases h.len() - i,
        {
            out.push(h[i]);
            proof {
                assert(h@.take(i + 1) == h@.take(i as int).push(h@[i as int]));
            }
            i += 1;
        }
        out.push('}');
        proof {
            assert(h@.take(h.len() as int) == h@);
        }
    }
    proof {
        assert(out@ =~= before + escape_char(c));
    }
}

/// The excerpt recorded for a matching line.
pub fn safe_excerpt(line: &[char]) -> (out: String)
    ensures
        out@ == safe_excerpt_of(line@),
{
    let n = if line.len() < EXCERPT_CHARS {
        line.len()
    } else {
        EXCERPT_CHARS
    };
    let mut e: Vec<char> = Vec::new();
    let mut i: usize = 0;
    while i < n
        invariant
            i <= n <= line@.len(),
            e@ == escape_text(line@.take(i as int)),
        decreases n - i,
    {
        escape_into(&mut e, line[i]);
        proof {
            assert(line@.take(i + 1).drop_last() == line@.take(i as int));
        }
        i += 1;
    }
    proof {
        assert(line@.take(min_int(EXCERPT_CHARS as int, line@.len() as int)) == line@.take(
            n as int,
        ));
        lemma_escape_ascii(line@.take(n as int));
    }
    if e.len() > EXCERPT_BYTES {
        let mut cut = slice_chars(e.as_slice(), 0, EXCERPT_BYTES);
        cut.push('…');
        proof {
            assert(cut@ =~= e@.take(EXCERPT_BYTES as int) + seq!['…']);
        }
        string_of(cut.as_slice())
    } else {
        string_of(e.as_slice())
    }
}

// ---------------------------------------------------------------------------
// Static rules
// ---------------------------------------------------------------------------

#[verifier::external_type_specification]
#[verifier::external_body]
pub struct ExRegex(regex::Regex);

#[verifier::external_type_specification]
#[verifier::external_body]
pub struct ExRegexError(regex::Error);

/// Whether `regex::Regex::new` accepts `pattern` (with its default limits).
pub uninterp spec fn regex_compiles(pattern: Seq<char>) -> bool;

/// Whether the regular expression `pattern` matches somewhere in `haystack`.
pub uninterp spec fn regex_is_match(pattern: Seq<char>, haystack: Seq<char>) -> bool;

/// A compiled regular expression, viewed as the pattern it was compiled from.
/// Only [`compile_matcher`] builds one, so the two always agree.
pub struct Matcher {
    regex: regex::Regex,
    pattern: Ghost<Seq<char>>,
}

impl View for Matcher {
    type V = Seq<char>;

    closed spec fn view(&self) -> Seq<char> {
        self.pattern@
    }
}

/// `regex::Regex::new`. The contract claims that compilation succeeds
/// exactly when `regex_compiles` holds of the pattern, a function of the
/// pattern alone, and that a compiled matcher stands for `pattern`.
#[verifier::external_body]
fn compile_matcher(pattern: &str) -> (r: Result<Matcher, regex::Error>)
    ensures
        r is Ok <==> regex_compiles(pattern@),
        r matches Ok(m) ==> m@ == pattern@,
{
    match regex::Regex::new(pattern) {
        Ok(regex) => Ok(Matcher { regex, pattern: Ghost(pattern@) }),
        Err(error) => Err(error),
    }
}

/// `regex::Regex::is_match`. The contract claims that the answer is
/// `regex_is_match` of the matcher's pattern and the haystack.
#[verifier::external_body]
fn matcher_is_match(m: &Matcher, haystack: &str) -> (r: bool)
    ensures
        r == regex_is_match(m@, haystack@),
{
    m.regex.is_match(haystack)
}

/// One static rule: a stable code, a severity, an explanation and the
/// regular expression that a line must match.
pub struct ScanRule {
    pub code: String,
    pub severity: Severity,
    pub message: String,
    pub matcher: Matcher,
}

pub struct RuleView {
    pub code: Seq<char>,
    pub severity: Severity,
    pub message: Seq<char>,
    pub pattern: Seq<char>,
}

impl View for ScanRule {
    type V = RuleView;

    open spec fn view(&self) -> RuleView {
        RuleView {
            code: self.code@,
            severity: self.severity,
            message: self.message@,
            pattern: self.matcher@,
        }
    }
}

pub open spec fn rule_spec(code: &str, severity: Severity, message: &str, pattern: &str) -> RuleView {
    RuleView { code: code@, severity, message: message@, pattern: pattern@ }
}

/// The static rules, in the order in which they are tried on each line.
pub open spec fn rule_table() -> Seq<RuleView> {
    seq![
        rule_spec("RS-DOWNLOAD-TO-SHELL", Severity::Critical, "Downloads remote content directly into a shell", "(?i)(curl|wget)[^|\\n]{0,500}\\|\\s*(ba)?sh"),
        rule_spec("RS-CREDENTIAL-PATH", Severity::Critical, "References a credential-bearing path", "(?i)(~/|/home/[^/]+/|/Users/[^/]+/)(\\.ssh|\\.aws|\\.config/gcloud)"),
        rule_spec("RS-DOCKER-SOCKET", Severity::Critical, "References the host Docker socket", "(/var/run/docker\\.sock|DOCKER_HOST)"),
        rule_spec("RS-SHELL-PERSISTENCE", Severity::Critical, "Writes or references shell/session startup persistence", "(?i)(\\.bashrc|\\.zshrc|LaunchAgents|systemd/user|crontab)"),
        rule_spec("RS-ENCODED-EXECUTION", Severity::High, "Decodes or evaluates an encoded command", "(?i)(base64\\s+(-d|--decode)|frombase64string|eval\\s*\\(|exec\\s*\\()"),
        rule_spec("RS-BROAD-ENVIRONMENT", Severity::High, "Enumerates the process environment", "(?i)(printenv|env\\s*$|process\\.env|os\\.environ|/proc/self/environ)"),
        rule_spec("RS-NETWORK-DOWNLOAD", Severity::Medium, "Downloads remote content during installation", "(?i)(curl|wget|Invoke-WebRequest|https?://)"),
        rule_spec("RS-SUBPROCESS", Severity::Medium, "Spawns a subprocess from install or instruction content", "(?i)(child_process|subprocess\\.|os\\.system|Command::new|Runtime\\.getRuntime\\(\\)\\.exec)"),
        rule_spec("RS-LIFECYCLE-SCRIPT", Severity::High, "Declares or describes an install-time lifecycle script", "(?i)[\"']?(preinstall|postinstall|prepare)[\"']?\\s*:"),
        rule_spec("RS-AGENT-INSTRUCTION-OVERRIDE", Severity::High, "Instruction content attempts to override safety or hidden policy", "(?i)(ignore (all |any )?(previous|prior) instructions|disable (security|safety)|do not tell the user|hidden system prompt)"),
    ]
}

/// Static scanner or sandbox-planning errors that the library itself raises.
#[derive(Debug)]
pub enum SandboxError {
    /// A static rule failed to compile.
    Regex(regex::Error),
    /// The scan root was a symlink.
    SymlinkRoot,
    /// The explicit ignore file was a symlink.
    SymlinkIgnoreFile,
    /// The explicit ignore file was ambiguous or exceeded its bounds.
    InvalidIgnore(String),
}

fn make_rule(code: &str, severity: Severity, message: &str, pattern: &str) -> (r: Result<
    ScanRule,
    SandboxError,
>)
    ensures
        r is Ok <==> regex_compiles(pattern@),
        r matches Ok(x) ==> x@ == rule_spec(code, severity, message, pattern),
        r matches Err(e) ==> e is Regex,
{
    match compile_matcher(pattern) {
        Ok(matcher) => Ok(
            ScanRule { code: code.to_string(), severity, message: message.to_string(), matcher },
        ),
        Err(error) => Err(SandboxError::Regex(error)),
    }
}

/// Whether every pattern of the static rules compiles.
pub open spec fn rules_compile() -> bool {
    forall|i: int| 0 <= i < rule_table().len() ==> regex_compiles(#[trigger] rule_table()[i].pattern)
}

/// Compiles the static rules of [`rule_table`], in order: they are returned
/// exactly when every pattern compiles.
pub fn scan_rules() -> (r: Result<Vec<ScanRule>, SandboxError>)
    ensures
        r is Ok <==> rules_compile(),
        r matches Ok(v) ==> views_of(v@) == rule_table(),
        r matches Err(e) ==> e is Regex,
{
    let mut rules: Vec<ScanRule> = Vec::new();
    match make_rule("RS-DOWNLOAD-TO-SHELL", Severity::Critical, "Downloads remote content directly into a shell", "(?i)(curl|wget)[^|\\n]{0,500}\\|\\s*(ba)?sh") {
        Ok(x) => rules.push(x),
        Err(e) => {
            proof {
                assert(!regex_compiles(rule_table()[0].pattern));
            }
            return Err(e);
        },
    }
    match make_rule("RS-CREDENTIAL-PATH", Severity::Critical, "References a credential-bearing path", "(?i)(~/|/home/[^/]+/|/Users/[^/]+/)(\\.ssh|\\.aws|\\.config/gcloud)") {
        Ok(x) => rules.push(x),
        Err(e) => {
            proof {
                assert(!regex_compiles(rule_table()[1].pattern));
            }
            return Err(e);
        },
    }
    match make_rule("RS-DOCKER-SOCKET", Severity::Critical, "References the host Docker socket", "(/var/run/docker\\.sock|DOCKER_HOST)") {
        Ok(x) => rules.push(x),
        Err(e) => {
            proof {
                assert(!regex_compiles(rule_table()[2].pattern));
            }
            return Err(e);
        },
    }
    match make_rule("RS-SHELL-PERSISTENCE", Severity::Critical, "Writes or references shell/session startup persistence", "(?i)(\\.bashrc|\\.zshrc|LaunchAgents|systemd/user|crontab)") {
        Ok(x) => rules.push(x),
        Err(e) => {
            proof {
                assert(!regex_compiles(rule_table()[3].pattern));
            }
            return Err(e);
        },
    }
    match make_rule("RS-ENCODED-EXECUTION", Severity::High, "Decodes or evaluates an encoded command", "(?i)(base64\\s+(-d|--decode)|frombase64string|eval\\s*\\(|exec\\s*\\()") {
        Ok(x) => rules.push(x),
        Err(e) => {
            proof {
                assert(!regex_compiles(rule_table()[4].pattern));
            }
            return Err(e);
        },
    }
    match make_rule("RS-BROAD-ENVIRONMENT", Severity::High, "Enumerates the process environment", "(?i)(printenv|env\\s*$|process\\.env|os\\.environ|/proc/self/environ)") {
        Ok(x) => rules.push(x),
        Err(e) => {
            proof {
                assert(!regex_compiles(rule_table()[5].pattern));
            }
            return Err(e);
        },
    }
    match make_rule("RS-NETWORK-DOWNLOAD", Severity::Medium, "Downloads remote content during installation", "(?i)(curl|wget|Invoke-WebRequest|https?://)") {
        Ok(x) => rules.push(x),
        Err(e) => {
            proof {
                assert(!regex_compiles(rule_table()[6].pattern));
            }
            return Err(e);
        },
    }
    match make_rule("RS-SUBPROCESS", Severity::Medium, "Spawns a subprocess from install or instruction content", "(?i)(child_process|subprocess\\.|os\\.system|Command::new|Runtime\\.getRuntime\\(\\)\\.exec)") {
        Ok(x) => rules.push(x),
        Err(e) => {
            proof {
                assert(!regex_compiles(rule_table()[7].pattern));
            }
            return Err(e);
        },
    }
    match make_rule("RS-LIFECYCLE-SCRIPT", Severity::High, "Declares or describes an install-time lifecycle script", "(?i)[\"']?(preinstall|postinstall|prepare)[\"']?\\s*:") {
        Ok(x) => rules.push(x),
        Err(e) => {
            proof {
                assert(!regex_compiles(rule_table()[8].pattern));
            }
            return Err(e);
        },
    }
    match make_rule("RS-AGENT-INSTRUCTION-OVERRIDE", Severity::High, "Instruction content attempts to override safety or hidden policy", "(?i)(ignore (all |any )?(previous|prior) instructions|disable (security|safety)|do not tell the user|hidden system prompt)") {
        Ok(x) => rules.push(x),
        Err(e) => {
            proof {
                assert(!regex_compiles(rule_table()[9].pattern));
            }
            return Err(e);
        },
    }
    proof {
        assert(views_of(rules@) =~= rule_table());
        assert forall|i: int| 0 <= i < rule_table().len() implies regex_compiles(
            #[trigger] rule_table()[i].pattern,
        ) by {
            assert(rule_table()[i] == views_of(rules@)[i]);
            assert(rule_table()[i].pattern == rules@[i].matcher@);
        }
    }
    Ok(rules)
}

// ---------------------------------------------------------------------------
// Findings and scan reports
// ---------------------------------------------------------------------------

/// Upper bound on the regular files inspected.
pub const MAX_FILES: usize = 20000;

/// Files larger than this are reported and not read.
pub const MAX_FILE_BYTES: u64 = 1048576;

/// Upper bound on the bytes inspected over the whole tree.
pub const MAX_TOTAL_BYTES: u64 = 52428800;

/// Stable static scanner finding.
#[derive(Clone, Debug)]
pub struct ScanFinding {
    /// Stable code.
    pub code: String,
    /// Severity.
    pub severity: Severity,
    /// Repository-relative path, its components joined by `/`.
    pub path: String,
    /// One-based line when available.
    pub line: Option<usize>,
    /// Safe bounded explanation.
    pub message: String,
    /// Bounded control-escaped excerpt.
    pub excerpt: String,
}

pub struct FindingView {
    pub code: Seq<char>,
    pub severity: Severity,
    pub path: Seq<char>,
    pub line: Option<usize>,
    pub message: Seq<char>,
    pub excerpt: Seq<char>,
}

impl View for ScanFinding {
    type V = FindingView;

    open spec fn view(&self) -> FindingView {
        FindingView {
            code: self.code@,
            severity: self.severity,
            path: self.path@,
            line: self.line,
            message: self.message@,
            excerpt: self.excerpt@,
        }
    }
}

/// Lexicographic order of `/`-separated path components, component by
/// component, as `Path` orders relative paths.
pub open spec fn parts_lt(a: Seq<Seq<char>>, b: Seq<Seq<char>>) -> bool
    decreases a.len(),
{
    if a.len() == 0 {
        b.len() > 0
    } else if b.len() == 0 {
        false
    } else if text_lt(a[0], b[0]) {
        true
    } else if a[0] == b[0] {
        parts_lt(a.drop_first(), b.drop_first())
    } else {
        false
    }
}

pub open spec fn path_lt(a: Seq<char>, b: Seq<char>) -> bool {
    parts_lt(split(a, '/'), split(b, '/'))
}

/// `None` first, then lines in increasing order.
pub open spec fn line_lt(a: Option<usize>, b: Option<usize>) -> bool {
    match (a, b) {
        (None, Some(_)) => true,
        (Some(x), Some(y)) => x < y,
        _ => false,
    }
}

/// Report order: most severe first, then by path, line and code.
pub open spec fn finding_precedes(a: FindingView, b: FindingView) -> bool {
    if sev_rank(a.severity) != sev_rank(b.severity) {
        sev_rank(a.severity) > sev_rank(b.severity)
    } else if split(a.path, '/') != split(b.path, '/') {
        path_lt(a.path, b.path)
    } else if a.line != b.line {
        line_lt(a.line, b.line)
    } else {
        text_lt(a.code, b.code)
    }
}

fn parts_lt_exec(a: &Vec<Vec<char>>, b: &Vec<Vec<char>>) -> (r: bool)
    ensures
        r == parts_lt(views(a@), views(b@)),
{
    let mut i: usize = 0;
    proof {
        assert(views(a@).skip(0) =~= views(a@));
        assert(views(b@).skip(0) =~= views(b@));
    }
    while i < a.len() && i < b.len()
        invariant
            i <= a.len(),
            i <= b.len(),
            forall|k: int| 0 <= k < i ==> #[trigger] a@[k]@ == b@[k]@,
            parts_lt(views(a@), views(b@)) == parts_lt(views(a@).skip(i as int), views(b@).skip(
                i as int,
            )),
        decreases a.len() - i,
    {
        let x = a[i].as_slice();
        let y = b[i].as_slice();
        let ghost sa = views(a@).skip(i as int);
        let ghost sb = views(b@).skip(i as int);
        proof {
            assert(sa[0] == a@[i as int]@);
            assert(sb[0] == b@[i as int]@);
        }
        if text_lt_exec(x, y) {
            return true;
        }
        if !chars_eq(x, y) {
            return false;
        }
        proof {
            assert(sa.drop_first() =~= views(a@).skip(i + 1));
            assert(sb.drop_first() =~= views(b@).skip(i + 1));
        }
        i += 1;
    }
    proof {
        let sa = views(a@).skip(i as int);
        let sb = views(b@).skip(i as int);
        assert(sa.len() == a.len() - i);
        assert(sb.len() == b.len() - i);
    }
    i == a.len() && i < b.len()
}

fn str_lt(a: &str, b: &str) -> (r: bool)
    ensures
        r == text_lt(a@, b@),
{
    let ac = chars_of(a);
    let bc = chars_of(b);
    text_lt_exec(ac.as_slice(), bc.as_slice())
}

/// The report order as a relation.
pub open spec fn report_order() -> spec_fn(FindingView, FindingView) -> bool {
    |a: FindingView, b: FindingView| finding_precedes(a, b)
}

/// The findings of a finished report, from the findings recorded.
pub open spec fn finished_findings(recorded: Seq<FindingView>) -> Seq<FindingView> {
    dedup_spec(stable_sorted(recorded, report_order()))
}

impl Precedes for ScanFinding {
    open spec fn order() -> spec_fn(FindingView, FindingView) -> bool {
        report_order()
    }

    fn precedes_exec(&self, other: &Self) -> (r: bool) {
        let a = self.severity.rank();
        let b = other.severity.rank();
        if a != b {
            return a > b;
        }
        let ap = split_chars(chars_of(self.path.as_str()).as_slice(), '/');
        let bp = split_chars(chars_of(other.path.as_str()).as_slice(), '/');
        if !keys_eq(&ap, &bp) {
            return parts_lt_exec(&ap, &bp);
        }
        match (self.line, other.line) {
            (None, Some(_)) => {
                return true;
            },
            (Some(_), None) => {
                return false;
            },
            (Some(x), Some(y)) => {
                if x != y {
                    return x < y;
                }
            },
            (None, None) => {},
        }
        str_lt(self.code.as_str(), other.code.as_str())
    }
}

/// `Vec::dedup`: each run of equal neighbours kept once.
pub open spec fn dedup_spec<V>(s: Seq<V>) -> Seq<V>
    decreases s.len(),
{
    if s.len() <= 1 {
        s
    } else if s.last() == s[s.len() - 2] {
        dedup_spec(s.drop_last())
    } else {
        dedup_spec(s.drop_last()).push(s.last())
    }
}

fn same_finding(a: &ScanFinding, b: &ScanFinding) -> (r: bool)
    ensures
        r == (a@ == b@),
{
    str_eq(a.code.as_str(), b.code.as_str()) && a.severity == b.severity && str_eq(
        a.path.as_str(),
        b.path.as_str(),
    ) && a.line == b.line && str_eq(a.message.as_str(), b.message.as_str()) && str_eq(
        a.excerpt.as_str(),
        b.excerpt.as_str(),
    )
}

fn dedup_findings(v: Vec<ScanFinding>) -> (out: Vec<ScanFinding>)
    ensures
        views_of(out@) == dedup_spec(views_of(v@)),
{
    let mut out: Vec<ScanFinding> = Vec::new();
    let mut i: usize = 0;
    while i < v.len()
        invariant
            i <= v.len(),
            views_of(out@) == dedup_spec(views_of(v@).take(i as int)),
            i > 0 ==> out.len() > 0 && out@[out.len() - 1]@ == v@[i - 1]@,
        decreases v.len() - i,
    {
        let ghost s = views_of(v@).take(i + 1);
        proof {
            assert(s.drop_last() =~= views_of(v@).take(i as int));
            assert(s.last() == v@[i as int]@);
            if i > 0 {
                assert(s[s.len() - 2] == v@[i - 1]@);
            }
        }
        if i == 0 || !same_finding(&out[out.len() - 1], &v[i]) {
            let ghost before = views_of(out@);
            out.push(v[i].clone_finding());
            proof {
                assert(views_of(out@) =~= before.push(v@[i as int]@));
            }
        }
        i += 1;
    }
    proof {
        assert(views_of(v@).take(v.len() as int) =~= views_of(v@));
    }
    out
}

impl ScanFinding {
    /// A copy with the same fields.
    pub fn clone_finding(&self) -> (r: ScanFinding)
        ensures
            r@ == self@,
    {
        ScanFinding {
            code: self.code.clone(),
            severity: self.severity,
            path: self.path.clone(),
            line: self.line,
            message: self.message.clone(),
            excerpt: self.excerpt.clone(),
        }
    }
}

/// The finding of rule `r` on line number `no` of the file at `path`.
pub open spec fn rule_finding(r: RuleView, path: Seq<char>, l: Seq<char>, no: nat) -> FindingView {
    FindingView {
        code: r.code,
        severity: r.severity,
        path,
        line: Some(no as usize),
        message: r.message,
        excerpt: safe_excerpt_of(l),
    }
}

/// The findings of one line: one for each matching rule, in rule order.
pub open spec fn line_findings(rules: Seq<RuleView>, path: Seq<char>, l: Seq<char>, no: nat) -> Seq<
    FindingView,
>
    decreases rules.len(),
{
    if rules.len() == 0 {
        Seq::empty()
    } else {
        let before = line_findings(rules.drop_last(), path, l, no);
        if regex_is_match(rules.last().pattern, l) {
            before.push(rule_finding(rules.last(), path, l, no))
        } else {
            before
        }
    }
}

/// The findings of the lines `ls`, numbered from one, line after line.
pub open spec fn text_findings(rules: Seq<RuleView>, path: Seq<char>, ls: Seq<Seq<char>>) -> Seq<
    FindingView,
>
    decreases ls.len(),
{
    if ls.len() == 0 {
        Seq::empty()
    } else {
        text_findings(rules, path, ls.drop_last()) + line_findings(
            rules,
            path,
            ls.last(),
            ls.len(),
        )
    }
}

/// The findings of a file's bytes: none unless they are UTF-8 text.
pub open spec fn file_findings(rules: Seq<RuleView>, path: Seq<char>, bytes: Seq<u8>) -> Seq<
    FindingView,
> {
    if valid_utf8(bytes) {
        text_findings(rules, path, lines(decode_utf8(bytes)))
    } else {
        Seq::empty()
    }
}

/// The finding recorded for a file too large to read.
pub open spec fn skipped_finding(path: Seq<char>) -> FindingView {
    FindingView {
        code: "RS-SCAN-FILE-SKIPPED"@,
        severity: Severity::Medium,
        path,
        line: None,
        message: "File exceeds the one MiB static-analysis limit"@,
        excerpt: Seq::empty(),
    }
}

/// What the scanner does with the next regular file.
#[derive(Clone, Copy, Debug, PartialEq, Eq, Structural)]
pub enum FileDecision {
    /// A security bound is reached: traversal stops here.
    Stop,
    /// The file is counted and reported as too large, and not read.
    Skip,
    /// The file is counted and its contents are to be scanned.
    Read,
}

/// Deterministic scan report.
#[derive(Clone, Debug)]
pub struct ScanReport {
    /// Regular files inspected.
    pub files_scanned: usize,
    /// Bytes inspected.
    pub bytes_scanned: u64,
    /// Ordered findings.
    pub findings: Vec<ScanFinding>,
    /// Whether a security bound stopped traversal.
    pub truncated: bool,
}

impl ScanReport {
    /// A report of a scan that has inspected nothing yet.
    pub fn new() -> (r: ScanReport)
        ensures
            r.files_scanned == 0,
            r.bytes_scanned == 0,
            r.findings@.len() == 0,
            !r.truncated,
    {
        ScanReport { files_scanned: 0, bytes_scanned: 0, findings: Vec::new(), truncated: false }
    }

    /// Decides what happens to the next regular file, at `path` under the scan
    /// `root`, of `size` bytes: traversal stops once `MAX_FILES` files were
    /// counted or the byte budget would be exceeded; otherwise the file is
    /// counted, and one over `MAX_FILE_BYTES` is reported as skipped under its
    /// path relative to the root.
    pub fn admit_file(&mut self, root: &str, path: &str, size: u64) -> (d: FileDecision)
        ensures
            (old(self).files_scanned >= MAX_FILES || old(self).bytes_scanned.saturating_add(size)
                > MAX_TOTAL_BYTES) ==> {
                &&& d == FileDecision::Stop
                &&& final(self).truncated
                &&& final(self).files_scanned == old(self).files_scanned
                &&& final(self).bytes_scanned == old(self).bytes_scanned
                &&& final(self).findings@ == old(self).findings@
            },
            !(old(self).files_scanned >= MAX_FILES || old(self).bytes_scanned.saturating_add(size)
                > MAX_TOTAL_BYTES) ==> {
                &&& final(self).files_scanned == old(self).files_scanned + 1
                &&& final(self).bytes_scanned == old(self).bytes_scanned
                &&& final(self).truncated == old(self).truncated
                &&& (size > MAX_FILE_BYTES ==> d == FileDecision::Skip && views_of(
                    final(self).findings@,
                ) == views_of(old(self).findings@).push(skipped_finding(relative_path_of(root@, path@))))
                &&& (size <= MAX_FILE_BYTES ==> d == FileDecision::Read && final(self).findings@
                    == old(self).findings@)
            },
            old(self).files_scanned <= MAX_FILES ==> final(self).files_scanned <= MAX_FILES,
            d != FileDecision::Stop ==> old(self).bytes_scanned.saturating_add(size)
                <= MAX_TOTAL_BYTES,
    {
        let rel = relative_path(root, path);
        self.admit_at(rel.as_str(), size)
    }

    /// The decision of [`Self::admit_file`], for a file reported as `path`.
    fn admit_at(&mut self, path: &str, size: u64) -> (d: FileDecision)
        ensures
            (old(self).files_scanned >= MAX_FILES || old(self).bytes_scanned.saturating_add(size)
                > MAX_TOTAL_BYTES) ==> {
                &&& d == FileDecision::Stop
                &&& final(self).truncated
                &&& final(self).files_scanned == old(self).files_scanned
                &&& final(self).bytes_scanned == old(self).bytes_scanned
                &&& final(self).findings@ == old(self).findings@
            },
            !(old(self).files_scanned >= MAX_FILES || old(self).bytes_scanned.saturating_add(size)
                > MAX_TOTAL_BYTES) ==> {
                &&& final(self).files_scanned == old(self).files_scanned + 1
                &&& final(self).bytes_scanned == old(self).bytes_scanned
                &&& final(self).truncated == old(self).truncated
                &&& (size > MAX_FILE_BYTES ==> d == FileDecision::Skip && views_of(
                    final(self).findings@,
                ) == views_of(old(self).findings@).push(skipped_finding(path@)))
                &&& (size <= MAX_FILE_BYTES ==> d == FileDecision::Read && final(self).findings@
                    == old(self).findings@)
            },
            old(self).files_scanned <= MAX_FILES ==> final(self).files_scanned <= MAX_FILES,
            d != FileDecision::Stop ==> old(self).bytes_scanned.saturating_add(size)
                <= MAX_TOTAL_BYTES,
    {
        if self.files_scanned >= MAX_FILES || self.bytes_scanned.saturating_add(size)
            > MAX_TOTAL_BYTES {
            self.truncated = true;
            return FileDecision::Stop;
        }
        self.files_scanned = self.files_scanned + 1;
        if size > MAX_FILE_BYTES {
            let ghost before = views_of(self.findings@);
            let f = ScanFinding {
                code: "RS-SCAN-FILE-SKIPPED".to_string(),
                severity: Severity::Medium,
                path: path.to_string(),
                line: None,
                message: "File exceeds the one MiB static-analysis limit".to_string(),
                excerpt: String::new(),
            };
            proof {
                assert(f@ == skipped_finding(path@));
            }
            self.findings.push(f);
            proof {
                assert(views_of(self.findings@) =~= before.push(skipped_finding(path@)));
            }
            return FileDecision::Skip;
        }
        FileDecision::Read
    }

    /// Counts the bytes of the admitted file at `path` under the scan `root`
    /// and adds the findings of each of its lines, recorded under its path
    /// relative to the root.
    pub fn scan_file(&mut self, root: &str, path: &str, bytes: &[u8], rules: &Vec<ScanRule>)
        ensures
            final(self).bytes_scanned == old(self).bytes_scanned.saturating_add(bytes@.len() as u64),
            final(self).files_scanned == old(self).files_scanned,
            final(self).truncated == old(self).truncated,
            views_of(final(self).findings@) == views_of(old(self).findings@) + file_findings(
                views_of(rules@),
                relative_path_of(root@, path@),
                bytes@,
            ),
    {
        let rel = relative_path(root, path);
        self.scan_at(rel.as_str(), bytes, rules)
    }

    /// The scan of [`Self::scan_file`], for a file reported as `path`.
    fn scan_at(&mut self, path: &str, bytes: &[u8], rules: &Vec<ScanRule>)
        ensures
            final(self).bytes_scanned == old(self).bytes_scanned.saturating_add(bytes@.len() as u64),
            final(self).files_scanned == old(self).files_scanned,
            final(self).truncated == old(self).truncated,
            views_of(final(self).findings@) == views_of(old(self).findings@) + file_findings(
                views_of(rules@),
                path@,
                bytes@,
            ),
    {
        let n = bytes.len() as u64;
        self.bytes_scanned = self.bytes_scanned.saturating_add(n);
        let text = match utf8_text(bytes) {
            None => {
                proof {
                    assert(views_of(self.findings@) =~= views_of(self.findings@) + Seq::<
                        FindingView,
                    >::empty());
                }
                return ;
            },
            Some(t) => t,
        };
        let chars = chars_of(text);
        let ls = lines_of(chars.as_slice());
        let ghost start = views_of(self.findings@);
        let ghost rv = views_of(rules@);
        let mut i: usize = 0;
        proof {
            assert(views(ls@).take(0) =~= Seq::<Seq<char>>::empty());
            assert(start + text_findings(rv, path@, Seq::<Seq<char>>::empty()) =~= start);
        }
        while i < ls.len()
            invariant
                i <= ls.len(),
                valid_utf8(bytes@),
                views(ls@) == lines(decode_utf8(bytes@)),
                self.bytes_scanned == old(self).bytes_scanned.saturating_add(bytes@.len() as u64),
                self.files_scanned == old(self).files_scanned,
                self.truncated == old(self).truncated,
                rv == views_of(rules@),
                views_of(self.findings@) == start + text_findings(
                    rv,
                    path@,
                    views(ls@).take(i as int),
                ),
            decreases ls.len() - i,
        {
            let ghost mid = views_of(self.findings@);
            self.scan_line(path, ls[i].as_slice(), i + 1, rules);
            proof {
                assert(views(ls@).take(i + 1).drop_last() =~= views(ls@).take(i as int));
                assert(views(ls@)[i as int] == ls@[i as int]@);
                assert(views_of(self.findings@) =~= start + text_findings(
                    rv,
                    path@,
                    views(ls@).take(i + 1),
                ));
            }
            i += 1;
        }
        proof {
            assert(views(ls@).take(ls.len() as int) =~= views(ls@));
        }
    }

    fn scan_line(&mut self, path: &str, line: &[char], no: usize, rules: &Vec<ScanRule>)
        ensures
            views_of(final(self).findings@) == views_of(old(self).findings@) + line_findings(
                views_of(rules@),
                path@,
                line@,
                no as nat,
            ),
            final(self).bytes_scanned == old(self).bytes_scanned,
            final(self).files_scanned == old(self).files_scanned,
            final(self).truncated == old(self).truncated,
    {
        let text = string_of(line);
        let ghost start = views_of(self.findings@);
        let ghost rv = views_of(rules@);
        let mut k: usize = 0;
        proof {
            assert(rv.take(0) =~= Seq::<RuleView>::empty());
            assert(start + line_findings(Seq::<RuleView>::empty(), path@, line@, no as nat)
                =~= start);
        }
        while k < rules.len()
            invariant
                k <= rules.len(),
                text@ == line@,
                rv == views_of(rules@),
                self.bytes_scanned == old(self).bytes_scanned,
                self.files_scanned == old(self).files_scanned,
                self.truncated == old(self).truncated,
                views_of(self.findings@) == start + line_findings(
                    rv.take(k as int),
                    path@,
                    line@,
                    no as nat,
                ),
            decreases rules.len() - k,
        {
            let rule = &rules[k];
            proof {
                assert(rv.take(k + 1).drop_last() =~= rv.take(k as int));
                assert(rv.take(k + 1).last() == rule@);
            }
            if matcher_is_match(&rule.matcher, text.as_str()) {
                let ghost before = views_of(self.findings@);
                let f = ScanFinding {
                    code: rule.code.clone(),
                    severity: rule.severity,
                    path: path.to_string(),
                    line: Some(no),
                    message: rule.message.clone(),
                    excerpt: safe_excerpt(line),
                };
                self.findings.push(f);
                proof {
                    assert(views_of(self.findings@) =~= before.push(
                        rule_finding(rule@, path@, line@, no as nat),
                    ));
                }
            }
            k += 1;
        }
        proof {
            assert(rv.take(rules.len() as int) =~= rv);
        }
    }

    /// The finished report: findings in report order, repeats removed.
    pub fn finish(self) -> (r: ScanReport)
        ensures
            r.files_scanned == self.files_scanned,
            r.bytes_scanned == self.bytes_scanned,
            r.truncated == self.truncated,
            views_of(r.findings@) == finished_findings(views_of(self.findings@)),
    {
        let sorted = stable_sort(self.findings);
        let findings = dedup_findings(sorted);
        ScanReport {
            files_scanned: self.files_scanned,
            bytes_scanned: self.bytes_scanned,
            findings,
            truncated: self.truncated,
        }
    }
}

// ---------------------------------------------------------------------------
// Paths
// ---------------------------------------------------------------------------

/// The parts of a split path that name something: not empty and not `.`.
pub open spec fn normal_parts(p: Seq<Seq<char>>) -> Seq<Seq<char>>
    decreases p.len(),
{
    if p.len() == 0 {
        p
    } else {
        let r = normal_parts(p.drop_last());
        if p.last().len() > 0 && p.last() != "."@ {
            r.push(p.last())
        } else {
            r
        }
    }
}

/// The named components of a relative path.
pub open spec fn path_key(p: Seq<char>) -> Seq<Seq<char>> {
    normal_parts(split(p, '/'))
}

/// The components of a path: a root marker `/` for an absolute path, then
/// its named components.
pub open spec fn path_parts(p: Seq<char>) -> Seq<Seq<char>> {
    (if starts_with(p, "/"@) {
        seq!["/"@]
    } else {
        Seq::<Seq<char>>::empty()
    }) + path_key(p)
}

pub open spec fn is_prefix_of<V>(p: Seq<V>, s: Seq<V>) -> bool {
    p.len() <= s.len() && s.take(p.len() as int) == p
}

/// `path.strip_prefix(root)` shown with `/` between components, or `path`
/// itself when `root` is not a component prefix of it.
pub open spec fn relative_path_of(root: Seq<char>, path: Seq<char>) -> Seq<char> {
    if is_prefix_of(path_parts(root), path_parts(path)) {
        join(path_parts(path).skip(path_parts(root).len() as int), "/"@)
    } else {
        path
    }
}

/// Directory names that are never scanned, wherever they occur in a path.
pub open spec fn skipped_dir(part: Seq<char>) -> bool {
    part == ".git"@ || part == "target"@ || part == "node_modules"@ || part == ".venv"@ || part
        == "dist"@ || part == "build"@
}

/// Whether some component of `path` is a skipped directory name.
pub open spec fn ignored_spec(path: Seq<char>) -> bool {
    exists|i: int| 0 <= i < split(path, '/').len() && skipped_dir(#[trigger] split(path, '/')[i])
}

fn normal_parts_exec(parts: Vec<Vec<char>>) -> (out: Vec<Vec<char>>)
    ensures
        views(out@) == normal_parts(views(parts@)),
{
    let dot = chars_of(".");
    let mut out: Vec<Vec<char>> = Vec::new();
    let mut i: usize = 0;
    proof {
        assert(views(parts@).take(0) =~= Seq::<Seq<char>>::empty());
    }
    while i < parts.len()
        invariant
            i <= parts.len(),
            dot@ == "."@,
            views(out@) == normal_parts(views(parts@).take(i as int)),
        decreases parts.len() - i,
    {
        proof {
            assert(views(parts@).take(i + 1).drop_last() =~= views(parts@).take(i as int));
            assert(views(parts@)[i as int] == parts@[i as int]@);
        }
        if parts[i].len() > 0 && !chars_eq(parts[i].as_slice(), dot.as_slice()) {
            let ghost before = views(out@);
            let part = slice_chars(parts[i].as_slice(), 0, parts[i].len());
            proof {
                assert(part@ =~= parts@[i as int]@);
            }
            out.push(part);
            proof {
                assert(views(out@) =~= before.push(parts@[i as int]@));
            }
        }
        i += 1;
    }
    proof {
        assert(views(parts@).take(parts.len() as int) =~= views(parts@));
    }
    out
}

pub(crate) fn path_key_exec(p: &[char]) -> (out: Vec<Vec<char>>)
    ensures
        views(out@) == path_key(p@),
{
    normal_parts_exec(split_chars(p, '/'))
}

fn path_parts_exec(p: &[char]) -> (out: Vec<Vec<char>>)
    ensures
        views(out@) == path_parts(p@),
{
    let key = path_key_exec(p);
    if has_prefix_str(p, "/") {
        let mut out: Vec<Vec<char>> = Vec::new();
        out.push(chars_of("/"));
        let mut i: usize = 0;
        while i < key.len()
            invariant
                i <= key.len(),
                views(out@) == seq!["/"@] + views(key@).take(i as int),
            decreases key.len() - i,
        {
            let ghost before = views(out@);
            out.push(slice_chars(key[i].as_slice(), 0, key[i].len()));
            proof {
                assert(key@[i as int]@.subrange(0, key@[i as int]@.len() as int) =~= key@[i as int]@);
                assert(views(key@).take(i + 1) =~= views(key@).take(i as int).push(key@[i as int]@));
                assert(views(out@) =~= before.push(key@[i as int]@));
            }
            i += 1;
        }
        proof {
            assert(views(key@).take(key.len() as int) =~= views(key@));
        }
        out
    } else {
        proof {
            assert(Seq::<Seq<char>>::empty() + path_key(p@) =~= path_key(p@));
        }
        key
    }
}

fn parts_prefix(p: &Vec<Vec<char>>, s: &Vec<Vec<char>>) -> (r: bool)
    ensures
        r == is_prefix_of(views(p@), views(s@)),
{
    if p.len() > s.len() {
        return false;
    }
    let mut i: usize = 0;
    while i < p.len()
        invariant
            i <= p.len() <= s.len(),
            forall|k: int| 0 <= k < i ==> #[trigger] p@[k]@ == s@[k]@,
        decreases p.len() - i,
    {
        if !chars_eq(p[i].as_slice(), s[i].as_slice()) {
            proof {
                assert(views(s@).take(p.len() as int)[i as int] == s@[i as int]@);
                assert(views(p@)[i as int] == p@[i as int]@);
            }
            return false;
        }
        i += 1;
    }
    proof {
        assert(views(s@).take(p.len() as int) =~= views(p@));
    }
    true
}

/// The path of an entry relative to the scan root, as reported in findings.
pub fn relative_path(root: &str, path: &str) -> (out: String)
    ensures
        out@ == relative_path_of(root@, path@),
{
    let rc = chars_of(root);
    let pc = chars_of(path);
    let rp = path_parts_exec(rc.as_slice());
    let pp = path_parts_exec(pc.as_slice());
    if parts_prefix(&rp, &pp) {
        let mut rest: Vec<Vec<char>> = Vec::new();
        let mut i: usize = rp.len();
        let ghost start = rp.len() as int;
        proof {
            assert(views(pp@).skip(start).take(0) =~= Seq::<Seq<char>>::empty());
        }
        while i < pp.len()
            invariant
                start <= i <= pp.len(),
                start == views(rp@).len(),
                views(rest@) == views(pp@).skip(start).take(i - start),
            decreases pp.len() - i,
        {
            let ghost before = views(rest@);
            rest.push(slice_chars(pp[i].as_slice(), 0, pp[i].len()));
            proof {
                assert(pp@[i as int]@.subrange(0, pp@[i as int]@.len() as int) =~= pp@[i as int]@);
                assert(views(pp@).skip(start).take(i + 1 - start) =~= views(pp@).skip(start).take(
                    i - start,
                ).push(pp@[i as int]@));
                assert(views(rest@) =~= before.push(pp@[i as int]@));
            }
            i += 1;
        }
        proof {
            assert(views(pp@).skip(start).take(pp.len() - start) =~= views(pp@).skip(start));
        }
        let sep = chars_of("/");
        let joined = join_chars(&rest, sep.as_slice());
        string_of(joined.as_slice())
    } else {
        path.to_string()
    }
}

/// Whether traversal skips this path: some component is `.git`, `target`,
/// `node_modules`, `.venv`, `dist` or `build`.
pub fn ignored(path: &str) -> (r: bool)
    ensures
        r == ignored_spec(path@),
{
    let pc = chars_of(path);
    let parts = split_chars(pc.as_slice(), '/');
    let mut i: usize = 0;
    while i < parts.len()
        invariant
            i <= parts.len(),
            views(parts@) == split(path@, '/'),
            forall|k: int| 0 <= k < i ==> !skipped_dir(#[trigger] split(path@, '/')[k]),
        decreases parts.len() - i,
    {
        let part = parts[i].as_slice();
        proof {
            assert(split(path@, '/')[i as int] == parts@[i as int]@);
        }
        if chars_eq(part, chars_of(".git").as_slice()) || chars_eq(part, chars_of("target").as_slice())
            || chars_eq(part, chars_of("node_modules").as_slice()) || chars_eq(
            part,
            chars_of(".venv").as_slice(),
        ) || chars_eq(part, chars_of("dist").as_slice()) || chars_eq(part, chars_of("build").as_slice()) {
            return true;
        }
        i += 1;
    }
    false
}

// ---------------------------------------------------------------------------
// Operator ignore lists
// ---------------------------------------------------------------------------

/// Upper bound on the size of an ignore file, in bytes.
pub const MAX_IGNORE_BYTES: usize = 65536;

/// Upper bound on the distinct entries of an ignore file.
pub const MAX_IGNORE_ENTRIES: usize = 256;

/// Component lists held as nested character vectors.
pub open spec fn keys_view(v: Seq<Vec<Vec<char>>>) -> Seq<Seq<Seq<char>>> {
    v.map_values(|k: Vec<Vec<char>>| views(k@))
}

/// `s` with `k` added unless it is already there, as a set insert counts.
pub open spec fn key_insert(s: Seq<Seq<Seq<char>>>, k: Seq<Seq<char>>) -> Seq<Seq<Seq<char>>> {
    if s.contains(k) {
        s
    } else {
        s.push(k)
    }
}

/// Entries of an ignore file: exact paths and directory prefixes, each by
/// its components.
pub struct IgnoreView {
    pub exact: Seq<Seq<Seq<char>>>,
    pub prefixes: Seq<Seq<Seq<char>>>,
}

/// The outcome of reading an ignore file.
pub enum IgnoreParse {
    Parsed(IgnoreView),
    TooLarge,
    TooMany,
    InvalidLine(nat),
}

/// A value without a trailing `/**`.
pub open spec fn strip_glob(v: Seq<char>) -> Seq<char> {
    if ends_with(v, "/**"@) {
        v.take(v.len() - 3)
    } else {
        v
    }
}

pub open spec fn forbidden_char(c: char) -> bool {
    c == '\\' || c == '\0' || c == '!' || c == '*' || c == '?' || c == '[' || c == ']'
}

/// A rooted entry that is refused: empty, holding a glob or escape
/// character, starting at `.`, or climbing with `..`.
pub open spec fn invalid_entry(clean: Seq<char>) -> bool {
    ||| clean.len() == 0
    ||| exists|i: int| 0 <= i < clean.len() && forbidden_char(#[trigger] clean[i])
    ||| clean == "."@
    ||| starts_with(clean, "./"@)
    ||| split(clean, '/').contains(".."@)
}

/// One line of an ignore file, numbered `no`, read into `acc`.
pub open spec fn ignore_line(acc: IgnoreParse, raw: Seq<char>, no: nat) -> IgnoreParse {
    match acc {
        IgnoreParse::Parsed(v) => {
            let value = trim(raw);
            if value.len() == 0 || starts_with(value, "#"@) {
                acc
            } else if v.exact.len() + v.prefixes.len() >= MAX_IGNORE_ENTRIES {
                IgnoreParse::TooMany
            } else {
                let prefix = ends_with(value, "/"@) || ends_with(value, "/**"@);
                let clean = trim_char(strip_glob(value), '/');
                if invalid_entry(clean) {
                    IgnoreParse::InvalidLine(no)
                } else if prefix {
                    IgnoreParse::Parsed(
                        IgnoreView { prefixes: key_insert(v.prefixes, path_key(clean)), ..v },
                    )
                } else {
                    IgnoreParse::Parsed(
                        IgnoreView { exact: key_insert(v.exact, path_key(clean)), ..v },
                    )
                }
            }
        },
        _ => acc,
    }
}

pub open spec fn ignore_lines(ls: Seq<Seq<char>>) -> IgnoreParse
    decreases ls.len(),
{
    if ls.len() == 0 {
        IgnoreParse::Parsed(IgnoreView { exact: Seq::empty(), prefixes: Seq::empty() })
    } else {
        ignore_line(ignore_lines(ls.drop_last()), ls.last(), ls.len())
    }
}

/// An ignore file's text read line by line: blank lines and `#` comments
/// skipped, entries ending in `/` or `/**` taken as directory prefixes.
pub open spec fn parse_ignore_spec(source: Seq<char>) -> IgnoreParse {
    if utf8_len(source) > MAX_IGNORE_BYTES {
        IgnoreParse::TooLarge
    } else {
        ignore_lines(lines(source))
    }
}

/// Whether a relative path is an exact entry, or at or below a prefix entry.
pub open spec fn ignore_matches(v: IgnoreView, relative: Seq<char>) -> bool {
    v.exact.contains(path_key(relative)) || exists|i: int|
        0 <= i < v.prefixes.len() && is_prefix_of(#[trigger] v.prefixes[i], path_key(relative))
}

/// Operator-selected rooted paths that a scan does not enter.
#[derive(Clone, Debug)]
pub struct IgnoreSet {
    exact: Vec<Vec<Vec<char>>>,
    prefixes: Vec<Vec<Vec<char>>>,
}

impl View for IgnoreSet {
    type V = IgnoreView;

    closed spec fn view(&self) -> IgnoreView {
        IgnoreView { exact: keys_view(self.exact@), prefixes: keys_view(self.prefixes@) }
    }
}

fn keys_eq(a: &Vec<Vec<char>>, b: &Vec<Vec<char>>) -> (r: bool)
    ensures
        r == (views(a@) == views(b@)),
{
    if a.len() != b.len() {
        return false;
    }
    let r = parts_prefix(a, b);
    proof {
        assert(views(b@).take(a.len() as int) =~= views(b@));
    }
    r
}

fn key_position(s: &Vec<Vec<Vec<char>>>, k: &Vec<Vec<char>>) -> (r: bool)
    ensures
        r == keys_view(s@).contains(views(k@)),
{
    let mut i: usize = 0;
    while i < s.len()
        invariant
            i <= s.len(),
            forall|j: int| 0 <= j < i ==> #[trigger] keys_view(s@)[j] != views(k@),
        decreases s.len() - i,
    {
        proof {
            assert(keys_view(s@)[i as int] == views(s@[i as int]@));
        }
        if keys_eq(&s[i], k) {
            return true;
        }
        i += 1;
    }
    false
}

fn insert_key(s: &mut Vec<Vec<Vec<char>>>, k: Vec<Vec<char>>)
    ensures
        keys_view(final(s)@) == key_insert(keys_view(old(s)@), views(k@)),
{
    if !key_position(s, &k) {
        let ghost before = keys_view(s@);
        let ghost kv = views(k@);
        s.push(k);
        proof {
            assert(keys_view(s@) =~= before.push(kv));
        }
    }
}

fn has_forbidden(clean: &[char]) -> (r: bool)
    ensures
        r == exists|i: int| 0 <= i < clean@.len() && forbidden_char(#[trigger] clean@[i]),
{
    let mut i: usize = 0;
    while i < clean.len()
        invariant
            i <= clean.len(),
            forall|j: int| 0 <= j < i ==> !forbidden_char(#[trigger] clean@[j]),
        decreases clean.len() - i,
    {
        let c = clean[i];
        if c == '\\' || c == '\0' || c == '!' || c == '*' || c == '?' || c == '[' || c == ']' {
            return true;
        }
        i += 1;
    }
    false
}

fn has_parent_part(clean: &[char]) -> (r: bool)
    ensures
        r == split(clean@, '/').contains(".."@),
{
    let parts = split_chars(clean, '/');
    let up = chars_of("..");
    let mut i: usize = 0;
    while i < parts.len()
        invariant
            i <= parts.len(),
            views(parts@) == split(clean@, '/'),
            up@ == ".."@,
            forall|j: int| 0 <= j < i ==> #[trigger] split(clean@, '/')[j] != ".."@,
        decreases parts.len() - i,
    {
        proof {
            assert(split(clean@, '/')[i as int] == parts@[i as int]@);
        }
        if chars_eq(parts[i].as_slice(), up.as_slice()) {
            return true;
        }
        i += 1;
    }
    false
}

fn invalid_entry_exec(clean: &[char]) -> (r: bool)
    ensures
        r == invalid_entry(clean@),
{
    let dot = chars_of(".");
    clean.len() == 0 || has_forbidden(clean) || chars_eq(clean, dot.as_slice()) || has_prefix_str(
        clean,
        "./",
    ) || has_parent_part(clean)
}

fn invalid_line_message(no: usize) -> (out: String)
    ensures
        out@ == "invalid rooted path on line "@ + decimal(no as nat),
{
    let mut m: Vec<char> = Vec::new();
    append_str(&mut m, "invalid rooted path on line ");
    let d = decimal_chars(no as u64);
    append_chars(&mut m, d.as_slice());
    string_of(m.as_slice())
}

impl IgnoreSet {
    /// The set with no entries, used when no ignore file is given.
    pub fn empty() -> (r: IgnoreSet)
        ensures
            r@.exact.len() == 0,
            r@.prefixes.len() == 0,
    {
        let r = IgnoreSet { exact: Vec::new(), prefixes: Vec::new() };
        proof {
            assert(keys_view(r.exact@) =~= Seq::<Seq<Seq<char>>>::empty());
            assert(keys_view(r.prefixes@) =~= Seq::<Seq<Seq<char>>>::empty());
        }
        r
    }

    /// Reads an ignore file's text. Entries are rooted exact paths or
    /// directory prefixes ending in `/` or `/**`; anything ambiguous is
    /// refused with the number of its line.
    pub fn parse(source: &str) -> (r: Result<IgnoreSet, SandboxError>)
        ensures
            parse_ignore_spec(source@) matches IgnoreParse::Parsed(v) ==> (r matches Ok(set)
                && set@ == v),
            parse_ignore_spec(source@) is TooLarge ==> (r matches Err(
                SandboxError::InvalidIgnore(m),
            ) && m@ == "ignore file exceeds 64 KiB"@),
            parse_ignore_spec(source@) is TooMany ==> (r matches Err(SandboxError::InvalidIgnore(m))
                && m@ == "ignore file exceeds 256 entries"@),
            parse_ignore_spec(source@) matches IgnoreParse::InvalidLine(n) ==> (r matches Err(
                SandboxError::InvalidIgnore(m),
            ) && m@ == "invalid rooted path on line "@ + decimal(n)),
    {
        let chars = chars_of(source);
        if utf8_len_exceeds(chars.as_slice(), MAX_IGNORE_BYTES) {
            return Err(SandboxError::InvalidIgnore("ignore file exceeds 64 KiB".to_string()));
        }
        let ls = lines_of(chars.as_slice());
        let mut set = IgnoreSet::empty();
        let mut i: usize = 0;
        proof {
            assert(views(ls@).take(0) =~= Seq::<Seq<char>>::empty());
            assert(set@.exact =~= Seq::<Seq<Seq<char>>>::empty());
            assert(set@.prefixes =~= Seq::<Seq<Seq<char>>>::empty());
        }
        while i < ls.len()
            invariant
                i <= ls.len(),
                views(ls@) == lines(source@),
                !(utf8_len(source@) > MAX_IGNORE_BYTES),
                ignore_lines(views(ls@).take(i as int)) == IgnoreParse::Parsed(set@),
                set@.exact.len() == set.exact.len(),
                set@.prefixes.len() == set.prefixes.len(),
            decreases ls.len() - i,
        {
            let ghost acc = ignore_lines(views(ls@).take(i as int));
            proof {
                assert(views(ls@).take(i + 1).drop_last() =~= views(ls@).take(i as int));
                assert(views(ls@)[i as int] == ls@[i as int]@);
                assert(views(ls@).take(i + 1).last() == ls@[i as int]@);
            }
            let value = trim_chars(ls[i].as_slice());
            if value.len() == 0 || has_prefix_str(value.as_slice(), "#") {
                i += 1;
                continue;
            }
            if set.exact.len() >= MAX_IGNORE_ENTRIES || set.prefixes.len() >= MAX_IGNORE_ENTRIES
                - set.exact.len() {
                proof {
                    assert(views(ls@).take(i + 1) =~= views(ls@).take(i + 1));
                    lemma_ignore_fail_sticks(views(ls@), i + 1);
                }
                return Err(
                    SandboxError::InvalidIgnore("ignore file exceeds 256 entries".to_string()),
                );
            }
            let prefix = has_suffix_str(value.as_slice(), "/") || has_suffix_str(
                value.as_slice(),
                "/**",
            );
            proof {
                reveal_strlit("/**");
            }
            let stripped = if has_suffix_str(value.as_slice(), "/**") {
                slice_chars(value.as_slice(), 0, value.len() - 3)
            } else {
                slice_chars(value.as_slice(), 0, value.len())
            };
            proof {
                assert(stripped@ =~= strip_glob(value@));
            }
            let clean = trim_char_exec(stripped.as_slice(), '/');
            if invalid_entry_exec(clean.as_slice()) {
                proof {
                    lemma_ignore_fail_sticks(views(ls@), i + 1);
                }
                return Err(SandboxError::InvalidIgnore(invalid_line_message(i + 1)));
            }
            let key = path_key_exec(clean.as_slice());
            if prefix {
                insert_key(&mut set.prefixes, key);
            } else {
                insert_key(&mut set.exact, key);
            }
            i += 1;
        }
        proof {
            assert(views(ls@).take(ls.len() as int) =~= views(ls@));
        }
        Ok(set)
    }

    /// Whether a relative path is ignored: equal to an exact entry, or equal
    /// to or below a prefix entry, component by component.
    pub fn matches(&self, relative: &str) -> (r: bool)
        ensures
            r == ignore_matches(self@, relative@),
    {
        let rc = chars_of(relative);
        let key = path_key_exec(rc.as_slice());
        if key_position(&self.exact, &key) {
            return true;
        }
        let mut i: usize = 0;
        while i < self.prefixes.len()
            invariant
                i <= self.prefixes.len(),
                views(key@) == path_key(relative@),
                forall|j: int|
                    0 <= j < i ==> !is_prefix_of(#[trigger] keys_view(self.prefixes@)[j], path_key(relative@)),
            decreases self.prefixes.len() - i,
        {
            proof {
                assert(keys_view(self.prefixes@)[i as int] == views(self.prefixes@[i as int]@));
            }
            if parts_prefix(&self.prefixes[i], &key) {
                proof {
                    assert(is_prefix_of(self@.prefixes[i as int], path_key(relative@)));
                }
                return true;
            }
            i += 1;
        }
        false
    }
}

/// Once reading an ignore file has failed, later lines keep the failure.
proof fn lemma_ignore_fail_sticks(ls: Seq<Seq<char>>, n: int)
    requires
        0 <= n <= ls.len(),
        !(ignore_lines(ls.take(n)) is Parsed),
    ensures
        ignore_lines(ls) == ignore_lines(ls.take(n)),
    decreases ls.len() - n,
{
    if n < ls.len() {
        assert(ls.take(n + 1).drop_last() =~= ls.take(n));
        lemma_ignore_fail_sticks(ls, n + 1);
    } else {
        assert(ls.take(n) =~= ls);
    }
}

// ---------------------------------------------------------------------------
// Sandbox plans
// ---------------------------------------------------------------------------

/// Strong execution backend available on this host.
#[derive(Clone, Copy, Debug, PartialEq, Eq, Structural)]
pub enum SandboxBackend {
    /// Linux Bubblewrap namespaces.
    Bubblewrap,
    /// macOS Seatbelt through `sandbox-exec`.
    MacosSeatbelt,
    /// No strong local backend was found.
    Unavailable,
}

/// No-shell command plan that activates the selected sandbox.
#[derive(Clone, Debug)]
pub struct SandboxPlan {
    /// Isolation backend.
    pub backend: SandboxBackend,
    /// Executable to spawn.
    pub program: String,
    /// Exact argument vector.
    pub args: Vec<String>,
    /// Whether the plan provides a strong OS isolation boundary.
    pub strong: bool,
    /// Human-readable limitations.
    pub limitations: Vec<String>,
}

pub struct PlanView {
    pub backend: SandboxBackend,
    pub program: Seq<char>,
    pub args: Seq<Seq<char>>,
    pub strong: bool,
    pub limitations: Seq<Seq<char>>,
}

impl View for SandboxPlan {
    type V = PlanView;

    open spec fn view(&self) -> PlanView {
        PlanView {
            backend: self.backend,
            program: self.program@,
            args: strings_view(self.args@),
            strong: self.strong,
            limitations: strings_view(self.limitations@),
        }
    }
}

/// Bubblewrap arguments: every namespace unshared, the host read-only, the
/// workspace the only writable bind and the working directory.
pub open spec fn bwrap_args(program: Seq<char>, args: Seq<Seq<char>>, root: Seq<char>) -> Seq<
    Seq<char>,
> {
    seq![
        "--die-with-parent"@,
        "--new-session"@,
        "--unshare-all"@,
        "--ro-bind"@,
        "/"@,
        "/"@,
        "--bind"@,
        root,
        root,
        "--tmpfs"@,
        "/tmp"@,
        "--proc"@,
        "/proc"@,
        "--dev"@,
        "/dev"@,
        "--chdir"@,
        root,
        "--"@,
        program,
    ] + args
}

/// The Seatbelt profile: deny by default, allow processes and reads, writes
/// only below the workspace (quotes escaped), and no network.
pub open spec fn seatbelt_profile(root: Seq<char>) -> Seq<char> {
    "(version 1)(deny default)(allow process*)(allow file-read*)(allow file-write* (subpath \""@
        + replace_char(root, '"', "\\\""@) + "\"))(deny network*)"@
}

/// The plan for running `program args` in `root` on a host whose strong
/// backend is `available`.
pub open spec fn plan_spec(
    available: SandboxBackend,
    program: Seq<char>,
    args: Seq<Seq<char>>,
    root: Seq<char>,
) -> PlanView {
    match available {
        SandboxBackend::Bubblewrap => PlanView {
            backend: SandboxBackend::Bubblewrap,
            program: "bwrap"@,
            args: bwrap_args(program, args, root),
            strong: true,
            limitations: seq![
                "network namespace is disabled; workspace is the only writable host bind"@,
            ],
        },
        SandboxBackend::MacosSeatbelt => PlanView {
            backend: SandboxBackend::MacosSeatbelt,
            program: "sandbox-exec"@,
            args: seq!["-p"@, seatbelt_profile(root), program] + args,
            strong: true,
            limitations: seq![
                "Seatbelt profile permits process execution and read-only host filesystem access"@,
            ],
        },
        SandboxBackend::Unavailable => PlanView {
            backend: SandboxBackend::Unavailable,
            program,
            args,
            strong: false,
            limitations: seq![
                "no supported strong OS sandbox was found; command must not be called sandboxed"@,
            ],
        },
    }
}

fn push_owned(v: &mut Vec<String>, s: &str)
    ensures
        strings_view(final(v)@) == strings_view(old(v)@).push(s@),
{
    let ghost before = strings_view(v@);
    v.push(s.to_string());
    proof {
        assert(strings_view(v@) =~= before.push(s@));
    }
}

fn extend_strings(v: &mut Vec<String>, args: &Vec<String>)
    ensures
        strings_view(final(v)@) == strings_view(old(v)@) + strings_view(args@),
{
    let ghost start = strings_view(v@);
    let mut i: usize = 0;
    while i < args.len()
        invariant
            i <= args.len(),
            strings_view(v@) == start + strings_view(args@).take(i as int),
        decreases args.len() - i,
    {
        let ghost before = strings_view(v@);
        v.push(args[i].clone());
        proof {
            assert(strings_view(v@) =~= before.push(args@[i as int]@));
            assert(strings_view(args@).take(i + 1) =~= strings_view(args@).take(i as int).push(
                args@[i as int]@,
            ));
        }
        i += 1;
    }
    proof {
        assert(strings_view(args@).take(args.len() as int) =~= strings_view(args@));
    }
}

/// Selects the no-network OS sandbox plan for an exact command, given the
/// strong backend that the host offers. Without one the plan runs the
/// command as it is and is never called strong.
pub fn sandbox_plan(
    program: &str,
    args: &Vec<String>,
    workspace: &str,
    available: SandboxBackend,
) -> (plan: SandboxPlan)
    ensures
        plan@ == plan_spec(available, program@, strings_view(args@), workspace@),
{
    let mut out: Vec<String> = Vec::new();
    let mut limitations: Vec<String> = Vec::new();
    match available {
        SandboxBackend::Bubblewrap => {
            push_owned(&mut out, "--die-with-parent");
            push_owned(&mut out, "--new-session");
            push_owned(&mut out, "--unshare-all");
            push_owned(&mut out, "--ro-bind");
            push_owned(&mut out, "/");
            push_owned(&mut out, "/");
            push_owned(&mut out, "--bind");
            push_owned(&mut out, workspace);
            push_owned(&mut out, workspace);
            push_owned(&mut out, "--tmpfs");
            push_owned(&mut out, "/tmp");
            push_owned(&mut out, "--proc");
            push_owned(&mut out, "/proc");
            push_owned(&mut out, "--dev");
            push_owned(&mut out, "/dev");
            push_owned(&mut out, "--chdir");
            push_owned(&mut out, workspace);
            push_owned(&mut out, "--");
            push_owned(&mut out, program);
            extend_strings(&mut out, args);
            push_owned(
                &mut limitations,
                "network namespace is disabled; workspace is the only writable host bind",
            );
            let plan = SandboxPlan {
                backend: SandboxBackend::Bubblewrap,
                program: "bwrap".to_string(),
                args: out,
                strong: true,
                limitations,
            };
            proof {
                assert(plan@.args =~= bwrap_args(program@, strings_view(args@), workspace@));
                assert(plan@.limitations =~= seq![
                    "network namespace is disabled; workspace is the only writable host bind"@,
                ]);
            }
            plan
        },
        SandboxBackend::MacosSeatbelt => {
            let root = chars_of(workspace);
            let escaped = replace_char_exec(root.as_slice(), '"', chars_of("\\\"").as_slice());
            let mut profile: Vec<char> = Vec::new();
            append_str(
                &mut profile,
                "(version 1)(deny default)(allow process*)(allow file-read*)(allow file-write* (subpath \"",
            );
            append_chars(&mut profile, escaped.as_slice());
            append_str(&mut profile, "\"))(deny network*)");
            push_owned(&mut out, "-p");
            let ghost before = strings_view(out@);
            let p = string_of(profile.as_slice());
            out.push(p);
            proof {
                assert(strings_view(out@) =~= before.push(seatbelt_profile(workspace@)));
            }
            push_owned(&mut out, program);
            extend_strings(&mut out, args);
            push_owned(
                &mut limitations,
                "Seatbelt profile permits process execution and read-only host filesystem access",
            );
            let plan = SandboxPlan {
                backend: SandboxBackend::MacosSeatbelt,
                program: "sandbox-exec".to_string(),
                args: out,
                strong: true,
                limitations,
            };
            proof {
                assert(plan@.args =~= seq!["-p"@, seatbelt_profile(workspace@), program@]
                    + strings_view(args@));
                assert(plan@.limitations =~= seq![
                    "Seatbelt profile permits process execution and read-only host filesystem access"@,
                ]);
            }
            plan
        },
        SandboxBackend::Unavailable => {
            extend_strings(&mut out, args);
            push_owned(
                &mut limitations,
                "no supported strong OS sandbox was found; command must not be called sandboxed",
            );
            let plan = SandboxPlan {
                backend: SandboxBackend::Unavailable,
                program: program.to_string(),
                args: out,
                strong: false,
                limitations,
            };
            proof {
                assert(plan@.args =~= strings_view(args@));
                assert(plan@.limitations =~= seq![
                    "no supported strong OS sandbox was found; command must not be called sandboxed"@,
                ]);
            }
            plan
        },
    }
}

// ---------------------------------------------------------------------------
// Traversal decisions
// ---------------------------------------------------------------------------

/// Whether traversal enters an entry: its path relative to the scan root
/// passes through no skipped directory and is not covered by the operator's
/// ignore list (the directories above the root do not count).
pub fn scan_enters(root: &str, path: &str, ignore: &IgnoreSet) -> (r: bool)
    ensures
        r == (!ignored_spec(relative_path_of(root@, path@)) && !ignore_matches(
            ignore@,
            relative_path_of(root@, path@),
        )),
{
    let relative = relative_path(root, path);
    if ignored(relative.as_str()) {
        return false;
    }
    !ignore.matches(relative.as_str())
}

impl ScanReport {
    /// Whether some finding is critical.
    pub fn has_critical(&self) -> (r: bool)
        ensures
            r == exists|i: int|
                0 <= i < self.findings@.len() && (#[trigger] self.findings@[i]).severity
                    == Severity::Critical,
    {
        let mut i: usize = 0;
        while i < self.findings.len()
            invariant
                i <= self.findings.len(),
                forall|j: int|
                    0 <= j < i ==> (#[trigger] self.findings@[j]).severity != Severity::Critical,
            decreases self.findings.len() - i,
        {
            if self.findings[i].severity == Severity::Critical {
                return true;
            }
            i += 1;
        }
        false
    }

    /// Exit code of a scan: 10 when a finding is critical, 0 otherwise.
    pub fn exit_code(&self) -> (code: u8)
        ensures
            code == (if exists|i: int|
                0 <= i < self.findings@.len() && (#[trigger] self.findings@[i]).severity
                    == Severity::Critical {
                10u8
            } else {
                0u8
            }),
    {
        if self.has_critical() {
            10
        } else {
            0
        }
    }
}


// ---------------------------------------------------------------------------
// Laws
// ---------------------------------------------------------------------------

/// Without a strong backend the plan is never called strong and runs the
/// command exactly as given; with one it always is strong.
pub proof fn law_plan_strength(
    available: SandboxBackend,
    program: Seq<char>,
    args: Seq<Seq<char>>,
    root: Seq<char>,
)
    ensures
        plan_spec(available, program, args, root).strong <==> available != SandboxBackend::Unavailable,
        plan_spec(available, program, args, root).backend == available,
        available == SandboxBackend::Unavailable ==> plan_spec(available, program, args, root).program
            == program && plan_spec(available, program, args, root).args == args,
{
}

/// An excerpt never exceeds 260 characters plus the cut marker, and is
/// ASCII but for that marker.
pub proof fn law_excerpt_bounded(l: Seq<char>)
    ensures
        safe_excerpt_of(l).len() <= EXCERPT_BYTES + 1,
        forall|i: int|
            0 <= i < safe_excerpt_of(l).len() ==> (#[trigger] safe_excerpt_of(l)[i] as u32) < 0x80
                || (i == EXCERPT_BYTES && safe_excerpt_of(l)[i] == '…'),
{
    let t = l.take(min_int(EXCERPT_CHARS as int, l.len() as int));
    let e = escape_text(t);
    lemma_escape_ascii(t);
    if utf8_len(e) > EXCERPT_BYTES {
        let x = e.take(EXCERPT_BYTES as int) + seq!['…'];
        assert forall|i: int| 0 <= i < x.len() implies (#[trigger] x[i] as u32) < 0x80 || (i
            == EXCERPT_BYTES && x[i] == '…') by {
            if i < EXCERPT_BYTES {
                assert(x[i] == e[i]);
            }
        }
    }
}

proof fn lemma_only_label(s: Seq<Seq<char>>, x: Seq<char>, label: Seq<char>)
    requires
        forall|i: int| 0 <= i < s.len() ==> #[trigger] s[i] == label,
        x == label,
    ensures
        forall|i: int| 0 <= i < set_insert(s, x).len() ==> #[trigger] set_insert(s, x)[i] == label,
{
    assert forall|i: int| 0 <= i < set_insert(s, x).len() implies #[trigger] set_insert(s, x)[i]
        == label by {
        let y = set_insert(s, x)[i];
        lemma_set_insert_contains(s, x, y);
        assert(set_insert(s, x).contains(y));
        if s.contains(y) {
            let j = choose|j: int| 0 <= j < s.len() && s[j] == y;
        }
    }
}

proof fn lemma_trace_labels(ls: Seq<Seq<char>>)
    ensures
        forall|i: int|
            0 <= i < trace_lines(ls).environment_reads.len() ==> #[trigger] trace_lines(
                ls,
            ).environment_reads[i] == "*"@,
        forall|i: int|
            0 <= i < trace_lines(ls).network.len() ==> #[trigger] trace_lines(ls).network[i]
                == "network-connect-attempt"@,
    decreases ls.len(),
{
    if ls.len() > 0 {
        lemma_trace_labels(ls.drop_last());
        let r = trace_lines(ls.drop_last());
        let l = ls.last();
        let r1 = match quoted_path_of(l) {
            Some(p) => path_effects(r, l, p),
            None => r,
        };
        assert(r1.environment_reads == r.environment_reads);
        assert(r1.network == r.network);
        if contains_sub(l, "connect("@) {
            lemma_only_label(r1.network, "network-connect-attempt"@, "network-connect-attempt"@);
        }
        let r2 = if contains_sub(l, "connect("@) {
            BehaviorView { network: set_insert(r1.network, "network-connect-attempt"@), ..r1 }
        } else {
            r1
        };
        let r3 = if starts_with(l, "execve(\""@) {
            BehaviorView { processes: set_insert(r2.processes, execve_target(l)), ..r2 }
        } else {
            r2
        };
        if contains_sub(l, "environ"@) || contains_sub(l, "/proc/self/environ"@) {
            lemma_only_label(r3.environment_reads, "*"@, "*"@);
        }
    }
}

/// A trace summary records environment access only as `*`, never a
/// variable's name or value, and network activity only as an attempt label.
pub proof fn law_trace_is_metadata_only(trace: Seq<char>)
    ensures
        forall|i: int|
            0 <= i < behavior_of(trace).environment_reads.len() ==> #[trigger] behavior_of(
                trace,
            ).environment_reads[i] == "*"@,
        forall|i: int|
            0 <= i < behavior_of(trace).network.len() ==> #[trigger] behavior_of(trace).network[i]
                == "network-connect-attempt"@,
{
    lemma_trace_labels(lines(trace).take(min_int(MAX_TRACE_LINES as int, lines(trace).len() as int)));
}


/// A file-system entry of a trace summary: a credential, socket or `/tmp`
/// class, or a path of at most 256 characters that names none of those
/// locations.
pub open spec fn safe_path_label(x: Seq<char>) -> bool {
    ||| x == "~/.ssh/*"@
    ||| x == "~/.aws/*"@
    ||| x == "~/.config/gcloud/*"@
    ||| x == "docker-socket"@
    ||| x == "/tmp/*"@
    ||| (x.len() <= 256 && !contains_sub(x, "/.ssh/"@) && !contains_sub(x, "/.aws/"@)
        && !contains_sub(x, "/.config/gcloud/"@) && !contains_sub(x, "docker.sock"@))
}

/// What occurs in a prefix occurs in the whole.
proof fn lemma_sub_of_prefix(p: Seq<char>, k: int, t: Seq<char>)
    requires
        0 <= k <= p.len(),
        contains_sub(p.take(k), t),
    ensures
        contains_sub(p, t),
{
    let i = choose|i: int| occurs_at(p.take(k), t, i);
    assert(p.subrange(i, i + t.len()) =~= p.take(k).subrange(i, i + t.len()));
    assert(occurs_at(p, t, i));
}

/// Every traced path is recorded under a safe label.
proof fn lemma_classified_safe(p: Seq<char>)
    ensures
        safe_path_label(classify_path_spec(p)),
{
    if !contains_sub(p, "/.ssh/"@) && !contains_sub(p, "/.aws/"@) && !contains_sub(
        p,
        "/.config/gcloud/"@,
    ) && !contains_sub(p, "docker.sock"@) && !starts_with(p, "/tmp/"@) {
        let k = min_int(256, p.len() as int);
        let x = p.take(k);
        if contains_sub(x, "/.ssh/"@) {
            lemma_sub_of_prefix(p, k, "/.ssh/"@);
        }
        if contains_sub(x, "/.aws/"@) {
            lemma_sub_of_prefix(p, k, "/.aws/"@);
        }
        if contains_sub(x, "/.config/gcloud/"@) {
            lemma_sub_of_prefix(p, k, "/.config/gcloud/"@);
        }
        if contains_sub(x, "docker.sock"@) {
            lemma_sub_of_prefix(p, k, "docker.sock"@);
        }
    }
}

/// Inserting a safe label into a set of safe labels keeps them safe.
proof fn lemma_insert_safe(s: Seq<Seq<char>>, x: Seq<char>)
    requires
        forall|i: int| 0 <= i < s.len() ==> safe_path_label(#[trigger] s[i]),
        safe_path_label(x),
    ensures
        forall|i: int| 0 <= i < set_insert(s, x).len() ==> safe_path_label(#[trigger] set_insert(s, x)[i]),
{
    assert forall|i: int| 0 <= i < set_insert(s, x).len() implies safe_path_label(
        #[trigger] set_insert(s, x)[i],
    ) by {
        let y = set_insert(s, x)[i];
        lemma_set_insert_contains(s, x, y);
        assert(set_insert(s, x).contains(y));
        if s.contains(y) {
            let j = choose|j: int| 0 <= j < s.len() && s[j] == y;
            assert(safe_path_label(s[j]));
        }
    }
}

proof fn lemma_trace_paths(ls: Seq<Seq<char>>)
    ensures
        forall|i: int|
            0 <= i < trace_lines(ls).filesystem_reads.len() ==> safe_path_label(
                #[trigger] trace_lines(ls).filesystem_reads[i],
            ),
        forall|i: int|
            0 <= i < trace_lines(ls).filesystem_writes.len() ==> safe_path_label(
                #[trigger] trace_lines(ls).filesystem_writes[i],
            ),
    decreases ls.len(),
{
    if ls.len() > 0 {
        lemma_trace_paths(ls.drop_last());
        let r = trace_lines(ls.drop_last());
        let l = ls.last();
        match quoted_path_of(l) {
            Some(p) => {
                lemma_classified_safe(p);
                lemma_insert_safe(r.filesystem_writes, classify_path_spec(p));
                lemma_insert_safe(r.filesystem_reads, classify_path_spec(p));
            },
            None => {},
        }
    }
}

/// A trace summary records file-system access only by credential, socket or
/// `/tmp` class, or by a path of at most 256 characters that names none of
/// those locations.
pub proof fn law_trace_paths_are_labels(trace: Seq<char>)
    ensures
        forall|i: int|
            0 <= i < behavior_of(trace).filesystem_reads.len() ==> safe_path_label(
                #[trigger] behavior_of(trace).filesystem_reads[i],
            ),
        forall|i: int|
            0 <= i < behavior_of(trace).filesystem_writes.len() ==> safe_path_label(
                #[trigger] behavior_of(trace).filesystem_writes[i],
            ),
{
    lemma_trace_paths(lines(trace).take(min_int(MAX_TRACE_LINES as int, lines(trace).len() as int)));
}

/// Only the first `MAX_TRACE_LINES` lines of a transcript count: a
/// transcript of at least that many complete lines gives the same report
/// whatever follows it.
pub proof fn law_trace_lines_are_bounded(t: Seq<char>, u: Seq<char>)
    requires
        t.len() > 0,
        t.last() == '\n',
        lines(t).len() >= MAX_TRACE_LINES,
    ensures
        behavior_of(t + u) == behavior_of(t),
{
    lemma_lines_prefix(t, u);
    let n = MAX_TRACE_LINES as int;
    assert(min_int(n, lines(t + u).len() as int) == n);
    assert(min_int(n, lines(t).len() as int) == n);
    assert(lines(t + u).take(n) =~= lines(t + u).take(lines(t).len() as int).take(n));
}

// ---------------------------------------------------------------------------
// The report order
// ---------------------------------------------------------------------------

proof fn lemma_parts_lt_irreflexive(a: Seq<Seq<char>>)
    ensures
        !parts_lt(a, a),
    decreases a.len(),
{
    if a.len() > 0 {
        lemma_text_lt_irreflexive(a[0]);
        lemma_parts_lt_irreflexive(a.drop_first());
    }
}

proof fn lemma_parts_lt_trichotomy(a: Seq<Seq<char>>, b: Seq<Seq<char>>)
    ensures
        a == b || parts_lt(a, b) || parts_lt(b, a),
    decreases a.len(),
{
    if a.len() > 0 && b.len() > 0 {
        lemma_text_lt_trichotomy(a[0], b[0]);
        if a[0] == b[0] {
            lemma_parts_lt_trichotomy(a.drop_first(), b.drop_first());
            if a.drop_first() == b.drop_first() {
                assert(a =~= seq![a[0]] + a.drop_first());
                assert(b =~= seq![b[0]] + b.drop_first());
            }
        }
    } else if a.len() == 0 && b.len() == 0 {
        assert(a =~= b);
    }
}

proof fn lemma_parts_lt_transitive(a: Seq<Seq<char>>, b: Seq<Seq<char>>, c: Seq<Seq<char>>)
    requires
        parts_lt(a, b),
        parts_lt(b, c),
    ensures
        parts_lt(a, c),
    decreases a.len(),
{
    if a.len() > 0 {
        if text_lt(a[0], b[0]) {
            if text_lt(b[0], c[0]) {
                lemma_text_lt_transitive(a[0], b[0], c[0]);
            }
        } else {
            if text_lt(b[0], c[0]) {
            } else {
                lemma_parts_lt_transitive(a.drop_first(), b.drop_first(), c.drop_first());
            }
        }
    }
}

/// Two findings that no order key tells apart.
pub open spec fn same_place(a: FindingView, b: FindingView) -> bool {
    &&& sev_rank(a.severity) == sev_rank(b.severity)
    &&& split(a.path, '/') == split(b.path, '/')
    &&& a.line == b.line
    &&& a.code == b.code
}

proof fn lemma_finding_total(a: FindingView, b: FindingView)
    ensures
        finding_precedes(a, b) || finding_precedes(b, a) || same_place(a, b),
{
    lemma_parts_lt_trichotomy(split(a.path, '/'), split(b.path, '/'));
    lemma_text_lt_trichotomy(a.code, b.code);
}

proof fn lemma_finding_transitive(a: FindingView, b: FindingView, c: FindingView)
    requires
        finding_precedes(a, b),
        finding_precedes(b, c),
    ensures
        finding_precedes(a, c),
{
    let (pa, pb, pc) = (split(a.path, '/'), split(b.path, '/'), split(c.path, '/'));
    if sev_rank(a.severity) == sev_rank(b.severity) && sev_rank(b.severity) == sev_rank(c.severity) {
        if pa != pb && pb != pc {
            lemma_parts_lt_transitive(pa, pb, pc);
            lemma_parts_lt_irreflexive(pa);
        } else if pa == pb && pb == pc {
            if a.line == b.line && b.line == c.line {
                lemma_text_lt_transitive(a.code, b.code, c.code);
            }
        } else if pa != pb {
            lemma_parts_lt_irreflexive(pa);
        }
    }
}

proof fn lemma_finding_irreflexive(a: FindingView)
    ensures
        !finding_precedes(a, a),
{
    lemma_text_lt_irreflexive(a.code);
}

proof fn lemma_same_place_swaps(a: FindingView, b: FindingView, c: FindingView)
    requires
        same_place(a, b),
    ensures
        finding_precedes(a, c) == finding_precedes(b, c),
        finding_precedes(c, a) == finding_precedes(c, b),
{
}

/// The report order is a strict weak order.
pub proof fn lemma_finding_order_strict_weak()
    ensures
        strict_weak(report_order()),
{
    let p = report_order();
    assert forall|a: FindingView| !#[trigger] p(a, a) by {
        lemma_finding_irreflexive(a);
    }
    assert forall|a: FindingView, b: FindingView, c: FindingView|
        #[trigger] p(a, b) && #[trigger] p(b, c) implies p(a, c) by {
        lemma_finding_transitive(a, b, c);
    }
    assert forall|a: FindingView, b: FindingView, c: FindingView| #[trigger] p(a, c) implies p(
        a,
        b,
    ) || #[trigger] p(b, c) by {
        lemma_finding_total(a, b);
        if !p(a, b) {
            if p(b, a) {
                lemma_finding_transitive(b, a, c);
            } else {
                lemma_same_place_swaps(a, b, c);
            }
        }
    }
}

proof fn lemma_dedup_within<V>(s: Seq<V>, y: V)
    ensures
        dedup_spec(s).contains(y) ==> s.contains(y),
        s.len() > 0 ==> dedup_spec(s).len() > 0 && dedup_spec(s).last() == s.last(),
    decreases s.len(),
{
    if s.len() > 1 {
        let d = s.drop_last();
        lemma_dedup_within(d, y);
        let r = dedup_spec(d);
        if s.last() == s[s.len() - 2] {
            assert(d.last() == s.last());
            if r.contains(y) {
                let k = choose|k: int| 0 <= k < d.len() && d[k] == y;
                assert(s[k] == y);
            }
        } else {
            if r.push(s.last()).contains(y) {
                let j = choose|j: int| 0 <= j < r.len() + 1 && r.push(s.last())[j] == y;
                if j < r.len() {
                    assert(r[j] == y);
                    let k = choose|k: int| 0 <= k < d.len() && d[k] == y;
                    assert(s[k] == y);
                } else {
                    assert(s[s.len() - 1] == y);
                }
            }
        }
    }
}

proof fn lemma_dedup_sorted<V>(s: Seq<V>, p: spec_fn(V, V) -> bool)
    requires
        sorted_by(s, p),
    ensures
        sorted_by(dedup_spec(s), p),
        forall|i: int| 0 <= i < dedup_spec(s).len() - 1 ==> #[trigger] dedup_spec(s)[i] != dedup_spec(s)[i + 1],
    decreases s.len(),
{
    if s.len() > 1 {
        let d = s.drop_last();
        assert(sorted_by(d, p)) by {
            assert forall|i: int, j: int| 0 <= i < j < d.len() implies !p(
                #[trigger] d[j],
                #[trigger] d[i],
            ) by {
                assert(d[j] == s[j] && d[i] == s[i]);
            }
        }
        lemma_dedup_sorted(d, p);
        let r = dedup_spec(d);
        if s.last() != s[s.len() - 2] {
            let t = r.push(s.last());
            lemma_dedup_within(d, s.last());
            assert(r.last() == d.last());
            assert forall|i: int, j: int| 0 <= i < j < t.len() implies !p(
                #[trigger] t[j],
                #[trigger] t[i],
            ) by {
                if j < r.len() {
                    assert(t[j] == r[j] && t[i] == r[i]);
                } else {
                    let y = r[i];
                    assert(t[i] == y);
                    lemma_dedup_within(d, y);
                    assert(r.contains(y));
                    let k = choose|k: int| 0 <= k < d.len() && d[k] == y;
                    assert(s[k] == y);
                    assert(!p(s[s.len() - 1], s[k]));
                }
            }
            assert forall|i: int| 0 <= i < t.len() - 1 implies #[trigger] t[i] != t[i + 1] by {
                if i < r.len() - 1 {
                    assert(t[i] == r[i] && t[i + 1] == r[i + 1]);
                } else {
                    assert(t[i] == r.last());
                    assert(t[i + 1] == s.last());
                }
            }
        }
    }
}

/// A finished scan report lists its findings in report order (most severe
/// first, then by path, line and code) with no finding repeated next to
/// itself, and holds exactly the findings recorded.
pub proof fn law_finished_report_is_ordered(recorded: Seq<FindingView>)
    ensures
        sorted_by(finished_findings(recorded), report_order()),
        forall|i: int|
            0 <= i < finished_findings(recorded).len() - 1 ==> #[trigger] finished_findings(
                recorded,
            )[i] != finished_findings(recorded)[i + 1],
        forall|f: FindingView| #[trigger]
            finished_findings(recorded).contains(f) <==> recorded.contains(f),
{
    let p = report_order();
    lemma_finding_order_strict_weak();
    lemma_stable_sorted_sorted(recorded, p);
    lemma_dedup_sorted(stable_sorted(recorded, p), p);
    assert forall|f: FindingView| #[trigger]
        finished_findings(recorded).contains(f) <==> recorded.contains(f) by {
        crate::sort::lemma_stable_sorted_contains(recorded, p, f);
        lemma_dedup_within(stable_sorted(recorded, p), f);
        if stable_sorted(recorded, p).contains(f) {
            lemma_dedup_keeps(stable_sorted(recorded, p), f);
        }
    }
}

proof fn lemma_dedup_keeps<V>(s: Seq<V>, y: V)
    requires
        s.contains(y),
    ensures
        dedup_spec(s).contains(y),
    decreases s.len(),
{
    if s.len() == 1 {
        assert(s[0] == y);
    } else if s.len() > 1 {
        let d = s.drop_last();
        let r = dedup_spec(d);
        if s.last() == y {
            if s.last() == s[s.len() - 2] {
                assert(d[d.len() - 1] == y);
                lemma_dedup_keeps(d, y);
            } else {
                assert(r.push(s.last())[r.len() as int] == y);
            }
        } else {
            let k = choose|k: int| 0 <= k < s.len() && s[k] == y;
            assert(k < s.len() - 1);
            assert(d[k] == y);
            lemma_dedup_keeps(d, y);
            if s.last() != s[s.len() - 2] {
                let j = choose|j: int| 0 <= j < r.len() && r[j] == y;
                assert(r.push(s.last())[j] == y);
            }
        }
    }
}


// ---------------------------------------------------------------------------
// Laws of the static rules
// ---------------------------------------------------------------------------

/// The first static rule reports, as critical, a download piped into a
/// shell: case-insensitively, `curl` or `wget`, then up to 500 characters
/// that are neither a pipe nor a line break, a pipe, optional white space,
/// and `sh` or `bash`.
pub proof fn law_download_to_shell_rule()
    ensures
        rule_table()[0].code == "RS-DOWNLOAD-TO-SHELL"@,
        rule_table()[0].severity == Severity::Critical,
        rule_table()[0].pattern == "(?i)"@ + "(curl|wget)"@ + "[^|\\n]{0,500}"@ + "\\|"@ + "\\s*"@
            + "(ba)?sh"@,
{
    reveal_strlit("RS-DOWNLOAD-TO-SHELL");
    reveal_strlit("(?i)(curl|wget)[^|\\n]{0,500}\\|\\s*(ba)?sh");
    reveal_strlit("(?i)");
    reveal_strlit("(curl|wget)");
    reveal_strlit("[^|\\n]{0,500}");
    reveal_strlit("\\|");
    reveal_strlit("\\s*");
    reveal_strlit("(ba)?sh");
    assert(rule_table()[0].pattern =~= "(?i)"@ + "(curl|wget)"@ + "[^|\\n]{0,500}"@ + "\\|"@
        + "\\s*"@ + "(ba)?sh"@);
}

proof fn lemma_line_findings_hold(rules: Seq<RuleView>, path: Seq<char>, l: Seq<char>, no: nat, r: int)
    requires
        0 <= r < rules.len(),
        regex_is_match(rules[r].pattern, l),
    ensures
        line_findings(rules, path, l, no).contains(rule_finding(rules[r], path, l, no)),
    decreases rules.len(),
{
    let before = line_findings(rules.drop_last(), path, l, no);
    if r < rules.len() - 1 {
        assert(rules.drop_last()[r] == rules[r]);
        lemma_line_findings_hold(rules.drop_last(), path, l, no, r);
        let j = choose|j: int| 0 <= j < before.len() && before[j] == rule_finding(rules[r], path, l, no);
        if regex_is_match(rules.last().pattern, l) {
            assert(before.push(rule_finding(rules.last(), path, l, no))[j] == before[j]);
        }
    } else {
        assert(rules.last() == rules[r]);
        assert(before.push(rule_finding(rules[r], path, l, no))[before.len() as int] == rule_finding(
            rules[r],
            path,
            l,
            no,
        ));
    }
}

proof fn lemma_text_findings_hold(rules: Seq<RuleView>, path: Seq<char>, ls: Seq<Seq<char>>, n: int, r: int)
    requires
        0 <= n < ls.len(),
        0 <= r < rules.len(),
        regex_is_match(rules[r].pattern, ls[n]),
    ensures
        text_findings(rules, path, ls).contains(rule_finding(rules[r], path, ls[n], (n + 1) as nat)),
    decreases ls.len(),
{
    let f = rule_finding(rules[r], path, ls[n], (n + 1) as nat);
    let a = text_findings(rules, path, ls.drop_last());
    let b = line_findings(rules, path, ls.last(), ls.len());
    assert(text_findings(rules, path, ls) == a + b);
    if n < ls.len() - 1 {
        assert(ls.drop_last()[n] == ls[n]);
        lemma_text_findings_hold(rules, path, ls.drop_last(), n, r);
        let j = choose|j: int| 0 <= j < a.len() && a[j] == f;
        assert((a + b)[j] == a[j]);
    } else {
        assert(ls.last() == ls[n]);
        lemma_line_findings_hold(rules, path, ls.last(), ls.len(), r);
        let j = choose|j: int| 0 <= j < b.len() && b[j] == f;
        assert((a + b)[a.len() + j] == b[j]);
    }
}

/// Each rule that matches a line of a scanned UTF-8 file reports that line:
/// a finding with the rule's code, severity and message, the file's path,
/// the line's number (counted from one) and its safe excerpt.
pub proof fn law_matching_line_is_reported(
    rules: Seq<RuleView>,
    path: Seq<char>,
    bytes: Seq<u8>,
    n: int,
    r: int,
)
    requires
        valid_utf8(bytes),
        0 <= n < lines(decode_utf8(bytes)).len(),
        0 <= r < rules.len(),
        regex_is_match(rules[r].pattern, lines(decode_utf8(bytes))[n]),
    ensures
        file_findings(rules, path, bytes).contains(
            FindingView {
                code: rules[r].code,
                severity: rules[r].severity,
                path,
                line: Some((n + 1) as usize),
                message: rules[r].message,
                excerpt: safe_excerpt_of(lines(decode_utf8(bytes))[n]),
            },
        ),
{
    lemma_text_findings_hold(rules, path, lines(decode_utf8(bytes)), n, r);
}

/// A line of a scanned UTF-8 file in which the download-to-shell pattern
/// (`curl` or `wget`, then without a pipe a pipe into `sh` or `bash`) matches
/// yields a critical `RS-DOWNLOAD-TO-SHELL` finding on that line.
pub proof fn law_download_to_shell_is_critical(path: Seq<char>, bytes: Seq<u8>, n: int)
    requires
        valid_utf8(bytes),
        0 <= n < lines(decode_utf8(bytes)).len(),
        regex_is_match(
            "(?i)"@ + "(curl|wget)"@ + "[^|\\n]{0,500}"@ + "\\|"@ + "\\s*"@ + "(ba)?sh"@,
            lines(decode_utf8(bytes))[n],
        ),
    ensures
        exists|f: FindingView|
            #[trigger] file_findings(rule_table(), path, bytes).contains(f) && f.code
                == "RS-DOWNLOAD-TO-SHELL"@ && f.severity == Severity::Critical && f.path == path
                && f.line == Some((n + 1) as usize),
{
    law_download_to_shell_rule();
    law_matching_line_is_reported(rule_table(), path, bytes, n, 0);
    let f = FindingView {
        code: rule_table()[0].code,
        severity: rule_table()[0].severity,
        path,
        line: Some((n + 1) as usize),
        message: rule_table()[0].message,
        excerpt: safe_excerpt_of(lines(decode_utf8(bytes))[n]),
    };
    assert(file_findings(rule_table(), path, bytes).contains(f));
}

} // verus!
