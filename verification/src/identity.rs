//! Typed component identities: parsing, normalization, and stable IDs.

use vstd::prelude::*;

use crate::error::CoreError;
use crate::text::{
    lemma_split_nonempty, lemma_trim_ends, lemma_replace_chars, lemma_replace_absent,
    lemma_split_pieces, lemma_drop_empty_pieces, lemma_drop_empty_keeps, lemma_join_chars,
    lemma_join_split, lemma_utf8_len_concat, is_lower, is_digit, lemma_join_len,
    lemma_drop_empty_len, lemma_replace_len,
    append_chars, chars_eq, ends_with, has_prefix_str, has_suffix_str, rfind_char, slice_chars,
    starts_with, char_is_alnum, char_is_control, char_is_white, chars_of, contains_str,
    contains_sub, drop_empty, drop_empty_exec, find_char, has_char, is_alnum, is_control,
    is_white, join, join_chars, lower, lower_chars, replace_char, replace_char_exec, split,
    split_chars, string_of, trim, trim_char, trim_char_exec, trim_chars, utf8_len,
    utf8_len_exceeds, views, occurs_at, lower_char, trim_by, trim_pred, TrimKind,
};

verus! {

/// Maximum accepted external component-reference length, in bytes.
pub const MAX_REFERENCE_BYTES: usize = 2048;

// ---------------------------------------------------------------------------
// Trusted item: URL parsing
// ---------------------------------------------------------------------------

/// The parts of a parsed URL that identity checks read.
pub struct UrlParts {
    pub scheme: String,
    pub host: Option<String>,
    pub username: String,
    pub password: Option<String>,
    pub query: Option<String>,
    pub fragment: Option<String>,
    /// `None` for URLs that cannot be a base.
    pub segments: Option<Vec<String>>,
}

pub ghost struct UrlView {
    pub scheme: Seq<char>,
    pub host: Option<Seq<char>>,
    pub username: Seq<char>,
    pub password: Option<Seq<char>>,
    pub query: Option<Seq<char>>,
    pub fragment: Option<Seq<char>>,
    pub segments: Option<Seq<Seq<char>>>,
}

pub open spec fn opt_view(o: Option<String>) -> Option<Seq<char>> {
    match o {
        Some(s) => Some(s@),
        None => None,
    }
}

pub open spec fn strings_view(v: Seq<String>) -> Seq<Seq<char>> {
    v.map_values(|s: String| s@)
}

impl View for UrlParts {
    type V = UrlView;

    open spec fn view(&self) -> UrlView {
        UrlView {
            scheme: self.scheme@,
            host: opt_view(self.host),
            username: self.username@,
            password: opt_view(self.password),
            query: opt_view(self.query),
            fragment: opt_view(self.fragment),
            segments: match self.segments {
                Some(v) => Some(strings_view(v@)),
                None => None,
            },
        }
    }
}

/// What `url::Url::parse` makes of `input`, read through its accessors
/// (`None` where it refuses the input).
pub uninterp spec fn parsed_url(input: Seq<char>) -> Option<UrlView>;

/// `url::Url::parse` followed by `scheme`, `host_str`, `username`, `password`,
/// `query`, `fragment` and `path_segments`: the contract claims only that the
/// result is a function of the input text, named `parsed_url`.
#[verifier::external_body]
pub(crate) fn parse_url(input: &str) -> (r: Option<UrlParts>)
    ensures
        match r {
            Some(p) => parsed_url(input@) == Some(p@),
            None => parsed_url(input@) is None,
        },
{
    let url = url::Url::parse(input).ok()?;
    Some(UrlParts {
        scheme: url.scheme().to_owned(),
        host: url.host_str().map(str::to_owned),
        username: url.username().to_owned(),
        password: url.password().map(str::to_owned),
        query: url.query().map(str::to_owned),
        fragment: url.fragment().map(str::to_owned),
        segments: url.path_segments().map(|s| s.map(str::to_owned).collect()),
    })
}

// ---------------------------------------------------------------------------
// Ecosystems and components
// ---------------------------------------------------------------------------

/// Supported acquisition ecosystems.
#[derive(Clone, Copy, Debug, PartialEq, Eq, Structural, Hash, PartialOrd, Ord)]
pub enum Ecosystem {
    /// GitHub repository identity.
    Github,
    /// npm-compatible registry.
    Npm,
    /// Python Package Index.
    Pypi,
    /// crates.io.
    Cargo,
    /// Go module proxy/VCS identity.
    Go,
    /// Agent skill identifier.
    Skill,
    /// MCP server identifier.
    Mcp,
    /// Coding-agent plugin identifier.
    Plugin,
    /// Direct URL download.
    Url,
}

pub open spec fn prefix_of(e: Ecosystem) -> Seq<char> {
    match e {
        Ecosystem::Github => "github"@,
        Ecosystem::Npm => "npm"@,
        Ecosystem::Pypi => "pypi"@,
        Ecosystem::Cargo => "cargo"@,
        Ecosystem::Go => "go"@,
        Ecosystem::Skill => "skill"@,
        Ecosystem::Mcp => "mcp"@,
        Ecosystem::Plugin => "plugin"@,
        Ecosystem::Url => "url"@,
    }
}

impl Ecosystem {
    /// Stable prefix used in component IDs.
    pub fn prefix(self) -> (s: &'static str)
        ensures
            s@ == prefix_of(self),
    {
        match self {
            Ecosystem::Github => "github",
            Ecosystem::Npm => "npm",
            Ecosystem::Pypi => "pypi",
            Ecosystem::Cargo => "cargo",
            Ecosystem::Go => "go",
            Ecosystem::Skill => "skill",
            Ecosystem::Mcp => "mcp",
            Ecosystem::Plugin => "plugin",
            Ecosystem::Url => "url",
        }
    }
}

/// Normalized component requested by an agent or user.
#[derive(Clone, Debug, PartialEq, Eq, Hash, PartialOrd, Ord)]
pub struct ComponentRef {
    /// Registry or namespace.
    pub ecosystem: Ecosystem,
    /// Canonical normalized name within the ecosystem.
    pub name: String,
    /// Optional exact requested version, tag, or commit.
    pub version: Option<String>,
}

/// The mathematical value of a component reference.
pub ghost struct ComponentId {
    pub ecosystem: Ecosystem,
    pub name: Seq<char>,
    pub version: Option<Seq<char>>,
}

impl View for ComponentRef {
    type V = ComponentId;

    open spec fn view(&self) -> ComponentId {
        ComponentId { ecosystem: self.ecosystem, name: self.name@, version: opt_view(self.version) }
    }
}

/// The stable ID text `<prefix>:<name>[@<version>]`.
pub open spec fn id_of(c: ComponentId) -> Seq<char> {
    match c.version {
        Some(v) => prefix_of(c.ecosystem) + ":"@ + c.name + "@"@ + v,
        None => prefix_of(c.ecosystem) + ":"@ + c.name,
    }
}

// ---------------------------------------------------------------------------
// Character classes used by the naming rules
// ---------------------------------------------------------------------------

pub enum CharClass {
    /// ASCII alphanumerics and `. _ -`.
    Slug,
    /// ASCII letters, digits, and `@ / . _ -`.
    Npm,
    /// ASCII alphanumerics and `_ -`.
    Cargo,
    /// ASCII alphanumerics and `. _ - /`.
    Go,
}

pub open spec fn in_class(k: CharClass, c: char) -> bool {
    match k {
        CharClass::Slug => is_alnum(c) || c == '.' || c == '_' || c == '-',
        CharClass::Npm => is_alnum(c) || c == '@' || c == '/' || c == '.' || c == '_' || c == '-',
        CharClass::Cargo => is_alnum(c) || c == '_' || c == '-',
        CharClass::Go => is_alnum(c) || c == '.' || c == '_' || c == '-' || c == '/',
    }
}

pub open spec fn all_in_class(k: CharClass, s: Seq<char>) -> bool {
    forall|i: int| 0 <= i < s.len() ==> in_class(k, #[trigger] s[i])
}

pub fn all_in_class_exec(k: CharClass, s: &[char]) -> (r: bool)
    ensures
        r == all_in_class(k, s@),
{
    let mut i: usize = 0;
    while i < s.len()
        invariant
            i <= s.len(),
            forall|j: int| 0 <= j < i ==> in_class(k, #[trigger] s@[j]),
        decreases s.len() - i,
    {
        let c = s[i];
        let ok = match k {
            CharClass::Slug => char_is_alnum(c) || c == '.' || c == '_' || c == '-',
            CharClass::Npm => char_is_alnum(c) || c == '@' || c == '/' || c == '.' || c == '_'
                || c == '-',
            CharClass::Cargo => char_is_alnum(c) || c == '_' || c == '-',
            CharClass::Go => char_is_alnum(c) || c == '.' || c == '_' || c == '-' || c == '/',
        };
        if !ok {
            return false;
        }
        i += 1;
    }
    true
}

pub open spec fn any_control(s: Seq<char>) -> bool {
    exists|i: int| 0 <= i < s.len() && is_control(#[trigger] s[i])
}

pub open spec fn any_white(s: Seq<char>) -> bool {
    exists|i: int| 0 <= i < s.len() && is_white(#[trigger] s[i])
}

pub fn any_control_exec(s: &[char]) -> (r: bool)
    ensures
        r == any_control(s@),
{
    let mut i: usize = 0;
    while i < s.len()
        invariant
            i <= s.len(),
            forall|j: int| 0 <= j < i ==> !is_control(#[trigger] s@[j]),
        decreases s.len() - i,
    {
        if char_is_control(s[i]) {
            return true;
        }
        i += 1;
    }
    false
}

pub fn any_white_exec(s: &[char]) -> (r: bool)
    ensures
        r == any_white(s@),
{
    let mut i: usize = 0;
    while i < s.len()
        invariant
            i <= s.len(),
            forall|j: int| 0 <= j < i ==> !is_white(#[trigger] s@[j]),
        decreases s.len() - i,
    {
        if char_is_white(s[i]) {
            return true;
        }
        i += 1;
    }
    false
}

// ---------------------------------------------------------------------------
// Naming rules
// ---------------------------------------------------------------------------

/// A non-empty owner or project segment of at most 100 safe characters.
pub open spec fn safe_slug(v: Seq<char>) -> bool {
    v.len() > 0 && v.len() <= 100 && all_in_class(CharClass::Slug, v)
}

pub fn safe_slug_exec(v: &[char]) -> (r: bool)
    ensures
        r == safe_slug(v@),
{
    v.len() > 0 && v.len() <= 100 && all_in_class_exec(CharClass::Slug, v)
}

/// A download URL: HTTPS with a host and without user information.
pub open spec fn download_url_ok(input: Seq<char>) -> bool {
    match parsed_url(input) {
        Some(u) => u.scheme == "https"@ && u.host is Some && u.username.len() == 0
            && u.password is None,
        None => false,
    }
}

pub fn validate_download_url(input: &str) -> (r: Result<(), CoreError>)
    ensures
        r is Ok <==> download_url_ok(input@),
        r matches Err(e) ==> e == CoreError::InvalidUrl,
{
    match parse_url(input) {
        None => Err(CoreError::InvalidUrl),
        Some(u) => {
            let https = String::from_str("https");
            proof {
                reveal_strlit("https");
            }
            if u.scheme != https || u.host.is_none() || !u.username.as_str().is_empty()
                || u.password.is_some() {
                Err(CoreError::InvalidUrl)
            } else {
                Ok(())
            }
        },
    }
}

/// PyPI normalization of an already validated name: lowercase, `.` and `_`
/// become `-`, runs of `-` collapse, and leading or trailing `-` vanish.
pub open spec fn pypi_normal(t: Seq<char>) -> Seq<char> {
    let dashed = replace_char(replace_char(lower(t), '.', seq!['-']), '_', seq!['-']);
    join(drop_empty(split(dashed, '-')), seq!['-'])
}

/// The normalized name of `input` in `e`, or the error the naming rules give.
pub open spec fn normalize_spec(e: Ecosystem, input: Seq<char>) -> Result<Seq<char>, CoreError> {
    let t = trim_char(trim(input), '/');
    if t.len() == 0 || utf8_len(t) > 2048 || contains_sub(t, ".."@) {
        Err(CoreError::InvalidName)
    } else {
        match e {
            Ecosystem::Github | Ecosystem::Skill | Ecosystem::Mcp | Ecosystem::Plugin => {
                let segs = split(t, '/');
                if segs.len() != 2 || !safe_slug(segs[0]) || !safe_slug(segs[1]) {
                    Err(CoreError::InvalidName)
                } else {
                    Ok(lower(segs[0]) + "/"@ + lower(segs[1]))
                }
            },
            Ecosystem::Npm => {
                if !all_in_class(CharClass::Npm, t) || any_white(t) {
                    Err(CoreError::InvalidName)
                } else {
                    Ok(lower(t))
                }
            },
            Ecosystem::Pypi => {
                if !all_in_class(CharClass::Slug, t) || pypi_normal(t).len() == 0 {
                    Err(CoreError::InvalidName)
                } else {
                    Ok(pypi_normal(t))
                }
            },
            Ecosystem::Cargo => {
                if !all_in_class(CharClass::Cargo, t) {
                    Err(CoreError::InvalidName)
                } else {
                    Ok(lower(t))
                }
            },
            Ecosystem::Go => {
                if split(t, '/').len() < 2 || !all_in_class(CharClass::Go, t) {
                    Err(CoreError::InvalidName)
                } else {
                    Ok(lower(t))
                }
            },
            Ecosystem::Url => {
                if !download_url_ok(t) {
                    Err(CoreError::InvalidUrl)
                } else {
                    Ok(t)
                }
            },
        }
    }
}

/// A well-formed requested version: non-empty, at most 256 bytes, without
/// control characters or white space.
pub open spec fn version_ok(v: Seq<char>) -> bool {
    v.len() > 0 && utf8_len(v) <= 256 && !any_control(v) && !any_white(v)
}

/// An accepted name never normalizes to nothing.
pub proof fn lemma_normal_nonempty(e: Ecosystem, input: Seq<char>)
    ensures
        normalize_spec(e, input) is Ok ==> normalize_spec(e, input)->Ok_0.len() > 0,
{
    reveal_strlit("/");
}

/// What `ComponentRef::new` returns for these arguments.
pub open spec fn new_spec(e: Ecosystem, name: Seq<char>, version: Option<Seq<char>>) -> Result<
    ComponentId,
    CoreError,
> {
    match normalize_spec(e, name) {
        Err(err) => Err(err),
        Ok(n) => {
            if version matches Some(v) && !version_ok(v) {
                Err(CoreError::InvalidVersion)
            } else {
                Ok(ComponentId { ecosystem: e, name: n, version })
            }
        },
    }
}


// ---------------------------------------------------------------------------
// Normalization and construction
// ---------------------------------------------------------------------------

pub fn normalize_name(ecosystem: Ecosystem, input: &[char]) -> (r: Result<Vec<char>, CoreError>)
    ensures
        match normalize_spec(ecosystem, input@) {
            Ok(n) => r matches Ok(v) && v@ == n,
            Err(e) => r == Err::<Vec<char>, CoreError>(e),
        },
{
    let trimmed = trim_chars(input);
    let t = trim_char_exec(trimmed.as_slice(), '/');
    proof {
        reveal_strlit("..");
    }
    if t.len() == 0 || utf8_len_exceeds(t.as_slice(), MAX_REFERENCE_BYTES) || contains_str(
        t.as_slice(),
        "..",
    ) {
        return Err(CoreError::InvalidName);
    }
    match ecosystem {
        Ecosystem::Github | Ecosystem::Skill | Ecosystem::Mcp | Ecosystem::Plugin => {
            let segs = split_chars(t.as_slice(), '/');
            if segs.len() != 2 || !safe_slug_exec(segs[0].as_slice()) || !safe_slug_exec(
                segs[1].as_slice(),
            ) {
                proof {
                    if segs.len() == 2 {
                        assert(views(segs@)[0] == segs@[0]@);
                        assert(views(segs@)[1] == segs@[1]@);
                    }
                }
                return Err(CoreError::InvalidName);
            }
            proof {
                assert(views(segs@)[0] == segs@[0]@);
                assert(views(segs@)[1] == segs@[1]@);
                reveal_strlit("/");
            }
            let mut out = lower_chars(segs[0].as_slice());
            out.push('/');
            let second = lower_chars(segs[1].as_slice());
            append_chars(&mut out, second.as_slice());
            proof {
                assert(out@ =~= lower(segs@[0]@) + "/"@ + lower(segs@[1]@));
            }
            Ok(out)
        },
        Ecosystem::Npm => {
            if !all_in_class_exec(CharClass::Npm, t.as_slice()) || any_white_exec(t.as_slice()) {
                return Err(CoreError::InvalidName);
            }
            Ok(lower_chars(t.as_slice()))
        },
        Ecosystem::Pypi => {
            if !all_in_class_exec(CharClass::Slug, t.as_slice()) {
                return Err(CoreError::InvalidName);
            }
            let dash: Vec<char> = vec!['-'];
            proof {
                assert(dash@ =~= seq!['-']);
            }
            let low = lower_chars(t.as_slice());
            let d1 = replace_char_exec(low.as_slice(), '.', dash.as_slice());
            let d2 = replace_char_exec(d1.as_slice(), '_', dash.as_slice());
            let parts = split_chars(d2.as_slice(), '-');
            let kept = drop_empty_exec(parts);
            let n = join_chars(&kept, dash.as_slice());
            if n.len() == 0 {
                return Err(CoreError::InvalidName);
            }
            Ok(n)
        },
        Ecosystem::Cargo => {
            if !all_in_class_exec(CharClass::Cargo, t.as_slice()) {
                return Err(CoreError::InvalidName);
            }
            Ok(lower_chars(t.as_slice()))
        },
        Ecosystem::Go => {
            let pieces = split_chars(t.as_slice(), '/');
            if pieces.len() < 2 || !all_in_class_exec(CharClass::Go, t.as_slice()) {
                proof {
                    assert(views(pieces@).len() == pieces@.len());
                }
                return Err(CoreError::InvalidName);
            }
            proof {
                assert(views(pieces@).len() == pieces@.len());
            }
            Ok(lower_chars(t.as_slice()))
        },
        Ecosystem::Url => {
            let text = string_of(t.as_slice());
            match validate_download_url(text.as_str()) {
                Ok(()) => Ok(t),
                Err(e) => Err(e),
            }
        },
    }
}

pub fn version_ok_exec(v: &[char]) -> (r: bool)
    ensures
        r == version_ok(v@),
{
    v.len() > 0 && !utf8_len_exceeds(v, 256) && !any_control_exec(v) && !any_white_exec(v)
}

impl ComponentRef {
    /// Constructs and validates a typed identity.
    pub fn new(ecosystem: Ecosystem, name: &str, version: Option<String>) -> (r: Result<
        Self,
        CoreError,
    >)
        ensures
            match new_spec(ecosystem, name@, opt_view(version)) {
                Ok(c) => r matches Ok(v) && v@ == c,
                Err(e) => r matches Err(x) && x == e,
            },
            r matches Ok(v) ==> v.name@.len() > 0,
    {
        proof {
            lemma_normal_nonempty(ecosystem, name@);
        }
        let chars = chars_of(name);
        let normalized = match normalize_name(ecosystem, chars.as_slice()) {
            Ok(n) => n,
            Err(e) => return Err(e),
        };
        match &version {
            Some(v) => {
                let vc = chars_of(v.as_str());
                if !version_ok_exec(vc.as_slice()) {
                    return Err(CoreError::InvalidVersion);
                }
            },
            None => {},
        }
        Ok(ComponentRef { ecosystem, name: string_of(normalized.as_slice()), version })
    }

    /// A copy of this reference.
    pub fn clone_ref(&self) -> (r: ComponentRef)
        ensures
            r@ == self@,
    {
        let version = match &self.version {
            Some(v) => Some(v.clone()),
            None => None,
        };
        ComponentRef { ecosystem: self.ecosystem, name: self.name.clone(), version }
    }

    /// Stable lockfile component ID.
    pub fn id(&self) -> (s: String)
        ensures
            s@ == id_of(self@),
    {
        let mut out = chars_of(self.ecosystem.prefix());
        out.push(':');
        let name = chars_of(self.name.as_str());
        append_chars(&mut out, name.as_slice());
        match &self.version {
            Some(v) => {
                out.push('@');
                let vc = chars_of(v.as_str());
                append_chars(&mut out, vc.as_slice());
                proof {
                    reveal_strlit(":");
                    reveal_strlit("@");
                    assert(out@ =~= id_of(self@));
                }
            },
            None => {
                proof {
                    reveal_strlit(":");
                    assert(out@ =~= id_of(self@));
                }
            },
        }
        string_of(out.as_slice())
    }

    /// Returns owner and project for owner/name namespaces.
    pub fn owner_project(&self) -> (r: Option<(&str, &str)>)
        ensures
            match owner_project_of(self.name@) {
                Some((o, p)) => r matches Some((a, b)) && a@ == o && b@ == p,
                None => r is None,
            },
    {
        let chars = chars_of(self.name.as_str());
        match find_char(chars.as_slice(), '/') {
            None => None,
            Some(i) => {
                let n = chars.len();
                assert(i < n);
                proof {
                    lemma_first_index(chars@, '/', i as int);
                }
                let j = i + 1;
                let s = self.name.as_str();
                let owner = s.substring_char(0, i);
                let project = s.substring_char(j, n);
                Some((owner, project))
            },
        }
    }
}

/// The index of the first `c` in `s` (meaningful when `has_char(s, c)`).
pub open spec fn first_index(s: Seq<char>, c: char) -> int {
    choose|i: int| 0 <= i < s.len() && s[i] == c && forall|j: int| 0 <= j < i ==> s[j] != c
}

/// The index of the last `c` in `s` (meaningful when `has_char(s, c)`).
pub open spec fn last_index(s: Seq<char>, c: char) -> int {
    choose|i: int| 0 <= i < s.len() && s[i] == c && forall|j: int| i < j < s.len() ==> s[j] != c
}

/// `split_once('/')` of a name: the parts before and after its first `/`.
pub open spec fn owner_project_of(name: Seq<char>) -> Option<(Seq<char>, Seq<char>)> {
    if has_char(name, '/') {
        let i = first_index(name, '/');
        Some((name.take(i), name.skip(i + 1)))
    } else {
        None
    }
}

pub proof fn lemma_first_index(s: Seq<char>, c: char, i: int)
    requires
        0 <= i < s.len(),
        s[i] == c,
        forall|j: int| 0 <= j < i ==> s[j] != c,
    ensures
        has_char(s, c),
        first_index(s, c) == i,
{
    let k = first_index(s, c);
    if k < i {
        assert(s[k] != c);
    }
    if k > i {
        assert(s[i] != c);
    }
}

proof fn lemma_last_index(s: Seq<char>, c: char, i: int)
    requires
        0 <= i < s.len(),
        s[i] == c,
        forall|j: int| i < j < s.len() ==> s[j] != c,
    ensures
        has_char(s, c),
        last_index(s, c) == i,
{
    let k = last_index(s, c);
    if k < i {
        assert(s[i] != c);
    }
    if k > i {
        assert(s[k] != c);
    }
}


// ---------------------------------------------------------------------------
// Parsing references
// ---------------------------------------------------------------------------

pub open spec fn trim_git_suffix_spec(v: Seq<char>) -> Seq<char> {
    if ends_with(v, ".git"@) {
        v.take(v.len() - 4)
    } else {
        v
    }
}

pub fn trim_git_suffix(v: &[char]) -> (out: Vec<char>)
    ensures
        out@ == trim_git_suffix_spec(v@),
{
    if has_suffix_str(v, ".git") {
        proof {
            reveal_strlit(".git");
        }
        slice_chars(v, 0, v.len() - 4)
    } else {
        slice_chars(v, 0, v.len())
    }
}

/// The name and optional version of a `name@version` reference.
pub open spec fn split_version_spec(e: Ecosystem, v: Seq<char>) -> (Seq<char>, Option<Seq<char>>) {
    if e == Ecosystem::Npm && v.len() > 0 && v[0] == '@' {
        if has_char(v, '@') && last_index(v, '@') > 0 {
            let i = last_index(v, '@');
            (v.take(i), Some(v.skip(i + 1)))
        } else {
            (v, None)
        }
    } else if has_char(v, '@') {
        let i = last_index(v, '@');
        (v.take(i), Some(v.skip(i + 1)))
    } else {
        (v, None)
    }
}

pub fn split_version(e: Ecosystem, v: &[char]) -> (r: (Vec<char>, Option<Vec<char>>))
    ensures
        r.0@ == split_version_spec(e, v@).0,
        match split_version_spec(e, v@).1 {
            Some(x) => r.1 matches Some(y) && y@ == x,
            None => r.1 is None,
        },
{
    let whole = slice_chars(v, 0, v.len());
    match rfind_char(v, '@') {
        None => (whole, None),
        Some(i) => {
            proof {
                lemma_last_index(v@, '@', i as int);
            }
            if e == Ecosystem::Npm && v.len() > 0 && v[0] == '@' && i == 0 {
                (whole, None)
            } else {
                assert(i < v@.len());
                (slice_chars(v, 0, i), Some(slice_chars(v, i + 1, v.len())))
            }
        },
    }
}

pub open spec fn ecosystem_of_prefix(p: Seq<char>) -> Option<Ecosystem> {
    if p == "github"@ || p == "gh"@ {
        Some(Ecosystem::Github)
    } else if p == "npm"@ {
        Some(Ecosystem::Npm)
    } else if p == "pypi"@ || p == "pip"@ || p == "python"@ {
        Some(Ecosystem::Pypi)
    } else if p == "cargo"@ || p == "crate"@ || p == "crates"@ {
        Some(Ecosystem::Cargo)
    } else if p == "go"@ {
        Some(Ecosystem::Go)
    } else if p == "skill"@ {
        Some(Ecosystem::Skill)
    } else if p == "mcp"@ {
        Some(Ecosystem::Mcp)
    } else if p == "plugin"@ {
        Some(Ecosystem::Plugin)
    } else if p == "url"@ {
        Some(Ecosystem::Url)
    } else {
        None
    }
}

fn is_word(s: &[char], w: &str) -> (r: bool)
    ensures
        r == (s@ == w@),
{
    let wc = chars_of(w);
    chars_eq(s, wc.as_slice())
}

pub fn ecosystem_from_prefix(p: &[char]) -> (r: Option<Ecosystem>)
    ensures
        r == ecosystem_of_prefix(p@),
{
    if is_word(p, "github") || is_word(p, "gh") {
        Some(Ecosystem::Github)
    } else if is_word(p, "npm") {
        Some(Ecosystem::Npm)
    } else if is_word(p, "pypi") || is_word(p, "pip") || is_word(p, "python") {
        Some(Ecosystem::Pypi)
    } else if is_word(p, "cargo") || is_word(p, "crate") || is_word(p, "crates") {
        Some(Ecosystem::Cargo)
    } else if is_word(p, "go") {
        Some(Ecosystem::Go)
    } else if is_word(p, "skill") {
        Some(Ecosystem::Skill)
    } else if is_word(p, "mcp") {
        Some(Ecosystem::Mcp)
    } else if is_word(p, "plugin") {
        Some(Ecosystem::Plugin)
    } else if is_word(p, "url") {
        Some(Ecosystem::Url)
    } else {
        None
    }
}

/// What parsing a `https://github.com/<owner>/<project>` reference gives.
pub open spec fn github_url_spec(input: Seq<char>) -> Result<ComponentId, CoreError> {
    match parsed_url(input) {
        None => Err(CoreError::InvalidUrl),
        Some(u) => {
            if u.scheme != "https"@ || u.host != Some("github.com"@) || u.username.len() != 0
                || u.password is Some || u.query is Some || u.fragment is Some {
                Err(CoreError::InvalidUrl)
            } else {
                match u.segments {
                    None => Err(CoreError::InvalidUrl),
                    Some(segs) => {
                        let f = drop_empty(segs);
                        if f.len() != 2 {
                            Err(CoreError::InvalidUrl)
                        } else {
                            new_spec(
                                Ecosystem::Github,
                                f[0] + "/"@ + trim_git_suffix_spec(f[1]),
                                None,
                            )
                        }
                    },
                }
            }
        },
    }
}

/// What parsing the reference text `input` gives.
pub open spec fn parse_spec(input: Seq<char>) -> Result<ComponentId, CoreError> {
    let t = trim(input);
    if t.len() == 0 || utf8_len(t) > 2048 || any_control(t) {
        Err(CoreError::InvalidReference)
    } else if starts_with(t, "https://github.com/"@) || starts_with(t, "http://github.com/"@) {
        github_url_spec(t)
    } else if starts_with(t, "git@github.com:"@) {
        new_spec(Ecosystem::Github, trim_git_suffix_spec(t.skip(15)), None)
    } else if !has_char(t, ':') {
        Err(CoreError::UnsupportedEcosystem)
    } else {
        let i = first_index(t, ':');
        let rest = t.skip(i + 1);
        match ecosystem_of_prefix(lower(t.take(i))) {
            None => Err(CoreError::UnsupportedEcosystem),
            Some(Ecosystem::Url) => {
                if !download_url_ok(rest) {
                    Err(CoreError::InvalidUrl)
                } else {
                    new_spec(Ecosystem::Url, rest, None)
                }
            },
            Some(e) => new_spec(e, split_version_spec(e, rest).0, split_version_spec(e, rest).1),
        }
    }
}

fn strings_to_chars(v: &Vec<String>) -> (out: Vec<Vec<char>>)
    ensures
        views(out@) == strings_view(v@),
{
    let mut out: Vec<Vec<char>> = Vec::new();
    let mut i: usize = 0;
    while i < v.len()
        invariant
            i <= v.len(),
            views(out@) == strings_view(v@).take(i as int),
        decreases v.len() - i,
    {
        let ghost o = views(out@);
        let c = chars_of(v[i].as_str());
        let ghost cv = c@;
        out.push(c);
        proof {
            assert(views(out@) =~= o.push(cv));
            assert(strings_view(v@)[i as int] == v@[i as int]@);
            assert(strings_view(v@).take(i + 1) =~= strings_view(v@).take(i as int).push(
                v@[i as int]@,
            ));
        }
        i += 1;
    }
    proof {
        assert(strings_view(v@).take(v.len() as int) == strings_view(v@));
    }
    out
}

pub fn parse_github_url(input: &str) -> (r: Result<ComponentRef, CoreError>)
    ensures
        match github_url_spec(input@) {
            Ok(c) => r matches Ok(v) && v@ == c,
            Err(e) => r matches Err(x) && x == e,
        },
{
    let u = match parse_url(input) {
        None => return Err(CoreError::InvalidUrl),
        Some(u) => u,
    };
    let https = String::from_str("https");
    let github = String::from_str("github.com");
    proof {
        reveal_strlit("https");
        reveal_strlit("github.com");
    }
    let host_ok = match &u.host {
        Some(h) => *h == github,
        None => false,
    };
    if u.scheme != https || !host_ok || !u.username.as_str().is_empty() || u.password.is_some()
        || u.query.is_some() || u.fragment.is_some() {
        return Err(CoreError::InvalidUrl);
    }
    let segs = match &u.segments {
        None => return Err(CoreError::InvalidUrl),
        Some(s) => strings_to_chars(s),
    };
    let kept = drop_empty_exec(segs);
    if kept.len() != 2 {
        proof {
            assert(views(kept@).len() == kept@.len());
        }
        return Err(CoreError::InvalidUrl);
    }
    proof {
        assert(views(kept@)[0] == kept@[0]@);
        assert(views(kept@)[1] == kept@[1]@);
        reveal_strlit("/");
    }
    let mut name = slice_chars(kept[0].as_slice(), 0, kept[0].len());
    name.push('/');
    let project = trim_git_suffix(kept[1].as_slice());
    append_chars(&mut name, project.as_slice());
    proof {
        assert(name@ =~= kept@[0]@ + "/"@ + trim_git_suffix_spec(kept@[1]@));
    }
    let text = string_of(name.as_slice());
    ComponentRef::new(Ecosystem::Github, text.as_str(), None)
}

/// Parses a typed reference such as `github:owner/project`, `npm:name@1.0`,
/// a GitHub HTTPS or SSH clone address, or `url:https://...`.
pub fn parse_component(input: &str) -> (r: Result<ComponentRef, CoreError>)
    ensures
        match parse_spec(input@) {
            Ok(c) => r matches Ok(v) && v@ == c,
            Err(e) => r matches Err(x) && x == e,
        },
{
    let all = chars_of(input);
    let t = trim_chars(all.as_slice());
    if t.len() == 0 || utf8_len_exceeds(t.as_slice(), MAX_REFERENCE_BYTES) || any_control_exec(
        t.as_slice(),
    ) {
        return Err(CoreError::InvalidReference);
    }
    if has_prefix_str(t.as_slice(), "https://github.com/") || has_prefix_str(
        t.as_slice(),
        "http://github.com/",
    ) {
        let text = string_of(t.as_slice());
        return parse_github_url(text.as_str());
    }
    if has_prefix_str(t.as_slice(), "git@github.com:") {
        proof {
            reveal_strlit("git@github.com:");
        }
        let rest = slice_chars(t.as_slice(), 15, t.len());
        let name = trim_git_suffix(rest.as_slice());
        let text = string_of(name.as_slice());
        return ComponentRef::new(Ecosystem::Github, text.as_str(), None);
    }
    let i = match find_char(t.as_slice(), ':') {
        None => return Err(CoreError::UnsupportedEcosystem),
        Some(i) => i,
    };
    proof {
        lemma_first_index(t@, ':', i as int);
    }
    assert(i < t@.len());
    let head = slice_chars(t.as_slice(), 0, i);
    let prefix = lower_chars(head.as_slice());
    let rest = slice_chars(t.as_slice(), i + 1, t.len());
    match ecosystem_from_prefix(prefix.as_slice()) {
        None => Err(CoreError::UnsupportedEcosystem),
        Some(Ecosystem::Url) => {
            let text = string_of(rest.as_slice());
            match validate_download_url(text.as_str()) {
                Ok(()) => ComponentRef::new(Ecosystem::Url, text.as_str(), None),
                Err(e) => Err(e),
            }
        },
        Some(e) => {
            let (name, version) = split_version(e, rest.as_slice());
            let text = string_of(name.as_slice());
            let v = match version {
                Some(x) => Some(string_of(x.as_slice())),
                None => None,
            };
            ComponentRef::new(e, text.as_str(), v)
        },
    }
}


// ---------------------------------------------------------------------------
// Laws of identities
// ---------------------------------------------------------------------------

pub open spec fn lacks(s: Seq<char>, c: char) -> bool {
    forall|i: int| 0 <= i < s.len() ==> #[trigger] s[i] != c
}

/// `t` is its `c`-separated pieces joined by `c`.
pub proof fn lemma_split_join(t: Seq<char>, c: char)
    ensures
        join(split(t, c), seq![c]) == t,
        split(t, c).len() >= 1,
    decreases t.len(),
{
    if t.len() > 0 {
        let d = t.drop_last();
        lemma_split_join(d, c);
        let p = split(d, c);
        if t.last() == c {
            assert(p.push(Seq::<char>::empty()).drop_last() =~= p);
            assert(join(p.push(Seq::<char>::empty()), seq![c]) =~= join(p, seq![c]) + seq![c]
                + Seq::<char>::empty());
            assert(d.push(c) =~= t);
        } else {
            let q = p.update(p.len() - 1, p.last().push(t.last()));
            if p.len() == 1 {
                assert(q[0] == p[0].push(t.last()));
                assert(join(p, seq![c]) == p[0]);
                assert(d.push(t.last()) =~= t);
            } else {
                assert(q.drop_last() =~= p.drop_last());
                assert(join(q, seq![c]) == join(p.drop_last(), seq![c]) + seq![c] + p.last().push(
                    t.last(),
                ));
                assert(join(p, seq![c]) == join(p.drop_last(), seq![c]) + seq![c] + p.last());
                assert(join(q, seq![c]) =~= join(p, seq![c]).push(t.last()));
                assert(d.push(t.last()) =~= t);
            }
        }
    } else {
        assert(split(t, c) =~= seq![Seq::<char>::empty()]);
        assert(t =~= Seq::<char>::empty());
    }
}

proof fn lemma_split_plain_of(s: Seq<char>, c: char)
    requires
        lacks(s, c),
    ensures
        split(s, c) == seq![s],
    decreases s.len(),
{
    if s.len() > 0 {
        assert(lacks(s.drop_last(), c)) by {
            assert forall|i: int| 0 <= i < s.drop_last().len() implies #[trigger] s.drop_last()[i]
                != c by {
                assert(s.drop_last()[i] == s[i]);
            }
        }
        lemma_split_plain_of(s.drop_last(), c);
        assert(s[s.len() - 1] != c);
        assert(s.drop_last().push(s.last()) =~= s);
    } else {
        assert(s =~= Seq::<char>::empty());
    }
}

/// Two pieces without `c`, joined by `c`, split back into themselves.
pub proof fn lemma_split_two(a: Seq<char>, b: Seq<char>, c: char)
    requires
        lacks(a, c),
        lacks(b, c),
    ensures
        split(a + seq![c] + b, c) == seq![a, b],
    decreases b.len(),
{
    if b.len() == 0 {
        lemma_split_plain_of(a, c);
        assert(a + seq![c] + b =~= a.push(c));
        assert(a.push(c).drop_last() =~= a);
        assert(b =~= Seq::<char>::empty());
        assert(seq![a].push(Seq::<char>::empty()) =~= seq![a, b]);
    } else {
        let b0 = b.drop_last();
        assert(lacks(b0, c)) by {
            assert forall|i: int| 0 <= i < b0.len() implies #[trigger] b0[i] != c by {
                assert(b0[i] == b[i]);
            }
        }
        lemma_split_two(a, b0, c);
        let s = a + seq![c] + b;
        assert(s.drop_last() =~= a + seq![c] + b0);
        assert(s.last() == b[b.len() - 1]);
        assert(b0.push(b.last()) =~= b);
        assert(seq![a, b0].update(1, b0.push(b.last())) =~= seq![a, b]);
    }
}

proof fn lemma_lower_slug(s: Seq<char>)
    requires
        all_in_class(CharClass::Slug, s),
    ensures
        all_in_class(CharClass::Slug, lower(s)),
        lower(lower(s)) == lower(s),
        lower(s).len() == s.len(),
        forall|i: int|
            0 <= i < lower(s).len() ==> {
                let x = #[trigger] lower(s)[i];
                &&& x != '/'
                &&& x != '@'
                &&& x != ':'
                &&& !is_white(x)
                &&& !is_control(x)
                &&& (x as u32) < 0x80
                &&& (x == '.' <==> s[i] == '.')
            },
{
    assert forall|i: int| 0 <= i < lower(s).len() implies in_class(
        CharClass::Slug,
        #[trigger] lower(s)[i],
    ) by {
        assert(lower(s)[i] == lower_char(s[i]));
        assert(in_class(CharClass::Slug, s[i]));
    }
    assert(lower(lower(s)) =~= lower(s)) by {
        assert forall|i: int| 0 <= i < lower(s).len() implies lower(lower(s))[i] == lower(s)[i] by {
            assert(lower(s)[i] == lower_char(s[i]));
            assert(in_class(CharClass::Slug, s[i]));
        }
    }
    assert forall|i: int| 0 <= i < lower(s).len() implies {
        let x = #[trigger] lower(s)[i];
        &&& x != '/'
        &&& x != '@'
        &&& x != ':'
        &&& !is_white(x)
        &&& !is_control(x)
        &&& (x as u32) < 0x80
        &&& (x == '.' <==> s[i] == '.')
    } by {
        assert(lower(s)[i] == lower_char(s[i]));
        assert(in_class(CharClass::Slug, s[i]));
    }
}

proof fn lemma_ascii_len(s: Seq<char>)
    requires
        forall|i: int| 0 <= i < s.len() ==> (#[trigger] s[i] as u32) < 0x80,
    ensures
        utf8_len(s) == s.len(),
    decreases s.len(),
{
    if s.len() > 0 {
        assert forall|i: int| 0 <= i < s.drop_last().len() implies (
        #[trigger] s.drop_last()[i] as u32) < 0x80 by {
            assert(s.drop_last()[i] == s[i]);
        }
        lemma_ascii_len(s.drop_last());
        assert((s[s.len() - 1] as u32) < 0x80);
    }
}

/// The owner/project ecosystems.
pub open spec fn owner_project_ecosystem(e: Ecosystem) -> bool {
    e == Ecosystem::Github || e == Ecosystem::Skill || e == Ecosystem::Mcp || e == Ecosystem::Plugin
}

/// Lowered owner and project slugs joined by `/` normalize to themselves.
proof fn lemma_pair_normal(e: Ecosystem, s0: Seq<char>, s1: Seq<char>, t: Seq<char>)
    requires
        owner_project_ecosystem(e),
        safe_slug(s0),
        safe_slug(s1),
        t == s0 + seq!['/'] + s1,
        !contains_sub(t, ".."@),
    ensures
        normalize_spec(e, lower(s0) + "/"@ + lower(s1)) == Ok::<Seq<char>, CoreError>(
            lower(s0) + "/"@ + lower(s1),
        ),
{
    reveal_strlit("..");
    reveal_strlit("/");
    lemma_lower_slug(s0);
    lemma_lower_slug(s1);
    let l0 = lower(s0);
    let l1 = lower(s1);
    let n = l0 + "/"@ + l1;
    assert(n =~= l0 + seq!['/'] + l1);
    assert(lacks(l0, '/') && lacks(l1, '/'));
    assert(n[0] == l0[0]);
    assert(n.last() == l1[l1.len() - 1]);
    assert(trim(n) == n) by {
        assert(!(trim_pred(TrimKind::White))(n[0]));
        assert(!(trim_pred(TrimKind::White))(n.last()));
    }
    assert(trim_char(n, '/') == n) by {
        assert(!(trim_pred(TrimKind::Char('/')))(n[0]));
        assert(!(trim_pred(TrimKind::Char('/')))(n.last()));
    }
    assert forall|i: int| 0 <= i < n.len() implies (#[trigger] n[i] as u32) < 0x80 by {
        if i < l0.len() {
            assert(n[i] == l0[i]);
        } else if i > l0.len() {
            assert(n[i] == l1[i - l0.len() - 1]);
        }
    }
    lemma_ascii_len(n);
    assert(!contains_sub(n, ".."@)) by {
        if contains_sub(n, ".."@) {
            let i = choose|i: int| occurs_at(n, ".."@, i);
            assert(n.subrange(i, i + 2)[0] == '.' && n.subrange(i, i + 2)[1] == '.');
            assert(n[i] == '.' && n[i + 1] == '.');
            assert(n[l0.len() as int] == '/');
            if i + 1 < l0.len() {
                assert(n[i] == l0[i] && n[i + 1] == l0[i + 1]);
                assert(t[i] == s0[i] && t[i + 1] == s0[i + 1]);
                assert(t.subrange(i, i + 2) =~= ".."@);
                assert(occurs_at(t, ".."@, i));
            } else {
                let j = i - l0.len() - 1;
                assert(n[i] == l1[j] && n[i + 1] == l1[j + 1]);
                assert(t[i] == s1[j] && t[i + 1] == s1[j + 1]);
                assert(t.subrange(i, i + 2) =~= ".."@);
                assert(occurs_at(t, ".."@, i));
            }
        }
    }
    lemma_split_two(l0, l1, '/');
}

spec fn t_empty_or_long(t: Seq<char>) -> bool {
    t.len() == 0 || utf8_len(t) > 2048 || any_control(t)
}

/// An accepted owner/project name normalizes to lowered slugs joined by
/// `/`, which normalize to themselves.
proof fn lemma_owner_project_normal(e: Ecosystem, name: Seq<char>)
    requires
        owner_project_ecosystem(e),
        normalize_spec(e, name) is Ok,
    ensures
        ({
            let n = normalize_spec(e, name)->Ok_0;
            &&& normalize_spec(e, n) == Ok::<Seq<char>, CoreError>(n)
            &&& 0 < n.len() <= 201
            &&& forall|i: int|
                0 <= i < n.len() ==> {
                    let x = #[trigger] n[i];
                    &&& x != '@'
                    &&& !is_white(x)
                    &&& !is_control(x)
                    &&& (x as u32) < 0x80
                }
        }),
{
    reveal_strlit("/");
    let t = trim_char(trim(name), '/');
    let segs = split(t, '/');
    let s0 = segs[0];
    let s1 = segs[1];
    lemma_split_join(t, '/');
    assert(t =~= s0 + seq!['/'] + s1) by {
        assert(join(segs, seq!['/']) == join(segs.drop_last(), seq!['/']) + seq!['/'] + segs.last());
        assert(segs.drop_last() =~= seq![s0]);
    }
    lemma_pair_normal(e, s0, s1, t);
    lemma_lower_slug(s0);
    lemma_lower_slug(s1);
    let l0 = lower(s0);
    let l1 = lower(s1);
    let n = l0 + "/"@ + l1;
    assert(normalize_spec(e, name) == Ok::<Seq<char>, CoreError>(n));
    assert forall|i: int| 0 <= i < n.len() implies {
        let x = #[trigger] n[i];
        &&& x != '@'
        &&& !is_white(x)
        &&& !is_control(x)
        &&& (x as u32) < 0x80
    } by {
        if i < l0.len() {
            assert(n[i] == l0[i]);
        } else if i > l0.len() {
            assert(n[i] == l1[i - l0.len() - 1]);
        } else {
            assert(n[i] == '/');
        }
    }
}

/// The ID of an owner/project component that `new` builds, with or without
/// a version, parses back to that very component whenever the version holds
/// no `@`; lock entries built from it therefore have canonical IDs.
#[verifier::rlimit(40)]
pub proof fn law_owner_project_id_round_trip(e: Ecosystem, name: Seq<char>, version: Option<Seq<char>>)
    requires
        owner_project_ecosystem(e),
        new_spec(e, name, version) is Ok,
        version matches Some(v) ==> lacks(v, '@'),
    ensures
        parse_spec(id_of(new_spec(e, name, version)->Ok_0)) == new_spec(e, name, version),
{
    reveal_strlit(":");
    reveal_strlit("@");
    lemma_owner_project_normal(e, name);
    let c = new_spec(e, name, version)->Ok_0;
    let n = c.name;
    let rest = id_rest(n, version);
    let head = prefix_of(e) + ":"@;
    assert(id_of(c) =~= head + rest);
    reveal_strlit("github");
    reveal_strlit("skill");
    reveal_strlit("mcp");
    reveal_strlit("plugin");
    assert forall|i: int| 0 <= i < head.len() implies (#[trigger] head[i] as u32) < 0x80 by {
        if i < prefix_of(e).len() {
            assert(head[i] == prefix_of(e)[i]);
        }
    }
    lemma_ascii_len(head);
    lemma_ascii_len(n);
    lemma_utf8_len_concat(head, rest);
    match version {
        Some(v) => {
            assert(rest =~= n + ("@"@ + v));
            lemma_utf8_len_concat(n, "@"@ + v);
            lemma_utf8_len_concat("@"@, v);
            lemma_ascii_len("@"@);
        },
        None => {},
    }
    assert forall|i: int| 0 <= i < rest.len() implies !is_control(#[trigger] rest[i]) by {
        if i < n.len() {
            assert(rest[i] == n[i]);
        } else if i > n.len() {
            let v = version->Some_0;
            assert(rest[i] == v[i - n.len() - 1]);
            assert(!any_control(v));
        }
    }
    match version {
        Some(v) => {
            assert(rest.last() == v[v.len() - 1]);
            assert(!any_white(v));
        },
        None => {
            assert(rest.last() == n[n.len() - 1]);
        },
    }
    assert(id_of(c) == prefix_of(e) + ":"@ + rest);
    lemma_prefixed_id_parses(e, rest);
    assert forall|i: int| 0 <= i < n.skip(1).len() implies #[trigger] n.skip(1)[i] != '@' by {
        assert(n.skip(1)[i] == n[i + 1]);
    }
    lemma_rest_splits(e, n, version);
    assert(new_spec(e, n, version) == new_spec(e, name, version));
}

/// The package ecosystems whose names are only lowercased: npm, crates.io
/// and Go.
pub open spec fn lowered_ecosystem(e: Ecosystem) -> bool {
    e == Ecosystem::Npm || e == Ecosystem::Cargo || e == Ecosystem::Go
}

/// The characters that names of a lowered ecosystem may use.
pub open spec fn class_of(e: Ecosystem) -> CharClass {
    match e {
        Ecosystem::Npm => CharClass::Npm,
        Ecosystem::Cargo => CharClass::Cargo,
        _ => CharClass::Go,
    }
}

/// Lowercasing keeps a name in its class, is idempotent, and changes no
/// separator.
proof fn lemma_lower_class(k: CharClass, s: Seq<char>)
    requires
        all_in_class(k, s),
    ensures
        all_in_class(k, lower(s)),
        lower(lower(s)) == lower(s),
        lower(s).len() == s.len(),
        forall|i: int| 0 <= i < s.len() ==> (#[trigger] s[i] as u32) < 0x80,
        forall|i: int|
            0 <= i < lower(s).len() ==> {
                let x = #[trigger] lower(s)[i];
                &&& x != ':'
                &&& !is_white(x)
                &&& !is_control(x)
                &&& (x as u32) < 0x80
                &&& (x == '.' <==> s[i] == '.')
                &&& (x == '/' <==> s[i] == '/')
                &&& (x == '@' <==> s[i] == '@')
            },
{
    assert forall|i: int| 0 <= i < lower(s).len() implies in_class(k, #[trigger] lower(s)[i]) by {
        assert(lower(s)[i] == lower_char(s[i]));
        assert(in_class(k, s[i]));
    }
    assert(lower(lower(s)) =~= lower(s)) by {
        assert forall|i: int| 0 <= i < lower(s).len() implies lower(lower(s))[i] == lower(s)[i] by {
            assert(lower(s)[i] == lower_char(s[i]));
            assert(in_class(k, s[i]));
        }
    }
    assert forall|i: int| 0 <= i < s.len() implies (#[trigger] s[i] as u32) < 0x80 by {
        assert(in_class(k, s[i]));
    }
    assert forall|i: int| 0 <= i < lower(s).len() implies {
        let x = #[trigger] lower(s)[i];
        &&& x != ':'
        &&& !is_white(x)
        &&& !is_control(x)
        &&& (x as u32) < 0x80
        &&& (x == '.' <==> s[i] == '.')
        &&& (x == '/' <==> s[i] == '/')
        &&& (x == '@' <==> s[i] == '@')
    } by {
        assert(lower(s)[i] == lower_char(s[i]));
        assert(in_class(k, s[i]));
    }
}

/// Lowercasing changes no `/`, so the number of `/`-separated pieces stays.
proof fn lemma_split_lower_len(s: Seq<char>)
    ensures
        split(lower(s), '/').len() == split(s, '/').len(),
    decreases s.len(),
{
    if s.len() > 0 {
        lemma_split_lower_len(s.drop_last());
        lemma_split_nonempty(s.drop_last(), '/');
        lemma_split_nonempty(lower(s).drop_last(), '/');
        assert(lower(s).drop_last() =~= lower(s.drop_last()));
        assert(lower(s).last() == lower_char(s.last()));
    }
}

/// A name of a lowered ecosystem normalizes to itself once normalized.
proof fn lemma_lowered_normal(e: Ecosystem, name: Seq<char>)
    requires
        lowered_ecosystem(e),
        normalize_spec(e, name) is Ok,
    ensures
        ({
            let n = normalize_spec(e, name)->Ok_0;
            &&& normalize_spec(e, n) == Ok::<Seq<char>, CoreError>(n)
            &&& n.len() > 0
            &&& forall|i: int|
                0 <= i < n.len() ==> {
                    let x = #[trigger] n[i];
                    &&& x != ':'
                    &&& !is_white(x)
                    &&& !is_control(x)
                    &&& (x as u32) < 0x80
                    &&& (e != Ecosystem::Npm ==> x != '@')
                }
        }),
{
    reveal_strlit("..");
    let t = trim_char(trim(name), '/');
    let k = class_of(e);
    assert(all_in_class(k, t));
    lemma_lower_class(k, t);
    let n = lower(t);
    assert(normalize_spec(e, name) == Ok::<Seq<char>, CoreError>(n));
    lemma_trim_ends(trim(name), trim_pred(TrimKind::Char('/')));
    assert(t[0] != '/' && t.last() != '/');
    assert(n[0] == lower_char(t[0]));
    assert(n.last() == n[n.len() - 1]);
    assert(t.last() == t[t.len() - 1]);
    assert(trim(n) == n) by {
        assert(!(trim_pred(TrimKind::White))(n[0]));
        assert(!(trim_pred(TrimKind::White))(n.last()));
    }
    assert(trim_char(n, '/') == n) by {
        assert(!(trim_pred(TrimKind::Char('/')))(n[0]));
        assert(!(trim_pred(TrimKind::Char('/')))(n.last()));
    }
    lemma_ascii_len(t);
    lemma_ascii_len(n);
    assert(!contains_sub(n, ".."@)) by {
        if contains_sub(n, ".."@) {
            let i = choose|i: int| occurs_at(n, ".."@, i);
            assert(n.subrange(i, i + 2)[0] == '.' && n.subrange(i, i + 2)[1] == '.');
            assert(n[i] == '.' && n[i + 1] == '.');
            assert(t[i] == '.' && t[i + 1] == '.');
            assert(t.subrange(i, i + 2) =~= ".."@);
            assert(occurs_at(t, ".."@, i));
        }
    }
    if e == Ecosystem::Go {
        lemma_split_lower_len(t);
    }
    if e == Ecosystem::Npm {
        assert(!any_white(n));
    }
    assert forall|i: int| 0 <= i < n.len() implies {
        let x = #[trigger] n[i];
        e != Ecosystem::Npm ==> x != '@'
    } by {
        assert(in_class(k, n[i]));
    }
}

/// No `@` of the ID can be taken for the version separator but the one
/// before the version (an npm scope keeps its leading `@`), and the ID fits
/// the reference length limit.
pub open spec fn unambiguous_id(c: ComponentId) -> bool {
    &&& lacks(c.name.skip(1), '@')
    &&& (c.version matches Some(v) ==> lacks(v, '@'))
    &&& utf8_len(id_of(c)) <= 2048
}

/// The text after the prefix of an ID: the name, then `@` and the version
/// when there is one.
pub open spec fn id_rest(name: Seq<char>, version: Option<Seq<char>>) -> Seq<char> {
    match version {
        Some(v) => name + "@"@ + v,
        None => name,
    }
}

/// An ID `prefix:rest` of any ecosystem but downloads parses as `rest` split
/// at its version separator.
#[verifier::rlimit(40)]
proof fn lemma_prefixed_id_parses(e: Ecosystem, rest: Seq<char>)
    requires
        e != Ecosystem::Url,
        rest.len() > 0,
        forall|i: int| 0 <= i < rest.len() ==> !is_control(#[trigger] rest[i]),
        !is_white(rest.last()),
        utf8_len(prefix_of(e) + ":"@ + rest) <= 2048,
    ensures
        parse_spec(prefix_of(e) + ":"@ + rest) == new_spec(
            e,
            split_version_spec(e, rest).0,
            split_version_spec(e, rest).1,
        ),
{
    reveal_strlit(":");
    reveal_strlit("https://github.com/");
    reveal_strlit("http://github.com/");
    reveal_strlit("git@github.com:");
    reveal_strlit("github");
    reveal_strlit("gh");
    reveal_strlit("npm");
    reveal_strlit("pypi");
    reveal_strlit("pip");
    reveal_strlit("python");
    reveal_strlit("cargo");
    reveal_strlit("crate");
    reveal_strlit("crates");
    reveal_strlit("go");
    reveal_strlit("skill");
    reveal_strlit("mcp");
    reveal_strlit("plugin");
    let pre = prefix_of(e);
    let id = pre + ":"@ + rest;
    assert(pre.len() <= 6 && pre.len() >= 2);
    assert forall|i: int| 0 <= i < id.len() implies !is_control(#[trigger] id[i]) by {
        if i < pre.len() {
            assert(id[i] == pre[i]);
        } else if i == pre.len() {
            assert(id[i] == ':');
        } else {
            assert(id[i] == rest[i - pre.len() - 1]);
        }
    }
    assert(!any_control(id));
    assert(trim(id) == id) by {
        assert(id[0] == pre[0]);
        assert(!(trim_pred(TrimKind::White))(id[0]));
        assert(id.last() == rest.last());
        assert(!(trim_pred(TrimKind::White))(id.last()));
    }
    assert(!starts_with(id, "https://github.com/"@)) by {
        if starts_with(id, "https://github.com/"@) {
            assert(id.take(19)[0] == id[0]);
            assert(id[0] == pre[0]);
        }
    }
    assert(!starts_with(id, "http://github.com/"@)) by {
        if starts_with(id, "http://github.com/"@) {
            assert(id.take(18)[0] == id[0]);
            assert(id[0] == pre[0]);
        }
    }
    assert(!starts_with(id, "git@github.com:"@)) by {
        if starts_with(id, "git@github.com:"@) {
            assert(id.take(15)[0] == id[0]);
            assert(id.take(15)[1] == id[1]);
            assert(id.take(15)[3] == id[3]);
            assert(id[0] == pre[0]);
            assert(id[1] == pre[1]);
            if e == Ecosystem::Github {
                assert(id[3] == pre[3]);
            }
        }
    }
    assert(id[pre.len() as int] == ':');
    assert forall|j: int| 0 <= j < pre.len() implies id[j] != ':' by {
        assert(id[j] == pre[j]);
    }
    lemma_first_index(id, ':', pre.len() as int);
    assert(id.take(pre.len() as int) =~= pre);
    assert(lower(pre) =~= pre);
    assert(id.skip(pre.len() as int + 1) =~= rest);
    assert(ecosystem_of_prefix(pre) == Some(e)) by {
        assert("github"@.len() == 6 && "gh"@.len() == 2 && "npm"@.len() == 3);
        assert("pypi"@.len() == 4 && "pip"@.len() == 3 && "python"@.len() == 6);
        assert("cargo"@.len() == 5 && "crate"@.len() == 5 && "crates"@.len() == 6);
        assert("go"@.len() == 2 && "skill"@.len() == 5 && "mcp"@.len() == 3);
        assert("plugin"@.len() == 6);
        if e == Ecosystem::Skill {
            assert("skill"@[0] != "cargo"@[0] && "skill"@[0] != "crate"@[0]);
        } else if e == Ecosystem::Mcp {
            assert("mcp"@[0] != "npm"@[0] && "mcp"@[0] != "pip"@[0]);
        } else if e == Ecosystem::Plugin {
            assert("plugin"@[0] != "github"@[0] && "plugin"@[1] != "python"@[1]);
            assert("plugin"@[0] != "crates"@[0]);
        } else if e == Ecosystem::Github {
        } else if e == Ecosystem::Npm {
            assert("npm"@[0] != "gh"@[0] && "npm"@[0] != "pip"@[0]);
        } else if e == Ecosystem::Pypi {
            assert("pypi"@[0] != "gh"@[0]);
        } else if e == Ecosystem::Cargo {
            assert("cargo"@[1] != "crate"@[1] && "cargo"@[0] != "pypi"@[0]);
        } else {
            assert("go"@[1] != "gh"@[1]);
        }
    }
    assert(ecosystem_of_prefix(lower(id.take(pre.len() as int))) == Some(e));
    assert(first_index(id, ':') == pre.len());
    assert(!(t_empty_or_long(id)));
}

/// The rest of an unambiguous ID splits back into its name and version.
proof fn lemma_rest_splits(e: Ecosystem, n: Seq<char>, version: Option<Seq<char>>)
    requires
        n.len() > 0,
        lacks(n.skip(1), '@'),
        e != Ecosystem::Npm ==> n[0] != '@',
        version matches Some(v) ==> lacks(v, '@'),
    ensures
        split_version_spec(e, id_rest(n, version)) == (n, version),
{
    reveal_strlit("@");
    let rest = id_rest(n, version);
    match version {
        Some(v) => {
            assert(rest[n.len() as int] == '@');
            assert forall|j: int| n.len() < j < rest.len() implies rest[j] != '@' by {
                assert(rest[j] == v[j - n.len() - 1]);
            }
            lemma_last_index(rest, '@', n.len() as int);
            assert(rest.take(n.len() as int) =~= n);
            assert(rest.skip(n.len() as int + 1) =~= v);
            assert(rest[0] == n[0]);
        },
        None => {
            if n[0] == '@' {
                assert forall|j: int| 0 < j < n.len() implies n[j] != '@' by {
                    assert(n[j] == n.skip(1)[j - 1]);
                }
                lemma_last_index(n, '@', 0);
            } else {
                assert(!has_char(n, '@')) by {
                    if has_char(n, '@') {
                        let k = choose|k: int| 0 <= k < n.len() && n[k] == '@';
                        assert(n[k] == n.skip(1)[k - 1]);
                    }
                }
            }
        },
    }
}

/// The ID of an npm, crates.io or Go component that `new` builds, with or
/// without a version, parses back to that very component whenever the ID is
/// unambiguous.
pub proof fn law_package_id_round_trip(e: Ecosystem, name: Seq<char>, version: Option<Seq<char>>)
    requires
        lowered_ecosystem(e),
        new_spec(e, name, version) is Ok,
        unambiguous_id(new_spec(e, name, version)->Ok_0),
    ensures
        parse_spec(id_of(new_spec(e, name, version)->Ok_0)) == new_spec(e, name, version),
{
    reveal_strlit(":");
    reveal_strlit("@");
    lemma_lowered_normal(e, name);
    let c = new_spec(e, name, version)->Ok_0;
    let n = c.name;
    let rest = id_rest(n, version);
    assert(id_of(c) =~= prefix_of(e) + ":"@ + rest);
    assert forall|i: int| 0 <= i < rest.len() implies !is_control(#[trigger] rest[i]) by {
        if i < n.len() {
            assert(rest[i] == n[i]);
        } else if i > n.len() {
            let v = version->Some_0;
            assert(rest[i] == v[i - n.len() - 1]);
            assert(!any_control(v));
        }
    }
    match version {
        Some(v) => {
            assert(rest.last() == v[v.len() - 1]);
            assert(!any_white(v));
        },
        None => {
            assert(rest.last() == n[n.len() - 1]);
        },
    }
    lemma_prefixed_id_parses(e, rest);
    lemma_rest_splits(e, n, version);
    assert(new_spec(e, n, version) == new_spec(e, name, version));
}

/// A lowercase ASCII letter or digit.
pub open spec fn lower_alnum(x: char) -> bool {
    is_lower(x) || is_digit(x)
}

/// A non-empty normalized PyPI name normalizes to itself: it is made of
/// lowercase letters and digits in pieces joined by single `-`.
proof fn lemma_pypi_fixed(name: Seq<char>)
    requires
        normalize_spec(Ecosystem::Pypi, name) is Ok,
        normalize_spec(Ecosystem::Pypi, name)->Ok_0.len() > 0,
    ensures
        ({
            let n = normalize_spec(Ecosystem::Pypi, name)->Ok_0;
            &&& normalize_spec(Ecosystem::Pypi, n) == Ok::<Seq<char>, CoreError>(n)
            &&& forall|i: int| 0 <= i < n.len() ==> lower_alnum(#[trigger] n[i]) || n[i] == '-'
            &&& lower_alnum(n[0])
            &&& lower_alnum(n.last())
        }),
{
    reveal_strlit("..");
    let t = trim_char(trim(name), '/');
    assert(all_in_class(CharClass::Slug, t));
    lemma_lower_slug(t);
    let l = lower(t);
    let p1 = |x: char| lower_alnum(x) || x == '_' || x == '-';
    assert forall|i: int| 0 <= i < l.len() && l[i] != '.' implies p1(#[trigger] l[i]) by {
        assert(l[i] == lower_char(t[i]));
        assert(in_class(CharClass::Slug, t[i]));
    }
    assert forall|i: int| 0 <= i < seq!['-'].len() implies p1(#[trigger] seq!['-'][i]) by {}
    lemma_replace_chars(l, '.', seq!['-'], p1);
    let d1 = replace_char(l, '.', seq!['-']);
    let p2 = |x: char| lower_alnum(x) || x == '-';
    assert forall|i: int| 0 <= i < d1.len() && d1[i] != '_' implies p2(#[trigger] d1[i]) by {
        assert(p1(d1[i]));
    }
    assert forall|i: int| 0 <= i < seq!['-'].len() implies p2(#[trigger] seq!['-'][i]) by {}
    lemma_replace_chars(d1, '_', seq!['-'], p2);
    let d = replace_char(d1, '_', seq!['-']);
    let alnum = |x: char| lower_alnum(x);
    assert forall|k: int| 0 <= k < d.len() && d[k] != '-' implies alnum(#[trigger] d[k]) by {
        assert(p2(d[k]));
    }
    lemma_split_pieces(d, '-', alnum);
    let sp = split(d, '-');
    lemma_drop_empty_pieces(sp, alnum);
    let pieces = drop_empty(sp);
    let n = join(pieces, seq!['-']);
    assert(normalize_spec(Ecosystem::Pypi, name) == Ok::<Seq<char>, CoreError>(n));
    assert(pieces.len() >= 1) by {
        if pieces.len() == 0 {
            assert(n =~= Seq::<char>::empty());
        }
    }
    assert(n.len() <= 2048) by {
        lemma_join_len(pieces, '-');
        lemma_drop_empty_len(sp);
        lemma_split_join(d, '-');
        lemma_join_len(sp, '-');
        lemma_replace_len(l, '.', seq!['-']);
        lemma_replace_len(d1, '_', seq!['-']);
        assert forall|i: int| 0 <= i < t.len() implies (#[trigger] t[i] as u32) < 0x80 by {
            assert(in_class(CharClass::Slug, t[i]));
        }
        lemma_ascii_len(t);
    }
    lemma_join_chars(pieces, '-', alnum);
    assert forall|i: int| 0 <= i < n.len() implies lower_alnum(#[trigger] n[i]) || n[i] == '-' by {
        assert(n[i] == '-' || alnum(n[i]));
    }
    assert(n.last() == n[n.len() - 1]);
    assert(trim(n) == n) by {
        assert(!(trim_pred(TrimKind::White))(n[0]));
        assert(!(trim_pred(TrimKind::White))(n.last()));
    }
    assert(trim_char(n, '/') == n) by {
        assert(!(trim_pred(TrimKind::Char('/')))(n[0]));
        assert(!(trim_pred(TrimKind::Char('/')))(n.last()));
    }
    assert forall|i: int| 0 <= i < n.len() implies (#[trigger] n[i] as u32) < 0x80 by {
        assert(lower_alnum(n[i]) || n[i] == '-');
    }
    lemma_ascii_len(n);
    assert(!contains_sub(n, ".."@)) by {
        if contains_sub(n, ".."@) {
            let i = choose|i: int| occurs_at(n, ".."@, i);
            assert(n.subrange(i, i + 2)[0] == '.');
            assert(n[i] == '.');
            assert(lower_alnum(n[i]) || n[i] == '-');
        }
    }
    assert forall|i: int| 0 <= i < n.len() implies in_class(CharClass::Slug, #[trigger] n[i]) by {
        assert(lower_alnum(n[i]) || n[i] == '-');
    }
    assert(lower(n) =~= n) by {
        assert forall|i: int| 0 <= i < n.len() implies lower(n)[i] == n[i] by {
            assert(lower_alnum(n[i]) || n[i] == '-');
        }
    }
    assert forall|i: int| 0 <= i < n.len() implies n[i] != '.' && n[i] != '_' by {
        assert(lower_alnum(n[i]) || n[i] == '-');
    }
    lemma_replace_absent(n, '.', seq!['-']);
    lemma_replace_absent(n, '_', seq!['-']);
    assert forall|i: int, j: int| #![trigger pieces[i][j]] 0 <= i < pieces.len() && 0 <= j < pieces[i].len() implies pieces[i][j] != '-' by {
        assert(alnum(pieces[i][j]));
    }
    lemma_join_split(pieces, '-');
    lemma_drop_empty_keeps(pieces);
    assert(pypi_normal(n) == n);
}

/// The ID of a PyPI component that `new` builds, with or without a version,
/// parses back to that very component whenever the ID is unambiguous.
pub proof fn law_pypi_id_round_trip(name: Seq<char>, version: Option<Seq<char>>)
    requires
        new_spec(Ecosystem::Pypi, name, version) is Ok,
        unambiguous_id(new_spec(Ecosystem::Pypi, name, version)->Ok_0),
    ensures
        parse_spec(id_of(new_spec(Ecosystem::Pypi, name, version)->Ok_0)) == new_spec(
            Ecosystem::Pypi,
            name,
            version,
        ),
{
    reveal_strlit(":");
    reveal_strlit("@");
    let e = Ecosystem::Pypi;
    let c = new_spec(e, name, version)->Ok_0;
    let n = c.name;
    let rest = id_rest(n, version);
    let head = prefix_of(e) + ":"@;
    assert(id_of(c) =~= head + rest);
    lemma_utf8_len_concat(head, rest);
    match version {
        Some(v) => {
            assert(rest =~= n + ("@"@ + v));
            lemma_utf8_len_concat(n, "@"@ + v);
        },
        None => {},
    }
    lemma_pypi_fixed(name);
    assert forall|i: int| 0 <= i < rest.len() implies !is_control(#[trigger] rest[i]) by {
        if i < n.len() {
            assert(rest[i] == n[i]);
            assert(lower_alnum(n[i]) || n[i] == '-');
        } else if i > n.len() {
            let v = version->Some_0;
            assert(rest[i] == v[i - n.len() - 1]);
            assert(!any_control(v));
        }
    }
    match version {
        Some(v) => {
            assert(rest.last() == v[v.len() - 1]);
            assert(!any_white(v));
        },
        None => {
            assert(rest.last() == n[n.len() - 1]);
        },
    }
    assert(id_of(c) == prefix_of(e) + ":"@ + rest);
    lemma_prefixed_id_parses(e, rest);
    lemma_rest_splits(e, n, version);
    assert(new_spec(e, n, version) == new_spec(e, name, version));
}

/// The ID of a download that `new` builds without a version parses back to
/// that very component whenever the URL has no control character and no
/// white space at its ends, and the ID fits the reference length limit.
#[verifier::rlimit(40)]
pub proof fn law_url_id_round_trip(name: Seq<char>)
    requires
        new_spec(Ecosystem::Url, name, None) is Ok,
        !any_control(new_spec(Ecosystem::Url, name, None)->Ok_0.name),
        trim(new_spec(Ecosystem::Url, name, None)->Ok_0.name) == new_spec(
            Ecosystem::Url,
            name,
            None,
        )->Ok_0.name,
        utf8_len(id_of(new_spec(Ecosystem::Url, name, None)->Ok_0)) <= 2048,
    ensures
        parse_spec(id_of(new_spec(Ecosystem::Url, name, None)->Ok_0)) == new_spec(
            Ecosystem::Url,
            name,
            None,
        ),
{
    reveal_strlit(":");
    reveal_strlit("url");
    reveal_strlit("https://github.com/");
    reveal_strlit("http://github.com/");
    reveal_strlit("git@github.com:");
    reveal_strlit("github");
    reveal_strlit("gh");
    reveal_strlit("npm");
    reveal_strlit("pypi");
    reveal_strlit("pip");
    reveal_strlit("python");
    reveal_strlit("cargo");
    reveal_strlit("crate");
    reveal_strlit("crates");
    reveal_strlit("go");
    reveal_strlit("skill");
    reveal_strlit("mcp");
    reveal_strlit("plugin");
    let t = trim_char(trim(name), '/');
    let pre = prefix_of(Ecosystem::Url);
    let id = pre + ":"@ + t;
    assert(new_spec(Ecosystem::Url, name, None) == Ok::<ComponentId, CoreError>(
        ComponentId { ecosystem: Ecosystem::Url, name: t, version: None },
    ));
    assert(id_of(new_spec(Ecosystem::Url, name, None)->Ok_0) == id);
    lemma_trim_ends(trim(name), trim_pred(TrimKind::Char('/')));
    assert(t.last() == t[t.len() - 1]);
    assert(trim_char(t, '/') == t) by {
        assert(!(trim_pred(TrimKind::Char('/')))(t[0]));
        assert(!(trim_pred(TrimKind::Char('/')))(t.last()));
    }
    assert(normalize_spec(Ecosystem::Url, t) == Ok::<Seq<char>, CoreError>(t));
    assert forall|i: int| 0 <= i < id.len() implies !is_control(#[trigger] id[i]) by {
        if i < pre.len() {
            assert(id[i] == pre[i]);
        } else if i == pre.len() {
            assert(id[i] == ':');
        } else {
            assert(id[i] == t[i - pre.len() - 1]);
        }
    }
    assert(!any_control(id));
    assert(t.len() > 0);
    assert(!is_white(t.last())) by {
        lemma_trim_ends(t, trim_pred(TrimKind::White));
    }
    assert(trim(id) == id) by {
        assert(id[0] == pre[0]);
        assert(!(trim_pred(TrimKind::White))(id[0]));
        assert(id.last() == t.last());
        assert(!(trim_pred(TrimKind::White))(id.last()));
    }
    assert(!starts_with(id, "https://github.com/"@)) by {
        if starts_with(id, "https://github.com/"@) {
            assert(id.take(19)[0] == id[0]);
            assert(id[0] == pre[0]);
        }
    }
    assert(!starts_with(id, "http://github.com/"@)) by {
        if starts_with(id, "http://github.com/"@) {
            assert(id.take(18)[0] == id[0]);
            assert(id[0] == pre[0]);
        }
    }
    assert(!starts_with(id, "git@github.com:"@)) by {
        if starts_with(id, "git@github.com:"@) {
            assert(id.take(15)[0] == id[0]);
            assert(id[0] == pre[0]);
        }
    }
    assert(id[3] == ':');
    assert forall|j: int| 0 <= j < 3 implies id[j] != ':' by {
        assert(id[j] == pre[j]);
    }
    lemma_first_index(id, ':', 3);
    assert(id.take(3) =~= pre);
    assert(lower(pre) =~= pre);
    assert(id.skip(4) =~= t);
    assert(ecosystem_of_prefix(pre) == Some(Ecosystem::Url)) by {
        assert("github"@.len() == 6 && "gh"@.len() == 2 && "npm"@.len() == 3);
        assert("pypi"@.len() == 4 && "pip"@.len() == 3 && "python"@.len() == 6);
        assert("cargo"@.len() == 5 && "crate"@.len() == 5 && "crates"@.len() == 6);
        assert("go"@.len() == 2 && "skill"@.len() == 5 && "mcp"@.len() == 3);
        assert("plugin"@.len() == 6);
        assert("url"@[0] != "npm"@[0] && "url"@[0] != "pip"@[0] && "url"@[0] != "mcp"@[0]);
    }
    assert(ecosystem_of_prefix(lower(id.take(3))) == Some(Ecosystem::Url));
    assert(first_index(id, ':') == 3);
    assert(!(t_empty_or_long(id)));
}

/// Building a component again from the normalized name and the version of
/// one that `new` built gives that very component. The one exception is a
/// download address that is left with white space at an end once its
/// slashes are trimmed (such as `https://x.invalid/a /`).
pub proof fn law_new_is_idempotent(e: Ecosystem, name: Seq<char>, version: Option<Seq<char>>)
    requires
        new_spec(e, name, version) is Ok,
        e == Ecosystem::Url ==> trim(new_spec(e, name, version)->Ok_0.name) == new_spec(
            e,
            name,
            version,
        )->Ok_0.name,
    ensures
        new_spec(e, new_spec(e, name, version)->Ok_0.name, version) == new_spec(e, name, version),
{
    lemma_normal_nonempty(e, name);
    if owner_project_ecosystem(e) {
        lemma_owner_project_normal(e, name);
    } else if lowered_ecosystem(e) {
        lemma_lowered_normal(e, name);
    } else if e == Ecosystem::Pypi {
        lemma_pypi_fixed(name);
    } else {
        let t = trim_char(trim(name), '/');
        lemma_trim_ends(trim(name), trim_pred(TrimKind::Char('/')));
        assert(t.last() == t[t.len() - 1]);
        assert(trim_char(t, '/') == t) by {
            assert(!(trim_pred(TrimKind::Char('/')))(t[0]));
            assert(!(trim_pred(TrimKind::Char('/')))(t.last()));
        }
        assert(normalize_spec(Ecosystem::Url, t) == Ok::<Seq<char>, CoreError>(t));
    }
}

impl std::str::FromStr for ComponentRef {
    type Err = CoreError;

    /// Parses a typed reference (see [`parse_component`]).
    fn from_str(input: &str) -> (r: Result<Self, Self::Err>)
        ensures
            match parse_spec(input@) {
                Ok(c) => r matches Ok(v) && v@ == c,
                Err(e) => r matches Err(x) && x == e,
            },
    {
        parse_component(input)
    }
}

} // verus!
