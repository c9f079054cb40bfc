//! Capability manifests, attestation binding, and instruction hashing.

use vstd::prelude::*;
use vstd::utf8::{decode_utf8, encode_utf8, valid_utf8};

use crate::digest::{ascii_bytes, ascii_seq, domain_digest, Sha256Digest};
use crate::identity::{id_of, parse_component, parse_spec, strings_view, ComponentRef};
use crate::lockfile::canonical_id;
use crate::policy::contains_string;
use crate::text::{
    chars_eq, chars_of, is_alnum, join, lower, lower_chars, replace_char, replace_char_exec, string_of,
    utf8_len, utf8_len_exceeds,
};

verus! {

/// Stable capability-manifest API.
pub const MANIFEST_API_VERSION: &'static str = "reposeal.dev/v1";

/// Capability identity/version metadata.
#[derive(Clone, Debug, PartialEq, Eq)]
pub struct ManifestMetadata {
    /// Human-readable project name.
    pub name: String,
    /// Maintainer-controlled manifest version.
    pub version: String,
}

/// Declared capability permissions (each list a set).
#[derive(Clone, Debug, Default, PartialEq, Eq)]
pub struct CapabilityPermissions {
    /// Filesystem scopes.
    pub filesystem: Vec<String>,
    /// Network hosts.
    pub network: Vec<String>,
    /// Environment variable names read.
    pub environment_read: Vec<String>,
    /// Shell execution required.
    pub shell: bool,
}

/// Maintainer-published canonical capability manifest.
#[derive(Clone, Debug, PartialEq, Eq)]
pub struct CapabilityManifest {
    /// Must be `reposeal.dev/v1`.
    pub api_version: String,
    /// Must be `CapabilityManifest`.
    pub kind: String,
    /// Project metadata.
    pub metadata: ManifestMetadata,
    /// Canonical repository/package/skill/MCP/plugin identities (a set).
    pub identities: Vec<String>,
    /// Official domains (a set).
    pub domains: Vec<String>,
    /// Typed component dependencies (a set).
    pub dependencies: Vec<String>,
    /// Required install/runtime permissions.
    pub permissions: CapabilityPermissions,
    /// Non-secret provenance descriptors.
    pub provenance: Vec<Vec<(String, String)>>,
}

/// Manifest, attestation, or instruction error.
#[derive(Clone, Debug, PartialEq, Eq)]
pub enum ProvenanceError {
    /// Top-level API/kind was invalid.
    InvalidSchema,
    /// Metadata was empty or excessive.
    InvalidMetadata,
    /// Typed identity was invalid.
    InvalidIdentity(String),
    /// Domain was malformed.
    InvalidDomain(String),
    /// Instructions were not UTF-8.
    InvalidUtf8,
    /// External verifier did not establish signature validity.
    SignatureNotVerified,
    /// Verified issuer/subject was not trusted by policy.
    UntrustedIdentity,
    /// Attestation did not bind the exact manifest/commit.
    AttestationBinding,
}

/// The mathematical content of a `ProvenanceError`.
pub ghost enum ProvenanceFault {
    InvalidSchema,
    InvalidMetadata,
    InvalidIdentity(Seq<char>),
    InvalidDomain(Seq<char>),
    InvalidUtf8,
    SignatureNotVerified,
    UntrustedIdentity,
    AttestationBinding,
}

impl View for ProvenanceError {
    type V = ProvenanceFault;

    open spec fn view(&self) -> ProvenanceFault {
        match self {
            ProvenanceError::InvalidSchema => ProvenanceFault::InvalidSchema,
            ProvenanceError::InvalidMetadata => ProvenanceFault::InvalidMetadata,
            ProvenanceError::InvalidIdentity(s) => ProvenanceFault::InvalidIdentity(s@),
            ProvenanceError::InvalidDomain(s) => ProvenanceFault::InvalidDomain(s@),
            ProvenanceError::InvalidUtf8 => ProvenanceFault::InvalidUtf8,
            ProvenanceError::SignatureNotVerified => ProvenanceFault::SignatureNotVerified,
            ProvenanceError::UntrustedIdentity => ProvenanceFault::UntrustedIdentity,
            ProvenanceError::AttestationBinding => ProvenanceFault::AttestationBinding,
        }
    }
}

// ---------------------------------------------------------------------------
// Manifest validation
// ---------------------------------------------------------------------------

/// The first identity of `ids` that is not a canonical component ID.
pub open spec fn first_noncanonical(ids: Seq<Seq<char>>) -> Option<Seq<char>>
    decreases ids.len(),
{
    if ids.len() == 0 {
        None
    } else if !canonical_id(ids[0]) {
        Some(ids[0])
    } else {
        first_noncanonical(ids.drop_first())
    }
}

/// A domain: 1 to 253 characters of lowercase ASCII letters, digits, `.` and `-`.
pub open spec fn domain_ok(d: Seq<char>) -> bool {
    d.len() > 0 && utf8_len(d) <= 253 && d == lower(d) && forall|i: int|
        0 <= i < d.len() ==> (is_alnum(#[trigger] d[i]) || d[i] == '.' || d[i] == '-')
}

pub open spec fn first_bad_domain(ds: Seq<Seq<char>>) -> Option<Seq<char>>
    decreases ds.len(),
{
    if ds.len() == 0 {
        None
    } else if !domain_ok(ds[0]) {
        Some(ds[0])
    } else {
        first_bad_domain(ds.drop_first())
    }
}

pub open spec fn metadata_ok(m: CapabilityManifest) -> bool {
    m.metadata.name@.len() > 0 && utf8_len(m.metadata.name@) <= 128 && m.metadata.version@.len()
        > 0 && utf8_len(m.metadata.version@) <= 128 && m.identities@.len() > 0
}

/// The first problem of a manifest, in the order the checks run.
pub open spec fn manifest_fault(m: CapabilityManifest) -> Option<ProvenanceFault> {
    if m.api_version@ != "reposeal.dev/v1"@ || m.kind@ != "CapabilityManifest"@ {
        Some(ProvenanceFault::InvalidSchema)
    } else if !metadata_ok(m) {
        Some(ProvenanceFault::InvalidMetadata)
    } else if first_noncanonical(strings_view(m.identities@)) is Some {
        Some(ProvenanceFault::InvalidIdentity(first_noncanonical(strings_view(m.identities@))->0))
    } else if first_noncanonical(strings_view(m.dependencies@)) is Some {
        Some(
            ProvenanceFault::InvalidIdentity(first_noncanonical(strings_view(m.dependencies@))->0),
        )
    } else if first_bad_domain(strings_view(m.domains@)) is Some {
        Some(ProvenanceFault::InvalidDomain(first_bad_domain(strings_view(m.domains@))->0))
    } else {
        None
    }
}

fn text_is(s: &String, lit: &str) -> (r: bool)
    ensures
        r == (s@ == lit@),
{
    let a = chars_of(s.as_str());
    let b = chars_of(lit);
    chars_eq(a.as_slice(), b.as_slice())
}

/// Whether `id` parses and prints back unchanged.
pub fn canonical_id_exec(id: &String) -> (r: bool)
    ensures
        r == canonical_id(id@),
{
    match parse_component(id.as_str()) {
        Err(_) => false,
        Ok(parsed) => parsed.id() == *id,
    }
}

fn first_noncanonical_exec(ids: &Vec<String>) -> (r: Option<String>)
    ensures
        match first_noncanonical(strings_view(ids@)) {
            Some(x) => r matches Some(y) && y@ == x,
            None => r is None,
        },
{
    let ghost all = strings_view(ids@);
    let mut k: usize = 0;
    proof {
        assert(all.skip(0) =~= all);
    }
    while k < ids.len()
        invariant
            k <= ids.len(),
            all == strings_view(ids@),
            first_noncanonical(all) == first_noncanonical(all.skip(k as int)),
        decreases ids.len() - k,
    {
        proof {
            assert(all.skip(k as int)[0] == ids@[k as int]@);
            assert(all.skip(k as int).drop_first() =~= all.skip(k + 1));
        }
        if !canonical_id_exec(&ids[k]) {
            return Some(ids[k].clone());
        }
        k += 1;
    }
    None
}

fn domain_ok_exec(d: &String) -> (r: bool)
    ensures
        r == domain_ok(d@),
{
    let c = chars_of(d.as_str());
    if c.len() == 0 || utf8_len_exceeds(c.as_slice(), 253) {
        return false;
    }
    let l = lower_chars(c.as_slice());
    if !chars_eq(c.as_slice(), l.as_slice()) {
        return false;
    }
    let mut i: usize = 0;
    while i < c.len()
        invariant
            i <= c.len(),
            c@ == d@,
            forall|k: int| 0 <= k < i ==> (is_alnum(#[trigger] c@[k]) || c@[k] == '.' || c@[k] == '-'),
        decreases c.len() - i,
    {
        let x = c[i];
        if !(crate::text::char_is_alnum(x) || x == '.' || x == '-') {
            return false;
        }
        i += 1;
    }
    true
}

fn first_bad_domain_exec(ds: &Vec<String>) -> (r: Option<String>)
    ensures
        match first_bad_domain(strings_view(ds@)) {
            Some(x) => r matches Some(y) && y@ == x,
            None => r is None,
        },
{
    let ghost all = strings_view(ds@);
    let mut k: usize = 0;
    proof {
        assert(all.skip(0) =~= all);
    }
    while k < ds.len()
        invariant
            k <= ds.len(),
            all == strings_view(ds@),
            first_bad_domain(all) == first_bad_domain(all.skip(k as int)),
        decreases ds.len() - k,
    {
        proof {
            assert(all.skip(k as int)[0] == ds@[k as int]@);
            assert(all.skip(k as int).drop_first() =~= all.skip(k + 1));
        }
        if !domain_ok_exec(&ds[k]) {
            return Some(ds[k].clone());
        }
        k += 1;
    }
    None
}

pub open spec fn manifest_domain() -> Seq<u8> {
    ascii_seq("capability-manifest/v1"@)
}

impl CapabilityManifest {
    /// Validates identity/domain/dependency fields.
    pub fn validate(&self) -> (r: Result<(), ProvenanceError>)
        ensures
            match manifest_fault(*self) {
                None => r is Ok,
                Some(f) => r matches Err(e) && e@ == f,
            },
    {
        if !text_is(&self.api_version, "reposeal.dev/v1") || !text_is(
            &self.kind,
            "CapabilityManifest",
        ) {
            return Err(ProvenanceError::InvalidSchema);
        }
        let name = chars_of(self.metadata.name.as_str());
        let version = chars_of(self.metadata.version.as_str());
        if name.len() == 0 || utf8_len_exceeds(name.as_slice(), 128) || version.len() == 0
            || utf8_len_exceeds(version.as_slice(), 128) || self.identities.len() == 0 {
            return Err(ProvenanceError::InvalidMetadata);
        }
        match first_noncanonical_exec(&self.identities) {
            Some(x) => return Err(ProvenanceError::InvalidIdentity(x)),
            None => {},
        }
        match first_noncanonical_exec(&self.dependencies) {
            Some(x) => return Err(ProvenanceError::InvalidIdentity(x)),
            None => {},
        }
        match first_bad_domain_exec(&self.domains) {
            Some(x) => return Err(ProvenanceError::InvalidDomain(x)),
            None => {},
        }
        Ok(())
    }

    /// The manifest digest for its canonical JSON, used in attestations and lockfiles.
    pub fn digest(canonical_manifest: &[u8]) -> (d: Sha256Digest)
        ensures
            d@ == domain_digest(manifest_domain(), canonical_manifest@),
    {
        proof {
            reveal_strlit("capability-manifest/v1");
        }
        let tag = ascii_bytes("capability-manifest/v1");
        Sha256Digest::domain(tag.as_slice(), canonical_manifest)
    }

    /// Returns whether a request is one of the exact maintainer-declared identities.
    pub fn declares(&self, component: &ComponentRef) -> (r: bool)
        ensures
            r == strings_view(self.identities@).contains(id_of(component@)),
    {
        let id = component.id();
        contains_string(&self.identities, &id)
    }
}

// ---------------------------------------------------------------------------
// Attestations
// ---------------------------------------------------------------------------

/// Result produced by an external signature verifier such as Cosign.
#[derive(Clone, Debug, PartialEq, Eq)]
pub struct ExternalVerification {
    /// Whether the cryptographic signature and transparency proof were verified.
    pub signature_verified: bool,
    /// OIDC issuer or key fingerprint.
    pub issuer: String,
    /// OIDC subject or key identity.
    pub subject: String,
    /// Manifest digest bound by the verified attestation.
    pub manifest_digest: Sha256Digest,
    /// Exact repository commit bound by the attestation.
    pub commit: String,
    /// Optional transparency log index.
    pub log_index: Option<u64>,
}

/// Reviewed issuer/subject constraint (each list a set).
#[derive(Clone, Debug, PartialEq, Eq)]
pub struct AttestationPolicy {
    /// Exact allowed issuers.
    pub issuers: Vec<String>,
    /// Exact allowed subjects.
    pub subjects: Vec<String>,
}

/// The outcome of authorizing an externally verified attestation.
pub open spec fn authorization_fault(
    p: AttestationPolicy,
    v: ExternalVerification,
    manifest: Seq<u8>,
    commit: Seq<char>,
) -> Option<ProvenanceFault> {
    if !v.signature_verified {
        Some(ProvenanceFault::SignatureNotVerified)
    } else if !strings_view(p.issuers@).contains(v.issuer@) || !strings_view(p.subjects@).contains(
        v.subject@,
    ) {
        Some(ProvenanceFault::UntrustedIdentity)
    } else if v.manifest_digest@ != domain_digest(manifest_domain(), manifest) || v.commit@
        != commit {
        Some(ProvenanceFault::AttestationBinding)
    } else {
        None
    }
}

impl AttestationPolicy {
    /// Validates externally verified results against local trust roots and
    /// the exact manifest (given by its canonical JSON) and commit.
    pub fn authorize(
        &self,
        verification: &ExternalVerification,
        canonical_manifest: &[u8],
        commit: &str,
    ) -> (r: Result<(), ProvenanceError>)
        ensures
            match authorization_fault(*self, *verification, canonical_manifest@, commit@) {
                None => r is Ok,
                Some(f) => r matches Err(e) && e@ == f,
            },
    {
        if !verification.signature_verified {
            return Err(ProvenanceError::SignatureNotVerified);
        }
        if !contains_string(&self.issuers, &verification.issuer) || !contains_string(
            &self.subjects,
            &verification.subject,
        ) {
            return Err(ProvenanceError::UntrustedIdentity);
        }
        let expected = CapabilityManifest::digest(canonical_manifest);
        let c = String::from_str(commit);
        if !verification.manifest_digest.same_as(&expected) || verification.commit != c {
            return Err(ProvenanceError::AttestationBinding);
        }
        Ok(())
    }
}

// ---------------------------------------------------------------------------
// Instruction hashing
// ---------------------------------------------------------------------------

/// `std::str::from_utf8`: the contract claims success exactly for valid
/// UTF-8, and then the decoded characters.
#[verifier::external_body]
pub(crate) fn utf8_text(bytes: &[u8]) -> (r: Option<&str>)
    ensures
        r is Some <==> valid_utf8(bytes@),
        r matches Some(s) ==> s@ == decode_utf8(bytes@),
{
    std::str::from_utf8(bytes).ok()
}

/// Every `\r\n` becomes `\n` (left to right, without overlap).
pub open spec fn crlf_to_lf(s: Seq<char>) -> Seq<char>
    decreases s.len(),
{
    if s.len() == 0 {
        s
    } else if s.len() >= 2 && s[0] == '\r' && s[1] == '\n' {
        seq!['\n'] + crlf_to_lf(s.skip(2))
    } else {
        seq![s[0]] + crlf_to_lf(s.skip(1))
    }
}

/// Line endings normalized: `\r\n` and then any lone `\r` become `\n`.
pub open spec fn normalize_newlines(s: Seq<char>) -> Seq<char> {
    replace_char(crlf_to_lf(s), '\r', seq!['\n'])
}

fn crlf_to_lf_exec(s: &[char]) -> (out: Vec<char>)
    ensures
        out@ == crlf_to_lf(s@),
{
    let mut out: Vec<char> = Vec::new();
    let mut i: usize = 0;
    proof {
        assert(s@.skip(0) =~= s@);
    }
    while i < s.len()
        invariant
            i <= s.len(),
            crlf_to_lf(s@) == out@ + crlf_to_lf(s@.skip(i as int)),
        decreases s.len() - i,
    {
        let ghost rest = s@.skip(i as int);
        if i + 1 < s.len() && s[i] == '\r' && s[i + 1] == '\n' {
            out.push('\n');
            proof {
                assert(rest.skip(2) =~= s@.skip(i + 2));
                assert(out@ + crlf_to_lf(s@.skip(i + 2)) =~= (out@.drop_last() + seq!['\n'])
                    + crlf_to_lf(rest.skip(2)));
            }
            i += 2;
        } else {
            out.push(s[i]);
            proof {
                assert(rest.skip(1) =~= s@.skip(i + 1));
                assert(rest[0] == s@[i as int]);
                assert(out@ + crlf_to_lf(s@.skip(i + 1)) =~= (out@.drop_last() + seq![s@[i as int]])
                    + crlf_to_lf(rest.skip(1)));
            }
            i += 1;
        }
    }
    proof {
        assert(s@.skip(i as int) =~= Seq::<char>::empty());
        assert(out@ + Seq::<char>::empty() =~= out@);
    }
    out
}

pub open spec fn instructions_domain() -> Seq<u8> {
    ascii_seq("agent-instructions/v1"@)
}

/// Extracts a stable hash of skill/plugin instructions from normalized UTF-8 bytes.
pub fn instruction_hash(bytes: &[u8]) -> (r: Result<Sha256Digest, ProvenanceError>)
    ensures
        r is Ok <==> valid_utf8(bytes@),
        r matches Ok(d) ==> d@ == domain_digest(
            instructions_domain(),
            encode_utf8(normalize_newlines(decode_utf8(bytes@))),
        ),
        r matches Err(e) ==> e == ProvenanceError::InvalidUtf8,
{
    let text = match utf8_text(bytes) {
        None => return Err(ProvenanceError::InvalidUtf8),
        Some(t) => t,
    };
    let chars = chars_of(text);
    let step = crlf_to_lf_exec(chars.as_slice());
    let lf: Vec<char> = vec!['\n'];
    proof {
        assert(lf@ =~= seq!['\n']);
    }
    let normalized = replace_char_exec(step.as_slice(), '\r', lf.as_slice());
    let owned = string_of(normalized.as_slice());
    let payload = owned.as_str().as_bytes();
    proof {
        reveal_strlit("agent-instructions/v1");
    }
    let tag = ascii_bytes("agent-instructions/v1");
    Ok(Sha256Digest::domain(tag.as_slice(), payload))
}


// ---------------------------------------------------------------------------
// Laws of instruction hashing
// ---------------------------------------------------------------------------

pub open spec fn no_line_break(s: Seq<char>) -> bool {
    forall|i: int| 0 <= i < s.len() ==> #[trigger] s[i] != '\r' && s[i] != '\n'
}

proof fn lemma_crlf_plain(s: Seq<char>)
    requires
        forall|i: int| 0 <= i < s.len() ==> #[trigger] s[i] != '\r',
    ensures
        crlf_to_lf(s) == s,
    decreases s.len(),
{
    if s.len() > 0 {
        assert forall|i: int| 0 <= i < s.skip(1).len() implies #[trigger] s.skip(1)[i] != '\r' by {
            assert(s.skip(1)[i] == s[i + 1]);
        }
        lemma_crlf_plain(s.skip(1));
        assert(seq![s[0]] + s.skip(1) =~= s);
    }
}

proof fn lemma_crlf_concat(a: Seq<char>, b: Seq<char>)
    requires
        a.len() == 0 || a.last() != '\r',
    ensures
        crlf_to_lf(a + b) == crlf_to_lf(a) + crlf_to_lf(b),
    decreases a.len(),
{
    if a.len() == 0 {
        assert(a + b =~= b);
        assert(crlf_to_lf(a) =~= Seq::<char>::empty());
        assert(Seq::<char>::empty() + crlf_to_lf(b) =~= crlf_to_lf(b));
    } else if a.len() >= 2 && a[0] == '\r' && a[1] == '\n' {
        assert((a + b).skip(2) =~= a.skip(2) + b);
        assert((a + b)[0] == '\r' && (a + b)[1] == '\n');
        if a.len() > 2 {
            assert(a.skip(2).last() == a.last());
        }
        lemma_crlf_concat(a.skip(2), b);
        assert(seq!['\n'] + (crlf_to_lf(a.skip(2)) + crlf_to_lf(b)) =~= (seq!['\n'] + crlf_to_lf(
            a.skip(2),
        )) + crlf_to_lf(b));
    } else {
        assert((a + b).skip(1) =~= a.skip(1) + b);
        assert((a + b)[0] == a[0]);
        if a.len() == 1 {
            assert(a[0] != '\r');
        } else {
            assert((a + b)[1] == a[1]);
            assert(a.skip(1).last() == a.last());
        }
        lemma_crlf_concat(a.skip(1), b);
        assert(seq![a[0]] + (crlf_to_lf(a.skip(1)) + crlf_to_lf(b)) =~= (seq![a[0]] + crlf_to_lf(
            a.skip(1),
        )) + crlf_to_lf(b));
    }
}

proof fn lemma_replace_absent(s: Seq<char>, c: char, w: Seq<char>)
    requires
        forall|i: int| 0 <= i < s.len() ==> #[trigger] s[i] != c,
    ensures
        replace_char(s, c, w) == s,
    decreases s.len(),
{
    if s.len() > 0 {
        assert forall|i: int| 0 <= i < s.drop_last().len() implies #[trigger] s.drop_last()[i]
            != c by {
            assert(s.drop_last()[i] == s[i]);
        }
        lemma_replace_absent(s.drop_last(), c, w);
        assert(s.drop_last() + seq![s.last()] =~= s);
    }
}

proof fn lemma_join_lines(ls: Seq<Seq<char>>, sep: Seq<char>)
    requires
        forall|k: int| 0 <= k < ls.len() ==> no_line_break(#[trigger] ls[k]),
        sep == "\r\n"@ || sep == "\n"@,
    ensures
        crlf_to_lf(join(ls, sep)) == join(ls, "\n"@),
        ls.len() > 0 ==> join(ls, sep).len() == 0 || join(ls, sep).last() != '\r',
    decreases ls.len(),
{
    reveal_strlit("\r\n");
    reveal_strlit("\n");
    if ls.len() == 0 {
    } else if ls.len() == 1 {
        let l = ls[0];
        assert(no_line_break(l));
        lemma_crlf_plain(l);
    } else {
        let init = ls.drop_last();
        let l = ls.last();
        assert(no_line_break(ls[ls.len() - 1]));
        assert forall|k: int| 0 <= k < init.len() implies no_line_break(#[trigger] init[k]) by {
            assert(init[k] == ls[k]);
        }
        lemma_join_lines(init, sep);
        let a = join(init, sep);
        lemma_crlf_concat(a, sep + l);
        assert(join(ls, sep) =~= a + (sep + l));
        lemma_crlf_plain(l);
        if sep == "\r\n"@ {
            assert((sep + l)[0] == '\r' && (sep + l)[1] == '\n');
            assert((sep + l).skip(2) =~= l);
            assert(crlf_to_lf(sep + l) =~= seq!['\n'] + l);
        } else {
            assert((sep + l)[0] == '\n');
            assert((sep + l).skip(1) =~= l);
            assert(crlf_to_lf(sep + l) =~= seq!['\n'] + l);
        }
        assert(join(ls, "\n"@) =~= join(init, "\n"@) + "\n"@ + l);
        assert(crlf_to_lf(join(ls, sep)) =~= join(ls, "\n"@));
        if l.len() > 0 {
            assert(join(ls, sep).last() == l.last());
        } else {
            assert(join(ls, sep).last() == sep.last());
        }
    }
}

proof fn lemma_join_plain(ls: Seq<Seq<char>>)
    requires
        forall|k: int| 0 <= k < ls.len() ==> no_line_break(#[trigger] ls[k]),
    ensures
        forall|i: int| 0 <= i < join(ls, "\n"@).len() ==> #[trigger] join(ls, "\n"@)[i] != '\r',
    decreases ls.len(),
{
    reveal_strlit("\n");
    if ls.len() == 1 {
        assert(no_line_break(ls[0]));
    } else if ls.len() > 1 {
        let init = ls.drop_last();
        assert forall|k: int| 0 <= k < init.len() implies no_line_break(#[trigger] init[k]) by {
            assert(init[k] == ls[k]);
        }
        lemma_join_plain(init);
        let a = join(init, "\n"@);
        let l = ls.last();
        assert(no_line_break(ls[ls.len() - 1]));
        assert(join(ls, "\n"@) =~= a + "\n"@ + l);
        assert forall|i: int| 0 <= i < join(ls, "\n"@).len() implies #[trigger] join(ls, "\n"@)[i]
            != '\r' by {
            if i < a.len() {
                assert(join(ls, "\n"@)[i] == a[i]);
            } else if i == a.len() {
                assert(join(ls, "\n"@)[i] == '\n');
            } else {
                assert(join(ls, "\n"@)[i] == l[i - a.len() - 1]);
            }
        }
    }
}

/// Instruction text hashes the same whether its lines end in CRLF or LF:
/// both normalize to the LF form.
pub proof fn law_instruction_line_endings(ls: Seq<Seq<char>>)
    requires
        forall|k: int| 0 <= k < ls.len() ==> no_line_break(#[trigger] ls[k]),
    ensures
        normalize_newlines(join(ls, "\r\n"@)) == join(ls, "\n"@),
        normalize_newlines(join(ls, "\n"@)) == join(ls, "\n"@),
        domain_digest(instructions_domain(), encode_utf8(normalize_newlines(join(ls, "\r\n"@))))
            == domain_digest(instructions_domain(), encode_utf8(normalize_newlines(join(ls, "\n"@)))),
{
    reveal_strlit("\r\n");
    reveal_strlit("\n");
    lemma_join_lines(ls, "\r\n"@);
    lemma_join_lines(ls, "\n"@);
    lemma_join_plain(ls);
    lemma_replace_absent(join(ls, "\n"@), '\r', seq!['\n']);
}

} // verus!
