//! The strict `agent.lock` model and its integrity rules.
//!
//! Entry hashes bind the canonical JSON of every other field of an entry; the
//! caller supplies those canonical bytes, and this module frames, hashes, and
//! checks them together with the lock's structural rules.

use vstd::prelude::*;

use crate::digest::{ascii_bytes, ascii_seq, domain_digest, Sha256Digest};
use crate::identity::{id_of, parse_component, parse_spec, strings_view, ComponentRef};
use crate::report::Timestamp;
use crate::sort::{
    lemma_stable_sorted_contains, lemma_text_lt_transitive, stable_sort, stable_sorted, text_lt, text_lt_exec, views_of,
    Precedes,
};
use crate::text::{chars_eq, chars_of};

verus! {

/// Stable lockfile schema.
pub const LOCKFILE_VERSION: u16 = 1;

/// Component artifact class.
#[derive(Clone, Copy, Debug, PartialEq, Eq, Structural)]
pub enum ComponentType {
    /// VCS repository.
    Repository,
    /// Registry package.
    Package,
    /// Agent skill.
    AgentSkill,
    /// MCP server.
    McpServer,
    /// Agent/editor plugin.
    Plugin,
    /// Direct download.
    Download,
}

/// Requested-to-canonical identity mapping.
#[derive(Clone, Debug, PartialEq, Eq)]
pub struct SourceIdentity {
    /// Exact requested identity.
    pub requested: String,
    /// Reviewed canonical identity.
    pub canonical: String,
    /// Whether relevant owner evidence was established.
    pub verified_owner: bool,
}

/// Bounded permissions observed or approved for a component (each list a set).
#[derive(Clone, Debug, Default, PartialEq, Eq)]
pub struct Permissions {
    /// Filesystem scopes, never secret values.
    pub filesystem: Vec<String>,
    /// Network hosts.
    pub network: Vec<String>,
    /// Environment variable names read.
    pub environment_read: Vec<String>,
    /// Whether shell execution is required.
    pub shell: bool,
}

/// Human or policy approval record.
#[derive(Clone, Debug, PartialEq, Eq)]
pub struct Approval {
    /// Approver identity or policy principal.
    pub principal: String,
    /// `human`, `policy`, or `enterprise`.
    pub method: String,
    /// UTC approval time.
    pub approved_at: Timestamp,
    /// Hash of the reviewed verification report.
    pub report_hash: Sha256Digest,
}

/// One exact locked capability.
#[derive(Clone, Debug, PartialEq, Eq)]
pub struct LockedComponent {
    /// Stable typed component ID.
    pub id: String,
    /// Artifact class.
    pub component_type: ComponentType,
    /// Registry/package version.
    pub version: Option<String>,
    /// Exact VCS commit.
    pub commit: Option<String>,
    /// Requested and canonical identities.
    pub source: SourceIdentity,
    /// Tree/tarball/signature/provenance integrity facts, ordered by key.
    pub integrity: Vec<(String, String)>,
    /// Bounded capabilities.
    pub permissions: Permissions,
    /// Typed dependency IDs (a set).
    pub dependencies: Vec<String>,
    /// Hash of natural-language instructions for skills/plugins.
    pub instruction_hash: Option<Sha256Digest>,
    /// Non-secret provenance claims.
    pub provenance: Vec<Vec<(String, String)>>,
    /// Approval history.
    pub approvals: Vec<Approval>,
    /// Last complete review time.
    pub reviewed_at: Timestamp,
    /// Canonical hash of all preceding fields.
    pub entry_hash: Sha256Digest,
}

/// Lockfile integrity error.
#[derive(Clone, Debug, PartialEq, Eq)]
pub enum LockError {
    /// Schema version is unsupported.
    UnsupportedVersion(u16),
    /// Duplicate component ID.
    DuplicateComponent(String),
    /// Components were not strictly sorted.
    NotSorted,
    /// Referenced dependency was absent.
    MissingDependency {
        /// Parent component.
        component: String,
        /// Missing dependency.
        dependency: String,
    },
    /// Entry security hash changed.
    EntryHashMismatch(String),
    /// ID was malformed or not canonically normalized.
    InvalidComponentId(String),
    /// The canonical field encodings do not match the entries.
    InvalidShape,
}

/// The mathematical content of a `LockError`.
pub ghost enum LockFault {
    UnsupportedVersion(u16),
    DuplicateComponent(Seq<char>),
    NotSorted,
    MissingDependency(Seq<char>, Seq<char>),
    EntryHashMismatch(Seq<char>),
    InvalidComponentId(Seq<char>),
    InvalidShape,
}

impl View for LockError {
    type V = LockFault;

    open spec fn view(&self) -> LockFault {
        match self {
            LockError::UnsupportedVersion(v) => LockFault::UnsupportedVersion(*v),
            LockError::DuplicateComponent(s) => LockFault::DuplicateComponent(s@),
            LockError::NotSorted => LockFault::NotSorted,
            LockError::MissingDependency { component, dependency } => LockFault::MissingDependency(
                component@,
                dependency@,
            ),
            LockError::EntryHashMismatch(s) => LockFault::EntryHashMismatch(s@),
            LockError::InvalidComponentId(s) => LockFault::InvalidComponentId(s@),
            LockError::InvalidShape => LockFault::InvalidShape,
        }
    }
}

pub open spec fn entry_domain() -> Seq<u8> {
    ascii_seq("agent-lock-entry/v1"@)
}

/// An ID is canonical when it parses and prints back unchanged.
pub open spec fn canonical_id(id: Seq<char>) -> bool {
    match parse_spec(id) {
        Ok(c) => id_of(c) == id,
        Err(_) => false,
    }
}

/// The first problem of one entry whose other fields encode to `fields`.
#[verifier::opaque]
pub open spec fn entry_fault(c: LockedComponent, fields: Seq<u8>) -> Option<LockFault> {
    if domain_digest(entry_domain(), fields) != c.entry_hash@ {
        Some(LockFault::EntryHashMismatch(c.id@))
    } else if !canonical_id(c.id@) {
        Some(LockFault::InvalidComponentId(c.id@))
    } else {
        None
    }
}

impl LockedComponent {
    /// The entry hash for the canonical JSON of every other field.
    pub fn compute_hash(canonical_fields: &[u8]) -> (d: Sha256Digest)
        ensures
            d@ == domain_digest(entry_domain(), canonical_fields@),
    {
        proof {
            reveal_strlit("agent-lock-entry/v1");
        }
        let tag = ascii_bytes("agent-lock-entry/v1");
        Sha256Digest::domain(tag.as_slice(), canonical_fields)
    }

    /// Updates the bound entry hash after an intentional change.
    pub fn seal(&mut self, canonical_fields: &[u8])
        ensures
            final(self).entry_hash@ == domain_digest(entry_domain(), canonical_fields@),
            *final(self) == resealed(*old(self), final(self).entry_hash),
    {
        self.entry_hash = Self::compute_hash(canonical_fields);
    }

    /// Checks the bound entry hash and identity consistency.
    pub fn verify(&self, canonical_fields: &[u8]) -> (r: Result<(), LockError>)
        ensures
            match entry_fault(*self, canonical_fields@) {
                None => r is Ok,
                Some(f) => r matches Err(e) && e@ == f,
            },
    {
        reveal(entry_fault);
        let d = Self::compute_hash(canonical_fields);
        if !d.same_as(&self.entry_hash) {
            return Err(LockError::EntryHashMismatch(self.id.clone()));
        }
        match parse_component(self.id.as_str()) {
            Err(_) => Err(LockError::InvalidComponentId(self.id.clone())),
            Ok(parsed) => {
                let printed = parsed.id();
                if printed == self.id {
                    Ok(())
                } else {
                    Err(LockError::InvalidComponentId(self.id.clone()))
                }
            },
        }
    }
}

/// An entry together with the canonical encoding of its other fields.
pub struct Entry {
    pub component: LockedComponent,
    pub fields: Vec<u8>,
}

impl View for Entry {
    type V = (LockedComponent, Seq<u8>);

    open spec fn view(&self) -> (LockedComponent, Seq<u8>) {
        (self.component, self.fields@)
    }
}

pub open spec fn entry_order() -> spec_fn((LockedComponent, Seq<u8>), (LockedComponent, Seq<u8>)) -> bool {
    |a: (LockedComponent, Seq<u8>), b: (LockedComponent, Seq<u8>)| text_lt(a.0.id@, b.0.id@)
}

impl Precedes for Entry {
    open spec fn order() -> spec_fn((LockedComponent, Seq<u8>), (LockedComponent, Seq<u8>)) -> bool {
        entry_order()
    }

    fn precedes_exec(&self, other: &Self) -> (r: bool) {
        let a = chars_of(self.component.id.as_str());
        let b = chars_of(other.component.id.as_str());
        text_lt_exec(a.as_slice(), b.as_slice())
    }
}

// ---------------------------------------------------------------------------
// The lock
// ---------------------------------------------------------------------------

/// Strict universal agent dependency lockfile.
#[derive(Clone, Debug, PartialEq, Eq)]
pub struct AgentLock {
    /// Must be one.
    pub version: u16,
    /// Unique sorted capabilities.
    pub components: Vec<LockedComponent>,
}

pub open spec fn ids(cs: Seq<LockedComponent>) -> Seq<Seq<char>> {
    cs.map_values(|c: LockedComponent| c.id@)
}

pub open spec fn bytes_views(f: Seq<Vec<u8>>) -> Seq<Seq<u8>> {
    f.map_values(|b: Vec<u8>| b@)
}

/// The first per-entry or ordering problem at or after position `i`.
pub open spec fn structure_fault(cs: Seq<LockedComponent>, fs: Seq<Seq<u8>>, i: int) -> Option<
    LockFault,
>
    decreases cs.len() - i,
{
    if i < 0 || i >= cs.len() {
        None
    } else if entry_fault(cs[i], fs[i]) is Some {
        entry_fault(cs[i], fs[i])
    } else if ids(cs).take(i).contains(cs[i].id@) {
        Some(LockFault::DuplicateComponent(cs[i].id@))
    } else if i > 0 && !text_lt(cs[i - 1].id@, cs[i].id@) {
        Some(LockFault::NotSorted)
    } else {
        structure_fault(cs, fs, i + 1)
    }
}

/// The first dependency of `deps` that is not in `known`.
pub open spec fn first_missing(deps: Seq<Seq<char>>, known: Seq<Seq<char>>) -> Option<Seq<char>>
    decreases deps.len(),
{
    if deps.len() == 0 {
        None
    } else if !known.contains(deps[0]) {
        Some(deps[0])
    } else {
        first_missing(deps.drop_first(), known)
    }
}

/// The first missing dependency among entries at or after position `i`.
pub open spec fn dependency_fault(cs: Seq<LockedComponent>, i: int) -> Option<LockFault>
    decreases cs.len() - i,
{
    if i < 0 || i >= cs.len() {
        None
    } else {
        match first_missing(strings_view(cs[i].dependencies@), ids(cs)) {
            Some(d) => Some(LockFault::MissingDependency(cs[i].id@, d)),
            None => dependency_fault(cs, i + 1),
        }
    }
}

/// The first problem of a lock whose entries' other fields encode to `fs`.
#[verifier::opaque]
pub open spec fn lock_fault(l: AgentLock, fs: Seq<Seq<u8>>) -> Option<LockFault> {
    if l.version != 1 {
        Some(LockFault::UnsupportedVersion(l.version))
    } else if fs.len() != l.components@.len() {
        Some(LockFault::InvalidShape)
    } else if structure_fault(l.components@, fs, 0) is Some {
        structure_fault(l.components@, fs, 0)
    } else {
        dependency_fault(l.components@, 0)
    }
}

fn id_in(cs: &Vec<LockedComponent>, upto: usize, id: &String) -> (r: bool)
    requires
        upto <= cs@.len(),
    ensures
        r == ids(cs@).take(upto as int).contains(id@),
{
    let mut k: usize = 0;
    while k < upto
        invariant
            k <= upto <= cs@.len(),
            forall|j: int| 0 <= j < k ==> ids(cs@)[j] != id@,
        decreases upto - k,
    {
        if cs[k].id == *id {
            proof {
                assert(ids(cs@).take(upto as int)[k as int] == id@);
            }
            return true;
        }
        k += 1;
    }
    proof {
        assert forall|j: int| 0 <= j < upto implies ids(cs@).take(upto as int)[j] != id@ by {
            assert(ids(cs@).take(upto as int)[j] == ids(cs@)[j]);
        }
    }
    false
}

fn id_listed(cs: &Vec<LockedComponent>, id: &String) -> (r: bool)
    ensures
        r == ids(cs@).contains(id@),
{
    let r = id_in(cs, cs.len(), id);
    proof {
        assert(ids(cs@).take(cs@.len() as int) =~= ids(cs@));
    }
    r
}

fn first_missing_exec(deps: &Vec<String>, cs: &Vec<LockedComponent>) -> (r: Option<String>)
    ensures
        match first_missing(strings_view(deps@), ids(cs@)) {
            Some(d) => r matches Some(x) && x@ == d,
            None => r is None,
        },
{
    let ghost all = strings_view(deps@);
    let mut k: usize = 0;
    proof {
        assert(all.skip(0) =~= all);
    }
    while k < deps.len()
        invariant
            k <= deps.len(),
            all == strings_view(deps@),
            first_missing(all, ids(cs@)) == first_missing(all.skip(k as int), ids(cs@)),
        decreases deps.len() - k,
    {
        proof {
            assert(all.skip(k as int)[0] == deps@[k as int]@);
            assert(all.skip(k as int).drop_first() =~= all.skip(k + 1));
        }
        if !id_listed(cs, &deps[k]) {
            return Some(deps[k].clone());
        }
        k += 1;
    }
    None
}

impl AgentLock {
    /// An empty lock of the current schema.
    pub fn new() -> (l: AgentLock)
        ensures
            l.version == 1,
            l.components@.len() == 0,
    {
        AgentLock { version: LOCKFILE_VERSION, components: Vec::new() }
    }

    /// Verifies schema, uniqueness, order, references, and entry integrity;
    /// `entry_fields[i]` is the canonical JSON of `components[i]` without its
    /// entry hash.
    pub fn verify(&self, entry_fields: &Vec<Vec<u8>>) -> (r: Result<(), LockError>)
        ensures
            match lock_fault(*self, bytes_views(entry_fields@)) {
                None => r is Ok,
                Some(f) => r matches Err(e) && e@ == f,
            },
    {
        reveal(lock_fault);
        if self.version != LOCKFILE_VERSION {
            return Err(LockError::UnsupportedVersion(self.version));
        }
        if entry_fields.len() != self.components.len() {
            return Err(LockError::InvalidShape);
        }
        let ghost cs = self.components@;
        let ghost fs = bytes_views(entry_fields@);
        let mut i: usize = 0;
        while i < self.components.len()
            invariant
                i <= cs.len(),
                self.version == 1,
                cs == self.components@,
                fs == bytes_views(entry_fields@),
                fs.len() == cs.len(),
                structure_fault(cs, fs, 0) == structure_fault(cs, fs, i as int),
            decreases cs.len() - i,
        {
            proof {
                reveal(lock_fault);
            }
            let c = &self.components[i];
            proof {
                assert(fs[i as int] == entry_fields@[i as int]@);
            }
            match c.verify(entry_fields[i].as_slice()) {
                Err(e) => {
                    proof {
                        assert(*c == cs[i as int]);
                        assert(structure_fault(cs, fs, i as int) == entry_fault(
                            cs[i as int],
                            fs[i as int],
                        ));
                    }
                    return Err(e);
                },
                Ok(()) => {},
            }
            if id_in(&self.components, i, &c.id) {
                proof {
                    assert(*c == cs[i as int]);
                    assert(entry_fault(cs[i as int], fs[i as int]) is None);
                    assert(structure_fault(cs, fs, i as int) == Some(
                        LockFault::DuplicateComponent(c.id@),
                    ));
                }
                return Err(LockError::DuplicateComponent(c.id.clone()));
            }
            if i > 0 {
                let a = chars_of(self.components[i - 1].id.as_str());
                let b = chars_of(c.id.as_str());
                if !text_lt_exec(a.as_slice(), b.as_slice()) {
                    return Err(LockError::NotSorted);
                }
            }
            i += 1;
        }
        let mut j: usize = 0;
        while j < self.components.len()
            invariant
                j <= cs.len(),
                self.version == 1,
                cs == self.components@,
                fs == bytes_views(entry_fields@),
                fs.len() == cs.len(),
                structure_fault(cs, fs, 0) is None,
                dependency_fault(cs, 0) == dependency_fault(cs, j as int),
            decreases cs.len() - j,
        {
            proof {
                reveal(lock_fault);
            }
            let c = &self.components[j];
            match first_missing_exec(&c.dependencies, &self.components) {
                Some(d) => {
                    proof {
                        assert(*c == cs[j as int]);
                        assert(dependency_fault(cs, j as int) == Some(
                            LockFault::MissingDependency(c.id@, d@),
                        ));
                        assert(lock_fault(*self, fs) == dependency_fault(cs, 0));
                    }
                    return Err(LockError::MissingDependency { component: c.id.clone(), dependency: d });
                },
                None => {},
            }
            j += 1;
        }
        Ok(())
    }

    /// Whether a component with the same ID is locked.
    pub fn contains(&self, component: &ComponentRef) -> (r: bool)
        ensures
            r == ids(self.components@).contains(id_of(component@)),
    {
        let id = component.id();
        id_listed(&self.components, &id)
    }
}


/// `c` carrying the entry hash `h`.
pub open spec fn resealed(c: LockedComponent, h: Sha256Digest) -> LockedComponent {
    LockedComponent { entry_hash: h, ..c }
}

pub open spec fn zip_entries(cs: Seq<LockedComponent>, fs: Seq<Seq<u8>>) -> Seq<
    (LockedComponent, Seq<u8>),
> {
    Seq::new(cs.len(), |i: int| (cs[i], fs[i]))
}

/// The entries of `es` whose ID differs from `id`, in order.
pub open spec fn keep_other(es: Seq<(LockedComponent, Seq<u8>)>, id: Seq<char>) -> Seq<
    (LockedComponent, Seq<u8>),
>
    decreases es.len(),
{
    if es.len() == 0 {
        es
    } else {
        let r = keep_other(es.drop_last(), id);
        if es.last().0.id@ != id {
            r.push(es.last())
        } else {
            r
        }
    }
}

/// The entries after replacing any entry with the ID of `c` by `c` sealed
/// with `h`, in ID order.
pub open spec fn upserted(
    es: Seq<(LockedComponent, Seq<u8>)>,
    c: LockedComponent,
    h: Sha256Digest,
    cf: Seq<u8>,
) -> Seq<(LockedComponent, Seq<u8>)> {
    stable_sorted(keep_other(es, c.id@).push((resealed(c, h), cf)), entry_order())
}

fn pair_entries(comps: Vec<LockedComponent>, fields: Vec<Vec<u8>>) -> (out: Vec<Entry>)
    requires
        comps@.len() == fields@.len(),
    ensures
        views_of(out@) == zip_entries(comps@, bytes_views(fields@)),
{
    let ghost orig = zip_entries(comps@, bytes_views(fields@));
    let ghost n = orig.len();
    let mut comps = comps;
    let mut fields = fields;
    let mut rev: Vec<Entry> = Vec::new();
    while comps.len() > 0
        invariant
            comps.len() == fields.len(),
            comps.len() + rev.len() == n,
            n == orig.len(),
            forall|k: int| 0 <= k < comps.len() ==> orig[k] == (comps@[k], fields@[k]@),
            forall|k: int| 0 <= k < rev.len() ==> #[trigger] rev@[k]@ == orig[n - 1 - k],
        decreases comps.len(),
    {
        let ghost bc = comps@;
        let ghost bf = fields@;
        let c = comps.pop().unwrap();
        let f = fields.pop().unwrap();
        proof {
            assert(c == bc[bc.len() - 1]);
            assert(f == bf[bf.len() - 1]);
            assert(orig[n - 1 - rev.len()] == (c, f@));
        }
        let ghost br = rev@;
        rev.push(Entry { component: c, fields: f });
        proof {
            assert forall|k: int| 0 <= k < rev.len() implies #[trigger] rev@[k]@ == orig[n - 1
                - k] by {
                if k < br.len() {
                    assert(rev@[k] == br[k]);
                }
            }
            assert forall|k: int| 0 <= k < comps.len() implies orig[k] == (
                comps@[k],
                fields@[k]@,
            ) by {
                assert(comps@[k] == bc[k]);
                assert(fields@[k] == bf[k]);
            }
        }
    }
    let mut out: Vec<Entry> = Vec::new();
    while rev.len() > 0
        invariant
            rev.len() <= n,
            n == orig.len(),
            forall|k: int| 0 <= k < rev.len() ==> #[trigger] rev@[k]@ == orig[n - 1 - k],
            views_of(out@) == orig.take(n - rev.len()),
        decreases rev.len(),
    {
        let ghost i = n - rev.len();
        let ghost br = rev@;
        let ghost bo = views_of(out@);
        let e = rev.pop().unwrap();
        proof {
            assert(e == br[br.len() - 1]);
            assert(e@ == orig[i]);
            assert forall|k: int| 0 <= k < rev.len() implies #[trigger] rev@[k]@ == orig[n - 1
                - k] by {
                assert(rev@[k] == br[k]);
            }
        }
        let ghost ev = e@;
        out.push(e);
        proof {
            assert(views_of(out@) =~= bo.push(ev));
            assert(orig.take(i + 1) =~= orig.take(i).push(orig[i]));
        }
    }
    proof {
        assert(orig.take(n as int) =~= orig);
    }
    out
}

fn keep_other_entries(entries: Vec<Entry>, id: &String) -> (out: Vec<Entry>)
    ensures
        views_of(out@) == keep_other(views_of(entries@), id@),
{
    let ghost orig = views_of(entries@);
    let ghost n = orig.len();
    let mut entries = entries;
    let mut rev: Vec<Entry> = Vec::new();
    while entries.len() > 0
        invariant
            entries.len() + rev.len() == n,
            n == orig.len(),
            forall|k: int| 0 <= k < entries.len() ==> #[trigger] entries@[k]@ == orig[k],
            forall|k: int| 0 <= k < rev.len() ==> #[trigger] rev@[k]@ == orig[n - 1 - k],
        decreases entries.len(),
    {
        let ghost be = entries@;
        let ghost br = rev@;
        let e = entries.pop().unwrap();
        proof {
            assert(e == be[be.len() - 1]);
        }
        rev.push(e);
        proof {
            assert forall|k: int| 0 <= k < rev.len() implies #[trigger] rev@[k]@ == orig[n - 1
                - k] by {
                if k < br.len() {
                    assert(rev@[k] == br[k]);
                }
            }
            assert forall|k: int| 0 <= k < entries.len() implies #[trigger] entries@[k]@
                == orig[k] by {
                assert(entries@[k] == be[k]);
            }
        }
    }
    let mut kept: Vec<Entry> = Vec::new();
    while rev.len() > 0
        invariant
            rev.len() <= n,
            n == orig.len(),
            forall|k: int| 0 <= k < rev.len() ==> #[trigger] rev@[k]@ == orig[n - 1 - k],
            views_of(kept@) == keep_other(orig.take(n - rev.len()), id@),
        decreases rev.len(),
    {
        let ghost i = n - rev.len();
        let ghost br = rev@;
        let ghost bk = views_of(kept@);
        let e = rev.pop().unwrap();
        proof {
            assert(e == br[br.len() - 1]);
            assert(e@ == orig[i]);
            assert(orig.take(i + 1).drop_last() =~= orig.take(i));
            assert(orig.take(i + 1).last() == orig[i]);
            assert forall|k: int| 0 <= k < rev.len() implies #[trigger] rev@[k]@ == orig[n - 1
                - k] by {
                assert(rev@[k] == br[k]);
            }
        }
        if e.component.id != *id {
            kept.push(e);
            proof {
                assert(views_of(kept@) =~= bk.push(orig[i]));
            }
        }
    }
    proof {
        assert(orig.take(n as int) =~= orig);
    }
    kept
}

fn unpair_entries(entries: Vec<Entry>) -> (r: (Vec<LockedComponent>, Vec<Vec<u8>>))
    ensures
        r.0@.len() == r.1@.len(),
        zip_entries(r.0@, bytes_views(r.1@)) == views_of(entries@),
{
    let ghost target = views_of(entries@);
    let ghost m = target.len();
    let mut sorted = entries;
    let mut back: Vec<Entry> = Vec::new();
    while sorted.len() > 0
        invariant
            sorted.len() + back.len() == m,
            m == target.len(),
            forall|k: int| 0 <= k < sorted.len() ==> #[trigger] sorted@[k]@ == target[k],
            forall|k: int| 0 <= k < back.len() ==> #[trigger] back@[k]@ == target[m - 1 - k],
        decreases sorted.len(),
    {
        let ghost bs = sorted@;
        let ghost bb = back@;
        let e = sorted.pop().unwrap();
        proof {
            assert(e == bs[bs.len() - 1]);
        }
        back.push(e);
        proof {
            assert forall|k: int| 0 <= k < back.len() implies #[trigger] back@[k]@ == target[m
                - 1 - k] by {
                if k < bb.len() {
                    assert(back@[k] == bb[k]);
                }
            }
            assert forall|k: int| 0 <= k < sorted.len() implies #[trigger] sorted@[k]@
                == target[k] by {
                assert(sorted@[k] == bs[k]);
            }
        }
    }
    let mut out_c: Vec<LockedComponent> = Vec::new();
    let mut out_f: Vec<Vec<u8>> = Vec::new();
    while back.len() > 0
        invariant
            back.len() <= m,
            m == target.len(),
            out_c.len() == out_f.len(),
            out_c.len() + back.len() == m,
            forall|k: int| 0 <= k < back.len() ==> #[trigger] back@[k]@ == target[m - 1 - k],
            forall|k: int| 0 <= k < out_c.len() ==> target[k] == (out_c@[k], out_f@[k]@),
        decreases back.len(),
    {
        let ghost bb = back@;
        let ghost oc = out_c@;
        let ghost of = out_f@;
        let e = back.pop().unwrap();
        proof {
            assert(e == bb[bb.len() - 1]);
            assert(e@ == target[m - bb.len()]);
        }
        let Entry { component: c, fields: f } = e;
        out_c.push(c);
        out_f.push(f);
        proof {
            assert forall|k: int| 0 <= k < back.len() implies #[trigger] back@[k]@ == target[m
                - 1 - k] by {
                assert(back@[k] == bb[k]);
            }
            assert forall|k: int| 0 <= k < out_c.len() implies target[k] == (
                out_c@[k],
                out_f@[k]@,
            ) by {
                if k < oc.len() {
                    assert(out_c@[k] == oc[k]);
                    assert(out_f@[k] == of[k]);
                }
            }
        }
    }
    proof {
        assert(zip_entries(out_c@, bytes_views(out_f@)) =~= target);
    }
    (out_c, out_f)
}

impl AgentLock {
    #[verifier::rlimit(30)]
    /// Adds or replaces one sealed component and restores deterministic order,
    /// then verifies the whole lock. `entry_fields` holds the canonical field
    /// encodings aligned with `components` and is kept aligned.
    pub fn upsert(
        &mut self,
        component: LockedComponent,
        component_fields: &[u8],
        entry_fields: &mut Vec<Vec<u8>>,
    ) -> (r: Result<(), LockError>)
        ensures
            old(entry_fields)@.len() != old(self).components@.len() ==> r == Err::<(), LockError>(
                LockError::InvalidShape,
            ) && *final(self) == *old(self) && *final(entry_fields) == *old(entry_fields),
            old(entry_fields)@.len() == old(self).components@.len() ==> {
                &&& final(self).version == old(self).version
                &&& final(entry_fields)@.len() == final(self).components@.len()
                &&& exists|h: Sha256Digest|
                    #![trigger resealed(component, h)]
                    h@ == domain_digest(entry_domain(), component_fields@) && zip_entries(
                        final(self).components@,
                        bytes_views(final(entry_fields)@),
                    ) == upserted(
                        zip_entries(old(self).components@, bytes_views(old(entry_fields)@)),
                        component,
                        h,
                        component_fields@,
                    )
                &&& match lock_fault(*final(self), bytes_views(final(entry_fields)@)) {
                    None => r is Ok,
                    Some(f) => r matches Err(e) && e@ == f,
                }
                &&& ids(final(self).components@).contains(component.id@)
            },
    {
        if entry_fields.len() != self.components.len() {
            return Err(LockError::InvalidShape);
        }
        let ghost orig = zip_entries(self.components@, bytes_views(entry_fields@));
        let mut component = component;
        let ghost unsealed = component;
        component.seal(component_fields);
        let ghost h = component.entry_hash;
        proof {
            assert(component == resealed(unsealed, h));
        }
        let mut comps: Vec<LockedComponent> = Vec::new();
        let mut fields: Vec<Vec<u8>> = Vec::new();
        std::mem::swap(&mut comps, &mut self.components);
        std::mem::swap(&mut fields, entry_fields);
        let paired = pair_entries(comps, fields);
        let mut kept = keep_other_entries(paired, &component.id);
        let ghost before = views_of(kept@);
        let cf = vstd::slice::slice_to_vec(component_fields);
        kept.push(Entry { component, fields: cf });
        proof {
            assert(views_of(kept@) =~= before.push((resealed(unsealed, h), component_fields@)));
        }
        let sorted = stable_sort(kept);
        let (out_c, out_f) = unpair_entries(sorted);
        self.components = out_c;
        *entry_fields = out_f;
        let ghost final_entries = zip_entries(self.components@, bytes_views(entry_fields@));
        let r = self.verify(entry_fields);
        proof {
            assert(h@ == domain_digest(entry_domain(), component_fields@));
            assert(final_entries == upserted(orig, unsealed, h, component_fields@));
            let _ = resealed(unsealed, h);
            law_upsert_replaces(orig, unsealed, h, component_fields@);
            lemma_zip_ids(
                self.components@,
                bytes_views(entry_fields@),
                (resealed(unsealed, h), component_fields@),
            );
        }
        r
    }
}

proof fn lemma_keep_other_contains(
    es: Seq<(LockedComponent, Seq<u8>)>,
    id: Seq<char>,
    e: (LockedComponent, Seq<u8>),
)
    ensures
        keep_other(es, id).contains(e) <==> (es.contains(e) && e.0.id@ != id),
    decreases es.len(),
{
    if es.len() > 0 {
        let r = keep_other(es.drop_last(), id);
        lemma_keep_other_contains(es.drop_last(), id, e);
        if es.contains(e) {
            let i = choose|i: int| 0 <= i < es.len() && es[i] == e;
            if i < es.len() - 1 {
                assert(es.drop_last()[i] == e);
            }
        }
        if es.drop_last().contains(e) {
            let k = choose|k: int| 0 <= k < es.drop_last().len() && es.drop_last()[k] == e;
            assert(es[k] == e);
        }
        if es.last().0.id@ != id {
            if r.contains(e) {
                let j = choose|j: int| 0 <= j < r.len() && r[j] == e;
                assert(r.push(es.last())[j] == e);
            }
            if e == es.last() {
                assert(r.push(es.last())[r.len() as int] == e);
            }
            if r.push(es.last()).contains(e) {
                let j = choose|j: int| 0 <= j < r.len() + 1 && r.push(es.last())[j] == e;
                if j < r.len() {
                    assert(r[j] == e);
                } else {
                    assert(es[es.len() - 1] == e);
                }
            }
        }
    }
}

/// Upserting replaces: afterwards the lock holds the new entry (sealed with
/// its hash), keeps every entry with another ID, and holds nothing else.
pub proof fn law_upsert_replaces(
    es: Seq<(LockedComponent, Seq<u8>)>,
    c: LockedComponent,
    h: Sha256Digest,
    cf: Seq<u8>,
)
    ensures
        upserted(es, c, h, cf).contains((resealed(c, h), cf)),
        forall|e: (LockedComponent, Seq<u8>)|
            #![trigger upserted(es, c, h, cf).contains(e)]
            upserted(es, c, h, cf).contains(e) <==> (e == (resealed(c, h), cf) || (es.contains(e)
                && e.0.id@ != c.id@)),
{
    let k = keep_other(es, c.id@);
    let n = (resealed(c, h), cf);
    assert(k.push(n)[k.len() as int] == n);
    lemma_stable_sorted_contains(k.push(n), entry_order(), n);
    assert forall|e: (LockedComponent, Seq<u8>)|
        #![trigger upserted(es, c, h, cf).contains(e)]
        upserted(es, c, h, cf).contains(e) <==> (e == n || (es.contains(e) && e.0.id@ != c.id@)) by {
        lemma_stable_sorted_contains(k.push(n), entry_order(), e);
        lemma_keep_other_contains(es, c.id@, e);
        if k.contains(e) {
            let j = choose|j: int| 0 <= j < k.len() && k[j] == e;
            assert(k.push(n)[j] == e);
        }
        if e == n {
            assert(k.push(n)[k.len() as int] == e);
        }
        if k.push(n).contains(e) {
            let j = choose|j: int| 0 <= j < k.len() + 1 && k.push(n)[j] == e;
            if j < k.len() {
                assert(k[j] == e);
            }
        }
    }
}

proof fn lemma_zip_ids(cs: Seq<LockedComponent>, fs: Seq<Seq<u8>>, e: (LockedComponent, Seq<u8>))
    requires
        zip_entries(cs, fs).contains(e),
    ensures
        ids(cs).contains(e.0.id@),
{
    let z = zip_entries(cs, fs);
    let k = choose|k: int| 0 <= k < z.len() && z[k] == e;
    assert(ids(cs)[k] == e.0.id@);
}


proof fn lemma_structure_steps(cs: Seq<LockedComponent>, fs: Seq<Seq<u8>>, k: int)
    requires
        0 <= k <= cs.len(),
        structure_fault(cs, fs, k) is None,
    ensures
        forall|i: int| k <= i < cs.len() ==> entry_fault(#[trigger] cs[i], fs[i]) is None,
        forall|i: int| k <= i < cs.len() && i > 0 ==> text_lt(cs[i - 1].id@, #[trigger] cs[i].id@),
    decreases cs.len() - k,
{
    if k < cs.len() {
        lemma_structure_steps(cs, fs, k + 1);
    }
}

proof fn lemma_sorted_chain(cs: Seq<LockedComponent>, i: int, j: int)
    requires
        0 <= i < j < cs.len(),
        forall|k: int| 0 < k < cs.len() ==> text_lt(cs[k - 1].id@, #[trigger] cs[k].id@),
    ensures
        text_lt(cs[i].id@, cs[j].id@),
    decreases j - i,
{
    if j > i + 1 {
        lemma_sorted_chain(cs, i, j - 1);
        assert(text_lt(cs[j - 1].id@, cs[j].id@));
        lemma_text_lt_transitive(cs[i].id@, cs[j - 1].id@, cs[j].id@);
    } else {
        assert(text_lt(cs[j - 1].id@, cs[j].id@));
    }
}

proof fn lemma_dependencies_present(cs: Seq<LockedComponent>, k: int)
    requires
        0 <= k <= cs.len(),
        dependency_fault(cs, k) is None,
    ensures
        forall|i: int| k <= i < cs.len() ==> first_missing(strings_view(#[trigger] cs[i].dependencies@), ids(cs)) is None,
    decreases cs.len() - k,
{
    if k < cs.len() {
        lemma_dependencies_present(cs, k + 1);
    }
}

proof fn lemma_first_missing_none(deps: Seq<Seq<char>>, known: Seq<Seq<char>>)
    requires
        first_missing(deps, known) is None,
    ensures
        forall|d: int| 0 <= d < deps.len() ==> known.contains(#[trigger] deps[d]),
    decreases deps.len(),
{
    if deps.len() > 0 {
        lemma_first_missing_none(deps.drop_first(), known);
        assert forall|d: int| 0 <= d < deps.len() implies known.contains(#[trigger] deps[d]) by {
            if d > 0 {
                assert(deps[d] == deps.drop_first()[d - 1]);
            }
        }
    }
}

/// A lock that verifies has schema 1, its entries strictly ordered by ID
/// (so no ID twice), each entry's hash binding its fields, and every
/// dependency naming a locked entry.
pub proof fn law_verified_lock_well_formed(l: AgentLock, fs: Seq<Seq<u8>>)
    requires
        lock_fault(l, fs) is None,
    ensures
        l.version == 1,
        fs.len() == l.components@.len(),
        forall|i: int, j: int|
            0 <= i < j < l.components@.len() ==> text_lt(
                #[trigger] l.components@[i].id@,
                #[trigger] l.components@[j].id@,
            ),
        forall|i: int|
            0 <= i < l.components@.len() ==> domain_digest(entry_domain(), fs[i])
                == (#[trigger] l.components@[i]).entry_hash@,
        forall|i: int, d: int|
            0 <= i < l.components@.len() && 0 <= d < l.components@[i].dependencies@.len()
                ==> ids(l.components@).contains(
                #[trigger] l.components@[i].dependencies@[d]@,
            ),
{
    reveal(lock_fault);
    let cs = l.components@;
    lemma_structure_steps(cs, fs, 0);
    assert forall|i: int, j: int| 0 <= i < j < cs.len() implies text_lt(
        #[trigger] cs[i].id@,
        #[trigger] cs[j].id@,
    ) by {
        lemma_sorted_chain(cs, i, j);
    }
    assert forall|i: int| 0 <= i < cs.len() implies domain_digest(entry_domain(), fs[i])
        == (#[trigger] cs[i]).entry_hash@ by {
        reveal(entry_fault);
        assert(entry_fault(cs[i], fs[i]) is None);
    }
    lemma_dependencies_present(cs, 0);
    assert forall|i: int, d: int|
        0 <= i < cs.len() && 0 <= d < cs[i].dependencies@.len() implies ids(cs).contains(
        #[trigger] cs[i].dependencies@[d]@,
    ) by {
        assert(first_missing(strings_view(cs[i].dependencies@), ids(cs)) is None);
        lemma_first_missing_none(strings_view(cs[i].dependencies@), ids(cs));
        assert(strings_view(cs[i].dependencies@)[d] == cs[i].dependencies@[d]@);
    }
}

} // verus!
