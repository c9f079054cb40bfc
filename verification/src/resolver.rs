//! Provider-neutral resolution results and predictable HalluSquat signals.

use vstd::prelude::*;

use crate::identity::{opt_view, strings_view, ComponentId, ComponentRef};
use crate::sort::{lemma_text_lt_transitive, lemma_text_lt_trichotomy, text_lt, text_lt_exec};
use crate::text::{
    append_chars, append_str, chars_eq, chars_of, decimal, decimal_chars, has_prefix, lines,
    lines_of,
    has_prefix_str, lower, lower_chars, replace_char, starts_with, trim, trim_chars, replace_char_exec, slice_chars, string_of,
    views,
};
use crate::error::CoreError;
use crate::identity::id_of;
use crate::report::nanos_of;
use crate::report::{
    evidence_view, opt_component_view, pairs_view, signals_view, Evidence, EvidenceKind,
    EvidenceStrength, EvidenceView, Severity, Signal, SignalView, Timestamp,
};

verus! {

/// Provider-neutral resolver output before policy evaluation.
#[derive(Clone, Debug)]
pub struct Resolution {
    /// Likely authoritative identity, when sufficiently established.
    pub canonical: Option<ComponentRef>,
    /// Attributable provider facts.
    pub evidence: Vec<Evidence>,
    /// Deterministic security signals.
    pub signals: Vec<Signal>,
    /// Bounded predictable hallucination candidates.
    pub hallusquat_candidates: Vec<String>,
}

impl Resolution {
    /// A resolution with no canonical identity, evidence, signals, or candidates.
    pub fn empty() -> (r: Resolution)
        ensures
            r.canonical is None,
            r.evidence@.len() == 0,
            r.signals@.len() == 0,
            r.hallusquat_candidates@.len() == 0,
    {
        Resolution {
            canonical: None,
            evidence: Vec::new(),
            signals: Vec::new(),
            hallusquat_candidates: Vec::new(),
        }
    }
}


// ---------------------------------------------------------------------------
// Sorted sets of names
// ---------------------------------------------------------------------------

/// Upper bound on generated HalluSquat candidates.
pub const MAX_HALLUSQUAT_CANDIDATES: usize = 256;

/// `s` (sorted, without repeats) with `x` added, as a `BTreeSet` insert does.
pub open spec fn set_insert(s: Seq<Seq<char>>, x: Seq<char>) -> Seq<Seq<char>>
    decreases s.len(),
{
    if s.len() == 0 {
        seq![x]
    } else if s.last() == x {
        s
    } else if text_lt(x, s.last()) {
        set_insert(s.drop_last(), x).push(s.last())
    } else {
        s.push(x)
    }
}

/// Inserts every element of `xs`, in order.
pub open spec fn set_insert_all(s: Seq<Seq<char>>, xs: Seq<Seq<char>>) -> Seq<Seq<char>>
    decreases xs.len(),
{
    if xs.len() == 0 {
        s
    } else {
        set_insert(set_insert_all(s, xs.drop_last()), xs.last())
    }
}

proof fn lemma_set_insert_at(s: Seq<Seq<char>>, x: Seq<char>, j: int)
    requires
        0 <= j <= s.len(),
        forall|k: int| j <= k < s.len() ==> text_lt(x, #[trigger] s[k]),
        j > 0 ==> !text_lt(x, s[j - 1]) && s[j - 1] != x,
        forall|k: int| j <= k < s.len() ==> s[k] != x,
    ensures
        set_insert(s, x) == s.insert(j, x),
    decreases s.len(),
{
    if s.len() == 0 {
        assert(s.insert(j, x) =~= seq![x]);
    } else if j == s.len() {
        assert(s.insert(j, x) =~= s.push(x));
    } else {
        lemma_set_insert_at(s.drop_last(), x, j);
        assert(s.insert(j, x) =~= s.drop_last().insert(j, x).push(s.last()));
    }
}

proof fn lemma_set_insert_present(s: Seq<Seq<char>>, x: Seq<char>, j: int)
    requires
        0 <= j < s.len(),
        s[j] == x,
        forall|k: int| j < k < s.len() ==> text_lt(x, #[trigger] s[k]) && s[k] != x,
    ensures
        set_insert(s, x) == s,
    decreases s.len(),
{
    if j < s.len() - 1 {
        lemma_set_insert_present(s.drop_last(), x, j);
        assert(s.drop_last().push(s.last()) =~= s);
    }
}

/// Names in strictly ascending order, so none occurs twice.
pub open spec fn strictly_ascending(s: Seq<Seq<char>>) -> bool {
    forall|i: int, j: int| 0 <= i < j < s.len() ==> text_lt(#[trigger] s[i], #[trigger] s[j])
}

/// Adding a name to a strictly ascending set keeps it strictly ascending:
/// a `NameSet` built by `new` and `insert` is sorted and free of repeats.
pub proof fn law_set_insert_keeps_order(s: Seq<Seq<char>>, x: Seq<char>)
    requires
        strictly_ascending(s),
    ensures
        strictly_ascending(set_insert(s, x)),
    decreases s.len(),
{
    if s.len() == 0 {
    } else if s.last() == x {
    } else if text_lt(x, s.last()) {
        let d = s.drop_last();
        let last = s.last();
        assert(strictly_ascending(d)) by {
            assert forall|i: int, j: int| 0 <= i < j < d.len() implies text_lt(
                #[trigger] d[i],
                #[trigger] d[j],
            ) by {
                assert(d[i] == s[i] && d[j] == s[j]);
            }
        }
        law_set_insert_keeps_order(d, x);
        let r = set_insert(d, x);
        assert forall|i: int| 0 <= i < r.len() implies text_lt(#[trigger] r[i], last) by {
            let y = r[i];
            lemma_set_insert_contains(d, x, y);
            assert(r.contains(y));
            if y != x {
                let k = choose|k: int| 0 <= k < d.len() && d[k] == y;
                assert(s[k] == y);
                assert(s[s.len() - 1] == last);
            }
        }
        let t = r.push(last);
        assert forall|i: int, j: int| 0 <= i < j < t.len() implies text_lt(
            #[trigger] t[i],
            #[trigger] t[j],
        ) by {
            if j < r.len() {
                assert(t[i] == r[i] && t[j] == r[j]);
            } else {
                assert(t[i] == r[i]);
                assert(t[j] == last);
            }
        }
    } else {
        let last = s.last();
        lemma_text_lt_trichotomy(x, last);
        assert(text_lt(last, x));
        let t = s.push(x);
        assert forall|i: int, j: int| 0 <= i < j < t.len() implies text_lt(
            #[trigger] t[i],
            #[trigger] t[j],
        ) by {
            if j < s.len() {
                assert(t[i] == s[i] && t[j] == s[j]);
            } else {
                assert(t[j] == x);
                assert(t[i] == s[i]);
                if i < s.len() - 1 {
                    assert(text_lt(s[i], s[s.len() - 1]));
                    lemma_text_lt_transitive(s[i], last, x);
                }
            }
        }
    }
}

/// A sorted set of names held as character vectors.
#[derive(Clone, Debug)]
pub struct NameSet {
    pub items: Vec<Vec<char>>,
}

impl NameSet {
    pub open spec fn view_items(&self) -> Seq<Seq<char>> {
        views(self.items@)
    }

    pub fn new() -> (s: NameSet)
        ensures
            s.view_items() == Seq::<Seq<char>>::empty(),
    {
        let s = NameSet { items: Vec::new() };
        proof {
            assert(s.view_items() =~= Seq::<Seq<char>>::empty());
        }
        s
    }

    pub fn insert(&mut self, x: Vec<char>)
        ensures
            final(self).view_items() == set_insert(old(self).view_items(), x@),
    {
        let ghost s = self.view_items();
        let mut j: usize = self.items.len();
        while j > 0 && !chars_eq(self.items[j - 1].as_slice(), x.as_slice()) && text_lt_exec(
            x.as_slice(),
            self.items[j - 1].as_slice(),
        )
            invariant
                j <= self.items.len(),
                s == self.view_items(),
                forall|k: int| j <= k < s.len() ==> text_lt(x@, #[trigger] s[k]) && s[k] != x@,
            decreases j,
        {
            proof {
                assert(s[j - 1] == self.items@[j - 1]@);
            }
            j -= 1;
        }
        if j > 0 && chars_eq(self.items[j - 1].as_slice(), x.as_slice()) {
            proof {
                assert(s[j - 1] == self.items@[j - 1]@);
                lemma_set_insert_present(s, x@, j - 1);
            }
            return;
        }
        proof {
            if j > 0 {
                assert(s[j - 1] == self.items@[j - 1]@);
            }
            lemma_set_insert_at(s, x@, j as int);
        }
        let ghost xv = x@;
        self.items.insert(j, x);
        proof {
            assert(self.view_items() =~= s.insert(j as int, xv));
        }
    }

    pub fn len(&self) -> (n: usize)
        ensures
            n == self.view_items().len(),
    {
        self.items.len()
    }

    /// Whether `name` is in the set.
    pub fn contains(&self, name: &str) -> (r: bool)
        ensures
            r == self.view_items().contains(name@),
    {
        let target = chars_of(name);
        let mut i: usize = 0;
        while i < self.items.len()
            invariant
                i <= self.items.len(),
                target@ == name@,
                forall|k: int| 0 <= k < i ==> #[trigger] self.view_items()[k] != name@,
            decreases self.items.len() - i,
        {
            proof {
                assert(self.view_items()[i as int] == self.items@[i as int]@);
            }
            if chars_eq(self.items[i].as_slice(), target.as_slice()) {
                return true;
            }
            i += 1;
        }
        false
    }

    /// The first `limit` names as strings.
    pub fn take_strings(&self, limit: usize) -> (out: Vec<String>)
        ensures
            strings_view(out@) == self.view_items().take(
                if limit < self.view_items().len() {
                    limit as int
                } else {
                    self.view_items().len() as int
                },
            ),
    {
        let n = if limit < self.items.len() {
            limit
        } else {
            self.items.len()
        };
        let mut out: Vec<String> = Vec::new();
        let mut i: usize = 0;
        while i < n
            invariant
                i <= n <= self.items.len(),
                strings_view(out@) == self.view_items().take(i as int),
            decreases n - i,
        {
            let ghost o = strings_view(out@);
            let s = string_of(self.items[i].as_slice());
            let ghost sv = s@;
            out.push(s);
            proof {
                assert(strings_view(out@) =~= o.push(sv));
                assert(self.view_items()[i as int] == self.items@[i as int]@);
                assert(self.view_items().take(i + 1) =~= self.view_items().take(i as int).push(
                    self.view_items()[i as int],
                ));
            }
            i += 1;
        }
        out
    }
}

// ---------------------------------------------------------------------------
// HalluSquat candidates
// ---------------------------------------------------------------------------

/// `p` without the character at position `k`.
pub open spec fn deletion(p: Seq<char>, k: int) -> Seq<char> {
    p.take(k) + p.skip(k + 1)
}

/// `p` with the characters at positions `k` and `k + 1` swapped.
pub open spec fn transposition(p: Seq<char>, k: int) -> Seq<char> {
    p.take(k) + seq![p[k + 1], p[k]] + p.skip(k + 2)
}

/// The single-character edits tried at position `k`: a non-empty deletion,
/// then the swap with the next character when there is one.
pub open spec fn edits_at(p: Seq<char>, k: int) -> Seq<Seq<char>> {
    (if deletion(p, k).len() > 0 {
        seq![deletion(p, k)]
    } else {
        Seq::<Seq<char>>::empty()
    }) + (if k + 1 < p.len() {
        seq![transposition(p, k)]
    } else {
        Seq::<Seq<char>>::empty()
    })
}

/// Edits at the positions `0..n`, in order.
pub open spec fn edits_upto(p: Seq<char>, n: int) -> Seq<Seq<char>>
    decreases n,
{
    if n <= 0 {
        Seq::<Seq<char>>::empty()
    } else {
        edits_upto(p, n - 1) + edits_at(p, n - 1)
    }
}

/// The fixed affix variants of a project name, in insertion order.
pub open spec fn affix_variants(p: Seq<char>) -> Seq<Seq<char>> {
    seq![
        p,
        replace_char(p, '-', Seq::<char>::empty()),
        replace_char(p, '_', seq!['-']),
        p + "-ai"@,
        p + "-official"@,
        p + "-cli"@,
        p + "s"@,
    ]
}

pub open spec fn min_int(a: int, b: int) -> int {
    if a < b {
        a
    } else {
        b
    }
}

/// Predictable variants of a project name: affixes, then deletions and
/// adjacent swaps within its first 32 characters, as a sorted set.
pub open spec fn project_variants_spec(p: Seq<char>) -> Seq<Seq<char>> {
    set_insert_all(
        Seq::<Seq<char>>::empty(),
        affix_variants(p) + edits_upto(p, min_int(32, p.len() as int)),
    )
}

fn insert_all_vec(set: &mut NameSet, xs: Vec<Vec<char>>)
    ensures
        final(set).view_items() == set_insert_all(old(set).view_items(), views(xs@)),
{
    let ghost start = set.view_items();
    let ghost all = views(xs@);
    let mut rest = xs;
    let mut rev: Vec<Vec<char>> = Vec::new();
    let ghost n = all.len();
    while rest.len() > 0
        invariant
            rest.len() + rev.len() == n,
            n == all.len(),
            forall|k: int| 0 <= k < rest.len() ==> #[trigger] rest@[k]@ == all[k],
            forall|k: int| 0 <= k < rev.len() ==> #[trigger] rev@[k]@ == all[n - 1 - k],
        decreases rest.len(),
    {
        let ghost br = rest@;
        let ghost bv = rev@;
        let x = rest.pop().unwrap();
        proof {
            assert(x == br[br.len() - 1]);
        }
        rev.push(x);
        proof {
            assert forall|k: int| 0 <= k < rev.len() implies #[trigger] rev@[k]@ == all[n - 1
                - k] by {
                if k < bv.len() {
                    assert(rev@[k] == bv[k]);
                }
            }
            assert forall|k: int| 0 <= k < rest.len() implies #[trigger] rest@[k]@ == all[k] by {
                assert(rest@[k] == br[k]);
            }
        }
    }
    while rev.len() > 0
        invariant
            rev.len() <= n,
            n == all.len(),
            forall|k: int| 0 <= k < rev.len() ==> #[trigger] rev@[k]@ == all[n - 1 - k],
            set.view_items() == set_insert_all(start, all.take(n - rev.len())),
        decreases rev.len(),
    {
        let ghost i = n - rev.len();
        let ghost bv = rev@;
        let x = rev.pop().unwrap();
        proof {
            assert(x == bv[bv.len() - 1]);
            assert(x@ == all[i]);
            assert(all.take(i + 1).drop_last() =~= all.take(i));
            assert(all.take(i + 1).last() == all[i]);
            assert forall|k: int| 0 <= k < rev.len() implies #[trigger] rev@[k]@ == all[n - 1
                - k] by {
                assert(rev@[k] == bv[k]);
            }
        }
        set.insert(x);
    }
    proof {
        assert(all.take(n as int) =~= all);
    }
}

fn concat_chars(a: &[char], b: &str) -> (out: Vec<char>)
    ensures
        out@ == a@ + b@,
{
    let mut out = slice_chars(a, 0, a.len());
    append_str(&mut out, b);
    out
}

fn edits_exec(p: &[char], n: usize) -> (out: Vec<Vec<char>>)
    requires
        n <= p@.len(),
    ensures
        views(out@) == edits_upto(p@, n as int),
{
    let mut out: Vec<Vec<char>> = Vec::new();
    let mut k: usize = 0;
    while k < n
        invariant
            k <= n <= p@.len(),
            views(out@) == edits_upto(p@, k as int),
        decreases n - k,
    {
        let ghost before = views(out@);
        let mut d = slice_chars(p, 0, k);
        let tail = slice_chars(p, k + 1, p.len());
        append_chars(&mut d, tail.as_slice());
        proof {
            assert(d@ =~= deletion(p@, k as int));
        }
        if d.len() > 0 {
            out.push(d);
        }
        let ghost mid = views(out@);
        proof {
            assert(mid =~= before + (if deletion(p@, k as int).len() > 0 {
                seq![deletion(p@, k as int)]
            } else {
                Seq::<Seq<char>>::empty()
            }));
        }
        if k + 1 < p.len() {
            let mut t = slice_chars(p, 0, k);
            t.push(p[k + 1]);
            t.push(p[k]);
            let tail2 = slice_chars(p, k + 2, p.len());
            append_chars(&mut t, tail2.as_slice());
            proof {
                assert(t@ =~= transposition(p@, k as int));
            }
            out.push(t);
        }
        proof {
            assert(views(out@) =~= edits_upto(p@, k + 1));
        }
        k += 1;
    }
    out
}

/// Predictable variants of a project name (see `project_variants_spec`).
pub fn project_variants(project: &[char]) -> (out: Vec<Vec<char>>)
    ensures
        views(out@) == project_variants_spec(project@),
{
    let empty: Vec<char> = Vec::new();
    let dash: Vec<char> = vec!['-'];
    let mut list: Vec<Vec<char>> = Vec::new();
    list.push(slice_chars(project, 0, project.len()));
    list.push(replace_char_exec(project, '-', empty.as_slice()));
    list.push(replace_char_exec(project, '_', dash.as_slice()));
    list.push(concat_chars(project, "-ai"));
    list.push(concat_chars(project, "-official"));
    list.push(concat_chars(project, "-cli"));
    list.push(concat_chars(project, "s"));
    proof {
        assert(empty@ =~= Seq::<char>::empty());
        assert(dash@ =~= seq!['-']);
        assert(project@.subrange(0, project@.len() as int) =~= project@);
        assert(views(list@) =~= affix_variants(project@));
    }
    let n = if project.len() < 32 {
        project.len()
    } else {
        32
    };
    let edits = edits_exec(project, n);
    let ghost lv = views(list@);
    let ghost ev = views(edits@);
    let mut edits = edits;
    list.append(&mut edits);
    proof {
        assert(views(list@) =~= lv + ev);
    }
    let mut set = NameSet::new();
    insert_all_vec(&mut set, list);
    set.items
}


/// The first `n` elements of `s` (all of them when `s` is shorter).
pub open spec fn take_upto<A>(s: Seq<A>, n: int) -> Seq<A> {
    if n < s.len() {
        s.take(n)
    } else {
        s
    }
}

/// The elements of `s` other than `x`, in order.
pub open spec fn without(s: Seq<Seq<char>>, x: Seq<char>) -> Seq<Seq<char>>
    decreases s.len(),
{
    if s.len() == 0 {
        s
    } else if s.last() == x {
        without(s.drop_last(), x)
    } else {
        without(s.drop_last(), x).push(s.last())
    }
}

/// Candidates for a name without an owner: its variants other than itself.
pub open spec fn package_candidates_spec(name: Seq<char>) -> Seq<Seq<char>> {
    take_upto(without(project_variants_spec(name), name), 256)
}

/// Inserting `owner/<project>` for the projects from position `k` on, skipping
/// the requested name and stopping once the set holds 256 names.
pub open spec fn owner_pass(
    set: Seq<Seq<char>>,
    owner: Seq<char>,
    projects: Seq<Seq<char>>,
    name: Seq<char>,
    k: int,
) -> Seq<Seq<char>>
    decreases projects.len() - k,
{
    if k < 0 || k >= projects.len() {
        set
    } else {
        let v = owner + "/"@ + projects[k];
        let s2 = if v != name {
            set_insert(set, v)
        } else {
            set
        };
        if s2.len() >= 256 {
            s2
        } else {
            owner_pass(s2, owner, projects, name, k + 1)
        }
    }
}

/// One owner pass after another, for the owners from position `i` on.
pub open spec fn owners_pass(
    set: Seq<Seq<char>>,
    owners: Seq<Seq<char>>,
    projects: Seq<Seq<char>>,
    name: Seq<char>,
    i: int,
) -> Seq<Seq<char>>
    decreases owners.len() - i,
{
    if i < 0 || i >= owners.len() {
        set
    } else {
        owners_pass(owner_pass(set, owners[i], projects, name, 0), owners, projects, name, i + 1)
    }
}

/// The owners tried for `owner/project`: the owner itself, then the project
/// name and three affixed forms of it.
pub open spec fn candidate_owners(owner: Seq<char>, project: Seq<char>) -> Seq<Seq<char>> {
    seq![owner, project, project + "-ai"@, project + "hq"@, project + "-official"@]
}

/// The HalluSquat candidates of a component, sorted and at most 256.
pub open spec fn hallusquat_spec(name: Seq<char>) -> Seq<Seq<char>> {
    match crate::identity::owner_project_of(name) {
        None => package_candidates_spec(name),
        Some((o, p)) => take_upto(
            owners_pass(
                Seq::<Seq<char>>::empty(),
                candidate_owners(o, p),
                project_variants_spec(p),
                name,
                0,
            ),
            256,
        ),
    }
}

fn package_candidates(name: &[char]) -> (out: Vec<String>)
    ensures
        strings_view(out@) == package_candidates_spec(name@),
{
    let variants = project_variants(name);
    let ghost all = views(variants@);
    let mut kept = NameSet::new();
    let mut i: usize = 0;
    while i < variants.len()
        invariant
            i <= variants.len(),
            all == views(variants@),
            kept.view_items() == without(all.take(i as int), name@),
        decreases variants.len() - i,
    {
        proof {
            assert(all.take(i + 1).drop_last() =~= all.take(i as int));
            assert(all.take(i + 1).last() == variants@[i as int]@);
        }
        if !chars_eq(variants[i].as_slice(), name) {
            let ghost before = kept.view_items();
            let x = slice_chars(variants[i].as_slice(), 0, variants[i].len());
            proof {
                assert(x@ =~= variants@[i as int]@);
            }
            kept.items.push(x);
            proof {
                assert(kept.view_items() =~= before.push(x@));
            }
        }
        i += 1;
    }
    proof {
        assert(all.take(variants.len() as int) =~= all);
    }
    kept.take_strings(MAX_HALLUSQUAT_CANDIDATES)
}

fn owner_slash(owner: &[char], project: &[char]) -> (out: Vec<char>)
    ensures
        out@ == owner@ + "/"@ + project@,
{
    let mut out = slice_chars(owner, 0, owner.len());
    out.push('/');
    append_chars(&mut out, project);
    proof {
        reveal_strlit("/");
        assert(out@ =~= owner@ + "/"@ + project@);
    }
    out
}

fn run_owner_pass(set: &mut NameSet, owner: &[char], projects: &Vec<Vec<char>>, name: &[char])
    ensures
        final(set).view_items() == owner_pass(old(set).view_items(), owner@, views(projects@), name@, 0),
{
    let ghost pv = views(projects@);
    let ghost target = owner_pass(set.view_items(), owner@, pv, name@, 0);
    let mut k: usize = 0;
    while k < projects.len()
        invariant
            k <= projects.len(),
            pv == views(projects@),
            target == owner_pass(old(set).view_items(), owner@, pv, name@, 0),
            target == owner_pass(set.view_items(), owner@, pv, name@, k as int),
        decreases projects.len() - k,
    {
        proof {
            assert(pv[k as int] == projects@[k as int]@);
        }
        let ghost before = set.view_items();
        let v = owner_slash(owner, projects[k].as_slice());
        if !chars_eq(v.as_slice(), name) {
            set.insert(v);
        }
        proof {
            let vv = owner@ + "/"@ + pv[k as int];
            let s2 = if vv != name@ {
                set_insert(before, vv)
            } else {
                before
            };
            assert(set.view_items() == s2);
        }
        if set.len() >= MAX_HALLUSQUAT_CANDIDATES {
            proof {
                assert(owner_pass(before, owner@, pv, name@, k as int) == set.view_items());
                assert(target == set.view_items());
            }
            return;
        }
        k += 1;
    }
}

fn concat_text(a: &str, b: &str) -> (out: Vec<char>)
    ensures
        out@ == a@ + b@,
{
    let mut out = chars_of(a);
    append_str(&mut out, b);
    out
}

/// Generates bounded transferable owner/project hallucination candidates.
pub fn hallusquat_candidates(component: &ComponentRef) -> (out: Vec<String>)
    ensures
        strings_view(out@) == hallusquat_spec(component.name@),
{
    let name = chars_of(component.name.as_str());
    let (owner, project) = match component.owner_project() {
        None => return package_candidates(name.as_slice()),
        Some((o, p)) => (o, p),
    };
    let projects = project_variants(&chars_of(project));
    let mut owners: Vec<Vec<char>> = Vec::new();
    owners.push(chars_of(owner));
    owners.push(chars_of(project));
    owners.push(concat_text(project, "-ai"));
    owners.push(concat_text(project, "hq"));
    owners.push(concat_text(project, "-official"));
    let ghost ov = views(owners@);
    proof {
        assert(ov =~= candidate_owners(owner@, project@));
    }
    let mut set = NameSet::new();
    let mut i: usize = 0;
    let ghost target = owners_pass(set.view_items(), ov, views(projects@), name@, 0);
    while i < owners.len()
        invariant
            i <= owners.len(),
            ov == views(owners@),
            target == owners_pass(set.view_items(), ov, views(projects@), name@, i as int),
        decreases owners.len() - i,
    {
        proof {
            assert(ov[i as int] == owners@[i as int]@);
        }
        run_owner_pass(&mut set, owners[i].as_slice(), &projects, name.as_slice());
        i += 1;
    }
    set.take_strings(MAX_HALLUSQUAT_CANDIDATES)
}


// ---------------------------------------------------------------------------
// Trusted items: edit distance and RFC 3339 time text
// ---------------------------------------------------------------------------

/// The Levenshtein distance between two texts, counted in characters: the
/// fewest single-character insertions, deletions and substitutions that
/// turn one into the other.
pub open spec fn levenshtein(a: Seq<char>, b: Seq<char>) -> nat
    decreases a.len() + b.len(),
{
    if a.len() == 0 {
        b.len()
    } else if b.len() == 0 {
        a.len()
    } else {
        let del = levenshtein(a.drop_last(), b) + 1;
        let ins = levenshtein(a, b.drop_last()) + 1;
        let sub = levenshtein(a.drop_last(), b.drop_last()) + if a.last() == b.last() {
            0nat
        } else {
            1nat
        };
        if del <= ins && del <= sub {
            del
        } else if ins <= sub {
            ins
        } else {
            sub
        }
    }
}

/// `strsim::levenshtein`: the contract claims that the result is the
/// Levenshtein distance of the two texts, counted in characters.
#[verifier::external_body]
fn edit_distance(a: &str, b: &str) -> (d: usize)
    ensures
        d == levenshtein(a@, b@),
{
    strsim::levenshtein(a, b)
}

/// The instant an RFC 3339 text denotes, in UTC (`None` when chrono refuses it).
pub uninterp spec fn rfc3339_instant(text: Seq<char>) -> Option<Timestamp>;

/// `chrono::DateTime::parse_from_rfc3339` converted to UTC: the contract
/// claims only that the result is a function of the text, named
/// `rfc3339_instant`.
#[verifier::external_body]
pub fn parse_time(text: &str) -> (r: Option<Timestamp>)
    ensures
        r == rfc3339_instant(text@),
{
    let t = chrono::DateTime::parse_from_rfc3339(text).ok()?.with_timezone(&chrono::Utc);
    Some(Timestamp { seconds: t.timestamp(), nanos: t.timestamp_subsec_nanos() })
}

/// The RFC 3339 text chrono writes for an instant (`None` outside chrono's range).
pub uninterp spec fn rfc3339_text(t: Timestamp) -> Option<Seq<char>>;

/// `chrono::DateTime::<Utc>::from_timestamp` followed by `to_rfc3339`: the
/// contract claims only that the text is a function of the instant, named
/// `rfc3339_text`.
#[verifier::external_body]
pub fn format_time(t: &Timestamp) -> (r: Option<String>)
    ensures
        opt_view(r) == rfc3339_text(*t),
{
    chrono::DateTime::<chrono::Utc>::from_timestamp(t.seconds, t.nanos).map(|d| d.to_rfc3339())
}

/// The RFC 3339 text of `t`, empty when chrono cannot represent it.
pub open spec fn time_text(t: Timestamp) -> Seq<char> {
    match rfc3339_text(t) {
        Some(x) => x,
        None => Seq::<char>::empty(),
    }
}

fn time_text_exec(t: &Timestamp) -> (out: Vec<char>)
    ensures
        out@ == time_text(*t),
{
    match format_time(t) {
        Some(s) => chars_of(s.as_str()),
        None => Vec::new(),
    }
}

// ---------------------------------------------------------------------------
// Signals and evidence helpers
// ---------------------------------------------------------------------------

pub open spec fn signal_view(
    code: Seq<char>,
    severity: Severity,
    message: Seq<char>,
    remediation: Seq<char>,
) -> SignalView {
    SignalView { code, severity, message, evidence_source: None, remediation }
}

/// A signal without an evidence source.
pub fn signal(code: &str, severity: Severity, message: &str, remediation: &str) -> (s: Signal)
    ensures
        s@ == signal_view(code@, severity, message@, remediation@),
{
    Signal {
        code: String::from_str(code),
        severity,
        message: String::from_str(message),
        evidence_source: None,
        remediation: String::from_str(remediation),
    }
}

/// Weak evidence recording that a provider could not establish anything.
pub fn unavailable_evidence(source: &str, claim: &str, observed_at: Timestamp) -> (e: Evidence)
    ensures
        e@ == (EvidenceView {
            kind: EvidenceKind::Unavailable,
            source: source@,
            claim: claim@,
            strength: EvidenceStrength::Weak,
            observed_at,
            expires_at: None,
            metadata: Seq::<(Seq<char>, Seq<char>)>::empty(),
        }),
{
    let e = Evidence {
        kind: EvidenceKind::Unavailable,
        source: String::from_str(source),
        claim: String::from_str(claim),
        strength: EvidenceStrength::Weak,
        observed_at,
        expires_at: None,
        metadata: Vec::new(),
    };
    proof {
        assert(pairs_view(e.metadata@) =~= Seq::<(Seq<char>, Seq<char>)>::empty());
    }
    e
}

// ---------------------------------------------------------------------------
// Identity comparison
// ---------------------------------------------------------------------------

/// The similarity `1 - d / m` as a percentage, rounded half to even, as
/// `{:.0}` prints it.
pub open spec fn similarity_percent(d: nat, m: nat) -> nat {
    let num: int = 100 * (m - d);
    let q: int = num / (m as int);
    let r: int = num % (m as int);
    if 2 * r > m || (2 * r == m && q % 2 == 1) {
        (q + 1) as nat
    } else {
        q as nat
    }
}

/// `normalized_levenshtein >= 0.82`, with the similarity `1 - d / m` where
/// `m` is the longer length in characters: exactly `50 d <= 9 m`.
pub open spec fn similar(d: nat, m: nat) -> bool {
    50 * d <= 9 * m
}

pub open spec fn max_nat(a: nat, b: nat) -> nat {
    if a < b {
        b
    } else {
        a
    }
}

pub open spec fn mismatch_signal(req: ComponentId, can: ComponentId) -> SignalView {
    signal_view(
        "RS-IDENTITY-MISMATCH"@,
        Severity::Critical,
        "Requested "@ + id_of(req) + " but authoritative evidence points to "@ + id_of(can),
        "Use the canonical identity or add a narrowly reviewed policy exception"@,
    )
}

pub open spec fn similarity_signal(percent: nat) -> SignalView {
    signal_view(
        "RS-HALLUSQUAT-NAME-SIMILARITY"@,
        Severity::High,
        "Requested identity is "@ + decimal(percent) + "% similar to canonical"@,
        "Use the exact canonical owner and project/package spelling"@,
    )
}

/// The signals comparing a requested identity with the canonical one.
pub open spec fn comparison_signals(req: ComponentId, canonical: Option<ComponentId>) -> Seq<
    SignalView,
> {
    match canonical {
        None => Seq::<SignalView>::empty(),
        Some(can) => {
            let d = levenshtein(req.name, can.name);
            let m = max_nat(req.name.len(), can.name.len());
            (if req.ecosystem == can.ecosystem && req.name != can.name {
                seq![mismatch_signal(req, can)]
            } else {
                Seq::<SignalView>::empty()
            }) + (if req.name != can.name && m > 0 && d <= m && similar(d, m) {
                seq![similarity_signal(similarity_percent(d, m))]
            } else {
                Seq::<SignalView>::empty()
            })
        },
    }
}

fn percent_exec(d: usize, m: usize) -> (p: u64)
    requires
        0 < m,
        d <= m,
    ensures
        p == similarity_percent(d as nat, m as nat),
{
    let num: u128 = 100u128 * ((m - d) as u128);
    let q = num / (m as u128);
    let r = num % (m as u128);
    let rounded = if 2 * r > (m as u128) || (2 * r == (m as u128) && q % 2 == 1) {
        q + 1
    } else {
        q
    };
    proof {
        assert(q <= 100) by (nonlinear_arith)
            requires
                num <= 100 * m,
                q == num / (m as u128),
                m > 0,
        ;
    }
    rounded as u64
}

/// Adds identity-mismatch and name-similarity signals after resolution.
pub fn apply_identity_comparison(requested: &ComponentRef, resolution: &mut Resolution)
    ensures
        signals_view(final(resolution).signals@) == signals_view(old(resolution).signals@)
            + comparison_signals(requested@, opt_component_view(old(resolution).canonical)),
        final(resolution).canonical == old(resolution).canonical,
        final(resolution).evidence == old(resolution).evidence,
        final(resolution).hallusquat_candidates == old(resolution).hallusquat_candidates,
{
    let ghost start = signals_view(resolution.signals@);
    let canonical = match &resolution.canonical {
        None => {
            proof {
                assert(start + Seq::<SignalView>::empty() =~= start);
            }
            return;
        },
        Some(c) => c.clone_ref(),
    };
    let same_name = requested.name == canonical.name;
    if requested.ecosystem == canonical.ecosystem && !same_name {
        let mut msg = chars_of("Requested ");
        let rid = requested.id();
        append_str(&mut msg, rid.as_str());
        append_str(&mut msg, " but authoritative evidence points to ");
        let cid = canonical.id();
        append_str(&mut msg, cid.as_str());
        let m = string_of(msg.as_slice());
        resolution.signals.push(
            Signal {
                code: String::from_str("RS-IDENTITY-MISMATCH"),
                severity: Severity::Critical,
                message: m,
                evidence_source: None,
                remediation: String::from_str(
                    "Use the canonical identity or add a narrowly reviewed policy exception",
                ),
            },
        );
    }
    let ghost mid = signals_view(resolution.signals@);
    let a = chars_of(requested.name.as_str());
    let b = chars_of(canonical.name.as_str());
    let d = edit_distance(requested.name.as_str(), canonical.name.as_str());
    let m = if a.len() < b.len() {
        b.len()
    } else {
        a.len()
    };
    if !same_name && m > 0 && d <= m && (d as u128) * 50 <= (m as u128) * 9 {
        let p = percent_exec(d, m);
        let mut msg = chars_of("Requested identity is ");
        let digits = decimal_chars(p);
        append_chars(&mut msg, digits.as_slice());
        append_str(&mut msg, "% similar to canonical");
        let text = string_of(msg.as_slice());
        resolution.signals.push(
            Signal {
                code: String::from_str("RS-HALLUSQUAT-NAME-SIMILARITY"),
                severity: Severity::High,
                message: text,
                evidence_source: None,
                remediation: String::from_str(
                    "Use the exact canonical owner and project/package spelling",
                ),
            },
        );
    }
    proof {
        let req = requested@;
        let can = canonical@;
        assert(opt_component_view(old(resolution).canonical) == Some(can));
        assert(mid =~= start + (if req.ecosystem == can.ecosystem && req.name != can.name {
            seq![mismatch_signal(req, can)]
        } else {
            Seq::<SignalView>::empty()
        }));
        assert(signals_view(resolution.signals@) =~= start + comparison_signals(req, Some(can)));
    }
}


// ---------------------------------------------------------------------------
// GitHub repository profiles
// ---------------------------------------------------------------------------

/// Provider, metadata, or identity-resolution error.
#[derive(Clone, Debug, PartialEq, Eq)]
pub enum ResolveError {
    /// Component identity was not valid for this provider.
    InvalidIdentity,
    /// Provider returned missing required fields.
    MalformedProvider,
    /// Core identity validation failed.
    Core(CoreError),
}

/// The repository facts read from GitHub.
#[derive(Clone, Debug, PartialEq, Eq)]
pub struct GithubProfile {
    pub full_name: String,
    pub created_at: Timestamp,
    pub pushed_at: Option<Timestamp>,
    pub stars: u64,
    pub forks: u64,
    pub archived: bool,
    pub fork: bool,
    pub default_branch: String,
}

pub open spec fn day_nanos() -> int {
    86_400_000_000_000
}

pub open spec fn bool_text(b: bool) -> Seq<char> {
    if b {
        "true"@
    } else {
        "false"@
    }
}

fn bool_text_exec(b: bool) -> (out: Vec<char>)
    ensures
        out@ == bool_text(b),
{
    if b {
        chars_of("true")
    } else {
        chars_of("false")
    }
}

/// The signals a repository profile raises at `now`: very young (under a day)
/// or young (under 30 days), fork, archived.
pub open spec fn profile_signals(p: GithubProfile, now: Timestamp) -> Seq<SignalView> {
    let age = nanos_of(now) - nanos_of(p.created_at);
    (if age < day_nanos() {
        seq![
            signal_view(
                "RS-REPOSITORY-VERY-YOUNG"@,
                Severity::Critical,
                "Repository was created less than 24 hours ago"@,
                "Verify the project through authoritative documentation and maintainer channels"@,
            ),
        ]
    } else if age < 30 * day_nanos() {
        seq![
            signal_view(
                "RS-REPOSITORY-YOUNG"@,
                Severity::High,
                "Repository was created less than 30 days ago"@,
                "Require explicit review and independent canonical-source evidence"@,
            ),
        ]
    } else {
        Seq::<SignalView>::empty()
    }) + (if p.fork {
        seq![
            signal_view(
                "RS-REPOSITORY-FORK"@,
                Severity::Medium,
                "Requested repository is a fork"@,
                "Confirm that the fork\u{2014}not its upstream\u{2014}is explicitly intended"@,
            ),
        ]
    } else {
        Seq::<SignalView>::empty()
    }) + (if p.archived {
        seq![
            signal_view(
                "RS-REPOSITORY-ARCHIVED"@,
                Severity::Medium,
                "Requested repository is archived"@,
                "Confirm the maintained successor from official project documentation"@,
            ),
        ]
    } else {
        Seq::<SignalView>::empty()
    })
}

/// The claim recorded for a repository profile.
pub open spec fn profile_claim(p: GithubProfile) -> Seq<char> {
    "GitHub identifies "@ + p.full_name@ + " with "@ + decimal(p.stars as nat) + " stars, "@
        + decimal(p.forks as nat) + " forks, created "@ + time_text(p.created_at)
}

/// The metadata recorded for a repository profile, ordered by key.
pub open spec fn profile_metadata(p: GithubProfile) -> Seq<(Seq<char>, Seq<char>)> {
    seq![
        ("archived"@, bool_text(p.archived)),
        ("created_at"@, time_text(p.created_at)),
        ("default_branch"@, p.default_branch@),
        ("fork"@, bool_text(p.fork)),
        ("forks"@, decimal(p.forks as nat)),
        ("full_name"@, p.full_name@),
        (
            "pushed_at"@,
            match p.pushed_at {
                Some(t) => time_text(t),
                None => Seq::<char>::empty(),
            },
        ),
        ("stars"@, decimal(p.stars as nat)),
    ]
}

pub open spec fn plus_seconds_spec(t: Timestamp, s: int) -> Option<Timestamp> {
    if i64::MIN <= t.seconds + s <= i64::MAX {
        Some(Timestamp { seconds: (t.seconds + s) as i64, nanos: t.nanos })
    } else {
        None
    }
}

pub open spec fn profile_evidence(p: GithubProfile, source: Seq<char>, now: Timestamp) -> EvidenceView {
    EvidenceView {
        kind: EvidenceKind::Repository,
        source,
        claim: profile_claim(p),
        strength: EvidenceStrength::Supporting,
        observed_at: now,
        expires_at: plus_seconds_spec(now, 900),
        metadata: profile_metadata(p),
    }
}

fn later(now: &Timestamp, seconds: i64) -> (r: Option<Timestamp>)
    ensures
        r == plus_seconds_spec(*now, seconds as int),
{
    now.plus_seconds(seconds)
}

fn pair(k: &str, v: Vec<char>) -> (out: (String, String))
    ensures
        out.0@ == k@,
        out.1@ == v@,
{
    (String::from_str(k), string_of(v.as_slice()))
}

impl GithubProfile {
    /// Builds a profile from the fields GitHub reported: the full name is
    /// lowercased; a missing name or unparsable creation time is malformed;
    /// absent counters default to zero, flags to false, the branch to `unknown`.
    pub fn from_fields(
        full_name: Option<&str>,
        created_at: Option<&str>,
        pushed_at: Option<&str>,
        stars: Option<u64>,
        forks: Option<u64>,
        archived: Option<bool>,
        fork: Option<bool>,
        default_branch: Option<&str>,
    ) -> (r: Result<GithubProfile, ResolveError>)
        ensures
            match (full_name, created_at) {
                (Some(n), Some(c)) => match rfc3339_instant(c@) {
                    Some(t) => r matches Ok(p) && p.full_name@ == lower(n@) && p.created_at == t
                        && p.pushed_at == (match pushed_at {
                        Some(x) => rfc3339_instant(x@),
                        None => None,
                    }) && p.stars == (match stars {
                        Some(v) => v,
                        None => 0,
                    }) && p.forks == (match forks {
                        Some(v) => v,
                        None => 0,
                    }) && p.archived == (archived == Some(true)) && p.fork == (fork == Some(
                        true,
                    )) && p.default_branch@ == (match default_branch {
                        Some(b) => b@,
                        None => "unknown"@,
                    }),
                    None => r == Err::<GithubProfile, ResolveError>(ResolveError::MalformedProvider),
                },
                _ => r == Err::<GithubProfile, ResolveError>(ResolveError::MalformedProvider),
            },
    {
        let name = match full_name {
            Some(n) => n,
            None => return Err(ResolveError::MalformedProvider),
        };
        let created_text = match created_at {
            Some(c) => c,
            None => return Err(ResolveError::MalformedProvider),
        };
        let lowered = lower_chars(chars_of(name).as_slice());
        let created = match parse_time(created_text) {
            Some(t) => t,
            None => return Err(ResolveError::MalformedProvider),
        };
        let pushed = match pushed_at {
            Some(x) => parse_time(x),
            None => None,
        };
        Ok(
            GithubProfile {
                full_name: string_of(lowered.as_slice()),
                created_at: created,
                pushed_at: pushed,
                stars: match stars {
                    Some(v) => v,
                    None => 0,
                },
                forks: match forks {
                    Some(v) => v,
                    None => 0,
                },
                archived: match archived {
                    Some(v) => v,
                    None => false,
                },
                fork: match fork {
                    Some(v) => v,
                    None => false,
                },
                default_branch: match default_branch {
                    Some(b) => String::from_str(b),
                    None => String::from_str("unknown"),
                },
            },
        )
    }

    /// The evidence this profile provides, observed at `now`.
    pub fn evidence(&self, source: &str, now: Timestamp) -> (e: Evidence)
        ensures
            e@ == profile_evidence(*self, source@, now),
    {
        let name = chars_of(self.full_name.as_str());
        let stars = decimal_chars(self.stars);
        let forks = decimal_chars(self.forks);
        let created = time_text_exec(&self.created_at);
        let mut claim = chars_of("GitHub identifies ");
        append_chars(&mut claim, name.as_slice());
        append_str(&mut claim, " with ");
        append_chars(&mut claim, stars.as_slice());
        append_str(&mut claim, " stars, ");
        append_chars(&mut claim, forks.as_slice());
        append_str(&mut claim, " forks, created ");
        append_chars(&mut claim, created.as_slice());
        let pushed = match &self.pushed_at {
            Some(t) => time_text_exec(t),
            None => Vec::new(),
        };
        let mut metadata: Vec<(String, String)> = Vec::new();
        metadata.push(pair("archived", bool_text_exec(self.archived)));
        metadata.push(pair("created_at", created));
        metadata.push(pair("default_branch", chars_of(self.default_branch.as_str())));
        metadata.push(pair("fork", bool_text_exec(self.fork)));
        metadata.push(pair("forks", forks));
        metadata.push(pair("full_name", name));
        metadata.push(pair("pushed_at", pushed));
        metadata.push(pair("stars", stars));
        let e = Evidence {
            kind: EvidenceKind::Repository,
            source: String::from_str(source),
            claim: string_of(claim.as_slice()),
            strength: EvidenceStrength::Supporting,
            observed_at: now,
            expires_at: later(&now, 900),
            metadata,
        };
        proof {
            assert(e@.claim =~= profile_claim(*self));
            assert(pairs_view(e.metadata@) =~= profile_metadata(*self));
        }
        e
    }

    /// The age, fork, and archive signals of this profile at `now`.
    pub fn signals(&self, now: Timestamp) -> (out: Vec<Signal>)
        ensures
            signals_view(out@) == profile_signals(*self, now),
    {
        let age = now.nanos_since(&self.created_at);
        let day: i128 = 86_400_000_000_000;
        let mut out: Vec<Signal> = Vec::new();
        if age < day {
            out.push(
                signal(
                    "RS-REPOSITORY-VERY-YOUNG",
                    Severity::Critical,
                    "Repository was created less than 24 hours ago",
                    "Verify the project through authoritative documentation and maintainer channels",
                ),
            );
        } else if age < 30 * day {
            out.push(
                signal(
                    "RS-REPOSITORY-YOUNG",
                    Severity::High,
                    "Repository was created less than 30 days ago",
                    "Require explicit review and independent canonical-source evidence",
                ),
            );
        }
        let ghost a = signals_view(out@);
        if self.fork {
            out.push(
                signal(
                    "RS-REPOSITORY-FORK",
                    Severity::Medium,
                    "Requested repository is a fork",
                    "Confirm that the fork\u{2014}not its upstream\u{2014}is explicitly intended",
                ),
            );
        }
        let ghost b = signals_view(out@);
        if self.archived {
            out.push(
                signal(
                    "RS-REPOSITORY-ARCHIVED",
                    Severity::Medium,
                    "Requested repository is archived",
                    "Confirm the maintained successor from official project documentation",
                ),
            );
        }
        proof {
            assert(signals_view(out@) =~= profile_signals(*self, now));
        }
        out
    }
}


// ---------------------------------------------------------------------------
// Canonical GitHub owner search
// ---------------------------------------------------------------------------

pub open spec fn project_part(full_name: Seq<char>) -> Seq<char> {
    match crate::identity::owner_project_of(full_name) {
        Some((_, p)) => p,
        None => Seq::<char>::empty(),
    }
}

/// A search result is an established canonical alternative to `requested`:
/// another repository with the same project name (ASCII case-insensitive),
/// at least twenty times the stars (and at least 1000), created more than 90
/// days earlier.
pub open spec fn established_alternative(
    project: Seq<char>,
    requested: GithubProfile,
    c: GithubProfile,
) -> bool {
    let threshold = if requested.stars * 20 > u64::MAX {
        u64::MAX as int
    } else {
        requested.stars * 20
    };
    let needed = if threshold > 1000 {
        threshold
    } else {
        1000
    };
    &&& lower(c.full_name@) != lower(requested.full_name@)
    &&& lower(project_part(c.full_name@)) == lower(project)
    &&& c.stars >= needed
    &&& nanos_of(c.created_at) + 90 * day_nanos() < nanos_of(requested.created_at)
}

/// What makes a search result an acceptable stand-in for the requested
/// repository, in the terms of its fields.
pub open spec fn outranks(project: Seq<char>, requested: GithubProfile, c: GithubProfile) -> bool {
    &&& c.stars >= 1000
    &&& (c.stars >= 20 * requested.stars || c.stars == u64::MAX)
    &&& c.stars >= requested.stars
    &&& nanos_of(c.created_at) + 7_776_000_000_000_000 < nanos_of(requested.created_at)
    &&& lower(c.full_name@) != lower(requested.full_name@)
    &&& lower(project_part(c.full_name@)) == lower(project)
}

proof fn lemma_alternative_from(
    project: Seq<char>,
    requested: GithubProfile,
    items: Seq<GithubProfile>,
    i: int,
)
    requires
        0 <= i <= items.len(),
    ensures
        match first_alternative(project, requested, items, i) {
            Some(c) => (exists|j: int| i <= j < items.len() && items[j] == c) && outranks(
                project,
                requested,
                c,
            ),
            None => forall|j: int|
                i <= j < items.len() ==> !({
                    let c = #[trigger] items[j];
                    &&& c.stars >= 1000
                    &&& c.stars >= 20 * requested.stars
                    &&& nanos_of(c.created_at) + 7_776_000_000_000_000 < nanos_of(
                        requested.created_at,
                    )
                    &&& lower(c.full_name@) != lower(requested.full_name@)
                    &&& lower(project_part(c.full_name@)) == lower(project)
                }),
        },
    decreases items.len() - i,
{
    if i < items.len() {
        lemma_alternative_from(project, requested, items, i + 1);
        assert(90 * day_nanos() == 7_776_000_000_000_000);
    }
}

/// A search result is chosen to stand in for the requested repository only
/// when it is another repository of the same project name with at least
/// twenty times the requested stars (all that a `u64` holds, when twenty
/// times is more) and at least 1000 stars, created more than 90 days
/// earlier; in particular never one with fewer stars than the requested
/// repository. When no result is chosen, none has those qualities.
pub proof fn law_alternative_is_established(
    project: Seq<char>,
    requested: GithubProfile,
    items: Seq<GithubProfile>,
)
    ensures
        match first_alternative(project, requested, items, 0) {
            Some(c) => (exists|j: int| 0 <= j < items.len() && items[j] == c) && outranks(
                project,
                requested,
                c,
            ),
            None => forall|j: int|
                0 <= j < items.len() ==> !({
                    let c = #[trigger] items[j];
                    &&& c.stars >= 1000
                    &&& c.stars >= 20 * requested.stars
                    &&& nanos_of(c.created_at) + 7_776_000_000_000_000 < nanos_of(
                        requested.created_at,
                    )
                    &&& lower(c.full_name@) != lower(requested.full_name@)
                    &&& lower(project_part(c.full_name@)) == lower(project)
                }),
        },
{
    lemma_alternative_from(project, requested, items, 0);
}

/// The first established alternative among `items` from position `i`.
pub open spec fn first_alternative(
    project: Seq<char>,
    requested: GithubProfile,
    items: Seq<GithubProfile>,
    i: int,
) -> Option<GithubProfile>
    decreases items.len() - i,
{
    if i < 0 || i >= items.len() {
        None
    } else if established_alternative(project, requested, items[i]) {
        Some(items[i])
    } else {
        first_alternative(project, requested, items, i + 1)
    }
}

fn lower_eq(a: &str, b: &str) -> (r: bool)
    ensures
        r == (lower(a@) == lower(b@)),
{
    let x = lower_chars(chars_of(a).as_slice());
    let y = lower_chars(chars_of(b).as_slice());
    chars_eq(x.as_slice(), y.as_slice())
}

fn project_part_exec(full_name: &String) -> (r: String)
    ensures
        r@ == project_part(full_name@),
{
    let c = ComponentRef { ecosystem: crate::identity::Ecosystem::Github, name: full_name.clone(), version: None };
    match c.owner_project() {
        Some((_, p)) => String::from_str(p),
        None => String::new(),
    }
}

/// Whether `application/x-www-form-urlencoded` keeps the byte as it is.
pub open spec fn form_unreserved(b: u8) -> bool {
    b == 42 || b == 45 || b == 46 || (48 <= b && b <= 57) || (65 <= b && b <= 90) || b == 95 || (
    97 <= b && b <= 122)
}

pub open spec fn upper_hex(v: nat) -> char {
    if v < 10 {
        (48 + v) as char
    } else {
        (55 + v) as char
    }
}

/// `form_urlencoded::byte_serialize`: unreserved bytes as they are, a space
/// as `+`, any other byte as `%` and two uppercase hex digits.
pub open spec fn form_encoded(bytes: Seq<u8>) -> Seq<char>
    decreases bytes.len(),
{
    if bytes.len() == 0 {
        Seq::<char>::empty()
    } else {
        let b = bytes.last();
        form_encoded(bytes.drop_last()) + if form_unreserved(b) {
            seq![b as char]
        } else if b == 32 {
            seq!['+']
        } else {
            seq!['%', upper_hex((b / 16) as nat), upper_hex((b % 16) as nat)]
        }
    }
}

/// `url::form_urlencoded::byte_serialize` of the UTF-8 bytes of `value`,
/// collected into a string; the contract states its documented encoding.
#[verifier::external_body]
fn form_encode(value: &str) -> (r: String)
    ensures
        r@ == form_encoded(vstd::utf8::encode_utf8(value@)),
{
    url::form_urlencoded::byte_serialize(value.as_bytes()).collect::<String>()
}

/// The GitHub repository search address for `project`, as the `url` crate
/// writes it with the query pairs `q = "<project> in:name"`, `sort = stars`,
/// `order = desc` and `per_page = 10`.
pub open spec fn github_search_address(project: Seq<char>) -> Seq<char> {
    "https://api.github.com/search/repositories?q="@ + form_encoded(
        vstd::utf8::encode_utf8(project + " in:name"@),
    ) + "&sort=stars&order=desc&per_page=10"@
}

/// The address that searches GitHub for repositories named like the
/// requested project.
pub fn github_search_url(project: &str) -> (r: String)
    ensures
        r@ == github_search_address(project@),
{
    let mut q = chars_of(project);
    append_str(&mut q, " in:name");
    let query = string_of(q.as_slice());
    let encoded = form_encode(query.as_str());
    let mut out = chars_of("https://api.github.com/search/repositories?q=");
    append_str(&mut out, encoded.as_str());
    append_str(&mut out, "&sort=stars&order=desc&per_page=10");
    string_of(out.as_slice())
}

/// The older, far more popular repository with the same project name that
/// the search results identify as canonical, if any.
pub fn select_canonical_github(project: &str, requested: &GithubProfile, items: &Vec<GithubProfile>) -> (r:
    Option<usize>)
    ensures
        match first_alternative(project@, *requested, items@, 0) {
            Some(c) => r matches Some(i) && i < items@.len() && items@[i as int] == c,
            None => r is None,
        },
{
    let mut i: usize = 0;
    while i < items.len()
        invariant
            i <= items.len(),
            first_alternative(project@, *requested, items@, 0) == first_alternative(
                project@,
                *requested,
                items@,
                i as int,
            ),
        decreases items.len() - i,
    {
        let c = &items[i];
        let same = lower_eq(c.full_name.as_str(), requested.full_name.as_str());
        let part = project_part_exec(&c.full_name);
        let threshold = match requested.stars.checked_mul(20) {
            Some(t) => t,
            None => u64::MAX,
        };
        let needed = if threshold > 1000 {
            threshold
        } else {
            1000
        };
        let older = c.created_at.nanos_since(&requested.created_at) < -7_776_000_000_000_000i128;
        if !same && lower_eq(part.as_str(), project) && c.stars >= needed && older {
            return Some(i);
        }
        i += 1;
    }
    None
}


// ---------------------------------------------------------------------------
// Provider results
// ---------------------------------------------------------------------------

pub open spec fn canonical_view(r: Resolution) -> Option<ComponentId> {
    opt_component_view(r.canonical)
}

/// The GitHub API address of a repository.
pub open spec fn github_api_url_spec(name: Seq<char>) -> Option<Seq<char>> {
    match crate::identity::owner_project_of(name) {
        Some((o, p)) => Some("https://api.github.com/repos/"@ + o + "/"@ + p),
        None => None,
    }
}

/// The outcome of a repository search whose results were read in order:
/// `items` holds the results read before the first malformed one (all of
/// them when `malformed` is false). An established alternative among them
/// is chosen; failing that, a malformed result makes the search fail.
pub fn search_outcome(
    project: &str,
    requested: &GithubProfile,
    items: &Vec<GithubProfile>,
    malformed: bool,
) -> (r: Result<Option<usize>, ResolveError>)
    ensures
        match first_alternative(project@, *requested, items@, 0) {
            Some(c) => r matches Ok(Some(i)) && i < items@.len() && items@[i as int] == c,
            None => r == (if malformed {
                Err::<Option<usize>, ResolveError>(ResolveError::MalformedProvider)
            } else {
                Ok::<Option<usize>, ResolveError>(None)
            }),
        },
{
    match select_canonical_github(project, requested, items) {
        Some(i) => Ok(Some(i)),
        None => {
            if malformed {
                Err(ResolveError::MalformedProvider)
            } else {
                Ok(None)
            }
        },
    }
}

pub fn github_api_url(requested: &ComponentRef) -> (r: Result<String, ResolveError>)
    ensures
        match github_api_url_spec(requested.name@) {
            Some(u) => r matches Ok(s) && s@ == u,
            None => r == Err::<String, ResolveError>(ResolveError::InvalidIdentity),
        },
{
    match requested.owner_project() {
        None => Err(ResolveError::InvalidIdentity),
        Some((owner, project)) => {
            let mut u = chars_of("https://api.github.com/repos/");
            append_str(&mut u, owner);
            u.push('/');
            append_str(&mut u, project);
            proof {
                reveal_strlit("/");
                assert(u@ =~= "https://api.github.com/repos/"@ + owner@ + "/"@ + project@);
            }
            Ok(string_of(u.as_slice()))
        },
    }
}

/// What a missing GitHub repository resolves to.
pub fn github_not_found(url: &str, now: Timestamp) -> (r: Resolution)
    ensures
        r.canonical is None,
        evidence_view(r.evidence@) == seq![
            (EvidenceView {
                kind: EvidenceKind::Unavailable,
                source: url@,
                claim: "repository does not exist"@,
                strength: EvidenceStrength::Weak,
                observed_at: now,
                expires_at: None,
                metadata: Seq::<(Seq<char>, Seq<char>)>::empty(),
            }),
        ],
        signals_view(r.signals@) == seq![
            signal_view(
                "RS-REPOSITORY-NOT-FOUND"@,
                Severity::Critical,
                "Requested GitHub repository does not exist"@,
                "Find the project through authoritative documentation before cloning"@,
            ),
        ],
        r.hallusquat_candidates@.len() == 0,
{
    let mut evidence: Vec<Evidence> = Vec::new();
    evidence.push(unavailable_evidence(url, "repository does not exist", now));
    let mut signals: Vec<Signal> = Vec::new();
    signals.push(
        signal(
            "RS-REPOSITORY-NOT-FOUND",
            Severity::Critical,
            "Requested GitHub repository does not exist",
            "Find the project through authoritative documentation before cloning",
        ),
    );
    let r = Resolution {
        canonical: None,
        evidence,
        signals,
        hallusquat_candidates: Vec::new(),
    };
    proof {
        assert(evidence_view(r.evidence@) =~= seq![r.evidence@[0]@]);
        assert(signals_view(r.signals@) =~= seq![r.signals@[0]@]);
    }
    r
}

pub open spec fn owner_mismatch_signal(requested: Seq<char>, canonical: Seq<char>, source: Seq<char>) -> SignalView {
    SignalView {
        code: "RS-CANONICAL-OWNER-MISMATCH"@,
        severity: Severity::Critical,
        message: "Requested "@ + requested + " but repository history strongly identifies "@
            + canonical + " as canonical"@,
        evidence_source: Some(source),
        remediation: "Use the older established repository referenced by project authorities"@,
    }
}

/// What a found GitHub repository resolves to, given its profile and the
/// established alternative the search found, if any.
pub open spec fn github_resolution_spec(
    requested: ComponentId,
    url: Seq<char>,
    profile: GithubProfile,
    alternative: Option<GithubProfile>,
    now: Timestamp,
) -> Result<(Option<ComponentId>, Seq<EvidenceView>, Seq<SignalView>), CoreError> {
    match crate::identity::new_spec(
        crate::identity::Ecosystem::Github,
        profile.full_name@,
        requested.version,
    ) {
        Err(e) => Err(e),
        Ok(c) => match alternative {
            None => Ok(
                (Some(c), seq![profile_evidence(profile, url, now)], profile_signals(profile, now)),
            ),
            Some(alt) => {
                let alt_url = "https://api.github.com/repos/"@ + alt.full_name@;
                match crate::identity::new_spec(
                    crate::identity::Ecosystem::Github,
                    alt.full_name@,
                    requested.version,
                ) {
                    Err(e) => Err(e),
                    Ok(c2) => Ok(
                        (
                            Some(c2),
                            seq![
                                profile_evidence(profile, url, now),
                                profile_evidence(alt, alt_url, now),
                            ],
                            profile_signals(profile, now).push(
                                owner_mismatch_signal(profile.full_name@, alt.full_name@, alt_url),
                            ),
                        ),
                    ),
                }
            },
        },
    }
}

fn clone_version(v: &Option<String>) -> (r: Option<String>)
    ensures
        opt_view(r) == opt_view(*v),
{
    match v {
        Some(s) => Some(s.clone()),
        None => None,
    }
}

pub fn github_resolution(
    requested: &ComponentRef,
    url: &str,
    profile: &GithubProfile,
    alternative: Option<&GithubProfile>,
    now: Timestamp,
) -> (r: Result<Resolution, ResolveError>)
    ensures
        match github_resolution_spec(
            requested@,
            url@,
            *profile,
            match alternative {
                Some(a) => Some(*a),
                None => None,
            },
            now,
        ) {
            Err(e) => r == Err::<Resolution, ResolveError>(ResolveError::Core(e)),
            Ok((c, ev, sg)) => r matches Ok(res) && canonical_view(res) == c && evidence_view(
                res.evidence@,
            ) == ev && signals_view(res.signals@) == sg && res.hallusquat_candidates@.len() == 0,
        },
{
    let mut evidence: Vec<Evidence> = Vec::new();
    evidence.push(profile.evidence(url, now));
    let mut signals = profile.signals(now);
    let mut canonical = match ComponentRef::new(
        crate::identity::Ecosystem::Github,
        profile.full_name.as_str(),
        clone_version(&requested.version),
    ) {
        Ok(c) => c,
        Err(e) => return Err(ResolveError::Core(e)),
    };
    match alternative {
        None => {},
        Some(alt) => {
            let mut au = chars_of("https://api.github.com/repos/");
            let an = chars_of(alt.full_name.as_str());
            append_chars(&mut au, an.as_slice());
            let alt_url = string_of(au.as_slice());
            evidence.push(alt.evidence(alt_url.as_str(), now));
            let mut msg = chars_of("Requested ");
            append_str(&mut msg, profile.full_name.as_str());
            append_str(&mut msg, " but repository history strongly identifies ");
            append_chars(&mut msg, an.as_slice());
            append_str(&mut msg, " as canonical");
            let ghost before = signals_view(signals@);
            signals.push(
                Signal {
                    code: String::from_str("RS-CANONICAL-OWNER-MISMATCH"),
                    severity: Severity::Critical,
                    message: string_of(msg.as_slice()),
                    evidence_source: Some(alt_url),
                    remediation: String::from_str(
                        "Use the older established repository referenced by project authorities",
                    ),
                },
            );
            proof {
                assert(signals_view(signals@) =~= before.push(
                    owner_mismatch_signal(profile.full_name@, alt.full_name@, au@),
                ));
            }
            canonical = match ComponentRef::new(
                crate::identity::Ecosystem::Github,
                alt.full_name.as_str(),
                clone_version(&requested.version),
            ) {
                Ok(c) => c,
                Err(e) => return Err(ResolveError::Core(e)),
            };
        },
    }
    let r = Resolution {
        canonical: Some(canonical),
        evidence,
        signals,
        hallusquat_candidates: Vec::new(),
    };
    proof {
        if r.evidence@.len() == 1 {
            assert(evidence_view(r.evidence@) =~= seq![r.evidence@[0]@]);
        } else {
            assert(evidence_view(r.evidence@) =~= seq![r.evidence@[0]@, r.evidence@[1]@]);
        }
    }
    Ok(r)
}

/// A GitHub-hosted skill, MCP server, or plugin: the canonical identity found
/// for the repository, carried back into the requested ecosystem.
pub fn namespace_resolution(requested: &ComponentRef, resolution: Resolution) -> (r: Resolution)
    ensures
        canonical_view(r) == match canonical_view(resolution) {
            Some(c) => Some(
                ComponentId { ecosystem: requested.ecosystem, name: c.name, version: c.version },
            ),
            None => None,
        },
        r.evidence == resolution.evidence,
        r.signals == resolution.signals,
        r.hallusquat_candidates == resolution.hallusquat_candidates,
{
    let canonical = match resolution.canonical {
        Some(item) => Some(
            ComponentRef { ecosystem: requested.ecosystem, name: item.name, version: item.version },
        ),
        None => None,
    };
    Resolution {
        canonical,
        evidence: resolution.evidence,
        signals: resolution.signals,
        hallusquat_candidates: resolution.hallusquat_candidates,
    }
}


// ---------------------------------------------------------------------------
// Registry results
// ---------------------------------------------------------------------------

/// `str::trim_start_matches` with a non-empty literal: every leading copy removed.
pub open spec fn strip_all_prefix(s: Seq<char>, p: Seq<char>) -> Seq<char>
    decreases s.len(),
{
    if p.len() > 0 && starts_with(s, p) {
        strip_all_prefix(s.skip(p.len() as int), p)
    } else {
        s
    }
}

fn strip_all_prefix_exec(s: Vec<char>, p: &str) -> (out: Vec<char>)
    ensures
        out@ == strip_all_prefix(s@, p@),
{
    let pc = chars_of(p);
    if pc.len() == 0 {
        return s;
    }
    let mut cur = s;
    while has_prefix(cur.as_slice(), pc.as_slice())
        invariant
            pc@ == p@,
            pc@.len() > 0,
            strip_all_prefix(s@, p@) == strip_all_prefix(cur@, p@),
        decreases cur@.len(),
    {
        cur = slice_chars(cur.as_slice(), pc.len(), cur.len());
    }
    cur
}

/// The text a repository URL is normalized to before parsing.
pub open spec fn repository_reference(input: Seq<char>) -> Seq<char> {
    let a = strip_all_prefix(trim(input), "git+"@);
    let b = strip_all_prefix(a, "git://"@);
    let c = strip_all_prefix(b, "ssh://git@github.com/"@);
    let d = strip_all_prefix(c, "git@github.com:"@);
    if starts_with(d, "github.com/"@) {
        "https://"@ + d
    } else {
        d
    }
}

/// A GitHub identity from a registry's repository URL, when it parses.
pub fn github_identity_from_repository_url(input: &str) -> (r: Option<ComponentRef>)
    ensures
        match crate::identity::parse_spec(repository_reference(input@)) {
            Ok(c) => r matches Some(x) && x@ == c,
            Err(_) => r is None,
        },
{
    let t = trim_chars(chars_of(input).as_slice());
    let a = strip_all_prefix_exec(t, "git+");
    let b = strip_all_prefix_exec(a, "git://");
    let c = strip_all_prefix_exec(b, "ssh://git@github.com/");
    let d = strip_all_prefix_exec(c, "git@github.com:");
    let text = if has_prefix_str(d.as_slice(), "github.com/") {
        let mut e = chars_of("https://");
        append_chars(&mut e, d.as_slice());
        e
    } else {
        d
    };
    let s = string_of(text.as_slice());
    match crate::identity::parse_component(s.as_str()) {
        Ok(c) => Some(c),
        Err(_) => None,
    }
}

/// Whether the scripts declared for `version` include an install-time hook.
pub open spec fn lifecycle_in(scripts: Seq<(Seq<char>, Seq<Seq<char>>)>, version: Seq<char>) -> bool {
    exists|i: int|
        0 <= i < scripts.len() && (#[trigger] scripts[i]).0 == version && (scripts[i].1.contains(
            "preinstall"@,
        ) || scripts[i].1.contains("install"@) || scripts[i].1.contains("postinstall"@)
            || scripts[i].1.contains("prepare"@))
}

pub open spec fn scripts_view(v: Seq<(String, Vec<String>)>) -> Seq<(Seq<char>, Seq<Seq<char>>)> {
    v.map_values(|p: (String, Vec<String>)| (p.0@, strings_view(p.1@)))
}

fn names_contain(names: &Vec<String>, lit: &str) -> (r: bool)
    ensures
        r == strings_view(names@).contains(lit@),
{
    let x = String::from_str(lit);
    crate::policy::contains_string(names, &x)
}

/// npm `versions.<version>.scripts` declares `preinstall`, `install`,
/// `postinstall`, or `prepare`; `version_scripts` lists each version with
/// its script names.
pub fn has_lifecycle_scripts(version_scripts: &Vec<(String, Vec<String>)>, version: &str) -> (r: bool)
    ensures
        r == lifecycle_in(scripts_view(version_scripts@), version@),
{
    let ghost sv = scripts_view(version_scripts@);
    let v = String::from_str(version);
    let mut i: usize = 0;
    while i < version_scripts.len()
        invariant
            i <= version_scripts.len(),
            sv == scripts_view(version_scripts@),
            v@ == version@,
            forall|k: int|
                0 <= k < i ==> !((#[trigger] sv[k]).0 == version@ && (sv[k].1.contains(
                    "preinstall"@,
                ) || sv[k].1.contains("install"@) || sv[k].1.contains("postinstall"@)
                    || sv[k].1.contains("prepare"@))),
        decreases version_scripts.len() - i,
    {
        let (name, scripts) = &version_scripts[i];
        proof {
            assert(sv[i as int] == (name@, strings_view(scripts@)));
        }
        if *name == v && (names_contain(scripts, "preinstall") || names_contain(scripts, "install")
            || names_contain(scripts, "postinstall") || names_contain(scripts, "prepare")) {
            return true;
        }
        i += 1;
    }
    false
}

/// The facts read from an npm registry document.
pub struct NpmFacts {
    /// `repository.url`, else `repository` when it is a string.
    pub repository_url: Option<String>,
    /// `dist-tags.latest`.
    pub latest: Option<String>,
    /// `time.created`.
    pub created: Option<String>,
    /// The number of `maintainers`.
    pub maintainers: u64,
    /// Each version with the names of its `scripts`.
    pub version_scripts: Vec<(String, Vec<String>)>,
}

pub open spec fn opt_id(c: Option<ComponentId>) -> Option<Seq<char>> {
    match c {
        Some(x) => Some(id_of(x)),
        None => None,
    }
}

pub open spec fn parsed_repository(url: Option<String>) -> Option<ComponentId> {
    match url {
        Some(u) => match crate::identity::parse_spec(repository_reference(u@)) {
            Ok(c) => Some(c),
            Err(_) => None,
        },
        None => None,
    }
}

pub open spec fn npm_url_spec(name: Seq<char>) -> Seq<char> {
    "https://registry.npmjs.org/"@ + replace_char(name, '/', "%2F"@)
}

fn url_around(head: &str, name: &str, tail: &str) -> (u: String)
    ensures
        u@ == head@ + name@ + tail@,
{
    let mut out = chars_of(head);
    append_str(&mut out, name);
    append_str(&mut out, tail);
    string_of(out.as_slice())
}

/// The PyPI JSON document of a project.
pub fn pypi_json_url(requested: &ComponentRef) -> (u: String)
    ensures
        u@ == "https://pypi.org/pypi/"@ + requested.name@ + "/json"@,
{
    url_around("https://pypi.org/pypi/", requested.name.as_str(), "/json")
}

/// The crates.io API document of a crate.
pub fn crates_api_url(requested: &ComponentRef) -> (u: String)
    ensures
        u@ == "https://crates.io/api/v1/crates/"@ + requested.name@,
{
    let u = url_around("https://crates.io/api/v1/crates/", requested.name.as_str(), "");
    proof {
        reveal_strlit("");
        assert(u@ =~= "https://crates.io/api/v1/crates/"@ + requested.name@);
    }
    u
}

/// The Go module proxy's version list of a module.
pub fn go_versions_url(requested: &ComponentRef) -> (u: String)
    ensures
        u@ == "https://proxy.golang.org/"@ + requested.name@ + "/@v/list"@,
{
    url_around("https://proxy.golang.org/", requested.name.as_str(), "/@v/list")
}

pub fn npm_registry_url(requested: &ComponentRef) -> (u: String)
    ensures
        u@ == npm_url_spec(requested.name@),
{
    let mut out = chars_of("https://registry.npmjs.org/");
    let enc = chars_of("%2F");
    let encoded = replace_char_exec(chars_of(requested.name.as_str()).as_slice(), '/', enc.as_slice());
    append_chars(&mut out, encoded.as_slice());
    string_of(out.as_slice())
}

/// The registry evidence of a package: strong when it declares a GitHub
/// source repository, supporting otherwise; valid for an hour.
pub open spec fn registry_evidence(
    url: Seq<char>,
    claim: Seq<char>,
    declared: bool,
    now: Timestamp,
    metadata: Seq<(Seq<char>, Seq<char>)>,
) -> EvidenceView {
    EvidenceView {
        kind: EvidenceKind::Registry,
        source: url,
        claim,
        strength: if declared {
            EvidenceStrength::Strong
        } else {
            EvidenceStrength::Supporting
        },
        observed_at: now,
        expires_at: plus_seconds_spec(now, 3600),
        metadata,
    }
}

pub open spec fn source_claim(registry: Seq<char>, repository: Option<ComponentId>) -> Seq<char> {
    match repository {
        Some(c) => registry + " declares source "@ + id_of(c),
        None => registry + " exists; no GitHub source was declared"@,
    }
}

pub open spec fn opt_entry(key: Seq<char>, v: Option<Seq<char>>) -> Seq<(Seq<char>, Seq<char>)> {
    match v {
        Some(x) => seq![(key, x)],
        None => Seq::<(Seq<char>, Seq<char>)>::empty(),
    }
}

pub open spec fn npm_signals(requested: ComponentId, f: NpmFacts, now: Timestamp) -> Seq<SignalView> {
    let version = match requested.version {
        Some(v) => Some(v),
        None => opt_view(f.latest),
    };
    (if version matches Some(v) && lifecycle_in(scripts_view(f.version_scripts@), v) {
        seq![
            signal_view(
                "RS-INSTALL-LIFECYCLE-SCRIPT"@,
                Severity::High,
                "npm package declares install-time lifecycle scripts"@,
                "Inspect or sandbox the exact package tarball before installation"@,
            ),
        ]
    } else {
        Seq::<SignalView>::empty()
    }) + (if f.created matches Some(c) && rfc3339_instant(c@) matches Some(t) && nanos_of(now)
        - nanos_of(t) < day_nanos() {
        seq![
            signal_view(
                "RS-ARTIFACT-VERY-YOUNG"@,
                Severity::Critical,
                "npm package was created less than 24 hours ago"@,
                "Require authoritative project documentation and explicit review"@,
            ),
        ]
    } else {
        Seq::<SignalView>::empty()
    })
}

pub open spec fn npm_evidence(requested: ComponentId, url: Seq<char>, f: NpmFacts, now: Timestamp) -> EvidenceView {
    let repo = parsed_repository(f.repository_url);
    registry_evidence(
        url,
        source_claim("npm package"@, repo),
        repo is Some,
        now,
        opt_entry("latest"@, opt_view(f.latest)) + seq![
            ("maintainers"@, decimal(f.maintainers as nat)),
            ("package"@, requested.name),
        ] + opt_entry("repository"@, opt_id(repo)),
    )
}

fn opt_entry_push(out: &mut Vec<(String, String)>, key: &str, v: &Option<String>)
    ensures
        pairs_view(final(out)@) == pairs_view(old(out)@) + opt_entry(key@, opt_view(*v)),
{
    let ghost before = pairs_view(out@);
    match v {
        Some(x) => {
            out.push((String::from_str(key), x.clone()));
            proof {
                assert(pairs_view(out@) =~= before + opt_entry(key@, opt_view(*v)));
            }
        },
        None => {
            proof {
                assert(before + opt_entry(key@, opt_view(*v)) =~= before);
            }
        },
    }
}

fn registry_evidence_exec(
    url: &str,
    claim: Vec<char>,
    declared: bool,
    now: Timestamp,
    metadata: Vec<(String, String)>,
) -> (e: Evidence)
    ensures
        e@ == registry_evidence(url@, claim@, declared, now, pairs_view(metadata@)),
{
    Evidence {
        kind: EvidenceKind::Registry,
        source: String::from_str(url),
        claim: string_of(claim.as_slice()),
        strength: if declared {
            EvidenceStrength::Strong
        } else {
            EvidenceStrength::Supporting
        },
        observed_at: now,
        expires_at: later(&now, 3600),
        metadata,
    }
}

fn source_claim_exec(registry: &str, repository: &Option<ComponentRef>) -> (out: Vec<char>)
    ensures
        out@ == source_claim(registry@, opt_component_view(*repository)),
{
    let mut out = chars_of(registry);
    match repository {
        Some(c) => {
            append_str(&mut out, " declares source ");
            let id = c.id();
            append_str(&mut out, id.as_str());
        },
        None => {
            append_str(&mut out, " exists; no GitHub source was declared");
        },
    }
    out
}

fn opt_repo(url: &Option<String>) -> (r: Option<ComponentRef>)
    ensures
        opt_component_view(r) == parsed_repository(*url),
{
    match url {
        Some(u) => github_identity_from_repository_url(u.as_str()),
        None => None,
    }
}

fn opt_repo_id(r: &Option<ComponentRef>) -> (out: Option<String>)
    ensures
        opt_view(out) == opt_id(opt_component_view(*r)),
{
    match r {
        Some(c) => Some(c.id()),
        None => None,
    }
}

/// What an npm registry document resolves to.
pub fn npm_resolution(requested: &ComponentRef, url: &str, facts: &NpmFacts, now: Timestamp) -> (r:
    Resolution)
    ensures
        canonical_view(r) == Some(requested@),
        evidence_view(r.evidence@) == seq![npm_evidence(requested@, url@, *facts, now)],
        signals_view(r.signals@) == npm_signals(requested@, *facts, now),
        r.hallusquat_candidates@.len() == 0,
{
    let repo = opt_repo(&facts.repository_url);
    let mut metadata: Vec<(String, String)> = Vec::new();
    opt_entry_push(&mut metadata, "latest", &facts.latest);
    let ghost m1 = pairs_view(metadata@);
    metadata.push((String::from_str("maintainers"), string_of(decimal_chars(facts.maintainers).as_slice())));
    metadata.push((String::from_str("package"), requested.name.clone()));
    let ghost m2 = pairs_view(metadata@);
    proof {
        assert(m2 =~= m1 + seq![
            ("maintainers"@, decimal(facts.maintainers as nat)),
            ("package"@, requested.name@),
        ]);
    }
    let repo_id = opt_repo_id(&repo);
    opt_entry_push(&mut metadata, "repository", &repo_id);
    let mut signals: Vec<Signal> = Vec::new();
    let version: Option<&str> = match &requested.version {
        Some(v) => Some(v.as_str()),
        None => match &facts.latest {
            Some(l) => Some(l.as_str()),
            None => None,
        },
    };
    let lifecycle = match version {
        Some(v) => has_lifecycle_scripts(&facts.version_scripts, v),
        None => false,
    };
    if lifecycle {
        signals.push(
            signal(
                "RS-INSTALL-LIFECYCLE-SCRIPT",
                Severity::High,
                "npm package declares install-time lifecycle scripts",
                "Inspect or sandbox the exact package tarball before installation",
            ),
        );
    }
    let ghost s1 = signals_view(signals@);
    let young = match &facts.created {
        Some(c) => match parse_time(c.as_str()) {
            Some(t) => now.nanos_since(&t) < 86_400_000_000_000i128,
            None => false,
        },
        None => false,
    };
    if young {
        signals.push(
            signal(
                "RS-ARTIFACT-VERY-YOUNG",
                Severity::Critical,
                "npm package was created less than 24 hours ago",
                "Require authoritative project documentation and explicit review",
            ),
        );
    }
    proof {
        assert(signals_view(signals@) =~= npm_signals(requested@, *facts, now));
    }
    let claim = source_claim_exec("npm package", &repo);
    let declared = repo.is_some();
    let mut evidence: Vec<Evidence> = Vec::new();
    evidence.push(registry_evidence_exec(url, claim, declared, now, metadata));
    let r = Resolution {
        canonical: Some(requested.clone_ref()),
        evidence,
        signals,
        hallusquat_candidates: Vec::new(),
    };
    proof {
        assert(evidence_view(r.evidence@) =~= seq![r.evidence@[0]@]);
    }
    r
}


/// The facts read from a PyPI project document.
pub struct PypiFacts {
    /// The string entries of `info.project_urls` (`None` when that is not an object).
    pub project_urls: Option<Vec<(String, String)>>,
    /// `info.home_page`.
    pub home_page: Option<String>,
    /// `info.version`.
    pub version: Option<String>,
}

pub open spec fn lookup(m: Seq<(Seq<char>, Seq<char>)>, key: Seq<char>) -> Option<Seq<char>>
    decreases m.len(),
{
    if m.len() == 0 {
        None
    } else if m[0].0 == key {
        Some(m[0].1)
    } else {
        lookup(m.drop_first(), key)
    }
}

/// The source link of a PyPI project: the first of `Source`, `Source Code`,
/// `Repository`, `Homepage` among its project URLs, else its home page; none
/// when it lists no project URLs.
pub open spec fn pypi_source_url(f: PypiFacts) -> Option<Seq<char>> {
    match f.project_urls {
        None => None,
        Some(urls) => {
            let m = pairs_view(urls@);
            if lookup(m, "Source"@) is Some {
                lookup(m, "Source"@)
            } else if lookup(m, "Source Code"@) is Some {
                lookup(m, "Source Code"@)
            } else if lookup(m, "Repository"@) is Some {
                lookup(m, "Repository"@)
            } else if lookup(m, "Homepage"@) is Some {
                lookup(m, "Homepage"@)
            } else {
                opt_view(f.home_page)
            }
        },
    }
}

fn lookup_exec(m: &Vec<(String, String)>, key: &str) -> (r: Option<String>)
    ensures
        opt_view(r) == lookup(pairs_view(m@), key@),
{
    let ghost all = pairs_view(m@);
    let k = String::from_str(key);
    let mut i: usize = 0;
    proof {
        assert(all.skip(0) =~= all);
    }
    while i < m.len()
        invariant
            i <= m.len(),
            all == pairs_view(m@),
            k@ == key@,
            lookup(all, key@) == lookup(all.skip(i as int), key@),
        decreases m.len() - i,
    {
        proof {
            assert(all.skip(i as int)[0] == (m@[i as int].0@, m@[i as int].1@));
            assert(all.skip(i as int).drop_first() =~= all.skip(i + 1));
        }
        if m[i].0 == k {
            return Some(m[i].1.clone());
        }
        i += 1;
    }
    None
}

fn pypi_source_exec(f: &PypiFacts) -> (r: Option<String>)
    ensures
        opt_view(r) == pypi_source_url(*f),
{
    match &f.project_urls {
        None => None,
        Some(urls) => {
            let a = lookup_exec(urls, "Source");
            if a.is_some() {
                return a;
            }
            let b = lookup_exec(urls, "Source Code");
            if b.is_some() {
                return b;
            }
            let c = lookup_exec(urls, "Repository");
            if c.is_some() {
                return c;
            }
            let d = lookup_exec(urls, "Homepage");
            if d.is_some() {
                return d;
            }
            clone_version(&f.home_page)
        },
    }
}

pub open spec fn pypi_evidence(url: Seq<char>, f: PypiFacts, now: Timestamp) -> EvidenceView {
    let repo = match pypi_source_url(f) {
        Some(u) => match crate::identity::parse_spec(repository_reference(u)) {
            Ok(c) => Some(c),
            Err(_) => None,
        },
        None => None,
    };
    registry_evidence(
        url,
        source_claim("PyPI project"@, repo),
        repo is Some,
        now,
        opt_entry("latest"@, opt_view(f.version)) + opt_entry("repository"@, opt_id(repo)),
    )
}

/// What a PyPI project document resolves to.
pub fn pypi_resolution(requested: &ComponentRef, url: &str, facts: &PypiFacts, now: Timestamp) -> (r:
    Resolution)
    ensures
        canonical_view(r) == Some(requested@),
        evidence_view(r.evidence@) == seq![pypi_evidence(url@, *facts, now)],
        r.signals@.len() == 0,
        r.hallusquat_candidates@.len() == 0,
{
    let source = pypi_source_exec(facts);
    let repo = opt_repo(&source);
    let mut metadata: Vec<(String, String)> = Vec::new();
    opt_entry_push(&mut metadata, "latest", &facts.version);
    let repo_id = opt_repo_id(&repo);
    opt_entry_push(&mut metadata, "repository", &repo_id);
    let claim = source_claim_exec("PyPI project", &repo);
    let declared = repo.is_some();
    let mut evidence: Vec<Evidence> = Vec::new();
    evidence.push(registry_evidence_exec(url, claim, declared, now, metadata));
    let r = Resolution {
        canonical: Some(requested.clone_ref()),
        evidence,
        signals: Vec::new(),
        hallusquat_candidates: Vec::new(),
    };
    proof {
        assert(evidence_view(r.evidence@) =~= seq![r.evidence@[0]@]);
    }
    r
}

/// The facts read from a crates.io crate document.
pub struct CargoFacts {
    /// `crate.repository`.
    pub repository: Option<String>,
    /// `crate.newest_version`.
    pub newest: Option<String>,
    /// `crate.downloads` (zero when absent).
    pub downloads: u64,
}

pub open spec fn cargo_evidence(url: Seq<char>, f: CargoFacts, now: Timestamp) -> EvidenceView {
    let repo = parsed_repository(f.repository);
    registry_evidence(
        url,
        source_claim("crates.io package"@, repo),
        repo is Some,
        now,
        seq![("downloads"@, decimal(f.downloads as nat))] + opt_entry("latest"@, opt_view(f.newest))
            + opt_entry("repository"@, opt_id(repo)),
    )
}

/// What a crates.io crate document resolves to.
pub fn cargo_resolution(requested: &ComponentRef, url: &str, facts: &CargoFacts, now: Timestamp) -> (r:
    Resolution)
    ensures
        canonical_view(r) == Some(requested@),
        evidence_view(r.evidence@) == seq![cargo_evidence(url@, *facts, now)],
        r.signals@.len() == 0,
        r.hallusquat_candidates@.len() == 0,
{
    let repo = opt_repo(&facts.repository);
    let mut metadata: Vec<(String, String)> = Vec::new();
    metadata.push((String::from_str("downloads"), string_of(decimal_chars(facts.downloads).as_slice())));
    proof {
        assert(pairs_view(metadata@) =~= seq![("downloads"@, decimal(facts.downloads as nat))]);
    }
    opt_entry_push(&mut metadata, "latest", &facts.newest);
    let repo_id = opt_repo_id(&repo);
    opt_entry_push(&mut metadata, "repository", &repo_id);
    let claim = source_claim_exec("crates.io package", &repo);
    let declared = repo.is_some();
    let mut evidence: Vec<Evidence> = Vec::new();
    evidence.push(registry_evidence_exec(url, claim, declared, now, metadata));
    let r = Resolution {
        canonical: Some(requested.clone_ref()),
        evidence,
        signals: Vec::new(),
        hallusquat_candidates: Vec::new(),
    };
    proof {
        assert(evidence_view(r.evidence@) =~= seq![r.evidence@[0]@]);
    }
    r
}

pub open spec fn count_nonblank(ls: Seq<Seq<char>>) -> nat
    decreases ls.len(),
{
    if ls.len() == 0 {
        0
    } else {
        count_nonblank(ls.drop_last()) + if trim(ls.last()).len() > 0 {
            1nat
        } else {
            0nat
        }
    }
}

pub open spec fn go_evidence(url: Seq<char>, body: Seq<char>, now: Timestamp) -> EvidenceView {
    EvidenceView {
        kind: EvidenceKind::Registry,
        source: url,
        claim: "Go module proxy contains the requested module"@,
        strength: EvidenceStrength::Supporting,
        observed_at: now,
        expires_at: plus_seconds_spec(now, 3600),
        metadata: seq![("versions"@, decimal(count_nonblank(lines(body))))],
    }
}

/// What a Go module proxy version list resolves to.
pub fn go_resolution(requested: &ComponentRef, url: &str, body: &str, now: Timestamp) -> (r: Resolution)
    ensures
        canonical_view(r) == Some(requested@),
        evidence_view(r.evidence@) == seq![go_evidence(url@, body@, now)],
        r.signals@.len() == 0,
        r.hallusquat_candidates@.len() == 0,
{
    let ls = lines_of(chars_of(body).as_slice());
    let ghost lv = views(ls@);
    let mut n: u64 = 0;
    let mut i: usize = 0;
    while i < ls.len()
        invariant
            i <= ls.len(),
            lv == views(ls@),
            n == count_nonblank(lv.take(i as int)),
            n <= i,
        decreases ls.len() - i,
    {
        proof {
            assert(lv.take(i + 1).drop_last() =~= lv.take(i as int));
            assert(lv.take(i + 1).last() == ls@[i as int]@);
        }
        let t = trim_chars(ls[i].as_slice());
        if t.len() > 0 {
            n = n + 1;
        }
        i += 1;
    }
    proof {
        assert(lv.take(ls.len() as int) =~= lv);
    }
    let mut metadata: Vec<(String, String)> = Vec::new();
    metadata.push((String::from_str("versions"), string_of(decimal_chars(n).as_slice())));
    let e = Evidence {
        kind: EvidenceKind::Registry,
        source: String::from_str(url),
        claim: String::from_str("Go module proxy contains the requested module"),
        strength: EvidenceStrength::Supporting,
        observed_at: now,
        expires_at: later(&now, 3600),
        metadata,
    };
    proof {
        assert(pairs_view(e.metadata@) =~= seq![("versions"@, decimal(n as nat))]);
    }
    let mut evidence: Vec<Evidence> = Vec::new();
    evidence.push(e);
    let r = Resolution {
        canonical: Some(requested.clone_ref()),
        evidence,
        signals: Vec::new(),
        hallusquat_candidates: Vec::new(),
    };
    proof {
        assert(evidence_view(r.evidence@) =~= seq![r.evidence@[0]@]);
    }
    r
}

pub open spec fn url_host(name: Seq<char>) -> Seq<char> {
    match crate::identity::parsed_url(name) {
        Some(u) => match u.host {
            Some(h) => h,
            None => "unknown"@,
        },
        None => "unknown"@,
    }
}

/// A direct download: weak domain evidence and an unresolved-identity signal.
pub fn resolve_url(requested: &ComponentRef, now: Timestamp) -> (r: Resolution)
    ensures
        r.canonical is None,
        evidence_view(r.evidence@) == seq![
            EvidenceView {
                kind: EvidenceKind::Domain,
                source: requested.name@,
                claim: "Direct HTTPS download is hosted by "@ + url_host(requested.name@),
                strength: EvidenceStrength::Weak,
                observed_at: now,
                expires_at: None,
                metadata: seq![("host"@, url_host(requested.name@))],
            },
        ],
        signals_view(r.signals@) == seq![
            signal_view(
                "RS-DIRECT-DOWNLOAD-UNRESOLVED"@,
                Severity::High,
                "A direct download has no independently established project identity"@,
                "Pin an integrity hash and authoritative domain in policy or agent.lock"@,
            ),
        ],
        r.hallusquat_candidates@.len() == 0,
{
    let host = match crate::identity::parse_url(requested.name.as_str()) {
        Some(u) => match u.host {
            Some(h) => h,
            None => String::from_str("unknown"),
        },
        None => String::from_str("unknown"),
    };
    let mut claim = chars_of("Direct HTTPS download is hosted by ");
    append_str(&mut claim, host.as_str());
    let mut metadata: Vec<(String, String)> = Vec::new();
    metadata.push((String::from_str("host"), host));
    let e = Evidence {
        kind: EvidenceKind::Domain,
        source: requested.name.clone(),
        claim: string_of(claim.as_slice()),
        strength: EvidenceStrength::Weak,
        observed_at: now,
        expires_at: None,
        metadata,
    };
    proof {
        assert(pairs_view(e.metadata@) =~= seq![("host"@, url_host(requested.name@))]);
    }
    let mut evidence: Vec<Evidence> = Vec::new();
    evidence.push(e);
    let mut signals: Vec<Signal> = Vec::new();
    signals.push(
        signal(
            "RS-DIRECT-DOWNLOAD-UNRESOLVED",
            Severity::High,
            "A direct download has no independently established project identity",
            "Pin an integrity hash and authoritative domain in policy or agent.lock",
        ),
    );
    let r = Resolution { canonical: None, evidence, signals, hallusquat_candidates: Vec::new() };
    proof {
        assert(evidence_view(r.evidence@) =~= seq![r.evidence@[0]@]);
        assert(signals_view(r.signals@) =~= seq![r.signals@[0]@]);
    }
    r
}

/// Resolution without network providers: no canonical identity, explicit
/// unavailable evidence, a medium offline signal, and the candidates.
pub fn offline_resolution(requested: &ComponentRef, now: Timestamp) -> (r: Resolution)
    ensures
        r.canonical is None,
        evidence_view(r.evidence@) == seq![
            EvidenceView {
                kind: EvidenceKind::Unavailable,
                source: "offline"@,
                claim: "network providers disabled by configuration"@,
                strength: EvidenceStrength::Weak,
                observed_at: now,
                expires_at: None,
                metadata: Seq::<(Seq<char>, Seq<char>)>::empty(),
            },
        ],
        signals_view(r.signals@) == seq![
            signal_view(
                "RS-EVIDENCE-OFFLINE"@,
                Severity::Medium,
                "Canonical identity could not be established in offline mode"@,
                "Use a matching agent.lock entry or perform one reviewed online resolution"@,
            ),
        ],
        strings_view(r.hallusquat_candidates@) == hallusquat_spec(requested.name@),
{
    let candidates = hallusquat_candidates(requested);
    let mut evidence: Vec<Evidence> = Vec::new();
    evidence.push(
        unavailable_evidence("offline", "network providers disabled by configuration", now),
    );
    let mut signals: Vec<Signal> = Vec::new();
    signals.push(
        signal(
            "RS-EVIDENCE-OFFLINE",
            Severity::Medium,
            "Canonical identity could not be established in offline mode",
            "Use a matching agent.lock entry or perform one reviewed online resolution",
        ),
    );
    let r = Resolution { canonical: None, evidence, signals, hallusquat_candidates: candidates };
    proof {
        assert(evidence_view(r.evidence@) =~= seq![r.evidence@[0]@]);
        assert(signals_view(r.signals@) =~= seq![r.signals@[0]@]);
    }
    r
}

/// The last step of an online resolution: the candidates are attached and
/// the requested identity is compared with the canonical one.
pub fn finish_resolution(requested: &ComponentRef, resolution: Resolution) -> (r: Resolution)
    ensures
        opt_component_view(r.canonical) == opt_component_view(resolution.canonical),
        r.evidence == resolution.evidence,
        signals_view(r.signals@) == signals_view(resolution.signals@) + comparison_signals(
            requested@,
            opt_component_view(resolution.canonical),
        ),
        strings_view(r.hallusquat_candidates@) == hallusquat_spec(requested.name@),
{
    let mut r = resolution;
    r.hallusquat_candidates = hallusquat_candidates(requested);
    apply_identity_comparison(requested, &mut r);
    r
}


// ---------------------------------------------------------------------------
// Laws of candidate generation
// ---------------------------------------------------------------------------

pub proof fn lemma_set_insert_contains(s: Seq<Seq<char>>, x: Seq<char>, y: Seq<char>)
    ensures
        set_insert(s, x).contains(y) <==> (s.contains(y) || y == x),
    decreases s.len(),
{
    if s.len() == 0 {
        if y == x {
            assert(seq![x][0] == x);
        }
    } else if s.last() == x {
        if y == x {
            assert(s[s.len() - 1] == y);
        }
    } else if text_lt(x, s.last()) {
        let r = set_insert(s.drop_last(), x);
        lemma_set_insert_contains(s.drop_last(), x, y);
        if s.contains(y) {
            let i = choose|i: int| 0 <= i < s.len() && s[i] == y;
            if i < s.len() - 1 {
                assert(s.drop_last()[i] == y);
                let j = choose|j: int| 0 <= j < r.len() && r[j] == y;
                assert(r.push(s.last())[j] == y);
            } else {
                assert(r.push(s.last())[r.len() as int] == y);
            }
        }
        if y == x {
            let j = choose|j: int| 0 <= j < r.len() && r[j] == y;
            assert(r.push(s.last())[j] == y);
        }
        if r.push(s.last()).contains(y) {
            let j = choose|j: int| 0 <= j < r.len() + 1 && r.push(s.last())[j] == y;
            if j < r.len() {
                assert(r[j] == y);
                if s.drop_last().contains(y) {
                    let k = choose|k: int| 0 <= k < s.drop_last().len() && s.drop_last()[k] == y;
                    assert(s[k] == y);
                }
            } else {
                assert(s[s.len() - 1] == y);
            }
        }
    } else {
        if s.contains(y) {
            let i = choose|i: int| 0 <= i < s.len() && s[i] == y;
            assert(s.push(x)[i] == y);
        }
        if y == x {
            assert(s.push(x)[s.len() as int] == y);
        }
        if s.push(x).contains(y) {
            let j = choose|j: int| 0 <= j < s.len() + 1 && s.push(x)[j] == y;
            if j < s.len() {
                assert(s[j] == y);
            }
        }
    }
}

proof fn lemma_owner_pass_excludes(
    set: Seq<Seq<char>>,
    owner: Seq<char>,
    projects: Seq<Seq<char>>,
    name: Seq<char>,
    k: int,
)
    requires
        !set.contains(name),
    ensures
        !owner_pass(set, owner, projects, name, k).contains(name),
    decreases projects.len() - k,
{
    if 0 <= k < projects.len() {
        let v = owner + "/"@ + projects[k];
        if v != name {
            lemma_set_insert_contains(set, v, name);
        }
        let s2 = if v != name {
            set_insert(set, v)
        } else {
            set
        };
        if s2.len() < 256 {
            lemma_owner_pass_excludes(s2, owner, projects, name, k + 1);
        }
    }
}

proof fn lemma_owners_pass_excludes(
    set: Seq<Seq<char>>,
    owners: Seq<Seq<char>>,
    projects: Seq<Seq<char>>,
    name: Seq<char>,
    i: int,
)
    requires
        !set.contains(name),
    ensures
        !owners_pass(set, owners, projects, name, i).contains(name),
    decreases owners.len() - i,
{
    if 0 <= i < owners.len() {
        lemma_owner_pass_excludes(set, owners[i], projects, name, 0);
        lemma_owners_pass_excludes(
            owner_pass(set, owners[i], projects, name, 0),
            owners,
            projects,
            name,
            i + 1,
        );
    }
}

proof fn lemma_without_excludes(s: Seq<Seq<char>>, x: Seq<char>)
    ensures
        !without(s, x).contains(x),
    decreases s.len(),
{
    if s.len() > 0 {
        lemma_without_excludes(s.drop_last(), x);
        let r = without(s.drop_last(), x);
        if s.last() != x && r.push(s.last()).contains(x) {
            let j = choose|j: int| 0 <= j < r.len() + 1 && r.push(s.last())[j] == x;
            if j < r.len() {
                assert(r[j] == x);
            }
        }
    }
}

proof fn lemma_take_upto_within<A>(s: Seq<A>, n: int, y: A)
    requires
        n >= 0,
    ensures
        take_upto(s, n).len() <= n,
        take_upto(s, n).contains(y) ==> s.contains(y),
{
    if n < s.len() && s.take(n).contains(y) {
        let j = choose|j: int| 0 <= j < s.take(n).len() && s.take(n)[j] == y;
        assert(s[j] == y);
    }
}

/// HalluSquat candidates are bounded by 256 and never include the
/// requested name itself.
pub proof fn law_candidates_bounded_and_exclude_request(name: Seq<char>)
    ensures
        hallusquat_spec(name).len() <= MAX_HALLUSQUAT_CANDIDATES,
        !hallusquat_spec(name).contains(name),
{
    match crate::identity::owner_project_of(name) {
        None => {
            let w = without(project_variants_spec(name), name);
            lemma_without_excludes(project_variants_spec(name), name);
            lemma_take_upto_within(w, 256, name);
        },
        Some((o, p)) => {
            let all = owners_pass(
                Seq::<Seq<char>>::empty(),
                candidate_owners(o, p),
                project_variants_spec(p),
                name,
                0,
            );
            lemma_owners_pass_excludes(
                Seq::<Seq<char>>::empty(),
                candidate_owners(o, p),
                project_variants_spec(p),
                name,
                0,
            );
            lemma_take_upto_within(all, 256, name);
        },
    }
}


/// Everything inserted is in the set afterwards, with what was there.
proof fn lemma_set_insert_all_contains(s: Seq<Seq<char>>, xs: Seq<Seq<char>>, y: Seq<char>)
    ensures
        set_insert_all(s, xs).contains(y) <==> (s.contains(y) || xs.contains(y)),
    decreases xs.len(),
{
    if xs.len() > 0 {
        lemma_set_insert_all_contains(s, xs.drop_last(), y);
        lemma_set_insert_contains(set_insert_all(s, xs.drop_last()), xs.last(), y);
        if xs.drop_last().contains(y) {
            let k = choose|k: int| 0 <= k < xs.drop_last().len() && xs.drop_last()[k] == y;
            assert(xs[k] == y);
        }
        if xs.contains(y) {
            let k = choose|k: int| 0 <= k < xs.len() && xs[k] == y;
            if k < xs.len() - 1 {
                assert(xs.drop_last()[k] == y);
            }
        }
    }
}

/// The edits at every position below `n` are among the edits up to `n`.
proof fn lemma_edits_upto_contains(p: Seq<char>, n: int, k: int)
    requires
        0 <= k < n,
    ensures
        k + 1 < p.len() ==> edits_upto(p, n).contains(transposition(p, k)),
        deletion(p, k).len() > 0 ==> edits_upto(p, n).contains(deletion(p, k)),
    decreases n,
{
    let e = edits_upto(p, n);
    if k < n - 1 {
        lemma_edits_upto_contains(p, n - 1, k);
        let a = edits_upto(p, n - 1);
        assert(e == a + edits_at(p, n - 1));
        if k + 1 < p.len() {
            let j = choose|j: int| 0 <= j < a.len() && a[j] == transposition(p, k);
            assert(e[j] == a[j]);
        }
        if deletion(p, k).len() > 0 {
            let j = choose|j: int| 0 <= j < a.len() && a[j] == deletion(p, k);
            assert(e[j] == a[j]);
        }
    } else {
        let a = edits_upto(p, n - 1);
        let at = edits_at(p, k);
        assert(e == a + at);
        let d = if deletion(p, k).len() > 0 { 1int } else { 0int };
        if k + 1 < p.len() {
            assert(at[d] == transposition(p, k));
            assert(e[a.len() + d] == at[d]);
        }
        if deletion(p, k).len() > 0 {
            assert(at[0] == deletion(p, k));
            assert(e[a.len() as int] == at[0]);
        }
    }
}

/// The predictable variants of a project name include, for each of its
/// first 32 positions, the name with that character and the next swapped
/// and the name without that character (when something is left).
pub proof fn law_variants_hold_swaps_and_deletions(p: Seq<char>, k: int)
    requires
        0 <= k < 32,
        k < p.len(),
    ensures
        k + 1 < p.len() ==> project_variants_spec(p).contains(
            p.update(k, p[k + 1]).update(k + 1, p[k]),
        ),
        p.len() > 1 ==> project_variants_spec(p).contains(p.remove(k)),
{
    let n = min_int(32, p.len() as int);
    lemma_edits_upto_contains(p, n, k);
    let xs = affix_variants(p) + edits_upto(p, n);
    if k + 1 < p.len() {
        let t = p.update(k, p[k + 1]).update(k + 1, p[k]);
        assert(transposition(p, k) =~= t);
        let j = choose|j: int| 0 <= j < edits_upto(p, n).len() && edits_upto(p, n)[j] == t;
        assert(xs[affix_variants(p).len() + j] == t);
        lemma_set_insert_all_contains(Seq::<Seq<char>>::empty(), xs, t);
    }
    if p.len() > 1 {
        let d = p.remove(k);
        assert(deletion(p, k) =~= d);
        let j = choose|j: int| 0 <= j < edits_upto(p, n).len() && edits_upto(p, n)[j] == d;
        assert(xs[affix_variants(p).len() + j] == d);
        lemma_set_insert_all_contains(Seq::<Seq<char>>::empty(), xs, d);
    }
}


proof fn lemma_set_insert_len(s: Seq<Seq<char>>, x: Seq<char>)
    ensures
        set_insert(s, x).len() >= s.len(),
    decreases s.len(),
{
    if s.len() > 0 && s.last() != x && text_lt(x, s.last()) {
        lemma_set_insert_len(s.drop_last(), x);
    }
}

/// An owner pass keeps what the set held, never shrinks it, and, unless it
/// reached the bound, adds every `owner/<project>` other than the request.
proof fn lemma_owner_pass_grows(
    set: Seq<Seq<char>>,
    owner: Seq<char>,
    projects: Seq<Seq<char>>,
    name: Seq<char>,
    k: int,
)
    requires
        0 <= k,
    ensures
        owner_pass(set, owner, projects, name, k).len() >= set.len(),
        forall|y: Seq<char>| set.contains(y) ==> #[trigger] owner_pass(set, owner, projects, name, k).contains(y),
        owner_pass(set, owner, projects, name, k).len() < 256 ==> forall|j: int|
            k <= j < projects.len() && owner + "/"@ + projects[j] != name ==> #[trigger] owner_pass(
                set,
                owner,
                projects,
                name,
                k,
            ).contains(owner + "/"@ + projects[j]),
    decreases projects.len() - k,
{
    if k < projects.len() {
        let v = owner + "/"@ + projects[k];
        let s2 = if v != name {
            set_insert(set, v)
        } else {
            set
        };
        lemma_set_insert_len(set, v);
        assert forall|y: Seq<char>| set.contains(y) implies s2.contains(y) by {
            lemma_set_insert_contains(set, v, y);
        }
        if v != name {
            lemma_set_insert_contains(set, v, v);
        }
        if s2.len() < 256 {
            lemma_owner_pass_grows(s2, owner, projects, name, k + 1);
        }
    }
}

/// Later owner passes keep what the set held and never shrink it.
proof fn lemma_owners_pass_grows(
    set: Seq<Seq<char>>,
    owners: Seq<Seq<char>>,
    projects: Seq<Seq<char>>,
    name: Seq<char>,
    i: int,
)
    requires
        0 <= i,
    ensures
        owners_pass(set, owners, projects, name, i).len() >= set.len(),
        forall|y: Seq<char>| set.contains(y) ==> #[trigger] owners_pass(set, owners, projects, name, i).contains(y),
    decreases owners.len() - i,
{
    if i < owners.len() {
        let s1 = owner_pass(set, owners[i], projects, name, 0);
        lemma_owner_pass_grows(set, owners[i], projects, name, 0);
        lemma_owners_pass_grows(s1, owners, projects, name, i + 1);
    }
}

/// For `owner/project`, every predictable variant `owner/<variant>` of the
/// project other than the request itself is a HalluSquat candidate, unless
/// the candidates reach their bound of 256.
pub proof fn law_owner_variants_are_candidates(name: Seq<char>, o: Seq<char>, p: Seq<char>, v: Seq<char>)
    requires
        crate::identity::owner_project_of(name) == Some((o, p)),
        project_variants_spec(p).contains(v),
        o + "/"@ + v != name,
        owners_pass(
            Seq::<Seq<char>>::empty(),
            candidate_owners(o, p),
            project_variants_spec(p),
            name,
            0,
        ).len() < 256,
    ensures
        hallusquat_spec(name).contains(o + "/"@ + v),
{
    let owners = candidate_owners(o, p);
    let vs = project_variants_spec(p);
    let e = Seq::<Seq<char>>::empty();
    let first = owner_pass(e, owners[0], vs, name, 0);
    lemma_owner_pass_grows(e, owners[0], vs, name, 0);
    lemma_owners_pass_grows(first, owners, vs, name, 1);
    assert(owners_pass(e, owners, vs, name, 0) == owners_pass(first, owners, vs, name, 1));
    assert(owners[0] == o);
    let j = choose|j: int| 0 <= j < vs.len() && vs[j] == v;
    assert(first.contains(o + "/"@ + vs[j]));
}

} // verus!
