//! Stable sorting by a strict "comes before" relation, and text ordering.

use vstd::prelude::*;

verus! {

/// A type whose values have a deterministic output order, given on views.
pub trait Precedes: Sized + View {
    /// Whether a value with view `a` must come strictly before one with view `b`.
    spec fn order() -> spec_fn(Self::V, Self::V) -> bool;

    fn precedes_exec(&self, other: &Self) -> (r: bool)
        ensures
            r == (Self::order())(self@, other@),
    ;
}

/// The views of a sequence of values.
pub open spec fn views_of<T: View>(s: Seq<T>) -> Seq<T::V> {
    s.map_values(|x: T| x@)
}

/// `s` (already in order) with `x` placed after every element that it does
/// not strictly precede.
pub open spec fn insert_sorted<V>(s: Seq<V>, x: V, p: spec_fn(V, V) -> bool) -> Seq<V>
    decreases s.len(),
{
    if s.len() == 0 {
        seq![x]
    } else if p(x, s.last()) {
        insert_sorted(s.drop_last(), x, p).push(s.last())
    } else {
        s.push(x)
    }
}

/// The stable sort of `s` by the strict order `p`: what `slice::sort_by`
/// yields for a comparator whose `Less` is `p`, equal elements keeping their
/// input order.
pub open spec fn stable_sorted<V>(s: Seq<V>, p: spec_fn(V, V) -> bool) -> Seq<V>
    decreases s.len(),
{
    if s.len() == 0 {
        s
    } else {
        insert_sorted(stable_sorted(s.drop_last(), p), s.last(), p)
    }
}

proof fn lemma_insert_at<V>(s: Seq<V>, x: V, p: spec_fn(V, V) -> bool, j: int)
    requires
        0 <= j <= s.len(),
        forall|k: int| j <= k < s.len() ==> p(x, s[k]),
        j > 0 ==> !p(x, s[j - 1]),
    ensures
        insert_sorted(s, x, p) == s.insert(j, x),
    decreases s.len(),
{
    if s.len() == 0 {
        assert(s.insert(j, x) =~= seq![x]);
    } else if j == s.len() {
        assert(s.insert(j, x) =~= s.push(x));
    } else {
        assert(p(x, s.last()));
        lemma_insert_at(s.drop_last(), x, p, j);
        assert(s.insert(j, x) =~= s.drop_last().insert(j, x).push(s.last()));
    }
}

pub fn insert_in_order<T: Precedes>(v: &mut Vec<T>, x: T)
    ensures
        views_of(final(v)@) == insert_sorted(views_of(old(v)@), x@, T::order()),
{
    let ghost p = T::order();
    let mut j: usize = v.len();
    while j > 0 && x.precedes_exec(&v[j - 1])
        invariant
            j <= v.len(),
            p == T::order(),
            forall|k: int| j <= k < v.len() ==> p(x@, v@[k]@),
        decreases j,
    {
        j -= 1;
    }
    let ghost before = views_of(v@);
    proof {
        assert forall|k: int| j <= k < before.len() implies p(x@, before[k]) by {
            assert(before[k] == v@[k]@);
        }
        if j > 0 {
            assert(before[j - 1] == v@[j - 1]@);
        }
        lemma_insert_at(before, x@, p, j as int);
    }
    let ghost xv = x@;
    v.insert(j, x);
    proof {
        assert(views_of(v@) =~= before.insert(j as int, xv));
    }
}

pub fn stable_sort<T: Precedes>(v: Vec<T>) -> (out: Vec<T>)
    ensures
        views_of(out@) == stable_sorted(views_of(v@), T::order()),
{
    let ghost orig = v@;
    let mut rest = v;
    let mut rev: Vec<T> = Vec::new();
    while rest.len() > 0
        invariant
            rest@ + rev@.reverse() == orig,
        decreases rest.len(),
    {
        let ghost br = rev@;
        let ghost bp = rest@;
        let x = rest.pop().unwrap();
        rev.push(x);
        proof {
            assert(rest@ =~= bp.drop_last());
            assert(rev@.reverse() =~= seq![bp.last()] + br.reverse());
            assert(rest@ + rev@.reverse() =~= bp + br.reverse());
        }
    }
    let ghost n = orig.len();
    proof {
        assert(rev@.reverse() =~= orig);
        assert forall|k: int| 0 <= k < rev.len() implies #[trigger] rev@[k] == orig[n - 1 - k] by {
            assert(rev@.reverse()[n - 1 - k] == rev@[k]);
        }
    }
    let ghost ov = views_of(orig);
    let mut out: Vec<T> = Vec::new();
    while rev.len() > 0
        invariant
            n == orig.len(),
            ov == views_of(orig),
            rev.len() <= n,
            forall|k: int| 0 <= k < rev.len() ==> #[trigger] rev@[k] == orig[n - 1 - k],
            views_of(out@) == stable_sorted(ov.take(n - rev.len()), T::order()),
        decreases rev.len(),
    {
        let ghost i = n - rev.len();
        let ghost br = rev@;
        let x = rev.pop().unwrap();
        proof {
            assert(rev@ =~= br.drop_last());
            assert(x == br[br.len() - 1]);
            assert(x == orig[i]);
            assert(ov.take(i + 1).drop_last() =~= ov.take(i));
            assert(ov.take(i + 1).last() == x@);
        }
        insert_in_order(&mut out, x);
    }
    proof {
        assert(ov.take(n as int) == ov);
    }
    out
}

/// Inserting keeps every element and adds `x`.
pub proof fn lemma_insert_sorted_contains<V>(s: Seq<V>, x: V, p: spec_fn(V, V) -> bool, y: V)
    ensures
        insert_sorted(s, x, p).contains(y) <==> (s.contains(y) || y == x),
        insert_sorted(s, x, p).len() == s.len() + 1,
    decreases s.len(),
{
    if s.len() == 0 {
        if y == x {
            assert(seq![x][0] == x);
        }
    } else if p(x, s.last()) {
        let r = insert_sorted(s.drop_last(), x, p);
        lemma_insert_sorted_contains(s.drop_last(), x, p, y);
        if s.contains(y) {
            let i = choose|i: int| 0 <= i < s.len() && s[i] == y;
            if i < s.len() - 1 {
                assert(s.drop_last()[i] == y);
                let j = choose|j: int| 0 <= j < r.len() && r[j] == y;
                assert(r.push(s.last())[j] == y);
            } else {
                assert(r.push(s.last())[r.len() as int] == y);
            }
        }
        if y == x {
            let j = choose|j: int| 0 <= j < r.len() && r[j] == y;
            assert(r.push(s.last())[j] == y);
        }
        if r.push(s.last()).contains(y) {
            let j = choose|j: int| 0 <= j < r.len() + 1 && r.push(s.last())[j] == y;
            if j < r.len() {
                assert(r[j] == y);
                if s.drop_last().contains(y) {
                    let k = choose|k: int| 0 <= k < s.drop_last().len() && s.drop_last()[k] == y;
                    assert(s[k] == y);
                }
            } else {
                assert(s[s.len() - 1] == y);
            }
        }
    } else {
        if s.contains(y) {
            let i = choose|i: int| 0 <= i < s.len() && s[i] == y;
            assert(s.push(x)[i] == y);
        }
        if y == x {
            assert(s.push(x)[s.len() as int] == y);
        }
        if s.push(x).contains(y) {
            let j = choose|j: int| 0 <= j < s.len() + 1 && s.push(x)[j] == y;
            if j < s.len() {
                assert(s[j] == y);
            }
        }
    }
}

/// Sorting keeps exactly the elements it is given.
pub proof fn lemma_stable_sorted_contains<V>(s: Seq<V>, p: spec_fn(V, V) -> bool, y: V)
    ensures
        stable_sorted(s, p).contains(y) <==> s.contains(y),
        stable_sorted(s, p).len() == s.len(),
    decreases s.len(),
{
    if s.len() > 0 {
        lemma_stable_sorted_contains(s.drop_last(), p, y);
        lemma_insert_sorted_contains(stable_sorted(s.drop_last(), p), s.last(), p, y);
        if s.contains(y) {
            let i = choose|i: int| 0 <= i < s.len() && s[i] == y;
            if i < s.len() - 1 {
                assert(s.drop_last()[i] == y);
            }
        }
        if s.drop_last().contains(y) {
            let k = choose|k: int| 0 <= k < s.drop_last().len() && s.drop_last()[k] == y;
            assert(s[k] == y);
        }
    }
}

/// No element strictly precedes an earlier one.
pub open spec fn sorted_by<V>(s: Seq<V>, p: spec_fn(V, V) -> bool) -> bool {
    forall|i: int, j: int| 0 <= i < j < s.len() ==> !p(#[trigger] s[j], #[trigger] s[i])
}

/// A strict weak order: irreflexive, transitive, and negatively transitive
/// (equivalent elements are interchangeable).
pub open spec fn strict_weak<V>(p: spec_fn(V, V) -> bool) -> bool {
    &&& forall|a: V| !#[trigger] p(a, a)
    &&& forall|a: V, b: V, c: V| #[trigger] p(a, b) && #[trigger] p(b, c) ==> p(a, c)
    &&& forall|a: V, b: V, c: V| #[trigger] p(a, c) ==> p(a, b) || #[trigger] p(b, c)
}

proof fn lemma_insert_sorted_sorted<V>(s: Seq<V>, x: V, p: spec_fn(V, V) -> bool)
    requires
        sorted_by(s, p),
        strict_weak(p),
    ensures
        sorted_by(insert_sorted(s, x, p), p),
    decreases s.len(),
{
    if s.len() == 0 {
        assert(sorted_by(seq![x], p));
    } else if p(x, s.last()) {
        let d = s.drop_last();
        assert(sorted_by(d, p)) by {
            assert forall|i: int, j: int| 0 <= i < j < d.len() implies !p(
                #[trigger] d[j],
                #[trigger] d[i],
            ) by {
                assert(d[j] == s[j] && d[i] == s[i]);
            }
        }
        lemma_insert_sorted_sorted(d, x, p);
        let r = insert_sorted(d, x, p);
        let t = r.push(s.last());
        assert forall|i: int, j: int| 0 <= i < j < t.len() implies !p(#[trigger] t[j], #[trigger] t[i]) by {
            if j < r.len() {
                assert(t[j] == r[j] && t[i] == r[i]);
            } else {
                let y = r[i];
                assert(t[i] == y);
                lemma_insert_sorted_contains(d, x, p, y);
                assert(r.contains(y));
                if y == x {
                    if p(s.last(), x) {
                        assert(p(x, x));
                    }
                } else {
                    let k = choose|k: int| 0 <= k < d.len() && d[k] == y;
                    assert(s[k] == y);
                    assert(!p(s[s.len() - 1], s[k]));
                }
            }
        }
    } else {
        let t = s.push(x);
        assert forall|i: int, j: int| 0 <= i < j < t.len() implies !p(#[trigger] t[j], #[trigger] t[i]) by {
            if j < s.len() {
                assert(t[j] == s[j] && t[i] == s[i]);
            } else {
                assert(t[i] == s[i]);
                if i < s.len() - 1 {
                    assert(!p(s[s.len() - 1], s[i]));
                    if p(x, s[i]) {
                        assert(p(x, s[s.len() - 1]) || p(s[s.len() - 1], s[i]));
                    }
                }
            }
        }
    }
}

/// Sorting by a strict weak order yields a sorted sequence.
pub proof fn lemma_stable_sorted_sorted<V>(s: Seq<V>, p: spec_fn(V, V) -> bool)
    requires
        strict_weak(p),
    ensures
        sorted_by(stable_sorted(s, p), p),
    decreases s.len(),
{
    if s.len() > 0 {
        lemma_stable_sorted_sorted(s.drop_last(), p);
        lemma_insert_sorted_sorted(stable_sorted(s.drop_last(), p), s.last(), p);
    }
}

// ---------------------------------------------------------------------------
// Text order
// ---------------------------------------------------------------------------

/// Lexicographic order of character sequences by code point, which is the
/// order `String` comparison gives (UTF-8 preserves code point order).
pub open spec fn text_lt(a: Seq<char>, b: Seq<char>) -> bool
    decreases a.len(),
{
    if a.len() == 0 {
        b.len() > 0
    } else if b.len() == 0 {
        false
    } else if a[0] != b[0] {
        a[0] < b[0]
    } else {
        text_lt(a.drop_first(), b.drop_first())
    }
}

pub fn text_lt_exec(a: &[char], b: &[char]) -> (r: bool)
    ensures
        r == text_lt(a@, b@),
{
    let mut i: usize = 0;
    proof {
        assert(a@.skip(0) =~= a@);
        assert(b@.skip(0) =~= b@);
    }
    while i < a.len() && i < b.len() && a[i] == b[i]
        invariant
            i <= a.len(),
            i <= b.len(),
            text_lt(a@, b@) == text_lt(a@.skip(i as int), b@.skip(i as int)),
        decreases a.len() - i,
    {
        proof {
            assert(a@.skip(i as int).drop_first() =~= a@.skip(i + 1));
            assert(b@.skip(i as int).drop_first() =~= b@.skip(i + 1));
        }
        i += 1;
    }
    if i == a.len() {
        i < b.len()
    } else if i == b.len() {
        false
    } else {
        a[i] < b[i]
    }
}

pub proof fn lemma_text_lt_irreflexive(a: Seq<char>)
    ensures
        !text_lt(a, a),
    decreases a.len(),
{
    if a.len() > 0 {
        lemma_text_lt_irreflexive(a.drop_first());
    }
}

pub proof fn lemma_text_lt_trichotomy(a: Seq<char>, b: Seq<char>)
    ensures
        a == b || text_lt(a, b) || text_lt(b, a),
    decreases a.len(),
{
    if a.len() > 0 && b.len() > 0 && a[0] == b[0] {
        lemma_text_lt_trichotomy(a.drop_first(), b.drop_first());
        if a.drop_first() == b.drop_first() {
            assert(a =~= seq![a[0]] + a.drop_first());
            assert(b =~= seq![b[0]] + b.drop_first());
        }
    } else if a.len() == 0 && b.len() == 0 {
        assert(a =~= b);
    } else if a.len() > 0 && b.len() > 0 {
        assert(a[0] != b[0]);
        if a[0] < b[0] {
            assert(text_lt(a, b));
        } else {
            assert(text_lt(b, a));
        }
    }
}

pub proof fn lemma_text_lt_asymmetric(a: Seq<char>, b: Seq<char>)
    ensures
        text_lt(a, b) ==> !text_lt(b, a),
    decreases a.len(),
{
    if a.len() > 0 && b.len() > 0 && a[0] == b[0] {
        lemma_text_lt_asymmetric(a.drop_first(), b.drop_first());
    }
}

pub proof fn lemma_text_lt_transitive(a: Seq<char>, b: Seq<char>, c: Seq<char>)
    requires
        text_lt(a, b),
        text_lt(b, c),
    ensures
        text_lt(a, c),
    decreases a.len(),
{
    if a.len() > 0 && b.len() > 0 && c.len() > 0 && a[0] == b[0] && b[0] == c[0] {
        lemma_text_lt_transitive(a.drop_first(), b.drop_first(), c.drop_first());
    }
}

} // verus!
