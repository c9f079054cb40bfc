//! Character-level string helpers with exact specifications.
//!
//! Text is handled as sequences of `char`; every helper states its result as a
//! function of the input characters.

use vstd::prelude::*;

verus! {

// ---------------------------------------------------------------------------
// Character classes
// ---------------------------------------------------------------------------

pub open spec fn is_digit(c: char) -> bool {
    '0' <= c && c <= '9'
}

pub open spec fn is_lower(c: char) -> bool {
    'a' <= c && c <= 'z'
}

pub open spec fn is_upper(c: char) -> bool {
    'A' <= c && c <= 'Z'
}

pub open spec fn is_alpha(c: char) -> bool {
    is_lower(c) || is_upper(c)
}

pub open spec fn is_alnum(c: char) -> bool {
    is_alpha(c) || is_digit(c)
}

/// Unicode general category `Cc`.
pub open spec fn is_control(c: char) -> bool {
    (c as u32) <= 0x1f || (0x7f <= (c as u32) && (c as u32) <= 0x9f)
}

/// The Unicode `White_Space` property.
pub open spec fn is_white(c: char) -> bool {
    let u = c as u32;
    (0x09 <= u && u <= 0x0d) || u == 0x20 || u == 0x85 || u == 0xa0 || u == 0x1680 || (0x2000
        <= u && u <= 0x200a) || u == 0x2028 || u == 0x2029 || u == 0x202f || u == 0x205f || u
        == 0x3000
}

pub open spec fn lower_char(c: char) -> char {
    if is_upper(c) {
        ((c as u32) + 32) as char
    } else {
        c
    }
}

pub open spec fn lower(s: Seq<char>) -> Seq<char> {
    s.map_values(|c: char| lower_char(c))
}

/// Number of bytes of the UTF-8 encoding of `c`.
pub open spec fn char_width(c: char) -> nat {
    if (c as u32) < 0x80 {
        1
    } else if (c as u32) < 0x800 {
        2
    } else if (c as u32) < 0x10000 {
        3
    } else {
        4
    }
}

/// Number of bytes of the UTF-8 encoding of `s`.
pub open spec fn utf8_len(s: Seq<char>) -> nat
    decreases s.len(),
{
    if s.len() == 0 {
        0
    } else {
        utf8_len(s.drop_last()) + char_width(s.last())
    }
}

pub fn char_is_alnum(c: char) -> (r: bool)
    ensures
        r == is_alnum(c),
{
    ('a' <= c && c <= 'z') || ('A' <= c && c <= 'Z') || ('0' <= c && c <= '9')
}

pub fn char_is_control(c: char) -> (r: bool)
    ensures
        r == is_control(c),
{
    let u = c as u32;
    u <= 0x1f || (0x7f <= u && u <= 0x9f)
}

pub fn char_is_white(c: char) -> (r: bool)
    ensures
        r == is_white(c),
{
    let u = c as u32;
    (0x09 <= u && u <= 0x0d) || u == 0x20 || u == 0x85 || u == 0xa0 || u == 0x1680 || (0x2000
        <= u && u <= 0x200a) || u == 0x2028 || u == 0x2029 || u == 0x202f || u == 0x205f || u
        == 0x3000
}

pub fn char_lower(c: char) -> (r: char)
    ensures
        r == lower_char(c),
{
    if 'A' <= c && c <= 'Z' {
        let u = (c as u32) + 32;
        proof {
            assert(0x61 <= u <= 0x7a);
        }
        char_from_ascii(u)
    } else {
        c
    }
}

pub fn char_from_ascii(u: u32) -> (r: char)
    requires
        u < 0x80,
    ensures
        r == (u as char),
        r as u32 == u,
{
    let b = u as u8;
    b as char
}

pub fn char_width_of(c: char) -> (r: usize)
    ensures
        r == char_width(c),
{
    let u = c as u32;
    if u < 0x80 {
        1
    } else if u < 0x800 {
        2
    } else if u < 0x10000 {
        3
    } else {
        4
    }
}

// ---------------------------------------------------------------------------
// Conversions
// ---------------------------------------------------------------------------

/// The characters of `s`, in order.
pub fn chars_of(s: &str) -> (out: Vec<char>)
    ensures
        out@ == s@,
{
    let mut out: Vec<char> = Vec::new();
    for c in it: s.chars()
        invariant
            out@ == it.seq().take(it.index() as int),
            it.seq() == s@,
    {
        out.push(c);
    }
    out
}

/// Appends one character to a `String` (`String::push`).
#[verifier::external_body]
fn push_char(s: &mut String, c: char)
    ensures
        final(s)@ == old(s)@.push(c),
{
    s.push(c);
}

/// A `String` holding exactly `chars`.
pub fn string_of(chars: &[char]) -> (out: String)
    ensures
        out@ == chars@,
{
    let mut out = String::new();
    let mut i: usize = 0;
    while i < chars.len()
        invariant
            i <= chars.len(),
            out@ == chars@.take(i as int),
        decreases chars.len() - i,
    {
        push_char(&mut out, chars[i]);
        proof {
            assert(chars@.take(i + 1) == chars@.take(i as int).push(chars@[i as int]));
        }
        i += 1;
    }
    proof {
        assert(chars@.take(chars.len() as int) == chars@);
    }
    out
}

/// A `String` holding exactly the characters of the literal `s`.
pub fn owned(s: &str) -> (out: String)
    ensures
        out@ == s@,
{
    s.to_owned()
}

pub fn lower_chars(s: &[char]) -> (out: Vec<char>)
    ensures
        out@ == lower(s@),
{
    let mut out: Vec<char> = Vec::new();
    let mut i: usize = 0;
    while i < s.len()
        invariant
            i <= s.len(),
            out@ == lower(s@.take(i as int)),
        decreases s.len() - i,
    {
        let c = char_lower(s[i]);
        out.push(c);
        proof {
            assert(lower(s@.take(i + 1)) == lower(s@.take(i as int)).push(lower_char(s@[i as int])));
        }
        i += 1;
    }
    proof {
        assert(s@.take(s.len() as int) == s@);
    }
    out
}

// ---------------------------------------------------------------------------
// Equality, prefixes, suffixes, search
// ---------------------------------------------------------------------------

pub fn chars_eq(a: &[char], b: &[char]) -> (r: bool)
    ensures
        r == (a@ == b@),
{
    if a.len() != b.len() {
        return false;
    }
    let mut i: usize = 0;
    while i < a.len()
        invariant
            i <= a.len(),
            a.len() == b.len(),
            forall|k: int| 0 <= k < i ==> a@[k] == b@[k],
        decreases a.len() - i,
    {
        if a[i] != b[i] {
            return false;
        }
        i += 1;
    }
    proof {
        assert(a@ =~= b@);
    }
    true
}

/// Whether two strings hold the same characters.
pub fn str_eq(a: &str, b: &str) -> (r: bool)
    ensures
        r == (a@ == b@),
{
    let ac = chars_of(a);
    let bc = chars_of(b);
    chars_eq(ac.as_slice(), bc.as_slice())
}

pub open spec fn starts_with(s: Seq<char>, p: Seq<char>) -> bool {
    p.len() <= s.len() && s.take(p.len() as int) == p
}

pub open spec fn ends_with(s: Seq<char>, p: Seq<char>) -> bool {
    p.len() <= s.len() && s.skip(s.len() - p.len()) == p
}

/// `t` occurs in `s` at position `i`.
pub open spec fn occurs_at(s: Seq<char>, t: Seq<char>, i: int) -> bool {
    0 <= i && i + t.len() <= s.len() && s.subrange(i, i + t.len()) == t
}

pub open spec fn contains_sub(s: Seq<char>, t: Seq<char>) -> bool {
    exists|i: int| occurs_at(s, t, i)
}

pub fn has_prefix(s: &[char], p: &[char]) -> (r: bool)
    ensures
        r == starts_with(s@, p@),
{
    if p.len() > s.len() {
        return false;
    }
    let mut i: usize = 0;
    while i < p.len()
        invariant
            i <= p.len(),
            p.len() <= s.len(),
            forall|k: int| 0 <= k < i ==> s@[k] == p@[k],
        decreases p.len() - i,
    {
        if s[i] != p[i] {
            return false;
        }
        i += 1;
    }
    proof {
        assert(s@.take(p.len() as int) =~= p@);
    }
    true
}

pub fn has_suffix(s: &[char], p: &[char]) -> (r: bool)
    ensures
        r == ends_with(s@, p@),
{
    if p.len() > s.len() {
        return false;
    }
    let off = s.len() - p.len();
    let mut i: usize = 0;
    while i < p.len()
        invariant
            i <= p.len(),
            off + p.len() == s.len(),
            forall|k: int| 0 <= k < i ==> s@[off + k] == p@[k],
        decreases p.len() - i,
    {
        if s[off + i] != p[i] {
            proof {
                assert(s@.skip(off as int)[i as int] != p@[i as int]);
            }
            return false;
        }
        i += 1;
    }
    proof {
        assert(s@.skip(off as int) =~= p@);
    }
    true
}

/// Whether `t` occurs in `s` at position `i`.
pub fn occurs_at_exec(s: &[char], t: &[char], i: usize) -> (r: bool)
    ensures
        r == occurs_at(s@, t@, i as int),
{
    if i > s.len() || t.len() > s.len() - i {
        return false;
    }
    let mut k: usize = 0;
    while k < t.len()
        invariant
            k <= t.len(),
            i + t.len() <= s.len(),
            forall|j: int| 0 <= j < k ==> s@[i + j] == t@[j],
        decreases t.len() - k,
    {
        if s[i + k] != t[k] {
            proof {
                assert(s@.subrange(i as int, i + t.len())[k as int] != t@[k as int]);
            }
            return false;
        }
        k += 1;
    }
    proof {
        assert(s@.subrange(i as int, i + t.len()) =~= t@);
    }
    true
}

/// The first position at which `t` occurs in `s`.
pub open spec fn first_occurrence(s: Seq<char>, t: Seq<char>, i: int) -> bool {
    occurs_at(s, t, i) && forall|j: int| 0 <= j < i ==> !occurs_at(s, t, j)
}

pub fn find_sub(s: &[char], t: &[char]) -> (r: Option<usize>)
    ensures
        r matches Some(i) ==> first_occurrence(s@, t@, i as int),
        r is None ==> !contains_sub(s@, t@),
{
    if t.len() > s.len() {
        return None;
    }
    let last = s.len() - t.len();
    let mut i: usize = 0;
    while i < last
        invariant
            i <= last,
            last + t.len() == s.len(),
            forall|j: int| 0 <= j < i ==> !occurs_at(s@, t@, j),
        decreases last - i,
    {
        if occurs_at_exec(s, t, i) {
            return Some(i);
        }
        i += 1;
    }
    if occurs_at_exec(s, t, last) {
        return Some(last);
    }
    proof {
        assert forall|j: int| !occurs_at(s@, t@, j) by {
            if 0 <= j && j < i {
            }
        }
    }
    None
}

pub fn contains_chars(s: &[char], t: &[char]) -> (r: bool)
    ensures
        r == contains_sub(s@, t@),
{
    match find_sub(s, t) {
        Some(_) => true,
        None => false,
    }
}

/// Whether the literal `t` occurs in `s`.
pub fn contains_str(s: &[char], t: &str) -> (r: bool)
    ensures
        r == contains_sub(s@, t@),
{
    let tc = chars_of(t);
    contains_chars(s, tc.as_slice())
}

pub fn has_prefix_str(s: &[char], p: &str) -> (r: bool)
    ensures
        r == starts_with(s@, p@),
{
    let pc = chars_of(p);
    has_prefix(s, pc.as_slice())
}

pub fn has_suffix_str(s: &[char], p: &str) -> (r: bool)
    ensures
        r == ends_with(s@, p@),
{
    let pc = chars_of(p);
    has_suffix(s, pc.as_slice())
}

pub open spec fn has_char(s: Seq<char>, c: char) -> bool {
    exists|i: int| 0 <= i < s.len() && s[i] == c
}

/// The first index of `c` in `s`.
pub fn find_char(s: &[char], c: char) -> (r: Option<usize>)
    ensures
        r matches Some(i) ==> i < s@.len() && s@[i as int] == c && forall|j: int|
            0 <= j < i ==> s@[j] != c,
        r is None ==> !has_char(s@, c),
{
    let mut i: usize = 0;
    while i < s.len()
        invariant
            i <= s.len(),
            forall|j: int| 0 <= j < i ==> s@[j] != c,
        decreases s.len() - i,
    {
        if s[i] == c {
            return Some(i);
        }
        i += 1;
    }
    None
}

/// The last index of `c` in `s`.
pub fn rfind_char(s: &[char], c: char) -> (r: Option<usize>)
    ensures
        r matches Some(i) ==> i < s@.len() && s@[i as int] == c && forall|j: int|
            i < j < s@.len() ==> s@[j] != c,
        r is None ==> !has_char(s@, c),
{
    let mut i: usize = s.len();
    while i > 0
        invariant
            i <= s.len(),
            forall|j: int| i <= j < s@.len() ==> s@[j] != c,
        decreases i,
    {
        if s[i - 1] == c {
            return Some(i - 1);
        }
        i -= 1;
    }
    None
}

pub fn has_char_exec(s: &[char], c: char) -> (r: bool)
    ensures
        r == has_char(s@, c),
{
    match find_char(s, c) {
        Some(_) => true,
        None => false,
    }
}

/// `s[lo..hi]`.
pub fn slice_chars(s: &[char], lo: usize, hi: usize) -> (out: Vec<char>)
    requires
        lo <= hi <= s@.len(),
    ensures
        out@ == s@.subrange(lo as int, hi as int),
{
    let mut out: Vec<char> = Vec::new();
    let mut i: usize = lo;
    while i < hi
        invariant
            lo <= i <= hi <= s@.len(),
            out@ == s@.subrange(lo as int, i as int),
        decreases hi - i,
    {
        out.push(s[i]);
        proof {
            assert(s@.subrange(lo as int, i + 1) == s@.subrange(lo as int, i as int).push(
                s@[i as int],
            ));
        }
        i += 1;
    }
    out
}

// ---------------------------------------------------------------------------
// Trimming
// ---------------------------------------------------------------------------

/// Strips characters satisfying `p` at both ends.
pub open spec fn trim_by(s: Seq<char>, p: spec_fn(char) -> bool) -> Seq<char>
    decreases s.len(),
{
    if s.len() > 0 && p(s[0]) {
        trim_by(s.drop_first(), p)
    } else if s.len() > 0 && p(s.last()) {
        trim_by(s.drop_last(), p)
    } else {
        s
    }
}

/// `str::trim`: strips Unicode white space at both ends.
pub open spec fn trim(s: Seq<char>) -> Seq<char> {
    trim_by(s, trim_pred(TrimKind::White))
}

/// `str::trim_matches(c)` for a single character.
pub open spec fn trim_char(s: Seq<char>, c: char) -> Seq<char> {
    trim_by(s, trim_pred(TrimKind::Char(c)))
}

proof fn lemma_trim_window(s: Seq<char>, p: spec_fn(char) -> bool, lo: int, hi: int)
    requires
        0 <= lo <= hi <= s.len(),
        forall|k: int| 0 <= k < lo ==> p(s[k]),
    ensures
        trim_by(s.subrange(0, hi), p) == trim_by(s.subrange(lo, hi), p),
    decreases lo,
{
    if lo > 0 {
        lemma_trim_window(s, p, lo - 1, hi);
        let w = s.subrange(lo - 1, hi);
        assert(w.drop_first() == s.subrange(lo, hi));
        assert(w[0] == s[lo - 1]);
    }
}

proof fn lemma_trim_all(s: Seq<char>, p: spec_fn(char) -> bool)
    requires
        forall|k: int| 0 <= k < s.len() ==> p(s[k]),
    ensures
        trim_by(s, p) =~= Seq::<char>::empty(),
    decreases s.len(),
{
    if s.len() > 0 {
        assert forall|k: int| 0 <= k < s.drop_first().len() implies p(s.drop_first()[k]) by {
            assert(s.drop_first()[k] == s[k + 1]);
        }
        lemma_trim_all(s.drop_first(), p);
    }
}

proof fn lemma_trim_tail(s: Seq<char>, p: spec_fn(char) -> bool, hi: int)
    requires
        0 < hi <= s.len(),
        forall|k: int| hi <= k < s.len() ==> p(s[k]),
        !p(s[0]),
    ensures
        trim_by(s, p) == trim_by(s.subrange(0, hi), p),
    decreases s.len() - hi,
{
    if hi < s.len() {
        lemma_trim_tail(s, p, hi + 1);
        let w = s.subrange(0, hi + 1);
        assert(w.drop_last() == s.subrange(0, hi));
        assert(w[0] == s[0]);
        assert(w.last() == s[hi]);
    } else {
        assert(s.subrange(0, hi) == s);
    }
}

/// A trimmed sequence neither starts nor ends with a trimmed character.
pub proof fn lemma_trim_ends(s: Seq<char>, p: spec_fn(char) -> bool)
    ensures
        trim_by(s, p).len() > 0 ==> !p(trim_by(s, p)[0]) && !p(trim_by(s, p).last()),
    decreases s.len(),
{
    if s.len() > 0 && p(s[0]) {
        lemma_trim_ends(s.drop_first(), p);
    } else if s.len() > 0 && p(s.last()) {
        lemma_trim_ends(s.drop_last(), p);
    }
}

/// Which characters a trim removes.
pub enum TrimKind {
    White,
    Char(char),
}

pub open spec fn trim_pred(k: TrimKind) -> spec_fn(char) -> bool {
    match k {
        TrimKind::White => |c: char| is_white(c),
        TrimKind::Char(x) => |c: char| c == x,
    }
}

fn trims(k: &TrimKind, c: char) -> (r: bool)
    ensures
        r == (trim_pred(*k))(c),
{
    match k {
        TrimKind::White => char_is_white(c),
        TrimKind::Char(x) => c == *x,
    }
}

pub fn trim_exec(s: &[char], k: TrimKind) -> (out: Vec<char>)
    ensures
        out@ == trim_by(s@, trim_pred(k)),
{
    let ghost p = trim_pred(k);
    let mut lo: usize = 0;
    while lo < s.len() && trims(&k, s[lo])
        invariant
            lo <= s.len(),
            p == trim_pred(k),
            forall|j: int| 0 <= j < lo ==> p(s@[j]),
        decreases s.len() - lo,
    {
        lo += 1;
    }
    let mut hi: usize = s.len();
    while hi > lo && trims(&k, s[hi - 1])
        invariant
            lo <= hi <= s.len(),
            p == trim_pred(k),
            forall|j: int| hi <= j < s@.len() ==> p(s@[j]),
        decreases hi,
    {
        hi -= 1;
    }
    proof {
        lemma_trim_window(s@, p, lo as int, s@.len() as int);
        assert(s@.subrange(0, s@.len() as int) == s@);
        let t = s@.subrange(lo as int, s@.len() as int);
        if lo == hi {
            assert forall|j: int| 0 <= j < t.len() implies p(t[j]) by {
                assert(t[j] == s@[lo + j]);
            }
            lemma_trim_all(t, p);
            assert(s@.subrange(lo as int, hi as int) =~= Seq::<char>::empty());
        } else {
            assert forall|j: int| hi - lo <= j < t.len() implies p(t[j]) by {
                assert(t[j] == s@[lo + j]);
            }
            assert(t[0] == s@[lo as int]);
            lemma_trim_tail(t, p, hi - lo);
            assert(t.subrange(0, hi - lo) == s@.subrange(lo as int, hi as int));
        }
    }
    slice_chars(s, lo, hi)
}

pub fn trim_chars(s: &[char]) -> (out: Vec<char>)
    ensures
        out@ == trim(s@),
{
    trim_exec(s, TrimKind::White)
}

pub fn trim_char_exec(s: &[char], c: char) -> (out: Vec<char>)
    ensures
        out@ == trim_char(s@, c),
{
    trim_exec(s, TrimKind::Char(c))
}

// ---------------------------------------------------------------------------
// Splitting, lines, replacement, joining
// ---------------------------------------------------------------------------

/// `str::split(c)`: the pieces of `s` between occurrences of `c`.
pub open spec fn split(s: Seq<char>, c: char) -> Seq<Seq<char>>
    decreases s.len(),
{
    if s.len() == 0 {
        seq![Seq::<char>::empty()]
    } else {
        let p = split(s.drop_last(), c);
        if s.last() == c {
            p.push(Seq::<char>::empty())
        } else {
            p.update(p.len() - 1, p.last().push(s.last()))
        }
    }
}

pub proof fn lemma_split_nonempty(s: Seq<char>, c: char)
    ensures
        split(s, c).len() >= 1,
    decreases s.len(),
{
    if s.len() > 0 {
        lemma_split_nonempty(s.drop_last(), c);
    }
}

/// A sequence without the separator splits into itself alone.
pub proof fn lemma_split_single(s: Seq<char>, c: char)
    requires
        forall|i: int| 0 <= i < s.len() ==> s[i] != c,
    ensures
        split(s, c) == seq![s],
    decreases s.len(),
{
    if s.len() > 0 {
        assert forall|i: int| 0 <= i < s.drop_last().len() implies s.drop_last()[i] != c by {
            assert(s.drop_last()[i] == s[i]);
        }
        lemma_split_single(s.drop_last(), c);
        assert(s.last() == s[s.len() - 1]);
        assert(s.drop_last().push(s.last()) =~= s);
    } else {
        assert(s =~= Seq::<char>::empty());
    }
}

/// Splitting `a`, the separator, then a piece without it adds that piece.
pub proof fn lemma_split_push(a: Seq<char>, b: Seq<char>, c: char)
    requires
        forall|i: int| 0 <= i < b.len() ==> b[i] != c,
    ensures
        split(a + seq![c] + b, c) == split(a, c).push(b),
    decreases b.len(),
{
    let s = a + seq![c] + b;
    if b.len() == 0 {
        assert(s =~= a.push(c));
        assert(s.drop_last() =~= a);
        assert(b =~= Seq::<char>::empty());
    } else {
        let b0 = b.drop_last();
        assert forall|i: int| 0 <= i < b0.len() implies b0[i] != c by {
            assert(b0[i] == b[i]);
        }
        lemma_split_push(a, b0, c);
        assert(s.drop_last() =~= a + seq![c] + b0);
        assert(s.last() == b[b.len() - 1]);
        assert(b0.push(b.last()) =~= b);
        let p = split(a, c);
        assert(p.push(b0).update(p.len() as int, b0.push(b.last())) =~= p.push(b));
    }
}

/// Pieces without the separator, joined by it and split again, come back.
pub proof fn lemma_join_split(p: Seq<Seq<char>>, c: char)
    requires
        p.len() >= 1,
        forall|i: int, j: int| #![trigger p[i][j]] 0 <= i < p.len() && 0 <= j < p[i].len() ==> p[i][j] != c,
    ensures
        split(join(p, seq![c]), c) == p,
    decreases p.len(),
{
    if p.len() == 1 {
        assert forall|j: int| 0 <= j < p[0].len() implies p[0][j] != c by {
            assert(p[0][j] != c);
        }
        lemma_split_single(p[0], c);
        assert(p =~= seq![p[0]]);
    } else {
        let q = p.drop_last();
        assert forall|i: int, j: int| #![trigger q[i][j]] 0 <= i < q.len() && 0 <= j < q[i].len() implies q[i][j] != c by {
            assert(q[i] == p[i]);
            assert(p[i][j] != c);
        }
        lemma_join_split(q, c);
        let b = p.last();
        assert forall|j: int| 0 <= j < b.len() implies b[j] != c by {
            assert(p[p.len() - 1][j] != c);
        }
        lemma_split_push(join(q, seq![c]), b, c);
        assert(q.push(b) =~= p);
    }
}

/// The pieces of a split hold no separator, and every character of theirs
/// satisfies what every other character of the text satisfies.
pub proof fn lemma_split_pieces(s: Seq<char>, c: char, pred: spec_fn(char) -> bool)
    requires
        forall|k: int| 0 <= k < s.len() && s[k] != c ==> pred(#[trigger] s[k]),
    ensures
        forall|i: int, j: int| #![trigger split(s, c)[i][j]]
            0 <= i < split(s, c).len() && 0 <= j < split(s, c)[i].len() ==> split(s, c)[i][j] != c
                && pred(split(s, c)[i][j]),
    decreases s.len(),
{
    if s.len() > 0 {
        let d = s.drop_last();
        assert forall|k: int| 0 <= k < d.len() && d[k] != c implies pred(#[trigger] d[k]) by {
            assert(d[k] == s[k]);
        }
        lemma_split_pieces(d, c, pred);
        lemma_split_nonempty(d, c);
        let p = split(d, c);
        if s.last() == c {
            let q = p.push(Seq::<char>::empty());
            assert(split(s, c) == q);
            assert forall|i: int, j: int| #![trigger q[i][j]] 0 <= i < q.len() && 0 <= j < q[i].len() implies q[i][j] != c && pred(q[i][j]) by {
                assert(q[i] == p[i]);
            }
        } else {
            let q = p.update(p.len() - 1, p.last().push(s.last()));
            assert(split(s, c) == q);
            assert(pred(s[s.len() - 1]));
            assert forall|i: int, j: int| #![trigger q[i][j]] 0 <= i < q.len() && 0 <= j < q[i].len() implies q[i][j] != c && pred(q[i][j]) by {
                if i < p.len() - 1 {
                    assert(q[i] == p[i]);
                } else {
                    assert(q[i] == p.last().push(s.last()));
                    if j < p.last().len() {
                        assert(q[i][j] == p[p.len() - 1][j]);
                    } else {
                        assert(q[i][j] == s[s.len() - 1]);
                    }
                }
            }
        }
    }
}

/// The character sequences held by a vector of character vectors.
pub open spec fn views(v: Seq<Vec<char>>) -> Seq<Seq<char>> {
    v.map_values(|x: Vec<char>| x@)
}

pub fn split_chars(s: &[char], c: char) -> (out: Vec<Vec<char>>)
    ensures
        views(out@) == split(s@, c),
{
    let mut parts: Vec<Vec<char>> = Vec::new();
    let mut cur: Vec<char> = Vec::new();
    let mut i: usize = 0;
    proof {
        assert(s@.take(0) =~= Seq::<char>::empty());
        assert(views(parts@).push(cur@) =~= seq![Seq::<char>::empty()]);
    }
    while i < s.len()
        invariant
            i <= s.len(),
            views(parts@).push(cur@) == split(s@.take(i as int), c),
        decreases s.len() - i,
    {
        let ghost before = views(parts@).push(cur@);
        proof {
            assert(s@.take(i + 1).drop_last() == s@.take(i as int));
            lemma_split_nonempty(s@.take(i as int), c);
        }
        if s[i] == c {
            let done = cur;
            parts.push(done);
            cur = Vec::new();
            proof {
                assert(views(parts@).push(cur@) =~= before.push(Seq::<char>::empty()));
            }
        } else {
            cur.push(s[i]);
            proof {
                assert(views(parts@).push(cur@) =~= before.update(
                    before.len() - 1,
                    before.last().push(s@[i as int]),
                ));
            }
        }
        i += 1;
    }
    let ghost pv = views(parts@);
    let ghost cv = cur@;
    parts.push(cur);
    proof {
        assert(views(parts@) =~= pv.push(cv));
        assert(s@.take(s.len() as int) == s@);
    }
    parts
}

pub open spec fn strip_cr(l: Seq<char>) -> Seq<char> {
    if l.len() > 0 && l.last() == '\r' {
        l.drop_last()
    } else {
        l
    }
}

/// `str::lines`: lines split at `\n`, a `\r` before the `\n` removed, and no
/// empty final line after a trailing line ending.
pub open spec fn lines(s: Seq<char>) -> Seq<Seq<char>> {
    let p = split(s, '\n');
    let body = p.drop_last().map_values(|l: Seq<char>| strip_cr(l));
    if p.last().len() > 0 {
        body.push(p.last())
    } else {
        body
    }
}

/// Splitting a text that ends with the separator, followed by more text:
/// the pieces of the first, then those of the second.
pub proof fn lemma_split_concat(a: Seq<char>, b: Seq<char>, c: char)
    requires
        a.len() > 0,
        a.last() == c,
    ensures
        split(a + b, c) == split(a, c).drop_last() + split(b, c),
    decreases b.len(),
{
    lemma_split_nonempty(a.drop_last(), c);
    assert(split(a, c) == split(a.drop_last(), c).push(Seq::<char>::empty()));
    if b.len() == 0 {
        assert(a + b =~= a);
        assert(split(b, c) == seq![Seq::<char>::empty()]);
        assert(split(a, c).drop_last() + split(b, c) =~= split(a, c));
    } else {
        let b0 = b.drop_last();
        lemma_split_concat(a, b0, c);
        lemma_split_nonempty(b0, c);
        assert((a + b).drop_last() =~= a + b0);
        assert((a + b).last() == b.last());
        let x = split(a, c).drop_last();
        let q = split(b0, c);
        if b.last() == c {
            assert((x + q).push(Seq::<char>::empty()) =~= x + q.push(Seq::<char>::empty()));
        } else {
            assert((x + q).update((x + q).len() - 1, (x + q).last().push(b.last())) =~= x + q.update(
                q.len() - 1,
                q.last().push(b.last()),
            ));
        }
    }
}

/// The lines of a text ending with a line break come first among the lines
/// of that text followed by more.
pub proof fn lemma_lines_prefix(t: Seq<char>, u: Seq<char>)
    requires
        t.len() > 0,
        t.last() == '\n',
    ensures
        lines(t + u).len() >= lines(t).len(),
        lines(t + u).take(lines(t).len() as int) == lines(t),
{
    lemma_split_concat(t, u, '\n');
    lemma_split_nonempty(t.drop_last(), '\n');
    lemma_split_nonempty(u, '\n');
    let pt = split(t, '\n');
    let pu = split(u, '\n');
    let p = split(t + u, '\n');
    assert(pt == split(t.drop_last(), '\n').push(Seq::<char>::empty()));
    assert(pt.last().len() == 0);
    let head = pt.drop_last().map_values(|l: Seq<char>| strip_cr(l));
    assert(lines(t) == head);
    assert(p.drop_last() =~= pt.drop_last() + pu.drop_last());
    let body = p.drop_last().map_values(|l: Seq<char>| strip_cr(l));
    assert(body.take(head.len() as int) =~= head);
    if p.last().len() > 0 {
        assert(body.push(p.last()).take(head.len() as int) =~= head);
    }
}

pub fn strip_cr_exec(l: Vec<char>) -> (out: Vec<char>)
    ensures
        out@ == strip_cr(l@),
{
    let mut l = l;
    if l.len() > 0 && l[l.len() - 1] == '\r' {
        l.pop();
    }
    l
}

pub fn lines_of(s: &[char]) -> (out: Vec<Vec<char>>)
    ensures
        views(out@) == lines(s@),
{
    let mut out: Vec<Vec<char>> = Vec::new();
    let mut cur: Vec<char> = Vec::new();
    let mut i: usize = 0;
    proof {
        assert(s@.take(0) =~= Seq::<char>::empty());
        assert(views(out@) =~= Seq::<Seq<char>>::empty());
    }
    while i < s.len()
        invariant
            i <= s.len(),
            split(s@.take(i as int), '\n').len() >= 1,
            views(out@) == split(s@.take(i as int), '\n').drop_last().map_values(
                |l: Seq<char>| strip_cr(l),
            ),
            cur@ == split(s@.take(i as int), '\n').last(),
        decreases s.len() - i,
    {
        let ghost p = split(s@.take(i as int), '\n');
        proof {
            assert(s@.take(i + 1).drop_last() == s@.take(i as int));
        }
        if s[i] == '\n' {
            let ghost ov = views(out@);
            let done = strip_cr_exec(cur);
            let ghost dv = done@;
            out.push(done);
            proof {
                assert(views(out@) =~= ov.push(dv));
                assert(p.map_values(|l: Seq<char>| strip_cr(l)) =~= p.drop_last().map_values(
                    |l: Seq<char>| strip_cr(l),
                ).push(strip_cr(p.last())));
            }
            cur = Vec::new();
            proof {
                let q = p.push(Seq::<char>::empty());
                assert(q.drop_last() == p);
                assert(p == p.drop_last().push(p.last()));
                assert(views(out@) =~= q.drop_last().map_values(|l: Seq<char>| strip_cr(l)));
            }
        } else {
            cur.push(s[i]);
            proof {
                let q = p.update(p.len() - 1, p.last().push(s@[i as int]));
                assert(q.drop_last() =~= p.drop_last());
            }
        }
        i += 1;
    }
    proof {
        assert(s@.take(s.len() as int) == s@);
    }
    if cur.len() > 0 {
        out.push(cur);
    }
    out
}

/// Replace every occurrence of the character `c` by `w`.
pub open spec fn replace_char(s: Seq<char>, c: char, w: Seq<char>) -> Seq<char>
    decreases s.len(),
{
    if s.len() == 0 {
        s
    } else {
        replace_char(s.drop_last(), c, w) + (if s.last() == c {
            w
        } else {
            seq![s.last()]
        })
    }
}

/// Replacing a character that does not occur changes nothing.
pub proof fn lemma_replace_absent(s: Seq<char>, c: char, w: Seq<char>)
    requires
        forall|i: int| 0 <= i < s.len() ==> s[i] != c,
    ensures
        replace_char(s, c, w) == s,
    decreases s.len(),
{
    if s.len() > 0 {
        assert forall|i: int| 0 <= i < s.drop_last().len() implies s.drop_last()[i] != c by {
            assert(s.drop_last()[i] == s[i]);
        }
        lemma_replace_absent(s.drop_last(), c, w);
        assert(s.last() == s[s.len() - 1]);
        assert(s.drop_last() + seq![s.last()] =~= s);
    }
}

/// Every character of a replacement satisfies `pred` when the kept
/// characters and the replacement's characters do.
pub proof fn lemma_replace_chars(s: Seq<char>, c: char, w: Seq<char>, pred: spec_fn(char) -> bool)
    requires
        forall|i: int| 0 <= i < s.len() && s[i] != c ==> pred(#[trigger] s[i]),
        forall|i: int| 0 <= i < w.len() ==> pred(#[trigger] w[i]),
    ensures
        forall|k: int| 0 <= k < replace_char(s, c, w).len() ==> pred(#[trigger] replace_char(s, c, w)[k]),
    decreases s.len(),
{
    if s.len() > 0 {
        let d = s.drop_last();
        assert forall|i: int| 0 <= i < d.len() && d[i] != c implies pred(#[trigger] d[i]) by {
            assert(d[i] == s[i]);
        }
        lemma_replace_chars(d, c, w, pred);
        let r = replace_char(d, c, w);
        let tail = if s.last() == c { w } else { seq![s.last()] };
        assert(replace_char(s, c, w) == r + tail);
        assert(s.last() != c ==> pred(s[s.len() - 1]));
        assert forall|k: int| 0 <= k < (r + tail).len() implies pred(#[trigger] (r + tail)[k]) by {
            if k < r.len() {
                assert((r + tail)[k] == r[k]);
            } else {
                assert((r + tail)[k] == tail[k - r.len()]);
            }
        }
    }
}

pub fn replace_char_exec(s: &[char], c: char, w: &[char]) -> (out: Vec<char>)
    ensures
        out@ == replace_char(s@, c, w@),
{
    let mut out: Vec<char> = Vec::new();
    let mut i: usize = 0;
    while i < s.len()
        invariant
            i <= s.len(),
            out@ == replace_char(s@.take(i as int), c, w@),
        decreases s.len() - i,
    {
        proof {
            assert(s@.take(i + 1).drop_last() == s@.take(i as int));
        }
        if s[i] == c {
            let mut k: usize = 0;
            let ghost o = out@;
            while k < w.len()
                invariant
                    k <= w.len(),
                    out@ == o + w@.take(k as int),
                decreases w.len() - k,
            {
                out.push(w[k]);
                proof {
                    assert(w@.take(k + 1) == w@.take(k as int).push(w@[k as int]));
                }
                k += 1;
            }
            proof {
                assert(w@.take(w.len() as int) == w@);
            }
        } else {
            out.push(s[i]);
            proof {
                assert(out@ =~= replace_char(s@.take(i as int), c, w@) + seq![s@[i as int]]);
            }
        }
        i += 1;
    }
    proof {
        assert(s@.take(s.len() as int) == s@);
    }
    out
}

/// `parts.join(sep)`.
pub open spec fn join(parts: Seq<Seq<char>>, sep: Seq<char>) -> Seq<char>
    decreases parts.len(),
{
    if parts.len() == 0 {
        Seq::<char>::empty()
    } else if parts.len() == 1 {
        parts[0]
    } else {
        join(parts.drop_last(), sep) + sep + parts.last()
    }
}

/// Joining non-empty pieces gives a non-empty text that starts and ends
/// inside a piece, and whose other characters come from pieces or are the
/// separator.
pub proof fn lemma_join_chars(p: Seq<Seq<char>>, c: char, pred: spec_fn(char) -> bool)
    requires
        p.len() >= 1,
        forall|i: int| 0 <= i < p.len() ==> #[trigger] p[i].len() > 0,
        forall|i: int, j: int| #![trigger p[i][j]] 0 <= i < p.len() && 0 <= j < p[i].len() ==> pred(p[i][j]),
    ensures
        join(p, seq![c]).len() > 0,
        pred(join(p, seq![c])[0]),
        pred(join(p, seq![c]).last()),
        forall|k: int|
            0 <= k < join(p, seq![c]).len() ==> #[trigger] join(p, seq![c])[k] == c || pred(
                join(p, seq![c])[k],
            ),
    decreases p.len(),
{
    if p.len() == 1 {
        assert(p[0].len() > 0);
        assert(pred(p[0][0]));
        assert(pred(p[0][p[0].len() - 1]));
        assert forall|k: int| 0 <= k < p[0].len() implies #[trigger] p[0][k] == c || pred(p[0][k]) by {
            assert(pred(p[0][k]));
        }
    } else {
        let q = p.drop_last();
        assert forall|i: int| 0 <= i < q.len() implies #[trigger] q[i].len() > 0 by {
            assert(q[i] == p[i]);
        }
        assert forall|i: int, j: int| #![trigger q[i][j]] 0 <= i < q.len() && 0 <= j < q[i].len() implies pred(q[i][j]) by {
            assert(q[i] == p[i]);
            assert(pred(p[i][j]));
        }
        lemma_join_chars(q, c, pred);
        let a = join(q, seq![c]);
        let b = p.last();
        let t = a + seq![c] + b;
        assert(join(p, seq![c]) == t);
        assert(b.len() > 0) by {
            assert(p[p.len() - 1].len() > 0);
        }
        assert(t[0] == a[0]);
        assert(t.last() == b[b.len() - 1]);
        assert(pred(p[p.len() - 1][b.len() - 1]));
        assert forall|k: int| 0 <= k < t.len() implies #[trigger] t[k] == c || pred(t[k]) by {
            if k < a.len() {
                assert(t[k] == a[k]);
            } else if k > a.len() {
                assert(t[k] == b[k - a.len() - 1]);
                assert(pred(p[p.len() - 1][k - a.len() - 1]));
            }
        }
    }
}

pub fn append_chars(out: &mut Vec<char>, t: &[char])
    ensures
        final(out)@ == old(out)@ + t@,
{
    let mut k: usize = 0;
    while k < t.len()
        invariant
            k <= t.len(),
            out@ == old(out)@ + t@.take(k as int),
        decreases t.len() - k,
    {
        out.push(t[k]);
        proof {
            assert(t@.take(k + 1) == t@.take(k as int).push(t@[k as int]));
        }
        k += 1;
    }
    proof {
        assert(t@.take(t.len() as int) == t@);
    }
}

pub fn append_str(out: &mut Vec<char>, t: &str)
    ensures
        final(out)@ == old(out)@ + t@,
{
    let tc = chars_of(t);
    append_chars(out, tc.as_slice());
}

pub fn join_chars(parts: &Vec<Vec<char>>, sep: &[char]) -> (out: Vec<char>)
    ensures
        out@ == join(views(parts@), sep@),
{
    let mut out: Vec<char> = Vec::new();
    let mut i: usize = 0;
    while i < parts.len()
        invariant
            i <= parts.len(),
            out@ == join(views(parts@).take(i as int), sep@),
        decreases parts.len() - i,
    {
        proof {
            assert(views(parts@).take(i + 1).drop_last() == views(parts@).take(i as int));
        }
        if i > 0 {
            append_chars(&mut out, sep);
        }
        append_chars(&mut out, parts[i].as_slice());
        proof {
            if i == 0 {
                assert(views(parts@).take(1) =~= seq![views(parts@)[0]]);
            }
        }
        i += 1;
    }
    proof {
        assert(views(parts@).take(parts.len() as int) == views(parts@));
    }
    out
}

/// The pieces of `p` that are not empty, in order.
pub open spec fn drop_empty(p: Seq<Seq<char>>) -> Seq<Seq<char>>
    decreases p.len(),
{
    if p.len() == 0 {
        p
    } else {
        let r = drop_empty(p.drop_last());
        if p.last().len() > 0 {
            r.push(p.last())
        } else {
            r
        }
    }
}

/// The number of characters of all pieces together.
pub open spec fn total_len(p: Seq<Seq<char>>) -> nat
    decreases p.len(),
{
    if p.len() == 0 {
        0
    } else {
        total_len(p.drop_last()) + p.last().len()
    }
}

/// Joining pieces adds one separator between each two of them.
pub proof fn lemma_join_len(p: Seq<Seq<char>>, c: char)
    requires
        p.len() >= 1,
    ensures
        join(p, seq![c]).len() == total_len(p) + p.len() - 1,
    decreases p.len(),
{
    if p.len() == 1 {
        assert(p.drop_last() =~= Seq::<Seq<char>>::empty());
    } else {
        lemma_join_len(p.drop_last(), c);
    }
}

/// Dropping empty pieces keeps every character and no more pieces.
pub proof fn lemma_drop_empty_len(p: Seq<Seq<char>>)
    ensures
        total_len(drop_empty(p)) == total_len(p),
        drop_empty(p).len() <= p.len(),
    decreases p.len(),
{
    if p.len() > 0 {
        lemma_drop_empty_len(p.drop_last());
        let r = drop_empty(p.drop_last());
        if p.last().len() > 0 {
            assert(r.push(p.last()).drop_last() =~= r);
        }
    }
}

/// Replacing characters by one character each keeps the length.
pub proof fn lemma_replace_len(s: Seq<char>, c: char, w: Seq<char>)
    requires
        w.len() == 1,
    ensures
        replace_char(s, c, w).len() == s.len(),
    decreases s.len(),
{
    if s.len() > 0 {
        lemma_replace_len(s.drop_last(), c, w);
    }
}

/// Dropping the empty pieces of a list without any changes nothing.
pub proof fn lemma_drop_empty_keeps(p: Seq<Seq<char>>)
    requires
        forall|i: int| 0 <= i < p.len() ==> #[trigger] p[i].len() > 0,
    ensures
        drop_empty(p) == p,
    decreases p.len(),
{
    if p.len() > 0 {
        let q = p.drop_last();
        assert forall|i: int| 0 <= i < q.len() implies #[trigger] q[i].len() > 0 by {
            assert(q[i] == p[i]);
        }
        lemma_drop_empty_keeps(q);
        assert(p[p.len() - 1].len() > 0);
        assert(q.push(p.last()) =~= p);
    }
}

/// The pieces kept are non-empty, and their characters are characters of
/// the pieces given.
pub proof fn lemma_drop_empty_pieces(p: Seq<Seq<char>>, pred: spec_fn(char) -> bool)
    requires
        forall|i: int, j: int| #![trigger p[i][j]] 0 <= i < p.len() && 0 <= j < p[i].len() ==> pred(p[i][j]),
    ensures
        forall|i: int| 0 <= i < drop_empty(p).len() ==> #[trigger] drop_empty(p)[i].len() > 0,
        forall|i: int, j: int| #![trigger drop_empty(p)[i][j]]
            0 <= i < drop_empty(p).len() && 0 <= j < drop_empty(p)[i].len() ==> pred(drop_empty(p)[i][j]),
    decreases p.len(),
{
    if p.len() > 0 {
        let q = p.drop_last();
        assert forall|i: int, j: int| #![trigger q[i][j]] 0 <= i < q.len() && 0 <= j < q[i].len() implies pred(q[i][j]) by {
            assert(q[i] == p[i]);
            assert(pred(p[i][j]));
        }
        lemma_drop_empty_pieces(q, pred);
        let r = drop_empty(q);
        if p.last().len() > 0 {
            let t = r.push(p.last());
            assert(drop_empty(p) == t);
            assert forall|i: int| 0 <= i < t.len() implies #[trigger] t[i].len() > 0 by {
                if i < r.len() {
                    assert(t[i] == r[i]);
                }
            }
            assert forall|i: int, j: int| #![trigger t[i][j]] 0 <= i < t.len() && 0 <= j < t[i].len() implies pred(t[i][j]) by {
                if i < r.len() {
                    assert(t[i] == r[i]);
                } else {
                    assert(t[i] == p[p.len() - 1]);
                    assert(pred(p[p.len() - 1][j]));
                }
            }
        }
    }
}

pub fn drop_empty_exec(p: Vec<Vec<char>>) -> (out: Vec<Vec<char>>)
    ensures
        views(out@) == drop_empty(views(p@)),
{
    let ghost pv = views(p@);
    let mut rev: Vec<Vec<char>> = Vec::new();
    let mut p = p;
    // reverse, so that pieces can be taken from the front by popping
    while p.len() > 0
        invariant
            views(p@) + views(rev@).reverse() == pv,
        decreases p.len(),
    {
        let ghost bp = views(p@);
        let ghost br = views(rev@);
        let x = p.pop().unwrap();
        rev.push(x);
        proof {
            assert(views(p@) =~= bp.drop_last());
            assert(views(rev@) =~= br.push(bp.last()));
            assert(views(rev@).reverse() =~= seq![bp.last()] + br.reverse());
            assert(views(p@) + views(rev@).reverse() =~= bp + br.reverse());
        }
    }
    let ghost n = pv.len();
    proof {
        assert(views(rev@).reverse() =~= pv);
        assert forall|k: int| 0 <= k < rev.len() implies #[trigger] views(rev@)[k] == pv[n - 1
            - k] by {
            assert(views(rev@).reverse()[n - 1 - k] == views(rev@)[k]);
        }
    }
    let mut out: Vec<Vec<char>> = Vec::new();
    while rev.len() > 0
        invariant
            n == pv.len(),
            rev.len() <= n,
            forall|k: int| 0 <= k < rev.len() ==> #[trigger] views(rev@)[k] == pv[n - 1 - k],
            views(out@) == drop_empty(pv.take(n - rev.len())),
        decreases rev.len(),
    {
        let ghost i = n - rev.len();
        let ghost bo = views(out@);
        let ghost br = views(rev@);
        let x = rev.pop().unwrap();
        proof {
            assert(views(rev@) =~= br.drop_last());
            assert(x@ == br[br.len() - 1]);
            assert(x@ == pv[i]);
            assert(pv.take(i + 1).drop_last() =~= pv.take(i));
            assert(pv.take(i + 1).last() == pv[i]);
        }
        if x.len() > 0 {
            out.push(x);
            proof {
                assert(views(out@) =~= bo.push(pv[i]));
            }
        }
    }
    proof {
        assert(pv.take(n as int) == pv);
    }
    out
}

/// Whether `utf8_len(s)` exceeds `limit`.
pub fn utf8_len_exceeds(s: &[char], limit: usize) -> (r: bool)
    ensures
        r == (utf8_len(s@) > limit),
{
    let mut n: usize = 0;
    let mut i: usize = 0;
    while i < s.len()
        invariant
            i <= s.len(),
            n == utf8_len(s@.take(i as int)),
            n <= limit,
        decreases s.len() - i,
    {
        proof {
            assert(s@.take(i + 1).drop_last() == s@.take(i as int));
        }
        let w = char_width_of(s[i]);
        if w > limit - n {
            proof {
                lemma_utf8_len_prefix(s@, i + 1);
            }
            return true;
        }
        n = n + w;
        i += 1;
    }
    proof {
        assert(s@.take(s.len() as int) == s@);
    }
    false
}

proof fn lemma_utf8_len_prefix(s: Seq<char>, k: int)
    requires
        0 <= k <= s.len(),
    ensures
        utf8_len(s.take(k)) <= utf8_len(s),
    decreases s.len() - k,
{
    if k < s.len() {
        lemma_utf8_len_prefix(s, k + 1);
        assert(s.take(k + 1).drop_last() == s.take(k));
    } else {
        assert(s.take(k) == s);
    }
}

/// The UTF-8 length of a concatenation is the sum of the lengths.
pub proof fn lemma_utf8_len_concat(a: Seq<char>, b: Seq<char>)
    ensures
        utf8_len(a + b) == utf8_len(a) + utf8_len(b),
    decreases b.len(),
{
    if b.len() > 0 {
        lemma_utf8_len_concat(a, b.drop_last());
        assert((a + b).drop_last() =~= a + b.drop_last());
        assert((a + b).last() == b.last());
    } else {
        assert(a + b =~= a);
    }
}

// ---------------------------------------------------------------------------
// Decimal numerals
// ---------------------------------------------------------------------------

pub open spec fn digit_char(d: nat) -> char {
    (48 + d) as char
}

/// The decimal numeral of `n`, as `u64::to_string` writes it.
pub open spec fn decimal(n: nat) -> Seq<char>
    decreases n,
{
    if n < 10 {
        seq![digit_char(n)]
    } else {
        decimal(n / 10).push(digit_char(n % 10))
    }
}

pub fn decimal_chars(n: u64) -> (out: Vec<char>)
    ensures
        out@ == decimal(n as nat),
    decreases n,
{
    if n < 10 {
        let c = char_from_ascii((48 + n) as u32);
        let mut v: Vec<char> = Vec::new();
        v.push(c);
        proof {
            assert(v@ =~= seq![digit_char(n as nat)]);
        }
        v
    } else {
        let mut v = decimal_chars(n / 10);
        let c = char_from_ascii((48 + n % 10) as u32);
        v.push(c);
        v
    }
}

} // verus!
