//! Shared value types: normalized repository paths and inclusive line ranges.
use vstd::prelude::*;
use crate::text::{chars_of, is_ws, lemma_back_ws, lemma_skip_ws, string_of_range, to_string, trim, trim_bounds};

verus! {

/// `p` with every backslash turned into a forward slash.
pub open spec fn forward_slashes(p: Seq<char>) -> Seq<char> {
    p.map_values(|c: char| if c == '\\' { '/' } else { c })
}

/// `p` with every run of consecutive slashes collapsed into one slash.
pub open spec fn collapse_slashes(p: Seq<char>) -> Seq<char>
    decreases p.len(),
{
    if p.len() == 0 {
        p
    } else {
        let q = collapse_slashes(p.drop_last());
        if p.last() == '/' && q.len() > 0 && q.last() == '/' {
            q
        } else {
            q.push(p.last())
        }
    }
}

/// `p` without any number of leading `./`.
pub open spec fn strip_dot_slash(p: Seq<char>) -> Seq<char>
    decreases p.len(),
{
    if p.len() >= 2 && p[0] == '.' && p[1] == '/' {
        strip_dot_slash(p.subrange(2, p.len() as int))
    } else {
        p
    }
}

/// The repository form of a path: trimmed, forward slashes only, no empty
/// components, no leading `./`.
pub open spec fn repo_form(p: Seq<char>) -> Seq<char> {
    strip_dot_slash(collapse_slashes(forward_slashes(trim(p))))
}

/// `p` without one leading diff transport prefix (`a/` or `b/`).
pub open spec fn strip_transport(p: Seq<char>) -> Seq<char> {
    if p.len() >= 2 && (p[0] == 'a' || p[0] == 'b') && p[1] == '/' {
        p.subrange(2, p.len() as int)
    } else {
        p
    }
}

/// The form `NormPath::new` gives a path: a leading `a/` or `b/` transport
/// prefix removed (after trimming), then the repository form.
pub open spec fn diff_form(p: Seq<char>) -> Seq<char> {
    repo_form(strip_transport(trim(p)))
}

/// A normalized, repository-relative path.
#[derive(Clone, Debug, PartialEq, Eq, Hash, PartialOrd, Ord)]
pub struct NormPath {
    path: String,
}

impl View for NormPath {
    type V = Seq<char>;

    closed spec fn view(&self) -> Seq<char> {
        self.path@
    }
}

/// The repository form of `v[lo..hi]` as a `String`.
fn repo_form_of_range(v: &Vec<char>, lo: usize, hi: usize) -> (r: String)
    requires
        lo <= hi <= v.len(),
    ensures
        r@ == repo_form(v@.subrange(lo as int, hi as int)),
{
    let (a, b) = trim_bounds(v, lo, hi);
    let ghost t = v@.subrange(a as int, b as int);
    let mut out: Vec<char> = Vec::new();
    let mut i = a;
    while i < b
        invariant
            a <= i <= b <= v.len(),
            t == v@.subrange(a as int, b as int),
            out@ == collapse_slashes(forward_slashes(t.take(i - a))),
        decreases b - i,
    {
        let c = if v[i] == '\\' {
            '/'
        } else {
            v[i]
        };
        let n = out.len();
        if !(c == '/' && n > 0 && out[n - 1] == '/') {
            out.push(c);
        }
        proof {
            let s = forward_slashes(t.take(i + 1 - a));
            assert(s.drop_last() =~= forward_slashes(t.take(i - a)));
            assert(s.last() == c);
        }
        i = i + 1;
    }
    proof {
        assert(t.take(b - a) =~= t);
    }
    let mut k: usize = 0;
    assert(out@.subrange(0, out.len() as int) =~= out@);
    while out.len() - k >= 2 && out[k] == '.' && out[k + 1] == '/'
        invariant
            k <= out.len(),
            strip_dot_slash(out@.subrange(k as int, out.len() as int)) == strip_dot_slash(out@),
        decreases out.len() - k,
    {
        proof {
            let s = out@.subrange(k as int, out.len() as int);
            assert(s.subrange(2, s.len() as int) =~= out@.subrange(k + 2, out.len() as int));
        }
        k = k + 2;
    }
    string_of_range(&out, k, out.len())
}

impl NormPath {
    /// Normalizes a path as it appears in a diff: a leading `a/` or `b/`
    /// transport prefix is removed, then the repository form is taken.
    pub fn new(path: &str) -> (r: Self)
        ensures
            r@ == diff_form(path@),
    {
        let v = chars_of(path);
        let (a, b) = trim_bounds(&v, 0, v.len());
        assert(v@.subrange(0, v.len() as int) =~= v@);
        let start = if b - a >= 2 && (v[a] == 'a' || v[a] == 'b') && v[a + 1] == '/' {
            a + 2
        } else {
            a
        };
        proof {
            let t = trim(path@);
            assert(t == v@.subrange(a as int, b as int));
            assert(strip_transport(t) =~= v@.subrange(start as int, b as int));
        }
        NormPath { path: repo_form_of_range(&v, start, b) }
    }

    /// Normalizes a repository path (no transport prefix is removed).
    pub fn from_repo_path(path: &str) -> (r: Self)
        ensures
            r@ == repo_form(path@),
    {
        let v = chars_of(path);
        assert(v@.subrange(0, v.len() as int) =~= v@);
        NormPath { path: repo_form_of_range(&v, 0, v.len()) }
    }

    /// The normalized path text.
    pub fn as_str(&self) -> (r: &str)
        ensures
            r@ == self@,
    {
        self.path.as_str()
    }

    /// The normalized path text as a `String`.
    pub fn to_string(&self) -> (r: String)
        ensures
            r@ == self@,
    {
        to_string(self.path.as_str())
    }

    /// A copy of this path.
    pub fn duplicate(&self) -> (r: Self)
        ensures
            r@ == self@,
    {
        NormPath { path: to_string(self.path.as_str()) }
    }

    /// Whether two paths are the same text.
    pub fn same_as(&self, other: &NormPath) -> (r: bool)
        ensures
            r == (self@ == other@),
    {
        let a = chars_of(self.path.as_str());
        let b = chars_of(other.path.as_str());
        crate::text::chars_eq(&a, &b)
    }

    /// A path holding exactly the given text, with no normalization (for
    /// text that is already in repository form).
    pub(crate) fn from_normalized(path: String) -> (r: Self)
        ensures
            r@ == path@,
    {
        NormPath { path }
    }
}

/// No backslash in `s`.
pub open spec fn no_backslash(s: Seq<char>) -> bool {
    forall|k: int| 0 <= k < s.len() ==> #[trigger] s[k] != '\\'
}

/// No two adjacent slashes in `s`.
pub open spec fn no_double_slash(s: Seq<char>) -> bool {
    forall|k: int| 0 <= k < s.len() - 1 ==> !(#[trigger] s[k] == '/' && s[k + 1] == '/')
}

proof fn lemma_trim_fixed(s: Seq<char>)
    requires
        s.len() == 0 || (!is_ws(s[0]) && !is_ws(s.last())),
    ensures
        trim(s) == s,
{
    assert(s.subrange(0, s.len() as int) =~= s);
}

proof fn lemma_trim_ends(s: Seq<char>)
    ensures
        trim(s).len() == 0 || (!is_ws(trim(s)[0]) && !is_ws(trim(s).last())),
{
    lemma_skip_ws(s, 0);
    let a = crate::text::skip_ws(s, 0);
    lemma_back_ws(s, a, s.len() as int);
}

proof fn lemma_collapse_shape(x: Seq<char>)
    ensures
        no_backslash(x) ==> no_backslash(collapse_slashes(x)),
        no_double_slash(collapse_slashes(x)),
        x.len() > 0 ==> collapse_slashes(x).len() > 0 && collapse_slashes(x).last() == x.last(),
    decreases x.len(),
{
    if x.len() > 0 {
        let y = x.drop_last();
        lemma_collapse_shape(y);
        let q = collapse_slashes(y);
        if no_backslash(x) {
            assert(no_backslash(y));
        }
        if !(x.last() == '/' && q.len() > 0 && q.last() == '/') {
            let r = q.push(x.last());
            assert forall|k: int| 0 <= k < r.len() - 1 implies !(#[trigger] r[k] == '/' && r[k + 1]
                == '/') by {
                if k < q.len() - 1 {
                    assert(r[k] == q[k] && r[k + 1] == q[k + 1]);
                }
            }
        }
    }
}

proof fn lemma_collapse_fixed(x: Seq<char>)
    requires
        no_double_slash(x),
    ensures
        collapse_slashes(x) == x,
    decreases x.len(),
{
    if x.len() > 0 {
        let y = x.drop_last();
        assert(no_double_slash(y)) by {
            assert forall|k: int| 0 <= k < y.len() - 1 implies !(#[trigger] y[k] == '/' && y[k + 1]
                == '/') by {
                assert(y[k] == x[k] && y[k + 1] == x[k + 1]);
            }
        }
        lemma_collapse_fixed(y);
        if y.len() > 0 {
            assert(y.last() == x[x.len() - 2]);
        }
        assert(y.push(x.last()) =~= x);
    }
}

proof fn lemma_strip_dot_slash_suffix(c: Seq<char>)
    ensures
        strip_dot_slash(c).len() <= c.len(),
        strip_dot_slash(c) == c.subrange(c.len() - strip_dot_slash(c).len(), c.len() as int),
        strip_dot_slash(strip_dot_slash(c)) == strip_dot_slash(c),
    decreases c.len(),
{
    if c.len() >= 2 && c[0] == '.' && c[1] == '/' {
        let d = c.subrange(2, c.len() as int);
        lemma_strip_dot_slash_suffix(d);
        assert(d.subrange(d.len() - strip_dot_slash(d).len(), d.len() as int) =~= c.subrange(
            c.len() - strip_dot_slash(d).len(),
            c.len() as int,
        ));
    } else {
        assert(c.subrange(0, c.len() as int) =~= c);
    }
}

/// The repository form of a path is its own repository form, unless it
/// begins with whitespace (as the form of `./ x` does).
pub proof fn law_repo_form_idempotent(p: Seq<char>)
    requires
        repo_form(p).len() == 0 || !is_ws(repo_form(p)[0]),
    ensures
        repo_form(repo_form(p)) == repo_form(p),
{
    let t = trim(p);
    let f = forward_slashes(t);
    let c = collapse_slashes(f);
    let q = strip_dot_slash(c);
    lemma_trim_ends(p);
    assert(no_backslash(f));
    lemma_collapse_shape(f);
    lemma_strip_dot_slash_suffix(c);
    let off = c.len() - q.len();
    assert(no_backslash(q)) by {
        assert forall|k: int| 0 <= k < q.len() implies #[trigger] q[k] != '\\' by {
            assert(q[k] == c[off + k]);
        }
    }
    assert(no_double_slash(q)) by {
        assert forall|k: int| 0 <= k < q.len() - 1 implies !(#[trigger] q[k] == '/' && q[k + 1]
            == '/') by {
            assert(q[k] == c[off + k] && q[k + 1] == c[off + k + 1]);
        }
    }
    if q.len() > 0 {
        assert(q.last() == c.last());
        assert(f.last() == (if t.last() == '\\' { '/' } else { t.last() }));
        assert(!is_ws(q.last()));
    }
    lemma_trim_fixed(q);
    assert(forward_slashes(q) =~= q);
    lemma_collapse_fixed(q);
}

/// Normalizing a diff path twice gives what normalizing it once gives,
/// unless its normal form begins with whitespace or with a further `a/` or
/// `b/` transport prefix.
pub proof fn law_diff_form_idempotent(p: Seq<char>)
    requires
        diff_form(p).len() == 0 || !is_ws(diff_form(p)[0]),
        strip_transport(diff_form(p)) == diff_form(p),
    ensures
        diff_form(diff_form(p)) == diff_form(p),
{
    let s = strip_transport(trim(p));
    let q = diff_form(p);
    assert(q == repo_form(s));
    law_repo_form_idempotent(s);
    let t = trim(s);
    let f = forward_slashes(t);
    let c = collapse_slashes(f);
    lemma_trim_ends(s);
    lemma_collapse_shape(f);
    lemma_strip_dot_slash_suffix(c);
    if q.len() > 0 {
        assert(q.last() == c.last());
        assert(f.last() == (if t.last() == '\\' { '/' } else { t.last() }));
    }
    lemma_trim_fixed(q);
}

/// An inclusive range of line numbers.
#[derive(Clone, Copy, Debug, PartialEq, Eq, Hash, Structural)]
pub struct LineRange {
    /// First line of the range.
    pub start: u32,
    /// Last line of the range (inclusive).
    pub end: u32,
}

impl LineRange {
    /// A range from `start` to `end`, both inclusive.
    pub fn new(start: u32, end: u32) -> (r: Self)
        ensures
            r.start == start,
            r.end == end,
    {
        LineRange { start, end }
    }
}

} // verus!
