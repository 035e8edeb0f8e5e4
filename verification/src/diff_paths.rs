//! File paths from unified diff headers (`---` and `+++` lines): parsing,
//! creation/deletion/rename detection, and prefix normalization.
use vstd::prelude::*;
use std::borrow::Cow;
use crate::text::{
    chars_of, ends_with_at, find_char, find_from, has_prefix, has_suffix, line_bounds, lines,
    push_range, push_str, range_eq, starts_with_at, string_of_range, to_string, trim, bounds_of_lines,
    trim_bounds, string_push, lemma_find_from,
};

verus! {

/// Error type for diff path parsing failures.
#[derive(Clone, Debug, PartialEq, Eq)]
pub struct DiffPathsError {
    message: String,
    line: Option<String>,
}

/// `str`'s `Debug` rendering of a text: quoted, with escapes.
pub uninterp spec fn debug_quoted(s: Seq<char>) -> Seq<char>;

/// `format!("{:?}", s)` for a string slice: the quoted, escaped form
/// that `<str as Debug>::fmt` writes. Named by [`debug_quoted`]; the
/// escaping rules are not restated here.
#[verifier::external_body]
fn debug_str(s: &str) -> (r: String)
    ensures
        r@ == debug_quoted(s@),
{
    format!("{:?}", s)
}

impl DiffPathsError {
    /// The error message.
    pub closed spec fn message_view(&self) -> Seq<char> {
        self.message@
    }

    /// The offending line, if any.
    pub closed spec fn line_view(&self) -> Option<Seq<char>> {
        self.line.deep_view()
    }

    /// Creates a new error with a message.
    pub fn new(message: &str) -> (r: Self)
        ensures
            r.message_view() == message@,
            r.line_view() is None,
    {
        DiffPathsError { message: to_string(message), line: None }
    }

    /// Creates a new error with a message and the problematic line.
    pub fn with_line(message: &str, line: &str) -> (r: Self)
        ensures
            r.message_view() == message@,
            r.line_view() == Some(line@),
    {
        DiffPathsError { message: to_string(message), line: Some(to_string(line)) }
    }

    /// Returns the error message.
    pub fn message(&self) -> (r: &str)
        ensures
            r@ == self.message_view(),
    {
        self.message.as_str()
    }

    /// Returns the line that caused the error (if available).
    pub fn line(&self) -> (r: Option<&str>)
        ensures
            r.deep_view() == self.line_view(),
    {
        match &self.line {
            Some(l) => Some(l.as_str()),
            None => None,
        }
    }

    /// The displayed text: the message, then `: "{line}"` (debug-quoted) when there is a line.
    pub fn to_string(&self) -> (s: String)
        ensures
            s@ == match self.line_view() {
                Some(l) => self.message_view() + ": "@ + debug_quoted(l),
                None => self.message_view(),
            },
    {
        let mut s = to_string(self.message.as_str());
        match &self.line {
            Some(l) => {
                push_str(&mut s, ": ");
                let q = debug_str(l.as_str());
                push_str(&mut s, q.as_str());
            },
            None => {},
        }
        s
    }
}

/// `/dev/null`, spelled with or without the leading slash.
pub open spec fn dev_null(p: Seq<char>) -> bool {
    p == "/dev/null"@ || p == "dev/null"@
}

/// `p` without one leading `a/`, `b/` or `i/` (unless `p` is `/dev/null`).
pub open spec fn strip_prefix_spec(p: Seq<char>) -> Seq<char> {
    if dev_null(p) {
        p
    } else if has_prefix(p, "a/"@) || has_prefix(p, "b/"@) || has_prefix(p, "i/"@) {
        p.subrange(2, p.len() as int)
    } else {
        p
    }
}

/// `p` with diff prefixes stripped repeatedly until none is left.
pub open spec fn strip_all(p: Seq<char>) -> Seq<char>
    decreases p.len(),
{
    let q = strip_prefix_spec(p);
    if q.len() < p.len() {
        strip_all(q)
    } else {
        p
    }
}

/// `p` with every backslash turned into a forward slash.
pub open spec fn slashes(p: Seq<char>) -> Seq<char> {
    p.map_values(|c: char| if c == '\\' { '/' } else { c })
}

/// The normalized path: `/dev/null` as-is, otherwise forward slashes and no diff prefixes.
pub open spec fn normalize_spec(p: Seq<char>) -> Seq<char> {
    if dev_null(p) {
        p
    } else {
        strip_all(slashes(p))
    }
}

/// `p` without `pre` at its start, when it starts with it.
pub open spec fn strip_given(p: Seq<char>, pre: Seq<char>) -> Seq<char> {
    if has_prefix(p, pre) {
        p.subrange(pre.len() as int, p.len() as int)
    } else {
        p
    }
}

/// First index `k >= i` where two spaces start, or `s.len()`.
pub open spec fn find_double_space(s: Seq<char>, i: int) -> int
    decreases s.len() - i,
{
    if i + 1 >= s.len() {
        s.len() as int
    } else if s[i] == ' ' && s[i + 1] == ' ' {
        i
    } else {
        find_double_space(s, i + 1)
    }
}

/// A path and its optional timestamp: split at the first tab, else at the
/// first two spaces (the timestamp then trimmed), else no timestamp.
pub open spec fn split_ts(s: Seq<char>) -> (Seq<char>, Option<Seq<char>>) {
    let t = find_from(s, '\t', 0);
    if t < s.len() {
        (s.subrange(0, t), Some(s.subrange(t + 1, s.len() as int)))
    } else {
        let d = find_double_space(s, 0);
        if d < s.len() {
            (s.subrange(0, d), Some(trim(s.subrange(d + 2, s.len() as int))))
        } else {
            (s, None)
        }
    }
}

/// The path and timestamp of a header line with the given three-character
/// marker (`---` or `+++`), if the line is one and names a path.
pub open spec fn header_line(marker: Seq<char>, line: Seq<char>) -> Option<
    (Seq<char>, Option<Seq<char>>),
> {
    let t = trim(line);
    if has_prefix(t, marker) {
        let rest = trim(t.subrange(3, t.len() as int));
        if rest.len() == 0 {
            None
        } else {
            Some(split_ts(rest))
        }
    } else {
        None
    }
}

/// Paths and timestamps as plain values: `(old_path, new_path, old_timestamp, new_timestamp)`.
pub type PathsView = (Option<Seq<char>>, Option<Seq<char>>, Option<Seq<char>>, Option<Seq<char>>);

/// The effect of one header line on the paths gathered so far.
pub open spec fn parse_step(st: PathsView, line: Seq<char>) -> PathsView {
    let t = trim(line);
    if has_prefix(t, "---"@) {
        match header_line("---"@, line) {
            Some((p, ts)) => (Some(p), st.1, ts, st.3),
            None => st,
        }
    } else if has_prefix(t, "+++"@) {
        match header_line("+++"@, line) {
            Some((p, ts)) => (st.0, Some(p), st.2, ts),
            None => st,
        }
    } else {
        st
    }
}

/// The paths a whole header yields, line by line.
pub open spec fn parse_lines(ls: Seq<Seq<char>>) -> PathsView
    decreases ls.len(),
{
    if ls.len() == 0 {
        (None, None, None, None)
    } else {
        parse_step(parse_lines(ls.drop_last()), ls.last())
    }
}

/// The result of parsing a header: `None` when it names neither path.
pub open spec fn parse_header_spec(header: Seq<char>) -> Option<PathsView> {
    let st = parse_lines(lines(header));
    if st.0 is None && st.1 is None {
        None
    } else {
        Some(st)
    }
}

/// Represents file paths extracted from a unified diff header.
#[derive(Clone, Debug, PartialEq, Eq, Hash)]
pub struct DiffPaths {
    /// Path from the `---` line (may be `/dev/null` for new files).
    pub old_path: Option<String>,
    /// Path from the `+++` line (may be `/dev/null` for deleted files).
    pub new_path: Option<String>,
    /// Optional timestamp from the `---` line.
    pub old_timestamp: Option<String>,
    /// Optional timestamp from the `+++` line.
    pub new_timestamp: Option<String>,
}

/// The normalized form of an optional path.
pub open spec fn opt_strip(p: Option<Seq<char>>) -> Option<Seq<char>> {
    match p {
        Some(x) => Some(strip_prefix_spec(x)),
        None => None,
    }
}

fn is_dev_null_chars(v: &Vec<char>, lo: usize, hi: usize) -> (b: bool)
    requires
        lo <= hi <= v.len(),
    ensures
        b == dev_null(v@.subrange(lo as int, hi as int)),
{
    let a = chars_of("/dev/null");
    let b = chars_of("dev/null");
    range_eq(v, lo, hi, &a) || range_eq(v, lo, hi, &b)
}

/// Bounds of `strip_prefix_spec` of `v[lo..hi]`.
fn strip_bounds(v: &Vec<char>, lo: usize, hi: usize) -> (r: usize)
    requires
        lo <= hi <= v.len(),
    ensures
        lo <= r <= hi,
        v@.subrange(r as int, hi as int) == strip_prefix_spec(v@.subrange(lo as int, hi as int)),
{
    let t = Ghost(v@.subrange(lo as int, hi as int));
    if is_dev_null_chars(v, lo, hi) {
        return lo;
    }
    let pa = chars_of("a/");
    let pb = chars_of("b/");
    let pi = chars_of("i/");
    if starts_with_at(v, lo, hi, &pa) || starts_with_at(v, lo, hi, &pb) || starts_with_at(
        v,
        lo,
        hi,
        &pi,
    ) {
        proof {
            reveal_strlit("a/");
            reveal_strlit("b/");
            reveal_strlit("i/");
            assert(t@.subrange(2, t@.len() as int) =~= v@.subrange(lo + 2, hi as int));
        }
        lo + 2
    } else {
        lo
    }
}

impl DiffPaths {
    /// The paths as plain values.
    pub open spec fn paths_view(&self) -> PathsView {
        (
            self.old_path.deep_view(),
            self.new_path.deep_view(),
            self.old_timestamp.deep_view(),
            self.new_timestamp.deep_view(),
        )
    }

    /// The canonical path: the new path unless it is missing or `/dev/null`,
    /// else the old path under the same condition.
    pub open spec fn canonical_spec(&self) -> Option<Seq<char>> {
        match self.new_path.deep_view() {
            Some(n) if !dev_null(n) => Some(n),
            _ => match self.old_path.deep_view() {
                Some(o) if !dev_null(o) => Some(o),
                _ => None,
            },
        }
    }

    /// A file creation: the old path is missing, or is `/dev/null` opposite
    /// a new path that names a real file.
    pub open spec fn creation_spec(&self) -> bool {
        match (self.old_path.deep_view(), self.new_path.deep_view()) {
            (None, _) => true,
            (Some(o), Some(n)) => dev_null(o) && !dev_null(n),
            (Some(_), None) => false,
        }
    }

    /// A file deletion: the new path is missing, or is `/dev/null` opposite
    /// an old path that names a real file.
    pub open spec fn deletion_spec(&self) -> bool {
        match (self.old_path.deep_view(), self.new_path.deep_view()) {
            (_, None) => true,
            (Some(o), Some(n)) => dev_null(n) && !dev_null(o),
            (None, Some(_)) => false,
        }
    }

    /// A rename: both normalized paths present, neither `/dev/null`, and different.
    pub open spec fn rename_spec(&self) -> bool {
        match (opt_strip(self.old_path.deep_view()), opt_strip(self.new_path.deep_view())) {
            (Some(o), Some(n)) => !dev_null(o) && !dev_null(n) && o != n,
            _ => false,
        }
    }

    /// A modification: both paths present and equal once normalized, and
    /// either written alike or neither `/dev/null`.
    pub open spec fn modification_spec(&self) -> bool {
        match (self.old_path.deep_view(), self.new_path.deep_view()) {
            (Some(o), Some(n)) => strip_prefix_spec(o) == strip_prefix_spec(n) && (o == n || (
            !dev_null(strip_prefix_spec(o)) && !dev_null(strip_prefix_spec(n)))),
            _ => false,
        }
    }

    /// Creates a `DiffPaths` with no paths set.
    pub fn new() -> (r: Self)
        ensures
            r.paths_view() == (None::<Seq<char>>, None::<Seq<char>>, None::<Seq<char>>, None::<Seq<char>>),
    {
        DiffPaths { old_path: None, new_path: None, old_timestamp: None, new_timestamp: None }
    }

    /// Creates a `DiffPaths` representing a file creation.
    pub fn creation(new_path: &str) -> (r: Self)
        ensures
            r.paths_view() == (None::<Seq<char>>, Some(new_path@), None::<Seq<char>>, None::<Seq<char>>),
            r.creation_spec(),
            !r.deletion_spec(),
    {
        DiffPaths {
            old_path: None,
            new_path: Some(to_string(new_path)),
            old_timestamp: None,
            new_timestamp: None,
        }
    }

    /// Creates a `DiffPaths` representing a file deletion.
    pub fn deletion(old_path: &str) -> (r: Self)
        ensures
            r.paths_view() == (Some(old_path@), None::<Seq<char>>, None::<Seq<char>>, None::<Seq<char>>),
            r.deletion_spec(),
            !r.creation_spec(),
    {
        DiffPaths {
            old_path: Some(to_string(old_path)),
            new_path: None,
            old_timestamp: None,
            new_timestamp: None,
        }
    }

    /// Creates a `DiffPaths` representing a file modification (same path).
    pub fn modification(path: &str) -> (r: Self)
        ensures
            r.paths_view() == (Some(path@), Some(path@), None::<Seq<char>>, None::<Seq<char>>),
            r.modification_spec(),
            !r.rename_spec(),
            !r.creation_spec(),
            !r.deletion_spec(),
    {
        DiffPaths {
            old_path: Some(to_string(path)),
            new_path: Some(to_string(path)),
            old_timestamp: None,
            new_timestamp: None,
        }
    }

    /// Creates a `DiffPaths` representing a file rename.
    pub fn rename(old_path: &str, new_path: &str) -> (r: Self)
        ensures
            r.paths_view() == (Some(old_path@), Some(new_path@), None::<Seq<char>>, None::<Seq<char>>),
    {
        DiffPaths {
            old_path: Some(to_string(old_path)),
            new_path: Some(to_string(new_path)),
            old_timestamp: None,
            new_timestamp: None,
        }
    }

    /// Parses `---` and `+++` lines from a diff header; `Ok(None)` when
    /// neither is present. Never returns an error.
    pub fn parse(diff_header: &str) -> (r: Result<Option<Self>, DiffPathsError>)
        ensures
            r matches Ok(o) && match parse_header_spec(diff_header@) {
                Some(st) => o matches Some(p) && p.paths_view() == st,
                None => o is None,
            },
    {
        let v = chars_of(diff_header);
        let bounds = line_bounds(&v);
        let mut old_path: Option<String> = None;
        let mut new_path: Option<String> = None;
        let mut old_ts: Option<String> = None;
        let mut new_ts: Option<String> = None;
        let ghost ls = lines(v@);
        let mut i: usize = 0;
        while i < bounds.len()
            invariant
                i <= bounds.len() == ls.len(),
                ls == lines(v@),
                v@ == diff_header@,
                bounds_of_lines(bounds@, v@),
                parse_lines(ls.take(i as int)) == (
                    old_path.deep_view(),
                    new_path.deep_view(),
                    old_ts.deep_view(),
                    new_ts.deep_view(),
                ),
            decreases bounds.len() - i,
        {
            let (lo, hi) = bounds[i];
            let ghost line = ls[i as int];
            proof {
                assert(ls.take(i + 1).drop_last() =~= ls.take(i as int));
                assert(ls[i as int] == v@.subrange(lo as int, hi as int));
            }
            let parsed = header_line_at(&v, lo, hi);
            match parsed {
                HeaderLine::Old(p, ts) => {
                    old_path = Some(p);
                    old_ts = ts;
                },
                HeaderLine::New(p, ts) => {
                    new_path = Some(p);
                    new_ts = ts;
                },
                HeaderLine::Other => {},
            }
            i = i + 1;
        }
        proof {
            assert(ls.take(ls.len() as int) =~= ls);
        }
        if old_path.is_none() && new_path.is_none() {
            return Ok(None);
        }
        Ok(Some(DiffPaths { old_path, new_path, old_timestamp: old_ts, new_timestamp: new_ts }))
    }

    /// Returns the canonical path: the new path (unless `/dev/null`), else the old path.
    pub fn canonical_path(&self) -> (r: Option<&str>)
        ensures
            r.deep_view() == self.canonical_spec(),
    {
        match &self.new_path {
            Some(n) => {
                if !is_dev_null(n.as_str()) {
                    return Some(n.as_str());
                }
            },
            None => {},
        }
        match &self.old_path {
            Some(o) => {
                if !is_dev_null(o.as_str()) {
                    return Some(o.as_str());
                }
            },
            None => {},
        }
        None
    }

    /// Returns the old path, stripping any diff prefix.
    pub fn old_path_normalized(&self) -> (r: Option<&str>)
        ensures
            r.deep_view() == opt_strip(self.old_path.deep_view()),
    {
        match &self.old_path {
            Some(p) => Some(strip_diff_prefix(p.as_str())),
            None => None,
        }
    }

    /// Returns the new path, stripping any diff prefix.
    pub fn new_path_normalized(&self) -> (r: Option<&str>)
        ensures
            r.deep_view() == opt_strip(self.new_path.deep_view()),
    {
        match &self.new_path {
            Some(p) => Some(strip_diff_prefix(p.as_str())),
            None => None,
        }
    }

    /// Returns the canonical path with diff prefixes stripped: the normalized
    /// new path, else the normalized old path.
    pub fn canonical_path_normalized(&self) -> (r: Option<&str>)
        ensures
            r.deep_view() == match opt_strip(self.new_path.deep_view()) {
                Some(n) => Some(n),
                None => opt_strip(self.old_path.deep_view()),
            },
    {
        match self.new_path_normalized() {
            Some(n) => Some(n),
            None => self.old_path_normalized(),
        }
    }

    /// Checks if this represents a new file creation.
    pub fn is_creation(&self) -> (r: bool)
        ensures
            r == self.creation_spec(),
    {
        match (&self.old_path, &self.new_path) {
            (None, _) => true,
            (Some(o), Some(n)) => is_dev_null(o.as_str()) && !is_dev_null(n.as_str()),
            (Some(_), None) => false,
        }
    }

    /// Checks if this represents a file deletion.
    pub fn is_deletion(&self) -> (r: bool)
        ensures
            r == self.deletion_spec(),
    {
        match (&self.old_path, &self.new_path) {
            (_, None) => true,
            (Some(o), Some(n)) => is_dev_null(n.as_str()) && !is_dev_null(o.as_str()),
            (None, Some(_)) => false,
        }
    }

    /// Checks if this represents a file rename.
    pub fn is_rename(&self) -> (r: bool)
        ensures
            r == self.rename_spec(),
    {
        match (self.old_path_normalized(), self.new_path_normalized()) {
            (Some(o), Some(n)) => !is_dev_null(o) && !is_dev_null(n) && !str_eq(o, n),
            _ => false,
        }
    }

    /// Checks if this represents a modification (same file, not rename/create/delete).
    pub fn is_modification(&self) -> (r: bool)
        ensures
            r == self.modification_spec(),
    {
        match (&self.old_path, &self.new_path) {
            (Some(o), Some(n)) => {
                let so = strip_diff_prefix(o.as_str());
                let sn = strip_diff_prefix(n.as_str());
                str_eq(so, sn) && (str_eq(o.as_str(), n.as_str()) || (!is_dev_null(so)
                    && !is_dev_null(sn)))
            },
            _ => false,
        }
    }

    /// Checks if this represents a binary file change; standard headers
    /// carry no such information, so this is always `false`.
    pub fn is_binary(&self) -> (r: bool)
        ensures
            !r,
    {
        false
    }

    /// Strips a given prefix from both paths (`/dev/null` is kept as is).
    pub fn strip_prefix(&self, prefix: &str) -> (r: Self)
        ensures
            r.paths_view() == (
                match self.old_path.deep_view() {
                    Some(p) => Some(if dev_null(p) { p } else { strip_given(p, prefix@) }),
                    None => None,
                },
                match self.new_path.deep_view() {
                    Some(p) => Some(if dev_null(p) { p } else { strip_given(p, prefix@) }),
                    None => None,
                },
                self.old_timestamp.deep_view(),
                self.new_timestamp.deep_view(),
            ),
    {
        let pre = chars_of(prefix);
        let old_path = match &self.old_path {
            Some(p) => Some(strip_given_string(p.as_str(), &pre)),
            None => None,
        };
        let new_path = match &self.new_path {
            Some(p) => Some(strip_given_string(p.as_str(), &pre)),
            None => None,
        };
        DiffPaths {
            old_path,
            new_path,
            old_timestamp: clone_opt(&self.old_timestamp),
            new_timestamp: clone_opt(&self.new_timestamp),
        }
    }

    /// Strips diff prefixes (`a/`, `b/`, `i/`) from both paths, as [`normalize_path`] does.
    pub fn strip_diff_prefixes(&self) -> (r: Self)
        ensures
            r.paths_view() == (
                match self.old_path.deep_view() {
                    Some(p) => Some(normalize_spec(p)),
                    None => None,
                },
                match self.new_path.deep_view() {
                    Some(p) => Some(normalize_spec(p)),
                    None => None,
                },
                self.old_timestamp.deep_view(),
                self.new_timestamp.deep_view(),
            ),
    {
        let old_path = match &self.old_path {
            Some(p) => Some(normalize_path_owned(p.as_str())),
            None => None,
        };
        let new_path = match &self.new_path {
            Some(p) => Some(normalize_path_owned(p.as_str())),
            None => None,
        };
        DiffPaths {
            old_path,
            new_path,
            old_timestamp: clone_opt(&self.old_timestamp),
            new_timestamp: clone_opt(&self.new_timestamp),
        }
    }

    /// Returns both paths as a tuple (old, new).
    pub fn as_tuple(&self) -> (r: (Option<&str>, Option<&str>))
        ensures
            r.0.deep_view() == self.old_path.deep_view(),
            r.1.deep_view() == self.new_path.deep_view(),
    {
        (opt_str(&self.old_path), opt_str(&self.new_path))
    }

    /// Returns both normalized paths as a tuple (old, new).
    pub fn as_tuple_normalized(&self) -> (r: (Option<&str>, Option<&str>))
        ensures
            r.0.deep_view() == opt_strip(self.old_path.deep_view()),
            r.1.deep_view() == opt_strip(self.new_path.deep_view()),
    {
        (self.old_path_normalized(), self.new_path_normalized())
    }

    /// Checks if either normalized path equals the normalized pattern.
    pub fn matches_path(&self, pattern: &str) -> (r: bool)
        ensures
            r == (opt_strip(self.old_path.deep_view()) == Some(strip_prefix_spec(pattern@))
                || opt_strip(self.new_path.deep_view()) == Some(strip_prefix_spec(pattern@))),
    {
        let np = strip_diff_prefix(pattern);
        let a = match self.old_path_normalized() {
            Some(o) => str_eq(o, np),
            None => false,
        };
        let b = match self.new_path_normalized() {
            Some(n) => str_eq(n, np),
            None => false,
        };
        a || b
    }

    /// Checks if either normalized path ends with the given suffix.
    pub fn path_ends_with(&self, suffix: &str) -> (r: bool)
        ensures
            r == ((opt_strip(self.old_path.deep_view()) matches Some(o) && has_suffix(o, suffix@))
                || (opt_strip(self.new_path.deep_view()) matches Some(n) && has_suffix(
                n,
                suffix@,
            ))),
    {
        let sv = chars_of(suffix);
        let a = match self.old_path_normalized() {
            Some(o) => {
                let ov = chars_of(o);
                ends_with_at(&ov, 0, ov.len(), &sv)
            },
            None => false,
        };
        let b = match self.new_path_normalized() {
            Some(n) => {
                let nv = chars_of(n);
                ends_with_at(&nv, 0, nv.len(), &sv)
            },
            None => false,
        };
        proof {
            assert forall|x: Seq<char>| x.subrange(0, x.len() as int) == x by {
                assert(x.subrange(0, x.len() as int) =~= x);
            }
        }
        a || b
    }
}

impl Default for DiffPaths {
    fn default() -> (r: Self)
        ensures
            r.paths_view() == (None::<Seq<char>>, None::<Seq<char>>, None::<Seq<char>>, None::<Seq<char>>),
    {
        DiffPaths::new()
    }
}

/// The classification of one header line.
enum HeaderLine {
    Old(String, Option<String>),
    New(String, Option<String>),
    Other,
}

/// Classifies the line `v[lo..hi]`.
fn header_line_at(v: &Vec<char>, lo: usize, hi: usize) -> (r: HeaderLine)
    requires
        lo <= hi <= v.len(),
    ensures
        ({
            let line = v@.subrange(lo as int, hi as int);
            let t = trim(line);
            match r {
                HeaderLine::Old(p, ts) => has_prefix(t, "---"@) && header_line("---"@, line)
                    == Some((p@, ts.deep_view())),
                HeaderLine::New(p, ts) => !has_prefix(t, "---"@) && has_prefix(t, "+++"@)
                    && header_line("+++"@, line) == Some((p@, ts.deep_view())),
                HeaderLine::Other => (has_prefix(t, "---"@) && header_line("---"@, line) is None)
                    || (!has_prefix(t, "---"@) && has_prefix(t, "+++"@) && header_line(
                    "+++"@,
                    line,
                ) is None) || (!has_prefix(t, "---"@) && !has_prefix(t, "+++"@)),
            }
        }),
{
    let (a, b) = trim_bounds(v, lo, hi);
    let minus = chars_of("---");
    let plus = chars_of("+++");
    let is_old = starts_with_at(v, a, b, &minus);
    let is_new = !is_old && starts_with_at(v, a, b, &plus);
    if !is_old && !is_new {
        return HeaderLine::Other;
    }
    proof {
        reveal_strlit("---");
        reveal_strlit("+++");
    }
    let ghost line = v@.subrange(lo as int, hi as int);
    let ghost t = trim(line);
    assert(t == v@.subrange(a as int, b as int));
    assert(t.subrange(3, t.len() as int) =~= v@.subrange(a + 3, b as int));
    let (c, d) = trim_bounds(v, a + 3, b);
    if c == d {
        return HeaderLine::Other;
    }
    let (pe, ts) = split_ts_at(v, c, d);
    let path = string_of_range(v, c, pe);
    let tstr = match ts {
        Some((x, y)) => Some(string_of_range(v, x, y)),
        None => None,
    };
    if is_old {
        HeaderLine::Old(path, tstr)
    } else {
        HeaderLine::New(path, tstr)
    }
}

/// Finds two consecutive spaces in `v[i..hi]`.
fn find_double_space_at(v: &Vec<char>, lo: usize, hi: usize) -> (r: usize)
    requires
        lo <= hi <= v.len(),
    ensures
        lo <= r <= hi,
        r == lo + find_double_space(v@.subrange(lo as int, hi as int), 0),
{
    let ghost t = v@.subrange(lo as int, hi as int);
    let mut k = lo;
    while hi - k >= 2 && !(v[k] == ' ' && v[k + 1] == ' ')
        invariant
            lo <= k <= hi <= v.len(),
            t == v@.subrange(lo as int, hi as int),
            find_double_space(t, k - lo) == find_double_space(t, 0),
        decreases hi - k,
    {
        k = k + 1;
    }
    if hi - k < 2 {
        hi
    } else {
        k
    }
}

/// Splits `v[lo..hi]` as [`split_ts`] does: returns the end of the path and
/// the bounds of the timestamp.
fn split_ts_at(v: &Vec<char>, lo: usize, hi: usize) -> (r: (usize, Option<(usize, usize)>))
    requires
        lo <= hi <= v.len(),
    ensures
        lo <= r.0 <= hi,
        r.1 matches Some((x, y)) ==> r.0 <= x <= y <= hi,
        ({
            let s = v@.subrange(lo as int, hi as int);
            split_ts(s) == (
                v@.subrange(lo as int, r.0 as int),
                match r.1 {
                    Some((x, y)) => Some(v@.subrange(x as int, y as int)),
                    None => None,
                },
            )
        }),
{
    let ghost s = v@.subrange(lo as int, hi as int);
    let t = find_char(v, '\t', lo, hi);
    proof {
        lemma_find_from(s, '\t', 0);
    }
    if t < hi {
        proof {
            assert(s.subrange(0, t - lo) =~= v@.subrange(lo as int, t as int));
            assert(s.subrange(t - lo + 1, s.len() as int) =~= v@.subrange(t + 1, hi as int));
        }
        return (t, Some((t + 1, hi)));
    }
    let d = find_double_space_at(v, lo, hi);
    if d < hi {
        proof {
            lemma_find_double_space(s, 0);
        }
        let (x, y) = trim_bounds(v, d + 2, hi);
        proof {
            assert(s.subrange(0, d - lo) =~= v@.subrange(lo as int, d as int));
            assert(s.subrange(d - lo + 2, s.len() as int) =~= v@.subrange(d + 2, hi as int));
        }
        return (d, Some((x, y)));
    }
    (hi, None)
}

proof fn lemma_find_double_space(s: Seq<char>, i: int)
    requires
        0 <= i <= s.len(),
    ensures
        i <= find_double_space(s, i) <= s.len(),
        find_double_space(s, i) < s.len() ==> find_double_space(s, i) + 1 < s.len(),
    decreases s.len() - i,
{
    if i + 1 < s.len() && !(s[i] == ' ' && s[i + 1] == ' ') {
        lemma_find_double_space(s, i + 1);
    }
}

fn opt_str(o: &Option<String>) -> (r: Option<&str>)
    ensures
        r.deep_view() == o.deep_view(),
{
    match o {
        Some(s) => Some(s.as_str()),
        None => None,
    }
}

fn clone_opt(o: &Option<String>) -> (r: Option<String>)
    ensures
        r.deep_view() == o.deep_view(),
{
    match o {
        Some(s) => Some(to_string(s.as_str())),
        None => None,
    }
}

fn str_eq(a: &str, b: &str) -> (r: bool)
    ensures
        r == (a@ == b@),
{
    let av = chars_of(a);
    let bv = chars_of(b);
    crate::text::chars_eq(&av, &bv)
}

fn strip_given_string(p: &str, pre: &Vec<char>) -> (r: String)
    ensures
        r@ == (if dev_null(p@) { p@ } else { strip_given(p@, pre@) }),
{
    let v = chars_of(p);
    if is_dev_null_chars(&v, 0, v.len()) {
        assert(v@.subrange(0, v.len() as int) =~= v@);
        return to_string(p);
    }
    assert(v@.subrange(0, v.len() as int) =~= v@);
    if starts_with_at(&v, 0, v.len(), pre) {
        string_of_range(&v, pre.len(), v.len())
    } else {
        to_string(p)
    }
}

/// Strips diff prefixes from a path: one leading `a/`, `b/` or `i/`
/// (nothing from `/dev/null`).
pub fn strip_diff_prefix(path: &str) -> (r: &str)
    ensures
        r@ == strip_prefix_spec(path@),
{
    let v = chars_of(path);
    let k = strip_bounds(&v, 0, v.len());
    assert(v@.subrange(0, v.len() as int) =~= v@);
    path.substring_char(k, v.len())
}

/// Checks if a path represents `/dev/null` (with or without the leading slash).
pub fn is_dev_null(path: &str) -> (r: bool)
    ensures
        r == dev_null(path@),
{
    let v = chars_of(path);
    assert(v@.subrange(0, v.len() as int) =~= v@);
    is_dev_null_chars(&v, 0, v.len())
}

proof fn lemma_strip_shrinks(p: Seq<char>)
    ensures
        strip_prefix_spec(p).len() <= p.len(),
        strip_prefix_spec(p).len() == p.len() ==> strip_prefix_spec(p) == p,
{
    reveal_strlit("a/");
    reveal_strlit("b/");
    reveal_strlit("i/");
}

/// Normalizes a path: `/dev/null` as is; otherwise backslashes become
/// forward slashes and diff prefixes are stripped repeatedly. Borrows the
/// input when nothing changes.
pub fn normalize_path(path: &str) -> (r: Cow<'_, str>)
    ensures
        r@ == normalize_spec(path@),
{
    let v = chars_of(path);
    assert(v@.subrange(0, v.len() as int) =~= v@);
    if is_dev_null_chars(&v, 0, v.len()) {
        return Cow::Borrowed(path);
    }
    let mut conv: Vec<char> = Vec::new();
    let mut changed = false;
    let mut i: usize = 0;
    while i < v.len()
        invariant
            i <= v.len(),
            conv@ == slashes(v@.take(i as int)),
            !changed ==> conv@ == v@.take(i as int),
        decreases v.len() - i,
    {
        let c = v[i];
        if c == '\\' {
            conv.push('/');
            changed = true;
        } else {
            conv.push(c);
        }
        i = i + 1;
        assert(conv@ =~= slashes(v@.take(i as int)));
        assert(!changed ==> conv@ =~= v@.take(i as int));
    }
    assert(v@.take(v.len() as int) =~= v@);
    let mut start: usize = 0;
    assert(conv@.subrange(0, conv.len() as int) =~= conv@);
    loop
        invariant
            start <= conv.len(),
            strip_all(conv@.subrange(start as int, conv.len() as int)) == strip_all(conv@),
        ensures
            start <= conv.len(),
            strip_all(conv@.subrange(start as int, conv.len() as int)) == strip_all(conv@),
            strip_prefix_spec(conv@.subrange(start as int, conv.len() as int)) == conv@.subrange(
                start as int,
                conv.len() as int,
            ),
        decreases conv.len() - start,
    {
        let next = strip_bounds(&conv, start, conv.len());
        proof {
            lemma_strip_shrinks(conv@.subrange(start as int, conv.len() as int));
        }
        if next == start {
            break;
        }
        start = next;
    }
    proof {
        let cur = conv@.subrange(start as int, conv.len() as int);
        lemma_strip_shrinks(cur);
        assert(strip_all(cur) == cur);
        assert(conv@.subrange(0, conv.len() as int) =~= conv@);
    }
    if !changed && start == 0 {
        return Cow::Borrowed(path);
    }
    Cow::Owned(string_of_range(&conv, start, conv.len()))
}

/// Normalizes a path and returns an owned `String`.
pub fn normalize_path_owned(path: &str) -> (r: String)
    ensures
        r@ == normalize_spec(path@),
{
    let c = normalize_path(path);
    match c {
        Cow::Borrowed(b) => to_string(b),
        Cow::Owned(o) => o,
    }
}

/// Splits a path/timestamp string into (path, optional timestamp): at the
/// first tab, else at the first two spaces (timestamp trimmed).
pub fn split_path_and_timestamp(s: &str) -> (r: (&str, Option<&str>))
    ensures
        (r.0@, r.1.deep_view()) == split_ts(s@),
{
    let v = chars_of(s);
    let (pe, ts) = split_ts_at(&v, 0, v.len());
    assert(v@.subrange(0, v.len() as int) =~= v@);
    let path = s.substring_char(0, pe);
    match ts {
        Some((x, y)) => (path, Some(s.substring_char(x, y))),
        None => (path, None),
    }
}

/// Extracts paths from a diff header string (same as [`DiffPaths::parse`]).
pub fn extract_paths_from_header(header: &str) -> (r: Result<Option<DiffPaths>, DiffPathsError>)
    ensures
        r matches Ok(o) && match parse_header_spec(header@) {
            Some(st) => o matches Some(p) && p.paths_view() == st,
            None => o is None,
        },
{
    DiffPaths::parse(header)
}

/// Extracts paths from a diff header and normalizes them.
pub fn extract_normalized_paths(header: &str) -> (r: Result<Option<DiffPaths>, DiffPathsError>)
    ensures
        r matches Ok(o) && match parse_header_spec(header@) {
            Some(st) => o matches Some(p) && p.paths_view() == (
                match st.0 {
                    Some(x) => Some(normalize_spec(x)),
                    None => None,
                },
                match st.1 {
                    Some(x) => Some(normalize_spec(x)),
                    None => None,
                },
                st.2,
                st.3,
            ),
            None => o is None,
        },
{
    match DiffPaths::parse(header) {
        Ok(Some(p)) => Ok(Some(p.strip_diff_prefixes())),
        Ok(None) => Ok(None),
        Err(e) => Err(e),
    }
}

/// Parses a single line with the given marker into (path, timestamp).
fn parse_marked_line<'a>(line: &'a str, marker: &str) -> (r: (Option<&'a str>, Option<&'a str>))
    requires
        marker@.len() == 3,
    ensures
        match header_line(marker@, line@) {
            Some((p, ts)) => r.0.deep_view() == Some(p) && r.1.deep_view() == ts,
            None => r.0 is None && r.1 is None,
        },
{
    let v = chars_of(line);
    let m = chars_of(marker);
    let (a, b) = trim_bounds(&v, 0, v.len());
    assert(v@.subrange(0, v.len() as int) =~= v@);
    if !starts_with_at(&v, a, b, &m) {
        return (None, None);
    }
    let ghost t = trim(line@);
    assert(t.subrange(3, t.len() as int) =~= v@.subrange(a + 3, b as int));
    let (c, d) = trim_bounds(&v, a + 3, b);
    if c == d {
        return (None, None);
    }
    let (pe, ts) = split_ts_at(&v, c, d);
    let path = line.substring_char(c, pe);
    match ts {
        Some((x, y)) => (Some(path), Some(line.substring_char(x, y))),
        None => (Some(path), None),
    }
}

/// Parses a single `---` line into (path, timestamp).
pub fn parse_old_line(line: &str) -> (r: (Option<&str>, Option<&str>))
    ensures
        match header_line("---"@, line@) {
            Some((p, ts)) => r.0.deep_view() == Some(p) && r.1.deep_view() == ts,
            None => r.0 is None && r.1 is None,
        },
{
    proof {
        reveal_strlit("---");
    }
    parse_marked_line(line, "---")
}

/// Parses a single `+++` line into (path, timestamp).
pub fn parse_new_line(line: &str) -> (r: (Option<&str>, Option<&str>))
    ensures
        match header_line("+++"@, line@) {
            Some((p, ts)) => r.0.deep_view() == Some(p) && r.1.deep_view() == ts,
            None => r.0 is None && r.1 is None,
        },
{
    proof {
        reveal_strlit("+++");
    }
    parse_marked_line(line, "+++")
}

proof fn lemma_strip_all(p: Seq<char>)
    ensures
        strip_all(p).len() <= p.len(),
        strip_all(p) == p.subrange(p.len() - strip_all(p).len(), p.len() as int),
        strip_prefix_spec(strip_all(p)).len() >= strip_all(p).len(),
    decreases p.len(),
{
    let q = strip_prefix_spec(p);
    lemma_strip_shrinks(p);
    if q.len() < p.len() {
        lemma_strip_all(q);
        let r = strip_all(q);
        assert(q == p.subrange(2, p.len() as int));
        assert(r =~= p.subrange(p.len() - r.len(), p.len() as int));
    } else {
        assert(p =~= p.subrange(0, p.len() as int));
    }
}

/// Normalizing twice is the same as normalizing once.
pub proof fn law_normalize_idempotent(p: Seq<char>)
    ensures
        normalize_spec(normalize_spec(p)) == normalize_spec(p),
{
    if !dev_null(p) {
        let s = slashes(p);
        let q = strip_all(s);
        lemma_strip_all(s);
        if !dev_null(q) {
            assert forall|i: int| 0 <= i < q.len() implies q[i] != '\\' by {
                assert(q[i] == s[s.len() - q.len() + i]);
            }
            assert(slashes(q) =~= q);
            assert(strip_all(q) == q);
        }
    }
}

/// Rename and modification exclude each other, and neither holds of a
/// creation or a deletion.
pub proof fn law_change_kinds_exclusive(d: DiffPaths)
    ensures
        !(d.rename_spec() && d.modification_spec()),
        d.rename_spec() ==> !d.creation_spec() && !d.deletion_spec(),
        d.modification_spec() ==> !d.creation_spec() && !d.deletion_spec(),
{
}

} // verus!
