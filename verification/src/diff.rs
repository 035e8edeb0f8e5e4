//! Unified diff parsing into new-side changed line ranges (the compact
//! parser: file identity, hunk boundaries and new-side numbers of `+` lines).
use vstd::prelude::*;
use crate::git_path::strip_ab;
use crate::hunk::{find_ws, hunk_starts, lemma_find_ws, parse_hunk_starts};
use crate::line_ranges::{insert_line, merge_lines_to_ranges, ranges_of};
use crate::path_map::{lookup, sorted_insert, PathMap};
use crate::source::{after_marker, ascending, opt_text, sat_add, strip_repeat};
use crate::text::{
    bounds_of_lines, chars_of, decimal, has_prefix, is_whitespace, lemma_skip_ws, line_bounds,
    lines, push_decimal, push_str, skip_ws, starts_with_at, string_of_range, trim_bounds,
};
use crate::types::{diff_form, LineRange, NormPath};

verus! {

/// Statistics about a parsed diff.
#[derive(Clone, Copy, Debug, Structural, PartialEq, Eq)]
pub struct DiffStats {
    pub files: u32,
    pub hunks: u32,
    pub added_lines: u32,
}

impl Default for DiffStats {
    fn default() -> (r: Self)
        ensures
            r == (DiffStats { files: 0, hunks: 0, added_lines: 0 }),
    {
        DiffStats { files: 0, hunks: 0, added_lines: 0 }
    }
}

/// Changed new-side line ranges per file and rename records.
#[derive(Clone, Debug)]
pub struct DiffMap {
    /// New path -> merged changed line ranges (new side).
    pub changed: PathMap<Vec<LineRange>>,
    /// Old path -> new path (best effort).
    pub renames: PathMap<NormPath>,
    pub stats: DiffStats,
}

impl Default for DiffMap {
    fn default() -> (r: Self)
        ensures
            r.changed.seq().len() == 0,
            r.renames.seq().len() == 0,
            r.stats == (DiffStats { files: 0, hunks: 0, added_lines: 0 }),
    {
        DiffMap { changed: PathMap::new(), renames: PathMap::new(), stats: DiffStats::default() }
    }
}

/// Error type for diff parsing failures.
#[derive(Clone, Debug, PartialEq, Eq)]
pub enum DiffParseError {
    /// The diff content was invalid at a specific (1-based) line.
    Invalid { line: usize, msg: String },
}

impl DiffParseError {
    /// The displayed text: `unified diff parse error at line {line}: {msg}`.
    pub fn to_string(&self) -> (s: String)
        ensures
            match self {
                DiffParseError::Invalid { line, msg } => s@ == "unified diff parse error at line "@
                    + decimal(*line as nat) + ": "@ + msg@,
            },
    {
        match self {
            DiffParseError::Invalid { line, msg } => {
                let mut s = String::new();
                push_str(&mut s, "unified diff parse error at line ");
                push_decimal(&mut s, *line as u64);
                push_str(&mut s, ": ");
                push_str(&mut s, msg.as_str());
                assert(s@ =~= "unified diff parse error at line "@ + decimal(*line as nat) + ": "@
                    + msg@);
                s
            },
        }
    }
}

/// Bounds of the first whitespace-separated word of `s` at or after `i`.
pub open spec fn next_word(s: Seq<char>, i: int) -> Option<(int, int)> {
    let a = skip_ws(s, i);
    if a >= s.len() {
        None
    } else {
        Some((a, find_ws(s, a)))
    }
}

/// The third and fourth words of a `diff --git a/foo b/foo` line.
pub open spec fn git_words(line: Seq<char>) -> Option<(Seq<char>, Seq<char>)> {
    match next_word(line, 0) {
        None => None,
        Some((_, e0)) => match next_word(line, e0) {
            None => None,
            Some((_, e1)) => match next_word(line, e1) {
                None => None,
                Some((a2, e2)) => match next_word(line, e2) {
                    None => None,
                    Some((a3, e3)) => Some((line.subrange(a2, e2), line.subrange(a3, e3))),
                },
            },
        },
    }
}

fn next_word_at(v: &Vec<char>, i: usize) -> (r: Option<(usize, usize)>)
    requires
        i <= v.len(),
    ensures
        match r {
            Some((a, b)) => i <= a <= b <= v.len() && next_word(v@, i as int) == Some(
                (a as int, b as int),
            ),
            None => next_word(v@, i as int) is None,
        },
{
    let mut a = i;
    while a < v.len() && is_whitespace(v[a])
        invariant
            i <= a <= v.len(),
            skip_ws(v@, a as int) == skip_ws(v@, i as int),
        decreases v.len() - a,
    {
        a = a + 1;
    }
    proof {
        lemma_skip_ws(v@, i as int);
    }
    if a == v.len() {
        return None;
    }
    let mut b = a;
    while b < v.len() && !is_whitespace(v[b])
        invariant
            a <= b <= v.len(),
            find_ws(v@, b as int) == find_ws(v@, a as int),
        decreases v.len() - b,
    {
        b = b + 1;
    }
    proof {
        lemma_find_ws(v@, a as int);
    }
    Some((a, b))
}

/// The state of the file section being read, as plain values.
pub struct SectionView {
    pub old_path: Option<Seq<char>>,
    pub new_path: Option<Seq<char>>,
    pub rename_from: Option<Seq<char>>,
    pub rename_to: Option<Seq<char>>,
    pub in_hunk: bool,
    pub old_line: u32,
    pub new_line: u32,
    pub changed: Set<u32>,
    pub hunks: nat,
    pub added: nat,
}

/// A file section with nothing read yet.
pub open spec fn fresh_section() -> SectionView {
    SectionView {
        old_path: None,
        new_path: None,
        rename_from: None,
        rename_to: None,
        in_hunk: false,
        old_line: 0,
        new_line: 0,
        changed: Set::empty(),
        hunks: 0,
        added: 0,
    }
}

/// The section a `diff --git` line opens.
pub open spec fn git_section(line: Seq<char>) -> SectionView {
    match git_words(line) {
        Some((a, b)) => SectionView {
            old_path: Some(diff_form(strip_ab(a))),
            new_path: Some(diff_form(strip_ab(b))),
            ..fresh_section()
        },
        None => fresh_section(),
    }
}

/// The effect of one line on the open section, or the reason it is invalid.
pub open spec fn section_effect(st: SectionView, line: Seq<char>) -> Result<SectionView, Seq<char>> {
    if has_prefix(line, "rename from "@) {
        Ok(SectionView { rename_from: Some(diff_form(after_marker(line, "rename from "@))), ..st })
    } else if has_prefix(line, "rename to "@) {
        Ok(SectionView { rename_to: Some(diff_form(after_marker(line, "rename to "@))), ..st })
    } else if has_prefix(line, "--- "@) {
        let p = after_marker(line, "--- "@);
        if p == "/dev/null"@ {
            Ok(SectionView { old_path: None, ..st })
        } else {
            Ok(SectionView { old_path: Some(diff_form(strip_ab(p))), ..st })
        }
    } else if has_prefix(line, "+++ "@) {
        let p = after_marker(line, "+++ "@);
        if p == "/dev/null"@ {
            Ok(SectionView { new_path: None, ..st })
        } else {
            Ok(SectionView { new_path: Some(diff_form(strip_ab(p))), ..st })
        }
    } else if has_prefix(line, "@@ "@) {
        match hunk_starts(line) {
            Err(m) => Err(m),
            Ok((os, ns)) => Ok(
                SectionView { in_hunk: true, hunks: st.hunks + 1, old_line: os, new_line: ns, ..st },
            ),
        }
    } else if st.in_hunk {
        if has_prefix(line, "+"@) && !has_prefix(line, "+++ "@) {
            Ok(
                SectionView {
                    changed: if st.new_line >= 1 {
                        st.changed.insert(st.new_line)
                    } else {
                        st.changed
                    },
                    new_line: sat_add(st.new_line, 1),
                    added: st.added + 1,
                    ..st
                },
            )
        } else if has_prefix(line, "-"@) && !has_prefix(line, "--- "@) {
            Ok(SectionView { old_line: sat_add(st.old_line, 1), ..st })
        } else if has_prefix(line, " "@) {
            Ok(
                SectionView {
                    old_line: sat_add(st.old_line, 1),
                    new_line: sat_add(st.new_line, 1),
                    ..st
                },
            )
        } else if has_prefix(line, "\\"@) {
            Ok(st)
        } else {
            Ok(SectionView { in_hunk: false, ..st })
        }
    } else {
        Ok(st)
    }
}

/// The parse so far: changed ranges, renames, totals and the open section.
pub struct DiffParseView {
    pub changed: Seq<(Seq<char>, Seq<LineRange>)>,
    pub renames: Seq<(Seq<char>, Seq<char>)>,
    pub nfiles: nat,
    pub nhunks: nat,
    pub nadded: nat,
    pub current: Option<SectionView>,
}

/// Closes the open section: paths are normalized once more, a rename is
/// recorded when old and new differ, and the merged changed lines are
/// appended to the new path's ranges.
pub open spec fn close_section(p: DiffParseView) -> DiffParseView {
    match p.current {
        None => p,
        Some(st) => {
            let old = match st.rename_from {
                Some(x) => Some(diff_form(x)),
                None => match st.old_path {
                    Some(x) => Some(diff_form(x)),
                    None => None,
                },
            };
            let new = match st.rename_to {
                Some(x) => Some(diff_form(x)),
                None => match st.new_path {
                    Some(x) => Some(diff_form(x)),
                    None => None,
                },
            };
            DiffParseView {
                renames: match (old, new) {
                    (Some(o), Some(n)) => if o != n {
                        sorted_insert(p.renames, o, n)
                    } else {
                        p.renames
                    },
                    _ => p.renames,
                },
                changed: match new {
                    Some(n) => if !st.changed.is_empty() {
                        let before = match lookup(p.changed, n) {
                            Some(r) => r,
                            None => seq![],
                        };
                        sorted_insert(p.changed, n, before + ranges_of(st.changed))
                    } else {
                        p.changed
                    },
                    None => p.changed,
                },
                nfiles: p.nfiles + 1,
                nhunks: p.nhunks + st.hunks,
                nadded: p.nadded + st.added,
                current: None,
            }
        },
    }
}

/// The effect of one line on the parse.
pub open spec fn diff_step(p: DiffParseView, line: Seq<char>) -> Result<DiffParseView, Seq<char>> {
    if has_prefix(line, "diff --git "@) {
        Ok(DiffParseView { current: Some(git_section(line)), ..close_section(p) })
    } else {
        match p.current {
            None => Ok(p),
            Some(st) => match section_effect(st, line) {
                Err(m) => Err(m),
                Ok(st2) => Ok(DiffParseView { current: Some(st2), ..p }),
            },
        }
    }
}

/// The parse after the given lines, or the (1-based) number of the first
/// invalid line and why it is invalid.
pub open spec fn diff_lines(ls: Seq<Seq<char>>) -> Result<DiffParseView, (nat, Seq<char>)>
    decreases ls.len(),
{
    if ls.len() == 0 {
        Ok(
            DiffParseView {
                changed: seq![],
                renames: seq![],
                nfiles: 0,
                nhunks: 0,
                nadded: 0,
                current: None,
            },
        )
    } else {
        match diff_lines(ls.drop_last()) {
            Err(e) => Err(e),
            Ok(p) => match diff_step(p, ls.last()) {
                Err(m) => Err((ls.len(), m)),
                Ok(q) => Ok(q),
            },
        }
    }
}

/// The whole parse of a diff text, the last section closed.
pub open spec fn diff_parse(input: Seq<char>) -> Result<DiffParseView, (nat, Seq<char>)> {
    match diff_lines(lines(input)) {
        Err(e) => Err(e),
        Ok(p) => Ok(close_section(p)),
    }
}

struct Section {
    old_path: Option<NormPath>,
    new_path: Option<NormPath>,
    rename_from: Option<NormPath>,
    rename_to: Option<NormPath>,
    in_hunk: bool,
    old_line: u32,
    new_line: u32,
    changed: Vec<u32>,
    hunks: u32,
    added_lines: u32,
}

impl Section {
    spec fn view(&self) -> SectionView {
        SectionView {
            old_path: opt_text(self.old_path),
            new_path: opt_text(self.new_path),
            rename_from: opt_text(self.rename_from),
            rename_to: opt_text(self.rename_to),
            in_hunk: self.in_hunk,
            old_line: self.old_line,
            new_line: self.new_line,
            changed: self.changed@.to_set(),
            hunks: self.hunks as nat,
            added: self.added_lines as nat,
        }
    }

    fn fresh() -> (r: Self)
        ensures
            r.view() == fresh_section(),
            ascending(r.changed@),
    {
        let r = Section {
            old_path: None,
            new_path: None,
            rename_from: None,
            rename_to: None,
            in_hunk: false,
            old_line: 0,
            new_line: 0,
            changed: Vec::new(),
            hunks: 0,
            added_lines: 0,
        };
        assert(r.changed@.to_set() =~= Set::<u32>::empty());
        r
    }
}

fn starts_with(v: &Vec<char>, p: &str) -> (r: bool)
    ensures
        r == has_prefix(v@, p@),
{
    let pv = chars_of(p);
    assert(v@.subrange(0, v.len() as int) =~= v@);
    starts_with_at(v, 0, v.len(), &pv)
}

/// `strip_ab` of `v[lo..hi]`, normalized as a diff path.
fn diff_path_at(line: &str, v: &Vec<char>, lo: usize, hi: usize) -> (r: NormPath)
    requires
        v@ == line@,
        lo <= hi <= v.len(),
    ensures
        r@ == diff_form(strip_ab(v@.subrange(lo as int, hi as int))),
{
    let pa = chars_of("a/");
    let pb = chars_of("b/");
    proof {
        reveal_strlit("a/");
        reveal_strlit("b/");
    }
    if starts_with_at(v, lo, hi, &pa) || starts_with_at(v, lo, hi, &pb) {
        proof {
            let s = v@.subrange(lo as int, hi as int);
            assert(s.subrange(2, s.len() as int) =~= v@.subrange(lo + 2, hi as int));
        }
        NormPath::new(line.substring_char(lo + 2, hi))
    } else {
        NormPath::new(line.substring_char(lo, hi))
    }
}

/// Bounds of `after_marker(v, marker)`.
fn after_marker_bounds(v: &Vec<char>, marker: &str) -> (r: (usize, usize))
    requires
        marker@.len() > 0,
    ensures
        r.0 <= r.1 <= v.len(),
        v@.subrange(r.0 as int, r.1 as int) == after_marker(v@, marker@),
{
    let m = chars_of(marker);
    let mut k: usize = 0;
    assert(v@.subrange(0, v.len() as int) =~= v@);
    while starts_with_at(v, k, v.len(), &m)
        invariant
            k <= v.len(),
            m@ == marker@,
            m.len() > 0,
            strip_repeat(v@.subrange(k as int, v.len() as int), marker@) == strip_repeat(v@, marker@),
        decreases v.len() - k,
    {
        proof {
            let t = v@.subrange(k as int, v.len() as int);
            assert(t.subrange(m.len() as int, t.len() as int) =~= v@.subrange(
                k + m.len(),
                v.len() as int,
            ));
        }
        k = k + m.len();
    }
    trim_bounds(v, k, v.len())
}

fn is_dev_null_at(v: &Vec<char>, lo: usize, hi: usize) -> (r: bool)
    requires
        lo <= hi <= v.len(),
    ensures
        r == (v@.subrange(lo as int, hi as int) == "/dev/null"@),
{
    let d = chars_of("/dev/null");
    crate::text::range_eq(v, lo, hi, &d)
}

fn open_git_section(line: &str, v: &Vec<char>) -> (r: Section)
    requires
        v@ == line@,
    ensures
        r.view() == git_section(line@),
        ascending(r.changed@),
{
    let mut st = Section::fresh();
    let w0 = next_word_at(v, 0);
    if let Some((_, e0)) = w0 {
        let w1 = next_word_at(v, e0);
        if let Some((_, e1)) = w1 {
            let w2 = next_word_at(v, e1);
            if let Some((a2, e2)) = w2 {
                let w3 = next_word_at(v, e2);
                if let Some((a3, e3)) = w3 {
                    st.old_path = Some(diff_path_at(line, v, a2, e2));
                    st.new_path = Some(diff_path_at(line, v, a3, e3));
                }
            }
        }
    }
    st
}

fn apply_section_line(st: &mut Section, line: &str, v: &Vec<char>) -> (r: Result<(), String>)
    requires
        v@ == line@,
        ascending(old(st).changed@),
        old(st).added_lines < u32::MAX,
        old(st).hunks < u32::MAX,
    ensures
        ascending(final(st).changed@),
        match section_effect(old(st).view(), line@) {
            Ok(s2) => r is Ok && final(st).view() == s2,
            Err(m) => r matches Err(e) && e@ == m,
        },
{
    proof {
        reveal_strlit("rename from ");
        reveal_strlit("rename to ");
        reveal_strlit("--- ");
        reveal_strlit("+++ ");
    }
    if starts_with(v, "rename from ") {
        let (a, b) = after_marker_bounds(v, "rename from ");
        st.rename_from = Some(NormPath::new(line.substring_char(a, b)));
        return Ok(());
    }
    if starts_with(v, "rename to ") {
        let (a, b) = after_marker_bounds(v, "rename to ");
        st.rename_to = Some(NormPath::new(line.substring_char(a, b)));
        return Ok(());
    }
    if starts_with(v, "--- ") {
        let (a, b) = after_marker_bounds(v, "--- ");
        if is_dev_null_at(v, a, b) {
            st.old_path = None;
        } else {
            st.old_path = Some(diff_path_at(line, v, a, b));
        }
        return Ok(());
    }
    if starts_with(v, "+++ ") {
        let (a, b) = after_marker_bounds(v, "+++ ");
        if is_dev_null_at(v, a, b) {
            st.new_path = None;
        } else {
            st.new_path = Some(diff_path_at(line, v, a, b));
        }
        return Ok(());
    }
    if starts_with(v, "@@ ") {
        let (os, ns) = match parse_hunk_starts(v) {
            Err(e) => {
                return Err(e);
            },
            Ok(x) => x,
        };
        st.in_hunk = true;
        st.hunks = st.hunks + 1;
        st.old_line = os;
        st.new_line = ns;
        return Ok(());
    }
    if st.in_hunk {
        if starts_with(v, "+") && !starts_with(v, "+++ ") {
            if st.new_line >= 1 {
                insert_line(&mut st.changed, st.new_line);
            }
            st.new_line = st.new_line.saturating_add(1);
            st.added_lines = st.added_lines + 1;
            return Ok(());
        }
        if starts_with(v, "-") && !starts_with(v, "--- ") {
            st.old_line = st.old_line.saturating_add(1);
            return Ok(());
        }
        if starts_with(v, " ") {
            st.old_line = st.old_line.saturating_add(1);
            st.new_line = st.new_line.saturating_add(1);
            return Ok(());
        }
        if starts_with(v, "\\") {
            return Ok(());
        }
        st.in_hunk = false;
    }
    Ok(())
}

fn renormalize(p: Option<NormPath>) -> (r: Option<NormPath>)
    ensures
        opt_text(r) == match opt_text(p) {
            Some(x) => Some(diff_form(x)),
            None => None::<Seq<char>>,
        },
{
    match p {
        Some(x) => Some(NormPath::new(x.as_str())),
        None => None,
    }
}

fn append_ranges(a: &Vec<LineRange>, b: Vec<LineRange>) -> (r: Vec<LineRange>)
    ensures
        r@ == a@ + b@,
{
    let mut r: Vec<LineRange> = Vec::new();
    let mut i: usize = 0;
    while i < a.len()
        invariant
            i <= a.len(),
            r@ == a@.take(i as int),
        decreases a.len() - i,
    {
        r.push(a[i]);
        i = i + 1;
        assert(r@ =~= a@.take(i as int));
    }
    let mut j: usize = 0;
    while j < b.len()
        invariant
            i == a.len(),
            j <= b.len(),
            r@ == a@ + b@.take(j as int),
        decreases b.len() - j,
    {
        r.push(b[j]);
        j = j + 1;
        assert(r@ =~= a@ + b@.take(j as int));
    }
    assert(b@.take(b.len() as int) =~= b@);
    r
}

spec fn section_view(c: Option<Section>) -> Option<SectionView> {
    match c {
        Some(st) => Some(st.view()),
        None => None,
    }
}

spec fn section_weight(c: Option<Section>) -> int {
    match c {
        Some(st) => 1 + st.hunks + st.added_lines,
        None => 0,
    }
}

fn close(out: &mut DiffMap, st: Section)
    requires
        ascending(st.changed@),
        old(out).stats.files + old(out).stats.hunks + old(out).stats.added_lines + 1 + st.hunks
            + st.added_lines <= u32::MAX,
    ensures
        ({
            let p = DiffParseView {
                changed: old(out).changed.seq(),
                renames: old(out).renames.seq(),
                nfiles: old(out).stats.files as nat,
                nhunks: old(out).stats.hunks as nat,
                nadded: old(out).stats.added_lines as nat,
                current: Some(st.view()),
            };
            let q = close_section(p);
            &&& final(out).changed.seq() == q.changed
            &&& final(out).renames.seq() == q.renames
            &&& final(out).stats.files == q.nfiles
            &&& final(out).stats.hunks == q.nhunks
            &&& final(out).stats.added_lines == q.nadded
        }),
{
    let old_path = match st.rename_from {
        Some(p) => renormalize(Some(p)),
        None => renormalize(st.old_path),
    };
    let new_path = match st.rename_to {
        Some(p) => renormalize(Some(p)),
        None => renormalize(st.new_path),
    };
    match (&old_path, &new_path) {
        (Some(o), Some(n)) => {
            if !o.same_as(n) {
                out.renames.insert(o.duplicate(), n.duplicate());
            }
        },
        _ => {},
    }
    match &new_path {
        Some(n) => {
            if st.changed.len() > 0 {
                proof {
                    assert(st.changed@.to_set().contains(st.changed@[0]));
                }
                let ranges = merge_lines_to_ranges(st.changed);
                let combined = match out.changed.get(n) {
                    Some(existing) => append_ranges(existing, ranges),
                    None => {
                        assert(Seq::<LineRange>::empty() + ranges@ =~= ranges@);
                        ranges
                    },
                };
                out.changed.insert(n.duplicate(), combined);
            } else {
                assert(st.changed@.to_set() =~= Set::<u32>::empty());
            }
        },
        None => {},
    }
    out.stats.files = out.stats.files + 1;
    out.stats.hunks = out.stats.hunks + st.hunks;
    out.stats.added_lines = out.stats.added_lines + st.added_lines;
}

proof fn lemma_diff_lines_err(ls: Seq<Seq<char>>, k: int)
    requires
        0 <= k <= ls.len(),
        diff_lines(ls.take(k)) is Err,
    ensures
        diff_lines(ls) == diff_lines(ls.take(k)),
    decreases ls.len(),
{
    if ls.len() == k {
        assert(ls.take(k) =~= ls);
    } else {
        assert(ls.drop_last().take(k) =~= ls.take(k));
        lemma_diff_lines_err(ls.drop_last(), k);
    }
}

/// Parses a unified diff into changed new-side ranges per file and rename
/// records. Lines before the first `diff --git` header are ignored; the only
/// error is a hunk header whose starts cannot be read.
pub fn parse_unified_diff(input: &str) -> (r: Result<DiffMap, DiffParseError>)
    requires
        lines(input@).len() <= u32::MAX,
    ensures
        match diff_parse(input@) {
            Ok(p) => r matches Ok(m) && m.changed.seq() == p.changed && m.renames.seq()
                == p.renames && m.stats.files == p.nfiles && m.stats.hunks == p.nhunks
                && m.stats.added_lines == p.nadded,
            Err((ln, msg)) => r matches Err(DiffParseError::Invalid { line, msg: m }) && line == ln
                && m@ == msg,
        },
{
    let v = chars_of(input);
    let bounds = line_bounds(&v);
    let mut out = DiffMap::default();
    let mut current: Option<Section> = None;
    let ghost ls = lines(v@);
    let mut i: usize = 0;
    proof {
        assert(ls.take(0) =~= Seq::<Seq<char>>::empty());
        assert(out.changed.seq() =~= Seq::<(Seq<char>, Seq<LineRange>)>::empty());
        assert(out.renames.seq() =~= Seq::<(Seq<char>, Seq<char>)>::empty());
    }
    while i < bounds.len()
        invariant
            bounds_of_lines(bounds@, v@),
            ls == lines(v@),
            v@ == input@,
            ls.len() <= u32::MAX,
            i <= bounds.len() == ls.len(),
            diff_lines(ls.take(i as int)) == Ok::<DiffParseView, (nat, Seq<char>)>(
                DiffParseView {
                    changed: out.changed.seq(),
                    renames: out.renames.seq(),
                    nfiles: out.stats.files as nat,
                    nhunks: out.stats.hunks as nat,
                    nadded: out.stats.added_lines as nat,
                    current: section_view(current),
                },
            ),
            current matches Some(st) ==> ascending(st.changed@),
            out.stats.files + out.stats.hunks + out.stats.added_lines + section_weight(current)
                <= i,
        decreases bounds.len() - i,
    {
        let (lo, hi) = bounds[i];
        let line_s = string_of_range(&v, lo, hi);
        let line = line_s.as_str();
        let lv = chars_of(line);
        proof {
            assert(ls.take(i + 1).drop_last() =~= ls.take(i as int));
            assert(ls.take(i + 1).last() == ls[i as int]);
            assert(ls[i as int] == line@);
        }
        if starts_with(&lv, "diff --git ") {
            match current {
                Some(st) => close(&mut out, st),
                None => {},
            }
            current = Some(open_git_section(line, &lv));
        } else {
            match current {
                None => {},
                Some(mut st) => {
                    match apply_section_line(&mut st, line, &lv) {
                        Err(e) => {
                            proof {
                                lemma_diff_lines_err(ls, i + 1);
                            }
                            return Err(DiffParseError::Invalid { line: i + 1, msg: e });
                        },
                        Ok(()) => {},
                    }
                    current = Some(st);
                },
            }
        }
        i = i + 1;
    }
    proof {
        assert(ls.take(ls.len() as int) =~= ls);
    }
    match current {
        Some(st) => close(&mut out, st),
        None => {},
    }
    Ok(out)
}


proof fn lemma_close_keeps_moves(p: DiffParseView)
    requires
        crate::path_map::pairs_differ(p.renames),
    ensures
        crate::path_map::pairs_differ(close_section(p).renames),
{
    match p.current {
        None => {},
        Some(st) => {
            let old = match st.rename_from {
                Some(x) => Some(diff_form(x)),
                None => match st.old_path {
                    Some(x) => Some(diff_form(x)),
                    None => None,
                },
            };
            let new = match st.rename_to {
                Some(x) => Some(diff_form(x)),
                None => match st.new_path {
                    Some(x) => Some(diff_form(x)),
                    None => None,
                },
            };
            match (old, new) {
                (Some(o), Some(n)) => if o != n {
                    crate::path_map::lemma_sorted_insert_differ(p.renames, o, n);
                },
                _ => {},
            }
        },
    }
}

proof fn lemma_lines_keep_moves(ls: Seq<Seq<char>>)
    ensures
        diff_lines(ls) matches Ok(p) ==> crate::path_map::pairs_differ(p.renames),
    decreases ls.len(),
{
    if ls.len() > 0 {
        lemma_lines_keep_moves(ls.drop_last());
        match diff_lines(ls.drop_last()) {
            Ok(p) => {
                lemma_close_keeps_moves(p);
            },
            Err(_) => {},
        }
    }
}

/// A rename whose old and new paths normalize to the same path is not
/// recorded: every recorded rename moves a file to a different path.
pub proof fn law_renames_move_paths(input: Seq<char>)
    ensures
        diff_parse(input) matches Ok(p) ==> crate::path_map::pairs_differ(p.renames),
{
    lemma_lines_keep_moves(lines(input));
    match diff_lines(lines(input)) {
        Ok(p) => {
            lemma_close_keeps_moves(p);
        },
        Err(_) => {},
    }
}

} // verus!
