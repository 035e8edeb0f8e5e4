//! Unified diff parsing into changed ranges and old/new source correspondence.
//!
//! A diff is read line by line. Each file section yields its old and new
//! path, its hunks, the added and deleted lines, and the unchanged line
//! intervals between hunks with their old-to-new offsets, so that a line
//! of the old revision can be mapped to the new one where the diff earns it.
use vstd::prelude::*;
use crate::git_path::{
    diff_git_paths, git_unquote, parse_diff_git_paths, repo_path_from_diff_path,
    repo_path_from_repository_path, repo_path_of_diff_path,
};
use crate::hunk::{hunk_header, parse_hunk_header};
use crate::line_ranges::{canonical, insert_line, lemma_ranges_exist, merge_lines_to_ranges, ranges_of};
use crate::path_map::{PathMap, sorted_insert};
use crate::text::{
    bounds_of_lines, chars_of, has_prefix, line_bounds, lines, push_decimal, push_str,
    starts_with_at, string_of_range, trim, trim_bounds, decimal,
};
use crate::types::{repo_form, LineRange, NormPath};

verus! {

/// Statistics about a parsed diff.
#[derive(Clone, Copy, Debug, PartialEq, Eq, Structural)]
pub struct DiffStats {
    /// Number of file sections in the diff.
    pub files: u32,
    /// Total number of hunks across all files.
    pub hunks: u32,
    /// Total number of added lines across all files.
    pub added_lines: u32,
}

impl Default for DiffStats {
    fn default() -> (r: Self)
        ensures
            r == (DiffStats { files: 0, hunks: 0, added_lines: 0 }),
    {
        DiffStats { files: 0, hunks: 0, added_lines: 0 }
    }
}

/// Complete old/new coordinates from a unified-diff hunk header.
#[derive(Clone, Copy, Debug, PartialEq, Eq, Structural)]
pub struct HunkDelta {
    pub old_start: u32,
    pub old_len: u32,
    pub new_start: u32,
    pub new_len: u32,
}

/// An open-ended line offset after the final hunk.
#[derive(Clone, Copy, Debug, PartialEq, Eq, Structural)]
pub struct LineOffset {
    pub value: i64,
}

/// A finite unchanged line interval and its old-to-new offset.
#[derive(Clone, Copy, Debug, PartialEq, Eq, Structural)]
pub struct LineMapSegment {
    pub old: LineRange,
    pub new: LineRange,
    pub offset: LineOffset,
}

/// The old and new identity plus line evidence for one changed file.
#[derive(Clone, Debug, PartialEq, Eq)]
pub struct FileDelta {
    pub old_path: Option<NormPath>,
    pub new_path: Option<NormPath>,
    pub hunks: Vec<HunkDelta>,
    pub added: Vec<LineRange>,
    pub deleted: Vec<LineRange>,
    pub unchanged_segments: Vec<LineMapSegment>,
    pub tail_mapping: Option<LineOffset>,
}

/// A [`FileDelta`] as plain values.
pub struct FileDeltaView {
    pub old_path: Option<Seq<char>>,
    pub new_path: Option<Seq<char>>,
    pub hunks: Seq<HunkDelta>,
    pub added: Seq<LineRange>,
    pub deleted: Seq<LineRange>,
    pub segments: Seq<LineMapSegment>,
    pub tail: Option<LineOffset>,
}

/// An optional path as an optional text.
pub open spec fn opt_text(p: Option<NormPath>) -> Option<Seq<char>> {
    match p {
        Some(x) => Some(x@),
        None => None,
    }
}

impl View for FileDelta {
    type V = FileDeltaView;

    open spec fn view(&self) -> FileDeltaView {
        FileDeltaView {
            old_path: opt_text(self.old_path),
            new_path: opt_text(self.new_path),
            hunks: self.hunks@,
            added: self.added@,
            deleted: self.deleted@,
            segments: self.unchanged_segments@,
            tail: self.tail_mapping,
        }
    }
}

/// A parsed source change set with enough evidence to map unchanged lines.
#[derive(Clone, Debug, PartialEq, Eq)]
pub struct SourceChangeSet {
    /// File deltas keyed by their new path, or old path for deleted files.
    pub files: PathMap<FileDelta>,
    /// Statistics of the parsed diff.
    pub stats: DiffStats,
}

impl Default for SourceChangeSet {
    fn default() -> (r: Self)
        ensures
            r.files.seq().len() == 0,
            r.stats == (DiffStats { files: 0, hunks: 0, added_lines: 0 }),
    {
        SourceChangeSet { files: PathMap::new(), stats: DiffStats::default() }
    }
}

/// Changed line ranges per new path and rename records.
#[derive(Clone, Debug, PartialEq, Eq)]
pub struct DiffMap {
    /// New path -> merged changed line ranges (new side).
    pub changed: PathMap<Vec<LineRange>>,
    /// Old path -> new path.
    pub renames: PathMap<NormPath>,
    /// Statistics about the parsed diff.
    pub stats: DiffStats,
}

impl Default for DiffMap {
    fn default() -> (r: Self)
        ensures
            r.changed.seq().len() == 0,
            r.renames.seq().len() == 0,
            r.stats == (DiffStats { files: 0, hunks: 0, added_lines: 0 }),
    {
        DiffMap { changed: PathMap::new(), renames: PathMap::new(), stats: DiffStats::default() }
    }
}

/// How an old location relates to the parsed change set.
#[derive(Clone, Debug, PartialEq, Eq)]
pub enum LocationMapping {
    Exact { new_path: NormPath, new_line: u32 },
    Shifted { new_path: NormPath, new_line: u32 },
    Renamed { old_path: NormPath, new_path: NormPath, new_line: u32 },
    ShiftedAndRenamed { old_path: NormPath, new_path: NormPath, new_line: u32 },
    UnmappableChangedRegion { path: NormPath, line: u32 },
    FileCreated { path: NormPath },
    FileDeleted { path: NormPath },
    MissingFile,
}

/// A [`LocationMapping`] with its paths as texts.
pub enum MappingView {
    Exact(Seq<char>, u32),
    Shifted(Seq<char>, u32),
    Renamed(Seq<char>, Seq<char>, u32),
    ShiftedAndRenamed(Seq<char>, Seq<char>, u32),
    UnmappableChangedRegion(Seq<char>, u32),
    FileCreated(Seq<char>),
    FileDeleted(Seq<char>),
    MissingFile,
}

impl View for LocationMapping {
    type V = MappingView;

    open spec fn view(&self) -> MappingView {
        match self {
            LocationMapping::Exact { new_path, new_line } => MappingView::Exact(new_path@, *new_line),
            LocationMapping::Shifted { new_path, new_line } => MappingView::Shifted(
                new_path@,
                *new_line,
            ),
            LocationMapping::Renamed { old_path, new_path, new_line } => MappingView::Renamed(
                old_path@,
                new_path@,
                *new_line,
            ),
            LocationMapping::ShiftedAndRenamed {
                old_path,
                new_path,
                new_line,
            } => MappingView::ShiftedAndRenamed(old_path@, new_path@, *new_line),
            LocationMapping::UnmappableChangedRegion {
                path,
                line,
            } => MappingView::UnmappableChangedRegion(path@, *line),
            LocationMapping::FileCreated { path } => MappingView::FileCreated(path@),
            LocationMapping::FileDeleted { path } => MappingView::FileDeleted(path@),
            LocationMapping::MissingFile => MappingView::MissingFile,
        }
    }
}

/// Error type for diff parsing failures.
#[derive(Clone, Debug, PartialEq, Eq)]
pub enum DiffParseError {
    /// The diff content was invalid at a specific (1-based) line.
    Invalid { line: usize, msg: String },
}

impl DiffParseError {
    /// The displayed text: `unified diff parse error at line {line}: {msg}`.
    pub fn to_string(&self) -> (s: String)
        ensures
            match self {
                DiffParseError::Invalid { line, msg } => s@ == "unified diff parse error at line "@
                    + decimal(*line as nat) + ": "@ + msg@,
            },
    {
        match self {
            DiffParseError::Invalid { line, msg } => {
                let mut s = String::new();
                push_str(&mut s, "unified diff parse error at line ");
                push_decimal(&mut s, *line as u64);
                push_str(&mut s, ": ");
                push_str(&mut s, msg.as_str());
                assert(s@ =~= "unified diff parse error at line "@ + decimal(*line as nat) + ": "@
                    + msg@);
                s
            },
        }
    }
}

// ---------------------------------------------------------------------------
// Arithmetic on line numbers
// ---------------------------------------------------------------------------

/// `a + b`, saturating at `u32::MAX`.
pub open spec fn sat_add(a: u32, b: u32) -> u32 {
    if a + b > u32::MAX {
        u32::MAX
    } else {
        (a + b) as u32
    }
}

/// A line moved by an offset, when the result is a valid (positive, 32-bit) line.
pub open spec fn offset_line(line: u32, offset: LineOffset) -> Option<u32> {
    let m = line + offset.value;
    if 0 < m <= u32::MAX {
        Some(m as u32)
    } else {
        None
    }
}

/// Moves a line by an offset; `None` when the result is not a valid line.
pub fn apply_offset(line: u32, offset: LineOffset) -> (r: Option<u32>)
    ensures
        r == offset_line(line, offset),
{
    match (line as i64).checked_add(offset.value) {
        None => None,
        Some(m) => {
            if 0 < m && m <= 0xffff_ffff {
                Some(m as u32)
            } else {
                None
            }
        },
    }
}

// ---------------------------------------------------------------------------
// Old-to-new correspondence between hunks
// ---------------------------------------------------------------------------

/// The unchanged intervals between the hunks from the `i`-th on, given the
/// old and new line just after the previous hunk; `None` when hunks overlap
/// or go backwards, or an interval cannot be mapped.
pub open spec fn segments_from(h: Seq<HunkDelta>, i: int, po: u32, pn: u32) -> Option<
    Seq<LineMapSegment>,
>
    decreases h.len() - i,
{
    if i < 0 || i >= h.len() {
        Some(seq![])
    } else {
        let k = h[i];
        let oe = sat_add(k.old_start, k.old_len);
        let ne = sat_add(k.new_start, k.new_len);
        if k.old_start < po || k.new_start < pn {
            None
        } else if k.old_start > po {
            let off = LineOffset { value: (pn - po) as i64 };
            let old = LineRange { start: po, end: (k.old_start - 1) as u32 };
            match (offset_line(old.start, off), offset_line(old.end, off)) {
                (Some(a), Some(b)) => match segments_from(h, i + 1, oe, ne) {
                    Some(rest) => Some(
                        seq![LineMapSegment { old, new: LineRange { start: a, end: b }, offset: off }]
                            + rest,
                    ),
                    None => None,
                },
                _ => None,
            }
        } else {
            segments_from(h, i + 1, oe, ne)
        }
    }
}

/// The unchanged intervals before and between hunks (empty when the hunks
/// do not describe an orderly walk through the file).
pub open spec fn segments_spec(h: Seq<HunkDelta>) -> Seq<LineMapSegment> {
    if h.len() == 0 {
        seq![]
    } else {
        match segments_from(h, 0, 1, 1) {
            Some(s) => s,
            None => seq![],
        }
    }
}

/// Computes the unchanged intervals before and between hunks.
pub fn unchanged_segments(hunks: &Vec<HunkDelta>) -> (r: Vec<LineMapSegment>)
    ensures
        r@ == segments_spec(hunks@),
{
    if hunks.len() == 0 {
        return Vec::new();
    }
    let mut segments: Vec<LineMapSegment> = Vec::new();
    let mut po: u32 = 1;
    let mut pn: u32 = 1;
    let mut i: usize = 0;
    while i < hunks.len()
        invariant
            i <= hunks.len(),
            segments_from(hunks@, 0, 1, 1) == match segments_from(hunks@, i as int, po, pn) {
                Some(rest) => Some(segments@ + rest),
                None => None::<Seq<LineMapSegment>>,
            },
        decreases hunks.len() - i,
    {
        let k = hunks[i];
        let oe = k.old_start.saturating_add(k.old_len);
        let ne = k.new_start.saturating_add(k.new_len);
        if k.old_start < po || k.new_start < pn {
            return Vec::new();
        }
        if k.old_start > po {
            let off = LineOffset { value: (pn as i64) - (po as i64) };
            let old = LineRange::new(po, k.old_start - 1);
            let a = match apply_offset(old.start, off) {
                None => {
                    return Vec::new();
                },
                Some(x) => x,
            };
            let b = match apply_offset(old.end, off) {
                None => {
                    return Vec::new();
                },
                Some(x) => x,
            };
            let seg = LineMapSegment { old, new: LineRange::new(a, b), offset: off };
            proof {
                match segments_from(hunks@, i + 1, oe, ne) {
                    Some(rest) => {
                        assert(segments@.push(seg) + rest =~= segments@ + (seq![seg] + rest));
                    },
                    None => {},
                }
            }
            segments.push(seg);
        }
        po = oe;
        pn = ne;
        i = i + 1;
    }
    proof {
        assert(segments@ + Seq::<LineMapSegment>::empty() =~= segments@);
    }
    segments
}

/// Consecutive hunks from the `i`-th on never reach back into the previous one.
pub open spec fn hunks_ordered_from(h: Seq<HunkDelta>, i: int) -> bool
    decreases h.len() - i,
{
    if i < 0 || i + 1 >= h.len() {
        true
    } else {
        !(h[i + 1].old_start < sat_add(h[i].old_start, h[i].old_len) || h[i + 1].new_start
            < sat_add(h[i].new_start, h[i].new_len)) && hunks_ordered_from(h, i + 1)
    }
}

/// The offset that holds after the last hunk, when the hunks are in order.
pub open spec fn tail_spec(h: Seq<HunkDelta>) -> Option<LineOffset> {
    if h.len() == 0 || !hunks_ordered_from(h, 0) {
        None
    } else {
        let last = h.last();
        Some(
            LineOffset {
                value: (sat_add(last.new_start, last.new_len) - sat_add(
                    last.old_start,
                    last.old_len,
                )) as i64,
            },
        )
    }
}

/// Computes the offset that holds after the last hunk.
pub fn tail_mapping(hunks: &Vec<HunkDelta>) -> (r: Option<LineOffset>)
    ensures
        r == tail_spec(hunks@),
{
    if hunks.len() == 0 {
        return None;
    }
    let mut i: usize = 0;
    while i + 1 < hunks.len()
        invariant
            i < hunks.len(),
            hunks_ordered_from(hunks@, 0) == hunks_ordered_from(hunks@, i as int),
        decreases hunks.len() - i,
    {
        let previous = hunks[i];
        let current = hunks[i + 1];
        if current.old_start < previous.old_start.saturating_add(previous.old_len)
            || current.new_start < previous.new_start.saturating_add(previous.new_len) {
            return None;
        }
        i = i + 1;
    }
    let last = hunks[hunks.len() - 1];
    Some(
        LineOffset {
            value: (last.new_start.saturating_add(last.new_len) as i64) - (
            last.old_start.saturating_add(last.old_len) as i64),
        },
    )
}

// ---------------------------------------------------------------------------
// Mapping old locations
// ---------------------------------------------------------------------------

/// The first file (in key order) whose old path is `p`.
pub open spec fn find_by_old(s: Seq<(Seq<char>, FileDeltaView)>, p: Seq<char>) -> Option<
    FileDeltaView,
>
    decreases s.len(),
{
    if s.len() == 0 {
        None
    } else if s[0].1.old_path == Some(p) {
        Some(s[0].1)
    } else {
        find_by_old(s.drop_first(), p)
    }
}

/// The first file (in key order) created at path `p`.
pub open spec fn find_created(s: Seq<(Seq<char>, FileDeltaView)>, p: Seq<char>) -> Option<
    FileDeltaView,
>
    decreases s.len(),
{
    if s.len() == 0 {
        None
    } else if s[0].1.old_path is None && s[0].1.new_path == Some(p) {
        Some(s[0].1)
    } else {
        find_created(s.drop_first(), p)
    }
}

/// The file an old path belongs to: one that had that old path, else one
/// that was created there.
pub open spec fn file_for(s: Seq<(Seq<char>, FileDeltaView)>, p: Seq<char>) -> Option<
    FileDeltaView,
> {
    match find_by_old(s, p) {
        Some(f) => Some(f),
        None => find_created(s, p),
    }
}

/// `line` lies in the old-side region that some hunk replaced.
pub open spec fn in_changed_region(h: Seq<HunkDelta>, line: u32) -> bool {
    exists|i: int|
        0 <= i < h.len() && (#[trigger] h[i]).old_len > 0 && h[i].old_start <= line < sat_add(
            h[i].old_start,
            h[i].old_len,
        )
}

/// The offset of the first unchanged interval that holds `line`.
pub open spec fn segment_offset(segs: Seq<LineMapSegment>, line: u32) -> Option<LineOffset>
    decreases segs.len(),
{
    if segs.len() == 0 {
        None
    } else if segs[0].old.start <= line <= segs[0].old.end {
        Some(segs[0].offset)
    } else {
        segment_offset(segs.drop_first(), line)
    }
}

/// The offset that carries an old line of a file with hunks: that of its
/// unchanged interval, else that before the first hunk, else the tail offset.
pub open spec fn offset_for(f: FileDeltaView, line: u32) -> Option<LineOffset> {
    match segment_offset(f.segments, line) {
        Some(o) => Some(o),
        None => if line < f.hunks[0].old_start {
            Some(LineOffset { value: (f.hunks[0].new_start - f.hunks[0].old_start) as i64 })
        } else {
            f.tail
        },
    }
}

/// Where an old location ends up according to the change set whose files
/// are `s` (in key order).
pub open spec fn location_spec(s: Seq<(Seq<char>, FileDeltaView)>, p: Seq<char>, line: u32) -> MappingView {
    match file_for(s, p) {
        None => MappingView::MissingFile,
        Some(f) => match f.new_path {
            None => MappingView::FileDeleted(p),
            Some(n) => if f.old_path is None {
                MappingView::FileCreated(n)
            } else if f.hunks.len() == 0 {
                if f.old_path == Some(n) {
                    MappingView::Exact(n, line)
                } else {
                    MappingView::Renamed(p, n, line)
                }
            } else if in_changed_region(f.hunks, line) {
                MappingView::UnmappableChangedRegion(p, line)
            } else {
                match offset_for(f, line) {
                    None => MappingView::UnmappableChangedRegion(p, line),
                    Some(o) => match offset_line(line, o) {
                        None => MappingView::UnmappableChangedRegion(p, line),
                        Some(nl) => {
                            let renamed = f.old_path != Some(n);
                            if o.value == 0 && !renamed {
                                MappingView::Exact(n, nl)
                            } else if !renamed {
                                MappingView::Shifted(n, nl)
                            } else if o.value == 0 {
                                MappingView::Renamed(p, n, nl)
                            } else {
                                MappingView::ShiftedAndRenamed(p, n, nl)
                            }
                        },
                    },
                }
            },
        },
    }
}

fn opt_same(a: &Option<NormPath>, b: &NormPath) -> (r: bool)
    ensures
        r == (opt_text(*a) == Some(b@)),
{
    match a {
        Some(x) => x.same_as(b),
        None => false,
    }
}

fn find_file<'a>(files: &'a [(NormPath, FileDelta)], p: &NormPath) -> (r: Option<&'a FileDelta>)
    ensures
        match r {
            Some(f) => file_for(crate::path_map::entry_views(files@), p@) == Some(f@),
            None => file_for(crate::path_map::entry_views(files@), p@) is None,
        },
{
    let ghost s = crate::path_map::entry_views(files@);
    let mut i: usize = 0;
    assert(s.skip(0) =~= s);
    while i < files.len()
        invariant
            i <= files.len(),
            s == crate::path_map::entry_views(files@),
            find_by_old(s, p@) == find_by_old(s.skip(i as int), p@),
        decreases files.len() - i,
    {
        proof {
            assert(s.skip(i as int).drop_first() =~= s.skip(i + 1));
        }
        if opt_same(&files[i].1.old_path, p) {
            return Some(&files[i].1);
        }
        i = i + 1;
    }
    let mut j: usize = 0;
    proof {
        assert(s.skip(0) =~= s);
    }
    while j < files.len()
        invariant
            j <= files.len(),
            s == crate::path_map::entry_views(files@),
            find_by_old(s, p@) is None,
            find_created(s, p@) == find_created(s.skip(j as int), p@),
        decreases files.len() - j,
    {
        proof {
            assert(s.skip(j as int).drop_first() =~= s.skip(j + 1));
        }
        if files[j].1.old_path.is_none() && opt_same(&files[j].1.new_path, p) {
            return Some(&files[j].1);
        }
        j = j + 1;
    }
    None
}

/// Whether `line` lies in an old-side region that a hunk replaced.
fn hits_changed_region(hunks: &Vec<HunkDelta>, line: u32) -> (r: bool)
    ensures
        r == in_changed_region(hunks@, line),
{
    let mut i: usize = 0;
    while i < hunks.len()
        invariant
            i <= hunks.len(),
            forall|k: int|
                0 <= k < i ==> !((#[trigger] hunks@[k]).old_len > 0 && hunks@[k].old_start <= line
                    < sat_add(hunks@[k].old_start, hunks@[k].old_len)),
        decreases hunks.len() - i,
    {
        let h = hunks[i];
        let old_end = h.old_start.saturating_add(h.old_len);
        if h.old_len > 0 && line >= h.old_start && line < old_end {
            assert(hunks@[i as int] == h);
            return true;
        }
        i = i + 1;
    }
    false
}

/// The offset of the first unchanged interval that holds `line`.
fn find_segment_offset(segs: &Vec<LineMapSegment>, line: u32) -> (r: Option<LineOffset>)
    ensures
        r == segment_offset(segs@, line),
{
    let mut k: usize = 0;
    assert(segs@.skip(0) =~= segs@);
    while k < segs.len()
        invariant
            k <= segs.len(),
            segment_offset(segs@, line) == segment_offset(segs@.skip(k as int), line),
        decreases segs.len() - k,
    {
        proof {
            assert(segs@.skip(k as int).drop_first() =~= segs@.skip(k + 1));
        }
        let seg = segs[k];
        if line >= seg.old.start && line <= seg.old.end {
            return Some(seg.offset);
        }
        k = k + 1;
    }
    None
}

impl SourceChangeSet {
    /// Maps one old repository location using only earned diff correspondence.
    pub fn map_old_location(&self, old_path: &NormPath, old_line: u32) -> (r: LocationMapping)
        ensures
            r@ == location_spec(self.files.seq(), old_path@, old_line),
    {
        let file = match find_file(self.files.entries(), old_path) {
            None => {
                return LocationMapping::MissingFile;
            },
            Some(f) => f,
        };
        let new_path = match &file.new_path {
            None => {
                return LocationMapping::FileDeleted { path: old_path.duplicate() };
            },
            Some(n) => n,
        };
        if file.old_path.is_none() {
            return LocationMapping::FileCreated { path: new_path.duplicate() };
        }
        if file.hunks.len() == 0 {
            if opt_same(&file.old_path, new_path) {
                return LocationMapping::Exact { new_path: new_path.duplicate(), new_line: old_line };
            } else {
                return LocationMapping::Renamed {
                    old_path: old_path.duplicate(),
                    new_path: new_path.duplicate(),
                    new_line: old_line,
                };
            }
        }
        if hits_changed_region(&file.hunks, old_line) {
            return LocationMapping::UnmappableChangedRegion {
                path: old_path.duplicate(),
                line: old_line,
            };
        }
        let found = find_segment_offset(&file.unchanged_segments, old_line);
        let offset = match found {
            Some(o) => Some(o),
            None => {
                let first = file.hunks[0];
                if old_line < first.old_start {
                    Some(LineOffset { value: (first.new_start as i64) - (first.old_start as i64) })
                } else {
                    file.tail_mapping
                }
            },
        };
        let offset = match offset {
            None => {
                return LocationMapping::UnmappableChangedRegion {
                    path: old_path.duplicate(),
                    line: old_line,
                };
            },
            Some(o) => o,
        };
        let new_line = match apply_offset(old_line, offset) {
            None => {
                return LocationMapping::UnmappableChangedRegion {
                    path: old_path.duplicate(),
                    line: old_line,
                };
            },
            Some(l) => l,
        };
        let renamed = !opt_same(&file.old_path, new_path);
        if offset.value == 0 && !renamed {
            LocationMapping::Exact { new_path: new_path.duplicate(), new_line }
        } else if !renamed {
            LocationMapping::Shifted { new_path: new_path.duplicate(), new_line }
        } else if offset.value == 0 {
            LocationMapping::Renamed {
                old_path: old_path.duplicate(),
                new_path: new_path.duplicate(),
                new_line,
            }
        } else {
            LocationMapping::ShiftedAndRenamed {
                old_path: old_path.duplicate(),
                new_path: new_path.duplicate(),
                new_line,
            }
        }
    }
}

// ---------------------------------------------------------------------------
// Parsing
// ---------------------------------------------------------------------------

/// `s` with every leading repetition of `p` removed (`str::trim_start_matches`).
pub open spec fn strip_repeat(s: Seq<char>, p: Seq<char>) -> Seq<char>
    decreases s.len(),
{
    if p.len() > 0 && has_prefix(s, p) {
        strip_repeat(s.subrange(p.len() as int, s.len() as int), p)
    } else {
        s
    }
}

/// The trimmed text after a line's marker (`--- `, `+++ `, `rename from `, ...).
pub open spec fn after_marker(line: Seq<char>, marker: Seq<char>) -> Seq<char> {
    trim(strip_repeat(line, marker))
}

/// The state of the file section being read, as plain values.
pub struct FileStateView {
    pub old_path: Option<Seq<char>>,
    pub new_path: Option<Seq<char>>,
    pub transport: bool,
    pub rename_from: Option<Seq<char>>,
    pub rename_to: Option<Seq<char>>,
    pub in_hunk: bool,
    pub old_line: u32,
    pub new_line: u32,
    pub changed: Set<u32>,
    pub deleted: Set<u32>,
    pub hunks: Seq<HunkDelta>,
    pub added: nat,
}

/// A file section with nothing read yet.
pub open spec fn fresh_state() -> FileStateView {
    FileStateView {
        old_path: None,
        new_path: None,
        transport: false,
        rename_from: None,
        rename_to: None,
        in_hunk: false,
        old_line: 0,
        new_line: 0,
        changed: Set::empty(),
        deleted: Set::empty(),
        hunks: seq![],
        added: 0,
    }
}

/// The state a `diff --git` line opens.
pub open spec fn git_header_state(line: Seq<char>) -> FileStateView {
    match diff_git_paths(line) {
        Some((a, b, t)) => FileStateView {
            transport: t,
            old_path: Some(repo_path_of_diff_path(a, t)),
            new_path: Some(repo_path_of_diff_path(b, t)),
            ..fresh_state()
        },
        None => fresh_state(),
    }
}

/// The state a `--- ` line opens when no file section is open.
pub open spec fn dashes_state(line: Seq<char>) -> FileStateView {
    let p = after_marker(line, "--- "@);
    if p == "/dev/null"@ {
        fresh_state()
    } else {
        let t = has_prefix(p, "a/"@);
        FileStateView { transport: t, old_path: Some(repo_path_of_diff_path(p, t)), ..fresh_state() }
    }
}

/// The effect of one line on the open file section, or the reason the line is invalid.
pub open spec fn line_effect(st: FileStateView, line: Seq<char>) -> Result<FileStateView, Seq<char>> {
    if has_prefix(line, "rename from "@) {
        Ok(
            FileStateView {
                rename_from: Some(repo_form(git_unquote(after_marker(line, "rename from "@)))),
                ..st
            },
        )
    } else if has_prefix(line, "rename to "@) {
        Ok(
            FileStateView {
                rename_to: Some(repo_form(git_unquote(after_marker(line, "rename to "@)))),
                ..st
            },
        )
    } else if has_prefix(line, "--- "@) {
        let p = after_marker(line, "--- "@);
        if p == "/dev/null"@ {
            Ok(FileStateView { old_path: None, ..st })
        } else {
            Ok(FileStateView { old_path: Some(repo_path_of_diff_path(p, st.transport)), ..st })
        }
    } else if has_prefix(line, "+++ "@) {
        let p = after_marker(line, "+++ "@);
        if p == "/dev/null"@ {
            Ok(FileStateView { new_path: None, ..st })
        } else {
            let t = if st.old_path is None && has_prefix(p, "b/"@) {
                true
            } else {
                st.transport
            };
            Ok(FileStateView { transport: t, new_path: Some(repo_path_of_diff_path(p, t)), ..st })
        }
    } else if has_prefix(line, "@@ "@) {
        match hunk_header(line) {
            Err(m) => Err(m),
            Ok((os, ol, ns, nl)) => Ok(
                FileStateView {
                    in_hunk: true,
                    old_line: os,
                    new_line: ns,
                    hunks: st.hunks.push(
                        HunkDelta { old_start: os, old_len: ol, new_start: ns, new_len: nl },
                    ),
                    ..st
                },
            ),
        }
    } else if st.in_hunk {
        if has_prefix(line, "+"@) && !has_prefix(line, "+++ "@) {
            Ok(
                FileStateView {
                    changed: if st.new_line >= 1 {
                        st.changed.insert(st.new_line)
                    } else {
                        st.changed
                    },
                    new_line: sat_add(st.new_line, 1),
                    added: st.added + 1,
                    ..st
                },
            )
        } else if has_prefix(line, "-"@) && !has_prefix(line, "--- "@) {
            Ok(
                FileStateView {
                    deleted: if st.old_line >= 1 {
                        st.deleted.insert(st.old_line)
                    } else {
                        st.deleted
                    },
                    old_line: sat_add(st.old_line, 1),
                    ..st
                },
            )
        } else if has_prefix(line, " "@) {
            Ok(
                FileStateView {
                    old_line: sat_add(st.old_line, 1),
                    new_line: sat_add(st.new_line, 1),
                    ..st
                },
            )
        } else if has_prefix(line, "\\"@) {
            Ok(st)
        } else {
            Ok(FileStateView { in_hunk: false, ..st })
        }
    } else {
        Ok(st)
    }
}

/// The file delta a finished file section yields: rename records take
/// precedence over header paths.
pub open spec fn delta_of(st: FileStateView) -> FileDeltaView {
    FileDeltaView {
        old_path: match st.rename_from {
            Some(p) => Some(p),
            None => st.old_path,
        },
        new_path: match st.rename_to {
            Some(p) => Some(p),
            None => st.new_path,
        },
        hunks: st.hunks,
        added: ranges_of(st.changed),
        deleted: ranges_of(st.deleted),
        segments: segments_spec(st.hunks),
        tail: tail_spec(st.hunks),
    }
}

/// The parse so far, as plain values: the files read (in key order),
/// running totals, and the open file section.
pub struct SourceParseView {
    pub files: Seq<(Seq<char>, FileDeltaView)>,
    pub nfiles: nat,
    pub nhunks: nat,
    pub nadded: nat,
    pub current: Option<FileStateView>,
}

/// Nothing read yet.
pub open spec fn parse_start() -> SourceParseView {
    SourceParseView { files: seq![], nfiles: 0, nhunks: 0, nadded: 0, current: None }
}

/// `files` with a delta stored under its new path, else its old path
/// (a delta with neither is dropped).
pub open spec fn insert_delta(files: Seq<(Seq<char>, FileDeltaView)>, d: FileDeltaView) -> Seq<
    (Seq<char>, FileDeltaView),
> {
    match d.new_path {
        Some(k) => sorted_insert(files, k, d),
        None => match d.old_path {
            Some(k) => sorted_insert(files, k, d),
            None => files,
        },
    }
}

/// Closes the open file section: its delta is stored and the totals grow.
pub open spec fn flush(p: SourceParseView) -> SourceParseView {
    match p.current {
        None => p,
        Some(st) => SourceParseView {
            files: insert_delta(p.files, delta_of(st)),
            nfiles: p.nfiles + 1,
            nhunks: p.nhunks + st.hunks.len(),
            nadded: p.nadded + st.added,
            current: None,
        },
    }
}

/// The effect of one diff line on the parse, or the reason it is invalid.
pub open spec fn parse_step(p: SourceParseView, line: Seq<char>) -> Result<SourceParseView, Seq<char>> {
    if has_prefix(line, "diff --git "@) {
        Ok(SourceParseView { current: Some(git_header_state(line)), ..flush(p) })
    } else {
        let cur = if p.current is None && has_prefix(line, "--- "@) {
            Some(dashes_state(line))
        } else {
            p.current
        };
        match cur {
            None => Ok(p),
            Some(st) => match line_effect(st, line) {
                Err(m) => Err(m),
                Ok(st2) => Ok(SourceParseView { current: Some(st2), ..p }),
            },
        }
    }
}

/// The parse after the given lines, or the (1-based) number of the first
/// invalid line and why it is invalid.
pub open spec fn parse_lines(ls: Seq<Seq<char>>) -> Result<SourceParseView, (nat, Seq<char>)>
    decreases ls.len(),
{
    if ls.len() == 0 {
        Ok(parse_start())
    } else {
        match parse_lines(ls.drop_last()) {
            Err(e) => Err(e),
            Ok(p) => match parse_step(p, ls.last()) {
                Err(m) => Err((ls.len(), m)),
                Ok(q) => Ok(q),
            },
        }
    }
}

/// The whole parse of a diff text, the last file section closed.
pub open spec fn source_parse(input: Seq<char>) -> Result<SourceParseView, (nat, Seq<char>)> {
    match parse_lines(lines(input)) {
        Err(e) => Err(e),
        Ok(p) => Ok(flush(p)),
    }
}

/// The state of the file section being read.
struct FileState {
    old_path: Option<NormPath>,
    new_path: Option<NormPath>,
    transport: bool,
    rename_from: Option<NormPath>,
    rename_to: Option<NormPath>,
    in_hunk: bool,
    old_line: u32,
    new_line: u32,
    changed: Vec<u32>,
    deleted: Vec<u32>,
    hunk_deltas: Vec<HunkDelta>,
    added_lines: u32,
}

/// Ascending without repeats.
pub open spec fn ascending(v: Seq<u32>) -> bool {
    forall|i: int, j: int| 0 <= i < j < v.len() ==> v[i] < v[j]
}

impl FileState {
    spec fn view(&self) -> FileStateView {
        FileStateView {
            old_path: opt_text(self.old_path),
            new_path: opt_text(self.new_path),
            transport: self.transport,
            rename_from: opt_text(self.rename_from),
            rename_to: opt_text(self.rename_to),
            in_hunk: self.in_hunk,
            old_line: self.old_line,
            new_line: self.new_line,
            changed: self.changed@.to_set(),
            deleted: self.deleted@.to_set(),
            hunks: self.hunk_deltas@,
            added: self.added_lines as nat,
        }
    }

    spec fn wf(&self) -> bool {
        ascending(self.changed@) && ascending(self.deleted@)
    }

    fn fresh() -> (r: Self)
        ensures
            r.view() == fresh_state(),
            r.wf(),
    {
        let r = FileState {
            old_path: None,
            new_path: None,
            transport: false,
            rename_from: None,
            rename_to: None,
            in_hunk: false,
            old_line: 0,
            new_line: 0,
            changed: Vec::new(),
            deleted: Vec::new(),
            hunk_deltas: Vec::new(),
            added_lines: 0,
        };
        assert(r.changed@.to_set() =~= Set::<u32>::empty());
        assert(r.deleted@.to_set() =~= Set::<u32>::empty());
        r
    }
}

/// Bounds of `after_marker(v[lo..hi], marker)`.
fn after_marker_at(v: &Vec<char>, lo: usize, hi: usize, marker: &Vec<char>) -> (r: (usize, usize))
    requires
        lo <= hi <= v.len(),
        marker.len() > 0,
    ensures
        lo <= r.0 <= r.1 <= hi,
        v@.subrange(r.0 as int, r.1 as int) == after_marker(v@.subrange(lo as int, hi as int), marker@),
{
    let mut k = lo;
    while starts_with_at(v, k, hi, marker)
        invariant
            lo <= k <= hi <= v.len(),
            marker.len() > 0,
            strip_repeat(v@.subrange(k as int, hi as int), marker@) == strip_repeat(
                v@.subrange(lo as int, hi as int),
                marker@,
            ),
        decreases hi - k,
    {
        proof {
            let t = v@.subrange(k as int, hi as int);
            assert(t.subrange(marker.len() as int, t.len() as int) =~= v@.subrange(
                k + marker.len(),
                hi as int,
            ));
        }
        k = k + marker.len();
    }
    trim_bounds(v, k, hi)
}

/// Whether `v[lo..hi]` equals `/dev/null`.
fn is_dev_null_at(v: &Vec<char>, lo: usize, hi: usize) -> (r: bool)
    requires
        lo <= hi <= v.len(),
    ensures
        r == (v@.subrange(lo as int, hi as int) == "/dev/null"@),
{
    let d = chars_of("/dev/null");
    crate::text::range_eq(v, lo, hi, &d)
}

/// The state a `--- ` line opens when no file section is open.
fn open_from_dashes(line: &str, v: &Vec<char>) -> (r: FileState)
    requires
        v@ == line@,
    ensures
        r.view() == dashes_state(line@),
        r.wf(),
{
    let marker = chars_of("--- ");
    proof {
        reveal_strlit("--- ");
        assert(v@.subrange(0, v.len() as int) =~= v@);
    }
    let (a, b) = after_marker_at(v, 0, v.len(), &marker);
    let mut st = FileState::fresh();
    if is_dev_null_at(v, a, b) {
        return st;
    }
    let pa = chars_of("a/");
    let t = starts_with_at(v, a, b, &pa);
    let p = line.substring_char(a, b);
    st.transport = t;
    st.old_path = Some(repo_path_from_diff_path(p, t));
    st
}

/// The state a `diff --git` line opens.
fn open_from_git_header(line: &str, v: &Vec<char>) -> (r: FileState)
    requires
        v@ == line@,
    ensures
        r.view() == git_header_state(line@),
        r.wf(),
{
    let mut st = FileState::fresh();
    match parse_diff_git_paths(line, v) {
        Some((a, b, t)) => {
            st.transport = t;
            st.old_path = Some(repo_path_from_diff_path(a.as_str(), t));
            st.new_path = Some(repo_path_from_diff_path(b.as_str(), t));
        },
        None => {},
    }
    st
}

/// Whether `v` starts with the given text.
fn starts_with(v: &Vec<char>, p: &str) -> (r: bool)
    ensures
        r == has_prefix(v@, p@),
{
    let pv = chars_of(p);
    assert(v@.subrange(0, v.len() as int) =~= v@);
    starts_with_at(v, 0, v.len(), &pv)
}

/// Applies one line to the open file section.
fn apply_line(st: &mut FileState, line: &str, v: &Vec<char>) -> (r: Result<(), String>)
    requires
        v@ == line@,
        old(st).wf(),
        old(st).added_lines < u32::MAX,
    ensures
        final(st).wf(),
        match line_effect(old(st).view(), line@) {
            Ok(s2) => r is Ok && final(st).view() == s2,
            Err(m) => r matches Err(e) && e@ == m,
        },
{
    proof {
        assert(v@.subrange(0, v.len() as int) =~= v@);
    }
    if starts_with(v, "rename from ") {
        let marker = chars_of("rename from ");
        proof {
            reveal_strlit("rename from ");
        }
        let (a, b) = after_marker_at(v, 0, v.len(), &marker);
        st.rename_from = Some(repo_path_from_repository_path(line.substring_char(a, b)));
        return Ok(());
    }
    if starts_with(v, "rename to ") {
        let marker = chars_of("rename to ");
        proof {
            reveal_strlit("rename to ");
        }
        let (a, b) = after_marker_at(v, 0, v.len(), &marker);
        st.rename_to = Some(repo_path_from_repository_path(line.substring_char(a, b)));
        return Ok(());
    }
    if starts_with(v, "--- ") {
        let marker = chars_of("--- ");
        proof {
            reveal_strlit("--- ");
        }
        let (a, b) = after_marker_at(v, 0, v.len(), &marker);
        if is_dev_null_at(v, a, b) {
            st.old_path = None;
        } else {
            st.old_path = Some(repo_path_from_diff_path(line.substring_char(a, b), st.transport));
        }
        return Ok(());
    }
    if starts_with(v, "+++ ") {
        let marker = chars_of("+++ ");
        proof {
            reveal_strlit("+++ ");
        }
        let (a, b) = after_marker_at(v, 0, v.len(), &marker);
        if is_dev_null_at(v, a, b) {
            st.new_path = None;
        } else {
            let pb = chars_of("b/");
            if st.old_path.is_none() && starts_with_at(v, a, b, &pb) {
                st.transport = true;
            }
            st.new_path = Some(repo_path_from_diff_path(line.substring_char(a, b), st.transport));
        }
        return Ok(());
    }
    if starts_with(v, "@@ ") {
        let (os, ol, ns, nl) = match parse_hunk_header(v) {
            Err(e) => {
                return Err(e);
            },
            Ok(x) => x,
        };
        st.in_hunk = true;
        st.old_line = os;
        st.new_line = ns;
        st.hunk_deltas.push(HunkDelta { old_start: os, old_len: ol, new_start: ns, new_len: nl });
        return Ok(());
    }
    if st.in_hunk {
        if starts_with(v, "+") && !starts_with(v, "+++ ") {
            if st.new_line >= 1 {
                insert_line(&mut st.changed, st.new_line);
            }
            st.new_line = st.new_line.saturating_add(1);
            st.added_lines = st.added_lines + 1;
            return Ok(());
        }
        if starts_with(v, "-") && !starts_with(v, "--- ") {
            if st.old_line >= 1 {
                insert_line(&mut st.deleted, st.old_line);
            }
            st.old_line = st.old_line.saturating_add(1);
            return Ok(());
        }
        if starts_with(v, " ") {
            st.old_line = st.old_line.saturating_add(1);
            st.new_line = st.new_line.saturating_add(1);
            return Ok(());
        }
        if starts_with(v, "\\") {
            return Ok(());
        }
        st.in_hunk = false;
    }
    Ok(())
}

/// The file delta a finished file section yields.
fn delta_from(st: FileState) -> (r: FileDelta)
    requires
        st.wf(),
    ensures
        r@ == delta_of(st.view()),
{
    let added = merge_lines_to_ranges(st.changed);
    let deleted = merge_lines_to_ranges(st.deleted);
    let unchanged = unchanged_segments(&st.hunk_deltas);
    let tail = tail_mapping(&st.hunk_deltas);
    let old_path = match st.rename_from {
        Some(p) => Some(p),
        None => st.old_path,
    };
    let new_path = match st.rename_to {
        Some(p) => Some(p),
        None => st.new_path,
    };
    FileDelta {
        old_path,
        new_path,
        hunks: st.hunk_deltas,
        added,
        deleted,
        unchanged_segments: unchanged,
        tail_mapping: tail,
    }
}

/// Stores a delta under its new path, else its old path.
fn store_delta(files: &mut PathMap<FileDelta>, d: FileDelta)
    ensures
        final(files).seq() == insert_delta(old(files).seq(), d@),
{
    let key = match &d.new_path {
        Some(k) => Some(k.duplicate()),
        None => match &d.old_path {
            Some(k) => Some(k.duplicate()),
            None => None,
        },
    };
    match key {
        Some(k) => files.insert(k, d),
        None => {},
    }
}

/// The open file section as plain values.
spec fn current_view(c: Option<FileState>) -> Option<FileStateView> {
    match c {
        Some(st) => Some(st.view()),
        None => None,
    }
}

/// How much the open file section will add to the totals when it closes.
spec fn weight(c: Option<FileState>) -> int {
    match c {
        Some(st) => 1 + st.hunk_deltas.len() + st.added_lines,
        None => 0,
    }
}

proof fn lemma_parse_lines_err(ls: Seq<Seq<char>>, k: int)
    requires
        0 <= k <= ls.len(),
        parse_lines(ls.take(k)) is Err,
    ensures
        parse_lines(ls) == parse_lines(ls.take(k)),
    decreases ls.len(),
{
    if ls.len() == k {
        assert(ls.take(k) =~= ls);
    } else {
        assert(ls.drop_last().take(k) =~= ls.take(k));
        lemma_parse_lines_err(ls.drop_last(), k);
    }
}

/// Parses a unified diff into the source-correspondence model.
///
/// The parser is forgiving about metadata: lines before the first file
/// header are ignored, and a file section starts at a `diff --git` line or
/// at a `--- ` line outside any section. The only error is a hunk header
/// that cannot be read.
pub fn parse_source_change_set(input: &str) -> (r: Result<SourceChangeSet, DiffParseError>)
    requires
        lines(input@).len() <= u32::MAX,
    ensures
        match source_parse(input@) {
            Ok(p) => r matches Ok(s) && s.files.seq() == p.files && s.stats.files == p.nfiles
                && s.stats.hunks == p.nhunks && s.stats.added_lines == p.nadded,
            Err((ln, m)) => r matches Err(DiffParseError::Invalid { line, msg }) && line == ln
                && msg@ == m,
        },
{
    let v = chars_of(input);
    let bounds = line_bounds(&v);
    let mut files: PathMap<FileDelta> = PathMap::new();
    let mut nfiles: u32 = 0;
    let mut nhunks: u32 = 0;
    let mut nadded: u32 = 0;
    let mut current: Option<FileState> = None;
    let ghost ls = lines(v@);
    let mut i: usize = 0;
    proof {
        assert(ls.take(0) =~= Seq::<Seq<char>>::empty());
    }
    while i < bounds.len()
        invariant
            bounds_of_lines(bounds@, v@),
            ls == lines(v@),
            v@ == input@,
            ls.len() <= u32::MAX,
            i <= bounds.len() == ls.len(),
            parse_lines(ls.take(i as int)) == Ok::<SourceParseView, (nat, Seq<char>)>(
                SourceParseView {
                    files: files.seq(),
                    nfiles: nfiles as nat,
                    nhunks: nhunks as nat,
                    nadded: nadded as nat,
                    current: current_view(current),
                },
            ),
            current matches Some(st) ==> st.wf(),
            nfiles + nhunks + nadded + weight(current) <= i,
        decreases bounds.len() - i,
    {
        let (lo, hi) = bounds[i];
        let line_s = string_of_range(&v, lo, hi);
        let line = line_s.as_str();
        let lv = chars_of(line);
        let ghost p = SourceParseView {
            files: files.seq(),
            nfiles: nfiles as nat,
            nhunks: nhunks as nat,
            nadded: nadded as nat,
            current: current_view(current),
        };
        proof {
            assert(ls.take(i + 1).drop_last() =~= ls.take(i as int));
            assert(ls.take(i + 1).last() == ls[i as int]);
            assert(ls[i as int] == line@);
        }
        if starts_with(&lv, "diff --git ") {
            match current {
                Some(st) => {
                    let h = st.hunk_deltas.len() as u32;
                    let a = st.added_lines;
                    let d = delta_from(st);
                    store_delta(&mut files, d);
                    nfiles = nfiles + 1;
                    nhunks = nhunks + h;
                    nadded = nadded + a;
                },
                None => {},
            }
            current = Some(open_from_git_header(line, &lv));
        } else {
            if current.is_none() && starts_with(&lv, "--- ") {
                current = Some(open_from_dashes(line, &lv));
            }
            match current {
                None => {},
                Some(mut st) => {
                    match apply_line(&mut st, line, &lv) {
                        Err(e) => {
                            proof {
                                lemma_parse_lines_err(ls, i + 1);
                            }
                            return Err(DiffParseError::Invalid { line: i + 1, msg: e });
                        },
                        Ok(()) => {},
                    }
                    current = Some(st);
                },
            }
        }
        i = i + 1;
    }
    proof {
        assert(ls.take(ls.len() as int) =~= ls);
    }
    match current {
        Some(st) => {
            let h = st.hunk_deltas.len() as u32;
            let a = st.added_lines;
            let d = delta_from(st);
            store_delta(&mut files, d);
            nfiles = nfiles + 1;
            nhunks = nhunks + h;
            nadded = nadded + a;
        },
        None => {},
    }
    Ok(
        SourceChangeSet {
            files,
            stats: DiffStats { files: nfiles, hunks: nhunks, added_lines: nadded },
        },
    )
}

/// The changed ranges (per new path) and renames (old path to new path)
/// that a sequence of file deltas records, in order.
pub open spec fn diff_map_of(files: Seq<(Seq<char>, FileDeltaView)>) -> (
    Seq<(Seq<char>, Seq<LineRange>)>,
    Seq<(Seq<char>, Seq<char>)>,
)
    decreases files.len(),
{
    if files.len() == 0 {
        (seq![], seq![])
    } else {
        let (c, r) = diff_map_of(files.drop_last());
        let f = files.last().1;
        let r2 = match (f.old_path, f.new_path) {
            (Some(o), Some(n)) => if o != n {
                sorted_insert(r, o, n)
            } else {
                r
            },
            _ => r,
        };
        let c2 = match f.new_path {
            Some(n) => if f.added.len() > 0 {
                sorted_insert(c, n, f.added)
            } else {
                c
            },
            None => c,
        };
        (c2, r2)
    }
}

fn copy_ranges(v: &Vec<LineRange>) -> (r: Vec<LineRange>)
    ensures
        r@ == v@,
{
    let mut r: Vec<LineRange> = Vec::new();
    let mut i: usize = 0;
    while i < v.len()
        invariant
            i <= v.len(),
            r@ == v@.take(i as int),
        decreases v.len() - i,
    {
        r.push(v[i]);
        i = i + 1;
        assert(r@ =~= v@.take(i as int));
    }
    assert(v@.take(v.len() as int) =~= v@);
    r
}

/// Parses a unified diff into changed new-side ranges per file and rename
/// records (old path to new path), with the diff's statistics.
pub fn parse_unified_diff(input: &str) -> (r: Result<DiffMap, DiffParseError>)
    requires
        lines(input@).len() <= u32::MAX,
    ensures
        match source_parse(input@) {
            Ok(p) => r matches Ok(m) && m.changed.seq() == diff_map_of(p.files).0
                && m.renames.seq() == diff_map_of(p.files).1 && m.stats.files == p.nfiles
                && m.stats.hunks == p.nhunks && m.stats.added_lines == p.nadded,
            Err((ln, msg)) => r matches Err(DiffParseError::Invalid { line, msg: m }) && line == ln
                && m@ == msg,
        },
{
    let source = match parse_source_change_set(input) {
        Err(e) => {
            return Err(e);
        },
        Ok(s) => s,
    };
    let mut out = DiffMap::default();
    out.stats = source.stats;
    let entries = source.files.entries();
    let ghost fs = crate::path_map::entry_views(entries@);
    let mut i: usize = 0;
    proof {
        assert(fs.take(0) =~= Seq::<(Seq<char>, FileDeltaView)>::empty());
    }
    while i < entries.len()
        invariant
            i <= entries.len(),
            fs == crate::path_map::entry_views(entries@),
            diff_map_of(fs.take(i as int)) == (out.changed.seq(), out.renames.seq()),
            out.stats == source.stats,
        decreases entries.len() - i,
    {
        let file = &entries[i].1;
        proof {
            assert(fs.take(i + 1).drop_last() =~= fs.take(i as int));
            assert(fs.take(i + 1).last().1 == file@);
        }
        match (&file.old_path, &file.new_path) {
            (Some(old), Some(new)) => {
                if !old.same_as(new) {
                    out.renames.insert(old.duplicate(), new.duplicate());
                }
            },
            _ => {},
        }
        match &file.new_path {
            Some(new) => {
                if file.added.len() > 0 {
                    out.changed.insert(new.duplicate(), copy_ranges(&file.added));
                }
            },
            None => {},
        }
        i = i + 1;
    }
    proof {
        assert(fs.take(entries.len() as int) =~= fs);
    }
    Ok(out)
}


/// A file whose old and new paths are the same is no rename: every rename of
/// the diff map moves a file to a different path.
pub proof fn law_renames_move_paths(files: Seq<(Seq<char>, FileDeltaView)>)
    ensures
        crate::path_map::pairs_differ(diff_map_of(files).1),
    decreases files.len(),
{
    if files.len() > 0 {
        law_renames_move_paths(files.drop_last());
        let r = diff_map_of(files.drop_last()).1;
        let f = files.last().1;
        match (f.old_path, f.new_path) {
            (Some(o), Some(n)) => if o != n {
                crate::path_map::lemma_sorted_insert_differ(r, o, n);
            },
            _ => {},
        }
    }
}

/// A stored file delta is keyed by its new path, or by its old path where it
/// has none, its added and deleted lines are maximal runs (non-empty,
/// ascending and separated by at least one line), and its unchanged
/// segments and tail offset are those of its hunks.
pub open spec fn delta_entry_ok(e: (Seq<char>, FileDeltaView)) -> bool {
    &&& match e.1.new_path {
        Some(n) => e.0 == n,
        None => e.1.old_path == Some(e.0),
    }
    &&& canonical(e.1.added)
    &&& canonical(e.1.deleted)
    &&& e.1.segments == segments_spec(e.1.hunks)
    &&& e.1.tail == tail_spec(e.1.hunks)
}

/// Every stored delta is keyed and ranged as [`delta_entry_ok`] says.
pub open spec fn deltas_ok(fs: Seq<(Seq<char>, FileDeltaView)>) -> bool {
    forall|i: int| 0 <= i < fs.len() ==> delta_entry_ok(#[trigger] fs[i])
}

/// The parse so far stores well-keyed deltas, and the open section holds
/// finitely many changed and deleted lines.
spec fn parse_state_ok(p: SourceParseView) -> bool {
    &&& deltas_ok(p.files)
    &&& match p.current {
        Some(st) => st.changed.finite() && st.deleted.finite(),
        None => true,
    }
}

proof fn lemma_runs_canonical(s: Set<u32>)
    requires
        s.finite(),
    ensures
        canonical(ranges_of(s)),
{
    s.lemma_to_seq_to_set_id();
    lemma_ranges_exist(s, s.to_seq());
}

proof fn lemma_flush_ok(p: SourceParseView)
    requires
        parse_state_ok(p),
    ensures
        parse_state_ok(flush(p)),
        flush(p).current is None,
{
    match p.current {
        None => {},
        Some(st) => {
            let d = delta_of(st);
            lemma_runs_canonical(st.changed);
            lemma_runs_canonical(st.deleted);
            let k = match d.new_path {
                Some(n) => n,
                None => d.old_path->0,
            };
            if d.new_path is Some || d.old_path is Some {
                assert(delta_entry_ok((k, d)));
                crate::path_map::lemma_sorted_insert_entries(p.files, k, d);
                let q = sorted_insert(p.files, k, d);
                assert forall|i: int| 0 <= i < q.len() implies delta_entry_ok(#[trigger] q[i]) by {
                    if q[i] != (k, d) {
                        let m = choose|m: int| 0 <= m < p.files.len() && p.files[m] == q[i];
                        assert(delta_entry_ok(p.files[m]));
                    }
                }
            }
        },
    }
}

proof fn lemma_step_ok(p: SourceParseView, line: Seq<char>)
    requires
        parse_state_ok(p),
    ensures
        parse_step(p, line) matches Ok(q) ==> parse_state_ok(q),
{
    lemma_flush_ok(p);
    assert(fresh_state().changed.finite() && fresh_state().deleted.finite());
    assert(git_header_state(line).changed.finite() && git_header_state(line).deleted.finite());
    assert(dashes_state(line).changed.finite() && dashes_state(line).deleted.finite());
}

proof fn lemma_parse_lines_ok(ls: Seq<Seq<char>>)
    ensures
        parse_lines(ls) matches Ok(p) ==> parse_state_ok(p),
    decreases ls.len(),
{
    if ls.len() > 0 {
        lemma_parse_lines_ok(ls.drop_last());
        match parse_lines(ls.drop_last()) {
            Ok(p) => lemma_step_ok(p, ls.last()),
            Err(_) => {},
        }
    }
}

/// Every file delta a parse stores is keyed by its new path, or by its old
/// path where the file has no new one, and its added and deleted lines are
/// ascending, non-overlapping maximal runs.
pub proof fn law_parsed_deltas_keyed_and_ordered(input: Seq<char>)
    ensures
        source_parse(input) matches Ok(p) ==> deltas_ok(p.files),
{
    lemma_parse_lines_ok(lines(input));
    match parse_lines(lines(input)) {
        Ok(p) => lemma_flush_ok(p),
        Err(_) => {},
    }
}

/// The old and new line just after hunk `j - 1` (line 1 on both sides before
/// the first hunk).
pub open spec fn ends_before(h: Seq<HunkDelta>, j: int) -> (u32, u32) {
    if j <= 0 {
        (1, 1)
    } else {
        (
            sat_add(h[j - 1].old_start, h[j - 1].old_len),
            sat_add(h[j - 1].new_start, h[j - 1].new_len),
        )
    }
}

/// `seg` is the unchanged stretch just before hunk `j`: it runs on the old
/// side from the line after the previous hunk up to the line before hunk
/// `j`, and is moved by the previous hunk's new end minus its old end.
pub open spec fn gap_before(seg: LineMapSegment, h: Seq<HunkDelta>, j: int) -> bool {
    &&& seg.old.start == ends_before(h, j).0
    &&& seg.old.end + 1 == h[j].old_start
    &&& seg.offset.value == ends_before(h, j).1 - ends_before(h, j).0
    &&& seg.new.start == ends_before(h, j).1
    &&& 1 <= seg.new.start
    &&& seg.new.end == seg.old.end + (ends_before(h, j).1 - ends_before(h, j).0)
}

/// `seg` is the unchanged stretch just before some hunk of `h`.
pub open spec fn gap_of(seg: LineMapSegment, h: Seq<HunkDelta>) -> bool {
    exists|j: int| 0 <= j < h.len() && #[trigger] gap_before(seg, h, j)
}

proof fn lemma_segments_from_gaps(h: Seq<HunkDelta>, i: int, po: u32, pn: u32, r: Seq<LineMapSegment>)
    requires
        0 <= i <= h.len(),
        (po, pn) == ends_before(h, i),
        segments_from(h, i, po, pn) == Some(r),
    ensures
        forall|m: int| 0 <= m < r.len() ==> gap_of(#[trigger] r[m], h),
    decreases h.len() - i,
{
    if i < h.len() {
        let k = h[i];
        let oe = sat_add(k.old_start, k.old_len);
        let ne = sat_add(k.new_start, k.new_len);
        assert(ends_before(h, i + 1) == (oe, ne));
        let rest = segments_from(h, i + 1, oe, ne)->0;
        assert(segments_from(h, i + 1, oe, ne) == Some(rest));
        lemma_segments_from_gaps(h, i + 1, oe, ne, rest);
        if k.old_start > po {
            assert(gap_before(r[0], h, i));
            assert forall|m: int| 0 <= m < r.len() implies gap_of(#[trigger] r[m], h) by {
                if m == 0 {
                    assert(gap_before(r[0], h, i));
                } else {
                    assert(r[m] == rest[m - 1]);
                    assert(gap_of(rest[m - 1], h));
                }
            }
        } else {
            assert(r == rest);
        }
    }
}

/// Every unchanged segment lies just before some hunk: it starts right after
/// the previous hunk (or at line 1), ends right before that hunk, and moves
/// old lines by the previous hunk's new end minus its old end, so an old
/// line after hunks that added `k` more lines than they removed lands `k`
/// lines further on.
pub proof fn law_segments_are_gaps_between_hunks(h: Seq<HunkDelta>)
    ensures
        forall|m: int| 0 <= m < segments_spec(h).len() ==> gap_of(#[trigger] segments_spec(h)[m], h),
{
    if h.len() > 0 {
        if let Some(r) = segments_from(h, 0, 1, 1) {
            lemma_segments_from_gaps(h, 0, 1, 1, r);
            assert(segments_spec(h) == r);
        }
    }
}

/// The new line a mapping carries, if it carries one.
pub open spec fn mapped_line(v: MappingView) -> Option<u32> {
    match v {
        MappingView::Exact(_, l) => Some(l),
        MappingView::Shifted(_, l) => Some(l),
        MappingView::Renamed(_, _, l) => Some(l),
        MappingView::ShiftedAndRenamed(_, _, l) => Some(l),
        _ => None,
    }
}

proof fn lemma_segment_offset_found(segs: Seq<LineMapSegment>, line: u32)
    ensures
        segment_offset(segs, line) matches Some(o) ==> exists|m: int|
            0 <= m < segs.len() && #[trigger] segs[m].old.start <= line <= segs[m].old.end
                && segs[m].offset == o,
    decreases segs.len(),
{
    if segs.len() > 0 && !(segs[0].old.start <= line <= segs[0].old.end) {
        lemma_segment_offset_found(segs.drop_first(), line);
        if let Some(o) = segment_offset(segs, line) {
            let m = choose|m: int|
                0 <= m < segs.drop_first().len() && #[trigger] segs.drop_first()[m].old.start <= line
                    <= segs.drop_first()[m].old.end && segs.drop_first()[m].offset == o;
            assert(segs[m + 1] == segs.drop_first()[m]);
        }
    }
}

/// An old line in an unchanged stretch between hunks keeps its content and
/// moves by what the hunks before it added: where the file's segments are
/// those of its hunks and the line lies in one of them, the mapping carries
/// the line plus the new end minus the old end of the hunk just before the
/// stretch (nothing before the first hunk).
pub proof fn law_unchanged_line_moves_with_previous_hunks(
    s: Seq<(Seq<char>, FileDeltaView)>,
    p: Seq<char>,
    line: u32,
)
    requires
        file_for(s, p) matches Some(f) && f.new_path is Some && f.old_path is Some
            && f.hunks.len() > 0 && f.segments == segments_spec(f.hunks)
            && !in_changed_region(f.hunks, line) && exists|m: int|
            0 <= m < f.segments.len() && #[trigger] f.segments[m].old.start <= line
                <= f.segments[m].old.end,
    ensures
        exists|j: int|
            0 <= j < file_for(s, p)->0.hunks.len() && ends_before(file_for(s, p)->0.hunks, j).0 <= line
                < file_for(s, p)->0.hunks[j].old_start && #[trigger] mapped_line(
                location_spec(s, p, line),
            ) == Some((line + ends_before(file_for(s, p)->0.hunks, j).1 - ends_before(
                file_for(s, p)->0.hunks,
                j,
            ).0) as u32),
{
    let f = file_for(s, p)->0;
    let h = f.hunks;
    law_segments_are_gaps_between_hunks(h);
    lemma_segment_offset_found(f.segments, line);
    let m0 = choose|m: int| 0 <= m < f.segments.len() && #[trigger] f.segments[m].old.start <= line
        <= f.segments[m].old.end;
    assert(segment_offset(f.segments, line) is Some) by {
        lemma_segment_offset_some(f.segments, line, m0);
    }
    let o = segment_offset(f.segments, line)->0;
    let m = choose|m: int|
        0 <= m < f.segments.len() && #[trigger] f.segments[m].old.start <= line <= f.segments[m].old.end
            && f.segments[m].offset == o;
    let seg = f.segments[m];
    assert(gap_of(seg, h));
    let j = choose|j: int| 0 <= j < h.len() && #[trigger] gap_before(seg, h, j);
    assert(offset_for(f, line) == Some(o));
    assert(offset_line(line, o) == Some((line + o.value) as u32));
    assert(mapped_line(location_spec(s, p, line)) == Some((line + o.value) as u32));
}

proof fn lemma_segment_offset_some(segs: Seq<LineMapSegment>, line: u32, m: int)
    requires
        0 <= m < segs.len(),
        segs[m].old.start <= line <= segs[m].old.end,
    ensures
        segment_offset(segs, line) is Some,
    decreases segs.len(),
{
    if !(segs[0].old.start <= line <= segs[0].old.end) {
        assert(segs.drop_first()[m - 1] == segs[m]);
        lemma_segment_offset_some(segs.drop_first(), line, m - 1);
    }
}

proof fn lemma_ordered_starts_before_last_end(h: Seq<HunkDelta>, i: int, j: int)
    requires
        0 <= i <= j < h.len(),
        hunks_ordered_from(h, i),
    ensures
        h[j].old_start <= sat_add(h.last().old_start, h.last().old_len),
    decreases h.len() - i,
{
    if i + 1 < h.len() {
        if j == i {
            lemma_ordered_starts_before_last_end(h, i + 1, i + 1);
        } else {
            lemma_ordered_starts_before_last_end(h, i + 1, j);
        }
    }
}

/// An old line after the last hunk moves by the last hunk's new end minus
/// its old end: where the file's segments and tail are those of its hunks,
/// the hunks are in order and the moved line is a valid line, the mapping
/// carries exactly that line.
pub proof fn law_line_after_last_hunk_moves_by_tail(
    s: Seq<(Seq<char>, FileDeltaView)>,
    p: Seq<char>,
    line: u32,
)
    requires
        file_for(s, p) matches Some(f) && f.new_path is Some && f.old_path is Some
            && f.hunks.len() > 0 && f.segments == segments_spec(f.hunks) && f.tail == tail_spec(
            f.hunks,
        ) && hunks_ordered_from(f.hunks, 0) && line >= sat_add(
            f.hunks.last().old_start,
            f.hunks.last().old_len,
        ) && 0 < line + sat_add(f.hunks.last().new_start, f.hunks.last().new_len) - sat_add(
            f.hunks.last().old_start,
            f.hunks.last().old_len,
        ) <= u32::MAX,
    ensures
        mapped_line(location_spec(s, p, line)) == Some(
            (line + sat_add(file_for(s, p)->0.hunks.last().new_start, file_for(s, p)->0.hunks.last().new_len)
                - sat_add(file_for(s, p)->0.hunks.last().old_start, file_for(s, p)->0.hunks.last().old_len)) as u32,
        ),
{
    let f = file_for(s, p)->0;
    let h = f.hunks;
    let le = sat_add(h.last().old_start, h.last().old_len);
    assert(!in_changed_region(h, line)) by {
        if in_changed_region(h, line) {
            let i = choose|i: int|
                0 <= i < h.len() && (#[trigger] h[i]).old_len > 0 && h[i].old_start <= line < sat_add(
                    h[i].old_start,
                    h[i].old_len,
                );
            if i + 1 < h.len() {
                lemma_ordered_from_next(h, 0, i);
                lemma_ordered_starts_before_last_end(h, 0, i + 1);
            }
        }
    }
    law_segments_are_gaps_between_hunks(h);
    lemma_segment_offset_found(f.segments, line);
    if let Some(o) = segment_offset(f.segments, line) {
        let m = choose|m: int|
            0 <= m < f.segments.len() && #[trigger] f.segments[m].old.start <= line
                <= f.segments[m].old.end && f.segments[m].offset == o;
        assert(gap_of(f.segments[m], h));
        let j = choose|j: int| 0 <= j < h.len() && #[trigger] gap_before(f.segments[m], h, j);
        lemma_ordered_starts_before_last_end(h, 0, j);
        assert(false);
    }
    lemma_ordered_starts_before_last_end(h, 0, 0);
    assert(offset_for(f, line) == tail_spec(h));
}

/// Ordered hunks from `i` on: hunk `k + 1` starts no earlier than hunk `k`
/// ends, for every `k` from `i` on.
proof fn lemma_ordered_from_next(h: Seq<HunkDelta>, i: int, k: int)
    requires
        0 <= i <= k,
        k + 1 < h.len(),
        hunks_ordered_from(h, i),
    ensures
        h[k + 1].old_start >= sat_add(h[k].old_start, h[k].old_len),
    decreases k - i,
{
    if i < k {
        lemma_ordered_from_next(h, i + 1, k);
    }
}

} // verus!
