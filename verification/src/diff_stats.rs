//! Diff statistics: files changed, lines added and removed, and file
//! operations (add, delete, rename), with their text renderings.
use vstd::prelude::*;
use std::ops::{Add, AddAssign};
use crate::text::{push_decimal, push_str, decimal, to_string};

verus! {

/// Type of file change in a diff.
#[derive(Clone, Copy, Debug, PartialEq, Eq, Hash, Structural)]
pub enum ChangeType {
    /// New file created.
    Added,
    /// File deleted.
    Deleted,
    /// File modified.
    Modified,
    /// File renamed.
    Renamed,
}

impl Default for ChangeType {
    fn default() -> (r: Self)
        ensures
            r == ChangeType::Modified,
    {
        ChangeType::Modified
    }
}

impl ChangeType {
    /// The lowercase name: `added`, `deleted`, `modified` or `renamed`.
    pub open spec fn name(self) -> Seq<char> {
        match self {
            ChangeType::Added => "added"@,
            ChangeType::Deleted => "deleted"@,
            ChangeType::Modified => "modified"@,
            ChangeType::Renamed => "renamed"@,
        }
    }

    /// Get the lowercase name of this change type.
    pub fn to_string(&self) -> (s: String)
        ensures
            s@ == self.name(),
    {
        match self {
            ChangeType::Added => to_string("added"),
            ChangeType::Deleted => to_string("deleted"),
            ChangeType::Modified => to_string("modified"),
            ChangeType::Renamed => to_string("renamed"),
        }
    }

    /// Get a short symbol for this change type.
    pub fn symbol(&self) -> (s: &'static str)
        ensures
            s@ == match *self {
                ChangeType::Added => "A"@,
                ChangeType::Deleted => "D"@,
                ChangeType::Modified => "M"@,
                ChangeType::Renamed => "R"@,
            },
    {
        match self {
            ChangeType::Added => "A",
            ChangeType::Deleted => "D",
            ChangeType::Modified => "M",
            ChangeType::Renamed => "R",
        }
    }

    /// Check if this change type represents a file addition.
    pub fn is_addition(&self) -> (r: bool)
        ensures
            r == (*self == ChangeType::Added),
    {
        matches!(self, ChangeType::Added)
    }

    /// Check if this change type represents a file deletion.
    pub fn is_deletion(&self) -> (r: bool)
        ensures
            r == (*self == ChangeType::Deleted),
    {
        matches!(self, ChangeType::Deleted)
    }

    /// Check if this change type represents a modification.
    pub fn is_modification(&self) -> (r: bool)
        ensures
            r == (*self == ChangeType::Modified),
    {
        matches!(self, ChangeType::Modified)
    }

    /// Check if this change type represents a rename.
    pub fn is_rename(&self) -> (r: bool)
        ensures
            r == (*self == ChangeType::Renamed),
    {
        matches!(self, ChangeType::Renamed)
    }
}

/// `a - b` computed on the `isize` values of `a` and `b`, as `a as isize - b as isize`.
pub open spec fn signed_diff(a: usize, b: usize) -> int {
    (a as isize) - (b as isize)
}

/// Per-file diff statistics.
#[derive(Clone, Debug, PartialEq, Eq, Hash)]
pub struct FileDiffStats {
    /// File path.
    pub path: String,
    /// Lines added in this file.
    pub lines_added: usize,
    /// Lines removed in this file.
    pub lines_removed: usize,
    /// Type of change.
    pub change_type: ChangeType,
}

impl FileDiffStats {
    /// Create new file diff stats.
    pub fn new(path: &str, lines_added: usize, lines_removed: usize, change_type: ChangeType) -> (r:
        Self)
        ensures
            r.path@ == path@,
            r.lines_added == lines_added,
            r.lines_removed == lines_removed,
            r.change_type == change_type,
    {
        FileDiffStats { path: to_string(path), lines_added, lines_removed, change_type }
    }

    /// Create stats for an added file.
    pub fn added(path: &str, lines_added: usize) -> (r: Self)
        ensures
            r.path@ == path@,
            r.lines_added == lines_added,
            r.lines_removed == 0,
            r.change_type == ChangeType::Added,
    {
        Self::new(path, lines_added, 0, ChangeType::Added)
    }

    /// Create stats for a deleted file.
    pub fn deleted(path: &str, lines_removed: usize) -> (r: Self)
        ensures
            r.path@ == path@,
            r.lines_added == 0,
            r.lines_removed == lines_removed,
            r.change_type == ChangeType::Deleted,
    {
        Self::new(path, 0, lines_removed, ChangeType::Deleted)
    }

    /// Create stats for a modified file.
    pub fn modified(path: &str, lines_added: usize, lines_removed: usize) -> (r: Self)
        ensures
            r.path@ == path@,
            r.lines_added == lines_added,
            r.lines_removed == lines_removed,
            r.change_type == ChangeType::Modified,
    {
        Self::new(path, lines_added, lines_removed, ChangeType::Modified)
    }

    /// Create stats for a renamed file.
    pub fn renamed(path: &str) -> (r: Self)
        ensures
            r.path@ == path@,
            r.lines_added == 0,
            r.lines_removed == 0,
            r.change_type == ChangeType::Renamed,
    {
        Self::new(path, 0, 0, ChangeType::Renamed)
    }

    /// Get the net line change for this file.
    pub fn net_lines(&self) -> (r: isize)
        requires
            isize::MIN <= signed_diff(self.lines_added, self.lines_removed) <= isize::MAX,
        ensures
            r == signed_diff(self.lines_added, self.lines_removed),
    {
        #[verifier::truncate]
        let a = self.lines_added as isize;
        #[verifier::truncate]
        let b = self.lines_removed as isize;
        a - b
    }

    /// Check if this file has any line changes.
    pub fn has_changes(&self) -> (r: bool)
        ensures
            r == (self.lines_added > 0 || self.lines_removed > 0),
    {
        self.lines_added > 0 || self.lines_removed > 0
    }

    /// Get the total lines changed (added + removed).
    pub fn total_lines_changed(&self) -> (r: usize)
        requires
            self.lines_added + self.lines_removed <= usize::MAX,
        ensures
            r == self.lines_added + self.lines_removed,
    {
        self.lines_added + self.lines_removed
    }
}

impl Default for FileDiffStats {
    fn default() -> (r: Self)
        ensures
            r.path@ == Seq::<char>::empty(),
            r.lines_added == 0,
            r.lines_removed == 0,
            r.change_type == ChangeType::Modified,
    {
        FileDiffStats {
            path: String::new(),
            lines_added: 0,
            lines_removed: 0,
            change_type: ChangeType::Modified,
        }
    }
}

/// Overall diff statistics.
#[derive(Clone, Copy, Debug, PartialEq, Eq, Structural)]
pub struct DiffStats {
    /// Number of files changed.
    pub files_changed: usize,
    /// Total lines added.
    pub lines_added: usize,
    /// Total lines removed.
    pub lines_removed: usize,
    /// New files created.
    pub files_added: usize,
    /// Files deleted.
    pub files_deleted: usize,
    /// Files renamed.
    pub files_renamed: usize,
}

/// All-zero statistics.
pub open spec fn zero_stats() -> DiffStats {
    DiffStats {
        files_changed: 0,
        lines_added: 0,
        lines_removed: 0,
        files_added: 0,
        files_deleted: 0,
        files_renamed: 0,
    }
}

/// Field-wise sum of two statistics.
pub open spec fn stats_plus(a: DiffStats, b: DiffStats) -> DiffStats {
    DiffStats {
        files_changed: (a.files_changed + b.files_changed) as usize,
        lines_added: (a.lines_added + b.lines_added) as usize,
        lines_removed: (a.lines_removed + b.lines_removed) as usize,
        files_added: (a.files_added + b.files_added) as usize,
        files_deleted: (a.files_deleted + b.files_deleted) as usize,
        files_renamed: (a.files_renamed + b.files_renamed) as usize,
    }
}

/// The field-wise sum of two statistics fits in `usize`.
pub open spec fn stats_plus_fits(a: DiffStats, b: DiffStats) -> bool {
    &&& a.files_changed + b.files_changed <= usize::MAX
    &&& a.lines_added + b.lines_added <= usize::MAX
    &&& a.lines_removed + b.lines_removed <= usize::MAX
    &&& a.files_added + b.files_added <= usize::MAX
    &&& a.files_deleted + b.files_deleted <= usize::MAX
    &&& a.files_renamed + b.files_renamed <= usize::MAX
}

/// The contribution of one file to the statistics.
pub open spec fn file_contribution(f: FileDiffStats) -> DiffStats {
    DiffStats {
        files_changed: 1,
        lines_added: f.lines_added,
        lines_removed: f.lines_removed,
        files_added: if f.change_type == ChangeType::Added { 1 } else { 0 },
        files_deleted: if f.change_type == ChangeType::Deleted { 1 } else { 0 },
        files_renamed: if f.change_type == ChangeType::Renamed { 1 } else { 0 },
    }
}

/// Statistics of a list of files: the sum of their contributions.
pub open spec fn stats_of(files: Seq<FileDiffStats>) -> DiffStats
    decreases files.len(),
{
    if files.len() == 0 {
        zero_stats()
    } else {
        stats_plus(stats_of(files.drop_last()), file_contribution(files.last()))
    }
}

/// The statistics of a list of files, computed without overflow.
pub open spec fn stats_of_fits(files: Seq<FileDiffStats>) -> bool {
    forall|i: int|
        0 <= i <= files.len() ==> stats_plus_fits(
            stats_of(#[trigger] files.take(i)),
            if i < files.len() { file_contribution(files[i]) } else { zero_stats() },
        )
}

impl DiffStats {
    /// No file and no line changed.
    pub open spec fn empty_spec(self) -> bool {
        self.files_changed == 0 && self.lines_added == 0 && self.lines_removed == 0
    }

    /// Create new zeroed diff stats.
    pub fn new() -> (r: Self)
        ensures
            r == zero_stats(),
    {
        DiffStats {
            files_changed: 0,
            lines_added: 0,
            lines_removed: 0,
            files_added: 0,
            files_deleted: 0,
            files_renamed: 0,
        }
    }

    /// Create diff stats from individual values.
    pub fn from_values(
        files_changed: usize,
        lines_added: usize,
        lines_removed: usize,
        files_added: usize,
        files_deleted: usize,
        files_renamed: usize,
    ) -> (r: Self)
        ensures
            r == (DiffStats {
                files_changed,
                lines_added,
                lines_removed,
                files_added,
                files_deleted,
                files_renamed,
            }),
    {
        DiffStats {
            files_changed,
            lines_added,
            lines_removed,
            files_added,
            files_deleted,
            files_renamed,
        }
    }

    /// Get the total number of files involved in the diff.
    pub fn total_files(&self) -> (r: usize)
        ensures
            r == self.files_changed,
    {
        self.files_changed
    }

    /// Get the net line change.
    pub fn net_lines(&self) -> (r: isize)
        requires
            isize::MIN <= signed_diff(self.lines_added, self.lines_removed) <= isize::MAX,
        ensures
            r == signed_diff(self.lines_added, self.lines_removed),
    {
        #[verifier::truncate]
        let a = self.lines_added as isize;
        #[verifier::truncate]
        let b = self.lines_removed as isize;
        a - b
    }

    /// Get the total lines changed (added + removed).
    pub fn total_lines_changed(&self) -> (r: usize)
        requires
            self.lines_added + self.lines_removed <= usize::MAX,
        ensures
            r == self.lines_added + self.lines_removed,
    {
        self.lines_added + self.lines_removed
    }

    /// Check if there are any changes.
    pub fn is_empty(&self) -> (r: bool)
        ensures
            r == self.empty_spec(),
    {
        self.files_changed == 0 && self.lines_added == 0 && self.lines_removed == 0
    }

    /// Check if there are any file additions.
    pub fn has_additions(&self) -> (r: bool)
        ensures
            r == (self.files_added > 0),
    {
        self.files_added > 0
    }

    /// Check if there are any file deletions.
    pub fn has_deletions(&self) -> (r: bool)
        ensures
            r == (self.files_deleted > 0),
    {
        self.files_deleted > 0
    }

    /// Check if there are any file renames.
    pub fn has_renames(&self) -> (r: bool)
        ensures
            r == (self.files_renamed > 0),
    {
        self.files_renamed > 0
    }

    /// Check if there are any modifications (non-add/delete/rename).
    pub fn has_modifications(&self) -> (r: bool)
        requires
            self.files_added + self.files_deleted + self.files_renamed <= usize::MAX,
        ensures
            r == (self.files_changed > self.files_added + self.files_deleted + self.files_renamed),
    {
        let special_files = self.files_added + self.files_deleted + self.files_renamed;
        self.files_changed > special_files
    }

    /// Field-wise sum.
    pub fn plus(&self, other: &Self) -> (r: Self)
        requires
            stats_plus_fits(*self, *other),
        ensures
            r == stats_plus(*self, *other),
    {
        DiffStats {
            files_changed: self.files_changed + other.files_changed,
            lines_added: self.lines_added + other.lines_added,
            lines_removed: self.lines_removed + other.lines_removed,
            files_added: self.files_added + other.files_added,
            files_deleted: self.files_deleted + other.files_deleted,
            files_renamed: self.files_renamed + other.files_renamed,
        }
    }
}

impl Default for DiffStats {
    fn default() -> (r: Self)
        ensures
            r == zero_stats(),
    {
        DiffStats::new()
    }
}

impl Add for DiffStats {
    type Output = Self;

    fn add(self, other: Self) -> (r: Self) {
        DiffStats {
            files_changed: self.files_changed + other.files_changed,
            lines_added: self.lines_added + other.lines_added,
            lines_removed: self.lines_removed + other.lines_removed,
            files_added: self.files_added + other.files_added,
            files_deleted: self.files_deleted + other.files_deleted,
            files_renamed: self.files_renamed + other.files_renamed,
        }
    }
}

impl vstd::std_specs::ops::AddSpecImpl for DiffStats {
    open spec fn obeys_add_spec() -> bool {
        true
    }

    open spec fn add_req(self, rhs: DiffStats) -> bool {
        stats_plus_fits(self, rhs)
    }

    open spec fn add_spec(self, rhs: DiffStats) -> DiffStats {
        stats_plus(self, rhs)
    }
}

impl AddAssign for DiffStats {
    /// Field-wise `+=`; a field whose sum exceeds `usize::MAX` wraps around.
    fn add_assign(&mut self, other: Self)
        ensures
            stats_plus_fits(*old(self), other) ==> *final(self) == stats_plus(*old(self), other),
    {
        self.files_changed = self.files_changed.wrapping_add(other.files_changed);
        self.lines_added = self.lines_added.wrapping_add(other.lines_added);
        self.lines_removed = self.lines_removed.wrapping_add(other.lines_removed);
        self.files_added = self.files_added.wrapping_add(other.files_added);
        self.files_deleted = self.files_deleted.wrapping_add(other.files_deleted);
        self.files_renamed = self.files_renamed.wrapping_add(other.files_renamed);
    }
}

/// Builder for aggregating diff statistics.
#[derive(Clone, Debug)]
pub struct DiffStatsBuilder {
    files_changed: usize,
    lines_added: usize,
    lines_removed: usize,
    files_added: usize,
    files_deleted: usize,
    files_renamed: usize,
}

impl DiffStatsBuilder {
    /// The statistics accumulated so far.
    pub closed spec fn current(&self) -> DiffStats {
        DiffStats {
            files_changed: self.files_changed,
            lines_added: self.lines_added,
            lines_removed: self.lines_removed,
            files_added: self.files_added,
            files_deleted: self.files_deleted,
            files_renamed: self.files_renamed,
        }
    }

    /// Create a new builder.
    pub fn new() -> (r: Self)
        ensures
            r.current() == zero_stats(),
    {
        DiffStatsBuilder {
            files_changed: 0,
            lines_added: 0,
            lines_removed: 0,
            files_added: 0,
            files_deleted: 0,
            files_renamed: 0,
        }
    }

    /// Add a file's diff stats to the builder.
    pub fn add_file(&mut self, stats: &FileDiffStats) -> (r: &mut Self)
        requires
            stats_plus_fits(old(self).current(), file_contribution(*stats)),
        ensures
            r.current() == stats_plus(old(self).current(), file_contribution(*stats)),
            *final(self) == *final(r),
    {
        self.files_changed = self.files_changed + 1;
        self.lines_added = self.lines_added + stats.lines_added;
        self.lines_removed = self.lines_removed + stats.lines_removed;
        match stats.change_type {
            ChangeType::Added => self.files_added = self.files_added + 1,
            ChangeType::Deleted => self.files_deleted = self.files_deleted + 1,
            ChangeType::Modified => {},
            ChangeType::Renamed => self.files_renamed = self.files_renamed + 1,
        }
        self
    }

    /// Add a file's diff stats, in place.
    fn add_one(&mut self, stats: &FileDiffStats)
        requires
            stats_plus_fits(old(self).current(), file_contribution(*stats)),
        ensures
            final(self).current() == stats_plus(old(self).current(), file_contribution(*stats)),
    {
        self.files_changed = self.files_changed + 1;
        self.lines_added = self.lines_added + stats.lines_added;
        self.lines_removed = self.lines_removed + stats.lines_removed;
        match stats.change_type {
            ChangeType::Added => self.files_added = self.files_added + 1,
            ChangeType::Deleted => self.files_deleted = self.files_deleted + 1,
            ChangeType::Modified => {},
            ChangeType::Renamed => self.files_renamed = self.files_renamed + 1,
        }
    }

    /// Add multiple file stats.
    pub fn add_files(&mut self, files: Vec<FileDiffStats>) -> (r: &mut Self)
        requires
            stats_of_fits(files@) && forall|i: int|
                0 <= i <= files@.len() ==> stats_plus_fits(
                    old(self).current(),
                    stats_of(#[trigger] files@.take(i)),
                ),
        ensures
            r.current() == stats_plus(old(self).current(), stats_of(files@)),
            *final(self) == *final(r),
    {
        self.add_all(files.as_slice());
        self
    }

    fn add_all(&mut self, files: &[FileDiffStats])
        requires
            stats_of_fits(files@) && forall|i: int|
                0 <= i <= files@.len() ==> stats_plus_fits(
                    old(self).current(),
                    stats_of(#[trigger] files@.take(i)),
                ),
        ensures
            final(self).current() == stats_plus(old(self).current(), stats_of(files@)),
    {
        let ghost s = files@;
        proof {
            assert(s.take(0) =~= Seq::<FileDiffStats>::empty());
        }
        let mut i: usize = 0;
        while i < files.len()
            invariant
                i <= s.len(),
                files@ == s,
                stats_of_fits(s),
                forall|j: int|
                    0 <= j <= s.len() ==> stats_plus_fits(
                        old(self).current(),
                        stats_of(#[trigger] s.take(j)),
                    ),
                self.current() == stats_plus(old(self).current(), stats_of(s.take(i as int))),
            decreases s.len() - i,
        {
            proof {
                assert(s.take(i + 1).drop_last() =~= s.take(i as int));
                assert(stats_of(s.take(i + 1)) == stats_plus(
                    stats_of(s.take(i as int)),
                    file_contribution(s[i as int]),
                ));
                assert(stats_plus_fits(
                    stats_of(s.take(i as int)),
                    file_contribution(s[i as int]),
                ));
                assert(stats_plus_fits(old(self).current(), stats_of(s.take(i + 1))));
            }
            self.add_one(&files[i]);
            i = i + 1;
        }
        proof {
            assert(s.take(s.len() as int) =~= s);
        }
    }

    /// Build the final diff stats.
    pub fn build(&self) -> (r: DiffStats)
        ensures
            r == self.current(),
    {
        DiffStats {
            files_changed: self.files_changed,
            lines_added: self.lines_added,
            lines_removed: self.lines_removed,
            files_added: self.files_added,
            files_deleted: self.files_deleted,
            files_renamed: self.files_renamed,
        }
    }

    /// Reset the builder to empty state.
    pub fn reset(&mut self) -> (r: &mut Self)
        ensures
            r.current() == zero_stats(),
            *final(self) == *final(r),
    {
        *self = Self::new();
        self
    }

    /// Get the current number of files tracked.
    pub fn file_count(&self) -> (r: usize)
        ensures
            r == self.current().files_changed,
    {
        self.files_changed
    }

    /// Check if the builder is empty.
    pub fn is_empty(&self) -> (r: bool)
        ensures
            r == (self.current().files_changed == 0),
    {
        self.files_changed == 0
    }
}

impl Default for DiffStatsBuilder {
    fn default() -> (r: Self)
        ensures
            r.current() == zero_stats(),
    {
        DiffStatsBuilder::new()
    }
}

// =============================================================================
// Formatting
// =============================================================================

/// `""` when `n == 1`, else `"s"`.
pub open spec fn plural(n: nat) -> Seq<char> {
    if n == 1 {
        Seq::<char>::empty()
    } else {
        "s"@
    }
}

/// Parts joined with a separator.
pub open spec fn join(parts: Seq<Seq<char>>, sep: Seq<char>) -> Seq<char>
    decreases parts.len(),
{
    if parts.len() == 0 {
        Seq::<char>::empty()
    } else if parts.len() == 1 {
        parts[0]
    } else {
        join(parts.drop_last(), sep) + sep + parts.last()
    }
}

/// The file operations that occurred, as `"{n} added"`, `"{n} deleted"`, `"{n} renamed"`.
pub open spec fn ops_parts(s: DiffStats) -> Seq<Seq<char>> {
    let a = if s.files_added > 0 {
        seq![decimal(s.files_added as nat) + " added"@]
    } else {
        Seq::<Seq<char>>::empty()
    };
    let d = if s.files_deleted > 0 {
        seq![decimal(s.files_deleted as nat) + " deleted"@]
    } else {
        Seq::<Seq<char>>::empty()
    };
    let r = if s.files_renamed > 0 {
        seq![decimal(s.files_renamed as nat) + " renamed"@]
    } else {
        Seq::<Seq<char>>::empty()
    };
    a + d + r
}

/// The human-readable summary of `s` that [`format_stats`] returns.
pub open spec fn format_stats_spec(s: DiffStats) -> Seq<char> {
    if s.empty_spec() {
        "No changes"@
    } else {
        let files = decimal(s.files_changed as nat) + " file"@ + plural(s.files_changed as nat)
            + " changed"@;
        let lines = if s.lines_added > 0 || s.lines_removed > 0 {
            seq![
                decimal(s.lines_added as nat) + " insertion"@ + plural(s.lines_added as nat)
                    + ", "@ + decimal(s.lines_removed as nat) + " deletion"@ + plural(
                    s.lines_removed as nat,
                ),
            ]
        } else {
            Seq::<Seq<char>>::empty()
        };
        let ops = if ops_parts(s).len() > 0 {
            seq!["("@ + join(ops_parts(s), ", "@) + ")"@]
        } else {
            Seq::<Seq<char>>::empty()
        };
        join(seq![files] + lines + ops, ", "@)
    }
}

fn push_plural(out: &mut String, n: usize)
    ensures
        final(out)@ == old(out)@ + plural(n as nat),
{
    if n != 1 {
        push_str(out, "s");
    } else {
        assert(old(out)@ + Seq::<char>::empty() =~= old(out)@);
    }
}

proof fn lemma_join_push(parts: Seq<Seq<char>>, sep: Seq<char>, x: Seq<char>)
    ensures
        join(parts.push(x), sep) == if parts.len() == 0 {
            x
        } else {
            join(parts, sep) + sep + x
        },
{
    assert(parts.push(x).drop_last() =~= parts);
}

/// Appends one part to a `sep`-joined list with `n` parts so far.
fn push_part(out: &mut String, first: bool, part: &String, Ghost(parts): Ghost<Seq<Seq<char>>>)
    requires
        old(out)@ == join(parts, ", "@),
        first == (parts.len() == 0),
    ensures
        final(out)@ == join(parts.push(part@), ", "@),
{
    proof {
        lemma_join_push(parts, ", "@, part@);
    }
    if !first {
        push_str(out, ", ");
    } else {
        assert(old(out)@ =~= Seq::<char>::empty());
    }
    push_str(out, part.as_str());
    assert(out@ =~= join(parts.push(part@), ", "@));
}

/// Format diff stats in human-readable format.
pub fn format_stats(stats: &DiffStats) -> (r: String)
    ensures
        r@ == format_stats_spec(*stats),
{
    if stats.is_empty() {
        return to_string("No changes");
    }
    let mut out = String::new();
    let mut files = String::new();
    push_decimal(&mut files, stats.files_changed as u64);
    push_str(&mut files, " file");
    push_plural(&mut files, stats.files_changed);
    push_str(&mut files, " changed");
    let ghost mut parts: Seq<Seq<char>> = Seq::empty();
    assert(out@ =~= join(parts, ", "@));
    push_part(&mut out, true, &files, Ghost(parts));
    proof {
        parts = parts.push(files@);
    }
    if stats.lines_added > 0 || stats.lines_removed > 0 {
        let mut lines = String::new();
        push_decimal(&mut lines, stats.lines_added as u64);
        push_str(&mut lines, " insertion");
        push_plural(&mut lines, stats.lines_added);
        push_str(&mut lines, ", ");
        push_decimal(&mut lines, stats.lines_removed as u64);
        push_str(&mut lines, " deletion");
        push_plural(&mut lines, stats.lines_removed);
        push_part(&mut out, false, &lines, Ghost(parts));
        proof {
            parts = parts.push(lines@);
        }
    }
    let mut ops = String::new();
    let ghost mut op_parts: Seq<Seq<char>> = Seq::empty();
    assert(ops@ =~= join(op_parts, ", "@));
    if stats.files_added > 0 {
        let mut p = String::new();
        push_decimal(&mut p, stats.files_added as u64);
        push_str(&mut p, " added");
        push_part(&mut ops, true, &p, Ghost(op_parts));
        proof {
            op_parts = op_parts.push(p@);
        }
    }
    if stats.files_deleted > 0 {
        let mut p = String::new();
        push_decimal(&mut p, stats.files_deleted as u64);
        push_str(&mut p, " deleted");
        let first = !(stats.files_added > 0);
        push_part(&mut ops, first, &p, Ghost(op_parts));
        proof {
            op_parts = op_parts.push(p@);
        }
    }
    if stats.files_renamed > 0 {
        let mut p = String::new();
        push_decimal(&mut p, stats.files_renamed as u64);
        push_str(&mut p, " renamed");
        let first = !(stats.files_added > 0) && !(stats.files_deleted > 0);
        push_part(&mut ops, first, &p, Ghost(op_parts));
        proof {
            op_parts = op_parts.push(p@);
        }
    }
    proof {
        assert(op_parts =~= ops_parts(*stats));
    }
    if stats.files_added > 0 || stats.files_deleted > 0 || stats.files_renamed > 0 {
        let mut wrapped = String::new();
        push_str(&mut wrapped, "(");
        push_str(&mut wrapped, ops.as_str());
        push_str(&mut wrapped, ")");
        let first = false;
        push_part(&mut out, first, &wrapped, Ghost(parts));
        proof {
            parts = parts.push(wrapped@);
        }
    }
    proof {
        let s = *stats;
        let lines_p = if s.lines_added > 0 || s.lines_removed > 0 {
            seq![
                decimal(s.lines_added as nat) + " insertion"@ + plural(s.lines_added as nat)
                    + ", "@ + decimal(s.lines_removed as nat) + " deletion"@ + plural(
                    s.lines_removed as nat,
                ),
            ]
        } else {
            Seq::<Seq<char>>::empty()
        };
        let ops_p = if ops_parts(s).len() > 0 {
            seq!["("@ + join(ops_parts(s), ", "@) + ")"@]
        } else {
            Seq::<Seq<char>>::empty()
        };
        assert(parts =~= seq![files@] + lines_p + ops_p);
    }
    out
}

/// The short summary of `s` that [`format_stats_short`] returns.
pub open spec fn format_stats_short_spec(s: DiffStats) -> Seq<char> {
    if s.empty_spec() {
        "0"@
    } else {
        "+"@ + decimal(s.lines_added as nat) + "-"@ + decimal(s.lines_removed as nat)
            + " files:"@ + decimal(s.files_changed as nat)
    }
}

/// Format diff stats in short format (e.g., `+10-5 files:3`).
pub fn format_stats_short(stats: &DiffStats) -> (r: String)
    ensures
        r@ == format_stats_short_spec(*stats),
{
    if stats.is_empty() {
        return to_string("0");
    }
    let mut s = String::new();
    push_str(&mut s, "+");
    push_decimal(&mut s, stats.lines_added as u64);
    push_str(&mut s, "-");
    push_decimal(&mut s, stats.lines_removed as u64);
    push_str(&mut s, " files:");
    push_decimal(&mut s, stats.files_changed as u64);
    assert(s@ =~= format_stats_short_spec(*stats));
    s
}

/// Decimal form of a signed number.
pub open spec fn signed_decimal(n: int) -> Seq<char> {
    if n < 0 {
        "-"@ + decimal((-n) as nat)
    } else {
        decimal(n as nat)
    }
}

fn push_signed(out: &mut String, n: isize)
    ensures
        final(out)@ == old(out)@ + signed_decimal(n as int),
{
    if n < 0 {
        push_str(out, "-");
        let m: u64 = if n == isize::MIN {
            #[verifier::truncate]
            let x = (isize::MAX as u64) + 1;
            x
        } else {
            (-n) as u64
        };
        assert(m == -(n as int));
        push_decimal(out, m);
        assert(out@ =~= old(out)@ + signed_decimal(n as int));
    } else {
        push_decimal(out, n as u64);
    }
}

/// The markdown table that [`format_stats_markdown`] returns.
pub open spec fn format_stats_markdown_spec(s: DiffStats) -> Seq<char> {
    "| Metric | Count |\n"@ + "|--------|-------|\n"@ + "| Files changed | "@ + decimal(
        s.files_changed as nat,
    ) + " |\n"@ + "| Lines added | "@ + decimal(s.lines_added as nat) + " |\n"@
        + "| Lines removed | "@ + decimal(s.lines_removed as nat) + " |\n"@ + "| Net lines | "@
        + signed_decimal(signed_diff(s.lines_added, s.lines_removed)) + " |\n"@
        + "| Files added | "@ + decimal(s.files_added as nat) + " |\n"@ + "| Files deleted | "@
        + decimal(s.files_deleted as nat) + " |\n"@ + "| Files renamed | "@ + decimal(
        s.files_renamed as nat,
    ) + " |"@
}

/// Format diff stats as a markdown table.
pub fn format_stats_markdown(stats: &DiffStats) -> (r: String)
    requires
        isize::MIN <= signed_diff(stats.lines_added, stats.lines_removed) <= isize::MAX,
    ensures
        r@ == format_stats_markdown_spec(*stats),
{
    let mut t = String::new();
    push_str(&mut t, "| Metric | Count |\n");
    push_str(&mut t, "|--------|-------|\n");
    push_str(&mut t, "| Files changed | ");
    push_decimal(&mut t, stats.files_changed as u64);
    push_str(&mut t, " |\n");
    push_str(&mut t, "| Lines added | ");
    push_decimal(&mut t, stats.lines_added as u64);
    push_str(&mut t, " |\n");
    push_str(&mut t, "| Lines removed | ");
    push_decimal(&mut t, stats.lines_removed as u64);
    push_str(&mut t, " |\n");
    push_str(&mut t, "| Net lines | ");
    push_signed(&mut t, stats.net_lines());
    push_str(&mut t, " |\n");
    push_str(&mut t, "| Files added | ");
    push_decimal(&mut t, stats.files_added as u64);
    push_str(&mut t, " |\n");
    push_str(&mut t, "| Files deleted | ");
    push_decimal(&mut t, stats.files_deleted as u64);
    push_str(&mut t, " |\n");
    push_str(&mut t, "| Files renamed | ");
    push_decimal(&mut t, stats.files_renamed as u64);
    push_str(&mut t, " |");
    assert(t@ =~= format_stats_markdown_spec(*stats));
    t
}

/// Check if diff stats has no changes.
pub fn is_empty(stats: &DiffStats) -> (r: bool)
    ensures
        r == stats.empty_spec(),
{
    stats.is_empty()
}

/// Calculate net line change (added - removed).
pub fn net_lines(stats: &DiffStats) -> (r: isize)
    requires
        isize::MIN <= signed_diff(stats.lines_added, stats.lines_removed) <= isize::MAX,
    ensures
        r == signed_diff(stats.lines_added, stats.lines_removed),
{
    stats.net_lines()
}

/// Merge two diff stats together.
pub fn merge_stats(a: &DiffStats, b: &DiffStats) -> (r: DiffStats)
    requires
        stats_plus_fits(*a, *b),
    ensures
        r == stats_plus(*a, *b),
{
    a.plus(b)
}

/// Create empty diff stats.
pub fn empty_stats() -> (r: DiffStats)
    ensures
        r == zero_stats(),
{
    DiffStats::new()
}

/// Calculate the diff stats from a slice of file stats.
pub fn from_file_stats(files: &[FileDiffStats]) -> (r: DiffStats)
    requires
        stats_of_fits(files@),
    ensures
        r == stats_of(files@),
{
    let mut builder = DiffStatsBuilder::new();
    let mut i: usize = 0;
    proof {
        assert(files@.take(0) =~= Seq::<FileDiffStats>::empty());
    }
    while i < files.len()
        invariant
            i <= files@.len(),
            stats_of_fits(files@),
            builder.current() == stats_of(files@.take(i as int)),
        decreases files@.len() - i,
    {
        proof {
            assert(files@.take(i + 1).drop_last() =~= files@.take(i as int));
            assert(stats_plus_fits(
                stats_of(files@.take(i as int)),
                file_contribution(files@[i as int]),
            ));
        }
        builder.add_one(&files[i]);
        i = i + 1;
    }
    proof {
        assert(files@.take(files@.len() as int) =~= files@);
    }
    builder.build()
}

/// Adding statistics is commutative and has the zero statistics as identity.
pub proof fn law_merge_commutes(a: DiffStats, b: DiffStats)
    requires
        stats_plus_fits(a, b),
    ensures
        stats_plus(a, b) == stats_plus(b, a),
        stats_plus(a, zero_stats()) == a,
{
}

/// Each file counts once, and each counted addition, deletion or rename is one
/// of the files: `files_added + files_deleted + files_renamed <= files_changed`.
pub proof fn law_operations_within_files(files: Seq<FileDiffStats>)
    requires
        stats_of_fits(files),
    ensures
        stats_of(files).files_changed == files.len(),
        stats_of(files).files_added + stats_of(files).files_deleted + stats_of(files).files_renamed
            <= stats_of(files).files_changed,
    decreases files.len(),
{
    if files.len() > 0 {
        let p = files.drop_last();
        assert(stats_of_fits(p)) by {
            assert forall|i: int| 0 <= i <= p.len() implies stats_plus_fits(
                stats_of(#[trigger] p.take(i)),
                if i < p.len() { file_contribution(p[i]) } else { zero_stats() },
            ) by {
                assert(p.take(i) =~= files.take(i));
            }
        }
        law_operations_within_files(p);
        assert(files.take(p.len() as int) =~= p);
    }
}

} // verus!
