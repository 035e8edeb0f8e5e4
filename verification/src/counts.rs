//! Counting diagnostic findings by severity, by file and by category.
use vstd::prelude::*;
use std::ops::{Add, AddAssign};
use crate::table::{StrTable, entries_map, keys_unique, lemma_entries_map_contains};
use crate::text::{push_decimal, push_str, decimal};

verus! {

/// Severity levels for counting.
#[derive(Clone, Copy, Debug, PartialEq, Eq, Hash, Structural)]
pub enum SeverityLevel {
    /// Hint-level diagnostic.
    Hint,
    /// Note-level diagnostic.
    Note,
    /// Warning-level diagnostic.
    Warning,
    /// Error-level diagnostic.
    Error,
    /// Fatal-level diagnostic.
    Fatal,
}

/// Counts of diagnostics by severity level.
#[derive(Clone, Debug, PartialEq, Eq, Structural)]
pub struct SeverityCounts {
    /// Number of hint-level diagnostics.
    pub hints: u64,
    /// Number of note-level diagnostics.
    pub notes: u64,
    /// Number of warnings.
    pub warnings: u64,
    /// Number of errors.
    pub errors: u64,
    /// Number of fatal errors.
    pub fatals: u64,
}

/// The all-zero counts.
pub open spec fn zero_counts() -> SeverityCounts {
    SeverityCounts { hints: 0, notes: 0, warnings: 0, errors: 0, fatals: 0 }
}

/// Field-wise sum of two counts (each field taken modulo nothing: callers keep it in range).
pub open spec fn plus(a: SeverityCounts, b: SeverityCounts) -> SeverityCounts {
    SeverityCounts {
        hints: (a.hints + b.hints) as u64,
        notes: (a.notes + b.notes) as u64,
        warnings: (a.warnings + b.warnings) as u64,
        errors: (a.errors + b.errors) as u64,
        fatals: (a.fatals + b.fatals) as u64,
    }
}

/// The field-wise sum of two counts fits in `u64`.
pub open spec fn plus_fits(a: SeverityCounts, b: SeverityCounts) -> bool {
    &&& a.hints + b.hints <= u64::MAX
    &&& a.notes + b.notes <= u64::MAX
    &&& a.warnings + b.warnings <= u64::MAX
    &&& a.errors + b.errors <= u64::MAX
    &&& a.fatals + b.fatals <= u64::MAX
}

/// `c` with the count of `l` raised by one.
pub open spec fn bumped(c: SeverityCounts, l: SeverityLevel) -> SeverityCounts {
    match l {
        SeverityLevel::Hint => SeverityCounts { hints: (c.hints + 1) as u64, ..c },
        SeverityLevel::Note => SeverityCounts { notes: (c.notes + 1) as u64, ..c },
        SeverityLevel::Warning => SeverityCounts { warnings: (c.warnings + 1) as u64, ..c },
        SeverityLevel::Error => SeverityCounts { errors: (c.errors + 1) as u64, ..c },
        SeverityLevel::Fatal => SeverityCounts { fatals: (c.fatals + 1) as u64, ..c },
    }
}

impl SeverityCounts {
    /// The count kept for severity `l`.
    pub open spec fn count(self, l: SeverityLevel) -> u64 {
        match l {
            SeverityLevel::Hint => self.hints,
            SeverityLevel::Note => self.notes,
            SeverityLevel::Warning => self.warnings,
            SeverityLevel::Error => self.errors,
            SeverityLevel::Fatal => self.fatals,
        }
    }

    /// Sum of all five counts.
    pub open spec fn sum(self) -> int {
        self.hints + self.notes + self.warnings + self.errors + self.fatals
    }

    /// Create a new zeroed count.
    pub fn new() -> (r: Self)
        ensures
            r == zero_counts(),
    {
        SeverityCounts { hints: 0, notes: 0, warnings: 0, errors: 0, fatals: 0 }
    }

    /// Create counts from individual values.
    pub fn from_values(hints: u64, notes: u64, warnings: u64, errors: u64, fatals: u64) -> (r:
        Self)
        ensures
            r == (SeverityCounts { hints, notes, warnings, errors, fatals }),
    {
        SeverityCounts { hints, notes, warnings, errors, fatals }
    }

    /// Get the total count across all severities.
    pub fn total(&self) -> (r: u64)
        requires
            self.sum() <= u64::MAX,
        ensures
            r == self.sum(),
    {
        self.hints + self.notes + self.warnings + self.errors + self.fatals
    }

    /// Check if all counts are zero.
    pub fn is_empty(&self) -> (r: bool)
        requires
            self.sum() <= u64::MAX,
        ensures
            r == (self.sum() == 0),
            r == (self == zero_counts()),
    {
        self.total() == 0
    }

    /// The terms of the pass rate (non-problems over total): `None` when
    /// there is nothing counted, else the hints and notes and the total. The
    /// rate itself is the quotient of the two as a float.
    pub fn pass_rate_terms(&self) -> (r: Option<(u64, u64)>)
        requires
            self.sum() <= u64::MAX,
        ensures
            match r {
                None => self.sum() == 0,
                Some((n, t)) => self.sum() > 0 && t == self.sum() && n == self.hints + self.notes,
            },
    {
        let total = self.total();
        if total == 0 {
            return None;
        }
        Some((self.hints + self.notes, total))
    }

    /// Get the count of problems (warnings + errors + fatals).
    pub fn problems(&self) -> (r: u64)
        requires
            self.warnings + self.errors + self.fatals <= u64::MAX,
        ensures
            r == self.warnings + self.errors + self.fatals,
    {
        self.warnings + self.errors + self.fatals
    }

    /// Get the count of blocking issues (errors + fatals).
    pub fn blocking(&self) -> (r: u64)
        requires
            self.errors + self.fatals <= u64::MAX,
        ensures
            r == self.errors + self.fatals,
    {
        self.errors + self.fatals
    }

    /// Check if there are any blocking issues.
    pub fn has_blocking(&self) -> (r: bool)
        requires
            self.errors + self.fatals <= u64::MAX,
        ensures
            r == (self.errors + self.fatals > 0),
    {
        self.blocking() > 0
    }

    /// Check if there are any problems.
    pub fn has_problems(&self) -> (r: bool)
        requires
            self.warnings + self.errors + self.fatals <= u64::MAX,
        ensures
            r == (self.warnings + self.errors + self.fatals > 0),
    {
        self.problems() > 0
    }

    /// Increment the count for a severity level.
    pub fn increment(&mut self, severity: SeverityLevel)
        requires
            old(self).count(severity) < u64::MAX,
        ensures
            *final(self) == bumped(*old(self), severity),
    {
        match severity {
            SeverityLevel::Hint => self.hints = self.hints + 1,
            SeverityLevel::Note => self.notes = self.notes + 1,
            SeverityLevel::Warning => self.warnings = self.warnings + 1,
            SeverityLevel::Error => self.errors = self.errors + 1,
            SeverityLevel::Fatal => self.fatals = self.fatals + 1,
        }
    }

    /// Get count for a specific severity.
    pub fn get(&self, severity: SeverityLevel) -> (r: u64)
        ensures
            r == self.count(severity),
    {
        match severity {
            SeverityLevel::Hint => self.hints,
            SeverityLevel::Note => self.notes,
            SeverityLevel::Warning => self.warnings,
            SeverityLevel::Error => self.errors,
            SeverityLevel::Fatal => self.fatals,
        }
    }

    /// A copy of these counts.
    pub fn copied(&self) -> (r: Self)
        ensures
            r == *self,
    {
        SeverityCounts {
            hints: self.hints,
            notes: self.notes,
            warnings: self.warnings,
            errors: self.errors,
            fatals: self.fatals,
        }
    }

    /// Field-wise sum.
    pub fn plus(&self, other: &Self) -> (r: Self)
        requires
            plus_fits(*self, *other),
        ensures
            r == plus(*self, *other),
    {
        SeverityCounts {
            hints: self.hints + other.hints,
            notes: self.notes + other.notes,
            warnings: self.warnings + other.warnings,
            errors: self.errors + other.errors,
            fatals: self.fatals + other.fatals,
        }
    }

    /// The text `"{h} hints, {n} notes, {w} warnings, {e} errors, {f} fatals"`.
    pub open spec fn display(self) -> Seq<char> {
        decimal(self.hints as nat) + " hints, "@ + decimal(self.notes as nat) + " notes, "@
            + decimal(self.warnings as nat) + " warnings, "@ + decimal(self.errors as nat)
            + " errors, "@ + decimal(self.fatals as nat) + " fatals"@
    }

    /// Render as `"{h} hints, {n} notes, {w} warnings, {e} errors, {f} fatals"`.
    pub fn to_string(&self) -> (s: String)
        ensures
            s@ == self.display(),
    {
        let mut s = String::new();
        self.write_into(&mut s);
        assert(s@ =~= self.display());
        s
    }

    fn write_into(&self, s: &mut String)
        ensures
            final(s)@ == old(s)@ + self.display(),
    {
        push_decimal(s, self.hints);
        push_str(s, " hints, ");
        push_decimal(s, self.notes);
        push_str(s, " notes, ");
        push_decimal(s, self.warnings);
        push_str(s, " warnings, ");
        push_decimal(s, self.errors);
        push_str(s, " errors, ");
        push_decimal(s, self.fatals);
        push_str(s, " fatals");
        assert(s@ =~= old(s)@ + self.display());
    }
}

impl Default for SeverityCounts {
    fn default() -> (r: Self)
        ensures
            r == zero_counts(),
    {
        SeverityCounts::new()
    }
}

impl Add for SeverityCounts {
    type Output = Self;

    fn add(self, other: Self) -> (r: Self) {
        SeverityCounts {
            hints: self.hints + other.hints,
            notes: self.notes + other.notes,
            warnings: self.warnings + other.warnings,
            errors: self.errors + other.errors,
            fatals: self.fatals + other.fatals,
        }
    }
}

impl vstd::std_specs::ops::AddSpecImpl for SeverityCounts {
    open spec fn obeys_add_spec() -> bool {
        true
    }

    open spec fn add_req(self, rhs: SeverityCounts) -> bool {
        plus_fits(self, rhs)
    }

    open spec fn add_spec(self, rhs: SeverityCounts) -> SeverityCounts {
        plus(self, rhs)
    }
}

impl AddAssign for SeverityCounts {
    /// Field-wise `+=`; a field whose sum exceeds `u64::MAX` wraps around.
    fn add_assign(&mut self, other: Self)
        ensures
            plus_fits(*old(self), other) ==> *final(self) == plus(*old(self), other),
    {
        self.hints = self.hints.wrapping_add(other.hints);
        self.notes = self.notes.wrapping_add(other.notes);
        self.warnings = self.warnings.wrapping_add(other.warnings);
        self.errors = self.errors.wrapping_add(other.errors);
        self.fatals = self.fatals.wrapping_add(other.fatals);
    }
}

/// Sum of the counts of severity `l` over all entries.
pub open spec fn sum_level(s: Seq<(String, SeverityCounts)>, l: SeverityLevel) -> int
    decreases s.len(),
{
    if s.len() == 0 {
        0
    } else {
        sum_level(s.drop_last(), l) + s.last().1.count(l)
    }
}

/// Every count of `total` is the sum of that count over the entries.
pub open spec fn is_sum_of(total: SeverityCounts, s: Seq<(String, SeverityCounts)>) -> bool {
    &&& total.hints == sum_level(s, SeverityLevel::Hint)
    &&& total.notes == sum_level(s, SeverityLevel::Note)
    &&& total.warnings == sum_level(s, SeverityLevel::Warning)
    &&& total.errors == sum_level(s, SeverityLevel::Error)
    &&& total.fatals == sum_level(s, SeverityLevel::Fatal)
}

proof fn lemma_sum_level_update(s: Seq<(String, SeverityCounts)>, i: int, v: (String, SeverityCounts), l: SeverityLevel)
    requires
        0 <= i < s.len(),
    ensures
        sum_level(s.update(i, v), l) == sum_level(s, l) - s[i].1.count(l) + v.1.count(l),
    decreases s.len(),
{
    let t = s.update(i, v);
    if i < s.len() - 1 {
        lemma_sum_level_update(s.drop_last(), i, v, l);
        assert(t.drop_last() =~= s.drop_last().update(i, v));
    } else {
        assert(t.drop_last() =~= s.drop_last());
    }
}

proof fn lemma_sum_level_entry(s: Seq<(String, SeverityCounts)>, i: int, l: SeverityLevel)
    requires
        0 <= i < s.len(),
    ensures
        s[i].1.count(l) <= sum_level(s, l),
        0 <= sum_level(s, l),
    decreases s.len(),
{
    lemma_sum_level_nonneg(s.drop_last(), l);
    if i < s.len() - 1 {
        lemma_sum_level_entry(s.drop_last(), i, l);
    }
}

proof fn lemma_sum_level_nonneg(s: Seq<(String, SeverityCounts)>, l: SeverityLevel)
    ensures
        0 <= sum_level(s, l),
    decreases s.len(),
{
    if s.len() > 0 {
        lemma_sum_level_nonneg(s.drop_last(), l);
    }
}

proof fn lemma_sum_level_take(s: Seq<(String, SeverityCounts)>, i: int, l: SeverityLevel)
    requires
        0 <= i < s.len(),
    ensures
        sum_level(s.take(i + 1), l) == sum_level(s.take(i), l) + s[i].1.count(l),
        sum_level(s.take(i + 1), l) <= sum_level(s, l),
    decreases s.len() - i,
{
    assert(s.take(i + 1).drop_last() =~= s.take(i));
    if i + 1 < s.len() {
        lemma_sum_level_take(s, i + 1, l);
        lemma_sum_level_nonneg(s, l);
    } else {
        assert(s.take(i + 1) =~= s);
    }
}

/// Field-wise sum of two optional counts (absent counts as zero).
pub open spec fn add_opt(a: Option<SeverityCounts>, b: Option<SeverityCounts>) -> SeverityCounts {
    match (a, b) {
        (Some(x), Some(y)) => plus(x, y),
        (Some(x), None) => x,
        (None, Some(y)) => y,
        (None, None) => zero_counts(),
    }
}

/// The key-wise merge of two count maps, adding the counts of shared keys.
pub open spec fn merge_maps(a: Map<Seq<char>, SeverityCounts>, b: Map<Seq<char>, SeverityCounts>) -> Map<Seq<char>, SeverityCounts> {
    Map::new(|k: Seq<char>| a.contains_key(k) || b.contains_key(k), |k: Seq<char>| add_opt(
        if a.contains_key(k) { Some(a[k]) } else { None },
        if b.contains_key(k) { Some(b[k]) } else { None },
    ))
}

/// Per-key counts with a running total; the shared core of
/// [`FileCounts`] and [`CategoryCounts`].
#[derive(Clone, Debug)]
pub struct CountTable {
    table: StrTable<SeverityCounts>,
    total: SeverityCounts,
}

impl CountTable {
    pub closed spec fn wf(&self) -> bool {
        &&& self.table.wf()
        &&& is_sum_of(self.total, self.table.seq())
    }

    /// Counts per key.
    pub closed spec fn map(&self) -> Map<Seq<char>, SeverityCounts> {
        self.table@
    }

    /// Entries in insertion order.
    pub closed spec fn entries(&self) -> Seq<(String, SeverityCounts)> {
        self.table.seq()
    }

    /// The running total.
    pub closed spec fn total_spec(&self) -> SeverityCounts {
        self.total
    }

    pub proof fn lemma_wf(&self)
        requires
            self.wf(),
        ensures
            is_sum_of(self.total_spec(), self.entries()),
            keys_unique(self.entries()),
            self.map() == entries_map(self.entries()),
            self.map().dom().finite(),
            self.map().dom().len() == self.entries().len(),
    {
        self.table.lemma_wf();
        self.table.lemma_view();
    }

    fn new() -> (t: Self)
        ensures
            t.wf(),
            t.map() == Map::<Seq<char>, SeverityCounts>::empty(),
            t.total_spec() == zero_counts(),
            t.entries() == Seq::<(String, SeverityCounts)>::empty(),
    {
        CountTable { table: StrTable::new(), total: SeverityCounts::new() }
    }

    fn add(&mut self, key: &str, counts: &SeverityCounts)
        requires
            old(self).wf(),
            plus_fits(old(self).total_spec(), *counts),
        ensures
            final(self).wf(),
            final(self).total_spec() == plus(old(self).total_spec(), *counts),
            final(self).map() == old(self).map().insert(
                key@,
                add_opt(
                    if old(self).map().contains_key(key@) { Some(old(self).map()[key@]) } else { None },
                    Some(*counts),
                ),
            ),
    {
        let kv = crate::text::chars_of(key);
        match self.table.find(&kv) {
            Some(i) => {
                let cur = self.table.entry(i).1.copied();
                proof {
                    let s = self.table.seq();
                    lemma_sum_level_entry(s, i as int, SeverityLevel::Hint);
                    lemma_sum_level_entry(s, i as int, SeverityLevel::Note);
                    lemma_sum_level_entry(s, i as int, SeverityLevel::Warning);
                    lemma_sum_level_entry(s, i as int, SeverityLevel::Error);
                    lemma_sum_level_entry(s, i as int, SeverityLevel::Fatal);
                }
                let next = cur.plus(counts);
                let ghost s0 = self.table.seq();
                self.table.set_value(i, next);
                proof {
                    let v = (s0[i as int].0, next);
                    lemma_sum_level_update(s0, i as int, v, SeverityLevel::Hint);
                    lemma_sum_level_update(s0, i as int, v, SeverityLevel::Note);
                    lemma_sum_level_update(s0, i as int, v, SeverityLevel::Warning);
                    lemma_sum_level_update(s0, i as int, v, SeverityLevel::Error);
                    lemma_sum_level_update(s0, i as int, v, SeverityLevel::Fatal);
                }
            },
            None => {
                let ghost s0 = self.table.seq();
                self.table.push_new(crate::text::to_string(key), counts.copied());
                proof {
                    assert(self.table.seq().drop_last() =~= s0);
                }
            },
        }
        self.total = self.total.plus(counts);
    }

    fn bump(&mut self, key: &str, severity: SeverityLevel)
        requires
            old(self).wf(),
            old(self).total_spec().count(severity) < u64::MAX,
        ensures
            final(self).wf(),
            final(self).total_spec() == bumped(old(self).total_spec(), severity),
            final(self).map() == old(self).map().insert(
                key@,
                bumped(
                    if old(self).map().contains_key(key@) { old(self).map()[key@] } else { zero_counts() },
                    severity,
                ),
            ),
    {
        let kv = crate::text::chars_of(key);
        match self.table.find(&kv) {
            Some(i) => {
                let mut cur = self.table.entry(i).1.copied();
                proof {
                    lemma_sum_level_entry(self.table.seq(), i as int, severity);
                }
                cur.increment(severity);
                let ghost s0 = self.table.seq();
                self.table.set_value(i, cur);
                proof {
                    let v = (s0[i as int].0, cur);
                    lemma_sum_level_update(s0, i as int, v, SeverityLevel::Hint);
                    lemma_sum_level_update(s0, i as int, v, SeverityLevel::Note);
                    lemma_sum_level_update(s0, i as int, v, SeverityLevel::Warning);
                    lemma_sum_level_update(s0, i as int, v, SeverityLevel::Error);
                    lemma_sum_level_update(s0, i as int, v, SeverityLevel::Fatal);
                }
            },
            None => {
                let mut c = SeverityCounts::new();
                c.increment(severity);
                let ghost s0 = self.table.seq();
                self.table.push_new(crate::text::to_string(key), c);
                proof {
                    assert(self.table.seq().drop_last() =~= s0);
                }
            },
        }
        self.total.increment(severity);
    }

    fn get(&self, key: &str) -> (r: Option<&SeverityCounts>)
        requires
            self.wf(),
        ensures
            r is Some <==> self.map().contains_key(key@),
            r matches Some(c) ==> *c == self.map()[key@],
    {
        self.table.get(key)
    }

    fn len(&self) -> (n: usize)
        requires
            self.wf(),
        ensures
            n == self.map().dom().len(),
    {
        self.table.len()
    }

    /// Adds every entry of `other` into `self`.
    fn absorb(&mut self, other: &CountTable)
        requires
            old(self).wf(),
            other.wf(),
            plus_fits(old(self).total_spec(), other.total_spec()),
        ensures
            final(self).wf(),
            final(self).total_spec() == plus(old(self).total_spec(), other.total_spec()),
            final(self).map() == merge_maps(old(self).map(), other.map()),
    {
        let entries = other.table.as_slice();
        let ghost s = other.table.seq();
        proof {
            other.lemma_wf();
            assert(merge_maps(old(self).map(), entries_map(s.take(0))) =~= old(self).map());
            assert(plus(old(self).total_spec(), zero_counts()) == old(self).total_spec());
        }
        let mut i: usize = 0;
        while i < entries.len()
            invariant
                entries@ == s,
                s == other.entries(),
                i <= s.len(),
                other.wf(),
                keys_unique(s),
                is_sum_of(other.total_spec(), s),
                plus_fits(old(self).total_spec(), other.total_spec()),
                self.wf(),
                self.map() == merge_maps(old(self).map(), entries_map(s.take(i as int))),
                self.total_spec().hints == old(self).total_spec().hints + sum_level(s.take(i as int), SeverityLevel::Hint),
                self.total_spec().notes == old(self).total_spec().notes + sum_level(s.take(i as int), SeverityLevel::Note),
                self.total_spec().warnings == old(self).total_spec().warnings + sum_level(s.take(i as int), SeverityLevel::Warning),
                self.total_spec().errors == old(self).total_spec().errors + sum_level(s.take(i as int), SeverityLevel::Error),
                self.total_spec().fatals == old(self).total_spec().fatals + sum_level(s.take(i as int), SeverityLevel::Fatal),
            decreases s.len() - i,
        {
            proof {
                lemma_sum_level_take(s, i as int, SeverityLevel::Hint);
                lemma_sum_level_take(s, i as int, SeverityLevel::Note);
                lemma_sum_level_take(s, i as int, SeverityLevel::Warning);
                lemma_sum_level_take(s, i as int, SeverityLevel::Error);
                lemma_sum_level_take(s, i as int, SeverityLevel::Fatal);
            }
            let (key, counts) = &entries[i];
            self.add(key.as_str(), counts);
            proof {
                let k = s[i as int].0@;
                let v = s[i as int].1;
                let pre = s.take(i as int);
                assert(s.take(i + 1).drop_last() =~= pre);
                assert(entries_map(s.take(i + 1)) == entries_map(pre).insert(k, v));
                lemma_entries_map_contains(pre, k);
                if entries_map(pre).contains_key(k) {
                    let j = choose|j: int| 0 <= j < pre.len() && #[trigger] pre[j].0@ == k;
                    assert(s[j].0@ == s[i as int].0@);
                }
                assert(merge_maps(old(self).map(), entries_map(s.take(i + 1))) =~= self.map());
            }
            i = i + 1;
        }
        proof {
            assert(s.take(s.len() as int) =~= s);
            assert(self.map() =~= merge_maps(old(self).map(), other.map()));
        }
    }
}

/// Counts by file path.
#[derive(Clone, Debug)]
pub struct FileCounts {
    by_file: CountTable,
}

impl FileCounts {
    /// Well-formedness: unique paths, and the total is the sum over the files.
    pub closed spec fn wf(&self) -> bool {
        self.by_file.wf()
    }

    /// Counts per file path.
    pub closed spec fn files_map(&self) -> Map<Seq<char>, SeverityCounts> {
        self.by_file.map()
    }

    /// Per-file entries in first-seen order.
    pub closed spec fn entries(&self) -> Seq<(String, SeverityCounts)> {
        self.by_file.entries()
    }

    /// The total counts across all files.
    pub closed spec fn total_counts(&self) -> SeverityCounts {
        self.by_file.total_spec()
    }

    /// Create a new empty file counts.
    pub fn new() -> (r: Self)
        ensures
            r.wf(),
            r.files_map() == Map::<Seq<char>, SeverityCounts>::empty(),
            r.total_counts() == zero_counts(),
    {
        FileCounts { by_file: CountTable::new() }
    }

    /// Add counts for a file.
    pub fn add_file(&mut self, path: &str, counts: SeverityCounts)
        requires
            old(self).wf(),
            plus_fits(old(self).total_counts(), counts),
        ensures
            final(self).wf(),
            final(self).total_counts() == plus(old(self).total_counts(), counts),
            final(self).files_map() == old(self).files_map().insert(
                path@,
                add_opt(
                    if old(self).files_map().contains_key(path@) { Some(old(self).files_map()[path@]) } else { None },
                    Some(counts),
                ),
            ),
    {
        self.by_file.add(path, &counts);
    }

    /// Increment a severity for a file.
    pub fn increment(&mut self, path: &str, severity: SeverityLevel)
        requires
            old(self).wf(),
            old(self).total_counts().count(severity) < u64::MAX,
        ensures
            final(self).wf(),
            final(self).total_counts() == bumped(old(self).total_counts(), severity),
            final(self).files_map() == old(self).files_map().insert(
                path@,
                bumped(
                    if old(self).files_map().contains_key(path@) { old(self).files_map()[path@] } else { zero_counts() },
                    severity,
                ),
            ),
    {
        self.by_file.bump(path, severity);
    }

    /// Get counts for a specific file.
    pub fn get(&self, path: &str) -> (r: Option<&SeverityCounts>)
        requires
            self.wf(),
        ensures
            r is Some <==> self.files_map().contains_key(path@),
            r matches Some(c) ==> *c == self.files_map()[path@],
    {
        self.by_file.get(path)
    }

    /// Get the total counts.
    pub fn total(&self) -> (r: &SeverityCounts)
        ensures
            *r == self.total_counts(),
    {
        &self.by_file.total
    }

    /// Get the number of files with findings.
    pub fn file_count(&self) -> (n: usize)
        requires
            self.wf(),
        ensures
            n == self.files_map().dom().len(),
    {
        self.by_file.len()
    }

    /// All files with their counts, in first-seen order.
    pub fn files(&self) -> (r: &[(String, SeverityCounts)])
        ensures
            r@ == self.entries(),
    {
        self.by_file.table.as_slice()
    }

    /// Check if there are any findings.
    pub fn is_empty(&self) -> (r: bool)
        requires
            self.total_counts().sum() <= u64::MAX,
        ensures
            r == (self.total_counts() == zero_counts()),
    {
        self.by_file.total.is_empty()
    }

    /// A copy of this table.
    pub fn copied(&self) -> (r: Self)
        requires
            self.wf(),
        ensures
            r.wf(),
            r.files_map() == self.files_map(),
            r.total_counts() == self.total_counts(),
    {
        let mut r = FileCounts::new();
        proof {
            self.by_file.lemma_wf();
            assert(plus_fits(zero_counts(), self.total_counts()));
        }
        r.by_file.absorb(&self.by_file);
        proof {
            assert(r.files_map() =~= self.files_map());
            assert(plus(zero_counts(), self.total_counts()) == self.total_counts());
        }
        r
    }
}

impl Default for FileCounts {
    fn default() -> (r: Self)
        ensures
            r.wf(),
            r.files_map() == Map::<Seq<char>, SeverityCounts>::empty(),
            r.total_counts() == zero_counts(),
    {
        FileCounts::new()
    }
}

/// Counts by category/code.
#[derive(Clone, Debug)]
pub struct CategoryCounts {
    by_category: CountTable,
}

impl CategoryCounts {
    /// Well-formedness: unique categories, and the total is the sum over them.
    pub closed spec fn wf(&self) -> bool {
        self.by_category.wf()
    }

    /// Counts per category.
    pub closed spec fn categories_map(&self) -> Map<Seq<char>, SeverityCounts> {
        self.by_category.map()
    }

    /// Per-category entries in first-seen order.
    pub closed spec fn entries(&self) -> Seq<(String, SeverityCounts)> {
        self.by_category.entries()
    }

    /// The total counts across all categories.
    pub closed spec fn total_counts(&self) -> SeverityCounts {
        self.by_category.total_spec()
    }

    /// Create a new empty category counts.
    pub fn new() -> (r: Self)
        ensures
            r.wf(),
            r.categories_map() == Map::<Seq<char>, SeverityCounts>::empty(),
            r.total_counts() == zero_counts(),
    {
        CategoryCounts { by_category: CountTable::new() }
    }

    /// Add counts for a category.
    pub fn add_category(&mut self, category: &str, counts: SeverityCounts)
        requires
            old(self).wf(),
            plus_fits(old(self).total_counts(), counts),
        ensures
            final(self).wf(),
            final(self).total_counts() == plus(old(self).total_counts(), counts),
            final(self).categories_map() == old(self).categories_map().insert(
                category@,
                add_opt(
                    if old(self).categories_map().contains_key(category@) { Some(old(self).categories_map()[category@]) } else { None },
                    Some(counts),
                ),
            ),
    {
        self.by_category.add(category, &counts);
    }

    /// Increment a severity for a category.
    pub fn increment(&mut self, category: &str, severity: SeverityLevel)
        requires
            old(self).wf(),
            old(self).total_counts().count(severity) < u64::MAX,
        ensures
            final(self).wf(),
            final(self).total_counts() == bumped(old(self).total_counts(), severity),
            final(self).categories_map() == old(self).categories_map().insert(
                category@,
                bumped(
                    if old(self).categories_map().contains_key(category@) { old(self).categories_map()[category@] } else { zero_counts() },
                    severity,
                ),
            ),
    {
        self.by_category.bump(category, severity);
    }

    /// Get counts for a specific category.
    pub fn get(&self, category: &str) -> (r: Option<&SeverityCounts>)
        requires
            self.wf(),
        ensures
            r is Some <==> self.categories_map().contains_key(category@),
            r matches Some(c) ==> *c == self.categories_map()[category@],
    {
        self.by_category.get(category)
    }

    /// Get the total counts.
    pub fn total(&self) -> (r: &SeverityCounts)
        ensures
            *r == self.total_counts(),
    {
        &self.by_category.total
    }

    /// Get the number of unique categories.
    pub fn category_count(&self) -> (n: usize)
        requires
            self.wf(),
        ensures
            n == self.categories_map().dom().len(),
    {
        self.by_category.len()
    }

    /// All categories with their counts, in first-seen order.
    pub fn categories(&self) -> (r: &[(String, SeverityCounts)])
        ensures
            r@ == self.entries(),
    {
        self.by_category.table.as_slice()
    }

    /// Check if there are any findings.
    pub fn is_empty(&self) -> (r: bool)
        requires
            self.total_counts().sum() <= u64::MAX,
        ensures
            r == (self.total_counts() == zero_counts()),
    {
        self.by_category.total.is_empty()
    }

    /// A copy of this table.
    pub fn copied(&self) -> (r: Self)
        requires
            self.wf(),
        ensures
            r.wf(),
            r.categories_map() == self.categories_map(),
            r.total_counts() == self.total_counts(),
    {
        let mut r = CategoryCounts::new();
        proof {
            assert(plus_fits(zero_counts(), self.total_counts()));
        }
        r.by_category.absorb(&self.by_category);
        proof {
            assert(r.categories_map() =~= self.categories_map());
            assert(plus(zero_counts(), self.total_counts()) == self.total_counts());
        }
        r
    }
}

impl Default for CategoryCounts {
    fn default() -> (r: Self)
        ensures
            r.wf(),
            r.categories_map() == Map::<Seq<char>, SeverityCounts>::empty(),
            r.total_counts() == zero_counts(),
    {
        CategoryCounts::new()
    }
}

/// Combined counts for a complete summary.
#[derive(Clone, Debug)]
pub struct CountSummary {
    /// Counts by severity.
    pub severity: SeverityCounts,
    /// Counts by file.
    pub by_file: FileCounts,
    /// Counts by category.
    pub by_category: CategoryCounts,
}

impl Default for CountSummary {
    fn default() -> (r: Self)
        ensures
            r.wf(),
            r.consistent(),
            r.severity == zero_counts(),
            r.by_file.files_map() == Map::<Seq<char>, SeverityCounts>::empty(),
            r.by_category.categories_map() == Map::<Seq<char>, SeverityCounts>::empty(),
    {
        CountSummary::new()
    }
}

impl CountSummary {
    /// Both tables are well formed.
    pub open spec fn wf(&self) -> bool {
        self.by_file.wf() && self.by_category.wf()
    }

    /// The three totals agree.
    pub open spec fn consistent(&self) -> bool {
        self.by_file.total_counts() == self.severity && self.by_category.total_counts()
            == self.severity
    }

    /// Create a new empty summary.
    pub fn new() -> (r: Self)
        ensures
            r.wf(),
            r.consistent(),
            r.severity == zero_counts(),
            r.by_file.files_map() == Map::<Seq<char>, SeverityCounts>::empty(),
            r.by_category.categories_map() == Map::<Seq<char>, SeverityCounts>::empty(),
    {
        CountSummary {
            severity: SeverityCounts::new(),
            by_file: FileCounts::new(),
            by_category: CategoryCounts::new(),
        }
    }

    /// Record a finding.
    pub fn record(&mut self, file: &str, category: &str, severity: SeverityLevel)
        requires
            old(self).wf(),
            old(self).severity.count(severity) < u64::MAX,
            old(self).by_file.total_counts().count(severity) < u64::MAX,
            old(self).by_category.total_counts().count(severity) < u64::MAX,
        ensures
            final(self).wf(),
            final(self).severity == bumped(old(self).severity, severity),
            final(self).by_file.total_counts() == bumped(old(self).by_file.total_counts(), severity),
            final(self).by_category.total_counts() == bumped(
                old(self).by_category.total_counts(),
                severity,
            ),
            final(self).by_file.files_map() == old(self).by_file.files_map().insert(
                file@,
                bumped(
                    if old(self).by_file.files_map().contains_key(file@) { old(self).by_file.files_map()[file@] } else { zero_counts() },
                    severity,
                ),
            ),
            final(self).by_category.categories_map() == old(self).by_category.categories_map().insert(
                category@,
                bumped(
                    if old(self).by_category.categories_map().contains_key(category@) { old(self).by_category.categories_map()[category@] } else { zero_counts() },
                    severity,
                ),
            ),
    {
        self.severity.increment(severity);
        self.by_file.increment(file, severity);
        self.by_category.increment(category, severity);
    }

    /// Get the total count.
    pub fn total(&self) -> (r: u64)
        requires
            self.severity.sum() <= u64::MAX,
        ensures
            r == self.severity.sum(),
    {
        self.severity.total()
    }

    /// Check if there are any findings.
    pub fn is_empty(&self) -> (r: bool)
        requires
            self.severity.sum() <= u64::MAX,
        ensures
            r == (self.severity == zero_counts()),
    {
        self.severity.is_empty()
    }

    /// Check if there are blocking issues.
    pub fn has_blocking(&self) -> (r: bool)
        requires
            self.severity.errors + self.severity.fatals <= u64::MAX,
        ensures
            r == (self.severity.errors + self.severity.fatals > 0),
    {
        self.severity.has_blocking()
    }

    /// Merge another summary into this one.
    pub fn merge(&mut self, other: Self)
        requires
            old(self).wf(),
            other.wf(),
            plus_fits(old(self).severity, other.severity),
            plus_fits(old(self).by_file.total_counts(), other.by_file.total_counts()),
            plus_fits(old(self).by_category.total_counts(), other.by_category.total_counts()),
        ensures
            final(self).wf(),
            final(self).severity == plus(old(self).severity, other.severity),
            final(self).by_file.total_counts() == plus(
                old(self).by_file.total_counts(),
                other.by_file.total_counts(),
            ),
            final(self).by_category.total_counts() == plus(
                old(self).by_category.total_counts(),
                other.by_category.total_counts(),
            ),
            final(self).by_file.files_map() == merge_maps(
                old(self).by_file.files_map(),
                other.by_file.files_map(),
            ),
            final(self).by_category.categories_map() == merge_maps(
                old(self).by_category.categories_map(),
                other.by_category.categories_map(),
            ),
    {
        self.severity = self.severity.plus(&other.severity);
        self.by_file.by_file.absorb(&other.by_file.by_file);
        self.by_category.by_category.absorb(&other.by_category.by_category);
    }

    /// The text `"{files} files, {categories} categories, {severity counts}"`.
    pub open spec fn display(&self) -> Seq<char> {
        decimal(self.by_file.files_map().dom().len()) + " files, "@ + decimal(
            self.by_category.categories_map().dom().len(),
        ) + " categories, "@ + self.severity.display()
    }

    /// Render as `"{files} files, {categories} categories, {severity counts}"`.
    pub fn to_string(&self) -> (s: String)
        requires
            self.wf(),
        ensures
            s@ == self.display(),
    {
        let mut s = String::new();
        let nf = self.by_file.file_count();
        let nc = self.by_category.category_count();
        push_decimal(&mut s, nf as u64);
        push_str(&mut s, " files, ");
        push_decimal(&mut s, nc as u64);
        push_str(&mut s, " categories, ");
        self.severity.write_into(&mut s);
        assert(s@ =~= self.display());
        s
    }
}

/// The total of a file table is the field-wise sum of its per-file counts.
pub proof fn law_file_total_is_sum(fc: &FileCounts)
    requires
        fc.wf(),
    ensures
        is_sum_of(fc.total_counts(), fc.entries()),
        keys_unique(fc.entries()),
        fc.files_map() == entries_map(fc.entries()),
{
    fc.by_file.lemma_wf();
}

/// The total of a category table is the field-wise sum of its per-category counts.
pub proof fn law_category_total_is_sum(cc: &CategoryCounts)
    requires
        cc.wf(),
    ensures
        is_sum_of(cc.total_counts(), cc.entries()),
        keys_unique(cc.entries()),
        cc.categories_map() == entries_map(cc.entries()),
{
    cc.by_category.lemma_wf();
}

/// Recording one finding raises the summary's total by exactly one and keeps
/// the three totals in agreement.
pub proof fn law_record_adds_one(before: CountSummary, after: CountSummary, l: SeverityLevel)
    requires
        after.severity == bumped(before.severity, l),
        after.by_file.total_counts() == bumped(before.by_file.total_counts(), l),
        after.by_category.total_counts() == bumped(before.by_category.total_counts(), l),
        before.severity.count(l) < u64::MAX,
    ensures
        after.severity.sum() == before.severity.sum() + 1,
        after.severity.count(l) == before.severity.count(l) + 1,
        before.consistent() ==> after.consistent(),
{
}

/// Merging keeps the three totals in agreement and adds the totals.
pub proof fn law_merge_consistent(a: CountSummary, b: CountSummary, merged: CountSummary)
    requires
        a.consistent(),
        b.consistent(),
        plus_fits(a.severity, b.severity),
        merged.severity == plus(a.severity, b.severity),
        merged.by_file.total_counts() == plus(a.by_file.total_counts(), b.by_file.total_counts()),
        merged.by_category.total_counts() == plus(
            a.by_category.total_counts(),
            b.by_category.total_counts(),
        ),
    ensures
        merged.consistent(),
        merged.severity.sum() == a.severity.sum() + b.severity.sum(),
{
}

/// Counts add field by field, and the order of the operands does not matter.
pub proof fn law_plus_commutes(a: SeverityCounts, b: SeverityCounts)
    requires
        plus_fits(a, b),
    ensures
        plus(a, b) == plus(b, a),
        plus(a, b).sum() == a.sum() + b.sum(),
        plus(a, zero_counts()) == a,
{
}

} // verus!
