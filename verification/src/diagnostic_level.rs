//! Diagnostic severity levels: parsing from the spellings of various linters,
//! numeric levels, and a canonical four-way severity.
use vstd::prelude::*;
use crate::table::StrTable;
use crate::text::{
    all_ascii, ascii_lower, ascii_lower_char, chars_of, eq_str, lowercase, push_str, to_lowercase,
    to_string,
};

verus! {

/// Diagnostic severity levels, ordered `Hint < Note < Warning < Error < Fatal < Unknown`.
#[derive(Clone, Copy, Debug, PartialEq, Eq, PartialOrd, Ord, Hash, Structural)]
pub enum DiagnosticLevel {
    /// Hint or suggestion for improvement.
    Hint,
    /// Note or informational message.
    Note,
    /// Warning-level diagnostic.
    Warning,
    /// Error-level diagnostic.
    Error,
    /// Fatal error - compiler/linter cannot continue.
    Fatal,
    /// Unrecognized or unknown level.
    Unknown,
}

impl Default for DiagnosticLevel {
    fn default() -> (r: Self)
        ensures
            r == DiagnosticLevel::Unknown,
    {
        DiagnosticLevel::Unknown
    }
}

/// The level a lowercase word names in the generic vocabulary, if any.
pub open spec fn level_of_word(w: Seq<char>) -> Option<DiagnosticLevel> {
    if w == "hint"@ || w == "suggestion"@ || w == "help"@ || w == "style"@ {
        Some(DiagnosticLevel::Hint)
    } else if w == "note"@ || w == "info"@ || w == "information"@ || w == "convention"@ || w
        == "refactor"@ {
        Some(DiagnosticLevel::Note)
    } else if w == "warning"@ || w == "warn"@ {
        Some(DiagnosticLevel::Warning)
    } else if w == "error"@ || w == "err"@ {
        Some(DiagnosticLevel::Error)
    } else if w == "fatal"@ || w == "critical"@ || w == "fail"@ {
        Some(DiagnosticLevel::Fatal)
    } else if w == "unknown"@ {
        Some(DiagnosticLevel::Unknown)
    } else {
        None
    }
}

/// The level a lowercase word names in rustc's vocabulary.
pub open spec fn rustc_level_of_word(w: Seq<char>) -> DiagnosticLevel {
    if w == "error"@ {
        DiagnosticLevel::Error
    } else if w == "warning"@ {
        DiagnosticLevel::Warning
    } else if w == "note"@ {
        DiagnosticLevel::Note
    } else if w == "help"@ {
        DiagnosticLevel::Hint
    } else if w == "fatal-error"@ || w == "fatal"@ {
        DiagnosticLevel::Fatal
    } else {
        DiagnosticLevel::Unknown
    }
}

/// The level a lowercase word names in eslint's vocabulary.
pub open spec fn eslint_level_of_word(w: Seq<char>) -> DiagnosticLevel {
    if w == "error"@ || w == "2"@ {
        DiagnosticLevel::Error
    } else if w == "warning"@ || w == "warn"@ || w == "1"@ {
        DiagnosticLevel::Warning
    } else if w == "info"@ {
        DiagnosticLevel::Note
    } else if w == "hint"@ {
        DiagnosticLevel::Hint
    } else {
        DiagnosticLevel::Unknown
    }
}

/// The level with numeric value `n` (0 to 4), `Unknown` otherwise.
pub open spec fn level_of_number(n: int) -> DiagnosticLevel {
    if n == 0 {
        DiagnosticLevel::Hint
    } else if n == 1 {
        DiagnosticLevel::Note
    } else if n == 2 {
        DiagnosticLevel::Warning
    } else if n == 3 {
        DiagnosticLevel::Error
    } else if n == 4 {
        DiagnosticLevel::Fatal
    } else {
        DiagnosticLevel::Unknown
    }
}

impl DiagnosticLevel {
    /// The numeric level.
    pub open spec fn number(self) -> u8 {
        match self {
            DiagnosticLevel::Hint => 0,
            DiagnosticLevel::Note => 1,
            DiagnosticLevel::Warning => 2,
            DiagnosticLevel::Error => 3,
            DiagnosticLevel::Fatal => 4,
            DiagnosticLevel::Unknown => 255,
        }
    }

    /// The lowercase name.
    pub open spec fn name(self) -> Seq<char> {
        match self {
            DiagnosticLevel::Hint => "hint"@,
            DiagnosticLevel::Note => "note"@,
            DiagnosticLevel::Warning => "warning"@,
            DiagnosticLevel::Error => "error"@,
            DiagnosticLevel::Fatal => "fatal"@,
            DiagnosticLevel::Unknown => "unknown"@,
        }
    }

    /// Warning, error or fatal.
    pub open spec fn problem(self) -> bool {
        self == DiagnosticLevel::Warning || self == DiagnosticLevel::Error || self
            == DiagnosticLevel::Fatal
    }

    /// Get the numeric level value.
    pub fn level(self) -> (r: u8)
        ensures
            r == self.number(),
    {
        match self {
            DiagnosticLevel::Hint => 0,
            DiagnosticLevel::Note => 1,
            DiagnosticLevel::Warning => 2,
            DiagnosticLevel::Error => 3,
            DiagnosticLevel::Fatal => 4,
            DiagnosticLevel::Unknown => 255,
        }
    }

    /// Get a lowercase string representation.
    pub fn as_str(self) -> (s: &'static str)
        ensures
            s@ == self.name(),
    {
        match self {
            DiagnosticLevel::Hint => "hint",
            DiagnosticLevel::Note => "note",
            DiagnosticLevel::Warning => "warning",
            DiagnosticLevel::Error => "error",
            DiagnosticLevel::Fatal => "fatal",
            DiagnosticLevel::Unknown => "unknown",
        }
    }

    /// The lowercase name as a `String`.
    pub fn to_string(&self) -> (s: String)
        ensures
            s@ == self.name(),
    {
        to_string(self.as_str())
    }

    /// Get an icon for display (Unicode symbols).
    pub fn icon(self) -> (s: &'static str)
        ensures
            s@ == match self {
                DiagnosticLevel::Hint => "💡"@,
                DiagnosticLevel::Note => "📝"@,
                DiagnosticLevel::Warning => "⚠️"@,
                DiagnosticLevel::Error => "❌"@,
                DiagnosticLevel::Fatal => "💀"@,
                DiagnosticLevel::Unknown => "❓"@,
            },
    {
        match self {
            DiagnosticLevel::Hint => "💡",
            DiagnosticLevel::Note => "📝",
            DiagnosticLevel::Warning => "⚠️",
            DiagnosticLevel::Error => "❌",
            DiagnosticLevel::Fatal => "💀",
            DiagnosticLevel::Unknown => "❓",
        }
    }

    /// Check if this level represents a problem (warning or higher).
    pub fn is_problem(self) -> (r: bool)
        ensures
            r == self.problem(),
    {
        matches!(self, DiagnosticLevel::Warning | DiagnosticLevel::Error | DiagnosticLevel::Fatal)
    }

    /// Check if this level is an error or fatal.
    pub fn is_error(self) -> (r: bool)
        ensures
            r == (self == DiagnosticLevel::Error || self == DiagnosticLevel::Fatal),
    {
        matches!(self, DiagnosticLevel::Error | DiagnosticLevel::Fatal)
    }

    /// Check if this level is a warning.
    pub fn is_warning(self) -> (r: bool)
        ensures
            r == (self == DiagnosticLevel::Warning),
    {
        matches!(self, DiagnosticLevel::Warning)
    }

    /// Check if this level is informational (hint or note).
    pub fn is_info(self) -> (r: bool)
        ensures
            r == (self == DiagnosticLevel::Hint || self == DiagnosticLevel::Note),
    {
        matches!(self, DiagnosticLevel::Hint | DiagnosticLevel::Note)
    }

    /// Parse from a string (case-insensitive, generic vocabulary).
    pub fn parse(s: &str) -> (r: Result<Self, DiagnosticLevelParseError>)
        ensures
            r is Ok <==> level_of_word(lowercase(s@)) is Some,
            r matches Ok(l) ==> level_of_word(lowercase(s@)) == Some(l),
            r matches Err(e) ==> e.input_view() == s@,
            all_ascii(s@) ==> match r {
                Ok(l) => level_of_word(ascii_lower(s@)) == Some(l),
                Err(_) => level_of_word(ascii_lower(s@)) is None,
            },
    {
        let low = to_lowercase(s);
        let w = chars_of(low.as_str());
        match word_level(&w) {
            Some(l) => Ok(l),
            None => Err(DiagnosticLevelParseError::new(s)),
        }
    }

    /// Create from a numeric level.
    pub fn from_number(n: u8) -> (r: Self)
        ensures
            r == level_of_number(n as int),
    {
        match n {
            0 => DiagnosticLevel::Hint,
            1 => DiagnosticLevel::Note,
            2 => DiagnosticLevel::Warning,
            3 => DiagnosticLevel::Error,
            4 => DiagnosticLevel::Fatal,
            _ => DiagnosticLevel::Unknown,
        }
    }
}

fn word_level(w: &Vec<char>) -> (r: Option<DiagnosticLevel>)
    ensures
        r == level_of_word(w@),
{
    if eq_str(w, "hint") || eq_str(w, "suggestion") || eq_str(w, "help") || eq_str(w, "style") {
        Some(DiagnosticLevel::Hint)
    } else if eq_str(w, "note") || eq_str(w, "info") || eq_str(w, "information") || eq_str(
        w,
        "convention",
    ) || eq_str(w, "refactor") {
        Some(DiagnosticLevel::Note)
    } else if eq_str(w, "warning") || eq_str(w, "warn") {
        Some(DiagnosticLevel::Warning)
    } else if eq_str(w, "error") || eq_str(w, "err") {
        Some(DiagnosticLevel::Error)
    } else if eq_str(w, "fatal") || eq_str(w, "critical") || eq_str(w, "fail") {
        Some(DiagnosticLevel::Fatal)
    } else if eq_str(w, "unknown") {
        Some(DiagnosticLevel::Unknown)
    } else {
        None
    }
}

impl From<u8> for DiagnosticLevel {
    fn from(n: u8) -> (r: Self) {
        Self::from_number(n)
    }
}

impl vstd::std_specs::convert::FromSpecImpl<u8> for DiagnosticLevel {
    open spec fn obeys_from_spec() -> bool {
        true
    }

    open spec fn from_spec(n: u8) -> DiagnosticLevel {
        level_of_number(n as int)
    }
}

impl From<i32> for DiagnosticLevel {
    fn from(n: i32) -> (r: Self) {
        if 0 <= n && n <= 255 {
            Self::from_number(n as u8)
        } else {
            DiagnosticLevel::Unknown
        }
    }
}

impl vstd::std_specs::convert::FromSpecImpl<i32> for DiagnosticLevel {
    open spec fn obeys_from_spec() -> bool {
        true
    }

    open spec fn from_spec(n: i32) -> DiagnosticLevel {
        level_of_number(n as int)
    }
}

/// Error type for diagnostic level parsing failures.
#[derive(Clone, Debug, PartialEq, Eq)]
pub struct DiagnosticLevelParseError {
    input: String,
}

impl DiagnosticLevelParseError {
    /// The input that was not recognised.
    pub closed spec fn input_view(&self) -> Seq<char> {
        self.input@
    }

    /// Create a new parse error with the given input.
    pub fn new(input: &str) -> (r: Self)
        ensures
            r.input_view() == input@,
    {
        DiagnosticLevelParseError { input: to_string(input) }
    }

    /// Get the invalid input that caused the error.
    pub fn input(&self) -> (r: &str)
        ensures
            r@ == self.input_view(),
    {
        self.input.as_str()
    }

    /// The message `invalid diagnostic level: {input}`.
    pub fn to_string(&self) -> (s: String)
        ensures
            s@ == "invalid diagnostic level: "@ + self.input_view(),
    {
        let mut s = String::new();
        push_str(&mut s, "invalid diagnostic level: ");
        push_str(&mut s, self.input.as_str());
        assert(s@ =~= "invalid diagnostic level: "@ + self.input_view());
        s
    }
}

/// Parse a diagnostic level from a string (case-insensitive); `Unknown` when unrecognised.
pub fn parse_level(s: &str) -> (r: DiagnosticLevel)
    ensures
        r == match level_of_word(lowercase(s@)) {
            Some(l) => l,
            None => DiagnosticLevel::Unknown,
        },
        all_ascii(s@) ==> r == match level_of_word(ascii_lower(s@)) {
            Some(l) => l,
            None => DiagnosticLevel::Unknown,
        },
{
    match DiagnosticLevel::parse(s) {
        Ok(l) => l,
        Err(_) => DiagnosticLevel::Unknown,
    }
}

/// Parse a rustc-style diagnostic level.
pub fn parse_level_rustc(s: &str) -> (r: DiagnosticLevel)
    ensures
        r == rustc_level_of_word(lowercase(s@)),
{
    let low = to_lowercase(s);
    let w = chars_of(low.as_str());
    if eq_str(&w, "error") {
        DiagnosticLevel::Error
    } else if eq_str(&w, "warning") {
        DiagnosticLevel::Warning
    } else if eq_str(&w, "note") {
        DiagnosticLevel::Note
    } else if eq_str(&w, "help") {
        DiagnosticLevel::Hint
    } else if eq_str(&w, "fatal-error") || eq_str(&w, "fatal") {
        DiagnosticLevel::Fatal
    } else {
        DiagnosticLevel::Unknown
    }
}

/// Parse an eslint-style diagnostic level.
pub fn parse_level_eslint(s: &str) -> (r: DiagnosticLevel)
    ensures
        r == eslint_level_of_word(lowercase(s@)),
{
    let low = to_lowercase(s);
    let w = chars_of(low.as_str());
    if eq_str(&w, "error") || eq_str(&w, "2") {
        DiagnosticLevel::Error
    } else if eq_str(&w, "warning") || eq_str(&w, "warn") || eq_str(&w, "1") {
        DiagnosticLevel::Warning
    } else if eq_str(&w, "info") {
        DiagnosticLevel::Note
    } else if eq_str(&w, "hint") {
        DiagnosticLevel::Hint
    } else {
        DiagnosticLevel::Unknown
    }
}

/// Parse a diagnostic level from a numeric value.
pub fn from_number(n: u8) -> (r: DiagnosticLevel)
    ensures
        r == level_of_number(n as int),
{
    DiagnosticLevel::from_number(n)
}

/// Canonical severity for unified representation, ordered
/// `Unknown < Info < Warning < Error`.
#[derive(Clone, Copy, Debug, PartialEq, Eq, PartialOrd, Ord, Hash, Structural)]
pub enum CanonicalSeverity {
    /// Unknown severity.
    Unknown,
    /// Informational (hint/note).
    Info,
    /// Warning level.
    Warning,
    /// Error level (error/fatal).
    Error,
}

impl Default for CanonicalSeverity {
    fn default() -> (r: Self)
        ensures
            r == CanonicalSeverity::Unknown,
    {
        CanonicalSeverity::Unknown
    }
}

impl CanonicalSeverity {
    /// The lowercase name.
    pub open spec fn name(self) -> Seq<char> {
        match self {
            CanonicalSeverity::Unknown => "unknown"@,
            CanonicalSeverity::Info => "info"@,
            CanonicalSeverity::Warning => "warning"@,
            CanonicalSeverity::Error => "error"@,
        }
    }

    /// Get a lowercase string representation.
    pub fn as_str(self) -> (s: &'static str)
        ensures
            s@ == self.name(),
    {
        match self {
            CanonicalSeverity::Unknown => "unknown",
            CanonicalSeverity::Info => "info",
            CanonicalSeverity::Warning => "warning",
            CanonicalSeverity::Error => "error",
        }
    }

    /// The lowercase name as a `String`.
    pub fn to_string(&self) -> (s: String)
        ensures
            s@ == self.name(),
    {
        to_string(self.as_str())
    }
}

/// The canonical severity of a level.
pub open spec fn canonical_of(l: DiagnosticLevel) -> CanonicalSeverity {
    match l {
        DiagnosticLevel::Hint | DiagnosticLevel::Note => CanonicalSeverity::Info,
        DiagnosticLevel::Warning => CanonicalSeverity::Warning,
        DiagnosticLevel::Error | DiagnosticLevel::Fatal => CanonicalSeverity::Error,
        DiagnosticLevel::Unknown => CanonicalSeverity::Unknown,
    }
}

/// Convert a diagnostic level to canonical severity.
pub fn to_canonical(level: &DiagnosticLevel) -> (r: CanonicalSeverity)
    ensures
        r == canonical_of(*level),
{
    match level {
        DiagnosticLevel::Hint | DiagnosticLevel::Note => CanonicalSeverity::Info,
        DiagnosticLevel::Warning => CanonicalSeverity::Warning,
        DiagnosticLevel::Error | DiagnosticLevel::Fatal => CanonicalSeverity::Error,
        DiagnosticLevel::Unknown => CanonicalSeverity::Unknown,
    }
}

/// Check if a diagnostic level represents a problem (warning or higher).
pub fn is_problem(level: &DiagnosticLevel) -> (r: bool)
    ensures
        r == level.problem(),
{
    level.is_problem()
}

/// Check if a diagnostic level is an error or fatal.
pub fn is_error(level: &DiagnosticLevel) -> (r: bool)
    ensures
        r == (*level == DiagnosticLevel::Error || *level == DiagnosticLevel::Fatal),
{
    level.is_error()
}

/// Check if a diagnostic level is a warning.
pub fn is_warning(level: &DiagnosticLevel) -> (r: bool)
    ensures
        r == (*level == DiagnosticLevel::Warning),
{
    level.is_warning()
}

/// A configurable parser for diagnostic levels with custom mappings.
#[derive(Debug)]
pub struct DiagnosticLevelParser {
    custom_mappings: StrTable<DiagnosticLevel>,
}

impl DiagnosticLevelParser {
    /// The parser's invariant.
    pub closed spec fn wf(&self) -> bool {
        self.custom_mappings.wf()
    }

    /// Custom mappings, keyed by their lowercase spelling.
    pub closed spec fn mappings(&self) -> Map<Seq<char>, DiagnosticLevel> {
        self.custom_mappings@
    }

    /// What [`DiagnosticLevelParser::parse`] returns for `s`: a custom mapping
    /// of the lowercased input first, then the generic vocabulary.
    pub open spec fn parse_spec(&self, s: Seq<char>) -> DiagnosticLevel {
        if self.mappings().contains_key(lowercase(s)) {
            self.mappings()[lowercase(s)]
        } else {
            match level_of_word(lowercase(s)) {
                Some(l) => l,
                None => DiagnosticLevel::Unknown,
            }
        }
    }

    /// Create a new parser with default mappings.
    pub fn new() -> (r: Self)
        ensures
            r.wf(),
            r.mappings() == Map::<Seq<char>, DiagnosticLevel>::empty(),
    {
        DiagnosticLevelParser { custom_mappings: StrTable::new() }
    }

    /// Add a custom mapping from a string (matched case-insensitively) to a level.
    pub fn with_custom_mapping(&mut self, from: &str, to: DiagnosticLevel) -> (r: &mut Self)
        requires
            old(self).wf(),
        ensures
            r.wf(),
            r.mappings() == old(self).mappings().insert(lowercase(from@), to),
            *final(self) == *final(r),
    {
        let key = to_lowercase(from);
        self.custom_mappings.insert(key, to);
        self
    }

    /// Parse a diagnostic level: custom mappings first, then default parsing.
    pub fn parse(&self, s: &str) -> (r: DiagnosticLevel)
        requires
            self.wf(),
        ensures
            r == self.parse_spec(s@),
    {
        let lower = to_lowercase(s);
        match self.custom_mappings.get(lower.as_str()) {
            Some(l) => *l,
            None => parse_level(s),
        }
    }

    /// Check if a custom mapping exists.
    pub fn has_mapping(&self, s: &str) -> (r: bool)
        requires
            self.wf(),
        ensures
            r == self.mappings().contains_key(lowercase(s@)),
    {
        let lower = to_lowercase(s);
        self.custom_mappings.get(lower.as_str()).is_some()
    }

    /// Remove a custom mapping.
    pub fn remove_mapping(&mut self, s: &str) -> (r: &mut Self)
        requires
            old(self).wf(),
        ensures
            r.wf(),
            r.mappings() == old(self).mappings().remove(lowercase(s@)),
            *final(self) == *final(r),
    {
        let lower = to_lowercase(s);
        self.custom_mappings.remove(lower.as_str());
        self
    }

    /// Get the number of custom mappings.
    pub fn mapping_count(&self) -> (n: usize)
        requires
            self.wf(),
        ensures
            n == self.mappings().dom().len(),
    {
        self.custom_mappings.len()
    }

    /// Clear all custom mappings.
    pub fn clear_mappings(&mut self) -> (r: &mut Self)
        ensures
            r.wf(),
            r.mappings() == Map::<Seq<char>, DiagnosticLevel>::empty(),
            *final(self) == *final(r),
    {
        self.custom_mappings.clear();
        self
    }
}

impl Default for DiagnosticLevelParser {
    fn default() -> (r: Self)
        ensures
            r.wf(),
            r.mappings() == Map::<Seq<char>, DiagnosticLevel>::empty(),
    {
        DiagnosticLevelParser::new()
    }
}

/// Every level is given back from its numeric value.
pub proof fn law_number_roundtrip(l: DiagnosticLevel)
    ensures
        level_of_number(l.number() as int) == l,
{
}

/// Every level is given back by the generic vocabulary from its lowercase name.
pub proof fn law_name_roundtrip(l: DiagnosticLevel)
    ensures
        level_of_word(l.name()) == Some(l),
{
    reveal_strlit("hint");
    reveal_strlit("suggestion");
    reveal_strlit("help");
    reveal_strlit("style");
    reveal_strlit("note");
    reveal_strlit("info");
    reveal_strlit("information");
    reveal_strlit("convention");
    reveal_strlit("refactor");
    reveal_strlit("warning");
    reveal_strlit("warn");
    reveal_strlit("error");
    reveal_strlit("err");
    reveal_strlit("fatal");
    reveal_strlit("critical");
    reveal_strlit("fail");
    reveal_strlit("unknown");
    assert("hint"@.len() == 4 && "suggestion"@.len() == 10 && "help"@.len() == 4);
    assert("style"@.len() == 5 && "note"@.len() == 4 && "info"@.len() == 4);
    assert("information"@.len() == 11 && "convention"@.len() == 10 && "refactor"@.len() == 8);
    assert("warning"@.len() == 7 && "warn"@.len() == 4 && "error"@.len() == 5);
    assert("err"@.len() == 3 && "fatal"@.len() == 5 && "critical"@.len() == 8);
    assert("fail"@.len() == 4 && "unknown"@.len() == 7);
    assert("note"@[0] != "hint"@[0] && "note"@[0] != "help"@[0]);
    assert("error"@[0] != "style"@[0]);
    assert("fatal"@[0] != "style"@[0] && "fatal"@[0] != "error"@[0]);
    assert("warning"@[0] != "unknown"@[0]);
    assert("unknown"@[0] != "warning"@[0]);
}

/// A level is a problem exactly when its canonical severity is a warning or an error.
pub proof fn law_problem_is_canonical_warning_or_error(l: DiagnosticLevel)
    ensures
        l.problem() <==> (canonical_of(l) == CanonicalSeverity::Warning || canonical_of(l)
            == CanonicalSeverity::Error),
{
}

/// The custom mappings that a series of `with_custom_mapping(from, to)`
/// calls leaves on a new parser: each call maps the lowercase `from` to `to`.
pub open spec fn mappings_after(calls: Seq<(Seq<char>, DiagnosticLevel)>) -> Map<
    Seq<char>,
    DiagnosticLevel,
>
    decreases calls.len(),
{
    if calls.len() == 0 {
        Map::empty()
    } else {
        mappings_after(calls.drop_last()).insert(lowercase(calls.last().0), calls.last().1)
    }
}

/// The level of the last call in `calls` whose lowercase `from` is `key`.
pub open spec fn last_mapped(calls: Seq<(Seq<char>, DiagnosticLevel)>, key: Seq<char>) -> Option<
    DiagnosticLevel,
>
    decreases calls.len(),
{
    if calls.len() == 0 {
        None
    } else if lowercase(calls.last().0) == key {
        Some(calls.last().1)
    } else {
        last_mapped(calls.drop_last(), key)
    }
}

/// A new parser holds the mappings of no calls, and each further call adds
/// its own: a parser built by `new` and a series of `with_custom_mapping`
/// calls holds `mappings_after` of that series.
pub proof fn law_mappings_after_step(calls: Seq<(Seq<char>, DiagnosticLevel)>, from: Seq<char>, to: DiagnosticLevel)
    ensures
        mappings_after(Seq::empty()) == Map::<Seq<char>, DiagnosticLevel>::empty(),
        mappings_after(calls.push((from, to))) == mappings_after(calls).insert(lowercase(from), to),
{
    assert(calls.push((from, to)).drop_last() =~= calls);
}

/// After any series of custom mappings, parsing gives the level last
/// mapped to the lowercase text, and otherwise the default parse.
pub proof fn law_last_mapping_wins(
    p: DiagnosticLevelParser,
    calls: Seq<(Seq<char>, DiagnosticLevel)>,
    s: Seq<char>,
)
    requires
        p.mappings() == mappings_after(calls),
    ensures
        p.parse_spec(s) == match last_mapped(calls, lowercase(s)) {
            Some(l) => l,
            None => match level_of_word(lowercase(s)) {
                Some(l) => l,
                None => DiagnosticLevel::Unknown,
            },
        },
{
    lemma_last_mapped(calls, lowercase(s));
}

proof fn lemma_last_mapped(calls: Seq<(Seq<char>, DiagnosticLevel)>, key: Seq<char>)
    ensures
        match last_mapped(calls, key) {
            Some(l) => mappings_after(calls).contains_key(key) && mappings_after(calls)[key] == l,
            None => !mappings_after(calls).contains_key(key),
        },
    decreases calls.len(),
{
    if calls.len() > 0 {
        lemma_last_mapped(calls.drop_last(), key);
    }
}

/// Note spellings parse as notes, and only the warning, error and fatal
/// spellings parse as problem levels: `note`, `info`, `information` and
/// pylint's `convention` and `refactor` are notes, and no other word is a
/// warning, an error or a fatal level than `warning`, `warn`, `error`,
/// `err`, `fatal`, `critical` and `fail`.
pub proof fn law_level_words(w: Seq<char>)
    ensures
        w == "note"@ || w == "info"@ || w == "information"@ || w == "convention"@ || w == "refactor"@
            ==> level_of_word(w) == Some(DiagnosticLevel::Note),
        level_of_word(w) matches Some(l) ==> (l.problem() ==> (w == "warning"@ || w == "warn"@ || w
            == "error"@ || w == "err"@ || w == "fatal"@ || w == "critical"@ || w == "fail"@)),
{
    reveal_strlit("hint");
    reveal_strlit("suggestion");
    reveal_strlit("help");
    reveal_strlit("style");
    reveal_strlit("note");
    reveal_strlit("info");
    reveal_strlit("information");
    reveal_strlit("convention");
    reveal_strlit("refactor");
    if w == "note"@ || w == "info"@ || w == "information"@ || w == "convention"@ || w == "refactor"@ {
        assert(w[0] != 'h' && w[0] != 's');
        assert(!(w == "hint"@ || w == "suggestion"@ || w == "help"@ || w == "style"@));
    }
}

/// Level words match whatever their ASCII case: a text whose ASCII lowercase
/// is a level word parses to that word's level.
pub proof fn law_level_words_ignore_ascii_case(s: Seq<char>, w: Seq<char>)
    requires
        ascii_lower(s) == w,
        all_ascii(w),
    ensures
        all_ascii(s),
        level_of_word(ascii_lower(s)) == level_of_word(w),
{
    assert forall|i: int| 0 <= i < s.len() implies (#[trigger] s[i] as u32) < 128 by {
        assert(ascii_lower(s)[i] == ascii_lower_char(s[i]));
        assert((w[i] as u32) < 128);
    }
}

} // verus!
