//! What happened to a diagnostic finding: new, fixed, pre-existing,
//! suppressed, outside the diff, or skipped.
use vstd::prelude::*;
use crate::text::{
    all_ascii, ascii_lower, ascii_lower_char, ascii_upper, ascii_upper_char, chars_of, eq_str, lowercase, push_str, to_lowercase,
    to_string,
};

verus! {

/// The disposition of a diagnostic finding.
#[derive(Clone, Copy, Debug, PartialEq, Eq, Hash, Structural)]
pub enum Disposition {
    /// New issue introduced in this change.
    New,
    /// Issue that was fixed by this change.
    Fixed,
    /// Pre-existing issue not introduced by this change.
    PreExisting,
    /// Issue suppressed by configuration.
    Suppressed,
    /// Issue outside the diff scope.
    OutsideDiff,
    /// Issue that couldn't be processed.
    Skipped,
}

impl Default for Disposition {
    fn default() -> (r: Self)
        ensures
            r == Disposition::New,
    {
        Disposition::New
    }
}

/// The disposition a lowercase word names, if any.
pub open spec fn disposition_of_word(w: Seq<char>) -> Option<Disposition> {
    if w == "new"@ {
        Some(Disposition::New)
    } else if w == "fixed"@ {
        Some(Disposition::Fixed)
    } else if w == "pre-existing"@ || w == "preexisting"@ || w == "pre_existent"@ {
        Some(Disposition::PreExisting)
    } else if w == "suppressed"@ {
        Some(Disposition::Suppressed)
    } else if w == "outside-diff"@ || w == "outside_diff"@ || w == "outside"@ {
        Some(Disposition::OutsideDiff)
    } else if w == "skipped"@ {
        Some(Disposition::Skipped)
    } else {
        None
    }
}

impl Disposition {
    /// The canonical lowercase name.
    pub open spec fn name(self) -> Seq<char> {
        match self {
            Disposition::New => "new"@,
            Disposition::Fixed => "fixed"@,
            Disposition::PreExisting => "pre-existing"@,
            Disposition::Suppressed => "suppressed"@,
            Disposition::OutsideDiff => "outside-diff"@,
            Disposition::Skipped => "skipped"@,
        }
    }

    /// Check if this disposition represents an actionable finding.
    ///
    /// Actionable findings are `New` and `Fixed`.
    pub fn is_actionable(&self) -> (r: bool)
        ensures
            r == (*self == Disposition::New || *self == Disposition::Fixed),
    {
        matches!(self, Disposition::New | Disposition::Fixed)
    }

    /// Check if this is a new issue.
    pub fn is_new(&self) -> (r: bool)
        ensures
            r == (*self == Disposition::New),
    {
        matches!(self, Disposition::New)
    }

    /// Check if this is a fixed issue.
    pub fn is_fixed(&self) -> (r: bool)
        ensures
            r == (*self == Disposition::Fixed),
    {
        matches!(self, Disposition::Fixed)
    }

    /// Check if this should be included in reports (all but `Suppressed` and `Skipped`).
    pub fn is_reportable(&self) -> (r: bool)
        ensures
            r == !(*self == Disposition::Suppressed || *self == Disposition::Skipped),
    {
        !matches!(self, Disposition::Suppressed | Disposition::Skipped)
    }

    /// Check if this counts toward failure threshold.
    pub fn counts_toward_failure(&self) -> (r: bool)
        ensures
            r == (*self == Disposition::New),
    {
        matches!(self, Disposition::New)
    }

    /// Get a string representation.
    pub fn as_str(&self) -> (s: &'static str)
        ensures
            s@ == self.name(),
    {
        match self {
            Disposition::New => "new",
            Disposition::Fixed => "fixed",
            Disposition::PreExisting => "pre-existing",
            Disposition::Suppressed => "suppressed",
            Disposition::OutsideDiff => "outside-diff",
            Disposition::Skipped => "skipped",
        }
    }

    /// The canonical name as a `String`.
    pub fn to_string(&self) -> (s: String)
        ensures
            s@ == self.name(),
    {
        to_string(self.as_str())
    }

    /// Get an icon for display.
    pub fn icon(&self) -> (s: &'static str)
        ensures
            s@ == match *self {
                Disposition::New => "🆕"@,
                Disposition::Fixed => "✅"@,
                Disposition::PreExisting => "⏳"@,
                Disposition::Suppressed => "🔇"@,
                Disposition::OutsideDiff => "📍"@,
                Disposition::Skipped => "⏭️"@,
            },
    {
        match self {
            Disposition::New => "🆕",
            Disposition::Fixed => "✅",
            Disposition::PreExisting => "⏳",
            Disposition::Suppressed => "🔇",
            Disposition::OutsideDiff => "📍",
            Disposition::Skipped => "⏭️",
        }
    }

    /// Get a human-readable label.
    pub fn label(&self) -> (s: &'static str)
        ensures
            s@ == match *self {
                Disposition::New => "New Issue"@,
                Disposition::Fixed => "Fixed Issue"@,
                Disposition::PreExisting => "Pre-existing Issue"@,
                Disposition::Suppressed => "Suppressed Issue"@,
                Disposition::OutsideDiff => "Outside Diff Scope"@,
                Disposition::Skipped => "Skipped"@,
            },
    {
        match self {
            Disposition::New => "New Issue",
            Disposition::Fixed => "Fixed Issue",
            Disposition::PreExisting => "Pre-existing Issue",
            Disposition::Suppressed => "Suppressed Issue",
            Disposition::OutsideDiff => "Outside Diff Scope",
            Disposition::Skipped => "Skipped",
        }
    }

    /// Parse from a string, ignoring case.
    pub fn parse(s: &str) -> (r: Result<Self, DispositionParseError>)
        ensures
            r is Ok <==> disposition_of_word(lowercase(s@)) is Some,
            r matches Ok(d) ==> disposition_of_word(lowercase(s@)) == Some(d),
            r matches Err(e) ==> e.input_view() == s@,
            all_ascii(s@) ==> match r {
                Ok(d) => disposition_of_word(ascii_lower(s@)) == Some(d),
                Err(_) => disposition_of_word(ascii_lower(s@)) is None,
            },
    {
        let low = to_lowercase(s);
        let w = chars_of(low.as_str());
        if eq_str(&w, "new") {
            Ok(Disposition::New)
        } else if eq_str(&w, "fixed") {
            Ok(Disposition::Fixed)
        } else if eq_str(&w, "pre-existing") || eq_str(&w, "preexisting") || eq_str(
            &w,
            "pre_existent",
        ) {
            Ok(Disposition::PreExisting)
        } else if eq_str(&w, "suppressed") {
            Ok(Disposition::Suppressed)
        } else if eq_str(&w, "outside-diff") || eq_str(&w, "outside_diff") || eq_str(
            &w,
            "outside",
        ) {
            Ok(Disposition::OutsideDiff)
        } else if eq_str(&w, "skipped") {
            Ok(Disposition::Skipped)
        } else {
            Err(DispositionParseError::new(s))
        }
    }
}

impl std::str::FromStr for Disposition {
    type Err = DispositionParseError;

    fn from_str(s: &str) -> (r: Result<Self, Self::Err>)
        ensures
            r is Ok <==> disposition_of_word(lowercase(s@)) is Some,
            r matches Ok(d) ==> disposition_of_word(lowercase(s@)) == Some(d),
            r matches Err(e) ==> e.input_view() == s@,
            all_ascii(s@) ==> match r {
                Ok(d) => disposition_of_word(ascii_lower(s@)) == Some(d),
                Err(_) => disposition_of_word(ascii_lower(s@)) is None,
            },
    {
        Self::parse(s)
    }
}

/// Error when parsing a disposition.
#[derive(Clone, Debug)]
pub struct DispositionParseError {
    input: String,
}

impl DispositionParseError {
    /// The input that was not recognised.
    pub closed spec fn input_view(&self) -> Seq<char> {
        self.input@
    }

    /// Create a new parse error.
    pub fn new(input: &str) -> (r: Self)
        ensures
            r.input_view() == input@,
    {
        DispositionParseError { input: to_string(input) }
    }

    /// Get the unknown input that caused the error.
    pub fn unknown_input(&self) -> (r: &str)
        ensures
            r@ == self.input_view(),
    {
        self.input.as_str()
    }

    /// The message `Unknown disposition: '{input}'`.
    pub fn to_string(&self) -> (s: String)
        ensures
            s@ == "Unknown disposition: '"@ + self.input_view() + "'"@,
    {
        let mut s = String::new();
        push_str(&mut s, "Unknown disposition: '");
        push_str(&mut s, self.input.as_str());
        push_str(&mut s, "'");
        assert(s@ =~= "Unknown disposition: '"@ + self.input@ + "'"@);
        s
    }
}

/// A reason for a disposition.
#[derive(Clone, Debug, PartialEq, Eq)]
pub enum DispositionReason {
    /// Matched a suppression rule.
    SuppressedByRule(String),
    /// Outside the diff hunks.
    OutsideDiffHunks,
    /// On a generated file.
    GeneratedFile,
    /// On a vendor/third-party file.
    VendorFile,
    /// No span information available.
    NoSpanInfo,
    /// Custom reason.
    Custom(String),
}

impl DispositionReason {
    /// The description text.
    pub open spec fn describe(self) -> Seq<char> {
        match self {
            DispositionReason::SuppressedByRule(rule) => "Suppressed by rule: "@ + rule@,
            DispositionReason::OutsideDiffHunks => "Outside diff hunks"@,
            DispositionReason::GeneratedFile => "Generated file"@,
            DispositionReason::VendorFile => "Vendor/third-party file"@,
            DispositionReason::NoSpanInfo => "No span information"@,
            DispositionReason::Custom(reason) => reason@,
        }
    }

    /// Create a suppression rule reason.
    pub fn suppressed_by(rule: &str) -> (r: Self)
        ensures
            r matches DispositionReason::SuppressedByRule(x) && x@ == rule@,
    {
        DispositionReason::SuppressedByRule(to_string(rule))
    }

    /// Create a custom reason.
    pub fn custom(reason: &str) -> (r: Self)
        ensures
            r matches DispositionReason::Custom(x) && x@ == reason@,
    {
        DispositionReason::Custom(to_string(reason))
    }

    /// Get a description of the reason.
    pub fn description(&self) -> (s: String)
        ensures
            s@ == self.describe(),
    {
        match self {
            DispositionReason::SuppressedByRule(rule) => {
                let mut s = String::new();
                push_str(&mut s, "Suppressed by rule: ");
                push_str(&mut s, rule.as_str());
                assert(s@ =~= self.describe());
                s
            },
            DispositionReason::OutsideDiffHunks => to_string("Outside diff hunks"),
            DispositionReason::GeneratedFile => to_string("Generated file"),
            DispositionReason::VendorFile => to_string("Vendor/third-party file"),
            DispositionReason::NoSpanInfo => to_string("No span information"),
            DispositionReason::Custom(reason) => to_string(reason.as_str()),
        }
    }

    /// The description (the text shown for this reason).
    pub fn to_string(&self) -> (s: String)
        ensures
            s@ == self.describe(),
    {
        self.description()
    }
}

/// A disposition with an optional reason.
#[derive(Clone, Debug, PartialEq, Eq)]
pub struct DispositionWithReason {
    /// The disposition.
    pub disposition: Disposition,
    /// The reason (if any).
    pub reason: Option<DispositionReason>,
}

impl DispositionWithReason {
    /// The displayed text: the disposition's name, then ` ({reason})` when there is one.
    pub open spec fn display(self) -> Seq<char> {
        match self.reason {
            Some(r) => self.disposition.name() + " ("@ + r.describe() + ")"@,
            None => self.disposition.name(),
        }
    }

    /// Create a new disposition without a reason.
    pub fn new(disposition: Disposition) -> (r: Self)
        ensures
            r.disposition == disposition,
            r.reason is None,
    {
        DispositionWithReason { disposition, reason: None }
    }

    /// Create a disposition with a reason.
    pub fn with_reason(disposition: Disposition, reason: DispositionReason) -> (r: Self)
        ensures
            r.disposition == disposition,
            r.reason == Some(reason),
    {
        DispositionWithReason { disposition, reason: Some(reason) }
    }

    /// Create a new issue disposition.
    pub fn new_issue() -> (r: Self)
        ensures
            r.disposition == Disposition::New,
            r.reason is None,
    {
        Self::new(Disposition::New)
    }

    /// Create a fixed issue disposition.
    pub fn fixed() -> (r: Self)
        ensures
            r.disposition == Disposition::Fixed,
            r.reason is None,
    {
        Self::new(Disposition::Fixed)
    }

    /// Create a pre-existing issue disposition.
    pub fn pre_existing() -> (r: Self)
        ensures
            r.disposition == Disposition::PreExisting,
            r.reason is None,
    {
        Self::new(Disposition::PreExisting)
    }

    /// Create a suppressed disposition with reason.
    pub fn suppressed(rule: &str) -> (r: Self)
        ensures
            r.disposition == Disposition::Suppressed,
            r.reason matches Some(DispositionReason::SuppressedByRule(x)) && x@ == rule@,
    {
        Self::with_reason(Disposition::Suppressed, DispositionReason::suppressed_by(rule))
    }

    /// Create an outside-diff disposition.
    pub fn outside_diff() -> (r: Self)
        ensures
            r.disposition == Disposition::OutsideDiff,
            r.reason == Some(DispositionReason::OutsideDiffHunks),
    {
        Self::with_reason(Disposition::OutsideDiff, DispositionReason::OutsideDiffHunks)
    }

    /// Get the disposition.
    pub fn as_disposition(&self) -> (r: Disposition)
        ensures
            r == self.disposition,
    {
        self.disposition
    }

    /// Check if this has a reason.
    pub fn has_reason(&self) -> (r: bool)
        ensures
            r == self.reason is Some,
    {
        self.reason.is_some()
    }

    /// The displayed text.
    pub fn to_string(&self) -> (s: String)
        ensures
            s@ == self.display(),
    {
        let mut s = self.disposition.to_string();
        match &self.reason {
            Some(r) => {
                push_str(&mut s, " (");
                let d = r.description();
                push_str(&mut s, d.as_str());
                push_str(&mut s, ")");
                assert(s@ =~= self.display());
            },
            None => {},
        }
        s
    }
}

impl From<Disposition> for DispositionWithReason {
    fn from(disposition: Disposition) -> (r: Self) {
        Self::new(disposition)
    }
}

impl vstd::std_specs::convert::FromSpecImpl<Disposition> for DispositionWithReason {
    open spec fn obeys_from_spec() -> bool {
        true
    }

    open spec fn from_spec(disposition: Disposition) -> DispositionWithReason {
        DispositionWithReason { disposition, reason: None }
    }
}

/// Parsing gives back every disposition from its canonical name, in any case
/// for which lowercasing returns the name itself.
pub proof fn law_parse_inverts_name(d: Disposition)
    ensures
        disposition_of_word(d.name()) == Some(d),
{
    reveal_strlit("new");
    reveal_strlit("fixed");
    reveal_strlit("pre-existing");
    reveal_strlit("preexisting");
    reveal_strlit("pre_existent");
    reveal_strlit("suppressed");
    reveal_strlit("outside-diff");
    reveal_strlit("outside_diff");
    reveal_strlit("outside");
    reveal_strlit("skipped");
    match d {
        Disposition::New => {
            assert(disposition_of_word("new"@) == Some(Disposition::New));
        },
        Disposition::Fixed => {
            assert("fixed"@.len() != "new"@.len());
            assert(disposition_of_word("fixed"@) == Some(Disposition::Fixed));
        },
        Disposition::PreExisting => {
            assert("pre-existing"@.len() != "new"@.len());
            assert("pre-existing"@.len() != "fixed"@.len());
            assert(disposition_of_word("pre-existing"@) == Some(Disposition::PreExisting));
        },
        Disposition::Suppressed => {
            assert("suppressed"@[0] != "preexisting"@[0]);
            assert(disposition_of_word("suppressed"@) == Some(Disposition::Suppressed));
        },
        Disposition::OutsideDiff => {
            assert("outside-diff"@[0] != "pre-existing"@[0]);
            assert("outside-diff"@[0] != "pre_existent"@[0]);
            assert(disposition_of_word("outside-diff"@) == Some(Disposition::OutsideDiff));
        },
        Disposition::Skipped => {
            assert("skipped"@[0] != "outside"@[0]);
            assert("skipped"@.len() == 7 && "new"@.len() == 3 && "fixed"@.len() == 5);
            assert("pre-existing"@.len() == 12 && "preexisting"@.len() == 11);
            assert("pre_existent"@.len() == 12 && "suppressed"@.len() == 10);
            assert("outside-diff"@.len() == 12 && "outside_diff"@.len() == 12);
            assert(disposition_of_word("skipped"@) == Some(Disposition::Skipped));
        },
    }
}

/// The canonical names are plain ASCII.
proof fn lemma_name_ascii(d: Disposition)
    ensures
        all_ascii(d.name()),
{
    reveal_strlit("new");
    reveal_strlit("fixed");
    reveal_strlit("pre-existing");
    reveal_strlit("suppressed");
    reveal_strlit("outside-diff");
    reveal_strlit("skipped");
}

/// Parsing ignores ASCII case: every spelling of a canonical name whose
/// ASCII lowercase is the name (`NEW`, `Pre-Existing`, `outside-diff`, ...)
/// is all-ASCII and names that disposition, so `parse` gives it back.
pub proof fn law_parse_ignores_ascii_case(d: Disposition, s: Seq<char>)
    requires
        ascii_lower(s) == d.name(),
    ensures
        all_ascii(s),
        disposition_of_word(ascii_lower(s)) == Some(d),
{
    lemma_name_ascii(d);
    law_parse_inverts_name(d);
    assert forall|i: int| 0 <= i < s.len() implies (#[trigger] s[i] as u32) < 128 by {
        assert(ascii_lower(s)[i] == ascii_lower_char(s[i]));
        assert((d.name()[i] as u32) < 128);
    }
}

/// Parsing gives back every disposition from its canonical name written in
/// capitals (`NEW`, `PRE-EXISTING`, ...).
pub proof fn law_parse_accepts_uppercase_name(d: Disposition)
    ensures
        all_ascii(ascii_upper(d.name())),
        disposition_of_word(ascii_lower(ascii_upper(d.name()))) == Some(d),
{
    let n = d.name();
    lemma_name_has_no_capitals(d);
    assert forall|i: int| 0 <= i < n.len() implies ascii_lower(ascii_upper(n))[i] == n[i] by {
        let c = n[i];
        assert(ascii_upper(n)[i] == ascii_upper_char(c));
        if 'a' <= c && c <= 'z' {
            let u = ((c as u32) - 32) as char;
            assert((u as u32) == (c as u32) - 32);
            assert('A' <= u && u <= 'Z');
            assert((((u as u32) + 32) as char) == c);
        }
    }
    assert(ascii_lower(ascii_upper(n)) =~= n);
    law_parse_ignores_ascii_case(d, ascii_upper(n));
}

/// The canonical names hold no capital letters.
proof fn lemma_name_has_no_capitals(d: Disposition)
    ensures
        forall|i: int| 0 <= i < d.name().len() ==> !('A' <= #[trigger] d.name()[i] && d.name()[i] <= 'Z'),
{
    reveal_strlit("new");
    reveal_strlit("fixed");
    reveal_strlit("pre-existing");
    reveal_strlit("suppressed");
    reveal_strlit("outside-diff");
    reveal_strlit("skipped");
}

/// Only new findings count toward failure, and every such finding is actionable
/// and reportable.
pub proof fn law_failure_implies_actionable(d: Disposition)
    ensures
        (d == Disposition::New) ==> (d == Disposition::New || d == Disposition::Fixed),
        (d == Disposition::New) ==> !(d == Disposition::Suppressed || d == Disposition::Skipped),
{
}

} // verus!
