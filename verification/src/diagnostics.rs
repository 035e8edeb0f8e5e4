//! Cargo `--message-format=json` streams read into complete observations:
//! one per compiler message, with producer identity, raw and normalized
//! spans, children and suggestions, plus the stream's completion evidence.
use vstd::prelude::*;
use crate::text::{
    ascii_lower, ascii_lower_char, chars_of, decimal, has_prefix, line_bounds, lines, push_decimal, push_range, push_str, starts_with_at,
    string_of, string_of_range, to_string, trim, trim_bounds,
};
use crate::types::{repo_form, NormPath};
use crate::inventory::{copy_opt, text_eq, CargoTarget, ProducerUnit, ProducerView, TargetView};
use crate::json::{
    array_of, as_array, as_bool, as_text, as_u32, bool_of, deref, field, get_in, is_object, json_document,
    parse_json, str_of, strings_view, string_array, text_or, u32_of, JsonValue,
};

verus! {

/// The extended-length prefix `\\?\` of Windows paths.
pub open spec fn verbatim_prefix() -> Seq<char> {
    seq!['\\', '\\', '?', '\\']
}

/// `p` without a leading extended-length prefix.
pub open spec fn strip_verbatim(p: Seq<char>) -> Seq<char> {
    if has_prefix(p, verbatim_prefix()) {
        p.skip(4)
    } else {
        p
    }
}

/// `p` with every backslash turned into a forward slash.
pub open spec fn slashes_forward(p: Seq<char>) -> Seq<char> {
    p.map_values(|c: char| if c == '\\' { '/' } else { c })
}

/// `p` without any trailing slashes.
pub open spec fn trim_trailing_slashes(p: Seq<char>) -> Seq<char>
    decreases p.len(),
{
    if p.len() > 0 && p.last() == '/' {
        trim_trailing_slashes(p.drop_last())
    } else {
        p
    }
}

/// Whether the second byte of `p`'s UTF-8 text is a colon (a drive letter
/// such as `C:`): the first character is ASCII and the second is `:`.
pub open spec fn has_drive(p: Seq<char>) -> bool {
    p.len() >= 2 && (p[0] as u32) < 128 && p[1] == ':'
}

/// A Cargo-reported path made comparable across checkouts: the
/// extended-length prefix dropped, backslashes turned forward, and, under a
/// known repository root, made relative to that root (case-insensitively when
/// the root has a drive letter) and put in repository form.
pub open spec fn producer_path_form(raw: Seq<char>, root: Option<Seq<char>>) -> Seq<char> {
    let rn = slashes_forward(strip_verbatim(raw));
    match root {
        None => rn,
        Some(r) => {
            let tn = slashes_forward(strip_verbatim(r));
            let prefix = trim_trailing_slashes(tn).push('/');
            let drive = has_drive(tn);
            let craw = if drive {
                ascii_lower(rn)
            } else {
                rn
            };
            let croot = if drive {
                ascii_lower(prefix)
            } else {
                prefix
            };
            if has_prefix(craw, croot) {
                repo_form(rn.skip(croot.len() as int))
            } else {
                rn
            }
        },
    }
}

/// Index of the last `c` in `p`, or -1.
pub open spec fn last_index(p: Seq<char>, c: char) -> int
    decreases p.len(),
{
    if p.len() == 0 {
        -1
    } else if p.last() == c {
        p.len() - 1
    } else {
        last_index(p.drop_last(), c)
    }
}

proof fn lemma_last_index(p: Seq<char>, c: char)
    ensures
        -1 <= last_index(p, c) < p.len(),
        last_index(p, c) >= 0 ==> p[last_index(p, c)] == c,
        forall|k: int| last_index(p, c) < k < p.len() ==> p[k] != c,
    decreases p.len(),
{
    if p.len() > 0 && p.last() != c {
        lemma_last_index(p.drop_last(), c);
        assert forall|k: int| last_index(p, c) < k < p.len() implies p[k] != c by {
            if k < p.len() - 1 {
                assert(p.drop_last()[k] == p[k]);
            }
        }
    }
}

/// The text of the `path+file://` package-id scheme.
pub open spec fn path_file_scheme() -> Seq<char> {
    seq!['p', 'a', 't', 'h', '+', 'f', 'i', 'l', 'e', ':', '/', '/']
}

/// A Cargo package id made comparable across checkouts: under a known
/// repository root, a `path+file://` id keeps only what follows its last `#`.
pub open spec fn package_id_form(id: Seq<char>, rooted: bool) -> Seq<char> {
    if rooted && has_prefix(id, path_file_scheme()) && last_index(id, '#') >= 0 {
        path_file_scheme().push('#') + id.skip(last_index(id, '#') + 1)
    } else {
        id
    }
}

/// `v[lo..]` with backslashes turned forward.
fn forward_from(v: &Vec<char>, lo: usize) -> (r: Vec<char>)
    requires
        lo <= v.len(),
    ensures
        r@ == slashes_forward(v@.skip(lo as int)),
{
    let mut r: Vec<char> = Vec::new();
    let mut i = lo;
    while i < v.len()
        invariant
            lo <= i <= v.len(),
            r@ == slashes_forward(v@.subrange(lo as int, i as int)),
        decreases v.len() - i,
    {
        r.push(if v[i] == '\\' { '/' } else { v[i] });
        i = i + 1;
        assert(r@ =~= slashes_forward(v@.subrange(lo as int, i as int)));
    }
    assert(v@.subrange(lo as int, v.len() as int) =~= v@.skip(lo as int));
    r
}

/// The ASCII lowercase of one character.
fn lower_ascii(c: char) -> (r: char)
    ensures
        r == ascii_lower_char(c),
{
    if 'A' <= c && c <= 'Z' {
        let b: u8 = (c as u8) + 32;
        b as char
    } else {
        c
    }
}

/// `v`, ASCII-lowercased when `lower` holds.
fn lowered_if(v: &Vec<char>, lower: bool) -> (r: Vec<char>)
    ensures
        r@ == (if lower {
            ascii_lower(v@)
        } else {
            v@
        }),
{
    let mut r: Vec<char> = Vec::new();
    let mut i: usize = 0;
    while i < v.len()
        invariant
            i <= v.len(),
            r@ == (if lower {
                ascii_lower(v@.take(i as int))
            } else {
                v@.take(i as int)
            }),
        decreases v.len() - i,
    {
        r.push(if lower { lower_ascii(v[i]) } else { v[i] });
        i = i + 1;
        assert(r@ =~= (if lower {
            ascii_lower(v@.take(i as int))
        } else {
            v@.take(i as int)
        }));
    }
    assert(v@.take(v.len() as int) =~= v@);
    r
}

/// Where `v` starts without an extended-length prefix.
fn verbatim_end(v: &Vec<char>) -> (r: usize)
    ensures
        r <= v.len(),
        v@.skip(r as int) == strip_verbatim(v@),
{
    let p = vec!['\\', '\\', '?', '\\'];
    assert(p@ =~= verbatim_prefix());
    assert(v@.subrange(0, v.len() as int) =~= v@);
    if starts_with_at(v, 0, v.len(), &p) {
        4
    } else {
        assert(v@.skip(0) =~= v@);
        0
    }
}

/// `s` without an extended-length prefix, backslashes turned forward.
fn forward_chars(s: &str) -> (r: Vec<char>)
    ensures
        r@ == slashes_forward(strip_verbatim(s@)),
{
    let v = chars_of(s);
    let vs = verbatim_end(&v);
    forward_from(&v, vs)
}

/// `tn` without trailing slashes, then one slash.
fn root_prefix(tn: &Vec<char>) -> (r: Vec<char>)
    ensures
        r@ == trim_trailing_slashes(tn@).push('/'),
{
    let mut e = tn.len();
    assert(tn@.take(e as int) =~= tn@);
    while e > 0 && tn[e - 1] == '/'
        invariant
            e <= tn.len(),
            trim_trailing_slashes(tn@) == trim_trailing_slashes(tn@.take(e as int)),
        decreases e,
    {
        assert(tn@.take(e as int).drop_last() =~= tn@.take(e - 1));
        e = e - 1;
    }
    assert(trim_trailing_slashes(tn@.take(e as int)) == tn@.take(e as int));
    let mut prefix: Vec<char> = Vec::new();
    let mut i: usize = 0;
    while i < e
        invariant
            i <= e <= tn.len(),
            prefix@ == tn@.take(i as int),
        decreases e - i,
    {
        prefix.push(tn[i]);
        i = i + 1;
        assert(prefix@ =~= tn@.take(i as int));
    }
    prefix.push('/');
    prefix
}

/// Whether `tn` starts with a drive letter (see [`has_drive`]).
fn drive_of(tn: &Vec<char>) -> (r: bool)
    ensures
        r == has_drive(tn@),
{
    tn.len() >= 2 && (tn[0] as u32) < 128 && tn[1] == ':'
}

/// The part of [`producer_path_form`] under a known root `tn`.
fn relative_to_root(rn: &Vec<char>, tn: &Vec<char>) -> (r: String)
    ensures
        ({
            let prefix = trim_trailing_slashes(tn@).push('/');
            let drive = has_drive(tn@);
            let craw = if drive {
                ascii_lower(rn@)
            } else {
                rn@
            };
            let croot = if drive {
                ascii_lower(prefix)
            } else {
                prefix
            };
            r@ == if has_prefix(craw, croot) {
                repo_form(rn@.skip(croot.len() as int))
            } else {
                rn@
            }
        }),
{
    let prefix = root_prefix(tn);
    let drive = drive_of(tn);
    let craw = lowered_if(rn, drive);
    let croot = lowered_if(&prefix, drive);
    assert(craw@.subrange(0, craw.len() as int) =~= craw@);
    if starts_with_at(&craw, 0, craw.len(), &croot) {
        let rel = string_of_range(rn, croot.len(), rn.len());
        assert(rn@.subrange(croot.len() as int, rn.len() as int) =~= rn@.skip(croot.len() as int));
        NormPath::from_repo_path(rel.as_str()).to_string()
    } else {
        string_of(rn)
    }
}

/// A Cargo-reported path made comparable across checkouts; see
/// [`producer_path_form`].
pub fn canonical_producer_path(raw: &str, root: Option<&str>) -> (r: String)
    ensures
        r@ == producer_path_form(
            raw@,
            match root {
                Some(t) => Some(t@),
                None => None,
            },
        ),
{
    let rn = forward_chars(raw);
    match root {
        None => string_of(&rn),
        Some(t) => {
            let tn = forward_chars(t);
            relative_to_root(&rn, &tn)
        },
    }
}

/// A Cargo package id made comparable across checkouts; see
/// [`package_id_form`].
pub fn canonical_package_id(id: &str, rooted: bool) -> (r: String)
    ensures
        r@ == package_id_form(id@, rooted),
{
    let v = chars_of(id);
    if !rooted {
        return to_string(id);
    }
    let scheme = vec!['p', 'a', 't', 'h', '+', 'f', 'i', 'l', 'e', ':', '/', '/'];
    assert(scheme@ =~= path_file_scheme());
    assert(v@.subrange(0, v.len() as int) =~= v@);
    if !starts_with_at(&v, 0, v.len(), &scheme) {
        return to_string(id);
    }
    let mut k = v.len();
    while k > 0 && v[k - 1] != '#'
        invariant
            k <= v.len(),
            last_index(v@, '#') == last_index(v@.take(k as int), '#'),
        decreases k,
    {
        assert(v@.take(k as int).drop_last() =~= v@.take(k - 1));
        k = k - 1;
    }
    if k == 0 {
        assert(v@.take(0) =~= Seq::<char>::empty());
        return to_string(id);
    }
    assert(v@.take(k as int).last() == '#');
    let mut out = String::new();
    push_str(&mut out, "path+file://#");
    proof {
        reveal_strlit("path+file://#");
        assert(out@ =~= path_file_scheme().push('#'));
    }
    push_range(&mut out, &v, k, v.len());
    assert(v@.subrange(k as int, v.len() as int) =~= v@.skip(k as int));
    out
}


/// A value as an optional value.
pub open spec fn m_view(m: &JsonValue) -> Option<JsonValue> {
    Some(*m)
}

/// A path that Cargo reports under a checkout's root maps to the repository
/// form of its part below the root, whatever the root is: the producer paths
/// of two checkouts of one repository agree. The root ends in neither slash,
/// and the reported path carries the extended-length prefix exactly when the
/// root does.
pub proof fn law_producer_path_independent_of_root(root: Seq<char>, rel: Seq<char>)
    requires
        root.len() == 0 || (root.last() != '/' && root.last() != '\\'),
        has_prefix(root, verbatim_prefix()) == has_prefix(root + seq!['/'] + rel, verbatim_prefix()),
    ensures
        producer_path_form(root + seq!['/'] + rel, Some(root)) == repo_form(slashes_forward(rel)),
{
    let raw = root + seq!['/'] + rel;
    let sr = strip_verbatim(root);
    if has_prefix(root, verbatim_prefix()) {
        assert(strip_verbatim(raw) =~= sr + seq!['/'] + rel);
    } else {
        assert(strip_verbatim(raw) =~= sr + seq!['/'] + rel);
    }
    let tn = slashes_forward(sr);
    let fr = slashes_forward(rel);
    let rn = slashes_forward(strip_verbatim(raw));
    assert(rn =~= tn + seq!['/'] + fr);
    if tn.len() > 0 {
        assert(sr.len() > 0 && sr.last() == root.last());
        assert(tn.last() == (if sr.last() == '\\' { '/' } else { sr.last() }));
    }
    assert(trim_trailing_slashes(tn) == tn);
    let prefix = tn.push('/');
    assert(rn =~= prefix + fr);
    assert(ascii_lower(rn) =~= ascii_lower(prefix) + ascii_lower(fr));
    assert(ascii_lower(rn).subrange(0, prefix.len() as int) =~= ascii_lower(prefix));
    assert(rn.subrange(0, prefix.len() as int) =~= prefix);
    assert(rn.skip(prefix.len() as int) =~= fr);
}

/// Under a known root, the `path+file://` package ids of one package in two
/// checkouts agree: only the part after the last `#` is kept.
pub proof fn law_package_id_independent_of_root(location: Seq<char>, package: Seq<char>)
    requires
        !package.contains('#'),
    ensures
        package_id_form(path_file_scheme() + location + seq!['#'] + package, true)
            == path_file_scheme().push('#') + package,
{
    let id = path_file_scheme() + location + seq!['#'] + package;
    let k = id.len() - package.len() - 1;
    assert(id[k] == '#');
    lemma_last_index(id, '#');
    assert forall|j: int| k < j < id.len() implies id[j] != '#' by {
        assert(id[j] == package[j - k - 1]);
    }
    assert(last_index(id, '#') == k);
    assert(id.subrange(0, path_file_scheme().len() as int) =~= path_file_scheme());
    assert(id.skip(k + 1) =~= package);
}

/// The optional root text as a plain value.
pub open spec fn root_view(root: Option<&str>) -> Option<Seq<char>> {
    match root {
        Some(t) => Some(t@),
        None => None,
    }
}

/// The severity level of a diagnostic message.
#[derive(Clone, Debug, PartialEq, Eq)]
pub enum DiagnosticLevel {
    /// An error: compilation fails.
    Error,
    /// A warning: compilation succeeds but the message should be reviewed.
    Warning,
    /// A note: more information about a diagnostic.
    Note,
    /// A help message: a suggested fix or improvement.
    Help,
    /// Any other level, by its name.
    Other(String),
}

/// A [`DiagnosticLevel`] as a plain value.
pub enum LevelView {
    Error,
    Warning,
    Note,
    Help,
    Other(Seq<char>),
}

impl DeepView for DiagnosticLevel {
    type V = LevelView;

    open spec fn deep_view(&self) -> LevelView {
        match self {
            DiagnosticLevel::Error => LevelView::Error,
            DiagnosticLevel::Warning => LevelView::Warning,
            DiagnosticLevel::Note => LevelView::Note,
            DiagnosticLevel::Help => LevelView::Help,
            DiagnosticLevel::Other(s) => LevelView::Other(s@),
        }
    }
}

/// The level named by a rustc level string.
pub open spec fn level_of(raw: Seq<char>) -> LevelView {
    if raw == "error"@ {
        LevelView::Error
    } else if raw == "warning"@ {
        LevelView::Warning
    } else if raw == "note"@ {
        LevelView::Note
    } else if raw == "help"@ {
        LevelView::Help
    } else {
        LevelView::Other(raw)
    }
}

/// The level named by a rustc level string.
pub fn parse_level(raw: &str) -> (l: DiagnosticLevel)
    ensures
        l.deep_view() == level_of(raw@),
{
    if text_eq(raw, "error") {
        DiagnosticLevel::Error
    } else if text_eq(raw, "warning") {
        DiagnosticLevel::Warning
    } else if text_eq(raw, "note") {
        DiagnosticLevel::Note
    } else if text_eq(raw, "help") {
        DiagnosticLevel::Help
    } else {
        DiagnosticLevel::Other(to_string(raw))
    }
}

impl DiagnosticLevel {
    /// A copy of this level.
    pub fn copy(&self) -> (r: Self)
        ensures
            r.deep_view() == self.deep_view(),
    {
        match self {
            DiagnosticLevel::Error => DiagnosticLevel::Error,
            DiagnosticLevel::Warning => DiagnosticLevel::Warning,
            DiagnosticLevel::Note => DiagnosticLevel::Note,
            DiagnosticLevel::Help => DiagnosticLevel::Help,
            DiagnosticLevel::Other(s) => DiagnosticLevel::Other(s.clone()),
        }
    }
}

/// A source location referenced by a diagnostic.
#[derive(Clone, Debug, PartialEq, Eq)]
pub struct Span {
    /// The file the span is in.
    pub file: NormPath,
    /// The first line (1-based).
    pub line_start: u32,
    /// The last line (1-based, inclusive).
    pub line_end: u32,
    /// The first column (1-based), if known.
    pub col_start: Option<u32>,
    /// The column after the span (1-based), if known.
    pub col_end: Option<u32>,
    /// Whether this is the primary span of its diagnostic.
    pub is_primary: bool,
}

/// A [`Span`] as plain values.
pub struct SpanView {
    pub file: Seq<char>,
    pub line_start: u32,
    pub line_end: u32,
    pub col_start: Option<u32>,
    pub col_end: Option<u32>,
    pub is_primary: bool,
}

impl DeepView for Span {
    type V = SpanView;

    open spec fn deep_view(&self) -> SpanView {
        SpanView {
            file: self.file@,
            line_start: self.line_start,
            line_end: self.line_end,
            col_start: self.col_start,
            col_end: self.col_end,
            is_primary: self.is_primary,
        }
    }
}

impl Span {
    /// A copy of this span.
    pub fn copy(&self) -> (r: Self)
        ensures
            r.deep_view() == self.deep_view(),
    {
        Span {
            file: self.file.duplicate(),
            line_start: self.line_start,
            line_end: self.line_end,
            col_start: self.col_start,
            col_end: self.col_end,
            is_primary: self.is_primary,
        }
    }
}

/// A single compiler diagnostic.
#[derive(Clone, Debug, PartialEq, Eq)]
pub struct Diagnostic {
    pub level: DiagnosticLevel,
    pub code_raw: Option<String>,
    pub message: String,
    pub spans: Vec<Span>,
    pub rendered: Option<String>,
}

/// A [`Diagnostic`] as plain values.
pub struct DiagnosticView {
    pub level: LevelView,
    pub code_raw: Option<Seq<char>>,
    pub message: Seq<char>,
    pub spans: Seq<SpanView>,
    pub rendered: Option<Seq<char>>,
}

impl DeepView for Diagnostic {
    type V = DiagnosticView;

    open spec fn deep_view(&self) -> DiagnosticView {
        DiagnosticView {
            level: self.level.deep_view(),
            code_raw: self.code_raw.deep_view(),
            message: self.message@,
            spans: self.spans.deep_view(),
            rendered: self.rendered.deep_view(),
        }
    }
}

/// Copies of a list of spans.
pub fn copy_spans(v: &Vec<Span>) -> (r: Vec<Span>)
    ensures
        r.deep_view() == v.deep_view(),
{
    let mut r: Vec<Span> = Vec::new();
    let mut i: usize = 0;
    while i < v.len()
        invariant
            i <= v.len(),
            r.len() == i,
            forall|k: int| 0 <= k < i ==> (#[trigger] r@[k]).deep_view() == v@[k].deep_view(),
        decreases v.len() - i,
    {
        r.push(v[i].copy());
        i = i + 1;
    }
    assert(r.deep_view() =~= v.deep_view());
    r
}

impl Diagnostic {
    /// A copy of this diagnostic.
    pub fn copy(&self) -> (r: Self)
        ensures
            r.deep_view() == self.deep_view(),
    {
        Diagnostic {
            level: self.level.copy(),
            code_raw: copy_opt(&self.code_raw),
            message: self.message.clone(),
            spans: copy_spans(&self.spans),
            rendered: copy_opt(&self.rendered),
        }
    }
}

/// A source span with the raw values Cargo reported beside its normalized form.
#[derive(Clone, Debug, PartialEq, Eq)]
pub struct ObservationSpan {
    pub raw_file_name: Option<String>,
    pub raw_line_start: Option<u32>,
    pub raw_line_end: Option<u32>,
    pub raw_column_start: Option<u32>,
    pub raw_column_end: Option<u32>,
    pub normalized: Option<Span>,
    pub is_primary: bool,
}

/// A suggestion carried by a child diagnostic.
#[derive(Clone, Debug, PartialEq, Eq)]
pub struct DiagnosticSuggestion {
    pub file_name: Option<String>,
    pub line_start: Option<u32>,
    pub line_end: Option<u32>,
    pub replacement: Option<String>,
    pub applicability: Option<String>,
}

/// A [`DiagnosticSuggestion`] as plain values.
pub struct SuggestionView {
    pub file_name: Option<Seq<char>>,
    pub line_start: Option<u32>,
    pub line_end: Option<u32>,
    pub replacement: Option<Seq<char>>,
    pub applicability: Option<Seq<char>>,
}

impl DeepView for DiagnosticSuggestion {
    type V = SuggestionView;

    open spec fn deep_view(&self) -> SuggestionView {
        SuggestionView {
            file_name: self.file_name.deep_view(),
            line_start: self.line_start,
            line_end: self.line_end,
            replacement: self.replacement.deep_view(),
            applicability: self.applicability.deep_view(),
        }
    }
}

/// A child note, help message or nested diagnostic.
#[derive(Clone, Debug, PartialEq, Eq)]
pub struct DiagnosticChild {
    pub raw_level: String,
    pub level: DiagnosticLevel,
    pub message: String,
    pub rendered: Option<String>,
    pub spans: Vec<ObservationSpan>,
    pub suggestions: Vec<DiagnosticSuggestion>,
}

/// One Cargo compiler-message observation, before any filtering or policy.
#[derive(Clone, Debug, PartialEq, Eq)]
pub struct DiagnosticObservation {
    pub producer: ProducerUnit,
    pub raw_level: String,
    pub raw_code: Option<String>,
    pub message: String,
    pub rendered: Option<String>,
    pub spans: Vec<ObservationSpan>,
    pub children: Vec<DiagnosticChild>,
    pub diagnostic: Diagnostic,
}

/// The string of an optional value, or `d` where it is no string.
pub open spec fn text_or_else(v: Option<JsonValue>, d: Seq<char>) -> Seq<char> {
    match str_of(v) {
        Some(s) => s,
        None => d,
    }
}

/// The members of an optional array value; none where it is no array.
pub open spec fn members(v: Option<JsonValue>) -> Seq<JsonValue> {
    match array_of(v) {
        Some(a) => a,
        None => seq![],
    }
}

/// The raw values of one span object are read as `u32` (where they fit),
/// strings and a primary flag that is `false` unless the object says `true`.
pub open spec fn raw_span_ok(s: ObservationSpan, j: JsonValue) -> bool {
    let v = Some(j);
    &&& s.raw_file_name.deep_view() == str_of(field(v, "file_name"@))
    &&& s.raw_line_start == u32_of(field(v, "line_start"@))
    &&& s.raw_line_end == u32_of(field(v, "line_end"@))
    &&& s.raw_column_start == u32_of(field(v, "column_start"@))
    &&& s.raw_column_end == u32_of(field(v, "column_end"@))
    &&& s.is_primary == (bool_of(field(v, "is_primary"@)) == Some(true))
}

/// The normalized span at `file` for a span with a positive first line: the
/// last line is the reported one where it is positive, never before the first.
pub open spec fn span_at(file: Seq<char>, s: ObservationSpan) -> SpanView {
    let ls = s.raw_line_start->0;
    let le = match s.raw_line_end {
        Some(e) => if e > 0 {
            e
        } else {
            ls
        },
        None => ls,
    };
    SpanView {
        file,
        line_start: ls,
        line_end: if le > ls {
            le
        } else {
            ls
        },
        col_start: s.raw_column_start,
        col_end: s.raw_column_end,
        is_primary: s.is_primary,
    }
}

/// A span can be placed in the repository: a root is known, the file is
/// named and the first line is positive.
pub open spec fn placeable(s: ObservationSpan, root: Option<Seq<char>>) -> bool {
    &&& root is Some
    &&& s.raw_file_name is Some
    &&& s.raw_line_start matches Some(ls) && ls > 0
}

/// Whether a path may be absolute on some platform: it starts with a
/// separator or its second character is a colon.
pub open spec fn rooted_like(p: Seq<char>) -> bool {
    (p.len() > 0 && (p[0] == '/' || p[0] == '\\')) || (p.len() > 1 && p[1] == ':')
}

/// A relative path made of plain components: not empty, no trailing
/// separator, no backslash or colon, and no component that is empty or
/// starts with a dot (so neither `.` nor `..`).
pub open spec fn plain_relative(p: Seq<char>) -> bool {
    &&& p.len() > 0
    &&& p.last() != '/'
    &&& forall|i: int|
        0 <= i < p.len() ==> #[trigger] p[i] != '\\' && p[i] != ':' && ((i == 0 || p[i - 1] == '/')
            ==> p[i] != '.' && p[i] != '/')
}

/// `path` is `base`, a separator and a plain relative rest, where `base` is
/// a separator followed by plain components.
pub open spec fn under_plain_root(path: Seq<char>, base: Seq<char>) -> bool {
    &&& base.len() > 1
    &&& base[0] == '/'
    &&& plain_relative(base.subrange(1, base.len() as int))
    &&& path.len() > base.len() + 1
    &&& path.subrange(0, base.len() as int) == base
    &&& path[base.len() as int] == '/'
    &&& plain_relative(path.subrange(base.len() as int + 1, path.len() as int))
}

/// What follows `base` and its separator in `path`.
pub open spec fn rest_after(path: Seq<char>, base: Seq<char>) -> Seq<char> {
    path.subrange(base.len() as int + 1, path.len() as int)
}

/// `p` is the repository form of some path.
pub open spec fn in_repo_form(p: Seq<char>) -> bool {
    exists|x: Seq<char>| repo_form(x) == p
}

/// The file a span names in the repository, given the reported name and the
/// root: a relative name in repository form; a name under a plain root
/// without the root, unless the platform does not take it as absolute, when
/// the name itself is kept; any other absolute name by the platform's path
/// logic, in repository form.
pub open spec fn repo_file_ok(raw: Seq<char>, root: Seq<char>, f: Seq<char>) -> bool {
    if !rooted_like(raw) {
        f == repo_form(raw)
    } else if under_plain_root(raw, root) {
        f == repo_form(rest_after(raw, root)) || f == repo_form(raw)
    } else {
        in_repo_form(f)
    }
}

/// The normalized form of a span: absent unless the span is placeable and,
/// where the name may be absolute and does not lie under a plain root, the
/// platform places it under the root; otherwise it carries the file in
/// repository form and the reported lines and columns.
pub open spec fn normalized_ok(s: ObservationSpan, root: Option<Seq<char>>) -> bool {
    let raw = s.raw_file_name->0@;
    match s.normalized {
        None => !placeable(s, root) || (rooted_like(raw) && !under_plain_root(raw, root->0)),
        Some(n) => placeable(s, root) && n.deep_view() == span_at(n.file@, s) && repo_file_ok(
            raw,
            root->0,
            n.file@,
        ),
    }
}

/// `ss` are the spans read from the span objects `js`.
pub open spec fn spans_ok(ss: Seq<ObservationSpan>, js: Seq<JsonValue>, root: Option<Seq<char>>) -> bool {
    &&& ss.len() == js.len()
    &&& forall|i: int|
        0 <= i < ss.len() ==> raw_span_ok(#[trigger] ss[i], js[i]) && normalized_ok(ss[i], root)
}

/// The suggestion carried by one child span object, if it has a replacement
/// or an applicability.
pub open spec fn suggestion_of(j: JsonValue) -> Option<SuggestionView> {
    let v = Some(j);
    let replacement = str_of(field(v, "suggested_replacement"@));
    let applicability = str_of(field(v, "suggestion_applicability"@));
    if replacement is None && applicability is None {
        None
    } else {
        Some(
            SuggestionView {
                file_name: str_of(field(v, "file_name"@)),
                line_start: u32_of(field(v, "line_start"@)),
                line_end: u32_of(field(v, "line_end"@)),
                replacement,
                applicability,
            },
        )
    }
}

/// The suggestions of a list of span objects, in order.
pub open spec fn suggestions_in(a: Seq<JsonValue>) -> Seq<SuggestionView>
    decreases a.len(),
{
    if a.len() == 0 {
        seq![]
    } else {
        let rest = suggestions_in(a.drop_last());
        match suggestion_of(a.last()) {
            Some(x) => rest.push(x),
            None => rest,
        }
    }
}

/// A child read from its object: level (default `other`), message (default
/// empty), rendered text, spans and the suggestions among its spans.
pub open spec fn child_ok(c: DiagnosticChild, j: JsonValue, root: Option<Seq<char>>) -> bool {
    let v = Some(j);
    &&& c.raw_level@ == text_or_else(field(v, "level"@), "other"@)
    &&& c.level.deep_view() == level_of(c.raw_level@)
    &&& c.message@ == text_or_else(field(v, "message"@), Seq::empty())
    &&& c.rendered.deep_view() == str_of(field(v, "rendered"@))
    &&& spans_ok(c.spans@, members(field(v, "spans"@)), root)
    &&& c.suggestions.deep_view() == suggestions_in(members(field(v, "spans"@)))
}

/// The diagnostic form of an observed span: its reported lines (the first at
/// least 1, the last at least the first) at the repository form of its file.
pub open spec fn legacy_span_view(s: ObservationSpan) -> SpanView {
    let ls: u32 = match s.raw_line_start {
        Some(x) => if x >= 1 {
            x
        } else {
            1
        },
        None => 1,
    };
    let le: u32 = match s.raw_line_end {
        Some(x) => x,
        None => match s.raw_line_start {
            Some(x) => x,
            None => 0,
        },
    };
    SpanView {
        file: repo_form(
            match s.raw_file_name {
                Some(f) => f@,
                None => Seq::empty(),
            },
        ),
        line_start: ls,
        line_end: if le > ls {
            le
        } else {
            ls
        },
        col_start: s.raw_column_start,
        col_end: s.raw_column_end,
        is_primary: s.is_primary,
    }
}

/// The target of a producer, where the message carries a target object.
pub open spec fn target_view(t: Option<JsonValue>, root: Option<Seq<char>>) -> Option<TargetView> {
    if is_object(t) {
        Some(
            TargetView {
                name: str_of(field(t, "name"@)),
                kind: strings_view(field(t, "kind"@)),
                crate_types: strings_view(field(t, "crate_types"@)),
                src_path: match str_of(field(t, "src_path"@)) {
                    Some(p) => Some(producer_path_form(p, root)),
                    None => None,
                },
                edition: str_of(field(t, "edition"@)),
            },
        )
    } else {
        None
    }
}

/// The producer identity of a compiler message.
pub open spec fn producer_view(v: JsonValue, root: Option<Seq<char>>) -> ProducerView {
    let m = Some(v);
    ProducerView {
        package_id: match str_of(field(m, "package_id"@)) {
            Some(p) => Some(package_id_form(p, root is Some)),
            None => None,
        },
        manifest_path: match str_of(field(m, "manifest_path"@)) {
            Some(p) => Some(producer_path_form(p, root)),
            None => None,
        },
        target: target_view(field(m, "target"@), root),
        profile: str_of(field(field(m, "profile"@), "opt_level"@)),
    }
}

/// The observation read from the compiler message `v` whose `message`
/// member is `m`.
pub open spec fn observation_ok(
    o: DiagnosticObservation,
    v: JsonValue,
    m: JsonValue,
    root: Option<Seq<char>>,
) -> bool {
    let mm = Some(m);
    let kids = members(field(mm, "children"@));
    &&& o.producer.deep_view() == producer_view(v, root)
    &&& o.raw_level@ == text_or_else(field(mm, "level"@), "other"@)
    &&& o.raw_code.deep_view() == str_of(field(field(mm, "code"@), "code"@))
    &&& o.message@ == text_or_else(field(mm, "message"@), Seq::empty())
    &&& o.rendered.deep_view() == str_of(field(mm, "rendered"@))
    &&& spans_ok(o.spans@, members(field(mm, "spans"@)), root)
    &&& o.children.len() == kids.len()
    &&& forall|i: int| 0 <= i < kids.len() ==> child_ok(#[trigger] o.children@[i], kids[i], root)
    &&& o.diagnostic.deep_view() == diagnostic_of(m)
}

/// The diagnostic form of a span object: its reported lines (the first at
/// least 1, the last at least the first) at the repository form of its file.
pub open spec fn json_legacy_span(j: JsonValue) -> SpanView {
    let v = Some(j);
    let start = u32_of(field(v, "line_start"@));
    let ls: u32 = match start {
        Some(x) => if x >= 1 {
            x
        } else {
            1
        },
        None => 1,
    };
    let le: u32 = match u32_of(field(v, "line_end"@)) {
        Some(x) => x,
        None => match start {
            Some(x) => x,
            None => 0,
        },
    };
    SpanView {
        file: repo_form(text_or_else(field(v, "file_name"@), Seq::empty())),
        line_start: ls,
        line_end: if le > ls {
            le
        } else {
            ls
        },
        col_start: u32_of(field(v, "column_start"@)),
        col_end: u32_of(field(v, "column_end"@)),
        is_primary: bool_of(field(v, "is_primary"@)) == Some(true),
    }
}

/// The diagnostic of a compiler message's `message` member: its level
/// (default `other`), code, message (default empty), the diagnostic form of
/// each span and the rendered text.
pub open spec fn diagnostic_of(m: JsonValue) -> DiagnosticView {
    let mm = Some(m);
    DiagnosticView {
        level: level_of(text_or_else(field(mm, "level"@), "other"@)),
        code_raw: str_of(field(field(mm, "code"@), "code"@)),
        message: text_or_else(field(mm, "message"@), Seq::empty()),
        spans: members(field(mm, "spans"@)).map_values(|j: JsonValue| json_legacy_span(j)),
        rendered: str_of(field(mm, "rendered"@)),
    }
}


/// `std::path::Path::is_absolute` on `path`. Which paths are absolute
/// depends on the platform; on every platform a path is absolute only if it
/// starts with a separator or has a colon as its second character (a drive).
#[verifier::external_body]
fn path_is_absolute(path: &str) -> (r: bool)
    ensures
        r ==> rooted_like(path@),
{
    std::path::Path::new(path).is_absolute()
}

/// `std::path::Path::strip_prefix(path, base)`: the remainder of `path`
/// after the components of `base`, as text, or `None` where `base` is not a
/// prefix of `path` or the remainder is not valid text. The comparison goes
/// by path components, as the platform splits them. Stated: where `path` is
/// a root of plain components, a separator and a plain rest, the rest comes
/// back (every platform splits such text at `/` alike, and the remainder,
/// joined onto the base, gives the path). Other outcomes are left unsaid.
#[verifier::external_body]
fn path_strip_prefix(path: &str, base: &str) -> (r: Option<String>)
    ensures
        under_plain_root(path@, base@) ==> r.deep_view() == Some(rest_after(path@, base@)),
{
    match std::path::Path::new(path).strip_prefix(base) {
        Ok(rel) => match rel.to_str() {
            Some(t) => Some(t.to_string()),
            None => None,
        },
        Err(_) => None,
    }
}

/// The repository path of a reported file under a known root: an absolute
/// name is taken relative to the root (absent where it lies elsewhere), a
/// relative name is put in repository form.
fn repository_path(raw: Option<&str>, root: Option<&str>) -> (r: Option<NormPath>)
    ensures
        raw is None || root is None ==> r is None,
        match (raw, root) {
            (Some(f), Some(t)) => match r {
                Some(p) => repo_file_ok(f@, t@, p@),
                None => rooted_like(f@) && !under_plain_root(f@, t@),
            },
            _ => true,
        },
{
    match (raw, root) {
        (Some(f), Some(t)) => {
            if path_is_absolute(f) {
                match path_strip_prefix(f, t) {
                    Some(rel) => {
                        let p = NormPath::from_repo_path(rel.as_str());
                        assert(repo_form(rel@) == p@);
                        Some(p)
                    },
                    None => None,
                }
            } else {
                let p = NormPath::from_repo_path(f);
                assert(repo_form(f@) == p@);
                Some(p)
            }
        },
        _ => None,
    }
}

/// An optional `String` as an optional `&str`.
fn opt_str(s: &Option<String>) -> (r: Option<&str>)
    ensures
        match r {
            Some(t) => s matches Some(x) && t@ == x@,
            None => s is None,
        },
{
    match s {
        Some(x) => Some(x.as_str()),
        None => None,
    }
}

/// Reads one span object.
pub fn parse_span(j: &JsonValue, root: Option<&str>) -> (s: ObservationSpan)
    ensures
        raw_span_ok(s, *j),
        normalized_ok(s, root_view(root)),
{
    let raw_file_name = as_text(j.get("file_name"));
    let raw_line_start = as_u32(j.get("line_start"));
    let raw_line_end = as_u32(j.get("line_end"));
    let raw_column_start = as_u32(j.get("column_start"));
    let raw_column_end = as_u32(j.get("column_end"));
    let is_primary = match as_bool(j.get("is_primary")) {
        Some(b) => b,
        None => false,
    };
    let rp = repository_path(opt_str(&raw_file_name), root);
    let normalized = match (rp, raw_line_start) {
        (Some(file), Some(ls)) => {
            if ls > 0 {
                let le = match raw_line_end {
                    Some(e) => if e > 0 {
                        e
                    } else {
                        ls
                    },
                    None => ls,
                };
                Some(
                    Span {
                        file,
                        line_start: ls,
                        line_end: if le > ls {
                            le
                        } else {
                            ls
                        },
                        col_start: raw_column_start,
                        col_end: raw_column_end,
                        is_primary,
                    },
                )
            } else {
                None
            }
        },
        _ => None,
    };
    ObservationSpan {
        raw_file_name,
        raw_line_start,
        raw_line_end,
        raw_column_start,
        raw_column_end,
        normalized,
        is_primary,
    }
}

/// Reads the span objects of an optional array value.
pub fn parse_spans(v: Option<&JsonValue>, root: Option<&str>) -> (r: Vec<ObservationSpan>)
    ensures
        spans_ok(r@, members(deref(v)), root_view(root)),
{
    let mut out: Vec<ObservationSpan> = Vec::new();
    match as_array(v) {
        Some(a) => {
            let mut i: usize = 0;
            while i < a.len()
                invariant
                    i <= a.len(),
                    spans_ok(out@, a@.take(i as int), root_view(root)),
                decreases a.len() - i,
            {
                let sp = parse_span(&a[i], root);
                out.push(sp);
                i = i + 1;
                assert(spans_ok(out@, a@.take(i as int), root_view(root))) by {
                    assert forall|k: int| 0 <= k < out@.len() implies raw_span_ok(
                        #[trigger] out@[k],
                        a@.take(i as int)[k],
                    ) && normalized_ok(out@[k], root_view(root)) by {
                        if k < i - 1 {
                            assert(a@.take(i - 1)[k] == a@.take(i as int)[k]);
                        }
                    }
                }
            }
            assert(a@.take(a.len() as int) =~= a@);
        },
        None => {},
    }
    out
}

/// Reads the suggestion of one child span object, if it has one.
fn parse_suggestion(j: &JsonValue) -> (r: Option<DiagnosticSuggestion>)
    ensures
        match r {
            Some(x) => suggestion_of(*j) == Some(x.deep_view()),
            None => suggestion_of(*j) is None,
        },
{
    let replacement = as_text(j.get("suggested_replacement"));
    let applicability = as_text(j.get("suggestion_applicability"));
    if replacement.is_none() && applicability.is_none() {
        return None;
    }
    Some(
        DiagnosticSuggestion {
            file_name: as_text(j.get("file_name")),
            line_start: as_u32(j.get("line_start")),
            line_end: as_u32(j.get("line_end")),
            replacement,
            applicability,
        },
    )
}

/// Reads the suggestions among the span objects of an optional array value.
pub fn parse_suggestions(v: Option<&JsonValue>) -> (r: Vec<DiagnosticSuggestion>)
    ensures
        r.deep_view() == suggestions_in(members(deref(v))),
{
    let mut out: Vec<DiagnosticSuggestion> = Vec::new();
    match as_array(v) {
        Some(a) => {
            let mut i: usize = 0;
            assert(out.deep_view() =~= suggestions_in(a@.take(0)));
            while i < a.len()
                invariant
                    i <= a.len(),
                    out.deep_view() == suggestions_in(a@.take(i as int)),
                decreases a.len() - i,
            {
                proof {
                    assert(a@.take(i + 1).drop_last() =~= a@.take(i as int));
                    assert(a@.take(i + 1).last() == a@[i as int]);
                }
                match parse_suggestion(&a[i]) {
                    Some(x) => {
                        let ghost before = out.deep_view();
                        out.push(x);
                        assert(out.deep_view() =~= before.push(x.deep_view()));
                    },
                    None => {},
                }
                i = i + 1;
            }
            assert(a@.take(a.len() as int) =~= a@);
        },
        None => {},
    }
    out
}

/// Reads one child object.
pub fn parse_child(j: &JsonValue, root: Option<&str>) -> (c: DiagnosticChild)
    ensures
        child_ok(c, *j, root_view(root)),
{
    let raw_level = text_or(j.get("level"), "other");
    let level = parse_level(raw_level.as_str());
    let message = text_or(j.get("message"), "");
    proof {
        reveal_strlit("");
        assert(""@ =~= Seq::<char>::empty());
    }
    DiagnosticChild {
        raw_level,
        level,
        message,
        rendered: as_text(j.get("rendered")),
        spans: parse_spans(j.get("spans"), root),
        suggestions: parse_suggestions(j.get("spans")),
    }
}

/// Reads the child objects of an optional array value.
pub fn parse_children(v: Option<&JsonValue>, root: Option<&str>) -> (r: Vec<DiagnosticChild>)
    ensures
        r.len() == members(deref(v)).len(),
        forall|i: int|
            0 <= i < r.len() ==> child_ok(#[trigger] r@[i], members(deref(v))[i], root_view(root)),
{
    let mut out: Vec<DiagnosticChild> = Vec::new();
    match as_array(v) {
        Some(a) => {
            let mut i: usize = 0;
            while i < a.len()
                invariant
                    i <= a.len(),
                    out.len() == i,
                    forall|k: int| 0 <= k < i ==> child_ok(#[trigger] out@[k], a@[k], root_view(root)),
                decreases a.len() - i,
            {
                out.push(parse_child(&a[i], root));
                i = i + 1;
            }
        },
        None => {},
    }
    out
}

/// Reads the target object of a producer.
fn parse_target(v: Option<&JsonValue>, root: Option<&str>) -> (r: Option<CargoTarget>)
    ensures
        r.deep_view() == target_view(deref(v), root_view(root)),
{
    match v {
        Some(t) => match t {
            JsonValue::Object(_) => Some(
                CargoTarget {
                    name: as_text(t.get("name")),
                    kind: string_array(t.get("kind")),
                    crate_types: string_array(t.get("crate_types")),
                    src_path: match as_text(t.get("src_path")) {
                        Some(p) => Some(canonical_producer_path(p.as_str(), root)),
                        None => None,
                    },
                    edition: as_text(t.get("edition")),
                },
            ),
            _ => None,
        },
        None => None,
    }
}

/// Reads the producer identity of a compiler message.
pub fn parse_producer(v: &JsonValue, root: Option<&str>) -> (r: ProducerUnit)
    ensures
        r.deep_view() == producer_view(*v, root_view(root)),
{
    ProducerUnit {
        package_id: match as_text(v.get("package_id")) {
            Some(p) => Some(canonical_package_id(p.as_str(), root.is_some())),
            None => None,
        },
        manifest_path: match as_text(v.get("manifest_path")) {
            Some(p) => Some(canonical_producer_path(p.as_str(), root)),
            None => None,
        },
        target: parse_target(v.get("target"), root),
        profile: as_text(get_in(v.get("profile"), "opt_level")),
    }
}

/// The diagnostic form of an observed span.
pub fn legacy_span(s: &ObservationSpan) -> (r: Span)
    ensures
        r.deep_view() == legacy_span_view(*s),
{
    let ls: u32 = match s.raw_line_start {
        Some(x) => if x >= 1 {
            x
        } else {
            1
        },
        None => 1,
    };
    let le: u32 = match s.raw_line_end {
        Some(x) => x,
        None => match s.raw_line_start {
            Some(x) => x,
            None => 0,
        },
    };
    let file = match &s.raw_file_name {
        Some(f) => NormPath::from_repo_path(f.as_str()),
        None => {
            proof {
                reveal_strlit("");
                assert(""@ =~= Seq::<char>::empty());
            }
            NormPath::from_repo_path("")
        },
    };
    Span {
        file,
        line_start: ls,
        line_end: if le > ls {
            le
        } else {
            ls
        },
        col_start: s.raw_column_start,
        col_end: s.raw_column_end,
        is_primary: s.is_primary,
    }
}

/// The diagnostic forms of observed spans.
fn legacy_spans(ss: &Vec<ObservationSpan>) -> (r: Vec<Span>)
    ensures
        r.deep_view() == ss@.map_values(|s: ObservationSpan| legacy_span_view(s)),
{
    let mut r: Vec<Span> = Vec::new();
    let mut i: usize = 0;
    while i < ss.len()
        invariant
            i <= ss.len(),
            r.len() == i,
            forall|k: int| 0 <= k < i ==> (#[trigger] r@[k]).deep_view() == legacy_span_view(ss@[k]),
        decreases ss.len() - i,
    {
        r.push(legacy_span(&ss[i]));
        i = i + 1;
    }
    assert(r.deep_view() =~= ss@.map_values(|s: ObservationSpan| legacy_span_view(s)));
    r
}

/// Reads one compiler message `value`, whose `message` member is `message`,
/// into an observation.
pub fn parse_observation(value: &JsonValue, message: &JsonValue, repo_root: Option<&str>) -> (o:
    DiagnosticObservation)
    ensures
        observation_ok(o, *value, *message, root_view(repo_root)),
{
    let m = Some(message);
    let raw_level = text_or(message.get("level"), "other");
    let level = parse_level(raw_level.as_str());
    let msg = text_or(message.get("message"), "");
    proof {
        reveal_strlit("");
        assert(""@ =~= Seq::<char>::empty());
    }
    let rendered = as_text(message.get("rendered"));
    let raw_code = as_text(get_in(message.get("code"), "code"));
    let spans = parse_spans(message.get("spans"), repo_root);
    let children = parse_children(message.get("children"), repo_root);
    let normalized_spans = legacy_spans(&spans);
    let diagnostic = Diagnostic {
        level,
        code_raw: copy_opt(&raw_code),
        message: msg.clone(),
        spans: normalized_spans,
        rendered: copy_opt(&rendered),
    };
    proof {
        let js = members(field(m_view(message), "spans"@));
        assert(diagnostic.spans.deep_view() =~= js.map_values(|j: JsonValue| json_legacy_span(j))) by {
            assert forall|i: int| 0 <= i < js.len() implies legacy_span_view(#[trigger] spans@[i])
                == json_legacy_span(js[i]) by {
                assert(raw_span_ok(spans@[i], js[i]));
            }
        }
    }
    DiagnosticObservation {
        producer: parse_producer(value, repo_root),
        raw_level,
        raw_code,
        message: msg,
        rendered,
        spans,
        children,
        diagnostic,
    }
}


/// Completion state of one Cargo analysis stream.
#[derive(Clone, Copy, Debug, PartialEq, Eq, Structural)]
pub enum AnalysisCompletion {
    SuccessfulComplete,
    FailedComplete,
    IncompleteStream,
    RuntimeFailure,
}

/// Hard and contextual inputs that decide whether two analyses are comparable.
#[derive(Clone, Debug, PartialEq, Eq)]
pub struct AnalysisScope {
    pub repository: Option<String>,
    pub revision: Option<String>,
    pub toolchain: Option<String>,
    pub target: Option<String>,
    pub features: Vec<String>,
    pub package_selection: Vec<String>,
    pub target_selection: Vec<String>,
    pub lint_config_hash: Option<String>,
}

/// An [`AnalysisScope`] as plain values.
pub struct ScopeView {
    pub repository: Option<Seq<char>>,
    pub revision: Option<Seq<char>>,
    pub toolchain: Option<Seq<char>>,
    pub target: Option<Seq<char>>,
    pub features: Seq<Seq<char>>,
    pub package_selection: Seq<Seq<char>>,
    pub target_selection: Seq<Seq<char>>,
    pub lint_config_hash: Option<Seq<char>>,
}

impl DeepView for AnalysisScope {
    type V = ScopeView;

    open spec fn deep_view(&self) -> ScopeView {
        ScopeView {
            repository: self.repository.deep_view(),
            revision: self.revision.deep_view(),
            toolchain: self.toolchain.deep_view(),
            target: self.target.deep_view(),
            features: self.features.deep_view(),
            package_selection: self.package_selection.deep_view(),
            target_selection: self.target_selection.deep_view(),
            lint_config_hash: self.lint_config_hash.deep_view(),
        }
    }
}

impl Default for AnalysisScope {
    fn default() -> (r: Self)
        ensures
            r.deep_view() == (ScopeView {
                repository: None,
                revision: None,
                toolchain: None,
                target: None,
                features: seq![],
                package_selection: seq![],
                target_selection: seq![],
                lint_config_hash: None,
            }),
    {
        let r = AnalysisScope {
            repository: None,
            revision: None,
            toolchain: None,
            target: None,
            features: Vec::new(),
            package_selection: Vec::new(),
            target_selection: Vec::new(),
            lint_config_hash: None,
        };
        assert(r.features.deep_view() =~= Seq::<Seq<char>>::empty());
        assert(r.package_selection.deep_view() =~= Seq::<Seq<char>>::empty());
        assert(r.target_selection.deep_view() =~= Seq::<Seq<char>>::empty());
        r
    }
}

/// Process and Cargo completion evidence for one analysis.
#[derive(Clone, Debug, PartialEq, Eq)]
pub struct UpstreamExecution {
    pub command: Vec<String>,
    pub exit_code: Option<i32>,
    pub duration_ms: Option<u64>,
    pub build_finished_seen: bool,
    pub build_success: Option<bool>,
    pub completion: Option<AnalysisCompletion>,
}

/// An [`UpstreamExecution`] as plain values.
pub struct ExecutionView {
    pub command: Seq<Seq<char>>,
    pub exit_code: Option<i32>,
    pub duration_ms: Option<u64>,
    pub build_finished_seen: bool,
    pub build_success: Option<bool>,
    pub completion: Option<AnalysisCompletion>,
}

impl DeepView for UpstreamExecution {
    type V = ExecutionView;

    open spec fn deep_view(&self) -> ExecutionView {
        ExecutionView {
            command: self.command.deep_view(),
            exit_code: self.exit_code,
            duration_ms: self.duration_ms,
            build_finished_seen: self.build_finished_seen,
            build_success: self.build_success,
            completion: self.completion,
        }
    }
}

impl Default for UpstreamExecution {
    fn default() -> (r: Self)
        ensures
            r.deep_view() == (ExecutionView {
                command: seq![],
                exit_code: None,
                duration_ms: None,
                build_finished_seen: false,
                build_success: None,
                completion: None,
            }),
    {
        let r = UpstreamExecution {
            command: Vec::new(),
            exit_code: None,
            duration_ms: None,
            build_finished_seen: false,
            build_success: None,
            completion: None,
        };
        assert(r.command.deep_view() =~= Seq::<Seq<char>>::empty());
        r
    }
}

/// Complete Cargo observations and terminal stream evidence.
#[derive(Clone, Debug, PartialEq, Eq)]
pub struct CargoAnalysis {
    pub scope: AnalysisScope,
    pub observations: Vec<DiagnosticObservation>,
    pub execution: UpstreamExecution,
}

impl CargoAnalysis {
    /// Evidence for a process that could not produce a Cargo stream.
    pub fn runtime_failure(command: Vec<String>, duration_ms: Option<u64>) -> (r: Self)
        ensures
            r.observations.len() == 0,
            r.execution.deep_view() == (ExecutionView {
                command: command.deep_view(),
                exit_code: None,
                duration_ms,
                build_finished_seen: false,
                build_success: None,
                completion: Some(AnalysisCompletion::RuntimeFailure),
            }),
            r.scope.deep_view() == (ScopeView {
                repository: None,
                revision: None,
                toolchain: None,
                target: None,
                features: seq![],
                package_selection: seq![],
                target_selection: seq![],
                lint_config_hash: None,
            }),
    {
        CargoAnalysis {
            scope: AnalysisScope::default(),
            observations: Vec::new(),
            execution: UpstreamExecution {
                command,
                exit_code: None,
                duration_ms,
                build_finished_seen: false,
                build_success: None,
                completion: Some(AnalysisCompletion::RuntimeFailure),
            },
        }
    }

    /// Attaches the process evidence gathered around the analysis: the
    /// command, its exit code and its duration replace those held.
    pub fn with_process_evidence(
        self,
        command: Vec<String>,
        exit_code: Option<i32>,
        duration_ms: Option<u64>,
    ) -> (r: Self)
        ensures
            r.scope == self.scope,
            r.observations == self.observations,
            r.execution.deep_view() == (ExecutionView {
                command: command.deep_view(),
                exit_code,
                duration_ms,
                ..self.execution.deep_view()
            }),
    {
        let mut s = self;
        s.execution.command = command;
        s.execution.exit_code = exit_code;
        s.execution.duration_ms = duration_ms;
        s
    }
}

/// The normalized diagnostics and completion evidence of one Cargo stream.
#[derive(Clone, Debug, PartialEq, Eq)]
pub struct CargoDiagnosticStream {
    pub diagnostics: Vec<Diagnostic>,
    pub observations: Vec<DiagnosticObservation>,
    pub scope: AnalysisScope,
    pub build_finished: bool,
    pub build_success: Option<bool>,
    pub completion: AnalysisCompletion,
    pub execution: UpstreamExecution,
}

/// Why a Cargo message stream could not be read.
#[derive(Debug)]
pub enum DiagnosticsParseError {
    /// A line is not one JSON document.
    InvalidJson {
        /// The 1-based line number.
        line: usize,
        /// What the JSON reader reported.
        source: serde_json::Error,
    },
    /// A line is JSON but not of the expected shape, or could not be read.
    InvalidShape {
        /// The 1-based line number.
        line: usize,
        /// What was wrong.
        msg: String,
    },
}

/// The display text of a `serde_json` error (its `Display` impl); nothing is
/// stated of the text.
#[verifier::external_body]
fn json_error_text(e: &serde_json::Error) -> String {
    format!("{}", e)
}

impl DiagnosticsParseError {
    /// The error's message: `invalid json at line N: <reader error>` or
    /// `unexpected json shape at line N: <msg>`.
    pub fn to_string(&self) -> (r: String)
        ensures
            match self {
                DiagnosticsParseError::InvalidJson { line, .. } => has_prefix(
                    r@,
                    "invalid json at line "@ + decimal(*line as nat) + ": "@,
                ),
                DiagnosticsParseError::InvalidShape { line, msg } => r@
                    == "unexpected json shape at line "@ + decimal(*line as nat) + ": "@ + msg@,
            },
    {
        let mut out = String::new();
        match self {
            DiagnosticsParseError::InvalidJson { line, source } => {
                push_str(&mut out, "invalid json at line ");
                push_decimal(&mut out, *line as u64);
                push_str(&mut out, ": ");
                let ghost head = out@;
                let t = json_error_text(source);
                push_str(&mut out, t.as_str());
                assert(out@.subrange(0, head.len() as int) =~= head);
            },
            DiagnosticsParseError::InvalidShape { line, msg } => {
                push_str(&mut out, "unexpected json shape at line ");
                push_decimal(&mut out, *line as u64);
                push_str(&mut out, ": ");
                push_str(&mut out, msg.as_str());
            },
        }
        out
    }
}

/// What has been read of a stream so far: the compiler messages (each a
/// document and its `message` member) and the last `build-finished` record.
pub struct StreamState {
    pub messages: Seq<(JsonValue, JsonValue)>,
    pub finished: bool,
    pub success: Option<bool>,
    pub toolchain: Option<Seq<char>>,
    pub target: Option<Seq<char>>,
    pub features: Seq<Seq<char>>,
}

/// Why a line stops the reading of a stream.
pub enum StreamFault {
    Json,
    Shape(Seq<char>),
}

/// Nothing read yet.
pub open spec fn stream_start() -> StreamState {
    StreamState {
        messages: seq![],
        finished: false,
        success: None,
        toolchain: None,
        target: None,
        features: seq![],
    }
}

/// What one parsed record does to a stream: a `build-finished` record sets
/// the build evidence, a `compiler-message` record adds its message (an
/// error, with its text, where the message object is missing), and any
/// other record is passed over.
pub open spec fn record_step(st: StreamState, v: JsonValue) -> Result<StreamState, Seq<char>> {
    let d = Some(v);
    let reason = str_of(field(d, "reason"@));
    if reason == Some("build-finished"@) {
        Ok(
            StreamState {
                messages: st.messages,
                finished: true,
                success: bool_of(field(d, "success"@)),
                toolchain: str_of(field(d, "toolchain"@)),
                target: str_of(field(d, "target"@)),
                features: strings_view(field(d, "features"@)),
            },
        )
    } else if reason != Some("compiler-message"@) {
        Ok(st)
    } else {
        match field(d, "message"@) {
            None => Err("missing 'message' field"@),
            Some(m) => Ok(
                StreamState {
                    messages: st.messages.push((v, m)),
                    finished: st.finished,
                    success: st.success,
                    toolchain: st.toolchain,
                    target: st.target,
                    features: st.features,
                },
            ),
        }
    }
}

/// One line of a stream, read (`Ok`) or failed to be read (`Err`, with the
/// reader's message): blank lines are passed over, other lines are parsed
/// as JSON records.
pub open spec fn stream_step(st: StreamState, line: Result<Seq<char>, Seq<char>>) -> Result<
    StreamState,
    StreamFault,
> {
    match line {
        Err(e) => Err(StreamFault::Shape("io error reading diagnostics stream: "@ + e)),
        Ok(l) => if trim(l).len() == 0 {
            Ok(st)
        } else {
            match json_document(l) {
                None => Err(StreamFault::Json),
                Some(v) => match record_step(st, v) {
                    Ok(next) => Ok(next),
                    Err(m) => Err(StreamFault::Shape(m)),
                },
            }
        },
    }
}

/// A whole stream read line by line; an error carries the 1-based number of
/// the line that stopped it.
pub open spec fn stream_of(ls: Seq<Result<Seq<char>, Seq<char>>>) -> Result<StreamState, (nat, StreamFault)>
    decreases ls.len(),
{
    if ls.len() == 0 {
        Ok(stream_start())
    } else {
        match stream_of(ls.drop_last()) {
            Err(e) => Err(e),
            Ok(st) => match stream_step(st, ls.last()) {
                Ok(s) => Ok(s),
                Err(f) => Err((ls.len(), f)),
            },
        }
    }
}

/// The completion a stream's terminal record gives.
pub open spec fn completion_of(finished: bool, success: Option<bool>) -> AnalysisCompletion {
    if finished && success == Some(true) {
        AnalysisCompletion::SuccessfulComplete
    } else if finished && success == Some(false) {
        AnalysisCompletion::FailedComplete
    } else {
        AnalysisCompletion::IncompleteStream
    }
}

/// The analysis read from a stream whose reading ended in `st`.
pub open spec fn analysis_ok(a: CargoAnalysis, st: StreamState, root: Option<Seq<char>>) -> bool {
    &&& a.observations.len() == st.messages.len()
    &&& forall|i: int|
        0 <= i < st.messages.len() ==> observation_ok(
            #[trigger] a.observations@[i],
            st.messages[i].0,
            st.messages[i].1,
            root,
        )
    &&& a.scope.deep_view() == ScopeView {
        repository: None,
        revision: None,
        toolchain: st.toolchain,
        target: st.target,
        features: st.features,
        package_selection: seq![],
        target_selection: seq![],
        lint_config_hash: None,
    }
    &&& a.execution.deep_view() == ExecutionView {
        command: seq![],
        exit_code: None,
        duration_ms: None,
        build_finished_seen: st.finished,
        build_success: st.success,
        completion: Some(completion_of(st.finished, st.success)),
    }
}

/// The outcome of reading the lines `ls`, related to the result `r`.
pub open spec fn analysis_result_ok(
    r: Result<CargoAnalysis, DiagnosticsParseError>,
    ls: Seq<Result<Seq<char>, Seq<char>>>,
    root: Option<Seq<char>>,
) -> bool {
    match stream_of(ls) {
        Ok(st) => r matches Ok(a) && analysis_ok(a, st, root),
        Err((n, StreamFault::Json)) => r matches Err(DiagnosticsParseError::InvalidJson { line, .. })
            && line == n,
        Err((n, StreamFault::Shape(m))) => r matches Err(DiagnosticsParseError::InvalidShape { line, msg })
            && line == n && msg@ == m,
    }
}

/// The lines of a text as a stream of successfully read lines.
pub open spec fn read_lines(s: Seq<char>) -> Seq<Result<Seq<char>, Seq<char>>> {
    lines(s).map_values(|l: Seq<char>| Ok::<Seq<char>, Seq<char>>(l))
}

/// Lines as given by a reader: text, or the reader's error message.
pub open spec fn line_results(v: Seq<Result<String, String>>) -> Seq<Result<Seq<char>, Seq<char>>> {
    v.map_values(
        |l: Result<String, String>|
            match l {
                Ok(s) => Ok::<Seq<char>, Seq<char>>(s@),
                Err(e) => Err::<Seq<char>, Seq<char>>(e@),
            },
    )
}


/// A Cargo JSON-lines stream being read record by record: the observations
/// of its compiler messages so far and the last `build-finished` evidence.
pub struct StreamBuilder {
    observations: Vec<DiagnosticObservation>,
    finished: bool,
    success: Option<bool>,
    toolchain: Option<String>,
    target: Option<String>,
    features: Vec<String>,
    messages: Ghost<Seq<(JsonValue, JsonValue)>>,
}

impl StreamBuilder {
    /// The records read so far, as a stream state.
    pub closed spec fn state(&self) -> StreamState {
        StreamState {
            messages: self.messages@,
            finished: self.finished,
            success: self.success,
            toolchain: self.toolchain.deep_view(),
            target: self.target.deep_view(),
            features: self.features.deep_view(),
        }
    }

    /// Each observation is the one its compiler message gives under `root`.
    pub closed spec fn wf(&self, root: Option<Seq<char>>) -> bool {
        &&& self.observations.len() == self.messages@.len()
        &&& forall|i: int|
            0 <= i < self.messages@.len() ==> observation_ok(
                #[trigger] self.observations@[i],
                self.messages@[i].0,
                self.messages@[i].1,
                root,
            )
    }

    /// A stream with nothing read yet.
    pub fn new() -> (b: Self)
        ensures
            b.state() == stream_start(),
            forall|root: Option<Seq<char>>| #[trigger] b.wf(root),
    {
        let b = StreamBuilder {
            observations: Vec::new(),
            finished: false,
            success: None,
            toolchain: None,
            target: None,
            features: Vec::new(),
            messages: Ghost(Seq::empty()),
        };
        assert(b.state().features =~= Seq::<Seq<char>>::empty());
        b
    }

    /// Applies one parsed record of the stream, as `record_step` says; on an
    /// error nothing changes and the error's text comes back.
    pub fn read_record(&mut self, doc: &JsonValue, root: Option<&str>) -> (r: Result<(), String>)
        requires
            old(self).wf(root_view(root)),
        ensures
            final(self).wf(root_view(root)),
            match record_step(old(self).state(), *doc) {
                Ok(st) => r is Ok && final(self).state() == st,
                Err(m) => r matches Err(t) && t@ == m && final(self).state() == old(self).state(),
            },
    {
        let reason = as_text(doc.get("reason"));
        let finished = match &reason {
            Some(t) => text_eq(t.as_str(), "build-finished"),
            None => false,
        };
        if finished {
            self.finished = true;
            self.success = as_bool(doc.get("success"));
            self.toolchain = as_text(doc.get("toolchain"));
            self.target = as_text(doc.get("target"));
            self.features = string_array(doc.get("features"));
            return Ok(());
        }
        let message = match &reason {
            Some(t) => text_eq(t.as_str(), "compiler-message"),
            None => false,
        };
        if !message {
            return Ok(());
        }
        match doc.get("message") {
            None => Err(to_string("missing 'message' field")),
            Some(m) => {
                let o = parse_observation(doc, m, root);
                self.observations.push(o);
                proof {
                    self.messages@ = self.messages@.push((*doc, *m));
                }
                Ok(())
            },
        }
    }

    /// The analysis of the records read: their observations, the last
    /// `build-finished` evidence and the completion it gives.
    pub fn finish(self, root: Option<&str>) -> (a: CargoAnalysis)
        requires
            self.wf(root_view(root)),
        ensures
            analysis_ok(a, self.state(), root_view(root)),
    {
        let completion = match (self.finished, self.success) {
            (true, Some(true)) => AnalysisCompletion::SuccessfulComplete,
            (true, Some(false)) => AnalysisCompletion::FailedComplete,
            _ => AnalysisCompletion::IncompleteStream,
        };
        let scope = AnalysisScope {
            repository: None,
            revision: None,
            toolchain: self.toolchain,
            target: self.target,
            features: self.features,
            package_selection: Vec::new(),
            target_selection: Vec::new(),
            lint_config_hash: None,
        };
        let execution = UpstreamExecution {
            command: Vec::new(),
            exit_code: None,
            duration_ms: None,
            build_finished_seen: self.finished,
            build_success: self.success,
            completion: Some(completion),
        };
        proof {
            assert(scope.package_selection.deep_view() =~= Seq::<Seq<char>>::empty());
            assert(scope.target_selection.deep_view() =~= Seq::<Seq<char>>::empty());
            assert(execution.command.deep_view() =~= Seq::<Seq<char>>::empty());
        }
        CargoAnalysis { scope, observations: self.observations, execution }
    }
}

/// Why one line stops the reading.
enum LineFault {
    Json(serde_json::Error),
    Shape(String),
}

/// Reads one line of a stream into `b`.
fn read_line(b: &mut StreamBuilder, line: &str, root: Option<&str>) -> (r: Result<(), LineFault>)
    requires
        old(b).wf(root_view(root)),
    ensures
        final(b).wf(root_view(root)),
        match stream_step(old(b).state(), Ok(line@)) {
            Ok(st) => r is Ok && final(b).state() == st,
            Err(StreamFault::Json) => r matches Err(LineFault::Json(_)),
            Err(StreamFault::Shape(m)) => r matches Err(LineFault::Shape(t)) && t@ == m,
        },
{
    let v = chars_of(line);
    let (a, z) = trim_bounds(&v, 0, v.len());
    assert(v@.subrange(0, v.len() as int) =~= v@);
    if a == z {
        return Ok(());
    }
    let doc = match parse_json(line) {
        Ok(d) => d,
        Err(e) => {
            return Err(LineFault::Json(e));
        },
    };
    match b.read_record(&doc, root) {
        Ok(()) => Ok(()),
        Err(t) => Err(LineFault::Shape(t)),
    }
}

/// Once a prefix of a stream fails, the whole stream fails the same way.
proof fn lemma_stream_stops(ls: Seq<Result<Seq<char>, Seq<char>>>, k: int)
    requires
        0 <= k <= ls.len(),
        stream_of(ls.take(k)) is Err,
    ensures
        stream_of(ls) == stream_of(ls.take(k)),
    decreases ls.len() - k,
{
    if k < ls.len() {
        assert(ls.take(k + 1).drop_last() =~= ls.take(k));
        lemma_stream_stops(ls, k + 1);
    } else {
        assert(ls.take(k) =~= ls);
    }
}

/// Reads a Cargo JSON-lines stream, given line by line as read (`Err` holds
/// the message of a read that failed), into complete observations: one per
/// compiler message, with the last `build-finished` record's evidence.
pub fn parse_cargo_analysis_lines(lines: &Vec<Result<String, String>>, repo_root: Option<&str>) -> (r:
    Result<CargoAnalysis, DiagnosticsParseError>)
    ensures
        analysis_result_ok(r, line_results(lines@), root_view(repo_root)),
{
    let mut b = StreamBuilder::new();
    let ghost ls = line_results(lines@);
    let mut i: usize = 0;
    proof {
        assert(b.wf(root_view(repo_root)));
        assert(ls.take(0) =~= Seq::<Result<Seq<char>, Seq<char>>>::empty());
    }
    while i < lines.len()
        invariant
            i <= lines.len(),
            ls == line_results(lines@),
            b.wf(root_view(repo_root)),
            stream_of(ls.take(i as int)) == Ok::<StreamState, (nat, StreamFault)>(b.state()),
        decreases lines.len() - i,
    {
        proof {
            assert(ls.take(i + 1).drop_last() =~= ls.take(i as int));
            assert(ls.take(i + 1).last() == ls[i as int]);
        }
        match &lines[i] {
            Err(e) => {
                let mut msg = String::new();
                push_str(&mut msg, "io error reading diagnostics stream: ");
                push_str(&mut msg, e.as_str());
                proof {
                    lemma_stream_stops(ls, i + 1);
                }
                return Err(DiagnosticsParseError::InvalidShape { line: i + 1, msg });
            },
            Ok(l) => {
                match read_line(&mut b, l.as_str(), repo_root) {
                    Ok(()) => {},
                    Err(LineFault::Json(e)) => {
                        proof {
                            lemma_stream_stops(ls, i + 1);
                        }
                        return Err(DiagnosticsParseError::InvalidJson { line: i + 1, source: e });
                    },
                    Err(LineFault::Shape(m)) => {
                        proof {
                            lemma_stream_stops(ls, i + 1);
                        }
                        return Err(DiagnosticsParseError::InvalidShape { line: i + 1, msg: m });
                    },
                }
            },
        }
        i = i + 1;
    }
    proof {
        assert(ls.take(lines.len() as int) =~= ls);
    }
    Ok(b.finish(repo_root))
}

/// The lines of a text, each read successfully.
fn text_lines(input: &str) -> (r: Vec<Result<String, String>>)
    ensures
        line_results(r@) == read_lines(input@),
{
    let v = chars_of(input);
    let bounds = line_bounds(&v);
    let mut r: Vec<Result<String, String>> = Vec::new();
    let mut i: usize = 0;
    while i < bounds.len()
        invariant
            i <= bounds.len(),
            crate::text::bounds_of_lines(bounds@, v@),
            v@ == input@,
            r.len() == i,
            forall|k: int|
                0 <= k < i ==> ((#[trigger] r@[k]) matches Ok(t) && t@ == lines(v@)[k]),
        decreases bounds.len() - i,
    {
        let (lo, hi) = bounds[i];
        r.push(Ok(string_of_range(&v, lo, hi)));
        i = i + 1;
    }
    assert(line_results(r@) =~= read_lines(input@));
    r
}

/// Reads a Cargo JSON-lines stream under a known repository root: span
/// files and producer paths are made relative to it.
pub fn parse_cargo_analysis_with_repo_root(input: &str, repo_root: Option<&str>) -> (r: Result<
    CargoAnalysis,
    DiagnosticsParseError,
>)
    ensures
        analysis_result_ok(r, read_lines(input@), root_view(repo_root)),
{
    let ls = text_lines(input);
    parse_cargo_analysis_lines(&ls, repo_root)
}

/// Reads a Cargo JSON-lines stream into complete observations.
pub fn parse_cargo_analysis(input: &str) -> (r: Result<CargoAnalysis, DiagnosticsParseError>)
    ensures
        analysis_result_ok(r, read_lines(input@), None),
{
    parse_cargo_analysis_with_repo_root(input, None)
}

/// The stream form of an analysis read to `st` without a root: the
/// analysis fields, the diagnostic of each compiler message, and the
/// terminal evidence.
pub open spec fn diagnostic_stream_ok(s: CargoDiagnosticStream, st: StreamState) -> bool {
    &&& analysis_ok(
        CargoAnalysis { scope: s.scope, observations: s.observations, execution: s.execution },
        st,
        None,
    )
    &&& s.diagnostics.deep_view() == st.messages.map_values(
        |p: (JsonValue, JsonValue)| diagnostic_of(p.1),
    )
    &&& s.build_finished == st.finished
    &&& s.build_success == st.success
    &&& s.completion == completion_of(st.finished, st.success)
}

/// The outcome of reading the lines `ls` as a diagnostic stream.
pub open spec fn stream_result_ok(
    r: Result<CargoDiagnosticStream, DiagnosticsParseError>,
    ls: Seq<Result<Seq<char>, Seq<char>>>,
) -> bool {
    match stream_of(ls) {
        Ok(st) => r matches Ok(s) && diagnostic_stream_ok(s, st),
        Err((n, StreamFault::Json)) => r matches Err(DiagnosticsParseError::InvalidJson { line, .. })
            && line == n,
        Err((n, StreamFault::Shape(m))) => r matches Err(DiagnosticsParseError::InvalidShape { line, msg })
            && line == n && msg@ == m,
    }
}

/// The diagnostics of a list of observations.
fn diagnostics_of(obs: &Vec<DiagnosticObservation>) -> (r: Vec<Diagnostic>)
    ensures
        r.len() == obs.len(),
        forall|i: int| 0 <= i < obs.len() ==> (#[trigger] r@[i]).deep_view() == obs@[i].diagnostic.deep_view(),
{
    let mut r: Vec<Diagnostic> = Vec::new();
    let mut i: usize = 0;
    while i < obs.len()
        invariant
            i <= obs.len(),
            r.len() == i,
            forall|k: int| 0 <= k < i ==> (#[trigger] r@[k]).deep_view() == obs@[k].diagnostic.deep_view(),
        decreases obs.len() - i,
    {
        r.push(obs[i].diagnostic.copy());
        i = i + 1;
    }
    r
}

/// Reads a stream given line by line, keeping the terminal evidence beside
/// the diagnostics.
pub fn parse_cargo_messages_with_status_lines(lines: &Vec<Result<String, String>>) -> (r: Result<
    CargoDiagnosticStream,
    DiagnosticsParseError,
>)
    ensures
        stream_result_ok(r, line_results(lines@)),
{
    let analysis = match parse_cargo_analysis_lines(lines, None) {
        Ok(a) => a,
        Err(e) => {
            return Err(e);
        },
    };
    let ghost st = stream_of(line_results(lines@))->Ok_0;
    let diagnostics = diagnostics_of(&analysis.observations);
    proof {
        assert(diagnostics.deep_view() =~= st.messages.map_values(
            |p: (JsonValue, JsonValue)| diagnostic_of(p.1),
        )) by {
            assert forall|i: int| 0 <= i < st.messages.len() implies #[trigger] diagnostics.deep_view()[i]
                == diagnostic_of(st.messages[i].1) by {
                assert(observation_ok(
                    analysis.observations@[i],
                    st.messages[i].0,
                    st.messages[i].1,
                    None,
                ));
            }
        }
    }
    let execution = analysis.execution;
    let completion = match execution.completion {
        Some(c) => c,
        None => {
            return Err(
                DiagnosticsParseError::InvalidShape {
                    line: 0,
                    msg: to_string("parsed Cargo analysis did not contain completion state"),
                },
            );
        },
    };
    Ok(
        CargoDiagnosticStream {
            diagnostics,
            observations: analysis.observations,
            scope: analysis.scope,
            build_finished: execution.build_finished_seen,
            build_success: execution.build_success,
            completion,
            execution,
        },
    )
}

/// Reads a Cargo JSON-lines stream, keeping the terminal evidence beside the
/// diagnostics.
pub fn parse_cargo_messages_with_status(input: &str) -> (r: Result<CargoDiagnosticStream, DiagnosticsParseError>)
    ensures
        stream_result_ok(r, read_lines(input@)),
{
    let ls = text_lines(input);
    parse_cargo_messages_with_status_lines(&ls)
}

/// Reads a Cargo JSON-lines stream into the diagnostics of its compiler
/// messages, in order.
pub fn parse_cargo_messages(input: &str) -> (r: Result<Vec<Diagnostic>, DiagnosticsParseError>)
    ensures
        match stream_of(read_lines(input@)) {
            Ok(st) => r matches Ok(ds) && ds.deep_view() == st.messages.map_values(
                |p: (JsonValue, JsonValue)| diagnostic_of(p.1),
            ),
            Err((n, StreamFault::Json)) => r matches Err(DiagnosticsParseError::InvalidJson { line, .. })
                && line == n,
            Err((n, StreamFault::Shape(m))) => r matches Err(
                DiagnosticsParseError::InvalidShape { line, msg },
            ) && line == n && msg@ == m,
        },
{
    match parse_cargo_messages_with_status(input) {
        Ok(s) => Ok(s.diagnostics),
        Err(e) => Err(e),
    }
}

/// A legacy span's lines: the first line is the message's `line_start` when
/// positive, else 1; the last line is the message's `line_end` whenever that
/// is not before the first line, else the first line.
pub proof fn law_legacy_span_lines(j: JsonValue)
    ensures
        json_legacy_span(j).line_start >= 1,
        json_legacy_span(j).line_start <= json_legacy_span(j).line_end,
        u32_of(field(Some(j), "line_start"@)) matches Some(n) ==> (n >= 1 ==> json_legacy_span(
            j,
        ).line_start == n),
        u32_of(field(Some(j), "line_end"@)) matches Some(e) ==> (e >= json_legacy_span(j).line_start
            ==> json_legacy_span(j).line_end == e),
        u32_of(field(Some(j), "line_end"@)) matches Some(e) ==> (e < json_legacy_span(j).line_start
            ==> json_legacy_span(j).line_end == json_legacy_span(j).line_start),
{
}

/// A placed span keeps its reported lines: it starts at the reported first
/// line and ends at the reported last line whenever that is not before the
/// first (a missing or earlier last line gives a one-line span).
pub proof fn law_placed_span_lines(file: Seq<char>, s: ObservationSpan)
    requires
        s.raw_line_start matches Some(ls) && ls > 0,
    ensures
        span_at(file, s).line_start == s.raw_line_start->0,
        span_at(file, s).line_start <= span_at(file, s).line_end,
        s.raw_line_end matches Some(e) ==> (e >= s.raw_line_start->0 ==> span_at(file, s).line_end
            == e),
        s.raw_line_end matches Some(e) ==> (e < s.raw_line_start->0 ==> span_at(file, s).line_end
            == s.raw_line_start->0),
        s.raw_line_end is None ==> span_at(file, s).line_end == s.raw_line_start->0,
        span_at(file, s).file == file,
{
}

} // verus!
