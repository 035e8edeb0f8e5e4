//! Complete diagnostic inventories of one analysis: provenance, upstream
//! completion evidence and one record per observed diagnostic.
use vstd::prelude::*;

verus! {

/// Whether two optional texts are equal.
pub fn opt_text_eq(a: &Option<String>, b: &Option<String>) -> (r: bool)
    ensures
        r == (a.deep_view() == b.deep_view()),
{
    match (a, b) {
        (Some(x), Some(y)) => text_eq(x.as_str(), y.as_str()),
        (None, None) => true,
        _ => false,
    }
}

/// Whether two texts are equal.
pub fn text_eq(a: &str, b: &str) -> (r: bool)
    ensures
        r == (a@ == b@),
{
    let av = crate::text::chars_of(a);
    let bv = crate::text::chars_of(b);
    crate::text::chars_eq(&av, &bv)
}

/// Whether two lists of texts are equal.
pub fn texts_eq(a: &Vec<String>, b: &Vec<String>) -> (r: bool)
    ensures
        r == (a.deep_view() == b.deep_view()),
{
    if a.len() != b.len() {
        assert(a.deep_view().len() != b.deep_view().len());
        return false;
    }
    let mut i: usize = 0;
    while i < a.len()
        invariant
            a.len() == b.len(),
            i <= a.len(),
            forall|k: int| 0 <= k < i ==> a@[k]@ == b@[k]@,
        decreases a.len() - i,
    {
        if !text_eq(a[i].as_str(), b[i].as_str()) {
            proof {
                assert(a.deep_view()[i as int] != b.deep_view()[i as int]);
            }
            return false;
        }
        i = i + 1;
    }
    assert(a.deep_view() =~= b.deep_view());
    true
}

/// A copy of an optional text.
pub fn copy_opt(a: &Option<String>) -> (r: Option<String>)
    ensures
        r == *a,
{
    match a {
        Some(x) => Some(x.clone()),
        None => None,
    }
}

/// A copy of a list of texts.
pub fn copy_texts(a: &Vec<String>) -> (r: Vec<String>)
    ensures
        r@ == a@,
        r.deep_view() == a.deep_view(),
{
    let mut r: Vec<String> = Vec::new();
    let mut i: usize = 0;
    while i < a.len()
        invariant
            i <= a.len(),
            r@ == a@.take(i as int),
        decreases a.len() - i,
    {
        r.push(a[i].clone());
        i = i + 1;
        assert(r@ =~= a@.take(i as int));
    }
    assert(a@.take(a.len() as int) =~= a@);
    assert(r.deep_view() =~= a.deep_view());
    r
}

/// The package target that produced a compiler message.
#[derive(Clone, Debug, PartialEq, Eq)]
pub struct CargoTarget {
    pub name: Option<String>,
    pub kind: Vec<String>,
    pub crate_types: Vec<String>,
    pub src_path: Option<String>,
    pub edition: Option<String>,
}

/// A [`CargoTarget`] as plain values.
pub struct TargetView {
    pub name: Option<Seq<char>>,
    pub kind: Seq<Seq<char>>,
    pub crate_types: Seq<Seq<char>>,
    pub src_path: Option<Seq<char>>,
    pub edition: Option<Seq<char>>,
}

impl DeepView for CargoTarget {
    type V = TargetView;

    open spec fn deep_view(&self) -> TargetView {
        TargetView {
            name: self.name.deep_view(),
            kind: self.kind.deep_view(),
            crate_types: self.crate_types.deep_view(),
            src_path: self.src_path.deep_view(),
            edition: self.edition.deep_view(),
        }
    }
}

impl Default for CargoTarget {
    fn default() -> (r: Self)
        ensures
            r.name is None,
            r.kind@.len() == 0,
            r.crate_types@.len() == 0,
            r.src_path is None,
            r.edition is None,
    {
        CargoTarget { name: None, kind: Vec::new(), crate_types: Vec::new(), src_path: None, edition: None }
    }
}

impl CargoTarget {
    /// A copy of this target.
    pub fn copy(&self) -> (r: Self)
        ensures
            r.deep_view() == self.deep_view(),
    {
        CargoTarget {
            name: copy_opt(&self.name),
            kind: copy_texts(&self.kind),
            crate_types: copy_texts(&self.crate_types),
            src_path: copy_opt(&self.src_path),
            edition: copy_opt(&self.edition),
        }
    }

    /// Whether two targets are equal in every field.
    pub fn same_as(&self, other: &CargoTarget) -> (r: bool)
        ensures
            r == (self.deep_view() == other.deep_view()),
    {
        opt_text_eq(&self.name, &other.name) && texts_eq(&self.kind, &other.kind) && texts_eq(
            &self.crate_types,
            &other.crate_types,
        ) && opt_text_eq(&self.src_path, &other.src_path) && opt_text_eq(&self.edition, &other.edition)
    }
}

/// The Cargo producer identity attached to one compiler-message emission.
#[derive(Clone, Debug, PartialEq, Eq)]
pub struct ProducerUnit {
    pub package_id: Option<String>,
    pub manifest_path: Option<String>,
    pub target: Option<CargoTarget>,
    pub profile: Option<String>,
}

/// A [`ProducerUnit`] as plain values.
pub struct ProducerView {
    pub package_id: Option<Seq<char>>,
    pub manifest_path: Option<Seq<char>>,
    pub target: Option<TargetView>,
    pub profile: Option<Seq<char>>,
}

impl DeepView for ProducerUnit {
    type V = ProducerView;

    open spec fn deep_view(&self) -> ProducerView {
        ProducerView {
            package_id: self.package_id.deep_view(),
            manifest_path: self.manifest_path.deep_view(),
            target: self.target.deep_view(),
            profile: self.profile.deep_view(),
        }
    }
}

impl Default for ProducerUnit {
    fn default() -> (r: Self)
        ensures
            r.package_id is None,
            r.manifest_path is None,
            r.target is None,
            r.profile is None,
    {
        ProducerUnit { package_id: None, manifest_path: None, target: None, profile: None }
    }
}

impl ProducerUnit {
    /// A copy of this producer identity.
    pub fn copy(&self) -> (r: Self)
        ensures
            r.deep_view() == self.deep_view(),
    {
        ProducerUnit {
            package_id: copy_opt(&self.package_id),
            manifest_path: copy_opt(&self.manifest_path),
            target: match &self.target {
                Some(t) => Some(t.copy()),
                None => None,
            },
            profile: copy_opt(&self.profile),
        }
    }

    /// Whether two producer identities are equal in every field.
    pub fn same_as(&self, other: &ProducerUnit) -> (r: bool)
        ensures
            r == (self.deep_view() == other.deep_view()),
    {
        let t = match (&self.target, &other.target) {
            (Some(a), Some(b)) => a.same_as(b),
            (None, None) => true,
            _ => false,
        };
        opt_text_eq(&self.package_id, &other.package_id) && opt_text_eq(
            &self.manifest_path,
            &other.manifest_path,
        ) && t && opt_text_eq(&self.profile, &other.profile)
    }
}

/// How a recorded analysis ended.
#[derive(Clone, Copy, Debug, PartialEq, Eq, Structural)]
pub enum CompletionState {
    SuccessfulComplete,
    FailedComplete,
    IncompleteStream,
    RuntimeFailure,
}

/// Process and stream evidence of one analysis.
#[derive(Clone, Debug, PartialEq, Eq)]
pub struct UpstreamEvidence {
    pub completion: CompletionState,
    pub build_finished_seen: bool,
    pub build_success: Option<bool>,
    pub exit_code: Option<i32>,
    pub duration_ms: Option<u64>,
}

/// The inputs that must match for two analyses to be comparable.
#[derive(Clone, Debug, PartialEq, Eq)]
pub struct HardProvenance {
    pub diagnostic_format: String,
    pub command: Vec<String>,
    pub repository: Option<String>,
    pub revision: Option<String>,
    pub toolchain: Option<String>,
    pub target: Option<String>,
    pub features: Vec<String>,
    pub package_selection: Vec<String>,
    pub target_selection: Vec<String>,
}

impl Default for HardProvenance {
    fn default() -> (r: Self)
        ensures
            r.diagnostic_format@.len() == 0,
            r.command@.len() == 0,
            r.repository is None,
            r.revision is None,
            r.toolchain is None,
            r.target is None,
            r.features@.len() == 0,
            r.package_selection@.len() == 0,
            r.target_selection@.len() == 0,
    {
        HardProvenance {
            diagnostic_format: String::new(),
            command: Vec::new(),
            repository: None,
            revision: None,
            toolchain: None,
            target: None,
            features: Vec::new(),
            package_selection: Vec::new(),
            target_selection: Vec::new(),
        }
    }
}

/// Inputs that may differ between comparable analyses but are reported.
#[derive(Clone, Debug, PartialEq, Eq)]
pub struct ContextualProvenance {
    pub cargo_lock_hash: Option<String>,
    pub lint_config_hash: Option<String>,
    pub lintdiff_config_hash: Option<String>,
    pub changed_manifests: Vec<String>,
    pub workflow: Option<String>,
    pub operating_system: Option<String>,
    pub architecture: Option<String>,
}

impl Default for ContextualProvenance {
    fn default() -> (r: Self)
        ensures
            r.cargo_lock_hash is None,
            r.lint_config_hash is None,
            r.lintdiff_config_hash is None,
            r.changed_manifests@.len() == 0,
            r.workflow is None,
            r.operating_system is None,
            r.architecture is None,
    {
        ContextualProvenance {
            cargo_lock_hash: None,
            lint_config_hash: None,
            lintdiff_config_hash: None,
            changed_manifests: Vec::new(),
            workflow: None,
            operating_system: None,
            architecture: None,
        }
    }
}

/// Hard and contextual provenance of one analysis.
#[derive(Clone, Debug, PartialEq, Eq)]
pub struct AnalysisProvenance {
    pub hard: HardProvenance,
    pub contextual: ContextualProvenance,
}

impl Default for AnalysisProvenance {
    fn default() -> (r: Self)
        ensures
            r.hard.diagnostic_format@.len() == 0,
            r.hard.command@.len() == 0,
            r.hard.repository is None,
            r.hard.revision is None,
            r.hard.toolchain is None,
            r.hard.target is None,
            r.hard.features@.len() == 0,
            r.hard.package_selection@.len() == 0,
            r.hard.target_selection@.len() == 0,
            r.contextual.cargo_lock_hash is None,
            r.contextual.lint_config_hash is None,
            r.contextual.lintdiff_config_hash is None,
            r.contextual.changed_manifests@.len() == 0,
            r.contextual.workflow is None,
            r.contextual.operating_system is None,
            r.contextual.architecture is None,
    {
        AnalysisProvenance { hard: HardProvenance::default(), contextual: ContextualProvenance::default() }
    }
}

/// One source span of a recorded diagnostic: raw values and the
/// repository-relative ones.
#[derive(Clone, Debug, PartialEq, Eq)]
pub struct DiagnosticSpan {
    pub raw_file_name: Option<String>,
    pub raw_line_start: Option<u32>,
    pub raw_line_end: Option<u32>,
    pub raw_column_start: Option<u32>,
    pub raw_column_end: Option<u32>,
    pub path: Option<String>,
    pub line_start: Option<u32>,
    pub line_end: Option<u32>,
    pub column_start: Option<u32>,
    pub column_end: Option<u32>,
    pub is_primary: bool,
}

/// A [`DiagnosticSpan`] as plain values.
pub struct SpanView {
    pub raw_file_name: Option<Seq<char>>,
    pub raw_line_start: Option<u32>,
    pub raw_line_end: Option<u32>,
    pub raw_column_start: Option<u32>,
    pub raw_column_end: Option<u32>,
    pub path: Option<Seq<char>>,
    pub line_start: Option<u32>,
    pub line_end: Option<u32>,
    pub column_start: Option<u32>,
    pub column_end: Option<u32>,
    pub is_primary: bool,
}

impl DeepView for DiagnosticSpan {
    type V = SpanView;

    open spec fn deep_view(&self) -> SpanView {
        SpanView {
            raw_file_name: self.raw_file_name.deep_view(),
            raw_line_start: self.raw_line_start,
            raw_line_end: self.raw_line_end,
            raw_column_start: self.raw_column_start,
            raw_column_end: self.raw_column_end,
            path: self.path.deep_view(),
            line_start: self.line_start,
            line_end: self.line_end,
            column_start: self.column_start,
            column_end: self.column_end,
            is_primary: self.is_primary,
        }
    }
}

impl DiagnosticSpan {
    /// A copy of this span.
    pub fn copy(&self) -> (r: Self)
        ensures
            r.deep_view() == self.deep_view(),
    {
        DiagnosticSpan {
            raw_file_name: copy_opt(&self.raw_file_name),
            raw_line_start: self.raw_line_start,
            raw_line_end: self.raw_line_end,
            raw_column_start: self.raw_column_start,
            raw_column_end: self.raw_column_end,
            path: copy_opt(&self.path),
            line_start: self.line_start,
            line_end: self.line_end,
            column_start: self.column_start,
            column_end: self.column_end,
            is_primary: self.is_primary,
        }
    }
}

/// One diagnostic of an inventory, with its stable identities.
#[derive(Clone, Debug, PartialEq, Eq)]
pub struct DiagnosticRecord {
    pub observation_id: String,
    pub occurrence_id: String,
    pub semantic_id: String,
    pub context_id: Option<String>,
    pub producer: ProducerUnit,
    pub level_raw: String,
    pub level: String,
    pub code_raw: Option<String>,
    pub code: String,
    pub message: String,
    pub normalized_message: String,
    pub rendered: Option<String>,
    pub spans: Vec<DiagnosticSpan>,
    pub primary_span: Option<usize>,
}

/// A [`DiagnosticRecord`] as plain values.
pub struct RecordView {
    pub observation_id: Seq<char>,
    pub occurrence_id: Seq<char>,
    pub semantic_id: Seq<char>,
    pub context_id: Option<Seq<char>>,
    pub producer: ProducerView,
    pub level_raw: Seq<char>,
    pub level: Seq<char>,
    pub code_raw: Option<Seq<char>>,
    pub code: Seq<char>,
    pub message: Seq<char>,
    pub normalized_message: Seq<char>,
    pub rendered: Option<Seq<char>>,
    pub spans: Seq<SpanView>,
    pub primary_span: Option<usize>,
}

impl DeepView for DiagnosticRecord {
    type V = RecordView;

    open spec fn deep_view(&self) -> RecordView {
        RecordView {
            observation_id: self.observation_id@,
            occurrence_id: self.occurrence_id@,
            semantic_id: self.semantic_id@,
            context_id: self.context_id.deep_view(),
            producer: self.producer.deep_view(),
            level_raw: self.level_raw@,
            level: self.level@,
            code_raw: self.code_raw.deep_view(),
            code: self.code@,
            message: self.message@,
            normalized_message: self.normalized_message@,
            rendered: self.rendered.deep_view(),
            spans: self.spans.deep_view(),
            primary_span: self.primary_span,
        }
    }
}

impl DiagnosticRecord {
    /// A copy of this record.
    pub fn copy(&self) -> (r: Self)
        ensures
            r.deep_view() == self.deep_view(),
    {
        let mut spans: Vec<DiagnosticSpan> = Vec::new();
        let mut i: usize = 0;
        while i < self.spans.len()
            invariant
                i <= self.spans.len(),
                spans@.len() == i,
                forall|k: int| 0 <= k < i ==> (#[trigger] spans@[k]).deep_view() == self.spans@[k].deep_view(),
            decreases self.spans.len() - i,
        {
            spans.push(self.spans[i].copy());
            i = i + 1;
        }
        assert(spans.deep_view() =~= self.spans.deep_view());
        DiagnosticRecord {
            observation_id: self.observation_id.clone(),
            occurrence_id: self.occurrence_id.clone(),
            semantic_id: self.semantic_id.clone(),
            context_id: copy_opt(&self.context_id),
            producer: self.producer.copy(),
            level_raw: self.level_raw.clone(),
            level: self.level.clone(),
            code_raw: copy_opt(&self.code_raw),
            code: self.code.clone(),
            message: self.message.clone(),
            normalized_message: self.normalized_message.clone(),
            rendered: copy_opt(&self.rendered),
            spans,
            primary_span: self.primary_span,
        }
    }
}

/// The complete inventory of one analysis.
#[derive(Clone, Debug, PartialEq, Eq)]
pub struct Inventory {
    pub analysis: AnalysisProvenance,
    pub upstream: UpstreamEvidence,
    pub diagnostics: Vec<DiagnosticRecord>,
}

} // verus!
