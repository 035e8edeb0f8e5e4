//! Deterministic diagnostic pairing with explicit uncertainty.
//!
//! Two complete inventories are paired observation by observation. A pair
//! is confident only when it is unique in both directions under one of a
//! series of increasingly loose criteria; what remains connected by
//! plausible candidates is reported as ambiguous, and the rest as present
//! on one side only.
use vstd::prelude::*;
use crate::inventory::{
    opt_text_eq, text_eq, texts_eq, CompletionState, DiagnosticRecord, Inventory, RecordView,
    SpanView,
};
use crate::path_map::{compare_text, lex_lt, lemma_lex_total};
use crate::source::{location_spec, FileDeltaView, LocationMapping, MappingView, SourceChangeSet};
use crate::types::{repo_form, NormPath};

verus! {

/// A stable reference to one complete inventory observation.
#[derive(Clone, Debug, PartialEq, Eq)]
pub struct DiagnosticRef {
    pub observation_id: String,
    pub occurrence_id: String,
    pub semantic_id: String,
    pub diagnostic: DiagnosticRecord,
}

/// A [`DiagnosticRef`] as plain values.
pub struct RefView {
    pub observation_id: Seq<char>,
    pub occurrence_id: Seq<char>,
    pub semantic_id: Seq<char>,
    pub diagnostic: RecordView,
}

impl DeepView for DiagnosticRef {
    type V = RefView;

    open spec fn deep_view(&self) -> RefView {
        RefView {
            observation_id: self.observation_id@,
            occurrence_id: self.occurrence_id@,
            semantic_id: self.semantic_id@,
            diagnostic: self.diagnostic.deep_view(),
        }
    }
}

/// The reference a record yields: its identities and the record itself.
pub open spec fn ref_of(d: RecordView) -> RefView {
    RefView {
        observation_id: d.observation_id,
        occurrence_id: d.occurrence_id,
        semantic_id: d.semantic_id,
        diagnostic: d,
    }
}

impl DiagnosticRef {
    fn from_record(diagnostic: &DiagnosticRecord) -> (r: Self)
        ensures
            r.deep_view() == ref_of(diagnostic.deep_view()),
    {
        DiagnosticRef {
            observation_id: diagnostic.observation_id.clone(),
            occurrence_id: diagnostic.occurrence_id.clone(),
            semantic_id: diagnostic.semantic_id.clone(),
            diagnostic: diagnostic.copy(),
        }
    }

    fn copy(&self) -> (r: Self)
        ensures
            r.deep_view() == self.deep_view(),
    {
        DiagnosticRef {
            observation_id: self.observation_id.clone(),
            occurrence_id: self.occurrence_id.clone(),
            semantic_id: self.semantic_id.clone(),
            diagnostic: self.diagnostic.copy(),
        }
    }
}

/// The evidence basis for a confident pair.
#[derive(Clone, Copy, Debug, PartialEq, Eq, Structural)]
pub enum MatchBasis {
    ExactOccurrence,
    LineMapped,
    RenameMapped,
    SemanticUnique,
    ContextUnique,
    ModifiedContextUnique,
}

/// Reasons retained when a candidate set cannot support a confident pair.
#[derive(Clone, Copy, Debug, PartialEq, Eq, Structural, PartialOrd, Ord)]
pub enum ReasonCode {
    BaseAnalysisIncomplete,
    HeadAnalysisIncomplete,
    HardScopeMismatch,
    MultipleCandidates,
    NoEarnedCorrespondence,
}

/// Pairing evidence; it carries no change classification.
#[derive(Clone, Debug, PartialEq, Eq)]
pub enum PairingEvidence {
    Matched { base: Box<DiagnosticRef>, head: Box<DiagnosticRef>, basis: MatchBasis },
    BaseOnly { base: DiagnosticRef },
    HeadOnly { head: DiagnosticRef },
    Ambiguous {
        base_candidates: Vec<DiagnosticRef>,
        head_candidates: Vec<DiagnosticRef>,
        reasons: Vec<ReasonCode>,
    },
}

/// [`PairingEvidence`] as plain values.
pub enum EvidenceView {
    Matched(RefView, RefView, MatchBasis),
    BaseOnly(RefView),
    HeadOnly(RefView),
    Ambiguous(Seq<RefView>, Seq<RefView>, Seq<ReasonCode>),
}

impl DeepView for PairingEvidence {
    type V = EvidenceView;

    open spec fn deep_view(&self) -> EvidenceView {
        match self {
            PairingEvidence::Matched { base, head, basis } => EvidenceView::Matched(
                base.deep_view(),
                head.deep_view(),
                *basis,
            ),
            PairingEvidence::BaseOnly { base } => EvidenceView::BaseOnly(base.deep_view()),
            PairingEvidence::HeadOnly { head } => EvidenceView::HeadOnly(head.deep_view()),
            PairingEvidence::Ambiguous {
                base_candidates,
                head_candidates,
                reasons,
            } => EvidenceView::Ambiguous(
                base_candidates.deep_view(),
                head_candidates.deep_view(),
                reasons@,
            ),
        }
    }
}

/// Whether the two analyses support a full comparison.
#[derive(Clone, Copy, Debug, PartialEq, Eq, Structural)]
pub enum ComparabilityStatus {
    Comparable,
    Incomparable,
}

/// Comparability and the reasons against it.
#[derive(Clone, Debug, PartialEq, Eq)]
pub struct Comparability {
    pub status: ComparabilityStatus,
    pub reasons: Vec<ReasonCode>,
}

/// A contextual provenance field whose value changed.
#[derive(Clone, Debug, PartialEq, Eq)]
pub struct ContextualChange {
    pub field: String,
}

/// The pure result of pairing two complete inventories.
#[derive(Clone, Debug, PartialEq, Eq)]
pub struct DiagnosticComparison {
    pub comparability: Comparability,
    pub contextual_changes: Vec<ContextualChange>,
    pub evidence: Vec<PairingEvidence>,
}

// ---------------------------------------------------------------------------
// Comparability and contextual changes
// ---------------------------------------------------------------------------

/// Some hard provenance field differs between the two inventories.
pub open spec fn hard_scope_differs(base: Inventory, head: Inventory) -> bool {
    let b = base.analysis.hard;
    let h = head.analysis.hard;
    b.diagnostic_format@ != h.diagnostic_format@ || b.command.deep_view() != h.command.deep_view()
        || b.repository.deep_view() != h.repository.deep_view() || b.toolchain.deep_view()
        != h.toolchain.deep_view() || b.target.deep_view() != h.target.deep_view()
        || b.features.deep_view() != h.features.deep_view() || b.package_selection.deep_view()
        != h.package_selection.deep_view() || b.target_selection.deep_view()
        != h.target_selection.deep_view()
}

/// The reasons two inventories are not comparable, in ascending order.
pub open spec fn comparability_reasons_spec(base: Inventory, head: Inventory) -> Seq<ReasonCode> {
    (if base.upstream.completion != CompletionState::SuccessfulComplete {
        seq![ReasonCode::BaseAnalysisIncomplete]
    } else {
        seq![]
    }) + (if head.upstream.completion != CompletionState::SuccessfulComplete {
        seq![ReasonCode::HeadAnalysisIncomplete]
    } else {
        seq![]
    }) + (if hard_scope_differs(base, head) {
        seq![ReasonCode::HardScopeMismatch]
    } else {
        seq![]
    })
}

fn comparability_reasons(base: &Inventory, head: &Inventory) -> (r: Vec<ReasonCode>)
    ensures
        r@ == comparability_reasons_spec(*base, *head),
{
    let mut reasons: Vec<ReasonCode> = Vec::new();
    if base.upstream.completion != CompletionState::SuccessfulComplete {
        reasons.push(ReasonCode::BaseAnalysisIncomplete);
    }
    if head.upstream.completion != CompletionState::SuccessfulComplete {
        reasons.push(ReasonCode::HeadAnalysisIncomplete);
    }
    let b = &base.analysis.hard;
    let h = &head.analysis.hard;
    if !text_eq(b.diagnostic_format.as_str(), h.diagnostic_format.as_str()) || !texts_eq(
        &b.command,
        &h.command,
    ) || !opt_text_eq(&b.repository, &h.repository) || !opt_text_eq(&b.toolchain, &h.toolchain)
        || !opt_text_eq(&b.target, &h.target) || !texts_eq(&b.features, &h.features) || !texts_eq(
        &b.package_selection,
        &h.package_selection,
    ) || !texts_eq(&b.target_selection, &h.target_selection) {
        reasons.push(ReasonCode::HardScopeMismatch);
    }
    assert(reasons@ =~= comparability_reasons_spec(*base, *head));
    reasons
}

/// The named fields of the revision and contextual provenance that differ,
/// in a fixed order.
pub open spec fn contextual_changes_spec(base: Inventory, head: Inventory) -> Seq<Seq<char>> {
    let l = base.analysis.contextual;
    let r = head.analysis.contextual;
    (if base.analysis.hard.revision.deep_view() != head.analysis.hard.revision.deep_view() {
        seq!["revision"@]
    } else {
        seq![]
    }) + (if l.cargo_lock_hash.deep_view() != r.cargo_lock_hash.deep_view() {
        seq!["cargo_lock_hash"@]
    } else {
        seq![]
    }) + (if l.lint_config_hash.deep_view() != r.lint_config_hash.deep_view() {
        seq!["lint_config_hash"@]
    } else {
        seq![]
    }) + (if l.lintdiff_config_hash.deep_view() != r.lintdiff_config_hash.deep_view() {
        seq!["lintdiff_config_hash"@]
    } else {
        seq![]
    }) + (if l.changed_manifests.deep_view() != r.changed_manifests.deep_view() {
        seq!["changed_manifests"@]
    } else {
        seq![]
    }) + (if l.workflow.deep_view() != r.workflow.deep_view() {
        seq!["workflow"@]
    } else {
        seq![]
    }) + (if l.operating_system.deep_view() != r.operating_system.deep_view() {
        seq!["operating_system"@]
    } else {
        seq![]
    }) + (if l.architecture.deep_view() != r.architecture.deep_view() {
        seq!["architecture"@]
    } else {
        seq![]
    })
}

/// The field names of a list of contextual changes.
pub open spec fn change_fields(c: Seq<ContextualChange>) -> Seq<Seq<char>> {
    c.map_values(|x: ContextualChange| x.field@)
}

fn push_change(changes: &mut Vec<ContextualChange>, differs: bool, field: &str)
    ensures
        change_fields(final(changes)@) == change_fields(old(changes)@) + if differs {
            seq![field@]
        } else {
            Seq::<Seq<char>>::empty()
        },
{
    if differs {
        changes.push(ContextualChange { field: crate::text::to_string(field) });
        assert(change_fields(changes@) =~= change_fields(old(changes)@) + seq![field@]);
    } else {
        assert(change_fields(changes@) =~= change_fields(old(changes)@) + Seq::<Seq<char>>::empty());
    }
}

fn contextual_changes(base: &Inventory, head: &Inventory) -> (r: Vec<ContextualChange>)
    ensures
        change_fields(r@) == contextual_changes_spec(*base, *head),
{
    let mut changes: Vec<ContextualChange> = Vec::new();
    let l = &base.analysis.contextual;
    let r = &head.analysis.contextual;
    assert(change_fields(changes@) =~= Seq::<Seq<char>>::empty());
    push_change(
        &mut changes,
        !opt_text_eq(&base.analysis.hard.revision, &head.analysis.hard.revision),
        "revision",
    );
    push_change(&mut changes, !opt_text_eq(&l.cargo_lock_hash, &r.cargo_lock_hash), "cargo_lock_hash");
    push_change(
        &mut changes,
        !opt_text_eq(&l.lint_config_hash, &r.lint_config_hash),
        "lint_config_hash",
    );
    push_change(
        &mut changes,
        !opt_text_eq(&l.lintdiff_config_hash, &r.lintdiff_config_hash),
        "lintdiff_config_hash",
    );
    push_change(
        &mut changes,
        !texts_eq(&l.changed_manifests, &r.changed_manifests),
        "changed_manifests",
    );
    push_change(&mut changes, !opt_text_eq(&l.workflow, &r.workflow), "workflow");
    push_change(
        &mut changes,
        !opt_text_eq(&l.operating_system, &r.operating_system),
        "operating_system",
    );
    push_change(&mut changes, !opt_text_eq(&l.architecture, &r.architecture), "architecture");
    assert(change_fields(changes@) =~= contextual_changes_spec(*base, *head));
    changes
}

// ---------------------------------------------------------------------------
// Ordering references
// ---------------------------------------------------------------------------

/// `s` with `x` put after every element whose observation id is not larger.
pub open spec fn insert_by_id(s: Seq<RefView>, x: RefView) -> Seq<RefView>
    decreases s.len(),
{
    if s.len() == 0 {
        seq![x]
    } else if lex_lt(x.observation_id, s.last().observation_id) {
        insert_by_id(s.drop_last(), x).push(s.last())
    } else {
        s.push(x)
    }
}

/// The stable sort of references by observation id.
pub open spec fn sort_by_id(s: Seq<RefView>) -> Seq<RefView>
    decreases s.len(),
{
    if s.len() == 0 {
        s
    } else {
        insert_by_id(sort_by_id(s.drop_last()), s.last())
    }
}

/// The references of an inventory's records, ordered by observation id.
pub open spec fn sorted_refs_spec(records: Seq<RecordView>) -> Seq<RefView> {
    sort_by_id(records.map_values(|d: RecordView| ref_of(d)))
}

pub proof fn lemma_insert_by_id_at(s: Seq<RefView>, x: RefView, k: int)
    requires
        0 <= k <= s.len(),
        forall|j: int| k <= j < s.len() ==> lex_lt(x.observation_id, #[trigger] s[j].observation_id),
        k > 0 ==> !lex_lt(x.observation_id, s[k - 1].observation_id),
    ensures
        insert_by_id(s, x) == s.take(k) + seq![x] + s.skip(k),
    decreases s.len() - k,
{
    if s.len() == k {
        if k == 0 {
            assert(s.take(0) + seq![x] + s.skip(0) =~= seq![x]);
        } else {
            assert(s.take(k) + seq![x] + s.skip(k) =~= s.push(x));
        }
    } else {
        let t = s.drop_last();
        assert(lex_lt(x.observation_id, s[s.len() - 1].observation_id));
        lemma_insert_by_id_at(t, x, k);
        assert(t.take(k) + seq![x] + t.skip(k) + seq![s.last()] =~= s.take(k) + seq![x] + s.skip(k));
    }
}

fn insert_ref(s: &mut Vec<DiagnosticRef>, x: DiagnosticRef)
    ensures
        final(s).deep_view() == insert_by_id(old(s).deep_view(), x.deep_view()),
{
    let ghost sv = s.deep_view();
    let mut k = s.len();
    while k > 0 && compare_text(x.observation_id.as_str(), s[k - 1].observation_id.as_str()) < 0
        invariant
            k <= s.len(),
            sv == s.deep_view(),
            forall|j: int| k <= j < s.len() ==> lex_lt(x.observation_id@, #[trigger] sv[j].observation_id),
        decreases k,
    {
        k = k - 1;
    }
    proof {
        lemma_insert_by_id_at(sv, x.deep_view(), k as int);
    }
    let ghost xv = x.deep_view();
    s.insert(k, x);
    assert(s.deep_view() =~= sv.take(k as int) + seq![xv] + sv.skip(k as int));
}

fn sorted_refs(inventory: &Inventory) -> (r: Vec<DiagnosticRef>)
    ensures
        r.deep_view() == sorted_refs_spec(inventory.diagnostics.deep_view()),
{
    let ghost recs = inventory.diagnostics.deep_view();
    let ghost refs = recs.map_values(|d: RecordView| ref_of(d));
    let mut out: Vec<DiagnosticRef> = Vec::new();
    let mut i: usize = 0;
    assert(out.deep_view() =~= sort_by_id(refs.take(0)));
    while i < inventory.diagnostics.len()
        invariant
            i <= inventory.diagnostics.len(),
            recs == inventory.diagnostics.deep_view(),
            refs == recs.map_values(|d: RecordView| ref_of(d)),
            out.deep_view() == sort_by_id(refs.take(i as int)),
        decreases inventory.diagnostics.len() - i,
    {
        let x = DiagnosticRef::from_record(&inventory.diagnostics[i]);
        proof {
            assert(refs.take(i + 1).drop_last() =~= refs.take(i as int));
            assert(refs.take(i + 1).last() == x.deep_view());
        }
        insert_ref(&mut out, x);
        i = i + 1;
    }
    assert(refs.take(inventory.diagnostics.len() as int) =~= refs);
    out
}

// ---------------------------------------------------------------------------
// Locations
// ---------------------------------------------------------------------------

/// The first span that names a path.
pub open spec fn first_span_with_path(spans: Seq<SpanView>) -> Option<SpanView>
    decreases spans.len(),
{
    if spans.len() == 0 {
        None
    } else if spans[0].path is Some {
        Some(spans[0])
    } else {
        first_span_with_path(spans.drop_first())
    }
}

/// The span that locates a record: its primary span when that index is
/// valid, else the first span that names a path.
pub open spec fn locating_span(d: RecordView) -> Option<SpanView> {
    match d.primary_span {
        Some(i) => if i < d.spans.len() {
            Some(d.spans[i as int])
        } else {
            first_span_with_path(d.spans)
        },
        None => first_span_with_path(d.spans),
    }
}

/// The repository path and first line that locate a reference.
pub open spec fn diagnostic_path_spec(r: RefView) -> Option<(Seq<char>, u32)> {
    match locating_span(r.diagnostic) {
        None => None,
        Some(sp) => match (sp.path, sp.line_start) {
            (Some(p), Some(l)) => Some((repo_form(p), l)),
            _ => None,
        },
    }
}

fn first_path_index(spans: &Vec<crate::inventory::DiagnosticSpan>) -> (r: Option<usize>)
    ensures
        match r {
            Some(i) => i < spans.len() && first_span_with_path(spans.deep_view()) == Some(
                spans.deep_view()[i as int],
            ),
            None => first_span_with_path(spans.deep_view()) is None,
        },
{
    let ghost sv = spans.deep_view();
    let mut k: usize = 0;
    assert(sv.skip(0) =~= sv);
    while k < spans.len()
        invariant
            k <= spans.len(),
            sv == spans.deep_view(),
            first_span_with_path(sv) == first_span_with_path(sv.skip(k as int)),
        decreases spans.len() - k,
    {
        assert(sv.skip(k as int).drop_first() =~= sv.skip(k + 1));
        if spans[k].path.is_some() {
            return Some(k);
        }
        k = k + 1;
    }
    None
}

impl DiagnosticRef {
    /// The repository path and first line that locate this diagnostic.
    pub fn diagnostic_path(&self) -> (r: Option<(NormPath, u32)>)
        ensures
            match r {
                Some((p, l)) => diagnostic_path_spec(self.deep_view()) == Some((p@, l)),
                None => diagnostic_path_spec(self.deep_view()) is None,
            },
    {
        let spans = &self.diagnostic.spans;
        let ghost sv = spans.deep_view();
        let mut chosen: Option<usize> = None;
        match self.diagnostic.primary_span {
            Some(i) => {
                if i < spans.len() {
                    chosen = Some(i);
                }
            },
            None => {},
        }
        if chosen.is_none() {
            chosen = first_path_index(spans);
        }
        match chosen {
            None => None,
            Some(i) => {
                let sp = &spans[i];
                match (&sp.path, sp.line_start) {
                    (Some(p), Some(l)) => Some((NormPath::from_repo_path(p.as_str()), l)),
                    _ => None,
                }
            },
        }
    }
}

/// How two located diagnostics relate.
#[derive(Clone, Copy, Debug, PartialEq, Eq, Structural)]
enum MatchMovement {
    Same,
    Shifted,
    Renamed,
    ShiftedAndRenamed,
    Unknown,
}

/// How a base diagnostic's location relates to a head diagnostic's, by the
/// change set: `None` when the change set earns no correspondence.
spec fn location_relation_spec(
    b: RefView,
    h: RefView,
    src: Seq<(Seq<char>, FileDeltaView)>,
) -> Option<MatchMovement> {
    match (diagnostic_path_spec(b), diagnostic_path_spec(h)) {
        (None, None) => Some(MatchMovement::Unknown),
        (Some((bp, bl)), Some((hp, hl))) => if bp == hp && bl == hl {
            Some(MatchMovement::Same)
        } else {
            match location_spec(src, bp, bl) {
                MappingView::Exact(n, l) => if n == hp && l == hl {
                    Some(MatchMovement::Same)
                } else {
                    None
                },
                MappingView::Shifted(n, l) => if n == hp && l == hl {
                    Some(MatchMovement::Shifted)
                } else {
                    None
                },
                MappingView::Renamed(_, n, l) => if n == hp && l == hl {
                    Some(MatchMovement::Renamed)
                } else {
                    None
                },
                MappingView::ShiftedAndRenamed(_, n, l) => if n == hp && l == hl {
                    Some(MatchMovement::ShiftedAndRenamed)
                } else {
                    None
                },
                _ => None,
            }
        },
        _ => None,
    }
}

/// The change set earns a correspondence between the two locations.
pub open spec fn locations_related(
    b: RefView,
    h: RefView,
    src: Seq<(Seq<char>, FileDeltaView)>,
) -> bool {
    match (diagnostic_path_spec(b), diagnostic_path_spec(h)) {
        (None, None) => true,
        (Some((bp, bl)), Some((hp, hl))) => (bp == hp && bl == hl) || match location_spec(
            src,
            bp,
            bl,
        ) {
            MappingView::Exact(n, l) => n == hp && l == hl,
            MappingView::Shifted(n, l) => n == hp && l == hl,
            MappingView::Renamed(_, n, l) => n == hp && l == hl,
            MappingView::ShiftedAndRenamed(_, n, l) => n == hp && l == hl,
            _ => false,
        },
        _ => false,
    }
}

proof fn lemma_relation_related(b: RefView, h: RefView, src: Seq<(Seq<char>, FileDeltaView)>)
    ensures
        location_relation_spec(b, h, src) is Some == locations_related(b, h, src),
{
}

fn location_relation(
    base: &DiagnosticRef,
    head: &DiagnosticRef,
    source: &SourceChangeSet,
) -> (r: Option<MatchMovement>)
    ensures
        r == location_relation_spec(base.deep_view(), head.deep_view(), source.files.seq()),
{
    let bl = base.diagnostic_path();
    let hl = head.diagnostic_path();
    match (bl, hl) {
        (None, None) => Some(MatchMovement::Unknown),
        (Some((bp, bline)), Some((hp, hline))) => {
            if bp.same_as(&hp) && bline == hline {
                return Some(MatchMovement::Same);
            }
            let m = source.map_old_location(&bp, bline);
            match m {
                LocationMapping::Exact { new_path, new_line } => {
                    if new_path.same_as(&hp) && new_line == hline {
                        Some(MatchMovement::Same)
                    } else {
                        None
                    }
                },
                LocationMapping::Shifted { new_path, new_line } => {
                    if new_path.same_as(&hp) && new_line == hline {
                        Some(MatchMovement::Shifted)
                    } else {
                        None
                    }
                },
                LocationMapping::Renamed { new_path, new_line, .. } => {
                    if new_path.same_as(&hp) && new_line == hline {
                        Some(MatchMovement::Renamed)
                    } else {
                        None
                    }
                },
                LocationMapping::ShiftedAndRenamed { new_path, new_line, .. } => {
                    if new_path.same_as(&hp) && new_line == hline {
                        Some(MatchMovement::ShiftedAndRenamed)
                    } else {
                        None
                    }
                },
                _ => None,
            }
        },
        _ => None,
    }
}

// ---------------------------------------------------------------------------
// Unique pairing passes
// ---------------------------------------------------------------------------

/// The criteria of the unique-pairing passes, applied in this order.
#[derive(Clone, Copy, Debug, PartialEq, Eq, Structural)]
pub enum PairingPass {
    Exact,
    Mapped,
    Semantic,
    Context,
    Modified,
}

/// Both diagnostics come from the same producer unit.
pub open spec fn same_producer(b: RefView, h: RefView) -> bool {
    b.diagnostic.producer == h.diagnostic.producer
}

/// Whether a base and a head reference meet a pass's criterion.
pub open spec fn pass_matches(p: PairingPass, b: RefView, h: RefView, src: Seq<(Seq<char>, FileDeltaView)>) -> bool {
    same_producer(b, h) && match p {
        PairingPass::Exact => b.occurrence_id == h.occurrence_id,
        PairingPass::Mapped => b.diagnostic.code == h.diagnostic.code && b.diagnostic.normalized_message
            == h.diagnostic.normalized_message && locations_related(b, h, src),
        PairingPass::Semantic => b.semantic_id == h.semantic_id && locations_related(b, h, src),
        PairingPass::Context => b.diagnostic.context_id is Some && b.diagnostic.context_id
            == h.diagnostic.context_id && locations_related(b, h, src),
        PairingPass::Modified => b.diagnostic.code == h.diagnostic.code && b.semantic_id != h.semantic_id
            && locations_related(b, h, src),
    }
}

/// A line-mapped pair is rename-mapped when its two paths differ.
pub open spec fn mapped_basis_spec(b: RefView, h: RefView) -> MatchBasis {
    match (diagnostic_path_spec(b), diagnostic_path_spec(h)) {
        (Some((bp, _)), Some((hp, _))) => if bp != hp {
            MatchBasis::RenameMapped
        } else {
            MatchBasis::LineMapped
        },
        _ => MatchBasis::LineMapped,
    }
}

/// The basis recorded for a pair made by a pass.
pub open spec fn pass_basis(p: PairingPass, b: RefView, h: RefView) -> MatchBasis {
    match p {
        PairingPass::Exact => MatchBasis::ExactOccurrence,
        PairingPass::Mapped => mapped_basis_spec(b, h),
        PairingPass::Semantic => MatchBasis::SemanticUnique,
        PairingPass::Context => MatchBasis::ContextUnique,
        PairingPass::Modified => MatchBasis::ModifiedContextUnique,
    }
}

/// Unused head indices below `n` that meet the pass's criterion with `b`.
pub open spec fn head_candidates(
    p: PairingPass,
    b: RefView,
    head: Seq<RefView>,
    hu: Seq<bool>,
    src: Seq<(Seq<char>, FileDeltaView)>,
    n: int,
) -> Seq<int>
    decreases n,
{
    if n <= 0 {
        seq![]
    } else {
        let prev = head_candidates(p, b, head, hu, src, n - 1);
        if !hu[n - 1] && pass_matches(p, b, head[n - 1], src) {
            prev.push(n - 1)
        } else {
            prev
        }
    }
}

/// Number of unused base indices below `n` that meet the criterion with `h`.
pub open spec fn base_candidate_count(
    p: PairingPass,
    base: Seq<RefView>,
    bu: Seq<bool>,
    h: RefView,
    src: Seq<(Seq<char>, FileDeltaView)>,
    n: int,
) -> nat
    decreases n,
{
    if n <= 0 {
        0
    } else {
        base_candidate_count(p, base, bu, h, src, n - 1) + if !bu[n - 1] && pass_matches(
            p,
            base[n - 1],
            h,
            src,
        ) {
            1nat
        } else {
            0nat
        }
    }
}

/// The pairing state: which base and head references are used, and the
/// evidence so far.
pub struct PairState {
    pub bu: Seq<bool>,
    pub hu: Seq<bool>,
    pub ev: Seq<EvidenceView>,
}

/// One step of a pass at base index `i`: pair it with its only candidate
/// when that candidate in turn has only it.
pub open spec fn pair_step(
    p: PairingPass,
    base: Seq<RefView>,
    head: Seq<RefView>,
    src: Seq<(Seq<char>, FileDeltaView)>,
    st: PairState,
    i: int,
) -> PairState {
    if st.bu[i] {
        st
    } else {
        let c = head_candidates(p, base[i], head, st.hu, src, head.len() as int);
        if c.len() != 1 {
            st
        } else {
            let j = c[0];
            if base_candidate_count(p, base, st.bu, head[j], src, base.len() as int) != 1 {
                st
            } else {
                PairState {
                    bu: st.bu.update(i, true),
                    hu: st.hu.update(j, true),
                    ev: st.ev.push(EvidenceView::Matched(base[i], head[j], pass_basis(p, base[i], head[j]))),
                }
            }
        }
    }
}

/// A pass over the first `n` base indices.
pub open spec fn pair_pass(
    p: PairingPass,
    base: Seq<RefView>,
    head: Seq<RefView>,
    src: Seq<(Seq<char>, FileDeltaView)>,
    st: PairState,
    n: int,
) -> PairState
    decreases n,
{
    if n <= 0 {
        st
    } else {
        pair_step(p, base, head, src, pair_pass(p, base, head, src, st, n - 1), n - 1)
    }
}

fn pass_match(p: PairingPass, b: &DiagnosticRef, h: &DiagnosticRef, source: &SourceChangeSet) -> (r: bool)
    ensures
        r == pass_matches(p, b.deep_view(), h.deep_view(), source.files.seq()),
{
    if !b.diagnostic.producer.same_as(&h.diagnostic.producer) {
        return false;
    }
    proof {
        lemma_relation_related(b.deep_view(), h.deep_view(), source.files.seq());
    }
    match p {
        PairingPass::Exact => text_eq(b.occurrence_id.as_str(), h.occurrence_id.as_str()),
        PairingPass::Mapped => text_eq(b.diagnostic.code.as_str(), h.diagnostic.code.as_str()) && text_eq(
            b.diagnostic.normalized_message.as_str(),
            h.diagnostic.normalized_message.as_str(),
        ) && location_relation(b, h, source).is_some(),
        PairingPass::Semantic => text_eq(b.semantic_id.as_str(), h.semantic_id.as_str())
            && location_relation(b, h, source).is_some(),
        PairingPass::Context => b.diagnostic.context_id.is_some() && opt_text_eq(
            &b.diagnostic.context_id,
            &h.diagnostic.context_id,
        ) && location_relation(b, h, source).is_some(),
        PairingPass::Modified => text_eq(b.diagnostic.code.as_str(), h.diagnostic.code.as_str()) && !text_eq(
            b.semantic_id.as_str(),
            h.semantic_id.as_str(),
        ) && location_relation(b, h, source).is_some(),
    }
}

fn mapped_basis(b: &DiagnosticRef, h: &DiagnosticRef) -> (r: MatchBasis)
    ensures
        r == mapped_basis_spec(b.deep_view(), h.deep_view()),
{
    match (b.diagnostic_path(), h.diagnostic_path()) {
        (Some((bp, _)), Some((hp, _))) => {
            if !bp.same_as(&hp) {
                MatchBasis::RenameMapped
            } else {
                MatchBasis::LineMapped
            }
        },
        _ => MatchBasis::LineMapped,
    }
}

fn basis_for(p: PairingPass, b: &DiagnosticRef, h: &DiagnosticRef) -> (r: MatchBasis)
    ensures
        r == pass_basis(p, b.deep_view(), h.deep_view()),
{
    match p {
        PairingPass::Exact => MatchBasis::ExactOccurrence,
        PairingPass::Mapped => mapped_basis(b, h),
        PairingPass::Semantic => MatchBasis::SemanticUnique,
        PairingPass::Context => MatchBasis::ContextUnique,
        PairingPass::Modified => MatchBasis::ModifiedContextUnique,
    }
}

/// The view of a pairing state held in exec values.
spec fn state_of(bu: Seq<bool>, hu: Seq<bool>, ev: Seq<EvidenceView>) -> PairState {
    PairState { bu, hu, ev }
}

/// Runs one unique-pairing pass.
fn pair_unique(
    p: PairingPass,
    base: &Vec<DiagnosticRef>,
    head: &Vec<DiagnosticRef>,
    base_used: &mut Vec<bool>,
    head_used: &mut Vec<bool>,
    evidence: &mut Vec<PairingEvidence>,
    source: &SourceChangeSet,
)
    requires
        old(base_used).len() == base.len(),
        old(head_used).len() == head.len(),
    ensures
        final(base_used).len() == base.len(),
        final(head_used).len() == head.len(),
        state_of(final(base_used)@, final(head_used)@, final(evidence).deep_view()) == pair_pass(
            p,
            base.deep_view(),
            head.deep_view(),
            source.files.seq(),
            state_of(old(base_used)@, old(head_used)@, old(evidence).deep_view()),
            base.len() as int,
        ),
{
    let ghost bv = base.deep_view();
    let ghost hv = head.deep_view();
    let ghost src = source.files.seq();
    let ghost st0 = state_of(base_used@, head_used@, evidence.deep_view());
    let mut bi: usize = 0;
    while bi < base.len()
        invariant
            bi <= base.len(),
            base_used.len() == base.len(),
            head_used.len() == head.len(),
            bv == base.deep_view(),
            hv == head.deep_view(),
            src == source.files.seq(),
            state_of(base_used@, head_used@, evidence.deep_view()) == pair_pass(
                p,
                bv,
                hv,
                src,
                st0,
                bi as int,
            ),
        decreases base.len() - bi,
    {
        let ghost st = state_of(base_used@, head_used@, evidence.deep_view());
        if !base_used[bi] {
            // Candidates among unused heads.
            let mut count: usize = 0;
            let mut first: usize = 0;
            let mut j: usize = 0;
            while j < head.len()
                invariant
                    j <= head.len(),
                    head_used.len() == head.len(),
                    bi < base.len(),
                    bv == base.deep_view(),
                    hv == head.deep_view(),
                    src == source.files.seq(),
                    count == head_candidates(p, bv[bi as int], hv, head_used@, src, j as int).len(),
                    count >= 1 ==> first == head_candidates(
                        p,
                        bv[bi as int],
                        hv,
                        head_used@,
                        src,
                        j as int,
                    )[0],
                    count <= j,
                decreases head.len() - j,
            {
                if !head_used[j] && pass_match(p, &base[bi], &head[j], source) {
                    if count == 0 {
                        first = j;
                    }
                    count = count + 1;
                }
                j = j + 1;
            }
            if count == 1 {
                let hj = first;
                let mut reverse: usize = 0;
                let mut k: usize = 0;
                proof {
                    lemma_candidates_in_range(p, bv[bi as int], hv, head_used@, src, head.len() as int);
                }
                while k < base.len()
                    invariant
                        k <= base.len(),
                        base_used.len() == base.len(),
                        hj < head.len(),
                        bv == base.deep_view(),
                        hv == head.deep_view(),
                        src == source.files.seq(),
                        reverse == base_candidate_count(p, bv, base_used@, hv[hj as int], src, k as int),
                        reverse <= k,
                    decreases base.len() - k,
                {
                    if !base_used[k] && pass_match(p, &base[k], &head[hj], source) {
                        reverse = reverse + 1;
                    }
                    k = k + 1;
                }
                if reverse == 1 {
                    let basis = basis_for(p, &base[bi], &head[hj]);
                    let bref = base[bi].copy();
                    let href = head[hj].copy();
                    let ghost ev_old = evidence.deep_view();
                    base_used.set(bi, true);
                    head_used.set(hj, true);
                    evidence.push(
                        PairingEvidence::Matched { base: Box::new(bref), head: Box::new(href), basis },
                    );
                    proof {
                        assert(evidence.deep_view() =~= ev_old.push(
                            EvidenceView::Matched(bv[bi as int], hv[hj as int], basis),
                        ));
                    }
                }
            }
        }
        bi = bi + 1;
    }
}

proof fn lemma_candidates_in_range(
    p: PairingPass,
    b: RefView,
    head: Seq<RefView>,
    hu: Seq<bool>,
    src: Seq<(Seq<char>, FileDeltaView)>,
    n: int,
)
    requires
        0 <= n,
    ensures
        forall|k: int|
            0 <= k < head_candidates(p, b, head, hu, src, n).len() ==> 0 <= #[trigger] head_candidates(
                p,
                b,
                head,
                hu,
                src,
                n,
            )[k] < n,
    decreases n,
{
    if n > 0 {
        lemma_candidates_in_range(p, b, head, hu, src, n - 1);
        let prev = head_candidates(p, b, head, hu, src, n - 1);
        let cur = head_candidates(p, b, head, hu, src, n);
        assert forall|k: int| 0 <= k < cur.len() implies 0 <= #[trigger] cur[k] < n by {
            if k < prev.len() {
                assert(cur[k] == prev[k]);
            }
        }
    }
}

// ---------------------------------------------------------------------------
// Ambiguous groups
// ---------------------------------------------------------------------------

/// A base and a head reference are plausible candidates for each other.
pub open spec fn candidate_pair_spec(b: RefView, h: RefView, src: Seq<(Seq<char>, FileDeltaView)>) -> bool {
    same_producer(b, h) && (b.semantic_id == h.semantic_id || b.diagnostic.code == h.diagnostic.code)
        && (src.len() == 0 || locations_related(b, h, src))
}

/// `(bg, hg)` holds unused indices only and is closed under the candidate
/// relation among unused references.
pub open spec fn group_closed(
    bg: Set<int>,
    hg: Set<int>,
    base: Seq<RefView>,
    head: Seq<RefView>,
    bu: Seq<bool>,
    hu: Seq<bool>,
    src: Seq<(Seq<char>, FileDeltaView)>,
) -> bool {
    &&& forall|b: int| #[trigger] bg.contains(b) ==> 0 <= b < base.len() && !bu[b]
    &&& forall|h: int| #[trigger] hg.contains(h) ==> 0 <= h < head.len() && !hu[h]
    &&& forall|b: int, h: int|
        bg.contains(b) && 0 <= h < head.len() && !hu[h] && #[trigger] candidate_pair_spec(
            base[b],
            head[h],
            src,
        ) ==> hg.contains(h)
    &&& forall|b: int, h: int|
        hg.contains(h) && 0 <= b < base.len() && !bu[b] && #[trigger] candidate_pair_spec(
            base[b],
            head[h],
            src,
        ) ==> bg.contains(b)
}

/// `(bg, hg)` is the smallest closed group that holds base index `start`:
/// the references connected to `start` by candidate links among unused ones.
pub open spec fn least_group(
    bg: Set<int>,
    hg: Set<int>,
    start: int,
    base: Seq<RefView>,
    head: Seq<RefView>,
    bu: Seq<bool>,
    hu: Seq<bool>,
    src: Seq<(Seq<char>, FileDeltaView)>,
) -> bool {
    &&& bg.contains(start)
    &&& group_closed(bg, hg, base, head, bu, hu, src)
    &&& forall|b2: Set<int>, h2: Set<int>|
        b2.contains(start) && #[trigger] group_closed(b2, h2, base, head, bu, hu, src) ==> bg.subset_of(
            b2,
        ) && hg.subset_of(h2)
}

/// The group connected to base index `start`.
pub open spec fn group_for(
    start: int,
    base: Seq<RefView>,
    head: Seq<RefView>,
    bu: Seq<bool>,
    hu: Seq<bool>,
    src: Seq<(Seq<char>, FileDeltaView)>,
) -> (Set<int>, Set<int>) {
    choose|g: (Set<int>, Set<int>)| least_group(g.0, g.1, start, base, head, bu, hu, src)
}

/// Some unused head reference is a candidate for `b`.
pub open spec fn has_candidate_head(
    b: RefView,
    head: Seq<RefView>,
    hu: Seq<bool>,
    src: Seq<(Seq<char>, FileDeltaView)>,
) -> bool {
    exists|h: int| 0 <= h < head.len() && !hu[h] && #[trigger] candidate_pair_spec(b, head[h], src)
}

/// The elements of `s` whose flag is set, in order.
pub open spec fn pick(s: Seq<RefView>, flags: Seq<bool>) -> Seq<RefView>
    decreases flags.len(),
{
    if flags.len() == 0 {
        seq![]
    } else {
        pick(s, flags.drop_last()) + if flags.last() {
            seq![s[flags.len() - 1]]
        } else {
            seq![]
        }
    }
}

/// Membership flags of a set of indices below `n`.
pub open spec fn flags_of(g: Set<int>, n: nat) -> Seq<bool> {
    Seq::new(n, |i: int| g.contains(i))
}

/// The set of indices whose flag is set.
pub open spec fn flag_set(flags: Seq<bool>) -> Set<int> {
    Set::new(|i: int| 0 <= i < flags.len() && flags[i])
}

/// `used` with every index of `g` marked.
pub open spec fn mark(used: Seq<bool>, g: Set<int>) -> Seq<bool> {
    Seq::new(used.len(), |i: int| used[i] || g.contains(i))
}

/// The reasons for an ambiguous group.
pub open spec fn group_reasons(nb: nat, nh: nat) -> Seq<ReasonCode> {
    if nb > 1 || nh > 1 {
        seq![ReasonCode::MultipleCandidates, ReasonCode::NoEarnedCorrespondence]
    } else {
        seq![ReasonCode::NoEarnedCorrespondence]
    }
}

/// At base index `i`: when it is unused and has a candidate, its connected
/// group becomes one ambiguous evidence item and is marked used.
pub open spec fn ambiguous_step(
    base: Seq<RefView>,
    head: Seq<RefView>,
    src: Seq<(Seq<char>, FileDeltaView)>,
    st: PairState,
    i: int,
) -> PairState {
    if st.bu[i] || !has_candidate_head(base[i], head, st.hu, src) {
        st
    } else {
        let g = group_for(i, base, head, st.bu, st.hu, src);
        let bs = pick(base, flags_of(g.0, base.len()));
        let hs = pick(head, flags_of(g.1, head.len()));
        PairState {
            bu: mark(st.bu, g.0),
            hu: mark(st.hu, g.1),
            ev: st.ev.push(EvidenceView::Ambiguous(bs, hs, group_reasons(bs.len(), hs.len()))),
        }
    }
}

/// The ambiguous-group pass over the first `n` base indices.
pub open spec fn ambiguous_pass(
    base: Seq<RefView>,
    head: Seq<RefView>,
    src: Seq<(Seq<char>, FileDeltaView)>,
    st: PairState,
    n: int,
) -> PairState
    decreases n,
{
    if n <= 0 {
        st
    } else {
        ambiguous_step(base, head, src, ambiguous_pass(base, head, src, st, n - 1), n - 1)
    }
}

/// Number of set flags.
pub open spec fn count_true(s: Seq<bool>) -> nat
    decreases s.len(),
{
    if s.len() == 0 {
        0
    } else {
        count_true(s.drop_last()) + if s.last() {
            1nat
        } else {
            0nat
        }
    }
}

proof fn lemma_count_true(s: Seq<bool>, i: int)
    requires
        0 <= i < s.len(),
        !s[i],
    ensures
        count_true(s.update(i, true)) == count_true(s) + 1,
        count_true(s) < s.len(),
    decreases s.len(),
{
    let u = s.update(i, true);
    if i == s.len() - 1 {
        assert(u.drop_last() =~= s.drop_last());
        lemma_count_bound(s.drop_last());
    } else {
        assert(u.drop_last() =~= s.drop_last().update(i, true));
        lemma_count_true(s.drop_last(), i);
    }
}

proof fn lemma_count_bound(s: Seq<bool>)
    ensures
        count_true(s) <= s.len(),
    decreases s.len(),
{
    if s.len() > 0 {
        lemma_count_bound(s.drop_last());
    }
}

proof fn lemma_least_unique(
    b1: Set<int>,
    h1: Set<int>,
    b2: Set<int>,
    h2: Set<int>,
    start: int,
    base: Seq<RefView>,
    head: Seq<RefView>,
    bu: Seq<bool>,
    hu: Seq<bool>,
    src: Seq<(Seq<char>, FileDeltaView)>,
)
    requires
        least_group(b1, h1, start, base, head, bu, hu, src),
        least_group(b2, h2, start, base, head, bu, hu, src),
    ensures
        b1 == b2,
        h1 == h2,
{
    assert(group_closed(b2, h2, base, head, bu, hu, src));
    assert(group_closed(b1, h1, base, head, bu, hu, src));
    assert(b1 =~= b2);
    assert(h1 =~= h2);
}

/// Whether some head in the group is a candidate for `b`.
fn linked_to_heads(
    b: &DiagnosticRef,
    head: &Vec<DiagnosticRef>,
    in_h: &Vec<bool>,
    source: &SourceChangeSet,
) -> (r: Option<usize>)
    requires
        in_h.len() == head.len(),
    ensures
        match r {
            Some(h) => h < head.len() && in_h[h as int] && candidate_pair_spec(
                b.deep_view(),
                head.deep_view()[h as int],
                source.files.seq(),
            ),
            None => forall|h: int|
                0 <= h < head.len() && in_h[h] ==> !#[trigger] candidate_pair_spec(
                    b.deep_view(),
                    head.deep_view()[h],
                    source.files.seq(),
                ),
        },
{
    let mut j: usize = 0;
    while j < head.len()
        invariant
            j <= head.len(),
            in_h.len() == head.len(),
            forall|h: int|
                0 <= h < j && in_h[h] ==> !#[trigger] candidate_pair_spec(
                    b.deep_view(),
                    head.deep_view()[h],
                    source.files.seq(),
                ),
        decreases head.len() - j,
    {
        if in_h[j] && candidate_pair(b, &head[j], source) {
            return Some(j);
        }
        j = j + 1;
    }
    None
}

/// Whether some base in the group is a candidate for `h`.
fn linked_to_bases(
    h: &DiagnosticRef,
    base: &Vec<DiagnosticRef>,
    in_b: &Vec<bool>,
    source: &SourceChangeSet,
) -> (r: Option<usize>)
    requires
        in_b.len() == base.len(),
    ensures
        match r {
            Some(b) => b < base.len() && in_b[b as int] && candidate_pair_spec(
                base.deep_view()[b as int],
                h.deep_view(),
                source.files.seq(),
            ),
            None => forall|b: int|
                0 <= b < base.len() && in_b[b] ==> !#[trigger] candidate_pair_spec(
                    base.deep_view()[b],
                    h.deep_view(),
                    source.files.seq(),
                ),
        },
{
    let mut j: usize = 0;
    while j < base.len()
        invariant
            j <= base.len(),
            in_b.len() == base.len(),
            forall|b: int|
                0 <= b < j && in_b[b] ==> !#[trigger] candidate_pair_spec(
                    base.deep_view()[b],
                    h.deep_view(),
                    source.files.seq(),
                ),
        decreases base.len() - j,
    {
        if in_b[j] && candidate_pair(&base[j], h, source) {
            return Some(j);
        }
        j = j + 1;
    }
    None
}

fn candidate_pair(b: &DiagnosticRef, h: &DiagnosticRef, source: &SourceChangeSet) -> (r: bool)
    ensures
        r == candidate_pair_spec(b.deep_view(), h.deep_view(), source.files.seq()),
{
    proof {
        lemma_relation_related(b.deep_view(), h.deep_view(), source.files.seq());
    }
    b.diagnostic.producer.same_as(&h.diagnostic.producer) && (text_eq(
        b.semantic_id.as_str(),
        h.semantic_id.as_str(),
    ) || text_eq(b.diagnostic.code.as_str(), h.diagnostic.code.as_str())) && (
    source.files.is_empty() || location_relation(b, h, source).is_some())
}

/// The group connected to base index `start`: flags of its base and head members.
fn grow_group(
    start: usize,
    base: &Vec<DiagnosticRef>,
    head: &Vec<DiagnosticRef>,
    base_used: &Vec<bool>,
    head_used: &Vec<bool>,
    source: &SourceChangeSet,
) -> (r: Option<(Vec<bool>, Vec<bool>)>)
    requires
        start < base.len(),
        base_used.len() == base.len(),
        head_used.len() == head.len(),
        !base_used[start as int],
    ensures
        match r {
            None => !has_candidate_head(
                base.deep_view()[start as int],
                head.deep_view(),
                head_used@,
                source.files.seq(),
            ),
            Some((fb, fh)) => has_candidate_head(
                base.deep_view()[start as int],
                head.deep_view(),
                head_used@,
                source.files.seq(),
            ) && fb.len() == base.len() && fh.len() == head.len() && least_group(
                flag_set(fb@),
                flag_set(fh@),
                start as int,
                base.deep_view(),
                head.deep_view(),
                base_used@,
                head_used@,
                source.files.seq(),
            ),
        },
{
    let ghost bv = base.deep_view();
    let ghost hv = head.deep_view();
    let ghost src = source.files.seq();
    let ghost bu = base_used@;
    let ghost hu = head_used@;
    let mut in_h: Vec<bool> = Vec::new();
    let mut any = false;
    let ghost mut wit: int = 0;
    let mut j: usize = 0;
    while j < head.len()
        invariant
            j <= head.len(),
            start < base.len(),
            head_used.len() == head.len(),
            bv == base.deep_view(),
            hv == head.deep_view(),
            src == source.files.seq(),
            hu == head_used@,
            in_h@ == Seq::new(j as nat, |h: int| !hu[h] && candidate_pair_spec(bv[start as int], hv[h], src)),
            !any ==> forall|h: int| 0 <= h < j ==> !in_h[h],
            any ==> 0 <= wit < hv.len() && !hu[wit] && candidate_pair_spec(bv[start as int], hv[wit], src),
        decreases head.len() - j,
    {
        let c = !head_used[j] && candidate_pair(&base[start], &head[j], source);
        in_h.push(c);
        proof {
            assert(bv[start as int] == base@[start as int].deep_view());
            assert(hv[j as int] == head@[j as int].deep_view());
            assert(c == (!hu[j as int] && candidate_pair_spec(bv[start as int], hv[j as int], src)));
            assert(in_h@ =~= Seq::new((j + 1) as nat, |h: int| !hu[h] && candidate_pair_spec(bv[start as int], hv[h], src)));
        }
        if c {
            any = true;
            proof {
                wit = j as int;
            }
        }
        j = j + 1;
    }
    if !any {
        proof {
            assert forall|h: int| 0 <= h < hv.len() && !hu[h] implies !#[trigger] candidate_pair_spec(
                bv[start as int],
                hv[h],
                src,
            ) by {
                assert(!in_h[h]);
            }
        }
        return None;
    }
    proof {
        assert forall|h: int| 0 <= h < in_h.len() && #[trigger] in_h[h] implies !hu[h] by {
            assert(in_h[h] == (!hu[h] && candidate_pair_spec(bv[start as int], hv[h], src)));
        }
    }
    let mut in_b: Vec<bool> = Vec::new();
    let mut k: usize = 0;
    while k < base.len()
        invariant
            k <= base.len(),
            start < base.len(),
            in_b.len() == k,
            forall|b: int| 0 <= b < k ==> in_b[b] == (b == start),
        decreases base.len() - k,
    {
        in_b.push(k == start);
        k = k + 1;
    }
    proof {
        // Every closed group holding `start` holds the initial members.
        assert forall|b2: Set<int>, h2: Set<int>|
            b2.contains(start as int) && #[trigger] group_closed(b2, h2, bv, hv, bu, hu, src) implies flag_set(
            in_b@,
        ).subset_of(b2) && flag_set(in_h@).subset_of(h2) by {
            assert forall|h: int| flag_set(in_h@).contains(h) implies h2.contains(h) by {
                assert(candidate_pair_spec(bv[start as int], hv[h], src));
            }
        }
    }
    loop
        invariant
            0 <= wit < hv.len(),
            !hu[wit],
            candidate_pair_spec(bv[start as int], hv[wit], src),
            start < base.len(),
            base_used.len() == base.len(),
            head_used.len() == head.len(),
            bv == base.deep_view(),
            hv == head.deep_view(),
            src == source.files.seq(),
            bu == base_used@,
            hu == head_used@,
            in_b.len() == base.len(),
            in_h.len() == head.len(),
            in_b[start as int],
            !bu[start as int],
            forall|b: int| 0 <= b < in_b.len() && #[trigger] in_b[b] ==> !bu[b],
            forall|h: int| 0 <= h < in_h.len() && #[trigger] in_h[h] ==> !hu[h],
            forall|h: int|
                0 <= h < hv.len() && !hu[h] && #[trigger] candidate_pair_spec(bv[start as int], hv[h], src)
                    ==> in_h[h],
            forall|b2: Set<int>, h2: Set<int>|
                b2.contains(start as int) && #[trigger] group_closed(b2, h2, bv, hv, bu, hu, src)
                    ==> flag_set(in_b@).subset_of(b2) && flag_set(in_h@).subset_of(h2),
        ensures
            in_b.len() == base.len(),
            in_h.len() == head.len(),
            in_b[start as int],
            forall|b: int| 0 <= b < in_b.len() && #[trigger] in_b[b] ==> !bu[b],
            forall|h: int| 0 <= h < in_h.len() && #[trigger] in_h[h] ==> !hu[h],
            forall|b2: Set<int>, h2: Set<int>|
                b2.contains(start as int) && #[trigger] group_closed(b2, h2, bv, hv, bu, hu, src)
                    ==> flag_set(in_b@).subset_of(b2) && flag_set(in_h@).subset_of(h2),
            forall|b: int, h: int|
                0 <= b < bv.len() && 0 <= h < hv.len() && in_b[b] && !hu[h] && #[trigger] candidate_pair_spec(
                    bv[b],
                    hv[h],
                    src,
                ) ==> in_h[h],
            forall|b: int, h: int|
                0 <= b < bv.len() && 0 <= h < hv.len() && in_h[h] && !bu[b] && #[trigger] candidate_pair_spec(
                    bv[b],
                    hv[h],
                    src,
                ) ==> in_b[b],
        decreases bv.len() + hv.len() - count_true(in_b@) - count_true(in_h@),
    {
        proof {
            lemma_count_bound(in_b@);
            lemma_count_bound(in_h@);
        }
        let ghost before = count_true(in_b@) + count_true(in_h@);
        let ghost b0 = in_b@;
        let ghost h0 = in_h@;
        let mut changed = false;
        let mut bx: usize = 0;
        while bx < base.len()
            invariant
                bx <= base.len(),
                start < base.len(),
                base_used.len() == base.len(),
                head_used.len() == head.len(),
                bv == base.deep_view(),
                hv == head.deep_view(),
                src == source.files.seq(),
                bu == base_used@,
                hu == head_used@,
                in_b.len() == base.len(),
                in_h.len() == head.len(),
                in_h@ == h0,
                in_b[start as int],
                forall|b: int| 0 <= b < in_b.len() && #[trigger] in_b[b] ==> !bu[b],
                forall|h: int| 0 <= h < in_h.len() && #[trigger] in_h[h] ==> !hu[h],
                forall|h: int|
                    0 <= h < hv.len() && !hu[h] && #[trigger] candidate_pair_spec(bv[start as int], hv[h], src)
                        ==> in_h[h],
                forall|b2: Set<int>, h2: Set<int>|
                    b2.contains(start as int) && #[trigger] group_closed(b2, h2, bv, hv, bu, hu, src)
                        ==> flag_set(in_b@).subset_of(b2) && flag_set(in_h@).subset_of(h2),
                changed ==> count_true(in_b@) + count_true(in_h@) > before,
                !changed ==> in_b@ == b0,
                !changed ==> forall|b: int, h: int|
                    0 <= b < bx && 0 <= h < hv.len() && in_h[h] && !bu[b] && #[trigger] candidate_pair_spec(
                        bv[b],
                        hv[h],
                        src,
                    ) ==> in_b[b],
                count_true(in_b@) + count_true(in_h@) >= before,
            decreases base.len() - bx,
        {
            if !base_used[bx] && !in_b[bx] {
                match linked_to_heads(&base[bx], head, &in_h, source) {
                    Some(w) => {
                        proof {
                            assert forall|b2: Set<int>, h2: Set<int>|
                                b2.contains(start as int) && #[trigger] group_closed(
                                    b2,
                                    h2,
                                    bv,
                                    hv,
                                    bu,
                                    hu,
                                    src,
                                ) implies b2.contains(bx as int) by {
                                assert(flag_set(in_h@).contains(w as int));
                                assert(h2.contains(w as int));
                                assert(candidate_pair_spec(bv[bx as int], hv[w as int], src));
                            }
                            lemma_count_true(in_b@, bx as int);
                        }
                        in_b.set(bx, true);
                        changed = true;
                    },
                    None => {},
                }
            }
            bx = bx + 1;
        }
        let mut hx: usize = 0;
        while hx < head.len()
            invariant
                hx <= head.len(),
                start < base.len(),
                base_used.len() == base.len(),
                head_used.len() == head.len(),
                bv == base.deep_view(),
                hv == head.deep_view(),
                src == source.files.seq(),
                bu == base_used@,
                hu == head_used@,
                in_b.len() == base.len(),
                in_h.len() == head.len(),
                in_b[start as int],
                forall|b: int| 0 <= b < in_b.len() && #[trigger] in_b[b] ==> !bu[b],
                forall|h: int| 0 <= h < in_h.len() && #[trigger] in_h[h] ==> !hu[h],
                forall|h: int|
                    0 <= h < hv.len() && !hu[h] && #[trigger] candidate_pair_spec(bv[start as int], hv[h], src)
                        ==> in_h[h],
                forall|b2: Set<int>, h2: Set<int>|
                    b2.contains(start as int) && #[trigger] group_closed(b2, h2, bv, hv, bu, hu, src)
                        ==> flag_set(in_b@).subset_of(b2) && flag_set(in_h@).subset_of(h2),
                changed ==> count_true(in_b@) + count_true(in_h@) > before,
                !changed ==> in_b@ == b0 && in_h@ == h0,
                !changed ==> forall|b: int, h: int|
                    0 <= b < bv.len() && 0 <= h < hv.len() && in_h[h] && !bu[b] && #[trigger] candidate_pair_spec(
                        bv[b],
                        hv[h],
                        src,
                    ) ==> in_b[b],
                !changed ==> forall|b: int, h: int|
                    0 <= b < bv.len() && 0 <= h < hx && in_b[b] && !hu[h] && #[trigger] candidate_pair_spec(
                        bv[b],
                        hv[h],
                        src,
                    ) ==> in_h[h],
                count_true(in_b@) + count_true(in_h@) >= before,
            decreases head.len() - hx,
        {
            if !head_used[hx] && !in_h[hx] {
                match linked_to_bases(&head[hx], base, &in_b, source) {
                    Some(w) => {
                        proof {
                            assert forall|b2: Set<int>, h2: Set<int>|
                                b2.contains(start as int) && #[trigger] group_closed(
                                    b2,
                                    h2,
                                    bv,
                                    hv,
                                    bu,
                                    hu,
                                    src,
                                ) implies h2.contains(hx as int) by {
                                assert(flag_set(in_b@).contains(w as int));
                                assert(b2.contains(w as int));
                                assert(candidate_pair_spec(bv[w as int], hv[hx as int], src));
                            }
                            lemma_count_true(in_h@, hx as int);
                        }
                        in_h.set(hx, true);
                        changed = true;
                    },
                    None => {},
                }
            }
            hx = hx + 1;
        }
        proof {
            lemma_count_bound(in_b@);
            lemma_count_bound(in_h@);
        }
        if !changed {
            break;
        }
    }
    proof {
        let fb = flag_set(in_b@);
        let fh = flag_set(in_h@);
        assert(fb.contains(start as int));
        assert(group_closed(fb, fh, bv, hv, bu, hu, src)) by {
            assert forall|b: int, h: int|
                fb.contains(b) && 0 <= h < hv.len() && !hu[h] && #[trigger] candidate_pair_spec(
                    bv[b],
                    hv[h],
                    src,
                ) implies fh.contains(h) by {
                assert(in_b[b]);
            }
            assert forall|b: int, h: int|
                fh.contains(h) && 0 <= b < bv.len() && !bu[b] && #[trigger] candidate_pair_spec(
                    bv[b],
                    hv[h],
                    src,
                ) implies fb.contains(b) by {
                assert(in_h[h]);
            }
        }
        assert(candidate_pair_spec(bv[start as int], hv[wit], src));
    }
    Some((in_b, in_h))
}

/// Runs the ambiguous-group pass.
fn ambiguous_groups(
    base: &Vec<DiagnosticRef>,
    head: &Vec<DiagnosticRef>,
    base_used: &mut Vec<bool>,
    head_used: &mut Vec<bool>,
    evidence: &mut Vec<PairingEvidence>,
    source: &SourceChangeSet,
)
    requires
        old(base_used).len() == base.len(),
        old(head_used).len() == head.len(),
    ensures
        final(base_used).len() == base.len(),
        final(head_used).len() == head.len(),
        state_of(final(base_used)@, final(head_used)@, final(evidence).deep_view())
            == ambiguous_pass(
            base.deep_view(),
            head.deep_view(),
            source.files.seq(),
            state_of(old(base_used)@, old(head_used)@, old(evidence).deep_view()),
            base.len() as int,
        ),
{
    let ghost bv = base.deep_view();
    let ghost hv = head.deep_view();
    let ghost src = source.files.seq();
    let ghost st0 = state_of(base_used@, head_used@, evidence.deep_view());
    let mut start: usize = 0;
    while start < base.len()
        invariant
            start <= base.len(),
            base_used.len() == base.len(),
            head_used.len() == head.len(),
            bv == base.deep_view(),
            hv == head.deep_view(),
            src == source.files.seq(),
            state_of(base_used@, head_used@, evidence.deep_view()) == ambiguous_pass(
                bv,
                hv,
                src,
                st0,
                start as int,
            ),
        decreases base.len() - start,
    {
        if !base_used[start] {
            match grow_group(start, base, head, base_used, head_used, source) {
                None => {},
                Some((fb, fh)) => {
                    let ghost bu = base_used@;
                    let ghost hu = head_used@;
                    let ghost g = group_for(start as int, bv, hv, bu, hu, src);
                    proof {
                        let w = (flag_set(fb@), flag_set(fh@));
                        assert(least_group(w.0, w.1, start as int, bv, hv, bu, hu, src));
                        assert(least_group(g.0, g.1, start as int, bv, hv, bu, hu, src));
                        lemma_least_unique(g.0, g.1, w.0, w.1, start as int, bv, hv, bu, hu, src);
                        assert(fb@ =~= flags_of(g.0, bv.len()));
                        assert(fh@ =~= flags_of(g.1, hv.len()));
                    }
                    let bc = pick_refs(base, &fb);
                    let hc = pick_refs(head, &fh);
                    mark_used(base_used, &fb);
                    mark_used(head_used, &fh);
                    let mut reasons: Vec<ReasonCode> = Vec::new();
                    if bc.len() > 1 || hc.len() > 1 {
                        reasons.push(ReasonCode::MultipleCandidates);
                    }
                    reasons.push(ReasonCode::NoEarnedCorrespondence);
                    let ghost ev_old = evidence.deep_view();
                    let ghost rv = reasons@;
                    proof {
                        assert(rv =~= group_reasons(bc.deep_view().len(), hc.deep_view().len()));
                        assert(base_used@ =~= mark(bu, g.0));
                        assert(head_used@ =~= mark(hu, g.1));
                    }
                    let ghost bcv = bc.deep_view();
                    let ghost hcv = hc.deep_view();
                    evidence.push(
                        PairingEvidence::Ambiguous {
                            base_candidates: bc,
                            head_candidates: hc,
                            reasons,
                        },
                    );
                    assert(evidence.deep_view() =~= ev_old.push(
                        EvidenceView::Ambiguous(bcv, hcv, rv),
                    ));
                },
            }
        }
        start = start + 1;
    }
}

/// Copies of the references whose flag is set, in order.
fn pick_refs(s: &Vec<DiagnosticRef>, flags: &Vec<bool>) -> (r: Vec<DiagnosticRef>)
    requires
        flags.len() == s.len(),
    ensures
        r.deep_view() == pick(s.deep_view(), flags@),
{
    let ghost sv = s.deep_view();
    let mut r: Vec<DiagnosticRef> = Vec::new();
    let mut i: usize = 0;
    assert(flags@.take(0) =~= Seq::<bool>::empty());
    assert(r.deep_view() =~= pick(sv, flags@.take(0)));
    while i < s.len()
        invariant
            i <= s.len(),
            flags.len() == s.len(),
            sv == s.deep_view(),
            r.deep_view() == pick(sv, flags@.take(i as int)),
        decreases s.len() - i,
    {
        let ghost before = r.deep_view();
        proof {
            assert(flags@.take(i + 1).drop_last() =~= flags@.take(i as int));
        }
        if flags[i] {
            r.push(s[i].copy());
            assert(r.deep_view() =~= before + seq![sv[i as int]]);
        } else {
            assert(r.deep_view() =~= before + Seq::<RefView>::empty());
        }
        i = i + 1;
    }
    assert(flags@.take(s.len() as int) =~= flags@);
    r
}

/// Marks every flagged index used.
fn mark_used(used: &mut Vec<bool>, flags: &Vec<bool>)
    requires
        flags.len() == old(used).len(),
    ensures
        final(used).len() == old(used).len(),
        final(used)@ == Seq::new(old(used).len() as nat, |k: int| old(used)@[k] || flags@[k]),
{
    let ghost u0 = used@;
    let mut i: usize = 0;
    while i < used.len()
        invariant
            i <= used.len(),
            flags.len() == used.len(),
            used.len() == u0.len(),
            forall|k: int| 0 <= k < i ==> #[trigger] used@[k] == (u0[k] || flags@[k]),
            forall|k: int| i <= k < used.len() ==> #[trigger] used@[k] == u0[k],
        decreases used.len() - i,
    {
        if flags[i] {
            used.set(i, true);
        }
        i = i + 1;
    }
    assert(used@ =~= Seq::new(u0.len() as nat, |k: int| u0[k] || flags@[k]));
}

// ---------------------------------------------------------------------------
// Leftovers and ordering of the evidence
// ---------------------------------------------------------------------------

/// A base-only item for every unused base reference below `n`, in order.
pub open spec fn base_leftovers(base: Seq<RefView>, bu: Seq<bool>, n: int) -> Seq<EvidenceView>
    decreases n,
{
    if n <= 0 {
        seq![]
    } else {
        base_leftovers(base, bu, n - 1) + if !bu[n - 1] {
            seq![EvidenceView::BaseOnly(base[n - 1])]
        } else {
            seq![]
        }
    }
}

/// A head-only item for every unused head reference below `n`, in order.
pub open spec fn head_leftovers(head: Seq<RefView>, hu: Seq<bool>, n: int) -> Seq<EvidenceView>
    decreases n,
{
    if n <= 0 {
        seq![]
    } else {
        head_leftovers(head, hu, n - 1) + if !hu[n - 1] {
            seq![EvidenceView::HeadOnly(head[n - 1])]
        } else {
            seq![]
        }
    }
}

/// The key evidence is ordered by: the observation id of its (first) base
/// reference, else of its (first) head reference.
pub open spec fn evidence_key(e: EvidenceView) -> Seq<char> {
    match e {
        EvidenceView::Matched(b, _, _) => b.observation_id,
        EvidenceView::BaseOnly(b) => b.observation_id,
        EvidenceView::HeadOnly(h) => h.observation_id,
        EvidenceView::Ambiguous(bs, hs, _) => if bs.len() > 0 {
            bs[0].observation_id
        } else if hs.len() > 0 {
            hs[0].observation_id
        } else {
            seq![]
        },
    }
}

/// `s` with `x` put after every item whose key is not larger.
pub open spec fn insert_by_key(s: Seq<EvidenceView>, x: EvidenceView) -> Seq<EvidenceView>
    decreases s.len(),
{
    if s.len() == 0 {
        seq![x]
    } else if lex_lt(evidence_key(x), evidence_key(s.last())) {
        insert_by_key(s.drop_last(), x).push(s.last())
    } else {
        s.push(x)
    }
}

/// The stable sort of evidence by key.
pub open spec fn sort_evidence(s: Seq<EvidenceView>) -> Seq<EvidenceView>
    decreases s.len(),
{
    if s.len() == 0 {
        s
    } else {
        insert_by_key(sort_evidence(s.drop_last()), s.last())
    }
}

proof fn lemma_insert_by_key_at(s: Seq<EvidenceView>, x: EvidenceView, k: int)
    requires
        0 <= k <= s.len(),
        forall|j: int| k <= j < s.len() ==> lex_lt(evidence_key(x), #[trigger] evidence_key(s[j])),
        k > 0 ==> !lex_lt(evidence_key(x), evidence_key(s[k - 1])),
    ensures
        insert_by_key(s, x) == s.take(k) + seq![x] + s.skip(k),
    decreases s.len() - k,
{
    if s.len() == k {
        if k == 0 {
            assert(s.take(0) + seq![x] + s.skip(0) =~= seq![x]);
        } else {
            assert(s.take(k) + seq![x] + s.skip(k) =~= s.push(x));
        }
    } else {
        let t = s.drop_last();
        assert(lex_lt(evidence_key(x), evidence_key(s[s.len() - 1])));
        lemma_insert_by_key_at(t, x, k);
        assert(t.take(k) + seq![x] + t.skip(k) + seq![s.last()] =~= s.take(k) + seq![x] + s.skip(k));
    }
}

fn key_of(e: &PairingEvidence) -> (r: &str)
    ensures
        r@ == evidence_key(e.deep_view()),
{
    proof {
        reveal_strlit("");
    }
    match e {
        PairingEvidence::Matched { base, .. } => base.observation_id.as_str(),
        PairingEvidence::BaseOnly { base } => base.observation_id.as_str(),
        PairingEvidence::HeadOnly { head } => head.observation_id.as_str(),
        PairingEvidence::Ambiguous { base_candidates, head_candidates, .. } => {
            if base_candidates.len() > 0 {
                base_candidates[0].observation_id.as_str()
            } else if head_candidates.len() > 0 {
                head_candidates[0].observation_id.as_str()
            } else {
                ""
            }
        },
    }
}

/// Sorts evidence by key, keeping the order of equal keys.
fn sort_evidence_by_key(v: &mut Vec<PairingEvidence>)
    ensures
        final(v).deep_view() == sort_evidence(old(v).deep_view()),
{
    let ghost orig = v.deep_view();
    let mut i: usize = 0;
    assert(v.deep_view().take(0) =~= sort_evidence(orig.take(0)));
    while i < v.len()
        invariant
            i <= v.len() == orig.len(),
            v.deep_view().take(i as int) == sort_evidence(orig.take(i as int)),
            v.deep_view().skip(i as int) == orig.skip(i as int),
        decreases v.len() - i,
    {
        let ghost pre = v.deep_view().take(i as int);
        let ghost before = v.deep_view();
        let ghost vb = v@;
        let x = v.remove(i);
        let ghost xv = x.deep_view();
        proof {
            assert(before[i as int] == vb[i as int].deep_view());
            assert(before.skip(i as int)[0] == before[i as int]);
            assert(orig.skip(i as int)[0] == orig[i as int]);
            assert(xv == orig[i as int]);
            assert(v.deep_view() =~= before.remove(i as int));
            assert(v.deep_view().take(i as int) =~= pre);
        }
        let mut k = i;
        while k > 0 && compare_text(key_of(&x), key_of(&v[k - 1])) < 0
            invariant
                k <= i <= v.len(),
                xv == x.deep_view(),
                v.deep_view().take(i as int) == pre,
                forall|j: int| k <= j < i ==> lex_lt(evidence_key(xv), #[trigger] evidence_key(pre[j])),
            decreases k,
        {
            proof {
                assert(pre[k - 1] == v.deep_view()[k - 1]);
                assert(v.deep_view()[k - 1] == v@[k - 1].deep_view());
            }
            k = k - 1;
        }
        proof {
            lemma_insert_by_key_at(pre, xv, k as int);
            assert(orig.take(i + 1).drop_last() =~= orig.take(i as int));
            assert(orig.take(i + 1).last() == xv);
        }
        let ghost rest = v.deep_view().skip(i as int);
        v.insert(k, x);
        proof {
            assert(v.deep_view().take(i + 1) =~= pre.take(k as int) + seq![xv] + pre.skip(k as int));
            assert(rest =~= before.skip(i + 1));
            assert(before.skip(i + 1) =~= before.skip(i as int).skip(1));
            assert(orig.skip(i + 1) =~= orig.skip(i as int).skip(1));
            assert(rest =~= orig.skip(i + 1));
            assert(v.deep_view().skip(i + 1) =~= rest);
        }
        i = i + 1;
    }
    assert(v.deep_view() =~= v.deep_view().take(v.len() as int));
    assert(orig.take(orig.len() as int) =~= orig);
}

/// Appends a base-only item for every unused base reference.
fn push_base_leftovers(base: &Vec<DiagnosticRef>, used: &Vec<bool>, evidence: &mut Vec<PairingEvidence>)
    requires
        used.len() == base.len(),
    ensures
        final(evidence).deep_view() == old(evidence).deep_view() + base_leftovers(
            base.deep_view(),
            used@,
            base.len() as int,
        ),
{
    let ghost e0 = evidence.deep_view();
    let ghost bv = base.deep_view();
    let mut i: usize = 0;
    assert(evidence.deep_view() =~= e0 + base_leftovers(bv, used@, 0));
    while i < base.len()
        invariant
            i <= base.len(),
            used.len() == base.len(),
            bv == base.deep_view(),
            evidence.deep_view() == e0 + base_leftovers(bv, used@, i as int),
        decreases base.len() - i,
    {
        let ghost before = evidence.deep_view();
        if !used[i] {
            evidence.push(PairingEvidence::BaseOnly { base: base[i].copy() });
            assert(evidence.deep_view() =~= before.push(EvidenceView::BaseOnly(bv[i as int])));
            assert(evidence.deep_view() =~= e0 + base_leftovers(bv, used@, i + 1));
        } else {
            assert(evidence.deep_view() =~= e0 + base_leftovers(bv, used@, i + 1));
        }
        i = i + 1;
    }
}

/// Appends a head-only item for every unused head reference.
fn push_head_leftovers(head: &Vec<DiagnosticRef>, used: &Vec<bool>, evidence: &mut Vec<PairingEvidence>)
    requires
        used.len() == head.len(),
    ensures
        final(evidence).deep_view() == old(evidence).deep_view() + head_leftovers(
            head.deep_view(),
            used@,
            head.len() as int,
        ),
{
    let ghost e0 = evidence.deep_view();
    let ghost hv = head.deep_view();
    let mut i: usize = 0;
    assert(evidence.deep_view() =~= e0 + head_leftovers(hv, used@, 0));
    while i < head.len()
        invariant
            i <= head.len(),
            used.len() == head.len(),
            hv == head.deep_view(),
            evidence.deep_view() == e0 + head_leftovers(hv, used@, i as int),
        decreases head.len() - i,
    {
        let ghost before = evidence.deep_view();
        if !used[i] {
            evidence.push(PairingEvidence::HeadOnly { head: head[i].copy() });
            assert(evidence.deep_view() =~= before.push(EvidenceView::HeadOnly(hv[i as int])));
            assert(evidence.deep_view() =~= e0 + head_leftovers(hv, used@, i + 1));
        } else {
            assert(evidence.deep_view() =~= e0 + head_leftovers(hv, used@, i + 1));
        }
        i = i + 1;
    }
}

// ---------------------------------------------------------------------------
// The comparison
// ---------------------------------------------------------------------------

/// No reference used yet.
pub open spec fn unused(n: nat) -> Seq<bool> {
    Seq::new(n, |i: int| false)
}

/// The pairing state after the five unique passes.
pub open spec fn unique_passes(
    base: Seq<RefView>,
    head: Seq<RefView>,
    src: Seq<(Seq<char>, FileDeltaView)>,
) -> PairState {
    let n = base.len() as int;
    let st0 = PairState { bu: unused(base.len()), hu: unused(head.len()), ev: seq![] };
    let st1 = pair_pass(PairingPass::Exact, base, head, src, st0, n);
    let st2 = pair_pass(PairingPass::Mapped, base, head, src, st1, n);
    let st3 = pair_pass(PairingPass::Semantic, base, head, src, st2, n);
    let st4 = pair_pass(PairingPass::Context, base, head, src, st3, n);
    pair_pass(PairingPass::Modified, base, head, src, st4, n)
}

/// The evidence of pairing two ordered reference lists: the unique passes,
/// the ambiguous groups, then base-only and head-only leftovers, all sorted
/// stably by key.
pub open spec fn pairing_spec(
    base: Seq<RefView>,
    head: Seq<RefView>,
    src: Seq<(Seq<char>, FileDeltaView)>,
) -> Seq<EvidenceView> {
    let st5 = unique_passes(base, head, src);
    let st6 = ambiguous_pass(base, head, src, st5, base.len() as int);
    sort_evidence(
        st6.ev + base_leftovers(base, st6.bu, base.len() as int) + head_leftovers(
            head,
            st6.hu,
            head.len() as int,
        ),
    )
}

fn all_unused(n: usize) -> (r: Vec<bool>)
    ensures
        r@ == unused(n as nat),
{
    let mut r: Vec<bool> = Vec::new();
    let mut i: usize = 0;
    while i < n
        invariant
            i <= n,
            r@ == unused(i as nat),
        decreases n - i,
    {
        r.push(false);
        i = i + 1;
        assert(r@ =~= unused(i as nat));
    }
    r
}

/// Pairs two inventories without applying repository policy or producing a verdict.
///
/// When either analysis is incomplete or their hard provenance differs, the
/// result is incomparable with those reasons and no evidence. Otherwise the
/// diagnostics of each side, ordered by observation id, are paired.
pub fn compare_inventories(base: &Inventory, head: &Inventory, source: &SourceChangeSet) -> (r:
    DiagnosticComparison)
    ensures
        change_fields(r.contextual_changes@) == contextual_changes_spec(*base, *head),
        comparability_reasons_spec(*base, *head).len() > 0 ==> {
            &&& r.comparability.status == ComparabilityStatus::Incomparable
            &&& r.comparability.reasons@ == comparability_reasons_spec(*base, *head)
            &&& r.evidence@.len() == 0
        },
        comparability_reasons_spec(*base, *head).len() == 0 ==> {
            &&& r.comparability.status == ComparabilityStatus::Comparable
            &&& r.comparability.reasons@.len() == 0
            &&& r.evidence.deep_view() == pairing_spec(
                sorted_refs_spec(base.diagnostics.deep_view()),
                sorted_refs_spec(head.diagnostics.deep_view()),
                source.files.seq(),
            )
        },
{
    let contextual = contextual_changes(base, head);
    let reasons = comparability_reasons(base, head);
    if reasons.len() > 0 {
        return DiagnosticComparison {
            comparability: Comparability { status: ComparabilityStatus::Incomparable, reasons },
            contextual_changes: contextual,
            evidence: Vec::new(),
        };
    }
    let b = sorted_refs(base);
    let h = sorted_refs(head);
    let mut base_used = all_unused(b.len());
    let mut head_used = all_unused(h.len());
    let mut evidence: Vec<PairingEvidence> = Vec::new();
    assert(evidence.deep_view() =~= Seq::<EvidenceView>::empty());
    pair_unique(PairingPass::Exact, &b, &h, &mut base_used, &mut head_used, &mut evidence, source);
    pair_unique(PairingPass::Mapped, &b, &h, &mut base_used, &mut head_used, &mut evidence, source);
    pair_unique(PairingPass::Semantic, &b, &h, &mut base_used, &mut head_used, &mut evidence, source);
    pair_unique(PairingPass::Context, &b, &h, &mut base_used, &mut head_used, &mut evidence, source);
    pair_unique(PairingPass::Modified, &b, &h, &mut base_used, &mut head_used, &mut evidence, source);
    ambiguous_groups(&b, &h, &mut base_used, &mut head_used, &mut evidence, source);
    push_base_leftovers(&b, &base_used, &mut evidence);
    push_head_leftovers(&h, &head_used, &mut evidence);
    sort_evidence_by_key(&mut evidence);
    DiagnosticComparison {
        comparability: Comparability { status: ComparabilityStatus::Comparable, reasons: Vec::new() },
        contextual_changes: contextual,
        evidence,
    }
}

} // verus!
