//! The delta policy: the verdict on a delta receipt once pairing evidence
//! and change classifications exist.
use vstd::prelude::*;
use crate::inventory::DiagnosticRecord;
use crate::text::{chars_of, push_str};

verus! {

/// Why a delta comparison could not be made.
#[derive(Clone, Copy, Debug, PartialEq, Eq, Structural)]
pub enum DeltaReason {
    BaseAnalysisIncomplete,
    HeadAnalysisIncomplete,
    HardScopeMismatch,
    MultipleCandidates,
    NoEarnedCorrespondence,
}

/// Whether the two analyses of a receipt were comparable.
#[derive(Clone, Copy, Debug, PartialEq, Eq, Structural)]
pub enum DeltaComparabilityStatus {
    Comparable,
    Incomparable,
}

/// Comparability of a receipt's analyses and the reasons against it.
#[derive(Clone, Debug, PartialEq, Eq)]
pub struct DeltaComparability {
    pub status: DeltaComparabilityStatus,
    pub reasons: Vec<DeltaReason>,
}

/// Provenance of a receipt.
#[derive(Clone, Debug, PartialEq, Eq)]
pub struct DeltaProvenance {
    pub comparability: DeltaComparability,
}

/// The classification of a paired item.
#[derive(Clone, Copy, Debug, PartialEq, Eq, Structural)]
pub enum DeltaKind {
    New,
    Fixed,
    Persisting,
}

/// The pairing of one receipt item.
#[derive(Clone, Debug, PartialEq, Eq)]
pub enum DeltaPairing {
    Matched,
    BaseOnly,
    HeadOnly { head: DiagnosticRecord },
    Ambiguous,
}

/// One item of a receipt: its pairing and, where earned, its classification.
#[derive(Clone, Debug, PartialEq, Eq)]
pub struct DeltaItem {
    pub pairing: DeltaPairing,
    pub change_kind: Option<DeltaKind>,
}

/// Which kinds of items block a delta.
#[derive(Clone, Copy, Debug, PartialEq, Eq, Structural)]
pub struct DeltaPolicy {
    pub block_new_errors: bool,
    pub block_new_warnings: bool,
    pub block_ambiguous: bool,
}

/// A delta receipt: provenance, items and the policy to apply.
#[derive(Clone, Debug, PartialEq, Eq)]
pub struct DeltaReceipt {
    pub provenance: DeltaProvenance,
    pub items: Vec<DeltaItem>,
    pub policy: DeltaPolicy,
}

/// The status of a delta verdict.
#[derive(Clone, Copy, Debug, PartialEq, Eq, Structural)]
pub enum DeltaVerdictStatus {
    Accepted,
    Rejected,
    Incomparable,
}

/// A delta verdict with its reasons.
#[derive(Clone, Debug, PartialEq, Eq)]
pub struct DeltaVerdict {
    pub status: DeltaVerdictStatus,
    pub reasons: Vec<String>,
}

/// The token naming an incomparability reason.
pub open spec fn reason_token(r: DeltaReason) -> Seq<char> {
    match r {
        DeltaReason::BaseAnalysisIncomplete => "base_analysis_incomplete"@,
        DeltaReason::HeadAnalysisIncomplete => "head_analysis_incomplete"@,
        DeltaReason::HardScopeMismatch => "hard_scope_mismatch"@,
        DeltaReason::MultipleCandidates => "multiple_candidates"@,
        DeltaReason::NoEarnedCorrespondence => "no_earned_correspondence"@,
    }
}

fn delta_reason_token(r: DeltaReason) -> (s: &'static str)
    ensures
        s@ == reason_token(r),
{
    match r {
        DeltaReason::BaseAnalysisIncomplete => "base_analysis_incomplete",
        DeltaReason::HeadAnalysisIncomplete => "head_analysis_incomplete",
        DeltaReason::HardScopeMismatch => "hard_scope_mismatch",
        DeltaReason::MultipleCandidates => "multiple_candidates",
        DeltaReason::NoEarnedCorrespondence => "no_earned_correspondence",
    }
}

/// The blocking reason one item gives under a policy, if any.
pub open spec fn item_reason(item: DeltaItem, policy: DeltaPolicy) -> Option<Seq<char>> {
    match (item.pairing, item.change_kind) {
        (DeltaPairing::HeadOnly { head }, Some(DeltaKind::New)) => if policy.block_new_errors
            && head.level@ == "error"@ {
            Some("new_error"@)
        } else if policy.block_new_warnings && head.level@ == "warning"@ {
            Some("new_warning"@)
        } else {
            None
        },
        (DeltaPairing::Ambiguous, None) => if policy.block_ambiguous {
            Some("ambiguous_pairing"@)
        } else {
            None
        },
        _ => None,
    }
}

/// Some item gives the blocking reason `r`.
pub open spec fn some_item_gives(items: Seq<DeltaItem>, policy: DeltaPolicy, r: Seq<char>) -> bool {
    exists|i: int| 0 <= i < items.len() && #[trigger] item_reason(items[i], policy) == Some(r)
}

/// The blocking reasons of a receipt, each once, in ascending order.
pub open spec fn blocking_reasons(items: Seq<DeltaItem>, policy: DeltaPolicy) -> Seq<Seq<char>> {
    (if some_item_gives(items, policy, "ambiguous_pairing"@) {
        seq!["ambiguous_pairing"@]
    } else {
        seq![]
    }) + (if some_item_gives(items, policy, "new_error"@) {
        seq!["new_error"@]
    } else {
        seq![]
    }) + (if some_item_gives(items, policy, "new_warning"@) {
        seq!["new_warning"@]
    } else {
        seq![]
    })
}

/// The texts of a list of strings.
pub open spec fn texts(v: Seq<String>) -> Seq<Seq<char>> {
    v.map_values(|s: String| s@)
}

proof fn lemma_reason_texts_differ()
    ensures
        "new_error"@ != "new_warning"@,
        "new_error"@ != "ambiguous_pairing"@,
        "new_warning"@ != "ambiguous_pairing"@,
{
    reveal_strlit("new_error");
    reveal_strlit("new_warning");
    reveal_strlit("ambiguous_pairing");
    assert("new_error"@.len() == 9);
    assert("new_warning"@.len() == 11);
    assert("ambiguous_pairing"@.len() == 17);
}

fn item_reason_code(item: &DeltaItem, policy: DeltaPolicy) -> (r: u8)
    ensures
        r == 0 <==> item_reason(*item, policy) is None,
        r == 1 <==> item_reason(*item, policy) == Some("new_error"@),
        r == 2 <==> item_reason(*item, policy) == Some("new_warning"@),
        r == 3 <==> item_reason(*item, policy) == Some("ambiguous_pairing"@),
{
    proof {
        lemma_reason_texts_differ();
    }
    match (&item.pairing, item.change_kind) {
        (DeltaPairing::HeadOnly { head }, Some(DeltaKind::New)) => {
            let lv = chars_of(head.level.as_str());
            if policy.block_new_errors && crate::text::eq_str(&lv, "error") {
                1
            } else if policy.block_new_warnings && crate::text::eq_str(&lv, "warning") {
                2
            } else {
                0
            }
        },
        (DeltaPairing::Ambiguous, None) => {
            if policy.block_ambiguous {
                3
            } else {
                0
            }
        },
        _ => 0,
    }
}

/// Applies the delta policy once evidence and classifications exist.
///
/// An incomparable receipt gets an incomparable verdict whose reasons name
/// each incomparability reason (`incomparable_<reason>`). Otherwise a new
/// head-only error (or warning) blocks when the policy blocks new errors
/// (or warnings), and an unclassified ambiguous pairing blocks when the
/// policy blocks ambiguity; the verdict is rejected with the sorted,
/// distinct blocking reasons, or accepted when there are none.
pub fn evaluate_delta_policy(receipt: &DeltaReceipt) -> (v: DeltaVerdict)
    ensures
        receipt.provenance.comparability.status == DeltaComparabilityStatus::Incomparable ==> {
            &&& v.status == DeltaVerdictStatus::Incomparable
            &&& texts(v.reasons@) == receipt.provenance.comparability.reasons@.map_values(
                |r: DeltaReason| "incomparable_"@ + reason_token(r),
            )
        },
        receipt.provenance.comparability.status == DeltaComparabilityStatus::Comparable ==> {
            &&& texts(v.reasons@) == blocking_reasons(receipt.items@, receipt.policy)
            &&& v.status == if blocking_reasons(receipt.items@, receipt.policy).len() == 0 {
                DeltaVerdictStatus::Accepted
            } else {
                DeltaVerdictStatus::Rejected
            }
        },
{
    if receipt.provenance.comparability.status == DeltaComparabilityStatus::Incomparable {
        let rs = &receipt.provenance.comparability.reasons;
        let ghost want = rs@.map_values(|r: DeltaReason| "incomparable_"@ + reason_token(r));
        let mut reasons: Vec<String> = Vec::new();
        let mut i: usize = 0;
        while i < rs.len()
            invariant
                i <= rs.len(),
                want == rs@.map_values(|r: DeltaReason| "incomparable_"@ + reason_token(r)),
                texts(reasons@) == want.take(i as int),
            decreases rs.len() - i,
        {
            let mut s = String::new();
            push_str(&mut s, "incomparable_");
            push_str(&mut s, delta_reason_token(rs[i]));
            assert(s@ =~= "incomparable_"@ + reason_token(rs[i as int]));
            let ghost sv = s@;
            let ghost before = reasons@;
            reasons.push(s);
            proof {
                assert(want[i as int] == sv);
                assert(texts(reasons@) =~= texts(before).push(sv));
                assert(want.take(i + 1) =~= want.take(i as int).push(want[i as int]));
            }
            i = i + 1;
        }
        assert(want.take(rs.len() as int) =~= want);
        return DeltaVerdict { status: DeltaVerdictStatus::Incomparable, reasons };
    }
    let items = &receipt.items;
    let policy = receipt.policy;
    let mut ambiguous = false;
    let mut new_error = false;
    let mut new_warning = false;
    let mut i: usize = 0;
    while i < items.len()
        invariant
            i <= items.len(),
            policy == receipt.policy,
            ambiguous == exists|k: int|
                0 <= k < i && #[trigger] item_reason(items@[k], policy) == Some("ambiguous_pairing"@),
            new_error == exists|k: int|
                0 <= k < i && #[trigger] item_reason(items@[k], policy) == Some("new_error"@),
            new_warning == exists|k: int|
                0 <= k < i && #[trigger] item_reason(items@[k], policy) == Some("new_warning"@),
        decreases items.len() - i,
    {
        let c = item_reason_code(&items[i], policy);
        proof {
            lemma_reason_texts_differ();
        }
        if c == 1 {
            new_error = true;
        } else if c == 2 {
            new_warning = true;
        } else if c == 3 {
            ambiguous = true;
        }
        i = i + 1;
    }
    let mut reasons: Vec<String> = Vec::new();
    if ambiguous {
        reasons.push(crate::text::to_string("ambiguous_pairing"));
    }
    if new_error {
        reasons.push(crate::text::to_string("new_error"));
    }
    if new_warning {
        reasons.push(crate::text::to_string("new_warning"));
    }
    assert(texts(reasons@) =~= blocking_reasons(items@, policy));
    let status = if reasons.len() == 0 {
        DeltaVerdictStatus::Accepted
    } else {
        DeltaVerdictStatus::Rejected
    };
    DeltaVerdict { status, reasons }
}

} // verus!
