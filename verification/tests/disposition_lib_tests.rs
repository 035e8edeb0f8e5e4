use lintdiff::disposition::{Disposition, DispositionParseError, DispositionReason, DispositionWithReason};

#[test]
fn test_disposition_default() {
    assert_eq!(Disposition::default(), Disposition::New);
}

#[test]
fn test_disposition_is_new() {
    assert!(Disposition::New.is_new());
    assert!(!Disposition::Fixed.is_new());
}

#[test]
fn test_disposition_is_fixed() {
    assert!(Disposition::Fixed.is_fixed());
    assert!(!Disposition::New.is_fixed());
}

#[test]
fn test_disposition_is_actionable() {
    assert!(Disposition::New.is_actionable());
    assert!(Disposition::Fixed.is_actionable());
    assert!(!Disposition::PreExisting.is_actionable());
    assert!(!Disposition::Suppressed.is_actionable());
    assert!(!Disposition::OutsideDiff.is_actionable());
    assert!(!Disposition::Skipped.is_actionable());
}

#[test]
fn test_disposition_is_reportable() {
    assert!(Disposition::New.is_reportable());
    assert!(Disposition::Fixed.is_reportable());
    assert!(Disposition::PreExisting.is_reportable());
    assert!(!Disposition::Suppressed.is_reportable());
    assert!(Disposition::OutsideDiff.is_reportable());
    assert!(!Disposition::Skipped.is_reportable());
}

#[test]
fn test_disposition_counts_toward_failure() {
    assert!(Disposition::New.counts_toward_failure());
    assert!(!Disposition::Fixed.counts_toward_failure());
    assert!(!Disposition::PreExisting.counts_toward_failure());
}

#[test]
fn test_disposition_as_str() {
    assert_eq!(Disposition::New.as_str(), "new");
    assert_eq!(Disposition::Fixed.as_str(), "fixed");
    assert_eq!(Disposition::PreExisting.as_str(), "pre-existing");
    assert_eq!(Disposition::Suppressed.as_str(), "suppressed");
    assert_eq!(Disposition::OutsideDiff.as_str(), "outside-diff");
    assert_eq!(Disposition::Skipped.as_str(), "skipped");
}

#[test]
fn test_disposition_display() {
    assert_eq!(Disposition::New.to_string(), "new");
    assert_eq!(Disposition::Fixed.to_string(), "fixed");
}

#[test]
fn test_disposition_parse() {
    assert_eq!(Disposition::parse("new").unwrap(), Disposition::New);
    assert_eq!(Disposition::parse("NEW").unwrap(), Disposition::New);
    assert_eq!(
        Disposition::parse("pre-existing").unwrap(),
        Disposition::PreExisting
    );
    assert!(Disposition::parse("invalid").is_err());
}

#[test]
fn test_disposition_with_reason() {
    let dwr = DispositionWithReason::new(Disposition::New);
    assert_eq!(dwr.disposition, Disposition::New);
    assert!(!dwr.has_reason());
}

#[test]
fn test_disposition_reason_description() {
    let reason = DispositionReason::suppressed_by("test-rule");
    assert_eq!(reason.description(), "Suppressed by rule: test-rule");
}
