use lintdiff::diagnostic_level::DiagnosticLevel;

#[test]
fn test_diagnostic_level_ordering() {
    assert!(DiagnosticLevel::Hint < DiagnosticLevel::Note);
    assert!(DiagnosticLevel::Note < DiagnosticLevel::Warning);
    assert!(DiagnosticLevel::Warning < DiagnosticLevel::Error);
    assert!(DiagnosticLevel::Error < DiagnosticLevel::Fatal);
    assert!(DiagnosticLevel::Unknown > DiagnosticLevel::Fatal);
}

#[test]
fn test_diagnostic_level_display() {
    assert_eq!(DiagnosticLevel::Error.to_string(), "error");
    assert_eq!(DiagnosticLevel::Warning.to_string(), "warning");
    assert_eq!(DiagnosticLevel::Unknown.to_string(), "unknown");
}

#[test]
fn test_from_u8() {
    assert_eq!(DiagnosticLevel::from(0u8), DiagnosticLevel::Hint);
    assert_eq!(DiagnosticLevel::from(3u8), DiagnosticLevel::Error);
    assert_eq!(DiagnosticLevel::from(255u8), DiagnosticLevel::Unknown);
}

#[test]
fn test_from_i32() {
    assert_eq!(DiagnosticLevel::from(0i32), DiagnosticLevel::Hint);
    assert_eq!(DiagnosticLevel::from(3i32), DiagnosticLevel::Error);
    assert_eq!(DiagnosticLevel::from(-1i32), DiagnosticLevel::Unknown);
    assert_eq!(DiagnosticLevel::from(256i32), DiagnosticLevel::Unknown);
}
