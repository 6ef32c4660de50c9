use resumark::diagnostic::{DiagnosticCode, Severity};
use resumark::render::page_limit_diagnostics;

#[test]
fn page_limit_is_a_non_fatal_warning() {
    let diagnostics = page_limit_diagnostics(3, Some(2));

    assert_eq!(diagnostics.len(), 1);
    assert_eq!(diagnostics[0].code, DiagnosticCode::PageLimitExceeded);
    assert_eq!(diagnostics[0].severity, Severity::Warning);
}

#[test]
fn page_limit_can_be_disabled() {
    assert!(page_limit_diagnostics(3, None).is_empty());
}
