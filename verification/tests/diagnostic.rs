use resumark::diagnostic::{Diagnostic, DiagnosticCode, Severity, SourceRange, sort_diagnostics};

fn at(code: DiagnosticCode, start: Option<usize>, message: &str) -> Diagnostic {
    Diagnostic::error(code, message.to_owned(), start.map(|s| SourceRange::new(s, s + 1)))
}

#[test]
fn diagnostics_sort_by_start_then_code_keeping_ties_in_order() {
    let sorted = sort_diagnostics(vec![
        at(DiagnosticCode::MissingTitle, None, "a"),
        at(DiagnosticCode::UnsupportedRawHtml, Some(4), "b"),
        at(DiagnosticCode::DisallowedControlCharacter, Some(4), "c"),
        at(DiagnosticCode::UnsupportedMarkdown, Some(1), "d"),
        at(DiagnosticCode::UnsupportedRawHtml, Some(4), "e"),
    ]);
    let messages: Vec<&str> = sorted.iter().map(|d| d.message.as_str()).collect();
    assert_eq!(messages, vec!["d", "c", "b", "e", "a"]);
}

#[test]
fn ranges_cover_both_ranges() {
    assert_eq!(SourceRange::new(3, 5).cover(SourceRange::new(1, 4)), SourceRange::new(1, 5));
    assert_eq!(SourceRange::new(1, 9).cover(SourceRange::new(2, 4)), SourceRange::new(1, 9));
}

#[test]
fn codes_and_severities_have_stable_names() {
    assert_eq!(DiagnosticCode::DisallowedControlCharacter.as_str(), "disallowed_control_character");
    assert_eq!(DiagnosticCode::UnexpectedMarkdownStructure.as_str(), "unexpected_markdown_structure");
    assert_eq!(DiagnosticCode::PageLimitExceeded.as_str(), "page_limit_exceeded");
    assert_eq!(Severity::Warning.as_str(), "warning");
    assert_eq!(Severity::Error.as_str(), "error");
}

#[test]
fn help_is_attached_to_a_copy() {
    let diagnostic = Diagnostic::warning(DiagnosticCode::PageLimitExceeded, "long".to_owned(), None)
        .with_help("shorten".to_owned());
    assert_eq!(diagnostic.severity, Severity::Warning);
    assert_eq!(diagnostic.help.as_deref(), Some("shorten"));
    assert_eq!(diagnostic.message, "long");
}

#[test]
fn byte_ranges_become_source_ranges() {
    assert_eq!(SourceRange::from(3..7), SourceRange::new(3, 7));
}
