use resumark::cli::{diagnostic_report, error_count, parse_page_limit, source_location, svg_file_name};
use resumark::diagnostic::{Diagnostic, DiagnosticCode, SourceRange};

#[test]
fn locations_count_lines_and_characters_from_one() {
    let location = source_location("ab\ncd\r\nef", SourceRange::new(4, 5));
    assert_eq!(location.line, 2);
    assert_eq!(location.column, 2);
    assert_eq!(location.text, "cd");
}

#[test]
fn locations_round_down_inside_a_character() {
    let location = source_location("é\nxé", SourceRange::new(5, 6));
    assert_eq!(location.line, 2);
    assert_eq!(location.column, 2);
    assert_eq!(location.text, "xé");
}

#[test]
fn locations_past_the_end_point_at_the_end() {
    let location = source_location("abc", SourceRange::new(10, 12));
    assert_eq!(location.line, 1);
    assert_eq!(location.column, 4);
    assert_eq!(location.text, "abc");
}

#[test]
fn reports_show_the_line_and_a_caret() {
    let diagnostic = Diagnostic::error(
        DiagnosticCode::UnsupportedRawHtml,
        "raw HTML is not allowed in Resumark Markdown".to_owned(),
        Some(SourceRange::new(4, 5)),
    )
    .with_help("write the content with supported Markdown instead".to_owned());
    let lines = diagnostic_report("resume.md", "ab\ncd\r\nef", &diagnostic);
    assert_eq!(
        lines,
        vec![
            "error[unsupported_raw_html] at resume.md:2:2",
            "  raw HTML is not allowed in Resumark Markdown",
            "  | cd",
            "  |  ^",
            "  help: write the content with supported Markdown instead",
        ]
    );
}

#[test]
fn reports_without_a_range_name_the_file() {
    let diagnostic = Diagnostic::warning(
        DiagnosticCode::PageLimitExceeded,
        "too long".to_owned(),
        None,
    );
    let lines = diagnostic_report("resume.md", "# Jane", &diagnostic);
    assert_eq!(lines, vec!["warning[page_limit_exceeded] in resume.md", "  too long"]);
}

#[test]
fn reports_on_an_empty_line_show_no_excerpt() {
    let diagnostic = Diagnostic::error(
        DiagnosticCode::MissingTitle,
        "needs a title".to_owned(),
        Some(SourceRange::new(2, 2)),
    );
    let lines = diagnostic_report("r.md", "a\n\nb", &diagnostic);
    assert_eq!(lines, vec!["error[missing_title] at r.md:2:1", "  needs a title"]);
}

#[test]
fn page_limits_are_positive_integers() {
    assert_eq!(parse_page_limit("2"), Ok(2));
    assert_eq!(parse_page_limit("+3"), Ok(3));
    assert_eq!(parse_page_limit("007"), Ok(7));
    assert_eq!(
        parse_page_limit("0"),
        Err("the maximum page count must be at least one".to_owned())
    );
    for value in ["", "+", "abc", "-1", " 2", "2 ", "1.5", "99999999999999999999999"] {
        assert_eq!(
            parse_page_limit(value),
            Err("the maximum page count must be a positive integer".to_owned()),
            "{value}"
        );
    }
}

#[test]
fn page_limits_accept_the_largest_count() {
    assert_eq!(parse_page_limit(&usize::MAX.to_string()), Ok(usize::MAX));
}

#[test]
fn svg_pages_are_numbered() {
    assert_eq!(svg_file_name("resume", 3), "resume-3.svg");
    assert_eq!(svg_file_name("", 10), "-10.svg");
}

#[test]
fn only_errors_are_counted() {
    let diagnostics = vec![
        Diagnostic::error(DiagnosticCode::MissingTitle, "a".to_owned(), None),
        Diagnostic::warning(DiagnosticCode::PageLimitExceeded, "b".to_owned(), None),
        Diagnostic::error(DiagnosticCode::UnsupportedRawHtml, "c".to_owned(), None),
    ];
    assert_eq!(error_count(&diagnostics), 2);
    assert_eq!(error_count(&Vec::new()), 0);
}
