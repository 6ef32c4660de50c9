use resumark::diagnostic::{DiagnosticCode, Severity};
use resumark::render::{
    BundledTheme, ExportError, RenderError, ThemeCompileError, ThemeDiagnostic,
    page_limit_diagnostics, validate_page_limit,
};
use resumark::theme::{ThemeFileError, ThemeRange};

#[test]
fn the_page_limit_warning_names_both_counts() {
    let diagnostics = page_limit_diagnostics(5, Some(2));
    assert_eq!(
        diagnostics[0].message,
        "the resume rendered as 5 pages; the configured maximum is 2"
    );
    assert_eq!(
        diagnostics[0].help.as_deref(),
        Some("shorten the content or raise the maximum page count")
    );
    assert_eq!(diagnostics[0].range, None);
    assert!(page_limit_diagnostics(2, Some(2)).is_empty());
    assert!(page_limit_diagnostics(0, Some(0)).is_empty());
    assert!(page_limit_diagnostics(1, Some(0)).iter().all(|d| d.severity == Severity::Warning));
    assert_eq!(page_limit_diagnostics(1, Some(0))[0].code, DiagnosticCode::PageLimitExceeded);
}

#[test]
fn page_limits_of_zero_are_refused() {
    assert!(matches!(validate_page_limit(Some(0)), Err(RenderError::InvalidPageLimit)));
    assert!(validate_page_limit(Some(1)).is_ok());
    assert!(validate_page_limit(None).is_ok());
}

#[test]
fn bundled_themes_have_their_own_names() {
    let ids: Vec<&str> = BundledTheme::all().iter().map(|theme| theme.id()).collect();
    assert_eq!(ids, vec!["minimal", "modern", "compact", "jakes"]);
}

#[test]
fn render_errors_explain_themselves() {
    let compile = ThemeCompileError {
        diagnostics: vec![
            ThemeDiagnostic {
                message: "unknown variable".to_owned(),
                range: Some(ThemeRange { start: 3, end: 5 }),
                hints: Vec::new(),
            },
            ThemeDiagnostic {
                message: "expected content".to_owned(),
                range: None,
                hints: vec!["try this".to_owned()],
            },
        ],
    };
    assert_eq!(compile.message(), "unknown variable\nexpected content");
    assert_eq!(
        RenderError::Compile(compile).message(),
        "Typst could not compile the resume theme:\nunknown variable\nexpected content"
    );
    assert_eq!(ThemeCompileError { diagnostics: Vec::new() }.message(), "");
    assert_eq!(
        RenderError::ThemeFile(ThemeFileError {
            message: "bad".to_owned(),
            range: None,
        })
        .message(),
        "the theme file is invalid: bad"
    );
    assert_eq!(
        RenderError::MissingFonts.message(),
        "the bundled Resumark fonts could not be loaded"
    );
    assert_eq!(
        RenderError::InvalidBundledPath.message(),
        "a bundled renderer asset has an invalid path"
    );
    assert_eq!(
        RenderError::InvalidPageLimit.message(),
        "the maximum page count must be at least one when specified"
    );
    let json_error = serde_json::from_str::<u8>("x").expect_err("not a number");
    assert_eq!(
        RenderError::Serialize(json_error).message(),
        "the resume model could not be serialized for Typst"
    );
    assert_eq!(
        ExportError::Pdf("no pages".to_owned()).message(),
        "Typst could not export the compiled document as PDF: no pages"
    );
}
