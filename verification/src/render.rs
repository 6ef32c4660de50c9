//! The renderer-side logic: bundled themes, the page limit, and the
//! messages of rendering and export failures.
use vstd::prelude::*;

use crate::diagnostic::{
    Diagnostic, DiagnosticCode, Severity, SpecDiagnostic, diagnostics_view, has_error,
};
use crate::text::{decimal, push_decimal, push_str};
use crate::theme::{ThemeFileError, ThemeRange};

verus! {

#[verifier::external_type_specification]
#[verifier::external_body]
pub struct ExJsonError(serde_json::Error);

/// A theme shipped with Resumark.
#[derive(Debug, Clone, Copy, PartialEq, Eq, Structural)]
pub enum BundledTheme {
    Minimal,
    Modern,
    Compact,
    Jakes,
}

impl BundledTheme {
    /// The theme's identifier.
    pub open spec fn spec_id(self) -> Seq<char> {
        match self {
            BundledTheme::Minimal => "minimal"@,
            BundledTheme::Modern => "modern"@,
            BundledTheme::Compact => "compact"@,
            BundledTheme::Jakes => "jakes"@,
        }
    }

    /// The theme's identifier.
    pub fn id(self) -> (id: &'static str)
        ensures
            id@ == self.spec_id(),
    {
        match self {
            BundledTheme::Minimal => "minimal",
            BundledTheme::Modern => "modern",
            BundledTheme::Compact => "compact",
            BundledTheme::Jakes => "jakes",
        }
    }

    /// Every bundled theme, in the order they are offered.
    pub fn all() -> (themes: &'static [BundledTheme])
        ensures
            themes@ == seq![
                BundledTheme::Minimal,
                BundledTheme::Modern,
                BundledTheme::Compact,
                BundledTheme::Jakes,
            ],
    {
        &[BundledTheme::Minimal, BundledTheme::Modern, BundledTheme::Compact, BundledTheme::Jakes]
    }
}

/// Every bundled theme is listed once, and each has its own identifier.
pub proof fn law_bundled_themes_listed_once(theme: BundledTheme, other: BundledTheme)
    ensures
        theme.spec_id() == other.spec_id() ==> theme == other,
        seq![
            BundledTheme::Minimal,
            BundledTheme::Modern,
            BundledTheme::Compact,
            BundledTheme::Jakes,
        ].contains(theme),
{
    reveal_strlit("minimal");
    reveal_strlit("modern");
    reveal_strlit("compact");
    reveal_strlit("jakes");
    let all = seq![
        BundledTheme::Minimal,
        BundledTheme::Modern,
        BundledTheme::Compact,
        BundledTheme::Jakes,
    ];
    match theme {
        BundledTheme::Minimal => assert(all[0] == theme),
        BundledTheme::Modern => assert(all[1] == theme),
        BundledTheme::Compact => assert(all[2] == theme),
        BundledTheme::Jakes => assert(all[3] == theme),
    }
    if theme != other {
        assert(theme.spec_id()[1] != other.spec_id()[1] || theme.spec_id().len()
            != other.spec_id().len());
    }
}

/// One Typst compiler message, with a byte range when it points into the theme.
#[derive(Debug, Clone, PartialEq, Eq)]
pub struct ThemeDiagnostic {
    pub message: String,
    pub range: Option<ThemeRange>,
    pub hints: Vec<String>,
}

/// Structured Typst errors from compiling a theme.
#[derive(Debug, Clone, PartialEq, Eq)]
pub struct ThemeCompileError {
    pub diagnostics: Vec<ThemeDiagnostic>,
}

/// `lines` joined with line feeds between them.
pub open spec fn join_lines(lines: Seq<Seq<char>>) -> Seq<char>
    decreases lines.len(),
{
    if lines.len() == 0 {
        seq![]
    } else if lines.len() == 1 {
        lines[0]
    } else {
        join_lines(lines.drop_last()) + seq!['\n'] + lines.last()
    }
}

/// The messages of a compile error's diagnostics, in order.
pub open spec fn theme_messages(diagnostics: Seq<ThemeDiagnostic>) -> Seq<Seq<char>> {
    diagnostics.map_values(|d: ThemeDiagnostic| d.message@)
}

impl ThemeCompileError {
    /// Every compiler message, one per line.
    pub fn message(&self) -> (m: String)
        ensures
            m@ == join_lines(theme_messages(self.diagnostics@)),
    {
        let mut m = String::new();
        let n = self.diagnostics.len();
        let ghost messages = theme_messages(self.diagnostics@);
        for i in 0..n
            invariant
                n == self.diagnostics@.len(),
                messages == theme_messages(self.diagnostics@),
                m@ == join_lines(messages.take(i as int)),
        {
            let ghost before = m@;
            if i > 0 {
                push_str(&mut m, "\n");
            }
            push_str(&mut m, self.diagnostics[i].message.as_str());
            proof {
                reveal_strlit("\n");
                let t = messages.take(i + 1);
                assert(t.drop_last() =~= messages.take(i as int));
                assert(t.last() == self.diagnostics@[i as int].message@);
                if i == 0 {
                    assert(m@ =~= t[0]);
                } else {
                    assert(m@ =~= before + seq!['\n'] + t.last());
                }
            }
        }
        proof {
            assert(messages.take(n as int) =~= messages);
        }
        m
    }
}

/// A failure while initializing or compiling the rendering pipeline.
#[derive(Debug)]
pub enum RenderError {
    MissingFonts,
    Serialize(serde_json::Error),
    InvalidBundledPath,
    InvalidPageLimit,
    ThemeFile(ThemeFileError),
    Compile(ThemeCompileError),
}

impl RenderError {
    pub open spec fn spec_message(&self) -> Seq<char> {
        match self {
            RenderError::MissingFonts => "the bundled Resumark fonts could not be loaded"@,
            RenderError::Serialize(_) => "the resume model could not be serialized for Typst"@,
            RenderError::InvalidBundledPath => "a bundled renderer asset has an invalid path"@,
            RenderError::InvalidPageLimit => "the maximum page count must be at least one when specified"@,
            RenderError::ThemeFile(error) => "the theme file is invalid: "@ + error.message@,
            RenderError::Compile(error) => "Typst could not compile the resume theme:\n"@
                + join_lines(theme_messages(error.diagnostics@)),
        }
    }

    /// The message shown for this error.
    pub fn message(&self) -> (m: String)
        ensures
            m@ == self.spec_message(),
    {
        match self {
            RenderError::MissingFonts => String::from_str(
                "the bundled Resumark fonts could not be loaded",
            ),
            RenderError::Serialize(_) => String::from_str(
                "the resume model could not be serialized for Typst",
            ),
            RenderError::InvalidBundledPath => String::from_str(
                "a bundled renderer asset has an invalid path",
            ),
            RenderError::InvalidPageLimit => String::from_str(
                "the maximum page count must be at least one when specified",
            ),
            RenderError::ThemeFile(error) => {
                let mut m = String::from_str("the theme file is invalid: ");
                push_str(&mut m, error.message.as_str());
                m
            },
            RenderError::Compile(error) => {
                let mut m = String::from_str("Typst could not compile the resume theme:\n");
                let details = error.message();
                push_str(&mut m, details.as_str());
                m
            },
        }
    }
}

/// Checks the page limit of a compilation: a limit, when given, is at
/// least one page.
pub fn validate_page_limit(max_pages: Option<usize>) -> (result: Result<(), RenderError>)
    ensures
        result is Ok <==> max_pages != Some(0usize),
        result matches Err(error) ==> error is InvalidPageLimit,
{
    match max_pages {
        Some(0) => Err(RenderError::InvalidPageLimit),
        _ => Ok(()),
    }
}

/// A failure while exporting a compiled document.
#[derive(Debug)]
pub enum ExportError {
    Pdf(String),
}

impl ExportError {
    pub open spec fn spec_message(&self) -> Seq<char> {
        match self {
            ExportError::Pdf(details) => "Typst could not export the compiled document as PDF: "@
                + details@,
        }
    }

    /// The message shown for this error.
    pub fn message(&self) -> (m: String)
        ensures
            m@ == self.spec_message(),
    {
        match self {
            ExportError::Pdf(details) => {
                let mut m = String::from_str(
                    "Typst could not export the compiled document as PDF: ",
                );
                push_str(&mut m, details.as_str());
                m
            },
        }
    }
}

/// The warning given when a resume renders longer than its page limit.
pub open spec fn page_limit_warning(page_count: nat, max_pages: nat) -> SpecDiagnostic {
    SpecDiagnostic {
        code: DiagnosticCode::PageLimitExceeded,
        severity: Severity::Warning,
        message: "the resume rendered as "@ + decimal(page_count) + " pages; the configured maximum is "@
            + decimal(max_pages),
        range: None,
        help: Some("shorten the content or raise the maximum page count"@),
    }
}

/// The page-limit diagnostics of a rendering of `page_count` pages: one
/// warning when a limit is set and exceeded.
pub open spec fn page_limit_spec(page_count: nat, max_pages: Option<usize>) -> Seq<SpecDiagnostic> {
    match max_pages {
        Some(limit) => if page_count > limit {
            seq![page_limit_warning(page_count, limit as nat)]
        } else {
            seq![]
        },
        None => seq![],
    }
}

/// The diagnostics for a rendering of `page_count` pages under `max_pages`.
/// Exceeding the limit is a warning, never an error.
pub fn page_limit_diagnostics(page_count: usize, max_pages: Option<usize>) -> (diagnostics: Vec<
    Diagnostic,
>)
    ensures
        diagnostics_view(diagnostics@) == page_limit_spec(page_count as nat, max_pages),
        !has_error(diagnostics_view(diagnostics@)),
{
    let mut diagnostics = Vec::new();
    match max_pages {
        Some(limit) => {
            if page_count > limit {
                let mut message = String::from_str("the resume rendered as ");
                push_decimal(&mut message, page_count as u64);
                push_str(&mut message, " pages; the configured maximum is ");
                push_decimal(&mut message, limit as u64);
                let d = Diagnostic::warning(DiagnosticCode::PageLimitExceeded, message, None).with_help(
                    String::from_str("shorten the content or raise the maximum page count"),
                );
                diagnostics.push(d);
                proof {
                    assert(diagnostics_view(diagnostics@) =~= seq![
                        page_limit_warning(page_count as nat, limit as nat),
                    ]);
                }
            }
        },
        None => {},
    }
    proof {
        assert(diagnostics_view(diagnostics@) =~= page_limit_spec(page_count as nat, max_pages));
    }
    diagnostics
}

} // verus!
