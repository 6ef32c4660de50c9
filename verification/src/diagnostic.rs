//! Source ranges and the diagnostics that Resumark reports to a resume author.
use vstd::prelude::*;

verus! {

/// A half-open UTF-8 byte range in the Markdown source.
#[derive(Debug, Clone, Copy, PartialEq, Eq, Structural)]
pub struct SourceRange {
    pub start: usize,
    pub end: usize,
}

impl SourceRange {
    pub fn new(start: usize, end: usize) -> (range: Self)
        ensures
            range == (SourceRange { start, end }),
    {
        SourceRange { start, end }
    }

    /// The smallest range that covers both `self` and `other`.
    pub open spec fn spec_cover(self, other: Self) -> Self {
        SourceRange {
            start: if self.start <= other.start {
                self.start
            } else {
                other.start
            },
            end: if self.end >= other.end {
                self.end
            } else {
                other.end
            },
        }
    }

    pub fn cover(self, other: Self) -> (range: Self)
        ensures
            range == self.spec_cover(other),
    {
        SourceRange {
            start: if self.start <= other.start {
                self.start
            } else {
                other.start
            },
            end: if self.end >= other.end {
                self.end
            } else {
                other.end
            },
        }
    }
}

impl From<std::ops::Range<usize>> for SourceRange {
    fn from(range: std::ops::Range<usize>) -> (converted: Self) {
        SourceRange { start: range.start, end: range.end }
    }
}

impl vstd::std_specs::convert::FromSpecImpl<std::ops::Range<usize>> for SourceRange {
    open spec fn obeys_from_spec() -> bool {
        true
    }

    open spec fn from_spec(range: std::ops::Range<usize>) -> SourceRange {
        SourceRange { start: range.start, end: range.end }
    }
}

/// Stable identifier for a problem the resume author can correct.
#[derive(Debug, Clone, Copy, PartialEq, Eq, PartialOrd, Ord, Hash, Structural)]
pub enum DiagnosticCode {
    DisallowedControlCharacter,
    DocumentTooLarge,
    MissingTitle,
    NestingTooDeep,
    PageLimitExceeded,
    UnexpectedMarkdownStructure,
    UnsafeLinkScheme,
    UnsupportedMarkdown,
    UnsupportedRawHtml,
}

impl DiagnosticCode {
    /// Position of the code in declaration order, which is the order in
    /// which diagnostics that start at the same byte are reported.
    pub open spec fn rank(self) -> nat {
        match self {
            DiagnosticCode::DisallowedControlCharacter => 0,
            DiagnosticCode::DocumentTooLarge => 1,
            DiagnosticCode::MissingTitle => 2,
            DiagnosticCode::NestingTooDeep => 3,
            DiagnosticCode::PageLimitExceeded => 4,
            DiagnosticCode::UnexpectedMarkdownStructure => 5,
            DiagnosticCode::UnsafeLinkScheme => 6,
            DiagnosticCode::UnsupportedMarkdown => 7,
            DiagnosticCode::UnsupportedRawHtml => 8,
        }
    }

    pub fn exec_rank(&self) -> (r: u8)
        ensures
            r == self.rank(),
    {
        match self {
            DiagnosticCode::DisallowedControlCharacter => 0,
            DiagnosticCode::DocumentTooLarge => 1,
            DiagnosticCode::MissingTitle => 2,
            DiagnosticCode::NestingTooDeep => 3,
            DiagnosticCode::PageLimitExceeded => 4,
            DiagnosticCode::UnexpectedMarkdownStructure => 5,
            DiagnosticCode::UnsafeLinkScheme => 6,
            DiagnosticCode::UnsupportedMarkdown => 7,
            DiagnosticCode::UnsupportedRawHtml => 8,
        }
    }

    /// The stable snake-case name shown to users.
    pub open spec fn name(self) -> Seq<char> {
        match self {
            DiagnosticCode::DisallowedControlCharacter => "disallowed_control_character"@,
            DiagnosticCode::DocumentTooLarge => "document_too_large"@,
            DiagnosticCode::MissingTitle => "missing_title"@,
            DiagnosticCode::NestingTooDeep => "nesting_too_deep"@,
            DiagnosticCode::PageLimitExceeded => "page_limit_exceeded"@,
            DiagnosticCode::UnexpectedMarkdownStructure => "unexpected_markdown_structure"@,
            DiagnosticCode::UnsafeLinkScheme => "unsafe_link_scheme"@,
            DiagnosticCode::UnsupportedMarkdown => "unsupported_markdown"@,
            DiagnosticCode::UnsupportedRawHtml => "unsupported_raw_html"@,
        }
    }

    /// The stable snake-case name shown to users.
    pub fn as_str(&self) -> (name: &'static str)
        ensures
            name@ == self.name(),
    {
        match self {
            DiagnosticCode::DisallowedControlCharacter => "disallowed_control_character",
            DiagnosticCode::DocumentTooLarge => "document_too_large",
            DiagnosticCode::MissingTitle => "missing_title",
            DiagnosticCode::NestingTooDeep => "nesting_too_deep",
            DiagnosticCode::PageLimitExceeded => "page_limit_exceeded",
            DiagnosticCode::UnexpectedMarkdownStructure => "unexpected_markdown_structure",
            DiagnosticCode::UnsafeLinkScheme => "unsafe_link_scheme",
            DiagnosticCode::UnsupportedMarkdown => "unsupported_markdown",
            DiagnosticCode::UnsupportedRawHtml => "unsupported_raw_html",
        }
    }
}

/// Importance of a source diagnostic.
#[derive(Debug, Clone, Copy, PartialEq, Eq, Structural)]
pub enum Severity {
    Warning,
    Error,
}

impl Severity {
    pub open spec fn name(self) -> Seq<char> {
        match self {
            Severity::Warning => "warning"@,
            Severity::Error => "error"@,
        }
    }

    /// The lowercase name shown to users.
    pub fn as_str(&self) -> (name: &'static str)
        ensures
            name@ == self.name(),
    {
        match self {
            Severity::Warning => "warning",
            Severity::Error => "error",
        }
    }
}

/// A source-oriented problem that can be shown by the CLI or future editor.
#[derive(Debug, Clone, PartialEq, Eq)]
pub struct Diagnostic {
    pub code: DiagnosticCode,
    pub severity: Severity,
    pub message: String,
    pub range: Option<SourceRange>,
    pub help: Option<String>,
}

/// The value of a [`Diagnostic`], with its text as character sequences.
pub struct SpecDiagnostic {
    pub code: DiagnosticCode,
    pub severity: Severity,
    pub message: Seq<char>,
    pub range: Option<SourceRange>,
    pub help: Option<Seq<char>>,
}

pub open spec fn option_text(text: Option<String>) -> Option<Seq<char>> {
    match text {
        Some(t) => Some(t@),
        None => None,
    }
}

impl View for Diagnostic {
    type V = SpecDiagnostic;

    open spec fn view(&self) -> SpecDiagnostic {
        SpecDiagnostic {
            code: self.code,
            severity: self.severity,
            message: self.message@,
            range: self.range,
            help: option_text(self.help),
        }
    }
}

/// The views of a sequence of diagnostics.
pub open spec fn diagnostics_view(diagnostics: Seq<Diagnostic>) -> Seq<SpecDiagnostic> {
    diagnostics.map_values(|d: Diagnostic| d@)
}

impl Diagnostic {
    /// A fatal diagnostic without help text.
    pub fn error(code: DiagnosticCode, message: String, range: Option<SourceRange>)
        -> (diagnostic: Self)
        ensures
            diagnostic@ == (SpecDiagnostic {
                code,
                severity: Severity::Error,
                message: message@,
                range,
                help: None,
            }),
    {
        Diagnostic { code, severity: Severity::Error, message, range, help: None }
    }

    /// Creates a non-fatal diagnostic that may accompany valid output.
    pub fn warning(code: DiagnosticCode, message: String, range: Option<SourceRange>)
        -> (diagnostic: Self)
        ensures
            diagnostic@ == (SpecDiagnostic {
                code,
                severity: Severity::Warning,
                message: message@,
                range,
                help: None,
            }),
    {
        Diagnostic { code, severity: Severity::Warning, message, range, help: None }
    }

    /// The same diagnostic with `help` attached.
    pub fn with_help(self, help: String) -> (diagnostic: Self)
        ensures
            diagnostic@ == (SpecDiagnostic { help: Some(help@), ..self@ }),
    {
        Diagnostic { help: Some(help), ..self }
    }
}

/// Whether any diagnostic is an error.
pub open spec fn has_error(diagnostics: Seq<SpecDiagnostic>) -> bool {
    exists|i: int| 0 <= i < diagnostics.len() && diagnostics[i].severity == Severity::Error
}

pub fn any_error(diagnostics: &Vec<Diagnostic>) -> (found: bool)
    ensures
        found == has_error(diagnostics_view(diagnostics@)),
{
    let n = diagnostics.len();
    for i in 0..n
        invariant
            n == diagnostics@.len(),
            forall|j: int|
                0 <= j < i ==> (#[trigger] diagnostics@[j]).severity != Severity::Error,
    {
        if let Severity::Error = diagnostics[i].severity {
            assert(diagnostics_view(diagnostics@)[i as int].severity == Severity::Error);
            return true;
        }
    }
    assert forall|j: int| 0 <= j < n implies (#[trigger] diagnostics_view(
        diagnostics@,
    )[j]).severity != Severity::Error by {
        assert(diagnostics_view(diagnostics@)[j] == diagnostics@[j]@);
    }
    false
}

/// The byte at which a diagnostic is reported; diagnostics without a range
/// come after every ranged one.
pub open spec fn sort_start(d: SpecDiagnostic) -> nat {
    match d.range {
        Some(r) => r.start as nat,
        None => usize::MAX as nat,
    }
}

/// Whether `a` may be reported before `b`: by start byte, then by code.
pub open spec fn key_le(a: SpecDiagnostic, b: SpecDiagnostic) -> bool {
    sort_start(a) < sort_start(b) || (sort_start(a) == sort_start(b) && a.code.rank()
        <= b.code.rank())
}

/// Inserts `d` into `sorted` after every element that may precede it.
pub open spec fn insert_by_key(sorted: Seq<SpecDiagnostic>, d: SpecDiagnostic) -> Seq<
    SpecDiagnostic,
>
    decreases sorted.len(),
{
    if sorted.len() == 0 || key_le(sorted.last(), d) {
        sorted.push(d)
    } else {
        insert_by_key(sorted.drop_last(), d).push(sorted.last())
    }
}

/// Diagnostics in report order: the stable sort of `s` by start byte and code.
pub open spec fn sort_by_key(s: Seq<SpecDiagnostic>) -> Seq<SpecDiagnostic>
    decreases s.len(),
{
    if s.len() == 0 {
        s
    } else {
        insert_by_key(sort_by_key(s.drop_last()), s.last())
    }
}

/// Whether `s` is in report order.
pub open spec fn sorted_by_key(s: Seq<SpecDiagnostic>) -> bool {
    forall|i: int, j: int| 0 <= i < j < s.len() ==> key_le(s[i], s[j])
}

fn exec_key_le(a: &Diagnostic, b: &Diagnostic) -> (le: bool)
    ensures
        le == key_le(a@, b@),
{
    let start_a: usize = match a.range {
        Some(r) => r.start,
        None => usize::MAX,
    };
    let start_b: usize = match b.range {
        Some(r) => r.start,
        None => usize::MAX,
    };
    start_a < start_b || (start_a == start_b && a.code.exec_rank() <= b.code.exec_rank())
}

/// Sorts diagnostics into report order, keeping the relative order of
/// diagnostics with the same start byte and code.
pub fn sort_diagnostics(diagnostics: Vec<Diagnostic>) -> (sorted: Vec<Diagnostic>)
    ensures
        diagnostics_view(sorted@) == sort_by_key(diagnostics_view(diagnostics@)),
{
    let mut sorted: Vec<Diagnostic> = Vec::new();
    let ghost input = diagnostics_view(diagnostics@);
    for d in iter: diagnostics
        invariant
            iter.seq() == diagnostics@,
            input == diagnostics_view(diagnostics@),
            diagnostics_view(sorted@) == sort_by_key(input.take(iter.index() as int)),
    {
        let ghost k = iter.index() as int;
        let ghost before = diagnostics_view(sorted@);
        let mut j = sorted.len();
        proof {
            assert(before.take(j as int) =~= before);
            assert(before.skip(j as int) =~= Seq::<SpecDiagnostic>::empty());
            assert(insert_by_key(before, d@) + Seq::<SpecDiagnostic>::empty() =~= insert_by_key(
                before,
                d@,
            ));
        }
        while j > 0 && !exec_key_le(&sorted[j - 1], &d)
            invariant
                0 <= j <= sorted@.len(),
                before == diagnostics_view(sorted@),
                insert_by_key(before, d@) == insert_by_key(before.take(j as int), d@)
                    + before.skip(j as int),
            decreases j,
        {
            proof {
                let t = before.take(j as int);
                assert(t.drop_last() =~= before.take(j - 1));
                assert(t.last() == sorted@[j - 1]@);
                assert(before.skip(j - 1) =~= seq![t.last()] + before.skip(j as int));
                assert(insert_by_key(t.drop_last(), d@).push(t.last()) + before.skip(j as int)
                    =~= insert_by_key(before.take(j - 1), d@) + before.skip(j - 1));
            }
            j = j - 1;
        }
        proof {
            let t = before.take(j as int);
            if j > 0 {
                assert(t.last() == sorted@[j - 1]@);
            }
            assert(insert_by_key(t, d@) == t.push(d@));
        }
        sorted.insert(j, d);
        proof {
            assert(input.take(k + 1).drop_last() =~= input.take(k));
            assert(input.take(k + 1).last() == d@);
            assert(diagnostics_view(sorted@) =~= before.take(j as int).push(d@) + before.skip(
                j as int,
            ));
        }
    }
    proof {
        assert(input.take(diagnostics@.len() as int) =~= input);
    }
    sorted
}

pub proof fn lemma_insert_by_key_multiset(sorted: Seq<SpecDiagnostic>, d: SpecDiagnostic)
    ensures
        insert_by_key(sorted, d).to_multiset() == sorted.to_multiset().insert(d),
        insert_by_key(sorted, d).len() == sorted.len() + 1,
    decreases sorted.len(),
{
    broadcast use vstd::seq_lib::group_seq_properties;

    if sorted.len() == 0 || key_le(sorted.last(), d) {
    } else {
        lemma_insert_by_key_multiset(sorted.drop_last(), d);
        assert(sorted.drop_last().push(sorted.last()) =~= sorted);
    }
}

pub proof fn lemma_insert_by_key_sorted(sorted: Seq<SpecDiagnostic>, d: SpecDiagnostic)
    requires
        sorted_by_key(sorted),
    ensures
        sorted_by_key(insert_by_key(sorted, d)),
        forall|x: SpecDiagnostic| #[trigger]
            insert_by_key(sorted, d).contains(x) ==> x == d || sorted.contains(x),
    decreases sorted.len(),
{
    broadcast use vstd::seq_lib::group_seq_properties;

    let r = insert_by_key(sorted, d);
    if sorted.len() == 0 || key_le(sorted.last(), d) {
        assert forall|i: int, j: int| 0 <= i < j < r.len() implies key_le(r[i], r[j]) by {
            if j == r.len() - 1 && i < j {
                assert(key_le(sorted[i], sorted.last()) || i == sorted.len() - 1);
            }
        }
        assert forall|x: SpecDiagnostic| #[trigger] r.contains(x) implies x == d || sorted.contains(x) by {
            let i = choose|i: int| 0 <= i < r.len() && r[i] == x;
            if i < sorted.len() {
                assert(sorted[i] == x);
            }
        }
    } else {
        let rest = sorted.drop_last();
        assert forall|i: int, j: int| 0 <= i < j < rest.len() implies key_le(rest[i], rest[j]) by {
            assert(rest[i] == sorted[i] && rest[j] == sorted[j]);
        }
        lemma_insert_by_key_sorted(rest, d);
        let inner = insert_by_key(rest, d);
        lemma_insert_by_key_multiset(rest, d);
        assert forall|x: SpecDiagnostic| #[trigger] inner.contains(x) implies key_le(
            x,
            sorted.last(),
        ) by {
            if x == d {
            } else {
                assert(rest.contains(x));
                let i = choose|i: int| 0 <= i < rest.len() && rest[i] == x;
                assert(key_le(sorted[i], sorted[sorted.len() - 1]));
            }
        }
        assert forall|i: int, j: int| 0 <= i < j < r.len() implies key_le(r[i], r[j]) by {
            if j == r.len() - 1 {
                assert(inner.contains(inner[i]));
            } else {
                assert(r[i] == inner[i] && r[j] == inner[j]);
            }
        }
        assert forall|x: SpecDiagnostic| #[trigger] r.contains(x) implies x == d || sorted.contains(x) by {
            let i = choose|i: int| 0 <= i < r.len() && r[i] == x;
            if i == r.len() - 1 {
                assert(sorted[sorted.len() - 1] == x);
            } else {
                assert(inner.contains(x));
                if x != d {
                    assert(rest.contains(x));
                    let k = choose|k: int| 0 <= k < rest.len() && rest[k] == x;
                    assert(sorted[k] == x);
                }
            }
        }
    }
}

/// Report order is a reordering of the diagnostics into sorted order.
pub proof fn lemma_sort_by_key(s: Seq<SpecDiagnostic>)
    ensures
        sorted_by_key(sort_by_key(s)),
        sort_by_key(s).to_multiset() == s.to_multiset(),
        sort_by_key(s).len() == s.len(),
    decreases s.len(),
{
    broadcast use vstd::seq_lib::group_seq_properties;

    if s.len() > 0 {
        lemma_sort_by_key(s.drop_last());
        lemma_insert_by_key_sorted(sort_by_key(s.drop_last()), s.last());
        lemma_insert_by_key_multiset(sort_by_key(s.drop_last()), s.last());
        assert(s.drop_last().push(s.last()) =~= s);
    }
}

} // verus!
