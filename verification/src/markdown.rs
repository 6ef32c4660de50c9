//! Analysis of Markdown into Resumark's renderer-independent document model.
use vstd::prelude::*;

use crate::diagnostic::{
    Diagnostic, DiagnosticCode, Severity, SourceRange, SpecDiagnostic, any_error, diagnostics_view,
    has_error, option_text, sort_by_key, sort_diagnostics,
};
use crate::events::{
    SourcedEvent, SpecMarkdownEvent, SpecSourcedEvent, SpecStartTag, MarkdownEvent, StartTag,
    TagKind, events_view, markdown_event_values, markdown_events,
};
use crate::model::{
    Block, BlockNode, DocumentMetadata, HeadingLevel, Inline, InlineNode, InvalidLinkTarget,
    LinkTarget, ListItem, ListKind, RenderDocument, SpecBlock, SpecBlockNode, SpecDocument,
    SpecInline, SpecInlineNode, SpecInvalidLinkTarget, SpecListItem, append_plain_text,
    block_nodes_view, inline_nodes_view, inlines_text, invalid_link_message, link_policy,
    list_items_view,
};
use crate::range_laws::{
    analysis_inside, law_analysis_ranges_inside_source, law_early_diagnostics_inside_source,
};
use crate::text::{
    byte_len, char_width, chars_of, hex_upper_4, push_decimal, push_hex4, push_str, trim,
    trimmed, utf8_len, utf8_width, decimal, lemma_utf8_len_take_step,
};

verus! {

/// Named limits applied before and during Markdown analysis.
#[derive(Debug, Clone, Copy, PartialEq, Eq, Structural)]
pub struct ParseLimits {
    pub max_source_bytes: usize,
    pub max_nesting_depth: usize,
}

impl Default for ParseLimits {
    fn default() -> (limits: Self)
        ensures
            limits == (ParseLimits { max_source_bytes: 262144, max_nesting_depth: 16 }),
    {
        ParseLimits { max_source_bytes: 256 * 1024, max_nesting_depth: 16 }
    }
}

/// The usable document, when valid, and every source diagnostic found.
#[derive(Debug, PartialEq, Eq)]
pub struct Analysis {
    pub document: Option<RenderDocument>,
    pub diagnostics: Vec<Diagnostic>,
}

/// The value of an [`Analysis`].
pub struct SpecAnalysis {
    pub document: Option<SpecDocument>,
    pub diagnostics: Seq<SpecDiagnostic>,
}

pub open spec fn document_view(document: Option<RenderDocument>) -> Option<SpecDocument> {
    match document {
        Some(d) => Some(d@),
        None => None,
    }
}

impl View for Analysis {
    type V = SpecAnalysis;

    open spec fn view(&self) -> SpecAnalysis {
        SpecAnalysis {
            document: document_view(self.document),
            diagnostics: diagnostics_view(self.diagnostics@),
        }
    }
}

impl Analysis {
    /// Whether any diagnostic is an error.
    pub fn has_errors(&self) -> (errors: bool)
        ensures
            errors == has_error(self@.diagnostics),
    {
        any_error(&self.diagnostics)
    }
}

// ---------------------------------------------------------------------------
// Diagnostics raised while analyzing Markdown
/// An error diagnostic with help text.
pub open spec fn error_with_help(
    code: DiagnosticCode,
    message: Seq<char>,
    range: Option<SourceRange>,
    help: Seq<char>,
) -> SpecDiagnostic {
    SpecDiagnostic { code, severity: Severity::Error, message, range, help: Some(help) }
}

fn exec_error_with_help(
    code: DiagnosticCode,
    message: String,
    range: Option<SourceRange>,
    help: &str,
) -> (d: Diagnostic)
    ensures
        d@ == error_with_help(code, message@, range, help@),
{
    Diagnostic::error(code, message, range).with_help(String::from_str(help))
}

pub open spec fn too_large_diagnostic(length: nat, limit: usize) -> SpecDiagnostic {
    error_with_help(
        DiagnosticCode::DocumentTooLarge,
        "the Markdown source is "@ + decimal(length) + " bytes; the current limit is "@ + decimal(
            limit as nat,
        ) + " bytes"@,
        Some(SourceRange { start: 0, end: length as usize }),
        "shorten the source or deliberately raise ParseLimits::max_source_bytes"@,
    )
}

pub open spec fn control_diagnostic(c: char, start: nat) -> SpecDiagnostic {
    error_with_help(
        DiagnosticCode::DisallowedControlCharacter,
        "the Markdown source contains disallowed control character U+"@ + hex_upper_4(
            c as u32 as nat,
        ),
        Some(SourceRange { start: start as usize, end: (start + utf8_width(c)) as usize }),
        "remove the control character; tabs and ordinary line breaks are allowed"@,
    )
}

pub open spec fn nesting_diagnostic(limit: usize, range: SourceRange) -> SpecDiagnostic {
    error_with_help(
        DiagnosticCode::NestingTooDeep,
        "Markdown nesting exceeds the configured depth of "@ + decimal(limit as nat),
        Some(range),
        "reduce nested lists or nested inline formatting"@,
    )
}

pub open spec fn unsupported_diagnostic(construct: Seq<char>, range: SourceRange) -> SpecDiagnostic {
    error_with_help(
        DiagnosticCode::UnsupportedMarkdown,
        "Resumark does not support Markdown "@ + construct,
        Some(range),
        "use headings, paragraphs, lists, emphasis, links, inline code, or dividers"@,
    )
}

pub open spec fn raw_html_diagnostic(range: SourceRange) -> SpecDiagnostic {
    error_with_help(
        DiagnosticCode::UnsupportedRawHtml,
        "raw HTML is not allowed in Resumark Markdown"@,
        Some(range),
        "write the content with supported Markdown instead"@,
    )
}

pub open spec fn link_diagnostic(error: SpecInvalidLinkTarget, range: SourceRange) -> SpecDiagnostic {
    error_with_help(
        DiagnosticCode::UnsafeLinkScheme,
        invalid_link_message(error),
        Some(range),
        "use an https, http, mailto, or tel link"@,
    )
}

pub open spec fn unexpected_structure(range: SourceRange) -> SpecDiagnostic {
    error_with_help(
        DiagnosticCode::UnexpectedMarkdownStructure,
        "the Markdown parser produced an unexpected event sequence"@,
        Some(range),
        "simplify the Markdown around this location and try again"@,
    )
}

pub open spec fn missing_title_diagnostic() -> SpecDiagnostic {
    error_with_help(
        DiagnosticCode::MissingTitle,
        "the Markdown document needs a level-one heading for the resume name"@,
        None,
        "add a heading such as `# Jane Doe` at the start of the document"@,
    )
}

fn exec_nesting_diagnostic(limit: usize, range: SourceRange) -> (d: Diagnostic)
    ensures
        d@ == nesting_diagnostic(limit, range),
{
    let mut message = String::from_str("Markdown nesting exceeds the configured depth of ");
    push_decimal(&mut message, limit as u64);
    exec_error_with_help(
        DiagnosticCode::NestingTooDeep,
        message,
        Some(range),
        "reduce nested lists or nested inline formatting",
    )
}

fn exec_unsupported_diagnostic(construct: &str, range: SourceRange) -> (d: Diagnostic)
    ensures
        d@ == unsupported_diagnostic(construct@, range),
{
    let mut message = String::from_str("Resumark does not support Markdown ");
    push_str(&mut message, construct);
    exec_error_with_help(
        DiagnosticCode::UnsupportedMarkdown,
        message,
        Some(range),
        "use headings, paragraphs, lists, emphasis, links, inline code, or dividers",
    )
}

fn exec_raw_html_diagnostic(range: SourceRange) -> (d: Diagnostic)
    ensures
        d@ == raw_html_diagnostic(range),
{
    exec_error_with_help(
        DiagnosticCode::UnsupportedRawHtml,
        String::from_str("raw HTML is not allowed in Resumark Markdown"),
        Some(range),
        "write the content with supported Markdown instead",
    )
}

fn exec_link_diagnostic(error: &InvalidLinkTarget, range: SourceRange) -> (d: Diagnostic)
    ensures
        d@ == link_diagnostic(error@, range),
{
    exec_error_with_help(
        DiagnosticCode::UnsafeLinkScheme,
        error.message(),
        Some(range),
        "use an https, http, mailto, or tel link",
    )
}

fn exec_unexpected_structure(range: SourceRange) -> (d: Diagnostic)
    ensures
        d@ == unexpected_structure(range),
{
    exec_error_with_help(
        DiagnosticCode::UnexpectedMarkdownStructure,
        String::from_str("the Markdown parser produced an unexpected event sequence"),
        Some(range),
        "simplify the Markdown around this location and try again",
    )
}

fn exec_missing_title_diagnostic() -> (d: Diagnostic)
    ensures
        d@ == missing_title_diagnostic(),
{
    exec_error_with_help(
        DiagnosticCode::MissingTitle,
        String::from_str("the Markdown document needs a level-one heading for the resume name"),
        None,
        "add a heading such as `# Jane Doe` at the start of the document",
    )
}

// ---------------------------------------------------------------------------
// Checks made before the Markdown parser runs
/// Control characters other than tab, line feed and carriage return.
pub open spec fn is_disallowed_control(c: char) -> bool {
    ((c as u32) <= 0x1f && c != '\t' && c != '\n' && c != '\r') || (c as u32) == 0x7f
}

fn exec_is_disallowed_control(c: char) -> (b: bool)
    ensures
        b == is_disallowed_control(c),
{
    ((c as u32) <= 0x1f && c != '\t' && c != '\n' && c != '\r') || (c as u32) == 0x7f
}

/// One diagnostic for each disallowed control character, in source order.
pub open spec fn control_diagnostics(source: Seq<char>) -> Seq<SpecDiagnostic>
    decreases source.len(),
{
    if source.len() == 0 {
        seq![]
    } else {
        let prefix = source.drop_last();
        let c = source.last();
        control_diagnostics(prefix) + if is_disallowed_control(c) {
            seq![control_diagnostic(c, utf8_len(prefix))]
        } else {
            seq![]
        }
    }
}

/// The diagnostics found before parsing: the source is too large, or it
/// contains control characters.
pub open spec fn source_diagnostics(source: Seq<char>, limits: ParseLimits) -> Seq<SpecDiagnostic> {
    if utf8_len(source) > limits.max_source_bytes {
        seq![too_large_diagnostic(utf8_len(source), limits.max_source_bytes)]
    } else {
        control_diagnostics(source)
    }
}

fn validate_source(source: &str, limits: &ParseLimits) -> (diagnostics: Vec<Diagnostic>)
    ensures
        diagnostics_view(diagnostics@) == source_diagnostics(source@, *limits),
        utf8_len(source@) <= usize::MAX,
{
    let length = byte_len(source);
    if length > limits.max_source_bytes {
        let mut message = String::from_str("the Markdown source is ");
        push_decimal(&mut message, length as u64);
        push_str(&mut message, " bytes; the current limit is ");
        push_decimal(&mut message, limits.max_source_bytes as u64);
        push_str(&mut message, " bytes");
        let d = exec_error_with_help(
            DiagnosticCode::DocumentTooLarge,
            message,
            Some(SourceRange::new(0, length)),
            "shorten the source or deliberately raise ParseLimits::max_source_bytes",
        );
        let mut diagnostics = Vec::new();
        diagnostics.push(d);
        proof {
            assert(diagnostics_view(diagnostics@) =~= seq![too_large_diagnostic(
                utf8_len(source@),
                limits.max_source_bytes,
            )]);
        }
        return diagnostics;
    }
    let chars = chars_of(source);
    let n = chars.len();
    let mut diagnostics: Vec<Diagnostic> = Vec::new();
    let mut offset: usize = 0;
    for i in 0..n
        invariant
            n == chars@.len(),
            chars@ == source@,
            utf8_len(source@) <= usize::MAX,
            offset == utf8_len(chars@.take(i as int)),
            diagnostics_view(diagnostics@) == control_diagnostics(chars@.take(i as int)),
    {
        let c = chars[i];
        proof {
            lemma_utf8_len_take_step(chars@, i as int);
            crate::text::lemma_utf8_len_monotonic(chars@, i + 1, n as int);
            assert(chars@.take(n as int) =~= chars@);
            let t = chars@.take(i + 1);
            assert(t.drop_last() =~= chars@.take(i as int));
            assert(t.last() == c);
        }
        let width = char_width(c);
        if exec_is_disallowed_control(c) {
            let mut message = String::from_str(
                "the Markdown source contains disallowed control character U+",
            );
            push_hex4(&mut message, c as u32);
            let d = exec_error_with_help(
                DiagnosticCode::DisallowedControlCharacter,
                message,
                Some(SourceRange::new(offset, offset + width)),
                "remove the control character; tabs and ordinary line breaks are allowed",
            );
            let ghost before = diagnostics_view(diagnostics@);
            diagnostics.push(d);
            proof {
                assert(diagnostics_view(diagnostics@) =~= before.push(d@));
            }
        }
        proof {
            let t = chars@.take(i + 1);
            if !is_disallowed_control(c) {
                assert(control_diagnostics(t) =~= control_diagnostics(chars@.take(i as int)));
            } else {
                assert(control_diagnostics(t) =~= control_diagnostics(chars@.take(i as int)).push(
                    control_diagnostic(c, offset as nat),
                ));
            }
        }
        offset = offset + width;
    }
    proof {
        assert(chars@.take(n as int) =~= source@);
    }
    diagnostics
}

// ---------------------------------------------------------------------------
// Building the document from the parser's events
/// The value of an open element on the builder's stack.
pub enum SpecContainer {
    Document(Seq<SpecBlockNode>),
    Heading { range: SourceRange, level: HeadingLevel, content: Seq<SpecInlineNode> },
    Paragraph { range: SourceRange, content: Seq<SpecInlineNode> },
    List { range: SourceRange, list_kind: ListKind, items: Seq<SpecListItem> },
    ListItem { range: SourceRange, blocks: Seq<SpecBlockNode> },
    Strong { range: SourceRange, content: Seq<SpecInlineNode> },
    Emphasis { range: SourceRange, content: Seq<SpecInlineNode> },
    Link { range: SourceRange, destination: Option<Seq<char>>, label: Seq<SpecInlineNode> },
}

/// The state of document building: the open elements, innermost last; how
/// many unsupported elements are being skipped; the diagnostics so far; and
/// whether the event sequence broke the expected structure.
pub struct SpecBuilder {
    pub limits: ParseLimits,
    pub stack: Seq<SpecContainer>,
    pub ignored_depth: nat,
    pub diagnostics: Seq<SpecDiagnostic>,
    pub structure_failed: bool,
}

pub open spec fn initial_builder(limits: ParseLimits) -> SpecBuilder {
    SpecBuilder {
        limits,
        stack: seq![SpecContainer::Document(seq![])],
        ignored_depth: 0,
        diagnostics: seq![],
        structure_failed: false,
    }
}

/// `b` with its innermost element replaced by `c`.
pub open spec fn with_top(b: SpecBuilder, c: SpecContainer) -> SpecBuilder {
    SpecBuilder { stack: b.stack.update(b.stack.len() - 1, c), ..b }
}

/// `b` with `c` opened inside its innermost element.
pub open spec fn with_pushed(b: SpecBuilder, c: SpecContainer) -> SpecBuilder {
    SpecBuilder { stack: b.stack.push(c), ..b }
}

/// `b` with one more diagnostic.
pub open spec fn with_diagnostic(b: SpecBuilder, d: SpecDiagnostic) -> SpecBuilder {
    SpecBuilder { diagnostics: b.diagnostics.push(d), ..b }
}

/// `b` after reporting `d` and skipping the element that caused it.
pub open spec fn ignoring(b: SpecBuilder, d: SpecDiagnostic) -> SpecBuilder {
    SpecBuilder { ignored_depth: 1, ..with_diagnostic(b, d) }
}

/// Adds a finished block to the document or to the open list item.
pub open spec fn spec_push_block(b: SpecBuilder, block: SpecBlockNode) -> Result<
    SpecBuilder,
    SpecDiagnostic,
> {
    if b.stack.len() == 0 {
        Err(unexpected_structure(block.range))
    } else {
        match b.stack.last() {
            SpecContainer::Document(blocks) => Ok(
                with_top(b, SpecContainer::Document(blocks.push(block))),
            ),
            SpecContainer::ListItem { range, blocks } => Ok(
                with_top(b, SpecContainer::ListItem { range, blocks: blocks.push(block) }),
            ),
            _ => Err(unexpected_structure(block.range)),
        }
    }
}

/// The blocks of a list item after inline content arrives outside any
/// paragraph: CommonMark omits paragraph tags around tight list-item text,
/// so the content joins the item's last paragraph, or starts one.
pub open spec fn append_to_item(blocks: Seq<SpecBlockNode>, inline: SpecInlineNode) -> Seq<
    SpecBlockNode,
> {
    if blocks.len() > 0 && blocks.last().kind is Paragraph {
        let last = blocks.last();
        let content = match last.kind {
            SpecBlock::Paragraph(content) => content,
            _ => seq![],
        };
        blocks.update(
            blocks.len() - 1,
            SpecBlockNode {
                range: last.range.spec_cover(inline.range),
                kind: SpecBlock::Paragraph(content.push(inline)),
            },
        )
    } else {
        blocks.push(SpecBlockNode { range: inline.range, kind: SpecBlock::Paragraph(seq![inline]) })
    }
}

/// Adds inline content to the innermost open element.
pub open spec fn spec_push_inline(b: SpecBuilder, inline: SpecInlineNode) -> Result<
    SpecBuilder,
    SpecDiagnostic,
> {
    if b.stack.len() == 0 {
        Err(unexpected_structure(inline.range))
    } else {
        match b.stack.last() {
            SpecContainer::Heading { range, level, content } => Ok(
                with_top(b, SpecContainer::Heading { range, level, content: content.push(inline) }),
            ),
            SpecContainer::Paragraph { range, content } => Ok(
                with_top(b, SpecContainer::Paragraph { range, content: content.push(inline) }),
            ),
            SpecContainer::Strong { range, content } => Ok(
                with_top(b, SpecContainer::Strong { range, content: content.push(inline) }),
            ),
            SpecContainer::Emphasis { range, content } => Ok(
                with_top(b, SpecContainer::Emphasis { range, content: content.push(inline) }),
            ),
            SpecContainer::Link { range, destination, label } => Ok(
                with_top(
                    b,
                    SpecContainer::Link { range, destination, label: label.push(inline) },
                ),
            ),
            SpecContainer::ListItem { range, blocks } => Ok(
                with_top(
                    b,
                    SpecContainer::ListItem { range, blocks: append_to_item(blocks, inline) },
                ),
            ),
            _ => Err(unexpected_structure(inline.range)),
        }
    }
}

/// Adds each inline node in turn, stopping at the first failure.
pub open spec fn spec_push_inlines(b: SpecBuilder, inlines: Seq<SpecInlineNode>) -> Result<
    SpecBuilder,
    SpecDiagnostic,
>
    decreases inlines.len(),
{
    if inlines.len() == 0 {
        Ok(b)
    } else {
        match spec_push_inline(b, inlines[0]) {
            Ok(next) => spec_push_inlines(next, inlines.drop_first()),
            Err(d) => Err(d),
        }
    }
}

/// Closes the innermost element; the document itself cannot be closed.
pub open spec fn spec_pop(b: SpecBuilder, range: SourceRange) -> Result<
    (SpecBuilder, SpecContainer),
    SpecDiagnostic,
> {
    if b.stack.len() <= 1 {
        Err(unexpected_structure(range))
    } else {
        Ok((SpecBuilder { stack: b.stack.drop_last(), ..b }, b.stack.last()))
    }
}

/// The heading level numbered `level`, for `level` in 1 through 6.
pub open spec fn heading_of(level: u8) -> HeadingLevel {
    if level == 1 {
        HeadingLevel::One
    } else if level == 2 {
        HeadingLevel::Two
    } else if level == 3 {
        HeadingLevel::Three
    } else if level == 4 {
        HeadingLevel::Four
    } else if level == 5 {
        HeadingLevel::Five
    } else {
        HeadingLevel::Six
    }
}

/// How an unsupported element is named in its diagnostic.
pub open spec fn construct_name(kind: TagKind) -> Seq<char> {
    match kind {
        TagKind::BlockQuote => "block quotes"@,
        TagKind::CodeBlock => "code blocks"@,
        TagKind::FootnoteDefinition => "footnotes"@,
        TagKind::Strikethrough => "strikethrough"@,
        TagKind::Image => "images"@,
        TagKind::Table => "tables"@,
        TagKind::MetadataBlock => "metadata blocks"@,
        _ => "extended Markdown"@,
    }
}

/// Opens a heading of number `level`, or skips one with attributes.
pub open spec fn spec_open_heading(
    b: SpecBuilder,
    level: u8,
    has_attributes: bool,
    range: SourceRange,
) -> Result<SpecBuilder, SpecDiagnostic> {
    if has_attributes {
        Ok(ignoring(b, unsupported_diagnostic("heading attributes"@, range)))
    } else if 1 <= level <= 6 {
        Ok(
            with_pushed(
                b,
                SpecContainer::Heading { range, level: heading_of(level), content: seq![] },
            ),
        )
    } else {
        Err(unexpected_structure(range))
    }
}

/// Opens a link; a destination that the link policy refuses is reported
/// and the link keeps only its label.
pub open spec fn spec_open_link(b: SpecBuilder, destination: Seq<char>, range: SourceRange) -> SpecBuilder {
    match link_policy(destination) {
        Ok(target) => with_pushed(
            b,
            SpecContainer::Link { range, destination: Some(target), label: seq![] },
        ),
        Err(error) => with_pushed(
            with_diagnostic(b, link_diagnostic(error, range)),
            SpecContainer::Link { range, destination: None, label: seq![] },
        ),
    }
}

/// Opens an element that carries no attributes Resumark reads, or skips it.
pub open spec fn spec_open_other(b: SpecBuilder, kind: TagKind, range: SourceRange) -> Result<
    SpecBuilder,
    SpecDiagnostic,
> {
    match kind {
        TagKind::Paragraph => Ok(with_pushed(b, SpecContainer::Paragraph { range, content: seq![] })),
        TagKind::Item => Ok(with_pushed(b, SpecContainer::ListItem { range, blocks: seq![] })),
        TagKind::Emphasis => Ok(with_pushed(b, SpecContainer::Emphasis { range, content: seq![] })),
        TagKind::Strong => Ok(with_pushed(b, SpecContainer::Strong { range, content: seq![] })),
        TagKind::HtmlBlock => Ok(ignoring(b, raw_html_diagnostic(range))),
        TagKind::Heading | TagKind::List | TagKind::Link => Err(unexpected_structure(range)),
        _ => Ok(ignoring(b, unsupported_diagnostic(construct_name(kind), range))),
    }
}

/// Opens an element, or reports and skips one that Resumark does not
/// support or that is nested too deeply.
pub open spec fn spec_start(b: SpecBuilder, tag: SpecStartTag, range: SourceRange) -> Result<
    SpecBuilder,
    SpecDiagnostic,
> {
    if b.stack.len() > b.limits.max_nesting_depth {
        Ok(ignoring(b, nesting_diagnostic(b.limits.max_nesting_depth, range)))
    } else {
        match tag {
            SpecStartTag::Heading { level, id, classes, attributes } => spec_open_heading(
                b,
                level,
                id || classes > 0 || attributes > 0,
                range,
            ),
            SpecStartTag::List { start } => Ok(
                with_pushed(
                    b,
                    SpecContainer::List {
                        range,
                        list_kind: match start {
                            None => ListKind::Unordered,
                            Some(first) => ListKind::Ordered { start: first },
                        },
                        items: seq![],
                    },
                ),
            ),
            SpecStartTag::Link { destination } => Ok(spec_open_link(b, destination, range)),
            SpecStartTag::Other(kind) => spec_open_other(b, kind, range),
        }
    }
}

/// Adds the element `c`, closed by an end of `kind` at `range`, to the
/// element that contains it.
pub open spec fn spec_close(b: SpecBuilder, c: SpecContainer, kind: TagKind, range: SourceRange) -> Result<
    SpecBuilder,
    SpecDiagnostic,
> {
    match c {
        SpecContainer::Paragraph { range: start, content } => if kind == TagKind::Paragraph {
            spec_push_block(
                b,
                SpecBlockNode { range: start.spec_cover(range), kind: SpecBlock::Paragraph(content) },
            )
        } else {
            Err(unexpected_structure(range))
        },
        SpecContainer::Heading { range: start, level, content } => if kind == TagKind::Heading {
            spec_push_block(
                b,
                SpecBlockNode {
                    range: start.spec_cover(range),
                    kind: SpecBlock::Heading { level, content },
                },
            )
        } else {
            Err(unexpected_structure(range))
        },
        SpecContainer::List { range: start, list_kind, items } => if kind == TagKind::List {
            spec_push_block(
                b,
                SpecBlockNode {
                    range: start.spec_cover(range),
                    kind: SpecBlock::List { list_kind, items },
                },
            )
        } else {
            Err(unexpected_structure(range))
        },
        SpecContainer::ListItem { range: start, blocks } => if kind == TagKind::Item
            && b.stack.len() > 0 && b.stack.last() is List {
            match b.stack.last() {
                SpecContainer::List { range: list_range, list_kind, items } => Ok(
                    with_top(
                        b,
                        SpecContainer::List {
                            range: list_range,
                            list_kind,
                            items: items.push(
                                SpecListItem { range: start.spec_cover(range), blocks },
                            ),
                        },
                    ),
                ),
                _ => Err(unexpected_structure(range)),
            }
        } else {
            Err(unexpected_structure(range))
        },
        SpecContainer::Emphasis { range: start, content } => if kind == TagKind::Emphasis {
            spec_push_inline(
                b,
                SpecInlineNode { range: start.spec_cover(range), kind: SpecInline::Emphasis(content) },
            )
        } else {
            Err(unexpected_structure(range))
        },
        SpecContainer::Strong { range: start, content } => if kind == TagKind::Strong {
            spec_push_inline(
                b,
                SpecInlineNode { range: start.spec_cover(range), kind: SpecInline::Strong(content) },
            )
        } else {
            Err(unexpected_structure(range))
        },
        SpecContainer::Link { range: start, destination, label } => if kind == TagKind::Link {
            match destination {
                Some(target) => spec_push_inline(
                    b,
                    SpecInlineNode {
                        range: start.spec_cover(range),
                        kind: SpecInline::Link { destination: target, label },
                    },
                ),
                None => spec_push_inlines(b, label),
            }
        } else {
            Err(unexpected_structure(range))
        },
        SpecContainer::Document(_) => Err(unexpected_structure(range)),
    }
}

/// Whether an end of `kind` closes an element that Resumark keeps.
pub open spec fn closes_kept_element(kind: TagKind) -> bool {
    kind == TagKind::Paragraph || kind == TagKind::Heading || kind == TagKind::List || kind
        == TagKind::Item || kind == TagKind::Emphasis || kind == TagKind::Strong || kind
        == TagKind::Link
}

/// Closes the innermost element at an end of `kind`.
pub open spec fn spec_end(b: SpecBuilder, kind: TagKind, range: SourceRange) -> Result<
    SpecBuilder,
    SpecDiagnostic,
> {
    if closes_kept_element(kind) {
        match spec_pop(b, range) {
            Ok(popped) => spec_close(popped.0, popped.1, kind, range),
            Err(d) => Err(d),
        }
    } else {
        Err(unexpected_structure(range))
    }
}

/// The builder after one parser event, or the diagnostic for an event that
/// breaks the expected structure.
pub open spec fn spec_push_event(b: SpecBuilder, event: SpecSourcedEvent) -> Result<
    SpecBuilder,
    SpecDiagnostic,
> {
    let range = event.range;
    if b.ignored_depth > 0 {
        match event.event {
            SpecMarkdownEvent::Start(_) => Ok(SpecBuilder { ignored_depth: b.ignored_depth + 1, ..b }),
            SpecMarkdownEvent::End(_) => Ok(
                SpecBuilder { ignored_depth: (b.ignored_depth - 1) as nat, ..b },
            ),
            _ => Ok(b),
        }
    } else {
        match event.event {
            SpecMarkdownEvent::Start(tag) => spec_start(b, tag, range),
            SpecMarkdownEvent::End(kind) => spec_end(b, kind, range),
            SpecMarkdownEvent::Text(text) => spec_push_inline(
                b,
                SpecInlineNode { range, kind: SpecInline::Text(text) },
            ),
            SpecMarkdownEvent::Code(code) => spec_push_inline(
                b,
                SpecInlineNode { range, kind: SpecInline::Code(code) },
            ),
            SpecMarkdownEvent::SoftBreak => spec_push_inline(
                b,
                SpecInlineNode { range, kind: SpecInline::SoftBreak },
            ),
            SpecMarkdownEvent::HardBreak => spec_push_inline(
                b,
                SpecInlineNode { range, kind: SpecInline::HardBreak },
            ),
            SpecMarkdownEvent::Rule => spec_push_block(
                b,
                SpecBlockNode { range, kind: SpecBlock::Divider },
            ),
            SpecMarkdownEvent::Html => Ok(with_diagnostic(b, raw_html_diagnostic(range))),
            SpecMarkdownEvent::InlineHtml => Ok(with_diagnostic(b, raw_html_diagnostic(range))),
            SpecMarkdownEvent::FootnoteReference => Ok(
                with_diagnostic(b, unsupported_diagnostic("footnotes"@, range)),
            ),
            SpecMarkdownEvent::TaskListMarker => Ok(
                with_diagnostic(b, unsupported_diagnostic("task-list markers"@, range)),
            ),
            SpecMarkdownEvent::InlineMath => Ok(
                with_diagnostic(b, unsupported_diagnostic("math"@, range)),
            ),
            SpecMarkdownEvent::DisplayMath => Ok(
                with_diagnostic(b, unsupported_diagnostic("math"@, range)),
            ),
        }
    }
}

/// The builder after every event, stopping at the first one that breaks
/// the expected structure.
pub open spec fn spec_run(b: SpecBuilder, events: Seq<SpecSourcedEvent>) -> SpecBuilder
    decreases events.len(),
{
    if events.len() == 0 {
        b
    } else {
        match spec_push_event(b, events[0]) {
            Ok(next) => spec_run(next, events.drop_first()),
            Err(d) => SpecBuilder { structure_failed: true, ..with_diagnostic(b, d) },
        }
    }
}

/// The title a level-one heading gives, if its trimmed plain text is not
/// empty.
pub open spec fn heading_title(block: SpecBlockNode) -> Option<Seq<char>> {
    match block.kind {
        SpecBlock::Heading { level, content } => if level == HeadingLevel::One && trim(
            inlines_text(content),
        ).len() > 0 {
            Some(trim(inlines_text(content)))
        } else {
            None
        },
        _ => None,
    }
}

/// The resume's name: the first level-one heading with text.
pub open spec fn first_title(blocks: Seq<SpecBlockNode>) -> Option<Seq<char>>
    decreases blocks.len(),
{
    if blocks.len() == 0 {
        None
    } else {
        match heading_title(blocks[0]) {
            Some(title) => Some(title),
            None => first_title(blocks.drop_first()),
        }
    }
}

/// The document's blocks, when building ended with only the document open.
pub open spec fn finished_blocks(b: SpecBuilder) -> Option<Seq<SpecBlockNode>> {
    if b.structure_failed || b.stack.len() != 1 {
        None
    } else {
        match b.stack[0] {
            SpecContainer::Document(blocks) => Some(blocks),
            _ => None,
        }
    }
}

/// The diagnostics after checking that building ended cleanly.
pub open spec fn closing_diagnostics(b: SpecBuilder) -> Seq<SpecDiagnostic> {
    if !b.structure_failed && finished_blocks(b) is None {
        b.diagnostics.push(unexpected_structure(SourceRange { start: 0, end: 0 }))
    } else {
        b.diagnostics
    }
}

/// The analysis once every event has been read: the document needs a title,
/// diagnostics are put in report order, and any error withholds the
/// document.
pub open spec fn spec_finish(b: SpecBuilder) -> SpecAnalysis {
    let closing = closing_diagnostics(b);
    let diagnostics = match finished_blocks(b) {
        Some(blocks) => if first_title(blocks) is None {
            closing.push(missing_title_diagnostic())
        } else {
            closing
        },
        None => closing,
    };
    let document = match finished_blocks(b) {
        Some(blocks) => match first_title(blocks) {
            Some(title) => Some(SpecDocument { title, blocks }),
            None => None,
        },
        None => None,
    };
    let sorted = sort_by_key(diagnostics);
    SpecAnalysis { document: if has_error(sorted) { None } else { document }, diagnostics: sorted }
}

/// What analyzing `source` gives when the Markdown parser reports `events`
/// for it: the checks made before parsing, or the document built from the
/// events.
pub open spec fn spec_analyze(
    source: Seq<char>,
    limits: ParseLimits,
    events: Seq<SpecSourcedEvent>,
) -> SpecAnalysis {
    let early = source_diagnostics(source, limits);
    if early.len() > 0 {
        SpecAnalysis { document: None, diagnostics: early }
    } else {
        spec_finish(spec_run(initial_builder(limits), events))
    }
}

// ---------------------------------------------------------------------------
// The builder
/// An element that has started and not yet ended.
enum Container {
    Document(Vec<BlockNode>),
    Heading { range: SourceRange, level: HeadingLevel, content: Vec<InlineNode> },
    Paragraph { range: SourceRange, content: Vec<InlineNode> },
    List { range: SourceRange, list_kind: ListKind, items: Vec<ListItem> },
    ListItem { range: SourceRange, blocks: Vec<BlockNode> },
    Strong { range: SourceRange, content: Vec<InlineNode> },
    Emphasis { range: SourceRange, content: Vec<InlineNode> },
    Link { range: SourceRange, destination: Option<LinkTarget>, label: Vec<InlineNode> },
}

spec fn link_destination_view(destination: Option<LinkTarget>) -> Option<Seq<char>> {
    match destination {
        Some(target) => Some(target@),
        None => None,
    }
}

impl View for Container {
    type V = SpecContainer;

    closed spec fn view(&self) -> SpecContainer {
        match self {
            Container::Document(blocks) => SpecContainer::Document(block_nodes_view(blocks@)),
            Container::Heading { range, level, content } => SpecContainer::Heading {
                range: *range,
                level: *level,
                content: inline_nodes_view(content@),
            },
            Container::Paragraph { range, content } => SpecContainer::Paragraph {
                range: *range,
                content: inline_nodes_view(content@),
            },
            Container::List { range, list_kind, items } => SpecContainer::List {
                range: *range,
                list_kind: *list_kind,
                items: list_items_view(items@),
            },
            Container::ListItem { range, blocks } => SpecContainer::ListItem {
                range: *range,
                blocks: block_nodes_view(blocks@),
            },
            Container::Strong { range, content } => SpecContainer::Strong {
                range: *range,
                content: inline_nodes_view(content@),
            },
            Container::Emphasis { range, content } => SpecContainer::Emphasis {
                range: *range,
                content: inline_nodes_view(content@),
            },
            Container::Link { range, destination, label } => SpecContainer::Link {
                range: *range,
                destination: link_destination_view(*destination),
                label: inline_nodes_view(label@),
            },
        }
    }
}

spec fn stack_view(stack: Seq<Container>) -> Seq<SpecContainer> {
    stack.map_values(|c: Container| c@)
}

struct DocumentBuilder {
    limits: ParseLimits,
    stack: Vec<Container>,
    ignored_depth: usize,
    diagnostics: Vec<Diagnostic>,
    structure_failed: bool,
}

impl View for DocumentBuilder {
    type V = SpecBuilder;

    closed spec fn view(&self) -> SpecBuilder {
        SpecBuilder {
            limits: self.limits,
            stack: stack_view(self.stack@),
            ignored_depth: self.ignored_depth as nat,
            diagnostics: diagnostics_view(self.diagnostics@),
            structure_failed: self.structure_failed,
        }
    }
}

/// Whether an executed step agrees with its specification: on success the
/// new state is the specified one; on failure the diagnostic is the
/// specified one and no diagnostic was added.
spec fn step_agrees(
    result: Result<(), Diagnostic>,
    spec: Result<SpecBuilder, SpecDiagnostic>,
    before: SpecBuilder,
    after: SpecBuilder,
) -> bool {
    match result {
        Ok(_) => spec == Ok::<SpecBuilder, SpecDiagnostic>(after),
        Err(d) => spec == Err::<SpecBuilder, SpecDiagnostic>(d@) && after.diagnostics
            == before.diagnostics && after.limits == before.limits,
    }
}

proof fn lemma_replace_top(stack: Seq<Container>, c: Container)
    requires
        stack.len() > 0,
    ensures
        stack_view(stack.drop_last().push(c)) == stack_view(stack).update(stack.len() - 1, c@),
        stack_view(stack.drop_last()) == stack_view(stack).drop_last(),
        stack_view(stack).last() == stack.last()@,
{
    assert(stack_view(stack.drop_last().push(c)) =~= stack_view(stack).update(
        stack.len() - 1,
        c@,
    ));
    assert(stack_view(stack.drop_last()) =~= stack_view(stack).drop_last());
}

proof fn lemma_push_container(stack: Seq<Container>, c: Container)
    ensures
        stack_view(stack.push(c)) == stack_view(stack).push(c@),
{
    assert(stack_view(stack.push(c)) =~= stack_view(stack).push(c@));
}

impl DocumentBuilder {
    fn new(limits: ParseLimits) -> (b: Self)
        ensures
            b@ == initial_builder(limits),
            b.ignored_depth == 0,
    {
        let mut stack = Vec::new();
        stack.push(Container::Document(Vec::new()));
        let b = DocumentBuilder {
            limits,
            stack,
            ignored_depth: 0,
            diagnostics: Vec::new(),
            structure_failed: false,
        };
        proof {
            assert(block_nodes_view(Seq::<BlockNode>::empty()) =~= Seq::<SpecBlockNode>::empty());
            assert(b@.stack =~= initial_builder(limits).stack);
            assert(b@.diagnostics =~= Seq::<SpecDiagnostic>::empty());
        }
        b
    }

    fn report(&mut self, d: Diagnostic)
        ensures
            final(self)@ == with_diagnostic(old(self)@, d@),
            final(self).ignored_depth == old(self).ignored_depth,
    {
        let ghost before = diagnostics_view(self.diagnostics@);
        self.diagnostics.push(d);
        proof {
            assert(diagnostics_view(self.diagnostics@) =~= before.push(d@));
            assert(self@.stack =~= old(self)@.stack);
        }
    }

    fn open(&mut self, c: Container)
        ensures
            final(self)@ == with_pushed(old(self)@, c@),
            final(self).ignored_depth == old(self).ignored_depth,
    {
        proof {
            lemma_push_container(self.stack@, c);
        }
        self.stack.push(c);
        proof {
            assert(self@.stack =~= old(self)@.stack.push(c@));
        }
    }

    /// Replaces the innermost element, which `pop_top` removed.
    fn restore_top(&mut self, c: Container, Ghost(before): Ghost<SpecBuilder>)
        requires
            old(self)@ == (SpecBuilder { stack: before.stack.drop_last(), ..before }),
            before.stack.len() > 0,
        ensures
            final(self)@ == with_top(before, c@),
            final(self).ignored_depth == old(self).ignored_depth,
    {
        proof {
            lemma_push_container(self.stack@, c);
        }
        self.stack.push(c);
        proof {
            assert(self@.stack =~= before.stack.update(before.stack.len() - 1, c@));
        }
    }

    /// Removes the innermost element, if any.
    fn pop_top(&mut self) -> (top: Option<Container>)
        ensures
            final(self).ignored_depth == old(self).ignored_depth,
            match top {
                Some(c) => old(self)@.stack.len() > 0 && c@ == old(self)@.stack.last()
                    && final(self)@ == (SpecBuilder {
                    stack: old(self)@.stack.drop_last(),
                    ..old(self)@
                }),
                None => old(self)@.stack.len() == 0 && final(self)@ == old(self)@,
            },
    {
        let top = self.stack.pop();
        proof {
            if top is Some {
                lemma_replace_top(old(self).stack@, top->0);
                assert(self@.stack =~= old(self)@.stack.drop_last());
            }
        }
        top
    }

    fn push_block(&mut self, block: BlockNode) -> (r: Result<(), Diagnostic>)
        ensures
            step_agrees(r, spec_push_block(old(self)@, block@), old(self)@, final(self)@),
            final(self).ignored_depth == old(self).ignored_depth,
    {
        let range = block.range;
        let ghost before = self@;
        match self.pop_top() {
            None => Err(exec_unexpected_structure(range)),
            Some(Container::Document(mut blocks)) => {
                proof {
                    crate::model::lemma_block_nodes_view_push(blocks@, block);
                }
                blocks.push(block);
                self.restore_top(Container::Document(blocks), Ghost(before));
                Ok(())
            },
            Some(Container::ListItem { range: item_range, mut blocks }) => {
                proof {
                    crate::model::lemma_block_nodes_view_push(blocks@, block);
                }
                blocks.push(block);
                self.restore_top(Container::ListItem { range: item_range, blocks }, Ghost(before));
                Ok(())
            },
            Some(other) => {
                self.restore_top(other, Ghost(before));
                proof {
                    assert(self@.diagnostics == before.diagnostics);
                }
                Err(exec_unexpected_structure(range))
            },
        }
    }

    /// Reports `d` and skips the element that caused it.
    fn ignore(&mut self, d: Diagnostic)
        ensures
            final(self)@ == ignoring(old(self)@, d@),
            final(self).ignored_depth == 1,
    {
        self.report(d);
        self.ignored_depth = 1;
        proof {
            assert(self@ == ignoring(old(self)@, d@));
        }
    }

    fn push_inline(&mut self, inline: InlineNode) -> (r: Result<(), Diagnostic>)
        ensures
            step_agrees(r, spec_push_inline(old(self)@, inline@), old(self)@, final(self)@),
            final(self).ignored_depth == old(self).ignored_depth,
    {
        let range = inline.range;
        let ghost before = self@;
        proof {
            crate::model::lemma_inline_nodes_view_push(Seq::empty(), inline);
        }
        match self.pop_top() {
            None => Err(exec_unexpected_structure(range)),
            Some(Container::Heading { range: r, level, mut content }) => {
                proof {
                    crate::model::lemma_inline_nodes_view_push(content@, inline);
                }
                content.push(inline);
                self.restore_top(Container::Heading { range: r, level, content }, Ghost(before));
                Ok(())
            },
            Some(Container::Paragraph { range: r, mut content }) => {
                proof {
                    crate::model::lemma_inline_nodes_view_push(content@, inline);
                }
                content.push(inline);
                self.restore_top(Container::Paragraph { range: r, content }, Ghost(before));
                Ok(())
            },
            Some(Container::Strong { range: r, mut content }) => {
                proof {
                    crate::model::lemma_inline_nodes_view_push(content@, inline);
                }
                content.push(inline);
                self.restore_top(Container::Strong { range: r, content }, Ghost(before));
                Ok(())
            },
            Some(Container::Emphasis { range: r, mut content }) => {
                proof {
                    crate::model::lemma_inline_nodes_view_push(content@, inline);
                }
                content.push(inline);
                self.restore_top(Container::Emphasis { range: r, content }, Ghost(before));
                Ok(())
            },
            Some(Container::Link { range: r, destination, mut label }) => {
                proof {
                    crate::model::lemma_inline_nodes_view_push(label@, inline);
                }
                label.push(inline);
                self.restore_top(Container::Link { range: r, destination, label }, Ghost(before));
                Ok(())
            },
            Some(Container::ListItem { range: r, mut blocks }) => {
                append_to_item_blocks(&mut blocks, inline);
                self.restore_top(Container::ListItem { range: r, blocks }, Ghost(before));
                Ok(())
            },
            Some(other) => {
                self.restore_top(other, Ghost(before));
                Err(exec_unexpected_structure(range))
            },
        }
    }

    fn push_inlines(&mut self, inlines: Vec<InlineNode>) -> (r: Result<(), Diagnostic>)
        ensures
            step_agrees(
                r,
                spec_push_inlines(old(self)@, inline_nodes_view(inlines@)),
                old(self)@,
                final(self)@,
            ),
            final(self).ignored_depth == old(self).ignored_depth,
    {
        let ghost start = self@;
        let ghost all = inline_nodes_view(inlines@);
        proof {
            crate::model::lemma_inline_nodes_view(inlines@);
            assert(all.skip(0) =~= all);
        }
        for inline in iter: inlines
            invariant
                iter.seq() == inlines@,
                start == old(self)@,
                all == inline_nodes_view(inlines@),
                all.len() == inlines@.len(),
                forall|j: int| 0 <= j < all.len() ==> #[trigger] all[j] == inlines@[j]@,
                spec_push_inlines(start, all) == spec_push_inlines(self@, all.skip(iter.index() as int)),
                self@.diagnostics == start.diagnostics,
                self@.limits == start.limits,
                self.ignored_depth == old(self).ignored_depth,
        {
            let ghost k = iter.index() as int;
            proof {
                assert(all.skip(k)[0] == inline@);
                assert(all.skip(k).drop_first() =~= all.skip(k + 1));
            }
            match self.push_inline(inline) {
                Ok(()) => {},
                Err(d) => {
                    return Err(d);
                },
            }
        }
        proof {
            assert(all.skip(all.len() as int) =~= Seq::<SpecInlineNode>::empty());
        }
        Ok(())
    }

    fn pop(&mut self, range: SourceRange) -> (r: Result<Container, Diagnostic>)
        ensures
            match r {
                Ok(c) => spec_pop(old(self)@, range) == Ok::<_, SpecDiagnostic>((final(self)@, c@)),
                Err(d) => spec_pop(old(self)@, range) == Err::<(SpecBuilder, SpecContainer), _>(d@)
                    && final(self)@ == old(self)@,
            },
            final(self).ignored_depth == old(self).ignored_depth,
    {
        if self.stack.len() <= 1 {
            return Err(exec_unexpected_structure(range));
        }
        match self.pop_top() {
            Some(c) => Ok(c),
            None => Err(exec_unexpected_structure(range)),
        }
    }

    fn close(&mut self, c: Container, kind: TagKind, range: SourceRange) -> (r: Result<(), Diagnostic>)
        ensures
            step_agrees(r, spec_close(old(self)@, c@, kind, range), old(self)@, final(self)@),
            final(self).ignored_depth == old(self).ignored_depth,
    {
        match c {
            Container::Paragraph { range: start, content } => if kind == TagKind::Paragraph {
                self.push_block(
                    BlockNode { range: start.cover(range), kind: Block::Paragraph { content } },
                )
            } else {
                Err(exec_unexpected_structure(range))
            },
            Container::Heading { range: start, level, content } => if kind == TagKind::Heading {
                self.push_block(
                    BlockNode { range: start.cover(range), kind: Block::Heading { level, content } },
                )
            } else {
                Err(exec_unexpected_structure(range))
            },
            Container::List { range: start, list_kind, items } => if kind == TagKind::List {
                self.push_block(
                    BlockNode { range: start.cover(range), kind: Block::List { list_kind, items } },
                )
            } else {
                Err(exec_unexpected_structure(range))
            },
            Container::ListItem { range: start, blocks } => if kind == TagKind::Item {
                let ghost before = self@;
                match self.pop_top() {
                    Some(Container::List { range: list_range, list_kind, mut items }) => {
                        let item = ListItem { range: start.cover(range), blocks };
                        proof {
                            crate::model::lemma_list_items_view_push(items@, item);
                        }
                        items.push(item);
                        self.restore_top(
                            Container::List { range: list_range, list_kind, items },
                            Ghost(before),
                        );
                        Ok(())
                    },
                    Some(other) => {
                        self.restore_top(other, Ghost(before));
                        Err(exec_unexpected_structure(range))
                    },
                    None => Err(exec_unexpected_structure(range)),
                }
            } else {
                Err(exec_unexpected_structure(range))
            },
            Container::Emphasis { range: start, content } => if kind == TagKind::Emphasis {
                self.push_inline(
                    InlineNode { range: start.cover(range), kind: Inline::Emphasis { content } },
                )
            } else {
                Err(exec_unexpected_structure(range))
            },
            Container::Strong { range: start, content } => if kind == TagKind::Strong {
                self.push_inline(
                    InlineNode { range: start.cover(range), kind: Inline::Strong { content } },
                )
            } else {
                Err(exec_unexpected_structure(range))
            },
            Container::Link { range: start, destination, label } => if kind == TagKind::Link {
                match destination {
                    Some(target) => self.push_inline(
                        InlineNode {
                            range: start.cover(range),
                            kind: Inline::Link { destination: target, label },
                        },
                    ),
                    None => self.push_inlines(label),
                }
            } else {
                Err(exec_unexpected_structure(range))
            },
            Container::Document(_) => Err(exec_unexpected_structure(range)),
        }
    }

    fn end(&mut self, kind: TagKind, range: SourceRange) -> (r: Result<(), Diagnostic>)
        ensures
            step_agrees(r, spec_end(old(self)@, kind, range), old(self)@, final(self)@),
            final(self).ignored_depth == old(self).ignored_depth,
    {
        let kept = kind == TagKind::Paragraph || kind == TagKind::Heading || kind == TagKind::List
            || kind == TagKind::Item || kind == TagKind::Emphasis || kind == TagKind::Strong
            || kind == TagKind::Link;
        if !kept {
            return Err(exec_unexpected_structure(range));
        }
        match self.pop(range) {
            Ok(c) => self.close(c, kind, range),
            Err(d) => Err(d),
        }
    }
}

/// The blocks of a list item after `inline` arrives outside any paragraph.
fn append_to_item_blocks(blocks: &mut Vec<BlockNode>, inline: InlineNode)
    ensures
        block_nodes_view(final(blocks)@) == append_to_item(block_nodes_view(old(blocks)@), inline@),
{
    let ghost before = block_nodes_view(blocks@);
    let inline_range = inline.range;
    proof {
        crate::model::lemma_block_nodes_view(blocks@);
        crate::model::lemma_inline_nodes_view_push(Seq::empty(), inline);
    }
    match blocks.pop() {
        Some(BlockNode { range, kind: Block::Paragraph { mut content } }) => {
            let cover = range.cover(inline.range);
            proof {
                crate::model::lemma_inline_nodes_view_push(content@, inline);
            }
            content.push(inline);
            let block = BlockNode { range: cover, kind: Block::Paragraph { content } };
            proof {
                crate::model::lemma_block_nodes_view_push(blocks@, block);
                assert(old(blocks)@.drop_last() =~= blocks@);
            }
            blocks.push(block);
            proof {
                assert(block_nodes_view(blocks@) =~= append_to_item(before, inline@));
            }
        },
        Some(other) => {
            proof {
                crate::model::lemma_block_nodes_view_push(blocks@, other);
                assert(blocks@.push(other) =~= old(blocks)@);
            }
            blocks.push(other);
            let mut content = Vec::new();
            content.push(inline);
            let block = BlockNode { range: inline_range, kind: Block::Paragraph { content } };
            proof {
                crate::model::lemma_block_nodes_view_push(blocks@, block);
            }
            blocks.push(block);
        },
        None => {
            let mut content = Vec::new();
            content.push(inline);
            let block = BlockNode { range: inline_range, kind: Block::Paragraph { content } };
            proof {
                crate::model::lemma_block_nodes_view_push(blocks@, block);
            }
            blocks.push(block);
        },
    }
}


/// How an unsupported element is named in its diagnostic.
fn construct_label(kind: TagKind) -> (name: &'static str)
    ensures
        name@ == construct_name(kind),
{
    match kind {
        TagKind::BlockQuote => "block quotes",
        TagKind::CodeBlock => "code blocks",
        TagKind::FootnoteDefinition => "footnotes",
        TagKind::Strikethrough => "strikethrough",
        TagKind::Image => "images",
        TagKind::Table => "tables",
        TagKind::MetadataBlock => "metadata blocks",
        _ => "extended Markdown",
    }
}

impl DocumentBuilder {
    fn open_heading(&mut self, level: u8, has_attributes: bool, range: SourceRange) -> (r: Result<
        (),
        Diagnostic,
    >)
        ensures
            step_agrees(r, spec_open_heading(old(self)@, level, has_attributes, range), old(self)@, final(self)@),
            final(self).ignored_depth == old(self).ignored_depth || final(self).ignored_depth == 1,
    {
        if has_attributes {
            self.ignore(exec_unsupported_diagnostic("heading attributes", range));
            return Ok(());
        }
        match HeadingLevel::from_number(level) {
            Ok(heading) => {
                proof {
                    assert(heading == heading_of(level));
                    assert(inline_nodes_view(Seq::<InlineNode>::empty()) =~= Seq::<SpecInlineNode>::empty());
                }
                self.open(Container::Heading { range, level: heading, content: Vec::new() });
                Ok(())
            },
            Err(_) => Err(exec_unexpected_structure(range)),
        }
    }

    fn open_link(&mut self, destination: String, range: SourceRange)
        ensures
            final(self)@ == spec_open_link(old(self)@, destination@, range),
            final(self).ignored_depth == old(self).ignored_depth,
    {
        proof {
            assert(inline_nodes_view(Seq::<InlineNode>::empty()) =~= Seq::<SpecInlineNode>::empty());
        }
        match LinkTarget::parse(destination) {
            Ok(target) => {
                self.open(Container::Link { range, destination: Some(target), label: Vec::new() });
            },
            Err(error) => {
                self.report(exec_link_diagnostic(&error, range));
                self.open(Container::Link { range, destination: None, label: Vec::new() });
            },
        }
    }

    fn open_other(&mut self, kind: TagKind, range: SourceRange) -> (r: Result<(), Diagnostic>)
        ensures
            step_agrees(r, spec_open_other(old(self)@, kind, range), old(self)@, final(self)@),
            final(self).ignored_depth == old(self).ignored_depth || final(self).ignored_depth == 1,
    {
        proof {
            assert(inline_nodes_view(Seq::<InlineNode>::empty()) =~= Seq::<SpecInlineNode>::empty());
            assert(block_nodes_view(Seq::<BlockNode>::empty()) =~= Seq::<SpecBlockNode>::empty());
        }
        match kind {
            TagKind::Paragraph => {
                self.open(Container::Paragraph { range, content: Vec::new() });
                Ok(())
            },
            TagKind::Item => {
                self.open(Container::ListItem { range, blocks: Vec::new() });
                Ok(())
            },
            TagKind::Emphasis => {
                self.open(Container::Emphasis { range, content: Vec::new() });
                Ok(())
            },
            TagKind::Strong => {
                self.open(Container::Strong { range, content: Vec::new() });
                Ok(())
            },
            TagKind::HtmlBlock => {
                self.ignore(exec_raw_html_diagnostic(range));
                Ok(())
            },
            TagKind::Heading | TagKind::List | TagKind::Link => Err(exec_unexpected_structure(range)),
            _ => {
                self.ignore(exec_unsupported_diagnostic(construct_label(kind), range));
                Ok(())
            },
        }
    }

    fn start(&mut self, tag: StartTag, range: SourceRange) -> (r: Result<(), Diagnostic>)
        ensures
            step_agrees(r, spec_start(old(self)@, tag@, range), old(self)@, final(self)@),
            final(self).ignored_depth == old(self).ignored_depth || final(self).ignored_depth == 1,
    {
        if self.stack.len() > self.limits.max_nesting_depth {
            let d = exec_nesting_diagnostic(self.limits.max_nesting_depth, range);
            self.ignore(d);
            return Ok(());
        }
        match tag {
            StartTag::Heading { level, id, classes, attributes } => self.open_heading(
                level,
                id || classes > 0 || attributes > 0,
                range,
            ),
            StartTag::List { start } => {
                let list_kind = match start {
                    None => ListKind::Unordered,
                    Some(first) => ListKind::Ordered { start: first },
                };
                proof {
                    assert(list_items_view(Seq::<ListItem>::empty()) =~= Seq::<SpecListItem>::empty());
                }
                self.open(Container::List { range, list_kind, items: Vec::new() });
                Ok(())
            },
            StartTag::Link { destination } => {
                self.open_link(destination, range);
                Ok(())
            },
            StartTag::Other(kind) => self.open_other(kind, range),
        }
    }
}

impl DocumentBuilder {
    fn push(&mut self, event: SourcedEvent) -> (r: Result<(), Diagnostic>)
        requires
            old(self).ignored_depth < usize::MAX,
        ensures
            step_agrees(r, spec_push_event(old(self)@, event@), old(self)@, final(self)@),
            r is Ok ==> final(self).ignored_depth <= old(self).ignored_depth + 1,
    {
        let SourcedEvent { event, range } = event;
        if self.ignored_depth > 0 {
            match event {
                MarkdownEvent::Start(_) => {
                    self.ignored_depth = self.ignored_depth + 1;
                },
                MarkdownEvent::End(_) => {
                    self.ignored_depth = self.ignored_depth - 1;
                },
                _ => {},
            }
            return Ok(());
        }
        match event {
            MarkdownEvent::Start(tag) => self.start(tag, range),
            MarkdownEvent::End(kind) => self.end(kind, range),
            MarkdownEvent::Text(text) => self.push_inline(
                InlineNode { range, kind: Inline::Text { value: text } },
            ),
            MarkdownEvent::Code(code) => self.push_inline(
                InlineNode { range, kind: Inline::Code { value: code } },
            ),
            MarkdownEvent::SoftBreak => self.push_inline(InlineNode { range, kind: Inline::SoftBreak }),
            MarkdownEvent::HardBreak => self.push_inline(InlineNode { range, kind: Inline::HardBreak }),
            MarkdownEvent::Rule => self.push_block(BlockNode { range, kind: Block::Divider }),
            MarkdownEvent::Html | MarkdownEvent::InlineHtml => {
                self.report(exec_raw_html_diagnostic(range));
                Ok(())
            },
            MarkdownEvent::FootnoteReference => {
                self.report(exec_unsupported_diagnostic("footnotes", range));
                Ok(())
            },
            MarkdownEvent::TaskListMarker => {
                self.report(exec_unsupported_diagnostic("task-list markers", range));
                Ok(())
            },
            MarkdownEvent::InlineMath | MarkdownEvent::DisplayMath => {
                self.report(exec_unsupported_diagnostic("math", range));
                Ok(())
            },
        }
    }
}

/// The resume's name: the trimmed plain text of the first level-one heading
/// that has any.
fn find_title(blocks: &Vec<BlockNode>) -> (title: Option<String>)
    ensures
        option_text(title) == first_title(block_nodes_view(blocks@)),
{
    let n = blocks.len();
    let ghost all = block_nodes_view(blocks@);
    proof {
        crate::model::lemma_block_nodes_view(blocks@);
        assert(all.skip(0) =~= all);
    }
    for i in 0..n
        invariant
            n == blocks@.len(),
            all == block_nodes_view(blocks@),
            all.len() == n,
            forall|j: int| 0 <= j < n ==> #[trigger] all[j] == blocks@[j]@,
            first_title(all) == first_title(all.skip(i as int)),
    {
        let ghost rest = all.skip(i as int);
        proof {
            assert(rest[0] == blocks@[i as int]@);
            assert(rest.drop_first() =~= all.skip(i + 1));
        }
        if let Block::Heading { level: HeadingLevel::One, content } = &blocks[i].kind {
            let mut text = String::new();
            append_plain_text(content, &mut text);
            let chars = chars_of(text.as_str());
            let title = trimmed(chars.as_slice());
            proof {
                assert(text@ =~= inlines_text(inline_nodes_view(content@)));
            }
            if !title.as_str().is_empty() {
                return Some(title);
            }
        }
    }
    proof {
        assert(all.skip(n as int) =~= Seq::<SpecBlockNode>::empty());
    }
    None
}

/// Whether two builders end the same way: both stopped at a broken event
/// sequence with the same diagnostics.
spec fn failed_alike(a: SpecBuilder, b: SpecBuilder) -> bool {
    a.structure_failed && b.structure_failed && a.diagnostics == b.diagnostics
}

proof fn lemma_failed_alike_finish(a: SpecBuilder, b: SpecBuilder)
    requires
        failed_alike(a, b),
    ensures
        spec_finish(a) == spec_finish(b),
{
}

impl DocumentBuilder {
    fn finish(self) -> (analysis: Analysis)
        ensures
            analysis@ == spec_finish(self@),
    {
        let ghost b = self@;
        let DocumentBuilder { limits, mut stack, ignored_depth, mut diagnostics, structure_failed } =
            self;
        let ghost closing = closing_diagnostics(b);
        let blocks: Option<Vec<BlockNode>> = if structure_failed {
            None
        } else if stack.len() != 1 {
            let ghost before = diagnostics_view(diagnostics@);
            diagnostics.push(exec_unexpected_structure(SourceRange::new(0, 0)));
            proof {
                assert(diagnostics_view(diagnostics@) =~= before.push(
                    unexpected_structure(SourceRange { start: 0, end: 0 }),
                ));
            }
            None
        } else {
            let ghost whole = stack@;
            match stack.pop() {
                Some(Container::Document(blocks)) => {
                    proof {
                        assert(b.stack[0] == whole[0]@);
                    }
                    Some(blocks)
                },
                _ => {
                    proof {
                        assert(b.stack[0] == whole[0]@);
                    }
                    let ghost before = diagnostics_view(diagnostics@);
                    diagnostics.push(exec_unexpected_structure(SourceRange::new(0, 0)));
                    proof {
                        assert(diagnostics_view(diagnostics@) =~= before.push(
                            unexpected_structure(SourceRange { start: 0, end: 0 }),
                        ));
                    }
                    None
                },
            }
        };
        proof {
            assert(diagnostics_view(diagnostics@) == closing);
            if blocks is Some {
                assert(finished_blocks(b) == Some(block_nodes_view(blocks->0@)));
            } else {
                assert(finished_blocks(b) is None);
            }
        }
        let document = match blocks {
            Some(blocks) => match find_title(&blocks) {
                Some(title) => Some(
                    RenderDocument { metadata: DocumentMetadata { title }, blocks },
                ),
                None => {
                    let ghost before = diagnostics_view(diagnostics@);
                    diagnostics.push(exec_missing_title_diagnostic());
                    proof {
                        assert(diagnostics_view(diagnostics@) =~= before.push(
                            missing_title_diagnostic(),
                        ));
                    }
                    None
                },
            },
            None => None,
        };
        let sorted = sort_diagnostics(diagnostics);
        let errors = any_error(&sorted);
        Analysis { document: if errors { None } else { document }, diagnostics: sorted }
    }
}

/// Builds the document from the parser's events, stopping at the first
/// event that breaks the expected structure.
fn build(limits: ParseLimits, events: Vec<SourcedEvent>) -> (b: DocumentBuilder)
    ensures
        b@ == spec_run(initial_builder(limits), events_view(events@)) || failed_alike(
            b@,
            spec_run(initial_builder(limits), events_view(events@)),
        ),
{
    let mut builder = DocumentBuilder::new(limits);
    let ghost all = events_view(events@);
    let ghost goal = spec_run(initial_builder(limits), all);
    let mut failed = false;
    let n = events.len();
    proof {
        assert(all.skip(0) =~= all);
    }
    for event in iter: events
        invariant
            iter.seq() == events@,
            n == events@.len(),
            all == events_view(events@),
            goal == spec_run(initial_builder(limits), all),
            all.len() == events@.len(),
            forall|j: int| 0 <= j < all.len() ==> #[trigger] all[j] == events@[j]@,
            !failed ==> goal == spec_run(builder@, all.skip(iter.index() as int)),
            !failed ==> builder.ignored_depth <= iter.index(),
            failed ==> failed_alike(builder@, goal),
    {
        if !failed {
            let ghost k = iter.index() as int;
            let ghost before = builder@;
            proof {
                assert(k < n);
                assert(all.skip(k)[0] == event@);
                assert(all.skip(k).drop_first() =~= all.skip(k + 1));
            }
            match builder.push(event) {
                Ok(()) => {},
                Err(d) => {
                    builder.report(d);
                    builder.structure_failed = true;
                    failed = true;
                    proof {
                        assert(builder@.diagnostics == goal.diagnostics);
                    }
                },
            }
        }
    }
    proof {
        if !failed {
            assert(all.skip(all.len() as int) =~= Seq::<SpecSourcedEvent>::empty());
        }
    }
    builder
}

/// Analyzes `source`, given the Markdown parser's events for it, into
/// Resumark's document model.
///
/// Diagnostics use UTF-8 byte ranges of `source`. The size limit and the
/// control-character check come first, and when either reports anything the
/// events are not read. Any error-severity diagnostic withholds the document.
pub fn analyze_events(source: &str, limits: &ParseLimits, events: Vec<SourcedEvent>) -> (analysis:
    Analysis)
    ensures
        analysis@ == spec_analyze(source@, *limits, events_view(events@)),
{
    let diagnostics = validate_source(source, limits);
    if diagnostics.len() > 0 {
        return Analysis { document: None, diagnostics };
    }
    let ghost goal = spec_run(initial_builder(*limits), events_view(events@));
    let builder = build(*limits, events);
    proof {
        if builder@ != goal {
            lemma_failed_alike_finish(builder@, goal);
        }
    }
    builder.finish()
}

/// A source without control-character diagnostics holds no disallowed
/// control character.
proof fn lemma_free_of_controls(source: Seq<char>)
    requires
        control_diagnostics(source).len() == 0,
    ensures
        crate::parser::free_of_controls(source),
    decreases source.len(),
{
    if source.len() > 0 {
        let prefix = source.drop_last();
        lemma_free_of_controls(prefix);
        assert forall|i: int| 0 <= i < source.len() implies !is_disallowed_control(
            #[trigger] source[i],
        ) by {
            if i < source.len() - 1 {
                assert(source[i] == prefix[i]);
            }
        }
    }
}

/// Analyzes Markdown into Resumark's renderer-independent document model.
///
/// The source is checked first; when it passes, pulldown-cmark's events for
/// it are read into the document. Diagnostics use UTF-8 byte ranges of
/// `source`, and error-severity diagnostics withhold the document.
pub fn analyze_markdown(source: &str, limits: &ParseLimits) -> (analysis: Analysis)
    ensures
        analysis@ == spec_analyze(source@, *limits, markdown_event_values(source@)),
        analysis_inside(analysis@, utf8_len(source@)),
{
    let diagnostics = validate_source(source, limits);
    if diagnostics.len() > 0 {
        proof {
            law_early_diagnostics_inside_source(source@, *limits);
            assert(analysis_inside(
                spec_analyze(source@, *limits, markdown_event_values(source@)),
                utf8_len(source@),
            ));
        }
        return Analysis { document: None, diagnostics };
    }
    proof {
        lemma_free_of_controls(source@);
    }
    let events = markdown_events(source);
    proof {
        law_analysis_ranges_inside_source(source@, *limits, markdown_event_values(source@));
    }
    analyze_events(source, limits, events)
}

} // verus!
