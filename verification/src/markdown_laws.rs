//! What holds of every Markdown analysis, whatever events the parser reports.
use vstd::prelude::*;

use crate::diagnostic::{
    Severity, SpecDiagnostic, has_error, key_le, lemma_sort_by_key, sort_by_key, sort_start,
    sorted_by_key,
};
use crate::events::{SpecMarkdownEvent, SpecSourcedEvent, SpecStartTag, TagKind};
use crate::markdown::{
    ParseLimits, SpecBuilder, SpecContainer, closing_diagnostics, control_diagnostic,
    control_diagnostics, finished_blocks, first_title, initial_builder, is_disallowed_control,
    source_diagnostics, spec_analyze, spec_close, spec_end, spec_pop, spec_push_block,
    spec_push_event, spec_push_inline, spec_push_inlines, spec_run, spec_start,
    too_large_diagnostic,
};
use crate::diagnostic::SourceRange;
use crate::model::{HeadingLevel, ListKind, SpecBlock, SpecBlockNode, SpecInlineNode, SpecListItem};
use crate::text::{
    is_whitespace, lemma_leading_whitespace, lemma_trailing_whitespace, trim, utf8_len, utf8_width,
};

verus! {

/// Whether every diagnostic is an error.
pub open spec fn all_errors(diagnostics: Seq<SpecDiagnostic>) -> bool {
    forall|i: int| 0 <= i < diagnostics.len() ==> #[trigger] diagnostics[i].severity == Severity::Error
}

/// What every step of document building keeps: a successful step adds
/// only errors and leaves the failure flag alone; a failing step reports an
/// error.
spec fn keeps(b: SpecBuilder, r: Result<SpecBuilder, SpecDiagnostic>) -> bool {
    match r {
        Ok(next) => {
            &&& next.structure_failed == b.structure_failed
            &&& next.diagnostics.len() >= b.diagnostics.len()
            &&& all_errors(b.diagnostics) ==> all_errors(next.diagnostics)
            &&& b.ignored_depth == 0 ==> (next.ignored_depth == 0 || next.diagnostics.len()
                > b.diagnostics.len())
        },
        Err(d) => d.severity == Severity::Error,
    }
}

/// What a builder state keeps throughout: only errors are reported, and a
/// failed build, or one skipping an element, has reported why.
spec fn sound(b: SpecBuilder) -> bool {
    &&& all_errors(b.diagnostics)
    &&& b.structure_failed ==> b.diagnostics.len() > 0
    &&& b.ignored_depth > 0 ==> b.diagnostics.len() > 0
}

proof fn lemma_push_block(b: SpecBuilder, block: SpecBlockNode)
    ensures
        keeps(b, spec_push_block(b, block)),
{
}

proof fn lemma_push_inline(b: SpecBuilder, inline: SpecInlineNode)
    ensures
        keeps(b, spec_push_inline(b, inline)),
{
}

proof fn lemma_push_inlines(b: SpecBuilder, inlines: Seq<SpecInlineNode>)
    ensures
        keeps(b, spec_push_inlines(b, inlines)),
    decreases inlines.len(),
{
    if inlines.len() > 0 {
        lemma_push_inline(b, inlines[0]);
        if let Ok(next) = spec_push_inline(b, inlines[0]) {
            lemma_push_inlines(next, inlines.drop_first());
        }
    }
}

proof fn lemma_close(b: SpecBuilder, c: SpecContainer, kind: crate::events::TagKind, range: crate::diagnostic::SourceRange)
    ensures
        keeps(b, spec_close(b, c, kind, range)),
{
    match c {
        SpecContainer::Paragraph { range: start, content } => {
            lemma_push_block(b, SpecBlockNode { range: start.spec_cover(range), kind: crate::model::SpecBlock::Paragraph(content) });
        },
        SpecContainer::Heading { range: start, level, content } => {
            lemma_push_block(b, SpecBlockNode { range: start.spec_cover(range), kind: crate::model::SpecBlock::Heading { level, content } });
        },
        SpecContainer::List { range: start, list_kind, items } => {
            lemma_push_block(b, SpecBlockNode { range: start.spec_cover(range), kind: crate::model::SpecBlock::List { list_kind, items } });
        },
        SpecContainer::Emphasis { range: start, content } => {
            lemma_push_inline(b, SpecInlineNode { range: start.spec_cover(range), kind: crate::model::SpecInline::Emphasis(content) });
        },
        SpecContainer::Strong { range: start, content } => {
            lemma_push_inline(b, SpecInlineNode { range: start.spec_cover(range), kind: crate::model::SpecInline::Strong(content) });
        },
        SpecContainer::Link { range: start, destination, label } => {
            match destination {
                Some(target) => lemma_push_inline(
                    b,
                    SpecInlineNode { range: start.spec_cover(range), kind: crate::model::SpecInline::Link { destination: target, label } },
                ),
                None => lemma_push_inlines(b, label),
            }
        },
        _ => {},
    }
}

proof fn lemma_end(b: SpecBuilder, kind: crate::events::TagKind, range: crate::diagnostic::SourceRange)
    ensures
        keeps(b, spec_end(b, kind, range)),
{
    if let Ok(popped) = spec_pop(b, range) {
        lemma_close(popped.0, popped.1, kind, range);
    }
}

proof fn lemma_start(b: SpecBuilder, tag: SpecStartTag, range: crate::diagnostic::SourceRange)
    ensures
        keeps(b, spec_start(b, tag, range)),
{
}

proof fn lemma_push_event(b: SpecBuilder, event: SpecSourcedEvent)
    ensures
        keeps(b, spec_push_event(b, event)),
{
    let range = event.range;
    if b.ignored_depth == 0 {
        match event.event {
            SpecMarkdownEvent::Start(tag) => lemma_start(b, tag, range),
            SpecMarkdownEvent::End(kind) => lemma_end(b, kind, range),
            SpecMarkdownEvent::Text(text) => lemma_push_inline(
                b,
                SpecInlineNode { range, kind: crate::model::SpecInline::Text(text) },
            ),
            SpecMarkdownEvent::Code(code) => lemma_push_inline(
                b,
                SpecInlineNode { range, kind: crate::model::SpecInline::Code(code) },
            ),
            SpecMarkdownEvent::SoftBreak => lemma_push_inline(
                b,
                SpecInlineNode { range, kind: crate::model::SpecInline::SoftBreak },
            ),
            SpecMarkdownEvent::HardBreak => lemma_push_inline(
                b,
                SpecInlineNode { range, kind: crate::model::SpecInline::HardBreak },
            ),
            SpecMarkdownEvent::Rule => lemma_push_block(
                b,
                SpecBlockNode { range, kind: crate::model::SpecBlock::Divider },
            ),
            _ => {},
        }
    }
}

proof fn lemma_run(b: SpecBuilder, events: Seq<SpecSourcedEvent>)
    requires
        sound(b),
    ensures
        sound(spec_run(b, events)),
    decreases events.len(),
{
    if events.len() > 0 {
        lemma_push_event(b, events[0]);
        match spec_push_event(b, events[0]) {
            Ok(next) => lemma_run(next, events.drop_first()),
            Err(d) => {},
        }
    }
}

proof fn lemma_control_diagnostics(source: Seq<char>)
    ensures
        all_errors(control_diagnostics(source)),
        (exists|i: int| 0 <= i < source.len() && is_disallowed_control(#[trigger] source[i]))
            ==> control_diagnostics(source).len() > 0,
    decreases source.len(),
{
    if source.len() > 0 {
        let prefix = source.drop_last();
        lemma_control_diagnostics(prefix);
        if exists|i: int| 0 <= i < source.len() && is_disallowed_control(#[trigger] source[i]) {
            let i = choose|i: int| 0 <= i < source.len() && is_disallowed_control(#[trigger] source[i]);
            if i < source.len() - 1 {
                assert(is_disallowed_control(prefix[i]));
            }
        }
    }
}

proof fn lemma_same_elements(s: Seq<SpecDiagnostic>, t: Seq<SpecDiagnostic>)
    requires
        s.to_multiset() == t.to_multiset(),
        all_errors(s),
    ensures
        all_errors(t),
{
    broadcast use vstd::seq_lib::group_seq_properties;

    assert forall|i: int| 0 <= i < t.len() implies #[trigger] t[i].severity == Severity::Error by {
        assert(t.contains(t[i]));
        assert(t.to_multiset().count(t[i]) > 0);
        assert(s.contains(t[i]));
        let j = choose|j: int| 0 <= j < s.len() && s[j] == t[i];
        assert(s[j].severity == Severity::Error);
    }
}

/// Every diagnostic of an analysis is an error, and the document is given
/// exactly when nothing was reported: error diagnostics withhold it.
pub proof fn law_document_iff_no_diagnostics(
    source: Seq<char>,
    limits: ParseLimits,
    events: Seq<SpecSourcedEvent>,
)
    ensures
        all_errors(spec_analyze(source, limits, events).diagnostics),
        (spec_analyze(source, limits, events).document is Some) <==> spec_analyze(
            source,
            limits,
            events,
        ).diagnostics.len() == 0,
        has_error(spec_analyze(source, limits, events).diagnostics) <==> spec_analyze(
            source,
            limits,
            events,
        ).diagnostics.len() > 0,
{
    let a = spec_analyze(source, limits, events);
    lemma_control_diagnostics(source);
    let early = source_diagnostics(source, limits);
    if early.len() > 0 {
        assert(a.diagnostics == early);
        assert(a.diagnostics[0].severity == Severity::Error);
    } else {
        let b = spec_run(initial_builder(limits), events);
        assert(sound(initial_builder(limits)));
        lemma_run(initial_builder(limits), events);
        let closing = closing_diagnostics(b);
        let diagnostics = match finished_blocks(b) {
            Some(blocks) => if first_title(blocks) is None {
                closing.push(crate::markdown::missing_title_diagnostic())
            } else {
                closing
            },
            None => closing,
        };
        assert(all_errors(diagnostics));
        lemma_sort_by_key(diagnostics);
        let sorted = sort_by_key(diagnostics);
        lemma_same_elements(diagnostics, sorted);
        assert(a.diagnostics == sorted);
        if sorted.len() > 0 {
            assert(sorted[0].severity == Severity::Error);
        }
    }
}

proof fn lemma_control_diagnostics_sorted(source: Seq<char>)
    requires
        utf8_len(source) <= usize::MAX,
    ensures
        sorted_by_key(control_diagnostics(source)),
        forall|i: int|
            0 <= i < control_diagnostics(source).len() ==> sort_start(
                #[trigger] control_diagnostics(source)[i],
            ) < utf8_len(source),
    decreases source.len(),
{
    if source.len() > 0 {
        let prefix = source.drop_last();
        let c = source.last();
        assert(utf8_len(source) == utf8_len(prefix) + utf8_width(c));
        lemma_control_diagnostics_sorted(prefix);
        let before = control_diagnostics(prefix);
        let all = control_diagnostics(source);
        if is_disallowed_control(c) {
            let d = control_diagnostic(c, utf8_len(prefix));
            assert(all == before.push(d));
            assert(sort_start(d) == utf8_len(prefix));
            assert forall|i: int, j: int| 0 <= i < j < all.len() implies key_le(all[i], all[j]) by {
                if j == all.len() - 1 {
                    assert(all[i] == before[i]);
                } else {
                    assert(all[i] == before[i] && all[j] == before[j]);
                }
            }
            assert forall|i: int| 0 <= i < all.len() implies sort_start(#[trigger] all[i]) < utf8_len(
                source,
            ) by {
                if i < before.len() {
                    assert(all[i] == before[i]);
                }
            }
        } else {
            assert(all =~= before);
        }
    }
}

/// The diagnostics of an analysis are in report order: by start byte, and
/// by code where two start at the same byte; those without a range come
/// last.
pub proof fn law_diagnostics_in_report_order(
    source: Seq<char>,
    limits: ParseLimits,
    events: Seq<SpecSourcedEvent>,
)
    requires
        utf8_len(source) <= usize::MAX,
    ensures
        sorted_by_key(spec_analyze(source, limits, events).diagnostics),
{
    if utf8_len(source) > limits.max_source_bytes {
    } else if control_diagnostics(source).len() > 0 {
        lemma_control_diagnostics_sorted(source);
    } else {
        let b = spec_run(initial_builder(limits), events);
        let closing = closing_diagnostics(b);
        let diagnostics = match finished_blocks(b) {
            Some(blocks) => if first_title(blocks) is None {
                closing.push(crate::markdown::missing_title_diagnostic())
            } else {
                closing
            },
            None => closing,
        };
        lemma_sort_by_key(diagnostics);
    }
}

/// Too large a source, or one with a disallowed control character, is
/// rejected before the Markdown parser's events are read: the analysis is
/// the same whatever the events, has no document, and lists exactly the
/// source's problems.
pub proof fn law_checks_precede_parsing(
    source: Seq<char>,
    limits: ParseLimits,
    events: Seq<SpecSourcedEvent>,
    other_events: Seq<SpecSourcedEvent>,
)
    requires
        utf8_len(source) > limits.max_source_bytes || exists|i: int|
            0 <= i < source.len() && is_disallowed_control(#[trigger] source[i]),
    ensures
        spec_analyze(source, limits, events) == spec_analyze(source, limits, other_events),
        spec_analyze(source, limits, events).document is None,
        spec_analyze(source, limits, events).diagnostics == source_diagnostics(source, limits),
        utf8_len(source) > limits.max_source_bytes ==> spec_analyze(
            source,
            limits,
            events,
        ).diagnostics == seq![too_large_diagnostic(utf8_len(source), limits.max_source_bytes)],
        utf8_len(source) <= limits.max_source_bytes ==> spec_analyze(
            source,
            limits,
            events,
        ).diagnostics == control_diagnostics(source),
{
    lemma_control_diagnostics(source);
}

proof fn lemma_trim_ends(s: Seq<char>)
    requires
        trim(s).len() > 0,
    ensures
        !is_whitespace(trim(s)[0]),
        !is_whitespace(trim(s).last()),
{
    lemma_leading_whitespace(s);
    let front = s.skip(crate::text::leading_whitespace(s) as int);
    lemma_trailing_whitespace(front);
    let t = trim(s);
    assert(front.len() > 0);
    assert(t[0] == front[0]);
    assert(front[0] == s[crate::text::leading_whitespace(s) as int]);
    assert(t.last() == front[front.len() - crate::text::trailing_whitespace(front) - 1]);
}

proof fn lemma_first_title(blocks: Seq<SpecBlockNode>)
    ensures
        first_title(blocks) matches Some(title) ==> title.len() > 0 && !is_whitespace(title[0])
            && !is_whitespace(title.last()),
    decreases blocks.len(),
{
    if blocks.len() > 0 {
        lemma_first_title(blocks.drop_first());
        if let crate::model::SpecBlock::Heading { level, content } = blocks[0].kind {
            let text = crate::model::inlines_text(content);
            if trim(text).len() > 0 {
                lemma_trim_ends(text);
            }
        }
    }
}

/// A document's title is the first level-one heading's text: never empty,
/// and without whitespace at either end.
pub proof fn law_document_title(source: Seq<char>, limits: ParseLimits, events: Seq<SpecSourcedEvent>)
    ensures
        spec_analyze(source, limits, events).document matches Some(document) ==> {
            &&& first_title(document.blocks) == Some(document.title)
            &&& document.title.len() > 0
            &&& !is_whitespace(document.title[0])
            &&& !is_whitespace(document.title.last())
        },
{
    let a = spec_analyze(source, limits, events);
    if let Some(document) = a.document {
        lemma_first_title(document.blocks);
    }
}

/// Whether an event is raw HTML: an HTML block's start, or HTML text.
pub open spec fn is_raw_html(event: SpecMarkdownEvent) -> bool {
    event is Html || event is InlineHtml || event == SpecMarkdownEvent::Start(
        SpecStartTag::Other(TagKind::HtmlBlock),
    )
}

/// Building never loses a diagnostic.
proof fn lemma_run_grows(b: SpecBuilder, events: Seq<SpecSourcedEvent>)
    ensures
        spec_run(b, events).diagnostics.len() >= b.diagnostics.len(),
    decreases events.len(),
{
    if events.len() > 0 {
        lemma_push_event(b, events[0]);
        if let Ok(next) = spec_push_event(b, events[0]) {
            lemma_run_grows(next, events.drop_first());
        }
    }
}

/// Building reports something when any event is raw HTML.
proof fn lemma_run_reports_html(b: SpecBuilder, events: Seq<SpecSourcedEvent>, k: int)
    requires
        sound(b),
        0 <= k < events.len(),
        is_raw_html(events[k].event),
    ensures
        spec_run(b, events).diagnostics.len() > 0,
    decreases events.len(),
{
    lemma_push_event(b, events[0]);
    match spec_push_event(b, events[0]) {
        Ok(next) => {
            let rest = events.drop_first();
            if k == 0 {
                assert(next.diagnostics.len() > 0);
                lemma_run_grows(next, rest);
            } else {
                assert(rest[k - 1] == events[k]);
                lemma_run_reports_html(next, rest, k - 1);
            }
        },
        Err(d) => {},
    }
}

/// Raw HTML is refused: when the parser reports raw HTML anywhere in the
/// source, the analysis reports it and gives no document.
pub proof fn law_raw_html_refused(
    source: Seq<char>,
    limits: ParseLimits,
    events: Seq<SpecSourcedEvent>,
    k: int,
)
    requires
        0 <= k < events.len(),
        is_raw_html(events[k].event),
    ensures
        spec_analyze(source, limits, events).document is None,
        spec_analyze(source, limits, events).diagnostics.len() > 0,
{
    broadcast use vstd::seq_lib::group_to_multiset_ensures;

    law_document_iff_no_diagnostics(source, limits, events);
    let early = source_diagnostics(source, limits);
    if early.len() == 0 {
        let b = spec_run(initial_builder(limits), events);
        assert(sound(initial_builder(limits)));
        lemma_run_reports_html(initial_builder(limits), events, k);
        let closing = closing_diagnostics(b);
        let diagnostics = match finished_blocks(b) {
            Some(blocks) => if first_title(blocks) is None {
                closing.push(crate::markdown::missing_title_diagnostic())
            } else {
                closing
            },
            None => closing,
        };
        assert(diagnostics.len() > 0);
        lemma_sort_by_key(diagnostics);
        assert(sort_by_key(diagnostics).to_multiset().len() == diagnostics.len());
    }
}

/// A heading is kept at the level the parser reports: a heading start of
/// level `level` (1 through 6) without attributes, read outside any skipped
/// element and within the nesting limit, opens an empty heading whose level
/// numbers `level`.
pub proof fn law_heading_keeps_its_level(b: SpecBuilder, range: SourceRange, level: u8)
    requires
        b.ignored_depth == 0,
        b.stack.len() <= b.limits.max_nesting_depth,
        1 <= level <= 6,
    ensures
        ({
            let r = spec_push_event(
                b,
                SpecSourcedEvent {
                    event: SpecMarkdownEvent::Start(
                        SpecStartTag::Heading { level, id: false, classes: 0, attributes: 0 },
                    ),
                    range,
                },
            );
            let next = match r {
                Ok(n) => n,
                Err(_) => b,
            };
            &&& r is Ok
            &&& next.stack == b.stack.push(next.stack.last())
            &&& next.stack.last() is Heading
            &&& next.stack.last() matches SpecContainer::Heading { level: kept, content, .. }
                ==> kept.number() == level && content.len() == 0
        }),
{
}

/// A list keeps the kind the parser reports: a list start outside any
/// skipped element and within the nesting limit opens an empty list that
/// is numbered from `k` when the parser gives a first number `k`, whatever
/// `k` is, and is a bullet list exactly when it gives none.
pub proof fn law_list_keeps_its_kind(b: SpecBuilder, range: SourceRange, start: Option<u64>)
    requires
        b.ignored_depth == 0,
        b.stack.len() <= b.limits.max_nesting_depth,
    ensures
        ({
            let r = spec_push_event(
                b,
                SpecSourcedEvent {
                    event: SpecMarkdownEvent::Start(SpecStartTag::List { start }),
                    range,
                },
            );
            let next = match r {
                Ok(n) => n,
                Err(_) => b,
            };
            &&& r is Ok
            &&& next.stack == b.stack.push(next.stack.last())
            &&& next.stack.last() is List
            &&& next.stack.last() matches SpecContainer::List { list_kind, items, .. } ==> {
                &&& items.len() == 0
                &&& list_kind is Unordered <==> start is None
                &&& start matches Some(k) ==> list_kind == ListKind::Ordered { start: k }
            }
        }),
{
}

/// Closing a heading or a list at the top level of the document adds one
/// block to the document that keeps the element's level or kind and what
/// it holds, spanning from its start to its end.
pub proof fn law_closing_keeps_level_and_kind(
    b: SpecBuilder,
    blocks: Seq<SpecBlockNode>,
    opened: SourceRange,
    closed: SourceRange,
    level: HeadingLevel,
    content: Seq<SpecInlineNode>,
    list_kind: ListKind,
    items: Seq<SpecListItem>,
)
    requires
        b.ignored_depth == 0,
        b.stack.len() >= 2,
        b.stack[b.stack.len() - 2] == SpecContainer::Document(blocks),
    ensures
        b.stack.last() == (SpecContainer::Heading { range: opened, level, content }) ==> spec_push_event(
            b,
            SpecSourcedEvent { event: SpecMarkdownEvent::End(TagKind::Heading), range: closed },
        ) == Ok::<SpecBuilder, SpecDiagnostic>(
            SpecBuilder {
                stack: b.stack.drop_last().drop_last().push(
                    SpecContainer::Document(
                        blocks.push(
                            SpecBlockNode {
                                range: opened.spec_cover(closed),
                                kind: SpecBlock::Heading { level, content },
                            },
                        ),
                    ),
                ),
                ..b
            },
        ),
        b.stack.last() == (SpecContainer::List { range: opened, list_kind, items }) ==> spec_push_event(
            b,
            SpecSourcedEvent { event: SpecMarkdownEvent::End(TagKind::List), range: closed },
        ) == Ok::<SpecBuilder, SpecDiagnostic>(
            SpecBuilder {
                stack: b.stack.drop_last().drop_last().push(
                    SpecContainer::Document(
                        blocks.push(
                            SpecBlockNode {
                                range: opened.spec_cover(closed),
                                kind: SpecBlock::List { list_kind, items },
                            },
                        ),
                    ),
                ),
                ..b
            },
        ),
{
    let rest = b.stack.drop_last();
    assert(rest.last() == SpecContainer::Document(blocks));
    assert(rest.update(rest.len() - 1, SpecContainer::Document(blocks.push(SpecBlockNode {
        range: opened.spec_cover(closed),
        kind: SpecBlock::Heading { level, content },
    }))) =~= b.stack.drop_last().drop_last().push(SpecContainer::Document(blocks.push(SpecBlockNode {
        range: opened.spec_cover(closed),
        kind: SpecBlock::Heading { level, content },
    }))));
    assert(rest.update(rest.len() - 1, SpecContainer::Document(blocks.push(SpecBlockNode {
        range: opened.spec_cover(closed),
        kind: SpecBlock::List { list_kind, items },
    }))) =~= b.stack.drop_last().drop_last().push(SpecContainer::Document(blocks.push(SpecBlockNode {
        range: opened.spec_cover(closed),
        kind: SpecBlock::List { list_kind, items },
    }))));
}

} // verus!
