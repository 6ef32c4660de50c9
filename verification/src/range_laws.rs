//! Every byte range that an analysis reports, in its diagnostics and in its
//! document, lies within the source, whenever the parser's own ranges do.
use vstd::prelude::*;

use crate::diagnostic::{SourceRange, SpecDiagnostic, lemma_sort_by_key, sort_by_key};
use crate::events::{SpecMarkdownEvent, SpecSourcedEvent, SpecStartTag, TagKind, ranges_within};
use crate::markdown::{
    ParseLimits, SpecAnalysis, SpecBuilder, SpecContainer, append_to_item, closing_diagnostics,
    control_diagnostic, control_diagnostics, finished_blocks, initial_builder,
    is_disallowed_control, source_diagnostics, spec_analyze, spec_close, spec_end, spec_finish,
    spec_pop, spec_push_block, spec_push_event, spec_push_inline, spec_push_inlines, spec_run,
    spec_start,
};
use crate::model::{SpecBlock, SpecBlockNode, SpecInline, SpecInlineNode, SpecListItem};
use crate::text::{utf8_len, utf8_width};

verus! {

/// Whether `range` is well ordered and ends within `length` bytes.
pub open spec fn range_inside(range: SourceRange, length: nat) -> bool {
    range.start <= range.end <= length
}

/// Whether `node` and everything nested in it lie within `length` bytes.
pub open spec fn inline_inside(node: SpecInlineNode, length: nat) -> bool
    decreases node,
{
    range_inside(node.range, length) && match node.kind {
        SpecInline::Strong(content) => inlines_inside(content, length),
        SpecInline::Emphasis(content) => inlines_inside(content, length),
        SpecInline::Link { label, .. } => inlines_inside(label, length),
        _ => true,
    }
}

/// Whether every node of `nodes` lies within `length` bytes.
pub open spec fn inlines_inside(nodes: Seq<SpecInlineNode>, length: nat) -> bool
    decreases nodes,
{
    nodes.len() == 0 || (inlines_inside(nodes.drop_last(), length) && inline_inside(
        nodes.last(),
        length,
    ))
}

/// Whether `block` and everything nested in it lie within `length` bytes.
pub open spec fn block_inside(block: SpecBlockNode, length: nat) -> bool
    decreases block,
{
    range_inside(block.range, length) && match block.kind {
        SpecBlock::Heading { content, .. } => inlines_inside(content, length),
        SpecBlock::Paragraph(content) => inlines_inside(content, length),
        SpecBlock::List { items, .. } => items_inside(items, length),
        SpecBlock::Divider => true,
    }
}

/// Whether every block of `blocks` lies within `length` bytes.
pub open spec fn blocks_inside(blocks: Seq<SpecBlockNode>, length: nat) -> bool
    decreases blocks,
{
    blocks.len() == 0 || (blocks_inside(blocks.drop_last(), length) && block_inside(
        blocks.last(),
        length,
    ))
}

/// Whether every list item of `items`, with its blocks, lies within
/// `length` bytes.
pub open spec fn items_inside(items: Seq<SpecListItem>, length: nat) -> bool
    decreases items,
{
    items.len() == 0 || (items_inside(items.drop_last(), length) && range_inside(
        items.last().range,
        length,
    ) && blocks_inside(items.last().blocks, length))
}

/// Whether a diagnostic's range, if it has one, lies within `length` bytes.
pub open spec fn diagnostic_inside(d: SpecDiagnostic, length: nat) -> bool {
    d.range matches Some(range) ==> range_inside(range, length)
}

/// Whether every diagnostic of `ds` lies within `length` bytes.
pub open spec fn diagnostics_inside(ds: Seq<SpecDiagnostic>, length: nat) -> bool {
    forall|i: int| 0 <= i < ds.len() ==> diagnostic_inside(#[trigger] ds[i], length)
}

/// Whether every range of an analysis lies within `length` bytes: those of
/// its diagnostics, and those of its document's blocks, list items and
/// inline nodes.
pub open spec fn analysis_inside(analysis: SpecAnalysis, length: nat) -> bool {
    &&& diagnostics_inside(analysis.diagnostics, length)
    &&& analysis.document matches Some(document) ==> blocks_inside(document.blocks, length)
}

/// Whether an open element, its own range included, lies within `length`.
pub open spec fn container_inside(c: SpecContainer, length: nat) -> bool {
    match c {
        SpecContainer::Document(blocks) => blocks_inside(blocks, length),
        SpecContainer::Heading { range, content, .. } => range_inside(range, length)
            && inlines_inside(content, length),
        SpecContainer::Paragraph { range, content } => range_inside(range, length)
            && inlines_inside(content, length),
        SpecContainer::List { range, items, .. } => range_inside(range, length) && items_inside(
            items,
            length,
        ),
        SpecContainer::ListItem { range, blocks } => range_inside(range, length) && blocks_inside(
            blocks,
            length,
        ),
        SpecContainer::Strong { range, content } => range_inside(range, length) && inlines_inside(
            content,
            length,
        ),
        SpecContainer::Emphasis { range, content } => range_inside(range, length)
            && inlines_inside(content, length),
        SpecContainer::Link { range, label, .. } => range_inside(range, length) && inlines_inside(
            label,
            length,
        ),
    }
}

/// Whether every open element and every diagnostic so far lies within
/// `length` bytes.
pub open spec fn builder_inside(b: SpecBuilder, length: nat) -> bool {
    &&& forall|i: int| 0 <= i < b.stack.len() ==> container_inside(#[trigger] b.stack[i], length)
    &&& diagnostics_inside(b.diagnostics, length)
}

proof fn lemma_cover(a: SourceRange, b: SourceRange, length: nat)
    requires
        range_inside(a, length),
        range_inside(b, length),
    ensures
        range_inside(a.spec_cover(b), length),
{
}

proof fn lemma_inlines_push(nodes: Seq<SpecInlineNode>, node: SpecInlineNode, length: nat)
    ensures
        inlines_inside(nodes.push(node), length) == (inlines_inside(nodes, length)
            && inline_inside(node, length)),
{
    assert(nodes.push(node).drop_last() =~= nodes);
}

proof fn lemma_blocks_push(blocks: Seq<SpecBlockNode>, block: SpecBlockNode, length: nat)
    ensures
        blocks_inside(blocks.push(block), length) == (blocks_inside(blocks, length)
            && block_inside(block, length)),
{
    assert(blocks.push(block).drop_last() =~= blocks);
}

proof fn lemma_items_push(items: Seq<SpecListItem>, item: SpecListItem, length: nat)
    ensures
        items_inside(items.push(item), length) == (items_inside(items, length) && range_inside(
            item.range,
            length,
        ) && blocks_inside(item.blocks, length)),
{
    assert(items.push(item).drop_last() =~= items);
}

proof fn lemma_inlines_each(nodes: Seq<SpecInlineNode>, length: nat)
    ensures
        inlines_inside(nodes, length) <==> forall|i: int|
            0 <= i < nodes.len() ==> inline_inside(#[trigger] nodes[i], length),
    decreases nodes.len(),
{
    if nodes.len() > 0 {
        let rest = nodes.drop_last();
        lemma_inlines_each(rest, length);
        if forall|i: int| 0 <= i < nodes.len() ==> inline_inside(#[trigger] nodes[i], length) {
            assert forall|i: int| 0 <= i < rest.len() implies inline_inside(
                #[trigger] rest[i],
                length,
            ) by {
                assert(rest[i] == nodes[i]);
            }
            assert(inline_inside(nodes[nodes.len() - 1], length));
        }
        if inlines_inside(nodes, length) {
            assert forall|i: int| 0 <= i < nodes.len() implies inline_inside(
                #[trigger] nodes[i],
                length,
            ) by {
                if i < nodes.len() - 1 {
                    assert(nodes[i] == rest[i]);
                }
            }
        }
    }
}

proof fn lemma_append_to_item(blocks: Seq<SpecBlockNode>, inline: SpecInlineNode, length: nat)
    requires
        blocks_inside(blocks, length),
        inline_inside(inline, length),
    ensures
        blocks_inside(append_to_item(blocks, inline), length),
{
    if blocks.len() > 0 && blocks.last().kind is Paragraph {
        let last = blocks.last();
        let content = match last.kind {
            SpecBlock::Paragraph(content) => content,
            _ => seq![],
        };
        assert(block_inside(last, length));
        lemma_inlines_push(content, inline, length);
        lemma_cover(last.range, inline.range, length);
        let block = SpecBlockNode {
            range: last.range.spec_cover(inline.range),
            kind: SpecBlock::Paragraph(content.push(inline)),
        };
        let updated = blocks.update(blocks.len() - 1, block);
        assert(updated.drop_last() =~= blocks.drop_last());
        assert(inlines_inside(content, length));
        assert(updated.last() == block);
        assert(updated == append_to_item(blocks, inline));
        assert(blocks_inside(updated.drop_last(), length));
        assert(block_inside(block, length));
    } else {
        lemma_inlines_push(seq![], inline, length);
        assert(seq![inline] =~= Seq::<SpecInlineNode>::empty().push(inline));
        let paragraph = SpecBlockNode { range: inline.range, kind: SpecBlock::Paragraph(seq![inline]) };
        assert(inlines_inside(Seq::<SpecInlineNode>::empty(), length));
        assert(block_inside(paragraph, length));
        lemma_blocks_push(blocks, paragraph, length);
        assert(append_to_item(blocks, inline) == blocks.push(paragraph));
    }
}

proof fn lemma_with_top(b: SpecBuilder, c: SpecContainer, length: nat)
    requires
        builder_inside(b, length),
        b.stack.len() > 0,
        container_inside(c, length),
    ensures
        builder_inside(SpecBuilder { stack: b.stack.update(b.stack.len() - 1, c), ..b }, length),
{
    let s = b.stack.update(b.stack.len() - 1, c);
    assert forall|i: int| 0 <= i < s.len() implies container_inside(#[trigger] s[i], length) by {
        if i < b.stack.len() - 1 {
            assert(s[i] == b.stack[i]);
        }
    }
}

proof fn lemma_pushed(b: SpecBuilder, c: SpecContainer, length: nat)
    requires
        builder_inside(b, length),
        container_inside(c, length),
    ensures
        builder_inside(SpecBuilder { stack: b.stack.push(c), ..b }, length),
{
    let s = b.stack.push(c);
    assert forall|i: int| 0 <= i < s.len() implies container_inside(#[trigger] s[i], length) by {
        if i < b.stack.len() {
            assert(s[i] == b.stack[i]);
        }
    }
}

proof fn lemma_reported(b: SpecBuilder, d: SpecDiagnostic, length: nat)
    requires
        builder_inside(b, length),
        diagnostic_inside(d, length),
    ensures
        builder_inside(SpecBuilder { diagnostics: b.diagnostics.push(d), ..b }, length),
        builder_inside(SpecBuilder { ignored_depth: 1, diagnostics: b.diagnostics.push(d), ..b }, length),
{
    let ds = b.diagnostics.push(d);
    assert forall|i: int| 0 <= i < ds.len() implies diagnostic_inside(#[trigger] ds[i], length) by {
        if i < b.diagnostics.len() {
            assert(ds[i] == b.diagnostics[i]);
        }
    }
}

/// What a step keeps: on success every range of the builder lies within
/// the source; on failure the diagnostic's range does.
spec fn keeps_inside(r: Result<SpecBuilder, SpecDiagnostic>, length: nat) -> bool {
    match r {
        Ok(next) => builder_inside(next, length),
        Err(d) => diagnostic_inside(d, length),
    }
}

proof fn lemma_push_block(b: SpecBuilder, block: SpecBlockNode, length: nat)
    requires
        builder_inside(b, length),
        block_inside(block, length),
    ensures
        keeps_inside(spec_push_block(b, block), length),
{
    if b.stack.len() > 0 {
        assert(container_inside(b.stack[b.stack.len() - 1], length));
        match b.stack.last() {
            SpecContainer::Document(blocks) => {
                lemma_blocks_push(blocks, block, length);
                lemma_with_top(b, SpecContainer::Document(blocks.push(block)), length);
            },
            SpecContainer::ListItem { range, blocks } => {
                lemma_blocks_push(blocks, block, length);
                lemma_with_top(b, SpecContainer::ListItem { range, blocks: blocks.push(block) }, length);
            },
            _ => {},
        }
    }
}

proof fn lemma_push_inline(b: SpecBuilder, inline: SpecInlineNode, length: nat)
    requires
        builder_inside(b, length),
        inline_inside(inline, length),
    ensures
        keeps_inside(spec_push_inline(b, inline), length),
{
    if b.stack.len() > 0 {
        assert(container_inside(b.stack[b.stack.len() - 1], length));
        match b.stack.last() {
            SpecContainer::Heading { range, level, content } => {
                lemma_inlines_push(content, inline, length);
                lemma_with_top(b, SpecContainer::Heading { range, level, content: content.push(inline) }, length);
            },
            SpecContainer::Paragraph { range, content } => {
                lemma_inlines_push(content, inline, length);
                lemma_with_top(b, SpecContainer::Paragraph { range, content: content.push(inline) }, length);
            },
            SpecContainer::Strong { range, content } => {
                lemma_inlines_push(content, inline, length);
                lemma_with_top(b, SpecContainer::Strong { range, content: content.push(inline) }, length);
            },
            SpecContainer::Emphasis { range, content } => {
                lemma_inlines_push(content, inline, length);
                lemma_with_top(b, SpecContainer::Emphasis { range, content: content.push(inline) }, length);
            },
            SpecContainer::Link { range, destination, label } => {
                lemma_inlines_push(label, inline, length);
                lemma_with_top(
                    b,
                    SpecContainer::Link { range, destination, label: label.push(inline) },
                    length,
                );
            },
            SpecContainer::ListItem { range, blocks } => {
                lemma_append_to_item(blocks, inline, length);
                lemma_with_top(
                    b,
                    SpecContainer::ListItem { range, blocks: append_to_item(blocks, inline) },
                    length,
                );
            },
            _ => {},
        }
    }
}

proof fn lemma_push_inlines(b: SpecBuilder, inlines: Seq<SpecInlineNode>, length: nat)
    requires
        builder_inside(b, length),
        inlines_inside(inlines, length),
    ensures
        keeps_inside(spec_push_inlines(b, inlines), length),
    decreases inlines.len(),
{
    if inlines.len() > 0 {
        lemma_inlines_each(inlines, length);
        assert(inline_inside(inlines[0], length));
        lemma_push_inline(b, inlines[0], length);
        if let Ok(next) = spec_push_inline(b, inlines[0]) {
            let rest = inlines.drop_first();
            assert forall|i: int| 0 <= i < rest.len() implies inline_inside(
                #[trigger] rest[i],
                length,
            ) by {
                assert(rest[i] == inlines[i + 1]);
            }
            lemma_inlines_each(rest, length);
            lemma_push_inlines(next, rest, length);
        }
    }
}

proof fn lemma_close(b: SpecBuilder, c: SpecContainer, kind: TagKind, range: SourceRange, length: nat)
    requires
        builder_inside(b, length),
        container_inside(c, length),
        range_inside(range, length),
    ensures
        keeps_inside(spec_close(b, c, kind, range), length),
{
    match c {
        SpecContainer::Paragraph { range: start, content } => {
            lemma_cover(start, range, length);
            lemma_push_block(b, SpecBlockNode { range: start.spec_cover(range), kind: SpecBlock::Paragraph(content) }, length);
        },
        SpecContainer::Heading { range: start, level, content } => {
            lemma_cover(start, range, length);
            lemma_push_block(b, SpecBlockNode { range: start.spec_cover(range), kind: SpecBlock::Heading { level, content } }, length);
        },
        SpecContainer::List { range: start, list_kind, items } => {
            lemma_cover(start, range, length);
            lemma_push_block(b, SpecBlockNode { range: start.spec_cover(range), kind: SpecBlock::List { list_kind, items } }, length);
        },
        SpecContainer::ListItem { range: start, blocks } => {
            if b.stack.len() > 0 {
                assert(container_inside(b.stack[b.stack.len() - 1], length));
                if let SpecContainer::List { range: list_range, list_kind, items } = b.stack.last() {
                    lemma_cover(start, range, length);
                    let item = SpecListItem { range: start.spec_cover(range), blocks };
                    lemma_items_push(items, item, length);
                    lemma_with_top(b, SpecContainer::List { range: list_range, list_kind, items: items.push(item) }, length);
                }
            }
        },
        SpecContainer::Emphasis { range: start, content } => {
            lemma_cover(start, range, length);
            lemma_push_inline(b, SpecInlineNode { range: start.spec_cover(range), kind: SpecInline::Emphasis(content) }, length);
        },
        SpecContainer::Strong { range: start, content } => {
            lemma_cover(start, range, length);
            lemma_push_inline(b, SpecInlineNode { range: start.spec_cover(range), kind: SpecInline::Strong(content) }, length);
        },
        SpecContainer::Link { range: start, destination, label } => {
            lemma_cover(start, range, length);
            match destination {
                Some(target) => lemma_push_inline(
                    b,
                    SpecInlineNode { range: start.spec_cover(range), kind: SpecInline::Link { destination: target, label } },
                    length,
                ),
                None => lemma_push_inlines(b, label, length),
            }
        },
        SpecContainer::Document(_) => {},
    }
}

proof fn lemma_end(b: SpecBuilder, kind: TagKind, range: SourceRange, length: nat)
    requires
        builder_inside(b, length),
        range_inside(range, length),
    ensures
        keeps_inside(spec_end(b, kind, range), length),
{
    if let Ok(popped) = spec_pop(b, range) {
        assert(container_inside(b.stack[b.stack.len() - 1], length));
        let rest = popped.0;
        assert forall|i: int| 0 <= i < rest.stack.len() implies container_inside(
            #[trigger] rest.stack[i],
            length,
        ) by {
            assert(rest.stack[i] == b.stack[i]);
        }
        lemma_close(rest, popped.1, kind, range, length);
    }
}

proof fn lemma_start(b: SpecBuilder, tag: SpecStartTag, range: SourceRange, length: nat)
    requires
        builder_inside(b, length),
        range_inside(range, length),
    ensures
        keeps_inside(spec_start(b, tag, range), length),
{
    assert(inlines_inside(seq![], length));
    assert(blocks_inside(seq![], length));
    assert(items_inside(seq![], length));
    lemma_reported(b, crate::markdown::nesting_diagnostic(b.limits.max_nesting_depth, range), length);
    lemma_reported(b, crate::markdown::raw_html_diagnostic(range), length);
    if b.stack.len() <= b.limits.max_nesting_depth {
        match tag {
            SpecStartTag::Heading { level, .. } => {
                lemma_reported(b, crate::markdown::unsupported_diagnostic("heading attributes"@, range), length);
                if 1 <= level <= 6 {
                    lemma_pushed(b, SpecContainer::Heading { range, level: crate::markdown::heading_of(level), content: seq![] }, length);
                }
            },
            SpecStartTag::List { start } => {
                lemma_pushed(b, SpecContainer::List {
                    range,
                    list_kind: match start {
                        None => crate::model::ListKind::Unordered,
                        Some(first) => crate::model::ListKind::Ordered { start: first },
                    },
                    items: seq![],
                }, length);
            },
            SpecStartTag::Link { destination } => {
                match crate::model::link_policy(destination) {
                    Ok(target) => {
                        lemma_pushed(b, SpecContainer::Link { range, destination: Some(target), label: seq![] }, length);
                    },
                    Err(error) => {
                        let d = crate::markdown::link_diagnostic(error, range);
                        lemma_reported(b, d, length);
                        let reported = SpecBuilder { diagnostics: b.diagnostics.push(d), ..b };
                        lemma_pushed(reported, SpecContainer::Link { range, destination: None, label: seq![] }, length);
                    },
                }
            },
            SpecStartTag::Other(kind) => {
                lemma_reported(b, crate::markdown::unsupported_diagnostic(crate::markdown::construct_name(kind), range), length);
                lemma_pushed(b, SpecContainer::Paragraph { range, content: seq![] }, length);
                lemma_pushed(b, SpecContainer::ListItem { range, blocks: seq![] }, length);
                lemma_pushed(b, SpecContainer::Emphasis { range, content: seq![] }, length);
                lemma_pushed(b, SpecContainer::Strong { range, content: seq![] }, length);
            },
        }
    }
}

proof fn lemma_push_event(b: SpecBuilder, event: SpecSourcedEvent, length: nat)
    requires
        builder_inside(b, length),
        range_inside(event.range, length),
    ensures
        keeps_inside(spec_push_event(b, event), length),
{
    let range = event.range;
    if b.ignored_depth == 0 {
        lemma_reported(b, crate::markdown::raw_html_diagnostic(range), length);
        lemma_reported(b, crate::markdown::unsupported_diagnostic("footnotes"@, range), length);
        lemma_reported(b, crate::markdown::unsupported_diagnostic("task-list markers"@, range), length);
        lemma_reported(b, crate::markdown::unsupported_diagnostic("math"@, range), length);
        match event.event {
            SpecMarkdownEvent::Start(tag) => lemma_start(b, tag, range, length),
            SpecMarkdownEvent::End(kind) => lemma_end(b, kind, range, length),
            SpecMarkdownEvent::Text(text) => lemma_push_inline(
                b,
                SpecInlineNode { range, kind: SpecInline::Text(text) },
                length,
            ),
            SpecMarkdownEvent::Code(code) => lemma_push_inline(
                b,
                SpecInlineNode { range, kind: SpecInline::Code(code) },
                length,
            ),
            SpecMarkdownEvent::SoftBreak => lemma_push_inline(
                b,
                SpecInlineNode { range, kind: SpecInline::SoftBreak },
                length,
            ),
            SpecMarkdownEvent::HardBreak => lemma_push_inline(
                b,
                SpecInlineNode { range, kind: SpecInline::HardBreak },
                length,
            ),
            SpecMarkdownEvent::Rule => lemma_push_block(
                b,
                SpecBlockNode { range, kind: SpecBlock::Divider },
                length,
            ),
            _ => {},
        }
    }
}

proof fn lemma_run(b: SpecBuilder, events: Seq<SpecSourcedEvent>, length: nat)
    requires
        builder_inside(b, length),
        ranges_within(events, length),
    ensures
        builder_inside(spec_run(b, events), length),
    decreases events.len(),
{
    if events.len() > 0 {
        assert(range_inside(events[0].range, length));
        lemma_push_event(b, events[0], length);
        match spec_push_event(b, events[0]) {
            Ok(next) => {
                let rest = events.drop_first();
                assert forall|i: int| 0 <= i < rest.len() implies (#[trigger] rest[i]).range.start
                    <= rest[i].range.end <= length by {
                    assert(rest[i] == events[i + 1]);
                }
                lemma_run(next, rest, length);
            },
            Err(d) => {
                lemma_reported(b, d, length);
            },
        }
    }
}

/// Reordering diagnostics keeps them within the source.
proof fn lemma_sorted_inside(ds: Seq<SpecDiagnostic>, length: nat)
    requires
        diagnostics_inside(ds, length),
    ensures
        diagnostics_inside(sort_by_key(ds), length),
{
    broadcast use vstd::seq_lib::group_seq_properties;

    lemma_sort_by_key(ds);
    let t = sort_by_key(ds);
    assert forall|i: int| 0 <= i < t.len() implies diagnostic_inside(#[trigger] t[i], length) by {
        assert(t.contains(t[i]));
        assert(t.to_multiset().count(t[i]) > 0);
        assert(ds.contains(t[i]));
        let j = choose|j: int| 0 <= j < ds.len() && ds[j] == t[i];
        assert(diagnostic_inside(ds[j], length));
    }
}

proof fn lemma_finish(b: SpecBuilder, length: nat)
    requires
        builder_inside(b, length),
    ensures
        analysis_inside(spec_finish(b), length),
{
    let closing = closing_diagnostics(b);
    let end_of_structure = crate::markdown::unexpected_structure(SourceRange { start: 0, end: 0 });
    lemma_reported(b, end_of_structure, length);
    assert(diagnostics_inside(closing, length));
    let missing = crate::markdown::missing_title_diagnostic();
    let with_missing = closing.push(missing);
    assert forall|i: int| 0 <= i < with_missing.len() implies diagnostic_inside(
        #[trigger] with_missing[i],
        length,
    ) by {
        if i < closing.len() {
            assert(with_missing[i] == closing[i]);
        }
    }
    lemma_sorted_inside(closing, length);
    lemma_sorted_inside(with_missing, length);
    if let Some(blocks) = finished_blocks(b) {
        assert(container_inside(b.stack[0], length));
    }
}

/// The control-character diagnostics of `source` lie within it.
proof fn lemma_control_diagnostics_inside(source: Seq<char>)
    requires
        utf8_len(source) <= usize::MAX,
    ensures
        diagnostics_inside(control_diagnostics(source), utf8_len(source)),
    decreases source.len(),
{
    if source.len() > 0 {
        let prefix = source.drop_last();
        let c = source.last();
        let length = utf8_len(source);
        lemma_control_diagnostics_inside(prefix);
        let before = control_diagnostics(prefix);
        let added = if is_disallowed_control(c) {
            seq![control_diagnostic(c, utf8_len(prefix))]
        } else {
            seq![]
        };
        assert forall|i: int| 0 <= i < added.len() implies diagnostic_inside(
            #[trigger] added[i],
            length,
        ) by {
            assert(added[i] == control_diagnostic(c, utf8_len(prefix)));
            assert(utf8_len(prefix) + utf8_width(c) == length);
        }
        let all = before + added;
        assert forall|i: int| 0 <= i < all.len() implies diagnostic_inside(
            #[trigger] all[i],
            length,
        ) by {
            if i < before.len() {
                assert(all[i] == before[i]);
                assert(diagnostic_inside(before[i], utf8_len(prefix)));
            } else {
                assert(all[i] == added[i - before.len()]);
            }
        }
    }
}

/// The diagnostics found before parsing lie within the source.
proof fn lemma_source_diagnostics_inside(source: Seq<char>, limits: ParseLimits)
    requires
        utf8_len(source) <= usize::MAX,
    ensures
        diagnostics_inside(source_diagnostics(source, limits), utf8_len(source)),
{
    lemma_control_diagnostics_inside(source);
}

/// Every range that an analysis reports lies within its source, whenever
/// every range that the parser reported does: each diagnostic's range, and
/// the range of each block, list item and inline node of the document,
/// however deeply nested, is well ordered and ends within the source's
/// UTF-8 length.
pub proof fn law_analysis_ranges_inside_source(
    source: Seq<char>,
    limits: ParseLimits,
    events: Seq<SpecSourcedEvent>,
)
    requires
        utf8_len(source) <= usize::MAX,
        ranges_within(events, utf8_len(source)),
    ensures
        analysis_inside(spec_analyze(source, limits, events), utf8_len(source)),
{
    let length = utf8_len(source);
    lemma_source_diagnostics_inside(source, limits);
    let b = initial_builder(limits);
    assert(blocks_inside(seq![], length));
    assert(container_inside(b.stack[0], length));
    lemma_run(b, events, length);
    lemma_finish(spec_run(b, events), length);
}

/// The diagnostics found before parsing lie within the source; an analysis
/// that stops there has no document.
pub proof fn law_early_diagnostics_inside_source(source: Seq<char>, limits: ParseLimits)
    requires
        utf8_len(source) <= usize::MAX,
        source_diagnostics(source, limits).len() > 0,
    ensures
        forall|events: Seq<SpecSourcedEvent>|
            analysis_inside(#[trigger] spec_analyze(source, limits, events), utf8_len(source)),
{
    lemma_source_diagnostics_inside(source, limits);
}

} // verus!
