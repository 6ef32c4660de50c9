//! A document keeps only links that Resumark's link policy allows, whatever
//! events the parser reports. It cannot hold raw HTML at all: the model has
//! no variant for it.
use vstd::prelude::*;

use crate::events::{SpecMarkdownEvent, SpecSourcedEvent, SpecStartTag};
use crate::markdown::{
    ParseLimits, SpecBuilder, SpecContainer, append_to_item, finished_blocks, initial_builder,
    spec_analyze, spec_close, spec_end, spec_pop, spec_push_block, spec_push_event,
    spec_push_inline, spec_push_inlines, spec_run, spec_start,
};
use crate::model::{
    SpecBlock, SpecBlockNode, SpecInline, SpecInlineNode, SpecInvalidLinkTarget, SpecListItem,
    link_policy,
};

verus! {

/// Whether the link policy keeps `destination` as it is.
pub open spec fn link_allowed(destination: Seq<char>) -> bool {
    link_policy(destination) == Ok::<Seq<char>, SpecInvalidLinkTarget>(destination)
}

/// Whether every link in `node`, however deeply nested, is allowed.
pub open spec fn inline_links_allowed(node: SpecInlineNode) -> bool
    decreases node,
{
    match node.kind {
        SpecInline::Strong(content) => inlines_links_allowed(content),
        SpecInline::Emphasis(content) => inlines_links_allowed(content),
        SpecInline::Link { destination, label } => link_allowed(destination)
            && inlines_links_allowed(label),
        _ => true,
    }
}

/// Whether every link in `nodes` is allowed.
pub open spec fn inlines_links_allowed(nodes: Seq<SpecInlineNode>) -> bool
    decreases nodes,
{
    nodes.len() == 0 || (inlines_links_allowed(nodes.drop_last()) && inline_links_allowed(
        nodes.last(),
    ))
}

/// Whether every link in `block` is allowed.
pub open spec fn block_links_allowed(block: SpecBlockNode) -> bool
    decreases block,
{
    match block.kind {
        SpecBlock::Heading { content, .. } => inlines_links_allowed(content),
        SpecBlock::Paragraph(content) => inlines_links_allowed(content),
        SpecBlock::List { items, .. } => items_links_allowed(items),
        SpecBlock::Divider => true,
    }
}

/// Whether every link in `blocks` is allowed.
pub open spec fn blocks_links_allowed(blocks: Seq<SpecBlockNode>) -> bool
    decreases blocks,
{
    blocks.len() == 0 || (blocks_links_allowed(blocks.drop_last()) && block_links_allowed(
        blocks.last(),
    ))
}

/// Whether every link in `items` is allowed.
pub open spec fn items_links_allowed(items: Seq<SpecListItem>) -> bool
    decreases items,
{
    items.len() == 0 || (items_links_allowed(items.drop_last()) && blocks_links_allowed(
        items.last().blocks,
    ))
}

/// Whether every link in an open element is allowed, its own destination
/// included.
pub open spec fn container_links_allowed(c: SpecContainer) -> bool {
    match c {
        SpecContainer::Document(blocks) => blocks_links_allowed(blocks),
        SpecContainer::Heading { content, .. } => inlines_links_allowed(content),
        SpecContainer::Paragraph { content, .. } => inlines_links_allowed(content),
        SpecContainer::List { items, .. } => items_links_allowed(items),
        SpecContainer::ListItem { blocks, .. } => blocks_links_allowed(blocks),
        SpecContainer::Strong { content, .. } => inlines_links_allowed(content),
        SpecContainer::Emphasis { content, .. } => inlines_links_allowed(content),
        SpecContainer::Link { destination, label, .. } => (destination matches Some(d)
            ==> link_allowed(d)) && inlines_links_allowed(label),
    }
}

/// Whether every open element holds only allowed links.
pub open spec fn builder_links_allowed(b: SpecBuilder) -> bool {
    forall|i: int| 0 <= i < b.stack.len() ==> container_links_allowed(#[trigger] b.stack[i])
}

proof fn lemma_inlines_push(nodes: Seq<SpecInlineNode>, node: SpecInlineNode)
    ensures
        inlines_links_allowed(nodes.push(node)) == (inlines_links_allowed(nodes)
            && inline_links_allowed(node)),
{
    assert(nodes.push(node).drop_last() =~= nodes);
}

proof fn lemma_blocks_push(blocks: Seq<SpecBlockNode>, block: SpecBlockNode)
    ensures
        blocks_links_allowed(blocks.push(block)) == (blocks_links_allowed(blocks)
            && block_links_allowed(block)),
{
    assert(blocks.push(block).drop_last() =~= blocks);
}

proof fn lemma_items_push(items: Seq<SpecListItem>, item: SpecListItem)
    ensures
        items_links_allowed(items.push(item)) == (items_links_allowed(items)
            && blocks_links_allowed(item.blocks)),
{
    assert(items.push(item).drop_last() =~= items);
}

/// Every link in a sequence is allowed when each node's links are.
proof fn lemma_inlines_each(nodes: Seq<SpecInlineNode>)
    ensures
        inlines_links_allowed(nodes) <==> forall|i: int|
            0 <= i < nodes.len() ==> inline_links_allowed(#[trigger] nodes[i]),
    decreases nodes.len(),
{
    if nodes.len() > 0 {
        let rest = nodes.drop_last();
        lemma_inlines_each(rest);
        if forall|i: int| 0 <= i < nodes.len() ==> inline_links_allowed(#[trigger] nodes[i]) {
            assert forall|i: int| 0 <= i < rest.len() implies inline_links_allowed(
                #[trigger] rest[i],
            ) by {
                assert(rest[i] == nodes[i]);
            }
            assert(inline_links_allowed(nodes[nodes.len() - 1]));
        }
        if inlines_links_allowed(nodes) {
            assert forall|i: int| 0 <= i < nodes.len() implies inline_links_allowed(
                #[trigger] nodes[i],
            ) by {
                if i < nodes.len() - 1 {
                    assert(nodes[i] == rest[i]);
                }
            }
        }
    }
}

proof fn lemma_append_to_item(blocks: Seq<SpecBlockNode>, inline: SpecInlineNode)
    requires
        blocks_links_allowed(blocks),
        inline_links_allowed(inline),
    ensures
        blocks_links_allowed(append_to_item(blocks, inline)),
{
    if blocks.len() > 0 && blocks.last().kind is Paragraph {
        let last = blocks.last();
        let content = match last.kind {
            SpecBlock::Paragraph(content) => content,
            _ => seq![],
        };
        lemma_inlines_push(content, inline);
        let updated = blocks.update(blocks.len() - 1, SpecBlockNode {
            range: last.range.spec_cover(inline.range),
            kind: SpecBlock::Paragraph(content.push(inline)),
        });
        assert(updated.drop_last() =~= blocks.drop_last());
        assert(block_links_allowed(last));
        assert(inlines_links_allowed(content));
        assert(updated.last() == SpecBlockNode {
            range: last.range.spec_cover(inline.range),
            kind: SpecBlock::Paragraph(content.push(inline)),
        });
        assert(updated == append_to_item(blocks, inline));
        assert(blocks_links_allowed(updated.drop_last()));
        assert(block_links_allowed(updated.last()));
    } else {
        lemma_inlines_push(seq![], inline);
        assert(seq![inline] =~= Seq::<SpecInlineNode>::empty().push(inline));
        let paragraph = SpecBlockNode { range: inline.range, kind: SpecBlock::Paragraph(seq![inline]) };
        assert(inlines_links_allowed(Seq::<SpecInlineNode>::empty()));
        assert(block_links_allowed(paragraph));
        lemma_blocks_push(blocks, paragraph);
        assert(append_to_item(blocks, inline) == blocks.push(paragraph));
    }
}

/// Replacing the innermost element by one with allowed links keeps the
/// builder's links allowed.
proof fn lemma_with_top(b: SpecBuilder, c: SpecContainer)
    requires
        builder_links_allowed(b),
        b.stack.len() > 0,
        container_links_allowed(c),
    ensures
        builder_links_allowed(SpecBuilder { stack: b.stack.update(b.stack.len() - 1, c), ..b }),
{
    let s = b.stack.update(b.stack.len() - 1, c);
    assert forall|i: int| 0 <= i < s.len() implies container_links_allowed(#[trigger] s[i]) by {
        if i < b.stack.len() - 1 {
            assert(s[i] == b.stack[i]);
        }
    }
}

proof fn lemma_pushed(b: SpecBuilder, c: SpecContainer)
    requires
        builder_links_allowed(b),
        container_links_allowed(c),
    ensures
        builder_links_allowed(SpecBuilder { stack: b.stack.push(c), ..b }),
{
    let s = b.stack.push(c);
    assert forall|i: int| 0 <= i < s.len() implies container_links_allowed(#[trigger] s[i]) by {
        if i < b.stack.len() {
            assert(s[i] == b.stack[i]);
        }
    }
}

/// What a successful step keeps: only allowed links in open elements.
spec fn keeps_links(r: Result<SpecBuilder, crate::diagnostic::SpecDiagnostic>) -> bool {
    r matches Ok(next) ==> builder_links_allowed(next)
}

proof fn lemma_push_block(b: SpecBuilder, block: SpecBlockNode)
    requires
        builder_links_allowed(b),
        block_links_allowed(block),
    ensures
        keeps_links(spec_push_block(b, block)),
{
    if b.stack.len() > 0 {
        assert(container_links_allowed(b.stack[b.stack.len() - 1]));
        match b.stack.last() {
            SpecContainer::Document(blocks) => {
                lemma_blocks_push(blocks, block);
                lemma_with_top(b, SpecContainer::Document(blocks.push(block)));
            },
            SpecContainer::ListItem { range, blocks } => {
                lemma_blocks_push(blocks, block);
                lemma_with_top(b, SpecContainer::ListItem { range, blocks: blocks.push(block) });
            },
            _ => {},
        }
    }
}

proof fn lemma_push_inline(b: SpecBuilder, inline: SpecInlineNode)
    requires
        builder_links_allowed(b),
        inline_links_allowed(inline),
    ensures
        keeps_links(spec_push_inline(b, inline)),
{
    if b.stack.len() > 0 {
        assert(container_links_allowed(b.stack[b.stack.len() - 1]));
        match b.stack.last() {
            SpecContainer::Heading { range, level, content } => {
                lemma_inlines_push(content, inline);
                lemma_with_top(b, SpecContainer::Heading { range, level, content: content.push(inline) });
            },
            SpecContainer::Paragraph { range, content } => {
                lemma_inlines_push(content, inline);
                lemma_with_top(b, SpecContainer::Paragraph { range, content: content.push(inline) });
            },
            SpecContainer::Strong { range, content } => {
                lemma_inlines_push(content, inline);
                lemma_with_top(b, SpecContainer::Strong { range, content: content.push(inline) });
            },
            SpecContainer::Emphasis { range, content } => {
                lemma_inlines_push(content, inline);
                lemma_with_top(b, SpecContainer::Emphasis { range, content: content.push(inline) });
            },
            SpecContainer::Link { range, destination, label } => {
                lemma_inlines_push(label, inline);
                lemma_with_top(
                    b,
                    SpecContainer::Link { range, destination, label: label.push(inline) },
                );
            },
            SpecContainer::ListItem { range, blocks } => {
                lemma_append_to_item(blocks, inline);
                lemma_with_top(
                    b,
                    SpecContainer::ListItem { range, blocks: append_to_item(blocks, inline) },
                );
            },
            _ => {},
        }
    }
}

proof fn lemma_push_inlines(b: SpecBuilder, inlines: Seq<SpecInlineNode>)
    requires
        builder_links_allowed(b),
        inlines_links_allowed(inlines),
    ensures
        keeps_links(spec_push_inlines(b, inlines)),
    decreases inlines.len(),
{
    if inlines.len() > 0 {
        lemma_inlines_each(inlines);
        assert(inline_links_allowed(inlines[0]));
        lemma_push_inline(b, inlines[0]);
        if let Ok(next) = spec_push_inline(b, inlines[0]) {
            let rest = inlines.drop_first();
            assert forall|i: int| 0 <= i < rest.len() implies inline_links_allowed(
                #[trigger] rest[i],
            ) by {
                assert(rest[i] == inlines[i + 1]);
            }
            lemma_inlines_each(rest);
            lemma_push_inlines(next, rest);
        }
    }
}

proof fn lemma_close(
    b: SpecBuilder,
    c: SpecContainer,
    kind: crate::events::TagKind,
    range: crate::diagnostic::SourceRange,
)
    requires
        builder_links_allowed(b),
        container_links_allowed(c),
    ensures
        keeps_links(spec_close(b, c, kind, range)),
{
    match c {
        SpecContainer::Paragraph { range: start, content } => {
            lemma_push_block(b, SpecBlockNode { range: start.spec_cover(range), kind: SpecBlock::Paragraph(content) });
        },
        SpecContainer::Heading { range: start, level, content } => {
            lemma_push_block(b, SpecBlockNode { range: start.spec_cover(range), kind: SpecBlock::Heading { level, content } });
        },
        SpecContainer::List { range: start, list_kind, items } => {
            lemma_push_block(b, SpecBlockNode { range: start.spec_cover(range), kind: SpecBlock::List { list_kind, items } });
        },
        SpecContainer::ListItem { range: start, blocks } => {
            if b.stack.len() > 0 {
                assert(container_links_allowed(b.stack[b.stack.len() - 1]));
                if let SpecContainer::List { range: list_range, list_kind, items } = b.stack.last() {
                    let item = SpecListItem { range: start.spec_cover(range), blocks };
                    lemma_items_push(items, item);
                    lemma_with_top(b, SpecContainer::List { range: list_range, list_kind, items: items.push(item) });
                }
            }
        },
        SpecContainer::Emphasis { range: start, content } => {
            lemma_push_inline(b, SpecInlineNode { range: start.spec_cover(range), kind: SpecInline::Emphasis(content) });
        },
        SpecContainer::Strong { range: start, content } => {
            lemma_push_inline(b, SpecInlineNode { range: start.spec_cover(range), kind: SpecInline::Strong(content) });
        },
        SpecContainer::Link { range: start, destination, label } => {
            match destination {
                Some(target) => lemma_push_inline(
                    b,
                    SpecInlineNode { range: start.spec_cover(range), kind: SpecInline::Link { destination: target, label } },
                ),
                None => lemma_push_inlines(b, label),
            }
        },
        SpecContainer::Document(_) => {},
    }
}

proof fn lemma_end(b: SpecBuilder, kind: crate::events::TagKind, range: crate::diagnostic::SourceRange)
    requires
        builder_links_allowed(b),
    ensures
        keeps_links(spec_end(b, kind, range)),
{
    if let Ok(popped) = spec_pop(b, range) {
        assert(container_links_allowed(b.stack[b.stack.len() - 1]));
        let rest = popped.0;
        assert forall|i: int| 0 <= i < rest.stack.len() implies container_links_allowed(
            #[trigger] rest.stack[i],
        ) by {
            assert(rest.stack[i] == b.stack[i]);
        }
        lemma_close(rest, popped.1, kind, range);
    }
}

proof fn lemma_start(b: SpecBuilder, tag: SpecStartTag, range: crate::diagnostic::SourceRange)
    requires
        builder_links_allowed(b),
    ensures
        keeps_links(spec_start(b, tag, range)),
{
    assert(inlines_links_allowed(seq![]));
    assert(blocks_links_allowed(seq![]));
    assert(items_links_allowed(seq![]));
    if b.stack.len() <= b.limits.max_nesting_depth {
        match tag {
            SpecStartTag::Heading { level, id, classes, attributes } => {
                if 1 <= level <= 6 {
                    lemma_pushed(b, SpecContainer::Heading { range, level: crate::markdown::heading_of(level), content: seq![] });
                }
            },
            SpecStartTag::List { start } => {
                lemma_pushed(b, SpecContainer::List {
                    range,
                    list_kind: match start {
                        None => crate::model::ListKind::Unordered,
                        Some(first) => crate::model::ListKind::Ordered { start: first },
                    },
                    items: seq![],
                });
            },
            SpecStartTag::Link { destination } => {
                match link_policy(destination) {
                    Ok(target) => {
                        assert(target == destination);
                        lemma_pushed(b, SpecContainer::Link { range, destination: Some(target), label: seq![] });
                    },
                    Err(error) => {
                        let reported = SpecBuilder {
                            diagnostics: b.diagnostics.push(crate::markdown::link_diagnostic(error, range)),
                            ..b
                        };
                        lemma_pushed(reported, SpecContainer::Link { range, destination: None, label: seq![] });
                    },
                }
            },
            SpecStartTag::Other(kind) => {
                lemma_pushed(b, SpecContainer::Paragraph { range, content: seq![] });
                lemma_pushed(b, SpecContainer::ListItem { range, blocks: seq![] });
                lemma_pushed(b, SpecContainer::Emphasis { range, content: seq![] });
                lemma_pushed(b, SpecContainer::Strong { range, content: seq![] });
            },
        }
    }
}

proof fn lemma_push_event(b: SpecBuilder, event: SpecSourcedEvent)
    requires
        builder_links_allowed(b),
    ensures
        keeps_links(spec_push_event(b, event)),
{
    let range = event.range;
    if b.ignored_depth == 0 {
        match event.event {
            SpecMarkdownEvent::Start(tag) => lemma_start(b, tag, range),
            SpecMarkdownEvent::End(kind) => lemma_end(b, kind, range),
            SpecMarkdownEvent::Text(text) => lemma_push_inline(
                b,
                SpecInlineNode { range, kind: SpecInline::Text(text) },
            ),
            SpecMarkdownEvent::Code(code) => lemma_push_inline(
                b,
                SpecInlineNode { range, kind: SpecInline::Code(code) },
            ),
            SpecMarkdownEvent::SoftBreak => lemma_push_inline(
                b,
                SpecInlineNode { range, kind: SpecInline::SoftBreak },
            ),
            SpecMarkdownEvent::HardBreak => lemma_push_inline(
                b,
                SpecInlineNode { range, kind: SpecInline::HardBreak },
            ),
            SpecMarkdownEvent::Rule => lemma_push_block(
                b,
                SpecBlockNode { range, kind: SpecBlock::Divider },
            ),
            _ => {},
        }
    }
}

proof fn lemma_run(b: SpecBuilder, events: Seq<SpecSourcedEvent>)
    requires
        builder_links_allowed(b),
    ensures
        builder_links_allowed(spec_run(b, events)),
    decreases events.len(),
{
    if events.len() > 0 {
        lemma_push_event(b, events[0]);
        if let Ok(next) = spec_push_event(b, events[0]) {
            lemma_run(next, events.drop_first());
        }
    }
}

/// A document keeps only links whose destination the link policy allows
/// (`https`, `http`, `mailto` or `tel`), however deeply they are nested.
pub proof fn law_documents_keep_only_allowed_links(
    source: Seq<char>,
    limits: ParseLimits,
    events: Seq<SpecSourcedEvent>,
)
    ensures
        spec_analyze(source, limits, events).document matches Some(document)
            ==> blocks_links_allowed(document.blocks),
{
    let b = initial_builder(limits);
    assert(blocks_links_allowed(seq![]));
    assert(container_links_allowed(b.stack[0]));
    lemma_run(b, events);
    let done = spec_run(b, events);
    if let Some(blocks) = finished_blocks(done) {
        assert(container_links_allowed(done.stack[0]));
    }
}

} // verus!
