//! The Markdown parser's event stream, as plain values.
//!
//! Resumark lets pulldown-cmark tokenize Markdown and reads its events. The
//! events are carried into the library as the plain types of this module, so
//! that the document builder can be verified over them.
use vstd::prelude::*;

use pulldown_cmark::{DefaultBrokenLinkCallback, OffsetIter};
use std::iter::Peekable;

use crate::diagnostic::SourceRange;
use crate::parser::{
    ParsedTag, ParserLeaf, SpecParserEvent, SpecParserItem, SpecTagDetail, free_of_controls,
    next_event, open_parser, parser_events, parser_items_sound, peek_end_kind,
    peek_heading_attributes, peek_link_destination, peek_list_start, peek_start_kind,
    unread_events,
};
use crate::text::utf8_len;

verus! {

/// The kind of a Markdown element that starts and ends around its content.
#[derive(Debug, Clone, Copy, PartialEq, Eq, Structural)]
pub enum TagKind {
    Paragraph,
    Heading,
    BlockQuote,
    CodeBlock,
    HtmlBlock,
    List,
    Item,
    FootnoteDefinition,
    /// A definition list or one of its titles or definitions.
    DefinitionList,
    /// A table or one of its heads, rows or cells.
    Table,
    Emphasis,
    Strong,
    Strikethrough,
    Superscript,
    Subscript,
    Link,
    Image,
    MetadataBlock,
}

/// The start of an element; the elements whose attributes Resumark reads
/// carry them.
#[derive(Debug, PartialEq, Eq)]
pub enum StartTag {
    /// A heading of level `level`, with the number of identifiers (0 or 1),
    /// classes and other attributes written after it.
    Heading { level: u8, id: bool, classes: usize, attributes: usize },
    /// A list; ordered lists carry their first number.
    List { start: Option<u64> },
    Link { destination: String },
    Other(TagKind),
}

/// One event of the Markdown parser.
#[derive(Debug, PartialEq, Eq)]
pub enum MarkdownEvent {
    Start(StartTag),
    End(TagKind),
    Text(String),
    Code(String),
    InlineMath,
    DisplayMath,
    Html,
    InlineHtml,
    FootnoteReference,
    SoftBreak,
    HardBreak,
    Rule,
    TaskListMarker,
}

/// A parser event and the source bytes that produced it.
#[derive(Debug, PartialEq, Eq)]
pub struct SourcedEvent {
    pub event: MarkdownEvent,
    pub range: SourceRange,
}

/// The value of a [`StartTag`].
pub enum SpecStartTag {
    Heading { level: u8, id: bool, classes: usize, attributes: usize },
    List { start: Option<u64> },
    Link { destination: Seq<char> },
    Other(TagKind),
}

/// The value of a [`MarkdownEvent`].
pub enum SpecMarkdownEvent {
    Start(SpecStartTag),
    End(TagKind),
    Text(Seq<char>),
    Code(Seq<char>),
    InlineMath,
    DisplayMath,
    Html,
    InlineHtml,
    FootnoteReference,
    SoftBreak,
    HardBreak,
    Rule,
    TaskListMarker,
}

/// The value of a [`SourcedEvent`].
pub struct SpecSourcedEvent {
    pub event: SpecMarkdownEvent,
    pub range: SourceRange,
}

impl View for StartTag {
    type V = SpecStartTag;

    open spec fn view(&self) -> SpecStartTag {
        match self {
            StartTag::Heading { level, id, classes, attributes } => SpecStartTag::Heading {
                level: *level,
                id: *id,
                classes: *classes,
                attributes: *attributes,
            },
            StartTag::List { start } => SpecStartTag::List { start: *start },
            StartTag::Link { destination } => SpecStartTag::Link { destination: destination@ },
            StartTag::Other(kind) => SpecStartTag::Other(*kind),
        }
    }
}

impl View for MarkdownEvent {
    type V = SpecMarkdownEvent;

    open spec fn view(&self) -> SpecMarkdownEvent {
        match self {
            MarkdownEvent::Start(tag) => SpecMarkdownEvent::Start(tag@),
            MarkdownEvent::End(kind) => SpecMarkdownEvent::End(*kind),
            MarkdownEvent::Text(text) => SpecMarkdownEvent::Text(text@),
            MarkdownEvent::Code(code) => SpecMarkdownEvent::Code(code@),
            MarkdownEvent::InlineMath => SpecMarkdownEvent::InlineMath,
            MarkdownEvent::DisplayMath => SpecMarkdownEvent::DisplayMath,
            MarkdownEvent::Html => SpecMarkdownEvent::Html,
            MarkdownEvent::InlineHtml => SpecMarkdownEvent::InlineHtml,
            MarkdownEvent::FootnoteReference => SpecMarkdownEvent::FootnoteReference,
            MarkdownEvent::SoftBreak => SpecMarkdownEvent::SoftBreak,
            MarkdownEvent::HardBreak => SpecMarkdownEvent::HardBreak,
            MarkdownEvent::Rule => SpecMarkdownEvent::Rule,
            MarkdownEvent::TaskListMarker => SpecMarkdownEvent::TaskListMarker,
        }
    }
}

impl View for SourcedEvent {
    type V = SpecSourcedEvent;

    open spec fn view(&self) -> SpecSourcedEvent {
        SpecSourcedEvent { event: self.event@, range: self.range }
    }
}

/// The views of a sequence of events.
pub open spec fn events_view(events: Seq<SourcedEvent>) -> Seq<SpecSourcedEvent> {
    events.map_values(|e: SourcedEvent| e@)
}

/// Whether every heading start in `events` has a level from 1 through 6,
/// as every stream from the parser does.
pub open spec fn heading_levels_valid(events: Seq<SpecSourcedEvent>) -> bool {
    forall|i: int| 0 <= i < events.len() ==> heading_level_valid(#[trigger] events[i])
}

/// Whether `event`, if it starts a heading, has a level from 1 through 6.
pub open spec fn heading_level_valid(event: SpecSourcedEvent) -> bool {
    match event.event {
        SpecMarkdownEvent::Start(SpecStartTag::Heading { level, .. }) => 1 <= level <= 6,
        _ => true,
    }
}

/// How Resumark classifies a parser tag: the parts of a table are one kind,
/// and so are the parts of a definition list.
pub open spec fn tag_kind_of(tag: ParsedTag) -> TagKind {
    match tag {
        ParsedTag::Paragraph => TagKind::Paragraph,
        ParsedTag::Heading(_) => TagKind::Heading,
        ParsedTag::BlockQuote => TagKind::BlockQuote,
        ParsedTag::CodeBlock => TagKind::CodeBlock,
        ParsedTag::HtmlBlock => TagKind::HtmlBlock,
        ParsedTag::List => TagKind::List,
        ParsedTag::Item => TagKind::Item,
        ParsedTag::FootnoteDefinition => TagKind::FootnoteDefinition,
        ParsedTag::DefinitionList => TagKind::DefinitionList,
        ParsedTag::DefinitionListTitle => TagKind::DefinitionList,
        ParsedTag::DefinitionListDefinition => TagKind::DefinitionList,
        ParsedTag::Table => TagKind::Table,
        ParsedTag::TableHead => TagKind::Table,
        ParsedTag::TableRow => TagKind::Table,
        ParsedTag::TableCell => TagKind::Table,
        ParsedTag::Emphasis => TagKind::Emphasis,
        ParsedTag::Strong => TagKind::Strong,
        ParsedTag::Strikethrough => TagKind::Strikethrough,
        ParsedTag::Superscript => TagKind::Superscript,
        ParsedTag::Subscript => TagKind::Subscript,
        ParsedTag::Link => TagKind::Link,
        ParsedTag::Image => TagKind::Image,
        ParsedTag::MetadataBlock => TagKind::MetadataBlock,
    }
}

/// How Resumark classifies a parser tag.
fn tag_kind(tag: ParsedTag) -> (kind: TagKind)
    ensures
        kind == tag_kind_of(tag),
{
    match tag {
        ParsedTag::Paragraph => TagKind::Paragraph,
        ParsedTag::Heading(_) => TagKind::Heading,
        ParsedTag::BlockQuote => TagKind::BlockQuote,
        ParsedTag::CodeBlock => TagKind::CodeBlock,
        ParsedTag::HtmlBlock => TagKind::HtmlBlock,
        ParsedTag::List => TagKind::List,
        ParsedTag::Item => TagKind::Item,
        ParsedTag::FootnoteDefinition => TagKind::FootnoteDefinition,
        ParsedTag::DefinitionList | ParsedTag::DefinitionListTitle
        | ParsedTag::DefinitionListDefinition => TagKind::DefinitionList,
        ParsedTag::Table | ParsedTag::TableHead | ParsedTag::TableRow | ParsedTag::TableCell => {
            TagKind::Table
        },
        ParsedTag::Emphasis => TagKind::Emphasis,
        ParsedTag::Strong => TagKind::Strong,
        ParsedTag::Strikethrough => TagKind::Strikethrough,
        ParsedTag::Superscript => TagKind::Superscript,
        ParsedTag::Subscript => TagKind::Subscript,
        ParsedTag::Link => TagKind::Link,
        ParsedTag::Image => TagKind::Image,
        ParsedTag::MetadataBlock => TagKind::MetadataBlock,
    }
}

/// The heading level of a tag kind, or 0 for other kinds.
pub open spec fn level_of(kind: ParsedTag) -> u8 {
    match kind {
        ParsedTag::Heading(level) => level,
        _ => 0,
    }
}

/// What Resumark reads of a start tag: a heading's level and how many
/// identifiers, classes and other attributes it has; a list's first number;
/// a link's destination; otherwise the tag's kind.
pub open spec fn start_tag_of(kind: ParsedTag, detail: SpecTagDetail) -> SpecStartTag {
    match detail {
        SpecTagDetail::Heading { id, classes, attributes } => SpecStartTag::Heading {
            level: level_of(kind),
            id: id is Some,
            classes: classes.len() as usize,
            attributes: attributes.len() as usize,
        },
        SpecTagDetail::List(start) => SpecStartTag::List { start },
        SpecTagDetail::Link(destination) => SpecStartTag::Link { destination },
        SpecTagDetail::Plain => SpecStartTag::Other(tag_kind_of(kind)),
    }
}

/// What Resumark reads of one parser event.
pub open spec fn event_of(event: SpecParserEvent) -> SpecMarkdownEvent {
    match event {
        SpecParserEvent::Start { kind, detail } => SpecMarkdownEvent::Start(start_tag_of(kind, detail)),
        SpecParserEvent::End(kind) => SpecMarkdownEvent::End(tag_kind_of(kind)),
        SpecParserEvent::Text(text) => SpecMarkdownEvent::Text(text),
        SpecParserEvent::Code(code) => SpecMarkdownEvent::Code(code),
        SpecParserEvent::InlineMath(_) => SpecMarkdownEvent::InlineMath,
        SpecParserEvent::DisplayMath(_) => SpecMarkdownEvent::DisplayMath,
        SpecParserEvent::Html(_) => SpecMarkdownEvent::Html,
        SpecParserEvent::InlineHtml(_) => SpecMarkdownEvent::InlineHtml,
        SpecParserEvent::FootnoteReference(_) => SpecMarkdownEvent::FootnoteReference,
        SpecParserEvent::SoftBreak => SpecMarkdownEvent::SoftBreak,
        SpecParserEvent::HardBreak => SpecMarkdownEvent::HardBreak,
        SpecParserEvent::Rule => SpecMarkdownEvent::Rule,
        SpecParserEvent::TaskListMarker(_) => SpecMarkdownEvent::TaskListMarker,
    }
}

/// What Resumark reads of one parser event and its range.
pub open spec fn sourced_event(item: SpecParserItem) -> SpecSourcedEvent {
    SpecSourcedEvent { event: event_of(item.event), range: item.range }
}

/// The events Resumark reads from pulldown-cmark for `source`.
pub open spec fn markdown_event_values(source: Seq<char>) -> Seq<SpecSourcedEvent> {
    parser_events(source).map_values(|item: SpecParserItem| sourced_event(item))
}

/// Whether every event's range lies within `length` bytes.
pub open spec fn ranges_within(events: Seq<SpecSourcedEvent>, length: nat) -> bool {
    forall|i: int|
        0 <= i < events.len() ==> (#[trigger] events[i]).range.start <= events[i].range.end
            <= length
}

/// What Resumark reads of a start tag of `kind`, given which of the details
/// the tag carries.
fn start_tag(
    kind: ParsedTag,
    heading: Option<crate::parser::HeadingAttributes>,
    list: Option<Option<u64>>,
    link: Option<String>,
    Ghost(detail): Ghost<SpecTagDetail>,
) -> (tag: StartTag)
    requires
        match heading {
            Some(h) => detail == (SpecTagDetail::Heading {
                id: crate::parser::optional_text(h.id),
                classes: crate::parser::texts_view(h.classes@),
                attributes: crate::parser::pairs_view(h.attributes@),
            }),
            None => !(detail is Heading),
        },
        match list {
            Some(start) => detail == SpecTagDetail::List(start),
            None => !(detail is List),
        },
        match link {
            Some(destination) => detail == SpecTagDetail::Link(destination@),
            None => !(detail is Link),
        },
    ensures
        tag@ == start_tag_of(kind, detail),
{
    let level: u8 = match kind {
        ParsedTag::Heading(level) => level,
        _ => 0,
    };
    match heading {
        Some(h) => StartTag::Heading {
            level,
            id: h.id.is_some(),
            classes: h.classes.len(),
            attributes: h.attributes.len(),
        },
        None => match list {
            Some(start) => StartTag::List { start },
            None => match link {
                Some(destination) => StartTag::Link { destination },
                None => StartTag::Other(tag_kind(kind)),
            },
        },
    }
}

/// Reads the next parser event.
fn read_event(stream: &mut Peekable<OffsetIter<'_, DefaultBrokenLinkCallback>>) -> (event: Option<
    SourcedEvent,
>)
    ensures
        match event {
            Some(e) => {
                &&& unread_events(*old(stream)).len() > 0
                &&& unread_events(*final(stream)) == unread_events(*old(stream)).drop_first()
                &&& e@ == sourced_event(unread_events(*old(stream))[0])
            },
            None => unread_events(*old(stream)).len() == 0 && unread_events(*final(stream))
                == unread_events(*old(stream)),
        },
{
    let ghost unread = unread_events(*stream);
    let start_kind = peek_start_kind(stream);
    let end_kind = peek_end_kind(stream);
    let heading = peek_heading_attributes(stream);
    let list = peek_list_start(stream);
    let link = peek_link_destination(stream);
    match next_event(stream) {
        None => None,
        Some((leaf, range)) => {
            let ghost first = unread[0].event;
            let event = match leaf {
                ParserLeaf::Start => {
                    let kind = match start_kind {
                        Some(kind) => kind,
                        None => ParsedTag::Paragraph,
                    };
                    let ghost detail = match first {
                        SpecParserEvent::Start { detail, .. } => detail,
                        _ => SpecTagDetail::Plain,
                    };
                    MarkdownEvent::Start(start_tag(kind, heading, list, link, Ghost(detail)))
                },
                ParserLeaf::End => {
                    let kind = match end_kind {
                        Some(kind) => kind,
                        None => ParsedTag::Paragraph,
                    };
                    MarkdownEvent::End(tag_kind(kind))
                },
                ParserLeaf::Text(text) => MarkdownEvent::Text(text),
                ParserLeaf::Code(code) => MarkdownEvent::Code(code),
                ParserLeaf::InlineMath(_) => MarkdownEvent::InlineMath,
                ParserLeaf::DisplayMath(_) => MarkdownEvent::DisplayMath,
                ParserLeaf::Html(_) => MarkdownEvent::Html,
                ParserLeaf::InlineHtml(_) => MarkdownEvent::InlineHtml,
                ParserLeaf::FootnoteReference(_) => MarkdownEvent::FootnoteReference,
                ParserLeaf::SoftBreak => MarkdownEvent::SoftBreak,
                ParserLeaf::HardBreak => MarkdownEvent::HardBreak,
                ParserLeaf::Rule => MarkdownEvent::Rule,
                ParserLeaf::TaskListMarker(_) => MarkdownEvent::TaskListMarker,
            };
            Some(SourcedEvent { event, range })
        },
    }
}

/// pulldown-cmark's events for `source`, as Resumark reads them, in order,
/// with their byte ranges. The source holds no disallowed control
/// character: those are refused before parsing.
pub fn markdown_events(source: &str) -> (events: Vec<SourcedEvent>)
    requires
        free_of_controls(source@),
    ensures
        events_view(events@) == markdown_event_values(source@),
        heading_levels_valid(events_view(events@)),
        ranges_within(events_view(events@), utf8_len(source@)),
{
    let mut stream = open_parser(source);
    let ghost all = parser_events(source@);
    let mut events: Vec<SourcedEvent> = Vec::new();
    proof {
        assert(all.skip(0) =~= all);
    }
    loop
        invariant
            all == parser_events(source@),
            parser_items_sound(all, utf8_len(source@)),
            events@.len() <= all.len(),
            unread_events(stream) == all.skip(events@.len() as int),
            events_view(events@) == all.take(events@.len() as int).map_values(
                |item: SpecParserItem| sourced_event(item),
            ),
        ensures
            events@.len() == all.len(),
            events_view(events@) == all.take(events@.len() as int).map_values(
                |item: SpecParserItem| sourced_event(item),
            ),
        decreases all.len() - events@.len(),
    {
        let ghost k = events@.len() as int;
        match read_event(&mut stream) {
            None => {
                break;
            },
            Some(event) => {
                proof {
                    assert(all.skip(k)[0] == all[k]);
                    assert(all.skip(k).drop_first() =~= all.skip(k + 1));
                }
                let ghost before = events_view(events@);
                events.push(event);
                proof {
                    assert(events_view(events@) =~= before.push(event@));
                    assert(all.take(k + 1).map_values(|item: SpecParserItem| sourced_event(item))
                        =~= all.take(k).map_values(|item: SpecParserItem| sourced_event(item)).push(
                        sourced_event(all[k]),
                    ));
                }
            },
        }
    }
    proof {
        let values = markdown_event_values(source@);
        assert(all.take(all.len() as int) =~= all);
        assert(events_view(events@) =~= values);
        assert forall|i: int| 0 <= i < values.len() implies heading_level_valid(
            #[trigger] values[i],
        ) by {
            assert(values[i] == sourced_event(all[i]));
            assert(crate::parser::parser_event_sound(all[i].event));
        }
        assert forall|i: int| 0 <= i < values.len() implies (#[trigger] values[i]).range.start
            <= values[i].range.end <= utf8_len(source@) by {
            assert(values[i] == sourced_event(all[i]));
        }
    }
    events
}

} // verus!
