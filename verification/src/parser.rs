//! pulldown-cmark's event stream, read one event at a time as plain values.
//!
//! The parser runs with the extensions Resumark recognizes in order to
//! diagnose them. Its events are named as plain values (`parser_events`) and
//! handed out by small readers, each of which converts one part of the next
//! event: its tag kind, the attributes of a heading, the start of a list, the
//! destination of a link, and the event itself.
use vstd::prelude::*;

use pulldown_cmark::{DefaultBrokenLinkCallback, OffsetIter, Options, Parser};
use pulldown_cmark::Event as E;
use pulldown_cmark::Tag as T;
use pulldown_cmark::TagEnd as TE;
use std::iter::Peekable;

use self::ParsedTag::{
    BlockQuote, CodeBlock, DefinitionList, DefinitionListDefinition, DefinitionListTitle, Emphasis,
    FootnoteDefinition, Heading, HtmlBlock, Image, Item, Link, List, MetadataBlock, Paragraph,
    Strikethrough, Strong, Subscript, Superscript, Table, TableCell, TableHead, TableRow,
};
use self::ParserLeaf::{
    Code, DisplayMath, End, FootnoteReference, HardBreak, Html, InlineHtml, InlineMath, Rule,
    SoftBreak, Start, TaskListMarker, Text,
};
use crate::diagnostic::SourceRange;
use crate::markdown::is_disallowed_control;
use crate::text::utf8_len;

verus! {

#[verifier::external_type_specification]
#[verifier::external_body]
#[verifier::reject_recursive_types(F)]
pub struct ExOffsetIter<'a, F>(OffsetIter<'a, F>);

#[verifier::external_type_specification]
#[verifier::external_body]
pub struct ExDefaultBrokenLinkCallback(DefaultBrokenLinkCallback);

#[verifier::external_type_specification]
#[verifier::external_body]
#[verifier::reject_recursive_types(I)]
pub struct ExPeekable<I: Iterator>(Peekable<I>);

/// The kind of a tag, one variant for each variant of pulldown-cmark's
/// `TagEnd`; a heading carries its level, 1 through 6.
#[derive(Debug, Clone, Copy, PartialEq, Eq, Structural)]
pub enum ParsedTag {
    Paragraph,
    Heading(u8),
    BlockQuote,
    CodeBlock,
    HtmlBlock,
    List,
    Item,
    FootnoteDefinition,
    DefinitionList,
    DefinitionListTitle,
    DefinitionListDefinition,
    Table,
    TableHead,
    TableRow,
    TableCell,
    Emphasis,
    Strong,
    Strikethrough,
    Superscript,
    Subscript,
    Link,
    Image,
    MetadataBlock,
}

/// The attributes of a start tag that Resumark reads: a heading's
/// identifier, classes and other attributes, a list's first number, a
/// link's destination.
pub enum SpecTagDetail {
    Plain,
    Heading {
        id: Option<Seq<char>>,
        classes: Seq<Seq<char>>,
        attributes: Seq<(Seq<char>, Option<Seq<char>>)>,
    },
    List(Option<u64>),
    Link(Seq<char>),
}

/// One of pulldown-cmark's events as plain values: a start tag is its kind
/// (the kind of its end) and its details; text-carrying events keep their
/// text.
pub enum SpecParserEvent {
    Start { kind: ParsedTag, detail: SpecTagDetail },
    End(ParsedTag),
    Text(Seq<char>),
    Code(Seq<char>),
    InlineMath(Seq<char>),
    DisplayMath(Seq<char>),
    Html(Seq<char>),
    InlineHtml(Seq<char>),
    FootnoteReference(Seq<char>),
    SoftBreak,
    HardBreak,
    Rule,
    TaskListMarker(bool),
}

/// An event and the byte range of the source that produced it.
pub struct SpecParserItem {
    pub event: SpecParserEvent,
    pub range: SourceRange,
}

/// The events, with their byte ranges, that pulldown-cmark reports for
/// `source` with the extensions Resumark enables, in order.
pub uninterp spec fn parser_events(source: Seq<char>) -> Seq<SpecParserItem>;

/// The events that `stream` has not handed out yet, in order.
pub uninterp spec fn unread_events(stream: Peekable<OffsetIter<'_, DefaultBrokenLinkCallback>>) -> Seq<
    SpecParserItem,
>;

/// Whether `source` holds none of the control characters that Resumark
/// refuses before parsing.
pub open spec fn free_of_controls(source: Seq<char>) -> bool {
    forall|i: int| 0 <= i < source.len() ==> !is_disallowed_control(#[trigger] source[i])
}

/// What pulldown-cmark's types guarantee of one event: heading levels lie in
/// 1 through 6, and a start tag carries the details of its own kind.
pub open spec fn parser_event_sound(event: SpecParserEvent) -> bool {
    match event {
        SpecParserEvent::Start { kind, detail } => {
            &&& (kind matches ParsedTag::Heading(level) ==> 1 <= level <= 6)
            &&& (detail is Heading <==> kind is Heading)
            &&& (detail is List <==> kind is List)
            &&& (detail is Link <==> kind is Link)
        },
        SpecParserEvent::End(kind) => kind matches ParsedTag::Heading(level) ==> 1 <= level <= 6,
        _ => true,
    }
}

/// Whether every event is sound and every range lies within `length` bytes.
pub open spec fn parser_items_sound(items: Seq<SpecParserItem>, length: nat) -> bool {
    forall|i: int|
        0 <= i < items.len() ==> {
            &&& parser_event_sound(#[trigger] items[i].event)
            &&& items[i].range.start <= items[i].range.end <= length
        }
}

/// The kind of the first event's start tag, if the first event starts one.
pub open spec fn front_start_kind(items: Seq<SpecParserItem>) -> Option<ParsedTag> {
    if items.len() == 0 {
        None
    } else {
        match items[0].event {
            SpecParserEvent::Start { kind, .. } => Some(kind),
            _ => None,
        }
    }
}

/// Starts pulldown-cmark (`Parser::new_ext`, `into_offset_iter`) on `source`
/// and makes the event stream peekable (`Iterator::peekable`).
///
/// The contract names the events that the stream will hand out
/// (`parser_events`, a function of the source alone, since the options are
/// fixed) and states what pulldown-cmark's documentation and types give of
/// them: ranges lie within the source (`into_offset_iter` maps each event to
/// its range in the source), heading levels are `H1` through `H6`, and a start
/// tag's kind is its `Tag::to_end`. The source holds no disallowed control
/// character: Resumark refuses those before it starts the parser.
#[verifier::external_body]
pub(crate) fn open_parser(source: &str) -> (stream: Peekable<OffsetIter<'_, DefaultBrokenLinkCallback>>)
    requires
        free_of_controls(source@),
    ensures
        unread_events(stream) == parser_events(source@),
        parser_items_sound(unread_events(stream), utf8_len(source@)),
{
    let options = Options::ENABLE_TABLES | Options::ENABLE_FOOTNOTES
        | Options::ENABLE_STRIKETHROUGH | Options::ENABLE_TASKLISTS
        | Options::ENABLE_HEADING_ATTRIBUTES | Options::ENABLE_YAML_STYLE_METADATA_BLOCKS
        | Options::ENABLE_PLUSES_DELIMITED_METADATA_BLOCKS | Options::ENABLE_MATH
        | Options::ENABLE_DEFINITION_LIST | Options::ENABLE_SUPERSCRIPT
        | Options::ENABLE_SUBSCRIPT | Options::ENABLE_WIKILINKS;
    Parser::new_ext(source, options).into_offset_iter().peekable()
}

/// The kind of the next event's start tag, if the next event starts a tag:
/// `Iterator::peek`, then `Tag::to_end`, one arm for each `TagEnd` variant.
#[verifier::external_body]
pub(crate) fn peek_start_kind(stream: &mut Peekable<OffsetIter<'_, DefaultBrokenLinkCallback>>) -> (kind:
    Option<ParsedTag>)
    ensures
        unread_events(*final(stream)) == unread_events(*old(stream)),
        kind == front_start_kind(unread_events(*old(stream))),
{
    match stream.peek() {
        Some((E::Start(tag), _)) => Some(match tag.to_end() {
            TE::Paragraph => Paragraph, TE::Heading(level) => Heading(level as u8),
            TE::BlockQuote(_) => BlockQuote, TE::CodeBlock => CodeBlock, TE::HtmlBlock => HtmlBlock,
            TE::List(_) => List, TE::Item => Item, TE::FootnoteDefinition => FootnoteDefinition,
            TE::DefinitionList => DefinitionList, TE::DefinitionListTitle => DefinitionListTitle,
            TE::DefinitionListDefinition => DefinitionListDefinition, TE::Table => Table,
            TE::TableHead => TableHead, TE::TableRow => TableRow, TE::TableCell => TableCell,
            TE::Emphasis => Emphasis, TE::Strong => Strong, TE::Strikethrough => Strikethrough,
            TE::Superscript => Superscript, TE::Subscript => Subscript, TE::Link => Link,
            TE::Image => Image, TE::MetadataBlock(_) => MetadataBlock,
        }),
        _ => None,
    }
}

/// The kind of the first event's end tag, if the first event ends one.
pub open spec fn front_end_kind(items: Seq<SpecParserItem>) -> Option<ParsedTag> {
    if items.len() == 0 {
        None
    } else {
        match items[0].event {
            SpecParserEvent::End(kind) => Some(kind),
            _ => None,
        }
    }
}

/// The kind of the next event's end tag, if the next event ends a tag:
/// `Iterator::peek`, one arm for each `TagEnd` variant.
#[verifier::external_body]
pub(crate) fn peek_end_kind(stream: &mut Peekable<OffsetIter<'_, DefaultBrokenLinkCallback>>) -> (kind:
    Option<ParsedTag>)
    ensures
        unread_events(*final(stream)) == unread_events(*old(stream)),
        kind == front_end_kind(unread_events(*old(stream))),
{
    match stream.peek() {
        Some((E::End(tag), _)) => Some(match *tag {
            TE::Paragraph => Paragraph, TE::Heading(level) => Heading(level as u8),
            TE::BlockQuote(_) => BlockQuote, TE::CodeBlock => CodeBlock, TE::HtmlBlock => HtmlBlock,
            TE::List(_) => List, TE::Item => Item, TE::FootnoteDefinition => FootnoteDefinition,
            TE::DefinitionList => DefinitionList, TE::DefinitionListTitle => DefinitionListTitle,
            TE::DefinitionListDefinition => DefinitionListDefinition, TE::Table => Table,
            TE::TableHead => TableHead, TE::TableRow => TableRow, TE::TableCell => TableCell,
            TE::Emphasis => Emphasis, TE::Strong => Strong, TE::Strikethrough => Strikethrough,
            TE::Superscript => Superscript, TE::Subscript => Subscript, TE::Link => Link,
            TE::Image => Image, TE::MetadataBlock(_) => MetadataBlock,
        }),
        _ => None,
    }
}

/// A heading's identifier, classes and other attributes (each a name and an
/// optional value), as written after the heading.
pub struct HeadingAttributes {
    pub id: Option<String>,
    pub classes: Vec<String>,
    pub attributes: Vec<(String, Option<String>)>,
}

pub open spec fn optional_text(text: Option<String>) -> Option<Seq<char>> {
    match text {
        Some(t) => Some(t@),
        None => None,
    }
}

pub open spec fn texts_view(texts: Seq<String>) -> Seq<Seq<char>> {
    texts.map_values(|t: String| t@)
}

pub open spec fn pairs_view(pairs: Seq<(String, Option<String>)>) -> Seq<(Seq<char>, Option<Seq<char>>)> {
    pairs.map_values(|p: (String, Option<String>)| (p.0@, optional_text(p.1)))
}

/// The details of the first event's start tag.
pub open spec fn front_detail(items: Seq<SpecParserItem>) -> SpecTagDetail {
    if items.len() == 0 {
        SpecTagDetail::Plain
    } else {
        match items[0].event {
            SpecParserEvent::Start { detail, .. } => detail,
            _ => SpecTagDetail::Plain,
        }
    }
}

/// The attributes of the next event's heading start, if it starts a
/// heading: `Iterator::peek`, with each `CowStr` turned into a `String`.
#[verifier::external_body]
pub(crate) fn peek_heading_attributes(
    stream: &mut Peekable<OffsetIter<'_, DefaultBrokenLinkCallback>>,
) -> (found: Option<HeadingAttributes>)
    ensures
        unread_events(*final(stream)) == unread_events(*old(stream)),
        match found {
            Some(h) => front_detail(unread_events(*old(stream))) == (SpecTagDetail::Heading {
                id: optional_text(h.id),
                classes: texts_view(h.classes@),
                attributes: pairs_view(h.attributes@),
            }),
            None => !(front_detail(unread_events(*old(stream))) is Heading),
        },
{
    match stream.peek() {
        Some((E::Start(T::Heading { id, classes, attrs, .. }), _)) => Some(HeadingAttributes {
            id: id.as_ref().map(|id| id.to_string()),
            classes: classes.iter().map(|class| class.to_string()).collect(),
            attributes: attrs.iter().map(|(name, value)| {
                (name.to_string(), value.as_ref().map(|value| value.to_string()))
            }).collect(),
        }),
        _ => None,
    }
}

/// The first number of the next event's list start, if it starts a list:
/// `Iterator::peek`.
#[verifier::external_body]
pub(crate) fn peek_list_start(stream: &mut Peekable<OffsetIter<'_, DefaultBrokenLinkCallback>>) -> (found:
    Option<Option<u64>>)
    ensures
        unread_events(*final(stream)) == unread_events(*old(stream)),
        match found {
            Some(start) => front_detail(unread_events(*old(stream))) == SpecTagDetail::List(start),
            None => !(front_detail(unread_events(*old(stream))) is List),
        },
{
    match stream.peek() {
        Some((E::Start(T::List(start)), _)) => Some(*start),
        _ => None,
    }
}

/// The destination of the next event's link start, if it starts a link:
/// `Iterator::peek`, with `CowStr` turned into a `String`.
#[verifier::external_body]
pub(crate) fn peek_link_destination(stream: &mut Peekable<OffsetIter<'_, DefaultBrokenLinkCallback>>) -> (found:
    Option<String>)
    ensures
        unread_events(*final(stream)) == unread_events(*old(stream)),
        match found {
            Some(destination) => front_detail(unread_events(*old(stream))) == SpecTagDetail::Link(
                destination@,
            ),
            None => !(front_detail(unread_events(*old(stream))) is Link),
        },
{
    match stream.peek() {
        Some((E::Start(T::Link { dest_url, .. }), _)) => Some(dest_url.to_string()),
        _ => None,
    }
}

/// An event without the details of its tag.
pub enum ParserLeaf {
    Start,
    End,
    Text(String),
    Code(String),
    InlineMath(String),
    DisplayMath(String),
    Html(String),
    InlineHtml(String),
    FootnoteReference(String),
    SoftBreak,
    HardBreak,
    Rule,
    TaskListMarker(bool),
}

/// Whether `leaf` is `event` without the details of its tag.
pub open spec fn leaf_of(leaf: ParserLeaf, event: SpecParserEvent) -> bool {
    match (leaf, event) {
        (ParserLeaf::Start, SpecParserEvent::Start { .. }) => true,
        (ParserLeaf::End, SpecParserEvent::End(_)) => true,
        (ParserLeaf::Text(a), SpecParserEvent::Text(b)) => a@ == b,
        (ParserLeaf::Code(a), SpecParserEvent::Code(b)) => a@ == b,
        (ParserLeaf::InlineMath(a), SpecParserEvent::InlineMath(b)) => a@ == b,
        (ParserLeaf::DisplayMath(a), SpecParserEvent::DisplayMath(b)) => a@ == b,
        (ParserLeaf::Html(a), SpecParserEvent::Html(b)) => a@ == b,
        (ParserLeaf::InlineHtml(a), SpecParserEvent::InlineHtml(b)) => a@ == b,
        (ParserLeaf::FootnoteReference(a), SpecParserEvent::FootnoteReference(b)) => a@ == b,
        (ParserLeaf::SoftBreak, SpecParserEvent::SoftBreak) => true,
        (ParserLeaf::HardBreak, SpecParserEvent::HardBreak) => true,
        (ParserLeaf::Rule, SpecParserEvent::Rule) => true,
        (ParserLeaf::TaskListMarker(a), SpecParserEvent::TaskListMarker(b)) => a == b,
        _ => false,
    }
}

/// Hands out the next event (`Iterator::next`), one arm for each `Event`
/// variant, with `CowStr` turned into a `String` and the range into a
/// `SourceRange`.
#[verifier::external_body]
pub(crate) fn next_event(stream: &mut Peekable<OffsetIter<'_, DefaultBrokenLinkCallback>>) -> (next:
    Option<(ParserLeaf, SourceRange)>)
    ensures
        match next {
            Some((leaf, range)) => {
                &&& unread_events(*old(stream)).len() > 0
                &&& unread_events(*final(stream)) == unread_events(*old(stream)).drop_first()
                &&& leaf_of(leaf, unread_events(*old(stream))[0].event)
                &&& range == unread_events(*old(stream))[0].range
            },
            None => unread_events(*old(stream)).len() == 0 && unread_events(*final(stream))
                == unread_events(*old(stream)),
        },
{
    stream.next().map(|(event, range)| (match event {
        E::Start(_) => Start, E::End(_) => End, E::Text(text) => Text(text.to_string()),
        E::Code(code) => Code(code.to_string()), E::InlineMath(math) => InlineMath(math.to_string()),
        E::DisplayMath(math) => DisplayMath(math.to_string()), E::Html(html) => Html(html.to_string()),
        E::InlineHtml(html) => InlineHtml(html.to_string()),
        E::FootnoteReference(label) => FootnoteReference(label.to_string()),
        E::SoftBreak => SoftBreak, E::HardBreak => HardBreak, E::Rule => Rule,
        E::TaskListMarker(checked) => TaskListMarker(checked),
    }, SourceRange::new(range.start, range.end)))
}

} // verus!
