//! The renderer-independent document model produced from one Markdown source.
use vstd::prelude::*;

use crate::diagnostic::SourceRange;
use crate::text::{ascii_lowercase, chars_of, decimal, lower_range_equals, push_char, push_decimal, push_str, string_from_range};

verus! {

/// A complete renderer input produced from one Markdown source document.
#[derive(Debug, PartialEq, Eq)]
pub struct RenderDocument {
    pub metadata: DocumentMetadata,
    pub blocks: Vec<BlockNode>,
}

/// Document-level values that do not belong to a particular rendered block.
#[derive(Debug, Clone, PartialEq, Eq)]
pub struct DocumentMetadata {
    pub title: String,
}

/// A block and the Markdown bytes that produced it.
#[derive(Debug, PartialEq, Eq)]
pub struct BlockNode {
    pub range: SourceRange,
    pub kind: Block,
}

/// A block-level element in source order.
#[derive(Debug, PartialEq, Eq)]
pub enum Block {
    Heading { level: HeadingLevel, content: Vec<InlineNode> },
    Paragraph { content: Vec<InlineNode> },
    List { list_kind: ListKind, items: Vec<ListItem> },
    Divider,
}

/// A valid Markdown heading level.
#[derive(Debug, Clone, Copy, PartialEq, Eq, Structural)]
pub enum HeadingLevel {
    One,
    Two,
    Three,
    Four,
    Five,
    Six,
}

/// An invalid numeric Markdown heading level.
#[derive(Debug, Clone, Copy, PartialEq, Eq)]
pub struct InvalidHeadingLevel(u8);

/// Whether a Markdown list is unordered or begins at a particular number.
#[derive(Debug, Clone, Copy, PartialEq, Eq, Structural)]
pub enum ListKind {
    Unordered,
    Ordered { start: u64 },
}

/// One list item, which can itself contain paragraphs or nested lists.
#[derive(Debug, PartialEq, Eq)]
pub struct ListItem {
    pub range: SourceRange,
    pub blocks: Vec<BlockNode>,
}

/// Inline content and the Markdown bytes that produced it.
#[derive(Debug, PartialEq, Eq)]
pub struct InlineNode {
    pub range: SourceRange,
    pub kind: Inline,
}

/// Inline content nested inside a heading or paragraph.
#[derive(Debug, PartialEq, Eq)]
pub enum Inline {
    Text { value: String },
    Strong { content: Vec<InlineNode> },
    Emphasis { content: Vec<InlineNode> },
    Link { destination: LinkTarget, label: Vec<InlineNode> },
    Code { value: String },
    SoftBreak,
    HardBreak,
}

/// A link destination whose scheme is allowed by Resumark's Markdown policy.
#[derive(Debug, Clone, PartialEq, Eq)]
pub struct LinkTarget(String);

/// Why a string cannot be used as a Resumark link destination.
#[derive(Debug, Clone, PartialEq, Eq)]
pub enum InvalidLinkTarget {
    MissingScheme,
    DisallowedScheme(String),
}

// ---------------------------------------------------------------------------
// The value of the model, with text as character sequences and vectors as
// sequences.
/// The value of an [`InlineNode`].
pub struct SpecInlineNode {
    pub range: SourceRange,
    pub kind: SpecInline,
}

/// The value of an [`Inline`].
pub enum SpecInline {
    Text(Seq<char>),
    Strong(Seq<SpecInlineNode>),
    Emphasis(Seq<SpecInlineNode>),
    Link { destination: Seq<char>, label: Seq<SpecInlineNode> },
    Code(Seq<char>),
    SoftBreak,
    HardBreak,
}

/// The value of a [`BlockNode`].
pub struct SpecBlockNode {
    pub range: SourceRange,
    pub kind: SpecBlock,
}

/// The value of a [`Block`].
pub enum SpecBlock {
    Heading { level: HeadingLevel, content: Seq<SpecInlineNode> },
    Paragraph(Seq<SpecInlineNode>),
    List { list_kind: ListKind, items: Seq<SpecListItem> },
    Divider,
}

/// The value of a [`ListItem`].
pub struct SpecListItem {
    pub range: SourceRange,
    pub blocks: Seq<SpecBlockNode>,
}

/// The value of a [`RenderDocument`].
pub struct SpecDocument {
    pub title: Seq<char>,
    pub blocks: Seq<SpecBlockNode>,
}

pub open spec fn inline_node_view(node: InlineNode) -> SpecInlineNode
    decreases node,
{
    SpecInlineNode {
        range: node.range,
        kind: match node.kind {
            Inline::Text { value } => SpecInline::Text(value@),
            Inline::Strong { content } => SpecInline::Strong(inline_nodes_view(content@)),
            Inline::Emphasis { content } => SpecInline::Emphasis(inline_nodes_view(content@)),
            Inline::Link { destination, label } => SpecInline::Link {
                destination: destination.text(),
                label: inline_nodes_view(label@),
            },
            Inline::Code { value } => SpecInline::Code(value@),
            Inline::SoftBreak => SpecInline::SoftBreak,
            Inline::HardBreak => SpecInline::HardBreak,
        },
    }
}

pub open spec fn inline_nodes_view(nodes: Seq<InlineNode>) -> Seq<SpecInlineNode>
    decreases nodes,
{
    if nodes.len() == 0 {
        seq![]
    } else {
        inline_nodes_view(nodes.drop_last()).push(inline_node_view(nodes.last()))
    }
}

pub open spec fn block_node_view(node: BlockNode) -> SpecBlockNode
    decreases node,
{
    SpecBlockNode {
        range: node.range,
        kind: match node.kind {
            Block::Heading { level, content } => SpecBlock::Heading {
                level,
                content: inline_nodes_view(content@),
            },
            Block::Paragraph { content } => SpecBlock::Paragraph(inline_nodes_view(content@)),
            Block::List { list_kind, items } => SpecBlock::List {
                list_kind,
                items: list_items_view(items@),
            },
            Block::Divider => SpecBlock::Divider,
        },
    }
}

pub open spec fn block_nodes_view(nodes: Seq<BlockNode>) -> Seq<SpecBlockNode>
    decreases nodes,
{
    if nodes.len() == 0 {
        seq![]
    } else {
        block_nodes_view(nodes.drop_last()).push(block_node_view(nodes.last()))
    }
}

pub open spec fn list_item_view(item: ListItem) -> SpecListItem
    decreases item,
{
    SpecListItem { range: item.range, blocks: block_nodes_view(item.blocks@) }
}

pub open spec fn list_items_view(items: Seq<ListItem>) -> Seq<SpecListItem>
    decreases items,
{
    if items.len() == 0 {
        seq![]
    } else {
        list_items_view(items.drop_last()).push(list_item_view(items.last()))
    }
}

impl View for InlineNode {
    type V = SpecInlineNode;

    open spec fn view(&self) -> SpecInlineNode {
        inline_node_view(*self)
    }
}

impl View for BlockNode {
    type V = SpecBlockNode;

    open spec fn view(&self) -> SpecBlockNode {
        block_node_view(*self)
    }
}

impl View for ListItem {
    type V = SpecListItem;

    open spec fn view(&self) -> SpecListItem {
        list_item_view(*self)
    }
}

impl View for RenderDocument {
    type V = SpecDocument;

    open spec fn view(&self) -> SpecDocument {
        SpecDocument { title: self.metadata.title@, blocks: block_nodes_view(self.blocks@) }
    }
}

impl LinkTarget {
    /// The destination's characters.
    pub closed spec fn text(self) -> Seq<char> {
        self.0@
    }
}

impl View for LinkTarget {
    type V = Seq<char>;

    open spec fn view(&self) -> Seq<char> {
        self.text()
    }
}

pub proof fn lemma_inline_nodes_view(nodes: Seq<InlineNode>)
    ensures
        inline_nodes_view(nodes).len() == nodes.len(),
        forall|i: int|
            0 <= i < nodes.len() ==> #[trigger] inline_nodes_view(nodes)[i] == inline_node_view(
                nodes[i],
            ),
    decreases nodes.len(),
{
    if nodes.len() > 0 {
        lemma_inline_nodes_view(nodes.drop_last());
    }
}

pub proof fn lemma_block_nodes_view(nodes: Seq<BlockNode>)
    ensures
        block_nodes_view(nodes).len() == nodes.len(),
        forall|i: int|
            0 <= i < nodes.len() ==> #[trigger] block_nodes_view(nodes)[i] == block_node_view(
                nodes[i],
            ),
    decreases nodes.len(),
{
    if nodes.len() > 0 {
        lemma_block_nodes_view(nodes.drop_last());
    }
}

pub proof fn lemma_inline_nodes_view_push(nodes: Seq<InlineNode>, node: InlineNode)
    ensures
        inline_nodes_view(nodes.push(node)) == inline_nodes_view(nodes).push(node@),
{
    assert(nodes.push(node).drop_last() =~= nodes);
}

pub proof fn lemma_block_nodes_view_push(nodes: Seq<BlockNode>, node: BlockNode)
    ensures
        block_nodes_view(nodes.push(node)) == block_nodes_view(nodes).push(node@),
{
    assert(nodes.push(node).drop_last() =~= nodes);
}

pub proof fn lemma_list_items_view_push(items: Seq<ListItem>, item: ListItem)
    ensures
        list_items_view(items.push(item)) == list_items_view(items).push(item@),
{
    assert(items.push(item).drop_last() =~= items);
}

// ---------------------------------------------------------------------------
// Heading levels
impl HeadingLevel {
    /// The heading's number, 1 through 6.
    pub open spec fn number(self) -> u8 {
        match self {
            HeadingLevel::One => 1,
            HeadingLevel::Two => 2,
            HeadingLevel::Three => 3,
            HeadingLevel::Four => 4,
            HeadingLevel::Five => 5,
            HeadingLevel::Six => 6,
        }
    }

    /// The heading's number, 1 through 6.
    pub fn to_number(self) -> (n: u8)
        ensures
            n == self.number(),
            1 <= n <= 6,
    {
        match self {
            HeadingLevel::One => 1,
            HeadingLevel::Two => 2,
            HeadingLevel::Three => 3,
            HeadingLevel::Four => 4,
            HeadingLevel::Five => 5,
            HeadingLevel::Six => 6,
        }
    }

    /// The heading level numbered `level`, which must lie in 1 through 6.
    pub fn from_number(level: u8) -> (result: Result<HeadingLevel, InvalidHeadingLevel>)
        ensures
            1 <= level <= 6 ==> (result matches Ok(h) && h.number() == level),
            !(1 <= level <= 6) ==> (result matches Err(e) && e.spec_level() == level),
    {
        match level {
            1 => Ok(HeadingLevel::One),
            2 => Ok(HeadingLevel::Two),
            3 => Ok(HeadingLevel::Three),
            4 => Ok(HeadingLevel::Four),
            5 => Ok(HeadingLevel::Five),
            6 => Ok(HeadingLevel::Six),
            _ => Err(InvalidHeadingLevel(level)),
        }
    }
}

impl From<HeadingLevel> for u8 {
    fn from(level: HeadingLevel) -> (n: u8) {
        level.to_number()
    }
}

impl vstd::std_specs::convert::FromSpecImpl<HeadingLevel> for u8 {
    open spec fn obeys_from_spec() -> bool {
        true
    }

    open spec fn from_spec(level: HeadingLevel) -> u8 {
        level.number()
    }
}

impl TryFrom<u8> for HeadingLevel {
    type Error = InvalidHeadingLevel;

    fn try_from(level: u8) -> (result: Result<HeadingLevel, InvalidHeadingLevel>) {
        HeadingLevel::from_number(level)
    }
}

impl vstd::std_specs::convert::TryFromSpecImpl<u8> for HeadingLevel {
    open spec fn obeys_try_from_spec() -> bool {
        true
    }

    closed spec fn try_from_spec(level: u8) -> Result<HeadingLevel, InvalidHeadingLevel> {
        if 1 <= level <= 6 {
            Ok(
                if level == 1 {
                    HeadingLevel::One
                } else if level == 2 {
                    HeadingLevel::Two
                } else if level == 3 {
                    HeadingLevel::Three
                } else if level == 4 {
                    HeadingLevel::Four
                } else if level == 5 {
                    HeadingLevel::Five
                } else {
                    HeadingLevel::Six
                },
            )
        } else {
            Err(InvalidHeadingLevel(level))
        }
    }
}

/// Numbering a level and reading the number back gives the same level, and
/// every number in 1 through 6 names exactly one level.
pub proof fn law_heading_level_round_trip(level: HeadingLevel, other: HeadingLevel)
    ensures
        1 <= level.number() <= 6,
        level.number() == other.number() ==> level == other,
{
}

impl InvalidHeadingLevel {
    /// The rejected number.
    pub closed spec fn spec_level(self) -> u8 {
        self.0
    }

    /// The rejected number.
    pub fn level(&self) -> (n: u8)
        ensures
            n == self.spec_level(),
    {
        self.0
    }

    pub open spec fn spec_message(self) -> Seq<char> {
        "heading level "@ + decimal(self.spec_level() as nat) + " is outside 1 through 6"@
    }

    /// The message shown for this error.
    pub fn message(&self) -> (m: String)
        ensures
            m@ == self.spec_message(),
    {
        let mut m = String::from_str("heading level ");
        push_decimal(&mut m, self.0 as u64);
        push_str(&mut m, " is outside 1 through 6");
        m
    }
}

// ---------------------------------------------------------------------------
// Links
/// Index of the first `c` in `s`, if any.
pub open spec fn first_index_of(s: Seq<char>, c: char) -> Option<int> {
    if exists|i: int| 0 <= i < s.len() && s[i] == c {
        Some(choose|i: int| 0 <= i < s.len() && s[i] == c && forall|j: int| 0 <= j < i ==> s[j] != c)
    } else {
        None
    }
}

pub proof fn lemma_first_index_of(s: Seq<char>, c: char, i: int)
    requires
        0 <= i < s.len(),
        s[i] == c,
        forall|j: int| 0 <= j < i ==> s[j] != c,
    ensures
        first_index_of(s, c) == Some(i),
{
    let k = choose|k: int| 0 <= k < s.len() && s[k] == c && forall|j: int| 0 <= j < k ==> s[j] != c;
    assert(0 <= k < s.len() && s[k] == c && forall|j: int| 0 <= j < k ==> s[j] != c);
    if k < i {
        assert(s[k] != c);
    }
    if i < k {
        assert(s[i] != c);
    }
}

/// Finds the first `c` in `chars`.
pub fn find_char(chars: &[char], c: char) -> (index: Option<usize>)
    ensures
        match index {
            Some(i) => {
                &&& first_index_of(chars@, c) == Some(i as int)
                &&& i < chars@.len()
                &&& chars@[i as int] == c
                &&& forall|j: int| 0 <= j < i ==> chars@[j] != c
            },
            None => first_index_of(chars@, c) is None,
        },
{
    let n = chars.len();
    for i in 0..n
        invariant
            n == chars@.len(),
            forall|j: int| 0 <= j < i ==> chars@[j] != c,
    {
        if chars[i] == c {
            proof {
                lemma_first_index_of(chars@, c, i as int);
            }
            return Some(i);
        }
    }
    None
}

/// Finds the first `c` at or after `from`, as an offset from `from`.
pub fn find_char_after(chars: &[char], from: usize, c: char) -> (found: Option<usize>)
    requires
        from <= chars@.len(),
    ensures
        match found {
            Some(i) => first_index_of(chars@.skip(from as int), c) == Some(i as int) && from + i
                <= chars@.len(),
            None => first_index_of(chars@.skip(from as int), c) is None,
        },
{
    let n = chars.len();
    let ghost rest = chars@.skip(from as int);
    for i in from..n
        invariant
            n == chars@.len(),
            from <= n,
            rest == chars@.skip(from as int),
            forall|j: int| 0 <= j < i - from ==> rest[j] != c,
    {
        if chars[i] == c {
            proof {
                assert(rest[i - from] == c);
                lemma_first_index_of(rest, c, i - from);
            }
            return Some(i - from);
        }
    }
    None
}

/// Link schemes that Resumark renders: `https`, `http`, `mailto` and `tel`,
/// in any ASCII case.
pub open spec fn allowed_scheme(scheme: Seq<char>) -> bool {
    let lower = ascii_lowercase(scheme);
    lower == "https"@ || lower == "http"@ || lower == "mailto"@ || lower == "tel"@
}

/// The value of an [`InvalidLinkTarget`].
pub enum SpecInvalidLinkTarget {
    MissingScheme,
    DisallowedScheme(Seq<char>),
}

impl View for InvalidLinkTarget {
    type V = SpecInvalidLinkTarget;

    open spec fn view(&self) -> SpecInvalidLinkTarget {
        match self {
            InvalidLinkTarget::MissingScheme => SpecInvalidLinkTarget::MissingScheme,
            InvalidLinkTarget::DisallowedScheme(s) => SpecInvalidLinkTarget::DisallowedScheme(s@),
        }
    }
}

/// What Resumark's link policy decides for `destination`: the scheme is the
/// text before the first `:`.
pub open spec fn link_policy(destination: Seq<char>) -> Result<Seq<char>, SpecInvalidLinkTarget> {
    match first_index_of(destination, ':') {
        None => Err(SpecInvalidLinkTarget::MissingScheme),
        Some(i) => {
            let scheme = destination.take(i);
            if allowed_scheme(scheme) {
                Ok(destination)
            } else {
                Err(SpecInvalidLinkTarget::DisallowedScheme(scheme))
            }
        },
    }
}

impl LinkTarget {
    /// Validates and retains a link destination.
    ///
    /// Fails with [`InvalidLinkTarget::MissingScheme`] when the destination
    /// has no `:`, and with [`InvalidLinkTarget::DisallowedScheme`] when the
    /// text before the first `:` is not `https`, `http`, `mailto` or `tel`.
    pub fn parse(destination: String) -> (result: Result<LinkTarget, InvalidLinkTarget>)
        ensures
            match result {
                Ok(target) => link_policy(destination@) == Ok::<_, SpecInvalidLinkTarget>(
                    target@,
                ),
                Err(error) => link_policy(destination@) == Err::<Seq<char>, _>(error@),
            },
    {
        let chars = chars_of(destination.as_str());
        match find_char(chars.as_slice(), ':') {
            None => Err(InvalidLinkTarget::MissingScheme),
            Some(colon) => {
                let allowed = lower_range_equals(chars.as_slice(), 0, colon, "https")
                    || lower_range_equals(chars.as_slice(), 0, colon, "http")
                    || lower_range_equals(chars.as_slice(), 0, colon, "mailto")
                    || lower_range_equals(chars.as_slice(), 0, colon, "tel");
                proof {
                    assert(chars@.subrange(0, colon as int) =~= chars@.take(colon as int));
                }
                if allowed {
                    Ok(LinkTarget(destination))
                } else {
                    let scheme = string_from_range(chars.as_slice(), 0, colon);
                    Err(InvalidLinkTarget::DisallowedScheme(scheme))
                }
            },
        }
    }

    pub fn as_str(&self) -> (s: &str)
        ensures
            s@ == self@,
    {
        self.0.as_str()
    }
}

/// The message shown for an invalid link destination.
pub open spec fn invalid_link_message(error: SpecInvalidLinkTarget) -> Seq<char> {
    match error {
        SpecInvalidLinkTarget::MissingScheme => "the link destination has no scheme"@,
        SpecInvalidLinkTarget::DisallowedScheme(scheme) => "the link scheme `"@ + scheme
            + "` is not allowed"@,
    }
}

impl InvalidLinkTarget {
    /// The message shown for this error.
    pub fn message(&self) -> (m: String)
        ensures
            m@ == invalid_link_message(self@),
    {
        match self {
            InvalidLinkTarget::MissingScheme => String::from_str(
                "the link destination has no scheme",
            ),
            InvalidLinkTarget::DisallowedScheme(scheme) => {
                let mut m = String::from_str("the link scheme `");
                push_str(&mut m, scheme.as_str());
                push_str(&mut m, "` is not allowed");
                m
            },
        }
    }
}

// ---------------------------------------------------------------------------
// Plain text
/// The text a reader sees in an inline node, with line breaks as spaces.
pub open spec fn inline_text(node: SpecInlineNode) -> Seq<char>
    decreases node,
{
    match node.kind {
        SpecInline::Text(value) => value,
        SpecInline::Code(value) => value,
        SpecInline::Strong(content) => inlines_text(content),
        SpecInline::Emphasis(content) => inlines_text(content),
        SpecInline::Link { destination, label } => inlines_text(label),
        SpecInline::SoftBreak => seq![' '],
        SpecInline::HardBreak => seq![' '],
    }
}

/// The concatenated plain text of a sequence of inline nodes.
pub open spec fn inlines_text(nodes: Seq<SpecInlineNode>) -> Seq<char>
    decreases nodes,
{
    if nodes.len() == 0 {
        seq![]
    } else {
        inlines_text(nodes.drop_last()) + inline_text(nodes.last())
    }
}

impl InlineNode {
    /// Appends the plain text of this node to `output`.
    pub fn plain_text(&self, output: &mut String)
        ensures
            final(output)@ == old(output)@ + inline_text(self@),
        decreases self,
    {
        match &self.kind {
            Inline::Text { value } => push_str(output, value.as_str()),
            Inline::Code { value } => push_str(output, value.as_str()),
            Inline::Strong { content } => append_plain_text(content, output),
            Inline::Emphasis { content } => append_plain_text(content, output),
            Inline::Link { label, .. } => append_plain_text(label, output),
            Inline::SoftBreak => push_char(output, ' '),
            Inline::HardBreak => push_char(output, ' '),
        }
        proof {
            if self.kind is SoftBreak || self.kind is HardBreak {
                assert(old(output)@.push(' ') =~= old(output)@ + seq![' ']);
            }
        }
    }
}

/// Appends the plain text of every node to `output`.
pub fn append_plain_text(inlines: &Vec<InlineNode>, output: &mut String)
    ensures
        final(output)@ == old(output)@ + inlines_text(inline_nodes_view(inlines@)),
    decreases inlines,
{
    let n = inlines.len();
    proof {
        lemma_inline_nodes_view(inlines@);
    }
    for i in 0..n
        invariant
            n == inlines@.len(),
            output@ == old(output)@ + inlines_text(inline_nodes_view(inlines@.take(i as int))),
    {
        proof {
            assert(decreases_to!(inlines => inlines@));
            assert(decreases_to!(inlines@ => inlines@[i as int]));
        }
        inlines[i].plain_text(output);
        proof {
            let t = inlines@.take(i + 1);
            assert(t.drop_last() =~= inlines@.take(i as int));
            let v = inline_nodes_view(t);
            assert(v == inline_nodes_view(inlines@.take(i as int)).push(inlines@[i as int]@));
            assert(v.drop_last() =~= inline_nodes_view(inlines@.take(i as int)));
            assert(inlines_text(v) == inlines_text(v.drop_last()) + inline_text(v.last()));
            assert(old(output)@ + inlines_text(inline_nodes_view(inlines@.take(i as int)))
                + inline_text(inlines@[i as int]@) =~= old(output)@ + inlines_text(
                inline_nodes_view(t),
            ));
        }
    }
    proof {
        assert(inlines@.take(n as int) =~= inlines@);
    }
}

} // verus!
