use vstd::prelude::*;

use crate::span::Span;

verus! {

/// Column alignment of a table.
#[derive(Debug, Clone, Copy, PartialEq, Eq, Structural)]
pub enum AlignKind {
    Unaligned,
    Left,
    Right,
    Center,
}

/// A paragraph: inline children.
#[derive(Debug)]
pub struct Paragraph {
    pub children: Vec<Node>,
    pub span: Span,
}

/// An ATX heading of depth 1 to 6.
#[derive(Debug)]
pub struct Heading {
    pub depth: u8,
    pub children: Vec<Node>,
    pub span: Span,
}

/// A horizontal rule.
#[derive(Debug)]
pub struct ThematicBreak {
    pub span: Span,
}

/// A fenced code block with its optional info string split into language and meta.
#[derive(Debug)]
pub struct CodeBlock {
    pub lang: Option<Vec<u8>>,
    pub meta: Option<Vec<u8>>,
    pub value: Vec<u8>,
    pub span: Span,
}

/// A block quote.
#[derive(Debug)]
pub struct BlockQuote {
    pub children: Vec<Node>,
    pub span: Span,
}

/// A list; `start` is the first ordinal of an ordered list.
#[derive(Debug)]
pub struct List {
    pub ordered: bool,
    pub start: Option<u32>,
    pub spread: bool,
    pub children: Vec<ListItem>,
    pub span: Span,
}

/// A list item; `checked` is set for task-list items.
#[derive(Debug)]
pub struct ListItem {
    pub checked: Option<bool>,
    pub spread: bool,
    pub children: Vec<Node>,
    pub span: Span,
}

/// A table: one alignment per column, the header row first.
#[derive(Debug)]
pub struct Table {
    pub align: Vec<AlignKind>,
    pub children: Vec<TableRow>,
    pub span: Span,
}

/// A row of a table.
#[derive(Debug)]
pub struct TableRow {
    pub children: Vec<TableCell>,
    pub span: Span,
}

/// A cell of a table row: inline children.
#[derive(Debug)]
pub struct TableCell {
    pub children: Vec<Node>,
    pub span: Span,
}

/// Raw HTML.
#[derive(Debug)]
pub struct Html {
    pub value: Vec<u8>,
    pub span: Span,
}

/// A link reference definition.
#[derive(Debug)]
pub struct Definition {
    pub identifier: Vec<u8>,
    pub url: Vec<u8>,
    pub title: Option<Vec<u8>>,
    pub span: Span,
}

/// A footnote definition.
#[derive(Debug)]
pub struct FootnoteDefinition {
    pub identifier: Vec<u8>,
    pub children: Vec<Node>,
    pub span: Span,
}

/// Literal text.
#[derive(Debug)]
pub struct Text {
    pub value: Vec<u8>,
    pub span: Span,
}

/// Emphasised inline content.
#[derive(Debug)]
pub struct Emphasis {
    pub children: Vec<Node>,
    pub span: Span,
}

/// Strongly emphasised inline content.
#[derive(Debug)]
pub struct Strong {
    pub children: Vec<Node>,
    pub span: Span,
}

/// A code span.
#[derive(Debug)]
pub struct InlineCode {
    pub value: Vec<u8>,
    pub span: Span,
}

/// A link with inline children as its text.
#[derive(Debug)]
pub struct Link {
    pub url: Vec<u8>,
    pub title: Option<Vec<u8>>,
    pub children: Vec<Node>,
    pub span: Span,
}

/// An image.
#[derive(Debug)]
pub struct Image {
    pub url: Vec<u8>,
    pub alt: Vec<u8>,
    pub title: Option<Vec<u8>>,
    pub span: Span,
}

/// Struck-through inline content.
#[derive(Debug)]
pub struct Delete {
    pub children: Vec<Node>,
    pub span: Span,
}

/// A hard line break.
#[derive(Debug)]
pub struct Break {
    pub span: Span,
}

/// A reference to a footnote.
#[derive(Debug)]
pub struct FootnoteReference {
    pub identifier: Vec<u8>,
    pub span: Span,
}

/// A node of the tree: block variants first, then inline ones.
#[derive(Debug)]
pub enum Node {
    Paragraph(Paragraph),
    Heading(Heading),
    ThematicBreak(ThematicBreak),
    CodeBlock(CodeBlock),
    BlockQuote(BlockQuote),
    List(List),
    ListItem(ListItem),
    Table(Table),
    Html(Html),
    Definition(Definition),
    FootnoteDefinition(FootnoteDefinition),
    Text(Text),
    Emphasis(Emphasis),
    Strong(Strong),
    InlineCode(InlineCode),
    Link(Link),
    Image(Image),
    Delete(Delete),
    Break(Break),
    FootnoteReference(FootnoteReference),
}

/// The result of a parse: the top-level blocks in document order.
#[derive(Debug)]
pub struct Document {
    pub children: Vec<Node>,
    pub span: Span,
}

} // verus!
