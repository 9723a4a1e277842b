//! The Markdown events of a chapter as values: the variants and fields of the
//! events that `pulldown_cmark` parses and `pulldown_cmark_to_cmark` writes,
//! with each text a sequence of characters.

use vstd::prelude::*;

verus! {

/// How a link or an image was written.
#[derive(Debug, Clone, Copy, PartialEq, Eq)]
pub enum LinkKind {
    /// `[text](url)`.
    Inline,
    /// `[text][id]`.
    Reference,
    /// `[text][id]` whose id was resolved by a callback.
    ReferenceUnknown,
    /// `[text][]`.
    Collapsed,
    /// `[text][]` resolved by a callback.
    CollapsedUnknown,
    /// `[text]`.
    Shortcut,
    /// `[text]` resolved by a callback.
    ShortcutUnknown,
    /// `<url>`.
    Autolink,
    /// `<address@example.com>`.
    Email,
    /// `[[page]]`, with or without a `|` and a display text.
    WikiLink { has_pothole: bool },
}

/// The kind of a block quote marked as a note, a tip and so on.
pub enum BlockQuoteModel {
    Note,
    Tip,
    Important,
    Warning,
    Caution,
}

/// The style of a metadata block.
pub enum MetadataModel {
    YamlStyle,
    PlusesStyle,
}

/// The alignment of a table column.
pub enum AlignmentModel {
    NoAlignment,
    Left,
    Center,
    Right,
}

/// An indented code block, or a fenced one with its info string.
pub enum CodeBlockModel {
    Indented,
    Fenced(Seq<char>),
}

/// The tag that starts a Markdown element.
#[allow(inconsistent_fields)]
pub enum TagModel {
    Paragraph,
    /// A heading of level 1 to 6, with its id, classes and attributes.
    Heading { level: nat, id: Option<Seq<char>>, classes: Seq<Seq<char>>, attrs: Seq<(Seq<char>, Option<Seq<char>>)> },
    BlockQuote(Option<BlockQuoteModel>),
    CodeBlock(CodeBlockModel),
    HtmlBlock,
    /// A list, with the number of its first item where it is ordered.
    List(Option<u64>),
    Item,
    FootnoteDefinition(Seq<char>),
    DefinitionList,
    DefinitionListTitle,
    DefinitionListDefinition,
    Table(Seq<AlignmentModel>),
    TableHead,
    TableRow,
    TableCell,
    Emphasis,
    Strong,
    Strikethrough,
    Superscript,
    Subscript,
    Link { link_type: LinkKind, dest_url: Seq<char>, title: Seq<char>, id: Seq<char> },
    Image { link_type: LinkKind, dest_url: Seq<char>, title: Seq<char>, id: Seq<char> },
    MetadataBlock(MetadataModel),
}

/// The tag that ends a Markdown element.
pub enum TagEndModel {
    Paragraph,
    Heading(nat),
    BlockQuote(Option<BlockQuoteModel>),
    CodeBlock,
    HtmlBlock,
    /// The end of a list, ordered or not.
    List(bool),
    Item,
    FootnoteDefinition,
    DefinitionList,
    DefinitionListTitle,
    DefinitionListDefinition,
    Table,
    TableHead,
    TableRow,
    TableCell,
    Emphasis,
    Strong,
    Strikethrough,
    Superscript,
    Subscript,
    Link,
    Image,
    MetadataBlock(MetadataModel),
}

/// A Markdown event.
pub enum EventModel {
    Start(TagModel),
    End(TagEndModel),
    Text(Seq<char>),
    Code(Seq<char>),
    InlineMath(Seq<char>),
    DisplayMath(Seq<char>),
    Html(Seq<char>),
    InlineHtml(Seq<char>),
    FootnoteReference(Seq<char>),
    SoftBreak,
    HardBreak,
    Rule,
    TaskListMarker(bool),
}

} // verus!
