//! The events that a markdown tokenizer hands to the renderer.

use vstd::prelude::*;

verus! {

/// How the cells of a table column are aligned.
#[derive(Clone, Copy, Debug, PartialEq, Eq)]
pub enum Alignment {
    Unaligned,
    Left,
    Center,
    Right,
}

/// The structural kind carried by a start or end event.
#[derive(Clone, Debug)]
pub enum Tag {
    Paragraph,
    Rule,
    /// A heading; the field is its level.
    Header(i32),
    BlockQuote,
    /// A fenced or indented code block; the field is its info string.
    CodeBlock(String),
    /// A list; the field is the number of the first item of an ordered list.
    List(Option<usize>),
    Item,
    FootnoteDefinition(String),
    Table(Vec<Alignment>),
    TableHead,
    TableRow,
    TableCell,
    Emphasis,
    Strong,
    Code,
    /// A link: destination and title.
    Link(String, String),
    /// An image: destination and title.
    Image(String, String),
}

/// One unit of the event stream.
#[derive(Clone, Debug)]
pub enum Token {
    Start(Tag),
    End(Tag),
    Text(String),
    /// Raw markup at block level.
    Html(String),
    /// Raw markup inside a paragraph.
    InlineHtml(String),
    FootnoteReference(String),
    SoftBreak,
    HardBreak,
}

/// The tags of the table family, which the renderer does not support.
pub open spec fn is_table_tag(t: Tag) -> bool {
    t is Table || t is TableHead || t is TableRow || t is TableCell
}

/// Tags on which the renderer reports an unimplemented feature.
pub open spec fn is_unsupported_tag(t: Tag) -> bool {
    is_table_tag(t) || t is FootnoteDefinition
}

/// Tokens on which the renderer reports an unimplemented feature.
pub open spec fn is_unsupported_token(t: Token) -> bool {
    match t {
        Token::Start(tag) => is_unsupported_tag(tag),
        Token::End(tag) => is_unsupported_tag(tag),
        Token::FootnoteReference(_) => true,
        _ => false,
    }
}

/// No token of the sequence names a table, a footnote definition or a
/// footnote reference.
pub open spec fn all_supported(toks: Seq<Token>) -> bool {
    forall|i: int| 0 <= i < toks.len() ==> !is_unsupported_token(#[trigger] toks[i])
}

} // verus!
