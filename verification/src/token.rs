//! The markdown token stream, as the library models it.
//!
//! An external tokenizer delivers the document as an ordered sequence of
//! start/end markers for block and inline constructs, literal text, and
//! break/rule markers. Constructs the renderer does not support (tables,
//! footnotes, definition lists, HTML blocks, links, math, task markers)
//! arrive as unsupported tokens and are skipped without aborting.

use vstd::prelude::*;

verus! {

/// One token of the document's event stream.
///
/// Heading levels are carried as plain numbers `1..=6`. An image start
/// carries the destination URI and the title. A list start carries the
/// explicit starting number of a numbered list, or `None` for a bulleted
/// list.
#[derive(Clone, Debug, PartialEq)]
pub enum Token {
    ParagraphStart,
    ParagraphEnd,
    HeadingStart(u8),
    HeadingEnd,
    BlockQuoteStart,
    BlockQuoteEnd,
    CodeBlockStart,
    CodeBlockEnd,
    ListStart(Option<u64>),
    ListEnd,
    ItemStart,
    ItemEnd,
    ImageStart(String, String),
    ImageEnd,
    StrongStart,
    StrongEnd,
    EmphasisStart,
    EmphasisEnd,
    StrikethroughStart,
    StrikethroughEnd,
    UnsupportedStart,
    UnsupportedEnd,
    Text(String),
    Code(String),
    Html(String),
    SoftBreak,
    HardBreak,
    Rule,
    UnsupportedInline,
}

/// A heading level delivered by the tokenizer is always between 1 and 6.
pub open spec fn token_wf(t: Token) -> bool {
    match t {
        Token::HeadingStart(level) => 1 <= level <= 6,
        _ => true,
    }
}

/// Every token of the sequence is well formed.
pub open spec fn tokens_wf(ts: Seq<Token>) -> bool {
    forall|i: int| 0 <= i < ts.len() ==> #[trigger] token_wf(ts[i])
}

/// Whether a token opens a nested construct. Used to skip an unsupported
/// construct by keeping start and end tokens balanced.
pub open spec fn spec_is_start(t: Token) -> bool {
    match t {
        Token::ParagraphStart
        | Token::HeadingStart(_)
        | Token::BlockQuoteStart
        | Token::CodeBlockStart
        | Token::ListStart(_)
        | Token::ItemStart
        | Token::ImageStart(_, _)
        | Token::StrongStart
        | Token::EmphasisStart
        | Token::StrikethroughStart
        | Token::UnsupportedStart => true,
        _ => false,
    }
}

/// Whether a token closes a nested construct.
pub open spec fn spec_is_end(t: Token) -> bool {
    match t {
        Token::ParagraphEnd
        | Token::HeadingEnd
        | Token::BlockQuoteEnd
        | Token::CodeBlockEnd
        | Token::ListEnd
        | Token::ItemEnd
        | Token::ImageEnd
        | Token::StrongEnd
        | Token::EmphasisEnd
        | Token::StrikethroughEnd
        | Token::UnsupportedEnd => true,
        _ => false,
    }
}

/// Executable check matching `spec_is_start`.
pub fn is_start(t: &Token) -> (r: bool)
    ensures
        r == spec_is_start(*t),
{
    match t {
        Token::ParagraphStart => true,
        Token::HeadingStart(_) => true,
        Token::BlockQuoteStart => true,
        Token::CodeBlockStart => true,
        Token::ListStart(_) => true,
        Token::ItemStart => true,
        Token::ImageStart(_, _) => true,
        Token::StrongStart => true,
        Token::EmphasisStart => true,
        Token::StrikethroughStart => true,
        Token::UnsupportedStart => true,
        _ => false,
    }
}

/// Executable check matching `spec_is_end`.
pub fn is_end(t: &Token) -> (r: bool)
    ensures
        r == spec_is_end(*t),
{
    match t {
        Token::ParagraphEnd => true,
        Token::HeadingEnd => true,
        Token::BlockQuoteEnd => true,
        Token::CodeBlockEnd => true,
        Token::ListEnd => true,
        Token::ItemEnd => true,
        Token::ImageEnd => true,
        Token::StrongEnd => true,
        Token::EmphasisEnd => true,
        Token::StrikethroughEnd => true,
        Token::UnsupportedEnd => true,
        _ => false,
    }
}

} // verus!
