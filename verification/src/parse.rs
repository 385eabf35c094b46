//! The tokenizer boundary: markdown source text becomes the library's
//! token stream through the external parser, and the verified builder
//! turns the stream into a document flow.

use vstd::prelude::*;

use crate::builder::{
    build_document, empty_flow, spec_build_flow, FlowOut, ParseError, Scope,
};
use crate::content::LayoutFlow;
use crate::flow::flow_offsets_ok;
use crate::marker::MarkerStateV;
use crate::token::{tokens_wf, Token};

verus! {

#[verifier::external_type_specification]
#[verifier::external_body]
pub struct ExEvent<'a>(pulldown_cmark::Event<'a>);

#[verifier::external_type_specification]
#[verifier::external_body]
pub struct ExTag<'a>(pulldown_cmark::Tag<'a>);

#[verifier::external_type_specification]
#[verifier::external_body]
pub struct ExTagEnd(pulldown_cmark::TagEnd);

/// The token stream the external parser produces for a source text: a
/// pure function of the text alone.
pub uninterp spec fn tokens_of(s: Seq<char>) -> Seq<Token>;

/// Relies on pulldown_cmark::Tag: one arm per supported start tag,
/// moving the fields out; every other construct arrives as an
/// unsupported start.
#[verifier::external_body]
fn tag_token(t: pulldown_cmark::Tag<'_>) -> Token {
    match t {
        pulldown_cmark::Tag::Paragraph => Token::ParagraphStart,
        pulldown_cmark::Tag::Heading { level, .. } => Token::HeadingStart(level as u8),
        pulldown_cmark::Tag::BlockQuote(_) => Token::BlockQuoteStart,
        pulldown_cmark::Tag::CodeBlock(_) => Token::CodeBlockStart,
        pulldown_cmark::Tag::List(start) => Token::ListStart(start),
        pulldown_cmark::Tag::Item => Token::ItemStart,
        pulldown_cmark::Tag::Image { dest_url, title, .. } =>
            Token::ImageStart(dest_url.into_string(), title.into_string()),
        pulldown_cmark::Tag::Emphasis => Token::EmphasisStart,
        pulldown_cmark::Tag::Strong => Token::StrongStart,
        pulldown_cmark::Tag::Strikethrough => Token::StrikethroughStart,
        _ => Token::UnsupportedStart,
    }
}

/// Relies on pulldown_cmark::TagEnd: one arm per supported end tag;
/// every other construct arrives as an unsupported end.
#[verifier::external_body]
fn tag_end_token(t: pulldown_cmark::TagEnd) -> Token {
    match t {
        pulldown_cmark::TagEnd::Paragraph => Token::ParagraphEnd,
        pulldown_cmark::TagEnd::Heading(_) => Token::HeadingEnd,
        pulldown_cmark::TagEnd::BlockQuote(_) => Token::BlockQuoteEnd,
        pulldown_cmark::TagEnd::CodeBlock => Token::CodeBlockEnd,
        pulldown_cmark::TagEnd::List(_) => Token::ListEnd,
        pulldown_cmark::TagEnd::Item => Token::ItemEnd,
        pulldown_cmark::TagEnd::Image => Token::ImageEnd,
        pulldown_cmark::TagEnd::Emphasis => Token::EmphasisEnd,
        pulldown_cmark::TagEnd::Strong => Token::StrongEnd,
        pulldown_cmark::TagEnd::Strikethrough => Token::StrikethroughEnd,
        _ => Token::UnsupportedEnd,
    }
}

/// Relies on pulldown_cmark::Event: one arm per variant, moving the
/// text out of each; footnote references, task markers, math and
/// inline HTML arrive as single unsupported tokens.
#[verifier::external_body]
fn event_token(e: pulldown_cmark::Event<'_>) -> Token {
    match e {
        pulldown_cmark::Event::Start(t) => tag_token(t),
        pulldown_cmark::Event::End(t) => tag_end_token(t),
        pulldown_cmark::Event::Text(s) => Token::Text(s.into_string()),
        pulldown_cmark::Event::Code(s) => Token::Code(s.into_string()),
        pulldown_cmark::Event::Html(s) => Token::Html(s.into_string()),
        pulldown_cmark::Event::SoftBreak => Token::SoftBreak,
        pulldown_cmark::Event::HardBreak => Token::HardBreak,
        pulldown_cmark::Event::Rule => Token::Rule,
        _ => Token::UnsupportedInline,
    }
}

/// Relies on pulldown_cmark::Parser: the event stream is a pure
/// function of the source text and the fixed option set (strikethrough
/// and tables enabled); an empty text yields no events, and every
/// heading level lies between one and six.
#[verifier::external_body]
fn tokenize(text: &str) -> (r: Vec<Token>)
    ensures
        r@ == tokens_of(text@),
        tokens_wf(r@),
        text@.len() == 0 ==> r@.len() == 0,
{
    let opts = pulldown_cmark::Options::ENABLE_STRIKETHROUGH
        | pulldown_cmark::Options::ENABLE_TABLES;
    pulldown_cmark::Parser::new_ext(text, opts).map(event_token).collect()
}

/// Parses markdown source text into its document flow: the external
/// tokenizer supplies the token stream and the verified builder
/// consumes it. Fails with the builder's error exactly when the
/// stream's list or quote nesting is malformed; the offsets of the
/// returned flow are already consistent with the unmeasured heights.
pub fn parse_markdown(text: &str) -> (r: Result<LayoutFlow, ParseError>)
    ensures
        match r {
            Ok(f) => spec_build_flow(
                tokens_of(text@),
                0,
                Option::None,
                Seq::empty(),
                MarkerStateV::empty(),
                empty_flow(),
            ) == (FlowOut::Done { flow: f@, next: tokens_of(text@).len() }) && flow_offsets_ok(f@),
            Err(e) => spec_build_flow(
                tokens_of(text@),
                0,
                Option::None,
                Seq::empty(),
                MarkerStateV::empty(),
                empty_flow(),
            ) == (FlowOut::Fail { err: e }),
        },
{
    let tokens = tokenize(text);
    build_document(&tokens)
}

} // verus!
