//! The block builder: a recursive-descent consumer of the token stream
//! producing a layout flow of content blocks.
//!
//! Nested scopes (list items, quoted regions) are parsed by recursive
//! calls carrying a terminator, all sharing one forward-only cursor
//! over the token sequence. Unsupported constructs are skipped whole,
//! contributing no block. An unterminated list or quote scope aborts
//! document construction with an error; a heading or image whose end
//! marker never arrives is recovered from with a partial result.
//!
//! The meaning of building is given by the `spec_build_*` functions;
//! each executable function returns exactly what its spec function
//! says.

use vstd::prelude::*;

use vstd::string::{StrSliceExecFns, StringExecFns};

use crate::content::{
    flows_view, spec_flow_height, BlockV, FlowEntryV, FlowV, LayoutFlow, List, ListMarker,
    ListMarkerV, MarkdownContent, TextLayoutInfo,
};
use crate::flow::flow_offsets_ok;
use crate::marker::{
    process_marker, spec_is_marker_token, spec_marker_step, MarkeerState, MarkerKind, MarkerStateV,
    TextMarker,
};
use crate::token::{is_end, is_start, spec_is_end, spec_is_start, Token};

verus! {

/// The leading vertical margin of a paragraph flushed at its end token.
pub const PARAGRAPH_TOP_MARGIN: u64 = 10;

/// The leading vertical margin of a paragraph flushed because its
/// enclosing scope ended with pending text.
pub const SCOPE_END_TOP_MARGIN: u64 = 12;

/// A nested scope of the builder, named by the end token that
/// terminates it.
#[derive(Clone, Copy, PartialEq, Eq, Structural, Debug)]
pub enum Scope {
    Item,
    BlockQuote,
}

/// Why document construction was aborted.
#[derive(Clone, Copy, PartialEq, Eq, Structural, Debug)]
pub enum ParseError {
    /// A list or quote scope reached the end of the stream without its
    /// end token.
    UnterminatedScope,
    /// A list held a token that is neither an item start nor the list
    /// end.
    UnexpectedListToken,
}

/// The outcome of building one flow: the finished flow and the cursor
/// position just past the scope, or an abort.
pub enum FlowOut {
    Done { flow: FlowV, next: nat },
    Fail { err: ParseError },
}

/// The outcome of collecting the items of a list.
pub enum ListOut {
    Done { items: Seq<FlowV>, next: nat },
    Fail { err: ParseError },
}

/// Appending a block to a flow places it at the flow's terminal offset.
pub open spec fn spec_flow_push(f: FlowV, b: BlockV) -> FlowV {
    FlowV { entries: f.entries.push(FlowEntryV { data: b, offset: spec_flow_height(f) }) }
}

/// Whether `t` is the end token that terminates the given scope.
pub open spec fn spec_is_term(t: Token, until: Option<Scope>) -> bool {
    match until {
        Option::None => false,
        Option::Some(Scope::Item) => t == Token::ItemEnd,
        Option::Some(Scope::BlockQuote) => t == Token::BlockQuoteEnd,
    }
}

/// A character the paragraph-flush check treats as blank.
pub open spec fn spec_is_space(c: char) -> bool {
    c == ' ' || c == '\n' || c == '\t' || c == '\r'
}

/// A text of blank characters only is skipped at a paragraph end.
pub open spec fn spec_is_blank(s: Seq<char>) -> bool {
    forall|i: int| 0 <= i < s.len() ==> spec_is_space(#[trigger] s[i])
}

/// The cursor after a nested construct, clamped to one step of
/// progress and to the stream length. Every construct consumes at
/// least its start token and never runs past the stream, so the clamp
/// never fires; it keeps the recursion well founded.
pub open spec fn adv(tokens: Seq<Token>, i: nat, j: nat) -> nat {
    if i < j && j <= tokens.len() {
        j
    } else {
        (i + 1) as nat
    }
}

/// The numbered-list start attribute, reduced to the stored width as
/// the original stream carries it.
pub open spec fn trunc32(n: u64) -> u32 {
    (n % 0x1_0000_0000) as u32
}

/// An empty flow.
pub open spec fn empty_flow() -> FlowV {
    FlowV { entries: Seq::empty() }
}

/// Flushing a scope that ends with pending text: the text becomes one
/// more paragraph with the distinct scope-end margin; an empty pending
/// text adds nothing.
pub open spec fn spec_finish(text: Seq<char>, mk: MarkerStateV, acc: FlowV) -> FlowV {
    if text.len() > 0 {
        spec_flow_push(
            acc,
            BlockV::Paragraph {
                top_margin: SCOPE_END_TOP_MARGIN,
                text,
                markers: mk.markers,
                text_layout: TextLayoutInfo { height: 0, full_width: 0 },
            },
        )
    } else {
        acc
    }
}

/// Builds one flow from position `i` until the terminator of `until`
/// (or the end of the stream for the top level), threading the pending
/// paragraph text, the marker resolver state, and the blocks built so
/// far.
pub open spec fn spec_build_flow(
    tokens: Seq<Token>,
    i: nat,
    until: Option<Scope>,
    text: Seq<char>,
    mk: MarkerStateV,
    acc: FlowV,
) -> FlowOut
    decreases tokens.len() - i, 2nat,
{
    if i >= tokens.len() {
        match until {
            Option::Some(_) => FlowOut::Fail { err: ParseError::UnterminatedScope },
            Option::None => FlowOut::Done { flow: spec_finish(text, mk, acc), next: i },
        }
    } else {
        let t = tokens[i as int];
        if spec_is_term(t, until) {
            FlowOut::Done { flow: spec_finish(text, mk, acc), next: (i + 1) as nat }
        } else if spec_is_marker_token(t) {
            spec_build_flow(
                tokens,
                (i + 1) as nat,
                until,
                text,
                spec_marker_step(mk, t, text.len() as usize),
                acc,
            )
        } else {
            match t {
                Token::HeadingStart(level) => {
                    let (b, j) = spec_build_header(
                        tokens,
                        (i + 1) as nat,
                        level,
                        Seq::empty(),
                        MarkerStateV::empty(),
                    );
                    spec_build_flow(tokens, adv(tokens, i, j), until, text, mk, spec_flow_push(acc, b))
                },
                Token::BlockQuoteStart => {
                    let sub = spec_build_flow(
                        tokens,
                        (i + 1) as nat,
                        Option::Some(Scope::BlockQuote),
                        Seq::empty(),
                        MarkerStateV::empty(),
                        empty_flow(),
                    );
                    match sub {
                        FlowOut::Done { flow, next } => spec_build_flow(
                            tokens,
                            adv(tokens, i, next),
                            until,
                            text,
                            mk,
                            spec_flow_push(acc, BlockV::Indented { flow }),
                        ),
                        FlowOut::Fail { err } => FlowOut::Fail { err },
                    }
                },
                Token::ListStart(start_opt) => {
                    let sub = spec_build_list(tokens, (i + 1) as nat, Seq::empty());
                    match sub {
                        ListOut::Done { items, next } => {
                            let marker = match start_opt {
                                Option::Some(s) => ListMarkerV::Numbers {
                                    start_number: trunc32(s),
                                    widths: Seq::empty(),
                                },
                                Option::None => ListMarkerV::Symbol {
                                    symbol: seq!['\u{2022}'],
                                    width: 0,
                                },
                            };
                            spec_build_flow(
                                tokens,
                                adv(tokens, i, next),
                                until,
                                text,
                                mk,
                                spec_flow_push(
                                    acc,
                                    BlockV::List { items, marker, indentation: 0 },
                                ),
                            )
                        },
                        ListOut::Fail { err } => FlowOut::Fail { err },
                    }
                },
                Token::ImageStart(dest, title) => {
                    let j = spec_skip_image(tokens, (i + 1) as nat);
                    spec_build_flow(
                        tokens,
                        adv(tokens, i, j),
                        until,
                        text,
                        mk,
                        spec_flow_push(
                            acc,
                            BlockV::Image { uri: dest@, title: title@, image: Option::None },
                        ),
                    )
                },
                Token::CodeBlockStart => {
                    let (txt, j) = spec_build_code(tokens, (i + 1) as nat, Seq::empty());
                    spec_build_flow(
                        tokens,
                        adv(tokens, i, j),
                        until,
                        text,
                        mk,
                        spec_flow_push(
                            acc,
                            BlockV::CodeBlock {
                                text: txt,
                                text_layout: TextLayoutInfo { height: 0, full_width: 0 },
                            },
                        ),
                    )
                },
                Token::UnsupportedStart => {
                    let j = spec_skip_unsupported(tokens, (i + 1) as nat, 1);
                    spec_build_flow(tokens, adv(tokens, i, j), until, text, mk, acc)
                },
                Token::ParagraphEnd => {
                    if !spec_is_blank(text) {
                        spec_build_flow(
                            tokens,
                            (i + 1) as nat,
                            until,
                            Seq::empty(),
                            MarkerStateV { markers: Seq::empty(), ..mk },
                            spec_flow_push(
                                acc,
                                BlockV::Paragraph {
                                    top_margin: PARAGRAPH_TOP_MARGIN,
                                    text,
                                    markers: mk.markers,
                                    text_layout: TextLayoutInfo { height: 0, full_width: 0 },
                                },
                            ),
                        )
                    } else {
                        spec_build_flow(tokens, (i + 1) as nat, until, text, mk, acc)
                    }
                },
                Token::Text(s) => spec_build_flow(
                    tokens,
                    (i + 1) as nat,
                    until,
                    text + s@,
                    mk,
                    acc,
                ),
                Token::Code(s) => spec_build_flow(
                    tokens,
                    (i + 1) as nat,
                    until,
                    text + s@,
                    MarkerStateV {
                        markers: mk.markers.push(
                            TextMarker {
                                start_pos: text.len() as usize,
                                end_pos: (text.len() + s@.len()) as usize,
                                kind: MarkerKind::InlineCode,
                            },
                        ),
                        ..mk
                    },
                    acc,
                ),
                Token::Html(s) => spec_build_flow(
                    tokens,
                    (i + 1) as nat,
                    until,
                    text + s@,
                    MarkerStateV {
                        markers: mk.markers.push(
                            TextMarker {
                                start_pos: text.len() as usize,
                                end_pos: (text.len() + s@.len()) as usize,
                                kind: MarkerKind::InlineCode,
                            },
                        ),
                        ..mk
                    },
                    acc,
                ),
                Token::SoftBreak => spec_build_flow(
                    tokens,
                    (i + 1) as nat,
                    until,
                    text + seq![' '],
                    mk,
                    acc,
                ),
                Token::HardBreak => spec_build_flow(
                    tokens,
                    (i + 1) as nat,
                    until,
                    text + seq!['\n'],
                    mk,
                    acc,
                ),
                Token::Rule => spec_build_flow(
                    tokens,
                    (i + 1) as nat,
                    until,
                    text,
                    mk,
                    spec_flow_push(acc, BlockV::HorizontalLine { height: 0 }),
                ),
                _ => spec_build_flow(tokens, (i + 1) as nat, until, text, mk, acc),
            }
        }
    }
}

/// Collects heading text and markers up to the heading's own end
/// token. A heading cut short by the end of the stream is recovered as
/// the partial heading read so far.
pub open spec fn spec_build_header(
    tokens: Seq<Token>,
    i: nat,
    level: u8,
    text: Seq<char>,
    mk: MarkerStateV,
) -> (BlockV, nat)
    decreases tokens.len() - i, 1nat,
{
    if i >= tokens.len() {
        (
            BlockV::Header {
                level,
                text,
                markers: mk.markers,
                text_layout: TextLayoutInfo { height: 0, full_width: 0 },
            },
            i,
        )
    } else {
        let t = tokens[i as int];
        if spec_is_marker_token(t) {
            spec_build_header(
                tokens,
                (i + 1) as nat,
                level,
                text,
                spec_marker_step(mk, t, text.len() as usize),
            )
        } else {
            match t {
                Token::Text(s) => spec_build_header(tokens, (i + 1) as nat, level, text + s@, mk),
                Token::HeadingEnd => (
                    BlockV::Header {
                        level,
                        text,
                        markers: mk.markers,
                        text_layout: TextLayoutInfo { height: 0, full_width: 0 },
                    },
                    (i + 1) as nat,
                ),
                _ => spec_build_header(tokens, (i + 1) as nat, level, text, mk),
            }
        }
    }
}

/// Collects code block text up to the code block's end token, with the
/// same end-of-stream recovery as a heading.
pub open spec fn spec_build_code(tokens: Seq<Token>, i: nat, text: Seq<char>) -> (Seq<char>, nat)
    decreases tokens.len() - i, 1nat,
{
    if i >= tokens.len() {
        (text, i)
    } else {
        match tokens[i as int] {
            Token::Text(s) => spec_build_code(tokens, (i + 1) as nat, text + s@),
            Token::CodeBlockEnd => (text, (i + 1) as nat),
            _ => spec_build_code(tokens, (i + 1) as nat, text),
        }
    }
}

/// Consumes the alt-text scope of an image up to the image's end
/// token; the text is discarded. Recovers at the end of the stream.
pub open spec fn spec_skip_image(tokens: Seq<Token>, i: nat) -> nat
    decreases tokens.len() - i, 1nat,
{
    if i >= tokens.len() {
        i
    } else if tokens[i as int] == Token::ImageEnd {
        (i + 1) as nat
    } else {
        spec_skip_image(tokens, (i + 1) as nat)
    }
}

/// Skips an unsupported construct by consuming tokens until start and
/// end tokens balance again; the content contributes nothing.
pub open spec fn spec_skip_unsupported(tokens: Seq<Token>, i: nat, depth: nat) -> nat
    decreases tokens.len() - i, 1nat,
{
    if i >= tokens.len() {
        i
    } else {
        let t = tokens[i as int];
        if spec_is_end(t) {
            if depth <= 1 {
                (i + 1) as nat
            } else {
                spec_skip_unsupported(tokens, (i + 1) as nat, (depth - 1) as nat)
            }
        } else if spec_is_start(t) {
            spec_skip_unsupported(tokens, (i + 1) as nat, depth + 1)
        } else {
            spec_skip_unsupported(tokens, (i + 1) as nat, depth)
        }
    }
}

/// Collects the items of a list: each item start opens a nested flow
/// scope, the list end closes the list. Any other token is a malformed
/// list; a list cut short by the end of the stream is unterminated.
/// Both abort construction.
pub open spec fn spec_build_list(tokens: Seq<Token>, i: nat, items: Seq<FlowV>) -> ListOut
    decreases tokens.len() - i, 3nat,
{
    if i >= tokens.len() {
        ListOut::Fail { err: ParseError::UnterminatedScope }
    } else {
        match tokens[i as int] {
            Token::ItemStart => {
                let sub = spec_build_flow(
                    tokens,
                    (i + 1) as nat,
                    Option::Some(Scope::Item),
                    Seq::empty(),
                    MarkerStateV::empty(),
                    empty_flow(),
                );
                match sub {
                    FlowOut::Done { flow, next } => spec_build_list(
                        tokens,
                        adv(tokens, i, next),
                        items.push(flow),
                    ),
                    FlowOut::Fail { err } => ListOut::Fail { err },
                }
            },
            Token::ListEnd => ListOut::Done { items, next: (i + 1) as nat },
            _ => ListOut::Fail { err: ParseError::UnexpectedListToken },
        }
    }
}

/// The heading collector never moves the cursor backwards nor past the
/// end of the stream.
pub proof fn lemma_header_progress(
    tokens: Seq<Token>,
    i: nat,
    level: u8,
    text: Seq<char>,
    mk: MarkerStateV,
)
    requires
        i <= tokens.len(),
    ensures
        i <= spec_build_header(tokens, i, level, text, mk).1 <= tokens.len(),
    decreases tokens.len() - i, 1nat,
{
    if i < tokens.len() {
        let t = tokens[i as int];
        if spec_is_marker_token(t) {
            lemma_header_progress(
                tokens,
                (i + 1) as nat,
                level,
                text,
                spec_marker_step(mk, t, text.len() as usize),
            );
        } else {
            match t {
                Token::Text(s) => lemma_header_progress(tokens, (i + 1) as nat, level, text + s@, mk),
                Token::HeadingEnd => {},
                _ => lemma_header_progress(tokens, (i + 1) as nat, level, text, mk),
            }
        }
    }
}

/// The code block collector never moves the cursor backwards nor past
/// the end of the stream.
pub proof fn lemma_code_progress(tokens: Seq<Token>, i: nat, text: Seq<char>)
    requires
        i <= tokens.len(),
    ensures
        i <= spec_build_code(tokens, i, text).1 <= tokens.len(),
    decreases tokens.len() - i, 1nat,
{
    if i < tokens.len() {
        match tokens[i as int] {
            Token::Text(s) => lemma_code_progress(tokens, (i + 1) as nat, text + s@),
            Token::CodeBlockEnd => {},
            _ => lemma_code_progress(tokens, (i + 1) as nat, text),
        }
    }
}

/// The image skipper never moves the cursor backwards nor past the end
/// of the stream.
pub proof fn lemma_skip_image_progress(tokens: Seq<Token>, i: nat)
    requires
        i <= tokens.len(),
    ensures
        i <= spec_skip_image(tokens, i) <= tokens.len(),
    decreases tokens.len() - i, 1nat,
{
    if i < tokens.len() && !(tokens[i as int] == Token::ImageEnd) {
        lemma_skip_image_progress(tokens, (i + 1) as nat);
    }
}

/// The unsupported-construct skipper never moves the cursor backwards
/// nor past the end of the stream.
pub proof fn lemma_skip_unsupported_progress(tokens: Seq<Token>, i: nat, depth: nat)
    requires
        i <= tokens.len(),
    ensures
        i <= spec_skip_unsupported(tokens, i, depth) <= tokens.len(),
    decreases tokens.len() - i, 1nat,
{
    if i < tokens.len() {
        let t = tokens[i as int];
        if spec_is_end(t) {
            if depth > 1 {
                lemma_skip_unsupported_progress(tokens, (i + 1) as nat, (depth - 1) as nat);
            }
        } else if spec_is_start(t) {
            lemma_skip_unsupported_progress(tokens, (i + 1) as nat, depth + 1);
        } else {
            lemma_skip_unsupported_progress(tokens, (i + 1) as nat, depth);
        }
    }
}

/// A finished flow scope never leaves the cursor before its start nor
/// past the end of the stream.
pub proof fn lemma_flow_progress(
    tokens: Seq<Token>,
    i: nat,
    until: Option<Scope>,
    text: Seq<char>,
    mk: MarkerStateV,
    acc: FlowV,
)
    requires
        i <= tokens.len(),
    ensures
        match spec_build_flow(tokens, i, until, text, mk, acc) {
            FlowOut::Done { flow, next } => i <= next <= tokens.len(),
            FlowOut::Fail { err } => true,
        },
    decreases tokens.len() - i, 2nat,
{
    if i < tokens.len() {
        let t = tokens[i as int];
        if spec_is_term(t, until) {
        } else if spec_is_marker_token(t) {
            lemma_flow_progress(
                tokens,
                (i + 1) as nat,
                until,
                text,
                spec_marker_step(mk, t, text.len() as usize),
                acc,
            );
        } else {
            match t {
                Token::HeadingStart(level) => {
                    let (b, j) = spec_build_header(
                        tokens,
                        (i + 1) as nat,
                        level,
                        Seq::empty(),
                        MarkerStateV::empty(),
                    );
                    lemma_flow_progress(
                        tokens,
                        adv(tokens, i, j),
                        until,
                        text,
                        mk,
                        spec_flow_push(acc, b),
                    );
                },
                Token::BlockQuoteStart => {
                    let sub = spec_build_flow(
                        tokens,
                        (i + 1) as nat,
                        Option::Some(Scope::BlockQuote),
                        Seq::empty(),
                        MarkerStateV::empty(),
                        empty_flow(),
                    );
                    match sub {
                        FlowOut::Done { flow, next } => {
                            lemma_flow_progress(
                                tokens,
                                adv(tokens, i, next),
                                until,
                                text,
                                mk,
                                spec_flow_push(acc, BlockV::Indented { flow }),
                            );
                        },
                        FlowOut::Fail { err } => {},
                    }
                },
                Token::ListStart(start_opt) => {
                    let sub = spec_build_list(tokens, (i + 1) as nat, Seq::empty());
                    match sub {
                        ListOut::Done { items, next } => {
                            let marker = match start_opt {
                                Option::Some(s) => ListMarkerV::Numbers {
                                    start_number: trunc32(s),
                                    widths: Seq::empty(),
                                },
                                Option::None => ListMarkerV::Symbol {
                                    symbol: seq!['\u{2022}'],
                                    width: 0,
                                },
                            };
                            lemma_flow_progress(
                                tokens,
                                adv(tokens, i, next),
                                until,
                                text,
                                mk,
                                spec_flow_push(acc, BlockV::List { items, marker, indentation: 0 }),
                            );
                        },
                        ListOut::Fail { err } => {},
                    }
                },
                Token::ImageStart(dest, title) => {
                    let j = spec_skip_image(tokens, (i + 1) as nat);
                    lemma_flow_progress(
                        tokens,
                        adv(tokens, i, j),
                        until,
                        text,
                        mk,
                        spec_flow_push(
                            acc,
                            BlockV::Image { uri: dest@, title: title@, image: Option::None },
                        ),
                    );
                },
                Token::CodeBlockStart => {
                    let (txt, j) = spec_build_code(tokens, (i + 1) as nat, Seq::empty());
                    lemma_flow_progress(
                        tokens,
                        adv(tokens, i, j),
                        until,
                        text,
                        mk,
                        spec_flow_push(
                            acc,
                            BlockV::CodeBlock {
                                text: txt,
                                text_layout: TextLayoutInfo { height: 0, full_width: 0 },
                            },
                        ),
                    );
                },
                Token::UnsupportedStart => {
                    let j = spec_skip_unsupported(tokens, (i + 1) as nat, 1);
                    lemma_flow_progress(tokens, adv(tokens, i, j), until, text, mk, acc);
                },
                Token::ParagraphEnd => {
                    if !spec_is_blank(text) {
                        lemma_flow_progress(
                            tokens,
                            (i + 1) as nat,
                            until,
                            Seq::empty(),
                            MarkerStateV { markers: Seq::empty(), ..mk },
                            spec_flow_push(
                                acc,
                                BlockV::Paragraph {
                                    top_margin: PARAGRAPH_TOP_MARGIN,
                                    text,
                                    markers: mk.markers,
                                    text_layout: TextLayoutInfo { height: 0, full_width: 0 },
                                },
                            ),
                        );
                    } else {
                        lemma_flow_progress(tokens, (i + 1) as nat, until, text, mk, acc);
                    }
                },
                Token::Text(s) => lemma_flow_progress(
                    tokens,
                    (i + 1) as nat,
                    until,
                    text + s@,
                    mk,
                    acc,
                ),
                Token::Code(s) => lemma_flow_progress(
                    tokens,
                    (i + 1) as nat,
                    until,
                    text + s@,
                    MarkerStateV {
                        markers: mk.markers.push(
                            TextMarker {
                                start_pos: text.len() as usize,
                                end_pos: (text.len() + s@.len()) as usize,
                                kind: MarkerKind::InlineCode,
                            },
                        ),
                        ..mk
                    },
                    acc,
                ),
                Token::Html(s) => lemma_flow_progress(
                    tokens,
                    (i + 1) as nat,
                    until,
                    text + s@,
                    MarkerStateV {
                        markers: mk.markers.push(
                            TextMarker {
                                start_pos: text.len() as usize,
                                end_pos: (text.len() + s@.len()) as usize,
                                kind: MarkerKind::InlineCode,
                            },
                        ),
                        ..mk
                    },
                    acc,
                ),
                Token::SoftBreak => lemma_flow_progress(
                    tokens,
                    (i + 1) as nat,
                    until,
                    text + seq![' '],
                    mk,
                    acc,
                ),
                Token::HardBreak => lemma_flow_progress(
                    tokens,
                    (i + 1) as nat,
                    until,
                    text + seq!['\n'],
                    mk,
                    acc,
                ),
                Token::Rule => lemma_flow_progress(
                    tokens,
                    (i + 1) as nat,
                    until,
                    text,
                    mk,
                    spec_flow_push(acc, BlockV::HorizontalLine { height: 0 }),
                ),
                _ => lemma_flow_progress(tokens, (i + 1) as nat, until, text, mk, acc),
            }
        }
    }
}

/// A finished list never leaves the cursor before its start nor past
/// the end of the stream.
pub proof fn lemma_list_progress(tokens: Seq<Token>, i: nat, items: Seq<FlowV>)
    requires
        i <= tokens.len(),
    ensures
        match spec_build_list(tokens, i, items) {
            ListOut::Done { items: r, next } => i <= next <= tokens.len(),
            ListOut::Fail { err } => true,
        },
    decreases tokens.len() - i, 3nat,
{
    if i < tokens.len() {
        match tokens[i as int] {
            Token::ItemStart => {
                let sub = spec_build_flow(
                    tokens,
                    (i + 1) as nat,
                    Option::Some(Scope::Item),
                    Seq::empty(),
                    MarkerStateV::empty(),
                    empty_flow(),
                );
                match sub {
                    FlowOut::Done { flow, next } => {
                        lemma_list_progress(tokens, adv(tokens, i, next), items.push(flow));
                    },
                    FlowOut::Fail { err } => {},
                }
            },
            _ => {},
        }
    }
}

/// Executable check matching `spec_is_term`.
fn is_term(t: &Token, until: Option<Scope>) -> (r: bool)
    ensures
        r == spec_is_term(*t, until),
{
    match until {
        Option::None => false,
        Option::Some(Scope::Item) => matches!(t, Token::ItemEnd),
        Option::Some(Scope::BlockQuote) => matches!(t, Token::BlockQuoteEnd),
    }
}

/// Executable check matching `spec_is_blank`.
fn is_blank_str(s: &String) -> (r: bool)
    ensures
        r == spec_is_blank(s@),
{
    let n = s.as_str().unicode_len();
    let mut i: usize = 0;
    while i < n
        invariant
            i <= n,
            n == s@.len(),
            forall|k: int| 0 <= k < i ==> spec_is_space(#[trigger] s@[k]),
        decreases n - i,
    {
        let c = s.as_str().get_char(i);
        if !(c == ' ' || c == '\n' || c == '\t' || c == '\r') {
            return false;
        }
        i += 1;
    }
    true
}

/// Consumes the alt-text scope of an image, discarding it.
fn skip_image(tokens: &Vec<Token>, start: usize) -> (r: usize)
    requires
        start <= tokens@.len(),
    ensures
        r == spec_skip_image(tokens@, start as nat),
        start <= r <= tokens@.len(),
{
    let mut i = start;
    while i < tokens.len()
        invariant
            start <= i <= tokens@.len(),
            spec_skip_image(tokens@, start as nat) == spec_skip_image(tokens@, i as nat),
        decreases tokens@.len() - i,
    {
        match &tokens[i] {
            Token::ImageEnd => {
                return i + 1;
            },
            _ => {},
        }
        i += 1;
    }
    i
}

/// Skips an unsupported construct, keeping starts and ends balanced.
fn skip_unsupported(tokens: &Vec<Token>, start: usize) -> (r: usize)
    requires
        start <= tokens@.len(),
    ensures
        r == spec_skip_unsupported(tokens@, start as nat, 1),
        start <= r <= tokens@.len(),
{
    let mut i = start;
    let mut depth: u128 = 1;
    while i < tokens.len()
        invariant
            start <= i <= tokens@.len(),
            1 <= depth <= 1 + (i - start),
            spec_skip_unsupported(tokens@, start as nat, 1) == spec_skip_unsupported(
                tokens@,
                i as nat,
                depth as nat,
            ),
        decreases tokens@.len() - i,
    {
        let t = &tokens[i];
        if is_end(t) {
            if depth == 1 {
                return i + 1;
            }
            depth = depth - 1;
        } else if is_start(t) {
            depth = depth + 1;
        }
        i += 1;
    }
    i
}

/// Collects code block text up to the code block's end token.
fn build_code(tokens: &Vec<Token>, start: usize) -> (r: (String, usize))
    requires
        start <= tokens@.len(),
    ensures
        (r.0@, r.1 as nat) == spec_build_code(tokens@, start as nat, Seq::<char>::empty()),
        start <= r.1 <= tokens@.len(),
{
    proof {
        lemma_code_progress(tokens@, start as nat, Seq::empty());
    }
    let mut i = start;
    let mut text = String::new();
    while i < tokens.len()
        invariant
            start <= i <= tokens@.len(),
            spec_build_code(tokens@, start as nat, Seq::<char>::empty()) == spec_build_code(
                tokens@,
                i as nat,
                text@,
            ),
        decreases tokens@.len() - i,
    {
        match &tokens[i] {
            Token::Text(s) => {
                text.append(s.as_str());
            },
            Token::CodeBlockEnd => {
                return (text, i + 1);
            },
            _ => {},
        }
        i += 1;
    }
    (text, i)
}

/// Collects heading text and markers up to the heading's end token.
fn build_header(tokens: &Vec<Token>, start: usize, level: u8) -> (r: (MarkdownContent, usize))
    requires
        start <= tokens@.len(),
    ensures
        ({
            let (b, j) = spec_build_header(
                tokens@,
                start as nat,
                level,
                Seq::empty(),
                MarkerStateV::empty(),
            );
            r.0@ == b && r.1 == j && start <= r.1 <= tokens@.len()
        }),
{
    proof {
        lemma_header_progress(tokens@, start as nat, level, Seq::empty(), MarkerStateV::empty());
    }
    let mut i = start;
    let mut text = String::new();
    let mut mk = MarkeerState::new();
    while i < tokens.len()
        invariant
            start <= i <= tokens@.len(),
            spec_build_header(tokens@, start as nat, level, Seq::empty(), MarkerStateV::empty())
                == spec_build_header(tokens@, i as nat, level, text@, mk@),
        decreases tokens@.len() - i,
    {
        let t = &tokens[i];
        let l = text.as_str().unicode_len();
        proof {
            assert(text@.len() as usize == l);
        }
        if process_marker(t, &mut mk, l) {
            i += 1;
        } else {
            match t {
                Token::Text(s) => {
                    text.append(s.as_str());
                    i += 1;
                },
                Token::HeadingEnd => {
                    return (
                        MarkdownContent::Header {
                            level,
                            text,
                            markers: mk.markers,
                            text_layout: TextLayoutInfo::empty(),
                        },
                        i + 1,
                    );
                },
                _ => {
                    i += 1;
                },
            }
        }
    }
    (
        MarkdownContent::Header {
            level,
            text,
            markers: mk.markers,
            text_layout: TextLayoutInfo::empty(),
        },
        i,
    )
}

/// Collects the items of a list, one nested flow per item.
fn build_list(tokens: &Vec<Token>, start: usize) -> (r: Result<(Vec<LayoutFlow>, usize), ParseError>)
    requires
        start <= tokens@.len(),
    ensures
        match r {
            Ok(p) => spec_build_list(tokens@, start as nat, Seq::<FlowV>::empty()) == (ListOut::Done {
                items: flows_view(p.0@),
                next: p.1 as nat,
            }) && start <= p.1 <= tokens@.len(),
            Err(e) => spec_build_list(tokens@, start as nat, Seq::<FlowV>::empty())
                == (ListOut::Fail { err: e }),
        },
    decreases tokens@.len() - start, 3nat,
{
    proof {
        lemma_list_progress(tokens@, start as nat, Seq::empty());
    }
    let mut i = start;
    let mut items: Vec<LayoutFlow> = Vec::new();
    proof {
        assert(flows_view(items@) =~= Seq::<FlowV>::empty());
    }
    while i < tokens.len()
        invariant
            start <= i <= tokens@.len(),
            spec_build_list(tokens@, start as nat, Seq::<FlowV>::empty()) == spec_build_list(
                tokens@,
                i as nat,
                flows_view(items@),
            ),
        decreases tokens@.len() - i,
    {
        let ghost i0 = i as nat;
        match &tokens[i] {
            Token::ItemStart => {
                match build_flow(tokens, i + 1, Option::Some(Scope::Item)) {
                    Ok(p) => {
                        let (flow, next) = p;
                        proof {
                            lemma_flow_progress(
                                tokens@,
                                (i0 + 1) as nat,
                                Option::Some(Scope::Item),
                                Seq::empty(),
                                MarkerStateV::empty(),
                                empty_flow(),
                            );
                            assert(adv(tokens@, i0, next as nat) == next as nat);
                            assert(items@.push(flow).drop_last() =~= items@);
                            assert(flows_view(items@.push(flow)) =~= flows_view(items@).push(
                                flow@,
                            ));
                        }
                        items.push(flow);
                        i = next;
                    },
                    Err(e) => {
                        return Err(e);
                    },
                }
            },
            Token::ListEnd => {
                return Ok((items, i + 1));
            },
            _ => {
                return Err(ParseError::UnexpectedListToken);
            },
        }
    }
    Err(ParseError::UnterminatedScope)
}

/// Builds one flow from `start` until the terminator of `until`, or
/// the end of the stream for the top level. Returns the finished flow,
/// its offsets already consistent with the unmeasured heights, and the
/// cursor just past the scope; or the abort the spec prescribes for a
/// malformed nesting.
#[verifier::rlimit(100)]
fn build_flow(tokens: &Vec<Token>, start: usize, until: Option<Scope>) -> (r: Result<
    (LayoutFlow, usize),
    ParseError,
>)
    requires
        start <= tokens@.len(),
    ensures
        match r {
            Ok(p) => spec_build_flow(
                tokens@,
                start as nat,
                until,
                Seq::empty(),
                MarkerStateV::empty(),
                empty_flow(),
            ) == (FlowOut::Done { flow: p.0@, next: p.1 as nat }) && start <= p.1 <= tokens@.len()
                && flow_offsets_ok(p.0@),
            Err(e) => spec_build_flow(
                tokens@,
                start as nat,
                until,
                Seq::empty(),
                MarkerStateV::empty(),
                empty_flow(),
            ) == (FlowOut::Fail { err: e }),
        },
    decreases tokens@.len() - start, 2nat,
{
    proof {
        lemma_flow_progress(
            tokens@,
            start as nat,
            until,
            Seq::empty(),
            MarkerStateV::empty(),
            empty_flow(),
        );
    }
    let mut i = start;
    let mut text = String::new();
    let mut mk = MarkeerState::new();
    let mut res = LayoutFlow::new();
    proof {
        assert(res@ =~= empty_flow());
    }
    while i < tokens.len()
        invariant
            start <= i <= tokens@.len(),
            spec_build_flow(
                tokens@,
                start as nat,
                until,
                Seq::empty(),
                MarkerStateV::empty(),
                empty_flow(),
            ) == spec_build_flow(tokens@, i as nat, until, text@, mk@, res@),
            flow_offsets_ok(res@),
        decreases tokens@.len() - i,
    {
        let ghost i0 = i as nat;
        let ghost text0 = text@;
        let ghost mk0 = mk@;
        let ghost acc0 = res@;
        let t = &tokens[i];
        if is_term(t, until) {
            if !text.as_str().is_empty() {
                res.push(
                    MarkdownContent::Paragraph {
                        top_margin: SCOPE_END_TOP_MARGIN,
                        text,
                        markers: mk.markers,
                        text_layout: TextLayoutInfo::empty(),
                    },
                );
            }
            proof {
                assert(res@ =~= spec_finish(text0, mk0, acc0));
            }
            return Ok((res, i + 1));
        }
        let l = text.as_str().unicode_len();
        proof {
            assert(text@.len() as usize == l);
        }
        if process_marker(t, &mut mk, l) {
            i += 1;
        } else {
            match t {
                Token::HeadingStart(level) => {
                    let (b, j) = build_header(tokens, i + 1, *level);
                    proof {
                        assert(adv(tokens@, i0, j as nat) == j as nat);
                    }
                    res.push(b);
                    i = j;
                },
                Token::BlockQuoteStart => {
                    match build_flow(tokens, i + 1, Option::Some(Scope::BlockQuote)) {
                        Ok(p) => {
                            let (flow, next) = p;
                            proof {
                                assert(adv(tokens@, i0, next as nat) == next as nat);
                            }
                            res.push(
                                MarkdownContent::Indented {
                                    decoration: crate::content::IndentationDecoration {  },
                                    flow,
                                },
                            );
                            i = next;
                        },
                        Err(e) => {
                            return Err(e);
                        },
                    }
                },
                Token::ListStart(start_opt) => {
                    match build_list(tokens, i + 1) {
                        Ok(p) => {
                            let (item_flows, next) = p;
                            proof {
                                assert(adv(tokens@, i0, next as nat) == next as nat);
                            }
                            let marker = match start_opt {
                                Option::Some(s) => {
                                    let widths: Vec<u64> = Vec::new();
                                    proof {
                                        assert(widths@ =~= Seq::<u64>::empty());
                                    }
                                    ListMarker::Numbers {
                                        start_number: ((*s) % 0x1_0000_0000) as u32,
                                        widths,
                                    }
                                },
                                Option::None => {
                                    let sym = String::from_str("\u{2022}");
                                    proof {
                                        reveal_strlit("\u{2022}");
                                        assert(sym@ =~= seq!['\u{2022}']);
                                    }
                                    ListMarker::Symbol { symbol: sym, width: 0 }
                                },
                            };
                            res.push(
                                MarkdownContent::List {
                                    list: List { list: item_flows, marker, indentation: 0 },
                                },
                            );
                            i = next;
                        },
                        Err(e) => {
                            return Err(e);
                        },
                    }
                },
                Token::ImageStart(dest, title) => {
                    let j = skip_image(tokens, i + 1);
                    proof {
                        assert(adv(tokens@, i0, j as nat) == j as nat);
                    }
                    let uri = dest.as_str().to_owned();
                    let ttl = title.as_str().to_owned();
                    res.push(MarkdownContent::Image { uri, title: ttl, image: Option::None });
                    i = j;
                },
                Token::CodeBlockStart => {
                    let (txt, j) = build_code(tokens, i + 1);
                    proof {
                        assert(adv(tokens@, i0, j as nat) == j as nat);
                    }
                    res.push(
                        MarkdownContent::CodeBlock { text: txt, text_layout: TextLayoutInfo::empty() },
                    );
                    i = j;
                },
                Token::UnsupportedStart => {
                    let j = skip_unsupported(tokens, i + 1);
                    proof {
                        assert(adv(tokens@, i0, j as nat) == j as nat);
                    }
                    i = j;
                },
                Token::ParagraphEnd => {
                    if !is_blank_str(&text) {
                        let mut t2 = String::new();
                        core::mem::swap(&mut t2, &mut text);
                        let mut m2: Vec<TextMarker> = Vec::new();
                        core::mem::swap(&mut m2, &mut mk.markers);
                        res.push(
                            MarkdownContent::Paragraph {
                                top_margin: PARAGRAPH_TOP_MARGIN,
                                text: t2,
                                markers: m2,
                                text_layout: TextLayoutInfo::empty(),
                            },
                        );
                        proof {
                            assert(mk@ =~= (MarkerStateV { markers: Seq::empty(), ..mk0 }));
                        }
                    }
                    i += 1;
                },
                Token::Text(s) => {
                    text.append(s.as_str());
                    i += 1;
                },
                Token::Code(s) => {
                    text.append(s.as_str());
                    let e = text.as_str().unicode_len();
                    proof {
                        assert(text@.len() as usize == e);
                        assert((text0.len() + s@.len()) as usize == e);
                    }
                    mk.markers.push(
                        TextMarker { start_pos: l, end_pos: e, kind: MarkerKind::InlineCode },
                    );
                    i += 1;
                },
                Token::Html(s) => {
                    text.append(s.as_str());
                    let e = text.as_str().unicode_len();
                    proof {
                        assert(text@.len() as usize == e);
                        assert((text0.len() + s@.len()) as usize == e);
                    }
                    mk.markers.push(
                        TextMarker { start_pos: l, end_pos: e, kind: MarkerKind::InlineCode },
                    );
                    i += 1;
                },
                Token::SoftBreak => {
                    text.append(" ");
                    proof {
                        reveal_strlit(" ");
                        assert(text@ =~= text0 + seq![' ']);
                    }
                    i += 1;
                },
                Token::HardBreak => {
                    text.append("\n");
                    proof {
                        reveal_strlit("\n");
                        assert(text@ =~= text0 + seq!['\n']);
                    }
                    i += 1;
                },
                Token::Rule => {
                    res.push(MarkdownContent::HorizontalLine { height: 0 });
                    i += 1;
                },
                _ => {
                    i += 1;
                },
            }
        }
    }
    match until {
        Option::Some(_) => Err(ParseError::UnterminatedScope),
        Option::None => {
            let ghost text0 = text@;
            let ghost mk0 = mk@;
            let ghost acc0 = res@;
            if !text.as_str().is_empty() {
                res.push(
                    MarkdownContent::Paragraph {
                        top_margin: SCOPE_END_TOP_MARGIN,
                        text,
                        markers: mk.markers,
                        text_layout: TextLayoutInfo::empty(),
                    },
                );
            }
            proof {
                assert(res@ =~= spec_finish(text0, mk0, acc0));
            }
            let next = tokens.len();
            Ok((res, next))
        },
    }
}

/// Builds the whole document flow from a token stream. Succeeds on
/// every stream whose list and quote scopes are properly nested and
/// terminated, consuming the stream to its end; fails with the
/// prescribed error exactly when the builder's spec aborts.
pub fn build_document(tokens: &Vec<Token>) -> (r: Result<LayoutFlow, ParseError>)
    ensures
        match r {
            Ok(f) => spec_build_flow(
                tokens@,
                0,
                Option::None,
                Seq::empty(),
                MarkerStateV::empty(),
                empty_flow(),
            ) == (FlowOut::Done { flow: f@, next: tokens@.len() as nat }) && flow_offsets_ok(f@),
            Err(e) => spec_build_flow(
                tokens@,
                0,
                Option::None,
                Seq::empty(),
                MarkerStateV::empty(),
                empty_flow(),
            ) == (FlowOut::Fail { err: e }),
        },
{
    proof {
        lemma_flow_progress(
            tokens@,
            0,
            Option::None,
            Seq::empty(),
            MarkerStateV::empty(),
            empty_flow(),
        );
    }
    match build_flow(tokens, 0, Option::None) {
        Ok(p) => {
            let (flow, next) = p;
            proof {
                lemma_top_level_consumes_all(
                    tokens@,
                    0,
                    Seq::empty(),
                    MarkerStateV::empty(),
                    empty_flow(),
                );
            }
            Ok(flow)
        },
        Err(e) => Err(e),
    }
}

/// A top-level build, which has no terminator, consumes the stream to
/// its end.
proof fn lemma_top_level_consumes_all(
    tokens: Seq<Token>,
    i: nat,
    text: Seq<char>,
    mk: MarkerStateV,
    acc: FlowV,
)
    requires
        i <= tokens.len(),
    ensures
        match spec_build_flow(tokens, i, Option::None, text, mk, acc) {
            FlowOut::Done { flow, next } => next == tokens.len(),
            FlowOut::Fail { err } => true,
        },
    decreases tokens.len() - i, 2nat,
{
    if i < tokens.len() {
        let t = tokens[i as int];
        if spec_is_marker_token(t) {
            lemma_top_level_consumes_all(
                tokens,
                (i + 1) as nat,
                text,
                spec_marker_step(mk, t, text.len() as usize),
                acc,
            );
        } else {
            match t {
                Token::HeadingStart(level) => {
                    let (b, j) = spec_build_header(
                        tokens,
                        (i + 1) as nat,
                        level,
                        Seq::empty(),
                        MarkerStateV::empty(),
                    );
                    lemma_top_level_consumes_all(
                        tokens,
                        adv(tokens, i, j),
                        text,
                        mk,
                        spec_flow_push(acc, b),
                    );
                },
                Token::BlockQuoteStart => {
                    let sub = spec_build_flow(
                        tokens,
                        (i + 1) as nat,
                        Option::Some(Scope::BlockQuote),
                        Seq::empty(),
                        MarkerStateV::empty(),
                        empty_flow(),
                    );
                    match sub {
                        FlowOut::Done { flow, next } => {
                            lemma_top_level_consumes_all(
                                tokens,
                                adv(tokens, i, next),
                                text,
                                mk,
                                spec_flow_push(acc, BlockV::Indented { flow }),
                            );
                        },
                        FlowOut::Fail { err } => {},
                    }
                },
                Token::ListStart(start_opt) => {
                    let sub = spec_build_list(tokens, (i + 1) as nat, Seq::empty());
                    match sub {
                        ListOut::Done { items, next } => {
                            let marker = match start_opt {
                                Option::Some(s) => ListMarkerV::Numbers {
                                    start_number: trunc32(s),
                                    widths: Seq::empty(),
                                },
                                Option::None => ListMarkerV::Symbol {
                                    symbol: seq!['\u{2022}'],
                                    width: 0,
                                },
                            };
                            lemma_top_level_consumes_all(
                                tokens,
                                adv(tokens, i, next),
                                text,
                                mk,
                                spec_flow_push(acc, BlockV::List { items, marker, indentation: 0 }),
                            );
                        },
                        ListOut::Fail { err } => {},
                    }
                },
                Token::ImageStart(dest, title) => {
                    let j = spec_skip_image(tokens, (i + 1) as nat);
                    lemma_top_level_consumes_all(
                        tokens,
                        adv(tokens, i, j),
                        text,
                        mk,
                        spec_flow_push(
                            acc,
                            BlockV::Image { uri: dest@, title: title@, image: Option::None },
                        ),
                    );
                },
                Token::CodeBlockStart => {
                    let (txt, j) = spec_build_code(tokens, (i + 1) as nat, Seq::empty());
                    lemma_top_level_consumes_all(
                        tokens,
                        adv(tokens, i, j),
                        text,
                        mk,
                        spec_flow_push(
                            acc,
                            BlockV::CodeBlock {
                                text: txt,
                                text_layout: TextLayoutInfo { height: 0, full_width: 0 },
                            },
                        ),
                    );
                },
                Token::UnsupportedStart => {
                    let j = spec_skip_unsupported(tokens, (i + 1) as nat, 1);
                    lemma_top_level_consumes_all(tokens, adv(tokens, i, j), text, mk, acc);
                },
                Token::ParagraphEnd => {
                    if !spec_is_blank(text) {
                        lemma_top_level_consumes_all(
                            tokens,
                            (i + 1) as nat,
                            Seq::empty(),
                            MarkerStateV { markers: Seq::empty(), ..mk },
                            spec_flow_push(
                                acc,
                                BlockV::Paragraph {
                                    top_margin: PARAGRAPH_TOP_MARGIN,
                                    text,
                                    markers: mk.markers,
                                    text_layout: TextLayoutInfo { height: 0, full_width: 0 },
                                },
                            ),
                        );
                    } else {
                        lemma_top_level_consumes_all(tokens, (i + 1) as nat, text, mk, acc);
                    }
                },
                Token::Text(s) => lemma_top_level_consumes_all(
                    tokens,
                    (i + 1) as nat,
                    text + s@,
                    mk,
                    acc,
                ),
                Token::Code(s) => lemma_top_level_consumes_all(
                    tokens,
                    (i + 1) as nat,
                    text + s@,
                    MarkerStateV {
                        markers: mk.markers.push(
                            TextMarker {
                                start_pos: text.len() as usize,
                                end_pos: (text.len() + s@.len()) as usize,
                                kind: MarkerKind::InlineCode,
                            },
                        ),
                        ..mk
                    },
                    acc,
                ),
                Token::Html(s) => lemma_top_level_consumes_all(
                    tokens,
                    (i + 1) as nat,
                    text + s@,
                    MarkerStateV {
                        markers: mk.markers.push(
                            TextMarker {
                                start_pos: text.len() as usize,
                                end_pos: (text.len() + s@.len()) as usize,
                                kind: MarkerKind::InlineCode,
                            },
                        ),
                        ..mk
                    },
                    acc,
                ),
                Token::SoftBreak => lemma_top_level_consumes_all(
                    tokens,
                    (i + 1) as nat,
                    text + seq![' '],
                    mk,
                    acc,
                ),
                Token::HardBreak => lemma_top_level_consumes_all(
                    tokens,
                    (i + 1) as nat,
                    text + seq!['\n'],
                    mk,
                    acc,
                ),
                Token::Rule => lemma_top_level_consumes_all(
                    tokens,
                    (i + 1) as nat,
                    text,
                    mk,
                    spec_flow_push(acc, BlockV::HorizontalLine { height: 0 }),
                ),
                _ => lemma_top_level_consumes_all(tokens, (i + 1) as nat, text, mk, acc),
            }
        }
    }
}

} // verus!
