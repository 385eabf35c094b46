//! End-to-end parsing tests: markdown source through the external
//! tokenizer into the verified block builder.

use markdown_flow::builder::{build_document, ParseError};
use markdown_flow::content::MarkdownContent;
use markdown_flow::marker::MarkerKind;
use markdown_flow::parse::parse_markdown;
use markdown_flow::token::Token;

#[test]
fn marker_roundtrip() {
    // One marker per emphasis kind, with start/end matching the
    // plain-text offsets of a, b, c and d.
    let flow = parse_markdown("**a** *b* ~~c~~ `d`").unwrap();
    assert_eq!(flow.flow.len(), 1);
    match &flow.flow[0].data {
        MarkdownContent::Paragraph { text, markers, .. } => {
            assert_eq!(text, "a b c d");
            assert_eq!(markers.len(), 4);
            assert_eq!(markers[0].kind, MarkerKind::Bold);
            assert_eq!((markers[0].start_pos, markers[0].end_pos), (0, 1));
            assert_eq!(markers[1].kind, MarkerKind::Italic);
            assert_eq!((markers[1].start_pos, markers[1].end_pos), (2, 3));
            assert_eq!(markers[2].kind, MarkerKind::Strikethrough);
            assert_eq!((markers[2].start_pos, markers[2].end_pos), (4, 5));
            assert_eq!(markers[3].kind, MarkerKind::InlineCode);
            assert_eq!((markers[3].start_pos, markers[3].end_pos), (6, 7));
        },
        _ => panic!("expected a paragraph"),
    }
}

#[test]
fn table_between_paragraphs_is_skipped() {
    // A table between two paragraphs yields exactly the two
    // paragraphs and no block for the table.
    let src = "para one\n\n| a | b |\n|---|---|\n| c | d |\n\npara two\n";
    let flow = parse_markdown(src).unwrap();
    assert_eq!(flow.flow.len(), 2);
    match &flow.flow[0].data {
        MarkdownContent::Paragraph { text, .. } => assert_eq!(text, "para one"),
        _ => panic!("expected a paragraph"),
    }
    match &flow.flow[1].data {
        MarkdownContent::Paragraph { text, .. } => assert_eq!(text, "para two"),
        _ => panic!("expected a paragraph"),
    }
}

#[test]
fn empty_document() {
    let flow = parse_markdown("").unwrap();
    assert_eq!(flow.flow.len(), 0);
}

#[test]
fn heading_and_level() {
    let flow = parse_markdown("## Title\n").unwrap();
    assert_eq!(flow.flow.len(), 1);
    match &flow.flow[0].data {
        MarkdownContent::Header { level, text, .. } => {
            assert_eq!(*level, 2);
            assert_eq!(text, "Title");
        },
        _ => panic!("expected a heading"),
    }
}

#[test]
fn blockquote_becomes_indented() {
    let flow = parse_markdown("> quoted words\n").unwrap();
    assert_eq!(flow.flow.len(), 1);
    match &flow.flow[0].data {
        MarkdownContent::Indented { flow: inner, .. } => {
            assert_eq!(inner.flow.len(), 1);
            match &inner.flow[0].data {
                MarkdownContent::Paragraph { text, .. } => assert_eq!(text, "quoted words"),
                _ => panic!("expected a paragraph inside the quote"),
            }
        },
        _ => panic!("expected an indented block"),
    }
}

#[test]
fn bulleted_list_items() {
    let flow = parse_markdown("- one\n- two\n- three\n").unwrap();
    assert_eq!(flow.flow.len(), 1);
    match &flow.flow[0].data {
        MarkdownContent::List { list } => {
            assert_eq!(list.list.len(), 3);
            assert_eq!(list.indentation, 0);
        },
        _ => panic!("expected a list"),
    }
}

#[test]
fn numbered_list_start() {
    let flow = parse_markdown("3. three\n4. four\n").unwrap();
    match &flow.flow[0].data {
        MarkdownContent::List { list } => {
            assert_eq!(list.list.len(), 2);
            match &list.marker {
                markdown_flow::content::ListMarker::Numbers { start_number, .. } => {
                    assert_eq!(*start_number, 3);
                },
                _ => panic!("expected a numbered marker"),
            }
        },
        _ => panic!("expected a list"),
    }
}

#[test]
fn image_is_captured_without_decoding() {
    let flow = parse_markdown("![alt words](missing.png \"a title\")\n").unwrap();
    assert_eq!(flow.flow.len(), 1);
    match &flow.flow[0].data {
        MarkdownContent::Image { uri, title, image } => {
            assert_eq!(uri, "missing.png");
            assert_eq!(title, "a title");
            assert!(image.is_none());
        },
        _ => panic!("expected an image"),
    }
}

#[test]
fn code_block_text_is_kept() {
    let flow = parse_markdown("```\nlet x = 1;\n```\n").unwrap();
    assert_eq!(flow.flow.len(), 1);
    match &flow.flow[0].data {
        MarkdownContent::CodeBlock { text, text_layout } => {
            assert_eq!(text, "let x = 1;\n");
            assert_eq!(text_layout.height, 0);
        },
        _ => panic!("expected a code block"),
    }
}

#[test]
fn rule_token_becomes_horizontal_line() {
    let flow = parse_markdown("above\n\n---\n\nbelow\n").unwrap();
    assert_eq!(flow.flow.len(), 3);
    assert!(matches!(&flow.flow[1].data, MarkdownContent::HorizontalLine { .. }));
}

#[test]
fn hard_and_soft_breaks() {
    let flow = parse_markdown("one\ntwo  \nthree\n").unwrap();
    match &flow.flow[0].data {
        MarkdownContent::Paragraph { text, .. } => assert_eq!(text, "one two\nthree"),
        _ => panic!("expected a paragraph"),
    }
}

#[test]
fn unterminated_list_scope_fails() {
    let tokens = vec![Token::ListStart(None), Token::ItemStart];
    assert!(matches!(build_document(&tokens), Err(ParseError::UnterminatedScope)));
}

#[test]
fn malformed_list_token_fails() {
    let tokens = vec![Token::ListStart(None), Token::Text(String::from("stray"))];
    assert!(matches!(build_document(&tokens), Err(ParseError::UnexpectedListToken)));
}

#[test]
fn scope_end_flushes_pending_text() {
    // Pending text at the end of the stream flushes as a paragraph
    // with the distinct scope-end margin.
    let tokens = vec![Token::ParagraphStart, Token::Text(String::from("tail"))];
    let flow = build_document(&tokens).unwrap();
    assert_eq!(flow.flow.len(), 1);
    match &flow.flow[0].data {
        MarkdownContent::Paragraph { top_margin, text, .. } => {
            assert_eq!(*top_margin, markdown_flow::builder::SCOPE_END_TOP_MARGIN);
            assert_eq!(text, "tail");
        },
        _ => panic!("expected a paragraph"),
    }
}

#[test]
fn blank_paragraph_is_not_emitted() {
    // A blank-only paragraph is skipped at its end token; the pending
    // text is only cleared by a flush, so it still drains into the
    // end-of-scope paragraph.
    let tokens = vec![
        Token::ParagraphStart,
        Token::Text(String::from("   ")),
        Token::ParagraphEnd,
    ];
    let flow = build_document(&tokens).unwrap();
    assert_eq!(flow.flow.len(), 1);
    match &flow.flow[0].data {
        MarkdownContent::Paragraph { top_margin, .. } => {
            assert_eq!(*top_margin, markdown_flow::builder::SCOPE_END_TOP_MARGIN);
        },
        _ => panic!("expected a paragraph"),
    }
}

#[test]
fn heading_recovered_at_stream_end() {
    // A heading whose end token never arrives is recovered as the
    // partial heading read so far.
    let tokens = vec![Token::HeadingStart(2), Token::Text(String::from("cut"))];
    let flow = build_document(&tokens).unwrap();
    assert_eq!(flow.flow.len(), 1);
    match &flow.flow[0].data {
        MarkdownContent::Header { level, text, .. } => {
            assert_eq!(*level, 2);
            assert_eq!(text, "cut");
        },
        _ => panic!("expected a heading"),
    }
}

#[test]
fn image_recovered_at_stream_end() {
    let tokens = vec![Token::ImageStart(String::from("u.png"), String::new())];
    let flow = build_document(&tokens).unwrap();
    assert_eq!(flow.flow.len(), 1);
    assert!(matches!(&flow.flow[0].data, MarkdownContent::Image { .. }));
}

#[test]
fn inline_html_is_skipped() {
    let flow = parse_markdown("a <b>c\n").unwrap();
    match &flow.flow[0].data {
        MarkdownContent::Paragraph { text, markers, .. } => {
            assert_eq!(text, "a c");
            assert_eq!(markers.len(), 0);
        },
        _ => panic!("expected a paragraph"),
    }
}

#[test]
fn raw_markup_text_becomes_a_code_marker() {
    // A raw markup token is treated as an immediately closed marker
    // spanning exactly the inserted text.
    let tokens = vec![
        Token::ParagraphStart,
        Token::Html(String::from("<x>")),
        Token::ParagraphEnd,
    ];
    let flow = build_document(&tokens).unwrap();
    match &flow.flow[0].data {
        MarkdownContent::Paragraph { text, markers, .. } => {
            assert_eq!(text, "<x>");
            assert_eq!(markers.len(), 1);
            assert_eq!(markers[0].kind, MarkerKind::InlineCode);
            assert_eq!((markers[0].start_pos, markers[0].end_pos), (0, 3));
        },
        _ => panic!("expected a paragraph"),
    }
}
