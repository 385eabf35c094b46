//! Layout-flow tests: offsets, visibility queries, the measurement
//! request/result protocol, and the widget's scroll and relayout
//! guards.

use markdown_flow::content::{LayoutFlow, MarkdownContent};
use markdown_flow::measure::{number_label, MeasureRequest, MeasureResult};
use markdown_flow::theme::get_theme;
use markdown_flow::widget::MarkdowWidget;

fn rule(height: u64) -> MarkdownContent {
    MarkdownContent::HorizontalLine { height }
}

#[test]
fn offsets_follow_heights() {
    // offset[i+1] = offset[i] + height[i], starting at zero.
    let mut flow = LayoutFlow::new();
    flow.push(rule(30));
    flow.push(rule(40));
    flow.push(rule(20));
    assert_eq!(flow.flow[0].offset, 0);
    assert_eq!(flow.flow[1].offset, 30);
    assert_eq!(flow.flow[2].offset, 70);
    assert_eq!(flow.height(), 90);
}

#[test]
fn visibility_exact_intersection() {
    let mut flow = LayoutFlow::new();
    flow.push(rule(30));
    flow.push(rule(30));
    flow.push(rule(30));
    let parts = flow.get_visible_parts(25, 10);
    assert_eq!(parts.len(), 2);
    assert_eq!(parts[0].index, 0);
    assert_eq!(parts[0].offset, 0);
    assert_eq!((parts[0].local_top, parts[0].local_bottom), (25, 30));
    assert_eq!(parts[1].index, 1);
    assert_eq!(parts[1].offset, 30);
    assert_eq!((parts[1].local_top, parts[1].local_bottom), (0, 5));
}

#[test]
fn zero_height_block_is_never_visible() {
    let mut flow = LayoutFlow::new();
    flow.push(rule(30));
    flow.push(rule(0));
    flow.push(rule(30));
    let parts = flow.get_visible_parts(0, 60);
    assert_eq!(parts.len(), 2);
    assert_eq!(parts[0].index, 0);
    assert_eq!(parts[1].index, 2);
}

#[test]
fn visibility_in_large_document() {
    let mut flow = LayoutFlow::new();
    let mut i = 0;
    while i < 100 {
        flow.push(rule(10));
        i += 1;
    }
    let parts = flow.get_visible_parts(500, 20);
    assert_eq!(parts.len(), 2);
    assert_eq!(parts[0].index, 50);
    assert_eq!(parts[0].offset, 500);
    assert_eq!(parts[1].index, 51);
    assert_eq!(parts[1].offset, 510);
}

#[test]
fn empty_viewport_sees_nothing() {
    let mut flow = LayoutFlow::new();
    flow.push(rule(30));
    let parts = flow.get_visible_parts(10, 0);
    assert_eq!(parts.len(), 0);
}

fn measured_widget(src: &str, width: u64, heights: &[u64]) -> MarkdowWidget {
    let theme = get_theme();
    let mut w = MarkdowWidget::from_markdown(src).unwrap();
    let pre = w.premeasure_requests(&theme);
    let mut pre_results: Vec<MeasureResult> = Vec::new();
    for req in pre.iter() {
        match req {
            MeasureRequest::Marker { text, .. } => {
                pre_results.push(MeasureResult::Marker { width: text.len() as u64 * 7 });
            },
            MeasureRequest::Image { .. } => {
                pre_results.push(MeasureResult::Image { found: false, width: 0, height: 0 });
            },
            MeasureRequest::Text { .. } => panic!("no text requests in the width-free pass"),
        }
    }
    w.apply_premeasure(&pre_results, &theme);
    let reqs = w.text_requests(width, &theme);
    assert_eq!(reqs.len(), heights.len());
    let mut results: Vec<MeasureResult> = Vec::new();
    for h in heights.iter() {
        results.push(MeasureResult::Text { height: *h, full_width: 10 });
    }
    w.apply_text_heights(width, &results);
    w
}

#[test]
fn measurement_caches_heights_and_offsets() {
    // Two paragraphs shaped at 40 and 20 units: the first adds its
    // paragraph margin of 10, so the second sits at offset 50.
    let w = measured_widget("first\n\nsecond\n", 600, &[40, 20]);
    assert_eq!(w.markdown_layout.flow[0].offset, 0);
    assert_eq!(w.markdown_layout.flow[1].offset, 50);
    assert_eq!(w.height(), 80);
}

#[test]
fn layout_is_idempotent() {
    // A second pass with the same width and results moves nothing.
    let theme = get_theme();
    let mut w = measured_widget("first\n\nsecond\n\nthird\n", 600, &[40, 20, 30]);
    let offsets_once: Vec<u64> = w.markdown_layout.flow.iter().map(|e| e.offset).collect();
    let height_once = w.height();
    let reqs = w.text_requests(600, &theme);
    assert_eq!(reqs.len(), 3);
    let results = vec![
        MeasureResult::Text { height: 40, full_width: 10 },
        MeasureResult::Text { height: 20, full_width: 10 },
        MeasureResult::Text { height: 30, full_width: 10 },
    ];
    w.apply_text_heights(600, &results);
    let offsets_twice: Vec<u64> = w.markdown_layout.flow.iter().map(|e| e.offset).collect();
    assert_eq!(offsets_once, offsets_twice);
    assert_eq!(w.height(), height_once);
}

#[test]
fn relayout_guard() {
    let w = measured_widget("hello\n", 600, &[25]);
    assert!(!w.needs_layout(600));
    assert!(w.needs_layout(500));
    let w2 = MarkdowWidget::from_markdown("hello\n").unwrap();
    assert!(w2.needs_layout(600));
}

#[test]
fn failed_image_decode_contributes_zero_height() {
    // The image request fails; the sibling paragraph still lays out.
    let w = measured_widget("![alt](nope.png)\n\nhello\n", 600, &[25]);
    assert_eq!(w.markdown_layout.flow.len(), 2);
    assert_eq!(w.markdown_layout.flow[0].offset, 0);
    assert_eq!(w.markdown_layout.flow[1].offset, 0);
    assert_eq!(w.height(), 35);
}

#[test]
fn numbered_list_indentation() {
    // Items 1..12: markers "1." to "12.", widths 7 units per label
    // character; the indentation covers the widest label "12." plus
    // the two spacing constants, 28 + 10 + 8.
    let src = "1. a\n2. b\n3. c\n4. d\n5. e\n6. f\n7. g\n8. h\n9. i\n10. j\n11. k\n12. l\n";
    let theme = get_theme();
    let mut w = MarkdowWidget::from_markdown(src).unwrap();
    let pre = w.premeasure_requests(&theme);
    assert_eq!(pre.len(), 12);
    match &pre[0] {
        MeasureRequest::Marker { text, .. } => assert_eq!(text, "1."),
        _ => panic!("expected a marker request"),
    }
    match &pre[11] {
        MeasureRequest::Marker { text, .. } => assert_eq!(text, "12."),
        _ => panic!("expected a marker request"),
    }
    let mut pre_results: Vec<MeasureResult> = Vec::new();
    for req in pre.iter() {
        match req {
            MeasureRequest::Marker { text, .. } => {
                pre_results.push(MeasureResult::Marker { width: text.len() as u64 * 7 });
            },
            _ => panic!("expected only marker requests"),
        }
    }
    w.apply_premeasure(&pre_results, &theme);
    match &w.markdown_layout.flow[0].data {
        MarkdownContent::List { list } => {
            assert_eq!(list.indentation, 21 + 10 + 8);
            assert!(list.indentation >= 21 + 10 + 8);
        },
        _ => panic!("expected a list"),
    }
}

#[test]
fn bulleted_indentation_ignores_item_count() {
    let theme = get_theme();
    let mut ind = Vec::new();
    for src in ["- a\n", "- a\n- b\n- c\n- d\n"] {
        let mut w = MarkdowWidget::from_markdown(src).unwrap();
        let pre = w.premeasure_requests(&theme);
        assert_eq!(pre.len(), 1);
        let pre_results = vec![MeasureResult::Marker { width: 9 }];
        w.apply_premeasure(&pre_results, &theme);
        match &w.markdown_layout.flow[0].data {
            MarkdownContent::List { list } => ind.push(list.indentation),
            _ => panic!("expected a list"),
        }
    }
    assert_eq!(ind[0], 9 + 10 + 8);
    assert_eq!(ind[0], ind[1]);
}

#[test]
fn nested_flow_width_is_reduced() {
    let theme = get_theme();
    let w = MarkdowWidget::from_markdown("> quoted\n").unwrap();
    let reqs = w.text_requests(100, &theme);
    assert_eq!(reqs.len(), 1);
    match &reqs[0] {
        MeasureRequest::Text { max_width, .. } => {
            assert_eq!(*max_width, 100 - theme.indentation_decoration_width);
        },
        _ => panic!("expected a text request"),
    }
}

#[test]
fn heading_request_scales_the_font() {
    let theme = get_theme();
    let w = MarkdowWidget::from_markdown("# Hi\n").unwrap();
    let reqs = w.text_requests(600, &theme);
    assert_eq!(reqs.len(), 1);
    match &reqs[0] {
        MeasureRequest::Text { font_size_eighths, bold, line_height_halves, max_width, .. } => {
            assert_eq!(*font_size_eighths, 16 * 17);
            assert!(*bold);
            assert_eq!(*line_height_halves, 4);
            assert_eq!(*max_width, 600);
        },
        _ => panic!("expected a text request"),
    }
}

#[test]
fn code_block_is_a_measurement_no_op() {
    let theme = get_theme();
    let w = MarkdowWidget::from_markdown("```\ncode\n```\n").unwrap();
    let reqs = w.text_requests(600, &theme);
    assert_eq!(reqs.len(), 0);
    assert_eq!(w.height(), 0);
}

#[test]
fn scroll_is_clamped_to_content() {
    let mut w = measured_widget("first\n\nsecond\n", 600, &[40, 20]);
    assert_eq!(w.height(), 80);
    w.scroll_by(1000, 30);
    assert_eq!(w.scroll_y, 50);
    w.scroll_by(-10, 30);
    assert_eq!(w.scroll_y, 40);
    w.scroll_by(-1000, 30);
    assert_eq!(w.scroll_y, 0);
}

#[test]
fn widget_visible_parts_follow_scroll() {
    let mut w = measured_widget("first\n\nsecond\n", 600, &[40, 20]);
    w.scroll_by(55, 20);
    assert_eq!(w.scroll_y, 55);
    let parts = w.visible_parts(20);
    assert_eq!(parts.len(), 1);
    assert_eq!(parts[0].index, 1);
    assert_eq!(parts[0].offset, 50);
    assert_eq!((parts[0].local_top, parts[0].local_bottom), (5, 25));
}

#[test]
fn number_labels_are_decimal() {
    assert_eq!(number_label(1), "1.");
    assert_eq!(number_label(12), "12.");
    assert_eq!(number_label(120), "120.");
    assert_eq!(number_label(0), "0.");
}

#[test]
fn visibility_matches_a_full_scan() {
    // The query returns exactly the blocks a full scan would find,
    // for every viewport over the document.
    let heights: [u64; 6] = [30, 0, 25, 10, 0, 5];
    let mut flow = LayoutFlow::new();
    for h in heights {
        flow.push(rule(h));
    }
    for top in 0..=75u64 {
        for vh in 0..=40u64 {
            let got: Vec<usize> =
                flow.get_visible_parts(top, vh).iter().map(|p| p.index).collect();
            let mut expected = Vec::new();
            let mut off = 0u64;
            for (i, h) in heights.iter().enumerate() {
                let lo = off.max(top);
                let hi = (off + h).min(top + vh);
                if lo < hi {
                    expected.push(i);
                }
                off += h;
            }
            assert_eq!(got, expected);
        }
    }
}
