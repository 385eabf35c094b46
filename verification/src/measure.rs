//! The measurement pass: the decisions of layout, verified.
//!
//! Shaping and image decoding live outside the library, so measurement
//! runs as two request/result exchanges with the host. A width-free
//! pass first shapes the list marker glyphs and decodes images; the
//! library then fixes every list indentation. A second pass shapes
//! each text block at its effective width; the library then caches the
//! heights and recomputes every offset.

use vstd::prelude::*;

use vstd::string::{StrSliceExecFns, StringExecFns};

use crate::content::{
    block_view, flow_view, flows_view, lemma_entries_view, lemma_flows_view, sat_add, sat_add_u64,
    BlockV, FlowV, ImageInfo, LayoutFlow, List, ListMarker, ListMarkerV, MarkdownContent,
};
use crate::marker::TextMarker;
use crate::theme::{
    heading_mult_eighths, scaled_u64, spec_heading_mult_eighths, spec_scaled, Theme,
};

verus! {

/// Saturating subtraction on layout units: a nested flow laid out in a
/// width narrower than its parent's indentation gets width zero.
pub open spec fn sat_sub(a: u64, b: u64) -> u64 {
    if a >= b {
        (a - b) as u64
    } else {
        0
    }
}

/// Executable saturating subtraction matching `sat_sub`.
pub fn sat_sub_u64(a: u64, b: u64) -> (r: u64)
    ensures
        r == sat_sub(a, b),
{
    if a >= b {
        a - b
    } else {
        0
    }
}

/// The decimal digit character of a value below ten.
pub open spec fn spec_digit_char(d: nat) -> char {
    if d == 0 {
        '0'
    } else if d == 1 {
        '1'
    } else if d == 2 {
        '2'
    } else if d == 3 {
        '3'
    } else if d == 4 {
        '4'
    } else if d == 5 {
        '5'
    } else if d == 6 {
        '6'
    } else if d == 7 {
        '7'
    } else if d == 8 {
        '8'
    } else {
        '9'
    }
}

/// The decimal digits of a number, most significant first.
pub open spec fn spec_digits(n: nat) -> Seq<char>
    decreases n,
{
    if n < 10 {
        seq![spec_digit_char(n)]
    } else {
        spec_digits(n / 10).push(spec_digit_char(n % 10))
    }
}

/// The marker label of a numbered list item: its number followed by a
/// period.
pub open spec fn spec_number_label(n: nat) -> Seq<char> {
    spec_digits(n).push('.')
}

/// The decimal digit string of a value below ten.
fn digit_str(d: u64) -> (r: &'static str)
    requires
        d < 10,
    ensures
        r@ == seq![spec_digit_char(d as nat)],
{
    proof {
        reveal_strlit("0");
        reveal_strlit("1");
        reveal_strlit("2");
        reveal_strlit("3");
        reveal_strlit("4");
        reveal_strlit("5");
        reveal_strlit("6");
        reveal_strlit("7");
        reveal_strlit("8");
        reveal_strlit("9");
    }
    let r = if d == 0 {
        "0"
    } else if d == 1 {
        "1"
    } else if d == 2 {
        "2"
    } else if d == 3 {
        "3"
    } else if d == 4 {
        "4"
    } else if d == 5 {
        "5"
    } else if d == 6 {
        "6"
    } else if d == 7 {
        "7"
    } else if d == 8 {
        "8"
    } else {
        "9"
    };
    proof {
        assert(r@ =~= seq![spec_digit_char(d as nat)]);
    }
    r
}

/// Appends the decimal digits of `n` to `out`.
fn push_digits(n: u64, out: &mut String)
    ensures
        final(out)@ == old(out)@ + spec_digits(n as nat),
    decreases n,
{
    if n < 10 {
        out.append(digit_str(n));
        proof {
            assert(final(out)@ =~= old(out)@ + spec_digits(n as nat));
        }
    } else {
        push_digits(n / 10, out);
        out.append(digit_str(n % 10));
        proof {
            assert(final(out)@ =~= old(out)@ + spec_digits(n as nat));
        }
    }
}

/// The shaped label of a numbered list item, "<number>.".
pub fn number_label(n: u64) -> (r: String)
    ensures
        r@ == spec_number_label(n as nat),
{
    let mut out = String::new();
    push_digits(n, &mut out);
    out.append(".");
    proof {
        reveal_strlit(".");
        assert(out@ =~= spec_number_label(n as nat));
    }
    out
}

/// The indentation a marker column of the given shaped widths
/// reserves: the widest marker plus the spacing before and after the
/// marker. An empty numbered list reserves nothing.
pub open spec fn spec_numbered_indentation(widths: Seq<u64>, theme: Theme) -> u64
    decreases widths,
{
    if widths.len() == 0 {
        0
    } else {
        let w = sat_add(
            widths.last(),
            sat_add(theme.numbered_list_indentation, theme.list_after_indentation),
        );
        let rest = spec_numbered_indentation(widths.drop_last(), theme);
        if w >= rest {
            w
        } else {
            rest
        }
    }
}

/// The indentation of a list: a function of the marker's shaped widths
/// and the theme's two spacing constants alone.
pub open spec fn spec_list_indentation(marker: crate::content::ListMarkerV, theme: Theme) -> u64 {
    match marker {
        crate::content::ListMarkerV::Symbol { symbol, width } => sat_add(
            width,
            sat_add(theme.bullet_list_indentation, theme.list_after_indentation),
        ),
        crate::content::ListMarkerV::Numbers { start_number, widths } => spec_numbered_indentation(
            widths,
            theme,
        ),
    }
}

/// The indentation of a numbered list is at least every marker's
/// shaped width plus the two spacing constants; the indentation of a
/// bulleted list is its symbol's shaped width plus the two spacing
/// constants, whatever the number of items.
pub proof fn lemma_list_indentation(marker: crate::content::ListMarkerV, theme: Theme)
    ensures
        match marker {
            crate::content::ListMarkerV::Numbers { start_number, widths } => forall|k: int|
                0 <= k < widths.len() ==> spec_list_indentation(marker, theme) >= sat_add(
                    #[trigger] widths[k],
                    sat_add(theme.numbered_list_indentation, theme.list_after_indentation),
                ),
            crate::content::ListMarkerV::Symbol { symbol, width } => spec_list_indentation(
                marker,
                theme,
            ) == sat_add(
                width,
                sat_add(theme.bullet_list_indentation, theme.list_after_indentation),
            ),
        },
{
    match marker {
        crate::content::ListMarkerV::Numbers { start_number, widths } => {
            lemma_numbered_indentation_ge(widths, theme);
        },
        _ => {},
    }
}

/// Each width's padded extent is bounded by the column maximum.
proof fn lemma_numbered_indentation_ge(widths: Seq<u64>, theme: Theme)
    ensures
        forall|k: int|
            0 <= k < widths.len() ==> spec_numbered_indentation(widths, theme) >= sat_add(
                #[trigger] widths[k],
                sat_add(theme.numbered_list_indentation, theme.list_after_indentation),
            ),
    decreases widths,
{
    if widths.len() > 0 {
        lemma_numbered_indentation_ge(widths.drop_last(), theme);
        assert forall|k: int|
            0 <= k < widths.len() implies spec_numbered_indentation(widths, theme) >= sat_add(
            #[trigger] widths[k],
            sat_add(theme.numbered_list_indentation, theme.list_after_indentation),
        ) by {
            if k < widths.len() - 1 {
                assert(widths.drop_last()[k] == widths[k]);
            }
        }
    }
}

/// One unit of outside work the measurement pass asks the host for: a
/// text to shape at a width, a marker glyph to shape unbounded, or an
/// image to decode.
#[derive(Debug)]
pub enum MeasureRequest {
    Text {
        text: String,
        markers: Vec<TextMarker>,
        font_size_eighths: u64,
        bold: bool,
        line_height_halves: u64,
        max_width: u64,
    },
    Marker { text: String, font_size_eighths: u64 },
    Image { uri: String },
}

/// The mathematical image of a measurement request.
#[verifier::ext_equal]
pub enum ReqV {
    Text {
        text: Seq<char>,
        markers: Seq<TextMarker>,
        font_size_eighths: u64,
        bold: bool,
        line_height_halves: u64,
        max_width: u64,
    },
    Marker { text: Seq<char>, font_size_eighths: u64 },
    Image { uri: Seq<char> },
}

impl View for MeasureRequest {
    type V = ReqV;

    open spec fn view(&self) -> ReqV {
        match self {
            MeasureRequest::Text {
                text,
                markers,
                font_size_eighths,
                bold,
                line_height_halves,
                max_width,
            } => ReqV::Text {
                text: text@,
                markers: markers@,
                font_size_eighths: *font_size_eighths,
                bold: *bold,
                line_height_halves: *line_height_halves,
                max_width: *max_width,
            },
            MeasureRequest::Marker { text, font_size_eighths } => ReqV::Marker {
                text: text@,
                font_size_eighths: *font_size_eighths,
            },
            MeasureRequest::Image { uri } => ReqV::Image { uri: uri@ },
        }
    }
}

/// The host's answer to one measurement request, in request order: the
/// shaped height and widest-line width of a text, the shaped width of
/// a marker glyph, or the pixel dimensions of a decoded image (with
/// `found` false when decoding failed).
#[derive(Clone, Copy, PartialEq, Eq, Structural, Debug)]
pub enum MeasureResult {
    Text { height: u64, full_width: u64 },
    Marker { width: u64 },
    Image { found: bool, width: u32, height: u32 },
}

/// The images of a request vector.
pub open spec fn reqs_view(v: Seq<MeasureRequest>) -> Seq<ReqV>
    decreases v,
{
    if v.len() == 0 {
        Seq::empty()
    } else {
        reqs_view(v.drop_last()).push(v.last()@)
    }
}

/// The marker-column requests of a list: one glyph for a bulleted
/// list; one label per item, "start.", "start+1." and so on, for a
/// numbered list. Shaped at the base text size, unbounded.
pub open spec fn spec_marker_reqs(marker: ListMarkerV, n_items: nat, theme: Theme) -> Seq<ReqV> {
    match marker {
        ListMarkerV::Symbol { symbol, width } => seq![
            ReqV::Marker { text: symbol, font_size_eighths: spec_scaled(theme.text_size, 8) },
        ],
        ListMarkerV::Numbers { start_number, widths } => Seq::new(
            n_items,
            |k: int|
                ReqV::Marker {
                    text: spec_number_label(sat_add(k as u64, start_number as u64) as nat),
                    font_size_eighths: spec_scaled(theme.text_size, 8),
                },
        ),
    }
}

/// The width-free requests of a block, in depth-first order: list
/// markers before list items, then each nested flow in order.
pub open spec fn spec_pre_reqs_block(b: BlockV, theme: Theme) -> Seq<ReqV>
    decreases b, 1nat,
{
    match b {
        BlockV::Indented { flow } => spec_pre_reqs_flow(flow, theme),
        BlockV::List { items, marker, indentation } => spec_marker_reqs(
            marker,
            items.len(),
            theme,
        ) + spec_pre_reqs_flows(items, theme),
        BlockV::Image { uri, title, image } => seq![ReqV::Image { uri }],
        _ => Seq::empty(),
    }
}

/// The width-free requests of a sequence of item flows, in order.
pub open spec fn spec_pre_reqs_flows(items: Seq<FlowV>, theme: Theme) -> Seq<ReqV>
    decreases items, 1nat,
{
    if items.len() == 0 {
        Seq::empty()
    } else {
        spec_pre_reqs_flows(items.drop_last(), theme) + spec_pre_reqs_flow(items.last(), theme)
    }
}

/// The width-free requests of a flow, in order.
pub open spec fn spec_pre_reqs_flow(f: FlowV, theme: Theme) -> Seq<ReqV>
    decreases f, 2nat,
{
    spec_pre_reqs_entries(f.entries, theme)
}

/// The width-free requests of a flow's entries, in order.
pub open spec fn spec_pre_reqs_entries(es: Seq<crate::content::FlowEntryV>, theme: Theme) -> Seq<
    ReqV,
>
    decreases es, 1nat,
{
    if es.len() == 0 {
        Seq::empty()
    } else {
        spec_pre_reqs_entries(es.drop_last(), theme) + spec_pre_reqs_block(es.last().data, theme)
    }
}

/// The shaping requests of a block at the given available width:
/// paragraphs at the base size, headings at their level's size and
/// weight; nested flows at the width less the list indentation or the
/// decoration width. Code blocks are a no-op measurement step.
pub open spec fn spec_text_reqs_block(b: BlockV, width: u64, theme: Theme) -> Seq<ReqV>
    decreases b, 1nat,
{
    match b {
        BlockV::Header { level, text, markers, text_layout } => seq![
            ReqV::Text {
                text,
                markers,
                font_size_eighths: spec_scaled(theme.text_size, spec_heading_mult_eighths(level)),
                bold: true,
                line_height_halves: 4,
                max_width: width,
            },
        ],
        BlockV::Paragraph { top_margin, text, markers, text_layout } => seq![
            ReqV::Text {
                text,
                markers,
                font_size_eighths: spec_scaled(theme.text_size, 8),
                bold: false,
                line_height_halves: 2,
                max_width: width,
            },
        ],
        BlockV::Indented { flow } => spec_text_reqs_flow(
            flow,
            sat_sub(width, theme.indentation_decoration_width),
            theme,
        ),
        BlockV::List { items, marker, indentation } => spec_text_reqs_flows(
            items,
            sat_sub(width, indentation),
            theme,
        ),
        _ => Seq::empty(),
    }
}

/// The shaping requests of a sequence of item flows, in order.
pub open spec fn spec_text_reqs_flows(items: Seq<FlowV>, width: u64, theme: Theme) -> Seq<ReqV>
    decreases items, 1nat,
{
    if items.len() == 0 {
        Seq::empty()
    } else {
        spec_text_reqs_flows(items.drop_last(), width, theme) + spec_text_reqs_flow(
            items.last(),
            width,
            theme,
        )
    }
}

/// The shaping requests of a flow, in order.
pub open spec fn spec_text_reqs_flow(f: FlowV, width: u64, theme: Theme) -> Seq<ReqV>
    decreases f, 2nat,
{
    spec_text_reqs_entries(f.entries, width, theme)
}

/// The shaping requests of a flow's entries, in order.
pub open spec fn spec_text_reqs_entries(
    es: Seq<crate::content::FlowEntryV>,
    width: u64,
    theme: Theme,
) -> Seq<ReqV>
    decreases es, 1nat,
{
    if es.len() == 0 {
        Seq::empty()
    } else {
        spec_text_reqs_entries(es.drop_last(), width, theme) + spec_text_reqs_block(
            es.last().data,
            width,
            theme,
        )
    }
}

/// The shaped marker width at a result position; a missing or
/// mismatched result reads as zero width.
pub open spec fn spec_read_marker(res: Seq<MeasureResult>, pos: int) -> u64 {
    if 0 <= pos < res.len() {
        match res[pos] {
            MeasureResult::Marker { width } => width,
            _ => 0,
        }
    } else {
        0
    }
}

/// The shaped text extent at a result position; a missing or
/// mismatched result reads as the empty extent.
pub open spec fn spec_read_text(res: Seq<MeasureResult>, pos: int) -> crate::content::TextLayoutInfo {
    if 0 <= pos < res.len() {
        match res[pos] {
            MeasureResult::Text { height, full_width } => crate::content::TextLayoutInfo {
                height,
                full_width,
            },
            _ => crate::content::TextLayoutInfo { height: 0, full_width: 0 },
        }
    } else {
        crate::content::TextLayoutInfo { height: 0, full_width: 0 }
    }
}

/// The decoded image at a result position; a failed decode, a missing
/// or a mismatched result reads as no image.
pub open spec fn spec_read_image(res: Seq<MeasureResult>, pos: int) -> Option<ImageInfo> {
    if 0 <= pos < res.len() {
        match res[pos] {
            MeasureResult::Image { found, width, height } => if found {
                Option::Some(ImageInfo { width, height })
            } else {
                Option::None
            },
            _ => Option::None,
        }
    } else {
        Option::None
    }
}

/// The result position after consuming some results, capped at the
/// result count.
pub open spec fn spec_adv_pos(res_len: int, pos: int, consumed: int) -> int {
    if pos + consumed <= res_len {
        pos + consumed
    } else {
        res_len
    }
}

/// Applies the width-free results to a block: caches the marker
/// widths, fixes the list indentation from them, records decoded
/// images (an image already decoded is kept, and a failed decode
/// leaves the handle absent, so the block's height stays zero), and
/// derives the rule height from the theme. Returns the block and the
/// next unread result position.
pub open spec fn spec_apply_pre_block(
    b: BlockV,
    res: Seq<MeasureResult>,
    pos: int,
    theme: Theme,
) -> (BlockV, int)
    decreases b, 1nat,
{
    match b {
        BlockV::Indented { flow } => {
            let (f2, p2) = spec_apply_pre_flow(flow, res, pos, theme);
            (BlockV::Indented { flow: f2 }, p2)
        },
        BlockV::List { items, marker, indentation } => {
            let n = items.len() as int;
            let marker2 = match marker {
                ListMarkerV::Symbol { symbol, width } => ListMarkerV::Symbol {
                    symbol,
                    width: spec_read_marker(res, pos),
                },
                ListMarkerV::Numbers { start_number, widths } => ListMarkerV::Numbers {
                    start_number,
                    widths: Seq::new(items.len(), |k: int| spec_read_marker(res, pos + k)),
                },
            };
            let consumed: int = match marker {
                ListMarkerV::Symbol { symbol, width } => 1,
                ListMarkerV::Numbers { start_number, widths } => n,
            };
            let p1 = spec_adv_pos(res.len() as int, pos, consumed);
            let (items2, p2) = spec_apply_pre_flows(items, res, p1, theme);
            (
                BlockV::List {
                    items: items2,
                    marker: marker2,
                    indentation: spec_list_indentation(marker2, theme),
                },
                p2,
            )
        },
        BlockV::Image { uri, title, image } => {
            let image2 = match image {
                Option::Some(info) => Option::Some(info),
                Option::None => spec_read_image(res, pos),
            };
            (BlockV::Image { uri, title, image: image2 }, spec_adv_pos(res.len() as int, pos, 1))
        },
        BlockV::HorizontalLine { height } => (
            BlockV::HorizontalLine { height: theme.rule_height },
            pos,
        ),
        _ => (b, pos),
    }
}

/// Applies the width-free results to a sequence of item flows in
/// order.
pub open spec fn spec_apply_pre_flows(
    items: Seq<FlowV>,
    res: Seq<MeasureResult>,
    pos: int,
    theme: Theme,
) -> (Seq<FlowV>, int)
    decreases items, 3nat,
{
    if items.len() == 0 {
        (Seq::empty(), pos)
    } else {
        let (pre, pm) = spec_apply_pre_flows(items.drop_last(), res, pos, theme);
        let (lf, p2) = spec_apply_pre_flow(items.last(), res, pm, theme);
        (pre.push(lf), p2)
    }
}

/// Applies the width-free results to a flow. Offsets are untouched
/// here; they are recomputed by the shaping pass.
pub open spec fn spec_apply_pre_flow(
    f: FlowV,
    res: Seq<MeasureResult>,
    pos: int,
    theme: Theme,
) -> (FlowV, int)
    decreases f, 2nat,
{
    let (es2, p2) = spec_apply_pre_entries(f.entries, res, pos, theme);
    (FlowV { entries: es2 }, p2)
}

/// Applies the width-free results to a flow's entries in order.
pub open spec fn spec_apply_pre_entries(
    es: Seq<crate::content::FlowEntryV>,
    res: Seq<MeasureResult>,
    pos: int,
    theme: Theme,
) -> (Seq<crate::content::FlowEntryV>, int)
    decreases es, 1nat,
{
    if es.len() == 0 {
        (Seq::empty(), pos)
    } else {
        let (pre, pm) = spec_apply_pre_entries(es.drop_last(), res, pos, theme);
        let (b2, p2) = spec_apply_pre_block(es.last().data, res, pm, theme);
        (pre.push(crate::content::FlowEntryV { data: b2, offset: es.last().offset }), p2)
    }
}

/// The offset the forward pass assigns to position `i`: zero for the
/// first block, then the previous offset plus the previous height.
pub open spec fn spec_reflow_offset(es: Seq<crate::content::FlowEntryV>, i: int) -> u64
    decreases i,
{
    if i <= 0 {
        0
    } else {
        sat_add(
            spec_reflow_offset(es, i - 1),
            crate::content::spec_block_height(es[i - 1].data),
        )
    }
}

/// A flow's entries with offsets recomputed in one forward pass.
pub open spec fn spec_reflow(es: Seq<crate::content::FlowEntryV>) -> Seq<
    crate::content::FlowEntryV,
> {
    Seq::new(
        es.len(),
        |i: int|
            crate::content::FlowEntryV { data: es[i].data, offset: spec_reflow_offset(es, i) },
    )
}

/// Recomputed offsets are consistent with the heights.
pub proof fn lemma_reflow_ok(es: Seq<crate::content::FlowEntryV>)
    ensures
        crate::flow::flow_offsets_ok(FlowV { entries: spec_reflow(es) }),
{
    let f = FlowV { entries: spec_reflow(es) };
    assert forall|i: int|
        1 <= i < f.entries.len() implies (#[trigger] f.entries[i]).offset == sat_add(
        f.entries[i - 1].offset,
        crate::content::spec_block_height(f.entries[i - 1].data),
    ) by {
        assert(f.entries[i].offset == spec_reflow_offset(es, i));
        assert(f.entries[i - 1].data == es[i - 1].data);
    }
}

/// Two flows over the same blocks whose offsets are both consistent
/// have the same offsets: the forward recurrence determines them.
pub proof fn lemma_offsets_determined(f: FlowV, g: FlowV)
    requires
        crate::flow::flow_offsets_ok(f),
        crate::flow::flow_offsets_ok(g),
        f.entries.len() == g.entries.len(),
        forall|i: int|
            0 <= i < f.entries.len() ==> (#[trigger] f.entries[i]).data == g.entries[i].data,
    ensures
        f == g,
{
    assert forall|i: int| 0 <= i < f.entries.len() implies (#[trigger] f.entries[i])
        == g.entries[i] by {
        lemma_offset_agree(f, g, i);
    }
    assert(f.entries =~= g.entries);
    assert(f =~= g);
}

/// The offsets of two consistent flows over the same blocks agree at
/// every position.
proof fn lemma_offset_agree(f: FlowV, g: FlowV, i: int)
    requires
        crate::flow::flow_offsets_ok(f),
        crate::flow::flow_offsets_ok(g),
        f.entries.len() == g.entries.len(),
        forall|k: int|
            0 <= k < f.entries.len() ==> (#[trigger] f.entries[k]).data == g.entries[k].data,
        0 <= i < f.entries.len(),
    ensures
        f.entries[i].offset == g.entries[i].offset,
    decreases i,
{
    if i > 0 {
        lemma_offset_agree(f, g, i - 1);
    }
}

/// Appending one request appends its image.
proof fn lemma_reqs_view_push(v: Seq<MeasureRequest>, r: MeasureRequest)
    ensures
        reqs_view(v.push(r)) == reqs_view(v).push(r@),
{
    assert(v.push(r).drop_last() =~= v);
    assert(reqs_view(v.push(r)) =~= reqs_view(v).push(r@));
}

/// Collects the width-free requests of a block, appending to `out`.
fn collect_pre_block(b: &MarkdownContent, theme: &Theme, out: &mut Vec<MeasureRequest>)
    ensures
        reqs_view(final(out)@) == reqs_view(old(out)@) + spec_pre_reqs_block(b@, *theme),
    decreases *b, 1nat,
{
    let ghost base = reqs_view(out@);
    match b {
        MarkdownContent::Indented { flow, .. } => {
            collect_pre_flow(flow, theme, out);
        },
        MarkdownContent::List { list } => {
            let ghost bv = b@;
            let ghost items = flows_view(list.list@);
            let ghost mreqs = spec_marker_reqs(list.marker@, items.len(), *theme);
            proof {
                lemma_flows_view(list.list@);
            }
            match &list.marker {
                ListMarker::Symbol { symbol, .. } => {
                    let r = MeasureRequest::Marker {
                        text: symbol.as_str().to_owned(),
                        font_size_eighths: scaled_u64(theme.text_size, 8),
                    };
                    proof {
                        lemma_reqs_view_push(out@, r);
                        assert(reqs_view(out@.push(r)) =~= base + mreqs);
                    }
                    out.push(r);
                },
                ListMarker::Numbers { start_number, .. } => {
                    let n = list.list.len();
                    let mut k: usize = 0;
                    while k < n
                        invariant
                            k <= n,
                            n == items.len(),
                            mreqs == spec_marker_reqs(
                                ListMarkerV::Numbers {
                                    start_number: *start_number,
                                    widths: Seq::<u64>::empty(),
                                },
                                items.len(),
                                *theme,
                            ),
                            mreqs.len() == n,
                            reqs_view(out@) == base + mreqs.take(k as int),
                        decreases n - k,
                    {
                        let num = sat_add_u64(k as u64, *start_number as u64);
                        let r = MeasureRequest::Marker {
                            text: number_label(num),
                            font_size_eighths: scaled_u64(theme.text_size, 8),
                        };
                        proof {
                            lemma_reqs_view_push(out@, r);
                            assert(mreqs.take(k as int + 1) =~= mreqs.take(k as int).push(
                                mreqs[k as int],
                            ));
                            assert(r@ == mreqs[k as int]);
                            assert((base + mreqs.take(k as int)).push(r@) =~= base + mreqs.take(
                                k as int + 1,
                            ));
                        }
                        out.push(r);
                        k += 1;
                    }
                    proof {
                        assert(mreqs.take(n as int) =~= mreqs);
                    }
                },
            }
            let ghost base2 = reqs_view(out@);
            collect_pre_flows(&list.list, theme, out);
            proof {
                assert(base2 =~= base + mreqs);
                assert(base + (mreqs + spec_pre_reqs_flows(items, *theme)) =~= (base + mreqs)
                    + spec_pre_reqs_flows(items, *theme));
            }
        },
        MarkdownContent::Image { uri, .. } => {
            let r = MeasureRequest::Image { uri: uri.as_str().to_owned() };
            proof {
                lemma_reqs_view_push(out@, r);
                assert(reqs_view(out@.push(r)) =~= base + spec_pre_reqs_block(b@, *theme));
            }
            out.push(r);
        },
        _ => {
            proof {
                assert(base + spec_pre_reqs_block(b@, *theme) =~= base);
            }
        },
    }
}

/// Collects the width-free requests of a sequence of item flows,
/// appending to `out`.
fn collect_pre_flows(flows: &Vec<LayoutFlow>, theme: &Theme, out: &mut Vec<MeasureRequest>)
    ensures
        reqs_view(final(out)@) == reqs_view(old(out)@) + spec_pre_reqs_flows(
            flows_view(flows@),
            *theme,
        ),
    decreases flows@, 3nat,
{
    let ghost base = reqs_view(out@);
    let ghost items = flows_view(flows@);
    proof {
        lemma_flows_view(flows@);
    }
    let n = flows.len();
    let mut j: usize = 0;
    while j < n
        invariant
            j <= n,
            n == flows@.len(),
            items == flows_view(flows@),
            items.len() == n,
            forall|q: int| 0 <= q < n ==> items[q] == flow_view(#[trigger] flows@[q]),
            reqs_view(out@) == base + spec_pre_reqs_flows(items.take(j as int), *theme),
        decreases n - j,
    {
        collect_pre_flow(&flows[j], theme, out);
        proof {
            assert(items.take(j as int + 1).drop_last() =~= items.take(j as int));
            assert(items.take(j as int + 1).last() == items[j as int]);
            assert((base + spec_pre_reqs_flows(items.take(j as int), *theme)) + spec_pre_reqs_flow(
                items[j as int],
                *theme,
            ) =~= base + spec_pre_reqs_flows(items.take(j as int + 1), *theme));
        }
        j += 1;
    }
    proof {
        assert(items.take(n as int) =~= items);
    }
}

/// Collects the width-free requests of a flow, appending to `out`.
fn collect_pre_flow(f: &LayoutFlow, theme: &Theme, out: &mut Vec<MeasureRequest>)
    ensures
        reqs_view(final(out)@) == reqs_view(old(out)@) + spec_pre_reqs_flow(f@, *theme),
    decreases *f, 2nat,
{
    let ghost base = reqs_view(out@);
    let ghost es = f@.entries;
    proof {
        lemma_entries_view(f.flow@);
    }
    let n = f.flow.len();
    let mut j: usize = 0;
    while j < n
        invariant
            j <= n,
            n == f.flow@.len(),
            es == f@.entries,
            es.len() == n,
            forall|q: int|
                0 <= q < n ==> es[q] == (crate::content::FlowEntryV {
                    data: block_view((#[trigger] f.flow@[q]).data),
                    offset: f.flow@[q].offset,
                }),
            reqs_view(out@) == base + spec_pre_reqs_entries(es.take(j as int), *theme),
        decreases n - j,
    {
        collect_pre_block(&f.flow[j].data, theme, out);
        proof {
            assert(es.take(j as int + 1).drop_last() =~= es.take(j as int));
            assert(es.take(j as int + 1).last() == es[j as int]);
            assert((base + spec_pre_reqs_entries(es.take(j as int), *theme)) + spec_pre_reqs_block(
                es[j as int].data,
                *theme,
            ) =~= base + spec_pre_reqs_entries(es.take(j as int + 1), *theme));
        }
        j += 1;
    }
    proof {
        assert(es.take(n as int) =~= es);
    }
}

/// Collects the shaping requests of a block at the given width.
fn collect_text_block(b: &MarkdownContent, width: u64, theme: &Theme, out: &mut Vec<MeasureRequest>)
    ensures
        reqs_view(final(out)@) == reqs_view(old(out)@) + spec_text_reqs_block(b@, width, *theme),
    decreases *b, 1nat,
{
    let ghost base = reqs_view(out@);
    match b {
        MarkdownContent::Header { level, text, markers, .. } => {
            let mut ms: Vec<TextMarker> = Vec::new();
            let mut q: usize = 0;
            while q < markers.len()
                invariant
                    q <= markers@.len(),
                    ms@ =~= markers@.take(q as int),
                decreases markers@.len() - q,
            {
                ms.push(markers[q]);
                proof {
                    assert(ms@ =~= markers@.take(q as int + 1));
                }
                q += 1;
            }
            proof {
                assert(markers@.take(markers@.len() as int) =~= markers@);
            }
            let r = MeasureRequest::Text {
                text: text.as_str().to_owned(),
                markers: ms,
                font_size_eighths: scaled_u64(theme.text_size, heading_mult_eighths(*level)),
                bold: true,
                line_height_halves: 4,
                max_width: width,
            };
            proof {
                lemma_reqs_view_push(out@, r);
                assert(reqs_view(out@.push(r)) =~= base + spec_text_reqs_block(b@, width, *theme));
            }
            out.push(r);
        },
        MarkdownContent::Paragraph { text, markers, .. } => {
            let mut ms: Vec<TextMarker> = Vec::new();
            let mut q: usize = 0;
            while q < markers.len()
                invariant
                    q <= markers@.len(),
                    ms@ =~= markers@.take(q as int),
                decreases markers@.len() - q,
            {
                ms.push(markers[q]);
                proof {
                    assert(ms@ =~= markers@.take(q as int + 1));
                }
                q += 1;
            }
            proof {
                assert(markers@.take(markers@.len() as int) =~= markers@);
            }
            let r = MeasureRequest::Text {
                text: text.as_str().to_owned(),
                markers: ms,
                font_size_eighths: scaled_u64(theme.text_size, 8),
                bold: false,
                line_height_halves: 2,
                max_width: width,
            };
            proof {
                lemma_reqs_view_push(out@, r);
                assert(reqs_view(out@.push(r)) =~= base + spec_text_reqs_block(b@, width, *theme));
            }
            out.push(r);
        },
        MarkdownContent::Indented { flow, .. } => {
            let w2 = sat_sub_u64(width, theme.indentation_decoration_width);
            collect_text_flow(flow, w2, theme, out);
        },
        MarkdownContent::List { list } => {
            let w2 = sat_sub_u64(width, list.indentation);
            collect_text_flows(&list.list, w2, theme, out);
        },
        _ => {
            proof {
                assert(base + spec_text_reqs_block(b@, width, *theme) =~= base);
            }
        },
    }
}

/// Collects the shaping requests of a sequence of item flows.
fn collect_text_flows(flows: &Vec<LayoutFlow>, width: u64, theme: &Theme, out: &mut Vec<
    MeasureRequest,
>)
    ensures
        reqs_view(final(out)@) == reqs_view(old(out)@) + spec_text_reqs_flows(
            flows_view(flows@),
            width,
            *theme,
        ),
    decreases flows@, 3nat,
{
    let ghost base = reqs_view(out@);
    let ghost items = flows_view(flows@);
    proof {
        lemma_flows_view(flows@);
    }
    let n = flows.len();
    let mut j: usize = 0;
    while j < n
        invariant
            j <= n,
            n == flows@.len(),
            items == flows_view(flows@),
            items.len() == n,
            forall|q: int| 0 <= q < n ==> items[q] == flow_view(#[trigger] flows@[q]),
            reqs_view(out@) == base + spec_text_reqs_flows(items.take(j as int), width, *theme),
        decreases n - j,
    {
        collect_text_flow(&flows[j], width, theme, out);
        proof {
            assert(items.take(j as int + 1).drop_last() =~= items.take(j as int));
            assert(items.take(j as int + 1).last() == items[j as int]);
            assert((base + spec_text_reqs_flows(items.take(j as int), width, *theme))
                + spec_text_reqs_flow(items[j as int], width, *theme) =~= base
                + spec_text_reqs_flows(items.take(j as int + 1), width, *theme));
        }
        j += 1;
    }
    proof {
        assert(items.take(n as int) =~= items);
    }
}

/// Collects the shaping requests of a flow at the given width.
fn collect_text_flow(f: &LayoutFlow, width: u64, theme: &Theme, out: &mut Vec<MeasureRequest>)
    ensures
        reqs_view(final(out)@) == reqs_view(old(out)@) + spec_text_reqs_flow(f@, width, *theme),
    decreases *f, 2nat,
{
    let ghost base = reqs_view(out@);
    let ghost es = f@.entries;
    proof {
        lemma_entries_view(f.flow@);
    }
    let n = f.flow.len();
    let mut j: usize = 0;
    while j < n
        invariant
            j <= n,
            n == f.flow@.len(),
            es == f@.entries,
            es.len() == n,
            forall|q: int|
                0 <= q < n ==> es[q] == (crate::content::FlowEntryV {
                    data: block_view((#[trigger] f.flow@[q]).data),
                    offset: f.flow@[q].offset,
                }),
            reqs_view(out@) == base + spec_text_reqs_entries(es.take(j as int), width, *theme),
        decreases n - j,
    {
        collect_text_block(&f.flow[j].data, width, theme, out);
        proof {
            assert(es.take(j as int + 1).drop_last() =~= es.take(j as int));
            assert(es.take(j as int + 1).last() == es[j as int]);
            assert((base + spec_text_reqs_entries(es.take(j as int), width, *theme))
                + spec_text_reqs_block(es[j as int].data, width, *theme) =~= base
                + spec_text_reqs_entries(es.take(j as int + 1), width, *theme));
        }
        j += 1;
    }
    proof {
        assert(es.take(n as int) =~= es);
    }
}

/// The shaping requests of a document at the given available width, in
/// depth-first order.
pub fn text_requests(f: &LayoutFlow, width: u64, theme: &Theme) -> (r: Vec<MeasureRequest>)
    ensures
        reqs_view(r@) == spec_text_reqs_flow(f@, width, *theme),
{
    let mut out: Vec<MeasureRequest> = Vec::new();
    proof {
        assert(reqs_view(out@) =~= Seq::<ReqV>::empty());
    }
    collect_text_flow(f, width, theme, &mut out);
    proof {
        assert(Seq::<ReqV>::empty() + spec_text_reqs_flow(f@, width, *theme) =~= spec_text_reqs_flow(
            f@,
            width,
            *theme,
        ));
    }
    out
}

/// The width-free measurement requests of a document, in depth-first
/// order: list marker glyphs and image decodes.
pub fn premeasure_requests(f: &LayoutFlow, theme: &Theme) -> (r: Vec<MeasureRequest>)
    ensures
        reqs_view(r@) == spec_pre_reqs_flow(f@, *theme),
{
    let mut out: Vec<MeasureRequest> = Vec::new();
    proof {
        assert(reqs_view(out@) =~= Seq::<ReqV>::empty());
    }
    collect_pre_flow(f, theme, &mut out);
    proof {
        assert(Seq::<ReqV>::empty() + spec_pre_reqs_flow(f@, *theme) =~= spec_pre_reqs_flow(
            f@,
            *theme,
        ));
    }
    out
}

/// The recomputed offsets depend only on the blocks, not on the old
/// offsets.
proof fn lemma_reflow_offset_data_only(
    es: Seq<crate::content::FlowEntryV>,
    fs: Seq<crate::content::FlowEntryV>,
    i: int,
)
    requires
        es.len() == fs.len(),
        forall|q: int| 0 <= q < es.len() ==> (#[trigger] es[q]).data == fs[q].data,
        0 <= i <= es.len(),
    ensures
        spec_reflow_offset(es, i) == spec_reflow_offset(fs, i),
    decreases i,
{
    if i > 0 {
        lemma_reflow_offset_data_only(es, fs, i - 1);
    }
}

/// Recomputing offsets twice is the same as recomputing them once.
proof fn lemma_reflow_idempotent(es: Seq<crate::content::FlowEntryV>)
    ensures
        spec_reflow(spec_reflow(es)) == spec_reflow(es),
{
    let r1 = spec_reflow(es);
    assert forall|q: int| 0 <= q < r1.len() implies (#[trigger] spec_reflow(r1)[q]) == r1[q] by {
        lemma_reflow_offset_data_only(r1, es, q);
    }
    assert(spec_reflow(r1) =~= r1);
}

/// After the shaping pass every flow of the document, at every nesting
/// depth, has offsets consistent with its heights: offset[0] = 0 and
/// offset[i+1] = offset[i] + height[i].
pub proof fn lemma_apply_text_deep_ok(f: FlowV, res: Seq<MeasureResult>, pos: int)
    ensures
        crate::flow::flow_deep_ok(spec_apply_text_flow(f, res, pos).0),
    decreases f, 2nat,
{
    let (es2, p2) = spec_apply_text_entries(f.entries, res, pos);
    lemma_reflow_ok(es2);
    lemma_apply_text_entries_deep_ok(f.entries, res, pos);
    let fin = spec_apply_text_flow(f, res, pos).0;
    assert forall|q: int| 0 <= q < fin.entries.len() implies crate::flow::block_offsets_ok(
        (#[trigger] fin.entries[q]).data,
    ) by {
        assert(fin.entries[q].data == es2[q].data);
    }
}

/// Every block produced by the shaping pass has consistent offsets in
/// all its nested flows.
proof fn lemma_apply_text_block_deep_ok(b: BlockV, res: Seq<MeasureResult>, pos: int)
    ensures
        crate::flow::block_offsets_ok(spec_apply_text_block(b, res, pos).0),
    decreases b, 1nat,
{
    match b {
        BlockV::Indented { flow } => {
            lemma_apply_text_deep_ok(flow, res, pos);
            assert(spec_apply_text_block(b, res, pos).0 == (BlockV::Indented {
                flow: spec_apply_text_flow(flow, res, pos).0,
            }));
        },
        BlockV::List { items, marker, indentation } => {
            lemma_apply_text_flows_deep_ok(items, res, pos);
            let items2 = spec_apply_text_flows(items, res, pos).0;
            assert(spec_apply_text_block(b, res, pos).0 == (BlockV::List {
                items: items2,
                marker,
                indentation,
            }));
            assert forall|i: int| 0 <= i < items2.len() implies crate::flow::flow_deep_ok(
                #[trigger] items2[i],
            ) by {
                assert(crate::flow::flow_deep_ok(spec_apply_text_flows(items, res, pos).0[i]));
            }
        },
        _ => {},
    }
}

/// Every item flow produced by the shaping pass is deeply consistent.
proof fn lemma_apply_text_flows_deep_ok(items: Seq<FlowV>, res: Seq<MeasureResult>, pos: int)
    ensures
        forall|q: int|
            0 <= q < spec_apply_text_flows(items, res, pos).0.len()
                ==> crate::flow::flow_deep_ok(#[trigger] spec_apply_text_flows(items, res, pos).0[q]),
    decreases items, 3nat,
{
    if items.len() > 0 {
        let (pre, pm) = spec_apply_text_flows(items.drop_last(), res, pos);
        lemma_apply_text_flows_deep_ok(items.drop_last(), res, pos);
        lemma_apply_text_deep_ok(items.last(), res, pm);
    }
}

/// The entries produced by the shaping pass hold deeply consistent
/// blocks.
proof fn lemma_apply_text_entries_deep_ok(
    es: Seq<crate::content::FlowEntryV>,
    res: Seq<MeasureResult>,
    pos: int,
)
    ensures
        forall|q: int|
            0 <= q < spec_apply_text_entries(es, res, pos).0.len() ==> crate::flow::block_offsets_ok(
                (#[trigger] spec_apply_text_entries(es, res, pos).0[q]).data,
            ),
    decreases es, 1nat,
{
    if es.len() > 0 {
        let (pre, pm) = spec_apply_text_entries(es.drop_last(), res, pos);
        lemma_apply_text_entries_deep_ok(es.drop_last(), res, pos);
        lemma_apply_text_block_deep_ok(es.last().data, res, pm);
    }
}

/// The shaping pass does not change what the next shaping pass would
/// ask for: texts, markers, heading levels, indentations and widths
/// are untouched, so a re-measurement at the same width issues
/// identical requests.
pub proof fn lemma_remeasure_requests_unchanged(
    f: FlowV,
    res: Seq<MeasureResult>,
    pos: int,
    width: u64,
    theme: Theme,
)
    ensures
        spec_text_reqs_flow(spec_apply_text_flow(f, res, pos).0, width, theme)
            == spec_text_reqs_flow(f, width, theme),
    decreases f, 2nat,
{
    let (es2, p2) = spec_apply_text_entries(f.entries, res, pos);
    lemma_text_reqs_entries_unchanged(f.entries, res, pos, width, theme);
    lemma_text_reqs_reflow(es2, width, theme);
}

/// Recomputing offsets changes no shaping request.
proof fn lemma_text_reqs_reflow(es: Seq<crate::content::FlowEntryV>, width: u64, theme: Theme)
    ensures
        spec_text_reqs_entries(spec_reflow(es), width, theme) == spec_text_reqs_entries(
            es,
            width,
            theme,
        ),
    decreases es,
{
    if es.len() > 0 {
        lemma_text_reqs_reflow(es.drop_last(), width, theme);
        let r = spec_reflow(es);
        assert(r.drop_last() =~= spec_reflow(es).take(es.len() - 1));
        assert forall|q: int| 0 <= q < es.len() - 1 implies (#[trigger] r.drop_last()[q]).data
            == spec_reflow(es.drop_last())[q].data by {
            assert(es.drop_last()[q].data == es[q].data);
        }
        lemma_text_reqs_entries_data_only(r.drop_last(), spec_reflow(es.drop_last()), width, theme);
        assert(r.last().data == es.last().data);
    }
}

/// Shaping requests depend on the blocks alone, not on the offsets.
proof fn lemma_text_reqs_entries_data_only(
    es: Seq<crate::content::FlowEntryV>,
    fs: Seq<crate::content::FlowEntryV>,
    width: u64,
    theme: Theme,
)
    requires
        es.len() == fs.len(),
        forall|q: int| 0 <= q < es.len() ==> (#[trigger] es[q]).data == fs[q].data,
    ensures
        spec_text_reqs_entries(es, width, theme) == spec_text_reqs_entries(fs, width, theme),
    decreases es,
{
    if es.len() > 0 {
        assert forall|q: int| 0 <= q < es.len() - 1 implies (#[trigger] es.drop_last()[q]).data
            == fs.drop_last()[q].data by {
            assert(es.drop_last()[q].data == es[q].data);
        }
        lemma_text_reqs_entries_data_only(es.drop_last(), fs.drop_last(), width, theme);
        assert(es.last().data == fs[es.len() - 1].data);
    }
}

/// The shaping pass leaves a block's next shaping requests unchanged.
proof fn lemma_text_reqs_block_unchanged(
    b: BlockV,
    res: Seq<MeasureResult>,
    pos: int,
    width: u64,
    theme: Theme,
)
    ensures
        spec_text_reqs_block(spec_apply_text_block(b, res, pos).0, width, theme)
            == spec_text_reqs_block(b, width, theme),
    decreases b, 1nat,
{
    match b {
        BlockV::Indented { flow } => {
            lemma_remeasure_requests_unchanged(
                flow,
                res,
                pos,
                sat_sub(width, theme.indentation_decoration_width),
                theme,
            );
        },
        BlockV::List { items, marker, indentation } => {
            lemma_text_reqs_flows_unchanged(items, res, pos, sat_sub(width, indentation), theme);
        },
        _ => {},
    }
}

/// The shaping pass leaves the item flows' next requests unchanged.
proof fn lemma_text_reqs_flows_unchanged(
    items: Seq<FlowV>,
    res: Seq<MeasureResult>,
    pos: int,
    width: u64,
    theme: Theme,
)
    ensures
        spec_text_reqs_flows(spec_apply_text_flows(items, res, pos).0, width, theme)
            == spec_text_reqs_flows(items, width, theme),
    decreases items, 3nat,
{
    if items.len() > 0 {
        let (pre, pm) = spec_apply_text_flows(items.drop_last(), res, pos);
        lemma_text_reqs_flows_unchanged(items.drop_last(), res, pos, width, theme);
        lemma_remeasure_requests_unchanged(items.last(), res, pm, width, theme);
        let whole = spec_apply_text_flows(items, res, pos).0;
        assert(whole.drop_last() =~= pre);
    }
}

/// The shaping pass leaves the entries' next requests unchanged.
proof fn lemma_text_reqs_entries_unchanged(
    es: Seq<crate::content::FlowEntryV>,
    res: Seq<MeasureResult>,
    pos: int,
    width: u64,
    theme: Theme,
)
    ensures
        spec_text_reqs_entries(spec_apply_text_entries(es, res, pos).0, width, theme)
            == spec_text_reqs_entries(es, width, theme),
    decreases es, 1nat,
{
    if es.len() > 0 {
        let (pre, pm) = spec_apply_text_entries(es.drop_last(), res, pos);
        lemma_text_reqs_entries_unchanged(es.drop_last(), res, pos, width, theme);
        lemma_text_reqs_block_unchanged(es.last().data, res, pm, width, theme);
        let whole = spec_apply_text_entries(es, res, pos).0;
        assert(whole.drop_last() =~= pre);
    }
}

/// A second application of the shaped heights is a function of the
/// blocks alone: the offsets of the input entries pass through
/// untouched, and equal blocks give equal results.
proof fn lemma_apply_text_entries_offsets_irrelevant(
    xs: Seq<crate::content::FlowEntryV>,
    ys: Seq<crate::content::FlowEntryV>,
    res: Seq<MeasureResult>,
    pos: int,
)
    requires
        xs.len() == ys.len(),
        forall|q: int| 0 <= q < xs.len() ==> (#[trigger] xs[q]).data == ys[q].data,
    ensures
        ({
            let (ex, px) = spec_apply_text_entries(xs, res, pos);
            let (ey, py) = spec_apply_text_entries(ys, res, pos);
            &&& px == py
            &&& ex.len() == xs.len()
            &&& ey.len() == ys.len()
            &&& forall|q: int|
                0 <= q < xs.len() ==> (#[trigger] ex[q]).data == ey[q].data && ex[q].offset
                    == xs[q].offset && ey[q].offset == ys[q].offset
        }),
    decreases xs,
{
    if xs.len() > 0 {
        assert forall|q: int| 0 <= q < xs.len() - 1 implies (#[trigger] xs.drop_last()[q]).data
            == ys.drop_last()[q].data by {
            assert(xs.drop_last()[q].data == xs[q].data);
        }
        lemma_apply_text_entries_offsets_irrelevant(xs.drop_last(), ys.drop_last(), res, pos);
        assert(xs.last().data == ys[xs.len() - 1].data);
    }
}

/// Applying the same shaped heights to a block a second time changes
/// nothing and consumes the same results.
proof fn lemma_apply_text_block_idem(b: BlockV, res: Seq<MeasureResult>, pos: int)
    requires
        0 <= pos <= res.len(),
    ensures
        spec_apply_text_block(spec_apply_text_block(b, res, pos).0, res, pos)
            == spec_apply_text_block(b, res, pos),
    decreases b, 1nat,
{
    match b {
        BlockV::Indented { flow } => {
            lemma_apply_text_flow_idem(flow, res, pos);
        },
        BlockV::List { items, marker, indentation } => {
            lemma_apply_text_flows_idem(items, res, pos);
        },
        _ => {},
    }
}

/// Applying the same shaped heights to item flows a second time
/// changes nothing.
proof fn lemma_apply_text_flows_idem(items: Seq<FlowV>, res: Seq<MeasureResult>, pos: int)
    requires
        0 <= pos <= res.len(),
    ensures
        spec_apply_text_flows(spec_apply_text_flows(items, res, pos).0, res, pos)
            == spec_apply_text_flows(items, res, pos),
    decreases items, 3nat,
{
    if items.len() > 0 {
        let (pre, pm) = spec_apply_text_flows(items.drop_last(), res, pos);
        let (lf, p2) = spec_apply_text_flow(items.last(), res, pm);
        lemma_apply_text_flows_idem(items.drop_last(), res, pos);
        lemma_apply_text_pos_bounds_flows(items.drop_last(), res, pos);
        lemma_apply_text_flow_idem(items.last(), res, pm);
        let whole = spec_apply_text_flows(items, res, pos).0;
        assert(whole.drop_last() =~= pre);
        assert(whole.last() == lf);
    }
}

/// Applying the same shaped heights to a flow's entries a second time
/// changes nothing.
proof fn lemma_apply_text_entries_idem(
    es: Seq<crate::content::FlowEntryV>,
    res: Seq<MeasureResult>,
    pos: int,
)
    requires
        0 <= pos <= res.len(),
    ensures
        spec_apply_text_entries(spec_apply_text_entries(es, res, pos).0, res, pos)
            == spec_apply_text_entries(es, res, pos),
    decreases es, 1nat,
{
    if es.len() > 0 {
        let (pre, pm) = spec_apply_text_entries(es.drop_last(), res, pos);
        let (b2, p2) = spec_apply_text_block(es.last().data, res, pm);
        lemma_apply_text_entries_idem(es.drop_last(), res, pos);
        lemma_apply_text_pos_bounds_entries(es.drop_last(), res, pos);
        lemma_apply_text_block_idem(es.last().data, res, pm);
        let whole = spec_apply_text_entries(es, res, pos).0;
        assert(whole.drop_last() =~= pre);
        assert(whole.last() == (crate::content::FlowEntryV { data: b2, offset: es.last().offset }));
    }
}

/// Applying the same shaped heights to a flow a second time changes
/// nothing: measuring twice at the same width with unchanged content
/// yields identical cached extents and identical offsets.
pub proof fn lemma_apply_text_flow_idem(f: FlowV, res: Seq<MeasureResult>, pos: int)
    requires
        0 <= pos <= res.len(),
    ensures
        spec_apply_text_flow(spec_apply_text_flow(f, res, pos).0, res, pos) == spec_apply_text_flow(
            f,
            res,
            pos,
        ),
    decreases f, 2nat,
{
    let (es2, p2) = spec_apply_text_entries(f.entries, res, pos);
    let rf = spec_reflow(es2);
    lemma_apply_text_entries_idem(f.entries, res, pos);
    assert forall|q: int| 0 <= q < rf.len() implies (#[trigger] rf[q]).data == es2[q].data by {}
    lemma_apply_text_entries_offsets_irrelevant(rf, es2, res, pos);
    let (ex, px) = spec_apply_text_entries(rf, res, pos);
    let (ey, py) = spec_apply_text_entries(es2, res, pos);
    assert(ey == es2 && py == p2);
    assert forall|q: int| 0 <= q < ex.len() implies (#[trigger] ex[q]) == rf[q] by {
        assert(ex[q].data == ey[q].data);
        assert(ex[q].offset == rf[q].offset);
    }
    assert(ex =~= rf);
    lemma_reflow_idempotent(es2);
}

/// The result positions of the shaping pass stay within the results.
proof fn lemma_apply_text_pos_bounds_block(b: BlockV, res: Seq<MeasureResult>, pos: int)
    requires
        0 <= pos <= res.len(),
    ensures
        pos <= spec_apply_text_block(b, res, pos).1 <= res.len(),
    decreases b, 1nat,
{
    match b {
        BlockV::Indented { flow } => {
            lemma_apply_text_pos_bounds_flow(flow, res, pos);
        },
        BlockV::List { items, marker, indentation } => {
            lemma_apply_text_pos_bounds_flows(items, res, pos);
        },
        _ => {},
    }
}

/// The result positions of the shaping pass stay within the results.
proof fn lemma_apply_text_pos_bounds_flows(items: Seq<FlowV>, res: Seq<MeasureResult>, pos: int)
    requires
        0 <= pos <= res.len(),
    ensures
        pos <= spec_apply_text_flows(items, res, pos).1 <= res.len(),
    decreases items, 3nat,
{
    if items.len() > 0 {
        let (pre, pm) = spec_apply_text_flows(items.drop_last(), res, pos);
        lemma_apply_text_pos_bounds_flows(items.drop_last(), res, pos);
        lemma_apply_text_pos_bounds_flow(items.last(), res, pm);
    }
}

/// The result positions of the shaping pass stay within the results.
proof fn lemma_apply_text_pos_bounds_flow(f: FlowV, res: Seq<MeasureResult>, pos: int)
    requires
        0 <= pos <= res.len(),
    ensures
        pos <= spec_apply_text_flow(f, res, pos).1 <= res.len(),
    decreases f, 2nat,
{
    lemma_apply_text_pos_bounds_entries(f.entries, res, pos);
}

/// The result positions of the shaping pass stay within the results.
proof fn lemma_apply_text_pos_bounds_entries(
    es: Seq<crate::content::FlowEntryV>,
    res: Seq<MeasureResult>,
    pos: int,
)
    requires
        0 <= pos <= res.len(),
    ensures
        pos <= spec_apply_text_entries(es, res, pos).1 <= res.len(),
    decreases es, 1nat,
{
    if es.len() > 0 {
        let (pre, pm) = spec_apply_text_entries(es.drop_last(), res, pos);
        lemma_apply_text_pos_bounds_entries(es.drop_last(), res, pos);
        lemma_apply_text_pos_bounds_block(es.last().data, res, pm);
    }
}

/// The width-free pass preserves the shape of the tree: a sequence of
/// item flows keeps its length.
proof fn lemma_apply_pre_flows_shape(
    items: Seq<FlowV>,
    res: Seq<MeasureResult>,
    pos: int,
    theme: Theme,
)
    ensures
        spec_apply_pre_flows(items, res, pos, theme).0.len() == items.len(),
    decreases items, 3nat,
{
    if items.len() > 0 {
        lemma_apply_pre_flows_shape(items.drop_last(), res, pos, theme);
    }
}

/// Applying the same width-free results to a block a second time
/// changes nothing and consumes the same results: marker widths and
/// indentations are recomputed to the same values, a decoded image is
/// kept, and a handle still absent reads the same failed decode.
proof fn lemma_apply_pre_block_idem(b: BlockV, res: Seq<MeasureResult>, pos: int, theme: Theme)
    ensures
        spec_apply_pre_block(spec_apply_pre_block(b, res, pos, theme).0, res, pos, theme)
            == spec_apply_pre_block(b, res, pos, theme),
    decreases b, 1nat,
{
    match b {
        BlockV::Indented { flow } => {
            lemma_apply_pre_flow_idem(flow, res, pos, theme);
        },
        BlockV::List { items, marker, indentation } => {
            let n = items.len() as int;
            let marker2 = match marker {
                ListMarkerV::Symbol { symbol, width } => ListMarkerV::Symbol {
                    symbol,
                    width: spec_read_marker(res, pos),
                },
                ListMarkerV::Numbers { start_number, widths } => ListMarkerV::Numbers {
                    start_number,
                    widths: Seq::new(items.len(), |k: int| spec_read_marker(res, pos + k)),
                },
            };
            let consumed: int = match marker {
                ListMarkerV::Symbol { symbol, width } => 1,
                ListMarkerV::Numbers { start_number, widths } => n,
            };
            let p1 = spec_adv_pos(res.len() as int, pos, consumed);
            let (items2, p2) = spec_apply_pre_flows(items, res, p1, theme);
            lemma_apply_pre_flows_shape(items, res, p1, theme);
            lemma_apply_pre_flows_idem(items, res, p1, theme);
            match marker {
                ListMarkerV::Numbers { start_number, widths } => {
                    assert(Seq::new(items2.len(), |k: int| spec_read_marker(res, pos + k))
                        =~= Seq::new(items.len(), |k: int| spec_read_marker(res, pos + k)));
                },
                _ => {},
            }
        },
        _ => {},
    }
}

/// Applying the same width-free results to item flows a second time
/// changes nothing.
proof fn lemma_apply_pre_flows_idem(
    items: Seq<FlowV>,
    res: Seq<MeasureResult>,
    pos: int,
    theme: Theme,
)
    ensures
        spec_apply_pre_flows(spec_apply_pre_flows(items, res, pos, theme).0, res, pos, theme)
            == spec_apply_pre_flows(items, res, pos, theme),
    decreases items, 3nat,
{
    if items.len() > 0 {
        let (pre, pm) = spec_apply_pre_flows(items.drop_last(), res, pos, theme);
        let (lf, p2) = spec_apply_pre_flow(items.last(), res, pm, theme);
        lemma_apply_pre_flows_idem(items.drop_last(), res, pos, theme);
        lemma_apply_pre_flow_idem(items.last(), res, pm, theme);
        let whole = spec_apply_pre_flows(items, res, pos, theme).0;
        assert(whole.drop_last() =~= pre);
        assert(whole.last() == lf);
    }
}

/// Applying the same width-free results to a flow a second time
/// changes nothing.
pub proof fn lemma_apply_pre_flow_idem(f: FlowV, res: Seq<MeasureResult>, pos: int, theme: Theme)
    ensures
        spec_apply_pre_flow(spec_apply_pre_flow(f, res, pos, theme).0, res, pos, theme)
            == spec_apply_pre_flow(f, res, pos, theme),
    decreases f, 2nat,
{
    lemma_apply_pre_entries_idem(f.entries, res, pos, theme);
}

/// Applying the same width-free results to a flow's entries a second
/// time changes nothing.
proof fn lemma_apply_pre_entries_idem(
    es: Seq<crate::content::FlowEntryV>,
    res: Seq<MeasureResult>,
    pos: int,
    theme: Theme,
)
    ensures
        spec_apply_pre_entries(spec_apply_pre_entries(es, res, pos, theme).0, res, pos, theme)
            == spec_apply_pre_entries(es, res, pos, theme),
    decreases es, 1nat,
{
    if es.len() > 0 {
        let (pre, pm) = spec_apply_pre_entries(es.drop_last(), res, pos, theme);
        let (b2, p2) = spec_apply_pre_block(es.last().data, res, pm, theme);
        lemma_apply_pre_entries_idem(es.drop_last(), res, pos, theme);
        lemma_apply_pre_block_idem(es.last().data, res, pm, theme);
        let whole = spec_apply_pre_entries(es, res, pos, theme).0;
        assert(whole.drop_last() =~= pre);
        assert(whole.last() == (crate::content::FlowEntryV { data: b2, offset: es.last().offset }));
    }
}

/// The shaping pass preserves the shape of the tree: a sequence of
/// item flows keeps its length.
proof fn lemma_apply_text_flows_shape(items: Seq<FlowV>, res: Seq<MeasureResult>, pos: int)
    ensures
        spec_apply_text_flows(items, res, pos).0.len() == items.len(),
    decreases items, 3nat,
{
    if items.len() > 0 {
        lemma_apply_text_flows_shape(items.drop_last(), res, pos);
    }
}

/// The width-free pass, too, is a function of the blocks alone: the
/// offsets of the input entries pass through untouched, and equal
/// blocks give equal results.
proof fn lemma_apply_pre_entries_offsets_irrelevant(
    xs: Seq<crate::content::FlowEntryV>,
    ys: Seq<crate::content::FlowEntryV>,
    res: Seq<MeasureResult>,
    pos: int,
    theme: Theme,
)
    requires
        xs.len() == ys.len(),
        forall|q: int| 0 <= q < xs.len() ==> (#[trigger] xs[q]).data == ys[q].data,
    ensures
        ({
            let (ex, px) = spec_apply_pre_entries(xs, res, pos, theme);
            let (ey, py) = spec_apply_pre_entries(ys, res, pos, theme);
            &&& px == py
            &&& ex.len() == xs.len()
            &&& ey.len() == ys.len()
            &&& forall|q: int|
                0 <= q < xs.len() ==> (#[trigger] ex[q]).data == ey[q].data && ex[q].offset
                    == xs[q].offset && ey[q].offset == ys[q].offset
        }),
    decreases xs,
{
    if xs.len() > 0 {
        assert forall|q: int| 0 <= q < xs.len() - 1 implies (#[trigger] xs.drop_last()[q]).data
            == ys.drop_last()[q].data by {
            assert(xs.drop_last()[q].data == xs[q].data);
        }
        lemma_apply_pre_entries_offsets_irrelevant(xs.drop_last(), ys.drop_last(), res, pos, theme);
        assert(xs.last().data == ys[xs.len() - 1].data);
    }
}

/// After a block has gone through both measurement passes, running
/// the width-free pass on it again with the same results reproduces
/// it exactly, consuming the results as the first run did.
proof fn lemma_remeasure_pre_block(
    b: BlockV,
    res_pre: Seq<MeasureResult>,
    pos: int,
    res_text: Seq<MeasureResult>,
    q: int,
    theme: Theme,
)
    ensures
        ({
            let (b1, p1) = spec_apply_pre_block(b, res_pre, pos, theme);
            let (b2, q2) = spec_apply_text_block(b1, res_text, q);
            spec_apply_pre_block(b2, res_pre, pos, theme) == (b2, p1)
        }),
    decreases b, 1nat,
{
    match b {
        BlockV::Indented { flow } => {
            lemma_remeasure_pre_flow(flow, res_pre, pos, res_text, q, theme);
        },
        BlockV::List { items, marker, indentation } => {
            let n = items.len() as int;
            let marker2 = match marker {
                ListMarkerV::Symbol { symbol, width } => ListMarkerV::Symbol {
                    symbol,
                    width: spec_read_marker(res_pre, pos),
                },
                ListMarkerV::Numbers { start_number, widths } => ListMarkerV::Numbers {
                    start_number,
                    widths: Seq::new(items.len(), |k: int| spec_read_marker(res_pre, pos + k)),
                },
            };
            let consumed: int = match marker {
                ListMarkerV::Symbol { symbol, width } => 1,
                ListMarkerV::Numbers { start_number, widths } => n,
            };
            let p1 = spec_adv_pos(res_pre.len() as int, pos, consumed);
            let (items1, p2) = spec_apply_pre_flows(items, res_pre, p1, theme);
            lemma_apply_pre_flows_shape(items, res_pre, p1, theme);
            let (items2, q2) = spec_apply_text_flows(items1, res_text, q);
            lemma_apply_text_flows_shape(items1, res_text, q);
            lemma_remeasure_pre_flows(items, res_pre, p1, res_text, q, theme);
            match marker {
                ListMarkerV::Numbers { start_number, widths } => {
                    assert(Seq::new(items2.len(), |k: int| spec_read_marker(res_pre, pos + k))
                        =~= Seq::new(items.len(), |k: int| spec_read_marker(res_pre, pos + k)));
                },
                _ => {},
            }
        },
        _ => {},
    }
}

/// The width-free re-run reproduces remeasured item flows exactly.
proof fn lemma_remeasure_pre_flows(
    items: Seq<FlowV>,
    res_pre: Seq<MeasureResult>,
    pos: int,
    res_text: Seq<MeasureResult>,
    q: int,
    theme: Theme,
)
    ensures
        ({
            let (items1, p1) = spec_apply_pre_flows(items, res_pre, pos, theme);
            let (items2, q2) = spec_apply_text_flows(items1, res_text, q);
            spec_apply_pre_flows(items2, res_pre, pos, theme) == (items2, p1)
        }),
    decreases items, 3nat,
{
    if items.len() > 0 {
        let (pre1, pm) = spec_apply_pre_flows(items.drop_last(), res_pre, pos, theme);
        let (lf1, p1) = spec_apply_pre_flow(items.last(), res_pre, pm, theme);
        let items1 = pre1.push(lf1);
        let (pre2, qm) = spec_apply_text_flows(items1.drop_last(), res_text, q);
        assert(items1.drop_last() =~= pre1);
        let (lf2, q2) = spec_apply_text_flow(items1.last(), res_text, qm);
        lemma_remeasure_pre_flows(items.drop_last(), res_pre, pos, res_text, q, theme);
        lemma_remeasure_pre_flow(items.last(), res_pre, pm, res_text, qm, theme);
        let items2 = spec_apply_text_flows(items1, res_text, q).0;
        assert(items2.drop_last() =~= pre2.push(lf2).drop_last());
        assert(pre2.push(lf2).drop_last() =~= pre2);
        assert(items2.last() == lf2);
    }
}

/// The width-free re-run reproduces a remeasured flow exactly.
proof fn lemma_remeasure_pre_flow(
    f: FlowV,
    res_pre: Seq<MeasureResult>,
    pos: int,
    res_text: Seq<MeasureResult>,
    q: int,
    theme: Theme,
)
    ensures
        ({
            let (f1, p1) = spec_apply_pre_flow(f, res_pre, pos, theme);
            let (f2, q2) = spec_apply_text_flow(f1, res_text, q);
            spec_apply_pre_flow(f2, res_pre, pos, theme) == (f2, p1)
        }),
    decreases f, 2nat,
{
    let (es1, p1) = spec_apply_pre_entries(f.entries, res_pre, pos, theme);
    let (es2, q2) = spec_apply_text_entries(es1, res_text, q);
    let rf = spec_reflow(es2);
    lemma_remeasure_pre_entries(f.entries, res_pre, pos, res_text, q, theme);
    let (ey, py) = spec_apply_pre_entries(es2, res_pre, pos, theme);
    assert(ey == es2 && py == p1);
    assert forall|k: int| 0 <= k < rf.len() implies (#[trigger] rf[k]).data == es2[k].data by {}
    lemma_apply_pre_entries_offsets_irrelevant(rf, es2, res_pre, pos, theme);
    let (ex, px) = spec_apply_pre_entries(rf, res_pre, pos, theme);
    assert forall|k: int| 0 <= k < ex.len() implies (#[trigger] ex[k]) == rf[k] by {
        assert(ex[k].data == ey[k].data);
        assert(ex[k].offset == rf[k].offset);
    }
    assert(ex =~= rf);
}

/// The width-free re-run reproduces remeasured entries exactly.
proof fn lemma_remeasure_pre_entries(
    es: Seq<crate::content::FlowEntryV>,
    res_pre: Seq<MeasureResult>,
    pos: int,
    res_text: Seq<MeasureResult>,
    q: int,
    theme: Theme,
)
    ensures
        ({
            let (es1, p1) = spec_apply_pre_entries(es, res_pre, pos, theme);
            let (es2, q2) = spec_apply_text_entries(es1, res_text, q);
            spec_apply_pre_entries(es2, res_pre, pos, theme) == (es2, p1)
        }),
    decreases es, 1nat,
{
    if es.len() > 0 {
        let (pre1, pm) = spec_apply_pre_entries(es.drop_last(), res_pre, pos, theme);
        let (b1, p1) = spec_apply_pre_block(es.last().data, res_pre, pm, theme);
        let e1 = crate::content::FlowEntryV { data: b1, offset: es.last().offset };
        let es1 = pre1.push(e1);
        let (pre2, qm) = spec_apply_text_entries(es1.drop_last(), res_text, q);
        assert(es1.drop_last() =~= pre1);
        let (b2, q2) = spec_apply_text_block(es1.last().data, res_text, qm);
        lemma_remeasure_pre_entries(es.drop_last(), res_pre, pos, res_text, q, theme);
        lemma_remeasure_pre_block(es.last().data, res_pre, pm, res_text, qm, theme);
        let es2 = spec_apply_text_entries(es1, res_text, q).0;
        assert(es2.drop_last() =~= pre2);
        assert(es2.last() == (crate::content::FlowEntryV { data: b2, offset: e1.offset }));
    }
}

/// A full measurement is stable: after the width-free pass and the
/// shaping pass, repeating both passes with the same results leaves
/// every marker width, indentation, image handle, cached extent and
/// offset exactly where the first measurement put them.
pub proof fn lemma_full_measurement_idempotent(
    f: FlowV,
    res_pre: Seq<MeasureResult>,
    res_text: Seq<MeasureResult>,
    theme: Theme,
)
    ensures
        ({
            let f1 = spec_apply_pre_flow(f, res_pre, 0, theme).0;
            let f2 = spec_apply_text_flow(f1, res_text, 0).0;
            &&& spec_apply_pre_flow(f2, res_pre, 0, theme).0 == f2
            &&& spec_apply_text_flow(f2, res_text, 0).0 == f2
        }),
{
    lemma_remeasure_pre_flow(f, res_pre, 0, res_text, 0, theme);
    let f1 = spec_apply_pre_flow(f, res_pre, 0, theme).0;
    lemma_apply_text_flow_idem(f1, res_text, 0);
}

/// Reads a shaped marker width at an offset from `pos`.
fn read_marker_at(res: &Vec<MeasureResult>, pos: usize, off: usize) -> (r: u64)
    ensures
        r == spec_read_marker(res@, pos as int + off as int),
{
    if pos < res.len() && off < res.len() - pos {
        match res[pos + off] {
            MeasureResult::Marker { width } => width,
            _ => 0,
        }
    } else {
        0
    }
}

/// Reads a shaped text extent at `pos`.
fn read_text_at(res: &Vec<MeasureResult>, pos: usize) -> (r: crate::content::TextLayoutInfo)
    ensures
        r == spec_read_text(res@, pos as int),
{
    if pos < res.len() {
        match res[pos] {
            MeasureResult::Text { height, full_width } => crate::content::TextLayoutInfo {
                height,
                full_width,
            },
            _ => crate::content::TextLayoutInfo { height: 0, full_width: 0 },
        }
    } else {
        crate::content::TextLayoutInfo { height: 0, full_width: 0 }
    }
}

/// Reads a decoded image at `pos`.
fn read_image_at(res: &Vec<MeasureResult>, pos: usize) -> (r: Option<ImageInfo>)
    ensures
        r == spec_read_image(res@, pos as int),
{
    if pos < res.len() {
        match res[pos] {
            MeasureResult::Image { found, width, height } => if found {
                Option::Some(ImageInfo { width, height })
            } else {
                Option::None
            },
            _ => Option::None,
        }
    } else {
        Option::None
    }
}

/// Advances a result position by a consumed count, capped.
fn adv_pos(res_len: usize, pos: usize, consumed: usize) -> (r: usize)
    requires
        pos <= res_len,
    ensures
        r == spec_adv_pos(res_len as int, pos as int, consumed as int),
        pos <= r <= res_len,
{
    if consumed <= res_len - pos {
        pos + consumed
    } else {
        res_len
    }
}

/// The indentation a marker column reserves, from its cached widths.
fn list_indentation(marker: &ListMarker, theme: &Theme) -> (r: u64)
    ensures
        r == spec_list_indentation(marker@, *theme),
{
    match marker {
        ListMarker::Symbol { width, .. } => sat_add_u64(
            *width,
            sat_add_u64(theme.bullet_list_indentation, theme.list_after_indentation),
        ),
        ListMarker::Numbers { widths, .. } => {
            let mut acc: u64 = 0;
            let mut k: usize = 0;
            while k < widths.len()
                invariant
                    k <= widths@.len(),
                    acc == spec_numbered_indentation(widths@.take(k as int), *theme),
                decreases widths@.len() - k,
            {
                let w = sat_add_u64(
                    widths[k],
                    sat_add_u64(theme.numbered_list_indentation, theme.list_after_indentation),
                );
                proof {
                    assert(widths@.take(k as int + 1).drop_last() =~= widths@.take(k as int));
                    assert(widths@.take(k as int + 1).last() == widths@[k as int]);
                }
                if w > acc {
                    acc = w;
                }
                k += 1;
            }
            proof {
                assert(widths@.take(widths@.len() as int) =~= widths@);
            }
            acc
        },
    }
}

/// Applies the width-free results to a block.
fn apply_pre_block(b: MarkdownContent, res: &Vec<MeasureResult>, pos: usize, theme: &Theme) -> (r: (
    MarkdownContent,
    usize,
))
    requires
        pos <= res@.len(),
    ensures
        ({
            let (b2, p2) = spec_apply_pre_block(block_view(b), res@, pos as int, *theme);
            r.0@ == b2 && r.1 == p2 && r.1 <= res@.len()
        }),
    decreases b, 1nat,
{
    match b {
        MarkdownContent::Indented { decoration, flow } => {
            let (f2, p2) = apply_pre_flow(flow, res, pos, theme);
            (MarkdownContent::Indented { decoration, flow: f2 }, p2)
        },
        MarkdownContent::List { list } => {
            let List { list: item_vec, marker, indentation } = list;
            let n_items = item_vec.len();
            proof {
                lemma_flows_view(item_vec@);
            }
            let (marker2, consumed) = match marker {
                ListMarker::Symbol { symbol, width: _ } => {
                    let w = read_marker_at(res, pos, 0);
                    (ListMarker::Symbol { symbol, width: w }, 1usize)
                },
                ListMarker::Numbers { start_number, widths: _ } => {
                    let mut widths: Vec<u64> = Vec::new();
                    let mut k: usize = 0;
                    while k < n_items
                        invariant
                            k <= n_items,
                            pos <= res@.len(),
                            widths@.len() == k,
                            forall|q: int|
                                0 <= q < k ==> #[trigger] widths@[q] == spec_read_marker(
                                    res@,
                                    pos as int + q,
                                ),
                        decreases n_items - k,
                    {
                        let w = read_marker_at(res, pos, k);
                        widths.push(w);
                        k += 1;
                    }
                    proof {
                        assert(widths@ =~= Seq::new(
                            n_items as nat,
                            |q: int| spec_read_marker(res@, pos as int + q),
                        ));
                    }
                    (ListMarker::Numbers { start_number, widths }, n_items)
                },
            };
            let p1 = adv_pos(res.len(), pos, consumed);
            let (items2, p2) = apply_pre_flows(item_vec, res, p1, theme);
            let ind = list_indentation(&marker2, theme);
            (MarkdownContent::List { list: List { list: items2, marker: marker2, indentation: ind } }, p2)
        },
        MarkdownContent::Image { uri, title, image } => {
            let img2 = match image {
                Option::Some(info) => Option::Some(info),
                Option::None => read_image_at(res, pos),
            };
            let p2 = adv_pos(res.len(), pos, 1);
            (MarkdownContent::Image { uri, title, image: img2 }, p2)
        },
        MarkdownContent::HorizontalLine { height: _ } => (
            MarkdownContent::HorizontalLine { height: theme.rule_height },
            pos,
        ),
        other => (other, pos),
    }
}

/// Applies the width-free results to a sequence of item flows.
#[verifier::loop_isolation(false)]
fn apply_pre_flows(flows: Vec<LayoutFlow>, res: &Vec<MeasureResult>, pos: usize, theme: &Theme) -> (r: (
    Vec<LayoutFlow>,
    usize,
))
    requires
        pos <= res@.len(),
    ensures
        ({
            let (items2, p2) = spec_apply_pre_flows(flows_view(flows@), res@, pos as int, *theme);
            flows_view(r.0@) == items2 && r.1 == p2 && r.1 <= res@.len()
        }),
    decreases flows@, 3nat,
{
    let ghost orig = flows@;
    let ghost origv = flows_view(orig);
    proof {
        lemma_flows_view(orig);
    }
    let mut rem = flows;
    let mut out: Vec<LayoutFlow> = Vec::new();
    let mut p = pos;
    proof {
        assert(flows_view(out@) =~= Seq::<FlowV>::empty());
        assert(origv.take(0) =~= Seq::<FlowV>::empty());
    }
    while rem.len() > 0
        invariant
            out@.len() + rem@.len() == orig.len(),
            rem@ =~= orig.skip(out@.len() as int),
            origv == flows_view(orig),
            origv.len() == orig.len(),
            forall|q: int| 0 <= q < orig.len() ==> origv[q] == flow_view(#[trigger] orig[q]),
            p <= res@.len(),
            (flows_view(out@), p as int) == spec_apply_pre_flows(
                origv.take(out@.len() as int),
                res@,
                pos as int,
                *theme,
            ),
        decreases rem@.len(),
    {
        let ghost k = out@.len() as int;
        let f = rem.remove(0);
        proof {
            assert(f == orig[k]);
            assert(decreases_to!(orig => orig[k]));
            assert(decreases_to!(orig, 3nat => f, 2nat));
        }
        let (f2, p2) = apply_pre_flow(f, res, p, theme);
        proof {
            assert(origv.take(k + 1).drop_last() =~= origv.take(k));
            assert(origv.take(k + 1).last() == origv[k]);
            assert(out@.push(f2).drop_last() =~= out@);
            assert(out@.push(f2).last() == f2);
            assert(flows_view(out@.push(f2)) =~= flows_view(out@).push(f2@));
            assert(rem@ =~= orig.skip(k + 1));
        }
        out.push(f2);
        p = p2;
    }
    proof {
        assert(origv.take(orig.len() as int) =~= origv);
    }
    (out, p)
}

/// Applies the width-free results to a flow.
#[verifier::loop_isolation(false)]
fn apply_pre_flow(f: LayoutFlow, res: &Vec<MeasureResult>, pos: usize, theme: &Theme) -> (r: (
    LayoutFlow,
    usize,
))
    requires
        pos <= res@.len(),
    ensures
        ({
            let (f2, p2) = spec_apply_pre_flow(f@, res@, pos as int, *theme);
            r.0@ == f2 && r.1 == p2 && r.1 <= res@.len()
        }),
    decreases f, 2nat,
{
    let ghost orig = f.flow@;
    let ghost es = f@.entries;
    proof {
        lemma_entries_view(orig);
    }
    let LayoutFlow { flow: mut rem } = f;
    let mut out: Vec<crate::content::FlowEntry> = Vec::new();
    let mut p = pos;
    proof {
        assert(crate::content::entries_view(out@) =~= Seq::<crate::content::FlowEntryV>::empty());
        assert(es.take(0) =~= Seq::<crate::content::FlowEntryV>::empty());
    }
    while rem.len() > 0
        invariant
            out@.len() + rem@.len() == orig.len(),
            rem@ =~= orig.skip(out@.len() as int),
            es == crate::content::entries_view(orig),
            es.len() == orig.len(),
            forall|q: int|
                0 <= q < orig.len() ==> es[q] == (crate::content::FlowEntryV {
                    data: block_view((#[trigger] orig[q]).data),
                    offset: orig[q].offset,
                }),
            p <= res@.len(),
            (crate::content::entries_view(out@), p as int) == spec_apply_pre_entries(
                es.take(out@.len() as int),
                res@,
                pos as int,
                *theme,
            ),
        decreases rem@.len(),
    {
        let ghost k = out@.len() as int;
        let entry = rem.remove(0);
        let crate::content::FlowEntry { data, offset } = entry;
        proof {
            assert(entry == orig[k]);
            assert(data == orig[k].data);
            assert(decreases_to!(orig => orig[k]));
            assert(decreases_to!(orig[k] => orig[k].data));
            assert(decreases_to!(orig, 2nat => data, 1nat));
        }
        let (d2, p2) = apply_pre_block(data, res, p, theme);
        let e2 = crate::content::FlowEntry { data: d2, offset };
        proof {
            assert(es.take(k + 1).drop_last() =~= es.take(k));
            assert(es.take(k + 1).last() == es[k]);
            assert(out@.push(e2).drop_last() =~= out@);
            assert(out@.push(e2).last() == e2);
            assert(crate::content::entries_view(out@.push(e2))
                =~= crate::content::entries_view(out@).push(
                crate::content::FlowEntryV { data: d2@, offset },
            ));
            assert(rem@ =~= orig.skip(k + 1));
        }
        out.push(e2);
        p = p2;
    }
    proof {
        assert(es.take(orig.len() as int) =~= es);
    }
    (LayoutFlow { flow: out }, p)
}

/// Applies the shaped heights to a block: caches the measured text
/// extent of paragraphs and headings, in request order, recursing
/// into nested flows. Returns the block and the next unread result
/// position.
pub open spec fn spec_apply_text_block(b: BlockV, res: Seq<MeasureResult>, pos: int) -> (BlockV, int)
    decreases b, 1nat,
{
    match b {
        BlockV::Header { level, text, markers, text_layout } => (
            BlockV::Header { level, text, markers, text_layout: spec_read_text(res, pos) },
            spec_adv_pos(res.len() as int, pos, 1),
        ),
        BlockV::Paragraph { top_margin, text, markers, text_layout } => (
            BlockV::Paragraph { top_margin, text, markers, text_layout: spec_read_text(res, pos) },
            spec_adv_pos(res.len() as int, pos, 1),
        ),
        BlockV::Indented { flow } => {
            let (f2, p2) = spec_apply_text_flow(flow, res, pos);
            (BlockV::Indented { flow: f2 }, p2)
        },
        BlockV::List { items, marker, indentation } => {
            let (items2, p2) = spec_apply_text_flows(items, res, pos);
            (BlockV::List { items: items2, marker, indentation }, p2)
        },
        _ => (b, pos),
    }
}

/// Applies the shaped heights to a sequence of item flows in order.
pub open spec fn spec_apply_text_flows(items: Seq<FlowV>, res: Seq<MeasureResult>, pos: int) -> (
    Seq<FlowV>,
    int,
)
    decreases items, 3nat,
{
    if items.len() == 0 {
        (Seq::empty(), pos)
    } else {
        let (pre, pm) = spec_apply_text_flows(items.drop_last(), res, pos);
        let (lf, p2) = spec_apply_text_flow(items.last(), res, pm);
        (pre.push(lf), p2)
    }
}

/// Applies the shaped heights to a flow and recomputes its offsets in
/// a single forward pass.
pub open spec fn spec_apply_text_flow(f: FlowV, res: Seq<MeasureResult>, pos: int) -> (FlowV, int)
    decreases f, 2nat,
{
    let (es2, p2) = spec_apply_text_entries(f.entries, res, pos);
    (FlowV { entries: spec_reflow(es2) }, p2)
}

/// Applies the shaped heights to a flow's entries in order.
pub open spec fn spec_apply_text_entries(
    es: Seq<crate::content::FlowEntryV>,
    res: Seq<MeasureResult>,
    pos: int,
) -> (Seq<crate::content::FlowEntryV>, int)
    decreases es, 1nat,
{
    if es.len() == 0 {
        (Seq::empty(), pos)
    } else {
        let (pre, pm) = spec_apply_text_entries(es.drop_last(), res, pos);
        let (b2, p2) = spec_apply_text_block(es.last().data, res, pm);
        (pre.push(crate::content::FlowEntryV { data: b2, offset: es.last().offset }), p2)
    }
}

/// Applies the shaped heights to a block.
fn apply_text_block(b: MarkdownContent, res: &Vec<MeasureResult>, pos: usize) -> (r: (
    MarkdownContent,
    usize,
))
    requires
        pos <= res@.len(),
    ensures
        ({
            let (b2, p2) = spec_apply_text_block(block_view(b), res@, pos as int);
            r.0@ == b2 && r.1 == p2 && r.1 <= res@.len()
        }),
    decreases b, 1nat,
{
    match b {
        MarkdownContent::Header { level, text, markers, text_layout: _ } => {
            let tl = read_text_at(res, pos);
            let p2 = adv_pos(res.len(), pos, 1);
            (MarkdownContent::Header { level, text, markers, text_layout: tl }, p2)
        },
        MarkdownContent::Paragraph { top_margin, text, markers, text_layout: _ } => {
            let tl = read_text_at(res, pos);
            let p2 = adv_pos(res.len(), pos, 1);
            (MarkdownContent::Paragraph { top_margin, text, markers, text_layout: tl }, p2)
        },
        MarkdownContent::Indented { decoration, flow } => {
            let (f2, p2) = apply_text_flow(flow, res, pos);
            (MarkdownContent::Indented { decoration, flow: f2 }, p2)
        },
        MarkdownContent::List { list } => {
            let List { list: item_vec, marker, indentation } = list;
            let (items2, p2) = apply_text_flows(item_vec, res, pos);
            (
                MarkdownContent::List { list: List { list: items2, marker, indentation } },
                p2,
            )
        },
        other => (other, pos),
    }
}

/// Applies the shaped heights to a sequence of item flows.
#[verifier::loop_isolation(false)]
fn apply_text_flows(flows: Vec<LayoutFlow>, res: &Vec<MeasureResult>, pos: usize) -> (r: (
    Vec<LayoutFlow>,
    usize,
))
    requires
        pos <= res@.len(),
    ensures
        ({
            let (items2, p2) = spec_apply_text_flows(flows_view(flows@), res@, pos as int);
            flows_view(r.0@) == items2 && r.1 == p2 && r.1 <= res@.len()
        }),
    decreases flows@, 3nat,
{
    let ghost orig = flows@;
    let ghost origv = flows_view(orig);
    proof {
        lemma_flows_view(orig);
    }
    let mut rem = flows;
    let mut out: Vec<LayoutFlow> = Vec::new();
    let mut p = pos;
    proof {
        assert(flows_view(out@) =~= Seq::<FlowV>::empty());
        assert(origv.take(0) =~= Seq::<FlowV>::empty());
    }
    while rem.len() > 0
        invariant
            out@.len() + rem@.len() == orig.len(),
            rem@ =~= orig.skip(out@.len() as int),
            p <= res@.len(),
            (flows_view(out@), p as int) == spec_apply_text_flows(
                origv.take(out@.len() as int),
                res@,
                pos as int,
            ),
        decreases rem@.len(),
    {
        let ghost k = out@.len() as int;
        let f = rem.remove(0);
        proof {
            assert(f == orig[k]);
            assert(decreases_to!(orig => orig[k]));
        }
        let (f2, p2) = apply_text_flow(f, res, p);
        proof {
            assert(origv.take(k + 1).drop_last() =~= origv.take(k));
            assert(origv.take(k + 1).last() == origv[k]);
            assert(out@.push(f2).drop_last() =~= out@);
            assert(out@.push(f2).last() == f2);
            assert(flows_view(out@.push(f2)) =~= flows_view(out@).push(f2@));
            assert(rem@ =~= orig.skip(k + 1));
        }
        out.push(f2);
        p = p2;
    }
    proof {
        assert(origv.take(orig.len() as int) =~= origv);
    }
    (out, p)
}

/// Applies the shaped heights to a flow, then recomputes its offsets.
#[verifier::loop_isolation(false)]
fn apply_text_flow(f: LayoutFlow, res: &Vec<MeasureResult>, pos: usize) -> (r: (LayoutFlow, usize))
    requires
        pos <= res@.len(),
    ensures
        ({
            let (f2, p2) = spec_apply_text_flow(f@, res@, pos as int);
            r.0@ == f2 && r.1 == p2 && r.1 <= res@.len()
        }),
    decreases f, 2nat,
{
    let ghost orig = f.flow@;
    let ghost es = f@.entries;
    proof {
        lemma_entries_view(orig);
    }
    let LayoutFlow { flow: mut rem } = f;
    let mut out: Vec<crate::content::FlowEntry> = Vec::new();
    let mut p = pos;
    proof {
        assert(crate::content::entries_view(out@) =~= Seq::<crate::content::FlowEntryV>::empty());
        assert(es.take(0) =~= Seq::<crate::content::FlowEntryV>::empty());
    }
    while rem.len() > 0
        invariant
            out@.len() + rem@.len() == orig.len(),
            rem@ =~= orig.skip(out@.len() as int),
            p <= res@.len(),
            (crate::content::entries_view(out@), p as int) == spec_apply_text_entries(
                es.take(out@.len() as int),
                res@,
                pos as int,
            ),
        decreases rem@.len(),
    {
        let ghost k = out@.len() as int;
        let entry = rem.remove(0);
        let crate::content::FlowEntry { data, offset } = entry;
        proof {
            assert(entry == orig[k]);
            assert(data == orig[k].data);
            assert(decreases_to!(orig => orig[k]));
            assert(decreases_to!(orig[k] => orig[k].data));
        }
        let (d2, p2) = apply_text_block(data, res, p);
        let e2 = crate::content::FlowEntry { data: d2, offset };
        proof {
            assert(es.take(k + 1).drop_last() =~= es.take(k));
            assert(es.take(k + 1).last() == es[k]);
            assert(out@.push(e2).drop_last() =~= out@);
            assert(out@.push(e2).last() == e2);
            assert(crate::content::entries_view(out@.push(e2))
                =~= crate::content::entries_view(out@).push(
                crate::content::FlowEntryV { data: d2@, offset },
            ));
            assert(rem@ =~= orig.skip(k + 1));
        }
        out.push(e2);
        p = p2;
    }
    proof {
        assert(es.take(orig.len() as int) =~= es);
    }
    let ghost es2 = crate::content::entries_view(out@);
    let mut lf = LayoutFlow { flow: out };
    lf.recompute_offsets();
    proof {
        lemma_reflow_ok(es2);
        assert(lf@.entries.len() == es2.len());
        assert(spec_reflow(es2).len() == es2.len());
        assert forall|q: int| 0 <= q < es2.len() implies (#[trigger] lf@.entries[q]).data
            == spec_reflow(es2)[q].data by {
            assert(lf@.entries[q].data == es2[q].data);
        }
        lemma_offsets_determined(lf@, FlowV { entries: spec_reflow(es2) });
    }
    (lf, p)
}

/// Applies the shaped heights to a document and recomputes every
/// offset: after this pass each flow's offsets satisfy the forward
/// recurrence at every nesting depth.
pub fn apply_text_heights(f: LayoutFlow, res: &Vec<MeasureResult>) -> (r: LayoutFlow)
    ensures
        r@ == spec_apply_text_flow(f@, res@, 0).0,
{
    let (f2, _) = apply_text_flow(f, res, 0);
    f2
}

/// Applies the width-free results to a document: caches marker widths
/// and decoded image dimensions, fixes every list indentation, and
/// derives rule heights.
pub fn apply_premeasure(f: LayoutFlow, res: &Vec<MeasureResult>, theme: &Theme) -> (r: LayoutFlow)
    ensures
        r@ == spec_apply_pre_flow(f@, res@, 0, *theme).0,
{
    let (f2, _) = apply_pre_flow(f, res, 0, theme);
    f2
}

} // verus!
