//! The document content model: typed blocks owning their raw text and
//! style markers, with nested layout flows for lists and quoted regions.
//!
//! All vertical extents are integer layout units. Additions saturate at
//! `u64::MAX`, so measurement is total; in any document whose extents
//! fit the machine word the saturating sums equal the exact ones.

use vstd::prelude::*;

use crate::marker::{markers_wf, TextMarker};

verus! {

/// Saturating addition on layout units.
pub open spec fn sat_add(a: u64, b: u64) -> u64 {
    if a + b > u64::MAX {
        u64::MAX
    } else {
        (a + b) as u64
    }
}

/// Executable saturating addition matching `sat_add`.
pub fn sat_add_u64(a: u64, b: u64) -> (r: u64)
    ensures
        r == sat_add(a, b),
{
    if a <= u64::MAX - b {
        a + b
    } else {
        u64::MAX
    }
}

/// The measured extent of a shaped text: its total height and the width
/// of its widest line, in layout units. A text that was never shaped
/// reports zero extent.
#[derive(Clone, Copy, PartialEq, Eq, Structural, Debug)]
pub struct TextLayoutInfo {
    pub height: u64,
    pub full_width: u64,
}

impl TextLayoutInfo {
    /// The extent of a text that was never shaped.
    pub fn empty() -> (r: TextLayoutInfo)
        ensures
            r == (TextLayoutInfo { height: 0, full_width: 0 }),
    {
        TextLayoutInfo { height: 0, full_width: 0 }
    }
}

/// The pixel dimensions of a decoded image.
#[derive(Clone, Copy, PartialEq, Eq, Structural, Debug)]
pub struct ImageInfo {
    pub width: u32,
    pub height: u32,
}

/// The decoration a quoted region reserves width for. Currently only a
/// left indent band, with no drawable content of its own.
#[derive(Clone, Debug)]
pub struct IndentationDecoration {}

/// The marker column of a list: a fixed bullet glyph, or numbers
/// counting up from an explicit start. The shaped width of each marker
/// is cached here by the measurement pass.
#[derive(Debug)]
pub enum ListMarker {
    Symbol { symbol: String, width: u64 },
    Numbers { start_number: u32, widths: Vec<u64> },
}

/// The mathematical image of a `ListMarker`.
#[verifier::ext_equal]
pub enum ListMarkerV {
    Symbol { symbol: Seq<char>, width: u64 },
    Numbers { start_number: u32, widths: Seq<u64> },
}

impl View for ListMarker {
    type V = ListMarkerV;

    open spec fn view(&self) -> ListMarkerV {
        match self {
            ListMarker::Symbol { symbol, width } => ListMarkerV::Symbol {
                symbol: symbol@,
                width: *width,
            },
            ListMarker::Numbers { start_number, widths } => ListMarkerV::Numbers {
                start_number: *start_number,
                widths: widths@,
            },
        }
    }
}

/// A list block: one child flow per item, the marker column, and the
/// cached indentation width shared by all items.
#[derive(Debug)]
pub struct List {
    pub list: Vec<LayoutFlow>,
    pub marker: ListMarker,
    pub indentation: u64,
}

/// One structural unit of the document.
#[derive(Debug)]
pub enum MarkdownContent {
    Indented { decoration: IndentationDecoration, flow: LayoutFlow },
    Header { level: u8, text: String, markers: Vec<TextMarker>, text_layout: TextLayoutInfo },
    List { list: List },
    Paragraph {
        top_margin: u64,
        text: String,
        markers: Vec<TextMarker>,
        text_layout: TextLayoutInfo,
    },
    Image { uri: String, title: String, image: Option<ImageInfo> },
    CodeBlock { text: String, text_layout: TextLayoutInfo },
    HorizontalLine { height: u64 },
}

/// One block of a flow together with its cached vertical offset.
#[derive(Debug)]
pub struct FlowEntry {
    pub data: MarkdownContent,
    pub offset: u64,
}

/// An ordered, measured sequence of blocks. Offsets are derived solely
/// from the heights of the preceding blocks; the flow's total height is
/// the terminal offset.
#[derive(Debug)]
pub struct LayoutFlow {
    pub flow: Vec<FlowEntry>,
}

/// The mathematical image of a block.
#[verifier::ext_equal]
pub enum BlockV {
    Indented { flow: FlowV },
    Header { level: u8, text: Seq<char>, markers: Seq<TextMarker>, text_layout: TextLayoutInfo },
    List { items: Seq<FlowV>, marker: ListMarkerV, indentation: u64 },
    Paragraph {
        top_margin: u64,
        text: Seq<char>,
        markers: Seq<TextMarker>,
        text_layout: TextLayoutInfo,
    },
    Image { uri: Seq<char>, title: Seq<char>, image: Option<ImageInfo> },
    CodeBlock { text: Seq<char>, text_layout: TextLayoutInfo },
    HorizontalLine { height: u64 },
}

/// The mathematical image of a flow entry.
#[verifier::ext_equal]
pub struct FlowEntryV {
    pub data: BlockV,
    pub offset: u64,
}

/// The mathematical image of a flow.
#[verifier::ext_equal]
pub struct FlowV {
    pub entries: Seq<FlowEntryV>,
}

/// The image of a block.
pub open spec fn block_view(b: MarkdownContent) -> BlockV
    decreases b,
{
    match b {
        MarkdownContent::Indented { decoration, flow } => BlockV::Indented {
            flow: flow_view(flow),
        },
        MarkdownContent::Header { level, text, markers, text_layout } => BlockV::Header {
            level,
            text: text@,
            markers: markers@,
            text_layout,
        },
        MarkdownContent::List { list } => BlockV::List {
            items: flows_view(list.list@),
            marker: list.marker@,
            indentation: list.indentation,
        },
        MarkdownContent::Paragraph { top_margin, text, markers, text_layout } => BlockV::Paragraph {
            top_margin,
            text: text@,
            markers: markers@,
            text_layout,
        },
        MarkdownContent::Image { uri, title, image } => BlockV::Image {
            uri: uri@,
            title: title@,
            image,
        },
        MarkdownContent::CodeBlock { text, text_layout } => BlockV::CodeBlock {
            text: text@,
            text_layout,
        },
        MarkdownContent::HorizontalLine { height } => BlockV::HorizontalLine { height },
    }
}

/// The images of a sequence of flows.
pub open spec fn flows_view(l: Seq<LayoutFlow>) -> Seq<FlowV>
    decreases l,
{
    if l.len() == 0 {
        Seq::empty()
    } else {
        flows_view(l.drop_last()).push(flow_view(l.last()))
    }
}

/// The image of a flow.
pub open spec fn flow_view(f: LayoutFlow) -> FlowV
    decreases f,
{
    FlowV { entries: entries_view(f.flow@) }
}

/// The images of a sequence of flow entries.
pub open spec fn entries_view(es: Seq<FlowEntry>) -> Seq<FlowEntryV>
    decreases es,
{
    if es.len() == 0 {
        Seq::empty()
    } else {
        entries_view(es.drop_last()).push(
            FlowEntryV { data: block_view(es.last().data), offset: es.last().offset },
        )
    }
}

/// The height of a block, in layout units. A paragraph adds its top
/// margin to its shaped height; an image with no decoded handle
/// contributes zero height; a list is as tall as its item flows
/// together; an indented region is as tall as its child flow.
pub open spec fn spec_block_height(b: BlockV) -> u64
    decreases b,
{
    match b {
        BlockV::Indented { flow } => spec_flow_height(flow),
        BlockV::Header { text_layout, .. } => text_layout.height,
        BlockV::List { items, .. } => spec_flows_height(items),
        BlockV::Paragraph { top_margin, text_layout, .. } => sat_add(
            text_layout.height,
            top_margin,
        ),
        BlockV::Image { image, .. } => match image {
            Some(info) => info.height as u64,
            None => 0,
        },
        BlockV::CodeBlock { text_layout, .. } => text_layout.height,
        BlockV::HorizontalLine { height } => height,
    }
}

/// The combined height of a sequence of item flows.
pub open spec fn spec_flows_height(items: Seq<FlowV>) -> u64
    decreases items,
{
    if items.len() == 0 {
        0
    } else {
        sat_add(spec_flows_height(items.drop_last()), spec_flow_height(items.last()))
    }
}

/// The total height of a flow: its terminal offset, that is, the offset
/// of the last block plus that block's height.
pub open spec fn spec_flow_height(f: FlowV) -> u64
    decreases f,
{
    if f.entries.len() == 0 {
        0
    } else {
        sat_add(f.entries.last().offset, spec_block_height(f.entries.last().data))
    }
}

impl View for MarkdownContent {
    type V = BlockV;

    open spec fn view(&self) -> BlockV {
        block_view(*self)
    }
}

impl View for LayoutFlow {
    type V = FlowV;

    open spec fn view(&self) -> FlowV {
        flow_view(*self)
    }
}

impl MarkdownContent {
    /// The measured height of this block, in layout units.
    pub fn height(&self) -> (r: u64)
        ensures
            r == spec_block_height(self@),
        decreases *self,
    {
        match self {
            MarkdownContent::Indented { flow, .. } => flow.height(),
            MarkdownContent::Header { text_layout, .. } => text_layout.height,
            MarkdownContent::List { list } => flows_height(&list.list),
            MarkdownContent::Paragraph { top_margin, text_layout, .. } => sat_add_u64(
                text_layout.height,
                *top_margin,
            ),
            MarkdownContent::Image { image, .. } => match image {
                Some(info) => info.height as u64,
                None => 0,
            },
            MarkdownContent::CodeBlock { text_layout, .. } => text_layout.height,
            MarkdownContent::HorizontalLine { height } => *height,
        }
    }
}

/// The combined measured height of a sequence of item flows.
pub fn flows_height(flows: &Vec<LayoutFlow>) -> (r: u64)
    ensures
        r == spec_flows_height(flows_view(flows@)),
    decreases flows@,
{
    proof {
        lemma_flows_view(flows@);
    }
    let ghost s = flows_view(flows@);
    let mut acc: u64 = 0;
    let mut j: usize = 0;
    while j < flows.len()
        invariant
            j <= flows.len(),
            s == flows_view(flows@),
            s.len() == flows@.len(),
            forall|i: int| 0 <= i < flows@.len() ==> s[i] == flow_view(#[trigger] flows@[i]),
            acc == spec_flows_height(s.take(j as int)),
        decreases flows@.len() - j,
    {
        let h = flows[j].height();
        proof {
            assert(s.take(j as int + 1).drop_last() =~= s.take(j as int));
            assert(s.take(j as int + 1).last() == s[j as int]);
        }
        acc = sat_add_u64(acc, h);
        j += 1;
    }
    proof {
        assert(s.take(flows@.len() as int) =~= s);
    }
    acc
}

impl LayoutFlow {
    /// The total height of this flow: its terminal offset.
    pub fn height(&self) -> (r: u64)
        ensures
            r == spec_flow_height(self@),
        decreases *self,
    {
        proof {
            lemma_entries_view(self.flow@);
        }
        let n = self.flow.len();
        if n == 0 {
            0
        } else {
            let last = &self.flow[n - 1];
            let h = last.data.height();
            sat_add_u64(last.offset, h)
        }
    }
}

/// An image block with no decoded handle contributes no height, so a
/// failed decode degrades the block to zero extent; the heights of its
/// sibling blocks do not mention it and are untouched.
pub proof fn lemma_undecoded_image_height(uri: Seq<char>, title: Seq<char>)
    ensures
        spec_block_height(BlockV::Image { uri, title, image: Option::None }) == 0,
{
}

/// `flows_view` maps the sequence pointwise.
pub proof fn lemma_flows_view(l: Seq<LayoutFlow>)
    ensures
        flows_view(l).len() == l.len(),
        forall|i: int| 0 <= i < l.len() ==> flows_view(l)[i] == flow_view(#[trigger] l[i]),
    decreases l,
{
    if l.len() > 0 {
        lemma_flows_view(l.drop_last());
        assert forall|i: int| 0 <= i < l.len() implies flows_view(l)[i] == flow_view(
            #[trigger] l[i],
        ) by {
            if i < l.len() - 1 {
                assert(l.drop_last()[i] == l[i]);
            }
        }
    }
}

/// `entries_view` maps the sequence pointwise.
pub proof fn lemma_entries_view(es: Seq<FlowEntry>)
    ensures
        entries_view(es).len() == es.len(),
        forall|i: int|
            0 <= i < es.len() ==> entries_view(es)[i] == (FlowEntryV {
                data: block_view((#[trigger] es[i]).data),
                offset: es[i].offset,
            }),
    decreases es,
{
    if es.len() > 0 {
        lemma_entries_view(es.drop_last());
        assert forall|i: int|
            0 <= i < es.len() implies entries_view(es)[i] == (FlowEntryV {
            data: block_view((#[trigger] es[i]).data),
            offset: es[i].offset,
        }) by {
            if i < es.len() - 1 {
                assert(es.drop_last()[i] == es[i]);
            }
        }
    }
}

} // verus!
