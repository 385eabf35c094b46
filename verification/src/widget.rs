//! The document widget core: the parsed flow, the width it was last
//! measured at, the dirty flag guarding re-measurement, and the
//! vertical scroll position. The host performs shaping, decoding and
//! drawing; every decision here is verified.

use vstd::prelude::*;

use crate::builder::ParseError;
use crate::content::{sat_add, spec_flow_height, LayoutFlow};
use crate::flow::{flow_offsets_ok, VisiblePart};
use crate::measure::{
    sat_sub, spec_apply_pre_flow, spec_apply_text_flow, spec_pre_reqs_flow, spec_text_reqs_flow,
    MeasureRequest, MeasureResult,
};
use crate::parse::{parse_markdown, tokens_of};
use crate::theme::Theme;

verus! {

/// A scrollable markdown document: the block tree with its cached
/// measurements, the width of the last measurement pass, and the
/// scroll offset.
pub struct MarkdowWidget {
    pub markdown_layout: LayoutFlow,
    pub max_advance: u64,
    pub dirty: bool,
    pub scroll_y: u64,
}

/// The scroll position after moving by a delta and clamping into
/// `[0, content_height - viewport_height]` (zero when the content is
/// shorter than the viewport).
pub open spec fn spec_scrolled(scroll: u64, delta: i64, content: u64, viewport: u64) -> u64 {
    let moved: u64 = if delta >= 0 {
        sat_add(scroll, delta as u64)
    } else {
        sat_sub(scroll, (-(delta as int)) as u64)
    };
    let max_scroll = sat_sub(content, viewport);
    if moved <= max_scroll {
        moved
    } else {
        max_scroll
    }
}

impl MarkdowWidget {
    /// Builds the widget from markdown source text: the document is
    /// parsed once, marked dirty, unmeasured and unscrolled. Fails
    /// exactly when parsing does.
    pub fn from_markdown(content: &str) -> (r: Result<MarkdowWidget, ParseError>)
        ensures
            match r {
                Ok(w) => {
                    &&& crate::builder::spec_build_flow(
                        tokens_of(content@),
                        0,
                        Option::None,
                        Seq::empty(),
                        crate::marker::MarkerStateV::empty(),
                        crate::builder::empty_flow(),
                    ) == (crate::builder::FlowOut::Done {
                        flow: w.markdown_layout@,
                        next: tokens_of(content@).len(),
                    })
                    &&& w.max_advance == 0
                    &&& w.dirty == true
                    &&& w.scroll_y == 0
                },
                Err(e) => crate::builder::spec_build_flow(
                    tokens_of(content@),
                    0,
                    Option::None,
                    Seq::empty(),
                    crate::marker::MarkerStateV::empty(),
                    crate::builder::empty_flow(),
                ) == (crate::builder::FlowOut::Fail { err: e }),
            },
    {
        match parse_markdown(content) {
            Ok(flow) => Ok(
                MarkdowWidget { markdown_layout: flow, max_advance: 0, dirty: true, scroll_y: 0 },
            ),
            Err(e) => Err(e),
        }
    }

    /// Whether a layout pass is due: only when the content is dirty or
    /// the available width differs from the width of the last pass.
    /// Unchanged content at an unchanged width is never re-measured.
    pub fn needs_layout(&self, width: u64) -> (r: bool)
        ensures
            r == (self.dirty || self.max_advance != width),
    {
        self.dirty || self.max_advance != width
    }

    /// The width-free measurement requests of the document.
    pub fn premeasure_requests(&self, theme: &Theme) -> (r: Vec<MeasureRequest>)
        ensures
            crate::measure::reqs_view(r@) == spec_pre_reqs_flow(self.markdown_layout@, *theme),
    {
        crate::measure::premeasure_requests(&self.markdown_layout, theme)
    }

    /// Applies the width-free results: marker widths, indentations,
    /// decoded images, rule heights.
    pub fn apply_premeasure(&mut self, res: &Vec<MeasureResult>, theme: &Theme)
        ensures
            final(self).markdown_layout@ == spec_apply_pre_flow(
                old(self).markdown_layout@,
                res@,
                0,
                *theme,
            ).0,
            final(self).max_advance == old(self).max_advance,
            final(self).dirty == old(self).dirty,
            final(self).scroll_y == old(self).scroll_y,
    {
        let mut f = LayoutFlow::new();
        core::mem::swap(&mut f, &mut self.markdown_layout);
        let f2 = crate::measure::apply_premeasure(f, res, theme);
        self.markdown_layout = f2;
    }

    /// The shaping requests of the document at the given width.
    pub fn text_requests(&self, width: u64, theme: &Theme) -> (r: Vec<MeasureRequest>)
        ensures
            crate::measure::reqs_view(r@) == spec_text_reqs_flow(
                self.markdown_layout@,
                width,
                *theme,
            ),
    {
        crate::measure::text_requests(&self.markdown_layout, width, theme)
    }

    /// Applies the shaped heights measured at `width`: caches every
    /// text extent, recomputes every offset, records the measured
    /// width and clears the dirty flag, so that `needs_layout(width)`
    /// is false until the content changes or the width does.
    pub fn apply_text_heights(&mut self, width: u64, res: &Vec<MeasureResult>)
        ensures
            final(self).markdown_layout@ == spec_apply_text_flow(
                old(self).markdown_layout@,
                res@,
                0,
            ).0,
            flow_offsets_ok(final(self).markdown_layout@),
            crate::flow::flow_deep_ok(final(self).markdown_layout@),
            final(self).max_advance == width,
            final(self).dirty == false,
            final(self).scroll_y == old(self).scroll_y,
    {
        let mut f = LayoutFlow::new();
        core::mem::swap(&mut f, &mut self.markdown_layout);
        let f2 = crate::measure::apply_text_heights(f, res);
        self.markdown_layout = f2;
        self.max_advance = width;
        self.dirty = false;
        proof {
            crate::measure::lemma_apply_text_deep_ok(old(self).markdown_layout@, res@, 0);
        }
    }

    /// The total measured height of the document.
    pub fn height(&self) -> (r: u64)
        ensures
            r == spec_flow_height(self.markdown_layout@),
    {
        self.markdown_layout.height()
    }

    /// Scrolls by a wheel delta, clamped so the viewport never runs
    /// above the document top nor below its bottom.
    pub fn scroll_by(&mut self, delta: i64, viewport_height: u64)
        ensures
            final(self).scroll_y == spec_scrolled(
                old(self).scroll_y,
                delta,
                spec_flow_height(old(self).markdown_layout@),
                viewport_height,
            ),
            final(self).markdown_layout == old(self).markdown_layout,
            final(self).max_advance == old(self).max_advance,
            final(self).dirty == old(self).dirty,
    {
        let content = self.markdown_layout.height();
        let moved: u64 = if delta >= 0 {
            crate::content::sat_add_u64(self.scroll_y, delta as u64)
        } else {
            let mag: u64 = ((-(delta + 1)) as u64) + 1;
            proof {
                assert(mag == (-(delta as int)) as u64);
            }
            crate::measure::sat_sub_u64(self.scroll_y, mag)
        };
        let max_scroll = crate::measure::sat_sub_u64(content, viewport_height);
        self.scroll_y = if moved <= max_scroll {
            moved
        } else {
            max_scroll
        };
    }

    /// The visible slice of the document for the current scroll
    /// position: exactly the blocks whose span intersects the
    /// viewport, each with its offset and clipped sub-range.
    pub fn visible_parts(&self, viewport_height: u64) -> (r: Vec<VisiblePart>)
        requires
            flow_offsets_ok(self.markdown_layout@),
        ensures
            forall|j: int|
                0 <= j < r@.len() ==> crate::flow::spec_part_ok(
                    self.markdown_layout@,
                    #[trigger] r@[j],
                    self.scroll_y,
                    viewport_height,
                ),
            forall|j1: int, j2: int|
                0 <= j1 < j2 < r@.len() ==> r@[j1].index < r@[j2].index,
            forall|i: int|
                0 <= i < self.markdown_layout@.entries.len() && crate::flow::spec_visible(
                    self.markdown_layout@,
                    i,
                    self.scroll_y,
                    viewport_height,
                ) ==> exists|j: int| 0 <= j < r@.len() && (#[trigger] r@[j]).index == i,
    {
        self.markdown_layout.get_visible_parts(self.scroll_y, viewport_height)
    }
}

/// A view descriptor naming the markdown file the widget shows.
pub struct MarkdownView {
    pub path: String,
}

/// Builds the view descriptor for a markdown file path.
pub fn markdown_view(path: String) -> (r: MarkdownView)
    ensures
        r.path == path,
{
    MarkdownView { path }
}

} // verus!
