//! Inline style markers: half-open ranges over a block's own text that
//! carry a styling kind (bold, italic, strikethrough, inline code).

use vstd::prelude::*;

use crate::token::Token;

verus! {

/// The styling a marker applies to its text range.
#[derive(Clone, Copy, PartialEq, Eq, Structural, Debug)]
pub enum MarkerKind {
    Bold,
    Italic,
    Strikethrough,
    InlineCode,
}

/// A half-open range `[start_pos, end_pos)` of character positions into
/// the owning block's raw text, tagged with a styling kind. Ranges may
/// overlap in kind but never run backwards.
#[derive(Clone, Copy, PartialEq, Eq, Structural, Debug)]
pub struct TextMarker {
    pub start_pos: usize,
    pub end_pos: usize,
    pub kind: MarkerKind,
}

impl TextMarker {
    /// A marker is well formed for a text of `text_len` characters when
    /// its range is ordered and stays inside the text.
    pub open spec fn wf(self, text_len: nat) -> bool {
        self.start_pos <= self.end_pos && self.end_pos <= text_len
    }
}

/// All markers in a sequence are well formed for a text of `text_len`
/// characters.
pub open spec fn markers_wf(markers: Seq<TextMarker>, text_len: nat) -> bool {
    forall|i: int| 0 <= i < markers.len() ==> (#[trigger] markers[i]).wf(text_len)
}

/// The running state of the style-marker resolver: the recorded start
/// position of each currently open emphasis span, and the markers
/// completed so far.
pub struct MarkeerState {
    pub bold_start: usize,
    pub italic_start: usize,
    pub strikethrough_start: usize,
    pub markers: Vec<TextMarker>,
}

/// The mathematical image of a `MarkeerState`.
#[verifier::ext_equal]
pub struct MarkerStateV {
    pub bold_start: usize,
    pub italic_start: usize,
    pub strikethrough_start: usize,
    pub markers: Seq<TextMarker>,
}

impl View for MarkeerState {
    type V = MarkerStateV;

    open spec fn view(&self) -> MarkerStateV {
        MarkerStateV {
            bold_start: self.bold_start,
            italic_start: self.italic_start,
            strikethrough_start: self.strikethrough_start,
            markers: self.markers@,
        }
    }
}

impl MarkerStateV {
    /// The state of a resolver that has seen nothing yet.
    pub open spec fn empty() -> MarkerStateV {
        MarkerStateV { bold_start: 0, italic_start: 0, strikethrough_start: 0, markers: Seq::empty() }
    }

    /// Every recorded start and every completed marker stays within a
    /// text of `text_len` characters.
    pub open spec fn wf(self, text_len: nat) -> bool {
        &&& self.bold_start <= text_len
        &&& self.italic_start <= text_len
        &&& self.strikethrough_start <= text_len
        &&& markers_wf(self.markers, text_len)
    }
}

impl MarkeerState {
    /// A fresh resolver state: no open span, no completed marker.
    pub fn new() -> (r: MarkeerState)
        ensures
            r@ == MarkerStateV::empty(),
    {
        MarkeerState {
            bold_start: 0,
            italic_start: 0,
            strikethrough_start: 0,
            markers: Vec::new(),
        }
    }
}

/// What one emphasis token does to the resolver state at text position
/// `text_end`: a start token records the position for its kind, an end
/// token completes a marker from the recorded start of the same kind to
/// `text_end`. Any other token leaves the state unchanged.
pub open spec fn spec_marker_step(st: MarkerStateV, t: Token, text_end: usize) -> MarkerStateV {
    match t {
        Token::StrongStart => MarkerStateV { bold_start: text_end, ..st },
        Token::EmphasisStart => MarkerStateV { italic_start: text_end, ..st },
        Token::StrikethroughStart => MarkerStateV { strikethrough_start: text_end, ..st },
        Token::StrongEnd => MarkerStateV {
            markers: st.markers.push(
                TextMarker { start_pos: st.bold_start, end_pos: text_end, kind: MarkerKind::Bold },
            ),
            ..st
        },
        Token::EmphasisEnd => MarkerStateV {
            markers: st.markers.push(
                TextMarker {
                    start_pos: st.italic_start,
                    end_pos: text_end,
                    kind: MarkerKind::Italic,
                },
            ),
            ..st
        },
        Token::StrikethroughEnd => MarkerStateV {
            markers: st.markers.push(
                TextMarker {
                    start_pos: st.strikethrough_start,
                    end_pos: text_end,
                    kind: MarkerKind::Strikethrough,
                },
            ),
            ..st
        },
        _ => st,
    }
}

/// Whether a token is consumed by the style-marker resolver.
pub open spec fn spec_is_marker_token(t: Token) -> bool {
    match t {
        Token::StrongStart
        | Token::EmphasisStart
        | Token::StrikethroughStart
        | Token::StrongEnd
        | Token::EmphasisEnd
        | Token::StrikethroughEnd => true,
        _ => false,
    }
}

/// Feeds one token to the style-marker resolver. Returns true exactly
/// when the token was an emphasis start or end and is consumed; the
/// state is then advanced by `spec_marker_step`. Each emphasis kind
/// closes from its own recorded start, so overlapping kinds never steal
/// one another's start position.
pub fn process_marker(event: &Token, marker_state: &mut MarkeerState, text_end: usize) -> (r: bool)
    ensures
        r == spec_is_marker_token(*event),
        final(marker_state)@ == spec_marker_step(old(marker_state)@, *event, text_end),
{
    match event {
        Token::StrongStart => {
            marker_state.bold_start = text_end;
            true
        },
        Token::EmphasisStart => {
            marker_state.italic_start = text_end;
            true
        },
        Token::StrikethroughStart => {
            marker_state.strikethrough_start = text_end;
            true
        },
        Token::StrongEnd => {
            marker_state.markers.push(
                TextMarker {
                    start_pos: marker_state.bold_start,
                    end_pos: text_end,
                    kind: MarkerKind::Bold,
                },
            );
            true
        },
        Token::EmphasisEnd => {
            marker_state.markers.push(
                TextMarker {
                    start_pos: marker_state.italic_start,
                    end_pos: text_end,
                    kind: MarkerKind::Italic,
                },
            );
            true
        },
        Token::StrikethroughEnd => {
            marker_state.markers.push(
                TextMarker {
                    start_pos: marker_state.strikethrough_start,
                    end_pos: text_end,
                    kind: MarkerKind::Strikethrough,
                },
            );
            true
        },
        _ => false,
    }
}

/// Markers that fit a shorter text also fit any longer text.
pub proof fn lemma_markers_wf_grow(markers: Seq<TextMarker>, small: nat, large: nat)
    requires
        markers_wf(markers, small),
        small <= large,
    ensures
        markers_wf(markers, large),
{
}

/// The step keeps the resolver state well formed: every recorded start
/// lies at or before the current text position, so a completed marker
/// never runs backwards.
pub proof fn lemma_marker_step_wf(st: MarkerStateV, t: Token, text_end: usize, text_len: nat)
    requires
        st.wf(text_end as nat),
        text_end <= text_len,
    ensures
        spec_marker_step(st, t, text_end).wf(text_len),
{
    lemma_markers_wf_grow(st.markers, text_end as nat, text_len);
    let st2 = spec_marker_step(st, t, text_end);
    assert forall|i: int| 0 <= i < st2.markers.len() implies (#[trigger] st2.markers[i]).wf(
        text_len,
    ) by {
        if i < st.markers.len() {
            assert(st.markers[i].wf(text_len));
        }
    }
}

} // verus!
