//! Operations on a layout flow: building it up, recomputing the cached
//! vertical offsets after measurement, and the laws the offsets obey.

use vstd::prelude::*;

use vstd::pervasive::VecAdditionalExecFns;

use crate::content::{
    block_view, entries_view, lemma_entries_view, sat_add, sat_add_u64, spec_block_height,
    spec_flow_height, BlockV, FlowEntry, FlowEntryV, FlowV, LayoutFlow, MarkdownContent,
};

verus! {

/// The offsets of a flow are consistent with its heights: the first
/// block sits at offset zero and every further block sits at the
/// preceding block's offset plus the preceding block's height.
pub open spec fn flow_offsets_ok(f: FlowV) -> bool {
    &&& f.entries.len() > 0 ==> f.entries[0].offset == 0
    &&& forall|i: int|
        1 <= i < f.entries.len() ==> (#[trigger] f.entries[i]).offset == sat_add(
            f.entries[i - 1].offset,
            spec_block_height(f.entries[i - 1].data),
        )
}

/// Offsets are consistent in every flow nested inside the block.
pub open spec fn block_offsets_ok(b: BlockV) -> bool
    decreases b,
{
    match b {
        BlockV::Indented { flow } => flow_deep_ok(flow),
        BlockV::List { items, .. } => forall|i: int|
            0 <= i < items.len() ==> flow_deep_ok(#[trigger] items[i]),
        _ => true,
    }
}

/// Offsets are consistent in this flow and in every nested flow.
pub open spec fn flow_deep_ok(f: FlowV) -> bool
    decreases f,
{
    &&& flow_offsets_ok(f)
    &&& forall|i: int|
        0 <= i < f.entries.len() ==> block_offsets_ok((#[trigger] f.entries[i]).data)
}

impl LayoutFlow {
    /// An empty flow: no blocks, height zero.
    pub fn new() -> (r: LayoutFlow)
        ensures
            r@.entries == Seq::<FlowEntryV>::empty(),
    {
        let r = LayoutFlow { flow: Vec::new() };
        proof {
            assert(r@.entries =~= Seq::<FlowEntryV>::empty());
        }
        r
    }

    /// The number of blocks in the flow.
    pub fn len(&self) -> (r: usize)
        ensures
            r == self@.entries.len(),
    {
        proof {
            lemma_entries_view(self.flow@);
        }
        self.flow.len()
    }

    /// Appends a block at the end of the flow, at the flow's current
    /// terminal offset. If the offsets were consistent with the heights
    /// before the push, they remain so.
    pub fn push(&mut self, data: MarkdownContent)
        ensures
            final(self)@.entries == old(self)@.entries.push(
                FlowEntryV { data: block_view(data), offset: spec_flow_height(old(self)@) },
            ),
            flow_offsets_ok(old(self)@) ==> flow_offsets_ok(final(self)@),
    {
        let off = self.height();
        let ghost prior = self.flow@;
        self.flow.push(FlowEntry { data, offset: off });
        proof {
            assert(self.flow@.drop_last() =~= prior);
            assert(entries_view(self.flow@) =~= entries_view(prior).push(
                FlowEntryV { data: block_view(data), offset: spec_flow_height(old(self)@) },
            ));
            let f2 = final(self)@;
            let f1 = old(self)@;
            if flow_offsets_ok(f1) {
                assert forall|i: int|
                    1 <= i < f2.entries.len() implies (#[trigger] f2.entries[i]).offset == sat_add(
                    f2.entries[i - 1].offset,
                    spec_block_height(f2.entries[i - 1].data),
                ) by {
                    if i < f1.entries.len() {
                        assert(f1.entries[i].offset == sat_add(
                            f1.entries[i - 1].offset,
                            spec_block_height(f1.entries[i - 1].data),
                        ));
                    } else {
                        assert(f1.entries.len() > 0);
                        assert(f2.entries[i - 1] == f1.entries.last());
                    }
                }
            }
        }
    }

    /// Recomputes every cached offset in a single forward pass:
    /// offset[0] = 0 and offset[i+1] = offset[i] + height[i], with
    /// saturating addition. The blocks themselves are untouched.
    #[verifier::rlimit(50)]
    pub fn recompute_offsets(&mut self)
        ensures
            final(self)@.entries.len() == old(self)@.entries.len(),
            forall|i: int|
                0 <= i < old(self)@.entries.len() ==> (#[trigger] final(self)@.entries[i]).data
                    == old(self)@.entries[i].data,
            flow_offsets_ok(final(self)@),
    {
        let ghost orig = self.flow@;
        let mut off: u64 = 0;
        let mut i: usize = 0;
        while i < self.flow.len()
            invariant
                i <= self.flow@.len(),
                self.flow@.len() == orig.len(),
                forall|k: int|
                    0 <= k < orig.len() ==> (#[trigger] self.flow@[k]).data == orig[k].data,
                i > 0 ==> self.flow@[0].offset == 0,
                forall|k: int|
                    1 <= k < i ==> (#[trigger] self.flow@[k]).offset == sat_add(
                        self.flow@[k - 1].offset,
                        spec_block_height(block_view(self.flow@[k - 1].data)),
                    ),
                i > 0 ==> off == sat_add(
                    self.flow@[i - 1].offset,
                    spec_block_height(block_view(self.flow@[i - 1].data)),
                ),
                i == 0 ==> off == 0,
            decreases self.flow@.len() - i,
        {
            let ghost pre = self.flow@;
            let mut tmp = FlowEntry {
                data: MarkdownContent::HorizontalLine { height: 0 },
                offset: 0,
            };
            self.flow.set_and_swap(i, &mut tmp);
            tmp.offset = off;
            let h = tmp.data.height();
            self.flow.set_and_swap(i, &mut tmp);
            proof {
                assert forall|k: int| 0 <= k < orig.len() && k != i implies self.flow@[k] == pre[k]
                by {}
                assert(self.flow@[i as int].data == pre[i as int].data);
                assert(self.flow@[i as int].offset == off);
            }
            off = sat_add_u64(off, h);
            i += 1;
        }
        proof {
            lemma_entries_view(orig);
            lemma_entries_view(self.flow@);
            let f1 = old(self)@;
            let f2 = final(self)@;
            assert(f2.entries.len() == f1.entries.len());
            assert forall|k: int| 0 <= k < f1.entries.len() implies (
            #[trigger] f2.entries[k]).data == f1.entries[k].data by {
                assert(self.flow@[k].data == orig[k].data);
            }
            assert forall|k: int|
                1 <= k < f2.entries.len() implies (#[trigger] f2.entries[k]).offset == sat_add(
                f2.entries[k - 1].offset,
                spec_block_height(f2.entries[k - 1].data),
            ) by {
                assert(self.flow@[k].offset == sat_add(
                    self.flow@[k - 1].offset,
                    spec_block_height(block_view(self.flow@[k - 1].data)),
                ));
                assert(f2.entries[k].offset == self.flow@[k].offset);
                assert(f2.entries[k - 1].offset == self.flow@[k - 1].offset);
                assert(f2.entries[k - 1].data == block_view(self.flow@[k - 1].data));
            }
        }
    }
}

/// The larger of two layout extents.
pub open spec fn u64_max(a: u64, b: u64) -> u64 {
    if a >= b {
        a
    } else {
        b
    }
}

/// The smaller of two layout extents.
pub open spec fn u64_min(a: u64, b: u64) -> u64 {
    if a <= b {
        a
    } else {
        b
    }
}

/// Where the block at position `i` of the flow ends: its offset plus
/// its height.
pub open spec fn spec_span_end(f: FlowV, i: int) -> u64 {
    sat_add(f.entries[i].offset, spec_block_height(f.entries[i].data))
}

/// Whether the block at position `i` is visible in the viewport
/// `[top, top + vh)`: its half-open span `[offset, offset + height)`
/// intersects the viewport. A zero-height block is never visible.
pub open spec fn spec_visible(f: FlowV, i: int, top: u64, vh: u64) -> bool {
    u64_max(f.entries[i].offset, top) < u64_min(spec_span_end(f, i), sat_add(top, vh))
}

/// One visible block of a flow: its position in the flow, its cached
/// vertical offset, and the visible sub-span `[local_top, local_bottom)`
/// of the block in the block's own coordinates.
#[derive(Clone, Copy, PartialEq, Eq, Structural, Debug)]
pub struct VisiblePart {
    pub index: usize,
    pub offset: u64,
    pub local_top: u64,
    pub local_bottom: u64,
}

/// The part correctly describes the visible block at its position.
pub open spec fn spec_part_ok(f: FlowV, p: VisiblePart, top: u64, vh: u64) -> bool {
    let off = f.entries[p.index as int].offset;
    &&& p.index < f.entries.len()
    &&& spec_visible(f, p.index as int, top, vh)
    &&& p.offset == off
    &&& p.local_top == u64_max(off, top) - off
    &&& p.local_bottom == u64_min(spec_span_end(f, p.index as int), sat_add(top, vh)) - off
}

/// In a consistent flow the span ends never decrease along the flow.
proof fn lemma_span_end_monotonic(f: FlowV, i: int, j: int)
    requires
        flow_offsets_ok(f),
        0 <= i <= j < f.entries.len(),
    ensures
        spec_span_end(f, i) <= spec_span_end(f, j),
{
    if i < j {
        assert(f.entries[i + 1].offset == sat_add(
            f.entries[i].offset,
            spec_block_height(f.entries[i].data),
        ));
        lemma_offset_pair(f, i + 1, j);
    }
}

/// Visibility stated over plain offset and height sequences.
spec fn sv(offs: Seq<u64>, hts: Seq<u64>, k: int, top: u64, vh: u64) -> bool {
    u64_max(offs[k], top) < u64_min(sat_add(offs[k], hts[k]), sat_add(top, vh))
}

impl LayoutFlow {
    /// Answers a viewport query: exactly the blocks whose vertical span
    /// intersects `[top, top + height)`, in flow order, each with its
    /// offset and its visible sub-span in block-local coordinates. The
    /// query is read-only and finds the first candidate by binary
    /// search over the monotone offsets.
    #[verifier::rlimit(100)]
    pub fn get_visible_parts(&self, top: u64, height: u64) -> (r: Vec<VisiblePart>)
        requires
            flow_offsets_ok(self@),
        ensures
            forall|j: int|
                0 <= j < r@.len() ==> spec_part_ok(self@, #[trigger] r@[j], top, height),
            forall|j1: int, j2: int|
                0 <= j1 < j2 < r@.len() ==> r@[j1].index < r@[j2].index,
            forall|i: int|
                0 <= i < self@.entries.len() && spec_visible(self@, i, top, height) ==> exists|
                    j: int,
                |
                    0 <= j < r@.len() && (#[trigger] r@[j]).index == i,
    {
        let ghost f = self@;
        let n = self.flow.len();
        proof {
            lemma_entries_view(self.flow@);
        }
        let ghost offs = Seq::new(n as nat, |k: int| f.entries[k].offset);
        let ghost hts = Seq::new(n as nat, |k: int| spec_block_height(f.entries[k].data));
        proof {
            lemma_offset_monotonicity(f);
            assert forall|i: int, j: int|
                #![trigger offs[i], offs[j]]
                0 <= i <= j < n implies sat_add(offs[i], hts[i]) <= sat_add(offs[j], hts[j]) by {
                lemma_span_end_monotonic(f, i, j);
            }
        }
        let vp_end = sat_add_u64(top, height);
        let mut r: Vec<VisiblePart> = Vec::new();
        if n == 0 {
            return r;
        }
        let mut lo: usize = 0;
        let mut hi: usize = n;
        while lo < hi
            invariant
                0 <= lo <= hi <= n,
                n == offs.len() == hts.len(),
                forall|i: int, j: int|
                    #![trigger offs[i], offs[j]]
                    0 <= i <= j < n ==> sat_add(offs[i], hts[i]) <= sat_add(offs[j], hts[j]),
                n == self.flow@.len(),
                forall|k: int|
                    0 <= k < n ==> offs[k] == (#[trigger] self.flow@[k]).offset && hts[k]
                        == spec_block_height(block_view(self.flow@[k].data)),
                forall|k: int| 0 <= k < lo ==> sat_add(offs[k], #[trigger] hts[k]) <= top,
                forall|k: int| hi <= k < n ==> sat_add(offs[k], #[trigger] hts[k]) > top,
            decreases hi - lo,
        {
            let mid = lo + (hi - lo) / 2;
            let e = &self.flow[mid];
            let h = e.data.height();
            let send = sat_add_u64(e.offset, h);
            if send > top {
                hi = mid;
            } else {
                lo = mid + 1;
            }
        }
        let mut i = lo;
        while i < n && self.flow[i].offset < vp_end
            invariant
                lo <= i <= n,
                n == offs.len() == hts.len(),
                n == self.flow@.len(),
                vp_end == sat_add(top, height),
                forall|k: int|
                    0 <= k < n ==> offs[k] == (#[trigger] self.flow@[k]).offset && hts[k]
                        == spec_block_height(block_view(self.flow@[k].data)),
                forall|i0: int, j0: int|
                    0 <= i0 <= j0 < n ==> #[trigger] offs[i0] <= #[trigger] offs[j0],
                forall|k: int| 0 <= k < lo ==> sat_add(offs[k], #[trigger] hts[k]) <= top,
                forall|j: int|
                    0 <= j < r@.len() ==> {
                        let p = #[trigger] r@[j];
                        &&& lo <= p.index < i
                        &&& sv(offs, hts, p.index as int, top, height)
                        &&& p.offset == offs[p.index as int]
                        &&& p.local_top == u64_max(offs[p.index as int], top)
                            - offs[p.index as int]
                        &&& p.local_bottom == u64_min(
                            sat_add(offs[p.index as int], hts[p.index as int]),
                            sat_add(top, height),
                        ) - offs[p.index as int]
                    },
                forall|j1: int, j2: int| 0 <= j1 < j2 < r@.len() ==> r@[j1].index < r@[j2].index,
                forall|k: int|
                    lo <= k < i && sv(offs, hts, k, top, height) ==> exists|j: int|
                        0 <= j < r@.len() && (#[trigger] r@[j]).index == k,
            decreases n - i,
        {
            let e = &self.flow[i];
            let h = e.data.height();
            let send = sat_add_u64(e.offset, h);
            let lt = if top > e.offset {
                top
            } else {
                e.offset
            };
            let lb = if send < vp_end {
                send
            } else {
                vp_end
            };
            let ghost r0 = r@;
            if lt < lb {
                r.push(
                    VisiblePart {
                        index: i,
                        offset: e.offset,
                        local_top: lt - e.offset,
                        local_bottom: lb - e.offset,
                    },
                );
                proof {
                    assert(r@[r@.len() - 1].index == i);
                    assert forall|k: int|
                        lo <= k < i + 1 && sv(offs, hts, k, top, height) implies exists|j: int|
                        0 <= j < r@.len() && (#[trigger] r@[j]).index == k by {
                        if k == i {
                            assert(r@[r@.len() - 1].index == k);
                        } else {
                            let j0 = choose|j0: int|
                                0 <= j0 < r0.len() && (#[trigger] r0[j0]).index == k;
                            assert(r@[j0].index == k);
                        }
                    }
                }
            } else {
                proof {
                    assert(!sv(offs, hts, i as int, top, height));
                }
            }
            i += 1;
        }
        proof {
            assert forall|k: int|
                0 <= k < n && spec_visible(f, k, top, height) implies exists|j: int|
                0 <= j < r@.len() && (#[trigger] r@[j]).index == k by {
                assert(sv(offs, hts, k, top, height));
                if k < lo {
                    assert(sat_add(offs[k], hts[k]) <= top);
                    assert(false);
                } else if k >= i {
                    assert(i < n);
                    assert(offs[i as int] >= vp_end);
                    assert(offs[k] >= offs[i as int]);
                    assert(false);
                }
            }
            assert forall|j: int|
                0 <= j < r@.len() implies spec_part_ok(f, #[trigger] r@[j], top, height) by {
                let p = r@[j];
                assert(sv(offs, hts, p.index as int, top, height));
            }
        }
        r
    }
}

/// The offset laws of a consistent flow: each block sits exactly at the
/// preceding block's offset plus its height (the sum is exact whenever
/// it fits the machine word), and offsets never decrease along the
/// flow.
pub proof fn lemma_offset_monotonicity(f: FlowV)
    requires
        flow_offsets_ok(f),
    ensures
        forall|i: int|
            1 <= i < f.entries.len() ==> (#[trigger] f.entries[i]).offset == sat_add(
                f.entries[i - 1].offset,
                spec_block_height(f.entries[i - 1].data),
            ),
        forall|i: int|
            1 <= i < f.entries.len() && f.entries[i - 1].offset + spec_block_height(
                f.entries[i - 1].data,
            ) <= u64::MAX ==> (#[trigger] f.entries[i]).offset == f.entries[i - 1].offset
                + spec_block_height(f.entries[i - 1].data),
        forall|i: int, j: int|
            0 <= i <= j < f.entries.len() ==> (#[trigger] f.entries[i]).offset <= (
            #[trigger] f.entries[j]).offset,
{
    assert forall|i: int, j: int|
        0 <= i <= j < f.entries.len() implies (#[trigger] f.entries[i]).offset <= (
    #[trigger] f.entries[j]).offset by {
        lemma_offset_pair(f, i, j);
    }
}

/// Between any two positions of a consistent flow, the later offset is
/// at least the earlier one.
proof fn lemma_offset_pair(f: FlowV, i: int, j: int)
    requires
        flow_offsets_ok(f),
        0 <= i <= j < f.entries.len(),
    ensures
        f.entries[i].offset <= f.entries[j].offset,
    decreases j - i,
{
    if i < j {
        lemma_offset_pair(f, i, j - 1);
        assert(f.entries[j].offset == sat_add(
            f.entries[j - 1].offset,
            spec_block_height(f.entries[j - 1].data),
        ));
    }
}

} // verus!
