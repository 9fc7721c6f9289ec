//! Row packing: items fill fixed-height rows left to right; when an item
//! would push the accumulated row width past the container width, the whole
//! row (that item included) is rescaled so its total width becomes exactly
//! the container width, and a new row starts below it.

use crate::model::{clamp_pos, matches_rect, srcs_of, RectM};
use crate::store::{Layout, Transform};
use vstd::arithmetic::div_mod::{
    lemma_div_is_ordered, lemma_div_multiples_vanish, lemma_div_nonincreasing,
};
use vstd::arithmetic::mul::{lemma_mul_inequality, lemma_mul_upper_bound};
use vstd::pervasive::VecAdditionalExecFns;
use vstd::prelude::*;

verus! {

/// The row model's state after some prefix of the items has been placed.
pub ghost struct RowState {
    /// One rectangle per placed item, in item order.
    pub rects: Seq<RectM>,
    /// The top coordinate of the row currently being filled.
    pub top_offset: int,
    /// The accumulated width (items plus padding) of the open row.
    pub cur_row_width: int,
    /// The index of the first item of the open row.
    pub first: int,
    /// How many rows have been closed (and corrected) so far.
    pub closed_rows: int,
}

/// An item's natural width when scaled to height `thumb`, a zero source
/// height being clamped to one.
pub open spec fn natural_width(thumb: int, sw: int, sh: int) -> int {
    thumb * sw / clamp_pos(sh)
}

/// A coordinate rescaled by the row correction factor `cw / nrw`.
pub open spec fn scaled(v: int, cw: int, nrw: int) -> int {
    v * cw / nrw
}

/// The empty row state.
pub open spec fn row_start() -> RowState {
    RowState { rects: Seq::empty(), top_offset: 0, cur_row_width: 0, first: 0, closed_rows: 0 }
}

/// Places one item: it is put at the end of the open row at natural width
/// and base height; if that overflows the container width, the whole row is
/// rescaled to fit exactly and a new row is opened below it.
pub open spec fn row_place(st: RowState, sw: int, sh: int, thumb: int, cw: int, pad: int) -> RowState {
    let rel = natural_width(thumb, sw, sh);
    let placed = RectM {
        left: st.cur_row_width,
        top: st.top_offset,
        width: rel,
        height: thumb,
        lane: st.closed_rows,
    };
    let nrw = st.cur_row_width + rel + pad;
    let rects = st.rects.push(placed);
    if nrw > cw {
        let corrected = rects.map(
            |j: int, q: RectM|
                if st.first <= j {
                    RectM {
                        left: scaled(q.left, cw, nrw),
                        top: q.top,
                        width: scaled(q.width, cw, nrw),
                        height: scaled(q.height, cw, nrw),
                        lane: q.lane,
                    }
                } else {
                    q
                },
        );
        RowState {
            rects: corrected,
            top_offset: st.top_offset + pad + scaled(thumb, cw, nrw),
            cur_row_width: 0,
            first: rects.len() as int,
            closed_rows: st.closed_rows + 1,
        }
    } else {
        RowState {
            rects,
            top_offset: st.top_offset,
            cur_row_width: nrw,
            first: st.first,
            closed_rows: st.closed_rows,
        }
    }
}

/// The row model's state after the first `i` items.
pub open spec fn row_run(srcs: Seq<(u16, u16)>, thumb: int, cw: int, pad: int, i: int) -> RowState
    decreases i,
{
    if i <= 0 {
        row_start()
    } else {
        row_place(
            row_run(srcs, thumb, cw, pad, i - 1),
            srcs[i - 1].0 as int,
            srcs[i - 1].1 as int,
            thumb,
            cw,
            pad,
        )
    }
}

/// The rectangles the row layout assigns to all items.
pub open spec fn row_rects(srcs: Seq<(u16, u16)>, thumb: int, cw: int, pad: int) -> Seq<RectM> {
    row_run(srcs, thumb, cw, pad, srcs.len() as int).rects
}

/// The total content height of the row layout: the top of the open row plus
/// the base row height if that row holds anything, else just the top offset.
/// (The final row is never width-corrected; it keeps its natural size.)
pub open spec fn row_total_height(srcs: Seq<(u16, u16)>, thumb: int, cw: int, pad: int) -> int {
    let st = row_run(srcs, thumb, cw, pad, srcs.len() as int);
    if st.cur_row_width != 0 {
        st.top_offset + thumb
    } else {
        st.top_offset
    }
}

/// One coordinate rescaled by the correction factor `cw / nrw`.
fn scale_exec(v: u64, cw: u64, nrw: u64) -> (r: u64)
    requires
        cw < nrw,
    ensures
        r as int == scaled(v as int, cw as int, nrw as int),
        r <= v,
{
    proof {
        lemma_mul_upper_bound(v as int, u64::MAX as int, cw as int, u64::MAX as int);
        lemma_mul_inequality(cw as int, nrw as int, v as int);
        lemma_div_is_ordered(v as int * cw as int, v as int * nrw as int, nrw as int);
        lemma_div_multiples_vanish(v as int, nrw as int);
    }
    (((v as u128) * (cw as u128)) / (nrw as u128)) as u64
}

impl Layout {
    /// Row-packing layout. Rewrites every item's computed transform to the
    /// rectangle the row model assigns it and returns the total content
    /// height. The precondition only rules out arithmetic past `i64::MAX`:
    /// the tallest possible layout must fit the returned integer.
    pub fn compute(&mut self, container_width: u32, padding: u32) -> (total: i64)
        requires
            (old(self)@.items.len() as int) * (padding + old(self)@.thumbnail_size) + old(
                self,
            )@.thumbnail_size <= i64::MAX,
        ensures
            final(self)@.thumbnail_size == old(self)@.thumbnail_size,
            final(self)@.items.len() == old(self)@.items.len(),
            forall|j: int|
                0 <= j < old(self)@.items.len() ==> {
                    &&& (#[trigger] final(self)@.items[j]).src_width == old(
                        self,
                    )@.items[j].src_width
                    &&& final(self)@.items[j].src_height == old(self)@.items[j].src_height
                    &&& matches_rect(
                        final(self)@.items[j],
                        row_rects(
                            srcs_of(old(self)@.items),
                            old(self)@.thumbnail_size as int,
                            container_width as int,
                            padding as int,
                        )[j],
                    )
                },
            total as int == row_total_height(
                srcs_of(old(self)@.items),
                old(self)@.thumbnail_size as int,
                container_width as int,
                padding as int,
            ),
    {
        let ghost items0 = self@.items;
        let ghost srcs = srcs_of(items0);
        let ghost thumb_m = self@.thumbnail_size as int;
        let ghost cw_m = container_width as int;
        let ghost pad_m = padding as int;
        let len = self.items().len();
        let base: u64 = self.thumbnail_size() as u64;
        let cw: u64 = container_width as u64;
        let pad: u64 = padding as u64;
        let mut top_offset: u64 = 0;
        let mut cur_row_width: u64 = 0;
        let mut first: usize = 0;
        let mut i: usize = 0;
        while i < len
            invariant
                i <= len,
                len == self@.items.len(),
                len == items0.len(),
                self@.thumbnail_size as int == thumb_m,
                base as int == thumb_m,
                cw as int == cw_m,
                pad as int == pad_m,
                base <= u32::MAX,
                cw <= u32::MAX,
                pad <= u32::MAX,
                srcs == srcs_of(items0),
                (len as int) * (pad_m + thumb_m) + thumb_m <= i64::MAX,
                row_run(srcs, thumb_m, cw_m, pad_m, i as int).rects.len() == i as int,
                first as int == row_run(srcs, thumb_m, cw_m, pad_m, i as int).first,
                first <= i,
                top_offset as int == row_run(srcs, thumb_m, cw_m, pad_m, i as int).top_offset,
                cur_row_width as int == row_run(srcs, thumb_m, cw_m, pad_m, i as int).cur_row_width,
                cur_row_width <= cw,
                top_offset as int <= (i as int) * (pad_m + thumb_m),
                forall|j: int| i <= j < len ==> self@.items[j] == items0[j],
                forall|j: int|
                    0 <= j < i ==> {
                        &&& (#[trigger] self@.items[j]).src_width == items0[j].src_width
                        &&& self@.items[j].src_height == items0[j].src_height
                        &&& matches_rect(
                            self@.items[j],
                            row_run(srcs, thumb_m, cw_m, pad_m, i as int).rects[j],
                        )
                    },
            decreases len - i,
        {
            let ghost st_i = row_run(srcs, thumb_m, cw_m, pad_m, i as int);
            let ghost st_next = row_run(srcs, thumb_m, cw_m, pad_m, i as int + 1);
            let sw = self.items[i].src_width;
            let sh = self.items[i].src_height;
            proof {
                assert(srcs[i as int] == (items0[i as int].src_width, items0[i as int].src_height));
                assert(st_next == row_place(st_i, sw as int, sh as int, thumb_m, cw_m, pad_m));
            }
            let sh1: u64 = if sh == 0 {
                1
            } else {
                sh as u64
            };
            proof {
                lemma_mul_upper_bound(base as int, u32::MAX as int, sw as int, u16::MAX as int);
            }
            let rel: u64 = base * (sw as u64) / sh1;
            proof {
                lemma_div_nonincreasing((base as int) * (sw as int), sh1 as int);
                assert(sh1 as int == clamp_pos(sh as int));
                assert(rel as int == natural_width(thumb_m, sw as int, sh as int));
                assert(rel as int <= (u32::MAX as int) * (u16::MAX as int));
            }
            self.items.set(
                i,
                Transform {
                    src_width: sw,
                    src_height: sh,
                    width: rel,
                    height: base,
                    left: cur_row_width,
                    top: top_offset,
                },
            );
            let ghost placed = RectM {
                left: st_i.cur_row_width,
                top: st_i.top_offset,
                width: rel as int,
                height: thumb_m,
                lane: st_i.closed_rows,
            };
            let ghost pre = st_i.rects.push(placed);
            let nrw: u64 = cur_row_width + rel + pad;
            if nrw > cw {
                proof {
                    assert(nrw as int == st_i.cur_row_width + (rel as int) + pad_m);
                    assert(st_next.rects.len() == pre.len());
                    assert(forall|k: int|
                        0 <= k < first as int ==> #[trigger] st_next.rects[k] == pre[k]);
                    assert(forall|k: int| 0 <= k < i as int ==> #[trigger] pre[k] == st_i.rects[k]);
                    assert(pre[i as int] == placed);
                    assert(forall|k: int|
                        first as int <= k <= i as int ==> #[trigger] st_next.rects[k] == (RectM {
                            left: scaled(pre[k].left, cw_m, nrw as int),
                            top: pre[k].top,
                            width: scaled(pre[k].width, cw_m, nrw as int),
                            height: scaled(pre[k].height, cw_m, nrw as int),
                            lane: pre[k].lane,
                        }));
                }
                let mut j: usize = first;
                while j <= i
                    invariant
                        first <= j <= i + 1,
                        i < len,
                        len == self@.items.len(),
                        len == items0.len(),
                        cw < nrw,
                        cw as int == cw_m,
                        self@.thumbnail_size as int == thumb_m,
                        pre.len() == i + 1,
                        st_next.rects.len() == i + 1,
                        forall|k: int|
                            first as int <= k <= i as int ==> #[trigger] st_next.rects[k] == (RectM {
                                left: scaled(pre[k].left, cw_m, nrw as int),
                                top: pre[k].top,
                                width: scaled(pre[k].width, cw_m, nrw as int),
                                height: scaled(pre[k].height, cw_m, nrw as int),
                                lane: pre[k].lane,
                            }),
                        forall|k: int| i < k < len ==> self@.items[k] == items0[k],
                        forall|k: int|
                            0 <= k < j ==> {
                                &&& (#[trigger] self@.items[k]).src_width == items0[k].src_width
                                &&& self@.items[k].src_height == items0[k].src_height
                                &&& matches_rect(self@.items[k], st_next.rects[k])
                            },
                        forall|k: int|
                            j <= k <= i ==> {
                                &&& (#[trigger] self@.items[k]).src_width == items0[k].src_width
                                &&& self@.items[k].src_height == items0[k].src_height
                                &&& matches_rect(self@.items[k], pre[k])
                            },
                    decreases i + 1 - j,
                {
                    let it = self.items[j];
                    let new_left = scale_exec(it.left, cw, nrw);
                    let new_width = scale_exec(it.width, cw, nrw);
                    let new_height = scale_exec(it.height, cw, nrw);
                    self.items.set(
                        j,
                        Transform {
                            src_width: it.src_width,
                            src_height: it.src_height,
                            width: new_width,
                            height: new_height,
                            left: new_left,
                            top: it.top,
                        },
                    );
                    j = j + 1;
                }
                cur_row_width = 0;
                let row_height = scale_exec(base, cw, nrw);
                proof {
                    lemma_mul_inequality(i as int + 1, len as int, pad_m + thumb_m);
                    assert((i as int) * (pad_m + thumb_m) + (pad_m + thumb_m) == (i as int + 1) * (
                    pad_m + thumb_m)) by (nonlinear_arith);
                }
                top_offset = top_offset + pad + row_height;
                first = i + 1;
            } else {
                cur_row_width = nrw;
                proof {
                    assert(st_next.rects[i as int] == placed);
                    assert(forall|k: int|
                        0 <= k < i as int ==> #[trigger] st_next.rects[k] == st_i.rects[k]);
                    lemma_mul_inequality(i as int, i as int + 1, pad_m + thumb_m);
                }
            }
            i = i + 1;
        }
        proof {
            assert(items0 == old(self)@.items);
        }
        if cur_row_width != 0 {
            (top_offset + base) as i64
        } else {
            top_offset as i64
        }
    }
}

} // verus!
