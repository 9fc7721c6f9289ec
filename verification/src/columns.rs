//! Column balancing: the container is split into equal-width columns; each
//! item is scaled to the column width (extreme aspect ratios are cropped
//! first) and placed into whichever column is currently shortest, ties going
//! to the lowest column index.

use crate::minmax::{heights_view, index_of_max, index_of_min, lemma_index_is_argmin, lemma_index_is_max};
use crate::model::{argmin, clamp_pos, matches_rect, round_div, seq_max, srcs_of, RectM};
use crate::store::{Layout, Transform};
use vstd::arithmetic::div_mod::{
    lemma_div_denominator, lemma_div_is_ordered, lemma_div_multiples_vanish, lemma_div_pos_is_pos,
};
use vstd::arithmetic::mul::{lemma_mul_inequality, lemma_mul_nonnegative, lemma_mul_upper_bound};
use vstd::pervasive::VecAdditionalExecFns;
use vstd::prelude::*;

verus! {

/// The column model's state: one rectangle per placed item, and the
/// accumulated height of every column.
pub ghost struct ColState {
    pub rects: Seq<RectM>,
    pub heights: Seq<int>,
}

/// How many columns a container of width `cw` is split into: `cw / thumb`
/// rounded half-up, a zero thumbnail size being clamped to one.
pub open spec fn n_columns_of(cw: int, thumb: int) -> int {
    round_div(cw, clamp_pos(thumb))
}

/// The width of each of `n` columns: `cw / n` rounded half-up.
pub open spec fn col_width_of(cw: int, n: int) -> int {
    round_div(cw, n)
}

/// The numerator of an item's effective height ratio (the rendered height is
/// `width * eff_num / eff_den`, rounded): an extremely wide item (aspect
/// ratio above three) has its effective height tripled, softening the crop.
pub open spec fn eff_num(sw: int, sh: int) -> int {
    if sw > 3 * sh {
        3 * sh
    } else {
        sh
    }
}

/// The denominator of an item's effective height ratio: an extremely narrow
/// item (aspect ratio below three fifths) has its effective height divided
/// by three. A zero source width is clamped to one.
pub open spec fn eff_den(sw: int, sh: int) -> int {
    if sw > 3 * sh {
        clamp_pos(sw)
    } else if 5 * sw < 3 * sh {
        3 * clamp_pos(sw)
    } else {
        clamp_pos(sw)
    }
}

/// An item's rendered width in a column: the column width minus the padding,
/// floored at zero.
pub open spec fn item_width(colw: int, pad: int) -> int {
    if pad <= colw {
        colw - pad
    } else {
        0
    }
}

/// An item's rendered height: its effective height scaled to the rendered
/// width, rounded half-up.
pub open spec fn item_height(width: int, sw: int, sh: int) -> int {
    round_div(width * eff_num(sw, sh), eff_den(sw, sh))
}

/// Places one item into the shortest column (lowest index on ties).
pub open spec fn col_place(st: ColState, sw: int, sh: int, colw: int, pad: int) -> ColState {
    let width = item_width(colw, pad);
    let h = item_height(width, sw, sh);
    let c = argmin(st.heights);
    let placed = RectM { left: c * colw, top: st.heights[c], width: width, height: h, lane: c };
    ColState {
        rects: st.rects.push(placed),
        heights: st.heights.update(c, st.heights[c] + h + pad),
    }
}

/// The column model's state after the first `i` items.
pub open spec fn col_run(srcs: Seq<(u16, u16)>, cw: int, thumb: int, pad: int, i: int) -> ColState
    decreases i,
{
    if i <= 0 {
        ColState {
            rects: Seq::empty(),
            heights: Seq::new(n_columns_of(cw, thumb) as nat, |c: int| 0),
        }
    } else {
        col_place(
            col_run(srcs, cw, thumb, pad, i - 1),
            srcs[i - 1].0 as int,
            srcs[i - 1].1 as int,
            col_width_of(cw, n_columns_of(cw, thumb)),
            pad,
        )
    }
}

/// The rectangles the column layout assigns to all items.
pub open spec fn col_rects(srcs: Seq<(u16, u16)>, cw: int, thumb: int, pad: int) -> Seq<RectM> {
    col_run(srcs, cw, thumb, pad, srcs.len() as int).rects
}

/// The total content height of the column layout: the tallest column, or
/// zero when there are no columns.
pub open spec fn vertical_total_height(srcs: Seq<(u16, u16)>, cw: int, thumb: int, pad: int) -> int {
    if n_columns_of(cw, thumb) <= 0 {
        0
    } else {
        seq_max(col_run(srcs, cw, thumb, pad, srcs.len() as int).heights)
    }
}

/// An upper bound on the height plus padding a single item can add to a
/// column of a container of width `cw`.
pub open spec fn vert_item_budget(cw: int, pad: int) -> int {
    65535 * cw + pad + 1
}

/// Half-up rounding of `a / b` stays at or below `m` whenever `a <= m * b`.
pub proof fn lemma_round_div_le(a: int, b: int, m: int)
    requires
        0 <= a,
        1 <= b,
        0 <= m,
        a <= m * b,
    ensures
        0 <= round_div(a, b) <= m,
{
    assert(2 * a + b <= 2 * m * b + b) by (nonlinear_arith)
        requires a <= m * b;
    lemma_div_is_ordered(2 * a + b, 2 * m * b + b, 2 * b);
    assert(2 * m * b + b == b * (2 * m + 1)) by (nonlinear_arith);
    lemma_div_denominator(b * (2 * m + 1), b, 2);
    lemma_div_multiples_vanish(2 * m + 1, b);
    lemma_div_pos_is_pos(2 * a + b, 2 * b);
    assert((2 * m + 1) / 2 == m);
}

/// An item's rendered height is at most `65535` times its rendered width:
/// the aspect cropping and the 16-bit source sizes bound the ratio.
pub proof fn lemma_item_height_bound(width: int, sw: int, sh: int)
    requires
        0 <= width,
        0 <= sw <= u16::MAX,
        0 <= sh <= u16::MAX,
    ensures
        0 <= item_height(width, sw, sh) <= 65535 * width,
{
    let hn = eff_num(sw, sh);
    let hd = eff_den(sw, sh);
    assert(1 <= hd);
    assert(hn <= 65535 * hd) by {
        if sw > 3 * sh {
            assert(hn < hd);
            assert(hd <= 65535 * hd) by (nonlinear_arith)
                requires 1 <= hd;
        } else {
            lemma_mul_inequality(1, hd, 65535);
        }
    };
    lemma_mul_nonnegative(width, hn);
    assert(width * hn <= (65535 * width) * hd) by (nonlinear_arith)
        requires 0 <= width, 0 <= hn, hn <= 65535 * hd;
    lemma_mul_nonnegative(65535, width);
    lemma_round_div_le(width * hn, hd, 65535 * width);
}

impl Layout {
    /// Column-balancing layout. Splits the container into equal-width
    /// columns, rewrites every item's computed transform to the rectangle
    /// the column model assigns it, and returns the height of the tallest
    /// column. When the column count rounds to zero nothing is placed, the
    /// items keep their previous transforms, and the result is zero. The
    /// precondition only rules out arithmetic past `i64::MAX`: the tallest
    /// possible column must fit the returned integer.
    pub fn compute_vertical(&mut self, container_width: u32, padding: u16) -> (total: i64)
        requires
            (old(self)@.items.len() as int) * vert_item_budget(
                container_width as int,
                padding as int,
            ) <= i64::MAX,
        ensures
            final(self)@.thumbnail_size == old(self)@.thumbnail_size,
            final(self)@.items.len() == old(self)@.items.len(),
            n_columns_of(container_width as int, old(self)@.thumbnail_size as int) == 0
                ==> final(self)@ == old(self)@,
            forall|j: int|
                0 <= j < old(self)@.items.len() && n_columns_of(
                    container_width as int,
                    old(self)@.thumbnail_size as int,
                ) > 0 ==> {
                    &&& (#[trigger] final(self)@.items[j]).src_width == old(
                        self,
                    )@.items[j].src_width
                    &&& final(self)@.items[j].src_height == old(self)@.items[j].src_height
                    &&& matches_rect(
                        final(self)@.items[j],
                        col_rects(
                            srcs_of(old(self)@.items),
                            container_width as int,
                            old(self)@.thumbnail_size as int,
                            padding as int,
                        )[j],
                    )
                },
            total as int == vertical_total_height(
                srcs_of(old(self)@.items),
                container_width as int,
                old(self)@.thumbnail_size as int,
                padding as int,
            ),
    {
        let ghost items0 = self@.items;
        let ghost srcs = srcs_of(items0);
        let ghost thumb_m = self@.thumbnail_size as int;
        let ghost cw_m = container_width as int;
        let ghost pad_m = padding as int;
        let ghost n_m = n_columns_of(cw_m, thumb_m);
        let len = self.items().len();
        let cw: u64 = container_width as u64;
        let pad64: u64 = padding as u64;
        let t1: u64 = if self.thumbnail_size() == 0 {
            1
        } else {
            self.thumbnail_size() as u64
        };
        proof {
            assert(t1 as int == clamp_pos(thumb_m));
        }
        let n64: u64 = (2 * cw + t1) / (2 * t1);
        proof {
            assert(n64 as int == n_m);
            lemma_mul_inequality(1, t1 as int, cw as int);
            lemma_round_div_le(cw as int, t1 as int, cw as int);
        }
        if n64 == 0 {
            return 0;
        }
        let colw: u64 = (2 * cw + n64) / (2 * n64);
        proof {
            assert(colw as int == col_width_of(cw_m, n_m));
            lemma_mul_inequality(1, n64 as int, cw as int);
            lemma_round_div_le(cw as int, n64 as int, cw as int);
        }
        let ghost colw_m = col_width_of(cw_m, n_m);
        let n: usize = n64 as usize;
        let mut col_heights: Vec<u64> = Vec::new();
        let mut c: usize = 0;
        while c < n
            invariant
                c <= n,
                col_heights@.len() == c,
                forall|k: int| 0 <= k < c ==> col_heights@[k] == 0,
            decreases n - c,
        {
            col_heights.push(0);
            c = c + 1;
        }
        proof {
            assert(heights_view(col_heights@) =~= col_run(srcs, cw_m, thumb_m, pad_m, 0).heights);
        }
        let mut i: usize = 0;
        while i < len
            invariant
                i <= len,
                len == self@.items.len(),
                len == items0.len(),
                self@.thumbnail_size as int == thumb_m,
                srcs == srcs_of(items0),
                cw as int == cw_m,
                pad64 as int == pad_m,
                cw <= u32::MAX,
                pad64 <= u16::MAX,
                1 <= n64 <= cw,
                n == n64 as usize,
                n as int == n_m,
                colw as int == colw_m,
                colw_m == col_width_of(cw_m, n_m),
                colw <= cw,
                n_m == n_columns_of(cw_m, thumb_m),
                col_heights@.len() == n as int,
                heights_view(col_heights@) == col_run(srcs, cw_m, thumb_m, pad_m, i as int).heights,
                col_run(srcs, cw_m, thumb_m, pad_m, i as int).rects.len() == i as int,
                (len as int) * vert_item_budget(cw_m, pad_m) <= i64::MAX,
                forall|k: int|
                    0 <= k < n as int ==> (#[trigger] col_heights@[k]) as int <= (i as int)
                        * vert_item_budget(cw_m, pad_m),
                forall|j: int| i <= j < len ==> self@.items[j] == items0[j],
                forall|j: int|
                    0 <= j < i ==> {
                        &&& (#[trigger] self@.items[j]).src_width == items0[j].src_width
                        &&& self@.items[j].src_height == items0[j].src_height
                        &&& matches_rect(
                            self@.items[j],
                            col_run(srcs, cw_m, thumb_m, pad_m, i as int).rects[j],
                        )
                    },
            decreases len - i,
        {
            let ghost st_i = col_run(srcs, cw_m, thumb_m, pad_m, i as int);
            let ghost st_next = col_run(srcs, cw_m, thumb_m, pad_m, i as int + 1);
            let sw = self.items[i].src_width;
            let sh = self.items[i].src_height;
            proof {
                assert(srcs[i as int] == (items0[i as int].src_width, items0[i as int].src_height));
                assert(st_next == col_place(st_i, sw as int, sh as int, colw_m, pad_m));
            }
            let sw1: u64 = if sw == 0 {
                1
            } else {
                sw as u64
            };
            let width: u64 = if pad64 <= colw {
                colw - pad64
            } else {
                0
            };
            let wide = (sw as u64) > 3 * (sh as u64);
            let narrow = 5 * (sw as u64) < 3 * (sh as u64);
            let hn: u64 = if wide {
                3 * (sh as u64)
            } else {
                sh as u64
            };
            let hd: u64 = if wide {
                sw1
            } else if narrow {
                3 * sw1
            } else {
                sw1
            };
            proof {
                assert(sw1 as int == clamp_pos(sw as int));
                assert(hn as int == eff_num(sw as int, sh as int));
                assert(hd as int == eff_den(sw as int, sh as int));
                lemma_mul_upper_bound(2 * width as int, 2 * u32::MAX as int, hn as int, 196605);
                lemma_item_height_bound(width as int, sw as int, sh as int);
            }
            let h: u64 = (2 * width * hn + hd) / (2 * hd);
            proof {
                assert((2 * (width as int)) * (hn as int) == 2 * ((width as int) * (hn as int)))
                    by (nonlinear_arith);
                assert(h as int == item_height(width as int, sw as int, sh as int));
                assert(h as int <= 65535 * (width as int));
                lemma_mul_inequality(width as int, cw_m, 65535);
                assert(h as int <= 65535 * cw_m);
            }
            let sc: usize = match index_of_min(&col_heights) {
                Some(index) => index,
                None => 0,
            };
            proof {
                lemma_index_is_argmin(col_heights@, sc as int);
                assert(sc as int == argmin(st_i.heights));
            }
            let top: u64 = col_heights[sc];
            proof {
                lemma_mul_upper_bound(sc as int, u32::MAX as int, colw as int, u32::MAX as int);
            }
            let left: u64 = (sc as u64) * colw;
            self.items.set(
                i,
                Transform {
                    src_width: sw,
                    src_height: sh,
                    width,
                    height: h,
                    left,
                    top,
                },
            );
            proof {
                assert((i as int) * vert_item_budget(cw_m, pad_m) + vert_item_budget(cw_m, pad_m)
                    == (i as int + 1) * vert_item_budget(cw_m, pad_m)) by (nonlinear_arith);
                lemma_mul_inequality(i as int + 1, len as int, vert_item_budget(cw_m, pad_m));
            }
            let newh: u64 = top + h + pad64;
            col_heights.set(sc, newh);
            proof {
                assert(heights_view(col_heights@) =~= st_next.heights);
                assert(st_next.rects[i as int] == (RectM {
                    left: left as int,
                    top: top as int,
                    width: width as int,
                    height: h as int,
                    lane: sc as int,
                }));
                assert(forall|k: int|
                    0 <= k < i as int ==> #[trigger] st_next.rects[k] == st_i.rects[k]);
            }
            i = i + 1;
        }
        let mi: usize = match index_of_max(&col_heights) {
            Some(index) => index,
            None => 0,
        };
        let result: u64 = col_heights[mi];
        proof {
            lemma_index_is_max(col_heights@, mi as int);
            assert(items0 == old(self)@.items);
            assert(result as int <= (len as int) * vert_item_budget(cw_m, pad_m));
        }
        result as i64
    }
}

} // verus!
