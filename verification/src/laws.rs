//! Laws of the layout models: determinism, aspect-ratio preservation, the
//! greedy balance bound of the column layout, non-overlap of the placed
//! rectangles, and width conformance of the closed rows.

use crate::columns::{
    col_place, col_rects, col_run, col_width_of, item_height, item_width, lemma_item_height_bound,
    n_columns_of, vertical_total_height,
};
use crate::model::{
    argmax, argmin, clamp_pos, lemma_argmax, lemma_argmin, seq_max, seq_min, srcs_of, RectM,
};
use crate::rows::{natural_width, row_place, row_rects, row_run, row_total_height, scaled};
use crate::store::Transform;
use vstd::arithmetic::div_mod::{
    lemma_div_is_ordered, lemma_div_multiples_vanish, lemma_div_pos_is_pos,
    lemma_fundamental_div_mod, lemma_fundamental_div_mod_converse, lemma_mod_bound,
};
use vstd::arithmetic::mul::{
    lemma_mul_inequality, lemma_mul_inequality_converse, lemma_mul_nonnegative,
};
use vstd::prelude::*;

verus! {

/// Determinism: both layouts depend only on the items' source sizes and the
/// layout parameters. Two stores whose items agree on `src_width` and
/// `src_height` are laid out identically, whatever stale transforms they
/// carry, and repeated calls with the same parameters repeat the output.
pub proof fn lemma_layout_deterministic(
    x: Seq<Transform>,
    y: Seq<Transform>,
    thumb: int,
    cw: int,
    pad: int,
)
    requires
        x.len() == y.len(),
        forall|j: int|
            0 <= j < x.len() ==> (#[trigger] x[j]).src_width == y[j].src_width
                && x[j].src_height == y[j].src_height,
    ensures
        row_rects(srcs_of(x), thumb, cw, pad) == row_rects(srcs_of(y), thumb, cw, pad),
        row_total_height(srcs_of(x), thumb, cw, pad) == row_total_height(srcs_of(y), thumb, cw, pad),
        col_rects(srcs_of(x), cw, thumb, pad) == col_rects(srcs_of(y), cw, thumb, pad),
        vertical_total_height(srcs_of(x), cw, thumb, pad) == vertical_total_height(
            srcs_of(y),
            cw,
            thumb,
            pad,
        ),
{
    assert(srcs_of(x) =~= srcs_of(y));
}

/// Aspect-ratio preservation in a row: an item placed at its natural width
/// and the base height `thumb` keeps `width / height == sw / sh` up to one
/// unit of truncation, i.e. `width * sh <= thumb * sw < (width + 1) * sh`.
pub proof fn lemma_row_aspect_ratio(thumb: int, sw: int, sh: int)
    requires
        0 <= thumb,
        0 <= sw,
        1 <= sh,
    ensures
        natural_width(thumb, sw, sh) * sh <= thumb * sw,
        thumb * sw < (natural_width(thumb, sw, sh) + 1) * sh,
{
    let w = natural_width(thumb, sw, sh);
    lemma_mul_nonnegative(thumb, sw);
    assert(clamp_pos(sh) == sh);
    lemma_fundamental_div_mod(thumb * sw, sh);
    lemma_mod_bound(thumb * sw, sh);
    assert(sh * w == w * sh) by (nonlinear_arith);
    assert((w + 1) * sh == w * sh + sh) by (nonlinear_arith);
}

/// Aspect-ratio preservation in a column: for an item that triggers neither
/// aspect crop, the rendered height satisfies `height / width == sh / sw` up
/// to half a unit of rounding, i.e. `|2 * height * sw - 2 * width * sh| <= sw`.
pub proof fn lemma_column_aspect_ratio(width: int, sw: int, sh: int)
    requires
        0 <= width,
        1 <= sw,
        sw <= 3 * sh,
        3 * sh <= 5 * sw,
    ensures
        2 * item_height(width, sw, sh) * sw - sw <= 2 * width * sh,
        2 * width * sh <= 2 * item_height(width, sw, sh) * sw + sw,
{
    let h = item_height(width, sw, sh);
    assert(clamp_pos(sw) == sw);
    lemma_mul_nonnegative(width, sh);
    lemma_fundamental_div_mod(2 * (width * sh) + sw, 2 * sw);
    lemma_mod_bound(2 * (width * sh) + sw, 2 * sw);
    assert((2 * sw) * h == 2 * h * sw) by (nonlinear_arith);
    assert(2 * (width * sh) == 2 * width * sh) by (nonlinear_arith);
}

/// The largest rendered height among the first `i` items when laid out in
/// columns of width `colw` with the given padding.
pub open spec fn max_item_height(srcs: Seq<(u16, u16)>, colw: int, pad: int, i: int) -> int
    decreases i,
{
    if i <= 0 {
        0
    } else {
        let h = item_height(item_width(colw, pad), srcs[i - 1].0 as int, srcs[i - 1].1 as int);
        let m = max_item_height(srcs, colw, pad, i - 1);
        if h > m {
            h
        } else {
            m
        }
    }
}

/// Greedy balance bound: after any prefix of the items has been placed, the
/// tallest column exceeds the shortest by at most one item's height plus the
/// padding. Placing each item in the currently shortest column can never let
/// two columns drift further apart than that.
pub proof fn lemma_greedy_balance(srcs: Seq<(u16, u16)>, cw: int, thumb: int, pad: int, i: int)
    requires
        0 <= i <= srcs.len(),
        n_columns_of(cw, thumb) >= 1,
        0 <= pad,
    ensures
        ({
            let st = col_run(srcs, cw, thumb, pad, i);
            let colw = col_width_of(cw, n_columns_of(cw, thumb));
            &&& st.heights.len() == n_columns_of(cw, thumb)
            &&& forall|c: int| 0 <= c < st.heights.len() ==> 0 <= #[trigger] st.heights[c]
            &&& 0 <= max_item_height(srcs, colw, pad, i)
            &&& seq_max(st.heights) - seq_min(st.heights) <= max_item_height(srcs, colw, pad, i)
                + pad
        }),
    decreases i,
{
    let n = n_columns_of(cw, thumb);
    let colw = col_width_of(cw, n);
    let st = col_run(srcs, cw, thumb, pad, i);
    if i == 0 {
        lemma_argmin(st.heights);
        lemma_argmax(st.heights);
    } else {
        lemma_greedy_balance(srcs, cw, thumb, pad, i - 1);
        let prev = col_run(srcs, cw, thumb, pad, i - 1);
        let sw = srcs[i - 1].0 as int;
        let sh = srcs[i - 1].1 as int;
        let h = item_height(item_width(colw, pad), sw, sh);
        let m_prev = max_item_height(srcs, colw, pad, i - 1);
        let m = max_item_height(srcs, colw, pad, i);
        lemma_item_height_bound(item_width(colw, pad), sw, sh);
        assert(0 <= h);
        assert(h <= m && m_prev <= m);
        lemma_argmin(prev.heights);
        let c = argmin(prev.heights);
        assert(st == col_place(prev, sw, sh, colw, pad));
        assert(st.heights =~= prev.heights.update(c, prev.heights[c] + h + pad));
        // every column is at least as tall as before
        assert(forall|k: int|
            0 <= k < st.heights.len() ==> prev.heights[k] <= #[trigger] st.heights[k]);
        lemma_argmin(st.heights);
        let amn = argmin(st.heights);
        assert(seq_min(prev.heights) <= prev.heights[amn] <= seq_min(st.heights));
        lemma_argmax(st.heights);
        lemma_argmax(prev.heights);
        let amx = argmax(st.heights);
        if amx == c {
            assert(seq_max(st.heights) == prev.heights[c] + h + pad);
            assert(prev.heights[c] == seq_min(prev.heights));
        } else {
            assert(seq_max(st.heights) == prev.heights[amx]);
            assert(prev.heights[amx] <= seq_max(prev.heights));
        }
    }
}

/// Non-overlap in the column layout: every item sits at the left edge of a
/// real column, items are no wider than their column, and two items placed
/// in the same column do not overlap vertically: the earlier one, padding
/// included, ends at or above the later one's top edge. Items in distinct
/// columns are separated horizontally.
pub proof fn lemma_column_no_overlap(srcs: Seq<(u16, u16)>, cw: int, thumb: int, pad: int, i: int)
    requires
        0 <= i <= srcs.len(),
        n_columns_of(cw, thumb) >= 1,
        0 <= cw,
        0 <= pad,
    ensures
        ({
            let st = col_run(srcs, cw, thumb, pad, i);
            let n = n_columns_of(cw, thumb);
            let colw = col_width_of(cw, n);
            &&& st.rects.len() == i
            &&& st.heights.len() == n
            &&& forall|c: int| 0 <= c < n ==> 0 <= #[trigger] st.heights[c]
            &&& forall|j: int|
                0 <= j < i ==> {
                    &&& 0 <= (#[trigger] st.rects[j]).lane < n
                    &&& st.rects[j].left == st.rects[j].lane * colw
                    &&& st.rects[j].width == item_width(colw, pad)
                    &&& 0 <= st.rects[j].top
                    &&& 0 <= st.rects[j].height
                    &&& st.rects[j].top + st.rects[j].height + pad <= st.heights[st.rects[j].lane]
                }
            &&& forall|j: int, k: int|
                0 <= j < k < i && (#[trigger] st.rects[j]).lane == (#[trigger] st.rects[k]).lane
                    ==> st.rects[j].top + st.rects[j].height + pad <= st.rects[k].top
            &&& forall|j: int, k: int|
                0 <= j < i && 0 <= k < i && (#[trigger] st.rects[j]).lane < (
                #[trigger] st.rects[k]).lane ==> st.rects[j].left + st.rects[j].width
                    <= st.rects[k].left
        }),
    decreases i,
{
    let n = n_columns_of(cw, thumb);
    let colw = col_width_of(cw, n);
    let st = col_run(srcs, cw, thumb, pad, i);
    lemma_div_pos_is_pos(2 * cw + n, 2 * n);
    if i > 0 {
        lemma_column_no_overlap(srcs, cw, thumb, pad, i - 1);
        let prev = col_run(srcs, cw, thumb, pad, i - 1);
        let sw = srcs[i - 1].0 as int;
        let sh = srcs[i - 1].1 as int;
        let width = item_width(colw, pad);
        let h = item_height(width, sw, sh);
        lemma_item_height_bound(width, sw, sh);
        lemma_argmin(prev.heights);
        let c = argmin(prev.heights);
        assert(st == col_place(prev, sw, sh, colw, pad));
        assert(st.rects[i - 1] == (RectM {
            left: c * colw,
            top: prev.heights[c],
            width: width,
            height: h,
            lane: c,
        }));
        assert(forall|j: int| 0 <= j < i - 1 ==> #[trigger] st.rects[j] == prev.rects[j]);
        lemma_mul_nonnegative(c, colw);
        // horizontal separation for the new pairs
        assert forall|j: int, k: int|
            0 <= j < i && 0 <= k < i && (#[trigger] st.rects[j]).lane < (
            #[trigger] st.rects[k]).lane implies st.rects[j].left + st.rects[j].width
            <= st.rects[k].left by {
            let lj = st.rects[j].lane;
            let lk = st.rects[k].lane;
            lemma_mul_inequality(lj + 1, lk, colw);
            assert((lj + 1) * colw == lj * colw + colw) by (nonlinear_arith);
            assert(st.rects[j].width <= colw);
        }
    }
}

/// `scaled` keeps a nonnegative value nonnegative and never enlarges it.
pub proof fn lemma_scaled_basics(v: int, cw: int, nrw: int)
    requires
        0 <= v,
        0 <= cw,
        cw < nrw,
    ensures
        0 <= scaled(v, cw, nrw) <= v,
{
    lemma_mul_nonnegative(v, cw);
    lemma_div_pos_is_pos(v * cw, nrw);
    lemma_mul_inequality(cw, nrw, v);
    assert(cw * v == v * cw && nrw * v == v * nrw) by (nonlinear_arith);
    lemma_div_is_ordered(v * cw, v * nrw, nrw);
    lemma_div_multiples_vanish(v, nrw);
}

/// `scaled` is monotone in the value being scaled.
pub proof fn lemma_scaled_monotone(a: int, b: int, cw: int, nrw: int)
    requires
        0 <= a <= b,
        0 <= cw,
        cw < nrw,
    ensures
        scaled(a, cw, nrw) <= scaled(b, cw, nrw),
{
    lemma_mul_inequality(a, b, cw);
    lemma_div_is_ordered(a * cw, b * cw, nrw);
}

/// Scaling two summands separately never exceeds scaling their sum: the
/// row correction cannot push rescaled items into each other.
pub proof fn lemma_scaled_superadd(x: int, y: int, cw: int, nrw: int)
    requires
        0 <= x,
        0 <= y,
        0 <= cw,
        cw < nrw,
    ensures
        scaled(x, cw, nrw) + scaled(y, cw, nrw) <= scaled(x + y, cw, nrw),
{
    let qx = x * cw / nrw;
    let rx = x * cw % nrw;
    let qy = y * cw / nrw;
    let ry = y * cw % nrw;
    lemma_mul_nonnegative(x, cw);
    lemma_mul_nonnegative(y, cw);
    lemma_fundamental_div_mod(x * cw, nrw);
    lemma_fundamental_div_mod(y * cw, nrw);
    lemma_mod_bound(x * cw, nrw);
    lemma_mod_bound(y * cw, nrw);
    assert((x + y) * cw == x * cw + y * cw) by (nonlinear_arith);
    if rx + ry < nrw {
        assert((x + y) * cw == (qx + qy) * nrw + (rx + ry)) by (nonlinear_arith)
            requires
                x * cw == nrw * qx + rx,
                y * cw == nrw * qy + ry,
                (x + y) * cw == x * cw + y * cw,
        ;
        lemma_fundamental_div_mod_converse((x + y) * cw, nrw, qx + qy, rx + ry);
    } else {
        assert((x + y) * cw == (qx + qy + 1) * nrw + (rx + ry - nrw)) by (nonlinear_arith)
            requires
                x * cw == nrw * qx + rx,
                y * cw == nrw * qy + ry,
                (x + y) * cw == x * cw + y * cw,
        ;
        lemma_fundamental_div_mod_converse((x + y) * cw, nrw, qx + qy + 1, rx + ry - nrw);
    }
}

/// The standing invariants of the row model: rows are closed left to right;
/// items of the open row sit at the current top offset with the base height;
/// items of closed rows end above the current top offset; within a row,
/// consecutive items touch (open row) or are separated (closed rows); and
/// items of an earlier row end at or above the top of any later row's item.
pub proof fn lemma_row_invariants(srcs: Seq<(u16, u16)>, thumb: int, cw: int, pad: int, i: int)
    requires
        0 <= i <= srcs.len(),
        0 <= thumb,
        0 <= cw,
        0 <= pad,
    ensures
        ({
            let st = row_run(srcs, thumb, cw, pad, i);
            &&& st.rects.len() == i
            &&& 0 <= st.first <= i
            &&& 0 <= st.top_offset
            &&& 0 <= st.cur_row_width
            &&& 0 <= st.closed_rows
            &&& (st.first == i ==> st.cur_row_width == 0)
            &&& (st.first < i ==> st.cur_row_width == st.rects[i - 1].left + st.rects[i - 1].width
                + pad)
            &&& forall|j: int|
                0 <= j < i ==> 0 <= (#[trigger] st.rects[j]).left && 0 <= st.rects[j].width && 0
                    <= st.rects[j].top && 0 <= st.rects[j].height
            &&& forall|j: int|
                st.first <= j < i ==> (#[trigger] st.rects[j]).lane == st.closed_rows
                    && st.rects[j].top == st.top_offset && st.rects[j].height == thumb
                    && st.rects[j].width == natural_width(
                    thumb,
                    srcs[j].0 as int,
                    srcs[j].1 as int,
                )
            &&& forall|j: int|
                0 <= j < st.first ==> (#[trigger] st.rects[j]).lane < st.closed_rows
                    && st.rects[j].top + st.rects[j].height <= st.top_offset
            &&& forall|j: int, k: int|
                0 <= j && k == j + 1 && k < i ==> (#[trigger] st.rects[j]).lane <= (
                #[trigger] st.rects[k]).lane
            &&& forall|j: int, k: int|
                st.first <= j && k == j + 1 && k < i ==> (#[trigger] st.rects[k]).left == (
                #[trigger] st.rects[j]).left + st.rects[j].width + pad
            &&& forall|j: int, k: int|
                0 <= j && k == j + 1 && k < st.first && (#[trigger] st.rects[j]).lane == (
                #[trigger] st.rects[k]).lane ==> st.rects[j].left + st.rects[j].width
                    <= st.rects[k].left
            &&& forall|j: int, k: int|
                0 <= j < k < i && (#[trigger] st.rects[j]).lane < (#[trigger] st.rects[k]).lane
                    ==> st.rects[j].top + st.rects[j].height <= st.rects[k].top
        }),
    decreases i,
{
    if i > 0 {
        lemma_row_invariants(srcs, thumb, cw, pad, i - 1);
        let prev = row_run(srcs, thumb, cw, pad, i - 1);
        let st = row_run(srcs, thumb, cw, pad, i);
        let sw = srcs[i - 1].0 as int;
        let sh = srcs[i - 1].1 as int;
        let rel = natural_width(thumb, sw, sh);
        lemma_mul_nonnegative(thumb, sw);
        lemma_div_pos_is_pos(thumb * sw, crate::model::clamp_pos(sh));
        assert(0 <= rel);
        assert(st == row_place(prev, sw, sh, thumb, cw, pad));
        let placed = RectM {
            left: prev.cur_row_width,
            top: prev.top_offset,
            width: rel,
            height: thumb,
            lane: prev.closed_rows,
        };
        let pre = prev.rects.push(placed);
        let nrw = prev.cur_row_width + rel + pad;
        if nrw > cw {
            lemma_scaled_basics(thumb, cw, nrw);
            assert(forall|j: int| 0 <= j < prev.first ==> #[trigger] st.rects[j] == pre[j]);
            assert(forall|j: int|
                prev.first <= j < i ==> #[trigger] st.rects[j] == (RectM {
                    left: scaled(pre[j].left, cw, nrw),
                    top: pre[j].top,
                    width: scaled(pre[j].width, cw, nrw),
                    height: scaled(pre[j].height, cw, nrw),
                    lane: pre[j].lane,
                }));
            assert forall|j: int|
                prev.first <= j < i implies 0 <= (#[trigger] st.rects[j]).left
                && 0 <= st.rects[j].width && st.rects[j].left <= pre[j].left && st.rects[j].width
                <= pre[j].width && st.rects[j].height == scaled(thumb, cw, nrw) by {
                lemma_scaled_basics(pre[j].left, cw, nrw);
                lemma_scaled_basics(pre[j].width, cw, nrw);
                assert(pre[j].height == thumb);
            }
            assert forall|j: int|
                prev.first <= j < i - 1 implies (#[trigger] st.rects[j]).left + st.rects[j].width
                <= st.rects[j + 1].left by {
                assert(pre[j + 1].left == pre[j].left + pre[j].width + pad);
                lemma_scaled_superadd(pre[j].left, pre[j].width, cw, nrw);
                lemma_scaled_monotone(pre[j].left + pre[j].width, pre[j + 1].left, cw, nrw);
            }
        } else {
            assert(forall|j: int| 0 <= j < i - 1 ==> #[trigger] st.rects[j] == prev.rects[j]);
            assert(st.rects[i - 1] == placed);
        }
    }
}

/// Lane indices are nondecreasing along the whole sequence whenever they are
/// nondecreasing between neighbours.
proof fn lemma_lane_monotone(rects: Seq<RectM>, j: int, k: int)
    requires
        0 <= j <= k < rects.len(),
        forall|t: int, u: int|
            0 <= t && u == t + 1 && u < rects.len() ==> (#[trigger] rects[t]).lane <= (
            #[trigger] rects[u]).lane,
    ensures
        rects[j].lane <= rects[k].lane,
    decreases k - j,
{
    if j < k {
        lemma_lane_monotone(rects, j, k - 1);
    }
}

/// Chains same-lane adjacency: with lanes nondecreasing and adjacent
/// same-lane items non-overlapping, any two same-lane items are ordered.
proof fn lemma_lane_chain(rects: Seq<RectM>, j: int, k: int)
    requires
        0 <= j < k < rects.len(),
        forall|t: int| 0 <= t < rects.len() ==> 0 <= (#[trigger] rects[t]).width,
        forall|t: int, u: int|
            0 <= t && u == t + 1 && u < rects.len() ==> (#[trigger] rects[t]).lane <= (
            #[trigger] rects[u]).lane,
        forall|t: int, u: int|
            0 <= t && u == t + 1 && u < rects.len() && (#[trigger] rects[t]).lane == (
            #[trigger] rects[u]).lane ==> rects[t].left + rects[t].width <= rects[u].left,
        rects[j].lane == rects[k].lane,
    ensures
        rects[j].left + rects[j].width <= rects[k].left,
    decreases k - j,
{
    if j + 1 < k {
        lemma_lane_monotone(rects, j, k - 1);
        lemma_lane_monotone(rects, k - 1, k);
        lemma_lane_chain(rects, j, k - 1);
        lemma_lane_chain(rects, k - 1, k);
    }
}

/// Non-overlap within a row: two items that the row layout placed in the
/// same row never overlap horizontally; the earlier one ends at or before
/// the later one's left edge.
pub proof fn lemma_row_no_overlap(
    srcs: Seq<(u16, u16)>,
    thumb: int,
    cw: int,
    pad: int,
    i: int,
    j: int,
    k: int,
)
    requires
        0 <= thumb,
        0 <= cw,
        0 <= pad,
        0 <= i <= srcs.len(),
        0 <= j < k < i,
        row_run(srcs, thumb, cw, pad, i).rects[j].lane == row_run(
            srcs,
            thumb,
            cw,
            pad,
            i,
        ).rects[k].lane,
    ensures
        ({
            let st = row_run(srcs, thumb, cw, pad, i);
            st.rects[j].left + st.rects[j].width <= st.rects[k].left
        }),
{
    lemma_row_invariants(srcs, thumb, cw, pad, i);
    let st = row_run(srcs, thumb, cw, pad, i);
    assert forall|t: int, u: int|
        0 <= t && u == t + 1 && u < st.rects.len() && (#[trigger] st.rects[t]).lane == (
        #[trigger] st.rects[u]).lane implies st.rects[t].left + st.rects[t].width
        <= st.rects[u].left by {
        if u >= st.first {
            assert(st.rects[u].lane == st.closed_rows);
            assert(st.rects[t].lane == st.closed_rows);
            assert(t >= st.first);
        }
    }
    lemma_lane_chain(st.rects, j, k);
}

/// Rows are stacked: an item of an earlier row ends, in the vertical
/// direction, at or above the top edge of every item of a later row.
pub proof fn lemma_rows_stacked(
    srcs: Seq<(u16, u16)>,
    thumb: int,
    cw: int,
    pad: int,
    i: int,
    j: int,
    k: int,
)
    requires
        0 <= thumb,
        0 <= cw,
        0 <= pad,
        0 <= i <= srcs.len(),
        0 <= j < i,
        0 <= k < i,
        row_run(srcs, thumb, cw, pad, i).rects[j].lane < row_run(
            srcs,
            thumb,
            cw,
            pad,
            i,
        ).rects[k].lane,
    ensures
        ({
            let st = row_run(srcs, thumb, cw, pad, i);
            st.rects[j].top + st.rects[j].height <= st.rects[k].top
        }),
{
    lemma_row_invariants(srcs, thumb, cw, pad, i);
    let st = row_run(srcs, thumb, cw, pad, i);
    if k < j {
        lemma_lane_monotone(st.rects, k, j);
    }
}

/// Aspect preservation for uncorrected items: an item of the final open row
/// (the row that never overflowed) is placed at the base height with
/// `width / height == src_width / src_height` up to one unit of truncation.
pub proof fn lemma_open_row_items_keep_aspect(
    srcs: Seq<(u16, u16)>,
    thumb: int,
    cw: int,
    pad: int,
    i: int,
    j: int,
)
    requires
        0 <= thumb,
        0 <= cw,
        0 <= pad,
        0 <= i <= srcs.len(),
        row_run(srcs, thumb, cw, pad, i).first <= j < i,
        1 <= srcs[j].1,
    ensures
        ({
            let r = row_run(srcs, thumb, cw, pad, i).rects[j];
            &&& r.height == thumb
            &&& r.width * (srcs[j].1 as int) <= thumb * (srcs[j].0 as int)
            &&& thumb * (srcs[j].0 as int) < (r.width + 1) * (srcs[j].1 as int)
        }),
{
    lemma_row_invariants(srcs, thumb, cw, pad, i);
    lemma_row_aspect_ratio(thumb, srcs[j].0 as int, srcs[j].1 as int);
}

/// A rectangle never changes after the step that placed it.
proof fn lemma_col_rect_fixed(srcs: Seq<(u16, u16)>, cw: int, thumb: int, pad: int, i: int, j: int)
    requires
        0 <= j < i <= srcs.len(),
    ensures
        col_run(srcs, cw, thumb, pad, i).rects.len() == i,
        col_run(srcs, cw, thumb, pad, i).rects[j] == col_run(srcs, cw, thumb, pad, j + 1).rects[j],
    decreases i,
{
    if j + 1 < i {
        lemma_col_rect_fixed(srcs, cw, thumb, pad, i - 1, j);
    } else {
        lemma_col_rect_fixed_len(srcs, cw, thumb, pad, j);
    }
}

/// The column model places exactly one rectangle per item.
proof fn lemma_col_rect_fixed_len(srcs: Seq<(u16, u16)>, cw: int, thumb: int, pad: int, i: int)
    requires
        0 <= i <= srcs.len(),
    ensures
        col_run(srcs, cw, thumb, pad, i).rects.len() == i,
    decreases i,
{
    if i > 0 {
        lemma_col_rect_fixed_len(srcs, cw, thumb, pad, i - 1);
    }
}

/// Aspect preservation in the column layout: an item that triggers neither
/// aspect crop is placed with `height / width == src_height / src_width` up
/// to half a unit of rounding.
pub proof fn lemma_column_items_keep_aspect(
    srcs: Seq<(u16, u16)>,
    cw: int,
    thumb: int,
    pad: int,
    i: int,
    j: int,
)
    requires
        0 <= j < i <= srcs.len(),
        1 <= srcs[j].0,
        srcs[j].0 as int <= 3 * srcs[j].1 as int,
        3 * srcs[j].1 as int <= 5 * srcs[j].0 as int,
    ensures
        ({
            let r = col_run(srcs, cw, thumb, pad, i).rects[j];
            let sw = srcs[j].0 as int;
            let sh = srcs[j].1 as int;
            &&& r.width == item_width(col_width_of(cw, n_columns_of(cw, thumb)), pad)
            &&& 2 * r.height * sw - sw <= 2 * r.width * sh
            &&& 2 * r.width * sh <= 2 * r.height * sw + sw
        }),
{
    lemma_col_rect_fixed(srcs, cw, thumb, pad, i, j);
    lemma_col_rect_fixed_len(srcs, cw, thumb, pad, j);
    let colw = col_width_of(cw, n_columns_of(cw, thumb));
    let width = item_width(colw, pad);
    assert(col_run(srcs, cw, thumb, pad, j + 1) == col_place(
        col_run(srcs, cw, thumb, pad, j),
        srcs[j].0 as int,
        srcs[j].1 as int,
        colw,
        pad,
    ));
    let r = col_run(srcs, cw, thumb, pad, j + 1).rects[j];
    assert(r.width == width && r.height == item_height(width, srcs[j].0 as int, srcs[j].1 as int));
    lemma_column_aspect_ratio(width, srcs[j].0 as int, srcs[j].1 as int);
}

/// The sum of the widths of the rectangles at indices `[from, to)`.
pub open spec fn width_sum(rects: Seq<RectM>, from: int, to: int) -> int
    decreases to - from,
{
    if from >= to {
        0
    } else {
        width_sum(rects, from, to - 1) + rects[to - 1].width
    }
}

/// `width_sum` reads only the rectangles inside its range.
proof fn lemma_width_sum_congruence(a: Seq<RectM>, b: Seq<RectM>, from: int, to: int)
    requires
        forall|j: int| from <= j < to ==> #[trigger] a[j] == b[j],
    ensures
        width_sum(a, from, to) == width_sum(b, from, to),
    decreases to - from,
{
    if from < to {
        lemma_width_sum_congruence(a, b, from, to - 1);
    }
}

/// A sum of nonnegative widths is nonnegative.
proof fn lemma_width_sum_nonneg(rects: Seq<RectM>, from: int, to: int)
    requires
        forall|j: int| from <= j < to ==> 0 <= (#[trigger] rects[j]).width,
    ensures
        0 <= width_sum(rects, from, to),
    decreases to - from,
{
    if from < to {
        lemma_width_sum_nonneg(rects, from, to - 1);
    }
}

/// With zero padding, the open row's accumulated width is exactly the sum of
/// its items' widths.
proof fn lemma_open_row_sum(srcs: Seq<(u16, u16)>, thumb: int, cw: int, i: int)
    requires
        0 <= i <= srcs.len(),
        0 <= thumb,
        0 <= cw,
    ensures
        ({
            let st = row_run(srcs, thumb, cw, 0, i);
            st.cur_row_width == width_sum(st.rects, st.first, i)
        }),
    decreases i,
{
    lemma_row_invariants(srcs, thumb, cw, 0, i);
    if i > 0 {
        lemma_open_row_sum(srcs, thumb, cw, i - 1);
        lemma_row_invariants(srcs, thumb, cw, 0, i - 1);
        let prev = row_run(srcs, thumb, cw, 0, i - 1);
        let st = row_run(srcs, thumb, cw, 0, i);
        assert(st == row_place(prev, srcs[i - 1].0 as int, srcs[i - 1].1 as int, thumb, cw, 0));
        if st.first == i {
        } else {
            assert(forall|j: int| prev.first <= j < i - 1 ==> #[trigger] st.rects[j]
                == prev.rects[j]);
            lemma_width_sum_congruence(st.rects, prev.rects, prev.first, i - 1);
        }
    }
}

/// Scaling every width in a range: the sum of the scaled widths stays at or
/// below the unscaled sum scaled as a whole, and the unscaled sum times `cw`
/// stays below the scaled sum times `nrw` plus one `nrw` per item (each item
/// truncates away less than one unit).
proof fn lemma_scaled_sum_bounds(
    a: Seq<RectM>,
    b: Seq<RectM>,
    from: int,
    to: int,
    cw: int,
    nrw: int,
)
    requires
        from <= to,
        to <= a.len(),
        to <= b.len(),
        0 <= cw,
        cw < nrw,
        forall|j: int| from <= j < to ==> 0 <= (#[trigger] a[j]).width,
        forall|j: int| from <= j < to ==> (#[trigger] b[j]).width == scaled(a[j].width, cw, nrw),
    ensures
        width_sum(b, from, to) <= scaled(width_sum(a, from, to), cw, nrw),
        width_sum(a, from, to) * cw <= width_sum(b, from, to) * nrw + (to - from) * nrw,
    decreases to - from,
{
    if from >= to {
        assert(width_sum(a, from, to) * cw == 0) by (nonlinear_arith)
            requires width_sum(a, from, to) == 0;
        assert(width_sum(b, from, to) * nrw == 0) by (nonlinear_arith)
            requires width_sum(b, from, to) == 0;
    } else {
        lemma_scaled_sum_bounds(a, b, from, to - 1, cw, nrw);
        let sa = width_sum(a, from, to - 1);
        let sb = width_sum(b, from, to - 1);
        let w = a[to - 1].width;
        let q = scaled(w, cw, nrw);
        lemma_width_sum_nonneg(a, from, to - 1);
        lemma_scaled_basics(w, cw, nrw);
        lemma_scaled_superadd(sa, w, cw, nrw);
        lemma_mul_nonnegative(w, cw);
        lemma_fundamental_div_mod(w * cw, nrw);
        lemma_mod_bound(w * cw, nrw);
        assert(w * cw < q * nrw + nrw) by (nonlinear_arith)
            requires w * cw == nrw * q + w * cw % nrw, w * cw % nrw < nrw,
        ;
        assert((sa + w) * cw == sa * cw + w * cw) by (nonlinear_arith);
        assert((sb + q) * nrw == sb * nrw + q * nrw) by (nonlinear_arith);
        assert((to - from) * nrw == (to - 1 - from) * nrw + nrw) by (nonlinear_arith);
    }
}

/// Row width conformance (zero padding): when an item closes a row, the
/// corrected widths of that row sum to the container width exactly, short by
/// at most one unit per item lost to truncation.
pub proof fn lemma_row_width_conformance(srcs: Seq<(u16, u16)>, thumb: int, cw: int, i: int)
    requires
        0 <= i < srcs.len(),
        0 <= thumb,
        0 <= cw,
        // item `i` overflows the open row, closing it
        row_run(srcs, thumb, cw, 0, i).cur_row_width + natural_width(
            thumb,
            srcs[i].0 as int,
            srcs[i].1 as int,
        ) > cw,
    ensures
        ({
            let st0 = row_run(srcs, thumb, cw, 0, i);
            let st1 = row_run(srcs, thumb, cw, 0, i + 1);
            &&& cw - (i + 1 - st0.first) <= width_sum(st1.rects, st0.first, i + 1)
            &&& width_sum(st1.rects, st0.first, i + 1) <= cw
        }),
{
    lemma_row_invariants(srcs, thumb, cw, 0, i);
    lemma_open_row_sum(srcs, thumb, cw, i);
    let st0 = row_run(srcs, thumb, cw, 0, i);
    let st1 = row_run(srcs, thumb, cw, 0, i + 1);
    let sw = srcs[i].0 as int;
    let sh = srcs[i].1 as int;
    let rel = natural_width(thumb, sw, sh);
    lemma_mul_nonnegative(thumb, sw);
    lemma_div_pos_is_pos(thumb * sw, crate::model::clamp_pos(sh));
    let placed = RectM {
        left: st0.cur_row_width,
        top: st0.top_offset,
        width: rel,
        height: thumb,
        lane: st0.closed_rows,
    };
    let pre = st0.rects.push(placed);
    let nrw = st0.cur_row_width + rel;
    assert(st1 == row_place(st0, sw, sh, thumb, cw, 0));
    assert(forall|j: int| st0.first <= j < i ==> #[trigger] pre[j] == st0.rects[j]);
    lemma_width_sum_congruence(pre, st0.rects, st0.first, i);
    assert(width_sum(pre, st0.first, i + 1) == nrw);
    assert(forall|j: int|
        st0.first <= j < i + 1 ==> (#[trigger] st1.rects[j]).width == scaled(
            pre[j].width,
            cw,
            nrw,
        ));
    lemma_scaled_sum_bounds(pre, st1.rects, st0.first, i + 1, cw, nrw);
    // upper bound: the scaled total of the whole row is exactly cw
    lemma_div_multiples_vanish(cw, nrw);
    assert(nrw * cw == cw * nrw) by (nonlinear_arith);
    assert(scaled(nrw, cw, nrw) == cw);
    // lower bound: divide the product inequality by nrw
    let s = width_sum(st1.rects, st0.first, i + 1);
    let k = i + 1 - st0.first;
    assert(cw * nrw <= s * nrw + k * nrw);
    assert((cw - k) * nrw <= s * nrw) by (nonlinear_arith)
        requires cw * nrw <= s * nrw + k * nrw,
    ;
    lemma_mul_inequality_converse(cw - k, s, nrw);
}

} // verus!
