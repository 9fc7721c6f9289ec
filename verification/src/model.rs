//! Spec-level building blocks shared by the two layout models: placed
//! rectangles, the divisor-clamping policy, half-up rounding, and first-min /
//! last-max indices over integer sequences.

use crate::store::Transform;
use vstd::prelude::*;

verus! {

/// A placed rectangle in the mathematical layout model. `lane` is the row
/// (for row packing) or column (for column balancing) the item was placed in.
pub ghost struct RectM {
    pub left: int,
    pub top: int,
    pub width: int,
    pub height: int,
    pub lane: int,
}

/// Clamps a divisor to at least one: the engine's policy for items whose
/// intrinsic dimensions are zero.
pub open spec fn clamp_pos(x: int) -> int {
    if x <= 0 {
        1
    } else {
        x
    }
}

/// `a / b` rounded half-up, for `b >= 1`.
pub open spec fn round_div(a: int, b: int) -> int {
    (2 * a + b) / (2 * b)
}

/// The source sizes of a sequence of items, in order.
pub open spec fn srcs_of(items: Seq<Transform>) -> Seq<(u16, u16)> {
    items.map_values(|t: Transform| (t.src_width, t.src_height))
}

/// Whether an item's computed fields equal a model rectangle.
pub open spec fn matches_rect(t: Transform, r: RectM) -> bool {
    &&& t.width as int == r.width
    &&& t.height as int == r.height
    &&& t.left as int == r.left
    &&& t.top as int == r.top
}

/// The first index holding the minimum of a nonempty sequence.
pub open spec fn argmin(s: Seq<int>) -> int
    decreases s.len(),
{
    if s.len() <= 1 {
        0
    } else {
        let t = argmin(s.drop_first());
        if s[0] <= s[t + 1] {
            0
        } else {
            t + 1
        }
    }
}

/// The last index holding the maximum of a nonempty sequence.
pub open spec fn argmax(s: Seq<int>) -> int
    decreases s.len(),
{
    if s.len() <= 1 {
        0
    } else {
        let t = argmax(s.drop_last());
        if s[s.len() - 1] >= s[t] {
            s.len() - 1
        } else {
            t
        }
    }
}

/// The minimum of a nonempty sequence.
pub open spec fn seq_min(s: Seq<int>) -> int {
    s[argmin(s)]
}

/// The maximum of a nonempty sequence.
pub open spec fn seq_max(s: Seq<int>) -> int {
    s[argmax(s)]
}

/// `argmin` is in range, attains the minimum, and is the first index to do so.
pub proof fn lemma_argmin(s: Seq<int>)
    requires
        s.len() > 0,
    ensures
        0 <= argmin(s) < s.len(),
        forall|j: int| 0 <= j < s.len() ==> seq_min(s) <= s[j],
        forall|j: int| 0 <= j < argmin(s) ==> s[j] > seq_min(s),
    decreases s.len(),
{
    if s.len() > 1 {
        let d = s.drop_first();
        lemma_argmin(d);
        let t = argmin(d);
        assert(forall|j: int| 0 <= j < d.len() ==> d[j] == s[j + 1]);
        assert(d[t] == s[t + 1]);
        if s[0] <= s[t + 1] {
            assert(forall|j: int| 1 <= j < s.len() ==> s[j] == d[j - 1] && d[t] <= d[j - 1]);
        } else {
            assert(forall|j: int| 1 <= j < s.len() ==> s[j] == d[j - 1] && d[t] <= d[j - 1]);
            assert(forall|j: int| 1 <= j < t + 1 ==> #[trigger] d[j - 1] > d[t]);
        }
    }
}

/// `argmax` is in range, attains the maximum, and is the last index to do so.
pub proof fn lemma_argmax(s: Seq<int>)
    requires
        s.len() > 0,
    ensures
        0 <= argmax(s) < s.len(),
        forall|j: int| 0 <= j < s.len() ==> s[j] <= seq_max(s),
        forall|j: int| argmax(s) < j < s.len() ==> s[j] < seq_max(s),
    decreases s.len(),
{
    if s.len() > 1 {
        let d = s.drop_last();
        lemma_argmax(d);
        let t = argmax(d);
        assert(forall|j: int| 0 <= j < d.len() ==> d[j] == s[j]);
        if s[s.len() - 1] >= s[t] {
            assert(forall|j: int| 0 <= j < s.len() - 1 ==> s[j] == d[j] && d[j] <= d[t]);
        } else {
            assert(forall|j: int| 0 <= j < s.len() - 1 ==> s[j] == d[j] && d[j] <= d[t]);
            assert(forall|j: int| t < j < s.len() - 1 ==> d[j] < d[t]);
        }
    }
}

/// Any index that attains the minimum and is preceded only by strictly larger
/// values is `argmin`.
pub proof fn lemma_first_min_unique(s: Seq<int>, i: int)
    requires
        0 <= i < s.len(),
        forall|j: int| 0 <= j < s.len() ==> s[i] <= s[j],
        forall|j: int| 0 <= j < i ==> s[j] > s[i],
    ensures
        i == argmin(s),
{
    lemma_argmin(s);
    let a = argmin(s);
    if a < i {
        assert(s[a] > s[i]);
        assert(seq_min(s) <= s[i]);
    } else if i < a {
        assert(s[i] > seq_min(s));
        assert(s[i] <= s[a]);
    }
}

} // verus!
