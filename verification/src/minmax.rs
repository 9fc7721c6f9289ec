//! Stateless argmin / argmax helpers over column-height vectors: the column
//! balancer picks the first shortest column and reports the tallest one.

use crate::model::{argmax, argmin, lemma_argmax, lemma_argmin, seq_max};
use vstd::prelude::*;

verus! {

/// The view of a height vector as a sequence of mathematical integers.
pub open spec fn heights_view(values: Seq<u64>) -> Seq<int> {
    values.map_values(|v: u64| v as int)
}

/// The index of the smallest value, ties broken by the lowest index;
/// `None` only for an empty vector.
pub fn index_of_min(values: &Vec<u64>) -> (r: Option<usize>)
    ensures
        r is Some <==> values@.len() > 0,
        values@.len() > 0 ==> (r matches Some(i) && 0 <= i < values@.len() && (forall|j: int|
            0 <= j < values@.len() ==> values@[i as int] <= values@[j]) && (forall|j: int|
            0 <= j < i ==> values@[j] > values@[i as int])),
{
    if values.len() == 0 {
        return None;
    }
    let mut best: usize = 0;
    let mut k: usize = 1;
    while k < values.len()
        invariant
            1 <= k <= values@.len(),
            0 <= best < k,
            forall|j: int| 0 <= j < k ==> values@[best as int] <= values@[j],
            forall|j: int| 0 <= j < best ==> values@[j] > values@[best as int],
        decreases values@.len() - k,
    {
        if values[k] < values[best] {
            best = k;
        }
        k = k + 1;
    }
    Some(best)
}

/// The index of the largest value, ties broken by the highest index;
/// `None` only for an empty vector.
pub fn index_of_max(values: &Vec<u64>) -> (r: Option<usize>)
    ensures
        r is Some <==> values@.len() > 0,
        values@.len() > 0 ==> (r matches Some(i) && 0 <= i < values@.len() && (forall|j: int|
            0 <= j < values@.len() ==> values@[j] <= values@[i as int]) && (forall|j: int|
            i < j < values@.len() ==> values@[j] < values@[i as int])),
{
    if values.len() == 0 {
        return None;
    }
    let mut best: usize = 0;
    let mut k: usize = 1;
    while k < values.len()
        invariant
            1 <= k <= values@.len(),
            0 <= best < k,
            forall|j: int| 0 <= j < k ==> values@[j] <= values@[best as int],
            forall|j: int| best < j < k ==> values@[j] < values@[best as int],
        decreases values@.len() - k,
    {
        if values[k] >= values[best] {
            best = k;
        }
        k = k + 1;
    }
    Some(best)
}

/// The exec argmin over `u64` heights lands exactly on the model's `argmin`.
pub proof fn lemma_index_is_argmin(values: Seq<u64>, i: int)
    requires
        0 <= i < values.len(),
        forall|j: int| 0 <= j < values.len() ==> values[i] <= values[j],
        forall|j: int| 0 <= j < i ==> values[j] > values[i],
    ensures
        i == argmin(heights_view(values)),
{
    let hv = heights_view(values);
    assert(forall|j: int| 0 <= j < values.len() ==> hv[j] == values[j] as int);
    crate::model::lemma_first_min_unique(hv, i);
}

/// The value at the exec argmax equals the model's `seq_max`.
pub proof fn lemma_index_is_max(values: Seq<u64>, i: int)
    requires
        0 <= i < values.len(),
        forall|j: int| 0 <= j < values.len() ==> values[j] <= values[i],
    ensures
        values[i] as int == seq_max(heights_view(values)),
{
    let hv = heights_view(values);
    assert(forall|j: int| 0 <= j < values.len() ==> hv[j] == values[j] as int);
    lemma_argmax(hv);
    let a = argmax(hv);
    assert(hv[a] <= hv[i]);
    assert(hv[i] <= seq_max(hv));
}

} // verus!
