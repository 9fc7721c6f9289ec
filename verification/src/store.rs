//! The item store: an ordered, fixed-length sequence of item transforms plus
//! the thumbnail size that both layout strategies use as their base unit.

use vstd::pervasive::VecAdditionalExecFns;
use vstd::prelude::*;

verus! {

/// One layout item: its intrinsic (source) size and its computed transform.
///
/// `width`, `height`, `left` and `top` are meaningful only after a layout
/// call; they are zero (or stale) until then.
#[derive(Clone, Copy, PartialEq, Eq, Structural, Debug)]
pub struct Transform {
    pub src_width: u16,
    pub src_height: u16,
    pub width: u64,
    pub height: u64,
    pub left: u64,
    pub top: u64,
}

/// The errors a store operation can report.
#[derive(Clone, Copy, PartialEq, Eq, Structural, Debug)]
pub enum LayoutError {
    /// An item index at or past the store's length was supplied.
    IndexOutOfRange,
}

/// The mathematical content of a `Layout`: its items and thumbnail size.
pub ghost struct LayoutView {
    pub items: Seq<Transform>,
    pub thumbnail_size: u32,
}

/// The item store. Its length is fixed at creation; intrinsic sizes are set
/// one item at a time, and a layout call rewrites every computed transform.
pub struct Layout {
    pub(crate) items: Vec<Transform>,
    pub(crate) thumbnail_size: u32,
}

impl View for Layout {
    type V = LayoutView;

    open(crate) spec fn view(&self) -> LayoutView {
        LayoutView { items: self.items@, thumbnail_size: self.thumbnail_size }
    }
}

/// A zero-initialized item, as `new` creates them.
pub open spec fn blank_transform() -> Transform {
    Transform { src_width: 0, src_height: 0, width: 0, height: 0, left: 0, top: 0 }
}

impl Layout {
    /// Creates a store of `length` zero-valued items.
    pub fn new(length: usize, thumbnail_size: u32) -> (layout: Layout)
        ensures
            layout@.thumbnail_size == thumbnail_size,
            layout@.items.len() == length,
            forall|j: int| 0 <= j < length ==> layout@.items[j] == blank_transform(),
    {
        let mut items: Vec<Transform> = Vec::new();
        let mut i: usize = 0;
        while i < length
            invariant
                i <= length,
                items@.len() == i,
                forall|j: int| 0 <= j < i ==> items@[j] == blank_transform(),
            decreases length - i,
        {
            items.push(Transform {
                src_width: 0,
                src_height: 0,
                width: 0,
                height: 0,
                left: 0,
                top: 0,
            });
            i = i + 1;
        }
        Layout { items, thumbnail_size }
    }

    /// A read-only view of the current (possibly stale) transforms.
    pub fn items(&self) -> (r: &Vec<Transform>)
        ensures
            r@ == self@.items,
    {
        &self.items
    }

    /// The current thumbnail size.
    pub fn thumbnail_size(&self) -> (r: u32)
        ensures
            r == self@.thumbnail_size,
    {
        self.thumbnail_size
    }

    /// Writes the intrinsic size of the item at `index`; rejects an index at
    /// or past the store's length.
    pub fn set_item_input(&mut self, index: usize, width: u16, height: u16) -> (r: Result<
        (),
        LayoutError,
    >)
        ensures
            index < old(self)@.items.len() ==> {
                &&& r is Ok
                &&& final(self)@.thumbnail_size == old(self)@.thumbnail_size
                &&& final(self)@.items == old(self)@.items.update(
                    index as int,
                    (Transform {
                        src_width: width,
                        src_height: height,
                        width: old(self)@.items[index as int].width,
                        height: old(self)@.items[index as int].height,
                        left: old(self)@.items[index as int].left,
                        top: old(self)@.items[index as int].top,
                    }),
                )
            },
            index >= old(self)@.items.len() ==> {
                &&& r == Err::<(), LayoutError>(LayoutError::IndexOutOfRange)
                &&& final(self)@ == old(self)@
            },
    {
        if index >= self.items.len() {
            return Err(LayoutError::IndexOutOfRange);
        }
        let prev = self.items[index];
        self.items.set(
            index,
            Transform {
                src_width: width,
                src_height: height,
                width: prev.width,
                height: prev.height,
                left: prev.left,
                top: prev.top,
            },
        );
        Ok(())
    }

    /// Builds a new store of the given length from this one: items that both
    /// stores index keep their whole transform, items past this store's
    /// length start out zero-valued. The length of a store itself is fixed
    /// for its lifetime; growing or shrinking goes through this rebuild.
    pub fn rebuild(&self, length: usize) -> (r: Layout)
        ensures
            r@.thumbnail_size == self@.thumbnail_size,
            r@.items.len() == length,
            forall|j: int|
                0 <= j < length ==> r@.items[j] == (if j < self@.items.len() {
                    self@.items[j]
                } else {
                    blank_transform()
                }),
    {
        let mut items: Vec<Transform> = Vec::new();
        let mut i: usize = 0;
        while i < length
            invariant
                i <= length,
                items@.len() == i,
                forall|j: int|
                    0 <= j < i ==> items@[j] == (if j < self@.items.len() {
                        self@.items[j]
                    } else {
                        blank_transform()
                    }),
            decreases length - i,
        {
            if i < self.items.len() {
                items.push(self.items[i]);
            } else {
                items.push(Transform {
                    src_width: 0,
                    src_height: 0,
                    width: 0,
                    height: 0,
                    left: 0,
                    top: 0,
                });
            }
            i = i + 1;
        }
        Layout { items, thumbnail_size: self.thumbnail_size }
    }

    /// Updates the thumbnail size; it takes effect on the next layout call.
    pub fn set_thumbnail_size(&mut self, thumbnail_size: u32)
        ensures
            final(self)@.items == old(self)@.items,
            final(self)@.thumbnail_size == thumbnail_size,
    {
        self.thumbnail_size = thumbnail_size;
    }
}

} // verus!
