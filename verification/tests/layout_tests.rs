use masonry::minmax::{index_of_max, index_of_min};
use masonry::store::{Layout, LayoutError};

fn fields(layout: &Layout, i: usize) -> (u64, u64, u64, u64) {
    let t = &layout.items()[i];
    (t.left, t.top, t.width, t.height)
}

#[test]
fn new_store_is_zeroed() {
    let layout = Layout::new(3, 100);
    assert_eq!(layout.items().len(), 3);
    assert_eq!(layout.thumbnail_size(), 100);
    for t in layout.items().iter() {
        assert_eq!(t.src_width, 0);
        assert_eq!(t.src_height, 0);
        assert_eq!((t.left, t.top, t.width, t.height), (0, 0, 0, 0));
    }
}

#[test]
fn set_item_input_in_range() {
    let mut layout = Layout::new(2, 100);
    assert_eq!(layout.set_item_input(1, 640, 480), Ok(()));
    assert_eq!(layout.items()[1].src_width, 640);
    assert_eq!(layout.items()[1].src_height, 480);
    // the other item is untouched
    assert_eq!(layout.items()[0].src_width, 0);
}

#[test]
fn set_item_input_out_of_range() {
    let mut layout = Layout::new(2, 100);
    assert_eq!(layout.set_item_input(2, 10, 10), Err(LayoutError::IndexOutOfRange));
    assert_eq!(layout.set_item_input(usize::MAX, 10, 10), Err(LayoutError::IndexOutOfRange));
}

#[test]
fn set_thumbnail_size_takes_effect_on_next_compute() {
    let mut layout = Layout::new(1, 100);
    layout.set_item_input(0, 100, 100).unwrap();
    assert_eq!(layout.compute(1000, 0), 100);
    layout.set_thumbnail_size(50);
    assert_eq!(layout.thumbnail_size(), 50);
    assert_eq!(layout.compute(1000, 0), 50);
}

#[test]
fn row_packing_three_items() {
    // Items (100,100), (200,100), (100,100); thumbnail 100; container 250.
    // Item 1 overflows the first row (100 + 200 > 250): the row is rescaled
    // by 250/300, the last item starts a second row at its natural size.
    let mut layout = Layout::new(3, 100);
    layout.set_item_input(0, 100, 100).unwrap();
    layout.set_item_input(1, 200, 100).unwrap();
    layout.set_item_input(2, 100, 100).unwrap();
    let total = layout.compute(250, 0);
    assert_eq!(total, 183);
    assert_eq!(fields(&layout, 0), (0, 0, 83, 83));
    assert_eq!(fields(&layout, 1), (83, 0, 166, 83));
    assert_eq!(fields(&layout, 2), (0, 83, 100, 100));
}

#[test]
fn row_packing_open_row_keeps_natural_size() {
    let mut layout = Layout::new(2, 100);
    layout.set_item_input(0, 150, 100).unwrap();
    layout.set_item_input(1, 100, 100).unwrap();
    let total = layout.compute(1000, 0);
    // no row ever overflows: both keep aspect-true natural sizes
    assert_eq!(total, 100);
    assert_eq!(fields(&layout, 0), (0, 0, 150, 100));
    assert_eq!(fields(&layout, 1), (150, 0, 100, 100));
}

#[test]
fn row_packing_with_padding() {
    let mut layout = Layout::new(2, 100);
    layout.set_item_input(0, 100, 100).unwrap();
    layout.set_item_input(1, 100, 100).unwrap();
    // 100 + 10 + 100 + 10 = 220 > 150: both items close one corrected row
    let total = layout.compute(150, 10);
    assert_eq!(fields(&layout, 0), (0, 0, 68, 68));
    assert_eq!(fields(&layout, 1), (75, 0, 68, 68));
    assert_eq!(total, 78);
}

#[test]
fn row_packing_zero_container_width() {
    // every item overflows immediately and is scaled by factor 0
    let mut layout = Layout::new(1, 100);
    layout.set_item_input(0, 100, 100).unwrap();
    let total = layout.compute(0, 0);
    assert_eq!(total, 0);
    assert_eq!(fields(&layout, 0), (0, 0, 0, 0));
}

#[test]
fn row_packing_zero_source_height() {
    // the zero divisor is clamped to one: natural width 100 * 0 / 1 == 0
    let mut layout = Layout::new(1, 100);
    layout.set_item_input(0, 0, 0).unwrap();
    let total = layout.compute(500, 0);
    // a zero-width item with zero padding never fills the row: the open row
    // width stays zero and the total ignores it
    assert_eq!(total, 0);
    assert_eq!(fields(&layout, 0), (0, 0, 0, 100));
}

#[test]
fn row_packing_empty_store() {
    let mut layout = Layout::new(0, 100);
    assert_eq!(layout.compute(500, 0), 0);
    assert_eq!(layout.compute_vertical(500, 0), 0);
}

#[test]
fn column_balancing_four_squares() {
    // 4 square items, thumbnail 100, container 200: two columns of width 100,
    // items alternate columns, each column stacks two items of height 100.
    let mut layout = Layout::new(4, 100);
    for i in 0..4 {
        layout.set_item_input(i, 100, 100).unwrap();
    }
    let total = layout.compute_vertical(200, 0);
    assert_eq!(total, 200);
    assert_eq!(fields(&layout, 0), (0, 0, 100, 100));
    assert_eq!(fields(&layout, 1), (100, 0, 100, 100));
    assert_eq!(fields(&layout, 2), (0, 100, 100, 100));
    assert_eq!(fields(&layout, 3), (100, 100, 100, 100));
}

#[test]
fn column_balancing_zero_container_width() {
    // zero columns: nothing is placed, the previous transforms survive
    let mut layout = Layout::new(2, 100);
    layout.set_item_input(0, 100, 100).unwrap();
    layout.set_item_input(1, 100, 100).unwrap();
    let first = layout.compute_vertical(200, 0);
    assert_eq!(first, 100);
    let before: Vec<_> = layout.items().iter().map(|t| (t.left, t.top, t.width, t.height)).collect();
    let total = layout.compute_vertical(0, 0);
    assert_eq!(total, 0);
    let after: Vec<_> = layout.items().iter().map(|t| (t.left, t.top, t.width, t.height)).collect();
    assert_eq!(before, after);
}

#[test]
fn column_balancing_with_padding() {
    let mut layout = Layout::new(2, 100);
    layout.set_item_input(0, 100, 100).unwrap();
    layout.set_item_input(1, 100, 100).unwrap();
    let total = layout.compute_vertical(200, 10);
    // column width 100, item width 90, heights 90 + 10 padding
    assert_eq!(fields(&layout, 0), (0, 0, 90, 90));
    assert_eq!(fields(&layout, 1), (100, 0, 90, 90));
    assert_eq!(total, 100);
}

#[test]
fn column_balancing_crops_wide_items() {
    // aspect ratio 4 > 3: effective height is 3 * src_height
    let mut layout = Layout::new(1, 100);
    layout.set_item_input(0, 400, 100).unwrap();
    let total = layout.compute_vertical(100, 0);
    // one column of width 100: height = round(100 * 300 / 400) = 75
    assert_eq!(fields(&layout, 0), (0, 0, 100, 75));
    assert_eq!(total, 75);
}

#[test]
fn column_balancing_crops_narrow_items() {
    // aspect ratio 0.25 < 0.6: effective height is src_height / 3
    let mut layout = Layout::new(1, 100);
    layout.set_item_input(0, 100, 400).unwrap();
    let total = layout.compute_vertical(100, 0);
    // height = round(100 * 400 / 300) = 133
    assert_eq!(fields(&layout, 0), (0, 0, 100, 133));
    assert_eq!(total, 133);
}

#[test]
fn column_balancing_aspect_boundaries() {
    // 300x500 has aspect exactly 0.6: no crop, height = round(100*500/300)
    let mut layout = Layout::new(1, 100);
    layout.set_item_input(0, 300, 500).unwrap();
    assert_eq!(layout.compute_vertical(100, 0), 167);
    // 299x500 is just below 0.6: cropped, height = round(100*500/897)
    let mut narrow = Layout::new(1, 100);
    narrow.set_item_input(0, 299, 500).unwrap();
    assert_eq!(narrow.compute_vertical(100, 0), 56);
}

#[test]
fn column_balancing_fills_shortest_column_first() {
    // a tall first item forces the next two into the other column
    let mut layout = Layout::new(3, 100);
    layout.set_item_input(0, 100, 150).unwrap();
    layout.set_item_input(1, 100, 100).unwrap();
    layout.set_item_input(2, 100, 100).unwrap();
    let total = layout.compute_vertical(200, 0);
    assert_eq!(fields(&layout, 0), (0, 0, 100, 150));
    assert_eq!(fields(&layout, 1), (100, 0, 100, 100));
    assert_eq!(fields(&layout, 2), (100, 100, 100, 100));
    assert_eq!(total, 200);
}

#[test]
fn layouts_are_deterministic() {
    // same intrinsic sizes and parameters give bit-identical output, whatever
    // stale transforms were left by earlier calls with other parameters
    let sizes = [(320u16, 240u16), (200, 800), (900, 150), (64, 64)];
    let mut fresh = Layout::new(4, 120);
    let mut stale = Layout::new(4, 120);
    for (i, (w, h)) in sizes.iter().enumerate() {
        fresh.set_item_input(i, *w, *h).unwrap();
        stale.set_item_input(i, *w, *h).unwrap();
    }
    stale.compute(777, 3);
    stale.compute_vertical(512, 7);

    assert_eq!(fresh.compute(300, 5), stale.compute(300, 5));
    for i in 0..4 {
        assert_eq!(fields(&fresh, i), fields(&stale, i));
    }
    assert_eq!(fresh.compute_vertical(300, 5), stale.compute_vertical(300, 5));
    for i in 0..4 {
        assert_eq!(fields(&fresh, i), fields(&stale, i));
    }
    // and a repeated call reproduces itself exactly
    let again = fresh.compute_vertical(300, 5);
    let reference = stale.compute_vertical(300, 5);
    assert_eq!(again, reference);
}

#[test]
fn row_aspect_ratio_preserved_without_correction() {
    // uncorrected items: width/height == src_width/src_height exactly when
    // the division is exact
    let mut layout = Layout::new(2, 100);
    layout.set_item_input(0, 200, 100).unwrap();
    layout.set_item_input(1, 50, 100).unwrap();
    layout.compute(10_000, 0);
    let a = &layout.items()[0];
    assert_eq!(a.width * 100, a.height * 200);
    let b = &layout.items()[1];
    assert_eq!(b.width * 100, b.height * 50);
}

#[test]
fn index_of_min_and_max() {
    let empty: Vec<u64> = Vec::new();
    assert_eq!(index_of_min(&empty), None);
    assert_eq!(index_of_max(&empty), None);
    let values = vec![5u64, 3, 9, 3, 9, 7];
    // ties: min takes the first occurrence, max the last
    assert_eq!(index_of_min(&values), Some(1));
    assert_eq!(index_of_max(&values), Some(4));
}

#[test]
fn row_layout_rectangles_never_overlap() {
    // several rows of mixed sizes: no two placed rectangles intersect
    let sizes = [
        (300u16, 100u16),
        (200, 100),
        (150, 100),
        (400, 100),
        (100, 100),
        (90, 60),
        (123, 77),
    ];
    let mut layout = Layout::new(sizes.len(), 100);
    for (i, (w, h)) in sizes.iter().enumerate() {
        layout.set_item_input(i, *w, *h).unwrap();
    }
    layout.compute(500, 7);
    let items = layout.items();
    for a in 0..items.len() {
        for b in 0..items.len() {
            if a == b {
                continue;
            }
            let (x, y) = (&items[a], &items[b]);
            let overlap_x = x.left < y.left + y.width && y.left < x.left + x.width;
            let overlap_y = x.top < y.top + y.height && y.top < x.top + x.height;
            assert!(
                !(overlap_x && overlap_y),
                "items {} and {} overlap",
                a,
                b
            );
        }
    }
}

#[test]
fn closed_row_width_conforms_to_container() {
    // zero padding: the corrected widths of a closed row sum to the
    // container width, short by at most one unit per item
    let mut layout = Layout::new(3, 100);
    for i in 0..3 {
        layout.set_item_input(i, 100, 100).unwrap();
    }
    layout.compute(250, 0);
    // all three items closed one row (100 + 100 + 100 > 250)
    let sum: u64 = layout.items().iter().map(|t| t.width).sum();
    assert!(sum <= 250);
    assert!(sum >= 250 - 3);
    assert_eq!(sum, 249);
}

#[test]
fn columns_stay_balanced() {
    let sizes = [
        (120u16, 90u16),
        (100, 160),
        (100, 100),
        (130, 70),
        (100, 140),
        (80, 80),
        (100, 50),
    ];
    let pad: u64 = 5;
    let mut layout = Layout::new(sizes.len(), 100);
    for (i, (w, h)) in sizes.iter().enumerate() {
        layout.set_item_input(i, *w, *h).unwrap();
    }
    layout.compute_vertical(300, pad as u16);
    // reconstruct the column heights and the tallest single item
    let colw = 100u64;
    let mut heights = [0u64; 3];
    let mut tallest = 0u64;
    for t in layout.items().iter() {
        let col = (t.left / colw) as usize;
        let bottom = t.top + t.height + pad;
        if bottom > heights[col] {
            heights[col] = bottom;
        }
        if t.height > tallest {
            tallest = t.height;
        }
    }
    let max = *heights.iter().max().unwrap();
    let min = *heights.iter().min().unwrap();
    assert!(max - min <= tallest + pad, "imbalance {} > {} + {}", max - min, tallest, pad);
}

#[test]
fn column_aspect_preserved_without_crop() {
    // 100x150 triggers no crop: height/width == src_height/src_width within
    // half a unit of rounding
    let mut layout = Layout::new(1, 100);
    layout.set_item_input(0, 100, 150).unwrap();
    layout.compute_vertical(100, 0);
    let t = &layout.items()[0];
    assert_eq!((t.width, t.height), (100, 150));
    let lhs = 2 * t.height * 100;
    let rhs = 2 * t.width * 150;
    assert!(lhs.abs_diff(rhs) <= 100);
}

#[test]
fn rebuild_keeps_data_and_changes_length() {
    let mut layout = Layout::new(2, 100);
    layout.set_item_input(0, 320, 240).unwrap();
    layout.set_item_input(1, 100, 100).unwrap();
    layout.compute(1000, 0);
    let grown = layout.rebuild(4);
    assert_eq!(grown.items().len(), 4);
    assert_eq!(grown.thumbnail_size(), 100);
    // surviving items keep their whole transform
    assert_eq!(grown.items()[0].src_width, 320);
    assert_eq!(grown.items()[0].width, layout.items()[0].width);
    assert_eq!(grown.items()[1].src_height, 100);
    // added items start out zero-valued
    assert_eq!(grown.items()[2].src_width, 0);
    assert_eq!(grown.items()[3].height, 0);
    let shrunk = layout.rebuild(1);
    assert_eq!(shrunk.items().len(), 1);
    assert_eq!(shrunk.items()[0].src_width, 320);
}
