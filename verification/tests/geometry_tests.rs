use cropgun::detection::{contour_bounding_rect, select_candidates, Candidate, MIN_DIMENSION};
use cropgun::geometry::{merge_overlapping_rects, Rect};

fn r(x1: u32, y1: u32, x2: u32, y2: u32) -> Rect {
    Rect::new(x1, y1, x2, y2)
}

#[test]
fn rect_new_orders_corners() {
    let a = Rect::new(10, 40, 2, 5);
    assert_eq!(a, Rect { min_x: 2, min_y: 5, max_x: 10, max_y: 40 });
    assert_eq!(a.width(), 8);
    assert_eq!(a.height(), 35);
    assert_eq!(a.area(), 280);
    let big = Rect::new(0, 0, u32::MAX, u32::MAX);
    assert_eq!(big.area(), (u32::MAX as u64) * (u32::MAX as u64));
}

#[test]
fn merge_of_nothing_and_one() {
    assert!(merge_overlapping_rects(vec![]).is_empty());
    assert_eq!(merge_overlapping_rects(vec![r(1, 2, 30, 40)]), vec![r(1, 2, 30, 40)]);
}

#[test]
fn merge_joins_overlapping_boxes() {
    let out = merge_overlapping_rects(vec![r(0, 0, 100, 100), r(50, 50, 150, 150)]);
    assert_eq!(out, vec![r(0, 0, 150, 150)]);
}

#[test]
fn merge_keeps_distant_boxes_apart() {
    let out = merge_overlapping_rects(vec![r(0, 0, 100, 100), r(200, 0, 300, 100)]);
    assert_eq!(out, vec![r(0, 0, 100, 100), r(200, 0, 300, 100)]);
}

#[test]
fn merge_tolerance_is_a_tenth_of_the_smaller_side() {
    // 100 x 100 box reaches 10 pixels further: a box starting at 110 touches it.
    let out = merge_overlapping_rects(vec![r(0, 0, 100, 100), r(110, 0, 200, 100)]);
    assert_eq!(out, vec![r(0, 0, 200, 100)]);
    // one pixel further does not touch
    let out = merge_overlapping_rects(vec![r(0, 0, 100, 100), r(111, 0, 200, 100)]);
    assert_eq!(out.len(), 2);
    // the tolerance rounds down: 109 x 109 still reaches only 10
    let out = merge_overlapping_rects(vec![r(0, 0, 109, 109), r(120, 0, 200, 109)]);
    assert_eq!(out.len(), 2);
}

#[test]
fn merge_repeats_until_nothing_more_joins() {
    // The third box only touches the first once it has grown by the second;
    // the second comes after the third in the list, so a second pass is needed.
    let a = r(0, 0, 100, 100);
    let c = r(250, 0, 350, 100);
    let b = r(100, 0, 240, 100);
    let out = merge_overlapping_rects(vec![a, c, b]);
    assert_eq!(out, vec![r(0, 0, 350, 100)]);
}

#[test]
fn merge_starts_boxes_in_input_order() {
    let out = merge_overlapping_rects(vec![
        r(500, 500, 600, 600),
        r(0, 0, 100, 100),
        r(550, 550, 650, 650),
        r(90, 90, 120, 120),
    ]);
    assert_eq!(out, vec![r(500, 500, 650, 650), r(0, 0, 120, 120)]);
}

#[test]
fn merge_covers_every_input_box() {
    let input = vec![
        r(10, 10, 60, 60),
        r(300, 300, 400, 420),
        r(55, 58, 90, 200),
        r(700, 10, 800, 90),
        r(395, 410, 500, 500),
    ];
    let out = merge_overlapping_rects(input.clone());
    assert!(out.len() <= input.len());
    for b in &input {
        assert!(out.iter().any(|o| o.min_x <= b.min_x && o.min_y <= b.min_y && b.max_x <= o.max_x && b.max_y <= o.max_y));
    }
}

#[test]
fn bounding_rect_of_contour_points() {
    let rect = contour_bounding_rect(&vec![(3, 4), (10, 2), (5, 9)]);
    assert_eq!(rect, r(3, 2, 10, 9));
    let single = contour_bounding_rect(&vec![(7, 8)]);
    assert_eq!(single, r(7, 8, 7, 8));
}

#[test]
fn selection_applies_size_and_shape_tests() {
    let ok = Candidate { rect: r(0, 0, 100, 100), rectangular: true };
    let not_rectangular = Candidate { rect: r(0, 0, 100, 100), rectangular: false };
    let too_narrow = Candidate { rect: r(0, 0, MIN_DIMENSION - 1, 400), rectangular: true };
    let too_small = Candidate { rect: r(0, 0, 60, 60), rectangular: true };
    let too_big = Candidate { rect: r(0, 0, 1000, 1000), rectangular: true };
    let just_wide_enough = Candidate { rect: r(5, 5, 5 + MIN_DIMENSION, 400), rectangular: true };
    let cands = vec![ok, not_rectangular, too_narrow, too_small, too_big, just_wide_enough];
    let kept = select_candidates(&cands, 4000, 100_000);
    assert_eq!(kept, vec![r(0, 0, 100, 100), r(5, 5, 55, 400)]);
}

#[test]
fn selection_area_bounds_are_inclusive() {
    let c = Candidate { rect: r(0, 0, 100, 100), rectangular: true };
    assert_eq!(select_candidates(&vec![c], 10_000, 10_000).len(), 1);
    assert_eq!(select_candidates(&vec![c], 10_001, 20_000).len(), 0);
    assert_eq!(select_candidates(&vec![c], 0, 9_999).len(), 0);
}

#[test]
fn detected_boxes_are_large_enough() {
    let cands = vec![
        Candidate { rect: r(0, 0, 120, 60), rectangular: true },
        Candidate { rect: r(115, 0, 300, 80), rectangular: true },
        Candidate { rect: r(400, 400, 420, 900), rectangular: true },
        Candidate { rect: r(600, 600, 700, 700), rectangular: true },
    ];
    let min_area = 5000;
    let boxes = merge_overlapping_rects(select_candidates(&cands, min_area, 1_000_000));
    assert_eq!(boxes, vec![r(0, 0, 300, 80), r(600, 600, 700, 700)]);
    for b in &boxes {
        assert!(b.width() >= MIN_DIMENSION && b.height() >= MIN_DIMENSION);
        assert!(b.area() >= min_area as u64);
    }
}
