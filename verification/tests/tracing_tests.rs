use cropgun::detection::{at_least_area, dark_object_boxes, invert_pixels, traced_boxes};
use cropgun::detection::{close_edges, outer_contour_boxes, trace_outlines};
use cropgun::geometry::{contains_rect, first_position, Rect};

fn image(width: usize, height: usize, lit: &[(usize, usize)], value: u8) -> Vec<u8> {
    let mut pixels = vec![0u8; width * height];
    for &(x, y) in lit {
        pixels[y * width + x] = value;
    }
    pixels
}

#[test]
fn closing_fills_a_small_image() {
    let edges = image(5, 5, &[(2, 2)], 255);
    let closing = close_edges(5, 5, &edges);
    assert_ne!(closing.dilated, edges);
    assert!(closing.dilated.iter().all(|&p| p == 255));
    assert_eq!(closing.closed.len(), 25);
    assert_eq!(closing.cleaned.len(), 25);
}

#[test]
fn closing_keeps_far_pixels_dark() {
    // a single edge pixel in a wide image: pixels more than 25 steps away stay dark
    let edges = image(80, 1, &[(0, 0)], 255);
    let closing = close_edges(80, 1, &edges);
    assert_eq!(closing.dilated[25], 255);
    assert_eq!(closing.dilated[26], 0);
}

#[test]
fn outer_boxes_of_a_block() {
    let lit: Vec<(usize, usize)> = (1..4).flat_map(|x| (1..3).map(move |y| (x, y))).collect();
    let pixels = image(6, 5, &lit, 200);
    let boxes = outer_contour_boxes(6, 5, &pixels);
    assert_eq!(boxes.len(), 1);
    assert_eq!(boxes[0].0, Rect::new(1, 1, 3, 2));
    assert!(boxes[0].1 >= 4 && boxes[0].1 <= 6);
}

#[test]
fn outer_boxes_leave_out_holes() {
    let mut lit = Vec::new();
    for x in 1..6 {
        for y in 1..6 {
            if !(x == 3 && y == 3) {
                lit.push((x, y));
            }
        }
    }
    let pixels = image(7, 7, &lit, 255);
    let boxes = outer_contour_boxes(7, 7, &pixels);
    assert_eq!(boxes.len(), 1);
    assert_eq!(boxes[0].0, Rect::new(1, 1, 5, 5));
}

#[test]
fn tracing_threshold_is_strict() {
    let pixels = image(4, 4, &[(1, 1)], 128);
    assert!(outer_contour_boxes(4, 4, &pixels).is_empty());
    let pixels = image(4, 4, &[(1, 1)], 129);
    let boxes = outer_contour_boxes(4, 4, &pixels);
    assert_eq!(boxes, vec![(Rect::new(1, 1, 1, 1), 1)]);
}

#[test]
fn outlines_of_an_edge_image() {
    let edges = image(90, 60, &[(60, 30), (61, 30)], 255);
    let outlines = trace_outlines(90, 60, &edges);
    let closing = close_edges(90, 60, &edges);
    assert_eq!(outlines.closing.cleaned, closing.cleaned);
    assert_eq!(outlines.boxes, outer_contour_boxes(90, 60, &closing.cleaned));
}

#[test]
fn rect_lookup() {
    let rects = vec![Rect::new(0, 0, 5, 5), Rect::new(1, 1, 9, 9), Rect::new(0, 0, 5, 5)];
    assert!(contains_rect(&rects, &Rect::new(1, 1, 9, 9)));
    assert!(!contains_rect(&rects, &Rect::new(1, 1, 9, 8)));
    assert_eq!(first_position(&rects, &Rect::new(0, 0, 5, 5)), Some(0));
    assert_eq!(first_position(&rects, &Rect::new(1, 1, 9, 9)), Some(1));
    assert_eq!(first_position(&rects, &Rect::new(2, 2, 3, 3)), None);
}

#[test]
fn inverting_pixels() {
    assert_eq!(invert_pixels(&vec![0, 15, 128, 255]), vec![255, 240, 127, 0]);
    assert!(invert_pixels(&vec![]).is_empty());
}

#[test]
fn traced_boxes_keep_holes() {
    let mut lit = Vec::new();
    for x in 1..6 {
        for y in 1..6 {
            if !(x == 3 && y == 3) {
                lit.push((x, y));
            }
        }
    }
    let pixels = image(7, 7, &lit, 255);
    let boxes = traced_boxes(7, 7, &pixels, 0);
    assert_eq!(boxes.len(), 2);
    assert_eq!(boxes[0], Rect::new(1, 1, 5, 5));
    for b in &boxes {
        assert!(b.max_x < 7 && b.max_y < 7);
    }
}

#[test]
fn dark_objects_on_a_light_scan() {
    // a white page with a dark 3 x 2 block
    let mut pixels = vec![255u8; 8 * 6];
    for x in 2..5 {
        for y in 2..4 {
            pixels[y * 8 + x] = 10;
        }
    }
    let boxes = dark_object_boxes(8, 6, &pixels);
    assert_eq!(boxes, vec![Rect::new(2, 2, 4, 3)]);
    // a page of grey 241 (inverted 14) shows nothing
    assert!(dark_object_boxes(4, 4, &vec![241u8; 16]).is_empty());
}

#[test]
fn boxes_below_the_area_are_dropped() {
    let rects = vec![Rect::new(0, 0, 10, 10), Rect::new(0, 0, 2, 2), Rect::new(5, 5, 15, 14)];
    assert_eq!(at_least_area(&rects, 90), vec![Rect::new(0, 0, 10, 10), Rect::new(5, 5, 15, 14)]);
    assert_eq!(at_least_area(&rects, 100), vec![Rect::new(0, 0, 10, 10)]);
    assert_eq!(at_least_area(&rects, 0).len(), 3);
}
