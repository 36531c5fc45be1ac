//! From contour outlines to the boxes of the detected photographs.

use vstd::prelude::*;
use crate::geometry::{Rect, hull_of, is_merge_of, merge_witness, min_u32, max_u32};

verus! {

/// Photographs narrower or lower than this many pixels are not kept.
pub const MIN_DIMENSION: u32 = 50;

/// The rectangle spanned by the points seen so far, grown to take in one
/// more point.
pub open spec fn take_in(r: Rect, p: (u32, u32)) -> Rect {
    Rect {
        min_x: min_u32(r.min_x, p.0),
        min_y: min_u32(r.min_y, p.1),
        max_x: max_u32(r.max_x, p.0),
        max_y: max_u32(r.max_y, p.1),
    }
}

/// The bounding rectangle of a non-empty list of points: the first point,
/// grown by each following point in turn.
pub open spec fn bounds_of(points: Seq<(u32, u32)>) -> Rect
    decreases points.len(),
{
    if points.len() <= 1 {
        Rect { min_x: points[0].0, min_y: points[0].1, max_x: points[0].0, max_y: points[0].1 }
    } else {
        take_in(bounds_of(points.drop_last()), points.last())
    }
}

/// `geo`'s bounding rectangle of a point set (`BoundingRect` on a
/// `MultiPoint`). The contract claims what `get_bounding_rect` in
/// `geo-types` does: nothing for no points, otherwise the per-axis minimum
/// and maximum over the points, collected in list order.
#[verifier::external_body]
fn geo_bounding_rect(points: &Vec<(u32, u32)>) -> (r: Option<Rect>)
    ensures
        points.len() == 0 ==> r is None,
        points.len() > 0 ==> r == Some(bounds_of(points@)),
{
    let multi = geo::MultiPoint::<u32>::from(points.clone());
    match geo::BoundingRect::bounding_rect(&multi) {
        Some(b) => Some(Rect { min_x: b.min().x, min_y: b.min().y, max_x: b.max().x, max_y: b.max().y }),
        None => None,
    }
}

proof fn lemma_bounds_of_wf(points: Seq<(u32, u32)>)
    requires
        points.len() > 0,
    ensures
        bounds_of(points).wf(),
        forall|t: int| 0 <= t < points.len() ==> {
            let b = bounds_of(points);
            b.min_x <= (#[trigger] points[t]).0 <= b.max_x && b.min_y <= points[t].1 <= b.max_y
        },
    decreases points.len(),
{
    if points.len() > 1 {
        lemma_bounds_of_wf(points.drop_last());
        assert forall|t: int| 0 <= t < points.len() - 1 implies points.drop_last()[t] == #[trigger] points[t] by {}
    }
}

/// Points inside a `width` x `height` image have a bounding box inside it.
pub proof fn lemma_bounds_of_inside(points: Seq<(u32, u32)>, width: u32, height: u32)
    requires
        points.len() > 0,
        forall|t: int| 0 <= t < points.len() ==> (#[trigger] points[t]).0 < width && points[t].1 < height,
    ensures
        bounds_of(points).max_x < width,
        bounds_of(points).max_y < height,
    decreases points.len(),
{
    if points.len() > 1 {
        let front = points.drop_last();
        assert forall|t: int| 0 <= t < front.len() implies (#[trigger] front[t]).0 < width && front[t].1 < height by {
            assert(front[t] == points[t]);
        }
        lemma_bounds_of_inside(front, width, height);
        assert(points.last() == points[points.len() - 1]);
    }
}

/// The bounding box of a contour's points.
pub fn contour_bounding_rect(points: &Vec<(u32, u32)>) -> (r: Rect)
    requires
        points.len() > 0,
    ensures
        r == bounds_of(points@),
        r.wf(),
        forall|t: int| 0 <= t < points.len() ==>
            r.min_x <= (#[trigger] points@[t]).0 <= r.max_x && r.min_y <= points@[t].1 <= r.max_y,
{
    proof {
        lemma_bounds_of_wf(points@);
    }
    match geo_bounding_rect(points) {
        Some(r) => r,
        None => {
            assert(false);
            Rect { min_x: 0, min_y: 0, max_x: 0, max_y: 0 }
        },
    }
}

/// One outer contour found in the edge image, as the selection sees it:
/// its bounding box, and whether its shape was judged rectangular enough.
#[derive(Debug, Clone, Copy, PartialEq, Eq)]
pub struct Candidate {
    pub rect: Rect,
    pub rectangular: bool,
}

/// Whether a candidate is kept as a photograph: judged rectangular, at least `MIN_DIMENSION` on each side, and with an area
/// between `min_area` and `max_area`.
pub open spec fn keeps(c: Candidate, min_area: int, max_area: int) -> bool {
    &&& c.rectangular
    &&& c.rect.spec_area() >= min_area
    &&& c.rect.spec_area() <= max_area
    &&& c.rect.spec_width() >= MIN_DIMENSION
    &&& c.rect.spec_height() >= MIN_DIMENSION
}

/// The boxes of the kept candidates, in candidate order.
pub open spec fn kept_rects(cands: Seq<Candidate>, min_area: int, max_area: int) -> Seq<Rect>
    decreases cands.len(),
{
    if cands.len() == 0 {
        Seq::empty()
    } else {
        let front = kept_rects(cands.drop_last(), min_area, max_area);
        if keeps(cands.last(), min_area, max_area) {
            front.push(cands.last().rect)
        } else {
            front
        }
    }
}

/// `r` is the box of some kept candidate.
pub open spec fn from_kept(cands: Seq<Candidate>, min_area: int, max_area: int, r: Rect) -> bool {
    exists|i: int| 0 <= i < cands.len() && keeps(#[trigger] cands[i], min_area, max_area) && cands[i].rect == r
}

proof fn lemma_kept_rects_props(cands: Seq<Candidate>, min_area: int, max_area: int)
    requires
        forall|i: int| 0 <= i < cands.len() ==> (#[trigger] cands[i]).rect.wf(),
    ensures
        forall|k: int| 0 <= k < kept_rects(cands, min_area, max_area).len() ==>
            from_kept(cands, min_area, max_area, #[trigger] kept_rects(cands, min_area, max_area)[k]),
    decreases cands.len(),
{
    if cands.len() > 0 {
        let front = cands.drop_last();
        assert forall|i: int| 0 <= i < front.len() implies (#[trigger] front[i]).rect.wf() by {
            assert(front[i] == cands[i]);
        }
        lemma_kept_rects_props(front, min_area, max_area);
        let kr = kept_rects(cands, min_area, max_area);
        let fr = kept_rects(front, min_area, max_area);
        assert forall|k: int| 0 <= k < kr.len() implies from_kept(cands, min_area, max_area, #[trigger] kr[k]) by {
            if k < fr.len() {
                assert(kr[k] == fr[k]);
                assert(from_kept(front, min_area, max_area, fr[k]));
                let i = choose|i: int| 0 <= i < front.len() && keeps(#[trigger] front[i], min_area, max_area)
                    && front[i].rect == fr[k];
                assert(cands[i] == front[i]);
            } else {
                let i = cands.len() - 1;
                assert(cands[i] == cands.last());
            }
        }
    }
}

/// Picks the boxes of the candidates that pass the shape and size tests, in
/// the order the contours were found.
pub fn select_candidates(candidates: &Vec<Candidate>, min_area: u32, max_area: u32) -> (rects: Vec<Rect>)
    requires
        forall|i: int| 0 <= i < candidates.len() ==> (#[trigger] candidates[i]).rect.wf(),
    ensures
        rects@ == kept_rects(candidates@, min_area as int, max_area as int),
        forall|k: int| 0 <= k < rects.len() ==> (#[trigger] rects[k]).wf(),
{
    let mut rects: Vec<Rect> = Vec::new();
    for i in 0..candidates.len()
        invariant
            forall|x: int| 0 <= x < candidates.len() ==> (#[trigger] candidates[x]).rect.wf(),
            rects@ == kept_rects(candidates@.take(i as int), min_area as int, max_area as int),
            forall|k: int| 0 <= k < rects.len() ==> (#[trigger] rects[k]).wf(),
    {
        let c = candidates[i];
        assert(candidates@.take(i + 1).drop_last() =~= candidates@.take(i as int));
        let area = c.rect.area();
        let kept = c.rectangular && area >= min_area as u64 && area <= max_area as u64
            && c.rect.width() >= MIN_DIMENSION && c.rect.height() >= MIN_DIMENSION;
        if kept {
            rects.push(c.rect);
        }
    }
    assert(candidates@.take(candidates.len() as int) =~= candidates@);
    rects
}

/// Every box that detection reports, after merging, is at least
/// `MIN_DIMENSION` pixels on each side and at least `min_area` in area.
pub proof fn detected_boxes_meet_minimums(cands: Seq<Candidate>, min_area: int, max_area: int, out: Seq<Rect>, k: int)
    requires
        forall|i: int| 0 <= i < cands.len() ==> (#[trigger] cands[i]).rect.wf(),
        is_merge_of(kept_rects(cands, min_area, max_area), out),
        0 <= k < out.len(),
    ensures
        out[k].spec_width() >= MIN_DIMENSION,
        out[k].spec_height() >= MIN_DIMENSION,
        out[k].spec_area() >= min_area,
{
    let rects = kept_rects(cands, min_area, max_area);
    let (groups, order) = choose|groups: Seq<int>, order: Seq<Seq<int>>|
        merge_witness(rects, out, groups, order);
    lemma_kept_rects_props(cands, min_area, max_area);
    assert(order[k].len() > 0);
    let j = order[k][0];
    assert(0 <= j < rects.len());
    assert(from_kept(cands, min_area, max_area, rects[j]));
    assert forall|x: int| 0 <= x < rects.len() implies (#[trigger] rects[x]).wf() by {
        assert(from_kept(cands, min_area, max_area, rects[x]));
        let y = choose|y: int| 0 <= y < cands.len() && keeps(#[trigger] cands[y], min_area, max_area)
            && cands[y].rect == rects[x];
    }
    assert forall|u: int| 0 <= u < order[k].len() implies 0 <= #[trigger] order[k][u] < rects.len() by {}
    crate::geometry::lemma_hull_of_encloses(rects, order[k]);
    let i = choose|i: int| 0 <= i < cands.len() && keeps(#[trigger] cands[i], min_area, max_area)
        && cands[i].rect == rects[j];
    let b = out[k];
    let r = rects[j];
    assert(b.encloses(r));
    let (bw, bh, rw, rh) = (b.spec_width(), b.spec_height(), r.spec_width(), r.spec_height());
    assert(bw * bh >= rw * rh) by (nonlinear_arith)
        requires
            bw >= rw >= 0,
            bh >= rh >= 0,
    ;
}

/// The L1 dilation by radius `k` of a grey image (row-major `pixels`), as
/// `imageproc::morphology::dilate` computes it.
pub uninterp spec fn dilated_l1(width: u32, height: u32, pixels: Seq<u8>, k: u8) -> Seq<u8>;

/// The L1 erosion by radius `k` of a grey image, as
/// `imageproc::morphology::erode` computes it.
pub uninterp spec fn eroded_l1(width: u32, height: u32, pixels: Seq<u8>, k: u8) -> Seq<u8>;

/// The contours that `imageproc::contours::find_contours_with_threshold`
/// traces in a grey image, in tracing order: whether each outlines a hole,
/// and its points.
pub uninterp spec fn contours_of(width: u32, height: u32, pixels: Seq<u8>, threshold: u8) -> Seq<(bool, Seq<(u32, u32)>)>;

/// `imageproc::morphology::dilate` with the L1 norm. The contract claims
/// that the pixels are the named `dilated_l1` of the input, and that the
/// image keeps its size (the function works on a clone of its input).
/// The distance transform adds width and height as `u32`, hence the bound
/// on their sum.
#[verifier::external_body]
fn dilate_l1(width: u32, height: u32, pixels: &Vec<u8>, k: u8) -> (r: Vec<u8>)
    requires
        pixels.len() == width as int * height as int,
        width as int + height as int <= u32::MAX,
    ensures
        r@ == dilated_l1(width, height, pixels@, k),
        r.len() == pixels.len(),
{
    let image = image::GrayImage::from_raw(width, height, pixels.clone()).unwrap();
    imageproc::morphology::dilate(&image, imageproc::distance_transform::Norm::L1, k).into_raw()
}

/// `imageproc::morphology::erode` with the L1 norm. The contract claims
/// that the pixels are the named `eroded_l1` of the input, and that the
/// image keeps its size. The distance transform adds width and height as
/// `u32`, hence the bound on their sum.
#[verifier::external_body]
fn erode_l1(width: u32, height: u32, pixels: &Vec<u8>, k: u8) -> (r: Vec<u8>)
    requires
        pixels.len() == width as int * height as int,
        width as int + height as int <= u32::MAX,
    ensures
        r@ == eroded_l1(width, height, pixels@, k),
        r.len() == pixels.len(),
{
    let image = image::GrayImage::from_raw(width, height, pixels.clone()).unwrap();
    imageproc::morphology::erode(&image, imageproc::distance_transform::Norm::L1, k).into_raw()
}

/// `imageproc::contours::find_contours_with_threshold` (points as `u32`).
/// The contract claims that the result is the named `contours_of` of the
/// image and threshold, that every traced contour has at least one point
/// (the tracing pushes a point before it records a contour), and that every
/// point lies inside the image (only in-bounds pixels are followed). The
/// tracing converts coordinates to `i32` and fails beyond `i32::MAX`,
/// hence the bounds on the size.
#[verifier::external_body]
fn find_contours(width: u32, height: u32, pixels: &Vec<u8>, threshold: u8) -> (r: Vec<(bool, Vec<(u32, u32)>)>)
    requires
        pixels.len() == width as int * height as int,
        width <= i32::MAX,
        height <= i32::MAX,
    ensures
        r@.map_values(|c: (bool, Vec<(u32, u32)>)| (c.0, c.1@)) == contours_of(width, height, pixels@, threshold),
        forall|i: int| 0 <= i < r.len() ==> (#[trigger] r@[i]).1.len() > 0,
        forall|i: int, t: int| 0 <= i < r.len() && 0 <= t < r@[i].1.len() ==>
            (#[trigger] r@[i].1@[t]).0 < width && r@[i].1@[t].1 < height,
{
    let image = image::GrayImage::from_raw(width, height, pixels.clone()).unwrap();
    let mut out = Vec::new();
    for c in imageproc::contours::find_contours_with_threshold::<u32>(&image, threshold) {
        let hole = match c.border_type {
            imageproc::contours::BorderType::Hole => true,
            imageproc::contours::BorderType::Outer => false,
        };
        out.push((hole, c.points.iter().map(|p| (p.x, p.y)).collect()));
    }
    out
}

/// Radius of the dilation and of the erosion that close gaps in edges.
pub const CLOSING_RADIUS: u8 = 25;

/// Radius of the last small dilation that widens the closed boundaries.
pub const WIDENING_RADIUS: u8 = 2;

/// Pixels brighter than this belong to a traced region.
pub const CONTOUR_THRESHOLD: u8 = 128;

/// The stages of closing an edge image: dilated, then eroded by the same
/// radius (closed), then slightly dilated again (cleaned).
pub struct ClosedEdges {
    pub dilated: Vec<u8>,
    pub closed: Vec<u8>,
    pub cleaned: Vec<u8>,
}

/// Closes the gaps in the boundaries of an edge image (row-major pixels of
/// `width` x `height`): L1 dilation by `CLOSING_RADIUS`, erosion by the
/// same radius, then dilation by `WIDENING_RADIUS`.
pub fn close_edges(width: u32, height: u32, edges: &Vec<u8>) -> (r: ClosedEdges)
    requires
        edges.len() == width as int * height as int,
        width as int + height as int <= u32::MAX,
    ensures
        r.dilated@ == dilated_l1(width, height, edges@, CLOSING_RADIUS),
        r.closed@ == eroded_l1(width, height, r.dilated@, CLOSING_RADIUS),
        r.cleaned@ == dilated_l1(width, height, r.closed@, WIDENING_RADIUS),
        r.dilated.len() == edges.len(),
        r.closed.len() == edges.len(),
        r.cleaned.len() == edges.len(),
{
    let dilated = dilate_l1(width, height, edges, CLOSING_RADIUS);
    let closed = erode_l1(width, height, &dilated, CLOSING_RADIUS);
    let cleaned = dilate_l1(width, height, &closed, WIDENING_RADIUS);
    ClosedEdges { dilated, closed, cleaned }
}

/// The bounding box and point count of each outer contour (holes left
/// out), in tracing order.
pub open spec fn outer_boxes(contours: Seq<(bool, Seq<(u32, u32)>)>) -> Seq<(Rect, usize)>
    decreases contours.len(),
{
    if contours.len() == 0 {
        Seq::empty()
    } else {
        let front = outer_boxes(contours.drop_last());
        let c = contours.last();
        if c.0 {
            front
        } else {
            front.push((bounds_of(c.1), c.1.len() as usize))
        }
    }
}

/// Traces the regions brighter than `CONTOUR_THRESHOLD` in a closed edge
/// image and gives, for each outer boundary, its bounding box and its
/// number of points.
pub fn outer_contour_boxes(width: u32, height: u32, cleaned: &Vec<u8>) -> (boxes: Vec<(Rect, usize)>)
    requires
        cleaned.len() == width as int * height as int,
        width <= i32::MAX,
        height <= i32::MAX,
    ensures
        boxes@ == outer_boxes(contours_of(width, height, cleaned@, CONTOUR_THRESHOLD)),
        forall|i: int| 0 <= i < boxes.len() ==> (#[trigger] boxes@[i]).0.wf()
            && boxes@[i].0.max_x < width && boxes@[i].0.max_y < height,
        boxes.len() == outer_contours(contours_of(width, height, cleaned@, CONTOUR_THRESHOLD)).len(),
        forall|i: int| 0 <= i < boxes.len() ==> {
            let c = outer_contours(contours_of(width, height, cleaned@, CONTOUR_THRESHOLD))[i];
            is_bounding_box((#[trigger] boxes@[i]).0, c.1) && boxes@[i].1 == c.1.len()
        },
{
    let contours = find_contours(width, height, cleaned, CONTOUR_THRESHOLD);
    let ghost traced = contours@.map_values(|c: (bool, Vec<(u32, u32)>)| (c.0, c.1@));
    let mut boxes: Vec<(Rect, usize)> = Vec::new();
    for i in 0..contours.len()
        invariant
            traced == contours@.map_values(|c: (bool, Vec<(u32, u32)>)| (c.0, c.1@)),
            forall|j: int| 0 <= j < contours.len() ==> (#[trigger] contours@[j]).1.len() > 0,
            boxes@ == outer_boxes(traced.take(i as int)),
            forall|j: int, t: int| 0 <= j < contours.len() && 0 <= t < contours@[j].1.len() ==>
                (#[trigger] contours@[j].1@[t]).0 < width && contours@[j].1@[t].1 < height,
            forall|j: int| 0 <= j < boxes.len() ==> (#[trigger] boxes@[j]).0.wf()
                && boxes@[j].0.max_x < width && boxes@[j].0.max_y < height,
    {
        proof {
            assert(traced.take(i + 1).drop_last() =~= traced.take(i as int));
            assert(traced.take(i + 1).last() == traced[i as int]);
        }
        let hole = contours[i].0;
        if !hole {
            let points = &contours[i].1;
            let rect = contour_bounding_rect(points);
            proof {
                lemma_bounds_of_inside(points@, width, height);
            }
            boxes.push((rect, points.len()));
        }
    }
    proof {
        assert(traced.take(contours.len() as int) =~= traced);
        assert forall|i: int| 0 <= i < traced.len() implies (#[trigger] traced[i]).1.len() > 0
            && traced[i].1.len() <= usize::MAX by {
            assert(traced[i].1 == contours@[i].1@);
        }
        one_box_per_outer_contour(traced);
    }
    boxes
}

/// What edge tracing gives: the closing stages and the outer contours of
/// the cleaned image.
pub struct EdgeOutlines {
    pub closing: ClosedEdges,
    pub boxes: Vec<(Rect, usize)>,
}

/// Closes the gaps in an edge image and traces the outer boundaries of the
/// result, each as its bounding box and point count.
pub fn trace_outlines(width: u32, height: u32, edges: &Vec<u8>) -> (r: EdgeOutlines)
    requires
        edges.len() == width as int * height as int,
        width as int + height as int <= u32::MAX,
        width <= i32::MAX,
        height <= i32::MAX,
    ensures
        r.closing.dilated@ == dilated_l1(width, height, edges@, CLOSING_RADIUS),
        r.closing.closed@ == eroded_l1(width, height, r.closing.dilated@, CLOSING_RADIUS),
        r.closing.cleaned@ == dilated_l1(width, height, r.closing.closed@, WIDENING_RADIUS),
        r.boxes@ == outer_boxes(contours_of(width, height, r.closing.cleaned@, CONTOUR_THRESHOLD)),
        forall|i: int| 0 <= i < r.boxes.len() ==> (#[trigger] r.boxes@[i]).0.wf()
            && r.boxes@[i].0.max_x < width && r.boxes@[i].0.max_y < height,
        r.boxes.len() == outer_contours(contours_of(width, height, r.closing.cleaned@, CONTOUR_THRESHOLD)).len(),
        forall|i: int| 0 <= i < r.boxes.len() ==> {
            let c = outer_contours(contours_of(width, height, r.closing.cleaned@, CONTOUR_THRESHOLD))[i];
            is_bounding_box((#[trigger] r.boxes@[i]).0, c.1) && r.boxes@[i].1 == c.1.len()
        },
{
    let closing = close_edges(width, height, edges);
    let boxes = outer_contour_boxes(width, height, &closing.cleaned);
    EdgeOutlines { closing, boxes }
}

/// Each grey level turned into its negative, as `image::imageops::invert`
/// does to a grey image.
pub open spec fn inverted(pixels: Seq<u8>) -> Seq<u8> {
    Seq::new(pixels.len(), |i: int| (255 - pixels[i]) as u8)
}

/// Inverts a grey image, so that dark objects on a light scan become bright.
pub fn invert_pixels(p: &Vec<u8>) -> (r: Vec<u8>)
    ensures
        r.len() == p.len(),
        forall|i: int| 0 <= i < p.len() ==> #[trigger] r@[i] == 255 - p@[i],
        r@ == inverted(p@),
{
    let mut r: Vec<u8> = Vec::new();
    for i in 0..p.len()
        invariant
            r.len() == i,
            forall|j: int| 0 <= j < i ==> #[trigger] r@[j] == 255 - p@[j],
    {
        r.push(255 - p[i]);
    }
    assert(r@ =~= inverted(p@));
    r
}

/// The bounding box of every traced contour, holes included, in tracing
/// order.
pub open spec fn all_boxes(contours: Seq<(bool, Seq<(u32, u32)>)>) -> Seq<Rect>
    decreases contours.len(),
{
    if contours.len() == 0 {
        Seq::empty()
    } else {
        all_boxes(contours.drop_last()).push(bounds_of(contours.last().1))
    }
}

/// Traces the regions brighter than `threshold` and gives the bounding box
/// of every contour, outer boundaries and holes alike.
pub fn traced_boxes(width: u32, height: u32, pixels: &Vec<u8>, threshold: u8) -> (b: Vec<Rect>)
    requires
        pixels.len() == width as int * height as int,
        width <= i32::MAX,
        height <= i32::MAX,
    ensures
        b@ == all_boxes(contours_of(width, height, pixels@, threshold)),
        forall|i: int| 0 <= i < b.len() ==> (#[trigger] b@[i]).wf() && b@[i].max_x < width
            && b@[i].max_y < height,
        b.len() == contours_of(width, height, pixels@, threshold).len(),
        forall|i: int| 0 <= i < b.len() ==> is_bounding_box(#[trigger] b@[i], contours_of(width, height, pixels@, threshold)[i].1),
{
    let contours = find_contours(width, height, pixels, threshold);
    let ghost traced = contours@.map_values(|c: (bool, Vec<(u32, u32)>)| (c.0, c.1@));
    let mut boxes: Vec<Rect> = Vec::new();
    for i in 0..contours.len()
        invariant
            traced == contours@.map_values(|c: (bool, Vec<(u32, u32)>)| (c.0, c.1@)),
            forall|j: int| 0 <= j < contours.len() ==> (#[trigger] contours@[j]).1.len() > 0,
            forall|j: int, t: int| 0 <= j < contours.len() && 0 <= t < contours@[j].1.len() ==>
                (#[trigger] contours@[j].1@[t]).0 < width && contours@[j].1@[t].1 < height,
            boxes@ == all_boxes(traced.take(i as int)),
            forall|j: int| 0 <= j < boxes.len() ==> (#[trigger] boxes@[j]).wf() && boxes@[j].max_x < width
                && boxes@[j].max_y < height,
    {
        proof {
            assert(traced.take(i + 1).drop_last() =~= traced.take(i as int));
            assert(traced.take(i + 1).last() == traced[i as int]);
        }
        let points = &contours[i].1;
        let rect = contour_bounding_rect(points);
        proof {
            lemma_bounds_of_inside(points@, width, height);
        }
        boxes.push(rect);
    }
    proof {
        assert(traced.take(contours.len() as int) =~= traced);
        assert forall|i: int| 0 <= i < traced.len() implies (#[trigger] traced[i]).1.len() > 0 by {
            assert(traced[i].1 == contours@[i].1@);
        }
        one_box_per_contour(traced);
    }
    boxes
}

/// Pixels of the inverted image brighter than this belong to an object.
pub const INVERTED_THRESHOLD: u8 = 15;

/// The boxes of the dark objects of a blurred scan: the image is inverted
/// and every contour of the regions brighter than `INVERTED_THRESHOLD`,
/// holes included, gives its bounding box.
pub fn dark_object_boxes(width: u32, height: u32, blurred: &Vec<u8>) -> (b: Vec<Rect>)
    requires
        blurred.len() == width as int * height as int,
        width <= i32::MAX,
        height <= i32::MAX,
    ensures
        b@ == all_boxes(contours_of(width, height, inverted(blurred@), INVERTED_THRESHOLD)),
        forall|i: int| 0 <= i < b.len() ==> (#[trigger] b@[i]).wf() && b@[i].max_x < width
            && b@[i].max_y < height,
        b.len() == contours_of(width, height, inverted(blurred@), INVERTED_THRESHOLD).len(),
        forall|i: int| 0 <= i < b.len() ==> is_bounding_box(#[trigger] b@[i],
            contours_of(width, height, inverted(blurred@), INVERTED_THRESHOLD)[i].1),
{
    let inverted_pixels = invert_pixels(blurred);
    traced_boxes(width, height, &inverted_pixels, INVERTED_THRESHOLD)
}

/// Keeps the boxes whose area is at least `min_area`, in order.
pub fn at_least_area(rects: &Vec<Rect>, min_area: u32) -> (k: Vec<Rect>)
    requires
        forall|i: int| 0 <= i < rects.len() ==> (#[trigger] rects@[i]).wf(),
    ensures
        k@ == rects@.filter(|r: Rect| r.spec_area() >= min_area),
{
    let ghost keep = |r: Rect| r.spec_area() >= min_area;
    let mut k: Vec<Rect> = Vec::new();
    for i in 0..rects.len()
        invariant
            forall|j: int| 0 <= j < rects.len() ==> (#[trigger] rects@[j]).wf(),
            keep == (|r: Rect| r.spec_area() >= min_area),
            k@ == rects@.take(i as int).filter(keep),
    {
        proof {
            reveal_with_fuel(Seq::<_>::filter, 1);
            assert(rects@.take(i + 1).drop_last() =~= rects@.take(i as int));
        }
        let r = rects[i];
        if r.area() >= min_area as u64 {
            k.push(r);
        }
    }
    proof {
        assert(rects@.take(rects.len() as int) =~= rects@);
    }
    k
}

} // verus!

verus! {

/// `r` is the bounding box of the points `pts`: it holds every point, and
/// each of its four sides passes through one of them.
pub open spec fn is_bounding_box(r: Rect, pts: Seq<(u32, u32)>) -> bool {
    &&& forall|t: int| 0 <= t < pts.len() ==> r.min_x <= (#[trigger] pts[t]).0 <= r.max_x
        && r.min_y <= pts[t].1 <= r.max_y
    &&& exists|t: int| 0 <= t < pts.len() && (#[trigger] pts[t]).0 == r.min_x
    &&& exists|t: int| 0 <= t < pts.len() && (#[trigger] pts[t]).1 == r.min_y
    &&& exists|t: int| 0 <= t < pts.len() && (#[trigger] pts[t]).0 == r.max_x
    &&& exists|t: int| 0 <= t < pts.len() && (#[trigger] pts[t]).1 == r.max_y
}

/// The fold `bounds_of` is the bounding box of its points.
pub proof fn bounds_of_is_bounding_box(pts: Seq<(u32, u32)>)
    requires
        pts.len() > 0,
    ensures
        is_bounding_box(bounds_of(pts), pts),
    decreases pts.len(),
{
    lemma_bounds_of_wf(pts);
    let b = bounds_of(pts);
    if pts.len() == 1 {
        assert(pts[0].0 == b.min_x && pts[0].1 == b.min_y && pts[0].0 == b.max_x && pts[0].1 == b.max_y);
    } else {
        let front = pts.drop_last();
        let last = pts.len() - 1;
        bounds_of_is_bounding_box(front);
        let f = bounds_of(front);
        let t1 = choose|t: int| 0 <= t < front.len() && (#[trigger] front[t]).0 == f.min_x;
        let t2 = choose|t: int| 0 <= t < front.len() && (#[trigger] front[t]).1 == f.min_y;
        let t3 = choose|t: int| 0 <= t < front.len() && (#[trigger] front[t]).0 == f.max_x;
        let t4 = choose|t: int| 0 <= t < front.len() && (#[trigger] front[t]).1 == f.max_y;
        assert(front[t1] == pts[t1] && front[t2] == pts[t2] && front[t3] == pts[t3] && front[t4] == pts[t4]);
        assert(pts.last() == pts[last]);
        if b.min_x == f.min_x { assert(pts[t1].0 == b.min_x); } else { assert(pts[last].0 == b.min_x); }
        if b.min_y == f.min_y { assert(pts[t2].1 == b.min_y); } else { assert(pts[last].1 == b.min_y); }
        if b.max_x == f.max_x { assert(pts[t3].0 == b.max_x); } else { assert(pts[last].0 == b.max_x); }
        if b.max_y == f.max_y { assert(pts[t4].1 == b.max_y); } else { assert(pts[last].1 == b.max_y); }
    }
}

/// Tracing every contour gives exactly one box per contour, in tracing
/// order, and the box of contour `i` is the bounding box of its points,
/// wherever the contour lies in the image.
pub proof fn one_box_per_contour(contours: Seq<(bool, Seq<(u32, u32)>)>)
    requires
        forall|i: int| 0 <= i < contours.len() ==> (#[trigger] contours[i]).1.len() > 0,
    ensures
        all_boxes(contours).len() == contours.len(),
        forall|i: int| 0 <= i < contours.len() ==> is_bounding_box(#[trigger] all_boxes(contours)[i], contours[i].1),
    decreases contours.len(),
{
    if contours.len() > 0 {
        let front = contours.drop_last();
        assert forall|i: int| 0 <= i < front.len() implies (#[trigger] front[i]).1.len() > 0 by {
            assert(front[i] == contours[i]);
        }
        one_box_per_contour(front);
        let last = contours.len() - 1;
        assert(contours.last() == contours[last]);
        bounds_of_is_bounding_box(contours[last].1);
        assert forall|i: int| 0 <= i < contours.len() implies is_bounding_box(#[trigger] all_boxes(contours)[i], contours[i].1) by {
            if i < last {
                assert(front[i] == contours[i]);
                assert(all_boxes(contours)[i] == all_boxes(front)[i]);
            }
        }
    }
}

/// The contours that outline regions rather than holes, in tracing order.
pub open spec fn outer_contours(contours: Seq<(bool, Seq<(u32, u32)>)>) -> Seq<(bool, Seq<(u32, u32)>)> {
    contours.filter(|c: (bool, Seq<(u32, u32)>)| !c.0)
}

/// Tracing outer contours gives exactly one entry per contour that is not
/// a hole, in tracing order: the `i`-th entry is the bounding box and the
/// point count of the `i`-th such contour.
pub proof fn one_box_per_outer_contour(contours: Seq<(bool, Seq<(u32, u32)>)>)
    requires
        forall|i: int| 0 <= i < contours.len() ==> (#[trigger] contours[i]).1.len() > 0
            && contours[i].1.len() <= usize::MAX,
    ensures
        outer_boxes(contours).len() == outer_contours(contours).len(),
        forall|i: int| 0 <= i < outer_contours(contours).len() ==> {
            &&& is_bounding_box((#[trigger] outer_boxes(contours)[i]).0, outer_contours(contours)[i].1)
            &&& outer_boxes(contours)[i].1 == outer_contours(contours)[i].1.len()
        },
    decreases contours.len(),
{
    reveal_with_fuel(Seq::<_>::filter, 1);
    if contours.len() > 0 {
        let front = contours.drop_last();
        assert forall|i: int| 0 <= i < front.len() implies (#[trigger] front[i]).1.len() > 0
            && front[i].1.len() <= usize::MAX by {
            assert(front[i] == contours[i]);
        }
        one_box_per_outer_contour(front);
        let last = contours.len() - 1;
        assert(contours.last() == contours[last]);
        let oc = outer_contours(contours);
        let of = outer_contours(front);
        assert(oc == if !contours.last().0 { of.push(contours.last()) } else { of });
        if !contours.last().0 {
            bounds_of_is_bounding_box(contours[last].1);
            assert forall|i: int| 0 <= i < oc.len() implies {
                &&& is_bounding_box((#[trigger] outer_boxes(contours)[i]).0, oc[i].1)
                &&& outer_boxes(contours)[i].1 == oc[i].1.len()
            } by {
                if i < of.len() {
                    assert(oc[i] == of[i]);
                    assert(outer_boxes(contours)[i] == outer_boxes(front)[i]);
                } else {
                    assert(oc[i] == contours[last]);
                    assert(outer_boxes(contours)[i] == (bounds_of(contours[last].1), contours[last].1.len() as usize));
                }
            }
        }
    }
}

} // verus!
