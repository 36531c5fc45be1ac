//! Axis-aligned pixel rectangles and the merging of nearby boxes.

use vstd::prelude::*;

verus! {

/// A rectangle on the pixel grid, given by its two extreme corners (both
/// inclusive), as a bounding box of contour points describes it.
#[derive(Debug, Clone, Copy, PartialEq, Eq, Structural)]
pub struct Rect {
    pub min_x: u32,
    pub min_y: u32,
    pub max_x: u32,
    pub max_y: u32,
}

pub open spec fn min_u32(a: u32, b: u32) -> u32 {
    if a <= b { a } else { b }
}

pub open spec fn max_u32(a: u32, b: u32) -> u32 {
    if a >= b { a } else { b }
}

impl Rect {
    /// The corners are in order.
    pub open spec fn wf(self) -> bool {
        self.min_x <= self.max_x && self.min_y <= self.max_y
    }

    pub open spec fn spec_width(self) -> int {
        self.max_x - self.min_x
    }

    pub open spec fn spec_height(self) -> int {
        self.max_y - self.min_y
    }

    pub open spec fn spec_area(self) -> int {
        self.spec_width() * self.spec_height()
    }

    /// Whether `other` lies inside this rectangle.
    pub open spec fn encloses(self, other: Rect) -> bool {
        self.min_x <= other.min_x && self.min_y <= other.min_y
            && other.max_x <= self.max_x && other.max_y <= self.max_y
    }

    /// The rectangle spanned by two corners given in any order.
    pub fn new(x1: u32, y1: u32, x2: u32, y2: u32) -> (r: Rect)
        ensures
            r.min_x == min_u32(x1, x2),
            r.min_y == min_u32(y1, y2),
            r.max_x == max_u32(x1, x2),
            r.max_y == max_u32(y1, y2),
            r.wf(),
    {
        Rect {
            min_x: if x1 <= x2 { x1 } else { x2 },
            min_y: if y1 <= y2 { y1 } else { y2 },
            max_x: if x1 >= x2 { x1 } else { x2 },
            max_y: if y1 >= y2 { y1 } else { y2 },
        }
    }

    pub fn width(&self) -> (w: u32)
        requires
            self.wf(),
        ensures
            w == self.spec_width(),
    {
        self.max_x - self.min_x
    }

    pub fn height(&self) -> (h: u32)
        requires
            self.wf(),
        ensures
            h == self.spec_height(),
    {
        self.max_y - self.min_y
    }

    /// Width times height, without overflow.
    pub fn area(&self) -> (a: u64)
        requires
            self.wf(),
        ensures
            a == self.spec_area(),
    {
        let w = self.width() as u64;
        let h = self.height() as u64;
        assert(w * h <= u32::MAX * u32::MAX) by (nonlinear_arith)
            requires
                w <= u32::MAX,
                h <= u32::MAX,
        ;
        w * h
    }
}

/// The smallest rectangle holding both `a` and `b`.
pub open spec fn hull(a: Rect, b: Rect) -> Rect {
    Rect {
        min_x: min_u32(a.min_x, b.min_x),
        min_y: min_u32(a.min_y, b.min_y),
        max_x: max_u32(a.max_x, b.max_x),
        max_y: max_u32(a.max_y, b.max_y),
    }
}

/// How far a box reaches out for neighbours: a tenth of its smaller side,
/// rounded down.
pub open spec fn tolerance(r: Rect) -> int {
    (if r.spec_width() <= r.spec_height() { r.spec_width() } else { r.spec_height() }) / 10
}

/// A lower edge moved out by `t`, stopping at zero.
pub open spec fn reach_down(v: u32, t: int) -> int {
    if v >= t { v - t } else { 0 }
}

/// Whether `r` touches `cur` grown by its tolerance on every side (edges
/// count as touching).
pub open spec fn near(cur: Rect, r: Rect) -> bool {
    let t = tolerance(cur);
    !(cur.max_x + t < r.min_x || reach_down(cur.min_x, t) > r.max_x
        || cur.max_y + t < r.min_y || reach_down(cur.min_y, t) > r.max_y)
}

/// The hull of the rectangles at the listed indices, taken in list order.
pub open spec fn hull_of(rects: Seq<Rect>, idx: Seq<int>) -> Rect
    decreases idx.len(),
{
    if idx.len() <= 1 {
        rects[idx[0]]
    } else {
        hull(hull_of(rects, idx.drop_last()), rects[idx.last()])
    }
}

/// `groups` and `order` witness that `out` is what merging `rects` gives:
/// `groups[j]` is the output box that took in `rects[j]`, and `order[k]`
/// lists the members of box `k` in the order they were taken in.
/// - each box starts from the first rectangle that no earlier box took;
/// - each later member touches the hull of the members before it;
/// - the box is the hull of its members;
/// - no rectangle left for later boxes touches a finished box.
pub open spec fn merge_witness(
    rects: Seq<Rect>,
    out: Seq<Rect>,
    groups: Seq<int>,
    order: Seq<Seq<int>>,
) -> bool {
    let n = rects.len();
    let k_count = out.len();
    &&& groups.len() == n
    &&& order.len() == k_count
    &&& forall|j: int| 0 <= j < n ==> 0 <= #[trigger] groups[j] < k_count
    &&& forall|k: int| 0 <= k < k_count ==> #[trigger] order[k].len() > 0
    &&& forall|k: int, t: int|
        0 <= k < k_count && 0 <= t < order[k].len() ==> 0 <= #[trigger] order[k][t] < n
            && groups[order[k][t]] == k
    &&& forall|k: int, t1: int, t2: int|
        0 <= k < k_count && 0 <= t1 < t2 < order[k].len() ==> #[trigger] order[k][t1]
            != #[trigger] order[k][t2]
    &&& forall|j: int| 0 <= j < n ==> #[trigger] order[groups[j]].contains(j)
    &&& forall|k: int, j: int|
        #![trigger order[k][0], groups[j]]
        0 <= k < k_count && 0 <= j < order[k][0] ==> groups[j] < k
    &&& forall|k: int, t: int|
        0 <= k < k_count && 0 < t < order[k].len() ==> near(
            #[trigger] hull_of(rects, order[k].take(t)),
            rects[order[k][t]],
        )
    &&& forall|k: int| 0 <= k < k_count ==> #[trigger] out[k] == hull_of(rects, order[k])
    &&& forall|k: int, j: int|
        #![trigger out[k], rects[j]]
        0 <= k < k_count && 0 <= j < n && groups[j] > k ==> !near(out[k], rects[j])
}

/// `out` is the result of merging `rects`.
pub open spec fn is_merge_of(rects: Seq<Rect>, out: Seq<Rect>) -> bool {
    exists|groups: Seq<int>, order: Seq<Seq<int>>| merge_witness(rects, out, groups, order)
}

/// The number of `false` entries.
spec fn count_false(s: Seq<bool>) -> nat
    decreases s.len(),
{
    if s.len() == 0 {
        0
    } else {
        count_false(s.drop_last()) + if s.last() { 0nat } else { 1nat }
    }
}

proof fn lemma_count_false_set(s: Seq<bool>, j: int)
    requires
        0 <= j < s.len(),
        !s[j],
    ensures
        count_false(s.update(j, true)) + 1 == count_false(s),
    decreases s.len(),
{
    if j == s.len() - 1 {
        assert(s.update(j, true).drop_last() =~= s.drop_last());
    } else {
        lemma_count_false_set(s.drop_last(), j);
        assert(s.update(j, true).drop_last() =~= s.drop_last().update(j, true));
    }
}

proof fn lemma_hull_of_push(rects: Seq<Rect>, idx: Seq<int>, j: int)
    requires
        idx.len() >= 1,
    ensures
        hull_of(rects, idx.push(j)) == hull(hull_of(rects, idx), rects[j]),
{
    assert(idx.push(j).drop_last() =~= idx);
}

pub proof fn lemma_hull_of_encloses(rects: Seq<Rect>, idx: Seq<int>)
    requires
        idx.len() >= 1,
        forall|t: int| 0 <= t < idx.len() ==> 0 <= #[trigger] idx[t] < rects.len(),
        forall|i: int| 0 <= i < rects.len() ==> #[trigger] rects[i].wf(),
    ensures
        hull_of(rects, idx).wf(),
        forall|t: int| 0 <= t < idx.len() ==> hull_of(rects, idx).encloses(#[trigger] rects[idx[t]]),
    decreases idx.len(),
{
    if idx.len() > 1 {
        let front = idx.drop_last();
        lemma_hull_of_encloses(rects, front);
        assert forall|t: int| 0 <= t < idx.len() implies hull_of(rects, idx).encloses(
            #[trigger] rects[idx[t]],
        ) by {
            if t < idx.len() - 1 {
                assert(front[t] == idx[t]);
            }
        }
    }
}

fn tolerance_of(r: &Rect) -> (t: u32)
    requires
        r.wf(),
    ensures
        t == tolerance(*r),
{
    let w = r.width();
    let h = r.height();
    let smaller = if w <= h { w } else { h };
    smaller / 10
}

/// Whether `r` touches `cur` grown by its tolerance; the far edges are
/// computed without overflow.
fn touches(cur: &Rect, r: &Rect) -> (b: bool)
    requires
        cur.wf(),
    ensures
        b == near(*cur, *r),
{
    let t = tolerance_of(cur);
    let low_x = cur.min_x.saturating_sub(t);
    let low_y = cur.min_y.saturating_sub(t);
    let high_x = cur.max_x as u64 + t as u64;
    let high_y = cur.max_y as u64 + t as u64;
    !(high_x < r.min_x as u64 || low_x > r.max_x || high_y < r.min_y as u64 || low_y > r.max_y)
}

fn hull_exec(a: &Rect, b: &Rect) -> (h: Rect)
    ensures
        h == hull(*a, *b),
{
    Rect {
        min_x: if a.min_x <= b.min_x { a.min_x } else { b.min_x },
        min_y: if a.min_y <= b.min_y { a.min_y } else { b.min_y },
        max_x: if a.max_x >= b.max_x { a.max_x } else { b.max_x },
        max_y: if a.max_y >= b.max_y { a.max_y } else { b.max_y },
    }
}

/// The boxes finished so far, with the partial assignment `groups`
/// (-1 for rectangles not taken yet), meet the merge conditions.
spec fn finished_ok(rects: Seq<Rect>, merged: Seq<Rect>, groups: Seq<int>, order: Seq<Seq<int>>) -> bool {
    let n = rects.len();
    let k_count = merged.len();
    &&& groups.len() == n
    &&& order.len() == k_count
    &&& forall|k: int| 0 <= k < k_count ==> #[trigger] order[k].len() > 0
    &&& forall|k: int, t: int|
        0 <= k < k_count && 0 <= t < order[k].len() ==> 0 <= #[trigger] order[k][t] < n
            && groups[order[k][t]] == k
    &&& forall|k: int, t1: int, t2: int|
        0 <= k < k_count && 0 <= t1 < t2 < order[k].len() ==> #[trigger] order[k][t1]
            != #[trigger] order[k][t2]
    &&& forall|j: int|
        0 <= j < n && 0 <= groups[j] < k_count ==> #[trigger] order[groups[j]].contains(j)
    &&& forall|k: int, j: int|
        #![trigger order[k][0], groups[j]]
        0 <= k < k_count && 0 <= j < order[k][0] ==> 0 <= groups[j] < k
    &&& forall|k: int, t: int|
        0 <= k < k_count && 0 < t < order[k].len() ==> near(
            #[trigger] hull_of(rects, order[k].take(t)),
            rects[order[k][t]],
        )
    &&& forall|k: int| 0 <= k < k_count ==> #[trigger] merged[k] == hull_of(rects, order[k])
    &&& forall|k: int, j: int|
        #![trigger merged[k], rects[j]]
        0 <= k < k_count && 0 <= j < n && (groups[j] > k || groups[j] < 0) ==> !near(
            merged[k],
            rects[j],
        )
}

/// The box being grown: `cur` lists its members in the order taken in,
/// starting from `seed`, and `current` is their hull.
spec fn growing_ok(rects: Seq<Rect>, groups: Seq<int>, k: int, seed: int, cur: Seq<int>, current: Rect) -> bool {
    let n = rects.len();
    &&& cur.len() >= 1
    &&& cur[0] == seed
    &&& forall|t: int| 0 <= t < cur.len() ==> 0 <= #[trigger] cur[t] < n && groups[cur[t]] == k
    &&& forall|t1: int, t2: int| 0 <= t1 < t2 < cur.len() ==> #[trigger] cur[t1] != #[trigger] cur[t2]
    &&& forall|j: int| 0 <= j < n && groups[j] == k ==> #[trigger] cur.contains(j)
    &&& forall|t: int| 0 < t < cur.len() ==> near(#[trigger] hull_of(rects, cur.take(t)), rects[cur[t]])
    &&& current == hull_of(rects, cur)
    &&& current.wf()
}

/// Taking rectangle `j` into the growing box keeps both the finished boxes
/// and the growing one in order.
proof fn grow_group(
    rects: Seq<Rect>,
    merged: Seq<Rect>,
    groups: Seq<int>,
    order: Seq<Seq<int>>,
    k: int,
    seed: int,
    cur: Seq<int>,
    current: Rect,
    j: int,
)
    requires
        forall|y: int| 0 <= y < rects.len() ==> #[trigger] rects[y].wf(),
        finished_ok(rects, merged, groups, order),
        k == merged.len(),
        forall|y: int| 0 <= y < rects.len() ==> -1 <= #[trigger] groups[y] <= k,
        growing_ok(rects, groups, k, seed, cur, current),
        0 <= j < rects.len(),
        groups[j] < 0,
        near(current, rects[j]),
    ensures
        finished_ok(rects, merged, groups.update(j, k), order),
        growing_ok(rects, groups.update(j, k), k, seed, cur.push(j), hull(current, rects[j])),
{
    let g2 = groups.update(j, k);
    let c2 = cur.push(j);
    let n = rects.len();
    // finished boxes keep their members and stay apart from the new member
    assert forall|kk: int, t: int| 0 <= kk < k && 0 <= t < order[kk].len() implies 0
        <= #[trigger] order[kk][t] < n && g2[order[kk][t]] == kk by {
        assert(groups[order[kk][t]] == kk);
    }
    assert forall|y: int| 0 <= y < n && 0 <= g2[y] < k implies #[trigger] order[g2[y]].contains(
        y,
    ) by {
        assert(y != j);
    }
    assert forall|kk: int, y: int|
        #![trigger order[kk][0], g2[y]]
        0 <= kk < k && 0 <= y < order[kk][0] implies 0 <= g2[y] < kk by {
        assert(order[kk].len() > 0);
        assert(0 <= groups[y] < kk);
    }
    assert forall|kk: int, y: int|
        #![trigger merged[kk], rects[y]]
        0 <= kk < k && 0 <= y < n && (g2[y] > kk || g2[y] < 0) implies !near(
        merged[kk],
        rects[y],
    ) by {
        if y == j {
            assert(groups[y] < 0);
        }
    }
    assert(finished_ok(rects, merged, g2, order));
    // the growing box
    lemma_hull_of_push(rects, cur, j);
    assert forall|t: int| 0 <= t < c2.len() implies 0 <= #[trigger] c2[t] < n && g2[c2[t]] == k by {
        if t < cur.len() {
            assert(c2[t] == cur[t]);
        }
    }
    assert forall|t1: int, t2: int| 0 <= t1 < t2 < c2.len() implies #[trigger] c2[t1]
        != #[trigger] c2[t2] by {
        if t2 == cur.len() {
            assert(groups[cur[t1]] == k);
        }
    }
    assert forall|y: int| 0 <= y < n && g2[y] == k implies #[trigger] c2.contains(y) by {
        if y == j {
            assert(c2[cur.len() as int] == j);
        } else {
            assert(cur.contains(y));
            let t = choose|t: int| 0 <= t < cur.len() && cur[t] == y;
            assert(c2[t] == y);
        }
    }
    assert forall|t: int| 0 < t < c2.len() implies near(
        #[trigger] hull_of(rects, c2.take(t)),
        rects[c2[t]],
    ) by {
        if t < cur.len() {
            assert(c2.take(t) =~= cur.take(t));
            assert(c2[t] == cur[t]);
        } else {
            assert(c2.take(t) =~= cur);
        }
    }
}

/// A box to which a full pass added nothing is finished.
proof fn close_group(
    rects: Seq<Rect>,
    merged: Seq<Rect>,
    groups: Seq<int>,
    order: Seq<Seq<int>>,
    k: int,
    seed: int,
    cur: Seq<int>,
    current: Rect,
)
    requires
        finished_ok(rects, merged, groups, order),
        k == merged.len(),
        forall|y: int| 0 <= y < rects.len() ==> -1 <= #[trigger] groups[y] <= k,
        forall|y: int| 0 <= y < seed ==> 0 <= #[trigger] groups[y] < k,
        growing_ok(rects, groups, k, seed, cur, current),
        forall|y: int| 0 <= y < rects.len() && groups[y] < 0 ==> !near(current, #[trigger] rects[y]),
    ensures
        finished_ok(rects, merged.push(current), groups, order.push(cur)),
{
    let m2 = merged.push(current);
    let o2 = order.push(cur);
    let n = rects.len();
    assert(o2[k] == cur);
    assert(m2[k] == current);
    assert forall|kk: int| 0 <= kk < k + 1 implies #[trigger] o2[kk].len() > 0 by {
        if kk < k {
            assert(o2[kk] == order[kk]);
        }
    }
    assert forall|kk: int, t: int| 0 <= kk < k + 1 && 0 <= t < o2[kk].len() implies 0
        <= #[trigger] o2[kk][t] < n && groups[o2[kk][t]] == kk by {
        if kk < k {
            assert(o2[kk] == order[kk]);
        }
    }
    assert forall|kk: int, t1: int, t2: int| 0 <= kk < k + 1 && 0 <= t1 < t2 < o2[kk].len() implies #[trigger] o2[kk][t1]
        != #[trigger] o2[kk][t2] by {
        if kk < k {
            assert(o2[kk] == order[kk]);
        }
    }
    assert forall|y: int| 0 <= y < n && 0 <= groups[y] < k + 1 implies #[trigger] o2[groups[y]].contains(y) by {
        if groups[y] < k {
            assert(o2[groups[y]] == order[groups[y]]);
        }
    }
    assert forall|kk: int, y: int|
        #![trigger o2[kk][0], groups[y]]
        0 <= kk < k + 1 && 0 <= y < o2[kk][0] implies 0 <= groups[y] < kk by {
        if kk < k {
            assert(o2[kk] == order[kk]);
        }
    }
    assert forall|kk: int, t: int| 0 <= kk < k + 1 && 0 < t < o2[kk].len() implies near(
        #[trigger] hull_of(rects, o2[kk].take(t)),
        rects[o2[kk][t]],
    ) by {
        if kk < k {
            assert(o2[kk] == order[kk]);
        }
    }
    assert forall|kk: int| 0 <= kk < k + 1 implies #[trigger] m2[kk] == hull_of(rects, o2[kk]) by {
        if kk < k {
            assert(o2[kk] == order[kk]);
            assert(m2[kk] == merged[kk]);
        }
    }
    assert forall|kk: int, y: int|
        #![trigger m2[kk], rects[y]]
        0 <= kk < k + 1 && 0 <= y < n && (groups[y] > kk || groups[y] < 0) implies !near(
        m2[kk],
        rects[y],
    ) by {
        if kk < k {
            assert(m2[kk] == merged[kk]);
        }
    }
}

/// Once every rectangle is taken, the finished boxes are the merge.
proof fn finish_witness(rects: Seq<Rect>, merged: Seq<Rect>, groups: Seq<int>, order: Seq<Seq<int>>)
    requires
        finished_ok(rects, merged, groups, order),
        forall|y: int| 0 <= y < rects.len() ==> 0 <= #[trigger] groups[y] < merged.len(),
    ensures
        is_merge_of(rects, merged),
{
    assert forall|k: int, j: int|
        #![trigger order[k][0], groups[j]]
        0 <= k < merged.len() && 0 <= j < order[k][0] implies groups[j] < k by {
    }
    assert(merge_witness(rects, merged, groups, order));
}

/// Merges rectangles that overlap or lie within a tenth of the smaller side
/// of one another, repeating until no rectangle is left near a merged box.
/// Boxes start from the input rectangles in order; each box takes in every
/// remaining rectangle that touches it, growing as it does, until a full
/// pass takes in nothing.
pub fn merge_overlapping_rects(rects: Vec<Rect>) -> (merged: Vec<Rect>)
    requires
        forall|i: int| 0 <= i < rects.len() ==> #[trigger] rects[i].wf(),
    ensures
        is_merge_of(rects@, merged@),
        forall|k: int| 0 <= k < merged.len() ==> #[trigger] merged[k].wf(),
{
    if rects.len() <= 1 {
        proof {
            if rects.len() == 1 {
                let groups = seq![0int];
                let order = seq![seq![0int]];
                assert(order[0][0] == 0);
                assert(order[0].contains(0));
                assert(merge_witness(rects@, rects@, groups, order));
            } else {
                let groups = Seq::<int>::empty();
                let order = Seq::<Seq<int>>::empty();
                assert(merge_witness(rects@, rects@, groups, order));
            }
        }
        return rects;
    }
    let n = rects.len();
    let mut merged: Vec<Rect> = Vec::new();
    let mut used: Vec<bool> = Vec::new();
    for x in 0..n
        invariant
            used.len() == x,
            forall|y: int| 0 <= y < x ==> !#[trigger] used[y],
    {
        used.push(false);
    }
    let ghost mut groups: Seq<int> = Seq::new(n as nat, |y: int| -1int);
    let ghost mut order: Seq<Seq<int>> = Seq::empty();

    for i in 0..n
        invariant
            n == rects.len(),
            used.len() == n,
            forall|y: int| 0 <= y < n ==> #[trigger] rects[y].wf(),
            finished_ok(rects@, merged@, groups, order),
            forall|y: int| 0 <= y < n ==> -1 <= #[trigger] groups[y] < merged.len(),
            forall|y: int| 0 <= y < n ==> (#[trigger] used[y] <==> groups[y] >= 0),
            forall|y: int| 0 <= y < i ==> #[trigger] groups[y] >= 0,
            forall|k: int| 0 <= k < merged.len() ==> #[trigger] order[k][0] < i,
            forall|k: int| 0 <= k < merged.len() ==> #[trigger] merged[k].wf(),
    {
        if !used[i] {
            let ghost k_now = merged.len() as int;
            let mut current = rects[i];
            used.set(i, true);
            proof {
                groups = groups.update(i as int, k_now);
            }
            let ghost mut cur: Seq<int> = seq![i as int];
            proof {
                assert forall|j: int| 0 <= j < n && groups[j] == k_now implies #[trigger] cur.contains(j) by {
                    assert(j == i);
                    assert(cur[0] == j);
                }
            }
            let mut merged_any = true;
            while merged_any
                invariant
                    n == rects.len(),
                    used.len() == n,
                    0 <= i < n,
                    k_now == merged.len(),
                    forall|y: int| 0 <= y < n ==> #[trigger] rects[y].wf(),
                    finished_ok(rects@, merged@, groups, order),
                    forall|y: int| 0 <= y < n ==> -1 <= #[trigger] groups[y] <= k_now,
                    forall|y: int| 0 <= y < n ==> (#[trigger] used[y] <==> groups[y] >= 0),
                    forall|y: int| 0 <= y < i ==> 0 <= #[trigger] groups[y] < k_now,
                    groups[i as int] == k_now,
                    forall|k: int| 0 <= k < merged.len() ==> #[trigger] order[k][0] < i,
                    forall|k: int| 0 <= k < merged.len() ==> #[trigger] merged[k].wf(),
                    growing_ok(rects@, groups, k_now, i as int, cur, current),
                    !merged_any ==> forall|y: int|
                        0 <= y < n && groups[y] < 0 ==> !near(current, #[trigger] rects[y]),
                decreases count_false(used@) + if merged_any { 1nat } else { 0nat },
            {
                merged_any = false;
                let ghost start_count = count_false(used@);
                for j in 0..n
                    invariant
                        n == rects.len(),
                        used.len() == n,
                        0 <= i < n,
                        k_now == merged.len(),
                        forall|y: int| 0 <= y < n ==> #[trigger] rects[y].wf(),
                        finished_ok(rects@, merged@, groups, order),
                        forall|y: int| 0 <= y < n ==> -1 <= #[trigger] groups[y] <= k_now,
                        forall|y: int| 0 <= y < n ==> (#[trigger] used[y] <==> groups[y] >= 0),
                        forall|y: int| 0 <= y < i ==> 0 <= #[trigger] groups[y] < k_now,
                        groups[i as int] == k_now,
                        growing_ok(rects@, groups, k_now, i as int, cur, current),
                        !merged_any ==> count_false(used@) == start_count,
                        merged_any ==> count_false(used@) < start_count,
                        !merged_any ==> forall|y: int|
                            0 <= y < j && groups[y] < 0 ==> !near(current, #[trigger] rects[y]),
                {
                    if !used[j] {
                        let r = rects[j];
                        if touches(&current, &r) {
                            let grown = hull_exec(&current, &r);
                            proof {
                                grow_group(rects@, merged@, groups, order, k_now, i as int, cur, current, j as int);
                                lemma_count_false_set(used@, j as int);
                            }
                            current = grown;
                            used.set(j, true);
                            proof {
                                groups = groups.update(j as int, k_now);
                                cur = cur.push(j as int);
                            }
                            merged_any = true;
                        }
                    }
                }
            }
            proof {
                close_group(rects@, merged@, groups, order, k_now, i as int, cur, current);
            }
            merged.push(current);
            proof {
                order = order.push(cur);
            }
        }
    }
    proof {
        finish_witness(rects@, merged@, groups, order);
    }
    merged
}

} // verus!

verus! {

proof fn lemma_seeds_grow(rects: Seq<Rect>, out: Seq<Rect>, groups: Seq<int>, order: Seq<Seq<int>>, k: int)
    requires
        merge_witness(rects, out, groups, order),
        0 <= k < out.len(),
    ensures
        k <= order[k][0],
    decreases k,
{
    assert(order[k].len() > 0);
    if k > 0 {
        lemma_seeds_grow(rects, out, groups, order, k - 1);
        let s = order[k - 1][0];
        assert(order[k - 1].len() > 0);
        assert(groups[s] == k - 1);
        if order[k][0] <= s {
            // the seed of box k - 1 would belong to an earlier box than k - 1
            if order[k][0] < s {
            } else {
                assert(groups[order[k][0]] == k);
            }
        }
    }
}

/// Merging never produces more boxes than it was given.
pub proof fn merge_never_adds_boxes(rects: Seq<Rect>, out: Seq<Rect>)
    requires
        is_merge_of(rects, out),
    ensures
        out.len() <= rects.len(),
{
    let (groups, order) = choose|groups: Seq<int>, order: Seq<Seq<int>>|
        merge_witness(rects, out, groups, order);
    if out.len() > 0 {
        let last = out.len() - 1;
        lemma_seeds_grow(rects, out, groups, order, last);
        assert(order[last].len() > 0);
        assert(0 <= order[last][0] < rects.len());
    }
}

/// Every input rectangle lies inside the box it was merged into, so no
/// detected region is lost by merging.
pub proof fn merge_covers_every_input(rects: Seq<Rect>, out: Seq<Rect>, j: int)
    requires
        is_merge_of(rects, out),
        forall|i: int| 0 <= i < rects.len() ==> #[trigger] rects[i].wf(),
        0 <= j < rects.len(),
    ensures
        exists|k: int| 0 <= k < out.len() && #[trigger] out[k].encloses(rects[j]),
{
    let (groups, order) = choose|groups: Seq<int>, order: Seq<Seq<int>>|
        merge_witness(rects, out, groups, order);
    let k = groups[j];
    assert(order[k].contains(j));
    let t = choose|t: int| 0 <= t < order[k].len() && order[k][t] == j;
    assert forall|u: int| 0 <= u < order[k].len() implies 0 <= #[trigger] order[k][u] < rects.len() by {
    }
    lemma_hull_of_encloses(rects, order[k]);
    assert(out[k].encloses(rects[order[k][t]]));
}

} // verus!

verus! {

proof fn lemma_near_grows(a: Rect, b: Rect, r: Rect)
    requires
        a.wf(),
        b.encloses(a),
        near(a, r),
    ensures
        near(b, r),
{
    let sa = if a.spec_width() <= a.spec_height() { a.spec_width() } else { a.spec_height() };
    let sb = if b.spec_width() <= b.spec_height() { b.spec_width() } else { b.spec_height() };
    assert(sb >= sa);
    assert(sb / 10 >= sa / 10) by (nonlinear_arith)
        requires
            sb >= sa,
    ;
}

proof fn lemma_hull_of_within(rects: Seq<Rect>, idx: Seq<int>, b: Rect)
    requires
        idx.len() >= 1,
        forall|t: int| 0 <= t < idx.len() ==> b.encloses(#[trigger] rects[idx[t]]),
    ensures
        b.encloses(hull_of(rects, idx)),
    decreases idx.len(),
{
    if idx.len() > 1 {
        let front = idx.drop_last();
        assert forall|t: int| 0 <= t < front.len() implies b.encloses(#[trigger] rects[front[t]]) by {
            assert(front[t] == idx[t]);
        }
        lemma_hull_of_within(rects, front, b);
        assert(b.encloses(rects[idx[idx.len() - 1]]));
    }
}

/// Each side of the hull of a list lies on a side of one of its members.
proof fn lemma_hull_of_attained(rects: Seq<Rect>, idx: Seq<int>)
    requires
        idx.len() >= 1,
    ensures
        exists|t: int| 0 <= t < idx.len() && (#[trigger] rects[idx[t]]).min_x == hull_of(rects, idx).min_x,
        exists|t: int| 0 <= t < idx.len() && (#[trigger] rects[idx[t]]).min_y == hull_of(rects, idx).min_y,
        exists|t: int| 0 <= t < idx.len() && (#[trigger] rects[idx[t]]).max_x == hull_of(rects, idx).max_x,
        exists|t: int| 0 <= t < idx.len() && (#[trigger] rects[idx[t]]).max_y == hull_of(rects, idx).max_y,
    decreases idx.len(),
{
    let h = hull_of(rects, idx);
    if idx.len() == 1 {
        assert(rects[idx[0]] == h);
    } else {
        let front = idx.drop_last();
        let last = idx.len() - 1;
        lemma_hull_of_attained(rects, front);
        let hf = hull_of(rects, front);
        let t1 = choose|t: int| 0 <= t < front.len() && (#[trigger] rects[front[t]]).min_x == hf.min_x;
        let t2 = choose|t: int| 0 <= t < front.len() && (#[trigger] rects[front[t]]).min_y == hf.min_y;
        let t3 = choose|t: int| 0 <= t < front.len() && (#[trigger] rects[front[t]]).max_x == hf.max_x;
        let t4 = choose|t: int| 0 <= t < front.len() && (#[trigger] rects[front[t]]).max_y == hf.max_y;
        assert(front[t1] == idx[t1] && front[t2] == idx[t2] && front[t3] == idx[t3] && front[t4] == idx[t4]);
        if h.min_x == hf.min_x { assert(rects[idx[t1]].min_x == h.min_x); } else { assert(rects[idx[last]].min_x == h.min_x); }
        if h.min_y == hf.min_y { assert(rects[idx[t2]].min_y == h.min_y); } else { assert(rects[idx[last]].min_y == h.min_y); }
        if h.max_x == hf.max_x { assert(rects[idx[t3]].max_x == h.max_x); } else { assert(rects[idx[last]].max_x == h.max_x); }
        if h.max_y == hf.max_y { assert(rects[idx[t4]].max_y == h.max_y); } else { assert(rects[idx[last]].max_y == h.max_y); }
    }
}

/// Two lists with the same members have the same hull.
proof fn lemma_same_members_same_hull(rects: Seq<Rect>, i1: Seq<int>, i2: Seq<int>)
    requires
        i1.len() >= 1,
        i2.len() >= 1,
        forall|t: int| 0 <= t < i1.len() ==> 0 <= #[trigger] i1[t] < rects.len(),
        forall|t: int| 0 <= t < i2.len() ==> 0 <= #[trigger] i2[t] < rects.len(),
        forall|i: int| 0 <= i < rects.len() ==> #[trigger] rects[i].wf(),
        forall|t: int| 0 <= t < i1.len() ==> i2.contains(#[trigger] i1[t]),
        forall|t: int| 0 <= t < i2.len() ==> i1.contains(#[trigger] i2[t]),
    ensures
        hull_of(rects, i1) == hull_of(rects, i2),
{
    let h1 = hull_of(rects, i1);
    let h2 = hull_of(rects, i2);
    lemma_hull_of_encloses(rects, i1);
    lemma_hull_of_encloses(rects, i2);
    lemma_hull_of_attained(rects, i1);
    lemma_hull_of_attained(rects, i2);
    // h1 encloses every member of i2, and h2 every member of i1
    assert forall|t: int| 0 <= t < i2.len() implies h1.encloses(#[trigger] rects[i2[t]]) by {
        let u = choose|u: int| 0 <= u < i1.len() && i1[u] == i2[t];
        assert(h1.encloses(rects[i1[u]]));
    }
    assert forall|t: int| 0 <= t < i1.len() implies h2.encloses(#[trigger] rects[i1[t]]) by {
        let u = choose|u: int| 0 <= u < i2.len() && i2[u] == i1[t];
        assert(h2.encloses(rects[i2[u]]));
    }
    let a1 = choose|t: int| 0 <= t < i2.len() && (#[trigger] rects[i2[t]]).min_x == h2.min_x;
    let a2 = choose|t: int| 0 <= t < i2.len() && (#[trigger] rects[i2[t]]).min_y == h2.min_y;
    let a3 = choose|t: int| 0 <= t < i2.len() && (#[trigger] rects[i2[t]]).max_x == h2.max_x;
    let a4 = choose|t: int| 0 <= t < i2.len() && (#[trigger] rects[i2[t]]).max_y == h2.max_y;
    let b1 = choose|t: int| 0 <= t < i1.len() && (#[trigger] rects[i1[t]]).min_x == h1.min_x;
    let b2 = choose|t: int| 0 <= t < i1.len() && (#[trigger] rects[i1[t]]).min_y == h1.min_y;
    let b3 = choose|t: int| 0 <= t < i1.len() && (#[trigger] rects[i1[t]]).max_x == h1.max_x;
    let b4 = choose|t: int| 0 <= t < i1.len() && (#[trigger] rects[i1[t]]).max_y == h1.max_y;
    assert(h1.encloses(rects[i2[a1]]) && h1.encloses(rects[i2[a2]]) && h1.encloses(rects[i2[a3]]) && h1.encloses(rects[i2[a4]]));
    assert(h2.encloses(rects[i1[b1]]) && h2.encloses(rects[i1[b2]]) && h2.encloses(rects[i1[b3]]) && h2.encloses(rects[i1[b4]]));
}

spec fn in_group(g: Seq<int>, j: int, k: int) -> bool {
    g[j] == k
}

/// Groups before `k` have the same members under both assignments.
spec fn agree_before(g1: Seq<int>, g2: Seq<int>, k: int) -> bool {
    forall|kk: int, j: int| 0 <= kk < k && 0 <= j < g1.len() ==> #[trigger] in_group(g1, j, kk) == in_group(g2, j, kk)
}

/// Every member of box `k` of the first merge belongs to box `k` of the second.
proof fn lemma_members_included(
    rects: Seq<Rect>,
    o1: Seq<Rect>, g1: Seq<int>, ord1: Seq<Seq<int>>,
    o2: Seq<Rect>, g2: Seq<int>, ord2: Seq<Seq<int>>,
    k: int,
)
    requires
        forall|i: int| 0 <= i < rects.len() ==> #[trigger] rects[i].wf(),
        merge_witness(rects, o1, g1, ord1),
        merge_witness(rects, o2, g2, ord2),
        0 <= k < o1.len(),
        k < o2.len(),
        agree_before(g1, g2, k),
    ensures
        forall|t: int| 0 <= t < ord1[k].len() ==> g2[#[trigger] ord1[k][t]] == k,
{
    let n = rects.len();
    // a rectangle lies in an earlier box in one merge iff it does in the other
    assert forall|j: int| 0 <= j < n implies (g1[j] < k) == (g2[j] < k) by {
        if 0 <= g1[j] < k {
            assert(in_group(g1, j, g1[j]) == in_group(g2, j, g1[j]));
        }
        if 0 <= g2[j] < k {
            assert(in_group(g1, j, g2[j]) == in_group(g2, j, g2[j]));
        }
    }
    // both boxes start from the same rectangle
    let s1 = ord1[k][0];
    let s2 = ord2[k][0];
    assert(ord1[k].len() > 0 && ord2[k].len() > 0);
    assert(g1[s1] == k && g2[s2] == k);
    if s2 < s1 {
        assert(g1[s2] < k);
        assert(false);
    }
    if s1 < s2 {
        assert(g2[s1] < k);
        assert(false);
    }
    let out2 = o2[k];
    assert forall|u: int| 0 <= u < ord2[k].len() implies 0 <= #[trigger] ord2[k][u] < n by {}
    lemma_hull_of_encloses(rects, ord2[k]);
    lemma_chain_included(rects, o1, g1, ord1, o2, g2, ord2, k, ord1[k].len() - 1);
}

proof fn lemma_chain_included(
    rects: Seq<Rect>,
    o1: Seq<Rect>, g1: Seq<int>, ord1: Seq<Seq<int>>,
    o2: Seq<Rect>, g2: Seq<int>, ord2: Seq<Seq<int>>,
    k: int,
    t: int,
)
    requires
        forall|i: int| 0 <= i < rects.len() ==> #[trigger] rects[i].wf(),
        merge_witness(rects, o1, g1, ord1),
        merge_witness(rects, o2, g2, ord2),
        0 <= k < o1.len(),
        k < o2.len(),
        0 <= t < ord1[k].len(),
        forall|j: int| 0 <= j < rects.len() ==> (g1[j] < k) == (#[trigger] g2[j] < k),
        ord1[k][0] == ord2[k][0],
        forall|u: int| 0 <= u < ord2[k].len() ==> o2[k].encloses(#[trigger] rects[ord2[k][u]]),
    ensures
        forall|u: int| 0 <= u <= t ==> g2[#[trigger] ord1[k][u]] == k,
    decreases t,
{
    let n = rects.len();
    if t == 0 {
        assert(ord2[k].len() > 0);
        assert(g2[ord2[k][0]] == k);
    } else {
        lemma_chain_included(rects, o1, g1, ord1, o2, g2, ord2, k, t - 1);
        let prefix = ord1[k].take(t);
        let x = ord1[k][t];
        assert forall|u: int| 0 <= u < prefix.len() implies 0 <= #[trigger] prefix[u] < n by {
            assert(prefix[u] == ord1[k][u]);
        }
        assert forall|u: int| 0 <= u < prefix.len() implies o2[k].encloses(#[trigger] rects[prefix[u]]) by {
            let y = prefix[u];
            assert(y == ord1[k][u]);
            assert(g2[y] == k);
            assert(ord2[g2[y]].contains(y));
            let w = choose|w: int| 0 <= w < ord2[k].len() && ord2[k][w] == y;
            assert(o2[k].encloses(rects[ord2[k][w]]));
        }
        lemma_hull_of_encloses(rects, prefix);
        lemma_hull_of_within(rects, prefix, o2[k]);
        assert(near(hull_of(rects, prefix), rects[x]));
        lemma_near_grows(hull_of(rects, prefix), o2[k], rects[x]);
        assert(g1[x] == k);
        assert(0 <= x < n);
        assert(g2[x] >= k);
        if g2[x] > k {
            assert(!near(o2[k], rects[x]));
        }
    }
}

/// Box `k` has the same members, and so is the same box, in both merges.
proof fn lemma_group_agrees(
    rects: Seq<Rect>,
    o1: Seq<Rect>, g1: Seq<int>, ord1: Seq<Seq<int>>,
    o2: Seq<Rect>, g2: Seq<int>, ord2: Seq<Seq<int>>,
    k: int,
)
    requires
        forall|i: int| 0 <= i < rects.len() ==> #[trigger] rects[i].wf(),
        merge_witness(rects, o1, g1, ord1),
        merge_witness(rects, o2, g2, ord2),
        0 <= k < o1.len(),
        k < o2.len(),
        agree_before(g1, g2, k),
    ensures
        forall|j: int| 0 <= j < rects.len() ==> (#[trigger] g1[j] == k) == (g2[j] == k),
        o1[k] == o2[k],
{
    let n = rects.len();
    lemma_members_included(rects, o1, g1, ord1, o2, g2, ord2, k);
    assert forall|kk: int, j: int| 0 <= kk < k && 0 <= j < g2.len() implies #[trigger] in_group(g2, j, kk) == in_group(g1, j, kk) by {
        assert(in_group(g1, j, kk) == in_group(g2, j, kk));
    }
    lemma_members_included(rects, o2, g2, ord2, o1, g1, ord1, k);
    assert forall|j: int| 0 <= j < n implies (#[trigger] g1[j] == k) == (g2[j] == k) by {
        if g1[j] == k {
            assert(ord1[g1[j]].contains(j));
            let t = choose|t: int| 0 <= t < ord1[k].len() && ord1[k][t] == j;
            assert(g2[ord1[k][t]] == k);
        }
        if g2[j] == k {
            assert(ord2[g2[j]].contains(j));
            let t = choose|t: int| 0 <= t < ord2[k].len() && ord2[k][t] == j;
            assert(g1[ord2[k][t]] == k);
        }
    }
    assert forall|t: int| 0 <= t < ord1[k].len() implies 0 <= #[trigger] ord1[k][t] < n by {}
    assert forall|t: int| 0 <= t < ord2[k].len() implies 0 <= #[trigger] ord2[k][t] < n by {}
    assert forall|t: int| 0 <= t < ord1[k].len() implies ord2[k].contains(#[trigger] ord1[k][t]) by {
        let j = ord1[k][t];
        assert(g2[j] == k);
        assert(ord2[g2[j]].contains(j));
    }
    assert forall|t: int| 0 <= t < ord2[k].len() implies ord1[k].contains(#[trigger] ord2[k][t]) by {
        let j = ord2[k][t];
        assert(g1[j] == k);
        assert(ord1[g1[j]].contains(j));
    }
    assert(ord1[k].len() > 0 && ord2[k].len() > 0);
    lemma_same_members_same_hull(rects, ord1[k], ord2[k]);
}

proof fn lemma_groups_agree(
    rects: Seq<Rect>,
    o1: Seq<Rect>, g1: Seq<int>, ord1: Seq<Seq<int>>,
    o2: Seq<Rect>, g2: Seq<int>, ord2: Seq<Seq<int>>,
    k: int,
)
    requires
        forall|i: int| 0 <= i < rects.len() ==> #[trigger] rects[i].wf(),
        merge_witness(rects, o1, g1, ord1),
        merge_witness(rects, o2, g2, ord2),
        0 <= k <= o1.len(),
        k <= o2.len(),
    ensures
        agree_before(g1, g2, k),
        forall|kk: int| 0 <= kk < k ==> #[trigger] o1[kk] == o2[kk],
    decreases k,
{
    if k > 0 {
        lemma_groups_agree(rects, o1, g1, ord1, o2, g2, ord2, k - 1);
        lemma_group_agrees(rects, o1, g1, ord1, o2, g2, ord2, k - 1);
    }
}

/// The merge conditions single out one result: two lists that both meet
/// them for the same input are equal, so the contract of
/// `merge_overlapping_rects` fixes its output completely.
pub proof fn merge_result_is_unique(rects: Seq<Rect>, out1: Seq<Rect>, out2: Seq<Rect>)
    requires
        forall|i: int| 0 <= i < rects.len() ==> #[trigger] rects[i].wf(),
        is_merge_of(rects, out1),
        is_merge_of(rects, out2),
    ensures
        out1 == out2,
{
    let (g1, ord1) = choose|g: Seq<int>, o: Seq<Seq<int>>| merge_witness(rects, out1, g, o);
    let (g2, ord2) = choose|g: Seq<int>, o: Seq<Seq<int>>| merge_witness(rects, out2, g, o);
    let m = if out1.len() <= out2.len() { out1.len() as int } else { out2.len() as int };
    lemma_groups_agree(rects, out1, g1, ord1, out2, g2, ord2, m);
    if out1.len() > m {
        let s = ord1[m][0];
        assert(ord1[m].len() > 0);
        assert(g1[s] == m);
        let kk = g2[s];
        assert(0 <= kk < m);
        assert(in_group(g1, s, kk) == in_group(g2, s, kk));
    }
    if out2.len() > m {
        let s = ord2[m][0];
        assert(ord2[m].len() > 0);
        assert(g2[s] == m);
        let kk = g1[s];
        assert(0 <= kk < m);
        assert(in_group(g1, s, kk) == in_group(g2, s, kk));
    }
    assert(out1 =~= out2);
}

} // verus!

verus! {

/// Whether `r` is one of `rects` (a traced box that detection kept shows as
/// accepted in the debug picture, any other as rejected).
pub fn contains_rect(rects: &Vec<Rect>, r: &Rect) -> (b: bool)
    ensures
        b == rects@.contains(*r),
{
    for i in 0..rects.len()
        invariant
            forall|j: int| 0 <= j < i ==> rects@[j] != *r,
    {
        if rects[i] == *r {
            return true;
        }
    }
    false
}

/// The first place at which `r` occurs in `rects`, if it does.
pub fn first_position(rects: &Vec<Rect>, r: &Rect) -> (p: Option<usize>)
    ensures
        match p {
            Some(i) => i < rects.len() && rects@[i as int] == *r
                && forall|j: int| 0 <= j < i ==> rects@[j] != *r,
            None => !rects@.contains(*r),
        },
{
    for i in 0..rects.len()
        invariant
            forall|j: int| 0 <= j < i ==> rects@[j] != *r,
    {
        if rects[i] == *r {
            return Some(i);
        }
    }
    None
}

} // verus!

verus! {

/// Merging two rectangles. When the second lies beyond the reach of the
/// first (a tenth of the first's smaller side, rounded down) on either
/// axis, above, below, left or right, both come back unchanged as separate
/// boxes; otherwise (in particular when the two overlap) they come back as
/// one box spanning both.
pub proof fn merge_two_boxes(a: Rect, b: Rect, out: Seq<Rect>)
    requires
        a.wf(),
        b.wf(),
        is_merge_of(seq![a, b], out),
    ensures
        ({
            let reach = (if a.max_x - a.min_x <= a.max_y - a.min_y { a.max_x - a.min_x } else { a.max_y - a.min_y }) / 10;
            b.min_y > a.max_y + reach || a.min_y > b.max_y + reach
                || b.min_x > a.max_x + reach || a.min_x > b.max_x + reach
        }) ==> out == seq![a, b],
        ({
            let reach = (if a.max_x - a.min_x <= a.max_y - a.min_y { a.max_x - a.min_x } else { a.max_y - a.min_y }) / 10;
            b.min_y <= a.max_y + reach && a.min_y <= b.max_y + reach
                && b.min_x <= a.max_x + reach && a.min_x <= b.max_x + reach
        }) ==> out
            == seq![Rect {
                min_x: if a.min_x <= b.min_x { a.min_x } else { b.min_x },
                min_y: if a.min_y <= b.min_y { a.min_y } else { b.min_y },
                max_x: if a.max_x >= b.max_x { a.max_x } else { b.max_x },
                max_y: if a.max_y >= b.max_y { a.max_y } else { b.max_y },
            }],
{
    let rects = seq![a, b];
    assert(rects[0] == a && rects[1] == b);
    assert forall|i: int| 0 <= i < rects.len() implies #[trigger] rects[i].wf() by {}
    let reach = (if a.max_x - a.min_x <= a.max_y - a.min_y { a.max_x - a.min_x } else { a.max_y - a.min_y }) / 10;
    assert(reach == tolerance(a));
    if b.min_y > a.max_y + reach || a.min_y > b.max_y + reach || b.min_x > a.max_x + reach || a.min_x > b.max_x + reach {
        assert(!near(a, b));
        let expected = seq![a, b];
        let groups = seq![0int, 1int];
        let order = seq![seq![0int], seq![1int]];
        assert(order[0][0] == 0 && order[1][0] == 1);
        assert(order[0].contains(0));
        assert(order[1].contains(1));
        assert(hull_of(rects, order[0]) == a);
        assert(hull_of(rects, order[1]) == b);
        assert(merge_witness(rects, expected, groups, order));
        merge_result_is_unique(rects, out, expected);
    }
    if b.min_y <= a.max_y + reach && a.min_y <= b.max_y + reach && b.min_x <= a.max_x + reach && a.min_x <= b.max_x + reach {
        assert(near(a, b));
        let h = hull(a, b);
        let expected = seq![h];
        let groups = seq![0int, 0int];
        let order = seq![seq![0int, 1int]];
        let ord0 = order[0];
        assert(ord0[0] == 0 && ord0[1] == 1);
        assert(ord0.contains(0));
        assert(ord0.contains(1));
        assert(ord0.take(1) =~= seq![0int]);
        assert(hull_of(rects, ord0.take(1)) == a);
        assert(ord0.drop_last() =~= seq![0int]);
        assert(hull_of(rects, ord0) == h);
        assert(merge_witness(rects, expected, groups, order));
        merge_result_is_unique(rects, out, expected);
    }
}

} // verus!
