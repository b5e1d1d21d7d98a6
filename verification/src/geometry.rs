//! Contours and their measures: the enclosed area and the bounding box.

use vstd::prelude::*;

verus! {

/// A pixel position.
#[derive(Clone, Copy, Debug, PartialEq, Eq, Structural)]
pub struct Point {
    pub x: i32,
    pub y: i32,
}

/// An axis-aligned rectangle in pixel coordinates: its top-left corner and
/// its extent.
#[derive(Clone, Copy, Debug, PartialEq, Eq, Structural)]
pub struct BoundingBox {
    pub x: i32,
    pub y: i32,
    pub width: i32,
    pub height: i32,
}

impl BoundingBox {
    /// Whether the rectangle covers the point.
    pub open spec fn covers(self, p: Point) -> bool {
        &&& self.x <= p.x < self.x + self.width
        &&& self.y <= p.y < self.y + self.height
    }
}

/// The smallest column of a contour.
pub open spec fn least_x(c: Seq<Point>) -> int
    decreases c.len(),
{
    if c.len() == 0 {
        0
    } else if c.len() == 1 {
        c[0].x as int
    } else if c.last().x < least_x(c.drop_last()) {
        c.last().x as int
    } else {
        least_x(c.drop_last())
    }
}

/// The largest column of a contour.
pub open spec fn greatest_x(c: Seq<Point>) -> int
    decreases c.len(),
{
    if c.len() == 0 {
        0
    } else if c.len() == 1 {
        c[0].x as int
    } else if c.last().x > greatest_x(c.drop_last()) {
        c.last().x as int
    } else {
        greatest_x(c.drop_last())
    }
}

/// The smallest row of a contour.
pub open spec fn least_y(c: Seq<Point>) -> int
    decreases c.len(),
{
    if c.len() == 0 {
        0
    } else if c.len() == 1 {
        c[0].y as int
    } else if c.last().y < least_y(c.drop_last()) {
        c.last().y as int
    } else {
        least_y(c.drop_last())
    }
}

/// The largest row of a contour.
pub open spec fn greatest_y(c: Seq<Point>) -> int
    decreases c.len(),
{
    if c.len() == 0 {
        0
    } else if c.len() == 1 {
        c[0].y as int
    } else if c.last().y > greatest_y(c.drop_last()) {
        c.last().y as int
    } else {
        greatest_y(c.drop_last())
    }
}

/// Whether a contour has a bounding box: it has a point, and its extent in
/// each direction fits the coordinate type.
pub open spec fn has_box(c: Seq<Point>) -> bool {
    &&& c.len() > 0
    &&& greatest_x(c) - least_x(c) + 1 <= i32::MAX
    &&& greatest_y(c) - least_y(c) + 1 <= i32::MAX
}

/// The smallest axis-aligned rectangle that covers every point of a contour.
pub open spec fn box_of(c: Seq<Point>) -> BoundingBox
    recommends
        has_box(c),
{
    BoundingBox {
        x: least_x(c) as i32,
        y: least_y(c) as i32,
        width: (greatest_x(c) - least_x(c) + 1) as i32,
        height: (greatest_y(c) - least_y(c) + 1) as i32,
    }
}

/// The extremes of a contour are coordinates of its points and bound all of
/// them.
pub proof fn lemma_extremes(c: Seq<Point>)
    requires
        c.len() > 0,
    ensures
        forall|i: int|
            0 <= i < c.len() ==> least_x(c) <= (#[trigger] c[i]).x <= greatest_x(c) && least_y(c)
                <= c[i].y <= greatest_y(c),
        exists|i: int| 0 <= i < c.len() && (#[trigger] c[i]).x == least_x(c),
        exists|i: int| 0 <= i < c.len() && (#[trigger] c[i]).x == greatest_x(c),
        exists|i: int| 0 <= i < c.len() && (#[trigger] c[i]).y == least_y(c),
        exists|i: int| 0 <= i < c.len() && (#[trigger] c[i]).y == greatest_y(c),
    decreases c.len(),
{
    if c.len() == 1 {
        assert(c[0].x == least_x(c) && c[0].x == greatest_x(c));
        assert(c[0].y == least_y(c) && c[0].y == greatest_y(c));
    } else {
        let rest = c.drop_last();
        let n = rest.len() as int;
        lemma_extremes(rest);
        assert forall|i: int| 0 <= i < c.len() implies least_x(c) <= (#[trigger] c[i]).x
            <= greatest_x(c) && least_y(c) <= c[i].y <= greatest_y(c) by {
            if i < n {
                assert(c[i] == rest[i]);
            }
        }
        let a = choose|i: int| 0 <= i < rest.len() && (#[trigger] rest[i]).x == least_x(rest);
        let b = choose|i: int| 0 <= i < rest.len() && (#[trigger] rest[i]).x == greatest_x(rest);
        let d = choose|i: int| 0 <= i < rest.len() && (#[trigger] rest[i]).y == least_y(rest);
        let e = choose|i: int| 0 <= i < rest.len() && (#[trigger] rest[i]).y == greatest_y(rest);
        assert(c[a] == rest[a] && c[b] == rest[b] && c[d] == rest[d] && c[e] == rest[e]);
        assert(c[n] == c.last());
        assert(c[a].x == least_x(c) || c[n].x == least_x(c));
        assert(c[b].x == greatest_x(c) || c[n].x == greatest_x(c));
        assert(c[d].y == least_y(c) || c[n].y == least_y(c));
        assert(c[e].y == greatest_y(c) || c[n].y == greatest_y(c));
    }
}

/// The bounding box of a contour covers each of its points, and a point of
/// the contour lies on each of its four sides: no smaller rectangle covers
/// the contour.
pub proof fn lemma_box_is_tight(c: Seq<Point>)
    requires
        has_box(c),
    ensures
        forall|i: int| 0 <= i < c.len() ==> box_of(c).covers(#[trigger] c[i]),
        exists|i: int| 0 <= i < c.len() && (#[trigger] c[i]).x == box_of(c).x,
        exists|i: int| 0 <= i < c.len() && (#[trigger] c[i]).x == box_of(c).x + box_of(c).width - 1,
        exists|i: int| 0 <= i < c.len() && (#[trigger] c[i]).y == box_of(c).y,
        exists|i: int|
            0 <= i < c.len() && (#[trigger] c[i]).y == box_of(c).y + box_of(c).height - 1,
{
    lemma_extremes(c);
    let a = choose|i: int| 0 <= i < c.len() && (#[trigger] c[i]).x == least_x(c);
    let b = choose|i: int| 0 <= i < c.len() && (#[trigger] c[i]).x == greatest_x(c);
    let d = choose|i: int| 0 <= i < c.len() && (#[trigger] c[i]).y == least_y(c);
    let e = choose|i: int| 0 <= i < c.len() && (#[trigger] c[i]).y == greatest_y(c);
    assert(c[a].x == box_of(c).x);
    assert(c[b].x == box_of(c).x + box_of(c).width - 1);
    assert(c[d].y == box_of(c).y);
    assert(c[e].y == box_of(c).y + box_of(c).height - 1);
}

/// Computes the bounding box of a contour; `None` when the contour has no
/// point or its extent does not fit the coordinate type.
pub fn bounding_rect(contour: &Vec<Point>) -> (r: Option<BoundingBox>)
    ensures
        r is Some <==> has_box(contour@),
        r is Some ==> r->0 == box_of(contour@),
{
    let n = contour.len();
    if n == 0 {
        return None;
    }
    let first = contour[0];
    let mut lo_x: i32 = first.x;
    let mut hi_x: i32 = first.x;
    let mut lo_y: i32 = first.y;
    let mut hi_y: i32 = first.y;
    let mut i: usize = 1;
    assert(contour@.take(1).len() == 1 && contour@.take(1)[0] == contour@[0]);
    while i < n
        invariant
            1 <= i <= n,
            n == contour@.len(),
            lo_x == least_x(contour@.take(i as int)),
            hi_x == greatest_x(contour@.take(i as int)),
            lo_y == least_y(contour@.take(i as int)),
            hi_y == greatest_y(contour@.take(i as int)),
        decreases n - i,
    {
        let p = contour[i];
        proof {
            let next = contour@.take(i + 1);
            assert(next.drop_last() =~= contour@.take(i as int));
            assert(next.last() == p);
        }
        if p.x < lo_x {
            lo_x = p.x;
        }
        if p.x > hi_x {
            hi_x = p.x;
        }
        if p.y < lo_y {
            lo_y = p.y;
        }
        if p.y > hi_y {
            hi_y = p.y;
        }
        i += 1;
    }
    assert(contour@.take(n as int) =~= contour@);
    let width: i64 = hi_x as i64 - lo_x as i64 + 1;
    let height: i64 = hi_y as i64 - lo_y as i64 + 1;
    if width > i32::MAX as i64 || height > i32::MAX as i64 {
        return None;
    }
    Some(BoundingBox { x: lo_x, y: lo_y, width: width as i32, height: height as i32 })
}

/// The cross product of two positions read as vectors from the origin.
pub open spec fn cross(p: Point, q: Point) -> int {
    p.x * q.y - p.y * q.x
}

/// The contribution of the edge that ends at point `i` of a closed contour;
/// the edge that ends at the first point starts at the last.
pub open spec fn edge_term(c: Seq<Point>, i: int) -> int {
    if i == 0 {
        cross(c.last(), c[0])
    } else {
        cross(c[i - 1], c[i])
    }
}

/// The sum of the contributions of the first `k` edges of a contour.
pub open spec fn edge_sum(c: Seq<Point>, k: nat) -> int
    decreases k,
{
    if k == 0 {
        0
    } else {
        edge_sum(c, (k - 1) as nat) + edge_term(c, k - 1)
    }
}

/// Twice the area that a closed contour encloses, by the surveyor's formula.
/// The area itself is a multiple of one half; its double is an integer.
pub open spec fn doubled_area(c: Seq<Point>) -> nat {
    let s = edge_sum(c, c.len());
    if s >= 0 {
        s as nat
    } else {
        (-s) as nat
    }
}

/// Each product of a cross product is at most `2^62` in magnitude, and the
/// cross product itself at most `2^63`.
proof fn lemma_cross_bound(p: Point, q: Point)
    ensures
        -0x4000_0000_0000_0000 <= p.x * q.y <= 0x4000_0000_0000_0000,
        -0x4000_0000_0000_0000 <= p.y * q.x <= 0x4000_0000_0000_0000,
        -0x8000_0000_0000_0000 <= cross(p, q) <= 0x8000_0000_0000_0000,
{
    let a = p.x as int;
    let b = q.y as int;
    let c = p.y as int;
    let d = q.x as int;
    assert(-0x4000_0000_0000_0000 <= a * b <= 0x4000_0000_0000_0000) by (nonlinear_arith)
        requires
            -0x8000_0000 <= a <= 0x8000_0000,
            -0x8000_0000 <= b <= 0x8000_0000,
    ;
    assert(-0x4000_0000_0000_0000 <= c * d <= 0x4000_0000_0000_0000) by (nonlinear_arith)
        requires
            -0x8000_0000 <= c <= 0x8000_0000,
            -0x8000_0000 <= d <= 0x8000_0000,
    ;
}

/// Computes twice the area that a closed contour encloses.
pub fn contour_doubled_area(contour: &Vec<Point>) -> (a: u128)
    ensures
        a == doubled_area(contour@),
{
    let n = contour.len();
    if n == 0 {
        return 0;
    }
    let mut sum: i128 = 0;
    let mut prev = contour[n - 1];
    let mut i: usize = 0;
    while i < n
        invariant
            i <= n,
            n == contour@.len(),
            n > 0,
            prev == if i == 0 {
                contour@.last()
            } else {
                contour@[i - 1]
            },
            sum == edge_sum(contour@, i as nat),
            -(i * 0x8000_0000_0000_0000) <= sum <= i * 0x8000_0000_0000_0000,
        decreases n - i,
    {
        let p = contour[i];
        proof {
            lemma_cross_bound(prev, p);
            assert(edge_term(contour@, i as int) == cross(prev, p));
        }
        let term: i128 = (prev.x as i128) * (p.y as i128) - (prev.y as i128) * (p.x as i128);
        sum = sum + term;
        prev = p;
        i += 1;
    }
    if sum >= 0 {
        sum as u128
    } else {
        (-sum) as u128
    }
}

/// The point sequences of a list of contours.
pub open spec fn outlines(contours: Seq<Vec<Point>>) -> Seq<Seq<Point>> {
    Seq::new(contours.len(), |i: int| contours[i]@)
}

/// Whether every contour of a list has a bounding box.
pub open spec fn all_boxed(contours: Seq<Seq<Point>>) -> bool {
    forall|i: int| 0 <= i < contours.len() ==> has_box(#[trigger] contours[i])
}

/// The bounding boxes, in order, of the contours that enclose at least
/// `min_doubled_area / 2` pixels. A contour whose area equals the minimum
/// stays.
pub open spec fn surviving_boxes(contours: Seq<Seq<Point>>, min_doubled_area: int) -> Seq<
    BoundingBox,
>
    decreases contours.len(),
{
    if contours.len() == 0 {
        Seq::empty()
    } else if doubled_area(contours.last()) >= min_doubled_area {
        surviving_boxes(contours.drop_last(), min_doubled_area).push(box_of(contours.last()))
    } else {
        surviving_boxes(contours.drop_last(), min_doubled_area)
    }
}

/// Keeps the contours that enclose at least `min_doubled_area / 2` pixels
/// and returns their bounding boxes in the order of the contours; `None`
/// when some contour has no bounding box.
pub fn select_boxes(contours: &Vec<Vec<Point>>, min_doubled_area: u64) -> (r: Option<
    Vec<BoundingBox>,
>)
    ensures
        r is Some <==> all_boxed(outlines(contours@)),
        r is Some ==> r->0@ == surviving_boxes(outlines(contours@), min_doubled_area as int),
{
    let ghost all = outlines(contours@);
    let n = contours.len();
    let mut boxes: Vec<BoundingBox> = Vec::new();
    let mut i: usize = 0;
    while i < n
        invariant
            i <= n,
            n == contours@.len(),
            all == outlines(contours@),
            all_boxed(all.take(i as int)),
            boxes@ == surviving_boxes(all.take(i as int), min_doubled_area as int),
        decreases n - i,
    {
        let contour = &contours[i];
        proof {
            let next = all.take(i + 1);
            assert(next.drop_last() =~= all.take(i as int));
            assert(next.last() == contour@);
        }
        match bounding_rect(contour) {
            None => {
                assert(!has_box(all[i as int]));
                return None;
            },
            Some(b) => {
                let area = contour_doubled_area(contour);
                if area >= min_doubled_area as u128 {
                    boxes.push(b);
                }
                assert forall|k: int| 0 <= k < i + 1 implies has_box(
                    #[trigger] all.take(i + 1)[k],
                ) by {
                    if k < i {
                        assert(all.take(i + 1)[k] == all.take(i as int)[k]);
                    }
                }
            },
        }
        i += 1;
    }
    assert(all.take(n as int) =~= all);
    Some(boxes)
}

/// Raising the minimum area only removes boxes: every box that survives the
/// larger minimum also survives the smaller one, and no more boxes survive
/// the larger minimum than the smaller.
pub proof fn lemma_filtering_is_monotonic(contours: Seq<Seq<Point>>, lower: int, higher: int)
    requires
        lower <= higher,
    ensures
        surviving_boxes(contours, higher).len() <= surviving_boxes(contours, lower).len(),
        forall|b: BoundingBox|
            surviving_boxes(contours, higher).contains(b) ==> surviving_boxes(
                contours,
                lower,
            ).contains(b),
    decreases contours.len(),
{
    if contours.len() > 0 {
        let rest = contours.drop_last();
        let last = box_of(contours.last());
        lemma_filtering_is_monotonic(rest, lower, higher);
        let hi = surviving_boxes(contours, higher);
        let lo = surviving_boxes(contours, lower);
        let hi_rest = surviving_boxes(rest, higher);
        let lo_rest = surviving_boxes(rest, lower);
        assert forall|b: BoundingBox| hi.contains(b) implies lo.contains(b) by {
            let k = choose|k: int| 0 <= k < hi.len() && hi[k] == b;
            if k < hi_rest.len() {
                assert(hi_rest[k] == b);
                assert(hi_rest.contains(b));
                let m = choose|m: int| 0 <= m < lo_rest.len() && lo_rest[m] == b;
                assert(lo[m] == b);
            } else {
                assert(b == last);
                assert(lo[lo.len() - 1] == b);
            }
        }
    }
}

} // verus!
