//! Polygonal paths: containment under a fill rule and near a traced stroke.
use vstd::prelude::*;
use crate::geometry::{Point, Rect, in_range};

verus! {

/// Largest number of contours in a path, and of points in a contour.
pub const PATH_MAX: usize = 1048576;

#[derive(Clone, Copy, Debug, PartialEq, Eq, Structural)]
pub enum FillRule {
    NonZero,
    EvenOdd,
}

/// One subpath: its points in order, and whether a closing segment joins the last
/// point to the first when stroked (filling always closes it).
#[derive(Clone, Debug)]
pub struct Contour {
    pub points: Vec<Point>,
    pub closed: bool,
}

#[derive(Clone, Debug)]
pub struct Path {
    pub contours: Vec<Contour>,
}

pub ghost struct ContourView {
    pub points: Seq<Point>,
    pub closed: bool,
}

impl View for Contour {
    type V = ContourView;

    open spec fn view(&self) -> ContourView {
        ContourView { points: self.points@, closed: self.closed }
    }
}

impl View for Path {
    type V = Seq<ContourView>;

    open spec fn view(&self) -> Seq<ContourView> {
        self.contours@.map_values(|c: Contour| c@)
    }
}

pub open spec fn contour_valid(c: ContourView) -> bool {
    &&& c.points.len() <= PATH_MAX
    &&& forall|i: int| 0 <= i < c.points.len() ==> (#[trigger] c.points[i]).valid()
}

pub open spec fn path_valid(p: Seq<ContourView>) -> bool {
    &&& p.len() <= PATH_MAX
    &&& forall|i: int| 0 <= i < p.len() ==> contour_valid(#[trigger] p[i])
}

pub open spec fn cross(a: Point, b: Point, p: Point) -> int {
    (b.x - a.x) * (p.y - a.y) - (b.y - a.y) * (p.x - a.x)
}

pub open spec fn dot(a: Point, b: Point, p: Point) -> int {
    (b.x - a.x) * (p.x - a.x) + (b.y - a.y) * (p.y - a.y)
}

pub open spec fn dist2(a: Point, p: Point) -> int {
    (p.x - a.x) * (p.x - a.x) + (p.y - a.y) * (p.y - a.y)
}

/// How an edge from `a` to `b` counts toward the winding number at `p`: +1 where it
/// crosses the ray to the right of `p` going down, -1 going up.
pub open spec fn edge_winding(a: Point, b: Point, p: Point) -> int {
    if a.y <= p.y && p.y < b.y && cross(a, b, p) > 0 {
        1
    } else if b.y <= p.y && p.y < a.y && cross(a, b, p) < 0 {
        -1
    } else {
        0
    }
}

/// The point after index `i`, wrapping round to the first.
pub open spec fn next_point(pts: Seq<Point>, i: int) -> Point {
    if i + 1 < pts.len() {
        pts[i + 1]
    } else {
        pts[0]
    }
}

/// Winding contributions of the first `n` edges of a closed contour.
pub open spec fn contour_winding_upto(pts: Seq<Point>, n: int, p: Point) -> int
    decreases n,
{
    if n <= 0 {
        0
    } else {
        contour_winding_upto(pts, n - 1, p) + edge_winding(pts[n - 1], next_point(pts, n - 1), p)
    }
}

pub open spec fn contour_winding(pts: Seq<Point>, p: Point) -> int {
    contour_winding_upto(pts, pts.len() as int, p)
}

pub open spec fn winding_upto(path: Seq<ContourView>, n: int, p: Point) -> int
    decreases n,
{
    if n <= 0 {
        0
    } else {
        winding_upto(path, n - 1, p) + contour_winding(path[n - 1].points, p)
    }
}

/// The winding number of the path around `p`, every contour closed.
pub open spec fn winding(path: Seq<ContourView>, p: Point) -> int {
    winding_upto(path, path.len() as int, p)
}

pub open spec fn fill_contains(path: Seq<ContourView>, rule: FillRule, p: Point) -> bool {
    match rule {
        FillRule::NonZero => winding(path, p) != 0,
        FillRule::EvenOdd => winding(path, p) % 2 != 0,
    }
}

/// How a stroke ends at the open ends of a contour.
#[derive(Clone, Copy, Debug, PartialEq, Eq, Structural)]
pub enum LineCap {
    /// Cut square at the end point.
    Butt,
    /// A half disc round the end point.
    Round,
    /// A half square reaching half the width past the end point.
    Square,
}

/// Whether `p`, lying past one end of a segment, is covered by that end's cap:
/// `corner` is its squared distance to the end point, `excess` how far past the
/// end it lies and `c` how far off the segment's line (both times the segment's
/// length), `len2` the squared length.
pub open spec fn in_cap(cap: LineCap, corner: int, excess: int, c: int, len2: int, width: int) -> bool {
    match cap {
        LineCap::Butt => false,
        LineCap::Round => 4 * corner <= width * width,
        LineCap::Square => 4 * excess * excess <= width * width * len2 && 4 * c * c <= width * width * len2,
    }
}

/// `p` lies in the stroke of width `width` along the segment from `a` to `b`, with
/// cap `ca` at `a` and `cb` at `b`. A segment of no length covers the disc of that
/// width round its point.
pub open spec fn near_segment(a: Point, b: Point, p: Point, width: int, ca: LineCap, cb: LineCap) -> bool {
    if dist2(a, b) == 0 {
        4 * dist2(a, p) <= width * width
    } else if dot(a, b, p) < 0 {
        in_cap(ca, dist2(a, p), -dot(a, b, p), cross(a, b, p), dist2(a, b), width)
    } else if dot(a, b, p) > dist2(a, b) {
        in_cap(cb, dist2(b, p), dot(a, b, p) - dist2(a, b), cross(a, b, p), dist2(a, b), width)
    } else {
        4 * cross(a, b, p) * cross(a, b, p) <= width * width * dist2(a, b)
    }
}

/// The cap at the start of segment `j`: the line cap at the first point of an open
/// contour, a round join elsewhere.
pub open spec fn start_cap(c: ContourView, j: int, cap: LineCap) -> LineCap {
    if !c.closed && j == 0 {
        cap
    } else {
        LineCap::Round
    }
}

/// The cap at the end of segment `j`: the line cap at the last point of an open
/// contour, a round join elsewhere.
pub open spec fn end_cap(c: ContourView, j: int, cap: LineCap) -> LineCap {
    if !c.closed && j == segment_count(c) - 1 {
        cap
    } else {
        LineCap::Round
    }
}

/// `p` lies exactly on the segment from `a` to `b`.
pub open spec fn on_segment(a: Point, b: Point, p: Point) -> bool {
    cross(a, b, p) == 0 && 0 <= dot(a, b, p) <= dist2(a, b)
}

/// The number of segments a stroke traces along a contour.
pub open spec fn segment_count(c: ContourView) -> int {
    if c.points.len() == 0 {
        0
    } else if c.closed {
        c.points.len() as int
    } else {
        c.points.len() - 1
    }
}

/// `p` lies in the path's stroke outline, undashed: within half of `width` of a
/// segment, with `cap` at the open ends of open contours and round joins between
/// segments. Dash patterns and the miter limit are not modelled.
pub open spec fn stroke_contains(path: Seq<ContourView>, width: int, cap: LineCap, p: Point) -> bool {
    exists|i: int, j: int|
        0 <= i < path.len() && 0 <= j < segment_count(path[i]) && near_segment(
            #[trigger] path[i].points[j],
            next_point(path[i].points, j),
            p,
            width,
            start_cap(path[i], j, cap),
            end_cap(path[i], j, cap),
        )
}

pub open spec fn on_path(path: Seq<ContourView>, p: Point) -> bool {
    exists|i: int, j: int|
        0 <= i < path.len() && 0 <= j < segment_count(path[i]) && on_segment(
            #[trigger] path[i].points[j],
            next_point(path[i].points, j),
            p,
        )
}

pub open spec fn rect_contour(r: Rect) -> ContourView {
    ContourView {
        points: seq![
            Point { x: r.left, y: r.top },
            Point { x: r.right, y: r.top },
            Point { x: r.right, y: r.bottom },
            Point { x: r.left, y: r.bottom },
        ],
        closed: true,
    }
}

proof fn lemma_diff_bounds(a: Point, b: Point, p: Point)
    requires
        a.valid(),
        b.valid(),
        p.valid(),
    ensures
        -0x0800_0000_0000_0000 <= cross(a, b, p) <= 0x0800_0000_0000_0000,
        -0x0800_0000_0000_0000 <= dot(a, b, p) <= 0x0800_0000_0000_0000,
        0 <= dist2(a, p) <= 0x0800_0000_0000_0000,
        0 <= dist2(b, p) <= 0x0800_0000_0000_0000,
        0 <= dist2(a, b) <= 0x0800_0000_0000_0000,
{
    let (ax, ay, bx, by, px, py) = (a.x as int, a.y as int, b.x as int, b.y as int, p.x as int, p.y as int);
    assert(-0x0800_0000_0000_0000 <= cross(a, b, p) <= 0x0800_0000_0000_0000) by (nonlinear_arith)
        requires
            -268435456 <= ax <= 268435456,
            -268435456 <= ay <= 268435456,
            -268435456 <= bx <= 268435456,
            -268435456 <= by <= 268435456,
            -268435456 <= px <= 268435456,
            -268435456 <= py <= 268435456,
            cross(a, b, p) == (bx - ax) * (py - ay) - (by - ay) * (px - ax),
    ;
    assert(-0x0800_0000_0000_0000 <= dot(a, b, p) <= 0x0800_0000_0000_0000) by (nonlinear_arith)
        requires
            -268435456 <= ax <= 268435456,
            -268435456 <= ay <= 268435456,
            -268435456 <= bx <= 268435456,
            -268435456 <= by <= 268435456,
            -268435456 <= px <= 268435456,
            -268435456 <= py <= 268435456,
            dot(a, b, p) == (bx - ax) * (px - ax) + (by - ay) * (py - ay),
    ;
    lemma_dist2_bound(a, p);
    lemma_dist2_bound(b, p);
    lemma_dist2_bound(a, b);
}

proof fn lemma_diff_product(u: i64, v: i64, w: i64, z: i64)
    requires
        in_range(u as int),
        in_range(v as int),
        in_range(w as int),
        in_range(z as int),
    ensures
        -0x0400_0000_0000_0000 <= (u - v) * (w - z) <= 0x0400_0000_0000_0000,
{
    let (a, b, c, d) = (u as int, v as int, w as int, z as int);
    assert(-0x0400_0000_0000_0000 <= (a - b) * (c - d) <= 0x0400_0000_0000_0000) by (nonlinear_arith)
        requires
            -268435456 <= a <= 268435456,
            -268435456 <= b <= 268435456,
            -268435456 <= c <= 268435456,
            -268435456 <= d <= 268435456,
    ;
}

proof fn lemma_segment_products(a: Point, b: Point, p: Point)
    requires
        a.valid(),
        b.valid(),
        p.valid(),
    ensures
        -0x0400_0000_0000_0000 <= (b.x - a.x) * (p.y - a.y) <= 0x0400_0000_0000_0000,
        -0x0400_0000_0000_0000 <= (b.y - a.y) * (p.x - a.x) <= 0x0400_0000_0000_0000,
        -0x0400_0000_0000_0000 <= (b.x - a.x) * (p.x - a.x) <= 0x0400_0000_0000_0000,
        -0x0400_0000_0000_0000 <= (b.y - a.y) * (p.y - a.y) <= 0x0400_0000_0000_0000,
        -0x0400_0000_0000_0000 <= (b.x - a.x) * (b.x - a.x) <= 0x0400_0000_0000_0000,
        -0x0400_0000_0000_0000 <= (b.y - a.y) * (b.y - a.y) <= 0x0400_0000_0000_0000,
        -0x0400_0000_0000_0000 <= (p.x - a.x) * (p.x - a.x) <= 0x0400_0000_0000_0000,
        -0x0400_0000_0000_0000 <= (p.y - a.y) * (p.y - a.y) <= 0x0400_0000_0000_0000,
        -0x0400_0000_0000_0000 <= (p.x - b.x) * (p.x - b.x) <= 0x0400_0000_0000_0000,
        -0x0400_0000_0000_0000 <= (p.y - b.y) * (p.y - b.y) <= 0x0400_0000_0000_0000,
{
    lemma_diff_product(b.x, a.x, p.y, a.y);
    lemma_diff_product(b.y, a.y, p.x, a.x);
    lemma_diff_product(b.x, a.x, p.x, a.x);
    lemma_diff_product(b.y, a.y, p.y, a.y);
    lemma_diff_product(b.x, a.x, b.x, a.x);
    lemma_diff_product(b.y, a.y, b.y, a.y);
    lemma_diff_product(p.x, a.x, p.x, a.x);
    lemma_diff_product(p.y, a.y, p.y, a.y);
    lemma_diff_product(p.x, b.x, p.x, b.x);
    lemma_diff_product(p.y, b.y, p.y, b.y);
}

proof fn lemma_dist2_bound(a: Point, p: Point)
    requires
        a.valid(),
        p.valid(),
    ensures
        0 <= dist2(a, p) <= 0x0800_0000_0000_0000,
{
    let (ax, ay, px, py) = (a.x as int, a.y as int, p.x as int, p.y as int);
    assert(0 <= dist2(a, p) <= 0x0800_0000_0000_0000) by (nonlinear_arith)
        requires
            -268435456 <= ax <= 268435456,
            -268435456 <= ay <= 268435456,
            -268435456 <= px <= 268435456,
            -268435456 <= py <= 268435456,
            dist2(a, p) == (px - ax) * (px - ax) + (py - ay) * (py - ay),
    ;
}

fn edge_winding_exec(a: Point, b: Point, p: Point) -> (r: i64)
    requires
        a.valid(),
        b.valid(),
        p.valid(),
    ensures
        r == edge_winding(a, b, p),
{
    proof {
        lemma_diff_bounds(a, b, p);
        lemma_segment_products(a, b, p);
    }
    let c: i64 = (b.x - a.x) * (p.y - a.y) - (b.y - a.y) * (p.x - a.x);
    if a.y <= p.y && p.y < b.y && c > 0 {
        1
    } else if b.y <= p.y && p.y < a.y && c < 0 {
        -1
    } else {
        0
    }
}

fn in_cap_exec(cap: LineCap, corner: i128, excess: i128, c: i128, len2: i128, w2: i128) -> (r: bool)
    requires
        0 <= corner <= 0x1000_0000_0000_0000,
        -0x2000_0000_0000_0000 <= excess <= 0x2000_0000_0000_0000,
        -0x0800_0000_0000_0000 <= c <= 0x0800_0000_0000_0000,
        0 <= len2 <= 0x0800_0000_0000_0000,
        0 <= w2 <= 0x2000_0000 * 0x2000_0000,
    ensures
        forall|width: int| width * width == w2 ==> r == in_cap(cap, corner as int, excess as int, c as int, len2 as int, width),
{
    proof {
        assert(0 <= excess * excess <= 0x2000_0000_0000_0000 * 0x2000_0000_0000_0000) by (nonlinear_arith)
            requires
                -0x2000_0000_0000_0000 <= excess <= 0x2000_0000_0000_0000,
        ;
        assert(0 <= c * c <= 0x0800_0000_0000_0000 * 0x0800_0000_0000_0000) by (nonlinear_arith)
            requires
                -0x0800_0000_0000_0000 <= c <= 0x0800_0000_0000_0000,
        ;
        assert(0 <= w2 * len2 <= 0x2000_0000 * 0x2000_0000 * 0x0800_0000_0000_0000) by (nonlinear_arith)
            requires
                0 <= w2 <= 0x2000_0000 * 0x2000_0000,
                0 <= len2 <= 0x0800_0000_0000_0000,
        ;
        assert(4 * excess * excess == 4 * (excess * excess)) by (nonlinear_arith);
        assert(4 * c * c == 4 * (c * c)) by (nonlinear_arith);
        assert forall|width: int| width * width == w2 implies #[trigger] (width * width * len2) == w2 * len2 by {
            assert(width * width * len2 == (width * width) * len2) by (nonlinear_arith);
        }
    }
    match cap {
        LineCap::Butt => false,
        LineCap::Round => 4 * corner <= w2,
        LineCap::Square => 4 * (excess * excess) <= w2 * len2 && 4 * (c * c) <= w2 * len2,
    }
}

fn near_segment_exec(a: Point, b: Point, p: Point, width: i64, ca: LineCap, cb: LineCap) -> (r: bool)
    requires
        a.valid(),
        b.valid(),
        p.valid(),
        0 <= width <= 0x2000_0000,
    ensures
        r == near_segment(a, b, p, width as int, ca, cb),
{
    proof {
        lemma_diff_bounds(a, b, p);
        lemma_segment_products(a, b, p);
        assert(0 <= width * width <= 0x2000_0000 * 0x2000_0000) by (nonlinear_arith)
            requires
                0 <= width <= 0x2000_0000,
        ;
    }
    let d: i64 = (b.x - a.x) * (p.x - a.x) + (b.y - a.y) * (p.y - a.y);
    let len2: i64 = (b.x - a.x) * (b.x - a.x) + (b.y - a.y) * (b.y - a.y);
    let c: i64 = (b.x - a.x) * (p.y - a.y) - (b.y - a.y) * (p.x - a.x);
    let da: i64 = (p.x - a.x) * (p.x - a.x) + (p.y - a.y) * (p.y - a.y);
    let db: i64 = (p.x - b.x) * (p.x - b.x) + (p.y - b.y) * (p.y - b.y);
    let w2: i128 = width as i128 * width as i128;
    if len2 == 0 {
        4 * (da as i128) <= w2
    } else if d < 0 {
        in_cap_exec(ca, da as i128, -(d as i128), c as i128, len2 as i128, w2)
    } else if d > len2 {
        in_cap_exec(cb, db as i128, d as i128 - len2 as i128, c as i128, len2 as i128, w2)
    } else {
        let c2: i128 = c as i128;
        proof {
            assert(0 <= c2 * c2 <= 0x0800_0000_0000_0000 * 0x0800_0000_0000_0000) by (nonlinear_arith)
                requires
                    -0x0800_0000_0000_0000 <= c2 <= 0x0800_0000_0000_0000,
            ;
            assert(0 <= w2 * len2 <= 0x2000_0000 * 0x2000_0000 * 0x0800_0000_0000_0000) by (nonlinear_arith)
                requires
                    w2 == width * width,
                    0 <= width <= 0x2000_0000,
                    0 <= len2 <= 0x0800_0000_0000_0000,
            ;
            assert(4 * c2 * c2 == 4 * (c2 * c2)) by (nonlinear_arith);
            assert(w2 * len2 == width * width * len2) by (nonlinear_arith)
                requires
                    w2 == width * width,
            ;
        }
        4 * (c2 * c2) <= w2 * (len2 as i128)
    }
}

impl Path {
    pub fn new() -> (r: Path)
        ensures
            r@ == Seq::<ContourView>::empty(),
    {
        Path { contours: Vec::new() }
    }

    pub fn is_empty(&self) -> (r: bool)
        ensures
            r == (self@.len() == 0),
    {
        self.contours.len() == 0
    }

    /// Starts a new contour at `p`.
    pub fn move_to(&mut self, p: Point)
        requires
            old(self)@.len() < PATH_MAX,
        ensures
            final(self)@ == old(self)@.push(ContourView { points: seq![p], closed: false }),
    {
        let mut points = Vec::new();
        points.push(p);
        self.contours.push(Contour { points, closed: false });
        proof {
            assert(final(self)@ =~= old(self)@.push(ContourView { points: seq![p], closed: false }));
        }
    }

    /// Adds `p` to the last contour, or starts one where there is none. Does nothing
    /// where the contour is already full.
    pub fn line_to(&mut self, p: Point)
        requires
            old(self)@.len() < PATH_MAX,
        ensures
            old(self)@.len() == 0 ==> final(self)@ == seq![ContourView { points: seq![p], closed: false }],
            old(self)@.len() > 0 ==> final(self)@.len() == old(self)@.len(),
            old(self)@.len() > 0 && old(self)@.last().points.len() < PATH_MAX ==> final(self)@ == old(
                self,
            )@.drop_last().push(
                ContourView {
                    points: old(self)@.last().points.push(p),
                    closed: old(self)@.last().closed,
                },
            ),
            old(self)@.len() > 0 && old(self)@.last().points.len() >= PATH_MAX ==> final(self)@ == old(
                self,
            )@,
    {
        let n = self.contours.len();
        if n == 0 {
            self.move_to(p);
            proof {
                assert(final(self)@ =~= seq![ContourView { points: seq![p], closed: false }]);
            }
        } else if self.contours[n - 1].points.len() < PATH_MAX {
            let mut last = self.contours.pop().unwrap();
            last.points.push(p);
            self.contours.push(last);
            proof {
                assert(final(self)@ =~= old(self)@.drop_last().push(
                    ContourView {
                        points: old(self)@.last().points.push(p),
                        closed: old(self)@.last().closed,
                    },
                ));
            }
        }
    }

    /// Marks the last contour closed.
    pub fn close(&mut self)
        ensures
            old(self)@.len() == 0 ==> final(self)@ == old(self)@,
            old(self)@.len() > 0 ==> final(self)@ == old(self)@.update(
                old(self)@.len() - 1,
                ContourView { points: old(self)@.last().points, closed: true },
            ),
    {
        let n = self.contours.len();
        if n > 0 {
            let mut last = self.contours.pop().unwrap();
            last.closed = true;
            self.contours.push(last);
            proof {
                assert(final(self)@ =~= old(self)@.update(
                    old(self)@.len() - 1,
                    ContourView { points: old(self)@.last().points, closed: true },
                ));
            }
        }
    }

    /// A path holding one closed rectangle, wound clockwise from its top-left corner.
    pub fn from_rect(r: Rect) -> (p: Path)
        ensures
            p@ == seq![rect_contour(r)],
    {
        let mut points = Vec::new();
        points.push(Point { x: r.left, y: r.top });
        points.push(Point { x: r.right, y: r.top });
        points.push(Point { x: r.right, y: r.bottom });
        points.push(Point { x: r.left, y: r.bottom });
        let mut contours = Vec::new();
        contours.push(Contour { points, closed: true });
        let p = Path { contours };
        proof {
            assert(p@[0].points =~= rect_contour(r).points);
            assert(p@ =~= seq![rect_contour(r)]);
        }
        p
    }
}

fn contour_winding_exec(pts: &Vec<Point>, p: Point) -> (r: i64)
    requires
        contour_valid(ContourView { points: pts@, closed: false }),
        p.valid(),
    ensures
        r == contour_winding(pts@, p),
        -(pts.len() as int) <= r <= pts.len(),
{
    let n = pts.len();
    let mut acc: i64 = 0;
    let mut j: usize = 0;
    while j < n
        invariant
            n == pts.len(),
            n <= PATH_MAX,
            0 <= j <= n,
            forall|k: int| 0 <= k < n ==> (#[trigger] pts@[k]).valid(),
            p.valid(),
            acc == contour_winding_upto(pts@, j as int, p),
            -(j as int) <= acc <= j,
        decreases n - j,
    {
        let b = if j + 1 < n { pts[j + 1] } else { pts[0] };
        let e = edge_winding_exec(pts[j], b, p);
        acc = acc + e;
        j = j + 1;
    }
    acc
}

fn stroke_contour_exec(c: &Contour, width: i64, cap: LineCap, p: Point) -> (r: bool)
    requires
        contour_valid(c@),
        p.valid(),
        0 <= width <= 0x2000_0000,
    ensures
        r == exists|j: int|
            0 <= j < segment_count(c@) && #[trigger] near_segment(
                c@.points[j],
                next_point(c@.points, j),
                p,
                width as int,
                start_cap(c@, j, cap),
                end_cap(c@, j, cap),
            ),
{
    let n = c.points.len();
    let segments: usize = if n == 0 {
        0
    } else if c.closed {
        n
    } else {
        n - 1
    };
    let mut j: usize = 0;
    while j < segments
        invariant
            n == c.points.len(),
            segments == segment_count(c@),
            contour_valid(c@),
            p.valid(),
            0 <= width <= 0x2000_0000,
            0 <= j <= segments,
            forall|k: int|
                0 <= k < j ==> !#[trigger] near_segment(
                    c@.points[k],
                    next_point(c@.points, k),
                    p,
                    width as int,
                    start_cap(c@, k, cap),
                    end_cap(c@, k, cap),
                ),
        decreases segments - j,
    {
        let b = if j + 1 < n { c.points[j + 1] } else { c.points[0] };
        assert(b == next_point(c@.points, j as int));
        let ca = if !c.closed && j == 0 { cap } else { LineCap::Round };
        let cb = if !c.closed && j + 1 == segments { cap } else { LineCap::Round };
        if near_segment_exec(c.points[j], b, p, width, ca, cb) {
            assert(near_segment(
                c@.points[j as int],
                next_point(c@.points, j as int),
                p,
                width as int,
                start_cap(c@, j as int, cap),
                end_cap(c@, j as int, cap),
            ));
            return true;
        }
        j = j + 1;
    }
    false
}

impl Path {
    /// The winding number of the path around `p`.
    pub fn winding_number(&self, p: Point) -> (r: i64)
        requires
            path_valid(self@),
            p.valid(),
        ensures
            r == winding(self@, p),
    {
        let mut total: i64 = 0;
        let mut i: usize = 0;
        while i < self.contours.len()
            invariant
                0 <= i <= self.contours.len(),
                self.contours.len() <= PATH_MAX,
                path_valid(self@),
                p.valid(),
                total == winding_upto(self@, i as int, p),
                -(i as int) * PATH_MAX <= total <= (i as int) * PATH_MAX,
            decreases self.contours.len() - i,
        {
            assert(self@[i as int] == self.contours@[i as int]@);
            assert(contour_valid(self@[i as int]));
            let w = contour_winding_exec(&self.contours[i].points, p);
            proof {
                assert((i as int) * PATH_MAX + PATH_MAX == (i as int + 1) * PATH_MAX) by (nonlinear_arith);
                assert((i as int + 1) * PATH_MAX <= PATH_MAX * PATH_MAX) by (nonlinear_arith)
                    requires
                        i < PATH_MAX,
                ;
            }
            total = total + w;
            i = i + 1;
        }
        total
    }

    /// Whether the filled path covers `p` under `rule`.
    pub fn contains(&self, p: Point, rule: FillRule) -> (r: bool)
        requires
            path_valid(self@),
            p.valid(),
        ensures
            r == fill_contains(self@, rule, p),
    {
        let w = self.winding_number(p);
        match rule {
            FillRule::NonZero => w != 0,
            FillRule::EvenOdd => w % 2 != 0,
        }
    }

    /// Whether `p` lies in the stroke outline of width `width`, with `cap` at the
    /// open ends of open contours and round joins, undashed.
    pub fn stroke_contains(&self, p: Point, width: i64, cap: LineCap) -> (r: bool)
        requires
            path_valid(self@),
            p.valid(),
            0 <= width <= 0x2000_0000,
        ensures
            r == stroke_contains(self@, width as int, cap, p),
    {
        let mut i: usize = 0;
        while i < self.contours.len()
            invariant
                0 <= i <= self.contours.len(),
                path_valid(self@),
                p.valid(),
                0 <= width <= 0x2000_0000,
                forall|k: int, j: int|
                    0 <= k < i && 0 <= j < segment_count(self@[k]) ==> !near_segment(
                        #[trigger] self@[k].points[j],
                        next_point(self@[k].points, j),
                        p,
                        width as int,
                        start_cap(self@[k], j, cap),
                        end_cap(self@[k], j, cap),
                    ),
            decreases self.contours.len() - i,
        {
            assert(self@[i as int] == self.contours@[i as int]@);
            if stroke_contour_exec(&self.contours[i], width, cap, p) {
                proof {
                    let c = self@[i as int];
                    let j = choose|j: int|
                        0 <= j < segment_count(c) && #[trigger] near_segment(
                            c.points[j],
                            next_point(c.points, j),
                            p,
                            width as int,
                            start_cap(c, j, cap),
                            end_cap(c, j, cap),
                        );
                    assert(near_segment(
                        self@[i as int].points[j],
                        next_point(self@[i as int].points, j),
                        p,
                        width as int,
                        start_cap(self@[i as int], j, cap),
                        end_cap(self@[i as int], j, cap),
                    ));
                }
                return true;
            }
            i = i + 1;
        }
        false
    }
}

/// The winding number of a rectangle's outline, the sum over its four edges.
proof fn lemma_rect_winding(r: Rect, p: Point)
    ensures
        winding(seq![rect_contour(r)], p) == edge_winding(
            Point { x: r.left, y: r.top },
            Point { x: r.right, y: r.top },
            p,
        ) + edge_winding(Point { x: r.right, y: r.top }, Point { x: r.right, y: r.bottom }, p)
            + edge_winding(Point { x: r.right, y: r.bottom }, Point { x: r.left, y: r.bottom }, p)
            + edge_winding(Point { x: r.left, y: r.bottom }, Point { x: r.left, y: r.top }, p),
{
    let pts = rect_contour(r).points;
    assert(next_point(pts, 0) == pts[1]);
    assert(next_point(pts, 1) == pts[2]);
    assert(next_point(pts, 2) == pts[3]);
    assert(next_point(pts, 3) == pts[0]);
    assert(contour_winding_upto(pts, 0, p) == 0);
    assert(contour_winding_upto(pts, 1, p) == edge_winding(pts[0], pts[1], p));
    assert(contour_winding_upto(pts, 2, p) == contour_winding_upto(pts, 1, p) + edge_winding(pts[1], pts[2], p));
    assert(contour_winding_upto(pts, 3, p) == contour_winding_upto(pts, 2, p) + edge_winding(pts[2], pts[3], p));
    assert(contour_winding_upto(pts, 4, p) == contour_winding_upto(pts, 3, p) + edge_winding(pts[3], pts[0], p));
    let path = seq![rect_contour(r)];
    assert(winding_upto(path, 0, p) == 0);
    assert(winding_upto(path, 1, p) == winding_upto(path, 0, p) + contour_winding(path[0].points, p));
}

/// A point strictly inside a rectangle is covered by the rectangle's path under the
/// non-zero rule, and a point strictly outside it is not.
pub proof fn lemma_rect_hit_test(r: Rect, p: Point)
    requires
        r.left < r.right,
        r.top < r.bottom,
    ensures
        (r.left < p.x < r.right && r.top < p.y < r.bottom) ==> fill_contains(
            seq![rect_contour(r)],
            FillRule::NonZero,
            p,
        ),
        (p.x < r.left || p.x > r.right || p.y < r.top || p.y > r.bottom) ==> !fill_contains(
            seq![rect_contour(r)],
            FillRule::NonZero,
            p,
        ),
{
    lemma_rect_winding(r, p);
    let lt = Point { x: r.left, y: r.top };
    let rt = Point { x: r.right, y: r.top };
    let rb = Point { x: r.right, y: r.bottom };
    let lb = Point { x: r.left, y: r.bottom };
    let h = r.bottom - r.top;
    assert(cross(rt, rb, p) == -h * (p.x - r.right)) by (nonlinear_arith)
        requires
            cross(rt, rb, p) == (rb.x - rt.x) * (p.y - rt.y) - (rb.y - rt.y) * (p.x - rt.x),
            rb.x == rt.x,
            h == rb.y - rt.y,
            rt.x == r.right,
    ;
    assert(cross(lb, lt, p) == h * (p.x - r.left)) by (nonlinear_arith)
        requires
            cross(lb, lt, p) == (lt.x - lb.x) * (p.y - lb.y) - (lt.y - lb.y) * (p.x - lb.x),
            lb.x == lt.x,
            h == lb.y - lt.y,
            lt.x == r.left,
    ;
    assert(edge_winding(lt, rt, p) == 0);
    assert(edge_winding(rb, lb, p) == 0);
    if p.x < r.right {
        assert(-h * (p.x - r.right) > 0) by (nonlinear_arith)
            requires
                h > 0,
                p.x < r.right,
        ;
    }
    if p.x > r.right {
        assert(-h * (p.x - r.right) < 0) by (nonlinear_arith)
            requires
                h > 0,
                p.x > r.right,
        ;
    }
    if p.x > r.left {
        assert(h * (p.x - r.left) > 0) by (nonlinear_arith)
            requires
                h > 0,
                p.x > r.left,
        ;
    }
    if p.x < r.left {
        assert(h * (p.x - r.left) < 0) by (nonlinear_arith)
            requires
                h > 0,
                p.x < r.left,
        ;
    }
}

/// A stroke of zero width covers only points that lie exactly on the path,
/// whatever its caps.
pub proof fn lemma_zero_width_stroke(path: Seq<ContourView>, cap: LineCap, p: Point)
    ensures
        stroke_contains(path, 0, cap, p) ==> on_path(path, p),
{
    if stroke_contains(path, 0, cap, p) {
        let (i, j) = choose|i: int, j: int|
            0 <= i < path.len() && 0 <= j < segment_count(path[i]) && near_segment(
                #[trigger] path[i].points[j],
                next_point(path[i].points, j),
                p,
                0,
                start_cap(path[i], j, cap),
                end_cap(path[i], j, cap),
            );
        let a = path[i].points[j];
        let b = next_point(path[i].points, j);
        lemma_zero_near_on(a, b, p, start_cap(path[i], j, cap), end_cap(path[i], j, cap));
        assert(on_segment(path[i].points[j], next_point(path[i].points, j), p));
    }
}

proof fn lemma_zero_near_on(a: Point, b: Point, p: Point, ca: LineCap, cb: LineCap)
    requires
        near_segment(a, b, p, 0, ca, cb),
    ensures
        on_segment(a, b, p),
{
    let (dx, dy) = (p.x - a.x, p.y - a.y);
    let (ex, ey) = (p.x - b.x, p.y - b.y);
    let (ux, uy) = (b.x - a.x, b.y - a.y);
    assert(dist2(a, b) >= 0) by (nonlinear_arith)
        requires
            dist2(a, b) == ux * ux + uy * uy,
    ;
    if dist2(a, b) == 0 {
        assert(dx == 0 && dy == 0) by (nonlinear_arith)
            requires
                4 * (dx * dx + dy * dy) <= 0 * 0,
        ;
        assert(cross(a, b, p) == 0 && dot(a, b, p) == 0) by (nonlinear_arith)
            requires
                dx == 0,
                dy == 0,
                cross(a, b, p) == ux * dy - uy * dx,
                dot(a, b, p) == ux * dx + uy * dy,
        ;
    } else if dot(a, b, p) < 0 {
        let cap = ca;
        if cap == LineCap::Round {
            assert(dx == 0 && dy == 0) by (nonlinear_arith)
                requires
                    4 * (dx * dx + dy * dy) <= 0 * 0,
            ;
            assert(dot(a, b, p) == 0) by (nonlinear_arith)
                requires
                    dx == 0,
                    dy == 0,
                    dot(a, b, p) == ux * dx + uy * dy,
            ;
        } else if cap == LineCap::Square {
            let e = -dot(a, b, p);
            assert(e == 0) by (nonlinear_arith)
                requires
                    4 * e * e <= 0 * 0 * dist2(a, b),
            ;
        }
    } else if dot(a, b, p) > dist2(a, b) {
        let cap = cb;
        if cap == LineCap::Round {
            assert(ex == 0 && ey == 0) by (nonlinear_arith)
                requires
                    4 * (ex * ex + ey * ey) <= 0 * 0,
            ;
            assert(dot(a, b, p) == dist2(a, b)) by (nonlinear_arith)
                requires
                    ex == 0,
                    ey == 0,
                    p.x == b.x,
                    p.y == b.y,
                    dot(a, b, p) == ux * (p.x - a.x) + uy * (p.y - a.y),
                    dist2(a, b) == ux * ux + uy * uy,
                    ux == b.x - a.x,
                    uy == b.y - a.y,
            ;
        } else if cap == LineCap::Square {
            let e = dot(a, b, p) - dist2(a, b);
            assert(e == 0) by (nonlinear_arith)
                requires
                    4 * e * e <= 0 * 0 * dist2(a, b),
            ;
        }
    } else {
        let c = cross(a, b, p);
        assert(c == 0) by (nonlinear_arith)
            requires
                4 * c * c <= 0 * 0 * dist2(a, b),
        ;
    }
}

impl Contour {
    pub fn duplicate(&self) -> (r: Contour)
        ensures
            r@ == self@,
    {
        Contour { points: crate::state::copy_vec(&self.points), closed: self.closed }
    }
}

impl Path {
    pub fn duplicate(&self) -> (r: Path)
        ensures
            r@ == self@,
    {
        let mut contours: Vec<Contour> = Vec::new();
        let mut i: usize = 0;
        while i < self.contours.len()
            invariant
                0 <= i <= self.contours.len(),
                contours.len() == i,
                forall|k: int| 0 <= k < i ==> (#[trigger] contours@[k])@ == self.contours@[k]@,
            decreases self.contours.len() - i,
        {
            contours.push(self.contours[i].duplicate());
            i = i + 1;
        }
        let r = Path { contours };
        assert(r@ =~= self@);
        r
    }
}

/// Every point of the path stays within the coordinate range when mapped by `m`.
pub open spec fn transform_fits(path: Seq<ContourView>, m: crate::geometry::Matrix) -> bool {
    forall|i: int, j: int|
        0 <= i < path.len() && 0 <= j < path[i].points.len() ==> in_range(
            crate::geometry::map_x(m, #[trigger] path[i].points[j].x as int, path[i].points[j].y as int),
        ) && in_range(crate::geometry::map_y(m, path[i].points[j].x as int, path[i].points[j].y as int))
}

/// The path with every point mapped by `m`.
pub open spec fn transformed(path: Seq<ContourView>, m: crate::geometry::Matrix) -> Seq<ContourView> {
    path.map_values(
        |c: ContourView|
            ContourView {
                points: c.points.map_values(
                    |q: Point|
                        Point {
                            x: crate::geometry::map_x(m, q.x as int, q.y as int) as i64,
                            y: crate::geometry::map_y(m, q.x as int, q.y as int) as i64,
                        },
                ),
                closed: c.closed,
            },
    )
}

impl Path {
    /// The path mapped by `m`, or `None` where a point would leave the coordinate
    /// range.
    pub fn transform(&self, m: &crate::geometry::Matrix) -> (r: Option<Path>)
        requires
            path_valid(self@),
            m.valid(),
        ensures
            r.is_some() == transform_fits(self@, *m),
            r matches Some(q) ==> q@ == transformed(self@, *m) && path_valid(q@),
    {
        let mut contours: Vec<Contour> = Vec::new();
        let mut i: usize = 0;
        while i < self.contours.len()
            invariant
                0 <= i <= self.contours.len(),
                path_valid(self@),
                m.valid(),
                contours.len() == i,
                forall|k: int| 0 <= k < i ==> (#[trigger] contours@[k])@ == transformed(self@, *m)[k],
                forall|k: int| 0 <= k < i ==> contour_valid(#[trigger] contours@[k]@),
                forall|k: int, j: int|
                    0 <= k < i && 0 <= j < self@[k].points.len() ==> in_range(
                        crate::geometry::map_x(*m, #[trigger] self@[k].points[j].x as int, self@[k].points[j].y as int),
                    ) && in_range(crate::geometry::map_y(*m, self@[k].points[j].x as int, self@[k].points[j].y as int)),
            decreases self.contours.len() - i,
        {
            let c = &self.contours[i];
            assert(self@[i as int] == c@);
            let mut points: Vec<Point> = Vec::new();
            let mut j: usize = 0;
            while j < c.points.len()
                invariant
                    0 <= j <= c.points.len(),
                    c.points.len() <= PATH_MAX,
                    contour_valid(c@),
                    m.valid(),
                    points.len() == j,
                    forall|k: int| 0 <= k < j ==> (#[trigger] points@[k]).valid(),
                    self@[i as int] == c@,
                    i < self@.len(),
                    forall|k: int|
                        0 <= k < j ==> in_range(
                            crate::geometry::map_x(*m, #[trigger] c.points@[k].x as int, c.points@[k].y as int),
                        ) && in_range(crate::geometry::map_y(*m, c.points@[k].x as int, c.points@[k].y as int)),
                    forall|k: int|
                        0 <= k < j ==> #[trigger] points@[k] == (Point {
                            x: crate::geometry::map_x(*m, c.points@[k].x as int, c.points@[k].y as int) as i64,
                            y: crate::geometry::map_y(*m, c.points@[k].x as int, c.points@[k].y as int) as i64,
                        }),
                decreases c.points.len() - j,
            {
                assert(c@.points[j as int] == c.points@[j as int]);
                match m.map_point(c.points[j]) {
                    Some(q) => points.push(q),
                    None => {
                        proof {
                            let q = self@[i as int].points[j as int];
                            assert(q == c.points@[j as int]);
                            if transform_fits(self@, *m) {
                                assert(in_range(crate::geometry::map_x(*m, q.x as int, q.y as int)) && in_range(
                                    crate::geometry::map_y(*m, q.x as int, q.y as int),
                                ));
                            }
                            assert(!transform_fits(self@, *m));
                        }
                        return None;
                    },
                }
                j = j + 1;
            }
            assert forall|j2: int| 0 <= j2 < self@[i as int].points.len() implies in_range(
                crate::geometry::map_x(*m, #[trigger] self@[i as int].points[j2].x as int, self@[i as int].points[j2].y as int),
            ) && in_range(crate::geometry::map_y(*m, self@[i as int].points[j2].x as int, self@[i as int].points[j2].y as int)) by {
                assert(self@[i as int].points[j2] == c.points@[j2]);
            }
            let nc = Contour { points, closed: c.closed };
            assert(nc@.points =~= transformed(self@, *m)[i as int].points);
            contours.push(nc);
            i = i + 1;
        }
        let r = Path { contours };
        assert(r@ =~= transformed(self@, *m));
        Some(r)
    }
}

/// Most segments a curve is flattened into.
pub const CURVE_SEGMENTS_MAX: usize = 1024;

/// The weighted average `(w0*a + w1*b + w2*c + w3*d) / total`, rounded down.
pub open spec fn blend4(a: int, b: int, c: int, d: int, w0: int, w1: int, w2: int, w3: int) -> int {
    crate::geometry::floor_div(w0 * a + w1 * b + w2 * c + w3 * d, w0 + w1 + w2 + w3)
}

/// The point at `t = k / n` on the quadratic Bezier curve from `a` through control
/// point `c` to `b`, rounded down on each axis.
pub open spec fn quad_point(a: Point, c: Point, b: Point, k: int, n: int) -> Point {
    let (w0, w1, w2) = ((n - k) * (n - k), 2 * k * (n - k), k * k);
    Point {
        x: blend4(a.x as int, c.x as int, b.x as int, 0, w0, w1, w2, 0) as i64,
        y: blend4(a.y as int, c.y as int, b.y as int, 0, w0, w1, w2, 0) as i64,
    }
}

/// The point at `t = k / n` on the cubic Bezier curve from `a` through `c1` and `c2`
/// to `b`, rounded down on each axis.
pub open spec fn cubic_point(a: Point, c1: Point, c2: Point, b: Point, k: int, n: int) -> Point {
    let (w0, w1, w2, w3) = ((n - k) * (n - k) * (n - k), 3 * k * (n - k) * (n - k), 3 * k * k * (n - k), k * k * k);
    Point {
        x: blend4(a.x as int, c1.x as int, c2.x as int, b.x as int, w0, w1, w2, w3) as i64,
        y: blend4(a.y as int, c1.y as int, c2.y as int, b.y as int, w0, w1, w2, w3) as i64,
    }
}

proof fn lemma_term_between(w: int, v: int)
    requires
        w >= 0,
        in_range(v),
    ensures
        -(crate::geometry::COORD_MAX as int) * w <= w * v <= (crate::geometry::COORD_MAX as int) * w,
{
    let m = crate::geometry::COORD_MAX as int;
    assert(-m * w <= w * v <= m * w) by (nonlinear_arith)
        requires
            w >= 0,
            -m <= v <= m,
    ;
}

proof fn lemma_blend4_bounded(a: int, b: int, c: int, d: int, w0: int, w1: int, w2: int, w3: int)
    requires
        in_range(a),
        in_range(b),
        in_range(c),
        in_range(d),
        w0 >= 0,
        w1 >= 0,
        w2 >= 0,
        w3 >= 0,
        w0 + w1 + w2 + w3 > 0,
    ensures
        in_range(blend4(a, b, c, d, w0, w1, w2, w3)),
{
    let m = crate::geometry::COORD_MAX as int;
    let t = w0 + w1 + w2 + w3;
    let num = w0 * a + w1 * b + w2 * c + w3 * d;
    lemma_term_between(w0, a);
    lemma_term_between(w1, b);
    lemma_term_between(w2, c);
    lemma_term_between(w3, d);
    assert(-m * t == -m * w0 + -m * w1 + -m * w2 + -m * w3) by (nonlinear_arith)
        requires
            t == w0 + w1 + w2 + w3,
    ;
    assert(m * t == m * w0 + m * w1 + m * w2 + m * w3) by (nonlinear_arith)
        requires
            t == w0 + w1 + w2 + w3,
    ;
    assert(-m <= num / t <= m) by (nonlinear_arith)
        requires
            -m * t <= num <= m * t,
            t > 0,
            m > 0,
    ;
}

fn weight_term(w: i64, v: i64) -> (r: i64)
    requires
        0 <= w <= 0x4000_0000,
        in_range(v as int),
    ensures
        r == w * v,
        -0x4000_0000 * crate::geometry::COORD_MAX <= r <= 0x4000_0000 * crate::geometry::COORD_MAX,
{
    assert(-0x4000_0000 * crate::geometry::COORD_MAX <= w * v <= 0x4000_0000 * crate::geometry::COORD_MAX) by (nonlinear_arith)
        requires
            0 <= w <= 0x4000_0000,
            -crate::geometry::COORD_MAX <= v <= crate::geometry::COORD_MAX,
    ;
    w * v
}

fn blend4_exec(a: i64, b: i64, c: i64, d: i64, w0: i64, w1: i64, w2: i64, w3: i64) -> (r: i64)
    requires
        in_range(a as int),
        in_range(b as int),
        in_range(c as int),
        in_range(d as int),
        0 <= w0 <= 0x4000_0000,
        0 <= w1 <= 0x4000_0000,
        0 <= w2 <= 0x4000_0000,
        0 <= w3 <= 0x4000_0000,
        w0 + w1 + w2 + w3 > 0,
    ensures
        r == blend4(a as int, b as int, c as int, d as int, w0 as int, w1 as int, w2 as int, w3 as int),
        in_range(r as int),
{
    let num: i64 = weight_term(w0, a) + weight_term(w1, b) + weight_term(w2, c) + weight_term(w3, d);
    let q = crate::geometry::div_floor(num as i128, (w0 + w1 + w2 + w3) as i128);
    proof {
        lemma_blend4_bounded(a as int, b as int, c as int, d as int, w0 as int, w1 as int, w2 as int, w3 as int);
    }
    q as i64
}

impl Path {
    /// Flattens a quadratic Bezier curve from the current point through `c` to `p`
    /// into `segments` straight segments, added to the last contour. Returns false,
    /// changing nothing, where there is no current point or the contour would grow
    /// too long.
    pub fn quad_to(&mut self, c: Point, p: Point, segments: usize) -> (r: bool)
        requires
            path_valid(old(self)@),
            c.valid(),
            p.valid(),
            1 <= segments <= CURVE_SEGMENTS_MAX,
        ensures
            path_valid(final(self)@),
            r == (old(self)@.len() > 0 && old(self)@.last().points.len() > 0 && old(self)@.last().points.len() + segments
                <= PATH_MAX),
            !r ==> final(self)@ == old(self)@,
            r ==> final(self)@ == old(self)@.drop_last().push(
                ContourView {
                    points: old(self)@.last().points + Seq::new(
                        segments as nat,
                        |i: int| quad_point(old(self)@.last().points.last(), c, p, i + 1, segments as int),
                    ),
                    closed: old(self)@.last().closed,
                },
            ),
    {
        let n = self.contours.len();
        if n == 0 || self.contours[n - 1].points.len() == 0 || self.contours[n - 1].points.len() > PATH_MAX - segments {
            return false;
        }
        let mut last = self.contours.pop().unwrap();
        let ghost before = last@;
        assert(old(self)@.last() == before);
        let start = last.points[last.points.len() - 1];
        assert(start == before.points.last());
        assert(contour_valid(before));
        let m = segments as i64;
        let mut k: i64 = 1;
        while k <= m
            invariant
                1 <= k <= m + 1,
                m == segments,
                1 <= m <= 1024,
                start.valid(),
                c.valid(),
                p.valid(),
                last.closed == before.closed,
                last.points@ == before.points + Seq::new((k - 1) as nat, |i: int| quad_point(start, c, p, i + 1, m as int)),
                contour_valid(last@),
                before.points.len() + segments <= PATH_MAX,
            decreases m + 1 - k,
        {
            proof {
                assert(0 <= (m - k) * (m - k) <= 1024 * 1024 && 0 <= 2 * k * (m - k) <= 2 * 1024 * 1024 && 0 <= k * k <= 1024 * 1024) by (nonlinear_arith)
                    requires
                        1 <= k <= m,
                        m <= 1024,
                ;
                assert((m - k) * (m - k) + 2 * k * (m - k) + k * k == m * m) by (nonlinear_arith);
                assert(m * m > 0) by (nonlinear_arith)
                    requires
                        m >= 1,
                ;
            }
            let w0 = (m - k) * (m - k);
            let w1 = 2 * k * (m - k);
            let w2 = k * k;
            let q = Point { x: blend4_exec(start.x, c.x, p.x, 0, w0, w1, w2, 0), y: blend4_exec(start.y, c.y, p.y, 0, w0, w1, w2, 0) };
            assert(q == quad_point(start, c, p, k as int, m as int));
            let ghost prev = last.points@;
            last.points.push(q);
            assert(last.points@ =~= before.points + Seq::new(k as nat, |i: int| quad_point(start, c, p, i + 1, m as int)));
            k = k + 1;
        }
        self.contours.push(last);
        proof {
            assert(self@ =~= old(self)@.drop_last().push(last@));
            assert forall|i: int| 0 <= i < self@.len() implies contour_valid(#[trigger] self@[i]) by {
                if i < self@.len() - 1 {
                    assert(self@[i] == old(self)@[i]);
                }
            }
        }
        true
    }

    /// Flattens a cubic Bezier curve from the current point through `c1` and `c2` to
    /// `p` into `segments` straight segments, added to the last contour. Returns
    /// false, changing nothing, where there is no current point or the contour would
    /// grow too long.
    pub fn cubic_to(&mut self, c1: Point, c2: Point, p: Point, segments: usize) -> (r: bool)
        requires
            path_valid(old(self)@),
            c1.valid(),
            c2.valid(),
            p.valid(),
            1 <= segments <= CURVE_SEGMENTS_MAX,
        ensures
            path_valid(final(self)@),
            r == (old(self)@.len() > 0 && old(self)@.last().points.len() > 0 && old(self)@.last().points.len() + segments
                <= PATH_MAX),
            !r ==> final(self)@ == old(self)@,
            r ==> final(self)@ == old(self)@.drop_last().push(
                ContourView {
                    points: old(self)@.last().points + Seq::new(
                        segments as nat,
                        |i: int| cubic_point(old(self)@.last().points.last(), c1, c2, p, i + 1, segments as int),
                    ),
                    closed: old(self)@.last().closed,
                },
            ),
    {
        let n = self.contours.len();
        if n == 0 || self.contours[n - 1].points.len() == 0 || self.contours[n - 1].points.len() > PATH_MAX - segments {
            return false;
        }
        let mut last = self.contours.pop().unwrap();
        let ghost before = last@;
        assert(old(self)@.last() == before);
        let start = last.points[last.points.len() - 1];
        assert(start == before.points.last());
        assert(contour_valid(before));
        let m = segments as i64;
        let mut k: i64 = 1;
        while k <= m
            invariant
                1 <= k <= m + 1,
                m == segments,
                1 <= m <= 1024,
                start.valid(),
                c1.valid(),
                c2.valid(),
                p.valid(),
                last.closed == before.closed,
                last.points@ == before.points + Seq::new((k - 1) as nat, |i: int| cubic_point(start, c1, c2, p, i + 1, m as int)),
                contour_valid(last@),
                before.points.len() + segments <= PATH_MAX,
            decreases m + 1 - k,
        {
            let j = m - k;
            proof {
                assert(0 <= j * j <= 1024 * 1024 && 0 <= k * k <= 1024 * 1024 && 0 <= k * j <= 1024 * 1024) by (nonlinear_arith)
                    requires
                        1 <= k <= m,
                        j == m - k,
                        m <= 1024,
                ;
                assert(0 <= j * j * j <= 0x4000_0000 && 0 <= k * k * k <= 0x4000_0000) by (nonlinear_arith)
                    requires
                        0 <= j * j <= 1024 * 1024,
                        0 <= k * k <= 1024 * 1024,
                        0 <= j <= 1024,
                        0 <= k <= 1024,
                ;
                assert(3 * k * j * j <= 0x4000_0000 && 3 * k * k * j <= 0x4000_0000) by (nonlinear_arith)
                    requires
                        1 <= k,
                        0 <= j,
                        k + j <= 1024,
                ;
                assert(0 <= 3 * k * j && 3 * k * j <= 3 * 1024 * 1024 && 0 <= 3 * k * k && 3 * k * k <= 3 * 1024 * 1024) by (nonlinear_arith)
                    requires
                        0 <= k * j <= 1024 * 1024,
                        0 <= k * k <= 1024 * 1024,
                ;
                assert(0 <= 3 * k * j * j && 0 <= 3 * k * k * j) by (nonlinear_arith)
                    requires
                        1 <= k,
                        0 <= j,
                ;
                assert(j * j * j + 3 * k * j * j + 3 * k * k * j + k * k * k > 0) by (nonlinear_arith)
                    requires
                        1 <= k,
                        j >= 0,
                ;
            }
            let w0 = j * j * j;
            let w1 = 3 * k * j * j;
            let w2 = 3 * k * k * j;
            let w3 = k * k * k;
            let q = Point {
                x: blend4_exec(start.x, c1.x, c2.x, p.x, w0, w1, w2, w3),
                y: blend4_exec(start.y, c1.y, c2.y, p.y, w0, w1, w2, w3),
            };
            assert(q == cubic_point(start, c1, c2, p, k as int, m as int));
            last.points.push(q);
            assert(last.points@ =~= before.points + Seq::new(k as nat, |i: int| cubic_point(start, c1, c2, p, i + 1, m as int)));
            k = k + 1;
        }
        self.contours.push(last);
        proof {
            assert(self@ =~= old(self)@.drop_last().push(last@));
            assert forall|i: int| 0 <= i < self@.len() implies contour_valid(#[trigger] self@[i]) by {
                if i < self@.len() - 1 {
                    assert(self@[i] == old(self)@[i]);
                }
            }
        }
        true
    }
}

} // verus!
