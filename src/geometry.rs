//! Integer points, rectangles and affine transforms.
use vstd::prelude::*;

verus! {

/// How many coordinate units make one pixel: points, rectangles and lengths are
/// held in 1/256ths of a pixel, so sub-pixel positions are kept.
pub const SUBPIXELS: i64 = 256;

/// Largest magnitude a coordinate or a transform entry may have.
pub const COORD_MAX: i64 = 268435456;

pub open spec fn in_range(v: int) -> bool {
    -COORD_MAX <= v <= COORD_MAX
}

#[derive(Clone, Copy, Debug, PartialEq, Eq, Structural)]
pub struct Point {
    pub x: i64,
    pub y: i64,
}

impl Point {
    pub open spec fn valid(self) -> bool {
        in_range(self.x as int) && in_range(self.y as int)
    }

    pub fn new(x: i64, y: i64) -> (r: Point)
        ensures
            r.x == x,
            r.y == y,
    {
        Point { x, y }
    }
}

/// An axis-aligned rectangle given by its edges.
#[derive(Clone, Copy, Debug, PartialEq, Eq, Structural)]
pub struct Rect {
    pub left: i64,
    pub top: i64,
    pub right: i64,
    pub bottom: i64,
}

impl Rect {
    pub open spec fn valid(self) -> bool {
        in_range(self.left as int) && in_range(self.top as int) && in_range(self.right as int)
            && in_range(self.bottom as int)
    }

    pub open spec fn from_size_spec(width: i64, height: i64) -> Rect {
        Rect { left: 0, top: 0, right: width, bottom: height }
    }

    pub fn from_size(width: i64, height: i64) -> (r: Rect)
        ensures
            r == Rect::from_size_spec(width, height),
    {
        Rect { left: 0, top: 0, right: width, bottom: height }
    }

    pub fn width(&self) -> (r: i64)
        requires
            self.valid(),
        ensures
            r == self.right - self.left,
    {
        self.right - self.left
    }

    pub fn height(&self) -> (r: i64)
        requires
            self.valid(),
        ensures
            r == self.bottom - self.top,
    {
        self.bottom - self.top
    }
}

/// The value of 1.0 in a transform's scale and skew entries.
pub const MATRIX_UNIT: i64 = 65536;

/// An affine transform with fixed-point scale and skew (`MATRIX_UNIT` is 1.0) and a
/// translation in coordinate units: `x' = (sx*x + kx*y) / MATRIX_UNIT + tx` and
/// `y' = (ky*x + sy*y) / MATRIX_UNIT + ty`, each quotient rounded down. So it holds
/// fractional scales, any rotation to the entries' precision, and shears.
#[derive(Clone, Copy, Debug, PartialEq, Eq, Structural)]
pub struct Matrix {
    pub sx: i64,
    pub kx: i64,
    pub tx: i64,
    pub ky: i64,
    pub sy: i64,
    pub ty: i64,
}

pub open spec fn map_x(m: Matrix, x: int, y: int) -> int {
    floor_div(m.sx * x + m.kx * y, MATRIX_UNIT as int) + m.tx
}

pub open spec fn map_y(m: Matrix, x: int, y: int) -> int {
    floor_div(m.ky * x + m.sy * y, MATRIX_UNIT as int) + m.ty
}

/// The determinant of the scale and skew entries (`MATRIX_UNIT` squared is 1.0).
pub open spec fn determinant(m: Matrix) -> int {
    m.sx * m.sy - m.kx * m.ky
}

/// `n / d` rounded toward negative infinity.
pub open spec fn floor_div(n: int, d: int) -> int {
    if d > 0 {
        n / d
    } else {
        (-n) / (-d)
    }
}

/// The point whose image under `m` is `(x, y)`, rounded down on each axis; `(x, y)`
/// itself where `m` has no inverse.
pub open spec fn local_x(m: Matrix, x: int, y: int) -> int {
    if determinant(m) == 0 {
        x
    } else {
        floor_div(MATRIX_UNIT * (m.sy * (x - m.tx) - m.kx * (y - m.ty)), determinant(m))
    }
}

pub open spec fn local_y(m: Matrix, x: int, y: int) -> int {
    if determinant(m) == 0 {
        y
    } else {
        floor_div(MATRIX_UNIT * (m.sx * (y - m.ty) - m.ky * (x - m.tx)), determinant(m))
    }
}

impl Matrix {
    pub open spec fn valid(self) -> bool {
        in_range(self.sx as int) && in_range(self.kx as int) && in_range(self.tx as int)
            && in_range(self.ky as int) && in_range(self.sy as int) && in_range(self.ty as int)
    }

    pub fn identity() -> (r: Matrix)
        ensures
            r == (Matrix { sx: MATRIX_UNIT, kx: 0, tx: 0, ky: 0, sy: MATRIX_UNIT, ty: 0 }),
    {
        Matrix { sx: MATRIX_UNIT, kx: 0, tx: 0, ky: 0, sy: MATRIX_UNIT, ty: 0 }
    }

    pub fn translate(dx: i64, dy: i64) -> (r: Matrix)
        ensures
            r == (Matrix { sx: MATRIX_UNIT, kx: 0, tx: dx, ky: 0, sy: MATRIX_UNIT, ty: dy }),
    {
        Matrix { sx: MATRIX_UNIT, kx: 0, tx: dx, ky: 0, sy: MATRIX_UNIT, ty: dy }
    }

    /// The image of a point, or `None` where it leaves the coordinate range.
    pub fn map_point(&self, p: Point) -> (r: Option<Point>)
        requires
            self.valid(),
            p.valid(),
        ensures
            r.is_some() == (in_range(map_x(*self, p.x as int, p.y as int)) && in_range(
                map_y(*self, p.x as int, p.y as int),
            )),
            r matches Some(q) ==> q.x == map_x(*self, p.x as int, p.y as int) && q.y == map_y(
                *self,
                p.x as int,
                p.y as int,
            ),
    {
        proof {
            lemma_product_bound(self.sx as int, p.x as int);
            lemma_product_bound(self.kx as int, p.y as int);
            lemma_product_bound(self.ky as int, p.x as int);
            lemma_product_bound(self.sy as int, p.y as int);
        }
        let nx: i128 = self.sx as i128 * p.x as i128 + self.kx as i128 * p.y as i128;
        let ny: i128 = self.ky as i128 * p.x as i128 + self.sy as i128 * p.y as i128;
        let qx = div_floor(nx, MATRIX_UNIT as i128);
        let qy = div_floor(ny, MATRIX_UNIT as i128);
        proof {
            lemma_quotient_range(nx as int, MATRIX_UNIT as int);
            lemma_quotient_range(ny as int, MATRIX_UNIT as int);
        }
        let x = qx + self.tx as i128;
        let y = qy + self.ty as i128;
        if -(COORD_MAX as i128) <= x && x <= COORD_MAX as i128 && -(COORD_MAX as i128) <= y && y <= COORD_MAX as i128 {
            Some(Point { x: x as i64, y: y as i64 })
        } else {
            None
        }
    }
}

proof fn lemma_product_bound(a: int, b: int)
    requires
        in_range(a),
        in_range(b),
    ensures
        -(COORD_MAX * COORD_MAX) <= a * b <= COORD_MAX * COORD_MAX,
{
    assert(-(COORD_MAX * COORD_MAX) <= a * b <= COORD_MAX * COORD_MAX) by (nonlinear_arith)
        requires
            -COORD_MAX <= a <= COORD_MAX,
            -COORD_MAX <= b <= COORD_MAX,
            COORD_MAX == 268435456,
    ;
}

/// `a / b` rounded down, for a positive or negative `b`.
pub(crate) fn div_floor(a: i128, b: i128) -> (r: i128)
    requires
        b != 0,
        -0x7fff_ffff_ffff_ffff_ffff_ffff_ffff <= a <= 0x7fff_ffff_ffff_ffff_ffff_ffff_ffff,
        -0x7fff_ffff_ffff_ffff_ffff_ffff_ffff <= b <= 0x7fff_ffff_ffff_ffff_ffff_ffff_ffff,
    ensures
        r == floor_div(a as int, b as int),
{
    let (n, d) = if b < 0 { (-a, -b) } else { (a, b) };
    if n >= 0 {
        let q = (n as u128 / d as u128) as i128;
        q
    } else {
        let m: u128 = (-n) as u128;
        let du: u128 = d as u128;
        let c: u128 = (m + du - 1) / du;
        proof {
            let ni = n as int;
            let di = d as int;
            assert(c == (-ni + di - 1) / di);
            assert(n / d == -(c as int)) by (nonlinear_arith)
                requires
                    c == (-ni + di - 1) / di,
                    di > 0,
                    ni < 0,
                    ni == n,
                    di == d,
            ;
        }
        -(c as i128)
    }
}

impl Matrix {
    /// The point that maps onto `(x, y)`, rounded down; `(x, y)` unchanged where the
    /// transform has no inverse; `None` where that point leaves the coordinate range.
    pub fn in_local_coordinates(&self, x: i64, y: i64) -> (r: Option<Point>)
        requires
            self.valid(),
            in_range(x as int),
            in_range(y as int),
        ensures
            r.is_some() == (in_range(local_x(*self, x as int, y as int)) && in_range(local_y(*self, x as int, y as int))),
            r matches Some(p) ==> p.x == local_x(*self, x as int, y as int) && p.y == local_y(*self, x as int, y as int),
    {
        let sx = self.sx as i128;
        let kx = self.kx as i128;
        let ky = self.ky as i128;
        let sy = self.sy as i128;
        let dx = x as i128 - self.tx as i128;
        let dy = y as i128 - self.ty as i128;
        proof {
            lemma_product_bound(self.sx as int, self.sy as int);
            lemma_product_bound(self.kx as int, self.ky as int);
            lemma_wide_product_bound(sy as int, dx as int);
            lemma_wide_product_bound(kx as int, dy as int);
            lemma_wide_product_bound(sx as int, dy as int);
            lemma_wide_product_bound(ky as int, dx as int);
        }
        let det = sx * sy - kx * ky;
        if det == 0 {
            Some(Point { x, y })
        } else {
            let nx = sy * dx - kx * dy;
            let ny = sx * dy - ky * dx;
            proof {
                assert(-(0x1_0000 * 4 * COORD_MAX * COORD_MAX) <= 0x1_0000 * nx <= 0x1_0000 * 4 * COORD_MAX * COORD_MAX) by (nonlinear_arith)
                    requires
                        -(4 * COORD_MAX * COORD_MAX) <= nx <= 4 * COORD_MAX * COORD_MAX,
                ;
                assert(-(0x1_0000 * 4 * COORD_MAX * COORD_MAX) <= 0x1_0000 * ny <= 0x1_0000 * 4 * COORD_MAX * COORD_MAX) by (nonlinear_arith)
                    requires
                        -(4 * COORD_MAX * COORD_MAX) <= ny <= 4 * COORD_MAX * COORD_MAX,
                ;
            }
            let lx = div_floor(MATRIX_UNIT as i128 * nx, det);
            let ly = div_floor(MATRIX_UNIT as i128 * ny, det);
            if -(COORD_MAX as i128) <= lx && lx <= COORD_MAX as i128 && -(COORD_MAX as i128) <= ly && ly <= COORD_MAX as i128 {
                Some(Point { x: lx as i64, y: ly as i64 })
            } else {
                None
            }
        }
    }
}

proof fn lemma_wide_product_bound(a: int, b: int)
    requires
        in_range(a),
        -2 * COORD_MAX <= b <= 2 * COORD_MAX,
    ensures
        -(2 * COORD_MAX * COORD_MAX) <= a * b <= 2 * COORD_MAX * COORD_MAX,
{
    assert(-(2 * COORD_MAX * COORD_MAX) <= a * b <= 2 * COORD_MAX * COORD_MAX) by (nonlinear_arith)
        requires
            -COORD_MAX <= a <= COORD_MAX,
            -2 * COORD_MAX <= b <= 2 * COORD_MAX,
            COORD_MAX == 268435456,
    ;
}

proof fn lemma_quotient_range(n: int, d: int)
    requires
        d != 0,
        -(4 * COORD_MAX * COORD_MAX) <= n <= 4 * COORD_MAX * COORD_MAX,
    ensures
        -(4 * COORD_MAX * COORD_MAX) <= floor_div(n, d) <= 4 * COORD_MAX * COORD_MAX,
{
    let k = 4 * COORD_MAX * COORD_MAX;
    let (nn, dd) = if d > 0 { (n, d) } else { (-n, -d) };
    assert(floor_div(n, d) == nn / dd);
    assert(-k <= nn / dd <= k) by (nonlinear_arith)
        requires
            dd > 0,
            -k <= nn <= k,
            k > 0,
    ;
}

pub(crate) proof fn lemma_div_exact(x: int, d: int)
    requires
        d != 0,
    ensures
        (d * x) / d == x,
{
    vstd::arithmetic::div_mod::lemma_fundamental_div_mod(d * x, d);
    let q = (d * x) / d;
    let r = (d * x) % d;
    assert(0 <= r < d || 0 <= r < -d);
    assert(q == x) by (nonlinear_arith)
        requires
            d * x == d * q + r,
            (d > 0 && 0 <= r < d) || (d < 0 && 0 <= r < -d),
    ;
}

} // verus!
