//! The circle through the three corners of a triangle, with its centre held
//! exactly as a fraction.

use vstd::prelude::*;
use crate::geometry::lemma_mul_bound;
use crate::geometry::{Point2d, within, orient, orient_spec, COORD_LIMIT};
use crate::triangle_node2d::TriangleNode2d;

verus! {

/// Twice the signed area of `a b c`, doubled: the common denominator of
/// the coordinates of their circumcentre.
pub open spec fn centre_denom(a: Point2d, b: Point2d, c: Point2d) -> int {
    2 * orient_spec(a, b, c)
}

/// The numerator of the `x` coordinate of the circumcentre of `a b c`.
pub open spec fn centre_x_num(a: Point2d, b: Point2d, c: Point2d) -> int {
    (a.x * a.x + a.y * a.y) * (b.y - c.y) + (b.x * b.x + b.y * b.y) * (c.y - a.y) + (c.x * c.x
        + c.y * c.y) * (a.y - b.y)
}

/// The numerator of the `y` coordinate of the circumcentre of `a b c`.
pub open spec fn centre_y_num(a: Point2d, b: Point2d, c: Point2d) -> int {
    (a.x * a.x + a.y * a.y) * (c.x - b.x) + (b.x * b.x + b.y * b.y) * (a.x - c.x) + (c.x * c.x
        + c.y * c.y) * (b.x - a.x)
}

/// `n / d` rounded to the nearest integer, halves away from zero.
pub open spec fn round_div(n: int, d: int) -> int
    recommends
        d > 0,
{
    if n >= 0 {
        (2 * n + d) / (2 * d)
    } else {
        -((-2 * n + d) / (2 * d))
    }
}

/// The circumcentre of `a b c` rounded to the nearest point of the integer
/// grid; meaningful when they are not collinear.
pub open spec fn rounded_centre(a: Point2d, b: Point2d, c: Point2d) -> Point2d {
    let d = centre_denom(a, b, c);
    let x = if d > 0 {
        round_div(centre_x_num(a, b, c), d)
    } else {
        round_div(-centre_x_num(a, b, c), -d)
    };
    let y = if d > 0 {
        round_div(centre_y_num(a, b, c), d)
    } else {
        round_div(-centre_y_num(a, b, c), -d)
    };
    Point2d { x: x as i64, y: y as i64 }
}

/// `n / d` rounded to the nearest integer, halves away from zero; the
/// result lies between zero and `n`.
pub fn round_quotient(n: i128, d: i128) -> (r: i128)
    requires
        0 < d <= 1267650600228229401496703205376,
        -21267647932558653966460912964485513216 <= n <= 21267647932558653966460912964485513216,
    ensures
        r == round_div(n as int, d as int),
        n >= 0 ==> 0 <= r <= n,
        n < 0 ==> n <= r <= 0,
{
    if n >= 0 {
        let q = (2 * n + d) / (2 * d);
        proof {
            assert(0 <= q <= n) by (nonlinear_arith)
                requires
                    q == (2 * n + d) / (2 * d),
                    d >= 1,
                    n >= 0,
            ;
        }
        q
    } else {
        let q = (-2 * n + d) / (2 * d);
        proof {
            assert(0 <= q <= -n) by (nonlinear_arith)
                requires
                    q == (-2 * n + d) / (2 * d),
                    d >= 1,
                    n < 0,
            ;
        }
        -q
    }
}

/// A rounded quotient of a numerator at most `d * lim` in magnitude is at
/// most `lim` in magnitude.
pub proof fn lemma_round_div_bound(n: int, d: int, lim: int)
    requires
        d > 0,
        lim >= 0,
        -(d * lim) <= n <= d * lim,
    ensures
        -lim <= round_div(n, d) <= lim,
{
    if n >= 0 {
        assert((2 * n + d) / (2 * d) <= lim) by (nonlinear_arith)
            requires
                d >= 1,
                0 <= n <= d * lim,
                lim >= 0,
        ;
        assert((2 * n + d) / (2 * d) >= 0) by (nonlinear_arith)
            requires
                d >= 1,
                n >= 0,
        ;
    } else {
        assert((-2 * n + d) / (2 * d) <= lim) by (nonlinear_arith)
            requires
                d >= 1,
                0 < -n <= d * lim,
                lim >= 0,
        ;
        assert((-2 * n + d) / (2 * d) >= 0) by (nonlinear_arith)
            requires
                d >= 1,
                n < 0,
        ;
    }
}

/// A circle whose centre is `(x_num / denom, y_num / denom)` with a
/// positive `denom`, and whose squared radius is `radius_sq_num / denom^2`.
pub struct Circumcircle {
    pub x_num: i128,
    pub y_num: i128,
    pub denom: i128,
    pub radius_sq_num: i128,
}

/// The squared distance from `p` to the centre, scaled by `denom^2`.
pub open spec fn scaled_dist_sq(c: Circumcircle, p: Point2d) -> int {
    (p.x * c.denom - c.x_num) * (p.x * c.denom - c.x_num) + (p.y * c.denom - c.y_num) * (p.y
        * c.denom - c.y_num)
}

fn lift(a: Point2d) -> (r: i128)
    requires
        within(a, COORD_LIMIT as int),
    ensures
        r == a.x * a.x + a.y * a.y,
        0 <= r <= 2 * 4294967296,
{
    proof {
        lemma_mul_bound(a.x as int, a.x as int, 65536, 65536);
        lemma_mul_bound(a.y as int, a.y as int, 65536, 65536);
        assert(a.x * a.x >= 0 && a.y * a.y >= 0) by (nonlinear_arith);
    }
    (a.x as i128) * (a.x as i128) + (a.y as i128) * (a.y as i128)
}

fn scaled_offset(coord: i64, denom: i128, num: i128) -> (r: i128)
    requires
        -65536 <= coord <= 65536,
        -68719476736 <= denom <= 68719476736,
        -4503599627370496 <= num <= 4503599627370496,
    ensures
        r == coord * denom - num,
        -9007199254740992 <= r <= 9007199254740992,
{
    proof {
        lemma_mul_bound(coord as int, denom as int, 65536, 68719476736);
    }
    (coord as i128) * denom - num
}

fn square(v: i128) -> (r: i128)
    requires
        -9007199254740992 <= v <= 9007199254740992,
    ensures
        r == v * v,
        0 <= r <= 81129638414606681695789005144064,
{
    proof {
        lemma_mul_bound(v as int, v as int, 9007199254740992, 9007199254740992);
        assert(v * v >= 0) by (nonlinear_arith);
    }
    v * v
}

impl Circumcircle {
    /// Whether the fields hold a circle of the plane within the input limit.
    pub open spec fn wf(&self) -> bool {
        &&& 0 < self.denom <= 68719476736
        &&& -4503599627370496 <= self.x_num <= 4503599627370496
        &&& -4503599627370496 <= self.y_num <= 4503599627370496
    }

    /// The circle through `a`, `b` and `c`, or `None` when they are
    /// collinear and no circle passes through all three.
    pub fn new(a: Point2d, b: Point2d, c: Point2d) -> (r: Option<Circumcircle>)
        requires
            within(a, COORD_LIMIT as int),
            within(b, COORD_LIMIT as int),
            within(c, COORD_LIMIT as int),
        ensures
            r.is_none() <==> orient_spec(a, b, c) == 0,
            r matches Some(cc) ==> {
                &&& cc.wf()
                &&& centre_denom(a, b, c) > 0 ==> cc.x_num == centre_x_num(a, b, c) && cc.y_num
                    == centre_y_num(a, b, c) && cc.denom == centre_denom(a, b, c)
                &&& centre_denom(a, b, c) < 0 ==> cc.x_num == -centre_x_num(a, b, c) && cc.y_num
                    == -centre_y_num(a, b, c) && cc.denom == -centre_denom(a, b, c)
                &&& cc.radius_sq_num == scaled_dist_sq(cc, a)
            },
    {
        let o = orient(a, b, c);
        if o == 0 {
            return None;
        }
        let la = lift(a);
        let lb = lift(b);
        let lc = lift(c);
        let ghost big: int = 8589934592int;
        proof {
            lemma_mul_bound(la as int, (b.y - c.y) as int, big, 131072);
            lemma_mul_bound(lb as int, (c.y - a.y) as int, big, 131072);
            lemma_mul_bound(lc as int, (a.y - b.y) as int, big, 131072);
            lemma_mul_bound(la as int, (c.x - b.x) as int, big, 131072);
            lemma_mul_bound(lb as int, (a.x - c.x) as int, big, 131072);
            lemma_mul_bound(lc as int, (b.x - a.x) as int, big, 131072);
            let m: int = 131072int;
            lemma_mul_bound((b.x - a.x) as int, (c.y - a.y) as int, m, m);
            lemma_mul_bound((b.y - a.y) as int, (c.x - a.x) as int, m, m);
        }
        let nx = la * (b.y as i128 - c.y as i128) + lb * (c.y as i128 - a.y as i128) + lc * (
        a.y as i128 - b.y as i128);
        let ny = la * (c.x as i128 - b.x as i128) + lb * (a.x as i128 - c.x as i128) + lc * (
        b.x as i128 - a.x as i128);
        let d = 2 * o;
        let (x_num, y_num, denom) = if d > 0 {
            (nx, ny, d)
        } else {
            (-nx, -ny, -d)
        };
        let ox = scaled_offset(a.x, denom, x_num);
        let oy = scaled_offset(a.y, denom, y_num);
        let radius_sq_num = square(ox) + square(oy);
        Some(Circumcircle { x_num, y_num, denom, radius_sq_num })
    }

    /// The centre, rounded to the nearest point of the integer grid.
    pub fn get_centre(&self) -> (r: Point2d)
        requires
            self.wf(),
        ensures
            r.x == round_div(self.x_num as int, self.denom as int),
            r.y == round_div(self.y_num as int, self.denom as int),
            within(r, 4503599627370496),
    {
        Point2d { x: rounded(self.x_num, self.denom), y: rounded(self.y_num, self.denom) }
    }

    /// The squared radius, scaled by `denom^2`.
    pub fn get_radius_squared(&self) -> (r: i128)
        ensures
            r == self.radius_sq_num,
    {
        self.radius_sq_num
    }

    /// Whether `point` lies strictly inside the circle.
    pub fn is_point_within_circle(&self, point: &Point2d) -> (r: bool)
        requires
            self.wf(),
            within(*point, COORD_LIMIT as int),
        ensures
            r == (scaled_dist_sq(*self, *point) < self.radius_sq_num),
    {
        let ox = scaled_offset(point.x, self.denom, self.x_num);
        let oy = scaled_offset(point.y, self.denom, self.y_num);
        square(ox) + square(oy) < self.radius_sq_num
    }
}

impl TriangleNode2d {
    /// The circle through the three corners, looked up in `vertex_lookup`;
    /// `None` when the corners are collinear.
    pub fn compute_circumcircle(&self, vertex_lookup: &Vec<Point2d>) -> (r: Option<Circumcircle>)
        requires
            self.ids()[0] < vertex_lookup@.len(),
            self.ids()[1] < vertex_lookup@.len(),
            self.ids()[2] < vertex_lookup@.len(),
            forall|k: int| 0 <= k < vertex_lookup@.len() ==> within(#[trigger] vertex_lookup@[k], COORD_LIMIT as int),
        ensures
            r.is_none() <==> orient_spec(
                self.corner(vertex_lookup@, 0),
                self.corner(vertex_lookup@, 1),
                self.corner(vertex_lookup@, 2),
            ) == 0,
            r matches Some(cc) ==> cc.wf() && cc.radius_sq_num == scaled_dist_sq(cc, self.corner(vertex_lookup@, 0)),
    {
        let a = vertex_lookup[self.get_vertex_a_id()];
        let b = vertex_lookup[self.get_vertex_b_id()];
        let c = vertex_lookup[self.get_vertex_c_id()];
        Circumcircle::new(a, b, c)
    }
}

fn rounded(n: i128, d: i128) -> (r: i64)
    requires
        0 < d <= 68719476736,
        -4503599627370496 <= n <= 4503599627370496,
    ensures
        r == round_div(n as int, d as int),
        -4503599627370496 <= r <= 4503599627370496,
{
    round_quotient(n, d) as i64
}

} // verus!
