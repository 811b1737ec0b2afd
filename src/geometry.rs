//! Points with integer coordinates and the exact predicates on them:
//! orientation of three points, and whether a point lies strictly inside the
//! circle through three others.

use vstd::prelude::*;

verus! {

/// Largest magnitude of an input coordinate.
pub const COORD_LIMIT: i64 = 65536;

/// Largest magnitude of a coordinate that the in-circle test takes; the
/// bootstrap vertices of a triangulation stay within it.
pub const WORK_LIMIT: i64 = 268435456;

/// A point of the plane.
#[derive(Clone, Copy, Debug, PartialEq, Eq, Structural)]
pub struct Point2d {
    pub x: i64,
    pub y: i64,
}

/// Whether both coordinates of `p` have magnitude at most `lim`.
pub open spec fn within(p: Point2d, lim: int) -> bool {
    -lim <= p.x <= lim && -lim <= p.y <= lim
}

/// Twice the signed area of the triangle `a b c`: positive when the corners
/// run counter-clockwise, zero when they are collinear.
pub open spec fn orient_spec(a: Point2d, b: Point2d, c: Point2d) -> int {
    (b.x - a.x) * (c.y - a.y) - (b.y - a.y) * (c.x - a.x)
}

/// The in-circle determinant of `p` against `a b c`. When `a b c` run
/// counter-clockwise it is positive exactly when `p` lies strictly inside
/// their circumcircle, and negative exactly when it lies strictly outside.
pub open spec fn incircle_spec(a: Point2d, b: Point2d, c: Point2d, p: Point2d) -> int {
    let adx = a.x - p.x;
    let ady = a.y - p.y;
    let bdx = b.x - p.x;
    let bdy = b.y - p.y;
    let cdx = c.x - p.x;
    let cdy = c.y - p.y;
    (adx * adx + ady * ady) * (bdx * cdy - cdx * bdy) + (bdx * bdx + bdy * bdy) * (cdx * ady
        - adx * cdy) + (cdx * cdx + cdy * cdy) * (adx * bdy - bdx * ady)
}

/// Whether `p` lies strictly inside the circle through `a`, `b` and `c`;
/// false when the three are collinear and no such circle exists.
pub open spec fn in_circumcircle(a: Point2d, b: Point2d, c: Point2d, p: Point2d) -> bool {
    let o = orient_spec(a, b, c);
    let d = incircle_spec(a, b, c, p);
    (o > 0 && d > 0) || (o < 0 && d < 0)
}

/// A product of two bounded factors is bounded by the product of the
/// bounds.
pub proof fn lemma_mul_bound(x: int, y: int, bx: int, by: int)
    requires
        -bx <= x <= bx,
        -by <= y <= by,
    ensures
        -(bx * by) <= x * y <= bx * by,
{
    assert(-(bx * by) <= x * y <= bx * by) by (nonlinear_arith)
        requires
            -bx <= x <= bx,
            -by <= y <= by,
    ;
}

/// Twice the signed area of `a b c`.
pub fn orient(a: Point2d, b: Point2d, c: Point2d) -> (r: i128)
    requires
        within(a, WORK_LIMIT as int),
        within(b, WORK_LIMIT as int),
        within(c, WORK_LIMIT as int),
    ensures
        r == orient_spec(a, b, c),
{
    let bax = b.x as i128 - a.x as i128;
    let bay = b.y as i128 - a.y as i128;
    let cax = c.x as i128 - a.x as i128;
    let cay = c.y as i128 - a.y as i128;
    proof {
        let m: int = 2 * WORK_LIMIT;
        lemma_mul_bound(bax as int, cay as int, m, m);
        lemma_mul_bound(bay as int, cax as int, m, m);
    }
    bax * cay - bay * cax
}

/// Whether `p` lies strictly inside the circle through `a`, `b` and `c`.
/// Collinear `a b c` have no circle, and then no point is inside.
pub fn circumcircle_contains(a: Point2d, b: Point2d, c: Point2d, p: Point2d) -> (r: bool)
    requires
        within(a, WORK_LIMIT as int),
        within(b, WORK_LIMIT as int),
        within(c, WORK_LIMIT as int),
        within(p, WORK_LIMIT as int),
    ensures
        r == in_circumcircle(a, b, c, p),
{
    let o = orient(a, b, c);
    let adx = a.x as i128 - p.x as i128;
    let ady = a.y as i128 - p.y as i128;
    let bdx = b.x as i128 - p.x as i128;
    let bdy = b.y as i128 - p.y as i128;
    let cdx = c.x as i128 - p.x as i128;
    let cdy = c.y as i128 - p.y as i128;
    let m: Ghost<int> = Ghost(536870912int);
    let m2: Ghost<int> = Ghost(288230376151711744int);
    proof {
        lemma_mul_bound(adx as int, adx as int, m@, m@);
        lemma_mul_bound(ady as int, ady as int, m@, m@);
        lemma_mul_bound(bdx as int, bdx as int, m@, m@);
        lemma_mul_bound(bdy as int, bdy as int, m@, m@);
        lemma_mul_bound(cdx as int, cdx as int, m@, m@);
        lemma_mul_bound(cdy as int, cdy as int, m@, m@);
        lemma_mul_bound(bdx as int, cdy as int, m@, m@);
        lemma_mul_bound(cdx as int, bdy as int, m@, m@);
        lemma_mul_bound(cdx as int, ady as int, m@, m@);
        lemma_mul_bound(adx as int, cdy as int, m@, m@);
        lemma_mul_bound(adx as int, bdy as int, m@, m@);
        lemma_mul_bound(bdx as int, ady as int, m@, m@);
        assert(m@ == 2 * WORK_LIMIT);
        assert(m@ * m@ == m2@);
    }
    let alift = adx * adx + ady * ady;
    let blift = bdx * bdx + bdy * bdy;
    let clift = cdx * cdx + cdy * cdy;
    let bc = bdx * cdy - cdx * bdy;
    let ca = cdx * ady - adx * cdy;
    let ab = adx * bdy - bdx * ady;
    proof {
        lemma_mul_bound(alift as int, bc as int, 2 * m2@, 2 * m2@);
        lemma_mul_bound(blift as int, ca as int, 2 * m2@, 2 * m2@);
        lemma_mul_bound(clift as int, ab as int, 2 * m2@, 2 * m2@);
        assert((2 * m2@) * (2 * m2@) == 4 * (m2@ * m2@));
        assert(m2@ * m2@ == 83076749736557242056487941267521536int);
    }
    let d = alift * bc + blift * ca + clift * ab;
    (o > 0 && d > 0) || (o < 0 && d < 0)
}

/// Which half of the turn, measured counter-clockwise from the `+y` axis
/// within `[-pi, pi)`, holds the direction `(dx, dy)`: `0` for `[-pi, 0)`,
/// that is the downward direction and everything right of the `y` axis,
/// and `1` for `[0, pi)`. The zero vector counts as angle `0`.
pub open spec fn half_of(dx: int, dy: int) -> int {
    if dx > 0 || (dx == 0 && dy < 0) {
        0
    } else {
        1
    }
}

/// The cross product of `u` and `v`: positive when `v` turns
/// counter-clockwise from `u`.
pub open spec fn cross_spec(u: Point2d, v: Point2d) -> int {
    u.x * v.y - u.y * v.x
}

/// Whether direction `u` comes strictly before direction `v`, ordering
/// directions by their angle from the `+y` axis in `[-pi, pi)`.
pub open spec fn angle_before(u: Point2d, v: Point2d) -> bool {
    half_of(u.x as int, u.y as int) < half_of(v.x as int, v.y as int) || (half_of(
        u.x as int,
        u.y as int,
    ) == half_of(v.x as int, v.y as int) && cross_spec(u, v) > 0)
}

/// Largest magnitude of a direction coordinate that the angle order takes.
pub const DIR_LIMIT: i64 = 4611686018427387904;

fn half(dx: i64, dy: i64) -> (r: u8)
    ensures
        r == half_of(dx as int, dy as int),
{
    if dx > 0 || (dx == 0 && dy < 0) {
        0
    } else {
        1
    }
}

/// Whether direction `u` comes strictly before direction `v` by angle from
/// the `+y` axis.
pub fn is_angle_before(u: Point2d, v: Point2d) -> (r: bool)
    requires
        within(u, DIR_LIMIT as int),
        within(v, DIR_LIMIT as int),
    ensures
        r == angle_before(u, v),
{
    let hu = half(u.x, u.y);
    let hv = half(v.x, v.y);
    if hu != hv {
        hu < hv
    } else {
        proof {
            lemma_mul_bound(u.x as int, v.y as int, DIR_LIMIT as int, DIR_LIMIT as int);
            lemma_mul_bound(u.y as int, v.x as int, DIR_LIMIT as int, DIR_LIMIT as int);
            assert(DIR_LIMIT * DIR_LIMIT == 21267647932558653966460912964485513216int);
        }
        (u.x as i128) * (v.y as i128) - (u.y as i128) * (v.x as i128) > 0
    }
}

/// No direction comes both before and after another.
pub proof fn lemma_angle_before_asymmetric(u: Point2d, v: Point2d)
    ensures
        angle_before(u, v) ==> !angle_before(v, u),
{
    assert(cross_spec(v, u) == -cross_spec(u, v)) by (nonlinear_arith);
}

/// Whether each id of `items` is followed by one whose direction in `dirs`
/// does not come before its own.
pub open spec fn sorted_by_angle(items: Seq<usize>, dirs: Seq<Point2d>) -> bool {
    forall|k: int|
        0 <= k && k + 1 < items.len() ==> !angle_before(
            dirs[#[trigger] items[k + 1] as int],
            dirs[items[k] as int],
        )
}

/// Sorts the ids of `items` by the angle of their direction in `dirs`,
/// measured from the `+y` axis within `[-pi, pi)`: counter-clockwise,
/// starting from the downward direction.
pub fn sort_by_angle(items: &mut Vec<usize>, dirs: &Vec<Point2d>)
    requires
        forall|k: int| 0 <= k < old(items)@.len() ==> #[trigger] old(items)@[k] < dirs@.len(),
        forall|k: int| 0 <= k < dirs@.len() ==> within(#[trigger] dirs@[k], DIR_LIMIT as int),
    ensures
        final(items)@.to_multiset() == old(items)@.to_multiset(),
        sorted_by_angle(final(items)@, dirs@),
{
    broadcast use vstd::seq_lib::to_multiset_update;
    let n = items.len();
    if n == 0 {
        return;
    }
    let mut i: usize = 1;
    while i < n
        invariant
            1 <= i <= n,
            n == items@.len(),
            items@.to_multiset() == old(items)@.to_multiset(),
            forall|k: int| 0 <= k < items@.len() ==> #[trigger] items@[k] < dirs@.len(),
            forall|k: int| 0 <= k < dirs@.len() ==> within(#[trigger] dirs@[k], DIR_LIMIT as int),
            forall|k: int|
                0 <= k && k + 1 < i ==> !angle_before(
                    dirs@[#[trigger] items@[k + 1] as int],
                    dirs@[items@[k] as int],
                ),
        decreases n - i,
    {
        let mut j: usize = i;
        while j > 0 && is_angle_before(dirs[items[j]], dirs[items[j - 1]])
            invariant
                0 <= j <= i < n,
                n == items@.len(),
                items@.to_multiset() == old(items)@.to_multiset(),
                forall|k: int| 0 <= k < items@.len() ==> #[trigger] items@[k] < dirs@.len(),
                forall|k: int| 0 <= k < dirs@.len() ==> within(#[trigger] dirs@[k], DIR_LIMIT as int),
                forall|k: int|
                    0 <= k < i && k != j - 1 && k != j ==> !angle_before(
                        dirs@[#[trigger] items@[k + 1] as int],
                        dirs@[items@[k] as int],
                    ),
                0 < j < i ==> !angle_before(
                    dirs@[items@[j + 1] as int],
                    dirs@[items@[j - 1] as int],
                ),
                j < i ==> angle_before(dirs@[items@[j as int] as int], dirs@[items@[j + 1] as int]),
            decreases j,
        {
            let x = items[j];
            let y = items[j - 1];
            let ghost s0 = items@;
            proof {
                if j >= 2 {
                    assert(!angle_before(
                        dirs@[s0[(j - 2) + 1] as int],
                        dirs@[s0[j - 2] as int],
                    ));
                }
            }
            items.set(j, y);
            items.set(j - 1, x);
            proof {
                let s1 = s0.update(j as int, y);
                assert(items@ == s1.update(j - 1, x));
                assert(s1[j - 1] == y);
                let m0 = s0.to_multiset();
                vstd::seq_lib::to_multiset_update(s0, j as int, y);
                vstd::seq_lib::to_multiset_update(s1, j - 1, x);
                assert(s1.to_multiset() == m0.insert(y).remove(x));
                assert(items@.to_multiset() == m0.insert(y).remove(x).insert(x).remove(y));
                assert(m0.count(x) > 0) by {
                    vstd::seq_lib::to_multiset_contains(s0, x);
                    assert(s0[j as int] == x);
                    assert(s0.contains(x));
                }
                assert(m0.insert(y).remove(x).insert(x).remove(y) =~= m0);
            }
            j = j - 1;
        }
        proof {
            if j < i {
                lemma_angle_before_asymmetric(
                    dirs@[items@[j as int] as int],
                    dirs@[items@[j + 1] as int],
                );
            }
        }
        i = i + 1;
    }
}

} // verus!
