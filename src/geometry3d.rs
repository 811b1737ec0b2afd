//! Points of space with integer coordinates, and the exact predicates on
//! them: orientation of four points, and whether a point lies strictly
//! inside the sphere through four others.

use vstd::prelude::*;
use crate::geometry::lemma_mul_bound;

verus! {

/// Largest magnitude of an input coordinate in space.
pub const COORD3_LIMIT: i64 = 4096;

/// Largest magnitude of a coordinate that the in-sphere test takes; the
/// bootstrap vertices of a tetrahedralization stay within it.
pub const WORK3_LIMIT: i64 = 4194304;

/// A point of space.
#[derive(Clone, Copy, Debug, PartialEq, Eq, Structural)]
pub struct Point3d {
    pub x: i64,
    pub y: i64,
    pub z: i64,
}

/// Whether all three coordinates of `p` have magnitude at most `lim`.
pub open spec fn within3(p: Point3d, lim: int) -> bool {
    -lim <= p.x <= lim && -lim <= p.y <= lim && -lim <= p.z <= lim
}

/// The determinant of the rows `a`, `b`, `c`.
pub open spec fn det3(
    ax: int,
    ay: int,
    az: int,
    bx: int,
    by: int,
    bz: int,
    cx: int,
    cy: int,
    cz: int,
) -> int {
    ax * (by * cz - bz * cy) - ay * (bx * cz - bz * cx) + az * (bx * cy - by * cx)
}

/// Six times the signed volume of the tetrahedron `a b c d`; zero when the
/// four are coplanar.
pub open spec fn orient3_spec(a: Point3d, b: Point3d, c: Point3d, d: Point3d) -> int {
    det3(
        b.x - a.x,
        b.y - a.y,
        b.z - a.z,
        c.x - a.x,
        c.y - a.y,
        c.z - a.z,
        d.x - a.x,
        d.y - a.y,
        d.z - a.z,
    )
}

/// The squared length of `(x, y, z)`.
pub open spec fn lift3(x: int, y: int, z: int) -> int {
    x * x + y * y + z * z
}

/// The in-sphere determinant of `p` against `a b c d`: its sign is the
/// opposite of the orientation of `a b c d` exactly when `p` lies strictly
/// inside their circumsphere.
pub open spec fn insphere_spec(a: Point3d, b: Point3d, c: Point3d, d: Point3d, p: Point3d) -> int {
    let (ax, ay, az) = (a.x - p.x, a.y - p.y, a.z - p.z);
    let (bx, by, bz) = (b.x - p.x, b.y - p.y, b.z - p.z);
    let (cx, cy, cz) = (c.x - p.x, c.y - p.y, c.z - p.z);
    let (dx, dy, dz) = (d.x - p.x, d.y - p.y, d.z - p.z);
    -lift3(ax, ay, az) * det3(bx, by, bz, cx, cy, cz, dx, dy, dz) + lift3(bx, by, bz) * det3(
        ax,
        ay,
        az,
        cx,
        cy,
        cz,
        dx,
        dy,
        dz,
    ) - lift3(cx, cy, cz) * det3(ax, ay, az, bx, by, bz, dx, dy, dz) + lift3(dx, dy, dz) * det3(
        ax,
        ay,
        az,
        bx,
        by,
        bz,
        cx,
        cy,
        cz,
    )
}

/// Whether `p` lies strictly inside the sphere through `a`, `b`, `c` and
/// `d`; false when the four are coplanar and no such sphere exists.
pub open spec fn in_circumsphere(a: Point3d, b: Point3d, c: Point3d, d: Point3d, p: Point3d) -> bool {
    let o = orient3_spec(a, b, c, d);
    let s = insphere_spec(a, b, c, d, p);
    (o > 0 && s < 0) || (o < 0 && s > 0)
}

/// The determinant of three rows whose entries have magnitude at most
/// `2^23`.
fn det3_exec(
    ax: i128,
    ay: i128,
    az: i128,
    bx: i128,
    by: i128,
    bz: i128,
    cx: i128,
    cy: i128,
    cz: i128,
) -> (r: i128)
    requires
        -8388608 <= ax <= 8388608,
        -8388608 <= ay <= 8388608,
        -8388608 <= az <= 8388608,
        -8388608 <= bx <= 8388608,
        -8388608 <= by <= 8388608,
        -8388608 <= bz <= 8388608,
        -8388608 <= cx <= 8388608,
        -8388608 <= cy <= 8388608,
        -8388608 <= cz <= 8388608,
    ensures
        r == det3(
            ax as int,
            ay as int,
            az as int,
            bx as int,
            by as int,
            bz as int,
            cx as int,
            cy as int,
            cz as int,
        ),
        -3541774862152233910272 <= r <= 3541774862152233910272,
{
    let m: i128 = 8388608;
    proof {
        lemma_mul_bound(by as int, cz as int, 8388608, 8388608);
        lemma_mul_bound(bz as int, cy as int, 8388608, 8388608);
        lemma_mul_bound(bx as int, cz as int, 8388608, 8388608);
        lemma_mul_bound(bz as int, cx as int, 8388608, 8388608);
        lemma_mul_bound(bx as int, cy as int, 8388608, 8388608);
        lemma_mul_bound(by as int, cx as int, 8388608, 8388608);
    }
    let m1 = by * cz - bz * cy;
    let m2 = bx * cz - bz * cx;
    let m3 = bx * cy - by * cx;
    proof {
        lemma_mul_bound(ax as int, m1 as int, 8388608, 140737488355328);
        lemma_mul_bound(ay as int, m2 as int, 8388608, 140737488355328);
        lemma_mul_bound(az as int, m3 as int, 8388608, 140737488355328);
    }
    ax * m1 - ay * m2 + az * m3
}

/// Six times the signed volume of `a b c d`.
pub fn orient3(a: Point3d, b: Point3d, c: Point3d, d: Point3d) -> (r: i128)
    requires
        within3(a, WORK3_LIMIT as int),
        within3(b, WORK3_LIMIT as int),
        within3(c, WORK3_LIMIT as int),
        within3(d, WORK3_LIMIT as int),
    ensures
        r == orient3_spec(a, b, c, d),
{
    det3_exec(
        b.x as i128 - a.x as i128,
        b.y as i128 - a.y as i128,
        b.z as i128 - a.z as i128,
        c.x as i128 - a.x as i128,
        c.y as i128 - a.y as i128,
        c.z as i128 - a.z as i128,
        d.x as i128 - a.x as i128,
        d.y as i128 - a.y as i128,
        d.z as i128 - a.z as i128,
    )
}

fn lift_exec(x: i128, y: i128, z: i128) -> (r: i128)
    requires
        -8388608 <= x <= 8388608,
        -8388608 <= y <= 8388608,
        -8388608 <= z <= 8388608,
    ensures
        r == lift3(x as int, y as int, z as int),
        0 <= r <= 211106232532992,
{
    proof {
        lemma_mul_bound(x as int, x as int, 8388608, 8388608);
        lemma_mul_bound(y as int, y as int, 8388608, 8388608);
        lemma_mul_bound(z as int, z as int, 8388608, 8388608);
        assert(x * x >= 0 && y * y >= 0 && z * z >= 0) by (nonlinear_arith);
    }
    x * x + y * y + z * z
}

/// Whether `p` lies strictly inside the sphere through `a`, `b`, `c` and
/// `d`. Coplanar `a b c d` have no sphere, and then no point is inside.
pub fn circumsphere_contains(a: Point3d, b: Point3d, c: Point3d, d: Point3d, p: Point3d) -> (r: bool)
    requires
        within3(a, WORK3_LIMIT as int),
        within3(b, WORK3_LIMIT as int),
        within3(c, WORK3_LIMIT as int),
        within3(d, WORK3_LIMIT as int),
        within3(p, WORK3_LIMIT as int),
    ensures
        r == in_circumsphere(a, b, c, d, p),
{
    let o = orient3(a, b, c, d);
    let (ax, ay, az) = (a.x as i128 - p.x as i128, a.y as i128 - p.y as i128, a.z as i128 - p.z as i128);
    let (bx, by, bz) = (b.x as i128 - p.x as i128, b.y as i128 - p.y as i128, b.z as i128 - p.z as i128);
    let (cx, cy, cz) = (c.x as i128 - p.x as i128, c.y as i128 - p.y as i128, c.z as i128 - p.z as i128);
    let (dx, dy, dz) = (d.x as i128 - p.x as i128, d.y as i128 - p.y as i128, d.z as i128 - p.z as i128);
    let la = lift_exec(ax, ay, az);
    let lb = lift_exec(bx, by, bz);
    let lc = lift_exec(cx, cy, cz);
    let ld = lift_exec(dx, dy, dz);
    let da = det3_exec(bx, by, bz, cx, cy, cz, dx, dy, dz);
    let db = det3_exec(ax, ay, az, cx, cy, cz, dx, dy, dz);
    let dc = det3_exec(ax, ay, az, bx, by, bz, dx, dy, dz);
    let dd = det3_exec(ax, ay, az, bx, by, bz, cx, cy, cz);
    proof {
        let l: int = 211106232532992;
        let t: int = 3541774862152233910272;
        lemma_mul_bound(la as int, da as int, l, t);
        lemma_mul_bound(lb as int, db as int, l, t);
        lemma_mul_bound(lc as int, dc as int, l, t);
        lemma_mul_bound(ld as int, dd as int, l, t);
        assert(l * t == 747690747629015178508391471407693824int);
    }
    let s = -(la * da) + lb * db - lc * dc + ld * dd;
    assert(-(la * da) == (-la) * da) by (nonlinear_arith);
    assert(s == insphere_spec(a, b, c, d, p));
    (o > 0 && s < 0) || (o < 0 && s > 0)
}

} // verus!
