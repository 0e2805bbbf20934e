use crate::matrix::{Matrix21, Matrix22};
use crate::vec2i::Vec2i;
use vstd::prelude::*;

verus! {

/// Largest magnitude of an endpoint coordinate for which intersection is computed exactly.
pub const SEG_COORD_MAX: i32 = 134217728;

/// A line segment between two integer points.
#[derive(PartialEq, Eq, Structural, Debug, Clone, Copy)]
pub struct LineSeg {
    pub p1: Vec2i,
    pub p2: Vec2i,
}

/// Where two segments meet: `s / den` of the way from the first segment's `p1`
/// to its `p2`, and `t / den` of the way along the second; `den` is positive.
#[derive(PartialEq, Eq, Structural, Debug, Clone, Copy)]
pub struct Crossing {
    pub s: i64,
    pub t: i64,
    pub den: i64,
}

/// Whether `v` lies in `[-SEG_COORD_MAX, SEG_COORD_MAX]`.
pub open spec fn seg_coord_ok(v: int) -> bool {
    -SEG_COORD_MAX <= v <= SEG_COORD_MAX
}

/// The determinant of the system `a.p1 + s * (a.p2 - a.p1) == b.p1 + t * (b.p2 - b.p1)`;
/// zero exactly when the segments are parallel (or one is a point).
pub open spec fn crossing_det(a: LineSeg, b: LineSeg) -> int {
    b.dx() * a.dy() - a.dx() * b.dy()
}

/// The numerator of the parameter along `a`, over `crossing_det(a, b)`.
pub open spec fn crossing_s(a: LineSeg, b: LineSeg) -> int {
    b.dx() * (b.p1.y - a.p1.y) - b.dy() * (b.p1.x - a.p1.x)
}

/// The numerator of the parameter along `b`, over `crossing_det(a, b)`.
pub open spec fn crossing_t(a: LineSeg, b: LineSeg) -> int {
    a.dx() * (b.p1.y - a.p1.y) - a.dy() * (b.p1.x - a.p1.x)
}

/// The crossing of two segments: `None` when they are parallel or when the
/// crossing of their lines lies outside either segment (both parameters must
/// lie in `[0, 1]`); otherwise both parameters over a positive denominator.
pub open spec fn crossing_spec(a: LineSeg, b: LineSeg) -> Option<Crossing> {
    let det = crossing_det(a, b);
    if det == 0 {
        None
    } else {
        let s = if det > 0 { crossing_s(a, b) } else { -crossing_s(a, b) };
        let t = if det > 0 { crossing_t(a, b) } else { -crossing_t(a, b) };
        let den = if det > 0 { det } else { -det };
        if 0 <= s <= den && 0 <= t <= den {
            Some(Crossing { s: s as i64, t: t as i64, den: den as i64 })
        } else {
            None
        }
    }
}

impl LineSeg {
    pub open spec fn dx(&self) -> int {
        self.p2.x - self.p1.x
    }

    pub open spec fn dy(&self) -> int {
        self.p2.y - self.p1.y
    }

    /// Both endpoints lie within `SEG_COORD_MAX` on each axis.
    pub open spec fn in_range(&self) -> bool {
        seg_coord_ok(self.p1.x as int) && seg_coord_ok(self.p1.y as int) && seg_coord_ok(
            self.p2.x as int,
        ) && seg_coord_ok(self.p2.y as int)
    }

    pub fn new(p1: Vec2i, p2: Vec2i) -> (r: Self)
        ensures
            r.p1 == p1,
            r.p2 == p2,
    {
        Self { p1, p2 }
    }

    /// The squared length of the segment.
    pub fn len_squared(&self) -> (r: i64)
        requires
            self.in_range(),
        ensures
            r == self.dx() * self.dx() + self.dy() * self.dy(),
    {
        let dx = self.x_diff();
        let dy = self.y_diff();
        proof {
            lemma_delta_product(dx as int, dx as int);
            lemma_delta_product(dy as int, dy as int);
        }
        dx * dx + dy * dy
    }

    pub fn x_diff(&self) -> (r: i64)
        ensures
            r == self.dx(),
    {
        self.p2.x as i64 - self.p1.x as i64
    }

    pub fn y_diff(&self) -> (r: i64)
        ensures
            r == self.dy(),
    {
        self.p2.y as i64 - self.p1.y as i64
    }

    /// Where this segment meets `other`, if it does. Only a true segment-segment
    /// crossing counts: both parameters lie in `[0, 1]`. Parallel segments never
    /// meet. The point reached is the same along either segment.
    pub fn intersects(&self, other: &LineSeg) -> (r: Option<Crossing>)
        requires
            self.in_range(),
            other.in_range(),
        ensures
            r == crossing_spec(*self, *other),
            r matches Some(c) ==> {
                &&& c.den > 0
                &&& 0 <= c.s <= c.den
                &&& 0 <= c.t <= c.den
                &&& c.den <= 8 * SEG_COORD_MAX * SEG_COORD_MAX
                &&& self.p1.x * c.den + c.s * self.dx() == other.p1.x * c.den + c.t * other.dx()
                &&& self.p1.y * c.den + c.s * self.dy() == other.p1.y * c.den + c.t * other.dy()
            },
    {
        // The system s * (p2 - p1) - t * (other.p2 - other.p1) == other.p1 - p1.
        let a = Matrix22::new(self.x_diff(), -other.x_diff(), self.y_diff(), -other.y_diff());
        let b = Matrix21::new(
            other.p1.x as i64 - self.p1.x as i64,
            other.p1.y as i64 - self.p1.y as i64,
        );
        assert(a.det_spec() == crossing_det(*self, *other)) by (nonlinear_arith)
            requires
                a.at(0, 0) == self.dx(),
                a.at(0, 1) == -other.dx(),
                a.at(1, 0) == self.dy(),
                a.at(1, 1) == -other.dy(),
                a.det_spec() == a.at(0, 0) * a.at(1, 1) - a.at(0, 1) * a.at(1, 0),
                crossing_det(*self, *other) == other.dx() * self.dy() - self.dx() * other.dy(),
        ;
        match a.inverse() {
            None => None,
            Some((adj, det)) => {
                let x = adj.mul(&b);
                let s = x.data[0];
                let t = x.data[1];
                assert((a.det_spec() > 0 ==> x.at(0) == crossing_s(*self, *other) && x.at(1)
                    == crossing_t(*self, *other)) && (a.det_spec() < 0 ==> x.at(0) == -crossing_s(
                    *self,
                    *other,
                ) && x.at(1) == -crossing_t(*self, *other))) by (nonlinear_arith)
                    requires
                        a.at(0, 0) == self.dx(),
                        a.at(0, 1) == -other.dx(),
                        a.at(1, 0) == self.dy(),
                        a.at(1, 1) == -other.dy(),
                        b.at(0) == other.p1.x - self.p1.x,
                        b.at(1) == other.p1.y - self.p1.y,
                        x.at(0) == adj.at(0, 0) * b.at(0) + adj.at(0, 1) * b.at(1),
                        x.at(1) == adj.at(1, 0) * b.at(0) + adj.at(1, 1) * b.at(1),
                        a.det_spec() > 0 ==> det == a.det_spec() && adj.at(0, 0) == a.at(1, 1)
                            && adj.at(0, 1) == -a.at(0, 1) && adj.at(1, 0) == -a.at(1, 0)
                            && adj.at(1, 1) == a.at(0, 0),
                        a.det_spec() < 0 ==> det == -a.det_spec() && adj.at(0, 0) == -a.at(1, 1)
                            && adj.at(0, 1) == a.at(0, 1) && adj.at(1, 0) == a.at(1, 0)
                            && adj.at(1, 1) == -a.at(0, 0),
                        a.det_spec() != 0,
                        crossing_s(*self, *other) == other.dx() * (other.p1.y - self.p1.y)
                            - other.dy() * (other.p1.x - self.p1.x),
                        crossing_t(*self, *other) == self.dx() * (other.p1.y - self.p1.y)
                            - self.dy() * (other.p1.x - self.p1.x),
                ;
                proof {
                    lemma_crossing_point(*self, *other);
                }
                if 0 <= s && s <= det && 0 <= t && t <= det {
                    Some(Crossing { s, t, den: det })
                } else {
                    None
                }
            },
        }
    }
}

/// A crossing is a point of both segments: both parameters lie in `[0, 1]`,
/// and moving `s / den` along `a` reaches the same point as moving `t / den`
/// along `b`.
pub proof fn lemma_crossing_point(a: LineSeg, b: LineSeg)
    requires
        a.in_range(),
        b.in_range(),
    ensures
        crossing_spec(a, b) matches Some(c) ==> {
            &&& c.den > 0
            &&& 0 <= c.s <= c.den
            &&& 0 <= c.t <= c.den
            &&& c.den <= 8 * SEG_COORD_MAX * SEG_COORD_MAX
            &&& a.p1.x * c.den + c.s * a.dx() == b.p1.x * c.den + c.t * b.dx()
            &&& a.p1.y * c.den + c.s * a.dy() == b.p1.y * c.den + c.t * b.dy()
        },
{
    lemma_crossing_meets(a, b);
    lemma_crossing_bounds(a, b);
    let (cs, ct, cd) = (crossing_s(a, b), crossing_t(a, b), crossing_det(a, b));
    if cd < 0 {
        assert(a.p1.x * (-cd) + (-cs) * a.dx() == b.p1.x * (-cd) + (-ct) * b.dx() && a.p1.y * (-cd)
            + (-cs) * a.dy() == b.p1.y * (-cd) + (-ct) * b.dy()) by (nonlinear_arith)
            requires
                a.p1.x * cd + cs * a.dx() == b.p1.x * cd + ct * b.dx(),
                a.p1.y * cd + cs * a.dy() == b.p1.y * cd + ct * b.dy(),
        ;
    }
}

/// A product of two coordinate differences fits easily in an `i64`.
proof fn lemma_delta_product(a: int, b: int)
    requires
        -2 * SEG_COORD_MAX <= a <= 2 * SEG_COORD_MAX,
        -2 * SEG_COORD_MAX <= b <= 2 * SEG_COORD_MAX,
    ensures
        -4 * SEG_COORD_MAX * SEG_COORD_MAX <= a * b <= 4 * SEG_COORD_MAX * SEG_COORD_MAX,
{
    assert(-4 * SEG_COORD_MAX * SEG_COORD_MAX <= a * b <= 4 * SEG_COORD_MAX * SEG_COORD_MAX)
        by (nonlinear_arith)
        requires
            -2 * SEG_COORD_MAX <= a <= 2 * SEG_COORD_MAX,
            -2 * SEG_COORD_MAX <= b <= 2 * SEG_COORD_MAX,
    ;
}

/// The crossing numerators solve the system: moving `s / det` along `a` reaches
/// the same point as moving `t / det` along `b`.
proof fn lemma_crossing_meets(a: LineSeg, b: LineSeg)
    ensures
        a.p1.x * crossing_det(a, b) + crossing_s(a, b) * a.dx() == b.p1.x * crossing_det(a, b)
            + crossing_t(a, b) * b.dx(),
        a.p1.y * crossing_det(a, b) + crossing_s(a, b) * a.dy() == b.p1.y * crossing_det(a, b)
            + crossing_t(a, b) * b.dy(),
{
    let (d1x, d1y, d2x, d2y) = (a.dx(), a.dy(), b.dx(), b.dy());
    let (qx, qy) = (b.p1.x - a.p1.x, b.p1.y - a.p1.y);
    let (s, t, det) = (crossing_s(a, b), crossing_t(a, b), crossing_det(a, b));
    let (ax, ay, bx, by) = (a.p1.x as int, a.p1.y as int, b.p1.x as int, b.p1.y as int);
    assert(s * d1x - t * d2x == qx * det) by (nonlinear_arith)
        requires
            s == d2x * qy - d2y * qx,
            t == d1x * qy - d1y * qx,
            det == d2x * d1y - d1x * d2y,
    ;
    assert(s * d1y - t * d2y == qy * det) by (nonlinear_arith)
        requires
            s == d2x * qy - d2y * qx,
            t == d1x * qy - d1y * qx,
            det == d2x * d1y - d1x * d2y,
    ;
    assert(bx * det == ax * det + qx * det) by (nonlinear_arith)
        requires
            qx == bx - ax,
    ;
    assert(by * det == ay * det + qy * det) by (nonlinear_arith)
        requires
            qy == by - ay,
    ;
}

/// Two segments that share their midpoint `(px, py)`, one running from `p - u` to
/// `p + u` and the other from `p - v` to `p + v`, with `u` and `v` not parallel,
/// cross halfway along each, and the crossing is that midpoint.
pub proof fn lemma_crossing_at_shared_midpoint(
    a: LineSeg,
    b: LineSeg,
    px: int,
    py: int,
    ux: int,
    uy: int,
    vx: int,
    vy: int,
)
    requires
        a.in_range(),
        b.in_range(),
        a.p1.x == px - ux && a.p1.y == py - uy,
        a.p2.x == px + ux && a.p2.y == py + uy,
        b.p1.x == px - vx && b.p1.y == py - vy,
        b.p2.x == px + vx && b.p2.y == py + vy,
        ux * vy - uy * vx != 0,
    ensures
        crossing_spec(a, b) matches Some(c) && 2 * c.s == c.den && 2 * c.t == c.den
            && a.p1.x * c.den + c.s * a.dx() == px * c.den
            && a.p1.y * c.den + c.s * a.dy() == py * c.den,
{
    let k = ux * vy - uy * vx;
    assert(crossing_det(a, b) == -4 * k && crossing_s(a, b) == -2 * k && crossing_t(a, b) == -2 * k)
        by (nonlinear_arith)
        requires
            a.dx() == 2 * ux && a.dy() == 2 * uy,
            b.dx() == 2 * vx && b.dy() == 2 * vy,
            b.p1.x - a.p1.x == ux - vx && b.p1.y - a.p1.y == uy - vy,
            crossing_det(a, b) == b.dx() * a.dy() - a.dx() * b.dy(),
            crossing_s(a, b) == b.dx() * (b.p1.y - a.p1.y) - b.dy() * (b.p1.x - a.p1.x),
            crossing_t(a, b) == a.dx() * (b.p1.y - a.p1.y) - a.dy() * (b.p1.x - a.p1.x),
            k == ux * vy - uy * vx,
    ;
    lemma_crossing_bounds(a, b);
    let c = crossing_spec(a, b)->Some_0;
    assert(a.p1.x * c.den + c.s * a.dx() == px * c.den && a.p1.y * c.den + c.s * a.dy() == py
        * c.den) by (nonlinear_arith)
        requires
            2 * c.s == c.den,
            a.p1.x == px - ux && a.p1.y == py - uy,
            a.dx() == 2 * ux && a.dy() == 2 * uy,
    ;
}

/// Parallel segments never cross, whether or not they lie on one line.
pub proof fn lemma_parallel_never_cross(a: LineSeg, b: LineSeg)
    requires
        a.dx() * b.dy() == a.dy() * b.dx(),
    ensures
        crossing_spec(a, b) is None,
{
    assert(crossing_det(a, b) == 0) by (nonlinear_arith)
        requires
            a.dx() * b.dy() == a.dy() * b.dx(),
            crossing_det(a, b) == b.dx() * a.dy() - a.dx() * b.dy(),
    ;
}

/// For segments in range the crossing's numerators and denominator fit in an `i64`.
proof fn lemma_crossing_bounds(a: LineSeg, b: LineSeg)
    requires
        a.in_range(),
        b.in_range(),
    ensures
        -8 * SEG_COORD_MAX * SEG_COORD_MAX <= crossing_det(a, b) <= 8 * SEG_COORD_MAX * SEG_COORD_MAX,
        -8 * SEG_COORD_MAX * SEG_COORD_MAX <= crossing_s(a, b) <= 8 * SEG_COORD_MAX * SEG_COORD_MAX,
        -8 * SEG_COORD_MAX * SEG_COORD_MAX <= crossing_t(a, b) <= 8 * SEG_COORD_MAX * SEG_COORD_MAX,
{
    lemma_delta_product(b.dx(), a.dy());
    lemma_delta_product(a.dx(), b.dy());
    lemma_delta_product(b.dx(), b.p1.y - a.p1.y);
    lemma_delta_product(b.dy(), b.p1.x - a.p1.x);
    lemma_delta_product(a.dx(), b.p1.y - a.p1.y);
    lemma_delta_product(a.dy(), b.p1.x - a.p1.x);
}

} // verus!
