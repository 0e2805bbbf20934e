use crate::line_seg::LineSeg;
use crate::vec2i::Vec2i;
use vstd::prelude::*;

verus! {

/// Fixed-point scale of a rotation's cosine and sine: `ONE` stands for 1.
pub const ONE: i32 = 1024;

/// Sub-units per world unit. Corners of rotated rectangles are exact points of
/// this finer lattice: a corner offset is `R * (±w/2, ±h/2)` with `R` scaled by `ONE`.
pub const SUB: i32 = 2048;

/// Largest magnitude of a position coordinate, and largest extent, in world units.
pub const COORD_MAX: i32 = 16384;

/// A rotation given by its cosine and sine in fixed point (scaled by `ONE`).
#[derive(PartialEq, Eq, Structural, Debug, Clone, Copy)]
pub struct Rotation {
    pub cos: i32,
    pub sin: i32,
}

/// An axis-aligned box in sub-units, bounds included.
#[derive(PartialEq, Eq, Structural, Debug, Clone, Copy)]
pub struct Aabb {
    pub min: Vec2i,
    pub max: Vec2i,
}

/// An oriented rectangle: centred on `position`, with full width and height
/// `size` (world units), turned by `rotation`.
#[derive(PartialEq, Eq, Structural, Debug, Clone, Copy)]
pub struct Transform {
    pub position: Vec2i,
    pub size: Vec2i,
    pub rotation: Rotation,
}

pub open spec fn min4(a: int, b: int, c: int, d: int) -> int {
    let m1 = if a <= b { a } else { b };
    let m2 = if c <= d { c } else { d };
    if m1 <= m2 { m1 } else { m2 }
}

pub open spec fn max4(a: int, b: int, c: int, d: int) -> int {
    let m1 = if a >= b { a } else { b };
    let m2 = if c >= d { c } else { d };
    if m1 >= m2 { m1 } else { m2 }
}

/// The projection of point `v` on the axis `(nx, ny)`, unnormalised.
pub open spec fn proj(v: Vec2i, nx: int, ny: int) -> int {
    v.x * nx + v.y * ny
}

/// The smallest projection of the four points `vs` on `(nx, ny)`.
pub open spec fn span_min(vs: Seq<Vec2i>, nx: int, ny: int) -> int {
    min4(proj(vs[0], nx, ny), proj(vs[1], nx, ny), proj(vs[2], nx, ny), proj(vs[3], nx, ny))
}

/// The largest projection of the four points `vs` on `(nx, ny)`.
pub open spec fn span_max(vs: Seq<Vec2i>, nx: int, ny: int) -> int {
    max4(proj(vs[0], nx, ny), proj(vs[1], nx, ny), proj(vs[2], nx, ny), proj(vs[3], nx, ny))
}

/// The axis `(nx, ny)` separates the quadrilaterals `va` and `vb`: their
/// projections on it are disjoint intervals.
pub open spec fn separates(va: Seq<Vec2i>, vb: Seq<Vec2i>, nx: int, ny: int) -> bool {
    span_max(va, nx, ny) < span_min(vb, nx, ny) || span_max(vb, nx, ny) < span_min(va, nx, ny)
}

/// The normal of edge `i` of the polygon `vs`: the edge from `vs[i]` to the next
/// vertex, `(dx, dy)`, turned to `(dy, -dx)`. Its length is that of the edge.
pub open spec fn normal_x(vs: Seq<Vec2i>, i: int) -> int {
    vs[(i + 1) % vs.len() as int].y - vs[i].y
}

pub open spec fn normal_y(vs: Seq<Vec2i>, i: int) -> int {
    -(vs[(i + 1) % vs.len() as int].x - vs[i].x)
}

/// The separating-axis test on two quadrilaterals: no edge normal of either
/// separates them.
pub open spec fn sat_overlap(va: Seq<Vec2i>, vb: Seq<Vec2i>) -> bool {
    forall|i: int|
        0 <= i < 4 ==> !separates(va, vb, normal_x(va, i), normal_y(va, i)) && !separates(
            va,
            vb,
            normal_x(vb, i),
            normal_y(vb, i),
        )
}

/// Corner `i` in the fixed winding order top right, bottom right, bottom left,
/// top left: the sign of its offset along x, times the width.
pub open spec fn corner_dx(t: Transform, i: int) -> int {
    if i == 0 || i == 1 { t.size.x as int } else { -t.size.x }
}

/// The sign of corner `i`'s offset along y, times the height.
pub open spec fn corner_dy(t: Transform, i: int) -> int {
    if i == 0 || i == 3 { t.size.y as int } else { -t.size.y }
}

/// Corner `i` of `t` in sub-units, x coordinate.
pub open spec fn vertex_x(t: Transform, i: int) -> int {
    SUB * t.position.x + t.rotation.cos * corner_dx(t, i) - t.rotation.sin * corner_dy(t, i)
}

/// Corner `i` of `t` in sub-units, y coordinate.
pub open spec fn vertex_y(t: Transform, i: int) -> int {
    SUB * t.position.y + t.rotation.sin * corner_dx(t, i) + t.rotation.cos * corner_dy(t, i)
}

pub open spec fn vertex(t: Transform, i: int) -> Vec2i {
    Vec2i { x: vertex_x(t, i) as i32, y: vertex_y(t, i) as i32 }
}

/// The four corners of `t` in winding order, in sub-units.
pub open spec fn vertices_of(t: Transform) -> Seq<Vec2i> {
    seq![vertex(t, 0), vertex(t, 1), vertex(t, 2), vertex(t, 3)]
}

/// Exact overlap of two oriented rectangles by the separating-axis test.
pub open spec fn overlaps_spec(a: Transform, b: Transform) -> bool {
    sat_overlap(vertices_of(a), vertices_of(b))
}

/// The axis-aligned bounding box of the corners of `t`.
pub open spec fn hull_of(t: Transform) -> Aabb {
    let vs = vertices_of(t);
    Aabb {
        min: Vec2i {
            x: min4(vs[0].x as int, vs[1].x as int, vs[2].x as int, vs[3].x as int) as i32,
            y: min4(vs[0].y as int, vs[1].y as int, vs[2].y as int, vs[3].y as int) as i32,
        },
        max: Vec2i {
            x: max4(vs[0].x as int, vs[1].x as int, vs[2].x as int, vs[3].x as int) as i32,
            y: max4(vs[0].y as int, vs[1].y as int, vs[2].y as int, vs[3].y as int) as i32,
        },
    }
}

/// The box `t` would cover if it were not rotated, in sub-units.
pub open spec fn extent_box_of(t: Transform) -> Aabb {
    Aabb {
        min: Vec2i {
            x: (SUB * t.position.x - ONE * t.size.x) as i32,
            y: (SUB * t.position.y - ONE * t.size.y) as i32,
        },
        max: Vec2i {
            x: (SUB * t.position.x + ONE * t.size.x) as i32,
            y: (SUB * t.position.y + ONE * t.size.y) as i32,
        },
    }
}

/// Two boxes meet, bounds included.
pub open spec fn boxes_meet(a: Aabb, b: Aabb) -> bool {
    a.min.x <= b.max.x && b.min.x <= a.max.x && a.min.y <= b.max.y && b.min.y <= a.max.y
}

/// The broad-phase test: the box around `a`'s corners meets `b`'s unrotated box.
pub open spec fn overlaps_lazy_spec(a: Transform, b: Transform) -> bool {
    boxes_meet(hull_of(a), extent_box_of(b))
}

impl Rotation {
    /// Cosine and sine lie in `[-ONE, ONE]`.
    pub open spec fn wf(&self) -> bool {
        -ONE <= self.cos <= ONE && -ONE <= self.sin <= ONE
    }

    /// No rotation.
    pub fn identity() -> (r: Self)
        ensures
            r.cos == ONE,
            r.sin == 0,
    {
        Rotation { cos: ONE, sin: 0 }
    }

    /// Whether cosine and sine lie in `[-ONE, ONE]`.
    pub fn is_valid(&self) -> (r: bool)
        ensures
            r == self.wf(),
    {
        -ONE <= self.cos && self.cos <= ONE && -ONE <= self.sin && self.sin <= ONE
    }

    pub fn new(cos: i32, sin: i32) -> (r: Self)
        requires
            -ONE <= cos <= ONE,
            -ONE <= sin <= ONE,
        ensures
            r.cos == cos,
            r.sin == sin,
            r.wf(),
    {
        Rotation { cos, sin }
    }
}

/// Largest magnitude of a point coordinate accepted by the edge helpers (sub-units).
pub const POINT_MAX: i32 = 536870912;

/// Both coordinates of `v` lie within `POINT_MAX`.
pub open spec fn point_ok(v: Vec2i) -> bool {
    -POINT_MAX <= v.x <= POINT_MAX && -POINT_MAX <= v.y <= POINT_MAX
}

/// A product of two factors bounded by `ba` and `bb` is bounded by `ba * bb`.
pub proof fn lemma_mul_bounded(a: int, b: int, ba: int, bb: int)
    requires
        -ba <= a <= ba,
        -bb <= b <= bb,
    ensures
        -(ba * bb) <= a * b <= ba * bb,
{
    assert(-(ba * bb) <= a * b <= ba * bb) by (nonlinear_arith)
        requires
            -ba <= a <= ba,
            -bb <= b <= bb,
    ;
}

/// The corners of a well-formed rectangle lie within `SUB * COORD_MAX + 2 * ONE * COORD_MAX`
/// (2^26) sub-units of the origin, so they are exact `i32` values.
pub proof fn lemma_vertex_bounds(t: Transform, i: int)
    requires
        t.wf(),
    ensures
        -67108864 <= vertex_x(t, i) <= 67108864,
        -67108864 <= vertex_y(t, i) <= 67108864,
        vertex(t, i).x == vertex_x(t, i),
        vertex(t, i).y == vertex_y(t, i),
        point_ok(vertex(t, i)),
{
    lemma_mul_bounded(t.rotation.cos as int, corner_dx(t, i), ONE as int, COORD_MAX as int);
    lemma_mul_bounded(t.rotation.sin as int, corner_dy(t, i), ONE as int, COORD_MAX as int);
    lemma_mul_bounded(t.rotation.sin as int, corner_dx(t, i), ONE as int, COORD_MAX as int);
    lemma_mul_bounded(t.rotation.cos as int, corner_dy(t, i), ONE as int, COORD_MAX as int);
}

/// All four corners of a well-formed rectangle are exact.
pub proof fn lemma_vertices_exact(t: Transform)
    requires
        t.wf(),
    ensures
        forall|i: int|
            0 <= i < 4 ==> vertices_of(t)[i].x == vertex_x(t, i) && vertices_of(t)[i].y
                == vertex_y(t, i) && point_ok(#[trigger] vertices_of(t)[i]),
{
    lemma_vertex_bounds(t, 0);
    lemma_vertex_bounds(t, 1);
    lemma_vertex_bounds(t, 2);
    lemma_vertex_bounds(t, 3);
}

/// The projection of a point on an axis, both bounded, fits in an `i64`.
fn projection(v: &Vec2i, n: &Vec2i) -> (r: i64)
    requires
        point_ok(*v),
    ensures
        r == proj(*v, n.x as int, n.y as int),
{
    proof {
        lemma_mul_bounded(v.x as int, n.x as int, POINT_MAX as int, 2147483648);
        lemma_mul_bounded(v.y as int, n.y as int, POINT_MAX as int, 2147483648);
    }
    v.x as i64 * n.x as i64 + v.y as i64 * n.y as i64
}

/// Largest magnitude of a coordinate accepted by the distance helper (sub-units, 2^26).
pub const NEAR_MAX: i32 = 67108864;

/// Both coordinates of `v` lie within `NEAR_MAX`.
pub open spec fn near_ok(v: Vec2i) -> bool {
    -NEAR_MAX <= v.x <= NEAR_MAX && -NEAR_MAX <= v.y <= NEAR_MAX
}

/// The squared distance from `p` to the segment from `a` to `b`, rounded down:
/// the nearest point of the segment is found by projecting `p` on its line and
/// clamping the parameter to `[0, 1]`. A segment of length zero is the point `a`.
pub open spec fn seg_dist_measure(p: Vec2i, a: Vec2i, b: Vec2i) -> int {
    let abx = b.x - a.x;
    let aby = b.y - a.y;
    let apx = p.x - a.x;
    let apy = p.y - a.y;
    let d = abx * abx + aby * aby;
    let n = apx * abx + apy * aby;
    if d == 0 || n <= 0 {
        apx * apx + apy * apy
    } else if n >= d {
        (p.x - b.x) * (p.x - b.x) + (p.y - b.y) * (p.y - b.y)
    } else {
        let c = abx * apy - aby * apx;
        (c * c) / d
    }
}

/// `p` scaled from world units to sub-units.
pub open spec fn to_sub(p: Vec2i) -> Vec2i {
    Vec2i { x: (p.x * SUB) as i32, y: (p.y * SUB) as i32 }
}

/// How far `p` (sub-units) lies from edge `k` of `t`.
pub open spec fn edge_measure(t: Transform, p: Vec2i, k: int) -> int {
    seg_dist_measure(p, vertices_of(t)[k], vertices_of(t)[(k + 1) % 4])
}

impl Aabb {
    /// Whether two boxes meet, bounds included.
    pub fn meets(&self, other: &Aabb) -> (r: bool)
        ensures
            r == boxes_meet(*self, *other),
    {
        self.min.x <= other.max.x && other.min.x <= self.max.x && self.min.y <= other.max.y
            && other.min.y <= self.max.y
    }
}

/// The squared distance from `point` to the segment, rounded down.
fn point_segment_distance(point: &Vec2i, seg_point1: &Vec2i, seg_point2: &Vec2i) -> (r: u128)
    requires
        near_ok(*point),
        near_ok(*seg_point1),
        near_ok(*seg_point2),
    ensures
        r == seg_dist_measure(*point, *seg_point1, *seg_point2),
        r < u128::MAX,
{
    let (a, b, p) = (seg_point1, seg_point2, point);
    let abx = b.x as i64 - a.x as i64;
    let aby = b.y as i64 - a.y as i64;
    let apx = p.x as i64 - a.x as i64;
    let apy = p.y as i64 - a.y as i64;
    let bpx = p.x as i64 - b.x as i64;
    let bpy = p.y as i64 - b.y as i64;
    let ghost bound: int = 2 * NEAR_MAX;
    proof {
        lemma_mul_bounded(abx as int, abx as int, bound, bound);
        lemma_mul_bounded(aby as int, aby as int, bound, bound);
        lemma_mul_bounded(apx as int, apx as int, bound, bound);
        lemma_mul_bounded(apy as int, apy as int, bound, bound);
        lemma_mul_bounded(apx as int, abx as int, bound, bound);
        lemma_mul_bounded(apy as int, aby as int, bound, bound);
        lemma_mul_bounded(abx as int, apy as int, bound, bound);
        lemma_mul_bounded(aby as int, apx as int, bound, bound);
        lemma_mul_bounded(bpx as int, bpx as int, bound, bound);
        lemma_mul_bounded(bpy as int, bpy as int, bound, bound);
        assert(0 <= abx * abx && 0 <= aby * aby && 0 <= apx * apx && 0 <= apy * apy && 0 <= bpx
            * bpx && 0 <= bpy * bpy) by (nonlinear_arith);
    }
    let d = abx * abx + aby * aby;
    let n = apx * abx + apy * aby;
    if d == 0 || n <= 0 {
        (apx * apx + apy * apy) as u128
    } else if n >= d {
        (bpx * bpx + bpy * bpy) as u128
    } else {
        let c = abx * apy - aby * apx;
        let magnitude: u128 = if c < 0 { (-c) as u128 } else { c as u128 };
        proof {
            assert(bound * bound == 0x40000000000000);
            assert(magnitude <= 0x80000000000000);
            lemma_mul_bounded(
                magnitude as int,
                magnitude as int,
                0x80000000000000,
                0x80000000000000,
            );
            assert(magnitude * magnitude == c * c) by (nonlinear_arith)
                requires
                    magnitude == c || magnitude == -c,
            ;
            assert(0 <= (c * c) / (d as int) <= c * c) by (nonlinear_arith)
                requires
                    d > 0,
            ;
        }
        (magnitude * magnitude) / (d as u128)
    }
}

impl Transform {
    /// Position and extent within `COORD_MAX`, extent not negative, rotation well formed.
    pub open spec fn wf(&self) -> bool {
        &&& -COORD_MAX <= self.position.x <= COORD_MAX
        &&& -COORD_MAX <= self.position.y <= COORD_MAX
        &&& 0 <= self.size.x <= COORD_MAX
        &&& 0 <= self.size.y <= COORD_MAX
        &&& self.rotation.wf()
    }

    /// Whether the rectangle is well formed (`wf`).
    pub fn is_valid(&self) -> (r: bool)
        ensures
            r == self.wf(),
    {
        -COORD_MAX <= self.position.x && self.position.x <= COORD_MAX && -COORD_MAX
            <= self.position.y && self.position.y <= COORD_MAX && 0 <= self.size.x && self.size.x
            <= COORD_MAX && 0 <= self.size.y && self.size.y <= COORD_MAX && self.rotation.is_valid()
    }

    pub fn new(position: Vec2i, size: Vec2i, rotation: Rotation) -> (r: Self)
        ensures
            r.position == position,
            r.size == size,
            r.rotation == rotation,
    {
        Self { position, size, rotation }
    }

    /// The corner at offset `(dx, dy)` (full extents, signed) before rotation.
    fn corner(&self, dx: i64, dy: i64) -> (r: Vec2i)
        requires
            self.wf(),
            -COORD_MAX <= dx <= COORD_MAX,
            -COORD_MAX <= dy <= COORD_MAX,
        ensures
            r.x == SUB * self.position.x + self.rotation.cos * dx - self.rotation.sin * dy,
            r.y == SUB * self.position.y + self.rotation.sin * dx + self.rotation.cos * dy,
    {
        proof {
            lemma_mul_bounded(self.rotation.cos as int, dx as int, ONE as int, COORD_MAX as int);
            lemma_mul_bounded(self.rotation.sin as int, dy as int, ONE as int, COORD_MAX as int);
            lemma_mul_bounded(self.rotation.sin as int, dx as int, ONE as int, COORD_MAX as int);
            lemma_mul_bounded(self.rotation.cos as int, dy as int, ONE as int, COORD_MAX as int);
        }
        let c = self.rotation.cos as i64;
        let s = self.rotation.sin as i64;
        let x = SUB as i64 * self.position.x as i64 + c * dx - s * dy;
        let y = SUB as i64 * self.position.y as i64 + s * dx + c * dy;
        Vec2i { x: x as i32, y: y as i32 }
    }

    /// The four corners in sub-units, in the winding order top right, bottom
    /// right, bottom left, top left (before rotation).
    pub fn vertices(&self) -> (r: Vec<Vec2i>)
        requires
            self.wf(),
        ensures
            r@ == vertices_of(*self),
    {
        proof {
            lemma_vertices_exact(*self);
        }
        let w = self.size.x as i64;
        let h = self.size.y as i64;
        let top_right = self.corner(w, h);
        let bottom_right = self.corner(w, -h);
        let bottom_left = self.corner(-w, -h);
        let top_left = self.corner(-w, h);
        let v = vec![top_right, bottom_right, bottom_left, top_left];
        assert(v@ =~= vertices_of(*self));
        v
    }

    /// The four edges, edge `i` running from corner `i` to corner `(i + 1) % 4`.
    pub fn lines(&self) -> (r: Vec<LineSeg>)
        requires
            self.wf(),
        ensures
            r@.len() == 4,
            forall|i: int|
                0 <= i < 4 ==> (#[trigger] r@[i]).p1 == vertices_of(*self)[i] && r@[i].p2
                    == vertices_of(*self)[(i + 1) % 4],
    {
        let vertices = self.vertices();
        let mut lines: Vec<LineSeg> = Vec::new();
        let mut i: usize = 0;
        while i < 4
            invariant
                vertices@ == vertices_of(*self),
                0 <= i <= 4,
                lines@.len() == i,
                forall|k: int|
                    0 <= k < i ==> (#[trigger] lines@[k]).p1 == vertices_of(*self)[k]
                        && lines@[k].p2 == vertices_of(*self)[(k + 1) % 4],
            decreases 4 - i,
        {
            lines.push(LineSeg::new(vertices[i], vertices[(i + 1) % 4]));
            i += 1;
        }
        lines
    }

    /// For each edge of the polygon `vertices`, its normal `(dy, -dx)`. The
    /// normals are not scaled to unit length: the overlap test compares
    /// projections on one axis at a time, which scaling does not change.
    pub fn normals(&self, vertices: &[Vec2i]) -> (r: Vec<Vec2i>)
        requires
            forall|i: int| 0 <= i < vertices@.len() ==> point_ok(#[trigger] vertices@[i]),
        ensures
            r@.len() == vertices@.len(),
            forall|i: int|
                0 <= i < vertices@.len() ==> (#[trigger] r@[i]).x == normal_x(vertices@, i)
                    && r@[i].y == normal_y(vertices@, i),
    {
        let mut normals: Vec<Vec2i> = Vec::new();
        let n = vertices.len();
        let mut i: usize = 0;
        while i < n
            invariant
                n == vertices@.len(),
                forall|k: int| 0 <= k < vertices@.len() ==> point_ok(#[trigger] vertices@[k]),
                0 <= i <= n,
                normals@.len() == i,
                forall|k: int|
                    0 <= k < i ==> (#[trigger] normals@[k]).x == normal_x(vertices@, k)
                        && normals@[k].y == normal_y(vertices@, k),
            decreases n - i,
        {
            let p1 = &vertices[i];
            let p2 = &vertices[(i + 1) % n];
            assert(point_ok(vertices@[(i as int + 1) % (n as int)]));
            normals.push(Vec2i::new(p2.y - p1.y, -(p2.x - p1.x)));
            i += 1;
        }
        normals
    }

    /// Exact overlap by the separating-axis test: the four edge normals of each
    /// rectangle are tried in turn, and the rectangles overlap when none of the
    /// eight separates them. Touching rectangles overlap.
    pub fn overlaps(&self, other: &Transform) -> (r: bool)
        requires
            self.wf(),
            other.wf(),
        ensures
            r == overlaps_spec(*self, *other),
    {
        proof {
            lemma_vertices_exact(*self);
            lemma_vertices_exact(*other);
        }
        let vertices1 = self.vertices();
        let vertices2 = other.vertices();
        let ghost va = vertices1@;
        let ghost vb = vertices2@;
        let mut normals: Vec<Vec2i> = self.normals(vertices1.as_slice());
        let mut normals2: Vec<Vec2i> = other.normals(vertices2.as_slice());
        normals.append(&mut normals2);
        let mut i: usize = 0;
        while i < normals.len()
            invariant
                va == vertices_of(*self),
                vb == vertices_of(*other),
                vertices1@ == va,
                vertices2@ == vb,
                forall|k: int| 0 <= k < 4 ==> point_ok(#[trigger] va[k]),
                forall|k: int| 0 <= k < 4 ==> point_ok(#[trigger] vb[k]),
                normals@.len() == 8,
                forall|k: int|
                    0 <= k < 4 ==> (#[trigger] normals@[k]).x == normal_x(va, k) && normals@[k].y
                        == normal_y(va, k),
                forall|k: int|
                    4 <= k < 8 ==> (#[trigger] normals@[k]).x == normal_x(vb, k - 4)
                        && normals@[k].y == normal_y(vb, k - 4),
                0 <= i <= 8,
                forall|k: int|
                    0 <= k < i ==> !separates(
                        va,
                        vb,
                        (#[trigger] normals@[k]).x as int,
                        normals@[k].y as int,
                    ),
            decreases 8 - i,
        {
            let min_max1 = Self::get_min_max_projection(&vertices1, &normals[i]);
            let min_max2 = Self::get_min_max_projection(&vertices2, &normals[i]);
            if min_max1.1 < min_max2.0 || min_max2.1 < min_max1.0 {
                proof {
                    let k = i as int;
                    if k < 4 {
                        assert(separates(va, vb, normal_x(va, k), normal_y(va, k)));
                    } else {
                        assert(separates(va, vb, normal_x(vb, k - 4), normal_y(vb, k - 4)));
                    }
                }
                return false;
            }
            i += 1;
        }
        proof {
            assert forall|k: int| 0 <= k < 4 implies !separates(
                va,
                vb,
                normal_x(va, k),
                normal_y(va, k),
            ) && !separates(va, vb, normal_x(vb, k), normal_y(vb, k)) by {
                assert(normals@[k].x == normal_x(va, k));
                assert(normals@[k + 4].x == normal_x(vb, k));
            }
        }
        true
    }

    /// The axis-aligned bounding box of the four corners, in sub-units.
    pub fn hull(&self) -> (r: Aabb)
        requires
            self.wf(),
        ensures
            r == hull_of(*self),
    {
        proof {
            lemma_vertices_exact(*self);
        }
        let vertices = self.vertices();
        let x_axis = Vec2i::new(1, 0);
        let y_axis = Vec2i::new(0, 1);
        let (min_x, max_x) = Self::get_min_max_projection(&vertices, &x_axis);
        let (min_y, max_y) = Self::get_min_max_projection(&vertices, &y_axis);
        let ghost vs = vertices@;
        assert(forall|k: int| 0 <= k < 4 ==> proj(#[trigger] vs[k], 1, 0) == vs[k].x);
        assert(forall|k: int| 0 <= k < 4 ==> proj(#[trigger] vs[k], 0, 1) == vs[k].y);
        Aabb {
            min: Vec2i::new(min_x as i32, min_y as i32),
            max: Vec2i::new(max_x as i32, max_y as i32),
        }
    }

    /// The box this rectangle would cover if it were not rotated, in sub-units.
    pub fn extent_box(&self) -> (r: Aabb)
        requires
            self.wf(),
        ensures
            r == extent_box_of(*self),
    {
        let cx = SUB * self.position.x;
        let cy = SUB * self.position.y;
        let hx = ONE * self.size.x;
        let hy = ONE * self.size.y;
        Aabb { min: Vec2i::new(cx - hx, cy - hy), max: Vec2i::new(cx + hx, cy + hy) }
    }

    /// The cheap broad-phase test: the box around this rectangle's rotated
    /// corners meets `other`'s box, taken without its rotation. Bounds count as
    /// meeting, so that exact overlap is never missed.
    pub fn overlaps_lazy(&self, other: &Transform) -> (r: bool)
        requires
            self.wf(),
            other.wf(),
        ensures
            r == overlaps_lazy_spec(*self, *other),
    {
        self.hull().meets(&other.extent_box())
    }

    /// The endpoints (sub-units) of the edge nearest to `point` (world units),
    /// by squared distance rounded down; the first such edge in winding order
    /// when several are equally near.
    pub fn nearest_edge_to(&self, point: &Vec2i) -> (r: (Vec2i, Vec2i))
        requires
            self.wf(),
            -COORD_MAX <= point.x <= COORD_MAX,
            -COORD_MAX <= point.y <= COORD_MAX,
        ensures
            exists|k: int|
                #![trigger edge_measure(*self, to_sub(*point), k)]
                0 <= k < 4 && r.0 == vertices_of(*self)[k] && r.1 == vertices_of(*self)[(k + 1)
                    % 4] && (forall|j: int|
                    0 <= j < 4 ==> edge_measure(*self, to_sub(*point), k) <= #[trigger] edge_measure(
                        *self,
                        to_sub(*point),
                        j,
                    )) && (forall|j: int|
                    0 <= j < k ==> edge_measure(*self, to_sub(*point), k) < #[trigger] edge_measure(
                        *self,
                        to_sub(*point),
                        j,
                    )),
    {
        proof {
            lemma_vertices_exact(*self);
            lemma_vertex_bounds(*self, 0);
            lemma_vertex_bounds(*self, 1);
            lemma_vertex_bounds(*self, 2);
            lemma_vertex_bounds(*self, 3);
        }
        let vertices = self.vertices();
        let p = Vec2i::new(point.x * SUB, point.y * SUB);
        let ghost ps = to_sub(*point);
        assert(p == ps);
        let mut nearest: usize = 0;
        let mut nearest_distance: u128 = u128::MAX;
        let mut i: usize = 0;
        while i < 4
            invariant
                vertices@ == vertices_of(*self),
                forall|k: int| 0 <= k < 4 ==> near_ok(#[trigger] vertices@[k]),
                near_ok(p),
                p == ps,
                0 <= i <= 4,
                nearest < 4,
                i == 0 ==> nearest_distance == u128::MAX,
                i > 0 ==> nearest < i && nearest_distance == edge_measure(*self, ps, nearest as int),
                forall|j: int|
                    0 <= j < i ==> nearest_distance <= #[trigger] edge_measure(*self, ps, j),
                forall|j: int|
                    0 <= j < nearest ==> nearest_distance < #[trigger] edge_measure(*self, ps, j),
            decreases 4 - i,
        {
            assert(near_ok(vertices@[(i as int + 1) % 4]));
            let distance = point_segment_distance(&p, &vertices[i], &vertices[(i + 1) % 4]);
            if distance < nearest_distance {
                nearest = i;
                nearest_distance = distance;
            }
            i += 1;
        }
        (vertices[nearest], vertices[(nearest + 1) % 4])
    }

    /// The smallest and largest projection of four points on `normal`.
    fn get_min_max_projection(vertices: &Vec<Vec2i>, normal: &Vec2i) -> (r: (i64, i64))
        requires
            vertices@.len() == 4,
            forall|i: int| 0 <= i < 4 ==> point_ok(#[trigger] vertices@[i]),
        ensures
            r.0 == span_min(vertices@, normal.x as int, normal.y as int),
            r.1 == span_max(vertices@, normal.x as int, normal.y as int),
    {
        let mut min = i64::MAX;
        let mut max = i64::MIN;
        let mut i: usize = 0;
        while i < 4
            invariant
                vertices@.len() == 4,
                forall|k: int| 0 <= k < 4 ==> point_ok(#[trigger] vertices@[k]),
                0 <= i <= 4,
                i == 0 ==> min == i64::MAX && max == i64::MIN,
                i == 1 ==> min == proj(vertices@[0], normal.x as int, normal.y as int) && max
                    == min,
                i == 2 ==> min == min4(
                    proj(vertices@[0], normal.x as int, normal.y as int),
                    proj(vertices@[1], normal.x as int, normal.y as int),
                    i64::MAX as int,
                    i64::MAX as int,
                ) && max == max4(
                    proj(vertices@[0], normal.x as int, normal.y as int),
                    proj(vertices@[1], normal.x as int, normal.y as int),
                    i64::MIN as int,
                    i64::MIN as int,
                ),
                i == 3 ==> min == min4(
                    proj(vertices@[0], normal.x as int, normal.y as int),
                    proj(vertices@[1], normal.x as int, normal.y as int),
                    proj(vertices@[2], normal.x as int, normal.y as int),
                    i64::MAX as int,
                ) && max == max4(
                    proj(vertices@[0], normal.x as int, normal.y as int),
                    proj(vertices@[1], normal.x as int, normal.y as int),
                    proj(vertices@[2], normal.x as int, normal.y as int),
                    i64::MIN as int,
                ),
                i == 4 ==> min == span_min(vertices@, normal.x as int, normal.y as int) && max
                    == span_max(vertices@, normal.x as int, normal.y as int),
            decreases 4 - i,
        {
            let projection = projection(&vertices[i], normal);
            if projection < min {
                min = projection;
            }
            if projection > max {
                max = projection;
            }
            i += 1;
        }
        (min, max)
    }
}

pub open spec fn xs_min(vs: Seq<Vec2i>) -> int {
    min4(vs[0].x as int, vs[1].x as int, vs[2].x as int, vs[3].x as int)
}

pub open spec fn xs_max(vs: Seq<Vec2i>) -> int {
    max4(vs[0].x as int, vs[1].x as int, vs[2].x as int, vs[3].x as int)
}

pub open spec fn ys_min(vs: Seq<Vec2i>) -> int {
    min4(vs[0].y as int, vs[1].y as int, vs[2].y as int, vs[3].y as int)
}

pub open spec fn ys_max(vs: Seq<Vec2i>) -> int {
    max4(vs[0].y as int, vs[1].y as int, vs[2].y as int, vs[3].y as int)
}

/// Multiplying by a non-zero factor keeps order (or reverses it, for a negative one).
pub proof fn lemma_scale_order(k: int, a: int, b: int)
    requires
        k != 0,
    ensures
        k > 0 ==> (a <= b <==> k * a <= k * b) && (a < b <==> k * a < k * b),
        k < 0 ==> (a <= b <==> k * a >= k * b) && (a < b <==> k * a > k * b),
{
    if k > 0 {
        assert((a <= b ==> k * a <= k * b) && (a < b ==> k * a < k * b)) by (nonlinear_arith)
            requires
                k > 0,
        ;
        assert((k * a <= k * b ==> a <= b) && (k * a < k * b ==> a < b)) by (nonlinear_arith)
            requires
                k > 0,
        ;
    } else {
        assert((a <= b ==> k * a >= k * b) && (a < b ==> k * a > k * b)) by (nonlinear_arith)
            requires
                k < 0,
        ;
        assert((k * a >= k * b ==> a <= b) && (k * a > k * b ==> a < b)) by (nonlinear_arith)
            requires
                k < 0,
        ;
    }
}

/// Scaling four values by `k` scales their minimum and maximum (swapping the
/// two when `k` is negative).
proof fn lemma_scale_span(k: int, x0: int, x1: int, x2: int, x3: int)
    requires
        k != 0,
    ensures
        k > 0 ==> min4(k * x0, k * x1, k * x2, k * x3) == k * min4(x0, x1, x2, x3) && max4(
            k * x0,
            k * x1,
            k * x2,
            k * x3,
        ) == k * max4(x0, x1, x2, x3),
        k < 0 ==> min4(k * x0, k * x1, k * x2, k * x3) == k * max4(x0, x1, x2, x3) && max4(
            k * x0,
            k * x1,
            k * x2,
            k * x3,
        ) == k * min4(x0, x1, x2, x3),
{
    lemma_scale_order(k, x0, x1);
    lemma_scale_order(k, x1, x0);
    lemma_scale_order(k, x2, x3);
    lemma_scale_order(k, x3, x2);
    lemma_scale_order(k, x0, x2);
    lemma_scale_order(k, x0, x3);
    lemma_scale_order(k, x1, x2);
    lemma_scale_order(k, x1, x3);
    lemma_scale_order(k, x2, x0);
    lemma_scale_order(k, x3, x0);
    lemma_scale_order(k, x2, x1);
    lemma_scale_order(k, x3, x1);
}

/// On a non-zero multiple of the x axis (or of the y axis), two quadrilaterals
/// are separated exactly when their x (or y) intervals are disjoint; the zero
/// axis separates nothing.
proof fn lemma_axis_separation(va: Seq<Vec2i>, vb: Seq<Vec2i>, k: int)
    requires
        k != 0,
    ensures
        separates(va, vb, k, 0) == (xs_max(va) < xs_min(vb) || xs_max(vb) < xs_min(va)),
        separates(va, vb, 0, k) == (ys_max(va) < ys_min(vb) || ys_max(vb) < ys_min(va)),
        !separates(va, vb, 0, 0),
{
    assert forall|v: Vec2i| proj(v, k, 0) == k * v.x && proj(v, 0, k) == k * v.y && proj(v, 0, 0)
        == 0 by {
        assert(proj(v, k, 0) == k * v.x && proj(v, 0, k) == k * v.y && proj(v, 0, 0) == 0)
            by (nonlinear_arith);
    }
    lemma_scale_span(k, va[0].x as int, va[1].x as int, va[2].x as int, va[3].x as int);
    lemma_scale_span(k, vb[0].x as int, vb[1].x as int, vb[2].x as int, vb[3].x as int);
    lemma_scale_span(k, va[0].y as int, va[1].y as int, va[2].y as int, va[3].y as int);
    lemma_scale_span(k, vb[0].y as int, vb[1].y as int, vb[2].y as int, vb[3].y as int);
    lemma_scale_order(k, xs_max(va), xs_min(vb));
    lemma_scale_order(k, xs_max(vb), xs_min(va));
    lemma_scale_order(k, xs_min(va), xs_max(vb));
    lemma_scale_order(k, xs_min(vb), xs_max(va));
    lemma_scale_order(k, ys_max(va), ys_min(vb));
    lemma_scale_order(k, ys_max(vb), ys_min(va));
    lemma_scale_order(k, ys_min(va), ys_max(vb));
    lemma_scale_order(k, ys_min(vb), ys_max(va));
}

/// Without a sine component, the corners of `t` are its centre plus the cosine
/// times the corner offsets.
proof fn lemma_unrotated_corners(t: Transform)
    requires
        t.wf(),
        t.rotation.sin == 0,
    ensures
        vertices_of(t).len() == 4,
        forall|i: int|
            0 <= i < 4 ==> #[trigger] vertices_of(t)[i].x == SUB * t.position.x + t.rotation.cos
                * corner_dx(t, i) && vertices_of(t)[i].y == SUB * t.position.y + t.rotation.cos
                * corner_dy(t, i),
        t.rotation.cos * (-t.size.x) == -(t.rotation.cos * t.size.x),
        t.rotation.cos * (-t.size.y) == -(t.rotation.cos * t.size.y),
{
    lemma_vertices_exact(t);
    let (c, s) = (t.rotation.cos as int, t.rotation.sin as int);
    assert forall|i: int| 0 <= i < 4 implies #[trigger] vertices_of(t)[i].x == SUB * t.position.x
        + c * corner_dx(t, i) && vertices_of(t)[i].y == SUB * t.position.y + c * corner_dy(t, i) by {
        let (dx, dy) = (corner_dx(t, i), corner_dy(t, i));
        assert(s * dx == 0 && s * dy == 0) by (nonlinear_arith)
            requires
                s == 0,
        ;
    }
    assert(c * (-t.size.x) == -(c * t.size.x) && c * (-t.size.y) == -(c * t.size.y))
        by (nonlinear_arith);
}

/// The corners and edge normals of an unrotated rectangle.
proof fn lemma_unrotated_normals(t: Transform)
    requires
        t.wf(),
        t.rotation.cos == ONE && t.rotation.sin == 0,
    ensures
        ({
            let vs = vertices_of(t);
            let (px, py, w, h) = (t.position.x as int, t.position.y as int, t.size.x as int, t.size.y as int);
            &&& vs.len() == 4
            &&& vs[0].x == 2048 * px + 1024 * w && vs[0].y == 2048 * py + 1024 * h
            &&& vs[1].x == 2048 * px + 1024 * w && vs[1].y == 2048 * py - 1024 * h
            &&& vs[2].x == 2048 * px - 1024 * w && vs[2].y == 2048 * py - 1024 * h
            &&& vs[3].x == 2048 * px - 1024 * w && vs[3].y == 2048 * py + 1024 * h
            &&& normal_x(vs, 0) == -2048 * h && normal_y(vs, 0) == 0
            &&& normal_x(vs, 1) == 0 && normal_y(vs, 1) == 2048 * w
            &&& normal_x(vs, 2) == 2048 * h && normal_y(vs, 2) == 0
            &&& normal_x(vs, 3) == 0 && normal_y(vs, 3) == -2048 * w
        }),
{
    lemma_unrotated_corners(t);
    let vs = vertices_of(t);
    assert(ONE == 1024 && SUB == 2048);
    assert(vs[0].x == SUB * t.position.x + ONE * corner_dx(t, 0));
    assert(vs[1].x == SUB * t.position.x + ONE * corner_dx(t, 1));
    assert(vs[2].x == SUB * t.position.x + ONE * corner_dx(t, 2));
    assert(vs[3].x == SUB * t.position.x + ONE * corner_dx(t, 3));
    assert(vs[0].y == SUB * t.position.y + ONE * corner_dy(t, 0));
    assert(vs[1].y == SUB * t.position.y + ONE * corner_dy(t, 1));
    assert(vs[2].y == SUB * t.position.y + ONE * corner_dy(t, 2));
    assert(vs[3].y == SUB * t.position.y + ONE * corner_dy(t, 3));
    assert((0int + 1) % 4 == 1 && (1int + 1) % 4 == 2 && (2int + 1) % 4 == 3 && (3int + 1) % 4 == 0);
}

/// The overlap test gives the same answer with its arguments swapped.
pub proof fn lemma_overlaps_symmetric(a: Transform, b: Transform)
    ensures
        overlaps_spec(a, b) == overlaps_spec(b, a),
{
    let (va, vb) = (vertices_of(a), vertices_of(b));
    assert forall|nx: int, ny: int| separates(va, vb, nx, ny) == separates(vb, va, nx, ny) by {}
}

/// For unrotated rectangles the overlap test agrees exactly with comparing
/// their extents on each axis: the intervals `position ± size / 2` (doubled
/// here, to stay in integers) meet on x and on y. This needs, on each axis,
/// one of the two rectangles to have some extent across it: otherwise no edge
/// normal points along that axis.
pub proof fn lemma_overlaps_axis_aligned(a: Transform, b: Transform)
    requires
        a.wf(),
        b.wf(),
        a.rotation.cos == ONE && a.rotation.sin == 0,
        b.rotation.cos == ONE && b.rotation.sin == 0,
        a.size.y > 0 || b.size.y > 0,
        a.size.x > 0 || b.size.x > 0,
    ensures
        overlaps_spec(a, b) == (2 * a.position.x - a.size.x <= 2 * b.position.x + b.size.x && 2
            * b.position.x - b.size.x <= 2 * a.position.x + a.size.x && 2 * a.position.y
            - a.size.y <= 2 * b.position.y + b.size.y && 2 * b.position.y - b.size.y <= 2
            * a.position.y + a.size.y),
{
    assert(ONE == 1024 && SUB == 2048);
    lemma_unrotated_normals(a);
    lemma_unrotated_normals(b);
    lemma_vertices_exact(a);
    lemma_vertices_exact(b);
    let (va, vb) = (vertices_of(a), vertices_of(b));
    let (ha, wa, hb, wb) = (a.size.y as int, a.size.x as int, b.size.y as int, b.size.x as int);
    assert(normal_x(va, 0) == -2 * 1024 * ha && normal_y(va, 0) == 0);
    assert(normal_x(va, 1) == 0 && normal_y(va, 1) == 2 * 1024 * wa);
    assert(normal_x(va, 2) == 2 * 1024 * ha && normal_y(va, 2) == 0);
    assert(normal_x(va, 3) == 0 && normal_y(va, 3) == -2 * 1024 * wa);
    assert(normal_x(vb, 0) == -2 * 1024 * hb && normal_y(vb, 0) == 0);
    assert(normal_x(vb, 1) == 0 && normal_y(vb, 1) == 2 * 1024 * wb);
    assert(normal_x(vb, 2) == 2 * 1024 * hb && normal_y(vb, 2) == 0);
    assert(normal_x(vb, 3) == 0 && normal_y(vb, 3) == -2 * 1024 * wb);
    assert(xs_min(va) == 2048 * a.position.x - 1024 * wa && xs_max(va) == 2048 * a.position.x + ONE
        * wa);
    assert(ys_min(va) == 2048 * a.position.y - 1024 * ha && ys_max(va) == 2048 * a.position.y + ONE
        * ha);
    assert(xs_min(vb) == 2048 * b.position.x - 1024 * wb && xs_max(vb) == 2048 * b.position.x + ONE
        * wb);
    assert(ys_min(vb) == 2048 * b.position.y - 1024 * hb && ys_max(vb) == 2048 * b.position.y + ONE
        * hb);
    let x_meet = !(xs_max(va) < xs_min(vb) || xs_max(vb) < xs_min(va));
    let y_meet = !(ys_max(va) < ys_min(vb) || ys_max(vb) < ys_min(va));
    // Every normal is a multiple of an axis; the non-zero ones test that axis.
    assert forall|k: int| k != 0 implies separates(va, vb, k, 0) == !x_meet && separates(
        va,
        vb,
        0,
        k,
    ) == !y_meet by {
        lemma_axis_separation(va, vb, k);
    }
    lemma_axis_separation(va, vb, 1);
    if overlaps_spec(a, b) {
        if ha > 0 {
            assert(!separates(va, vb, normal_x(va, 0), normal_y(va, 0)));
        } else {
            assert(!separates(va, vb, normal_x(vb, 0), normal_y(vb, 0)));
        }
        if wa > 0 {
            assert(!separates(va, vb, normal_x(va, 1), normal_y(va, 1)));
        } else {
            assert(!separates(va, vb, normal_x(vb, 1), normal_y(vb, 1)));
        }
    }
    if x_meet && y_meet {
        assert forall|i: int| 0 <= i < 4 implies !separates(
            va,
            vb,
            normal_x(va, i),
            normal_y(va, i),
        ) && !separates(va, vb, normal_x(vb, i), normal_y(vb, i)) by {
            if i == 0 || i == 2 {
                if ha != 0 {
                } else {
                }
            }
        }
    }
}

/// The broad-phase test never misses an exact overlap with an axis-aligned
/// rectangle: if `a` overlaps `b`, where `b` has positive extent on both axes
/// and is unrotated (or turned half a turn, or scaled down), then `a`'s box
/// meets `b`'s box.
pub proof fn lemma_lazy_is_conservative(a: Transform, b: Transform)
    requires
        a.wf(),
        b.wf(),
        b.rotation.sin == 0,
        b.rotation.cos != 0,
        b.size.x > 0,
        b.size.y > 0,
    ensures
        overlaps_spec(a, b) ==> overlaps_lazy_spec(a, b),
{
    lemma_vertices_exact(a);
    lemma_unrotated_corners(b);
    let (va, vb) = (vertices_of(a), vertices_of(b));
    let c = b.rotation.cos as int;
    let (w, h) = (b.size.x as int, b.size.y as int);
    assert(c * (-w) == -(c * w) && c * (-h) == -(c * h)) by (nonlinear_arith);
    assert(c * h != 0 && c * w != 0) by (nonlinear_arith)
        requires
            c != 0,
            h > 0,
            w > 0,
    ;
    assert(-(ONE * w) <= c * w <= ONE * w) by (nonlinear_arith)
        requires
            -ONE <= c <= ONE,
            w > 0,
    ;
    assert(-(ONE * h) <= c * h <= ONE * h) by (nonlinear_arith)
        requires
            -ONE <= c <= ONE,
            h > 0,
    ;
    assert(normal_x(vb, 0) == -2 * (c * h) && normal_y(vb, 0) == 0);
    assert(normal_x(vb, 1) == 0 && normal_y(vb, 1) == 2 * (c * w));
    lemma_axis_separation(va, vb, -2 * (c * h));
    lemma_axis_separation(va, vb, 2 * (c * w));
    lemma_vertex_bounds(a, 0);
    lemma_vertex_bounds(a, 1);
    lemma_vertex_bounds(a, 2);
    lemma_vertex_bounds(a, 3);
    if overlaps_spec(a, b) {
        assert(!separates(va, vb, normal_x(vb, 0), normal_y(vb, 0)));
        assert(!separates(va, vb, normal_x(vb, 1), normal_y(vb, 1)));
        assert(xs_min(vb) >= SUB * b.position.x - ONE * w);
        assert(xs_max(vb) <= SUB * b.position.x + ONE * w);
        assert(ys_min(vb) >= SUB * b.position.y - ONE * h);
        assert(ys_max(vb) <= SUB * b.position.y + ONE * h);
    }
}

/// `inner` lies within `outer`.
pub open spec fn box_within(inner: Aabb, outer: Aabb) -> bool {
    outer.min.x <= inner.min.x && inner.max.x <= outer.max.x && outer.min.y <= inner.min.y
        && inner.max.y <= outer.max.y
}

/// The broad-phase test never misses an exact overlap found by an unrotated
/// rectangle: if `a` (positive extent on both axes, unrotated or turned half a
/// turn) overlaps `b`, and `b`'s corners lie within its own unrotated box,
/// then `a`'s box meets `b`'s box.
pub proof fn lemma_lazy_is_conservative_from_unrotated(a: Transform, b: Transform)
    requires
        a.wf(),
        b.wf(),
        a.rotation.sin == 0,
        a.rotation.cos != 0,
        a.size.x > 0,
        a.size.y > 0,
        box_within(hull_of(b), extent_box_of(b)),
    ensures
        overlaps_spec(a, b) ==> overlaps_lazy_spec(a, b),
{
    lemma_unrotated_corners(a);
    lemma_vertices_exact(b);
    let (va, vb) = (vertices_of(a), vertices_of(b));
    let c = a.rotation.cos as int;
    let (w, h) = (a.size.x as int, a.size.y as int);
    assert(c * (-w) == -(c * w) && c * (-h) == -(c * h)) by (nonlinear_arith);
    assert(va[0].x == SUB * a.position.x + c * w && va[1].x == SUB * a.position.x + c * w);
    assert(va[0].y == SUB * a.position.y + c * h && va[1].y == SUB * a.position.y + c * (-h));
    assert(va[2].x == SUB * a.position.x + c * (-w) && va[2].y == SUB * a.position.y + c * (-h));
    assert(c * h != 0 && c * w != 0) by (nonlinear_arith)
        requires
            c != 0,
            h > 0,
            w > 0,
    ;
    assert(normal_x(va, 0) == -2 * (c * h) && normal_y(va, 0) == 0);
    assert(normal_x(va, 1) == 0 && normal_y(va, 1) == 2 * (c * w));
    lemma_axis_separation(va, vb, -2 * (c * h));
    lemma_axis_separation(va, vb, 2 * (c * w));
    lemma_vertex_bounds(a, 0);
    lemma_vertex_bounds(a, 1);
    lemma_vertex_bounds(a, 2);
    lemma_vertex_bounds(a, 3);
    lemma_vertex_bounds(b, 0);
    lemma_vertex_bounds(b, 1);
    lemma_vertex_bounds(b, 2);
    lemma_vertex_bounds(b, 3);
    if overlaps_spec(a, b) {
        assert(!separates(va, vb, normal_x(va, 0), normal_y(va, 0)));
        assert(!separates(va, vb, normal_x(va, 1), normal_y(va, 1)));
        assert(hull_of(b).max.x == xs_max(vb) && hull_of(b).min.x == xs_min(vb));
        assert(hull_of(b).max.y == ys_max(vb) && hull_of(b).min.y == ys_min(vb));
        assert(hull_of(a).max.x == xs_max(va) && hull_of(a).min.x == xs_min(va));
        assert(hull_of(a).max.y == ys_max(va) && hull_of(a).min.y == ys_min(va));
    }
}

} // verus!
