use crate::line_seg::{crossing_spec, lemma_crossing_point, Crossing, LineSeg, SEG_COORD_MAX};
use crate::object_manager::{culled_indices, has_tag, visible, Object, ObjectId, ObjectManager};
use crate::transform::{
    boxes_meet, hull_of, lemma_scale_order, lemma_vertex_bounds, vertices_of, Aabb, Transform, COORD_MAX, SUB,
};
use crate::vec2i::Vec2i;
use vstd::prelude::*;

verus! {

/// Which entities a raycast considers, by their tags against its filter.
#[derive(PartialEq, Eq, Structural, Debug, Clone, Copy)]
pub enum FilterType {
    /// Every entity.
    Unfiltered,
    /// Only entities that carry at least one tag of the filter.
    Whitelist,
    /// Only entities that carry no tag of the filter.
    Blacklist,
}

/// The nearest hit of a raycast: the entity whose edge was hit, and where.
/// `crossing.t / crossing.den` is how far along the ray the hit lies (0 at
/// `ray.p1`, 1 at `ray.p2`), so the hit point is `p1 + t/den * (p2 - p1)` and
/// its distance from `p1` is `t/den` times the ray's length. `crossing.s /
/// crossing.den` is how far along the entity's edge it lies.
#[derive(PartialEq, Eq, Structural, Debug, Clone, Copy)]
pub struct RaycastHit {
    pub object: ObjectId,
    pub crossing: Crossing,
}

/// A ray (a segment, in world units), the tags that filter what it can hit,
/// and the result of the last `fire`.
pub struct Raycast {
    pub ray: LineSeg,
    pub hit: Option<RaycastHit>,
    pub filter: Vec<String>,
}

/// The entity carries some tag of `filter`.
pub open spec fn shares_tag(o: &Object, filter: Seq<String>) -> bool {
    exists|j: int| 0 <= j < filter.len() && has_tag(o, (#[trigger] filter[j])@)
}

/// Whether the filter lets the raycast consider the entity.
pub open spec fn passes_filter(o: &Object, filter: Seq<String>, filter_type: FilterType) -> bool {
    match filter_type {
        FilterType::Unfiltered => true,
        FilterType::Whitelist => shares_tag(o, filter),
        FilterType::Blacklist => !shares_tag(o, filter),
    }
}

/// Both endpoints lie within `COORD_MAX` on each axis.
pub open spec fn ray_ok(ray: LineSeg) -> bool {
    -COORD_MAX <= ray.p1.x <= COORD_MAX && -COORD_MAX <= ray.p1.y <= COORD_MAX && -COORD_MAX
        <= ray.p2.x <= COORD_MAX && -COORD_MAX <= ray.p2.y <= COORD_MAX
}

/// The ray in sub-units, the lattice of rectangle corners.
pub open spec fn ray_in_sub_units(ray: LineSeg) -> LineSeg {
    LineSeg {
        p1: Vec2i { x: (SUB * ray.p1.x) as i32, y: (SUB * ray.p1.y) as i32 },
        p2: Vec2i { x: (SUB * ray.p2.x) as i32, y: (SUB * ray.p2.y) as i32 },
    }
}

pub open spec fn min2(a: int, b: int) -> int {
    if a <= b { a } else { b }
}

pub open spec fn max2(a: int, b: int) -> int {
    if a >= b { a } else { b }
}

/// The box around the ray, in sub-units: its broad-phase query shape.
pub open spec fn ray_box(ray: LineSeg) -> Aabb {
    Aabb {
        min: Vec2i {
            x: (SUB * min2(ray.p1.x as int, ray.p2.x as int)) as i32,
            y: (SUB * min2(ray.p1.y as int, ray.p2.y as int)) as i32,
        },
        max: Vec2i {
            x: (SUB * max2(ray.p1.x as int, ray.p2.x as int)) as i32,
            y: (SUB * max2(ray.p1.y as int, ray.p2.y as int)) as i32,
        },
    }
}

/// Edge `e` of `t`, from corner `e` to corner `(e + 1) % 4`.
pub open spec fn edge_of(t: Transform, e: int) -> LineSeg {
    LineSeg { p1: vertices_of(t)[e], p2: vertices_of(t)[(e + 1) % 4] }
}

/// Where the ray crosses edge `e` of candidate `c`, if the filter admits the
/// candidate, it has a rectangle, and that edge crosses the ray.
pub open spec fn slot_hit(
    objs: Seq<(ObjectId, Object)>,
    cands: Seq<usize>,
    filter: Seq<String>,
    filter_type: FilterType,
    ray: LineSeg,
    c: int,
    e: int,
) -> Option<Crossing> {
    let o = &objs[cands[c] as int].1;
    if passes_filter(o, filter, filter_type) {
        match o.transform {
            Some(t) => crossing_spec(edge_of(t, e), ray_in_sub_units(ray)),
            None => None,
        }
    } else {
        None
    }
}

/// `a` lies strictly nearer to the start of the ray than `b`.
pub open spec fn nearer(a: Crossing, b: Crossing) -> bool {
    a.t * b.den < b.t * a.den
}

/// Slot `(c1, e1)` comes before slot `(c2, e2)`: candidates in order, then edges in order.
pub open spec fn slot_before(c1: int, e1: int, c2: int, e2: int) -> bool {
    c1 < c2 || (c1 == c2 && e1 < e2)
}

/// Orders of crossings chain: if `x` is nearer than `h` and `h` is not nearer than `y`,
/// then `x` is nearer than `y`.
proof fn lemma_nearer_chain(x: Crossing, h: Crossing, y: Crossing)
    requires
        x.den > 0,
        h.den > 0,
        y.den > 0,
        nearer(x, h),
        !nearer(y, h),
    ensures
        nearer(x, y),
{
    let (xt, xd, ht, hd, yt, yd) = (x.t as int, x.den as int, h.t as int, h.den as int, y.t as int, y.den as int);
    assert(xt * hd * yd < ht * xd * yd) by (nonlinear_arith)
        requires
            xt * hd < ht * xd,
            yd > 0,
    ;
    assert(ht * yd * xd <= yt * hd * xd) by (nonlinear_arith)
        requires
            yt * hd >= ht * yd,
            xd > 0,
    ;
    assert(ht * xd * yd == ht * yd * xd && yt * hd * xd == yt * hd * xd) by (nonlinear_arith);
    assert(xt * yd < yt * xd) by (nonlinear_arith)
        requires
            xt * hd * yd < yt * hd * xd,
            hd > 0,
    ;
}

/// The state of `fire` after the slots before `(c, e)`: every hit among them
/// has a positive denominator; `best` is `None` when none of them is a hit,
/// and otherwise the hit of slot `(bc, be)`, which no earlier slot equals or
/// beats and no later one beats.
#[verifier::opaque]
spec fn best_so_far(
    objs: Seq<(ObjectId, Object)>,
    cands: Seq<usize>,
    filter: Seq<String>,
    filter_type: FilterType,
    ray: LineSeg,
    best: Option<RaycastHit>,
    bc: int,
    be: int,
    c: int,
    e: int,
) -> bool {
    &&& forall|c2: int, e2: int|
        0 <= c2 < cands.len() && 0 <= e2 < 4 && slot_before(c2, e2, c, e) ==> match #[trigger] slot_hit(
            objs,
            cands,
            filter,
            filter_type,
            ray,
            c2,
            e2,
        ) {
            Some(x) => x.den > 0,
            None => true,
        }
    &&& best is None <==> forall|c2: int, e2: int|
        0 <= c2 < cands.len() && 0 <= e2 < 4 && slot_before(c2, e2, c, e) ==> #[trigger] slot_hit(
            objs,
            cands,
            filter,
            filter_type,
            ray,
            c2,
            e2,
        ) is None
    &&& best matches Some(h) ==> {
        &&& 0 <= bc < cands.len() && 0 <= be < 4 && slot_before(bc, be, c, e)
        &&& slot_hit(objs, cands, filter, filter_type, ray, bc, be) == Some(h.crossing)
        &&& h.object == objs[cands[bc] as int].0
        &&& h.crossing.den > 0
        &&& h.crossing.den <= 8 * SEG_COORD_MAX * SEG_COORD_MAX
        &&& 0 <= h.crossing.t <= h.crossing.den
        &&& forall|c2: int, e2: int|
            0 <= c2 < cands.len() && 0 <= e2 < 4 && slot_before(c2, e2, c, e) ==> match #[trigger] slot_hit(
                objs,
                cands,
                filter,
                filter_type,
                ray,
                c2,
                e2,
            ) {
                Some(x) => !nearer(x, h.crossing),
                None => true,
            }
        &&& forall|c2: int, e2: int|
            0 <= c2 < cands.len() && 0 <= e2 < 4 && slot_before(c2, e2, bc, be) ==> match
                #[trigger] slot_hit(objs, cands, filter, filter_type, ray, c2, e2) {
                Some(x) => nearer(h.crossing, x),
                None => true,
            }
    }
}

/// Before any slot, nothing is found.
proof fn lemma_best_start(
    objs: Seq<(ObjectId, Object)>,
    cands: Seq<usize>,
    filter: Seq<String>,
    filter_type: FilterType,
    ray: LineSeg,
)
    ensures
        best_so_far(objs, cands, filter, filter_type, ray, None, 0, 0, 0, 0),
{
    reveal(best_so_far);
}

/// Past slot `(c, e)`, which is not a hit or is no nearer than `best`, `best` stands.
proof fn lemma_best_keep(
    objs: Seq<(ObjectId, Object)>,
    cands: Seq<usize>,
    filter: Seq<String>,
    filter_type: FilterType,
    ray: LineSeg,
    best: Option<RaycastHit>,
    bc: int,
    be: int,
    c: int,
    e: int,
)
    requires
        0 <= c < cands.len(),
        0 <= e < 4,
        best_so_far(objs, cands, filter, filter_type, ray, best, bc, be, c, e),
        match slot_hit(objs, cands, filter, filter_type, ray, c, e) {
            Some(x) => x.den > 0 && (best matches Some(h) && !nearer(x, h.crossing)),
            None => true,
        },
    ensures
        best_so_far(objs, cands, filter, filter_type, ray, best, bc, be, c, e + 1),
{
    reveal(best_so_far);
}

/// Slot `(c, e)` is a hit nearer than `best` (or the first hit): it becomes the best.
proof fn lemma_best_take(
    objs: Seq<(ObjectId, Object)>,
    cands: Seq<usize>,
    filter: Seq<String>,
    filter_type: FilterType,
    ray: LineSeg,
    best: Option<RaycastHit>,
    bc: int,
    be: int,
    c: int,
    e: int,
    x: Crossing,
)
    requires
        0 <= c < cands.len(),
        0 <= e < 4,
        best_so_far(objs, cands, filter, filter_type, ray, best, bc, be, c, e),
        slot_hit(objs, cands, filter, filter_type, ray, c, e) == Some(x),
        x.den > 0,
        x.den <= 8 * SEG_COORD_MAX * SEG_COORD_MAX,
        0 <= x.t <= x.den,
        best matches Some(h) ==> nearer(x, h.crossing),
    ensures
        best_so_far(
            objs,
            cands,
            filter,
            filter_type,
            ray,
            Some(RaycastHit { object: objs[cands[c] as int].0, crossing: x }),
            c,
            e,
            c,
            e + 1,
        ),
{
    reveal(best_so_far);
    if let Some(h) = best {
        assert forall|c2: int, e2: int|
            0 <= c2 < cands.len() && 0 <= e2 < 4 && slot_before(c2, e2, c, e) implies match
            #[trigger] slot_hit(objs, cands, filter, filter_type, ray, c2, e2) {
            Some(y) => nearer(x, y),
            None => true,
        } by {
            if let Some(y) = slot_hit(objs, cands, filter, filter_type, ray, c2, e2) {
                lemma_nearer_chain(x, h.crossing, y);
            }
        }
    }
    assert forall|c2: int, e2: int|
        0 <= c2 < cands.len() && 0 <= e2 < 4 && slot_before(c2, e2, c, e + 1) implies match
        #[trigger] slot_hit(objs, cands, filter, filter_type, ray, c2, e2) {
        Some(y) => !nearer(y, x),
        None => true,
    } by {
        if let Some(y) = slot_hit(objs, cands, filter, filter_type, ray, c2, e2) {
            if c2 == c && e2 == e {
            } else {
                assert(nearer(x, y));
            }
        }
    }
}

/// After the last edge of candidate `c`, the scan moves on to candidate `c + 1`.
proof fn lemma_best_next_candidate(
    objs: Seq<(ObjectId, Object)>,
    cands: Seq<usize>,
    filter: Seq<String>,
    filter_type: FilterType,
    ray: LineSeg,
    best: Option<RaycastHit>,
    bc: int,
    be: int,
    c: int,
)
    requires
        best_so_far(objs, cands, filter, filter_type, ray, best, bc, be, c, 4),
    ensures
        best_so_far(objs, cands, filter, filter_type, ray, best, bc, be, c + 1, 0),
{
    reveal(best_so_far);
}

/// A candidate with no hit on any edge leaves `best` as it is.
proof fn lemma_best_skip_candidate(
    objs: Seq<(ObjectId, Object)>,
    cands: Seq<usize>,
    filter: Seq<String>,
    filter_type: FilterType,
    ray: LineSeg,
    best: Option<RaycastHit>,
    bc: int,
    be: int,
    c: int,
)
    requires
        0 <= c < cands.len(),
        best_so_far(objs, cands, filter, filter_type, ray, best, bc, be, c, 0),
        forall|e: int| 0 <= e < 4 ==> #[trigger] slot_hit(objs, cands, filter, filter_type, ray, c, e) is None,
    ensures
        best_so_far(objs, cands, filter, filter_type, ray, best, bc, be, c + 1, 0),
{
    reveal(best_so_far);
}

/// The state after every slot is the result `fire` promises.
proof fn lemma_best_final(
    objs: Seq<(ObjectId, Object)>,
    cands: Seq<usize>,
    filter: Seq<String>,
    filter_type: FilterType,
    ray: LineSeg,
    best: Option<RaycastHit>,
    bc: int,
    be: int,
)
    requires
        best_so_far(objs, cands, filter, filter_type, ray, best, bc, be, cands.len() as int, 0),
    ensures
        best is None <==> forall|c: int, e: int|
            0 <= c < cands.len() && 0 <= e < 4 ==> #[trigger] slot_hit(
                objs,
                cands,
                filter,
                filter_type,
                ray,
                c,
                e,
            ) is None,
        best matches Some(h) ==> exists|c: int, e: int|
            #![trigger slot_hit(objs, cands, filter, filter_type, ray, c, e)]
            0 <= c < cands.len() && 0 <= e < 4 && slot_hit(
                objs,
                cands,
                filter,
                filter_type,
                ray,
                c,
                e,
            ) == Some(h.crossing) && h.object == objs[cands[c] as int].0 && (forall|
                c2: int,
                e2: int,
            |
                0 <= c2 < cands.len() && 0 <= e2 < 4 ==> match #[trigger] slot_hit(
                    objs,
                    cands,
                    filter,
                    filter_type,
                    ray,
                    c2,
                    e2,
                ) {
                    Some(x) => !nearer(x, h.crossing),
                    None => true,
                }) && (forall|c2: int, e2: int|
                0 <= c2 < cands.len() && 0 <= e2 < 4 && slot_before(c2, e2, c, e) ==> match
                    #[trigger] slot_hit(objs, cands, filter, filter_type, ray, c2, e2) {
                    Some(x) => nearer(h.crossing, x),
                    None => true,
                }),
{
    reveal(best_so_far);
    if let Some(h) = best {
        assert(slot_hit(objs, cands, filter, filter_type, ray, bc, be) == Some(h.crossing));
    }
}

/// A point `p * den + s * (q - p)` with `0 <= s <= den` lies between `p * den` and `q * den`.
proof fn lemma_between(p: int, q: int, s: int, den: int)
    requires
        0 <= s <= den,
    ensures
        min2(p, q) * den <= p * den + s * (q - p) <= max2(p, q) * den,
{
    if p <= q {
        assert(p * den <= p * den + s * (q - p) <= q * den) by (nonlinear_arith)
            requires
                0 <= s <= den,
                p <= q,
        ;
    } else {
        assert(q * den <= p * den + s * (q - p) <= p * den) by (nonlinear_arith)
            requires
                0 <= s <= den,
                q < p,
        ;
    }
}

/// The broad phase loses no hit: an entity that is not borrowed elsewhere and
/// has an edge that the ray crosses passes the broad-phase test against the box
/// around the ray, so it is among the candidates of `fire`.
#[verifier::spinoff_prover]
pub proof fn lemma_broad_phase_keeps_hits(o: &Object, ray: LineSeg, e: int)
    requires
        o.wf(),
        !o.busy,
        ray_ok(ray),
        0 <= e < 4,
        o.transform matches Some(t) && crossing_spec(edge_of(t, e), ray_in_sub_units(ray)) is Some,
    ensures
        visible(o, ray_box(ray)),
{
    let t = o.transform->Some_0;
    let edge = edge_of(t, e);
    let rs = ray_in_sub_units(ray);
    assert(SUB == 2048);
    lemma_vertex_bounds(t, 0);
    lemma_vertex_bounds(t, 1);
    lemma_vertex_bounds(t, 2);
    lemma_vertex_bounds(t, 3);
    assert(edge.in_range());
    assert(rs.p1.x == 2048 * ray.p1.x && rs.p2.x == 2048 * ray.p2.x);
    assert(rs.p1.y == 2048 * ray.p1.y && rs.p2.y == 2048 * ray.p2.y);
    assert(rs.in_range());
    lemma_crossing_point(edge, rs);
    let c = crossing_spec(edge, rs)->Some_0;
    let den = c.den as int;
    let vs = vertices_of(t);
    let hull = hull_of(t);
    let rb = ray_box(ray);
    // The crossing point, scaled by `den`, lies within the edge's span and the ray's span.
    lemma_between(edge.p1.x as int, edge.p2.x as int, c.s as int, den);
    lemma_between(edge.p1.y as int, edge.p2.y as int, c.s as int, den);
    lemma_between(rs.p1.x as int, rs.p2.x as int, c.t as int, den);
    lemma_between(rs.p1.y as int, rs.p2.y as int, c.t as int, den);
    // The edge's endpoints lie within the hull; the ray's within its box.
    assert(hull.min.x <= min2(edge.p1.x as int, edge.p2.x as int));
    assert(hull.max.x >= max2(edge.p1.x as int, edge.p2.x as int));
    assert(hull.min.y <= min2(edge.p1.y as int, edge.p2.y as int));
    assert(hull.max.y >= max2(edge.p1.y as int, edge.p2.y as int));
    assert(rb.min.x == min2(rs.p1.x as int, rs.p2.x as int));
    assert(rb.max.x == max2(rs.p1.x as int, rs.p2.x as int));
    assert(rb.min.y == min2(rs.p1.y as int, rs.p2.y as int));
    assert(rb.max.y == max2(rs.p1.y as int, rs.p2.y as int));
    let px = edge.p1.x * den + c.s * edge.dx();
    let py = edge.p1.y * den + c.s * edge.dy();
    assert(px == rs.p1.x * den + c.t * rs.dx());
    assert(py == rs.p1.y * den + c.t * rs.dy());
    lemma_scale_order(den, hull.min.x as int, min2(edge.p1.x as int, edge.p2.x as int));
    lemma_scale_order(den, max2(edge.p1.x as int, edge.p2.x as int), hull.max.x as int);
    lemma_scale_order(den, hull.min.y as int, min2(edge.p1.y as int, edge.p2.y as int));
    lemma_scale_order(den, max2(edge.p1.y as int, edge.p2.y as int), hull.max.y as int);
    assert(hull.min.x * den <= px <= hull.max.x * den);
    assert(hull.min.y * den <= py <= hull.max.y * den);
    assert(rb.min.x * den <= px <= rb.max.x * den);
    assert(rb.min.y * den <= py <= rb.max.y * den);
    lemma_scale_order(den, hull.min.x as int, rb.max.x as int);
    lemma_scale_order(den, rb.min.x as int, hull.max.x as int);
    lemma_scale_order(den, hull.min.y as int, rb.max.y as int);
    lemma_scale_order(den, rb.min.y as int, hull.max.y as int);
    assert(boxes_meet(hull, rb));
}

/// Whether the entity carries some tag of `filter`.
fn shares_tag_exec(object: &Object, filter: &Vec<String>) -> (r: bool)
    ensures
        r == shares_tag(object, filter@),
{
    let mut j: usize = 0;
    while j < filter.len()
        invariant
            0 <= j <= filter@.len(),
            forall|k: int| 0 <= k < j ==> !has_tag(object, (#[trigger] filter@[k])@),
        decreases filter@.len() - j,
    {
        if object.has_tag(&filter[j]) {
            return true;
        }
        j += 1;
    }
    false
}

impl Raycast {
    pub fn new(ray: LineSeg, filter: Vec<String>) -> (r: Self)
        ensures
            r.ray == ray,
            r.filter@ == filter@,
            r.hit is None,
    {
        Self { ray, hit: None, filter }
    }

    /// Whether both ends of the ray lie within `COORD_MAX` on each axis, as `fire` needs.
    pub fn ray_in_range(&self) -> (r: bool)
        ensures
            r == ray_ok(self.ray),
    {
        let (p1, p2) = (self.ray.p1, self.ray.p2);
        -COORD_MAX <= p1.x && p1.x <= COORD_MAX && -COORD_MAX <= p1.y && p1.y <= COORD_MAX && -COORD_MAX
            <= p2.x && p2.x <= COORD_MAX && -COORD_MAX <= p2.y && p2.y <= COORD_MAX
    }

    /// Replaces the filter for the next `fire`.
    pub fn set_filter(&mut self, filter: Vec<String>)
        ensures
            final(self).filter@ == filter@,
            final(self).ray == old(self).ray,
            final(self).hit == old(self).hit,
    {
        self.filter = filter;
    }

    /// Casts the ray through the registry. The candidates are the entities
    /// that pass the broad-phase test against the box around the ray, in
    /// master-list order; the filter then keeps some of them, and every edge of
    /// each is tested against the ray. `hit` becomes the crossing nearest to the
    /// ray's start, the first one found among equally near ones, or `None` when
    /// no edge crosses the ray.
    pub fn fire(&mut self, om: &ObjectManager, filter_type: FilterType)
        requires
            om.wf(),
            ray_ok(old(self).ray),
        ensures
            final(self).ray == old(self).ray,
            final(self).filter == old(self).filter,
            ({
                let objs = om.objects@;
                let cands = culled_indices(objs, ray_box(old(self).ray), objs.len() as int);
                let filter = old(self).filter@;
                let ray = old(self).ray;
                &&& final(self).hit is None <==> forall|c: int, e: int|
                    0 <= c < cands.len() && 0 <= e < 4 ==> #[trigger] slot_hit(
                        objs,
                        cands,
                        filter,
                        filter_type,
                        ray,
                        c,
                        e,
                    ) is None
                &&& final(self).hit matches Some(h) ==> exists|c: int, e: int|
                    #![trigger slot_hit(objs, cands, filter, filter_type, ray, c, e)]
                    0 <= c < cands.len() && 0 <= e < 4 && slot_hit(
                        objs,
                        cands,
                        filter,
                        filter_type,
                        ray,
                        c,
                        e,
                    ) == Some(h.crossing) && h.object == objs[cands[c] as int].0 && (forall|
                        c2: int,
                        e2: int,
                    |
                        0 <= c2 < cands.len() && 0 <= e2 < 4 ==> match #[trigger] slot_hit(
                            objs,
                            cands,
                            filter,
                            filter_type,
                            ray,
                            c2,
                            e2,
                        ) {
                            Some(x) => !nearer(x, h.crossing),
                            None => true,
                        }) && (forall|c2: int, e2: int|
                        0 <= c2 < cands.len() && 0 <= e2 < 4 && slot_before(c2, e2, c, e) ==> match
                            #[trigger] slot_hit(objs, cands, filter, filter_type, ray, c2, e2) {
                            Some(x) => nearer(h.crossing, x),
                            None => true,
                        })
            }),
    {
        let ray = self.ray;
        let x1 = ray.p1.x;
        let x2 = ray.p2.x;
        let y1 = ray.p1.y;
        let y2 = ray.p2.y;
        let bounds = Aabb {
            min: Vec2i::new(SUB * (if x1 <= x2 { x1 } else { x2 }), SUB * (if y1 <= y2 { y1 } else { y2 })),
            max: Vec2i::new(SUB * (if x1 >= x2 { x1 } else { x2 }), SUB * (if y1 >= y2 { y1 } else { y2 })),
        };
        assert(bounds == ray_box(ray));
        let candidates = om.candidates_in_box(&bounds);
        let ray_sub = LineSeg::new(Vec2i::new(SUB * x1, SUB * y1), Vec2i::new(SUB * x2, SUB * y2));
        assert(ray_sub == ray_in_sub_units(ray));
        let ghost objs = om.objects@;
        let ghost cands = candidates@;
        let ghost filter = self.filter@;
        let ghost mut best_c: int = 0;
        let ghost mut best_e: int = 0;
        let mut best: Option<RaycastHit> = None;
        proof {
            lemma_best_start(objs, cands, filter, filter_type, ray);
        }
        let mut c: usize = 0;
        while c < candidates.len()
            invariant
                om.wf(),
                objs == om.objects@,
                cands == candidates@,
                cands == culled_indices(objs, ray_box(ray), objs.len() as int),
                filter == self.filter@,
                ray == self.ray,
                ray_sub == ray_in_sub_units(ray),
                ray_sub.in_range(),
                forall|k: int| 0 <= k < cands.len() ==> (#[trigger] cands[k]) < objs.len(),
                0 <= c <= cands.len(),
                best_so_far(objs, cands, filter, filter_type, ray, best, best_c, best_e, c as int, 0),
            decreases cands.len() - c,
        {
            let idx = candidates[c];
            let object = &om.objects[idx].1;
            assert(object.wf());
            let admitted = match filter_type {
                FilterType::Unfiltered => true,
                FilterType::Whitelist => shares_tag_exec(object, &self.filter),
                FilterType::Blacklist => !shares_tag_exec(object, &self.filter),
            };
            assert(admitted == passes_filter(object, filter, filter_type));
            match &object.transform {
                Some(t) if admitted => {
                    let lines = t.lines();
                    proof {
                        lemma_vertex_bounds(*t, 0);
                        lemma_vertex_bounds(*t, 1);
                        lemma_vertex_bounds(*t, 2);
                        lemma_vertex_bounds(*t, 3);
                    }
                    let mut e: usize = 0;
                    while e < 4
                        invariant
                            objs == om.objects@,
                            ray_sub == ray_in_sub_units(ray),
                            ray_sub.in_range(),
                            0 <= c < cands.len(),
                            idx == cands[c as int],
                            idx < objs.len(),
                            *object == objs[idx as int].1,
                            object.transform == Some(*t),
                            passes_filter(object, filter, filter_type),
                            lines@.len() == 4,
                            forall|k: int| 0 <= k < 4 ==> (#[trigger] lines@[k]) == edge_of(*t, k),
                            forall|k: int| 0 <= k < 4 ==> (#[trigger] lines@[k]).in_range(),
                            0 <= e <= 4,
                            best_so_far(
                                objs,
                                cands,
                                filter,
                                filter_type,
                                ray,
                                best,
                                best_c,
                                best_e,
                                c as int,
                                e as int,
                            ),
                        decreases 4 - e,
                    {
                        let found = lines[e].intersects(&ray_sub);
                        assert(found == slot_hit(objs, cands, filter, filter_type, ray, c as int, e as int));
                        match found {
                            None => {
                                proof {
                                    lemma_best_keep(objs, cands, filter, filter_type, ray, best, best_c, best_e, c as int, e as int);
                                }
                            },
                            Some(x) => {
                                proof {
                                    if let Some(h) = best {
                                        reveal(best_so_far);
                                        let bound: int = 0x200000000000000;
                                        assert(bound == 8 * SEG_COORD_MAX * SEG_COORD_MAX);
                                        crate::transform::lemma_mul_bounded(x.t as int, h.crossing.den as int, bound, bound);
                                        crate::transform::lemma_mul_bounded(h.crossing.t as int, x.den as int, bound, bound);
                                    }
                                }
                                let better = match &best {
                                    None => true,
                                    Some(h) => (x.t as i128) * (h.crossing.den as i128) < (
                                    h.crossing.t as i128) * (x.den as i128),
                                };
                                if better {
                                    proof {
                                        lemma_best_take(objs, cands, filter, filter_type, ray, best, best_c, best_e, c as int, e as int, x);
                                    }
                                    best = Some(RaycastHit { object: om.objects[idx].0, crossing: x });
                                    proof {
                                        best_c = c as int;
                                        best_e = e as int;
                                    }
                                } else {
                                    proof {
                                        lemma_best_keep(objs, cands, filter, filter_type, ray, best, best_c, best_e, c as int, e as int);
                                    }
                                }
                            },
                        }
                        e += 1;
                    }
                    proof {
                        lemma_best_next_candidate(objs, cands, filter, filter_type, ray, best, best_c, best_e, c as int);
                    }
                },
                _ => {
                    proof {
                        lemma_best_skip_candidate(objs, cands, filter, filter_type, ray, best, best_c, best_e, c as int);
                    }
                },
            }
            c += 1;
        }
        proof {
            lemma_best_final(objs, cands, filter, filter_type, ray, best, best_c, best_e);
        }
        self.hit = best;
    }
}

} // verus!
