use arcade_engine::line_seg::LineSeg;
use arcade_engine::matrix::{Matrix21, Matrix22};
use arcade_engine::transform::{Rotation, Transform, ONE, SUB};
use arcade_engine::vec2i::Vec2i;

fn v(x: i32, y: i32) -> Vec2i {
    Vec2i::new(x, y)
}

fn rect(x: i32, y: i32, w: i32, h: i32) -> Transform {
    Transform::new(v(x, y), v(w, h), Rotation::identity())
}

fn rotated(x: i32, y: i32, w: i32, h: i32, cos: i32, sin: i32) -> Transform {
    Transform::new(v(x, y), v(w, h), Rotation::new(cos, sin))
}

/// Ground truth for unrotated rectangles: extents meet on both axes.
fn aabb_overlap(a: &Transform, b: &Transform) -> bool {
    2 * a.position.x - a.size.x <= 2 * b.position.x + b.size.x
        && 2 * b.position.x - b.size.x <= 2 * a.position.x + a.size.x
        && 2 * a.position.y - a.size.y <= 2 * b.position.y + b.size.y
        && 2 * b.position.y - b.size.y <= 2 * a.position.y + a.size.y
}

#[test]
fn vec2i_basics() {
    let a = v(3, -4);
    assert_eq!(a.as_arr(), [3, -4]);
    assert_eq!(a.abs(), v(3, 4));
    assert_eq!(&a + &v(1, 1), v(4, -3));
    assert_eq!(&a - &v(1, 1), v(2, -5));
    assert_eq!(&a * 3, v(9, -12));
    assert_eq!(&v(7, -7) / 2, v(3, -3));
    let from: Vec2i = [5, 6].into();
    assert_eq!(from, v(5, 6));
    let back: [i32; 2] = from.into();
    assert_eq!(back, [5, 6]);
}

#[test]
fn vec2i_in_place() {
    let mut a = v(3, -4);
    a.add_assign(&v(1, 2));
    assert_eq!(a, v(4, -2));
    a.sub_assign(&v(5, 5));
    assert_eq!(a, v(-1, -7));
    a.mul_assign(&v(3, 2));
    assert_eq!(a, v(-3, -14));
    a.div_assign(&v(2, 4));
    assert_eq!(a, v(-1, -3));
}

#[test]
fn matrix_inverse_and_product() {
    let m = Matrix22::new(2, 1, 1, 3);
    assert_eq!(m.determinant(), 5);
    let (adj, det) = m.inverse().unwrap();
    assert_eq!(det, 5);
    assert_eq!(adj.data, [[3, -1], [-1, 2]]);
    let x = adj.mul(&Matrix21::new(4, 7));
    assert_eq!(x.data, [5, 10]);
    // A negative determinant comes back positive, with the adjugate negated.
    let n = Matrix22::new(1, 2, 3, 4);
    let (adj, det) = n.inverse().unwrap();
    assert_eq!(det, 2);
    assert_eq!(adj.data, [[-4, 2], [3, -1]]);
}

#[test]
fn matrix_singular_has_no_inverse() {
    assert!(Matrix22::new(1, 2, 2, 4).inverse().is_none());
}

#[test]
fn segments_cross_at_shared_midpoint() {
    let a = LineSeg::new(v(0, 0), v(10, 10));
    let b = LineSeg::new(v(0, 10), v(10, 0));
    let c = a.intersects(&b).unwrap();
    assert!(c.den > 0);
    assert_eq!(2 * c.s, c.den);
    assert_eq!(2 * c.t, c.den);
    // The point reached is (5, 5).
    assert_eq!(a.p1.x as i64 * c.den + c.s * a.x_diff(), 5 * c.den);
    assert_eq!(a.p1.y as i64 * c.den + c.s * a.y_diff(), 5 * c.den);
}

#[test]
fn segments_cross_at_shared_midpoint_skewed() {
    // Midpoint (3, -2), half-vectors (4, 1) and (-1, 5).
    let a = LineSeg::new(v(-1, -3), v(7, -1));
    let b = LineSeg::new(v(4, -7), v(2, 3));
    let c = a.intersects(&b).unwrap();
    assert_eq!(2 * c.s, c.den);
    assert_eq!(2 * c.t, c.den);
    assert_eq!(a.p1.x as i64 * c.den + c.s * a.x_diff(), 3 * c.den);
    assert_eq!(a.p1.y as i64 * c.den + c.s * a.y_diff(), -2 * c.den);
}

#[test]
fn parallel_segments_do_not_cross() {
    let a = LineSeg::new(v(0, 0), v(10, 0));
    let b = LineSeg::new(v(0, 5), v(10, 5));
    assert!(a.intersects(&b).is_none());
    let collinear = LineSeg::new(v(5, 0), v(15, 0));
    assert!(a.intersects(&collinear).is_none());
}

#[test]
fn crossing_beyond_segment_end_is_none() {
    let a = LineSeg::new(v(0, 0), v(4, 4));
    let b = LineSeg::new(v(0, 10), v(10, 0));
    assert!(a.intersects(&b).is_none());
}

#[test]
fn segments_touching_at_endpoint_cross() {
    let a = LineSeg::new(v(0, 0), v(5, 5));
    let b = LineSeg::new(v(5, 5), v(10, 0));
    let c = a.intersects(&b).unwrap();
    assert_eq!(c.s, c.den);
    assert_eq!(c.t, 0);
}

#[test]
fn segment_lengths() {
    let a = LineSeg::new(v(1, 2), v(4, 6));
    assert_eq!(a.x_diff(), 3);
    assert_eq!(a.y_diff(), 4);
    assert_eq!(a.len_squared(), 25);
}

#[test]
fn vertices_in_winding_order() {
    let t = rect(1, 2, 4, 6);
    let s = SUB;
    let o = ONE;
    assert_eq!(
        t.vertices(),
        vec![
            v(s + 4 * o, 2 * s + 6 * o),
            v(s + 4 * o, 2 * s - 6 * o),
            v(s - 4 * o, 2 * s - 6 * o),
            v(s - 4 * o, 2 * s + 6 * o),
        ]
    );
    // A quarter turn: x offsets become y offsets.
    let q = rotated(0, 0, 4, 2, 0, ONE);
    assert_eq!(q.vertices()[0], v(-2 * o, 4 * o));
}

#[test]
fn lines_and_normals_follow_vertices() {
    let t = rect(0, 0, 2, 2);
    let vs = t.vertices();
    let lines = t.lines();
    assert_eq!(lines.len(), 4);
    for i in 0..4 {
        assert_eq!(lines[i].p1, vs[i]);
        assert_eq!(lines[i].p2, vs[(i + 1) % 4]);
    }
    let normals = t.normals(&vs);
    assert_eq!(normals[0], v(-4 * ONE, 0));
    assert_eq!(normals[1], v(0, 4 * ONE));
    assert_eq!(normals[2], v(4 * ONE, 0));
    assert_eq!(normals[3], v(0, -4 * ONE));
}

#[test]
fn overlap_of_axis_aligned_rectangles() {
    let a = rect(0, 0, 10, 10);
    assert!(a.overlaps(&rect(8, 0, 10, 10)));
    assert!(!a.overlaps(&rect(20, 0, 10, 10)));
    // Touching edges count as overlap.
    assert!(a.overlaps(&rect(10, 0, 10, 10)));
    assert!(!a.overlaps(&rect(11, 0, 10, 10)));
}

#[test]
fn overlap_matches_extent_intervals_when_unrotated() {
    let cases = [
        (rect(0, 0, 10, 10), rect(9, 9, 8, 8)),
        (rect(0, 0, 10, 10), rect(9, 20, 8, 8)),
        (rect(-5, 3, 1, 7), rect(-4, 3, 1, 1)),
        (rect(-5, 3, 1, 7), rect(-3, 3, 1, 1)),
        (rect(100, 100, 30, 2), rect(120, 100, 10, 50)),
        (rect(0, 0, 0, 10), rect(0, 5, 10, 0)),
    ];
    for (a, b) in cases.iter() {
        assert_eq!(a.overlaps(b), aabb_overlap(a, b));
    }
}

#[test]
fn overlap_is_symmetric_for_rotated_rectangles() {
    // cos and sin of about 0.5 radians, and of a diagonal.
    let a = rotated(0, 0, 20, 6, 899, 491);
    let b = rotated(12, 8, 10, 10, 724, 724);
    let c = rotated(30, 0, 4, 4, 724, -724);
    assert_eq!(a.overlaps(&b), b.overlaps(&a));
    assert_eq!(a.overlaps(&c), c.overlaps(&a));
    assert_eq!(b.overlaps(&c), c.overlaps(&b));
}

#[test]
fn diamond_near_corner_is_separated_by_its_own_axis() {
    // A square turned by 45 degrees just off the corner of an unrotated square:
    // the boxes overlap but a diagonal axis separates the shapes.
    let square = rect(0, 0, 10, 10);
    let diamond = rotated(10, 10, 8, 8, 724, 724);
    assert!(!square.overlaps(&diamond));
    assert!(diamond.overlaps_lazy(&square));
    let closer = rotated(7, 7, 8, 8, 724, 724);
    assert!(square.overlaps(&closer));
}

#[test]
fn lazy_overlap_never_misses_exact_overlap() {
    let target = rect(0, 0, 10, 10);
    for x in -12..=12 {
        for y in [-9, -6, 0, 6, 9] {
            let a = rotated(x, y, 6, 3, 724, 724);
            if a.overlaps(&target) {
                assert!(a.overlaps_lazy(&target));
            }
        }
    }
    // Touching boxes still pass the broad phase.
    assert!(rect(10, 0, 10, 10).overlaps_lazy(&target));
    assert!(!rect(11, 0, 10, 10).overlaps_lazy(&target));
}

#[test]
fn lazy_overlap_from_unrotated_probe_against_turned_square() {
    // A square turned a quarter turn still fills its own unrotated box.
    let square = rotated(0, 0, 10, 10, 0, ONE);
    for x in -9..=9 {
        for y in [-8, -7, 0, 7, 8] {
            let probe = rect(x, y, 4, 4);
            assert_eq!(probe.overlaps(&square), probe.overlaps_lazy(&square));
        }
    }
}

#[test]
fn lazy_overlap_ignores_the_other_rotation() {
    // A tall thin rectangle turned a quarter turn lies flat, but the broad phase
    // uses its unrotated box.
    let thin = rotated(0, 0, 2, 40, 0, ONE);
    let probe = rect(15, 0, 2, 2);
    assert!(probe.overlaps(&thin));
    assert!(!probe.overlaps_lazy(&thin));
}

#[test]
fn hull_and_extent_box() {
    let t = rotated(1, 1, 4, 2, 0, ONE);
    let hull = t.hull();
    assert_eq!(hull.min, v(SUB - 2 * ONE, SUB - 4 * ONE));
    assert_eq!(hull.max, v(SUB + 2 * ONE, SUB + 4 * ONE));
    let boxed = t.extent_box();
    assert_eq!(boxed.min, v(SUB - 4 * ONE, SUB - 2 * ONE));
    assert_eq!(boxed.max, v(SUB + 4 * ONE, SUB + 2 * ONE));
}

#[test]
fn nearest_edge_to_point() {
    let t = rect(0, 0, 10, 4);
    let vs = t.vertices();
    // Right of the rectangle: the right edge (corner 0 to corner 1).
    assert_eq!(t.nearest_edge_to(&v(9, 0)), (vs[0], vs[1]));
    // Below: the bottom edge (corner 1 to corner 2).
    assert_eq!(t.nearest_edge_to(&v(0, -6)), (vs[1], vs[2]));
    // Left: corner 2 to corner 3.
    assert_eq!(t.nearest_edge_to(&v(-9, 1)), (vs[2], vs[3]));
    // Above: corner 3 to corner 0.
    assert_eq!(t.nearest_edge_to(&v(1, 5)), (vs[3], vs[0]));
    // Equally near two edges at the corner: the first in winding order.
    assert_eq!(t.nearest_edge_to(&v(7, 4)), (vs[0], vs[1]));
}
