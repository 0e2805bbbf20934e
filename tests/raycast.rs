use arcade_engine::line_seg::LineSeg;
use arcade_engine::object_manager::{Object, ObjectId, ObjectManager};
use arcade_engine::raycast::{FilterType, Raycast, RaycastHit};
use arcade_engine::transform::{Rotation, Transform};
use arcade_engine::vec2i::Vec2i;

fn v(x: i32, y: i32) -> Vec2i {
    Vec2i::new(x, y)
}

fn wall(om: &mut ObjectManager, x: i32, y: i32, tag: &str) -> ObjectId {
    om.add_object(Object {
        transform: Some(Transform::new(v(x, y), v(4, 4), Rotation::identity())),
        tags: vec![tag.to_string()],
        shader: None,
        collides: true,
        busy: false,
    })
}

/// The hit lies `num / den` of the way along the ray.
fn along(hit: &RaycastHit, num: i64, den: i64) -> bool {
    hit.crossing.t * den == num * hit.crossing.den
}

fn fire(om: &ObjectManager, from: Vec2i, to: Vec2i, filter: &[&str], kind: FilterType) -> Option<RaycastHit> {
    let mut ray = Raycast::new(LineSeg::new(from, to), filter.iter().map(|t| t.to_string()).collect());
    ray.fire(om, kind);
    ray.hit
}

#[test]
fn raycast_returns_nearest_of_three() {
    let mut om = ObjectManager::init();
    let far = wall(&mut om, 80, 0, "wall");
    let near = wall(&mut om, 20, 0, "wall");
    let mid = wall(&mut om, 50, 0, "wall");
    let hit = fire(&om, v(0, 0), v(100, 0), &[], FilterType::Unfiltered).unwrap();
    assert_eq!(hit.object, near);
    // The left edge of the nearest wall, at x = 18: 18 units along a ray of 100.
    assert!(along(&hit, 18, 100));
    let _ = (far, mid);
}

#[test]
fn raycast_reversed_direction_gives_same_distance() {
    let mut om = ObjectManager::init();
    let near = wall(&mut om, -20, 0, "wall");
    wall(&mut om, -50, 0, "wall");
    wall(&mut om, -80, 0, "wall");
    let hit = fire(&om, v(0, 0), v(-100, 0), &[], FilterType::Unfiltered).unwrap();
    assert_eq!(hit.object, near);
    assert!(along(&hit, 18, 100));
    // The hit point is (-18, 0): p1 + t/den * (p2 - p1).
    assert_eq!(hit.crossing.t * -100, -18 * hit.crossing.den);
}

#[test]
fn raycast_along_y_axis_reports_edge_point() {
    let mut om = ObjectManager::init();
    let target = wall(&mut om, 3, 30, "wall");
    let hit = fire(&om, v(3, 0), v(3, 40), &[], FilterType::Unfiltered).unwrap();
    assert_eq!(hit.object, target);
    // Bottom edge at y = 28 of a ray of length 40.
    assert!(along(&hit, 28, 40));
}

#[test]
fn raycast_without_hit_is_none() {
    let mut om = ObjectManager::init();
    wall(&mut om, 0, 50, "wall");
    assert!(fire(&om, v(0, 0), v(100, 0), &[], FilterType::Unfiltered).is_none());
    let empty = ObjectManager::init();
    assert!(fire(&empty, v(0, 0), v(100, 0), &[], FilterType::Unfiltered).is_none());
}

#[test]
fn raycast_stops_short_of_far_wall() {
    let mut om = ObjectManager::init();
    wall(&mut om, 50, 0, "wall");
    assert!(fire(&om, v(0, 0), v(40, 0), &[], FilterType::Unfiltered).is_none());
}

#[test]
fn blacklist_never_returns_player() {
    let mut om = ObjectManager::init();
    let player = wall(&mut om, 20, 0, "player");
    let target = wall(&mut om, 50, 0, "wall");
    let any = fire(&om, v(0, 0), v(100, 0), &[], FilterType::Unfiltered).unwrap();
    assert_eq!(any.object, player);
    let hit = fire(&om, v(0, 0), v(100, 0), &["player"], FilterType::Blacklist).unwrap();
    assert_eq!(hit.object, target);
    assert!(along(&hit, 48, 100));
}

#[test]
fn whitelist_ignores_nearer_non_walls() {
    let mut om = ObjectManager::init();
    wall(&mut om, 20, 0, "player");
    wall(&mut om, 35, 0, "apple");
    let target = wall(&mut om, 50, 0, "wall");
    let hit = fire(&om, v(0, 0), v(100, 0), &["wall"], FilterType::Whitelist).unwrap();
    assert_eq!(hit.object, target);
    assert!(fire(&om, v(0, 0), v(100, 0), &["door"], FilterType::Whitelist).is_none());
}

#[test]
fn equally_near_hits_keep_the_first() {
    let mut om = ObjectManager::init();
    let first = wall(&mut om, 20, 0, "wall");
    let second = wall(&mut om, 20, 0, "wall");
    let hit = fire(&om, v(0, 0), v(100, 0), &[], FilterType::Unfiltered).unwrap();
    assert_eq!(hit.object, first);
    let _ = second;
}

#[test]
fn set_filter_replaces_filter() {
    let mut om = ObjectManager::init();
    let player = wall(&mut om, 20, 0, "player");
    let target = wall(&mut om, 50, 0, "wall");
    let mut ray = Raycast::new(LineSeg::new(v(0, 0), v(100, 0)), vec!["player".to_string()]);
    ray.fire(&om, FilterType::Blacklist);
    assert_eq!(ray.hit.unwrap().object, target);
    ray.set_filter(vec!["wall".to_string()]);
    ray.fire(&om, FilterType::Blacklist);
    assert_eq!(ray.hit.unwrap().object, player);
}

#[test]
fn raycast_hits_turned_entity_at_its_corner() {
    let mut om = ObjectManager::init();
    // A square of side 10 turned by 45 degrees: its left corner lies on the ray.
    let diamond = om.add_object(Object {
        transform: Some(Transform::new(v(50, 0), v(10, 10), Rotation::new(724, 724))),
        tags: vec![],
        shader: None,
        collides: true,
        busy: false,
    });
    let hit = fire(&om, v(0, 0), v(100, 0), &[], FilterType::Unfiltered).unwrap();
    assert_eq!(hit.object, diamond);
    // In sub-units the corner is at 2048 * 50 - 2 * 724 * 10 of a ray 2048 * 100 long.
    assert!(along(&hit, 2048 * 50 - 2 * 724 * 10, 2048 * 100));
}
