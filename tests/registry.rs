use arcade_engine::engine::Engine;
use arcade_engine::object_manager::{DrawCall, Object, ObjectId, ObjectManager};
use arcade_engine::transform::{Rotation, Transform};
use arcade_engine::vec2i::Vec2i;

fn entity(at: Option<(i32, i32)>, tags: &[&str], shader: Option<u32>) -> Object {
    Object {
        transform: at.map(|(x, y)| Transform::new(Vec2i::new(x, y), Vec2i::new(10, 10), Rotation::identity())),
        tags: tags.iter().map(|t| t.to_string()).collect(),
        shader,
        collides: false,
        busy: false,
    }
}

fn ids(om: &ObjectManager) -> Vec<ObjectId> {
    om.objects.iter().map(|(id, _)| *id).collect()
}

#[test]
fn add_object_returns_fresh_handles() {
    let mut om = ObjectManager::init();
    let a = om.add_object(entity(None, &[], None));
    let b = om.add_object(entity(Some((0, 0)), &[], None));
    assert_ne!(a, b);
    assert_eq!(ids(&om), vec![a, b]);
}

#[test]
fn remove_object_by_identity_skips_first() {
    let mut om = ObjectManager::init();
    let first = om.add_object(entity(None, &["camera"], None));
    let b = om.add_object(entity(Some((0, 0)), &[], None));
    let c = om.add_object(entity(Some((5, 0)), &[], None));
    om.remove_object(first);
    assert_eq!(ids(&om), vec![first, b, c]);
    om.remove_object(b);
    assert_eq!(ids(&om), vec![first, c]);
    // Removing a handle that is gone changes nothing.
    om.remove_object(b);
    assert_eq!(ids(&om), vec![first, c]);
}

#[test]
fn remove_by_tag_keeps_unrelated_and_first() {
    let mut om = ObjectManager::init();
    let first = om.add_object(entity(None, &["start"], None));
    let a = om.add_object(entity(Some((0, 0)), &["start"], None));
    let b = om.add_object(entity(Some((1, 0)), &["wall"], None));
    let c = om.add_object(entity(Some((2, 0)), &["exit", "start"], None));
    let d = om.add_object(entity(Some((3, 0)), &[], None));
    om.remove_object_tag("start".to_string());
    assert_eq!(ids(&om), vec![first, b, d]);
    let _ = (a, c);
}

#[test]
fn remove_by_tag_keeps_busy_entities() {
    let mut om = ObjectManager::init();
    let first = om.add_object(entity(None, &[], None));
    let mut held = entity(Some((0, 0)), &["apple"], None);
    held.busy = true;
    let held_id = om.add_object(held);
    let loose = om.add_object(entity(Some((1, 0)), &["apple"], None));
    om.remove_object_tag("apple".to_string());
    assert_eq!(ids(&om), vec![first, held_id]);
    let _ = loose;
}

#[test]
fn objects_in_bounds_uses_broad_phase() {
    let mut om = ObjectManager::init();
    let near = om.add_object(entity(Some((0, 0)), &[], None));
    let _far = om.add_object(entity(Some((500, 0)), &[], None));
    let _none = om.add_object(entity(None, &[], None));
    let mut busy = entity(Some((2, 0)), &[], None);
    busy.busy = true;
    let _busy = om.add_object(busy);
    let touching = om.add_object(entity(Some((25, 0)), &[], None));
    let query = Transform::new(Vec2i::new(10, 0), Vec2i::new(20, 20), Rotation::identity());
    assert_eq!(om.objects_in_bounds(&query), vec![near, touching]);
}

#[test]
fn tick_recomputes_working_set_with_first_entity() {
    let mut om = ObjectManager::init();
    let controller = om.add_object(entity(None, &["player"], None));
    let visible = om.add_object(entity(Some((100, 100)), &[], None));
    let offscreen = om.add_object(entity(Some((5000, 0)), &[], None));
    let edge = om.add_object(entity(Some((1065, 0)), &[], None));
    let primary = om.tick();
    assert_eq!(primary, Some(controller));
    assert_eq!(om.objects_on_screen, vec![controller, visible, edge]);
    // Moving the camera moves the window.
    om.camera.position = Vec2i::new(5000, 0);
    om.tick();
    assert_eq!(om.objects_on_screen, vec![controller, offscreen]);
}

#[test]
fn tick_on_empty_registry() {
    let mut om = ObjectManager::init();
    assert_eq!(om.tick(), None);
    assert!(om.objects_on_screen.is_empty());
}

#[test]
fn draw_batches_by_shader() {
    let mut om = ObjectManager::init();
    let a = om.add_object(entity(Some((0, 0)), &[], Some(1)));
    let b = om.add_object(entity(Some((1, 0)), &[], Some(1)));
    let c = om.add_object(entity(Some((2, 0)), &[], None));
    let d = om.add_object(entity(Some((3, 0)), &[], Some(2)));
    let e = om.add_object(entity(Some((4, 0)), &[], Some(1)));
    om.tick();
    assert_eq!(
        om.draw(),
        vec![
            DrawCall::BindShader(1),
            DrawCall::Draw(a),
            DrawCall::Draw(b),
            DrawCall::Draw(c),
            DrawCall::BindShader(2),
            DrawCall::Draw(d),
            DrawCall::BindShader(1),
            DrawCall::Draw(e),
        ]
    );
    // An entity removed after the tick is no longer drawn.
    om.remove_object(b);
    assert_eq!(om.draw()[2], DrawCall::Draw(c));
    assert_eq!(om.index_of(b), None);
    assert_eq!(om.index_of(c), Some(1));
}

#[test]
fn engine_frame_reports_quit_key() {
    let mut engine = Engine::init();
    let first = engine.objects.add_object(entity(None, &[], None));
    let start = engine.begin_frame();
    assert!(!start.quit);
    assert_eq!(start.primary, Some(first));
    engine.input.on_key_down("KeyQ".to_string());
    assert!(engine.begin_frame().quit);
    let calls = engine.end_frame();
    assert_eq!(calls, vec![DrawCall::Draw(first)]);
    assert!(!engine.begin_frame().quit);
    assert!(engine.input.get_key_down("KeyQ"));
}
