use arcade_engine::input::Input;

#[test]
fn key_down_and_up() {
    let mut input = Input::init();
    assert!(!input.get_key_down("KeyA"));
    input.on_key_down("KeyA".to_string());
    assert!(input.get_key_down("KeyA"));
    assert!(!input.get_key_down("KeyB"));
    input.on_key_up("KeyA".to_string());
    assert!(!input.get_key_down("KeyA"));
}

#[test]
fn pressed_once_until_flushed() {
    let mut input = Input::init();
    input.on_key_down("Space".to_string());
    assert!(input.key_was_pressed("Space"));
    input.flush_pressed_map();
    assert!(!input.key_was_pressed("Space"));
    // A repeat while held is not a new press.
    input.on_key_down("Space".to_string());
    assert!(!input.key_was_pressed("Space"));
    assert!(input.get_key_down("Space"));
    // Releasing and pressing again is.
    input.on_key_up("Space".to_string());
    input.on_key_down("Space".to_string());
    assert!(input.key_was_pressed("Space"));
}

#[test]
fn release_keeps_press_until_flush() {
    let mut input = Input::init();
    input.on_key_down("KeyW".to_string());
    input.on_key_up("KeyW".to_string());
    assert!(input.key_was_pressed("KeyW"));
    assert!(!input.get_key_down("KeyW"));
    input.flush_pressed_map();
    assert!(!input.key_was_pressed("KeyW"));
}
