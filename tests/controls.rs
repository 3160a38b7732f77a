use maze3d::controls::{Controls, Motion, KEY_BACKWARD, KEY_FORWARD, KEY_LOOK_RIGHT, KEY_WIREFRAME};

#[test]
fn movement_key_is_held_while_pressed() {
    let mut c = Controls::new();
    assert!(c.on_key(KEY_FORWARD, true));
    assert!(c.forward);
    assert_eq!(c.motion(), Motion { forward: 1, left: 0, up: 0, pitch: 0, yaw: 0 });
    assert!(c.on_key(KEY_FORWARD, false));
    assert!(!c.forward);
    assert_eq!(c.motion(), Motion { forward: 0, left: 0, up: 0, pitch: 0, yaw: 0 });
}

#[test]
fn opposite_keys_cancel() {
    let mut c = Controls::new();
    c.on_key(KEY_FORWARD, true);
    c.on_key(KEY_BACKWARD, true);
    assert_eq!(c.motion().forward, 0);
    c.on_key(KEY_FORWARD, false);
    assert_eq!(c.motion().forward, -1);
    c.on_key(KEY_LOOK_RIGHT, true);
    assert_eq!(c.motion().yaw, -1);
}

#[test]
fn wireframe_flips_on_press_only() {
    let mut c = Controls::new();
    c.on_key(KEY_WIREFRAME, true);
    assert!(c.wireframe);
    c.on_key(KEY_WIREFRAME, false);
    assert!(c.wireframe);
    c.on_key(KEY_WIREFRAME, true);
    assert!(!c.wireframe);
}

#[test]
fn unknown_key_changes_nothing() {
    let mut c = Controls::new();
    c.on_key(KEY_FORWARD, true);
    let before = c;
    assert!(!c.on_key(99, true));
    assert_eq!(c, before);
}
