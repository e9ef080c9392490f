use transform2d::controls::{Control, FrameActions, Key};

#[test]
fn fresh_control_does_nothing() {
    let c = Control::new();
    assert_eq!(c.actions(), FrameActions { move_x: 0, move_y: 0, grow: 0, turn: 0 });
}

#[test]
fn held_keys_give_directions() {
    let mut c = Control::new();
    c.set(Key::Down, true);
    c.set(Key::Left, true);
    c.set(Key::ScaleUp, true);
    c.set(Key::RotateLeft, true);
    assert_eq!(c.actions(), FrameActions { move_x: -1, move_y: 1, grow: 1, turn: -1 });
    c.set(Key::Left, false);
    c.set(Key::Right, true);
    c.set(Key::ScaleUp, false);
    c.set(Key::ScaleDown, true);
    c.set(Key::RotateRight, true);
    assert_eq!(c.actions(), FrameActions { move_x: 1, move_y: 1, grow: -1, turn: 1 });
}

#[test]
fn first_of_a_pair_wins() {
    let mut c = Control::new();
    c.set(Key::Up, true);
    c.set(Key::Down, true);
    c.set(Key::Left, true);
    c.set(Key::Right, true);
    assert_eq!(c.actions().move_y, -1);
    assert_eq!(c.actions().move_x, -1);
    c.set(Key::Up, false);
    assert_eq!(c.actions().move_y, 1);
    assert!(c.down && c.left && c.right && !c.up);
}
