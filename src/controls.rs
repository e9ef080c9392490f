use vstd::prelude::*;

verus! {

/// The held/released state of each control.
#[derive(Clone, Copy, PartialEq, Eq, Debug, Structural)]
pub struct Control {
    pub up: bool,
    pub down: bool,
    pub left: bool,
    pub right: bool,
    pub scale_up: bool,
    pub scale_down: bool,
    pub rotate_left: bool,
    pub rotate_right: bool,
}

/// One of the controls.
#[derive(Clone, Copy, PartialEq, Eq, Debug, Structural)]
pub enum Key {
    Up,
    Down,
    Left,
    Right,
    ScaleUp,
    ScaleDown,
    RotateLeft,
    RotateRight,
}

/// What one frame does to the figure: a direction (-1, 0 or 1) for the
/// horizontal and vertical move, for growing or shrinking, and for turning
/// (1 is clockwise on screen, as y grows downward).
#[derive(Clone, Copy, PartialEq, Eq, Debug, Structural)]
pub struct FrameActions {
    pub move_x: i8,
    pub move_y: i8,
    pub grow: i8,
    pub turn: i8,
}

/// -1 when `neg` is held, else 1 when `pos` is held, else 0 (the first of a
/// pair wins when both are held).
pub open spec fn direction(neg: bool, pos: bool) -> int {
    if neg { -1 } else if pos { 1 } else { 0 }
}

impl Control {
    /// Every control released.
    pub fn new() -> (r: Control)
        ensures
            !r.up && !r.down && !r.left && !r.right,
            !r.scale_up && !r.scale_down && !r.rotate_left && !r.rotate_right,
    {
        Control {
            up: false,
            down: false,
            left: false,
            right: false,
            scale_up: false,
            scale_down: false,
            rotate_left: false,
            rotate_right: false,
        }
    }

    /// Marks `key` as held or released, leaving the other controls as they were.
    pub fn set(&mut self, key: Key, held: bool)
        ensures
            final(self).up == if key == Key::Up { held } else { old(self).up },
            final(self).down == if key == Key::Down { held } else { old(self).down },
            final(self).left == if key == Key::Left { held } else { old(self).left },
            final(self).right == if key == Key::Right { held } else { old(self).right },
            final(self).scale_up == if key == Key::ScaleUp { held } else { old(self).scale_up },
            final(self).scale_down == if key == Key::ScaleDown { held } else { old(self).scale_down },
            final(self).rotate_left == if key == Key::RotateLeft { held } else { old(self).rotate_left },
            final(self).rotate_right == if key == Key::RotateRight { held } else { old(self).rotate_right },
    {
        match key {
            Key::Up => self.up = held,
            Key::Down => self.down = held,
            Key::Left => self.left = held,
            Key::Right => self.right = held,
            Key::ScaleUp => self.scale_up = held,
            Key::ScaleDown => self.scale_down = held,
            Key::RotateLeft => self.rotate_left = held,
            Key::RotateRight => self.rotate_right = held,
        }
    }

    /// The moves of one frame: up before down, left before right, growing
    /// before shrinking, turning right before turning left.
    pub fn actions(&self) -> (r: FrameActions)
        ensures
            r.move_y == direction(self.up, self.down),
            r.move_x == direction(self.left, self.right),
            r.grow == -direction(self.scale_up, self.scale_down),
            r.turn == -direction(self.rotate_right, self.rotate_left),
    {
        let move_y: i8 = if self.up { -1 } else if self.down { 1 } else { 0 };
        let move_x: i8 = if self.left { -1 } else if self.right { 1 } else { 0 };
        let grow: i8 = if self.scale_up { 1 } else if self.scale_down { -1 } else { 0 };
        let turn: i8 = if self.rotate_right { 1 } else if self.rotate_left { -1 } else { 0 };
        FrameActions { move_x, move_y, grow, turn }
    }
}

} // verus!
