use vstd::prelude::*;

verus! {

/// Scancode of the key that moves forward.
pub const KEY_FORWARD: u32 = 13;
/// Scancode of the key that strafes left.
pub const KEY_LEFT: u32 = 0;
/// Scancode of the key that moves backward.
pub const KEY_BACKWARD: u32 = 1;
/// Scancode of the key that strafes right.
pub const KEY_RIGHT: u32 = 2;
/// Scancode of the key that toggles wireframe drawing.
pub const KEY_WIREFRAME: u32 = 40;
/// Scancode of the key that moves down.
pub const KEY_DOWN: u32 = 12;
/// Scancode of the key that moves up.
pub const KEY_UP: u32 = 14;
/// Scancode of the arrow that looks up.
pub const KEY_LOOK_UP: u32 = 126;
/// Scancode of the arrow that turns left.
pub const KEY_LOOK_LEFT: u32 = 123;
/// Scancode of the arrow that looks down.
pub const KEY_LOOK_DOWN: u32 = 125;
/// Scancode of the arrow that turns right.
pub const KEY_LOOK_RIGHT: u32 = 124;

/// Which movement keys are held, and whether wireframe drawing is on.
#[derive(Clone, Copy, Debug, PartialEq, Eq, Structural)]
pub struct Controls {
    pub forward: bool,
    pub backward: bool,
    pub left: bool,
    pub right: bool,
    pub up: bool,
    pub down: bool,
    pub look_up: bool,
    pub look_down: bool,
    pub look_left: bool,
    pub look_right: bool,
    pub wireframe: bool,
}

/// Per-frame steps, each -1, 0 or 1: along the view direction, to the left, upward,
/// pitch upward, and yaw to the left.
#[derive(Clone, Copy, Debug, PartialEq, Eq, Structural)]
pub struct Motion {
    pub forward: i8,
    pub left: i8,
    pub up: i8,
    pub pitch: i8,
    pub yaw: i8,
}

pub open spec fn known_key(scancode: u32) -> bool {
    scancode == KEY_FORWARD || scancode == KEY_LEFT || scancode == KEY_BACKWARD || scancode
        == KEY_RIGHT || scancode == KEY_WIREFRAME || scancode == KEY_DOWN || scancode == KEY_UP
        || scancode == KEY_LOOK_UP || scancode == KEY_LOOK_LEFT || scancode == KEY_LOOK_DOWN
        || scancode == KEY_LOOK_RIGHT
}

/// The controls after a key is pressed or released: a movement key is held exactly
/// while pressed, the wireframe key flips the mode on each press, other keys change nothing.
pub open spec fn apply_key(c: Controls, scancode: u32, pressed: bool) -> Controls {
    if scancode == KEY_FORWARD {
        Controls { forward: pressed, ..c }
    } else if scancode == KEY_LEFT {
        Controls { left: pressed, ..c }
    } else if scancode == KEY_BACKWARD {
        Controls { backward: pressed, ..c }
    } else if scancode == KEY_RIGHT {
        Controls { right: pressed, ..c }
    } else if scancode == KEY_WIREFRAME {
        Controls { wireframe: if pressed { !c.wireframe } else { c.wireframe }, ..c }
    } else if scancode == KEY_DOWN {
        Controls { down: pressed, ..c }
    } else if scancode == KEY_UP {
        Controls { up: pressed, ..c }
    } else if scancode == KEY_LOOK_UP {
        Controls { look_up: pressed, ..c }
    } else if scancode == KEY_LOOK_LEFT {
        Controls { look_left: pressed, ..c }
    } else if scancode == KEY_LOOK_DOWN {
        Controls { look_down: pressed, ..c }
    } else if scancode == KEY_LOOK_RIGHT {
        Controls { look_right: pressed, ..c }
    } else {
        c
    }
}

/// One step for a held key, minus one step for the held opposite key.
pub open spec fn axis(plus: bool, minus: bool) -> i8 {
    (if plus {
        1int
    } else {
        0int
    } - if minus {
        1int
    } else {
        0int
    }) as i8
}

pub open spec fn motion_spec(c: Controls) -> Motion {
    Motion {
        forward: axis(c.forward, c.backward),
        left: axis(c.left, c.right),
        up: axis(c.up, c.down),
        pitch: axis(c.look_up, c.look_down),
        yaw: axis(c.look_left, c.look_right),
    }
}

fn axis_exec(plus: bool, minus: bool) -> (r: i8)
    ensures
        r == axis(plus, minus),
{
    if plus && !minus {
        1
    } else if minus && !plus {
        -1
    } else {
        0
    }
}

impl Controls {
    /// No key held, solid drawing.
    pub fn new() -> (r: Controls)
        ensures
            !r.forward && !r.backward && !r.left && !r.right && !r.up && !r.down,
            !r.look_up && !r.look_down && !r.look_left && !r.look_right && !r.wireframe,
    {
        Controls {
            forward: false,
            backward: false,
            left: false,
            right: false,
            up: false,
            down: false,
            look_up: false,
            look_down: false,
            look_left: false,
            look_right: false,
            wireframe: false,
        }
    }

    /// Records a key event; tells whether the key is one of the controls.
    pub fn on_key(&mut self, scancode: u32, pressed: bool) -> (r: bool)
        ensures
            *final(self) == apply_key(*old(self), scancode, pressed),
            r == known_key(scancode),
    {
        if scancode == KEY_FORWARD {
            self.forward = pressed;
        } else if scancode == KEY_LEFT {
            self.left = pressed;
        } else if scancode == KEY_BACKWARD {
            self.backward = pressed;
        } else if scancode == KEY_RIGHT {
            self.right = pressed;
        } else if scancode == KEY_WIREFRAME {
            if pressed {
                self.wireframe = !self.wireframe;
            }
        } else if scancode == KEY_DOWN {
            self.down = pressed;
        } else if scancode == KEY_UP {
            self.up = pressed;
        } else if scancode == KEY_LOOK_UP {
            self.look_up = pressed;
        } else if scancode == KEY_LOOK_LEFT {
            self.look_left = pressed;
        } else if scancode == KEY_LOOK_DOWN {
            self.look_down = pressed;
        } else if scancode == KEY_LOOK_RIGHT {
            self.look_right = pressed;
        } else {
            return false;
        }
        true
    }

    /// The steps this frame's held keys ask for.
    pub fn motion(&self) -> (r: Motion)
        ensures
            r == motion_spec(*self),
    {
        Motion {
            forward: axis_exec(self.forward, self.backward),
            left: axis_exec(self.left, self.right),
            up: axis_exec(self.up, self.down),
            pitch: axis_exec(self.look_up, self.look_down),
            yaw: axis_exec(self.look_left, self.look_right),
        }
    }
}

} // verus!
