//! Windowed input gates: which selection screens take the keyboard and mouse away from the
//! player, the movement keys as axes, the hold-to-charge button, and click-to-grab /
//! Esc-to-release of the cursor.

use vstd::prelude::*;

verus! {

/// While any selection screen is up (customizer, level select, weapon panel, radial wheel) the
/// player neither moves nor charges.
pub fn selection_ui_open(customizer: bool, level_select: bool, weapon_select: bool, wheel: bool) -> (r: bool)
    ensures
        r == (customizer || level_select || weapon_select || wheel),
{
    customizer || level_select || weapon_select || wheel
}

/// The movement keys held this frame.
#[derive(Clone, Copy, PartialEq, Eq, Structural, Debug)]
pub struct MoveKeys {
    pub forward: bool,
    pub back: bool,
    pub left: bool,
    pub right: bool,
    pub jump: bool,
}

/// The movement written into the local input this frame: strafe and forward axes in
/// `{-1, 0, 1}`, the jump button, and whether the aim (yaw and pitch) is refreshed from the
/// camera.
#[derive(Clone, Copy, PartialEq, Eq, Structural, Debug)]
pub struct MoveIntent {
    pub strafe: i8,
    pub forward: i8,
    pub jump: bool,
    pub steer: bool,
}

/// `1` for a held key, `0` otherwise.
pub open spec fn key_axis(b: bool) -> int {
    if b { 1 } else { 0 }
}

/// Keyboard to movement. A selection screen or an unfocused window (where a key release can be
/// lost) zeroes the movement and the jump and leaves the aim alone; otherwise W/S drive the
/// forward axis, D/A the strafe axis and Space the jump.
pub fn windowed_move_intent(ui_open: bool, focused: bool, keys: MoveKeys) -> (r: MoveIntent)
    ensures
        (ui_open || !focused) ==> r == (MoveIntent { strafe: 0, forward: 0, jump: false, steer: false }),
        !(ui_open || !focused) ==> {
            &&& r.strafe == key_axis(keys.right) - key_axis(keys.left)
            &&& r.forward == key_axis(keys.forward) - key_axis(keys.back)
            &&& r.jump == keys.jump
            &&& r.steer
        },
{
    if ui_open || !focused {
        return MoveIntent { strafe: 0, forward: 0, jump: false, steer: false };
    }
    let mut forward: i8 = 0;
    if keys.forward {
        forward = forward + 1;
    }
    if keys.back {
        forward = forward - 1;
    }
    let mut strafe: i8 = 0;
    if keys.right {
        strafe = strafe + 1;
    }
    if keys.left {
        strafe = strafe - 1;
    }
    MoveIntent { strafe, forward, jump: keys.jump, steer: true }
}

/// What the hold-to-charge bridge does with the charge state this frame.
#[derive(Clone, Copy, PartialEq, Eq, Structural, Debug)]
pub enum HoldStep {
    /// Zero the held time and drop `charging` (the falling edge carries the cast).
    Reset,
    /// Accumulate held time and keep `charging`; latch the tap when the press began this frame.
    Charge { latch_tap: bool },
    /// Leave the state alone: a scripted hold owns it.
    Leave,
}

/// The cast button's bridge: a selection screen resets the charge; a held button charges
/// (latching the tap on the press frame); a released button resets, unless a scripted hold is
/// in flight, which then owns the state.
pub fn cast_hold_step(ui_open: bool, held: bool, just_pressed: bool, charging: bool, scripted_hold: bool) -> (r: HoldStep)
    ensures
        r == (if ui_open {
            HoldStep::Reset
        } else if held {
            HoldStep::Charge { latch_tap: just_pressed }
        } else if charging && scripted_hold {
            HoldStep::Leave
        } else {
            HoldStep::Reset
        }),
{
    if ui_open {
        HoldStep::Reset
    } else if held {
        HoldStep::Charge { latch_tap: just_pressed }
    } else if charging && scripted_hold {
        HoldStep::Leave
    } else {
        HoldStep::Reset
    }
}

/// The cursor's new visibility after a frame of click-to-grab / Esc-to-release (the cursor is
/// locked exactly when hidden), or `None` to leave it. The open customizer owns the cursor.
pub open spec fn grab_spec(customizer_open: bool, visible: bool, click: bool, escape: bool) -> Option<bool> {
    if customizer_open {
        None
    } else if visible {
        if click { Some(false) } else { None }
    } else if escape {
        Some(true)
    } else {
        None
    }
}

/// Click-to-grab, Esc-to-release, for one frame.
pub fn cursor_grab_step(customizer_open: bool, visible: bool, click: bool, escape: bool) -> (r: Option<bool>)
    ensures
        r == grab_spec(customizer_open, visible, click, escape),
{
    if customizer_open {
        None
    } else if visible {
        if click { Some(false) } else { None }
    } else if escape {
        Some(true)
    } else {
        None
    }
}

/// Grabbing and releasing alternate: whenever the cursor changes, it flips; a visible cursor
/// changes only on a click and a hidden one only on Escape.
pub proof fn lemma_grab_toggles(customizer_open: bool, visible: bool, click: bool, escape: bool)
    ensures
        grab_spec(customizer_open, visible, click, escape) matches Some(v) ==> v == !visible,
        grab_spec(customizer_open, visible, click, escape) is Some ==> (if visible { click } else { escape }),
{
}

} // verus!
