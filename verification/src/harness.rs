//! Frame-count scaffolds of the scripted-run harness: the smoke run that exits after a fixed
//! number of frames, the screenshot run that captures at one frame and exits a fixed flush
//! window later, and the UI probe that presses a screen's key on a fixed frame.

use vstd::prelude::*;
use crate::text::str_eq;

verus! {

/// Frames the screenshot run waits after the capture before exiting (the capture's flush).
pub const SHOT_FLUSH_FRAMES: u64 = 12;

/// Counts rendered frames toward a smoke exit.
#[derive(Clone, Copy, PartialEq, Eq, Structural, Debug)]
pub struct SmokeExit {
    pub target: u64,
    pub count: u64,
}

impl SmokeExit {
    /// Count one frame; returns whether the run should exit now.
    pub fn tick(&mut self) -> (r: bool)
        requires
            old(self).count < u64::MAX,
        ensures
            final(self).target == old(self).target,
            final(self).count == old(self).count + 1,
            r == (final(self).count >= final(self).target),
    {
        self.count = self.count + 1;
        self.count >= self.target
    }
}

/// Screenshot-run state.
#[derive(Clone, Copy, PartialEq, Eq, Structural, Debug)]
pub struct ShotState {
    pub shot_frame: u64,
    pub count: u64,
    pub fired: bool,
}

/// What the screenshot run does this frame.
#[derive(Clone, Copy, PartialEq, Eq, Structural, Debug)]
pub struct ShotStep {
    /// Capture the primary window now.
    pub capture: bool,
    /// Exit now (the capture has flushed).
    pub exit: bool,
}

/// One frame of the screenshot run: count the frame, capture once the shot frame is reached
/// (only the first time), exit once the flush window after the shot frame has passed.
pub open spec fn shot_tick_spec(s: ShotState) -> (ShotState, ShotStep) {
    let count = (s.count + 1) as u64;
    let capture = !s.fired && count >= s.shot_frame;
    let fired = s.fired || capture;
    (
        ShotState { shot_frame: s.shot_frame, count, fired },
        ShotStep { capture, exit: fired && count >= s.shot_frame + SHOT_FLUSH_FRAMES },
    )
}

/// How many captures `n` frames of the screenshot run take.
pub open spec fn shot_captures(s: ShotState, n: nat) -> nat
    decreases n,
{
    if n == 0 {
        0
    } else {
        let (s1, st) = shot_tick_spec(s);
        (if st.capture { 1nat } else { 0nat }) + shot_captures(s1, (n - 1) as nat)
    }
}

impl ShotState {
    /// A run that captures at `shot_frame`.
    pub fn new(shot_frame: u64) -> (r: ShotState)
        ensures
            r == (ShotState { shot_frame, count: 0, fired: false }),
    {
        ShotState { shot_frame, count: 0, fired: false }
    }

    /// Count one frame; see [`shot_tick_spec`].
    pub fn tick(&mut self) -> (r: ShotStep)
        requires
            old(self).count < u64::MAX,
            old(self).shot_frame <= u64::MAX - SHOT_FLUSH_FRAMES,
        ensures
            (*final(self), r) == shot_tick_spec(*old(self)),
    {
        self.count = self.count + 1;
        let mut capture = false;
        if !self.fired && self.count >= self.shot_frame {
            self.fired = true;
            capture = true;
        }
        let exit = self.fired && self.count >= self.shot_frame + SHOT_FLUSH_FRAMES;
        ShotStep { capture, exit }
    }
}

/// The screenshot run captures exactly once: never again after the capture, never more than
/// once over any run of frames, and exactly once over any run that reaches the shot frame.
pub proof fn lemma_shot_captures_once(s: ShotState, n: nat)
    requires
        s.count + n < u64::MAX,
    ensures
        shot_captures(s, n) <= 1,
        s.fired ==> shot_captures(s, n) == 0,
        n >= 1 && !s.fired && s.count + n >= s.shot_frame ==> shot_captures(s, n) == 1,
    decreases n,
{
    if n > 0 {
        let (s1, st) = shot_tick_spec(s);
        lemma_shot_captures_once(s1, (n - 1) as nat);
    }
}

/// Frame from which the UI probe presses its key.
pub const DEBUG_UI_FRAME: u64 = 150;

/// The screen a UI probe opens with a synthetic key.
#[derive(Clone, Copy, PartialEq, Eq, Structural, Debug, Hash)]
pub enum DebugUiKey {
    /// The radial wheel's key, held.
    Wheel,
    /// The weapon panel's key, tapped.
    WeaponPanel,
}

/// The probe a `ARENA_DEBUG_UI` value names: the key and whether it is held (`wheel` holds the
/// wheel key, `weapons` taps the weapon-panel key); `None` for anything else.
pub fn debug_ui_probe(which: &str) -> (r: Option<(DebugUiKey, bool)>)
    ensures
        r == (if which@ == "wheel"@ {
            Some((DebugUiKey::Wheel, true))
        } else if which@ == "weapons"@ {
            Some((DebugUiKey::WeaponPanel, false))
        } else {
            None
        }),
{
    if str_eq(which, "wheel") {
        Some((DebugUiKey::Wheel, true))
    } else if str_eq(which, "weapons") {
        Some((DebugUiKey::WeaponPanel, false))
    } else {
        None
    }
}

/// What the probe does to its key on a frame.
#[derive(Clone, Copy, PartialEq, Eq, Structural, Debug)]
pub enum DebugKeyAction {
    Press,
    Release,
    Nothing,
}

/// The probe's key on frame `frame` (counted from 1): pressed on frame 150 and, for a held
/// probe, on every later frame; a tapped probe releases it on frame 152.
pub open spec fn debug_key_spec(frame: u64, hold: bool) -> DebugKeyAction {
    if frame == DEBUG_UI_FRAME || (hold && frame > DEBUG_UI_FRAME) {
        DebugKeyAction::Press
    } else if !hold && frame == DEBUG_UI_FRAME + 2 {
        DebugKeyAction::Release
    } else {
        DebugKeyAction::Nothing
    }
}

/// The probe's key action on a frame; see [`debug_key_spec`].
pub fn debug_key_action(frame: u64, hold: bool) -> (r: DebugKeyAction)
    ensures
        r == debug_key_spec(frame, hold),
{
    if frame == DEBUG_UI_FRAME || (hold && frame > DEBUG_UI_FRAME) {
        DebugKeyAction::Press
    } else if !hold && frame == DEBUG_UI_FRAME + 2 {
        DebugKeyAction::Release
    } else {
        DebugKeyAction::Nothing
    }
}

/// A tapped probe presses exactly once (frame 150) and releases exactly once (frame 152); a held
/// probe never releases and keeps the key down from frame 150 on.
pub proof fn lemma_debug_probe_schedule(frame: u64)
    ensures
        debug_key_spec(frame, false) == DebugKeyAction::Press <==> frame == 150,
        debug_key_spec(frame, false) == DebugKeyAction::Release <==> frame == 152,
        debug_key_spec(frame, true) != DebugKeyAction::Release,
        debug_key_spec(frame, true) == DebugKeyAction::Press <==> frame >= 150,
{
}

} // verus!
