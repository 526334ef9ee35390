//! What a frame is made of: the systems that run in each phase of the turn,
//! and the signals that last one frame only.

use vstd::prelude::*;
use crate::resources::{Input, TurnState};

verus! {

/// Names a system of the match.
#[derive(Clone, Copy, Debug, PartialEq, Eq, Structural)]
pub enum System {
    CursorMovement,
    PlayerSelect,
    ActionMenu,
    PathSelect,
    RunSelect,
    PlayerMovement,
    BallDribble,
    PassSelect,
    BallMovement,
}

/// The systems of a frame that begins in phase `state`, in the order in
/// which they run. While a path is picked the cursor moves first, the path
/// follows it, and only then is a select or cancel signal looked at.
pub open spec fn systems_of(state: TurnState) -> Seq<System> {
    match state {
        TurnState::SelectPlayer => seq![System::CursorMovement, System::PlayerSelect],
        TurnState::ActionMenu { .. } => seq![System::ActionMenu],
        TurnState::SelectRun { .. } => seq![
            System::CursorMovement,
            System::PathSelect,
            System::RunSelect,
        ],
        TurnState::Running { .. } => seq![System::PlayerMovement, System::BallDribble],
        TurnState::SelectPass { .. } => seq![
            System::CursorMovement,
            System::PathSelect,
            System::PassSelect,
        ],
        TurnState::Passing { .. } => seq![System::BallMovement],
    }
}

/// Lists the systems to run in a frame that begins in phase `state`.
pub fn frame_systems(state: &TurnState) -> (systems: Vec<System>)
    ensures
        systems@ == systems_of(*state),
{
    let mut systems: Vec<System> = Vec::new();
    match state {
        TurnState::SelectPlayer => {
            systems.push(System::CursorMovement);
            systems.push(System::PlayerSelect);
        },
        TurnState::ActionMenu { .. } => {
            systems.push(System::ActionMenu);
        },
        TurnState::SelectRun { .. } => {
            systems.push(System::CursorMovement);
            systems.push(System::PathSelect);
            systems.push(System::RunSelect);
        },
        TurnState::Running { .. } => {
            systems.push(System::PlayerMovement);
            systems.push(System::BallDribble);
        },
        TurnState::SelectPass { .. } => {
            systems.push(System::CursorMovement);
            systems.push(System::PathSelect);
            systems.push(System::PassSelect);
        },
        TurnState::Passing { .. } => {
            systems.push(System::BallMovement);
        },
    }
    assert(systems@ =~= systems_of(*state));
    systems
}

/// The way the view is to be shifted, in steps along `x` and `y`: one step
/// to the right while `a` is held and one to the left while `d` is, one step
/// down while `w` is held and one up while `s` is. Keys that pull against each
/// other cancel out.
pub open spec fn pan_direction(input: Input) -> (int, int) {
    (
        (if input.a { 1int } else { 0int }) - (if input.d { 1int } else { 0int }),
        (if input.w { 1int } else { 0int }) - (if input.s { 1int } else { 0int }),
    )
}

/// Shifts the view over the pitch.
pub struct CameraSystem;

impl CameraSystem {
    /// Reads off the signals which way the view is to be shifted.
    pub fn pan(input: &Input) -> (shift: (i32, i32))
        ensures
            (shift.0 as int, shift.1 as int) == pan_direction(*input),
    {
        let mut x: i32 = 0;
        let mut y: i32 = 0;
        if input.a {
            x = x + 1;
        }
        if input.w {
            y = y + 1;
        }
        if input.d {
            x = x - 1;
        }
        if input.s {
            y = y - 1;
        }
        (x, y)
    }
}

/// A key that stands for a signal.
#[derive(Clone, Copy, Debug, PartialEq, Eq, Structural)]
pub enum Key {
    Up,
    Down,
    Left,
    Right,
    Select,
    Cancel,
    W,
    A,
    S,
    D,
}

impl Input {
    /// The signals with that of `key` set to `pressed`.
    pub open spec fn with_key(self, key: Key, pressed: bool) -> Input {
        match key {
            Key::Up => Input { up: pressed, ..self },
            Key::Down => Input { down: pressed, ..self },
            Key::Left => Input { left: pressed, ..self },
            Key::Right => Input { right: pressed, ..self },
            Key::Select => Input { select: pressed, ..self },
            Key::Cancel => Input { cancel: pressed, ..self },
            Key::W => Input { w: pressed, ..self },
            Key::A => Input { a: pressed, ..self },
            Key::S => Input { s: pressed, ..self },
            Key::D => Input { d: pressed, ..self },
        }
    }

    /// The signals with the pulses taken back.
    pub open spec fn without_pulses(self) -> Input {
        Input { select: false, cancel: false, ..self }
    }

    /// Gives the signal of `key` when the key goes down.
    pub fn key_down(&mut self, key: Key)
        ensures
            *final(self) == old(self).with_key(key, true),
    {
        self.set_key(key, true);
    }

    /// Takes the signal of `key` back when the key goes up.
    pub fn key_up(&mut self, key: Key)
        ensures
            *final(self) == old(self).with_key(key, false),
    {
        self.set_key(key, false);
    }

    fn set_key(&mut self, key: Key, pressed: bool)
        ensures
            *final(self) == old(self).with_key(key, pressed),
    {
        match key {
            Key::Up => {
                self.up = pressed;
            },
            Key::Down => {
                self.down = pressed;
            },
            Key::Left => {
                self.left = pressed;
            },
            Key::Right => {
                self.right = pressed;
            },
            Key::Select => {
                self.select = pressed;
            },
            Key::Cancel => {
                self.cancel = pressed;
            },
            Key::W => {
                self.w = pressed;
            },
            Key::A => {
                self.a = pressed;
            },
            Key::S => {
                self.s = pressed;
            },
            Key::D => {
                self.d = pressed;
            },
        }
    }

    /// Ends the frame: select and cancel have to be given anew, the other
    /// signals hold as long as their keys are down.
    pub fn end_frame(&mut self)
        ensures
            *final(self) == old(self).without_pulses(),
    {
        self.select = false;
        self.cancel = false;
    }
}

} // verus!
