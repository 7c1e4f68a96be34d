//! Per-key edge-detection state machine.
//!
//! Each bound key carries one of four states. Once per frame the hardware's
//! instantaneous signal for the key (down, repeat, up, or no signal) advances
//! the state; queries then read the already-computed state without mutating
//! it, so the answers are consistent however many queries a frame makes.

use vstd::prelude::*;

verus! {

/// Edge-triggered state of one bound key.
///
/// `JustPressed` and `JustReleased` hold for exactly the one frame on which
/// the corresponding transition fires; `Pressed` and `Released` are the
/// level states between edges.
#[derive(Clone, Copy, PartialEq, Eq, Structural, Debug)]
pub enum KeyState {
    Released,
    JustPressed,
    Pressed,
    JustReleased,
}

/// The hardware's instantaneous signal for one key in one frame. The polling
/// layer reports exactly one of these per key per frame.
#[derive(Clone, Copy, PartialEq, Eq, Structural, Debug)]
pub enum KeySignal {
    /// The key went down this frame.
    Down,
    /// The key is held and the backend re-reports it.
    Repeat,
    /// The key went up this frame.
    Up,
    /// No signal was reported for the key this frame.
    Idle,
}

/// What a frame without a signal means for a key. The polling backends
/// disagree on whether a held key is re-reported every frame, so the choice
/// is an explicit configuration picked when the action map is built.
#[derive(Clone, Copy, PartialEq, Eq, Structural, Debug)]
pub enum IdlePolicy {
    /// No signal counts as an implicit `Up`: a held key decays through a
    /// `JustReleased` edge to `Released`.
    ImplicitUp,
    /// The backend guarantees that every held key is re-reported each frame
    /// with `Down` or `Repeat`, so a missing signal keeps a held key held;
    /// the one-frame edge states still expire to their level states.
    TreatAsHeld,
}

/// The transition function of the per-key state machine: the state after a
/// frame that reported `sig`, starting from `s`, under idle policy `pol`.
pub open spec fn next_state(s: KeyState, sig: KeySignal, pol: IdlePolicy) -> KeyState {
    match sig {
        KeySignal::Down => match s {
            KeyState::Released => KeyState::JustPressed,
            KeyState::JustReleased => KeyState::JustPressed,
            KeyState::JustPressed => KeyState::Pressed,
            KeyState::Pressed => KeyState::Pressed,
        },
        KeySignal::Repeat => KeyState::Pressed,
        KeySignal::Up => match s {
            KeyState::Pressed => KeyState::JustReleased,
            KeyState::JustPressed => KeyState::JustReleased,
            KeyState::Released => KeyState::Released,
            KeyState::JustReleased => KeyState::Released,
        },
        KeySignal::Idle => match pol {
            IdlePolicy::ImplicitUp => match s {
                KeyState::Pressed => KeyState::JustReleased,
                KeyState::JustPressed => KeyState::JustReleased,
                KeyState::Released => KeyState::Released,
                KeyState::JustReleased => KeyState::Released,
            },
            IdlePolicy::TreatAsHeld => match s {
                KeyState::Pressed => KeyState::Pressed,
                KeyState::JustPressed => KeyState::Pressed,
                KeyState::Released => KeyState::Released,
                KeyState::JustReleased => KeyState::Released,
            },
        },
    }
}

/// A state counts as held while the key is down: the press edge frame and
/// the level frames after it.
pub open spec fn is_held_state(s: KeyState) -> bool {
    s == KeyState::Pressed || s == KeyState::JustPressed
}

/// One bound key: the hardware key code it watches, owned as a plain copied
/// value, and its current edge state.
#[derive(Clone, Copy, PartialEq, Eq, Structural, Debug)]
pub struct KeyboardInput {
    pub key: u32,
    pub state: KeyState,
}

impl KeyboardInput {
    /// A fresh binding for hardware key `key`, in the initial `Released`
    /// state.
    pub fn new(key: u32) -> (r: KeyboardInput)
        ensures
            r.key == key,
            r.state == KeyState::Released,
    {
        KeyboardInput { key, state: KeyState::Released }
    }

    /// Advance the state machine by one frame that reported `signal`.
    pub fn advance(&mut self, signal: KeySignal, policy: IdlePolicy)
        ensures
            final(self).key == old(self).key,
            final(self).state == next_state(old(self).state, signal, policy),
    {
        self.state = transition(self.state, signal, policy);
    }

    /// True exactly on the frame the press edge fired.
    pub fn is_just_pressed(&self) -> (r: bool)
        ensures
            r == (self.state == KeyState::JustPressed),
    {
        matches!(self.state, KeyState::JustPressed)
    }

    /// True while the key is down, the press edge frame included.
    pub fn is_held(&self) -> (r: bool)
        ensures
            r == is_held_state(self.state),
    {
        matches!(self.state, KeyState::Pressed | KeyState::JustPressed)
    }

    /// True exactly on the frame the release edge fired.
    pub fn is_just_released(&self) -> (r: bool)
        ensures
            r == (self.state == KeyState::JustReleased),
    {
        matches!(self.state, KeyState::JustReleased)
    }
}

/// Executable form of [`next_state`].
pub fn transition(state: KeyState, signal: KeySignal, policy: IdlePolicy) -> (r: KeyState)
    ensures
        r == next_state(state, signal, policy),
{
    match signal {
        KeySignal::Down => match state {
            KeyState::Released => KeyState::JustPressed,
            KeyState::JustReleased => KeyState::JustPressed,
            _ => KeyState::Pressed,
        },
        KeySignal::Repeat => KeyState::Pressed,
        KeySignal::Up => match state {
            KeyState::Pressed => KeyState::JustReleased,
            KeyState::JustPressed => KeyState::JustReleased,
            _ => KeyState::Released,
        },
        KeySignal::Idle => match policy {
            IdlePolicy::ImplicitUp => match state {
                KeyState::Pressed => KeyState::JustReleased,
                KeyState::JustPressed => KeyState::JustReleased,
                _ => KeyState::Released,
            },
            IdlePolicy::TreatAsHeld => match state {
                KeyState::Pressed => KeyState::Pressed,
                KeyState::JustPressed => KeyState::Pressed,
                _ => KeyState::Released,
            },
        },
    }
}

/// Law: the press edge fires exactly when a down signal arrives in a state
/// where the key was not held. In particular a key that stays down yields
/// `JustPressed` on one frame only.
pub proof fn lemma_just_pressed_is_edge(s: KeyState, sig: KeySignal, pol: IdlePolicy)
    ensures
        (next_state(s, sig, pol) == KeyState::JustPressed) <==> (sig == KeySignal::Down
            && !is_held_state(s)),
{
}

/// Law: the release edge fires exactly when a held key receives an up
/// signal, or no signal under the implicit-up policy. In particular a key
/// that stays up yields `JustReleased` on one frame only.
pub proof fn lemma_just_released_is_edge(s: KeyState, sig: KeySignal, pol: IdlePolicy)
    ensures
        (next_state(s, sig, pol) == KeyState::JustReleased) <==> (is_held_state(s) && (sig
            == KeySignal::Up || (sig == KeySignal::Idle && pol == IdlePolicy::ImplicitUp))),
{
}

} // verus!
