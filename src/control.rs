//! The display loop's decisions: what to do after each frame.
use vstd::prelude::*;

verus! {

/// How long to wait for a key between frames, in milliseconds.
pub const POLL_MILLIS: u64 = 100;

/// How long the final frame stays up after the run is done, in milliseconds.
pub const GRACE_MILLIS: u64 = 2000;

/// A key press, as far as the dashboard tells keys apart.
#[derive(Clone, Copy, PartialEq, Eq, Debug)]
pub enum KeyInput {
    Char(char),
    Esc,
    Other,
}

/// What the display loop does next.
#[derive(Clone, Copy, PartialEq, Eq, Debug)]
pub enum Action {
    /// Draw another frame.
    Continue,
    /// Leave at once, without a final hold.
    Exit,
    /// Draw one last frame, hold it for the grace period, then leave.
    FinalFrame,
}

pub open spec fn is_quit(k: KeyInput) -> bool {
    k == KeyInput::Char('q') || k == KeyInput::Esc
}

/// `q` and Escape cancel; every other key is ignored.
pub fn is_quit_key(k: KeyInput) -> (r: bool)
    ensures
        r == is_quit(k),
{
    match k {
        KeyInput::Char(c) => c == 'q',
        KeyInput::Esc => true,
        KeyInput::Other => false,
    }
}

pub open spec fn next_action_spec(key: Option<KeyInput>, is_done: bool) -> Action {
    if key.is_some() && is_quit(key.unwrap()) {
        Action::Exit
    } else if is_done {
        Action::FinalFrame
    } else {
        Action::Continue
    }
}

/// Decides after a frame and a poll: a cancel key wins, then completion.
pub fn next_action(key: Option<KeyInput>, is_done: bool) -> (r: Action)
    ensures
        r == next_action_spec(key, is_done),
{
    match key {
        Some(k) => {
            if is_quit_key(k) {
                return Action::Exit;
            }
        },
        None => {},
    }
    if is_done {
        Action::FinalFrame
    } else {
        Action::Continue
    }
}

} // verus!
