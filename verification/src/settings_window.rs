//! Decisions of the settings window: what the test-voice button shows as
//! the speech service's state changes, and which voice stays selected when
//! the engine changes.

use vstd::prelude::*;
use crate::cli_config::str_eq;
use crate::sentences::views;

verus! {

broadcast use vstd::string::group_string_axioms;

/// What the test-voice button shows.
#[derive(Clone, Copy, Debug, PartialEq, Eq, Structural)]
pub enum ButtonState {
    Idle,
    /// A test sentence was sent and is being generated.
    Processing,
    Speaking,
    /// The service did not answer, or refused the sentence.
    Unavailable,
}

/// The button's next state from what the service reported: `None` when it
/// did not answer, else whether it is speaking. While processing, a quiet
/// service keeps the spinner until it has been stuck too long.
pub open spec fn spec_next_button_state(current: ButtonState, observed: Option<bool>, stuck: bool) -> ButtonState {
    match observed {
        None => ButtonState::Unavailable,
        Some(true) => ButtonState::Speaking,
        Some(false) => match current {
            ButtonState::Processing => if stuck {
                ButtonState::Idle
            } else {
                ButtonState::Processing
            },
            _ => ButtonState::Idle,
        },
    }
}

/// The button's next state (see `spec_next_button_state`).
pub fn next_button_state(current: ButtonState, observed: Option<bool>, stuck: bool) -> (r: ButtonState)
    ensures
        r == spec_next_button_state(current, observed, stuck),
{
    match observed {
        None => ButtonState::Unavailable,
        Some(true) => ButtonState::Speaking,
        Some(false) => match current {
            ButtonState::Processing => if stuck {
                ButtonState::Idle
            } else {
                ButtonState::Processing
            },
            _ => ButtonState::Idle,
        },
    }
}

/// The voice selected after the engine changes to one with `voices`: the
/// current voice when the new engine has it, else its first voice, else
/// none (the empty name).
pub open spec fn spec_kept_voice(voices: Seq<Seq<char>>, current: Seq<char>) -> Seq<char> {
    if voices.contains(current) {
        current
    } else if voices.len() > 0 {
        voices[0]
    } else {
        Seq::empty()
    }
}

/// The voice kept when the engine changes (see `spec_kept_voice`).
pub fn kept_voice(voices: &Vec<String>, current: &str) -> (r: String)
    ensures
        r@ == spec_kept_voice(views(voices@), current@),
{
    let ghost vs = views(voices@);
    let mut i: usize = 0;
    while i < voices.len()
        invariant
            0 <= i <= voices@.len(),
            vs == views(voices@),
            vs.len() == voices@.len(),
            forall|k: int| 0 <= k < i ==> vs[k] != current@,
        decreases voices@.len() - i,
    {
        assert(vs[i as int] == voices@[i as int]@);
        if str_eq(voices[i].as_str(), current) {
            assert(vs.contains(current@));
            return current.to_string();
        }
        i = i + 1;
    }
    assert(!vs.contains(current@));
    if voices.len() > 0 {
        assert(vs[0] == voices@[0]@);
        voices[0].clone()
    } else {
        String::new()
    }
}

} // verus!
