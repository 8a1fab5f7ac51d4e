//! Segmentation after Unicode Standard Annex #29.

use vstd::prelude::*;

pub mod word;

verus! {

/// What a segmentation automaton does with the character it is looking at.
#[derive(Copy, Clone, Debug, PartialEq, Eq, Structural)]
pub enum Action {
    /// A boundary falls right before the character.
    Break,
    /// No boundary falls before the character, unless the automaton thereby starts to wait for a
    /// later character (see [`word::transitions::State::is_deferred`]).
    NoBreak,
    /// The character the automaton was waiting for did not come: a boundary falls where the wait
    /// began, and the character is looked at once more in the new state.
    DeferredBreak,
    /// The character belongs to what precedes it and leaves the state alone.
    Transparent,
}

} // verus!
