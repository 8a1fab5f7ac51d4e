//! The word-break automaton: its states and its transition table.

use crate::uax29::word::properties::WordBreakProperty;
use crate::uax29::Action;
use vstd::prelude::*;

verus! {

/// What the automaton remembers of the characters before the one it is looking at.
#[derive(Copy, Clone, Debug, PartialEq, Eq, Structural)]
pub enum State {
    StartOfText,
    /// After a character that joins nothing but what every character joins.
    Any,
    ALetter,
    HLetter,
    /// After a Hebrew letter and a single quote.
    HLetterSQ,
    /// After a Hebrew letter and a double quote, which belongs to the word only if another Hebrew
    /// letter follows.
    HLetterDQ,
    /// After a letter and punctuation that belongs to the word only if another letter follows.
    AHLetterMid,
    Numeric,
    /// After a digit and punctuation that belongs to the number only if another digit follows.
    NumericMid,
    Katakana,
    ExtendNumLet,
    /// After an odd number of regional indicators.
    RegionalIndicator,
    CR,
    Newline,
    WSegSpace,
}

impl State {
    /// Is the automaton waiting for a character to tell whether a boundary falls before one that it
    /// has already gone past?
    pub open spec fn deferred(self) -> bool {
        self is AHLetterMid || self is HLetterDQ || self is NumericMid
    }

    pub fn is_deferred(self) -> (yes: bool)
        ensures
            yes == self.deferred(),
    {
        match self {
            State::AHLetterMid | State::HLetterDQ | State::NumericMid => true,
            _ => false,
        }
    }
}

/// The next state, and what to do with the character.
#[derive(Copy, Clone, Debug, PartialEq, Eq, Structural)]
pub struct Transition(pub State, pub Action);

/// `AHLetter` of the standard.
pub open spec fn ah_letter(p: WordBreakProperty) -> bool {
    p is ALetter || p is HebrewLetter
}

/// `MidNumLetQ` of the standard.
pub open spec fn mid_num_let_q(p: WordBreakProperty) -> bool {
    p is MidNumLet || p is SingleQuote
}

/// A line terminator.
pub open spec fn newline(p: WordBreakProperty) -> bool {
    p is CR || p is LF || p is Newline
}

/// A character that the rules look through.
pub open spec fn ignorable(p: WordBreakProperty) -> bool {
    p is Extend || p is Format || p is ZWJ
}

/// The state after a character that starts a token.
pub open spec fn state_alone(p: WordBreakProperty) -> State {
    match p {
        WordBreakProperty::ALetter => State::ALetter,
        WordBreakProperty::HebrewLetter => State::HLetter,
        WordBreakProperty::Numeric => State::Numeric,
        WordBreakProperty::Katakana => State::Katakana,
        WordBreakProperty::ExtendNumLet => State::ExtendNumLet,
        WordBreakProperty::RegionalIndicator => State::RegionalIndicator,
        WordBreakProperty::CR => State::CR,
        WordBreakProperty::LF | WordBreakProperty::Newline => State::Newline,
        WordBreakProperty::WSegSpace => State::WSegSpace,
        _ => State::Any,
    }
}

/// The transition table.
pub open spec fn table(s: State, p: WordBreakProperty) -> Transition {
    if s is StartOfText {
        Transition(state_alone(p), Action::Break)
    } else if s is CR && p is LF {
        Transition(State::Newline, Action::NoBreak)
    } else if s is CR || s is Newline {
        Transition(state_alone(p), Action::Break)
    } else if ignorable(p) {
        if s is WSegSpace {
            Transition(State::Any, Action::NoBreak)
        } else {
            Transition(s, Action::Transparent)
        }
    } else {
        match s {
            State::AHLetterMid => if ah_letter(p) {
                Transition(state_alone(p), Action::NoBreak)
            } else {
                Transition(State::Any, Action::DeferredBreak)
            },
            State::HLetterDQ => if p is HebrewLetter {
                Transition(State::HLetter, Action::NoBreak)
            } else {
                Transition(State::Any, Action::DeferredBreak)
            },
            State::NumericMid => if p is Numeric {
                Transition(State::Numeric, Action::NoBreak)
            } else {
                Transition(State::Any, Action::DeferredBreak)
            },
            State::HLetterSQ => if ah_letter(p) {
                Transition(state_alone(p), Action::NoBreak)
            } else {
                Transition(state_alone(p), Action::Break)
            },
            State::ALetter | State::HLetter => if ah_letter(p) || p is Numeric
                || p is ExtendNumLet {
                Transition(state_alone(p), Action::NoBreak)
            } else if s is HLetter && p is SingleQuote {
                Transition(State::HLetterSQ, Action::NoBreak)
            } else if s is HLetter && p is DoubleQuote {
                Transition(State::HLetterDQ, Action::NoBreak)
            } else if p is MidLetter || mid_num_let_q(p) {
                Transition(State::AHLetterMid, Action::NoBreak)
            } else {
                Transition(state_alone(p), Action::Break)
            },
            State::Numeric => if ah_letter(p) || p is Numeric || p is ExtendNumLet {
                Transition(state_alone(p), Action::NoBreak)
            } else if p is MidNum || mid_num_let_q(p) {
                Transition(State::NumericMid, Action::NoBreak)
            } else {
                Transition(state_alone(p), Action::Break)
            },
            State::Katakana => if p is Katakana || p is ExtendNumLet {
                Transition(state_alone(p), Action::NoBreak)
            } else {
                Transition(state_alone(p), Action::Break)
            },
            State::ExtendNumLet => if ah_letter(p) || p is Numeric || p is Katakana
                || p is ExtendNumLet {
                Transition(state_alone(p), Action::NoBreak)
            } else {
                Transition(state_alone(p), Action::Break)
            },
            State::RegionalIndicator => if p is RegionalIndicator {
                Transition(State::Any, Action::NoBreak)
            } else {
                Transition(state_alone(p), Action::Break)
            },
            State::WSegSpace => if p is WSegSpace {
                Transition(State::WSegSpace, Action::NoBreak)
            } else {
                Transition(state_alone(p), Action::Break)
            },
            _ => Transition(state_alone(p), Action::Break),
        }
    }
}

fn is_ah_letter(p: WordBreakProperty) -> (yes: bool)
    ensures
        yes == ah_letter(p),
{
    matches!(p, WordBreakProperty::ALetter | WordBreakProperty::HebrewLetter)
}

/// One of the characters that join each other in every order: letters, digits and connectors.
fn is_word_char(p: WordBreakProperty) -> (yes: bool)
    ensures
        yes == (ah_letter(p) || p is Numeric || p is ExtendNumLet),
{
    matches!(
        p,
        WordBreakProperty::ALetter | WordBreakProperty::HebrewLetter | WordBreakProperty::Numeric
            | WordBreakProperty::ExtendNumLet
    )
}

fn is_ignorable(p: WordBreakProperty) -> (yes: bool)
    ensures
        yes == ignorable(p),
{
    matches!(p, WordBreakProperty::Extend | WordBreakProperty::Format | WordBreakProperty::ZWJ)
}

/// The state after a character that starts a token.
pub fn start_state(p: WordBreakProperty) -> (s: State)
    ensures
        s == state_alone(p),
{
    match p {
        WordBreakProperty::ALetter => State::ALetter,
        WordBreakProperty::HebrewLetter => State::HLetter,
        WordBreakProperty::Numeric => State::Numeric,
        WordBreakProperty::Katakana => State::Katakana,
        WordBreakProperty::ExtendNumLet => State::ExtendNumLet,
        WordBreakProperty::RegionalIndicator => State::RegionalIndicator,
        WordBreakProperty::CR => State::CR,
        WordBreakProperty::LF | WordBreakProperty::Newline => State::Newline,
        WordBreakProperty::WSegSpace => State::WSegSpace,
        _ => State::Any,
    }
}

/// Looks up the transition table.
pub fn transition(s: State, p: WordBreakProperty) -> (t: Transition)
    ensures
        t == table(s, p),
{
    let joins: Transition = Transition(start_state(p), Action::NoBreak);
    let breaks: Transition = Transition(start_state(p), Action::Break);
    let lapses: Transition = Transition(State::Any, Action::DeferredBreak);
    match s {
        State::StartOfText | State::Newline => breaks,
        State::CR => if matches!(p, WordBreakProperty::LF) {
            Transition(State::Newline, Action::NoBreak)
        } else {
            breaks
        },
        State::WSegSpace => if is_ignorable(p) {
            Transition(State::Any, Action::NoBreak)
        } else if matches!(p, WordBreakProperty::WSegSpace) {
            joins
        } else {
            breaks
        },
        _ if is_ignorable(p) => Transition(s, Action::Transparent),
        State::AHLetterMid => if is_ah_letter(p) {
            joins
        } else {
            lapses
        },
        State::HLetterDQ => if matches!(p, WordBreakProperty::HebrewLetter) {
            joins
        } else {
            lapses
        },
        State::NumericMid => if matches!(p, WordBreakProperty::Numeric) {
            joins
        } else {
            lapses
        },
        State::HLetterSQ => if is_ah_letter(p) {
            joins
        } else {
            breaks
        },
        State::ALetter | State::HLetter => if is_word_char(p) {
            joins
        } else {
            match p {
                WordBreakProperty::SingleQuote if matches!(s, State::HLetter) => Transition(
                    State::HLetterSQ,
                    Action::NoBreak,
                ),
                WordBreakProperty::DoubleQuote if matches!(s, State::HLetter) => Transition(
                    State::HLetterDQ,
                    Action::NoBreak,
                ),
                WordBreakProperty::MidLetter
                | WordBreakProperty::MidNumLet
                | WordBreakProperty::SingleQuote => Transition(State::AHLetterMid, Action::NoBreak),
                _ => breaks,
            }
        },
        State::Numeric => if is_word_char(p) {
            joins
        } else {
            match p {
                WordBreakProperty::MidNum
                | WordBreakProperty::MidNumLet
                | WordBreakProperty::SingleQuote => Transition(State::NumericMid, Action::NoBreak),
                _ => breaks,
            }
        },
        State::Katakana => if matches!(
            p,
            WordBreakProperty::Katakana | WordBreakProperty::ExtendNumLet
        ) {
            joins
        } else {
            breaks
        },
        State::ExtendNumLet => if is_word_char(p) || matches!(p, WordBreakProperty::Katakana) {
            joins
        } else {
            breaks
        },
        State::RegionalIndicator => if matches!(p, WordBreakProperty::RegionalIndicator) {
            Transition(State::Any, Action::NoBreak)
        } else {
            breaks
        },
        State::Any => breaks,
    }
}

} // verus!
