//! The automaton as mathematics: its run over a sequence of characters, the boundaries that it
//! finds, and that they are those of the standard.

use crate::uax29::word::properties::{CharInfo, WordBreakProperty};
use crate::uax29::word::rules::{base, indicators, next, two_back, uax29_boundary};
use crate::uax29::word::transitions::{
    ah_letter, ignorable, mid_num_let_q, newline, state_alone, table, State,
};
use crate::uax29::Action;
use vstd::prelude::*;

verus! {

/// What the automaton remembers: its state, and whether the last character was a zero width joiner.
pub struct Mode {
    pub state: State,
    pub zwj: bool,
}

/// The mode in which `c` is finally decided upon. If `c` is not what a deferred state was waiting
/// for, the automaton gives up waiting before it looks at `c` again.
pub open spec fn settle(m: Mode, c: CharInfo) -> Mode {
    let t = table(m.state, c.prop);
    if t.1 is DeferredBreak {
        Mode { state: t.0, zwj: m.zwj }
    } else {
        m
    }
}

/// Does a character attach to the zero width joiner before it? A pictograph does; a line terminator
/// would not.
pub open spec fn attached(zwj: bool, pictographic: bool, prop: WordBreakProperty) -> bool {
    zwj && pictographic && !newline(prop)
}

/// The mode after `c`.
pub open spec fn advance(m: Mode, c: CharInfo) -> Mode {
    Mode { state: table(settle(m, c).state, c.prop).0, zwj: c.prop is ZWJ }
}

/// The mode after the first `k` characters.
pub open spec fn mode(cs: Seq<CharInfo>, k: int) -> Mode
    decreases k,
{
    if k <= 0 {
        Mode { state: State::StartOfText, zwj: false }
    } else {
        advance(mode(cs, k - 1), cs[k - 1])
    }
}

/// Does what the deferred state `s` is waiting for fail to come, at `j` or later?
pub open spec fn lapses(cs: Seq<CharInfo>, j: int, s: State) -> bool
    decreases cs.len() - j,
{
    if j >= cs.len() {
        true
    } else {
        match table(s, cs[j].prop).1 {
            Action::DeferredBreak => true,
            Action::Transparent => lapses(cs, j + 1, s),
            _ => false,
        }
    }
}

/// Does the automaton find a boundary right before the `k`-th character?
pub open spec fn opens(cs: Seq<CharInfo>, k: int) -> bool {
    let c = cs[k];
    let m = settle(mode(cs, k), c);
    let t = table(m.state, c.prop);
    &&& !attached(m.zwj, c.pictographic, c.prop)
    &&& match t.1 {
        Action::Break => true,
        Action::NoBreak => t.0.deferred() && lapses(cs, k + 1, t.0),
        _ => false,
    }
}

// ---------------------------------------------------------------------------------------------
// The automaton and the standard
// ---------------------------------------------------------------------------------------------

/// The automaton's state after characters that the rules see as `ll` and then `l`. `last`: no
/// ignorable character follows `l`; `odd`: `l` ends an odd number of regional indicators.
spec fn state_after(
    ll: WordBreakProperty,
    l: WordBreakProperty,
    last: bool,
    odd: bool,
) -> State {
    if l is RegionalIndicator {
        if odd {
            State::RegionalIndicator
        } else {
            State::Any
        }
    } else if l is WSegSpace {
        if last {
            State::WSegSpace
        } else {
            State::Any
        }
    } else if ll is HebrewLetter && l is SingleQuote {
        State::HLetterSQ
    } else if ll is HebrewLetter && l is DoubleQuote {
        State::HLetterDQ
    } else if ah_letter(ll) && (l is MidLetter || mid_num_let_q(l)) {
        State::AHLetterMid
    } else if ll is Numeric && (l is MidNum || mid_num_let_q(l)) {
        State::NumericMid
    } else {
        state_alone(l)
    }
}

/// What the rules see of the first `k` characters, as a state of the automaton.
spec fn seen(cs: Seq<CharInfo>, k: int) -> State {
    if k <= 0 {
        State::StartOfText
    } else {
        let b = base(cs, k - 1);
        state_after(two_back(cs, k), cs[b].prop, b == k - 1, indicators(cs, b) % 2 == 1)
    }
}

proof fn lemma_step_over_ignorable(
    ll: WordBreakProperty,
    l: WordBreakProperty,
    last: bool,
    odd: bool,
    zwj: bool,
    c: CharInfo,
)
    requires
        ignorable(c.prop),
        !newline(l),
    ensures
        advance(Mode { state: state_after(ll, l, last, odd), zwj }, c).state == state_after(
            ll,
            l,
            false,
            odd,
        ),
{
}

proof fn lemma_step_to_base(
    ll: WordBreakProperty,
    l: WordBreakProperty,
    last: bool,
    odd: bool,
    zwj: bool,
    c: CharInfo,
)
    requires
        !ignorable(c.prop) || newline(l),
    ensures
        advance(Mode { state: state_after(ll, l, last, odd), zwj }, c).state == state_after(
            l,
            c.prop,
            true,
            !(l is RegionalIndicator && odd),
        ),
{
}

proof fn lemma_base_bounds(cs: Seq<CharInfo>, j: int)
    requires
        0 <= j < cs.len(),
    ensures
        0 <= base(cs, j) <= j,
        newline(cs[base(cs, j)].prop) ==> base(cs, j) == j,
    decreases j,
{
    if !(j <= 0 || !ignorable(cs[j].prop) || newline(cs[j - 1].prop)) {
        lemma_base_bounds(cs, j - 1);
    }
}

/// The automaton remembers what the rules see.
proof fn lemma_mode(cs: Seq<CharInfo>, k: int)
    requires
        0 <= k <= cs.len(),
    ensures
        mode(cs, k).state == seen(cs, k),
        mode(cs, k).zwj == (k > 0 && cs[k - 1].prop is ZWJ),
    decreases k,
{
    if k > 0 {
        let c = cs[k - 1];
        let m = mode(cs, k - 1);
        lemma_mode(cs, k - 1);
        assert(mode(cs, k) == advance(m, c));
        if k > 1 {
            lemma_base_bounds(cs, k - 2);
            let b = base(cs, k - 2);
            let ll = two_back(cs, k - 1);
            let l = cs[b].prop;
            let odd = indicators(cs, b) % 2 == 1;
            if ignorable(c.prop) && !newline(cs[k - 2].prop) {
                lemma_step_over_ignorable(ll, l, b == k - 2, odd, m.zwj, c);
            } else {
                lemma_step_to_base(ll, l, b == k - 2, odd, m.zwj, c);
            }
        }
    }
}

/// A wait that begins after a character ends in vain just if what the rules see next is not what
/// was waited for.
proof fn lemma_lapses(cs: Seq<CharInfo>, j: int, s: State)
    requires
        0 <= j,
        s.deferred(),
    ensures
        lapses(cs, j, s) == match next(cs, j) {
            None => true,
            Some(p) => table(s, p).1 is DeferredBreak,
        },
        next(cs, j) matches Some(p) ==> !ignorable(p),
    decreases cs.len() - j,
{
    if j < cs.len() && ignorable(cs[j].prop) {
        lemma_lapses(cs, j + 1, s);
    }
}

/// The boundaries that the automaton finds are those of the standard, in every text.
pub proof fn law_automaton_follows_the_standard(cs: Seq<CharInfo>, k: int)
    requires
        0 <= k < cs.len(),
    ensures
        opens(cs, k) == uax29_boundary(cs, k),
{
    lemma_mode(cs, k);
    if k > 0 {
        lemma_base_bounds(cs, k - 1);
        let s = settle(mode(cs, k), cs[k]);
        let t = table(s.state, cs[k].prop);
        if t.0.deferred() {
            lemma_lapses(cs, k + 1, t.0);
        }
    }
}

} // verus!
