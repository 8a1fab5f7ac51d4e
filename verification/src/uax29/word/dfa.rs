//! The tokenizer that runs the automaton character by character.

use crate::uax29::word::ascii::{
    ascii_byte_info, lemma_byte_info, run_bits, scan_word, word_byte, ASCII_WORD_CONTINUE,
};
use crate::uax29::word::automaton::{
    advance, attached, lapses, law_automaton_follows_the_standard, mode, settle, Mode,
};
use crate::uax29::word::listener::{
    callable, called, going_on, lemma_going_on_start, possible_answers, reported, takes_all, tell,
    Callback, Listener,
};
use crate::uax29::word::model::{
    boundary, infos, last_boundary, lemma_last_boundary, lemma_no_boundary, lemma_span_join,
    lemma_span_one, offset, report, reports, span_bits, text_breaks,
};
use crate::uax29::word::properties::{
    ascii_property, ascii_token_bits, ascii_word_break_prop,
    lookup_word_break_property_from_dictionary, non_ascii_char_props, CharInfo, WordBreakProperty,
};
use crate::uax29::word::text::{
    char_at, char_offset, lemma_ascii_byte, lemma_byte_as_char, lemma_char_bytes,
    lemma_offset_in_text, lemma_text_end, len_utf8,
};
use crate::uax29::word::token::{lemma_or, Options, TokenProperties};
use crate::uax29::word::transitions::{state_alone, table, transition, State, Transition};
use crate::uax29::Action;
use core::ops::BitOrAssign;
use vstd::prelude::*;
use vstd::utf8::encode_utf8;

verus! {

// ---------------------------------------------------------------------------------------------
// One step
// ---------------------------------------------------------------------------------------------

/// The automaton between two characters.
#[derive(Copy, Clone, Debug, PartialEq, Eq)]
pub struct Machine {
    pub state: State,
    /// While the automaton waits to see whether a boundary fell: where it would fall.
    pub deferred_break_pos: Option<usize>,
    /// Was the last character a zero width joiner? Kept beside the state, which does not change at
    /// a joiner: `a 🛑` breaks, but `a ZWJ 🛑` does not.
    pub last_was_zwj: bool,
    /// Properties of the current token so far.
    pub token_props: TokenProperties,
    /// Properties of the characters since `deferred_break_pos`. If the boundary fell there they
    /// belong to the next token, else to the current one.
    pub deferred_props: TokenProperties,
}

/// What became of a character.
#[derive(Copy, Clone, Debug, PartialEq, Eq)]
pub enum Step {
    /// It was taken in, and nothing is to be reported yet.
    Taken,
    /// It was taken in, and a boundary is to be reported.
    Break(usize, TokenProperties),
    /// A boundary is to be reported, and the character to be looked at again.
    Retry(usize, TokenProperties),
    /// Nothing is to be reported, and the character is to be looked at again.
    Again,
}

impl Machine {
    /// A place for a boundary is kept only while the automaton waits. None is kept if the wait began
    /// with a pictograph that is attached to the joiner before it: no boundary falls there.
    pub open spec fn wf(self) -> bool {
        &&& self.deferred_break_pos is Some ==> self.state.deferred()
        &&& self.deferred_break_pos is None ==> self.deferred_props.0 == 0
    }

    pub fn new() -> (m: Self)
        ensures
            m.wf(),
            m.state is StartOfText,
            !m.last_was_zwj,
            m.token_props.0 == 0,
    {
        Machine {
            state: State::StartOfText,
            deferred_break_pos: None,
            last_was_zwj: false,
            token_props: TokenProperties(0),
            deferred_props: TokenProperties(0),
        }
    }

    /// The automaton after a look at a character, and what became of the character.
    pub open spec fn stepped(
        self,
        pos: usize,
        prop: WordBreakProperty,
        pictographic: bool,
        char_props: TokenProperties,
    ) -> (Machine, Step) {
        let next = table(self.state, prop).0;
        let token = self.token_props.0;
        let held = self.deferred_props.0;
        let stays = attached(self.last_was_zwj, pictographic, prop);
        match table(self.state, prop).1 {
            Action::Break => if stays {
                // It joins the token of the joiner instead.
                (
                    Machine {
                        state: next,
                        last_was_zwj: prop is ZWJ,
                        token_props: TokenProperties(token | char_props.0),
                        ..self
                    },
                    Step::Taken,
                )
            } else {
                // It is the first one of the next token.
                (
                    Machine {
                        state: next,
                        last_was_zwj: prop is ZWJ,
                        token_props: char_props,
                        ..self
                    },
                    Step::Break(pos, self.token_props),
                )
            },
            Action::NoBreak => if next.deferred() && !stays {
                (
                    Machine {
                        state: next,
                        last_was_zwj: prop is ZWJ,
                        deferred_break_pos: if self.deferred_break_pos is None {
                            Some(pos)
                        } else {
                            self.deferred_break_pos
                        },
                        deferred_props: TokenProperties(held | char_props.0),
                        ..self
                    },
                    Step::Taken,
                )
            } else {
                (
                    Machine {
                        state: next,
                        last_was_zwj: prop is ZWJ,
                        deferred_break_pos: None,
                        token_props: TokenProperties(token | held | char_props.0),
                        deferred_props: TokenProperties(0),
                    },
                    Step::Taken,
                )
            },
            Action::DeferredBreak => match self.deferred_break_pos {
                Some(at) => (
                    Machine {
                        state: next,
                        deferred_break_pos: None,
                        token_props: self.deferred_props,
                        deferred_props: TokenProperties(0),
                        ..self
                    },
                    Step::Retry(at, self.token_props),
                ),
                None => (Machine { state: next, ..self }, Step::Again),
            },
            Action::Transparent => (
                if self.deferred_break_pos is Some {
                    Machine {
                        last_was_zwj: prop is ZWJ,
                        deferred_props: TokenProperties(held | char_props.0),
                        ..self
                    }
                } else {
                    Machine {
                        last_was_zwj: prop is ZWJ,
                        token_props: TokenProperties(token | char_props.0),
                        ..self
                    }
                },
                Step::Taken,
            ),
        }
    }

    /// Looks at the character at byte `pos`, of which it knows the `Word_Break` value, whether it is
    /// a pictograph (of interest after a zero width joiner only), and what it says about its token.
    pub fn step(
        &mut self,
        pos: usize,
        prop: WordBreakProperty,
        pictographic: bool,
        char_props: TokenProperties,
    ) -> (step: Step)
        requires
            old(self).wf(),
        ensures
            final(self).wf(),
            (*final(self), step) == old(self).stepped(pos, prop, pictographic, char_props),
    {
        let ghost m = *self;
        proof {
            lemma_or(char_props.0, 0, 0);
            lemma_or(m.deferred_props.0, 0, 0);
            lemma_or(m.token_props.0, 0, 0);
        }
        let Transition(next_state, action) = transition(self.state, prop);
        // WB3c: a pictograph is attached to the joiner before it, whatever the state says.
        let newline = matches!(
            prop,
            WordBreakProperty::CR | WordBreakProperty::LF | WordBreakProperty::Newline
        );
        let stays = self.last_was_zwj && pictographic && !newline;
        match action {
            Action::Break => {
                self.last_was_zwj = matches!(prop, WordBreakProperty::ZWJ);
                self.state = next_state;
                if stays {
                    BitOrAssign::bitor_assign(&mut self.token_props, char_props);
                    Step::Taken
                } else {
                    let ended = self.token_props;
                    self.token_props = char_props;
                    Step::Break(pos, ended)
                }
            },
            Action::NoBreak => {
                self.last_was_zwj = matches!(prop, WordBreakProperty::ZWJ);
                if next_state.is_deferred() && !stays {
                    if self.deferred_break_pos.is_none() {
                        self.deferred_break_pos = Some(pos);
                    }
                    BitOrAssign::bitor_assign(&mut self.deferred_props, char_props);
                } else {
                    if self.deferred_break_pos.is_some() {
                        // Word resumed: deferred chars belong to the in-progress token.
                        self.deferred_break_pos = None;
                        let held = self.deferred_props;
                        self.deferred_props = TokenProperties(0);
                        BitOrAssign::bitor_assign(&mut self.token_props, held);
                    }
                    BitOrAssign::bitor_assign(&mut self.token_props, char_props);
                }
                self.state = next_state;
                Step::Taken
            },
            Action::DeferredBreak => {
                self.state = next_state;
                match self.deferred_break_pos {
                    Some(boundary) => {
                        self.deferred_break_pos = None;
                        let ended = self.token_props;
                        // Deferred chars start the next token.
                        self.token_props = self.deferred_props;
                        self.deferred_props = TokenProperties(0);
                        Step::Retry(boundary, ended)
                    },
                    None => Step::Again,
                }
            },
            Action::Transparent => {
                self.last_was_zwj = matches!(prop, WordBreakProperty::ZWJ);
                if self.deferred_break_pos.is_some() {
                    BitOrAssign::bitor_assign(&mut self.deferred_props, char_props);
                } else {
                    BitOrAssign::bitor_assign(&mut self.token_props, char_props);
                }
                Step::Taken
            },
        }
    }

    /// The text ends: the boundary that was waited for, if one was.
    pub fn end_wait(&mut self) -> (report: Option<(usize, TokenProperties)>)
        requires
            old(self).wf(),
        ensures
            old(self).deferred_break_pos is Some <==> report is Some,
            report is None ==> *final(self) == *old(self),
            report is Some ==> report == Some(
                (old(self).deferred_break_pos->0, old(self).token_props),
            ) && *final(self) == (Machine {
                deferred_break_pos: None,
                token_props: old(self).deferred_props,
                deferred_props: TokenProperties(0),
                ..*old(self)
            }),
    {
        match self.deferred_break_pos {
            Some(boundary) => {
                self.deferred_break_pos = None;
                let ended = self.token_props;
                // Deferred chars become the trailing token.
                self.token_props = self.deferred_props;
                self.deferred_props = TokenProperties(0);
                Some((boundary, ended))
            },
            None => None,
        }
    }
}

// ---------------------------------------------------------------------------------------------
// The run over a text
// ---------------------------------------------------------------------------------------------

/// What the automaton remembers.
pub open spec fn memory(m: Machine) -> Mode {
    Mode { state: m.state, zwj: m.last_was_zwj }
}

/// The automaton has taken in the first `k` characters, and the boundaries before `f` have been
/// reported. While it keeps no place for a boundary, `f` is `k`. While it does, it waits to see
/// whether there is a boundary at `f`; there is none between `f` and `k`.
pub open spec fn tracks(m: Machine, cs: Seq<CharInfo>, k: int, f: int) -> bool {
    &&& m.wf()
    &&& 0 <= f <= k <= cs.len()
    &&& memory(m) == mode(cs, k) || (k < cs.len() && memory(m) == settle(mode(cs, k), cs[k]))
    &&& m.token_props.0 == span_bits(cs, last_boundary(cs, f), f)
    &&& m.deferred_break_pos is None ==> f == k
    &&& m.deferred_break_pos matches Some(at) ==> {
        &&& f < k
        &&& at == offset(cs, f)
        &&& m.deferred_props.0 == span_bits(cs, f, k)
        &&& boundary(cs, f) == lapses(cs, k, m.state)
        &&& forall|j: int| f < j < k ==> !#[trigger] boundary(cs, j)
    }
}

/// Where the reports stand after a character was taken in.
pub open spec fn next_front(m: Machine, k: int, f: int) -> int {
    if m.deferred_break_pos is Some {
        f
    } else {
        k + 1
    }
}

/// A character is taken in without a report.
proof fn lemma_taken(m: Machine, cs: Seq<CharInfo>, k: int, f: int, pos: usize)
    requires
        tracks(m, cs, k, f),
        k < cs.len(),
        pos == offset(cs, k),
        ({
            let c = cs[k];
            m.stepped(pos, c.prop, c.pictographic, c.props).1 is Taken
        }),
    ensures
        ({
            let c = cs[k];
            let next = m.stepped(pos, c.prop, c.pictographic, c.props).0;
            let g = next_front(next, k, f);
            tracks(next, cs, k + 1, g) && reports(cs, g) == reports(cs, f)
        }),
{
    let c = cs[k];
    let next = m.stepped(pos, c.prop, c.pictographic, c.props).0;
    let g = next_front(next, k, f);
    assert(mode(cs, k + 1) == advance(mode(cs, k), c));
    assert(memory(next) == mode(cs, k + 1));
    law_automaton_follows_the_standard(cs, k);
    lemma_last_boundary(cs, f);
    lemma_span_one(cs, k);
    assert(m.deferred_props.0 == span_bits(cs, f, k));
    assert(span_bits(cs, f, k + 1) == span_bits(cs, f, k) | c.props.0);
    if next.deferred_break_pos is None {
        assert forall|j: int| f <= j < k + 1 implies !#[trigger] boundary(cs, j) by {}
        lemma_no_boundary(cs, f, k + 1);
        lemma_span_join(cs, last_boundary(cs, f), f, k);
    }
}

/// A character starts a token.
proof fn lemma_break(m: Machine, cs: Seq<CharInfo>, k: int, f: int, pos: usize)
    requires
        tracks(m, cs, k, f),
        k < cs.len(),
        pos == offset(cs, k),
        ({
            let c = cs[k];
            m.stepped(pos, c.prop, c.pictographic, c.props).1 is Break
        }),
    ensures
        ({
            let c = cs[k];
            let (next, step) = m.stepped(pos, c.prop, c.pictographic, c.props);
            &&& f == k
            &&& boundary(cs, k)
            &&& step == Step::Break(report(cs, k).0, report(cs, k).1)
            &&& tracks(next, cs, k + 1, k + 1)
        }),
{
    let c = cs[k];
    let next = m.stepped(pos, c.prop, c.pictographic, c.props).0;
    assert(mode(cs, k + 1) == advance(mode(cs, k), c));
    assert(memory(next) == mode(cs, k + 1));
    law_automaton_follows_the_standard(cs, k);
    lemma_span_one(cs, k);
}

/// The automaton gives up waiting.
proof fn lemma_retry(m: Machine, cs: Seq<CharInfo>, k: int, f: int, pos: usize)
    requires
        tracks(m, cs, k, f),
        k < cs.len(),
        pos == offset(cs, k),
        ({
            let c = cs[k];
            m.stepped(pos, c.prop, c.pictographic, c.props).1 is Retry
        }),
    ensures
        ({
            let c = cs[k];
            let (next, step) = m.stepped(pos, c.prop, c.pictographic, c.props);
            &&& boundary(cs, f)
            &&& step == Step::Retry(report(cs, f).0, report(cs, f).1)
            &&& tracks(next, cs, k, k)
            &&& reports(cs, k) == reports(cs, f + 1)
            &&& m.state.deferred() && !next.state.deferred()
        }),
{
    let c = cs[k];
    let next = m.stepped(pos, c.prop, c.pictographic, c.props).0;
    lemma_no_boundary(cs, f + 1, k);
}

/// The automaton gives up a wait that decides nothing.
proof fn lemma_again(m: Machine, cs: Seq<CharInfo>, k: int, f: int, pos: usize)
    requires
        tracks(m, cs, k, f),
        k < cs.len(),
        ({
            let c = cs[k];
            m.stepped(pos, c.prop, c.pictographic, c.props).1 is Again
        }),
    ensures
        ({
            let c = cs[k];
            let next = m.stepped(pos, c.prop, c.pictographic, c.props).0;
            &&& f == k
            &&& tracks(next, cs, k, k)
            &&& m.state.deferred() && !next.state.deferred()
        }),
{
}

/// The text ends while the automaton waits to see whether a boundary fell.
proof fn lemma_end_of_wait(m: Machine, cs: Seq<CharInfo>, f: int)
    requires
        tracks(m, cs, cs.len() as int, f),
        m.deferred_break_pos is Some,
    ensures
        boundary(cs, f),
        m.deferred_break_pos == Some(report(cs, f).0),
        m.token_props == report(cs, f).1,
        reports(cs, cs.len() as int) == reports(cs, f + 1),
        m.deferred_props.0 == span_bits(
            cs,
            last_boundary(cs, cs.len() as int),
            cs.len() as int,
        ),
{
    lemma_no_boundary(cs, f + 1, cs.len() as int);
}

/// Does a word go on after this state, whatever ASCII word byte follows?
pub open spec fn word_state(s: State) -> bool {
    s is ALetter || s is Numeric || s is ExtendNumLet || s is HLetter
}

/// The automaton after a run of ASCII word bytes.
pub open spec fn after_run(m: Machine, last: u8, bits: u8) -> Machine {
    Machine {
        state: state_alone(ascii_property(last)),
        last_was_zwj: false,
        token_props: TokenProperties(m.token_props.0 | bits),
        ..m
    }
}

/// A run of ASCII word bytes is taken in at once.
proof fn lemma_run(m: Machine, text: Seq<char>, k: int, start: int, end: int)
    requires
        tracks(m, infos(text), k, k),
        word_state(m.state),
        start == char_offset(text, k),
        start < end <= encode_utf8(text).len() <= usize::MAX,
        forall|i: int|
            start <= i < end ==> #[trigger] encode_utf8(text)[i] < 0x80 && word_byte(
                encode_utf8(text)[i],
            ),
    ensures
        k + (end - start) <= text.len(),
        char_offset(text, k + (end - start)) == end,
        tracks(
            after_run(m, encode_utf8(text)[end - 1], run_bits(encode_utf8(text), start, end)),
            infos(text),
            k + (end - start),
            k + (end - start),
        ),
        reports(infos(text), k + (end - start)) == reports(infos(text), k),
    decreases end - start,
{
    let cs = infos(text);
    let bytes = encode_utf8(text);
    let j = k + (end - 1 - start);
    let bits = run_bits(bytes, start, end - 1);
    let now = if start < end - 1 {
        after_run(m, bytes[end - 2], bits)
    } else {
        m
    };
    if start < end - 1 {
        lemma_run(m, text, k, start, end - 1);
        assert(word_byte(bytes[end - 2]));
    }
    lemma_offset_in_text(text, j);
    let b = bytes[end - 1];
    assert(word_byte(b));
    lemma_ascii_byte(text, j);
    let c = cs[j];
    let pos = (end - 1) as usize;
    let next = now.stepped(pos, c.prop, c.pictographic, c.props).0;
    lemma_taken(now, cs, j, j, pos);
    let t = m.token_props.0;
    let p = ascii_token_bits(b);
    lemma_or(t, bits, p);
    lemma_or(p, 0, 0);
    lemma_or(now.token_props.0, 0, 0);
    assert(next.token_props.0 == t | run_bits(bytes, start, end));
}

/// Takes in the character at `pos`, or as many as can be taken in at once. `None`: the listener does
/// not want to hear more.
pub(crate) fn take_in<L: Listener>(
    text: &str,
    pos: usize,
    machine: &mut Machine,
    listener: &mut L,
    Ghost(before): Ghost<L>,
    Ghost(k): Ghost<int>,
    Ghost(f): Ghost<int>,
) -> (next: Option<(usize, Ghost<int>, Ghost<int>)>)
    requires
        takes_all(before, text_breaks(text@)),
        tracks(*old(machine), infos(text@), k, f),
        going_on(before, *old(listener), reports(infos(text@), f)),
        pos == char_offset(text@, k),
        k < text@.len(),
    ensures
        next is None ==> reported(before, *final(listener), text_breaks(text@)),
        next matches Some((at, j, g)) ==> {
            &&& tracks(*final(machine), infos(text@), j@, g@)
            &&& going_on(before, *final(listener), reports(infos(text@), g@))
            &&& at == char_offset(text@, j@)
            &&& k < j@ || (k == j@ && old(machine).state.deferred()
                && !final(machine).state.deferred())
        },
{
    let ghost cs = infos(text@);
    let bytes = text.as_bytes();
    proof {
        lemma_offset_in_text(text@, k);
        lemma_char_bytes(text@, k);
        lemma_offset_in_text(text@, k + 1);
    }
    // Fast path for ASCII: skip the automaton altogether while a word goes on.
    if matches!(
        machine.state,
        State::ALetter | State::Numeric | State::ExtendNumLet | State::HLetter
    ) {
        assert(bytes@.len() == bytes.len());
        let (end, bits) = scan_word(bytes, pos);
        if end > pos {
            proof {
                lemma_run(*machine, text@, k, pos as int, end as int);
            }
            BitOrAssign::bitor_assign(&mut machine.token_props, TokenProperties(bits));
            machine.state = match bytes[end - 1] {
                0x30..=0x39 => State::Numeric,
                0x5f => State::ExtendNumLet,
                _ => State::ALetter,
            };
            machine.last_was_zwj = false;
            let ghost j = k + (end - pos);
            return Some((end, Ghost(j), Ghost(j)));
        }
    }
    let b = bytes[pos];
    let (c, prop, char_len, char_props) = if b < 0x80 {
        proof {
            lemma_ascii_byte(text@, k);
            lemma_byte_as_char(b, text@[k]);
            lemma_byte_info(0, b);
        }
        (
            b as char,
            ascii_word_break_prop(b),
            1usize,
            TokenProperties(ascii_byte_info(b) & !ASCII_WORD_CONTINUE),
        )
    } else {
        let c = char_at(text, pos, Ghost(k));
        let prop = lookup_word_break_property_from_dictionary(c);
        (c, prop, len_utf8(c), non_ascii_char_props(c, prop))
    };
    let pictographic = machine.last_was_zwj && WordBreakProperty::is_ext_pictographic(c);
    assert(c == text@[k]);
    assert(cs[k].prop == prop && cs[k].props == char_props && cs[k].len == char_len);
    let ghost m = *machine;
    match machine.step(pos, prop, pictographic, char_props) {
        Step::Taken => {
            proof {
                lemma_taken(m, cs, k, f, pos);
            }
            let ghost g = next_front(*machine, k, f);
            Some((pos + char_len, Ghost(k + 1), Ghost(g)))
        },
        Step::Break(at, props) => {
            proof {
                lemma_break(m, cs, k, f, pos);
            }
            if !tell(listener, at, props, Ghost(before), Ghost(cs), Ghost(k)) {
                return None;
            }
            Some((pos + char_len, Ghost(k + 1), Ghost(k + 1)))
        },
        Step::Retry(at, props) => {
            proof {
                lemma_retry(m, cs, k, f, pos);
            }
            if !tell(listener, at, props, Ghost(before), Ghost(cs), Ghost(f)) {
                return None;
            }
            Some((pos, Ghost(k), Ghost(k)))
        },
        Step::Again => {
            proof {
                lemma_again(m, cs, k, f, pos);
            }
            Some((pos, Ghost(k), Ghost(k)))
        },
    }
}

/// Reports what is left when all of the text has been taken in.
pub(crate) fn finish<L: Listener>(
    text: &str,
    machine: Machine,
    listener: &mut L,
    Ghost(before): Ghost<L>,
    Ghost(f): Ghost<int>,
)
    requires
        text@.len() > 0,
        takes_all(before, text_breaks(text@)),
        tracks(machine, infos(text@), text@.len() as int, f),
        going_on(before, *old(listener), reports(infos(text@), f)),
    ensures
        reported(before, *final(listener), text_breaks(text@)),
{
    let ghost cs = infos(text@);
    let ghost n = text@.len() as int;
    let bytes = text.as_bytes();
    let mut machine = machine;
    proof {
        lemma_text_end(text@);
        if machine.deferred_break_pos is Some {
            lemma_end_of_wait(machine, cs, f);
        }
    }
    if let Some((at, props)) = machine.end_wait() {
        if !tell(listener, at, props, Ghost(before), Ghost(cs), Ghost(f)) {
            return ;
        }
    }
    tell(listener, bytes.len(), machine.token_props, Ghost(before), Ghost(cs), Ghost(n));
}

/// Reports the word boundaries of a text, each with the properties of the token that ends there, to
/// a listener: in order, each once, until it does not want to hear more.
pub fn tokenize_to<L: Listener>(text: &str, _options: Options, listener: &mut L)
    requires
        takes_all(*old(listener), text_breaks(text@)),
    ensures
        reported(*old(listener), *final(listener), text_breaks(text@)),
{
    let ghost before = *listener;
    proof {
        lemma_going_on_start(before);
    }
    if text.is_empty() {
        return ;
    }
    let ghost cs = infos(text@);
    let bytes = text.as_bytes();
    let ghost mut k: int = 0;
    let ghost mut f: int = 0;
    let mut machine = Machine::new();
    let mut pos: usize = 0;
    proof {
        lemma_offset_in_text(text@, 0);
    }
    while pos < bytes.len()
        invariant
            text@.len() > 0,
            bytes@ == encode_utf8(text@),
            before == *old(listener),
            takes_all(before, text_breaks(text@)),
            cs == infos(text@),
            tracks(machine, cs, k, f),
            going_on(before, *listener, reports(cs, f)),
            pos == char_offset(text@, k),
            k < text@.len() <==> char_offset(text@, k) < encode_utf8(text@).len(),
        decreases
                text@.len() - k,
                if machine.state.deferred() {
                    1int
                } else {
                    0
                },
    {
        match take_in(text, pos, &mut machine, listener, Ghost(before), Ghost(k), Ghost(f)) {
            None => {
                return ;
            },
            Some((at, j, g)) => {
                pos = at;
                proof {
                    k = j@;
                    f = g@;
                    lemma_offset_in_text(text@, k);
                }
            },
        }
    }
    finish(text, machine, listener, Ghost(before), Ghost(f));
}

/// A tokenizer that implements the word boundary rules of Unicode Standard Annex #29 with a
/// deterministic finite automaton. It calls `on_breakpoint` with each boundary, and with the
/// properties of the token that ends there, until it returns `false`.
///
/// `on_breakpoint` need take no more than the boundaries of the text. It is called with these in
/// order, each once, up to the first one on which it answers `false`: [`called`] says so, and
/// [`callable`] gives no leave to call it in any other way. This is [`tokenize_to`] with a
/// listener that passes every report on.
pub fn tokenize(
    text: &str,
    options: Options,
    on_breakpoint: impl FnMut(usize, TokenProperties) -> bool,
)
    requires
        callable(on_breakpoint, text_breaks(text@)),
    ensures
        called(on_breakpoint, text_breaks(text@)),
        exists|answers: Seq<bool>| #[trigger]
            possible_answers(on_breakpoint, text_breaks(text@), answers),
{
    let mut callback = Callback::new(on_breakpoint, Ghost(text_breaks(text@)));
    let ghost before = callback;
    tokenize_to(text, options, &mut callback);
    callback.done(Ghost(before));
}

} // verus!
