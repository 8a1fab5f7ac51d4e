//! The tokenizer for pure ASCII text, which never runs the automaton.

use crate::uax29::word::ascii::{
    ascii_byte_info, ascii_info, law_plain_boundaries_are_local, lemma_ascii_text, lemma_byte_info,
    plain, property_at, ASCII_WORD_CONTINUE,
};
use crate::uax29::word::class::{
    ascii_custom_byte, class_byte, class_of_property, joined_class,
    law_classes_decide_as_properties,
};
use crate::uax29::word::dfa::tokenize_to;
use crate::uax29::word::listener::{
    callable, called, going_on, lemma_going_on_start, possible_answers, reported, takes_all, tell,
    Callback, Listener,
};
use crate::uax29::word::model::{
    boundary, infos, last_boundary, lemma_last_boundary, lemma_span_one, offset, reports,
    span_bits, text_breaks,
};
use crate::uax29::word::properties::{ascii_token_bits, CharInfo};
use crate::uax29::word::token::{Options, TokenProperties};
use vstd::prelude::*;

verus! {

/// The class byte at a position, 0 past the ends.
pub open spec fn class_at(bytes: Seq<u8>, j: int) -> u8 {
    if 0 <= j < bytes.len() {
        class_byte(bytes[j])
    } else {
        0
    }
}

/// In ASCII text the class bytes around a position decide whether there is a boundary.
proof fn lemma_class_boundary(cs: Seq<CharInfo>, bytes: Seq<u8>, k: int)
    requires
        cs.len() == bytes.len(),
        0 < k < cs.len(),
        forall|i: int|
            0 <= i < cs.len() ==> (#[trigger] cs[i] == ascii_info(bytes[i]) && plain(cs[i])),
    ensures
        boundary(cs, k) == !joined_class(
            class_at(bytes, k - 2),
            class_at(bytes, k - 1),
            class_at(bytes, k),
            class_at(bytes, k + 1),
        ),
{
    law_plain_boundaries_are_local(cs, k);
    law_classes_decide_as_properties(
        property_at(cs, k - 2),
        property_at(cs, k - 1),
        property_at(cs, k),
        property_at(cs, k + 1),
    );
    assert forall|j: int| k - 2 <= j <= k + 1 implies class_at(bytes, j) == class_of_property(
        #[trigger] property_at(cs, j),
    ) by {
        if 0 <= j < cs.len() {
            assert(cs[j] == ascii_info(bytes[j]));
        }
    }
}

/// The rules on class bytes, each with its bit shifted down to bit 0.
fn do_not_break(t2: u8, t1: u8, t0: u8, tn: u8) -> (r: u8)
    ensures
        r == if joined_class(t2, t1, t0, tn) {
            1u8
        } else {
            0
        },
{
    let wb6: u8 = t1 & tn & (t0 >> 3);  // letter(i-1) & mid_let(i) & letter(i+1)
    let wb7: u8 = t2 & t0 & (t1 >> 3);  // letter(i-2) & mid_let(i-1) & letter(i)
    let wb12: u8 = (t1 >> 4) & (tn >> 4) & (t0 >> 1);  // numeric x mid_num x numeric
    let wb11: u8 = (t2 >> 4) & (t0 >> 4) & (t1 >> 1);
    let ext: u8 = (t0 >> 2) & (t1 >> 2);  // ALetter|Numeric|ExtendNumLet on both sides
    let crlf: u8 = (t0 >> 6) & (t1 >> 5);  // cr(i-1) & lf(i)
    let wseg: u8 = (t0 >> 7) & (t1 >> 7);  // WSegSpace x WSegSpace
    let r: u8 = (wb6 | wb7 | wb12 | wb11 | ext | crlf | wseg) & 1;
    assert(r == if joined_class(t2, t1, t0, tn) {
        1u8
    } else {
        0
    }) by (bit_vector)
        requires
            wb6 == t1 & tn & (t0 >> 3),
            wb7 == t2 & t0 & (t1 >> 3),
            wb12 == (t1 >> 4) & (tn >> 4) & (t0 >> 1),
            wb11 == (t2 >> 4) & (t0 >> 4) & (t1 >> 1),
            ext == (t0 >> 2) & (t1 >> 2),
            crlf == (t0 >> 6) & (t1 >> 5),
            wseg == (t0 >> 7) & (t1 >> 7),
            r == (wb6 | wb7 | wb12 | wb11 | ext | crlf | wseg) & 1,
    ;
    r
}

/// What the byte at `j` says about the token it is in.
fn char_props(bytes: &[u8], j: usize) -> (props: u8)
    requires
        j < bytes@.len(),
    ensures
        props == ascii_token_bits(bytes@[j as int]),
{
    proof {
        lemma_byte_info(0, bytes@[j as int]);
    }
    ascii_byte_info(bytes[j]) & !ASCII_WORD_CONTINUE
}

/// The class byte at `j`, 0 past the end.
fn tok(bytes: &[u8], j: usize) -> (class: u8)
    ensures
        class == class_at(bytes@, j as int),
{
    if j < bytes.len() {
        ascii_custom_byte(bytes[j])
    } else {
        0
    }
}

/// Reports the word boundaries of a text, as [`tokenize_to`] does.
pub fn tokenize_ascii_to<L: Listener>(text: &str, options: Options, listener: &mut L)
    requires
        takes_all(*old(listener), text_breaks(text@)),
    ensures
        reported(*old(listener), *final(listener), text_breaks(text@)),
{
    let ghost before = *listener;
    proof {
        lemma_going_on_start(before);
    }
    if text.is_empty() {
        return ;
    }
    if !text.is_ascii() {
        tokenize_to(text, options, listener);
        return ;
    }
    let bytes = text.as_bytes();
    let n: usize = bytes.len();
    let ghost cs = infos(text@);
    proof {
        lemma_ascii_text(text@);
        lemma_span_one(cs, 0);
    }
    // WB1: the start of the text divides, with no token before it.
    if !tell(listener, 0, TokenProperties(0), Ghost(before), Ghost(cs), Ghost(0)) {
        return ;
    }
    let mut props: u8 = char_props(bytes, 0);
    // Sliding window of class bytes: t2 = i-2, t1 = i-1, t0 = i, tn = i+1.
    let mut t2: u8 = 0;
    let mut t1: u8 = tok(bytes, 0);
    let mut t0: u8 = tok(bytes, 1);
    let mut tn: u8 = tok(bytes, 2);
    let mut i: usize = 1;
    while i < n
        invariant
            1 <= i <= n,
            n == bytes@.len() == cs.len(),
            cs == infos(text@),
            before == *old(listener),
            takes_all(before, text_breaks(text@)),
            forall|j: int|
                0 <= j < cs.len() ==> (#[trigger] cs[j] == ascii_info(bytes@[j]) && plain(cs[j])),
            forall|j: int| 0 <= j <= cs.len() ==> #[trigger] offset(cs, j) == j,
            going_on(before, *listener, reports(cs, i as int)),
            props == span_bits(cs, last_boundary(cs, i as int), i as int),
            t2 == class_at(bytes@, i - 2),
            t1 == class_at(bytes@, i - 1),
            t0 == class_at(bytes@, i as int),
            tn == class_at(bytes@, i + 1),
        decreases n - i,
    {
        proof {
            lemma_class_boundary(cs, bytes@, i as int);
            lemma_last_boundary(cs, i as int);
            lemma_span_one(cs, i as int);
            assert(cs[i as int] == ascii_info(bytes@[i as int]));
        }
        if do_not_break(t2, t1, t0, tn) == 0 {
            if !tell(
                listener,
                i,
                TokenProperties(props),
                Ghost(before),
                Ghost(cs),
                Ghost(i as int),
            ) {
                return ;
            }
            props = 0;
            assert(span_bits(cs, i as int, i as int) == 0);
        }
        props = props | char_props(bytes, i);
        t2 = t1;
        t1 = t0;
        t0 = tn;
        tn = if n - i > 2 {
            tok(bytes, i + 2)
        } else {
            0
        };
        i = i + 1;
    }
    // WB2: the end of the text divides.
    tell(listener, n, TokenProperties(props), Ghost(before), Ghost(cs), Ghost(n as int));
}

/// A tokenizer for pure ASCII input that never runs the automaton.
///
/// Instead of going from state to state it evaluates the break rules directly as boolean predicates
/// over a sliding window of four class bytes. Every position's decision depends only on the four
/// class bytes around it, so no decision has to wait for the one before it.
///
/// Falls back to [`tokenize`](crate::uax29::word::dfa::tokenize) if the input is not entirely ASCII.
///
/// `on_breakpoint` need take no more than the boundaries of the text. It is called with these in
/// order, each once, up to the first one on which it answers `false`: [`called`] says so, and
/// [`callable`] gives no leave to call it in any other way. This is [`tokenize_ascii_to`] with a
/// listener that passes every report on.
pub fn tokenize_ascii(
    text: &str,
    options: Options,
    on_breakpoint: impl FnMut(usize, TokenProperties) -> bool,
)
    requires
        callable(on_breakpoint, text_breaks(text@)),
    ensures
        called(on_breakpoint, text_breaks(text@)),
        exists|answers: Seq<bool>| #[trigger]
            possible_answers(on_breakpoint, text_breaks(text@), answers),
{
    let mut callback = Callback::new(on_breakpoint, Ghost(text_breaks(text@)));
    let ghost before = callback;
    tokenize_ascii_to(text, options, &mut callback);
    callback.done(Ghost(before));
}

} // verus!
