//! The tokenizer that decides whole windows of ASCII at once and runs the automaton in between.

use crate::uax29::word::ascii::{
    ascii_byte_info, ascii_info, law_plain_boundaries_are_local, lemma_ascii_info,
    lemma_ascii_text,
    law_two_plain_characters_fix_the_state, lemma_byte_info, plain, property_at, state_after_two,
    ASCII_WORD_CONTINUE,
};
use crate::uax29::word::automaton::{
    advance, lapses, law_automaton_follows_the_standard, mode, opens, settle,
};
use crate::uax29::word::class::law_classes_decide_as_properties;
use crate::uax29::word::dfa::{finish, take_in, tracks, Machine};
use crate::uax29::word::listener::{
    callable, called, going_on, lemma_going_on_start, possible_answers, reported, takes_all, tell,
    Callback, Listener,
};
use crate::uax29::word::model::{
    boundary, infos, last_boundary, lemma_last_boundary, lemma_no_boundary, lemma_span_join,
    lemma_span_one, offset, reports, span_bits, text_breaks,
};
use crate::uax29::word::neon::Neon32;
use crate::uax29::word::properties::{
    ascii_property, ascii_token_bits, ascii_word_break_prop, CharInfo,
};
use crate::uax29::word::text::{
    char_offset, lemma_ascii_byte, lemma_ascii_byte_before, lemma_offset_in_text,
};
use crate::uax29::word::token::{
    lemma_masks, lemma_or, Options, TokenProperties, HAS_ASCII_UPPER_MASK, WORD_LIKE_MASK,
};
use crate::uax29::word::transitions::{table, transition, State};
use crate::uax29::word::window::{
    ascii_window, breaks_at, decides, lane, WindowProcessor, WindowTokens,
};
use vstd::prelude::*;
use vstd::std_specs::bits::{axiom_u32_trailing_zeros, u32_trailing_zeros};
use vstd::utf8::{encode_utf8, is_ascii_chars};

verus! {

// ---------------------------------------------------------------------------------------------
// A window and the characters in it
// ---------------------------------------------------------------------------------------------

/// The characters from the `k`-th on are the bytes from `pos` on, `count` of them, all ASCII.
spec fn aligned(text: Seq<char>, k: int, pos: int, count: int) -> bool {
    &&& 0 <= k
    &&& k + count <= text.len()
    &&& forall|i: int|
        0 <= i < count ==> infos(text)[k + i] == ascii_info(#[trigger] encode_utf8(text)[pos + i])
    &&& forall|i: int| 0 <= i <= count ==> #[trigger] char_offset(text, k + i) == pos + i
}

proof fn lemma_aligned(text: Seq<char>, k: int, pos: int, count: int)
    requires
        0 <= k <= text.len(),
        char_offset(text, k) == pos,
        0 <= count,
        pos + count <= encode_utf8(text).len(),
        forall|j: int| pos <= j < pos + count ==> #[trigger] encode_utf8(text)[j] < 0x80,
    ensures
        aligned(text, k, pos, count),
    decreases count,
{
    if count > 0 {
        lemma_aligned(text, k, pos, count - 1);
        let j = k + count - 1;
        assert(char_offset(text, k + (count - 1)) == pos + (count - 1));
        lemma_offset_in_text(text, j);
        assert(encode_utf8(text)[pos + count - 1] < 0x80);
        lemma_ascii_byte(text, j);
        lemma_ascii_info(text[j]);
    }
}

/// The two characters before a window of ASCII, the window and the character behind it.
proof fn lemma_window_aligned(text: Seq<char>, k: int, pos: int, width: int)
    requires
        0 <= k <= text.len(),
        char_offset(text, k) == pos,
        2 <= pos,
        0 <= width,
        pos + width < encode_utf8(text).len(),
        ascii_window(encode_utf8(text), pos, width),
    ensures
        2 <= k,
        aligned(text, k - 2, pos - 2, width + 3),
        forall|i: int| 0 <= i < width ==> #[trigger] boundary(infos(text), k + i) == breaks_at(
            encode_utf8(text),
            pos + i,
        ),
{
    let cs = infos(text);
    let bytes = encode_utf8(text);
    assert(bytes[pos - 1] < 0x80);
    lemma_ascii_byte_before(text, k);
    assert(bytes[pos - 2] < 0x80);
    lemma_ascii_byte_before(text, k - 1);
    lemma_aligned(text, k - 2, pos - 2, width + 3);
    assert forall|i: int| 0 <= i < width implies #[trigger] boundary(cs, k + i) == breaks_at(
        bytes,
        pos + i,
    ) by {
        let j = k + i;
        assert forall|x: int| j - 2 <= x <= j + 1 implies plain(#[trigger] cs[x]) && x < cs.len()
            && cs[x] == ascii_info(bytes[pos + (x - k)]) by {
            let y = x - (k - 2);
            assert(cs[(k - 2) + y] == ascii_info(bytes[(pos - 2) + y]));
            lemma_plain_byte(bytes[(pos - 2) + y]);
        }
        law_plain_boundaries_are_local(cs, j);
        law_classes_decide_as_properties(
            property_at(cs, j - 2),
            property_at(cs, j - 1),
            property_at(cs, j),
            property_at(cs, j + 1),
        );
        assert(cs[j - 2] == ascii_info(bytes[pos + i - 2]));
        assert(cs[j - 1] == ascii_info(bytes[pos + i - 1]));
        assert(cs[j] == ascii_info(bytes[pos + i]));
        assert(cs[j + 1] == ascii_info(bytes[pos + i + 1]));
    }
}

/// In a window of ASCII, the rules on bytes find the boundaries of the text: those that every
/// tokenizer reports.
pub proof fn law_window_breaks_are_boundaries(
    text: Seq<char>,
    k: int,
    pos: int,
    width: int,
    i: int,
)
    requires
        0 <= k <= text.len(),
        char_offset(text, k) == pos,
        2 <= pos,
        pos + width < encode_utf8(text).len(),
        ascii_window(encode_utf8(text), pos, width),
        0 <= i < width,
    ensures
        k + i < text.len(),
        char_offset(text, k + i) == pos + i,
        breaks_at(encode_utf8(text), pos + i) == boundary(infos(text), k + i),
{
    lemma_window_aligned(text, k, pos, width);
    assert(boundary(infos(text), k + i) == breaks_at(encode_utf8(text), pos + i));
    assert(char_offset(text, (k - 2) + (i + 2)) == (pos - 2) + (i + 2));
}

/// ASCII text is one window: every processor decides every part of it.
pub proof fn law_ascii_text_is_a_window(text: Seq<char>, pos: int, width: int)
    requires
        is_ascii_chars(text),
        2 <= pos,
        0 <= width,
        pos + width < encode_utf8(text).len(),
    ensures
        ascii_window(encode_utf8(text), pos, width),
        forall|j: int|
            pos <= j < pos + width ==> #[trigger] breaks_at(encode_utf8(text), j) == boundary(
                infos(text),
                j,
            ),
{
    lemma_ascii_text(text);
    assert forall|j: int| pos - 2 <= j <= pos + width implies #[trigger] encode_utf8(text)[j]
        < 0x80 by {
        assert(infos(text)[j] == ascii_info(encode_utf8(text)[j]));
    }
    lemma_offset_in_text(text, pos);
    assert(offset(infos(text), pos) == pos);
    assert forall|j: int| pos <= j < pos + width implies #[trigger] breaks_at(
        encode_utf8(text),
        j,
    ) == boundary(infos(text), j) by {
        law_window_breaks_are_boundaries(text, pos, pos, width, j - pos);
    }
}

proof fn lemma_plain_byte(b: u8)
    ensures
        plain(ascii_info(b)),
{
}

// ---------------------------------------------------------------------------------------------
// Token properties from masks
// ---------------------------------------------------------------------------------------------

/// What the bytes of a window from `start` up to `end` say about the token they are in.
spec fn mask_bits(w: WindowTokens, start: u32, end: u32) -> u8 {
    let mask = ((1u32 << end) - (1u32 << start)) as u32;
    (if w.word_like & mask != 0 {
        WORD_LIKE_MASK
    } else {
        0
    }) | (if w.ascii_upper & mask != 0 {
        HAS_ASCII_UPPER_MASK
    } else {
        0
    })
}

proof fn lemma_mask_step(m: u32, start: u32, end: u32)
    by (bit_vector)
    requires
        start <= end < 31,
    ensures
        (1u32 << start) <= (1u32 << end),
        m & (((1u32 << start) - (1u32 << start)) as u32) == 0,
        (m & (((1u32 << ((end + 1) as u32)) - (1u32 << start)) as u32) != 0) == ((m & (((1u32
            << end) - (1u32 << start)) as u32) != 0) || lane(m, end)),
{
}

proof fn lemma_mask_bits(
    w: WindowTokens,
    cs: Seq<CharInfo>,
    bytes: Seq<u8>,
    k: int,
    pos: int,
    width: int,
    start: u32,
    end: u32,
)
    requires
        start <= end <= width,
        0 <= width < 31,
        decides(w, bytes, pos, width),
        forall|i: int| 0 <= i < width ==> cs[k + i] == ascii_info(#[trigger] bytes[pos + i]),
    ensures
        mask_bits(w, start, end) == span_bits(cs, k + start, k + end),
    decreases end,
{
    if start == end {
        lemma_mask_step(w.word_like, start, end);
        lemma_mask_step(w.ascii_upper, start, end);
        lemma_or(0, 0, 0);
    } else {
        let e = (end - 1) as u32;
        lemma_mask_bits(w, cs, bytes, k, pos, width, start, e);
        lemma_mask_step(w.word_like, start, e);
        lemma_mask_step(w.ascii_upper, start, e);
        let t = ascii_token_bits(bytes[pos + e]);
        assert(cs[k + e] == ascii_info(bytes[pos + e]));
        let wl = lane(w.word_like, e);
        let up = lane(w.ascii_upper, e);
        let a = mask_bits(w, start, e);
        let c = mask_bits(w, start, end);
        let mask = ((1u32 << e) - (1u32 << start)) as u32;
        let wl0 = w.word_like & mask != 0;
        let up0 = w.ascii_upper & mask != 0;
        lemma_masks();
        assert(c == a | t) by (bit_vector)
            requires
                t == 0 || t == 1 || t == 5,
                wl == (t & 1u8 != 0),
                up == (t & 4u8 != 0),
                a == (if wl0 {
                    1u8
                } else {
                    0
                }) | (if up0 {
                    4u8
                } else {
                    0
                }),
                c == (if wl0 || wl {
                    1u8
                } else {
                    0
                }) | (if up0 || up {
                    4u8
                } else {
                    0
                }),
        ;
    }
}

/// What the bytes of a window from `start` up to `end` say about the token they are in.
fn window_props(w: &WindowTokens, start: u32, end: u32) -> (bits: u8)
    requires
        start <= end < 31,
    ensures
        bits == mask_bits(*w, start, end),
{
    proof {
        lemma_mask_step(w.word_like, start, end);
    }
    let prop_mask: u32 = (1u32 << end) - (1u32 << start);
    let word_like: u8 = if w.word_like & prop_mask != 0 {
        WORD_LIKE_MASK
    } else {
        0
    };
    let ascii_upper: u8 = if w.ascii_upper & prop_mask != 0 {
        HAS_ASCII_UPPER_MASK
    } else {
        0
    };
    word_like | ascii_upper
}

// ---------------------------------------------------------------------------------------------
// The boundaries of a window
// ---------------------------------------------------------------------------------------------

/// Drops the lowest bit.
proof fn lemma_drop_lowest(m: u32, low: u32)
    by (bit_vector)
    requires
        m != 0,
        low < 32,
        lane(m, low),
        m << ((32 - low) as u32) == 0,
    ensures
        forall|j: u32| j < 32 ==> #[trigger] lane(m & ((m - 1) as u32), j) == (j > low && lane(m, j)),
        m & ((m - 1) as u32) < m,
{
}

proof fn lemma_trailing_zeros(m: u32)
    requires
        m != 0,
    ensures
        u32_trailing_zeros(m) < 32,
        lane(m, u32_trailing_zeros(m)),
        m << ((32 - u32_trailing_zeros(m)) as u32) == 0,
        forall|j: u32| j < u32_trailing_zeros(m) ==> !#[trigger] lane(m, j),
{
    axiom_u32_trailing_zeros(m);
}

proof fn lemma_zero_mask(m: u32)
    by (bit_vector)
    ensures
        m == 0 ==> forall|j: u32| j < 32 ==> !#[trigger] lane(m, j),
{
}

/// Reports the boundaries of a decided window. Gives the properties of the token that is unfinished
/// at its end, and the last boundary in it; `None`: the listener does not want to hear more.
fn report_window<L: Listener>(
    w: &WindowTokens,
    width: u32,
    pos: usize,
    carried: TokenProperties,
    listener: &mut L,
    Ghost(before): Ghost<L>,
    Ghost(text): Ghost<Seq<char>>,
    Ghost(k): Ghost<int>,
) -> (rest: Option<(TokenProperties, Option<usize>)>)
    requires
        1 <= width <= 29,
        0 <= k,
        k + width <= text.len(),
        pos + width <= usize::MAX,
        takes_all(before, text_breaks(text)),
        decides(*w, encode_utf8(text), pos as int, width as int),
        forall|i: int| 0 <= i <= width ==> #[trigger] char_offset(text, k + i) == pos + i,
        forall|i: int|
            0 <= i < width ==> infos(text)[k + i] == ascii_info(
                #[trigger] encode_utf8(text)[pos + i],
            ),
        forall|i: int|
            0 <= i < width ==> #[trigger] boundary(infos(text), k + i) == breaks_at(
                encode_utf8(text),
                pos + i,
            ),
        carried.0 == span_bits(infos(text), last_boundary(infos(text), k), k),
        going_on(before, *old(listener), reports(infos(text), k)),
    ensures
        rest is None ==> reported(before, *final(listener), text_breaks(text)),
        rest matches Some((props, last)) ==> {
            &&& going_on(before, *final(listener), reports(infos(text), k + width))
            &&& props.0 == span_bits(
                infos(text),
                last_boundary(infos(text), k + width),
                k + width,
            )
            &&& (last == Some((pos + width - 1) as usize)) == boundary(
                infos(text),
                k + width - 1,
            )
        },
{
    let ghost cs = infos(text);
    let ghost bytes = encode_utf8(text);
    let mut breaks: u32 = w.breaks;
    let mut start: u32 = 0;
    let mut props: u8 = carried.0;
    let mut last: Option<usize> = None;
    // The bytes before this one are settled.
    let ghost mut done: int = 0;
    proof {
        lemma_last_boundary(cs, k);
    }
    while breaks != 0
        invariant
            1 <= width <= 29,
            0 <= k,
            k + width <= text.len(),
            pos + width <= usize::MAX,
            takes_all(before, text_breaks(text)),
            cs == infos(text),
            bytes == encode_utf8(text),
            decides(*w, bytes, pos as int, width as int),
            forall|i: int| 0 <= i <= width ==> #[trigger] char_offset(text, k + i) == pos + i,
            forall|i: int|
                0 <= i < width ==> cs[k + i] == ascii_info(#[trigger] bytes[pos + i]),
            forall|i: int|
                0 <= i < width ==> #[trigger] boundary(cs, k + i) == breaks_at(bytes, pos + i),
            0 <= start <= done <= width,
            forall|j: u32| j < 32 ==> #[trigger] lane(breaks, j) == (j >= done && lane(w.breaks, j)),
            going_on(before, *listener, reports(cs, k + done)),
            0 <= last_boundary(cs, k) <= k,
            done == 0 ==> start == 0 && props == span_bits(cs, last_boundary(cs, k), k) && last
                is None,
            done > 0 ==> done == start + 1 && props == 0 && last_boundary(cs, k + done) == k + start
                && last == Some((pos + start) as usize) && boundary(cs, k + start),
        decreases breaks,
    {
        let next_break: u32 = breaks.trailing_zeros();
        let bits: u8 = {
            proof {
                lemma_trailing_zeros(breaks);
                lemma_drop_lowest(breaks, next_break);
                assert(lane(breaks, next_break));
                assert(lane(w.breaks, next_break));
            }
            window_props(w, start, next_break)
        };
        proof {
            assert forall|j: u32| done <= j < next_break implies !#[trigger] lane(w.breaks, j) by {
                assert(!lane(breaks, j));
            }
            lemma_settled(*w, text, k, pos as int, width as int, done, next_break as int);
            lemma_mask_bits(*w, cs, bytes, k, pos as int, width as int, start, next_break);
            lemma_span_join(cs, last_boundary(cs, k), k, k + next_break);
            lemma_or(bits, 0, 0);
            assert(char_offset(text, k + next_break) == pos + next_break);
            assert(boundary(cs, k + next_break));
        }
        if !tell(
            listener,
            pos + next_break as usize,
            TokenProperties(props | bits),
            Ghost(before),
            Ghost(cs),
            Ghost(k + next_break),
        ) {
            return None;
        }
        props = 0;
        start = next_break;
        last = Some(pos + next_break as usize);
        breaks = breaks & (breaks - 1);
        proof {
            done = next_break + 1;
        }
    }
    let bits: u8 = window_props(w, start, width);
    proof {
        lemma_zero_mask(breaks);
        assert forall|j: u32| done <= j < width implies !#[trigger] lane(w.breaks, j) by {
            assert(!lane(breaks, j));
        }
        lemma_settled(*w, text, k, pos as int, width as int, done, width as int);
        lemma_mask_bits(*w, cs, bytes, k, pos as int, width as int, start, width);
        lemma_span_join(cs, last_boundary(cs, k), k, k + width);
        lemma_or(bits, 0, 0);
        if done < width {
            assert(!boundary(cs, k + (width - 1)));
        }
    }
    Some((TokenProperties(props | bits), last))
}

/// No boundary falls on bytes whose bits are not set.
proof fn lemma_settled(
    w: WindowTokens,
    text: Seq<char>,
    k: int,
    pos: int,
    width: int,
    done: int,
    end: int,
)
    requires
        0 <= k,
        0 <= done <= end <= width <= 29,
        decides(w, encode_utf8(text), pos, width),
        forall|i: int|
            0 <= i < width ==> #[trigger] boundary(infos(text), k + i) == breaks_at(
                encode_utf8(text),
                pos + i,
            ),
        forall|j: u32| done <= j < end ==> !#[trigger] lane(w.breaks, j),
    ensures
        reports(infos(text), k + end) == reports(infos(text), k + done),
        last_boundary(infos(text), k + end) == last_boundary(infos(text), k + done),
        forall|i: int| done <= i < end ==> !#[trigger] boundary(infos(text), k + i),
{
    let cs = infos(text);
    assert forall|i: int| done <= i < end implies !#[trigger] boundary(cs, k + i) by {
        assert(!lane(w.breaks, i as u32));
    }
    assert forall|j: int| k + done <= j < k + end implies !#[trigger] boundary(cs, j) by {
        assert(!boundary(cs, k + (j - k)));
    }
    lemma_no_boundary(cs, k + done, k + end);
}

// ---------------------------------------------------------------------------------------------
// From windows back to the automaton
// ---------------------------------------------------------------------------------------------

/// The automaton behind a window that ends at `pos`, where `m` knows the properties of the current
/// token. `broke`: a boundary was found before the last byte of the window.
spec fn resumed(m: Machine, bytes: Seq<u8>, pos: int, broke: bool) -> Machine {
    let s = state_after_two(ascii_property(bytes[pos - 2]), ascii_property(bytes[pos - 1]));
    if !s.deferred() {
        Machine { state: s, ..m }
    } else if broke {
        Machine { state: table(s, ascii_property(bytes[pos])).0, ..m }
    } else {
        Machine {
            state: s,
            deferred_break_pos: Some((pos - 1) as usize),
            deferred_props: TokenProperties(ascii_token_bits(bytes[pos - 1])),
            ..m
        }
    }
}

/// Sets the automaton to where it would be behind a window that ends at `pos`.
fn resume(machine: &mut Machine, bytes: &[u8], pos: usize, broke: bool)
    requires
        2 <= pos < bytes@.len(),
    ensures
        *final(machine) == resumed(*old(machine), bytes@, pos as int, broke),
{
    proof {
        lemma_byte_info(0, bytes@[pos - 1]);
        lemma_plain_byte(bytes@[pos - 2]);
    }
    let previous_state = transition(State::Any, ascii_word_break_prop(bytes[pos - 2])).0;
    let state = transition(previous_state, ascii_word_break_prop(bytes[pos - 1])).0;
    machine.state = state;
    if state.is_deferred() {
        if broke {
            // This wait is over already: its boundary has been reported.
            machine.state = transition(state, ascii_word_break_prop(bytes[pos])).0;
        } else {
            machine.deferred_break_pos = Some(pos - 1);
            machine.deferred_props = TokenProperties(
                ascii_byte_info(bytes[pos - 1]) & !ASCII_WORD_CONTINUE,
            );
        }
    }
}

/// Where the reports stand behind a window.
spec fn resumed_front(m: Machine, k: int) -> int {
    if m.deferred_break_pos is Some {
        k - 1
    } else {
        k
    }
}

proof fn lemma_resumed(m: Machine, text: Seq<char>, k: int, pos: int, broke: bool)
    requires
        m.deferred_break_pos is None,
        m.deferred_props.0 == 0,
        !m.last_was_zwj,
        2 <= k < text.len(),
        aligned(text, k - 2, pos - 2, 3),
        2 <= pos <= usize::MAX,
        m.token_props.0 == span_bits(infos(text), last_boundary(infos(text), k), k),
        broke == boundary(infos(text), k - 1),
    ensures
        ({
            let next = resumed(m, encode_utf8(text), pos, broke);
            let f = resumed_front(next, k);
            tracks(next, infos(text), k, f) && reports(infos(text), f) == reports(infos(text), k)
        }),
{
    let cs = infos(text);
    let bytes = encode_utf8(text);
    assert(cs[(k - 2) + 0] == ascii_info(bytes[(pos - 2) + 0]));
    assert(cs[(k - 2) + 1] == ascii_info(bytes[(pos - 2) + 1]));
    assert(cs[(k - 2) + 2] == ascii_info(bytes[(pos - 2) + 2]));
    assert(char_offset(text, (k - 2) + 1) == (pos - 2) + 1);
    lemma_plain_byte(bytes[pos - 2]);
    lemma_plain_byte(bytes[pos - 1]);
    lemma_plain_byte(bytes[pos]);
    law_two_plain_characters_fix_the_state(cs, k);
    let s = mode(cs, k).state;
    if s.deferred() {
        let c = cs[k - 1];
        assert(mode(cs, k) == advance(mode(cs, k - 1), c));
        let before = settle(mode(cs, k - 1), c);
        let t = table(before.state, c.prop);
        assert(t.1 is NoBreak && t.0 == s);
        assert(opens(cs, k - 1) == lapses(cs, k, s));
        law_automaton_follows_the_standard(cs, k - 1);
        assert(c.props.0 == 0);
        lemma_last_boundary(cs, k - 1);
        lemma_span_one(cs, k - 1);
        lemma_or(span_bits(cs, last_boundary(cs, k - 1), k - 1), 0, 0);
    }
}

/// Decides windows from `pos` on, as long as they are ASCII, and reports their boundaries. `None`:
/// the listener does not want to hear more.
fn run_windows<P: WindowProcessor, L: Listener>(
    text: &str,
    pos: usize,
    processor: &mut P,
    machine: &mut Machine,
    listener: &mut L,
    Ghost(before): Ghost<L>,
    Ghost(k): Ghost<int>,
) -> (next: Option<(usize, Ghost<int>, Ghost<int>)>)
    requires
        2 <= P::MIN_POS <= pos,
        1 <= P::WINDOW_SIZE <= 29,
        old(processor).wf(encode_utf8(text@)),
        takes_all(before, text_breaks(text@)),
        old(machine).deferred_break_pos is None,
        !old(machine).last_was_zwj,
        tracks(*old(machine), infos(text@), k, k),
        going_on(before, *old(listener), reports(infos(text@), k)),
        pos == char_offset(text@, k),
        k < text@.len(),
    ensures
        final(processor).wf(encode_utf8(text@)),
        next is None ==> reported(before, *final(listener), text_breaks(text@)),
        next matches Some((at, j, f)) ==> {
            &&& tracks(*final(machine), infos(text@), j@, f@)
            &&& going_on(before, *final(listener), reports(infos(text@), f@))
            &&& at == char_offset(text@, j@)
            &&& j@ < text@.len()
            &&& k < j@ || (k == j@ && *final(machine) == *old(machine))
        },
{
    let bytes = text.as_bytes();
    let ghost cs = infos(text@);
    let ghost mut j: int = k;
    let mut at: usize = pos;
    let mut props: TokenProperties = machine.token_props;
    let mut last_break: Option<usize> = None;
    proof {
        lemma_offset_in_text(text@, k);
    }
    while bytes.len() - at > P::WINDOW_SIZE + 3
        invariant
            2 <= P::MIN_POS <= pos <= at < bytes@.len(),
            1 <= P::WINDOW_SIZE <= 29,
            bytes@ == encode_utf8(text@),
            cs == infos(text@),
            processor.wf(bytes@),
            takes_all(before, text_breaks(text@)),
            k <= j < text@.len(),
            at == char_offset(text@, j),
            props.0 == span_bits(cs, last_boundary(cs, j), j),
            going_on(before, *listener, reports(cs, j)),
            k == j <==> at == pos,
            k == j ==> props == machine.token_props,
            k < j ==> {
                &&& 2 <= j
                &&& aligned(text@, j - 2, at - 2, 3)
                &&& (last_break == Some((at - 1) as usize)) == boundary(cs, j - 1)
            },
        decreases bytes@.len() - at,
    {
        match processor.process(bytes, at) {
            None => {
                break;
            },
            Some(w) => {
                let ghost width = P::WINDOW_SIZE as int;
                proof {
                    lemma_window_aligned(text@, j, at as int, width);
                    assert forall|i: int| 0 <= i < width implies cs[j + i] == ascii_info(
                        #[trigger] bytes@[at + i],
                    ) by {
                        assert(cs[(j - 2) + (i + 2)] == ascii_info(bytes@[(at - 2) + (i + 2)]));
                    }
                    assert forall|i: int| 0 <= i <= width implies #[trigger] char_offset(
                        text@,
                        j + i,
                    ) == at + i by {
                        assert(char_offset(text@, (j - 2) + (i + 2)) == (at - 2) + (i + 2));
                    }
                }
                match report_window(
                    &w,
                    P::WINDOW_SIZE as u32,
                    at,
                    props,
                    listener,
                    Ghost(before),
                    Ghost(text@),
                    Ghost(j),
                ) {
                    None => {
                        return None;
                    },
                    Some((rest, last)) => {
                        props = rest;
                        last_break = last;
                        proof {
                            assert(aligned(text@, j + width - 2, at + width - 2, 3)) by {
                                lemma_aligned_part(
                                    text@,
                                    j - 2,
                                    at - 2,
                                    width + 3,
                                    width,
                                    3,
                                );
                            }
                            j = j + width;
                        }
                        at = at + P::WINDOW_SIZE;
                    },
                }
            },
        }
    }
    let ghost mut f: int = j;
    if at > pos {
        machine.token_props = props;
        proof {
            lemma_resumed(
                *machine,
                text@,
                j,
                at as int,
                last_break == Some((at - 1) as usize),
            );
        }
        let broke = match last_break {
            Some(last) => last == at - 1,
            None => false,
        };
        resume(machine, bytes, at, broke);
        proof {
            f = resumed_front(*machine, j);
        }
    }
    Some((at, Ghost(j), Ghost(f)))
}

proof fn lemma_aligned_part(text: Seq<char>, k: int, pos: int, count: int, from: int, len: int)
    requires
        aligned(text, k, pos, count),
        0 <= from,
        0 <= len,
        from + len <= count,
    ensures
        aligned(text, k + from, pos + from, len),
{
    assert forall|i: int| 0 <= i < len implies infos(text)[(k + from) + i] == ascii_info(
        #[trigger] encode_utf8(text)[(pos + from) + i],
    ) by {
        assert(infos(text)[k + (from + i)] == ascii_info(encode_utf8(text)[pos + (from + i)]));
    }
    assert forall|i: int| 0 <= i <= len implies #[trigger] char_offset(text, (k + from) + i) == (pos
        + from) + i by {
        assert(char_offset(text, k + (from + i)) == pos + (from + i));
    }
}

/// Reports the word boundaries of a text, as [`tokenize_to`](crate::uax29::word::dfa::tokenize_to)
/// does.
pub fn tokenize_windowed_to<P: WindowProcessor, L: Listener>(
    text: &str,
    _options: Options,
    listener: &mut L,
)
    requires
        takes_all(*old(listener), text_breaks(text@)),
    ensures
        reported(*old(listener), *final(listener), text_breaks(text@)),
{
    let ghost before = *listener;
    proof {
        lemma_going_on_start(before);
    }
    if text.is_empty() {
        return ;
    }
    let ghost cs = infos(text@);
    let bytes = text.as_bytes();
    let ghost mut k: int = 0;
    let ghost mut f: int = 0;
    let mut machine = Machine::new();
    let mut pos: usize = 0;
    let mut processor = P::new();
    proof {
        P::sizes();
        lemma_offset_in_text(text@, 0);
    }
    while pos < bytes.len()
        invariant
            2 <= P::MIN_POS,
            1 <= P::WINDOW_SIZE <= 29,
            text@.len() > 0,
            bytes@ == encode_utf8(text@),
            before == *old(listener),
            takes_all(before, text_breaks(text@)),
            cs == infos(text@),
            processor.wf(bytes@),
            tracks(machine, cs, k, f),
            going_on(before, *listener, reports(cs, f)),
            pos == char_offset(text@, k),
            k < text@.len() <==> char_offset(text@, k) < encode_utf8(text@).len(),
        decreases
                text@.len() - k,
                if machine.state.deferred() {
                    1int
                } else {
                    0
                },
    {
        // Whole windows of ASCII are decided without the automaton. They are only entered where it
        // keeps no place for a boundary, and behind two ASCII bytes, which are all that it would
        // remember.
        if pos >= P::MIN_POS && bytes.len() - pos > P::WINDOW_SIZE + 3
            && machine.deferred_break_pos.is_none() && !machine.last_was_zwj && bytes[pos - 1]
            < 0x80 && bytes[pos - 2] < 0x80 {
            match run_windows(
                text,
                pos,
                &mut processor,
                &mut machine,
                listener,
                Ghost(before),
                Ghost(k),
            ) {
                None => {
                    return ;
                },
                Some((at, j, g)) => {
                    pos = at;
                    proof {
                        k = j@;
                        f = g@;
                    }
                },
            }
        }
        // The edges between ASCII and other characters, and everything else.
        match take_in(text, pos, &mut machine, listener, Ghost(before), Ghost(k), Ghost(f)) {
            None => {
                return ;
            },
            Some((at, j, g)) => {
                pos = at;
                proof {
                    k = j@;
                    f = g@;
                    lemma_offset_in_text(text@, k);
                }
            },
        }
    }
    finish(text, machine, listener, Ghost(before), Ghost(f));
}

/// A tokenizer that decides whole windows of ASCII with the processor `P`, and runs the automaton
/// where the text is not ASCII. The reports are those of
/// [`tokenize`](crate::uax29::word::dfa::tokenize).
///
/// `on_breakpoint` need take no more than the boundaries of the text. It is called with these in
/// order, each once, up to the first one on which it answers `false`: [`called`] says so, and
/// [`callable`] gives no leave to call it in any other way. This is [`tokenize_windowed_to`] with a
/// listener that passes every report on.
pub fn tokenize_windowed_with<P: WindowProcessor, F: FnMut(usize, TokenProperties) -> bool>(
    text: &str,
    options: Options,
    on_breakpoint: F,
)
    requires
        callable(on_breakpoint, text_breaks(text@)),
    ensures
        called(on_breakpoint, text_breaks(text@)),
        exists|answers: Seq<bool>| #[trigger]
            possible_answers(on_breakpoint, text_breaks(text@), answers),
{
    let mut callback = Callback::new(on_breakpoint, Ghost(text_breaks(text@)));
    let ghost before = callback;
    tokenize_windowed_to::<P, Callback<F>>(text, options, &mut callback);
    callback.done(Ghost(before));
}

/// [`tokenize_windowed_with`] windows of 29 bytes. As there, `on_breakpoint` is called with the
/// boundaries of the text in order, each once, up to the first one on which it answers `false`.
pub fn tokenize_windowed(
    text: &str,
    options: Options,
    on_breakpoint: impl FnMut(usize, TokenProperties) -> bool,
)
    requires
        callable(on_breakpoint, text_breaks(text@)),
    ensures
        called(on_breakpoint, text_breaks(text@)),
        exists|answers: Seq<bool>| #[trigger]
            possible_answers(on_breakpoint, text_breaks(text@), answers),
{
    tokenize_windowed_with::<Neon32, _>(text, options, on_breakpoint);
}

} // verus!
