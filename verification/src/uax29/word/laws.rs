//! What holds of the boundaries of every text.

use crate::uax29::word::ascii::lemma_ascii_text;
use crate::uax29::word::automaton::{law_automaton_follows_the_standard, opens};
use crate::uax29::word::listener::{accepted, possible_answers, reported, told, Listener};
use crate::uax29::word::model::{
    boundary, infos, last_boundary, offset, report, reports, span_bits, text_breaks, Report,
};
use crate::uax29::word::properties::{
    char_info, property_of, word_like_property, word_like_strict, CharInfo,
};
use crate::uax29::word::rules::uax29_boundary;
use crate::uax29::word::text::{char_offset, lemma_char_bytes, lemma_offset_in_text, lemma_text_end};
use crate::uax29::word::token::{
    TokenProperties, HAS_ASCII_UPPER_MASK, NON_ASCII_MASK, WORD_LIKE_MASK,
};
use crate::uax29::word::window::{ascii_window, decides, lane, WindowTokens};
use crate::uax29::word::windowed::{law_ascii_text_is_a_window, law_window_breaks_are_boundaries};
use vstd::prelude::*;
use vstd::utf8::{
    encode_utf8, encode_utf8_valid_utf8, is_ascii_chars, is_char_boundary,
    is_char_boundary_start_end_of_seq,
};

verus! {

// ---------------------------------------------------------------------------------------------
// Reports and boundaries
// ---------------------------------------------------------------------------------------------

/// The boundaries before the `k`-th character, in order.
pub open spec fn boundaries(cs: Seq<CharInfo>, k: int) -> Seq<int>
    decreases k,
{
    if k <= 0 {
        Seq::empty()
    } else if boundary(cs, k - 1) {
        boundaries(cs, k - 1).push(k - 1)
    } else {
        boundaries(cs, k - 1)
    }
}

/// Each report belongs to a boundary, and the token that it reports starts at the boundary before.
proof fn lemma_reports(cs: Seq<CharInfo>, k: int)
    requires
        0 <= k <= cs.len() + 1,
    ensures
        reports(cs, k).len() == boundaries(cs, k).len(),
        forall|i: int|
            0 <= i < reports(cs, k).len() ==> #[trigger] reports(cs, k)[i] == report(
                cs,
                boundaries(cs, k)[i],
            ),
        forall|i: int|
            0 <= i < boundaries(cs, k).len() ==> 0 <= #[trigger] boundaries(cs, k)[i] < k
                && boundary(cs, boundaries(cs, k)[i]),
        forall|i: int, j: int|
            0 <= i < j < boundaries(cs, k).len() ==> #[trigger] boundaries(cs, k)[i]
                < #[trigger] boundaries(cs, k)[j],
        forall|i: int|
            0 < i < boundaries(cs, k).len() ==> #[trigger] last_boundary(cs, boundaries(cs, k)[i])
                == boundaries(cs, k)[i - 1],
        boundaries(cs, k).len() > 0 ==> last_boundary(cs, k) == boundaries(cs, k).last(),
        boundaries(cs, k).len() == 0 ==> last_boundary(cs, k) == 0,
    decreases k,
{
    if k > 0 {
        lemma_reports(cs, k - 1);
        let old_reports = reports(cs, k - 1);
        let old = boundaries(cs, k - 1);
        let new = boundaries(cs, k);
        if boundary(cs, k - 1) {
            assert forall|i: int| 0 < i < new.len() implies #[trigger] last_boundary(cs, new[i])
                == new[i - 1] by {
                if i < old.len() {
                    assert(new[i] == old[i]);
                }
            }
            assert forall|i: int| 0 <= i < reports(cs, k).len() implies #[trigger] reports(
                cs,
                k,
            )[i] == report(cs, new[i]) by {
                if i < old.len() {
                    assert(reports(cs, k)[i] == old_reports[i]);
                    assert(new[i] == old[i]);
                }
            }
        }
    }
}

/// The start of a text is a boundary.
proof fn lemma_start(cs: Seq<CharInfo>, k: int)
    requires
        0 < k <= cs.len() + 1,
    ensures
        boundaries(cs, k).len() > 0,
        boundaries(cs, k)[0] == 0,
    decreases k,
{
    if k == 1 {
        assert(boundary(cs, 0));
        assert(boundaries(cs, 0).len() == 0);
    } else {
        lemma_start(cs, k - 1);
    }
}

/// Later characters begin later.
pub proof fn lemma_offsets_ascend(text: Seq<char>, i: int, j: int)
    requires
        0 <= i < j <= text.len(),
    ensures
        char_offset(text, i) < char_offset(text, j) <= encode_utf8(text).len(),
    decreases j,
{
    lemma_char_bytes(text, j - 1);
    if i < j - 1 {
        lemma_offsets_ascend(text, i, j - 1);
    }
}

/// The character in front of which the `i`-th breakpoint of a text falls.
pub open spec fn break_index(text: Seq<char>, i: int) -> int {
    boundaries(infos(text), text.len() as int + 1)[i]
}

/// Nothing is reported of the empty text.
pub proof fn law_empty_text_has_no_breakpoints(text: Seq<char>)
    ensures
        text_breaks(text).len() == 0 <==> text.len() == 0,
{
    if text.len() > 0 {
        lemma_start(infos(text), text.len() as int + 1);
        lemma_reports(infos(text), text.len() as int + 1);
    }
}

/// The first breakpoint is the start of the text, with no token before it; the last one is its end.
pub proof fn law_breakpoints_span_the_text(text: Seq<char>)
    requires
        text.len() > 0,
        encode_utf8(text).len() <= usize::MAX,
    ensures
        text_breaks(text).len() >= 2,
        text_breaks(text)[0] == (0usize, TokenProperties(0)),
        text_breaks(text).last().0 == encode_utf8(text).len(),
{
    let cs = infos(text);
    let n = text.len() as int;
    lemma_start(cs, n);
    lemma_start(cs, n + 1);
    lemma_reports(cs, n + 1);
    lemma_text_end(text);
    assert(boundary(cs, n));
    assert(boundaries(cs, n + 1) == boundaries(cs, n).push(n));
    assert(report(cs, 0) == (0usize, TokenProperties(0)));
}

/// Breakpoints come in strictly ascending order, and each falls between two characters.
pub proof fn law_breakpoints_ascend(text: Seq<char>, i: int, j: int)
    requires
        0 <= i < j < text_breaks(text).len(),
        encode_utf8(text).len() <= usize::MAX,
    ensures
        text_breaks(text)[i].0 < text_breaks(text)[j].0 <= encode_utf8(text).len(),
        is_char_boundary(encode_utf8(text), text_breaks(text)[i].0 as int),
{
    let cs = infos(text);
    lemma_reports(cs, text.len() as int + 1);
    let a = break_index(text, i);
    let b = break_index(text, j);
    lemma_offsets_ascend(text, a, b);
    lemma_offset_in_text(text, a);
    lemma_char_bytes(text, a);
}

/// Each breakpoint lies in the text or at its end, and between two characters.
pub proof fn law_breakpoints_lie_in_the_text(text: Seq<char>, i: int)
    requires
        0 <= i < text_breaks(text).len(),
        encode_utf8(text).len() <= usize::MAX,
    ensures
        text_breaks(text)[i].0 <= encode_utf8(text).len(),
        is_char_boundary(encode_utf8(text), text_breaks(text)[i].0 as int),
{
    let k = break_index(text, i);
    lemma_reports(infos(text), text.len() as int + 1);
    lemma_offset_in_text(text, k);
    if k < text.len() {
        lemma_char_bytes(text, k);
    } else {
        lemma_text_end(text);
        encode_utf8_valid_utf8(text);
        is_char_boundary_start_end_of_seq(encode_utf8(text));
    }
}

/// A token is what lies between two neighbouring breakpoints, and what is reported with the second
/// one is what its characters say, joined.
pub proof fn law_token_props_are_those_of_its_characters(text: Seq<char>, i: int)
    requires
        0 < i < text_breaks(text).len(),
        encode_utf8(text).len() <= usize::MAX,
    ensures
        0 <= break_index(text, i - 1) < break_index(text, i) <= text.len(),
        text_breaks(text)[i - 1].0 == char_offset(text, break_index(text, i - 1)),
        text_breaks(text)[i].0 == char_offset(text, break_index(text, i)),
        text_breaks(text)[i].1.0 == span_bits(
            infos(text),
            break_index(text, i - 1),
            break_index(text, i),
        ),
{
    let cs = infos(text);
    lemma_reports(cs, text.len() as int + 1);
    let a = break_index(text, i - 1);
    let b = break_index(text, i);
    lemma_offset_in_text(text, a);
    lemma_offset_in_text(text, b);
    assert(last_boundary(cs, boundaries(cs, text.len() as int + 1)[i]) == a);
}

/// The breakpoints of a text are the boundaries that the standard's rules give, all of them and no
/// others.
pub proof fn law_breakpoints_are_the_boundaries(text: Seq<char>, k: int)
    requires
        0 <= k <= text.len(),
        text.len() > 0,
    ensures
        uax29_boundary(infos(text), k) <==> exists|i: int|
            0 <= i < text_breaks(text).len() && #[trigger] break_index(text, i) == k,
{
    let cs = infos(text);
    let n = text.len() as int;
    lemma_reports(cs, n + 1);
    if boundary(cs, k) {
        let i = lemma_boundary_is_listed(cs, n + 1, k);
        assert(break_index(text, i) == k);
    }
}

proof fn lemma_boundary_is_listed(cs: Seq<CharInfo>, m: int, k: int) -> (i: int)
    requires
        0 <= k < m,
        boundary(cs, k),
    ensures
        0 <= i < boundaries(cs, m).len(),
        boundaries(cs, m)[i] == k,
    decreases m,
{
    if k == m - 1 {
        boundaries(cs, m).len() - 1
    } else {
        lemma_boundary_is_listed(cs, m - 1, k)
    }
}

/// The boundaries that are reported, and those that the automaton finds, are those of the standard:
/// in every text, at every character.
pub proof fn law_boundaries_follow_the_standard(cs: Seq<CharInfo>, k: int)
    requires
        0 <= k <= cs.len(),
    ensures
        boundary(cs, k) == uax29_boundary(cs, k),
        k < cs.len() ==> opens(cs, k) == uax29_boundary(cs, k),
{
    if k < cs.len() {
        law_automaton_follows_the_standard(cs, k);
    }
}

/// A byte offset is that of a breakpoint just if the character there is behind a boundary.
pub proof fn lemma_breakpoint_at(text: Seq<char>, k: int)
    requires
        0 <= k <= text.len(),
        text.len() > 0,
        encode_utf8(text).len() <= usize::MAX,
    ensures
        boundary(infos(text), k) <==> exists|n: int|
            0 <= n < text_breaks(text).len() && #[trigger] text_breaks(text)[n].0 == char_offset(
                text,
                k,
            ),
{
    let cs = infos(text);
    lemma_reports(cs, text.len() as int + 1);
    law_breakpoints_are_the_boundaries(text, k);
    assert forall|n: int| 0 <= n < text_breaks(text).len() implies #[trigger] text_breaks(text)[n].0
        == char_offset(text, break_index(text, n)) && 0 <= break_index(text, n) <= text.len() by {
        lemma_offset_in_text(text, break_index(text, n));
    }
    if boundary(cs, k) {
        let n = choose|n: int|
            0 <= n < text_breaks(text).len() && #[trigger] break_index(text, n) == k;
        assert(text_breaks(text)[n].0 == char_offset(text, k));
    }
    if exists|n: int|
        0 <= n < text_breaks(text).len() && #[trigger] text_breaks(text)[n].0 == char_offset(
            text,
            k,
        ) {
        let n = choose|n: int|
            0 <= n < text_breaks(text).len() && #[trigger] text_breaks(text)[n].0 == char_offset(
                text,
                k,
            );
        let b = break_index(text, n);
        if b < k {
            lemma_offsets_ascend(text, b, k);
        } else if k < b {
            lemma_offsets_ascend(text, k, b);
        }
        assert(break_index(text, n) == k);
    }
}

/// What a processor decides of a window is what the tokenizers report: bit `i` of the breaks is set
/// just if the `i`-th byte lies in the window and a breakpoint of the text falls right before it.
pub proof fn law_window_breaks_are_breakpoints(
    w: WindowTokens,
    text: Seq<char>,
    k: int,
    pos: int,
    width: int,
    i: u32,
)
    requires
        0 <= k <= text.len(),
        char_offset(text, k) == pos,
        2 <= pos,
        pos + width < encode_utf8(text).len() <= usize::MAX,
        ascii_window(encode_utf8(text), pos, width),
        decides(w, encode_utf8(text), pos, width),
        i < 32,
    ensures
        lane(w.breaks, i) <==> i < width && exists|n: int|
            0 <= n < text_breaks(text).len() && #[trigger] text_breaks(text)[n].0 == pos + i,
{
    if i < width {
        law_window_breaks_are_boundaries(text, k, pos, width, i as int);
        lemma_breakpoint_at(text, k + i);
    }
}

/// [`law_window_breaks_are_breakpoints`] for ASCII text: there every window is decided.
pub proof fn law_ascii_windows_are_decided(text: Seq<char>, pos: int, width: int)
    requires
        is_ascii_chars(text),
        2 <= pos,
        0 <= width,
        pos + width < encode_utf8(text).len() <= usize::MAX,
    ensures
        ascii_window(encode_utf8(text), pos, width),
        forall|w: WindowTokens, i: u32|
            decides(w, encode_utf8(text), pos, width) && i < 32 ==> (#[trigger] lane(w.breaks, i)
                <==> i < width && exists|n: int|
                0 <= n < text_breaks(text).len() && #[trigger] text_breaks(text)[n].0 == pos + i),
{
    law_ascii_text_is_a_window(text, pos, width);
    lemma_ascii_text(text);
    lemma_offset_in_text(text, pos);
    assert(offset(infos(text), pos) == pos);
    assert forall|w: WindowTokens, i: u32|
        decides(w, encode_utf8(text), pos, width) && i < 32 implies (#[trigger] lane(w.breaks, i)
        <==> i < width && exists|n: int|
        0 <= n < text_breaks(text).len() && #[trigger] text_breaks(text)[n].0 == pos + i) by {
        law_window_breaks_are_breakpoints(w, text, pos, pos, width, i);
    }
}

// ---------------------------------------------------------------------------------------------
// Token properties
// ---------------------------------------------------------------------------------------------

/// Is the character word-like: an ASCII letter or digit, or a character outside ASCII whose
/// `Word_Break` value or other properties make it so?
pub open spec fn word_like_char(c: char) -> bool {
    if (c as u32) < 0x80 {
        'a' <= c <= 'z' || 'A' <= c <= 'Z' || '0' <= c <= '9'
    } else {
        word_like_property(property_of(c)) || word_like_strict(c)
    }
}

/// Bits of a single character.
proof fn lemma_char_bits(c: char)
    ensures
        (char_info(c).props.0 & WORD_LIKE_MASK != 0) == word_like_char(c),
        (char_info(c).props.0 & NON_ASCII_MASK != 0) == ((c as u32) >= 0x80),
        (char_info(c).props.0 & HAS_ASCII_UPPER_MASK != 0) == ('A' <= c <= 'Z'),
{
    lemma_mask_bits(0, 0);
    lemma_mask_bits(WORD_LIKE_MASK, HAS_ASCII_UPPER_MASK);
    lemma_mask_bits(NON_ASCII_MASK, WORD_LIKE_MASK);
    if (c as u32) < 0x80 {
        lemma_ascii_char(c);
    }
}

proof fn lemma_ascii_char(c: char)
    requires
        (c as u32) < 0x80,
    ensures
        ('A' <= c <= 'Z') == (0x41 <= c as u8 <= 0x5a),
        ('a' <= c <= 'z') == (0x61 <= c as u8 <= 0x7a),
        ('0' <= c <= '9') == (0x30 <= c as u8 <= 0x39),
{
}

/// A token has a property that one of its characters has: it is word-like if a character is, outside
/// ASCII if a character is, and with uppercase if a character is one of `A` to `Z`.
pub proof fn law_token_has_what_a_character_has(text: Seq<char>, i: int, j: int)
    requires
        0 <= i <= j <= text.len(),
    ensures
        (span_bits(infos(text), i, j) & WORD_LIKE_MASK != 0) == exists|k: int|
            i <= k < j && word_like_char(#[trigger] text[k]),
        (span_bits(infos(text), i, j) & NON_ASCII_MASK != 0) == exists|k: int|
            i <= k < j && (#[trigger] text[k] as u32) >= 0x80,
        (span_bits(infos(text), i, j) & HAS_ASCII_UPPER_MASK != 0) == exists|k: int|
            i <= k < j && 'A' <= #[trigger] text[k] <= 'Z',
    decreases j - i,
{
    if i < j {
        law_token_has_what_a_character_has(text, i, j - 1);
        lemma_char_bits(text[j - 1]);
        let x = span_bits(infos(text), i, j - 1);
        let y = infos(text)[j - 1].props.0;
        lemma_mask_bits(x, y);
    } else {
        lemma_mask_bits(0, 0);
    }
}

/// The bits of joined bits, and those of the masks.
pub proof fn lemma_mask_bits(x: u8, y: u8)
    by (bit_vector)
    ensures
        ((x | y) & WORD_LIKE_MASK != 0) == (x & WORD_LIKE_MASK != 0 || y & WORD_LIKE_MASK != 0),
        ((x | y) & NON_ASCII_MASK != 0) == (x & NON_ASCII_MASK != 0 || y & NON_ASCII_MASK != 0),
        ((x | y) & HAS_ASCII_UPPER_MASK != 0) == (x & HAS_ASCII_UPPER_MASK != 0 || y
            & HAS_ASCII_UPPER_MASK != 0),
        0u8 & WORD_LIKE_MASK == 0,
        0u8 & NON_ASCII_MASK == 0,
        0u8 & HAS_ASCII_UPPER_MASK == 0,
        WORD_LIKE_MASK & WORD_LIKE_MASK != 0,
        WORD_LIKE_MASK & NON_ASCII_MASK == 0,
        WORD_LIKE_MASK & HAS_ASCII_UPPER_MASK == 0,
        NON_ASCII_MASK & WORD_LIKE_MASK == 0,
        NON_ASCII_MASK & NON_ASCII_MASK != 0,
        NON_ASCII_MASK & HAS_ASCII_UPPER_MASK == 0,
        HAS_ASCII_UPPER_MASK & WORD_LIKE_MASK == 0,
        HAS_ASCII_UPPER_MASK & NON_ASCII_MASK == 0,
        HAS_ASCII_UPPER_MASK & HAS_ASCII_UPPER_MASK != 0,
{
}

// ---------------------------------------------------------------------------------------------
// Listeners
// ---------------------------------------------------------------------------------------------

/// What is told to a listener is added to its log: the reports `out` in order, each once, from the
/// first one on. The listener accepts all but the last of them, and reports are left out only behind
/// one that it refuses.
pub proof fn law_listeners_hear_an_accepted_prefix<L: Listener>(
    before: L,
    after: L,
    out: Seq<Report>,
)
    requires
        reported(before, after, out),
    ensures
        ({
            let m = before.log().len() as int;
            let n = after.log().len() - m;
            &&& 0 <= n <= out.len()
            &&& forall|i: int| 0 <= i < m ==> after.log()[i] == #[trigger] before.log()[i]
            &&& forall|i: int| 0 <= i < n ==> after.log()[m + i].0 == #[trigger] out[i]
            &&& forall|i: int| m <= i < m + n - 1 ==> (#[trigger] after.log()[i]).1
            &&& n < out.len() ==> n > 0 && !after.log().last().1
        }),
{
    let m = before.log().len() as int;
    let n = after.log().len() - m;
    let calls = told(before, after);
    assert forall|i: int| 0 <= i < m implies after.log()[i] == #[trigger] before.log()[i] by {
        assert(after.log().subrange(0, m)[i] == before.log()[i]);
    }
    assert forall|i: int| 0 <= i < n implies after.log()[m + i].0 == #[trigger] out[i] by {
        assert(calls[i].0 == out[i]);
    }
    assert forall|i: int| m <= i < m + n - 1 implies (#[trigger] after.log()[i]).1 by {
        assert(calls[i - m].1);
    }
    if n < out.len() {
        assert(calls.last() == after.log().last());
    }
}

/// Answers to the reports `out`: one for each of the first of them, such as the function may give,
/// `true` but for the last one, and for all of them unless the last one is `false`.
pub proof fn law_possible_answers<F: FnMut(usize, TokenProperties) -> bool>(
    f: F,
    out: Seq<Report>,
    answers: Seq<bool>,
    i: int,
)
    requires
        possible_answers(f, out, answers),
    ensures
        answers.len() <= out.len(),
        0 <= i < answers.len() ==> call_ensures(f, out[i], answers[i]),
        0 <= i < answers.len() - 1 ==> answers[i],
        answers.len() < out.len() ==> answers.len() > 0 && !answers.last(),
{
}

/// A list that hears of the boundaries of a text holds all of them: every tokenizer gives the same.
pub proof fn law_list_hears_everything(before: Vec<Report>, after: Vec<Report>, out: Seq<Report>)
    requires
        before@.len() == 0,
        reported(before, after, out),
    ensures
        after@ == out,
{
    let calls = told(before, after);
    assert(calls =~= accepted(after@));
    assert forall|i: int| 0 <= i < after@.len() implies after@[i] == out[i] by {
        assert(calls[i].0 == out[i]);
    }
    if calls.len() < out.len() {
        assert(calls.last().1);
    }
}

} // verus!
