//! The rules of Unicode Standard Annex #29 one by one, as they show in the breakpoints of a text.
//!
//! What is written here speaks of the breakpoints that are reported, and of the `Word_Break` values
//! of the characters; [`character_laws`](crate::uax29::word::character_laws) says which these are.

use crate::uax29::word::character_laws::{breaks_before, lemma_breaks_before};
use crate::uax29::word::model::infos;
use crate::uax29::word::properties::{CharInfo, WordBreakProperty};
use crate::uax29::word::rules::{base, indicators, next, two_back, uax29_boundary};
use vstd::prelude::*;
use vstd::utf8::encode_utf8;

verus! {

// ---------------------------------------------------------------------------------------------
// Vocabulary
// ---------------------------------------------------------------------------------------------

/// The `Word_Break` value of the `k`-th character.
pub open spec fn value(text: Seq<char>, k: int) -> WordBreakProperty {
    infos(text)[k].prop
}

/// A character whose boundary can be asked for, in a text that fits into memory.
pub open spec fn inside(text: Seq<char>, k: int) -> bool {
    0 < k < text.len() && encode_utf8(text).len() <= usize::MAX
}

/// `Extend`, `Format` and `ZWJ`.
pub open spec fn transparent(p: WordBreakProperty) -> bool {
    p is Extend || p is Format || p is ZWJ
}

/// `CR`, `LF` and `Newline`.
pub open spec fn ends_line(p: WordBreakProperty) -> bool {
    p is CR || p is LF || p is Newline
}

pub open spec fn letter(p: WordBreakProperty) -> bool {
    p is ALetter || p is HebrewLetter
}

/// All characters between the `i`-th and the `k`-th are `Extend`, `Format` or `ZWJ`.
pub open spec fn adjacent(text: Seq<char>, i: int, k: int) -> bool {
    &&& 0 <= i < k < text.len()
    &&& forall|m: int| i < m < k ==> transparent(#[trigger] value(text, m))
}

/// The `i`-th character is the last one before the `k`-th that the rules from WB5 on see: it is not
/// `Extend`, `Format` or `ZWJ`, or it stands at the start of a text or a line.
pub open spec fn seen_before(text: Seq<char>, i: int, k: int) -> bool {
    &&& adjacent(text, i, k)
    &&& !transparent(value(text, i)) || i == 0 || ends_line(value(text, i - 1))
    &&& ends_line(value(text, i)) ==> i == k - 1
}

// ---------------------------------------------------------------------------------------------
// What the rules see
// ---------------------------------------------------------------------------------------------

proof fn lemma_base_is(cs: Seq<CharInfo>, i: int, j: int)
    requires
        0 <= i <= j < cs.len(),
        forall|m: int| i < m <= j ==> transparent((#[trigger] cs[m]).prop),
        i < j ==> !ends_line(cs[i].prop),
        !transparent(cs[i].prop) || i == 0 || ends_line(cs[i - 1].prop),
    ensures
        base(cs, j) == i,
    decreases j,
{
    if i < j {
        assert(transparent(cs[j].prop));
        if i < j - 1 {
            assert(transparent(cs[j - 1].prop));
        }
        lemma_base_is(cs, i, j - 1);
    }
}

proof fn lemma_base(cs: Seq<CharInfo>, j: int)
    requires
        0 <= j < cs.len(),
    ensures
        0 <= base(cs, j) <= j,
        forall|m: int| base(cs, j) < m <= j ==> transparent((#[trigger] cs[m]).prop),
        !transparent(cs[base(cs, j)].prop) || base(cs, j) == 0 || ends_line(
            cs[base(cs, j) - 1].prop,
        ),
        ends_line(cs[base(cs, j)].prop) ==> base(cs, j) == j,
    decreases j,
{
    if !(j <= 0 || !transparent(cs[j].prop) || ends_line(cs[j - 1].prop)) {
        lemma_base(cs, j - 1);
    }
}

proof fn lemma_next_is(cs: Seq<CharInfo>, k: int, j: int)
    requires
        0 <= k <= j < cs.len(),
        forall|m: int| k <= m < j ==> transparent((#[trigger] cs[m]).prop),
        !transparent(cs[j].prop),
    ensures
        next(cs, k) == Some(cs[j].prop),
    decreases j - k,
{
    if k < j {
        assert(transparent(cs[k].prop));
        lemma_next_is(cs, k + 1, j);
    }
}

proof fn lemma_next(cs: Seq<CharInfo>, k: int) -> (j: int)
    requires
        0 <= k,
        next(cs, k) is Some,
    ensures
        k <= j < cs.len(),
        next(cs, k) == Some(cs[j].prop),
        forall|m: int| k <= m < j ==> transparent((#[trigger] cs[m]).prop),
    decreases cs.len() - k,
{
    if transparent(cs[k].prop) {
        lemma_next(cs, k + 1)
    } else {
        k
    }
}

/// What the rules see before the `k`-th character.
proof fn lemma_seen(text: Seq<char>, i: int, k: int)
    requires
        seen_before(text, i, k),
    ensures
        base(infos(text), k - 1) == i,
{
    let cs = infos(text);
    assert forall|m: int| i < m <= k - 1 implies transparent((#[trigger] cs[m]).prop) by {
        assert(transparent(value(text, m)));
    }
    lemma_base_is(cs, i, k - 1);
}

/// What the rules see behind the `k`-th character.
proof fn lemma_ahead(text: Seq<char>, k: int, j: int)
    requires
        adjacent(text, k, j),
        !transparent(value(text, j)),
    ensures
        next(infos(text), k + 1) == Some(value(text, j)),
{
    let cs = infos(text);
    assert forall|m: int| k + 1 <= m < j implies transparent((#[trigger] cs[m]).prop) by {
        assert(transparent(value(text, m)));
    }
    lemma_next_is(cs, k + 1, j);
}

// ---------------------------------------------------------------------------------------------
// Rules that look at neighbouring characters
// ---------------------------------------------------------------------------------------------

/// WB1, WB2: a text divides at its start and at its end.
pub proof fn law_wb1_wb2(text: Seq<char>)
    requires
        text.len() > 0,
        encode_utf8(text).len() <= usize::MAX,
    ensures
        breaks_before(text, 0),
        breaks_before(text, text.len() as int),
{
    lemma_breaks_before(text, 0);
    lemma_breaks_before(text, text.len() as int);
}

/// WB3: a carriage return stays with the line feed behind it.
pub proof fn law_wb3(text: Seq<char>, k: int)
    requires
        inside(text, k),
        value(text, k - 1) is CR,
        value(text, k) is LF,
    ensures
        !breaks_before(text, k),
{
    lemma_breaks_before(text, k);
}

/// WB3a, WB3b: a text divides before and behind every other line end.
pub proof fn law_wb3a_wb3b(text: Seq<char>, k: int)
    requires
        inside(text, k),
        ends_line(value(text, k - 1)) || ends_line(value(text, k)),
        !(value(text, k - 1) is CR && value(text, k) is LF),
    ensures
        breaks_before(text, k),
{
    lemma_breaks_before(text, k);
}

/// WB3c: a pictograph stays with the zero width joiner before it.
pub proof fn law_wb3c(text: Seq<char>, k: int)
    requires
        inside(text, k),
        value(text, k - 1) is ZWJ,
        infos(text)[k].pictographic,
        !ends_line(value(text, k)),
    ensures
        !breaks_before(text, k),
{
    lemma_breaks_before(text, k);
}

/// WB3d: spaces stay together.
pub proof fn law_wb3d(text: Seq<char>, k: int)
    requires
        inside(text, k),
        value(text, k - 1) is WSegSpace,
        value(text, k) is WSegSpace,
    ensures
        !breaks_before(text, k),
{
    lemma_breaks_before(text, k);
}

/// WB4: `Extend`, `Format` and `ZWJ` stay with what they follow, but for line ends.
pub proof fn law_wb4(text: Seq<char>, k: int)
    requires
        inside(text, k),
        transparent(value(text, k)),
        !ends_line(value(text, k - 1)),
    ensures
        !breaks_before(text, k),
{
    lemma_breaks_before(text, k);
}

// ---------------------------------------------------------------------------------------------
// Rules that look through `Extend`, `Format` and `ZWJ`
// ---------------------------------------------------------------------------------------------

/// WB5, WB8, WB9, WB10, WB13, WB13a, WB13b, WB7a: letters and digits stay together, Katakana stays
/// together, both stay with connectors, and a Hebrew letter with a single quote behind it.
pub proof fn law_words_stay_together(text: Seq<char>, i: int, k: int)
    requires
        inside(text, k),
        adjacent(text, i, k),
        ({
            let a = value(text, i);
            let b = value(text, k);
            ||| (letter(a) || a is Numeric) && (letter(b) || b is Numeric)
            ||| a is Katakana && b is Katakana
            ||| (letter(a) || a is Numeric || a is Katakana || a is ExtendNumLet) && b
                is ExtendNumLet
            ||| a is ExtendNumLet && (letter(b) || b is Numeric || b is Katakana)
            ||| a is HebrewLetter && b is SingleQuote
        }),
    ensures
        !breaks_before(text, k),
{
    lemma_breaks_before(text, k);
    lemma_seen(text, i, k);
}

/// Of three characters that the rules see one behind the other, the second and the third stay with
/// what is before them. WB6, WB7: a colon, a period or a quote between letters. WB7b, WB7c: a double
/// quote between Hebrew letters. WB11, WB12: a comma, a period or a quote between digits.
pub proof fn law_bridges_stay_together(text: Seq<char>, i: int, k: int, j: int)
    requires
        inside(text, k),
        inside(text, j),
        adjacent(text, i, k),
        adjacent(text, k, j),
        ({
            let a = value(text, i);
            let b = value(text, k);
            let c = value(text, j);
            ||| letter(a) && (b is MidLetter || b is MidNumLet || b is SingleQuote) && letter(c)
            ||| a is HebrewLetter && b is DoubleQuote && c is HebrewLetter
            ||| a is Numeric && (b is MidNum || b is MidNumLet || b is SingleQuote) && c is Numeric
        }),
    ensures
        !breaks_before(text, k),
        !breaks_before(text, j),
{
    lemma_breaks_before(text, k);
    lemma_breaks_before(text, j);
    lemma_seen(text, i, k);
    lemma_seen(text, k, j);
    lemma_ahead(text, k, j);
}

/// WB15, WB16: the first two regional indicators of a run stay together.
pub proof fn law_first_regional_indicators_stay_together(text: Seq<char>, i: int, k: int)
    requires
        inside(text, k),
        adjacent(text, i, k),
        value(text, i) is RegionalIndicator,
        value(text, k) is RegionalIndicator,
        forall|h: int| #[trigger] adjacent(text, h, i) ==> !(value(text, h) is RegionalIndicator),
    ensures
        !breaks_before(text, k),
{
    let cs = infos(text);
    lemma_breaks_before(text, k);
    lemma_seen(text, i, k);
    if i > 0 {
        lemma_base(cs, i - 1);
        let h = base(cs, i - 1);
        assert forall|m: int| h < m < i implies transparent(#[trigger] value(text, m)) by {
            assert(transparent(cs[m].prop));
        }
        assert(adjacent(text, h, i));
        assert(indicators(cs, i) == 1 + indicators(cs, h));
    }
}

/// WB15, WB16: of three regional indicators in a row, the third one is divided from the second just
/// if the second is not divided from the first.
pub proof fn law_regional_indicators_stay_in_pairs(text: Seq<char>, h: int, i: int, k: int)
    requires
        inside(text, k),
        adjacent(text, h, i),
        adjacent(text, i, k),
        value(text, h) is RegionalIndicator,
        value(text, i) is RegionalIndicator,
        value(text, k) is RegionalIndicator,
        !infos(text)[i].pictographic,
        !infos(text)[k].pictographic,
    ensures
        breaks_before(text, k) <==> !breaks_before(text, i),
{
    let cs = infos(text);
    lemma_breaks_before(text, k);
    lemma_breaks_before(text, i);
    lemma_seen(text, i, k);
    lemma_seen(text, h, i);
    assert(indicators(cs, i) == 1 + indicators(cs, h));
}

/// Before every character there is one that the rules see, so that [`law_wb999`] speaks of them all.
pub proof fn law_a_character_is_seen(text: Seq<char>, k: int)
    requires
        0 < k < text.len(),
    ensures
        exists|i: int| #[trigger] seen_before(text, i, k),
{
    let cs = infos(text);
    lemma_base(cs, k - 1);
    let i = base(cs, k - 1);
    assert forall|m: int| i < m < k implies transparent(#[trigger] value(text, m)) by {
        assert(transparent(cs[m].prop));
    }
    assert(seen_before(text, i, k));
}

/// WB999: nothing else stays together. Where no breakpoint falls, one of the rules says so.
pub proof fn law_wb999(text: Seq<char>, i: int, k: int)
    requires
        inside(text, k),
        seen_before(text, i, k),
        !breaks_before(text, k),
        !transparent(value(text, k)),
    ensures
        ({
            let a = value(text, i);
            let b = value(text, k);
            // WB3
            ||| value(text, k - 1) is CR && b is LF
            // WB3c

            ||| value(text, k - 1) is ZWJ && infos(text)[k].pictographic
            // WB3d

            ||| value(text, k - 1) is WSegSpace && b is WSegSpace
            // WB5, WB8, WB9, WB10

            ||| (letter(a) || a is Numeric) && (letter(b) || b is Numeric)
            // WB6

            ||| letter(a) && (b is MidLetter || b is MidNumLet || b is SingleQuote) && exists|j: int|
                #[trigger] adjacent(text, k, j) && letter(value(text, j))
            // WB7

            ||| (a is MidLetter || a is MidNumLet || a is SingleQuote) && letter(b) && exists|h: int|
                #[trigger] adjacent(text, h, i) && letter(value(text, h))
            // WB7a

            ||| a is HebrewLetter && b is SingleQuote
            // WB7b

            ||| a is HebrewLetter && b is DoubleQuote && exists|j: int| #[trigger]
                adjacent(text, k, j) && value(text, j) is HebrewLetter
            // WB7c

            ||| a is DoubleQuote && b is HebrewLetter && exists|h: int| #[trigger]
                adjacent(text, h, i) && value(text, h) is HebrewLetter
            // WB11

            ||| (a is MidNum || a is MidNumLet || a is SingleQuote) && b is Numeric && exists|h: int|
                #[trigger] adjacent(text, h, i) && value(text, h) is Numeric
            // WB12

            ||| a is Numeric && (b is MidNum || b is MidNumLet || b is SingleQuote) && exists|j: int|
                #[trigger] adjacent(text, k, j) && value(text, j) is Numeric
            // WB13

            ||| a is Katakana && b is Katakana
            // WB13a

            ||| (letter(a) || a is Numeric || a is Katakana || a is ExtendNumLet) && b
                is ExtendNumLet
            // WB13b

            ||| a is ExtendNumLet && (letter(b) || b is Numeric || b is Katakana)
            // WB15, WB16

            ||| a is RegionalIndicator && b is RegionalIndicator
        }),
{
    let cs = infos(text);
    lemma_breaks_before(text, k);
    assert(!uax29_boundary(cs, k));
    lemma_seen(text, i, k);
    let b = base(cs, k - 1);
    if b > 0 {
        lemma_base(cs, b - 1);
        let h = base(cs, b - 1);
        assert forall|m: int| h < m < b implies transparent(#[trigger] value(text, m)) by {
            assert(transparent(cs[m].prop));
        }
        assert(adjacent(text, h, b));
        assert(two_back(cs, k) == value(text, h));
    }
    if next(cs, k + 1) is Some {
        let j = lemma_next(cs, k + 1);
        assert forall|m: int| k < m < j implies transparent(#[trigger] value(text, m)) by {
            assert(transparent(cs[m].prop));
        }
        assert(adjacent(text, k, j));
    }
}

} // verus!
