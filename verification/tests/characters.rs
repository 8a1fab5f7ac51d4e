//! Characters, token properties and what is promised of every text.

use alyze::uax29::word::dfa::{Machine, Step};
use alyze::uax29::word::properties::WordBreakProperty::{
    ALetter, CR, DoubleQuote, Extend, ExtendNumLet, Format, HebrewLetter, Katakana, LF, MidLetter, MidNum, MidNumLet, Newline, Numeric, Other, RegionalIndicator, SingleQuote, WSegSpace, ZWJ,
};
use alyze::uax29::word::properties::{
    is_word_like_by_data, is_word_like_strict, lookup_word_break_property_from_dictionary,
    non_ascii_char_props, word_break_contrib, word_break_property_from_code, WordBreakProperty,
};
use alyze::uax29::word::text::len_utf8;
use alyze::uax29::word::transitions::{start_state, transition, State, Transition};
use alyze::uax29::word::{
    count_tokens, tokenize, tokenize_ascii, tokenize_ascii_to, tokenize_to, tokenize_windowed,
    tokenize_windowed_to, tokenize_windowed_with, Neon, Neon32, Options, Scalar, TokenProperties,
};
use alyze::uax29::Action;
use std::ops::BitOrAssign;

fn breaks(text: &str) -> Vec<usize> {
    let mut out = Vec::new();
    tokenize(text, Options::default(), |bp, _| {
        out.push(bp);
        true
    });
    out
}

fn reports(text: &str) -> Vec<(usize, TokenProperties)> {
    let mut out = Vec::new();
    tokenize_to(text, Options::default(), &mut out);
    out
}

// ---------------------------------------------------------------------------------------------
// Character data
// ---------------------------------------------------------------------------------------------

#[test]
fn word_break_values_of_characters() {
    for (c, want) in [
        ('\u{e9}', ALetter),
        ('\u{5d0}', HebrewLetter),
        ('\u{30a2}', Katakana),
        ('\u{30fc}', Katakana),
        ('\u{300}', Extend),
        ('\u{ad}', Format),
        ('\u{200d}', ZWJ),
        ('\u{85}', Newline),
        ('\u{2028}', Newline),
        ('\u{660}', Numeric),
        ('\u{b7}', MidLetter),
        ('\u{2019}', MidNumLet),
        ('\u{37e}', MidNum),
        ('\u{203f}', ExtendNumLet),
        ('\u{1f1e6}', RegionalIndicator),
        ('\u{2003}', WSegSpace),
        ('\u{4e2d}', Other),
        ('\u{1f6d1}', Other),
    ] {
        assert_eq!(lookup_word_break_property_from_dictionary(c), want, "{c:?}");
    }
}

#[test]
fn word_break_codes() {
    assert_eq!(word_break_property_from_code(0), Other);
    assert_eq!(word_break_property_from_code(8), CR);
    assert_eq!(word_break_property_from_code(10), LF);
    assert_eq!(word_break_property_from_code(15), SingleQuote);
    assert_eq!(word_break_property_from_code(16), DoubleQuote);
    assert_eq!(word_break_property_from_code(17), Other);
    assert_eq!(word_break_property_from_code(21), ZWJ);
    assert_eq!(word_break_property_from_code(22), WSegSpace);
    assert_eq!(word_break_property_from_code(999), Other);
}

#[test]
fn pictographs() {
    assert!(WordBreakProperty::is_ext_pictographic('\u{1f6d1}'));
    assert!(WordBreakProperty::is_ext_pictographic('\u{24c2}'));
    assert!(WordBreakProperty::is_ext_pictographic('\u{a9}'));
    assert!(!WordBreakProperty::is_ext_pictographic('\u{e9}'));
    assert!(!WordBreakProperty::is_ext_pictographic('\u{4e2d}'));
    for b in 0..128u8 {
        assert!(!WordBreakProperty::is_ext_pictographic(b as char));
    }
}

#[test]
fn strict_word_likeness() {
    // A pictograph, an ideograph that no script claims, other numbers, a script of its own.
    for c in ['\u{1f44d}', '\u{3005}', '\u{3007}', '\u{2460}', '\u{b2}', '\u{bc}', '\u{915}', '\u{e01}'] {
        assert!(is_word_like_strict(c), "{c:?}");
    }
    // Common, inherited and unknown.
    for c in ['\u{30fc}', '\u{2013}', '\u{300}', '\u{a0}', '\u{378}', '\u{20ac}'] {
        assert!(!is_word_like_strict(c), "{c:?}");
    }
}

#[test]
fn strict_word_likeness_by_data() {
    // Script 25 is Latin, category 11 is other numbers.
    assert!(!is_word_like_by_data(false, false, 0, 0));
    assert!(!is_word_like_by_data(false, false, 0, 1));
    assert!(!is_word_like_by_data(false, false, 0, 103));
    assert!(is_word_like_by_data(false, false, 0, 25));
    assert!(is_word_like_by_data(false, false, 11, 0));
    assert!(is_word_like_by_data(false, true, 0, 0));
    assert!(is_word_like_by_data(true, false, 0, 0));
}

#[test]
fn contributions_of_characters() {
    assert_eq!(word_break_contrib(WordBreakProperty::ALetter), TokenProperties(1));
    assert_eq!(word_break_contrib(WordBreakProperty::HebrewLetter), TokenProperties(1));
    assert_eq!(word_break_contrib(WordBreakProperty::Numeric), TokenProperties(1));
    assert_eq!(word_break_contrib(WordBreakProperty::Katakana), TokenProperties(0));
    assert_eq!(
        non_ascii_char_props('\u{e9}', WordBreakProperty::ALetter),
        TokenProperties(0b011)
    );
    assert_eq!(
        non_ascii_char_props('\u{4e2d}', WordBreakProperty::Other),
        TokenProperties(0b011)
    );
    assert_eq!(
        non_ascii_char_props('\u{2013}', WordBreakProperty::Other),
        TokenProperties(0b010)
    );
}

#[test]
fn lengths_of_characters() {
    for c in ['\0', 'a', '\u{7f}', '\u{80}', '\u{7ff}', '\u{800}', '\u{ffff}', '\u{10000}', '\u{10ffff}'] {
        assert_eq!(len_utf8(c), c.len_utf8(), "{c:?}");
    }
}

// ---------------------------------------------------------------------------------------------
// Token properties
// ---------------------------------------------------------------------------------------------

#[test]
fn token_properties_bits() {
    let none = TokenProperties::default();
    assert!(!none.is_word_like() && none.is_ascii() && !none.has_ascii_upper());
    let mut all = TokenProperties(0b001);
    all.bitor_assign(TokenProperties(0b010));
    assert!(all.is_word_like() && !all.is_ascii() && !all.has_ascii_upper());
    all |= TokenProperties(0b100);
    assert_eq!(all, TokenProperties(0b111));
    assert!(all.has_ascii_upper());
}

/// A token has what one of its characters has.
#[test]
fn token_has_what_a_character_has() {
    let text = "abC d\u{e9}F 12 \u{2013} __ \u{4e2d}\u{2460}X.";
    let out = reports(text);
    for pair in out.windows(2) {
        let token = &text[pair[0].0..pair[1].0];
        let props = pair[1].1;
        assert_eq!(props.is_ascii(), token.is_ascii(), "{token:?}");
        assert_eq!(
            props.has_ascii_upper(),
            token.bytes().any(|b| b.is_ascii_uppercase()),
            "{token:?}"
        );
        assert_eq!(
            props.is_word_like(),
            token.chars().any(|c| c.is_alphanumeric()),
            "{token:?}"
        );
    }
}

// ---------------------------------------------------------------------------------------------
// The automaton
// ---------------------------------------------------------------------------------------------

#[test]
fn transitions_of_the_table() {
    for (state, prop, next, action) in [
        (State::StartOfText, ALetter, State::ALetter, Action::Break),
        (State::StartOfText, Extend, State::Any, Action::Break),
        (State::CR, LF, State::Newline, Action::NoBreak),
        (State::CR, Extend, State::Any, Action::Break),
        (State::ALetter, Extend, State::ALetter, Action::Transparent),
        (State::WSegSpace, Extend, State::Any, Action::NoBreak),
        (State::WSegSpace, WSegSpace, State::WSegSpace, Action::NoBreak),
        (State::ALetter, MidLetter, State::AHLetterMid, Action::NoBreak),
        (State::ALetter, MidNum, State::Any, Action::Break),
        (State::AHLetterMid, ALetter, State::ALetter, Action::NoBreak),
        (State::AHLetterMid, Numeric, State::Any, Action::DeferredBreak),
        (State::HLetter, SingleQuote, State::HLetterSQ, Action::NoBreak),
        (State::HLetter, DoubleQuote, State::HLetterDQ, Action::NoBreak),
        (State::HLetterDQ, HebrewLetter, State::HLetter, Action::NoBreak),
        (State::HLetterDQ, ALetter, State::Any, Action::DeferredBreak),
        (State::Numeric, MidNum, State::NumericMid, Action::NoBreak),
        (State::NumericMid, Other, State::Any, Action::DeferredBreak),
        (State::Any, RegionalIndicator, State::RegionalIndicator, Action::Break),
        (State::RegionalIndicator, RegionalIndicator, State::Any, Action::NoBreak),
        (State::Any, CR, State::CR, Action::Break),
    ] {
        assert_eq!(transition(state, prop), Transition(next, action), "{state:?} {prop:?}");
    }
    assert_eq!(start_state(WordBreakProperty::LF), State::Newline);
    assert!(State::NumericMid.is_deferred() && !State::HLetterSQ.is_deferred());
}

/// A wait that ends well, one that does not, and one that the end of the text ends.
#[test]
fn steps_of_the_automaton() {
    let letter = TokenProperties(1);
    let none = TokenProperties(0);
    let mut m = Machine::new();
    assert_eq!(m.step(0, ALetter, false, letter), Step::Break(0, none));
    assert_eq!(m.step(1, SingleQuote, false, none), Step::Taken);
    assert_eq!(m.deferred_break_pos, Some(1));
    assert_eq!(m.step(2, ALetter, false, letter), Step::Taken);
    assert_eq!(m.deferred_break_pos, None);
    assert_eq!(m.step(3, SingleQuote, false, none), Step::Taken);
    assert_eq!(m.step(4, Other, false, none), Step::Retry(3, letter));
    assert_eq!(m.step(4, Other, false, none), Step::Break(4, none));
    assert_eq!(m.end_wait(), None);
    assert_eq!(m.step(5, ALetter, false, letter), Step::Break(5, none));
    assert_eq!(m.step(6, SingleQuote, false, none), Step::Taken);
    assert_eq!(m.end_wait(), Some((6, letter)));
}

/// A pictograph attaches to a joiner, but not without one.
#[test]
fn steps_at_a_joiner() {
    let p = TokenProperties(3);
    let mut m = Machine::new();
    assert_eq!(m.step(0, Other, true, p), Step::Break(0, TokenProperties(0)));
    assert_eq!(m.step(4, ZWJ, false, TokenProperties(2)), Step::Taken);
    assert!(m.last_was_zwj);
    assert_eq!(m.step(7, Other, true, p), Step::Taken);
    assert_eq!(m.step(11, Other, true, p), Step::Break(11, p));
}

// ---------------------------------------------------------------------------------------------
// Every text
// ---------------------------------------------------------------------------------------------

const TEXTS: &[&str] = &[
    "",
    "a",
    "\u{e9}",
    "The quick (\u{201c}brown\u{201d}) fox can't jump 32.3 feet, right?",
    "\u{5d0}'\u{5d0} \u{5d0}\"\u{5d0} \u{5d0}\" \u{30a2}\u{30fc}_1 \u{1f1e6}\u{1f1e7}\u{1f1e8}",
    "\u{1f468}\u{200d}\u{1f469}\u{200d}\u{1f467} \u{1f469}\u{1f3fd}\u{200d}\u{1f692}.",
    "aaaaaaaaaaaaaaaaaaaaaaaaaaaaaaaaaaaaaaaaaaaaaaaaaaaaaaaaaaaa.\u{300}b it's 1,5 A\u{e9}",
    "one two, three: four.five 6.7 8;9 \r\n\t ten_eleven  TWELVE thirteen'",
];

/// Breakpoints ascend from the start of the text to its end.
#[test]
fn breakpoints_span_the_text() {
    for text in TEXTS {
        let out = reports(text);
        if text.is_empty() {
            assert!(out.is_empty());
            continue;
        }
        assert_eq!(out[0], (0, TokenProperties(0)));
        assert_eq!(out.last().unwrap().0, text.len());
        for pair in out.windows(2) {
            assert!(pair[0].0 < pair[1].0);
            assert!(text.is_char_boundary(pair[0].0));
        }
    }
}

/// Every tokenizer reports the same, to a list and to a callback.
#[test]
fn all_tokenizers_report_the_same() {
    for text in TEXTS {
        let want = reports(text);
        let mut ascii = Vec::new();
        tokenize_ascii_to(text, Options::default(), &mut ascii);
        assert_eq!(ascii, want);
        let mut scalar = Vec::new();
        tokenize_windowed_to::<Scalar, _>(text, Options::default(), &mut scalar);
        assert_eq!(scalar, want);
        let mut neon = Vec::new();
        tokenize_windowed_to::<Neon, _>(text, Options::default(), &mut neon);
        assert_eq!(neon, want);
        let mut neon32 = Vec::new();
        tokenize_windowed_to::<Neon32, _>(text, Options::default(), &mut neon32);
        assert_eq!(neon32, want);
        let mut heard = Vec::new();
        tokenize_windowed(text, Options::default(), |bp, props| {
            heard.push((bp, props));
            true
        });
        assert_eq!(heard, want);
    }
}

/// A callback that refuses is not called again.
#[test]
fn refusal_ends_the_run() {
    for text in TEXTS {
        let want = breaks(text);
        for limit in 1..=want.len() {
            let mut got: [Vec<usize>; 5] = Default::default();
            tokenize(text, Options::default(), |bp, _| {
                got[0].push(bp);
                got[0].len() < limit
            });
            tokenize_ascii(text, Options::default(), |bp, _| {
                got[1].push(bp);
                got[1].len() < limit
            });
            tokenize_windowed_with::<Scalar, _>(text, Options::default(), |bp, _| {
                got[2].push(bp);
                got[2].len() < limit
            });
            tokenize_windowed_with::<Neon, _>(text, Options::default(), |bp, _| {
                got[3].push(bp);
                got[3].len() < limit
            });
            tokenize_windowed(text, Options::default(), |bp, _| {
                got[4].push(bp);
                got[4].len() < limit
            });
            for heard in got {
                assert_eq!(heard, want[..limit]);
            }
        }
    }
}

/// Emoji sequences are one token, and what follows them is decided as the rules say.
#[test]
fn emoji_sequences() {
    assert_eq!(breaks("\u{1f468}\u{200d}\u{1f469}\u{200d}\u{1f467}a"), vec![0, 18, 19]);
    assert_eq!(breaks("\u{1f469}\u{1f3fd}\u{200d}\u{1f692} x"), vec![0, 15, 16, 17]);
}

/// Every tokenizer reports the same breakpoints of `text`.
fn check_breaks(text: &str, want: &[usize]) {
    let mut got: [Vec<usize>; 5] = Default::default();
    tokenize(text, Options::default(), |bp, _| {
        got[0].push(bp);
        true
    });
    tokenize_ascii(text, Options::default(), |bp, _| {
        got[1].push(bp);
        true
    });
    tokenize_windowed_with::<Scalar, _>(text, Options::default(), |bp, _| {
        got[2].push(bp);
        true
    });
    tokenize_windowed_with::<Neon, _>(text, Options::default(), |bp, _| {
        got[3].push(bp);
        true
    });
    tokenize_windowed(text, Options::default(), |bp, _| {
        got[4].push(bp);
        true
    });
    for heard in got {
        assert_eq!(heard, want, "{text:?}");
    }
}

/// A pictograph that attaches to a joiner behind a letter is no letter: what follows is decided by
/// the pictograph.
#[test]
fn pictograph_behind_letter_and_joiner() {
    check_breaks("a\u{200d}\u{1f6d1}", &[0, 8]);
    check_breaks("a\u{200d}\u{1f6d1}b", &[0, 8, 9]);
    check_breaks("a\u{200d}\u{1f6d1} ", &[0, 8, 9]);
    check_breaks("1\u{200d}\u{1f6d1}2", &[0, 8, 9]);
    check_breaks("a\u{200d}\u{1f6d1}'b", &[0, 8, 9, 10]);
    check_breaks("\u{30a2}\u{200d}\u{1f6d1}\u{30a2}", &[0, 10, 13]);
    check_breaks("a\u{200d}\u{1f6d1}\u{200d}\u{1f6d1}b", &[0, 15, 16]);
    // An information source is a letter and a pictograph.
    check_breaks("a\u{200d}\u{2139}b", &[0, 8]);
    check_breaks(" \u{200d}\u{2139}b", &[0, 8]);
}

/// A joiner is remembered behind a space and when a wait ends.
#[test]
fn remembered_joiners() {
    check_breaks(" \u{200d}\u{1f6d1}", &[0, 8]);
    check_breaks("a'\u{200d}\u{1f6d1}", &[0, 1, 9]);
    check_breaks("1,\u{200d}\u{1f6d1}2", &[0, 1, 9, 10]);
    check_breaks("\u{5d0}\"\u{200d}\u{1f6d1}", &[0, 2, 10]);
    check_breaks("\r\u{200d}\u{1f6d1}", &[0, 1, 8]);
}

/// A wait that begins with an attached pictograph decides nothing: no boundary falls there.
#[test]
fn steps_in_a_wait_without_a_boundary() {
    let none = TokenProperties(0);
    let letter = TokenProperties(1);
    let mut m = Machine::new();
    assert_eq!(m.step(0, ALetter, false, letter), Step::Break(0, none));
    assert_eq!(m.step(1, ZWJ, false, none), Step::Taken);
    assert_eq!(m.step(4, MidLetter, true, none), Step::Taken);
    assert_eq!((m.state, m.deferred_break_pos), (State::AHLetterMid, None));
    let mut other = m;
    assert_eq!(m.step(6, ALetter, false, letter), Step::Taken);
    assert_eq!((m.state, m.token_props), (State::ALetter, letter));
    assert_eq!(other.step(6, Other, false, none), Step::Again);
    assert_eq!(other.step(6, Other, false, none), Step::Break(6, letter));
    assert_eq!(other.end_wait(), None);
}

/// Breakpoints, word-like tokens and tokens with uppercase.
#[test]
fn token_counts() {
    assert_eq!(count_tokens(""), (0, 0, 0));
    assert_eq!(count_tokens("a"), (2, 1, 0));
    // "Hello" "," " " "wORLD" " " "12" "!"
    assert_eq!(count_tokens("Hello, wORLD 12!"), (8, 3, 2));
    // "na\u{ef}ve" " " "\u{2013}" " " "X" " " "\u{4e2d}"
    assert_eq!(count_tokens("na\u{ef}ve \u{2013} X \u{4e2d}"), (8, 3, 1));
}

/// A callback that takes nothing but the breakpoints of the text, each with its properties.
#[test]
fn callbacks_need_take_breakpoints_only() {
    for text in TEXTS {
        let known = reports(text);
        let take = |bp: usize, props: TokenProperties| {
            assert!(known.contains(&(bp, props)), "{bp} {text:?}");
            true
        };
        tokenize(text, Options::default(), take);
        tokenize_ascii(text, Options::default(), take);
        tokenize_windowed_with::<Scalar, _>(text, Options::default(), take);
        tokenize_windowed_with::<Neon, _>(text, Options::default(), take);
        tokenize_windowed_with::<Neon32, _>(text, Options::default(), take);
        tokenize_windowed(text, Options::default(), take);
        for (bp, _) in &known {
            assert!(*bp <= text.len() && text.is_char_boundary(*bp), "{bp} {text:?}");
        }
    }
}
