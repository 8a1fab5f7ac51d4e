//! Counting tokens.

use crate::uax29::word::laws::law_list_hears_everything;
use crate::uax29::word::model::{text_breaks, Report};
use crate::uax29::word::neon::Neon32;
use crate::uax29::word::token::{
    Options, TokenProperties, HAS_ASCII_UPPER_MASK, WORD_LIKE_MASK,
};
use crate::uax29::word::windowed::tokenize_windowed_to;
use vstd::prelude::*;

verus! {

/// How many of the reports have one of these bits set.
pub open spec fn tally(out: Seq<Report>, mask: u8) -> nat
    decreases out.len(),
{
    if out.len() == 0 {
        0
    } else {
        tally(out.drop_last(), mask) + if out.last().1.0 & mask != 0 {
            1nat
        } else {
            0
        }
    }
}

/// What is counted are the reports that have one of these bits set.
pub proof fn law_tally_counts_reports(out: Seq<Report>, mask: u8)
    ensures
        tally(out, mask) == out.filter(|r: Report| r.1.0 & mask != 0).len(),
    decreases out.len(),
{
    reveal(Seq::filter);
    if out.len() > 0 {
        law_tally_counts_reports(out.drop_last(), mask);
    }
}

/// How many breakpoints a text has, and at how many of them a word-like token ends, or one with an
/// ASCII uppercase letter.
pub fn count_tokens(text: &str) -> (counts: (u64, u64, u64))
    ensures
        counts.0 == text_breaks(text@).len(),
        counts.1 == tally(text_breaks(text@), WORD_LIKE_MASK),
        counts.2 == tally(text_breaks(text@), HAS_ASCII_UPPER_MASK),
{
    let mut out: Vec<Report> = Vec::new();
    let ghost before = out;
    tokenize_windowed_to::<Neon32, Vec<Report>>(text, Options::default(), &mut out);
    proof {
        law_list_hears_everything(before, out, text_breaks(text@));
    }
    let mut word_like: u64 = 0;
    let mut upper: u64 = 0;
    let mut i: usize = 0;
    while i < out.len()
        invariant
            i <= out@.len(),
            word_like == tally(out@.take(i as int), WORD_LIKE_MASK),
            upper == tally(out@.take(i as int), HAS_ASCII_UPPER_MASK),
            word_like <= i,
            upper <= i,
        decreases out@.len() - i,
    {
        assert(out@.take(i + 1).drop_last() =~= out@.take(i as int));
        let props: TokenProperties = out[i].1;
        if props.is_word_like() {
            word_like = word_like + 1;
        }
        if props.has_ascii_upper() {
            upper = upper + 1;
        }
        i = i + 1;
    }
    assert(out@.take(out@.len() as int) =~= out@);
    (out.len() as u64, word_like, upper)
}

} // verus!
