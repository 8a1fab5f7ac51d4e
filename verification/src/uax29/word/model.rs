//! What the tokenizers report, as mathematics: the boundaries of a text and the reports that follow
//! from them.

use crate::uax29::word::properties::{char_info, CharInfo};
use crate::uax29::word::rules::uax29_boundary;
use crate::uax29::word::token::{lemma_or, TokenProperties};
use vstd::prelude::*;

verus! {

// ---------------------------------------------------------------------------------------------
// Boundaries, tokens and reports
// ---------------------------------------------------------------------------------------------

/// What is reported at a boundary: its byte offset, and the properties of the token that ends there.
pub type Report = (usize, TokenProperties);

/// Is there a boundary after the first `k` characters of the text? The standard's rules say so.
pub open spec fn boundary(cs: Seq<CharInfo>, k: int) -> bool {
    uax29_boundary(cs, k)
}

/// The last boundary before `k`, or the start of the text.
pub open spec fn last_boundary(cs: Seq<CharInfo>, k: int) -> int
    decreases k,
{
    if k <= 0 {
        0
    } else if boundary(cs, k - 1) {
        k - 1
    } else {
        last_boundary(cs, k - 1)
    }
}

/// The byte offset of the `k`-th character.
pub open spec fn offset(cs: Seq<CharInfo>, k: int) -> int
    decreases k,
{
    if k <= 0 {
        0
    } else {
        offset(cs, k - 1) + cs[k - 1].len
    }
}

/// The properties of the characters from the `i`-th up to the `j`-th, joined.
pub open spec fn span_bits(cs: Seq<CharInfo>, i: int, j: int) -> u8
    decreases j - i,
{
    if i >= j {
        0
    } else {
        span_bits(cs, i, j - 1) | cs[j - 1].props.0
    }
}

/// What is reported at the boundary after the first `k` characters: its byte offset, and the
/// properties of the token that ends there.
pub open spec fn report(cs: Seq<CharInfo>, k: int) -> Report {
    (offset(cs, k) as usize, TokenProperties(span_bits(cs, last_boundary(cs, k), k)))
}

/// The reports at the boundaries before `k`, in order.
pub open spec fn reports(cs: Seq<CharInfo>, k: int) -> Seq<Report>
    decreases k,
{
    if k <= 0 {
        Seq::empty()
    } else if boundary(cs, k - 1) {
        reports(cs, k - 1).push(report(cs, k - 1))
    } else {
        reports(cs, k - 1)
    }
}

/// Everything that is reported of a text: nothing of the empty text, else each boundary from its
/// start to its end.
pub open spec fn word_breaks(cs: Seq<CharInfo>) -> Seq<Report> {
    if cs.len() == 0 {
        Seq::empty()
    } else {
        reports(cs, cs.len() as int + 1)
    }
}

/// What the tokenizers know of the characters of a text.
pub open spec fn infos(text: Seq<char>) -> Seq<CharInfo> {
    Seq::new(text.len(), |i: int| char_info(text[i]))
}

/// Everything that is reported of a text.
pub open spec fn text_breaks(text: Seq<char>) -> Seq<Report> {
    word_breaks(infos(text))
}

// ---------------------------------------------------------------------------------------------
// How the reports grow
// ---------------------------------------------------------------------------------------------

/// Bits of neighbouring spans join up.
pub proof fn lemma_span_join(cs: Seq<CharInfo>, i: int, j: int, k: int)
    requires
        i <= j <= k,
    ensures
        span_bits(cs, i, j) | span_bits(cs, j, k) == span_bits(cs, i, k),
    decreases k - j,
{
    let x = span_bits(cs, i, j);
    if j == k {
        lemma_or(x, 0, 0);
    } else {
        lemma_span_join(cs, i, j, k - 1);
        let y = span_bits(cs, j, k - 1);
        let z = cs[k - 1].props.0;
        lemma_or(x, y, z);
    }
}

/// The bits of one character.
pub proof fn lemma_span_one(cs: Seq<CharInfo>, k: int)
    ensures
        span_bits(cs, k, k + 1) == cs[k].props.0,
{
    let x = cs[k].props.0;
    assert(span_bits(cs, k, k) == 0);
    assert(span_bits(cs, k, k + 1) == span_bits(cs, k, k) | x);
    lemma_or(x, 0, 0);
}

/// The last boundary before `k` does not lie behind it.
pub proof fn lemma_last_boundary(cs: Seq<CharInfo>, k: int)
    requires
        0 <= k,
    ensures
        0 <= last_boundary(cs, k) <= k,
    decreases k,
{
    if k > 0 {
        lemma_last_boundary(cs, k - 1);
    }
}

/// A stretch without boundaries adds no reports.
pub proof fn lemma_no_boundary(cs: Seq<CharInfo>, i: int, j: int)
    requires
        0 <= i <= j,
        forall|k: int| i <= k < j ==> !#[trigger] boundary(cs, k),
    ensures
        reports(cs, j) == reports(cs, i),
        last_boundary(cs, j) == last_boundary(cs, i),
    decreases j - i,
{
    if i < j {
        lemma_no_boundary(cs, i, j - 1);
        assert(!boundary(cs, j - 1));
    }
}

/// The reports up to a character are the first ones of all.
pub proof fn lemma_reports_prefix(cs: Seq<CharInfo>, i: int, j: int)
    requires
        0 <= i <= j,
    ensures
        reports(cs, i).len() <= reports(cs, j).len(),
        reports(cs, i) == reports(cs, j).subrange(0, reports(cs, i).len() as int),
    decreases j - i,
{
    if i < j {
        lemma_reports_prefix(cs, i, j - 1);
        assert(reports(cs, i) =~= reports(cs, j).subrange(0, reports(cs, i).len() as int));
    } else {
        assert(reports(cs, i) =~= reports(cs, j).subrange(0, reports(cs, i).len() as int));
    }
}

} // verus!
