//! The word boundary rules of Unicode Standard Annex #29.

use crate::uax29::word::properties::{CharInfo, WordBreakProperty};
use crate::uax29::word::transitions::{ah_letter, ignorable, mid_num_let_q, newline};
use vstd::prelude::*;

verus! {

/// The character that the rules see when they look at the `j`-th one. Rule WB4: a run of ignorable
/// characters is taken together with the character before it, unless that ends a line or there is
/// none.
pub open spec fn base(cs: Seq<CharInfo>, j: int) -> int
    decreases j,
{
    if j <= 0 || !ignorable(cs[j].prop) || newline(cs[j - 1].prop) {
        j
    } else {
        base(cs, j - 1)
    }
}

/// The property of the first character from the `j`-th on that is not ignorable.
pub open spec fn next(cs: Seq<CharInfo>, j: int) -> Option<WordBreakProperty>
    decreases cs.len() - j,
{
    if j >= cs.len() {
        None
    } else if ignorable(cs[j].prop) {
        next(cs, j + 1)
    } else {
        Some(cs[j].prop)
    }
}

/// How many regional indicators stand in a row, up to the one at `b`.
pub open spec fn indicators(cs: Seq<CharInfo>, b: int) -> nat
    decreases b,
{
    if b < 0 || !(cs[b].prop is RegionalIndicator) {
        0
    } else if 0 <= base(cs, b - 1) < b {
        1 + indicators(cs, base(cs, b - 1))
    } else {
        1
    }
}

/// The property of the character that the rules see two back from the `k`-th.
pub open spec fn two_back(cs: Seq<CharInfo>, k: int) -> WordBreakProperty {
    let b = base(cs, k - 1);
    if b > 0 {
        cs[base(cs, b - 1)].prop
    } else {
        WordBreakProperty::Other
    }
}

/// Do the rules from WB5 on keep the `k`-th character together with what precedes it?
pub open spec fn joined(cs: Seq<CharInfo>, k: int) -> bool {
    let b = base(cs, k - 1);
    let c = cs[k].prop;
    // One back and two back, as the rules see them.
    let l = cs[b].prop;
    let ll = two_back(cs, k);
    // One ahead.
    let r = match next(cs, k + 1) {
        Some(p) => p,
        None => WordBreakProperty::Other,
    };
    // WB5
    ||| ah_letter(l) && ah_letter(c)
    // WB6, WB7

    ||| ah_letter(l) && (c is MidLetter || mid_num_let_q(c)) && ah_letter(r)
    ||| ah_letter(ll) && (l is MidLetter || mid_num_let_q(l)) && ah_letter(c)
    // WB7a, WB7b, WB7c

    ||| l is HebrewLetter && c is SingleQuote
    ||| l is HebrewLetter && c is DoubleQuote && r is HebrewLetter
    ||| ll is HebrewLetter && l is DoubleQuote && c is HebrewLetter
    // WB8, WB9, WB10

    ||| l is Numeric && c is Numeric
    ||| ah_letter(l) && c is Numeric
    ||| l is Numeric && ah_letter(c)
    // WB11, WB12

    ||| ll is Numeric && (l is MidNum || mid_num_let_q(l)) && c is Numeric
    ||| l is Numeric && (c is MidNum || mid_num_let_q(c)) && r is Numeric
    // WB13, WB13a, WB13b

    ||| l is Katakana && c is Katakana
    ||| (ah_letter(l) || l is Numeric || l is Katakana || l is ExtendNumLet) && c is ExtendNumLet
    ||| l is ExtendNumLet && (ah_letter(c) || c is Numeric || c is Katakana)
    // WB15, WB16

    ||| l is RegionalIndicator && c is RegionalIndicator && indicators(cs, b) % 2 == 1
}

/// Is there a boundary after the first `k` characters, by the rules of the standard?
pub open spec fn uax29_boundary(cs: Seq<CharInfo>, k: int) -> bool {
    if k <= 0 || k >= cs.len() {
        // WB1, WB2
        true
    } else {
        let p = cs[k - 1].prop;
        let c = cs[k].prop;
        if p is CR && c is LF {
            // WB3
            false
        } else if newline(p) || newline(c) {
            // WB3a, WB3b
            true
        } else if p is ZWJ && cs[k].pictographic {
            // WB3c
            false
        } else if p is WSegSpace && c is WSegSpace {
            // WB3d
            false
        } else if ignorable(c) {
            // WB4
            false
        } else {
            // WB999
            !joined(cs, k)
        }
    }
}

} // verus!
