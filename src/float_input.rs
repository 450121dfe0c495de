//! Filtering of decimal float text typed in float mode: digits, one point
//! before any exponent, one exponent marker after at least one character,
//! and signs only at the start or right after the exponent marker.

use vstd::prelude::*;
use crate::text::{chars_of, push_char, string_of};

verus! {

/// What the filter has kept so far, and whether it has kept a point and an
/// exponent marker.
pub struct FilterState {
    pub kept: Seq<char>,
    pub has_point: bool,
    pub has_exponent: bool,
}

/// Whether the last kept character is an exponent marker.
pub open spec fn after_exponent_marker(kept: Seq<char>) -> bool {
    kept.len() > 0 && (kept.last() == 'e' || kept.last() == 'E')
}

/// The filter's step on character `c`, found at index `i` of the input.
pub open spec fn filter_step(st: FilterState, i: int, c: char) -> FilterState {
    let keep = FilterState { kept: st.kept.push(c), ..st };
    if c == '-' {
        if i == 0 || (st.has_exponent && after_exponent_marker(st.kept)) {
            keep
        } else {
            st
        }
    } else if c == '+' {
        if st.has_exponent && after_exponent_marker(st.kept) {
            keep
        } else {
            st
        }
    } else if c == '.' {
        if !st.has_point && !st.has_exponent {
            FilterState { has_point: true, ..keep }
        } else {
            st
        }
    } else if c == 'e' || c == 'E' {
        if !st.has_exponent && st.kept.len() > 0 {
            FilterState { has_exponent: true, ..keep }
        } else {
            st
        }
    } else if '0' <= c && c <= '9' {
        keep
    } else {
        st
    }
}

/// The filter's state after reading all of `s`.
pub open spec fn filter_run(s: Seq<char>) -> FilterState
    decreases s.len(),
{
    if s.len() == 0 {
        FilterState { kept: Seq::empty(), has_point: false, has_exponent: false }
    } else {
        filter_step(filter_run(s.drop_last()), s.len() - 1, s.last())
    }
}

/// The text made ready to parse: empty text reads as `0`, and a leading
/// point gets a zero before it.
pub open spec fn completed(filtered: Seq<char>) -> Seq<char> {
    if filtered.len() == 0 {
        seq!['0']
    } else if filtered[0] == '.' {
        seq!['0'] + filtered
    } else {
        filtered
    }
}

/// Keeps the characters of `text` that float entry accepts.
pub fn filter_float_input(text: &str) -> (r: String)
    ensures
        r@ == filter_run(text@).kept,
{
    let cs = chars_of(text);
    let mut kept: Vec<char> = Vec::new();
    let mut has_point = false;
    let mut has_exponent = false;
    let mut i: usize = 0;
    while i < cs.len()
        invariant
            i <= cs@.len(),
            filter_run(cs@.subrange(0, i as int)) == (FilterState {
                kept: kept@,
                has_point,
                has_exponent,
            }),
        decreases cs@.len() - i,
    {
        let c = cs[i];
        assert(cs@.subrange(0, i + 1 as int).drop_last() =~= cs@.subrange(0, i as int));
        let n = kept.len();
        let after_marker = n > 0 && (kept[n - 1] == 'e' || kept[n - 1] == 'E');
        if c == '-' {
            if i == 0 || (has_exponent && after_marker) {
                kept.push(c);
            }
        } else if c == '+' {
            if has_exponent && after_marker {
                kept.push(c);
            }
        } else if c == '.' {
            if !has_point && !has_exponent {
                has_point = true;
                kept.push(c);
            }
        } else if c == 'e' || c == 'E' {
            if !has_exponent && n > 0 {
                has_exponent = true;
                kept.push(c);
            }
        } else if '0' <= c && c <= '9' {
            kept.push(c);
        }
        i = i + 1;
    }
    assert(cs@.subrange(0, cs@.len() as int) =~= cs@);
    string_of(&kept)
}

/// Makes filtered float text ready to parse.
pub fn complete_float_text(filtered: &str) -> (r: String)
    ensures
        r@ == completed(filtered@),
{
    let cs = chars_of(filtered);
    if cs.len() == 0 || cs[0] == '.' {
        let mut out = String::new();
        push_char(&mut out, '0');
        let rest = string_of(&cs);
        out.append(rest.as_str());
        assert(out@ =~= completed(filtered@));
        out
    } else {
        string_of(&cs)
    }
}

} // verus!
