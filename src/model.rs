//! The mathematical model of the splitter: its state as plain sequences of
//! characters, and what one pull of a token does to it.
use vstd::prelude::*;

use crate::blank::is_blank;

verus! {

/// The quote character, which marks the start and the end of a span in which
/// the delimiter does not split.
pub const QUOTE: char = '"';

/// The abstract state of a splitter: the text not consumed yet, the
/// delimiter, and whether quoted tokens lose their surrounding quotes.
pub struct SplitState {
    pub rest: Seq<char>,
    pub delimitor: char,
    pub unwrap_quotes: bool,
}

/// `s` without its leading blank characters.
pub open spec fn trim_start(s: Seq<char>) -> Seq<char>
    decreases s.len(),
{
    if s.len() > 0 && is_blank(s[0]) {
        trim_start(s.drop_first())
    } else {
        s
    }
}

/// Whether index `i` of `s` ends the token that starts at index 0. A token
/// holds at least its first character, so a delimiter there does not end
/// it. In a token that opens with a quote only a delimiter right after a
/// quote ends it, and never the delimiter right after the opening quote; in
/// any other token every later delimiter does.
pub open spec fn ends_token(s: Seq<char>, d: char, quoted: bool, i: int) -> bool {
    &&& 1 <= i < s.len()
    &&& s[i] == d
    &&& quoted ==> (i >= 2 && s[i - 1] == QUOTE)
}

/// The first index at or after `i` that ends a token, or `s.len()` when
/// there is none.
pub open spec fn token_end_from(s: Seq<char>, d: char, quoted: bool, i: int) -> int
    decreases s.len() - i,
{
    if i < 0 || i >= s.len() {
        s.len() as int
    } else if ends_token(s, d, quoted, i) {
        i
    } else {
        token_end_from(s, d, quoted, i + 1)
    }
}

/// The index found either ends a token at or after `i` or is the length.
pub proof fn lemma_token_end_from(s: Seq<char>, d: char, quoted: bool, i: int)
    requires
        0 <= i <= s.len(),
    ensures
        i <= token_end_from(s, d, quoted, i) <= s.len(),
        token_end_from(s, d, quoted, i) < s.len() ==> ends_token(
            s,
            d,
            quoted,
            token_end_from(s, d, quoted, i),
        ),
    decreases s.len() - i,
{
    if i < s.len() && !ends_token(s, d, quoted, i) {
        lemma_token_end_from(s, d, quoted, i + 1);
    }
}

/// Where the token at the start of `s` ends.
pub open spec fn token_end(s: Seq<char>, d: char, quoted: bool) -> int {
    token_end_from(s, d, quoted, 0)
}

/// `s` without its first and last characters.
pub open spec fn strip_ends(s: Seq<char>) -> Seq<char> {
    s.subrange(1, s.len() - 1)
}

/// The token taken from the start of `s`, a non-empty text with no leading
/// blank, as the splitter returns it.
pub open spec fn token_of(s: Seq<char>, d: char, unwrap_quotes: bool) -> Seq<char> {
    let quoted = s[0] == QUOTE;
    let e = token_end(s, d, quoted);
    if quoted && unwrap_quotes && e < s.len() {
        strip_ends(s.take(e))
    } else if quoted && unwrap_quotes && s.len() > 1 && s.last() == QUOTE {
        strip_ends(s)
    } else {
        s.take(e)
    }
}

/// What is left of `s`, a non-empty text with no leading blank, once its
/// first token is taken. The delimiter that ends the token stays.
pub open spec fn rest_of(s: Seq<char>, d: char) -> Seq<char> {
    s.skip(token_end(s, d, s[0] == QUOTE))
}

/// One pull: the token returned, if any, and the state after it.
pub open spec fn pull(st: SplitState) -> (Option<Seq<char>>, SplitState) {
    let s = trim_start(st.rest);
    if s.len() == 0 {
        (None, SplitState { rest: s, ..st })
    } else {
        (
            Some(token_of(s, st.delimitor, st.unwrap_quotes)),
            SplitState { rest: rest_of(s, st.delimitor), ..st },
        )
    }
}

/// The characters of a returned token, if any.
pub open spec fn token_view(r: Option<&str>) -> Option<Seq<char>> {
    match r {
        Some(t) => Some(t@),
        None => None,
    }
}

/// The state with quote unwrapping set to `b`, all else kept.
pub open spec fn with_unwrapping(st: SplitState, b: bool) -> SplitState {
    SplitState { unwrap_quotes: b, ..st }
}

} // verus!
