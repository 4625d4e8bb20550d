//! The splitter itself.
use vstd::prelude::*;
use vstd::string::*;

use crate::blank::{is_blank, is_blank_char};
use crate::laws::lemma_pull_shrinks;
use crate::model::{
    ends_token, lemma_token_end_from, pull, strip_ends, token_end, token_end_from, token_view,
    trim_start, with_unwrapping, SplitState, QUOTE,
};

verus! {

proof fn lemma_trim_start_skip(s: Seq<char>, i: int)
    requires
        0 <= i < s.len(),
        is_blank(s[i]),
    ensures
        trim_start(s.skip(i)) == trim_start(s.skip(i + 1)),
{
    assert(s.skip(i).drop_first() =~= s.skip(i + 1));
}

/// The number of blank characters at the start of `s`, whose length in
/// characters is `len`.
fn leading_blanks(s: &str, len: usize) -> (n: usize)
    requires
        len == s@.len(),
    ensures
        n <= s@.len(),
        s@.skip(n as int) == trim_start(s@),
{
    let mut n: usize = 0;
    assert(s@.skip(0) =~= s@);
    for c in it: s.chars()
        invariant
            it.seq() == s@,
            n == it.index(),
            n <= len == s@.len(),
            trim_start(s@.skip(n as int)) == trim_start(s@),
    {
        assert(c == s@[n as int]);
        if !is_blank_char(c) {
            return n;
        }
        proof { lemma_trim_start_skip(s@, n as int); }
        n = n + 1;
    }
    n
}

/// Where the token at the start of `s`, whose length in characters is `len`,
/// ends: the first index that ends it, or `len`.
fn find_token_end(s: &str, len: usize, d: char, quoted: bool) -> (e: usize)
    requires
        len == s@.len(),
    ensures
        e == token_end(s@, d, quoted),
        e <= len,
        e < len ==> ends_token(s@, d, quoted, e as int),
{
    proof { lemma_token_end_from(s@, d, quoted, 0); }
    let mut i: usize = 0;
    let mut previous: char = QUOTE;
    for c in it: s.chars()
        invariant
            it.seq() == s@,
            i == it.index(),
            i <= len == s@.len(),
            i > 0 ==> previous == s@[i - 1],
            token_end_from(s@, d, quoted, i as int) == token_end(s@, d, quoted),
    {
        assert(c == s@[i as int]);
        if c == d && i >= 1 && (!quoted || (i >= 2 && previous == QUOTE)) {
            return i;
        }
        previous = c;
        i = i + 1;
    }
    i
}

/// A string splitter, splitting on a specific character unless it is part of
/// a substring starting and ending with a quote (`"`). Quotes around such a
/// substring are removed on request. Tokens are slices of the source text.
pub struct SplitUnquotedChar<'s> {
    src: &'s str,
    unwrap_quotes: bool,
    delimitor: char,
}

impl<'s> View for SplitUnquotedChar<'s> {
    type V = SplitState;

    closed spec fn view(&self) -> SplitState {
        SplitState { rest: self.src@, delimitor: self.delimitor, unwrap_quotes: self.unwrap_quotes }
    }
}

impl<'s> SplitUnquotedChar<'s> {
    /// A splitter over all of `src`, splitting on `delimitor`, which keeps the
    /// quotes of quoted tokens.
    pub fn new(src: &'s str, delimitor: char) -> (r: Self)
        ensures
            r@ == (SplitState { rest: src@, delimitor, unwrap_quotes: false }),
    {
        SplitUnquotedChar { src, unwrap_quotes: false, delimitor }
    }

    /// A copy of this splitter that removes the surrounding quotes of quoted
    /// tokens when `b` holds, and keeps them otherwise.
    pub fn unwrap_quotes(&self, b: bool) -> (r: Self)
        ensures
            r@ == with_unwrapping(self@, b),
    {
        SplitUnquotedChar { src: self.src, unwrap_quotes: b, delimitor: self.delimitor }
    }

    /// The next token, or `None` once only blanks are left. Leading blanks
    /// are skipped first; the token is then cut from the start of the text
    /// as `pull` describes, and the text left starts at the delimiter that
    /// ended it.
    pub fn next(&mut self) -> (r: Option<&'s str>)
        ensures
            (token_view(r), final(self)@) == pull(old(self)@),
            r is Some ==> final(self)@.rest.len() < old(self)@.rest.len(),
    {
        proof { lemma_pull_shrinks(old(self)@); }
        let len0 = self.src.unicode_len();
        let k = leading_blanks(self.src, len0);
        let s: &'s str = self.src.substring_char(k, len0);
        self.src = s;
        let len = len0 - k;
        assert(s@ == trim_start(old(self)@.rest));
        if len == 0 {
            return None;
        }
        let quoted = s.get_char(0) == QUOTE;
        let e = find_token_end(s, len, self.delimitor, quoted);
        let token: &'s str;
        if quoted && self.unwrap_quotes && e < len {
            token = s.substring_char(1, e - 1);
            assert(token@ =~= strip_ends(s@.take(e as int)));
        } else if quoted && self.unwrap_quotes && len > 1 && s.get_char(len - 1) == QUOTE {
            token = s.substring_char(1, len - 1);
        } else {
            token = s.substring_char(0, e);
        }
        self.src = s.substring_char(e, len);
        Some(token)
    }
}

/// A splitter on spaces over `src`, taking quotes into account.
pub fn split_unquoted_whitespace(src: &str) -> (r: SplitUnquotedChar<'_>)
    ensures
        r@ == (SplitState { rest: src@, delimitor: ' ', unwrap_quotes: false }),
{
    SplitUnquotedChar::new(src, ' ')
}

/// A splitter on `delimitor` over `src`, taking quotes into account.
pub fn split_unquoted_char(src: &str, delimitor: char) -> (r: SplitUnquotedChar<'_>)
    ensures
        r@ == (SplitState { rest: src@, delimitor, unwrap_quotes: false }),
{
    SplitUnquotedChar::new(src, delimitor)
}

} // verus!
