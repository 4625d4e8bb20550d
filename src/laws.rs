//! Properties of the splitter, stated over the model of one pull.
use vstd::prelude::*;

use crate::blank::is_blank;
use crate::model::{
    lemma_token_end_from, pull, token_end, trim_start, with_unwrapping, SplitState, QUOTE,
};

verus! {

/// Every character of `s` is blank.
pub open spec fn all_blank(s: Seq<char>) -> bool {
    forall|i: int| 0 <= i < s.len() ==> is_blank(#[trigger] s[i])
}

/// No character of `s` is a quote.
pub open spec fn has_no_quote(s: Seq<char>) -> bool {
    forall|i: int| 0 <= i < s.len() ==> #[trigger] s[i] != QUOTE
}

/// The blanks that a pull skips at the start of `s`.
pub open spec fn blank_prefix(s: Seq<char>) -> Seq<char> {
    s.take(s.len() - trim_start(s).len())
}

/// Trimming leaves a suffix of `s`, after a prefix of blanks only.
pub proof fn lemma_trim_start(s: Seq<char>)
    ensures
        trim_start(s).len() <= s.len(),
        s.skip(s.len() - trim_start(s).len()) == trim_start(s),
        all_blank(blank_prefix(s)),
        trim_start(s).len() > 0 ==> !is_blank(trim_start(s)[0]),
    decreases s.len(),
{
    if s.len() > 0 && is_blank(s[0]) {
        let t = s.drop_first();
        lemma_trim_start(t);
        assert(s.skip(s.len() - trim_start(s).len()) =~= t.skip(t.len() - trim_start(t).len()));
        assert forall|i: int| 0 <= i < blank_prefix(s).len() implies is_blank(
            #[trigger] blank_prefix(s)[i],
        ) by {
            if i > 0 {
                assert(blank_prefix(s)[i] == blank_prefix(t)[i - 1]);
            }
        }
    } else {
        assert(s.skip(0) =~= s);
    }
}

/// Blanks in front of a text do not change how it is trimmed.
pub proof fn lemma_trim_start_blank_prefix(w: Seq<char>, s: Seq<char>)
    requires
        all_blank(w),
    ensures
        trim_start(w + s) == trim_start(s),
    decreases w.len(),
{
    if w.len() > 0 {
        assert((w + s).drop_first() =~= w.drop_first() + s);
        assert(is_blank((w + s)[0]));
        lemma_trim_start_blank_prefix(w.drop_first(), s);
    } else {
        assert(w + s =~= s);
    }
}

/// A pull keeps the delimiter and the unwrapping setting, and leaves a
/// suffix of the text: the text left never grows. When it returns a token,
/// the text before the suffix is the blanks skipped and the token as it
/// stood in the text, quotes included.
pub proof fn lemma_pull_leaves_suffix(st: SplitState)
    ensures
        all_blank(blank_prefix(st.rest)),
        pull(st).1.delimitor == st.delimitor,
        pull(st).1.unwrap_quotes == st.unwrap_quotes,
        pull(st).1.rest.len() <= st.rest.len(),
        st.rest.skip(st.rest.len() - pull(st).1.rest.len()) == pull(st).1.rest,
        pull(st).0 is None ==> st.rest == blank_prefix(st.rest),
        pull(st).0 is Some ==> st.rest == blank_prefix(st.rest) + trim_start(st.rest).take(
            trim_start(st.rest).len() - pull(st).1.rest.len(),
        ) + pull(st).1.rest,
{
    let s = trim_start(st.rest);
    lemma_trim_start(st.rest);
    if s.len() == 0 {
        assert(st.rest =~= blank_prefix(st.rest));
    } else {
        let quoted = s[0] == QUOTE;
        let e = token_end(s, st.delimitor, quoted);
        lemma_token_end_from(s, st.delimitor, quoted, 0);
        assert(s.take(s.len() - s.skip(e).len()) =~= s.take(e));
        assert(st.rest =~= blank_prefix(st.rest) + s.take(e) + s.skip(e));
        assert(st.rest.skip(st.rest.len() - s.skip(e).len()) =~= s.skip(e));
    }
}

/// Without quote unwrapping, or on a text without quotes, one pull splits
/// the text into the blanks it skipped, the token it returned and the text
/// left, and the token is not empty; when it returns no token, only blanks
/// were left.
pub proof fn lemma_pull_round_trip(st: SplitState)
    requires
        !st.unwrap_quotes || has_no_quote(st.rest),
    ensures
        all_blank(blank_prefix(st.rest)),
        match pull(st).0 {
            Some(tok) => st.rest == blank_prefix(st.rest) + tok + pull(st).1.rest && tok.len() > 0,
            None => st.rest == blank_prefix(st.rest),
        },
{
    lemma_pull_leaves_suffix(st);
    lemma_pull_shrinks(st);
    let s = trim_start(st.rest);
    if s.len() > 0 {
        lemma_trim_start(st.rest);
        let quoted = s[0] == QUOTE;
        if quoted {
            assert(s[0] == st.rest[st.rest.len() - s.len()]);
        }
        let e = token_end(s, st.delimitor, quoted);
        lemma_token_end_from(s, st.delimitor, quoted, 0);
        assert(s.take(s.len() - s.skip(e).len()) =~= s.take(e));
    }
}

/// A pull that returns a token leaves a strictly shorter text, and the
/// token is never empty unless quote unwrapping removed its two quotes. A
/// pull that returns none leaves no text at all.
pub proof fn lemma_pull_shrinks(st: SplitState)
    ensures
        pull(st).0 is Some ==> pull(st).1.rest.len() < st.rest.len(),
        pull(st).0 is None ==> pull(st).1.rest.len() == 0,
        pull(st).0 is Some && (!st.unwrap_quotes || has_no_quote(st.rest)) ==> pull(
            st,
        ).0->0.len() > 0,
{
    lemma_trim_start(st.rest);
    let s = trim_start(st.rest);
    if s.len() > 0 {
        let quoted = s[0] == QUOTE;
        if quoted {
            assert(s[0] == st.rest[st.rest.len() - s.len()]);
        }
        lemma_token_end_from(s, st.delimitor, quoted, 0);
    }
}

/// The state after `n` pulls from `st`.
pub open spec fn after_pulls(st: SplitState, n: nat) -> SplitState
    decreases n,
{
    if n == 0 {
        st
    } else {
        after_pulls(pull(st).1, (n - 1) as nat)
    }
}

/// After `n` pulls the text left is at most `n` characters shorter than at
/// the start, or empty.
proof fn lemma_after_pulls_len(st: SplitState, n: nat)
    ensures
        after_pulls(st, n).rest.len() == 0 || after_pulls(st, n).rest.len() + n <= st.rest.len(),
    decreases n,
{
    if n > 0 {
        lemma_pull_shrinks(st);
        lemma_after_pulls_len(pull(st).1, (n - 1) as nat);
        if pull(st).0 is None {
            lemma_pull_shrinks(pull(st).1);
            lemma_after_pulls_stay_empty(pull(st).1, (n - 1) as nat);
        }
    }
}

/// Once no text is left, pulls leave none.
proof fn lemma_after_pulls_stay_empty(st: SplitState, n: nat)
    requires
        st.rest.len() == 0,
    ensures
        after_pulls(st, n).rest.len() == 0,
    decreases n,
{
    if n > 0 {
        lemma_pull_shrinks(st);
        lemma_after_pulls_stay_empty(pull(st).1, (n - 1) as nat);
    }
}

/// The tokens run out: after as many pulls as the text has characters, the
/// next pull returns none, whatever the text, delimiter and setting.
pub proof fn lemma_pulls_end(st: SplitState)
    ensures
        pull(after_pulls(st, st.rest.len())).0 is None,
{
    lemma_after_pulls_len(st, st.rest.len());
    lemma_trim_start(after_pulls(st, st.rest.len()).rest);
}

/// Setting quote unwrapping twice to the same value is setting it once:
/// the states are equal, and so is every pull from them.
pub proof fn lemma_unwrapping_idempotent(st: SplitState, b: bool)
    ensures
        with_unwrapping(with_unwrapping(st, b), b) == with_unwrapping(st, b),
        pull(with_unwrapping(with_unwrapping(st, b), b)) == pull(with_unwrapping(st, b)),
{
}

/// Blanks in front of the text are skipped before its first character is
/// looked at, whatever the delimiter: a pull returns the same token and
/// leaves the same text with them as without them.
pub proof fn lemma_leading_blanks_skipped(st: SplitState, w: Seq<char>)
    requires
        all_blank(w),
    ensures
        pull(SplitState { rest: w + st.rest, ..st }) == pull(st),
{
    lemma_trim_start_blank_prefix(w, st.rest);
}

/// Without quote unwrapping, or on a text without quotes, the whole sequence
/// of tokens gives back the text: within one more pull than the text has
/// characters a pull returns none, and the tokens returned before it, each
/// after the blanks skipped in front of it, then the blanks skipped last,
/// make up the whole text.
pub proof fn lemma_whole_split_round_trip(st: SplitState)
    requires
        !st.unwrap_quotes || has_no_quote(st.rest),
    ensures
        rebuilt_to_end(st, (st.rest.len() + 1) as nat) == st.rest,
        pull(after_pulls(st, st.rest.len())).0 is None,
{
    lemma_pulls_end(st);
    lemma_rebuilt_to_end(st, (st.rest.len() + 1) as nat);
}

/// The text as the first `n` pulls from `st` give it back when the last of
/// them returns none: only the tokens and the blanks skipped before each.
pub open spec fn rebuilt_to_end(st: SplitState, n: nat) -> Seq<char>
    decreases n,
{
    if n == 0 {
        Seq::empty()
    } else {
        match pull(st).0 {
            Some(tok) => blank_prefix(st.rest) + tok + rebuilt_to_end(pull(st).1, (n - 1) as nat),
            None => blank_prefix(st.rest),
        }
    }
}

proof fn lemma_rebuilt_to_end(st: SplitState, n: nat)
    requires
        !st.unwrap_quotes || has_no_quote(st.rest),
        n > 0,
        pull(after_pulls(st, (n - 1) as nat)).0 is None,
    ensures
        rebuilt_to_end(st, n) == st.rest,
    decreases n,
{
    lemma_pull_round_trip(st);
    lemma_pull_leaves_suffix(st);
    let next = pull(st).1;
    if pull(st).0 is Some {
        if n == 1 {
            assert(pull(after_pulls(st, 0)).0 is None);
        } else {
            assert forall|i: int| 0 <= i < next.rest.len() implies #[trigger] next.rest[i]
                != QUOTE || !next.unwrap_quotes by {
                assert(next.rest[i] == st.rest[st.rest.len() - next.rest.len() + i]);
            }
            assert(after_pulls(st, (n - 1) as nat) == after_pulls(next, (n - 2) as nat));
            lemma_rebuilt_to_end(next, (n - 1) as nat);
        }
    }
}

} // verus!
