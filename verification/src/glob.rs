//! Wildcard patterns: tokens, what it means for a pattern to match a path,
//! and a memoized matcher proved against that meaning.

use crate::text::{char_at, chars_of};
use vstd::prelude::*;

verus! {

/// One element of a compiled pattern.
#[derive(Clone, Copy, Debug, PartialEq, Eq)]
pub enum Token {
    /// `*`: a run of characters other than `/`.
    Star,
    /// `**` (or a longer run of stars): a run of any characters.
    DoubleStar,
    /// `?`: one character other than `/`.
    Qm,
    /// Any other character: itself.
    Char(char),
}

/// The number of `*` that `p` starts with.
pub open spec fn star_run(p: Seq<char>) -> int
    decreases p.len(),
{
    if p.len() > 0 && p[0] == '*' {
        1 + star_run(p.drop_first())
    } else {
        0
    }
}

/// `star_run` stays within the pattern.
pub proof fn lemma_star_run(p: Seq<char>)
    ensures
        0 <= star_run(p) <= p.len(),
        forall|k: int| 0 <= k < star_run(p) ==> p[k] == '*',
        star_run(p) < p.len() ==> p[star_run(p)] != '*',
    decreases p.len(),
{
    if p.len() > 0 && p[0] == '*' {
        let t = p.drop_first();
        lemma_star_run(t);
        assert forall|k: int| 0 <= k < star_run(p) implies p[k] == '*' by {
            if k > 0 {
                assert(p[k] == t[k - 1]);
            }
        }
    }
}

/// The tokens of a pattern: one star is `Star`, a longer run of stars is one
/// `DoubleStar`, `?` is `Qm`, any other character stands for itself.
pub open spec fn tokens_of(p: Seq<char>) -> Seq<Token>
    decreases p.len(),
{
    if p.len() == 0 {
        seq![]
    } else if p[0] == '*' {
        let n = star_run(p);
        if 2 <= n <= p.len() {
            seq![Token::DoubleStar] + tokens_of(p.skip(n))
        } else {
            seq![Token::Star] + tokens_of(p.drop_first())
        }
    } else if p[0] == '?' {
        seq![Token::Qm] + tokens_of(p.drop_first())
    } else {
        seq![Token::Char(p[0])] + tokens_of(p.drop_first())
    }
}

/// Compiles a pattern into tokens.
pub fn tokenize(pattern: &str) -> (tokens: Vec<Token>)
    ensures
        tokens@ == tokens_of(pattern@),
{
    let chars = chars_of(pattern);
    tokenize_chars(&chars)
}

/// How `tokens_of` unfolds at a pattern that starts with `n` stars.
proof fn lemma_tokens_of_stars(p: Seq<char>, n: int)
    requires
        1 <= n <= p.len(),
        forall|k: int| 0 <= k < n ==> p[k] == '*',
        n < p.len() ==> p[n] != '*',
    ensures
        n >= 2 ==> tokens_of(p) == seq![Token::DoubleStar] + tokens_of(p.skip(n)),
        n == 1 ==> tokens_of(p) == seq![Token::Star] + tokens_of(p.skip(1)),
{
    lemma_star_run(p);
    let m = star_run(p);
    if m < n {
        assert(p[m] == '*');
    }
    if m > n {
        assert(p[n] == '*');
    }
    assert(p.drop_first() == p.skip(1));
}

/// Compiles the characters of a pattern into tokens.
pub fn tokenize_chars(chars: &Vec<char>) -> (tokens: Vec<Token>)
    ensures
        tokens@ == tokens_of(chars@),
{
    let mut tokens: Vec<Token> = Vec::new();
    let mut i: usize = 0;
    assert(chars@.skip(0) == chars@);
    assert(tokens@ + tokens_of(chars@) == tokens_of(chars@));
    while i < chars.len()
        invariant
            i <= chars.len(),
            tokens_of(chars@) == tokens@ + tokens_of(chars@.skip(i as int)),
        decreases chars.len() - i,
    {
        let ghost rest = chars@.skip(i as int);
        let ghost before = tokens@;
        let ch = char_at(chars, i);
        let mut j: usize = i + 1;
        let tok = if ch == '*' {
            while j < chars.len() && chars[j] == '*'
                invariant
                    i < j <= chars.len(),
                    forall|k: int| i <= k < j ==> chars@[k] == '*',
                decreases chars.len() - j,
            {
                j += 1;
            }
            proof {
                lemma_tokens_of_stars(rest, j - i);
            }
            if j - i >= 2 {
                Token::DoubleStar
            } else {
                Token::Star
            }
        } else if ch == '?' {
            Token::Qm
        } else {
            Token::Char(ch)
        };
        assert(rest.drop_first() == rest.skip(1));
        assert(tokens_of(rest) == seq![tok] + tokens_of(rest.skip(j - i)));
        assert(rest.skip(j - i) == chars@.skip(j as int));
        tokens.push(tok);
        assert(tokens@ == before + seq![tok]);
        i = j;
    }
    tokens
}

/// No character of `s` is the path separator.
pub open spec fn no_sep(s: Seq<char>) -> bool {
    forall|k: int| 0 <= k < s.len() ==> s[k] != '/'
}

/// Whether the pattern `tokens` matches the whole of `text`.
///
/// A character matches itself; `?` matches one character that is not `/`;
/// `*` matches a run, possibly empty, of characters that are not `/`; `**`
/// matches any run of characters. A star either takes nothing, or takes one
/// more character and goes on.
pub open spec fn glob_matches(tokens: Seq<Token>, text: Seq<char>) -> bool
    decreases tokens.len(), text.len(),
{
    if tokens.len() == 0 {
        text.len() == 0
    } else {
        let rest = tokens.drop_first();
        match tokens[0] {
            Token::Char(c) => text.len() > 0 && text[0] == c && glob_matches(
                rest,
                text.drop_first(),
            ),
            Token::Qm => text.len() > 0 && text[0] != '/' && glob_matches(rest, text.drop_first()),
            Token::Star => glob_matches(rest, text) || (text.len() > 0 && text[0] != '/'
                && glob_matches(tokens, text.drop_first())),
            Token::DoubleStar => glob_matches(rest, text) || (text.len() > 0 && glob_matches(
                tokens,
                text.drop_first(),
            )),
        }
    }
}

/// Whether `text` splits into a run of `k` characters that the star
/// `tokens[0]` may take and a remainder that the rest of the pattern matches.
pub open spec fn star_split(tokens: Seq<Token>, text: Seq<char>, k: int) -> bool {
    &&& 0 <= k <= text.len()
    &&& tokens[0] is Star ==> no_sep(text.take(k))
    &&& glob_matches(tokens.drop_first(), text.skip(k))
}

/// A pattern that starts with a star matches if the text splits into a run
/// for the star and a remainder for the rest.
pub proof fn lemma_star_takes_run(tokens: Seq<Token>, text: Seq<char>, k: int)
    requires
        tokens.len() > 0,
        tokens[0] is Star || tokens[0] is DoubleStar,
        star_split(tokens, text, k),
    ensures
        glob_matches(tokens, text),
    decreases k,
{
    if k == 0 {
        assert(text.skip(0) == text);
    } else {
        let t = text.drop_first();
        assert(t.skip(k - 1) == text.skip(k));
        if tokens[0] is Star {
            let head = t.take(k - 1);
            assert(text.take(k)[0] == text[0]);
            assert forall|j: int| 0 <= j < head.len() implies head[j] != '/' by {
                assert(head[j] == text.take(k)[j + 1]);
            }
        }
        lemma_star_takes_run(tokens, t, k - 1);
    }
}

/// A pattern that starts with a star matches only if the text splits into a
/// run for the star and a remainder for the rest.
pub proof fn lemma_star_run_exists(tokens: Seq<Token>, text: Seq<char>) -> (k: int)
    requires
        tokens.len() > 0,
        tokens[0] is Star || tokens[0] is DoubleStar,
        glob_matches(tokens, text),
    ensures
        star_split(tokens, text, k),
    decreases text.len(),
{
    if glob_matches(tokens.drop_first(), text) {
        assert(text.skip(0) == text);
        0
    } else {
        let t = text.drop_first();
        let k = lemma_star_run_exists(tokens, t);
        assert(t.skip(k) == text.skip(k + 1));
        if tokens[0] is Star {
            let head = text.take(k + 1);
            assert forall|j: int| 0 <= j < head.len() implies head[j] != '/' by {
                if j > 0 {
                    assert(head[j] == t.take(k)[j - 1]);
                }
            }
        }
        k + 1
    }
}

/// Whether the pattern from token `ti` on matches the text from character
/// `si` on.
pub open spec fn matches_at(tokens: Seq<Token>, text: Seq<char>, ti: int, si: int) -> bool {
    glob_matches(tokens.skip(ti), text.skip(si))
}

/// Every filled entry of the table holds the answer for its pair of indices.
pub open spec fn memo_sound(
    memo: Seq<Vec<Option<bool>>>,
    tokens: Seq<Token>,
    text: Seq<char>,
) -> bool {
    &&& memo.len() == tokens.len() + 1
    &&& forall|i: int| 0 <= i < memo.len() ==> (#[trigger] memo[i]).len() == text.len() + 1
    &&& forall|i: int, j: int|
        0 <= i <= tokens.len() && 0 <= j <= text.len() ==> (#[trigger] memo[i]@[j] matches Some(b)
            ==> b == matches_at(tokens, text, i, j))
}

/// How `matches_at` unfolds at a token that consumes one character.
proof fn lemma_step_one(tokens: Seq<Token>, text: Seq<char>, ti: int, si: int)
    requires
        0 <= ti < tokens.len(),
        0 <= si <= text.len(),
        tokens[ti] is Char || tokens[ti] is Qm,
    ensures
        matches_at(tokens, text, ti, si) <==> (si < text.len() && (match tokens[ti] {
            Token::Char(c) => text[si] == c,
            _ => text[si] != '/',
        }) && matches_at(tokens, text, ti + 1, si + 1)),
{
    assert(tokens.skip(ti).drop_first() == tokens.skip(ti + 1));
    if si < text.len() {
        assert(text.skip(si).drop_first() == text.skip(si + 1));
    }
}

/// A star matches if the rest matches after some run of `k` characters
/// without a separator.
proof fn lemma_star_hit(tokens: Seq<Token>, text: Seq<char>, ti: int, si: int, k: int)
    requires
        0 <= ti < tokens.len(),
        0 <= si <= si + k <= text.len(),
        tokens[ti] is Star || tokens[ti] is DoubleStar,
        tokens[ti] is Star ==> forall|j: int| si <= j < si + k ==> text[j] != '/',
        matches_at(tokens, text, ti + 1, si + k),
    ensures
        matches_at(tokens, text, ti, si),
{
    let t = text.skip(si);
    let here = tokens.skip(ti);
    assert(here[0] == tokens[ti]);
    assert(here.drop_first() == tokens.skip(ti + 1));
    assert(t.skip(k) == text.skip(si + k));
    if tokens[ti] is Star {
        assert forall|j: int| 0 <= j < t.take(k).len() implies t.take(k)[j] != '/' by {
            assert(t.take(k)[j] == text[si + j]);
        }
    }
    lemma_star_takes_run(here, t, k);
}

/// A star does not match if the rest matches after no run that it may take:
/// `limit` is the end of the text or, for a single star, the first separator.
proof fn lemma_star_miss(
    tokens: Seq<Token>,
    text: Seq<char>,
    ti: int,
    tn: int,
    si: int,
    limit: int,
)
    requires
        0 <= ti < tokens.len(),
        tn == ti + 1,
        0 <= si <= limit <= text.len(),
        tokens[ti] is Star || tokens[ti] is DoubleStar,
        forall|j: int| si <= j <= limit ==> !#[trigger] matches_at(tokens, text, tn, j),
        limit < text.len() ==> tokens[ti] is Star && text[limit] == '/',
    ensures
        !matches_at(tokens, text, ti, si),
{
    let t = text.skip(si);
    let here = tokens.skip(ti);
    assert(here[0] == tokens[ti]);
    assert(here.drop_first() == tokens.skip(ti + 1));
    if glob_matches(here, t) {
        let k = lemma_star_run_exists(here, t);
        assert(t.skip(k) == text.skip(si + k));
        if si + k > limit {
            assert(t.take(k)[limit - si] == text[limit]);
        } else {
            assert(!matches_at(tokens, text, tn, si + k));
        }
    }
}

/// Whether the pattern from token `ti` on matches the text from character
/// `si` on, looking the answer up in `memo` or computing and recording it.
pub fn glob_match_inner(
    tokens: &Vec<Token>,
    text: &Vec<char>,
    ti: usize,
    si: usize,
    memo: &mut Vec<Vec<Option<bool>>>,
) -> (result: bool)
    requires
        ti <= tokens.len(),
        si <= text.len(),
        memo_sound(old(memo)@, tokens@, text@),
    ensures
        result == matches_at(tokens@, text@, ti as int, si as int),
        memo_sound(final(memo)@, tokens@, text@),
    decreases tokens.len() - ti,
{
    if let Some(result) = memo[ti][si] {
        return result;
    }
    let result = if ti == tokens.len() {
        assert(tokens@.skip(ti as int).len() == 0);
        si == text.len()
    } else {
        match tokens[ti] {
            Token::Char(c) => {
                proof {
                    lemma_step_one(tokens@, text@, ti as int, si as int);
                }
                si < text.len() && char_at(text, si) == c && glob_match_inner(
                    tokens,
                    text,
                    ti + 1,
                    si + 1,
                    memo,
                )
            },
            Token::Qm => {
                proof {
                    lemma_step_one(tokens@, text@, ti as int, si as int);
                }
                si < text.len() && text[si] != '/' && glob_match_inner(
                    tokens,
                    text,
                    ti + 1,
                    si + 1,
                    memo,
                )
            },
            Token::Star => {
                let mut idx: usize = si;
                let ghost tn: int = ti + 1;
                let mut found = glob_match_inner(tokens, text, ti + 1, si, memo);
                while !found && idx < text.len() && text[idx] != '/'
                    invariant
                        ti < tokens.len(),
                        tokens@[ti as int] is Star,
                        si <= idx <= text.len(),
                        memo_sound(memo@, tokens@, text@),
                        forall|j: int| si <= j < idx ==> text@[j] != '/',
                        tn == ti + 1,
                        found ==> matches_at(tokens@, text@, tn, idx as int),
                        !found ==> forall|j: int|
                            si <= j <= idx ==> !#[trigger] matches_at(tokens@, text@, tn, j),
                    decreases text.len() - idx,
                {
                    idx += 1;
                    found = glob_match_inner(tokens, text, ti + 1, idx, memo);
                }
                proof {
                    if found {
                        lemma_star_hit(tokens@, text@, ti as int, si as int, idx - si);
                    } else {
                        lemma_star_miss(tokens@, text@, ti as int, tn, si as int, idx as int);
                    }
                }
                found
            },
            Token::DoubleStar => {
                let mut idx: usize = si;
                let ghost tn: int = ti + 1;
                let mut found = glob_match_inner(tokens, text, ti + 1, si, memo);
                while !found && idx < text.len()
                    invariant
                        ti < tokens.len(),
                        tokens@[ti as int] is DoubleStar,
                        si <= idx <= text.len(),
                        memo_sound(memo@, tokens@, text@),
                        tn == ti + 1,
                        found ==> matches_at(tokens@, text@, tn, idx as int),
                        !found ==> forall|j: int|
                            si <= j <= idx ==> !#[trigger] matches_at(tokens@, text@, tn, j),
                    decreases text.len() - idx,
                {
                    idx += 1;
                    found = glob_match_inner(tokens, text, ti + 1, idx, memo);
                }
                proof {
                    if found {
                        lemma_star_hit(tokens@, text@, ti as int, si as int, idx - si);
                    } else {
                        lemma_star_miss(tokens@, text@, ti as int, tn, si as int, idx as int);
                    }
                }
                found
            },
        }
    };
    memo[ti][si] = Some(result);
    result
}

/// A row of `n + 1` empty entries.
fn empty_row(n: usize) -> (row: Vec<Option<bool>>)
    ensures
        row.len() == n + 1,
        forall|j: int| 0 <= j <= n ==> row@[j] is None,
{
    let mut row: Vec<Option<bool>> = Vec::new();
    row.push(None);
    let mut j: usize = 0;
    while j < n
        invariant
            j <= n,
            row.len() == j + 1,
            forall|k: int| 0 <= k <= j ==> row@[k] is None,
        decreases n - j,
    {
        row.push(None);
        j += 1;
    }
    row
}

/// Whether the pattern `tokens` matches the whole of `text`.
pub fn glob_match_chars(tokens: &Vec<Token>, text: &Vec<char>) -> (result: bool)
    ensures
        result == glob_matches(tokens@, text@),
{
    let mut memo: Vec<Vec<Option<bool>>> = Vec::new();
    memo.push(empty_row(text.len()));
    let mut i: usize = 0;
    while i < tokens.len()
        invariant
            i <= tokens.len(),
            memo.len() == i + 1,
            forall|r: int| 0 <= r <= i ==> (#[trigger] memo@[r]).len() == text.len() + 1,
            forall|r: int, j: int|
                0 <= r <= i && 0 <= j <= text.len() ==> (#[trigger] memo@[r]@[j]) is None,
        decreases tokens.len() - i,
    {
        memo.push(empty_row(text.len()));
        i += 1;
    }
    assert(tokens@.skip(0) == tokens@);
    assert(text@.skip(0) == text@);
    glob_match_inner(tokens, text, 0, 0, &mut memo)
}

/// Whether the pattern `tokens` matches the whole of `text`.
pub fn glob_match_tokens(tokens: &Vec<Token>, text: &str) -> (result: bool)
    ensures
        result == glob_matches(tokens@, text@),
{
    let chars = chars_of(text);
    glob_match_chars(tokens, &chars)
}

/// Patterns compose: where one pattern matches a text and a second pattern
/// matches another, the two patterns in a row match the two texts in a row.
pub proof fn lemma_match_concat(p: Seq<Token>, t: Seq<char>, q: Seq<Token>, u: Seq<char>)
    requires
        glob_matches(p, t),
        glob_matches(q, u),
    ensures
        glob_matches(p + q, t + u),
    decreases p.len(), t.len(),
{
    if p.len() == 0 {
        assert(p + q == q);
        assert(t + u == u);
    } else {
        let rest = p.drop_first();
        assert((p + q)[0] == p[0]);
        assert((p + q).drop_first() == rest + q);
        if t.len() > 0 {
            assert((t + u)[0] == t[0]);
            assert((t + u).drop_first() == t.drop_first() + u);
        }
        match p[0] {
            Token::Char(_) => {
                lemma_match_concat(rest, t.drop_first(), q, u);
            },
            Token::Qm => {
                lemma_match_concat(rest, t.drop_first(), q, u);
            },
            Token::Star => {
                if glob_matches(rest, t) {
                    lemma_match_concat(rest, t, q, u);
                } else {
                    lemma_match_concat(p, t.drop_first(), q, u);
                }
            },
            Token::DoubleStar => {
                if glob_matches(rest, t) {
                    lemma_match_concat(rest, t, q, u);
                } else {
                    lemma_match_concat(p, t.drop_first(), q, u);
                }
            },
        }
    }
}

/// A double star alone matches every text.
pub proof fn lemma_double_star_matches_all(text: Seq<char>)
    ensures
        glob_matches(seq![Token::DoubleStar], text),
    decreases text.len(),
{
    let p = seq![Token::DoubleStar];
    assert(p.len() == 1);
    assert(p[0] is DoubleStar);
    assert(p.drop_first().len() == 0);
    if text.len() > 0 {
        lemma_double_star_matches_all(text.drop_first());
    } else {
        assert(glob_matches(p.drop_first(), text));
    }
}

/// The cross-segment wildcard: a double star between two patterns lets any
/// run of characters, separators or not, stand between what the two match.
pub proof fn lemma_double_star_between(
    before: Seq<Token>,
    after: Seq<Token>,
    head: Seq<char>,
    middle: Seq<char>,
    tail: Seq<char>,
)
    requires
        glob_matches(before, head),
        glob_matches(after, tail),
    ensures
        glob_matches(before + seq![Token::DoubleStar] + after, head + middle + tail),
{
    lemma_double_star_matches_all(middle);
    lemma_match_concat(before, head, seq![Token::DoubleStar], middle);
    lemma_match_concat(before + seq![Token::DoubleStar], head + middle, after, tail);
}

/// No character of `w` is a wildcard.
pub open spec fn is_literal(w: Seq<char>) -> bool {
    forall|i: int| 0 <= i < w.len() ==> w[i] != '*' && w[i] != '?'
}

/// A pattern without wildcards matches its own text and no other.
pub proof fn lemma_literal_matches_itself_only(w: Seq<char>, text: Seq<char>)
    requires
        is_literal(w),
    ensures
        glob_matches(tokens_of(w), text) <==> text == w,
    decreases w.len(),
{
    if w.len() == 0 {
        assert(text == w <==> text.len() == 0) by {
            if text.len() == 0 {
                assert(text =~= w);
            }
        }
    } else {
        let p = tokens_of(w);
        let rest = w.drop_first();
        assert(crate::text::char_in(w, 0) == w[0]);
        assert(w[0] != '*' && w[0] != '?');
        assert(p == seq![Token::Char(w[0])] + tokens_of(rest));
        assert(p[0] == Token::Char(w[0]));
        assert(p.drop_first() == tokens_of(rest));
        assert forall|i: int| 0 <= i < rest.len() implies rest[i] != '*' && rest[i] != '?' by {
            assert(rest[i] == w[i + 1]);
        }
        if text.len() > 0 {
            lemma_literal_matches_itself_only(rest, text.drop_first());
            if text[0] == w[0] && text.drop_first() == rest {
                assert(text =~= seq![text[0]] + text.drop_first());
                assert(w =~= seq![w[0]] + rest);
            }
        }
    }
}

} // verus!
