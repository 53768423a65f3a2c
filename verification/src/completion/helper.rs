//! Whether an input line is complete, or the editor should ask for more:
//! `if`/`fi`, `while`/`for` with `done`, braces and parentheses must
//! balance, quotes must be closed, and the line must not end with a
//! backslash or with `&&`, `||` or `|`.

use vstd::prelude::*;

use crate::completion::engine::trim_end;
use crate::expansion::braced::ends_with;
use crate::lexer::lex;
use crate::lexer::token::{tokens_view, Token, TokenV};
use crate::lexer::tokenize_with_eof;
use crate::text::{eq_str, is_whitespace, str_chars};

verus! {

/// The line editor's helper: completion and the completeness check.
pub struct MitosHelper;

/// How far the tokens `ts` leave open `if` blocks, loops, braces and
/// parentheses.
pub open spec fn block_counts(ts: Seq<TokenV>) -> (int, int, int, int)
    decreases ts.len(),
{
    if ts.len() == 0 {
        (0, 0, 0, 0)
    } else {
        let c = block_counts(ts.drop_last());
        match ts.last() {
            TokenV::Word(w) => if w == "if"@ {
                (c.0 + 1, c.1, c.2, c.3)
            } else if w == "fi"@ {
                (c.0 - 1, c.1, c.2, c.3)
            } else if w == "while"@ || w == "for"@ {
                (c.0, c.1 + 1, c.2, c.3)
            } else if w == "done"@ {
                (c.0, c.1 - 1, c.2, c.3)
            } else {
                c
            },
            TokenV::LeftBrace => (c.0, c.1, c.2 + 1, c.3),
            TokenV::RightBrace => (c.0, c.1, c.2 - 1, c.3),
            TokenV::LeftParen => (c.0, c.1, c.2, c.3 + 1),
            TokenV::RightParen => (c.0, c.1, c.2, c.3 - 1),
            _ => c,
        }
    }
}

/// Whether a single or a double quote is open after scanning `s` from `i`
/// with the given quotes open. A backslash hides the character after it,
/// inside quotes too.
pub open spec fn quotes_open(s: Seq<char>, i: int, single: bool, double: bool) -> (bool, bool)
    decreases s.len() - i,
{
    if i < 0 || i >= s.len() {
        (single, double)
    } else if s[i] == '\\' {
        if i + 1 < s.len() {
            quotes_open(s, i + 2, single, double)
        } else {
            (single, double)
        }
    } else if s[i] == '\'' && !double {
        quotes_open(s, i + 1, !single, double)
    } else if s[i] == '"' && !single {
        quotes_open(s, i + 1, single, !double)
    } else {
        quotes_open(s, i + 1, single, double)
    }
}

/// Whether `input` is complete.
pub open spec fn complete(input: Seq<char>) -> bool {
    let t = trim_end(input);
    let q = quotes_open(input, 0, false, false);
    let c = block_counts(lex(input).push(TokenV::Eof));
    &&& !ends_with(t, seq!['\\'])
    &&& !ends_with(t, seq!['&', '&'])
    &&& !ends_with(t, seq!['|', '|'])
    &&& !ends_with(t, seq!['|'])
    &&& !q.0 && !q.1
    &&& c.0 <= 0 && c.1 <= 0 && c.2 <= 0 && c.3 <= 0
}

/// Whether the characters `v[..n]` end with `t`.
fn ends_with_at(v: &Vec<char>, n: usize, t: &[char]) -> (b: bool)
    requires
        n <= v@.len(),
    ensures
        b == ends_with(v@.subrange(0, n as int), t@),
{
    if t.len() > n {
        return false;
    }
    let off = n - t.len();
    let mut i: usize = 0;
    while i < t.len()
        invariant
            off + t@.len() == n,
            n <= v@.len(),
            i <= t@.len(),
            forall|j: int| 0 <= j < i ==> v@[off + j] == t@[j],
        decreases t@.len() - i,
    {
        if v[off + i] != t[i] {
            assert(v@.subrange(0, n as int).subrange(off as int, n as int)[i as int] != t@[i as int]);
            return false;
        }
        i = i + 1;
    }
    assert(v@.subrange(0, n as int).subrange(off as int, n as int) =~= t@);
    true
}

impl MitosHelper {
    /// Whether `input` is complete, or more lines are needed.
    pub fn is_complete(&self, input: &str) -> (b: bool)
        ensures
            b == complete(input@),
    {
        is_complete(input)
    }
}

/// Whether `input` is complete, or more lines are needed.
pub fn is_complete(input: &str) -> (b: bool)
    ensures
        b == complete(input@),
{
    let chars = str_chars(input);
    let mut end = chars.len();
    assert(chars@.subrange(0, end as int) =~= chars@);
    while end > 0 && is_whitespace(chars[end - 1])
        invariant
            end <= chars@.len(),
            chars@ == input@,
            trim_end(chars@.subrange(0, end as int)) == trim_end(input@),
        decreases end,
    {
        assert(chars@.subrange(0, end as int).drop_last() =~= chars@.subrange(0, end - 1));
        end = end - 1;
    }
    assert(trim_end(chars@.subrange(0, end as int)) == chars@.subrange(0, end as int));
    let backslash = ['\\'];
    let and_and = ['&', '&'];
    let or_or = ['|', '|'];
    let pipe = ['|'];
    assert(backslash@ =~= seq!['\\']);
    assert(and_and@ =~= seq!['&', '&']);
    assert(or_or@ =~= seq!['|', '|']);
    assert(pipe@ =~= seq!['|']);
    if ends_with_at(&chars, end, &backslash) {
        return false;
    }
    if ends_with_at(&chars, end, &and_and) || ends_with_at(&chars, end, &or_or) || ends_with_at(
        &chars,
        end,
        &pipe,
    ) {
        return false;
    }
    let tokens = tokenize_with_eof(input);
    let ghost ts = tokens_view(tokens@);
    let mut if_n: i128 = 0;
    let mut done_n: i128 = 0;
    let mut brace: i128 = 0;
    let mut paren: i128 = 0;
    let mut k: usize = 0;
    assert(ts.subrange(0, 0) =~= Seq::<TokenV>::empty());
    while k < tokens.len()
        invariant
            k <= tokens@.len(),
            ts == tokens_view(tokens@),
            block_counts(ts.subrange(0, k as int)) == (
                if_n as int,
                done_n as int,
                brace as int,
                paren as int,
            ),
            -(k as int) <= if_n <= k,
            -(k as int) <= done_n <= k,
            -(k as int) <= brace <= k,
            -(k as int) <= paren <= k,
        decreases tokens@.len() - k,
    {
        assert(ts.subrange(0, k + 1).drop_last() =~= ts.subrange(0, k as int));
        assert(ts.subrange(0, k + 1).last() == tokens@[k as int]@);
        match &tokens[k] {
            Token::Word(w) => {
                if eq_str(w.as_str(), "if") {
                    if_n = if_n + 1;
                } else if eq_str(w.as_str(), "fi") {
                    if_n = if_n - 1;
                } else if eq_str(w.as_str(), "while") || eq_str(w.as_str(), "for") {
                    done_n = done_n + 1;
                } else if eq_str(w.as_str(), "done") {
                    done_n = done_n - 1;
                }
            },
            Token::LeftBrace => {
                brace = brace + 1;
            },
            Token::RightBrace => {
                brace = brace - 1;
            },
            Token::LeftParen => {
                paren = paren + 1;
            },
            Token::RightParen => {
                paren = paren - 1;
            },
            _ => {},
        }
        k = k + 1;
    }
    assert(ts.subrange(0, tokens@.len() as int) =~= ts);
    let mut single = false;
    let mut double = false;
    let mut i: usize = 0;
    while i < chars.len()
        invariant
            chars@ == input@,
            quotes_open(chars@, i as int, single, double) == quotes_open(input@, 0, false, false),
        decreases chars@.len() - i,
    {
        let c = chars[i];
        if c == '\\' {
            if i + 1 < chars.len() {
                i = i + 2;
            } else {
                i = chars.len();
            }
        } else {
            if c == '\'' && !double {
                single = !single;
            } else if c == '"' && !single {
                double = !double;
            }
            i = i + 1;
        }
    }
    if single || double {
        return false;
    }
    if_n <= 0 && done_n <= 0 && brace <= 0 && paren <= 0
}

} // verus!
