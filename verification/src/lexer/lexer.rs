//! A plainer lexer: every quoted string becomes a `Word` (quotes removed,
//! backslash escapes applied inside double quotes), whitespace of any kind
//! separates tokens, and only `| & ; < > ( )` end an unquoted word.

use vstd::prelude::*;

use super::token::{Token, TokenV};
use super::{char_at, lemma_quoted_body, quoted_body};
use crate::text::{is_whitespace, is_ws, str_chars, string_from_range};

verus! {

/// The first position at or after `p` that holds no whitespace.
pub open spec fn skip_spaces(s: Seq<char>, p: int) -> int
    decreases s.len() - p,
{
    if 0 <= p < s.len() && is_ws(s[p]) {
        skip_spaces(s, p + 1)
    } else {
        p
    }
}

/// A character that ends an unquoted word here.
pub open spec fn ends_plain_word(c: char) -> bool {
    is_ws(c) || c == '|' || c == '&' || c == ';' || c == '<' || c == '>' || c == '(' || c == ')'
}

/// The end of an unquoted word that continues at `p`.
pub open spec fn plain_word_end(s: Seq<char>, p: int) -> int
    decreases s.len() - p,
{
    if 0 <= p < s.len() && !ends_plain_word(s[p]) {
        plain_word_end(s, p + 1)
    } else {
        p
    }
}

/// The next token of `s` from `p` and the position after it; `None` where
/// only whitespace is left.
pub open spec fn next_plain_token(s: Seq<char>, p: int) -> (Option<TokenV>, int) {
    let p1 = skip_spaces(s, p);
    if p1 < 0 || p1 >= s.len() {
        (None, p1)
    } else {
        let c = s[p1];
        let q = p1 + 1;
        if c == '|' {
            if char_at(s, q) == Some('|') {
                (Some(TokenV::Or), q + 1)
            } else {
                (Some(TokenV::Pipe), q)
            }
        } else if c == '&' {
            if char_at(s, q) == Some('&') {
                (Some(TokenV::And), q + 1)
            } else {
                (Some(TokenV::Background), q)
            }
        } else if c == ';' {
            (Some(TokenV::Semicolon), q)
        } else if c == '<' {
            (Some(TokenV::RedirectIn), q)
        } else if c == '>' {
            if char_at(s, q) == Some('>') {
                (Some(TokenV::AppendOut), q + 1)
            } else {
                (Some(TokenV::RedirectOut), q)
            }
        } else if c == '\'' || c == '"' {
            let (w, e) = quoted_body(s, q, c);
            (Some(TokenV::Word(w)), e)
        } else {
            let e = plain_word_end(s, q);
            (Some(TokenV::Word(s.subrange(p1, e))), e)
        }
    }
}

proof fn lemma_skip_spaces(s: Seq<char>, p: int)
    requires
        0 <= p <= s.len(),
    ensures
        p <= skip_spaces(s, p) <= s.len(),
    decreases s.len() - p,
{
    if p < s.len() && is_ws(s[p]) {
        lemma_skip_spaces(s, p + 1);
    }
}

proof fn lemma_plain_word_end(s: Seq<char>, p: int)
    requires
        0 <= p <= s.len(),
    ensures
        p <= plain_word_end(s, p) <= s.len(),
    decreases s.len() - p,
{
    if p < s.len() && !ends_plain_word(s[p]) {
        lemma_plain_word_end(s, p + 1);
    }
}

/// Each token consumes at least one character and stays inside the input.
pub proof fn lemma_next_plain_progress(s: Seq<char>, p: int)
    requires
        0 <= p <= s.len(),
    ensures
        ({
            let (t, q) = next_plain_token(s, p);
            &&& t is Some ==> p < q <= s.len()
            &&& t is None ==> q == s.len()
        }),
{
    lemma_skip_spaces(s, p);
    let p1 = skip_spaces(s, p);
    if p1 < s.len() {
        lemma_quoted_body(s, p1 + 1, s[p1]);
        lemma_plain_word_end(s, p1 + 1);
    }
}

/// All tokens of `s` from `p` on.
pub open spec fn plain_lex_from(s: Seq<char>, p: int) -> Seq<TokenV>
    decreases s.len() - p,
{
    let (t, q) = next_plain_token(s, p);
    match t {
        None => Seq::empty(),
        Some(tv) => if p < q <= s.len() {
            seq![tv] + plain_lex_from(s, q)
        } else {
            Seq::empty()
        },
    }
}

/// A lexer over a fixed input, holding the position of the next character.
pub struct Lexer {
    input: Vec<char>,
    pos: usize,
}

impl Lexer {
    /// The input's characters.
    pub closed spec fn text(&self) -> Seq<char> {
        self.input@
    }

    /// The position of the next unread character.
    pub closed spec fn position(&self) -> int {
        self.pos as int
    }

    /// The position never passes the end of the input.
    pub closed spec fn wf(&self) -> bool {
        self.pos <= self.input@.len()
    }

    /// A lexer at the start of `input`.
    pub fn new(input: &str) -> (l: Self)
        ensures
            l.wf(),
            l.text() == input@,
            l.position() == 0,
    {
        Self { input: str_chars(input), pos: 0 }
    }

    fn peek(&self) -> (c: Option<char>)
        requires
            self.wf(),
        ensures
            c == char_at(self.input@, self.pos as int),
    {
        if self.pos < self.input.len() {
            Some(self.input[self.pos])
        } else {
            None
        }
    }

    fn advance(&mut self) -> (c: Option<char>)
        requires
            old(self).wf(),
        ensures
            final(self).wf(),
            final(self).input@ == old(self).input@,
            c == char_at(old(self).input@, old(self).pos as int),
            final(self).pos == if old(self).pos < old(self).input@.len() {
                old(self).pos + 1
            } else {
                old(self).pos as int
            },
    {
        let ch = self.peek();
        if self.pos < self.input.len() {
            self.pos = self.pos + 1;
        }
        ch
    }

    fn skip_whitespace(&mut self)
        requires
            old(self).wf(),
        ensures
            final(self).wf(),
            final(self).input@ == old(self).input@,
            final(self).pos == skip_spaces(old(self).input@, old(self).pos as int),
    {
        while self.pos < self.input.len() && is_whitespace(self.input[self.pos])
            invariant
                self.wf(),
                self.input@ == old(self).input@,
                skip_spaces(self.input@, self.pos as int) == skip_spaces(
                    old(self).input@,
                    old(self).pos as int,
                ),
            decreases self.input@.len() - self.pos,
        {
            self.pos = self.pos + 1;
        }
    }

    fn read_quoted(&mut self, quote: char) -> (w: String)
        requires
            old(self).wf(),
        ensures
            final(self).wf(),
            final(self).input@ == old(self).input@,
            (w@, final(self).pos as int) == quoted_body(
                old(self).input@,
                old(self).pos as int,
                quote,
            ),
    {
        let mut word = String::new();
        loop
            invariant
                self.wf(),
                self.input@ == old(self).input@,
                ({
                    let (r, e) = quoted_body(self.input@, self.pos as int, quote);
                    let (r0, e0) = quoted_body(self.input@, old(self).pos as int, quote);
                    word@ + r == r0 && e == e0
                }),
            decreases self.input@.len() - self.pos,
        {
            let ghost s = self.input@;
            let ghost p = self.pos as int;
            match self.advance() {
                None => {
                    assert(word@ + Seq::<char>::empty() =~= word@);
                    return word;
                },
                Some(c) => {
                    if c == quote {
                        assert(word@ + Seq::<char>::empty() =~= word@);
                        return word;
                    }
                    if c == '\\' && quote == '"' {
                        match self.advance() {
                            Some(escaped) => {
                                let ghost before = word@;
                                word.push(escaped);
                                proof {
                                    let (r, e) = quoted_body(s, p + 2, quote);
                                    assert(before + (seq![escaped] + r) =~= word@ + r);
                                }
                            },
                            None => {
                                assert(word@ + Seq::<char>::empty() =~= word@);
                                return word;
                            },
                        }
                    } else {
                        let ghost before = word@;
                        word.push(c);
                        proof {
                            let (r, e) = quoted_body(s, p + 1, quote);
                            assert(before + (seq![c] + r) =~= word@ + r);
                        }
                    }
                },
            }
        }
    }

    /// The next token, or `None` once only whitespace is left.
    pub fn next(&mut self) -> (t: Option<Token>)
        requires
            old(self).wf(),
        ensures
            final(self).wf(),
            final(self).text() == old(self).text(),
            (match t {
                Some(tok) => Some(tok@),
                None => None,
            }, final(self).position()) == next_plain_token(old(self).text(), old(self).position()),
    {
        self.skip_whitespace();
        let p1 = self.pos;
        let ch = match self.advance() {
            Some(c) => c,
            None => return None,
        };
        if ch == '|' {
            if self.peek() == Some('|') {
                self.advance();
                Some(Token::Or)
            } else {
                Some(Token::Pipe)
            }
        } else if ch == '&' {
            if self.peek() == Some('&') {
                self.advance();
                Some(Token::And)
            } else {
                Some(Token::Background)
            }
        } else if ch == ';' {
            Some(Token::Semicolon)
        } else if ch == '<' {
            Some(Token::RedirectIn)
        } else if ch == '>' {
            if self.peek() == Some('>') {
                self.advance();
                Some(Token::AppendOut)
            } else {
                Some(Token::RedirectOut)
            }
        } else if ch == '\'' || ch == '"' {
            let w = self.read_quoted(ch);
            Some(Token::Word(w))
        } else {
            while self.pos < self.input.len() && !(is_whitespace(self.input[self.pos])
                || self.input[self.pos] == '|' || self.input[self.pos] == '&'
                || self.input[self.pos] == ';' || self.input[self.pos] == '<'
                || self.input[self.pos] == '>' || self.input[self.pos] == '('
                || self.input[self.pos] == ')')
                invariant
                    self.wf(),
                    p1 < self.pos,
                    self.input@ == old(self).input@,
                    plain_word_end(self.input@, self.pos as int) == plain_word_end(
                        self.input@,
                        p1 + 1,
                    ),
                decreases self.input@.len() - self.pos,
            {
                self.pos = self.pos + 1;
            }
            Some(Token::Word(string_from_range(&self.input, p1, self.pos)))
        }
    }

    /// Every remaining token, in order.
    pub fn collect_tokens(&mut self) -> (r: Vec<Token>)
        requires
            old(self).wf(),
        ensures
            final(self).wf(),
            r@.map_values(|t: Token| t@) == plain_lex_from(old(self).text(), old(self).position()),
    {
        let mut out: Vec<Token> = Vec::new();
        let ghost s = self.input@;
        loop
            invariant
                self.wf(),
                self.input@ == s,
                s == old(self).input@,
                out@.map_values(|t: Token| t@) + plain_lex_from(s, self.pos as int)
                    == plain_lex_from(s, old(self).pos as int),
            decreases s.len() - self.pos,
        {
            let ghost p = self.pos as int;
            proof {
                lemma_next_plain_progress(s, p);
            }
            match self.next() {
                None => {
                    assert(out@.map_values(|t: Token| t@) + Seq::<TokenV>::empty()
                        =~= out@.map_values(|t: Token| t@));
                    return out;
                },
                Some(t) => {
                    let ghost before = out@;
                    out.push(t);
                    proof {
                        assert(out@.map_values(|t: Token| t@) =~= before.map_values(
                            |t: Token| t@,
                        ).push(t@));
                        assert(before.map_values(|t: Token| t@) + plain_lex_from(s, p)
                            =~= out@.map_values(|t: Token| t@) + plain_lex_from(
                            s,
                            self.pos as int,
                        ));
                    }
                },
            }
        }
    }
}

} // verus!
