//! The shell's lexer: splits input text into operator, quoted-string and
//! word tokens. Quoted regions that start a word become their own
//! `SingleQuoted`/`DoubleQuoted` tokens; a quote that appears later inside a
//! word keeps the whole quoted region (raw, quotes included) inside that
//! word. Newlines are tokens of their own.

use vstd::prelude::*;

pub mod lexer;
pub mod token;

use crate::lexer::token::{tokens_view, Token, TokenV};
use crate::text::{is_whitespace, is_ws, str_chars, string_from_range};

verus! {

/// Space or tab: the blanks skipped between tokens.
pub open spec fn is_blank(c: char) -> bool {
    c == ' ' || c == '\t'
}

/// The first position at or after `p` that holds no blank.
pub open spec fn skip_blanks(s: Seq<char>, p: int) -> int
    decreases s.len() - p,
{
    if 0 <= p < s.len() && is_blank(s[p]) {
        skip_blanks(s, p + 1)
    } else {
        p
    }
}

/// A character that ends an unquoted word.
pub open spec fn ends_word(c: char) -> bool {
    is_ws(c) || c == '|' || c == '&' || c == ';' || c == '<' || c == '>' || c == '(' || c
        == ')' || c == '{' || c == '}' || c == '!' || c == '\n'
}

/// Where the scan of a word stands with respect to quotes.
pub enum QuoteState {
    Bare,
    InSingle,
    InDouble,
}

/// Where a word that continues at `p` in quote state `st` ends: at the first
/// unquoted word-ending character, or at the end of the input. Inside double
/// quotes a backslash keeps the next character in the word.
pub open spec fn word_end(s: Seq<char>, p: int, st: QuoteState) -> int
    decreases s.len() - p,
{
    if p < 0 || p >= s.len() {
        p
    } else if st is InSingle {
        word_end(s, p + 1, if s[p] == '\'' { QuoteState::Bare } else { QuoteState::InSingle })
    } else if st is InDouble {
        if s[p] == '\\' {
            if p + 1 < s.len() {
                word_end(s, p + 2, QuoteState::InDouble)
            } else {
                p + 1
            }
        } else {
            word_end(s, p + 1, if s[p] == '"' { QuoteState::Bare } else { QuoteState::InDouble })
        }
    } else if ends_word(s[p]) {
        p
    } else {
        word_end(
            s,
            p + 1,
            if s[p] == '\'' {
                QuoteState::InSingle
            } else if s[p] == '"' {
                QuoteState::InDouble
            } else {
                QuoteState::Bare
            },
        )
    }
}

/// The position of the first `'` at or after `p`, or the end of the input.
pub open spec fn single_end(s: Seq<char>, p: int) -> int
    decreases s.len() - p,
{
    if p < 0 || p >= s.len() || s[p] == '\'' {
        p
    } else {
        single_end(s, p + 1)
    }
}

/// The contents of a string quoted by `q` whose body starts at `p`, together
/// with the position after the closing quote (or the end of the input).
/// Inside double quotes a backslash is dropped and the character after it
/// kept; inside single quotes every character stands for itself.
pub open spec fn quoted_body(s: Seq<char>, p: int, q: char) -> (Seq<char>, int)
    decreases s.len() - p,
{
    if p < 0 || p >= s.len() {
        (Seq::empty(), if p < 0 { p } else { s.len() as int })
    } else if s[p] == q {
        (Seq::empty(), p + 1)
    } else if q == '"' && s[p] == '\\' {
        if p + 1 < s.len() {
            let (r, e) = quoted_body(s, p + 2, q);
            (seq![s[p + 1]] + r, e)
        } else {
            (Seq::empty(), s.len() as int)
        }
    } else {
        let (r, e) = quoted_body(s, p + 1, q);
        (seq![s[p]] + r, e)
    }
}

/// The first position at or after `p` that holds no whitespace.
pub open spec fn skip_ws(s: Seq<char>, p: int) -> int
    decreases s.len() - p,
{
    if 0 <= p < s.len() && is_ws(s[p]) {
        skip_ws(s, p + 1)
    } else {
        p
    }
}

/// `w` with every trailing `=` removed.
pub open spec fn trim_trailing_eq(w: Seq<char>) -> Seq<char>
    decreases w.len(),
{
    if w.len() > 0 && w.last() == '=' {
        trim_trailing_eq(w.drop_last())
    } else {
        w
    }
}

/// The token that an unquoted word `w`, followed in `s` by position `e`,
/// becomes: an array assignment where `w` ends in `=` and the next
/// non-whitespace character is `(`, a plain word otherwise.
pub open spec fn word_token(s: Seq<char>, w: Seq<char>, e: int) -> TokenV {
    let t = skip_ws(s, e);
    if w.len() > 0 && w.last() == '=' && 0 <= t < s.len() && s[t] == '(' {
        TokenV::ArrayAssign(trim_trailing_eq(w))
    } else {
        TokenV::Word(w)
    }
}

/// The character at `p`, where there is one.
pub open spec fn char_at(s: Seq<char>, p: int) -> Option<char> {
    if 0 <= p < s.len() {
        Some(s[p])
    } else {
        None
    }
}

/// The next token of `s` from position `p` and the position after it;
/// `None` (at the end of the input) where only blanks are left.
pub open spec fn next_token(s: Seq<char>, p: int) -> (Option<TokenV>, int) {
    let p1 = skip_blanks(s, p);
    if p1 < 0 || p1 >= s.len() {
        (None, p1)
    } else {
        let c = s[p1];
        let q = p1 + 1;
        if c == '\n' {
            (Some(TokenV::Newline), q)
        } else if c == '|' {
            if char_at(s, q) == Some('|') {
                (Some(TokenV::Or), q + 1)
            } else {
                (Some(TokenV::Pipe), q)
            }
        } else if c == '&' {
            if char_at(s, q) == Some('&') {
                (Some(TokenV::And), q + 1)
            } else {
                (Some(TokenV::Background), q)
            }
        } else if c == ';' {
            (Some(TokenV::Semicolon), q)
        } else if c == '<' {
            if char_at(s, q) == Some('<') {
                if char_at(s, q + 1) == Some('<') {
                    (Some(TokenV::HereString), q + 2)
                } else if char_at(s, q + 1) == Some('-') {
                    (Some(TokenV::HereDocStart(true)), q + 2)
                } else {
                    (Some(TokenV::HereDocStart(false)), q + 1)
                }
            } else {
                (Some(TokenV::RedirectIn), q)
            }
        } else if c == '>' {
            if char_at(s, q) == Some('>') {
                (Some(TokenV::AppendOut), q + 1)
            } else {
                (Some(TokenV::RedirectOut), q)
            }
        } else if c == '\'' {
            let e = single_end(s, q);
            (
                Some(TokenV::SingleQuoted(s.subrange(q, e))),
                if e < s.len() {
                    e + 1
                } else {
                    s.len() as int
                },
            )
        } else if c == '"' {
            let (w, e) = quoted_body(s, q, '"');
            (Some(TokenV::DoubleQuoted(w)), e)
        } else if c == '(' {
            (Some(TokenV::LeftParen), q)
        } else if c == ')' {
            (Some(TokenV::RightParen), q)
        } else if c == '{' {
            (Some(TokenV::LeftBrace), q)
        } else if c == '}' {
            (Some(TokenV::RightBrace), q)
        } else if c == '!' {
            (Some(TokenV::Bang), q)
        } else {
            let e = word_end(s, q, QuoteState::Bare);
            (Some(word_token(s, s.subrange(p1, e), e)), e)
        }
    }
}

/// All tokens of `s` from position `p` on, in order.
pub open spec fn lex_from(s: Seq<char>, p: int) -> Seq<TokenV>
    decreases s.len() - p,
{
    let (t, q) = next_token(s, p);
    match t {
        None => Seq::empty(),
        Some(tv) => if p < q <= s.len() {
            seq![tv] + lex_from(s, q)
        } else {
            Seq::empty()
        },
    }
}

/// All tokens of `s`.
pub open spec fn lex(s: Seq<char>) -> Seq<TokenV> {
    lex_from(s, 0)
}

// ───────────────────────── facts about the specification ─────────────────────────

proof fn lemma_word_end_after(s: Seq<char>, q: int, st: QuoteState)
    requires
        0 <= q,
    ensures
        word_end(s, q, st) >= q,
    decreases s.len() - q,
{
    if q < s.len() {
        if st is InSingle {
            lemma_word_end_after(s, q + 1, if s[q] == '\'' { QuoteState::Bare } else { QuoteState::InSingle });
        } else if st is InDouble {
            if s[q] == '\\' {
                if q + 1 < s.len() {
                    lemma_word_end_after(s, q + 2, QuoteState::InDouble);
                }
            } else {
                lemma_word_end_after(s, q + 1, if s[q] == '"' { QuoteState::Bare } else { QuoteState::InDouble });
            }
        } else if !ends_word(s[q]) {
            lemma_word_end_after(
                s,
                q + 1,
                if s[q] == '\'' {
                    QuoteState::InSingle
                } else if s[q] == '"' {
                    QuoteState::InDouble
                } else {
                    QuoteState::Bare
                },
            );
        }
    }
}

/// A word scanned in `s` ends at the same place when it is scanned in the
/// text cut out of `s` from `p1` to that end.
proof fn lemma_word_end_cut(s: Seq<char>, p1: int, q: int, st: QuoteState, e: int)
    requires
        0 <= p1 < q <= e <= s.len(),
        word_end(s, q, st) == e,
    ensures
        word_end(s.subrange(p1, e), q - p1, st) == e - p1,
    decreases e - q,
{
    let w = s.subrange(p1, e);
    if q < e {
        assert(w[q - p1] == s[q]);
        if st is InSingle {
            let nst = if s[q] == '\'' { QuoteState::Bare } else { QuoteState::InSingle };
            lemma_word_end_after(s, q + 1, nst);
            lemma_word_end_cut(s, p1, q + 1, nst, e);
        } else if st is InDouble {
            if s[q] == '\\' {
                if q + 1 < s.len() {
                    lemma_word_end_after(s, q + 2, QuoteState::InDouble);
                    lemma_word_end_cut(s, p1, q + 2, QuoteState::InDouble, e);
                }
            } else {
                let nst = if s[q] == '"' { QuoteState::Bare } else { QuoteState::InDouble };
                lemma_word_end_after(s, q + 1, nst);
                lemma_word_end_cut(s, p1, q + 1, nst, e);
            }
        } else {
            let nst = if s[q] == '\'' {
                QuoteState::InSingle
            } else if s[q] == '"' {
                QuoteState::InDouble
            } else {
                QuoteState::Bare
            };
            if !ends_word(s[q]) {
                lemma_word_end_after(s, q + 1, nst);
                lemma_word_end_cut(s, p1, q + 1, nst, e);
            }
        }
    }
}

/// The text of a word token lexes back to that same single word: lexing
/// does not depend on what follows a word once the word is cut out.
pub proof fn law_word_relexes(s: Seq<char>, p: int, w: Seq<char>)
    requires
        0 <= p <= s.len(),
        next_token(s, p).0 == Some(TokenV::Word(w)),
    ensures
        lex(w) == seq![TokenV::Word(w)],
{
    lemma_skip_blanks(s, p);
    let p1 = skip_blanks(s, p);
    let e = word_end(s, p1 + 1, QuoteState::Bare);
    lemma_word_end_after(s, p1 + 1, QuoteState::Bare);
    lemma_word_end_bound(s, p1 + 1, QuoteState::Bare);
    assert(w == s.subrange(p1, e));
    lemma_word_end_cut(s, p1, p1 + 1, QuoteState::Bare, e);
    assert(w[0] == s[p1]);
    lemma_skip_blanks_stops(s, p);
    assert(!is_blank(w[0]));
    assert(skip_blanks(w, 0) == 0);
    assert(word_end(w, 1, QuoteState::Bare) == w.len());
    assert(skip_ws(w, w.len() as int) == w.len());
    assert(w.subrange(0, w.len() as int) =~= w);
    assert(next_token(w, 0) == (Some(TokenV::Word(w)), w.len() as int));
    assert(skip_blanks(w, w.len() as int) == w.len());
    assert(lex_from(w, w.len() as int) =~= Seq::<TokenV>::empty());
    assert(lex(w) =~= seq![TokenV::Word(w)] + Seq::<TokenV>::empty());
}

proof fn lemma_skip_blanks_stops(s: Seq<char>, p: int)
    requires
        0 <= p <= s.len(),
    ensures
        skip_blanks(s, p) < s.len() ==> !is_blank(s[skip_blanks(s, p)]),
    decreases s.len() - p,
{
    if p < s.len() && is_blank(s[p]) {
        lemma_skip_blanks_stops(s, p + 1);
    }
}

proof fn lemma_word_end_bound(s: Seq<char>, q: int, st: QuoteState)
    requires
        0 <= q <= s.len(),
    ensures
        word_end(s, q, st) <= s.len(),
    decreases s.len() - q,
{
    if q < s.len() {
        if st is InSingle {
            lemma_word_end_bound(s, q + 1, if s[q] == '\'' { QuoteState::Bare } else { QuoteState::InSingle });
        } else if st is InDouble {
            if s[q] == '\\' {
                if q + 1 < s.len() {
                    lemma_word_end_bound(s, q + 2, QuoteState::InDouble);
                }
            } else {
                lemma_word_end_bound(s, q + 1, if s[q] == '"' { QuoteState::Bare } else { QuoteState::InDouble });
            }
        } else if !ends_word(s[q]) {
            lemma_word_end_bound(
                s,
                q + 1,
                if s[q] == '\'' {
                    QuoteState::InSingle
                } else if s[q] == '"' {
                    QuoteState::InDouble
                } else {
                    QuoteState::Bare
                },
            );
        }
    }
}


proof fn lemma_skip_blanks(s: Seq<char>, p: int)
    requires
        0 <= p <= s.len(),
    ensures
        p <= skip_blanks(s, p) <= s.len(),
    decreases s.len() - p,
{
    if p < s.len() && is_blank(s[p]) {
        lemma_skip_blanks(s, p + 1);
    }
}

pub proof fn lemma_skip_ws_bounds(s: Seq<char>, p: int)
    requires
        0 <= p <= s.len(),
    ensures
        p <= skip_ws(s, p) <= s.len(),
    decreases s.len() - p,
{
    if p < s.len() && is_ws(s[p]) {
        lemma_skip_ws_bounds(s, p + 1);
    }
}

proof fn lemma_word_end(s: Seq<char>, p: int, st: QuoteState)
    requires
        0 <= p <= s.len(),
    ensures
        p <= word_end(s, p, st) <= s.len(),
    decreases s.len() - p,
{
    if p < s.len() {
        if st is InSingle {
            lemma_word_end(s, p + 1, if s[p] == '\'' { QuoteState::Bare } else { QuoteState::InSingle });
        } else if st is InDouble {
            if s[p] == '\\' {
                if p + 1 < s.len() {
                    lemma_word_end(s, p + 2, QuoteState::InDouble);
                }
            } else {
                lemma_word_end(s, p + 1, if s[p] == '"' { QuoteState::Bare } else { QuoteState::InDouble });
            }
        } else if !ends_word(s[p]) {
            lemma_word_end(
                s,
                p + 1,
                if s[p] == '\'' {
                    QuoteState::InSingle
                } else if s[p] == '"' {
                    QuoteState::InDouble
                } else {
                    QuoteState::Bare
                },
            );
        }
    }
}

proof fn lemma_single_end(s: Seq<char>, p: int)
    requires
        0 <= p <= s.len(),
    ensures
        p <= single_end(s, p) <= s.len(),
        single_end(s, p) < s.len() ==> s[single_end(s, p)] == '\'',
    decreases s.len() - p,
{
    if p < s.len() && s[p] != '\'' {
        lemma_single_end(s, p + 1);
    }
}

pub proof fn lemma_quoted_body(s: Seq<char>, p: int, q: char)
    requires
        0 <= p <= s.len(),
    ensures
        p <= quoted_body(s, p, q).1 <= s.len(),
    decreases s.len() - p,
{
    if p < s.len() && s[p] != q {
        if q == '"' && s[p] == '\\' {
            if p + 1 < s.len() {
                lemma_quoted_body(s, p + 2, q);
            }
        } else {
            lemma_quoted_body(s, p + 1, q);
        }
    }
}

/// Each token the lexer produces consumes at least one character and stays
/// inside the input; with no token, the position is the end of the input.
pub proof fn lemma_next_token_progress(s: Seq<char>, p: int)
    requires
        0 <= p <= s.len(),
    ensures
        ({
            let (t, q) = next_token(s, p);
            &&& t is Some ==> p < q <= s.len()
            &&& t is None ==> q == s.len()
        }),
{
    lemma_skip_blanks(s, p);
    let p1 = skip_blanks(s, p);
    if p1 < s.len() {
        lemma_single_end(s, p1 + 1);
        lemma_quoted_body(s, p1 + 1, '"');
        lemma_word_end(s, p1 + 1, QuoteState::Bare);
    }
}

/// No token that the lexer produces is `Eof`: that marker only ever comes
/// from `tokenize_with_eof`.
pub proof fn lemma_lex_has_no_eof(s: Seq<char>, p: int)
    requires
        0 <= p <= s.len(),
    ensures
        forall|i: int| 0 <= i < lex_from(s, p).len() ==> lex_from(s, p)[i] != TokenV::Eof,
    decreases s.len() - p,
{
    let (t, q) = next_token(s, p);
    lemma_next_token_progress(s, p);
    if t is Some {
        lemma_lex_has_no_eof(s, q);
        let rest = lex_from(s, q);
        let all = lex_from(s, p);
        assert forall|i: int| 0 <= i < all.len() implies all[i] != TokenV::Eof by {
            if i > 0 {
                assert(all[i] == rest[i - 1]);
            } else {
                let p1 = skip_blanks(s, p);
                let e = word_end(s, p1 + 1, QuoteState::Bare);
                let w = s.subrange(p1, e);
                let tt = skip_ws(s, e);
                if w.len() > 0 && w.last() == '=' && 0 <= tt < s.len() && s[tt] == '(' {
                } else {
                }
            }
        }
    }
}

// ───────────────────────── the lexer ─────────────────────────

/// A lexer over a fixed input, holding the position of the next character.
pub struct Lexer {
    input: Vec<char>,
    pos: usize,
}

impl Lexer {
    /// The input's characters.
    pub closed spec fn text(&self) -> Seq<char> {
        self.input@
    }

    /// The position of the next unread character.
    pub closed spec fn position(&self) -> int {
        self.pos as int
    }

    /// The position never passes the end of the input.
    pub closed spec fn wf(&self) -> bool {
        self.pos <= self.input@.len()
    }

    /// A lexer at the start of `input`.
    pub fn new(input: &str) -> (l: Self)
        ensures
            l.wf(),
            l.text() == input@,
            l.position() == 0,
    {
        Self { input: str_chars(input), pos: 0 }
    }

    fn peek(&self) -> (c: Option<char>)
        requires
            self.wf(),
        ensures
            c == char_at(self.input@, self.pos as int),
    {
        if self.pos < self.input.len() {
            Some(self.input[self.pos])
        } else {
            None
        }
    }

    fn advance(&mut self) -> (c: Option<char>)
        requires
            old(self).wf(),
        ensures
            final(self).wf(),
            final(self).input@ == old(self).input@,
            c == char_at(old(self).input@, old(self).pos as int),
            final(self).pos == if old(self).pos < old(self).input@.len() {
                old(self).pos + 1
            } else {
                old(self).pos as int
            },
    {
        let ch = self.peek();
        if self.pos < self.input.len() {
            self.pos = self.pos + 1;
        }
        ch
    }

    fn skip_spaces(&mut self)
        requires
            old(self).wf(),
        ensures
            final(self).wf(),
            final(self).input@ == old(self).input@,
            final(self).pos == skip_blanks(old(self).input@, old(self).pos as int),
    {
        while self.pos < self.input.len() && (self.input[self.pos] == ' ' || self.input[self.pos]
            == '\t')
            invariant
                self.wf(),
                self.input@ == old(self).input@,
                skip_blanks(self.input@, self.pos as int) == skip_blanks(
                    old(self).input@,
                    old(self).pos as int,
                ),
            decreases self.input@.len() - self.pos,
        {
            self.pos = self.pos + 1;
        }
    }

    fn read_single(&mut self) -> (w: String)
        requires
            old(self).wf(),
        ensures
            final(self).wf(),
            final(self).input@ == old(self).input@,
            ({
                let s = old(self).input@;
                let e = single_end(s, old(self).pos as int);
                &&& w@ == s.subrange(old(self).pos as int, e)
                &&& final(self).pos == if e < s.len() {
                    e + 1
                } else {
                    s.len() as int
                }
            }),
    {
        let start = self.pos;
        while self.pos < self.input.len() && self.input[self.pos] != '\''
            invariant
                self.wf(),
                start <= self.pos,
                self.input@ == old(self).input@,
                old(self).pos == start,
                single_end(self.input@, self.pos as int) == single_end(
                    self.input@,
                    start as int,
                ),
            decreases self.input@.len() - self.pos,
        {
            self.pos = self.pos + 1;
        }
        let w = string_from_range(&self.input, start, self.pos);
        if self.pos < self.input.len() {
            self.pos = self.pos + 1;
        }
        w
    }

    fn read_double(&mut self) -> (w: String)
        requires
            old(self).wf(),
        ensures
            final(self).wf(),
            final(self).input@ == old(self).input@,
            (w@, final(self).pos as int) == quoted_body(old(self).input@, old(self).pos as int, '"'),
    {
        let mut word = String::new();
        loop
            invariant
                self.wf(),
                self.input@ == old(self).input@,
                ({
                    let (r, e) = quoted_body(self.input@, self.pos as int, '"');
                    let (r0, e0) = quoted_body(self.input@, old(self).pos as int, '"');
                    word@ + r == r0 && e == e0
                }),
            decreases self.input@.len() - self.pos,
        {
            let ghost s = self.input@;
            let ghost p = self.pos as int;
            match self.advance() {
                None => {
                    assert(word@ + Seq::<char>::empty() =~= word@);
                    return word;
                },
                Some(c) => {
                    if c == '"' {
                        assert(word@ + Seq::<char>::empty() =~= word@);
                        return word;
                    }
                    if c == '\\' {
                        match self.advance() {
                            Some(escaped) => {
                                let ghost before = word@;
                                word.push(escaped);
                                proof {
                                    let (r, e) = quoted_body(s, p + 2, '"');
                                    assert(before + (seq![escaped] + r) =~= word@ + r);
                                }
                            },
                            None => {
                                assert(word@ + Seq::<char>::empty() =~= word@);
                                return word;
                            },
                        }
                    } else {
                        let ghost before = word@;
                        word.push(c);
                        proof {
                            let (r, e) = quoted_body(s, p + 1, '"');
                            assert(before + (seq![c] + r) =~= word@ + r);
                        }
                    }
                },
            }
        }
    }

    /// Reads an unquoted word whose first character, at `start`, has just
    /// been consumed.
    fn read_word(&mut self, start: usize) -> (t: Token)
        requires
            old(self).wf(),
            start + 1 == old(self).pos,
        ensures
            final(self).wf(),
            final(self).input@ == old(self).input@,
            ({
                let s = old(self).input@;
                let e = word_end(s, old(self).pos as int, QuoteState::Bare);
                &&& final(self).pos == e
                &&& t@ == word_token(s, s.subrange(start as int, e), e)
            }),
    {
        let mut in_single = false;
        let mut in_double = false;
        loop
            invariant
                self.wf(),
                start < self.pos,
                self.input@ == old(self).input@,
                !(in_single && in_double),
                word_end(
                    self.input@,
                    self.pos as int,
                    if in_single {
                        QuoteState::InSingle
                    } else if in_double {
                        QuoteState::InDouble
                    } else {
                        QuoteState::Bare
                    },
                ) == word_end(self.input@, old(self).pos as int, QuoteState::Bare),
            ensures
                self.wf(),
                start < self.pos,
                self.input@ == old(self).input@,
                self.pos == word_end(self.input@, old(self).pos as int, QuoteState::Bare),
            decreases self.input@.len() - self.pos,
        {
            if self.pos >= self.input.len() {
                break ;
            }
            let c = self.input[self.pos];
            if in_single {
                self.pos = self.pos + 1;
                if c == '\'' {
                    in_single = false;
                }
            } else if in_double {
                self.pos = self.pos + 1;
                if c == '\\' {
                    if self.pos < self.input.len() {
                        self.pos = self.pos + 1;
                    }
                } else if c == '"' {
                    in_double = false;
                }
            } else {
                if is_whitespace(c) || c == '|' || c == '&' || c == ';' || c == '<' || c == '>'
                    || c == '(' || c == ')' || c == '{' || c == '}' || c == '!' || c == '\n' {
                    break ;
                }
                self.pos = self.pos + 1;
                if c == '\'' {
                    in_single = true;
                } else if c == '"' {
                    in_double = true;
                }
            }
        }
        let end = self.pos;
        let word = string_from_range(&self.input, start, end);
        // Array detection: a word ending in '=' directly followed (after
        // whitespace) by '('.
        if self.input[end - 1] == '=' {
            let mut temp_pos = end;
            while temp_pos < self.input.len() && is_whitespace(self.input[temp_pos])
                invariant
                    end <= temp_pos <= self.input@.len(),
                    self.wf(),
                    skip_ws(self.input@, temp_pos as int) == skip_ws(self.input@, end as int),
                decreases self.input@.len() - temp_pos,
            {
                temp_pos = temp_pos + 1;
            }
            proof {
                assert(word@.last() == self.input@[end - 1]);
            }
            if temp_pos < self.input.len() && self.input[temp_pos] == '(' {
                let trimmed = trim_eq(&self.input, start, end);
                return Token::ArrayAssign(trimmed);
            }
        }
        proof {
            let w = self.input@.subrange(start as int, end as int);
            assert(w.last() == self.input@[end - 1]);
            lemma_skip_ws_bounds(self.input@, end as int);
        }
        Token::Word(word)
    }

    /// The next token, or `None` once only blanks are left.
    pub fn next(&mut self) -> (t: Option<Token>)
        requires
            old(self).wf(),
        ensures
            final(self).wf(),
            final(self).text() == old(self).text(),
            (match t {
                Some(tok) => Some(tok@),
                None => None,
            }, final(self).position()) == next_token(old(self).text(), old(self).position()),
    {
        self.skip_spaces();
        let p1 = self.pos;
        let ch = match self.advance() {
            Some(c) => c,
            None => return None,
        };
        let ghost s = self.input@;
        let ghost q = p1 + 1;
        if ch == '\n' {
            Some(Token::Newline)
        } else if ch == '|' {
            if self.peek() == Some('|') {
                self.advance();
                Some(Token::Or)
            } else {
                Some(Token::Pipe)
            }
        } else if ch == '&' {
            if self.peek() == Some('&') {
                self.advance();
                Some(Token::And)
            } else {
                Some(Token::Background)
            }
        } else if ch == ';' {
            Some(Token::Semicolon)
        } else if ch == '<' {
            if self.peek() == Some('<') {
                self.advance();
                if self.peek() == Some('<') {
                    self.advance();
                    Some(Token::HereString)
                } else {
                    let strip_tabs = if self.peek() == Some('-') {
                        self.advance();
                        true
                    } else {
                        false
                    };
                    Some(Token::HereDocStart(strip_tabs))
                }
            } else {
                Some(Token::RedirectIn)
            }
        } else if ch == '>' {
            if self.peek() == Some('>') {
                self.advance();
                Some(Token::AppendOut)
            } else {
                Some(Token::RedirectOut)
            }
        } else if ch == '\'' {
            let w = self.read_single();
            Some(Token::SingleQuoted(w))
        } else if ch == '"' {
            let w = self.read_double();
            Some(Token::DoubleQuoted(w))
        } else if ch == '(' {
            Some(Token::LeftParen)
        } else if ch == ')' {
            Some(Token::RightParen)
        } else if ch == '{' {
            Some(Token::LeftBrace)
        } else if ch == '}' {
            Some(Token::RightBrace)
        } else if ch == '!' {
            Some(Token::Bang)
        } else {
            Some(self.read_word(p1))
        }
    }
}

/// `v[lo..hi]` with every trailing `=` removed.
fn trim_eq(v: &Vec<char>, lo: usize, hi: usize) -> (s: String)
    requires
        lo <= hi <= v@.len(),
    ensures
        s@ == trim_trailing_eq(v@.subrange(lo as int, hi as int)),
{
    let mut end = hi;
    while end > lo && v[end - 1] == '='
        invariant
            lo <= end <= hi <= v@.len(),
            trim_trailing_eq(v@.subrange(lo as int, end as int)) == trim_trailing_eq(
                v@.subrange(lo as int, hi as int),
            ),
        decreases end,
    {
        proof {
            let w = v@.subrange(lo as int, end as int);
            assert(w.drop_last() =~= v@.subrange(lo as int, end - 1));
        }
        end = end - 1;
    }
    proof {
        let w = v@.subrange(lo as int, end as int);
        if w.len() > 0 {
            assert(w.last() == v@[end - 1]);
        }
    }
    string_from_range(v, lo, end)
}

/// Every token of `input`, in order.
pub fn tokenize(input: &str) -> (r: Vec<Token>)
    ensures
        tokens_view(r@) == lex(input@),
{
    let mut lexer = Lexer::new(input);
    let mut out: Vec<Token> = Vec::new();
    loop
        invariant
            lexer.wf(),
            lexer.text() == input@,
            0 <= lexer.position() <= input@.len(),
            tokens_view(out@) + lex_from(input@, lexer.position()) == lex(input@),
        decreases input@.len() - lexer.position(),
    {
        let ghost p = lexer.position();
        proof {
            lemma_next_token_progress(input@, p);
        }
        match lexer.next() {
            None => {
                assert(lex_from(input@, p) =~= Seq::<TokenV>::empty());
                assert(tokens_view(out@) + Seq::<TokenV>::empty() =~= tokens_view(out@));
                return out;
            },
            Some(t) => {
                let ghost before = out@;
                out.push(t);
                proof {
                    assert(tokens_view(out@) =~= tokens_view(before).push(t@));
                    assert(lex_from(input@, p) =~= seq![t@] + lex_from(
                        input@,
                        lexer.position(),
                    ));
                    assert(tokens_view(before) + lex_from(input@, p) =~= tokens_view(out@)
                        + lex_from(input@, lexer.position()));
                }
            },
        }
    }
}

/// Tokenizes `input` and appends a trailing `Token::Eof` marker, for callers
/// that want an explicit end in the token sequence itself.
pub fn tokenize_with_eof(input: &str) -> (r: Vec<Token>)
    ensures
        tokens_view(r@) == lex(input@).push(TokenV::Eof),
{
    let mut tokens = tokenize(input);
    let ghost before = tokens@;
    tokens.push(Token::Eof);
    assert(tokens_view(tokens@) =~= tokens_view(before).push(TokenV::Eof));
    tokens
}

/// `tokenize_with_eof` ends in exactly one `Eof`: the marker is its last
/// token and occurs nowhere else.
pub proof fn law_single_eof(s: Seq<char>)
    ensures
        lex(s).push(TokenV::Eof).last() == TokenV::Eof,
        forall|i: int|
            0 <= i < lex(s).len() ==> #[trigger] lex(s).push(TokenV::Eof)[i] != TokenV::Eof,
{
    lemma_lex_has_no_eof(s, 0);
    assert forall|i: int| 0 <= i < lex(s).len() implies #[trigger] lex(s).push(TokenV::Eof)[i]
        != TokenV::Eof by {
        assert(lex(s).push(TokenV::Eof)[i] == lex(s)[i]);
    }
}

} // verus!
