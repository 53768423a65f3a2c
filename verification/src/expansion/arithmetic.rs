//! Arithmetic expansion: `$(( expr ))` is replaced by the value of `expr`,
//! an integer expression over `+ - * / %`, parentheses, decimal literals and
//! variable names (whose values must themselves be integers).
//!
//! Values are `i64`. Addition, subtraction and multiplication wrap on
//! overflow; division and remainder by zero, or the one quotient that does
//! not fit (`i64::MIN / -1`), make the expression fail, as a malformed one
//! does. A failed expression expands to `0`.

use vstd::prelude::*;

use crate::lexer::skip_ws;
use crate::text::{
    all_digits, char_alphabetic, char_alphanumeric, i64_to_string, int_text, is_alphabetic,
    is_alphanumeric, is_digit, is_whitespace, is_ws, parse_i64, parse_i64_spec, str_chars,
    string_from_range,
};
use crate::vars::VarTable;

verus! {

/// The value of variable `name` in `env`; empty where it is unset.
pub open spec fn var_text(env: Map<Seq<char>, Seq<char>>, name: Seq<char>) -> Seq<char> {
    if env.contains_key(name) {
        env[name]
    } else {
        Seq::empty()
    }
}

/// The end of the run of ASCII digits starting at `p`.
pub open spec fn digits_end(s: Seq<char>, p: int) -> int
    decreases s.len() - p,
{
    if 0 <= p < s.len() && is_digit(s[p]) {
        digits_end(s, p + 1)
    } else {
        p
    }
}

/// The end of the name starting at `p`: letters, digits and `_`.
pub open spec fn name_end(s: Seq<char>, p: int) -> int
    decreases s.len() - p,
{
    if 0 <= p < s.len() && (char_alphanumeric(s[p]) || s[p] == '_') {
        name_end(s, p + 1)
    } else {
        p
    }
}

/// `a op b` for a multiplicative operator; `None` for division or
/// remainder by zero, and where the quotient does not fit.
pub open spec fn mul_op(op: char, a: i64, b: i64) -> Option<i64> {
    if op == '*' {
        Some(a.wrapping_mul(b))
    } else if b == 0 {
        None
    } else if op == '/' {
        a.checked_div(b)
    } else {
        a.checked_rem(b)
    }
}

/// `a op b` for an additive operator.
pub open spec fn add_op(op: char, a: i64, b: i64) -> i64 {
    if op == '+' {
        a.wrapping_add(b)
    } else {
        a.wrapping_sub(b)
    }
}

/// A factor at `p` (after whitespace): a parenthesized expression, a
/// decimal literal, or a variable name; its value and the position after it.
pub open spec fn factor_at(s: Seq<char>, env: Map<Seq<char>, Seq<char>>, p: int) -> Option<
    (i64, int),
>
    decreases s.len() - p, 0nat,
{
    let w = skip_ws(s, p);
    if !(0 <= p <= w < s.len()) {
        None
    } else if s[w] == '(' {
        match expr_at(s, env, w + 1) {
            None => None,
            Some((v, q)) => {
                let w2 = skip_ws(s, q);
                if 0 <= w2 < s.len() && s[w2] == ')' {
                    Some((v, w2 + 1))
                } else {
                    None
                }
            },
        }
    } else if is_digit(s[w]) {
        let e = digits_end(s, w);
        match parse_i64_spec(s.subrange(w, e)) {
            Some(v) => Some((v, e)),
            None => None,
        }
    } else if char_alphabetic(s[w]) || s[w] == '_' {
        let e = name_end(s, w);
        match parse_i64_spec(var_text(env, s.subrange(w, e))) {
            Some(v) => Some((v, e)),
            None => None,
        }
    } else {
        None
    }
}

/// The rest of a term whose value so far is `acc`, from `p`.
pub open spec fn term_rest(s: Seq<char>, env: Map<Seq<char>, Seq<char>>, p: int, acc: i64) -> Option<
    (i64, int),
>
    decreases s.len() - p, 1nat,
{
    let w = skip_ws(s, p);
    if 0 <= p <= w < s.len() && (s[w] == '*' || s[w] == '/' || s[w] == '%') {
        match factor_at(s, env, w + 1) {
            None => None,
            Some((r, q)) => match mul_op(s[w], acc, r) {
                None => None,
                Some(a) => if w < q <= s.len() {
                    term_rest(s, env, q, a)
                } else {
                    None
                },
            },
        }
    } else {
        Some((acc, w))
    }
}

/// A term at `p`: factors joined by `*`, `/` and `%`, from the left.
pub open spec fn term_at(s: Seq<char>, env: Map<Seq<char>, Seq<char>>, p: int) -> Option<
    (i64, int),
>
    decreases s.len() - p, 2nat,
{
    match factor_at(s, env, p) {
        None => None,
        Some((v, q)) => if p < q <= s.len() {
            term_rest(s, env, q, v)
        } else {
            None
        },
    }
}

/// The rest of an expression whose value so far is `acc`, from `p`.
pub open spec fn expr_rest(s: Seq<char>, env: Map<Seq<char>, Seq<char>>, p: int, acc: i64) -> Option<
    (i64, int),
>
    decreases s.len() - p, 3nat,
{
    let w = skip_ws(s, p);
    if 0 <= p <= w < s.len() && (s[w] == '+' || s[w] == '-') {
        match term_at(s, env, w + 1) {
            None => None,
            Some((r, q)) => if w < q <= s.len() {
                expr_rest(s, env, q, add_op(s[w], acc, r))
            } else {
                None
            },
        }
    } else {
        Some((acc, w))
    }
}

/// An expression at `p`: terms joined by `+` and `-`, from the left.
pub open spec fn expr_at(s: Seq<char>, env: Map<Seq<char>, Seq<char>>, p: int) -> Option<
    (i64, int),
>
    decreases s.len() - p, 4nat,
{
    match term_at(s, env, p) {
        None => None,
        Some((v, q)) => if p < q <= s.len() {
            expr_rest(s, env, q, v)
        } else {
            None
        },
    }
}

/// The value of the whole text `s` as an expression; trailing whitespace is
/// allowed, anything else left over is an error.
pub open spec fn eval_spec(s: Seq<char>, env: Map<Seq<char>, Seq<char>>) -> Result<i64, ()> {
    match expr_at(s, env, 0) {
        Some((v, q)) => if skip_ws(s, q) == s.len() {
            Ok(v)
        } else {
            Err(())
        },
        None => Err(()),
    }
}

struct ArithParser {
    chars: Vec<char>,
    pos: usize,
}

impl ArithParser {
    spec fn wf(&self) -> bool {
        self.pos <= self.chars@.len()
    }

    fn skip_ws(&mut self)
        requires
            old(self).wf(),
        ensures
            final(self).wf(),
            final(self).chars@ == old(self).chars@,
            final(self).pos == skip_ws(old(self).chars@, old(self).pos as int),
    {
        while self.pos < self.chars.len() && is_whitespace(self.chars[self.pos])
            invariant
                self.wf(),
                self.chars@ == old(self).chars@,
                skip_ws(self.chars@, self.pos as int) == skip_ws(
                    old(self).chars@,
                    old(self).pos as int,
                ),
            decreases self.chars@.len() - self.pos,
        {
            self.pos = self.pos + 1;
        }
    }

    fn peek(&self) -> (c: Option<char>)
        requires
            self.wf(),
        ensures
            self.chars@.len() <= usize::MAX,
            c == if self.pos < self.chars@.len() {
                Some(self.chars@[self.pos as int])
            } else {
                None::<char>
            },
    {
        if self.pos < self.chars.len() {
            Some(self.chars[self.pos])
        } else {
            None
        }
    }

    fn parse_expr(&mut self, env: &VarTable) -> (r: Result<i64, ()>)
        requires
            old(self).wf(),
        ensures
            final(self).wf(),
            final(self).chars@ == old(self).chars@,
            match r {
                Ok(v) => old(self).pos < final(self).pos && expr_at(
                    old(self).chars@,
                    env.view(),
                    old(self).pos as int,
                ) == Some((v, final(self).pos as int)),
                Err(()) => expr_at(old(self).chars@, env.view(), old(self).pos as int) is None,
            },
        decreases old(self).chars@.len() - old(self).pos, 4nat,
    {
        let ghost s = self.chars@;
        let ghost p0 = self.pos as int;
        let mut value = match self.parse_term(env) {
            Ok(v) => v,
            Err(()) => return Err(()),
        };
        loop
            invariant_except_break
                expr_rest(s, env.view(), self.pos as int, value) == expr_at(s, env.view(), p0),
            invariant
                self.wf(),
                self.chars@ == s,
                p0 < self.pos,
                p0 == old(self).pos,
                s == old(self).chars@,
            ensures
                expr_at(s, env.view(), p0) == Some((value, self.pos as int)),
            decreases self.chars@.len() - self.pos,
        {
            let ghost p = self.pos as int;
            let ghost acc = value;
            proof {
                crate::lexer::lemma_skip_ws_bounds(s, p);
            }
            self.skip_ws();
            let c = self.peek();
            if c == Some('+') || c == Some('-') {
                let op = if c == Some('+') {
                    '+'
                } else {
                    '-'
                };
                self.pos = self.pos + 1;
                let rhs = match self.parse_term(env) {
                    Ok(v) => v,
                    Err(()) => return Err(()),
                };
                value = if op == '+' {
                    value.wrapping_add(rhs)
                } else {
                    value.wrapping_sub(rhs)
                };
            } else {
                break ;
            }
        }
        Ok(value)
    }

    fn parse_term(&mut self, env: &VarTable) -> (r: Result<i64, ()>)
        requires
            old(self).wf(),
        ensures
            final(self).wf(),
            final(self).chars@ == old(self).chars@,
            match r {
                Ok(v) => old(self).pos < final(self).pos && term_at(
                    old(self).chars@,
                    env.view(),
                    old(self).pos as int,
                ) == Some((v, final(self).pos as int)),
                Err(()) => term_at(old(self).chars@, env.view(), old(self).pos as int) is None,
            },
        decreases old(self).chars@.len() - old(self).pos, 2nat,
    {
        let ghost s = self.chars@;
        let ghost p0 = self.pos as int;
        let mut value = match self.parse_factor(env) {
            Ok(v) => v,
            Err(()) => return Err(()),
        };
        loop
            invariant_except_break
                term_rest(s, env.view(), self.pos as int, value) == term_at(s, env.view(), p0),
            invariant
                self.wf(),
                self.chars@ == s,
                p0 < self.pos,
                p0 == old(self).pos,
                s == old(self).chars@,
            ensures
                term_at(s, env.view(), p0) == Some((value, self.pos as int)),
            decreases self.chars@.len() - self.pos,
        {
            proof {
                crate::lexer::lemma_skip_ws_bounds(s, self.pos as int);
            }
            self.skip_ws();
            let c = self.peek();
            if c == Some('*') || c == Some('/') || c == Some('%') {
                let op = if c == Some('*') {
                    '*'
                } else if c == Some('/') {
                    '/'
                } else {
                    '%'
                };
                self.pos = self.pos + 1;
                let rhs = match self.parse_factor(env) {
                    Ok(v) => v,
                    Err(()) => return Err(()),
                };
                if op == '*' {
                    value = value.wrapping_mul(rhs);
                } else {
                    if rhs == 0 {
                        return Err(());
                    }
                    let next = if op == '/' {
                        value.checked_div(rhs)
                    } else {
                        value.checked_rem(rhs)
                    };
                    match next {
                        Some(v) => value = v,
                        None => return Err(()),
                    }
                }
            } else {
                break ;
            }
        }
        Ok(value)
    }

    fn parse_factor(&mut self, env: &VarTable) -> (r: Result<i64, ()>)
        requires
            old(self).wf(),
        ensures
            final(self).wf(),
            final(self).chars@ == old(self).chars@,
            match r {
                Ok(v) => old(self).pos < final(self).pos && factor_at(
                    old(self).chars@,
                    env.view(),
                    old(self).pos as int,
                ) == Some((v, final(self).pos as int)),
                Err(()) => factor_at(old(self).chars@, env.view(), old(self).pos as int) is None,
            },
        decreases old(self).chars@.len() - old(self).pos, 0nat,
    {
        let ghost s = self.chars@;
        let ghost p0 = self.pos as int;
        proof {
            crate::lexer::lemma_skip_ws_bounds(s, p0);
        }
        self.skip_ws();
        let w = self.pos;
        if w >= self.chars.len() {
            return Err(());
        }
        let c = self.chars[w];
        if c == '(' {
            self.pos = self.pos + 1;
            let value = match self.parse_expr(env) {
                Ok(v) => v,
                Err(()) => return Err(()),
            };
            proof {
                crate::lexer::lemma_skip_ws_bounds(s, self.pos as int);
            }
            self.skip_ws();
            if self.peek() == Some(')') {
                self.pos = self.pos + 1;
                Ok(value)
            } else {
                Err(())
            }
        } else if '0' <= c && c <= '9' {
            self.pos = self.pos + 1;
            while self.pos < self.chars.len() && '0' <= self.chars[self.pos] && self.chars[self.pos]
                <= '9'
                invariant
                    self.wf(),
                    self.chars@ == s,
                    p0 <= w < self.pos,
                    digits_end(s, self.pos as int) == digits_end(s, w as int),
                decreases self.chars@.len() - self.pos,
            {
                self.pos = self.pos + 1;
            }
            let text = string_from_range(&self.chars, w, self.pos);
            assert(self.pos == digits_end(s, w as int));
            let r = match parse_i64(text.as_str()) {
                Some(v) => Ok(v),
                None => Err(()),
            };
            assert(factor_at(s, env.view(), p0) == match parse_i64_spec(s.subrange(w as int, self.pos as int)) {
                Some(v) => Some((v, self.pos as int)),
                None => None,
            });
            r
        } else if is_alphabetic(c) || c == '_' {
            self.pos = self.pos + 1;
            while self.pos < self.chars.len() && (is_alphanumeric(self.chars[self.pos])
                || self.chars[self.pos] == '_')
                invariant
                    self.wf(),
                    self.chars@ == s,
                    p0 <= w < self.pos,
                    name_end(s, self.pos as int) == name_end(s, w as int),
                decreases self.chars@.len() - self.pos,
            {
                self.pos = self.pos + 1;
            }
            let name = string_from_range(&self.chars, w, self.pos);
            let value = match env.get(name.as_str()) {
                Some(v) => v,
                None => String::new(),
            };
            assert(self.pos == name_end(s, w as int));
            assert(value@ == var_text(env.view(), name@));
            let r = match parse_i64(value.as_str()) {
                Some(v) => Ok(v),
                None => Err(()),
            };
            assert(factor_at(s, env.view(), p0) == match parse_i64_spec(var_text(env.view(), s.subrange(w as int, self.pos as int))) {
                Some(v) => Some((v, self.pos as int)),
                None => None,
            });
            r
        } else {
            Err(())
        }
    }
}

/// The value of the expression `expr`, where variable names take their
/// values from `env`; `Err(())` for a malformed expression, a division or
/// remainder by zero, a quotient that does not fit, a literal too large for
/// an `i64`, or a variable whose value is no integer.
pub fn evaluate(expr: &str, env: &VarTable) -> (r: Result<i64, ()>)
    ensures
        r == eval_spec(expr@, env.view()),
{
    let mut p = ArithParser { chars: str_chars(expr), pos: 0 };
    let value = match p.parse_expr(env) {
        Ok(v) => v,
        Err(()) => return Err(()),
    };
    p.skip_ws();
    if p.pos != p.chars.len() {
        return Err(());
    }
    Ok(value)
}

/// Where the `$((` whose inner text continues at `i` is closed, with
/// `depth` parentheses of the expression open: each `(` opens one, each `)`
/// closes one, and the expansion ends at the `))` met while none is open.
pub open spec fn arith_close(s: Seq<char>, i: int, depth: nat) -> Option<int>
    decreases s.len() - i,
{
    if i < 0 || i + 1 >= s.len() {
        None
    } else if s[i] == '(' {
        arith_close(s, i + 1, depth + 1)
    } else if s[i] == ')' {
        if depth == 0 {
            if s[i + 1] == ')' {
                Some(i)
            } else {
                arith_close(s, i + 1, 0)
            }
        } else {
            arith_close(s, i + 1, (depth - 1) as nat)
        }
    } else {
        arith_close(s, i + 1, depth)
    }
}

proof fn lemma_arith_close(s: Seq<char>, i: int, depth: nat)
    requires
        0 <= i,
    ensures
        arith_close(s, i, depth) matches Some(j) ==> i <= j && j + 1 < s.len(),
    decreases s.len() - i,
{
    if i + 1 < s.len() {
        if s[i] == '(' {
            lemma_arith_close(s, i + 1, depth + 1);
        } else if s[i] == ')' {
            if depth == 0 {
                if s[i + 1] != ')' {
                    lemma_arith_close(s, i + 1, 0);
                }
            } else {
                lemma_arith_close(s, i + 1, (depth - 1) as nat);
            }
        } else {
            lemma_arith_close(s, i + 1, depth);
        }
    }
}

/// The inner text of the arithmetic expansion whose body starts at `start`
/// and the position after its closing `))`; `None` where it is not closed.
fn extract_arithmetic(chars: &Vec<char>, start: usize) -> (r: Option<(String, usize)>)
    requires
        start <= chars@.len(),
    ensures
        match arith_close(chars@, start as int, 0) {
            Some(j) => r matches Some((inner, end)) && inner@ == chars@.subrange(start as int, j)
                && end == j + 2,
            None => r is None,
        },
{
    let mut depth: usize = 0;
    let mut i = start;
    while chars.len() > 0 && i < chars.len() - 1
        invariant
            start <= i <= chars@.len(),
            depth <= i,
            arith_close(chars@, i as int, depth as nat) == arith_close(chars@, start as int, 0),
        decreases chars@.len() - i,
    {
        if chars[i] == '(' {
            depth = depth + 1;
        } else if chars[i] == ')' {
            if depth == 0 {
                if chars[i + 1] == ')' {
                    let inner = string_from_range(chars, start, i);
                    return Some((inner, i + 2));
                }
            } else {
                depth = depth - 1;
            }
        }
        i = i + 1;
    }
    None
}

/// What an expression expands to: its value in decimal, or `0` where it fails.
pub open spec fn value_text(x: Seq<char>, env: Map<Seq<char>, Seq<char>>) -> Seq<char> {
    match eval_spec(x, env) {
        Ok(v) => int_text(v as int),
        Err(()) => seq!['0'],
    }
}

/// The text `s` from position `i` on with every closed `$(( ... ))` replaced
/// by what its expression expands to.
pub open spec fn arith_expand(s: Seq<char>, env: Map<Seq<char>, Seq<char>>, i: int) -> Seq<char>
    decreases s.len() - i,
{
    if i < 0 || i >= s.len() {
        Seq::empty()
    } else if i + 2 < s.len() && s[i] == '$' && s[i + 1] == '(' && s[i + 2] == '(' && arith_close(
        s,
        i + 3,
        0,
    ) is Some {
        let j = arith_close(s, i + 3, 0)->0;
        if i < j + 2 <= s.len() {
            value_text(s.subrange(i + 3, j), env) + arith_expand(s, env, j + 2)
        } else {
            Seq::empty()
        }
    } else {
        seq![s[i]] + arith_expand(s, env, i + 1)
    }
}

/// `input` with each `$(( expr ))` replaced by the value of `expr` (or `0`
/// where it fails); an unclosed `$((` is left as it is.
pub fn expand_arithmetic(input: &str, env: &VarTable) -> (r: String)
    ensures
        r@ == arith_expand(input@, env.view(), 0),
{
    let chars = str_chars(input);
    let mut result = String::new();
    let mut i: usize = 0;
    while i < chars.len()
        invariant
            i <= chars@.len(),
            chars@ == input@,
            result@ + arith_expand(chars@, env.view(), i as int) == arith_expand(
                chars@,
                env.view(),
                0,
            ),
        decreases chars@.len() - i,
    {
        let ghost i0 = i as int;
        let ghost r0 = result@;
        if chars.len() > 2 && i < chars.len() - 2 && chars[i] == '$' && chars[i + 1] == '(' && chars[i + 2] == '(' {
            proof {
                lemma_arith_close(chars@, i + 3, 0);
            }
            match extract_arithmetic(&chars, i + 3) {
                Some((expr, end)) => {
                    let text = match evaluate(expr.as_str(), env) {
                        Ok(value) => i64_to_string(value),
                        Err(()) => String::from_str("0"),
                    };
                    proof {
                        reveal_strlit("0");
                    }
                    crate::text::append_str(&mut result, text.as_str());
                    i = end;
                    proof {
                        assert(r0 + (text@ + arith_expand(chars@, env.view(), i as int)) =~= result@
                            + arith_expand(chars@, env.view(), i as int));
                    }
                    continue ;
                },
                None => {},
            }
        }
        result.push(chars[i]);
        i = i + 1;
        proof {
            assert(r0 + (seq![chars@[i0]] + arith_expand(chars@, env.view(), i as int))
                =~= result@ + arith_expand(chars@, env.view(), i as int));
        }
    }
    assert(result@ + Seq::<char>::empty() =~= result@);
    result
}

/// `s` opens no arithmetic expansion: `$((` occurs nowhere in it.
pub open spec fn no_arith_open(s: Seq<char>) -> bool {
    forall|i: int| 0 <= i && i + 2 < s.len() ==> !(#[trigger] s[i] == '$' && s[i + 1] == '(' && s[i + 2] == '(')
}

proof fn lemma_no_arith_from(s: Seq<char>, env: Map<Seq<char>, Seq<char>>, i: int)
    requires
        0 <= i <= s.len(),
        no_arith_open(s),
    ensures
        arith_expand(s, env, i) == s.subrange(i, s.len() as int),
    decreases s.len() - i,
{
    if i < s.len() {
        lemma_no_arith_from(s, env, i + 1);
        if i + 2 < s.len() {
            assert(!(s[i] == '$' && s[i + 1] == '(' && s[i + 2] == '('));
        }
        assert(seq![s[i]] + s.subrange(i + 1, s.len() as int) =~= s.subrange(i, s.len() as int));
    } else {
        assert(s.subrange(i, s.len() as int) =~= Seq::<char>::empty());
    }
}

/// Arithmetic expansion leaves text that opens no `$((` as it is.
pub proof fn law_no_arith_unchanged(s: Seq<char>, env: Map<Seq<char>, Seq<char>>)
    requires
        no_arith_open(s),
    ensures
        arith_expand(s, env, 0) == s,
{
    lemma_no_arith_from(s, env, 0);
    assert(s.subrange(0, s.len() as int) =~= s);
}

proof fn lemma_digits_run(s: Seq<char>, p: int, e: int)
    requires
        0 <= p <= e <= s.len(),
        forall|k: int| p <= k < e ==> is_digit(#[trigger] s[k]),
        e < s.len() ==> !is_digit(s[e]),
    ensures
        digits_end(s, p) == e,
    decreases e - p,
{
    if p < e {
        lemma_digits_run(s, p + 1, e);
    }
}

proof fn lemma_literal_term(s: Seq<char>, env: Map<Seq<char>, Seq<char>>, p: int, e: int, v: i64)
    requires
        0 <= p < e <= s.len(),
        forall|k: int| p <= k < e ==> is_digit(#[trigger] s[k]),
        e < s.len() ==> (s[e] == '+' || s[e] == '-' || s[e] == ')'),
        parse_i64_spec(s.subrange(p, e)) == Some(v),
    ensures
        term_at(s, env, p) == Some((v, e)),
{
    lemma_digits_run(s, p, e);
    assert(is_digit(s[p]));
    assert(skip_ws(s, p) == p);
    assert(factor_at(s, env, p) == Some((v, e)));
    assert(skip_ws(s, e) == e);
    assert(term_rest(s, env, e, v) == Some((v, e)));
}

/// `+` and `-` group from the left: for decimal literals `a`, `b` and `c`
/// with the values `x`, `y` and `z`, and operators `o1`, `o2` each `+` or
/// `-`, the text `a o1 b o2 c` is `(x o1 y) o2 z`, with `i64` wrapping;
/// where nothing overflows, `a - b - c` is `x - y - z` and `a - b + c` is
/// `x - y + z`.
pub proof fn law_additive_operators_group_from_the_left(
    a: Seq<char>,
    b: Seq<char>,
    c: Seq<char>,
    o1: char,
    o2: char,
    x: i64,
    y: i64,
    z: i64,
    env: Map<Seq<char>, Seq<char>>,
)
    requires
        a.len() > 0 && b.len() > 0 && c.len() > 0,
        forall|k: int| 0 <= k < a.len() ==> is_digit(#[trigger] a[k]),
        forall|k: int| 0 <= k < b.len() ==> is_digit(#[trigger] b[k]),
        forall|k: int| 0 <= k < c.len() ==> is_digit(#[trigger] c[k]),
        parse_i64_spec(a) == Some(x),
        parse_i64_spec(b) == Some(y),
        parse_i64_spec(c) == Some(z),
        o1 == '+' || o1 == '-',
        o2 == '+' || o2 == '-',
    ensures
        ({
            let first = if o1 == '+' {
                x.wrapping_add(y)
            } else {
                x.wrapping_sub(y)
            };
            eval_spec(a + seq![o1] + b + seq![o2] + c, env) == Ok::<i64, ()>(
                if o2 == '+' {
                    first.wrapping_add(z)
                } else {
                    first.wrapping_sub(z)
                },
            )
        }),
        o1 == '-' && o2 == '-' && i64::MIN <= x - y <= i64::MAX && i64::MIN <= x - y - z <= i64::MAX
            ==> eval_spec(a + seq![o1] + b + seq![o2] + c, env) == Ok::<i64, ()>((x - y - z) as i64),
        o1 == '-' && o2 == '+' && i64::MIN <= x - y <= i64::MAX && i64::MIN <= x - y + z <= i64::MAX
            ==> eval_spec(a + seq![o1] + b + seq![o2] + c, env) == Ok::<i64, ()>((x - y + z) as i64),
{
    let s = a + seq![o1] + b + seq![o2] + c;
    let n1 = a.len() as int;
    let p2 = n1 + 1 + b.len();
    let l = s.len() as int;
    assert(s.subrange(0, n1) =~= a);
    assert(s.subrange(n1 + 1, p2) =~= b);
    assert(s.subrange(p2 + 1, l) =~= c);
    assert(s[n1] == o1 && s[p2] == o2);
    assert forall|k: int| 0 <= k < n1 implies is_digit(#[trigger] s[k]) by {
        assert(s[k] == a[k]);
    }
    assert forall|k: int| n1 + 1 <= k < p2 implies is_digit(#[trigger] s[k]) by {
        assert(s[k] == b[k - n1 - 1]);
    }
    assert forall|k: int| p2 + 1 <= k < l implies is_digit(#[trigger] s[k]) by {
        assert(s[k] == c[k - p2 - 1]);
    }
    lemma_literal_term(s, env, 0, n1, x);
    lemma_literal_term(s, env, n1 + 1, p2, y);
    lemma_literal_term(s, env, p2 + 1, l, z);
    let first = add_op(o1, x, y);
    let v = add_op(o2, first, z);
    assert(skip_ws(s, n1) == n1);
    assert(skip_ws(s, p2) == p2);
    assert(skip_ws(s, l) == l);
    assert(expr_rest(s, env, l, v) == Some((v, l)));
    assert(expr_rest(s, env, p2, first) == Some((v, l)));
    assert(expr_rest(s, env, n1, x) == Some((v, l)));
    assert(expr_at(s, env, 0) == Some((v, l)));
}

proof fn lemma_literal_factor(s: Seq<char>, env: Map<Seq<char>, Seq<char>>, p: int, e: int, v: i64)
    requires
        0 <= p < e <= s.len(),
        forall|k: int| p <= k < e ==> is_digit(#[trigger] s[k]),
        e < s.len() ==> !is_digit(s[e]),
        parse_i64_spec(s.subrange(p, e)) == Some(v),
    ensures
        factor_at(s, env, p) == Some((v, e)),
{
    lemma_digits_run(s, p, e);
    assert(is_digit(s[p]));
    assert(skip_ws(s, p) == p);
}

/// Whether `o` is one of the five operators `+ - * / %`.
pub open spec fn arith_operator(o: char) -> bool {
    o == '+' || o == '-' || o == '*' || o == '/' || o == '%'
}

/// Precedence and grouping of the five operators: for decimal literals
/// `a`, `b` and `c` with the values `x`, `y` and `z`, the text `a o1 b o2 c`
/// takes `*`, `/` and `%` before `+` and `-`, and operators of the same
/// rank from the left. `+`, `-` and `*` wrap as `i64` does; `/` and `%`
/// by zero, or a quotient that does not fit, make it fail.
pub proof fn law_operator_precedence(
    a: Seq<char>,
    b: Seq<char>,
    c: Seq<char>,
    o1: char,
    o2: char,
    x: i64,
    y: i64,
    z: i64,
    env: Map<Seq<char>, Seq<char>>,
)
    requires
        a.len() > 0 && b.len() > 0 && c.len() > 0,
        forall|k: int| 0 <= k < a.len() ==> is_digit(#[trigger] a[k]),
        forall|k: int| 0 <= k < b.len() ==> is_digit(#[trigger] b[k]),
        forall|k: int| 0 <= k < c.len() ==> is_digit(#[trigger] c[k]),
        parse_i64_spec(a) == Some(x),
        parse_i64_spec(b) == Some(y),
        parse_i64_spec(c) == Some(z),
        arith_operator(o1),
        arith_operator(o2),
    ensures
        ({
            let plus = |o: char, p: i64, q: i64|
                if o == '+' {
                    p.wrapping_add(q)
                } else {
                    p.wrapping_sub(q)
                };
            let times = |o: char, p: i64, q: i64|
                if o == '*' {
                    Some(p.wrapping_mul(q))
                } else if q == 0 {
                    None::<i64>
                } else if o == '/' {
                    p.checked_div(q)
                } else {
                    p.checked_rem(q)
                };
            let r = eval_spec(a + seq![o1] + b + seq![o2] + c, env);
            if (o1 == '+' || o1 == '-') && (o2 == '+' || o2 == '-') {
                r == Ok::<i64, ()>(plus(o2, plus(o1, x, y), z))
            } else if o1 == '+' || o1 == '-' {
                match times(o2, y, z) {
                    Some(u) => r == Ok::<i64, ()>(plus(o1, x, u)),
                    None => r is Err,
                }
            } else if o2 == '+' || o2 == '-' {
                match times(o1, x, y) {
                    Some(t) => r == Ok::<i64, ()>(plus(o2, t, z)),
                    None => r is Err,
                }
            } else {
                match times(o1, x, y) {
                    Some(t) => match times(o2, t, z) {
                        Some(u) => r == Ok::<i64, ()>(u),
                        None => r is Err,
                    },
                    None => r is Err,
                }
            }
        }),
{
    let s = a + seq![o1] + b + seq![o2] + c;
    let n1 = a.len() as int;
    let p2 = n1 + 1 + b.len();
    let l = s.len() as int;
    assert(s.subrange(0, n1) =~= a);
    assert(s.subrange(n1 + 1, p2) =~= b);
    assert(s.subrange(p2 + 1, l) =~= c);
    assert(s[n1] == o1 && s[p2] == o2);
    assert forall|k: int| 0 <= k < n1 implies is_digit(#[trigger] s[k]) by {
        assert(s[k] == a[k]);
    }
    assert forall|k: int| n1 + 1 <= k < p2 implies is_digit(#[trigger] s[k]) by {
        assert(s[k] == b[k - n1 - 1]);
    }
    assert forall|k: int| p2 + 1 <= k < l implies is_digit(#[trigger] s[k]) by {
        assert(s[k] == c[k - p2 - 1]);
    }
    lemma_literal_factor(s, env, 0, n1, x);
    lemma_literal_factor(s, env, n1 + 1, p2, y);
    lemma_literal_factor(s, env, p2 + 1, l, z);
    assert(skip_ws(s, n1) == n1);
    assert(skip_ws(s, p2) == p2);
    assert(skip_ws(s, l) == l);
    assert(!(0 <= l < s.len()));
    if o1 == '+' || o1 == '-' {
        assert(term_rest(s, env, n1, x) == Some((x, n1)));
        assert(term_at(s, env, 0) == Some((x, n1)));
        if o2 == '+' || o2 == '-' {
            assert(term_rest(s, env, p2, y) == Some((y, p2)));
            assert(term_at(s, env, n1 + 1) == Some((y, p2)));
            assert(term_rest(s, env, l, z) == Some((z, l)));
            assert(term_at(s, env, p2 + 1) == Some((z, l)));
            let v = add_op(o2, add_op(o1, x, y), z);
            assert(expr_rest(s, env, l, v) == Some((v, l)));
            assert(expr_rest(s, env, p2, add_op(o1, x, y)) == Some((v, l)));
            assert(expr_rest(s, env, n1, x) == Some((v, l)));
            assert(expr_at(s, env, 0) == Some((v, l)));
        } else {
            match mul_op(o2, y, z) {
                Some(u) => {
                    assert(term_rest(s, env, l, u) == Some((u, l)));
                    assert(term_rest(s, env, p2, y) == Some((u, l)));
                    assert(term_at(s, env, n1 + 1) == Some((u, l)));
                    let v = add_op(o1, x, u);
                    assert(expr_rest(s, env, l, v) == Some((v, l)));
                    assert(expr_rest(s, env, n1, x) == Some((v, l)));
                    assert(expr_at(s, env, 0) == Some((v, l)));
                },
                None => {
                    assert(term_rest(s, env, p2, y) is None);
                    assert(term_at(s, env, n1 + 1) is None);
                    assert(expr_rest(s, env, n1, x) is None);
                    assert(expr_at(s, env, 0) is None);
                },
            }
        }
    } else {
        match mul_op(o1, x, y) {
            Some(t) => {
                if o2 == '+' || o2 == '-' {
                    assert(term_rest(s, env, p2, t) == Some((t, p2)));
                    assert(term_rest(s, env, n1, x) == Some((t, p2)));
                    assert(term_at(s, env, 0) == Some((t, p2)));
                    assert(term_rest(s, env, l, z) == Some((z, l)));
                    assert(term_at(s, env, p2 + 1) == Some((z, l)));
                    let v = add_op(o2, t, z);
                    assert(expr_rest(s, env, l, v) == Some((v, l)));
                    assert(expr_rest(s, env, p2, t) == Some((v, l)));
                    assert(expr_at(s, env, 0) == Some((v, l)));
                } else {
                    match mul_op(o2, t, z) {
                        Some(u) => {
                            assert(term_rest(s, env, l, u) == Some((u, l)));
                            assert(term_rest(s, env, p2, t) == Some((u, l)));
                            assert(term_rest(s, env, n1, x) == Some((u, l)));
                            assert(term_at(s, env, 0) == Some((u, l)));
                            assert(expr_rest(s, env, l, u) == Some((u, l)));
                            assert(expr_at(s, env, 0) == Some((u, l)));
                        },
                        None => {
                            assert(term_rest(s, env, p2, t) is None);
                            assert(term_rest(s, env, n1, x) is None);
                            assert(term_at(s, env, 0) is None);
                            assert(expr_at(s, env, 0) is None);
                        },
                    }
                }
            },
            None => {
                assert(term_rest(s, env, n1, x) is None);
                assert(term_at(s, env, 0) is None);
                assert(expr_at(s, env, 0) is None);
            },
        }
    }
}

/// Parentheses group first: for decimal literals `a`, `b` and `c` with
/// the values `x`, `y` and `z`, and operators `o1`, `o2` each `+` or `-`,
/// the text `a o1 (b o2 c)` is `x o1 (y o2 z)`, with `i64` wrapping; so
/// `a - (b - c)` is `x - y + z` where nothing overflows.
pub proof fn law_parentheses_group_first(
    a: Seq<char>,
    b: Seq<char>,
    c: Seq<char>,
    o1: char,
    o2: char,
    x: i64,
    y: i64,
    z: i64,
    env: Map<Seq<char>, Seq<char>>,
)
    requires
        a.len() > 0 && b.len() > 0 && c.len() > 0,
        forall|k: int| 0 <= k < a.len() ==> is_digit(#[trigger] a[k]),
        forall|k: int| 0 <= k < b.len() ==> is_digit(#[trigger] b[k]),
        forall|k: int| 0 <= k < c.len() ==> is_digit(#[trigger] c[k]),
        parse_i64_spec(a) == Some(x),
        parse_i64_spec(b) == Some(y),
        parse_i64_spec(c) == Some(z),
        o1 == '+' || o1 == '-',
        o2 == '+' || o2 == '-',
    ensures
        ({
            let inner = if o2 == '+' {
                y.wrapping_add(z)
            } else {
                y.wrapping_sub(z)
            };
            eval_spec(a + seq![o1, '('] + b + seq![o2] + c + seq![')'], env) == Ok::<i64, ()>(
                if o1 == '+' {
                    x.wrapping_add(inner)
                } else {
                    x.wrapping_sub(inner)
                },
            )
        }),
        o1 == '-' && o2 == '-' && i64::MIN <= y - z <= i64::MAX && i64::MIN <= x - y + z <= i64::MAX
            ==> eval_spec(a + seq![o1, '('] + b + seq![o2] + c + seq![')'], env) == Ok::<i64, ()>(
            (x - y + z) as i64,
        ),
{
    let s = a + seq![o1, '('] + b + seq![o2] + c + seq![')'];
    let n1 = a.len() as int;
    let pb = n1 + 2;
    let p2 = pb + b.len();
    let pc = p2 + 1;
    let pr = pc + c.len();
    let l = s.len() as int;
    assert(l == pr + 1);
    assert(s.subrange(0, n1) =~= a);
    assert(s.subrange(pb, p2) =~= b);
    assert(s.subrange(pc, pr) =~= c);
    assert(s[n1] == o1 && s[n1 + 1] == '(' && s[p2] == o2 && s[pr] == ')');
    assert forall|k: int| 0 <= k < n1 implies is_digit(#[trigger] s[k]) by {
        assert(s[k] == a[k]);
    }
    assert forall|k: int| pb <= k < p2 implies is_digit(#[trigger] s[k]) by {
        assert(s[k] == b[k - pb]);
    }
    assert forall|k: int| pc <= k < pr implies is_digit(#[trigger] s[k]) by {
        assert(s[k] == c[k - pc]);
    }
    lemma_literal_term(s, env, 0, n1, x);
    lemma_literal_term(s, env, pb, p2, y);
    lemma_literal_term(s, env, pc, pr, z);
    let inner = add_op(o2, y, z);
    assert(skip_ws(s, p2) == p2);
    assert(skip_ws(s, pr) == pr);
    assert(expr_rest(s, env, pr, inner) == Some((inner, pr)));
    assert(expr_rest(s, env, p2, y) == Some((inner, pr)));
    assert(expr_at(s, env, pb) == Some((inner, pr)));
    assert(skip_ws(s, n1 + 1) == n1 + 1);
    assert(factor_at(s, env, n1 + 1) == Some((inner, l)));
    assert(skip_ws(s, l) == l);
    assert(term_rest(s, env, l, inner) == Some((inner, l)));
    assert(term_at(s, env, n1 + 1) == Some((inner, l)));
    let v = add_op(o1, x, inner);
    assert(skip_ws(s, n1) == n1);
    assert(expr_rest(s, env, l, v) == Some((v, l)));
    assert(expr_rest(s, env, n1, x) == Some((v, l)));
    assert(expr_at(s, env, 0) == Some((v, l)));
}

proof fn lemma_name_run(s: Seq<char>, p: int)
    requires
        0 <= p <= s.len(),
        forall|k: int| p <= k < s.len() ==> char_alphanumeric(#[trigger] s[k]) || s[k] == '_',
    ensures
        name_end(s, p) == s.len(),
    decreases s.len() - p,
{
    if p < s.len() {
        lemma_name_run(s, p + 1);
    }
}

/// A variable name alone stands for the variable's value: where `name` is
/// set to integer text with the value `v`, the expression `name` is `v`;
/// where it is unset or set to anything else, the expression fails.
pub proof fn law_variable_stands_for_its_value(name: Seq<char>, env: Map<Seq<char>, Seq<char>>)
    requires
        name.len() > 0,
        char_alphabetic(name[0]) || name[0] == '_',
        !is_digit(name[0]) && name[0] != '(',
        forall|k: int| 0 <= k < name.len() ==> char_alphanumeric(#[trigger] name[k]) || name[k] == '_',
        forall|k: int| 0 <= k < name.len() ==> !is_ws(#[trigger] name[k]),
    ensures
        env.contains_key(name) && parse_i64_spec(env[name]) is Some ==> eval_spec(name, env)
            == Ok::<i64, ()>(parse_i64_spec(env[name])->0),
        !(env.contains_key(name) && parse_i64_spec(env[name]) is Some) ==> eval_spec(name, env)
            is Err,
{
    lemma_name_run(name, 0);
    assert(skip_ws(name, 0) == 0);
    assert(name.subrange(0, name.len() as int) =~= name);
    let l = name.len() as int;
    assert(skip_ws(name, l) == l);
    if env.contains_key(name) && parse_i64_spec(env[name]) is Some {
        let v = parse_i64_spec(env[name])->0;
        assert(factor_at(name, env, 0) == Some((v, l)));
        assert(term_rest(name, env, l, v) == Some((v, l)));
        assert(expr_rest(name, env, l, v) == Some((v, l)));
    } else {
        assert(parse_i64_spec(var_text(env, name)) is None);
        assert(factor_at(name, env, 0) is None);
    }
}

} // verus!
