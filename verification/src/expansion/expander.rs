//! Word expansion: variables, command substitution, arithmetic, tildes,
//! field splitting and array expansions, applied to the tokens of a
//! command line.
//!
//! The expander reads the shell's state as it was handed over: the last
//! exit status, the positional parameters, the options, the arrays, the
//! shell's own variables and a snapshot of the environment. Command
//! substitutions go through a [`Captures`], and pathname expansion is left
//! to the caller: each field says whether it is a pattern to match against
//! the file system.

use vstd::prelude::*;

use crate::config::options::ShellOptions;
use crate::error::{text_result, ShellError, ShellErrorV};
use crate::expansion::arithmetic::{arith_expand, expand_arithmetic, law_no_arith_unchanged, name_end};
use crate::expansion::braced::{braced_words, expand_braced, find_brace_open, has_brace_open};
use crate::expansion::command::{
    commands_in, expand_command_substitution, law_no_substitution_unchanged, substituted, Captures,
};
use crate::expansion::fields::{fields_of, split_with, strings_view};
use crate::lexer::token::{Token, TokenV};
use crate::lexer::QuoteState;
use crate::text::{
    append_str, copy_string, is_alphanumeric, parse_usize, parse_usize_spec, str_chars,
    string_from_range,
};
use crate::vars::{ArrayTable, VarTable};

verus! {

/// The state an expander reads, as values.
pub struct ExpanderView {
    pub last_exit_code: i32,
    pub positional: Seq<Seq<char>>,
    pub options: ShellOptions,
    pub arrays: Map<Seq<char>, Seq<Seq<char>>>,
    pub locals: Map<Seq<char>, Seq<char>>,
    pub env: Map<Seq<char>, Seq<char>>,
}

/// Expands words against a snapshot of the shell's state.
pub struct Expander {
    last_exit_code: i32,
    positional_args: Vec<String>,
    options: ShellOptions,
    arrays: ArrayTable,
    locals: VarTable,
    env: VarTable,
}

// ───────────────────────── variables ─────────────────────────

/// `p` before the text of `r`, where `r` is a success.
pub open spec fn prepend(p: Seq<char>, r: Result<Seq<char>, ShellErrorV>) -> Result<Seq<char>, ShellErrorV> {
    match r {
        Ok(t) => Ok(p + t),
        Err(e) => Err(e),
    }
}

/// The error for expanding the unset variable `name` under `set -u`.
pub open spec fn unbound_error(name: Seq<char>) -> ShellErrorV {
    ShellErrorV::Execution(name + ": unbound variable"@)
}

/// What `$name` expands to; `None` where it is unset and `set -u` is on.
/// A name that is a number is a positional parameter (empty where there is
/// none); other names are looked up among the shell's variables, then in
/// the environment.
pub open spec fn var_value(x: ExpanderView, name: Seq<char>) -> Option<Seq<char>> {
    match parse_usize_spec(name) {
        Some(idx) => Some(
            if 0 < idx <= x.positional.len() {
                x.positional[idx - 1]
            } else {
                Seq::empty()
            },
        ),
        None => if x.locals.contains_key(name) {
            Some(x.locals[name])
        } else if x.env.contains_key(name) {
            Some(x.env[name])
        } else if x.options.nounset {
            None
        } else {
            Some(Seq::empty())
        },
    }
}

/// `s` from `i` on with each `$name` replaced by its value. A name is a run
/// of alphanumeric characters and `_`; a `$` not followed by one stays as
/// it is (so `$?`, `$#` and `$@` are left alone).
pub open spec fn vars_expand(x: ExpanderView, s: Seq<char>, i: int) -> Result<Seq<char>, ShellErrorV>
    decreases s.len() - i,
{
    if i < 0 || i >= s.len() {
        Ok(Seq::empty())
    } else if s[i] == '$' {
        let e = name_end(s, i + 1);
        if i + 1 < e <= s.len() {
            let name = s.subrange(i + 1, e);
            match var_value(x, name) {
                Some(v) => prepend(v, vars_expand(x, s, e)),
                None => Err(unbound_error(name)),
            }
        } else {
            prepend(seq!['$'], vars_expand(x, s, i + 1))
        }
    } else {
        prepend(seq![s[i]], vars_expand(x, s, i + 1))
    }
}

// ───────────────────────── strings ─────────────────────────

/// What `s` expands to as a double-quoted string, where the substituted
/// commands print `outs` from the `k`-th on: arithmetic first, then command
/// substitution, then variables.
pub open spec fn string_result(x: ExpanderView, s: Seq<char>, outs: Seq<Seq<char>>, k: int) -> Result<
    Seq<char>,
    ShellErrorV,
> {
    vars_expand(x, substituted(arith_expand(s, x.env, 0), 0, outs, k), 0)
}

/// The commands that expanding `s` as a string substitutes, in order.
pub open spec fn string_commands(x: ExpanderView, s: Seq<char>) -> Seq<Seq<char>> {
    commands_in(arith_expand(s, x.env, 0), 0)
}

// ───────────────────────── words ─────────────────────────

/// One step of the scan of a word: whether the character at hand closes
/// the open region (and whether that region is expanded), the state after
/// it, how many characters it takes, and the character it adds to the
/// region where it closes none.
pub struct Move {
    pub flush: bool,
    pub expand: bool,
    pub next: QuoteState,
    pub step: usize,
    pub pushed: char,
}

/// The step of the scan at `i`, in state `st`.
pub open spec fn scan_at(s: Seq<char>, i: int, st: QuoteState) -> Move {
    let c = s[i];
    match st {
        QuoteState::Bare => if c == '\'' {
            Move { flush: true, expand: true, next: QuoteState::InSingle, step: 1, pushed: c }
        } else if c == '"' {
            Move { flush: true, expand: true, next: QuoteState::InDouble, step: 1, pushed: c }
        } else {
            Move { flush: false, expand: false, next: QuoteState::Bare, step: 1, pushed: c }
        },
        QuoteState::InSingle => if c == '\'' {
            Move { flush: true, expand: false, next: QuoteState::Bare, step: 1, pushed: c }
        } else {
            Move { flush: false, expand: false, next: QuoteState::InSingle, step: 1, pushed: c }
        },
        QuoteState::InDouble => if c == '"' {
            Move { flush: true, expand: true, next: QuoteState::Bare, step: 1, pushed: c }
        } else if c == '\\' && i + 1 < s.len() {
            Move { flush: false, expand: false, next: QuoteState::InDouble, step: 2, pushed: s[i + 1] }
        } else {
            Move { flush: false, expand: false, next: QuoteState::InDouble, step: 1, pushed: c }
        },
    }
}

/// The regions of a word from `i` on, scanning in state `st` with `reg`
/// read so far: each region's text, and whether it is expanded (bare and
/// double-quoted text is; single-quoted text is not). The quotes themselves
/// are dropped; inside double quotes a backslash keeps the next character
/// as it is. At the end of the word the open region closes: expanded only
/// where it is bare.
pub open spec fn word_regions(s: Seq<char>, i: int, st: QuoteState, reg: Seq<char>) -> Seq<
    (bool, Seq<char>),
>
    decreases s.len() - i,
{
    if i < 0 || i >= s.len() {
        seq![(st is Bare, reg)]
    } else {
        let m = scan_at(s, i, st);
        if m.flush {
            seq![(m.expand, reg)] + word_regions(s, i + 1, m.next, Seq::empty())
        } else if i + m.step <= s.len() {
            word_regions(s, i + m.step, m.next, reg.push(m.pushed))
        } else {
            Seq::empty()
        }
    }
}

/// The text expanded so far and the commands substituted so far.
pub open spec fn word_step(
    x: ExpanderView,
    outs: Seq<Seq<char>>,
    k0: int,
    st: (Result<Seq<char>, ShellErrorV>, Seq<Seq<char>>),
    r: (bool, Seq<char>),
) -> (Result<Seq<char>, ShellErrorV>, Seq<Seq<char>>) {
    match st.0 {
        Err(_) => st,
        Ok(t) => if r.0 {
            (
                prepend(t, string_result(x, r.1, outs, k0 + st.1.len())),
                st.1 + string_commands(x, r.1),
            )
        } else {
            (Ok(t + r.1), st.1)
        },
    }
}

/// The regions `rs` expanded one after another, stopping at the first
/// error; the commands they substitute take the outputs from the `k0`-th on.
pub open spec fn run_regions(x: ExpanderView, outs: Seq<Seq<char>>, k0: int, rs: Seq<(bool, Seq<char>)>) -> (
    Result<Seq<char>, ShellErrorV>,
    Seq<Seq<char>>,
)
    decreases rs.len(),
{
    if rs.len() == 0 {
        (Ok(Seq::empty()), Seq::empty())
    } else {
        word_step(x, outs, k0, run_regions(x, outs, k0, rs.drop_last()), rs.last())
    }
}

/// What the word `s` expands to, and the commands it substitutes.
pub open spec fn word_expansion(x: ExpanderView, s: Seq<char>, outs: Seq<Seq<char>>, k0: int) -> (
    Result<Seq<char>, ShellErrorV>,
    Seq<Seq<char>>,
) {
    run_regions(x, outs, k0, word_regions(s, 0, QuoteState::Bare, Seq::empty()))
}

/// A quote character.
pub open spec fn is_quote(c: char) -> bool {
    c == '\'' || c == '"'
}

/// Whether `s` quotes any part of itself.
pub open spec fn has_quote(s: Seq<char>) -> bool {
    exists|i: int| 0 <= i < s.len() && is_quote(#[trigger] s[i])
}

proof fn lemma_run_regions_err(
    x: ExpanderView,
    outs: Seq<Seq<char>>,
    k0: int,
    a: Seq<(bool, Seq<char>)>,
    b: Seq<(bool, Seq<char>)>,
)
    requires
        run_regions(x, outs, k0, a).0 is Err,
    ensures
        run_regions(x, outs, k0, a + b) == run_regions(x, outs, k0, a),
    decreases b.len(),
{
    if b.len() == 0 {
        assert(a + b =~= a);
    } else {
        lemma_run_regions_err(x, outs, k0, a, b.drop_last());
        assert((a + b).drop_last() =~= a + b.drop_last());
    }
}

// ───────────────────────── tildes and fields ─────────────────────────

/// The value of `name` among the shell's variables, else in the
/// environment, else `default`.
pub open spec fn lookup_or(x: ExpanderView, name: Seq<char>, default: Seq<char>) -> Seq<char> {
    if x.locals.contains_key(name) {
        x.locals[name]
    } else if x.env.contains_key(name) {
        x.env[name]
    } else {
        default
    }
}

/// `s` with a leading `~` (alone, or before `/`) replaced by the home
/// directory: `$HOME`, or `/` where it is unset.
pub open spec fn tilde_expanded(x: ExpanderView, s: Seq<char>) -> Seq<char> {
    let home = lookup_or(x, "HOME"@, "/"@);
    if s == seq!['~'] {
        home
    } else if s.len() >= 2 && s[0] == '~' && s[1] == '/' {
        home + s.subrange(1, s.len() as int)
    } else {
        s
    }
}

/// The field separators: `$IFS`, or space, tab and newline where it is
/// unset.
pub open spec fn ifs_of(x: ExpanderView) -> Seq<char> {
    lookup_or(x, "IFS"@, " \t\n"@)
}

/// The step of the scan of `chars` at `i`, in state `st`.
fn scan(chars: &Vec<char>, i: usize, st: &QuoteState) -> (m: Move)
    requires
        i < chars@.len(),
    ensures
        m == scan_at(chars@, i as int, *st),
{
    let c = chars[i];
    match st {
        QuoteState::Bare => if c == '\'' {
            Move { flush: true, expand: true, next: QuoteState::InSingle, step: 1, pushed: c }
        } else if c == '"' {
            Move { flush: true, expand: true, next: QuoteState::InDouble, step: 1, pushed: c }
        } else {
            Move { flush: false, expand: false, next: QuoteState::Bare, step: 1, pushed: c }
        },
        QuoteState::InSingle => if c == '\'' {
            Move { flush: true, expand: false, next: QuoteState::Bare, step: 1, pushed: c }
        } else {
            Move { flush: false, expand: false, next: QuoteState::InSingle, step: 1, pushed: c }
        },
        QuoteState::InDouble => if c == '"' {
            Move { flush: true, expand: true, next: QuoteState::Bare, step: 1, pushed: c }
        } else if c == '\\' && i < chars.len() - 1 {
            Move {
                flush: false,
                expand: false,
                next: QuoteState::InDouble,
                step: 2,
                pushed: chars[i + 1],
            }
        } else {
            Move { flush: false, expand: false, next: QuoteState::InDouble, step: 1, pushed: c }
        },
    }
}

/// Whether `chars` holds a quote character.
fn contains_quote(chars: &Vec<char>) -> (b: bool)
    ensures
        b == has_quote(chars@),
{
    let mut i: usize = 0;
    while i < chars.len()
        invariant
            i <= chars@.len(),
            forall|j: int| 0 <= j < i ==> !is_quote(#[trigger] chars@[j]),
        decreases chars@.len() - i,
    {
        if chars[i] == '\'' || chars[i] == '"' {
            assert(is_quote(chars@[i as int]));
            return true;
        }
        i = i + 1;
    }
    false
}

// ───────────────────────── tokens ─────────────────────────

/// A field that expansion produced: its text, and whether it is a pattern
/// for pathname expansion to match against the file system.
pub struct Field {
    pub text: String,
    pub pattern: bool,
}

/// The fields `v` as values.
pub open spec fn fields_view(v: Seq<Field>) -> Seq<(Seq<char>, bool)> {
    v.map_values(|f: Field| (f.text@, f.pattern))
}

/// A character that makes a word a pattern.
pub open spec fn is_glob_char(c: char) -> bool {
    c == '*' || c == '?' || c == '['
}

/// Whether `s` holds a pattern character.
pub open spec fn has_glob(s: Seq<char>) -> bool {
    exists|i: int| 0 <= i < s.len() && is_glob_char(#[trigger] s[i])
}

/// Words that are no patterns.
pub open spec fn plain_fields(ws: Seq<Seq<char>>) -> Seq<(Seq<char>, bool)> {
    ws.map_values(|w: Seq<char>| (w, false))
}

/// The fields of the unquoted word `s` that expanded to `raw`: after tilde
/// expansion, split at `$IFS` where `split` asks for it and the word quoted
/// nothing; a field is a pattern where the word quoted nothing and the
/// field holds `*`, `?` or `[`.
pub open spec fn word_fields(x: ExpanderView, split: bool, s: Seq<char>, raw: Seq<char>) -> Seq<
    (Seq<char>, bool),
> {
    let q = has_quote(s);
    let t = tilde_expanded(x, raw);
    let parts = if !split || q {
        seq![t]
    } else {
        fields_of(t, ifs_of(x))
    };
    parts.map_values(|f: Seq<char>| (f, !q && has_glob(f)))
}

/// What the token `t` expands to, where its substituted commands take the
/// outputs from the `k`-th on, and the commands it substitutes. Single
/// quotes keep their text; double quotes are expanded as one string; an
/// unquoted word is expanded, tilde-expanded and split into fields. A
/// quoted or unquoted word with a `${` goes to array expansion alone.
/// Tokens of the command's structure give nothing.
#[verifier::opaque]
pub open spec fn token_effect(x: ExpanderView, split: bool, outs: Seq<Seq<char>>, k: int, t: TokenV) -> (
    Result<Seq<(Seq<char>, bool)>, ShellErrorV>,
    Seq<Seq<char>>,
) {
    match t {
        TokenV::SingleQuoted(s) => (Ok(seq![(s, false)]), Seq::empty()),
        TokenV::DoubleQuoted(s) => if has_brace_open(s) {
            (Ok(plain_fields(braced_words(x.arrays, s))), Seq::empty())
        } else {
            (
                match string_result(x, s, outs, k) {
                    Ok(u) => Ok(seq![(u, false)]),
                    Err(e) => Err(e),
                },
                string_commands(x, s),
            )
        },
        TokenV::Word(s) => if has_brace_open(s) {
            (Ok(plain_fields(braced_words(x.arrays, s))), Seq::empty())
        } else {
            let w = word_expansion(x, s, outs, k);
            (
                match w.0 {
                    Ok(raw) => Ok(word_fields(x, split, s, raw)),
                    Err(e) => Err(e),
                },
                w.1,
            )
        },
        _ => (Ok(Seq::empty()), Seq::empty()),
    }
}

/// The fields so far and the commands substituted so far, after one more
/// token.
pub open spec fn token_step(
    x: ExpanderView,
    split: bool,
    outs: Seq<Seq<char>>,
    k0: int,
    st: (Result<Seq<(Seq<char>, bool)>, ShellErrorV>, Seq<Seq<char>>),
    t: TokenV,
) -> (Result<Seq<(Seq<char>, bool)>, ShellErrorV>, Seq<Seq<char>>) {
    match st.0 {
        Err(_) => st,
        Ok(fs) => {
            let eff = token_effect(x, split, outs, k0 + st.1.len(), t);
            (
                match eff.0 {
                    Ok(nf) => Ok(fs + nf),
                    Err(e) => Err(e),
                },
                st.1 + eff.1,
            )
        },
    }
}

/// The tokens `ts` expanded one after another, stopping at the first error.
pub open spec fn run_tokens(x: ExpanderView, split: bool, outs: Seq<Seq<char>>, k0: int, ts: Seq<TokenV>) -> (
    Result<Seq<(Seq<char>, bool)>, ShellErrorV>,
    Seq<Seq<char>>,
)
    decreases ts.len(),
{
    if ts.len() == 0 {
        (Ok(Seq::empty()), Seq::empty())
    } else {
        token_step(x, split, outs, k0, run_tokens(x, split, outs, k0, ts.drop_last()), ts.last())
    }
}

proof fn lemma_run_tokens_push(
    x: ExpanderView,
    split: bool,
    outs: Seq<Seq<char>>,
    k0: int,
    pre: Seq<TokenV>,
    t: TokenV,
)
    ensures
        run_tokens(x, split, outs, k0, pre.push(t)) == token_step(
            x,
            split,
            outs,
            k0,
            run_tokens(x, split, outs, k0, pre),
            t,
        ),
{
    assert(pre.push(t).drop_last() =~= pre);
}

proof fn lemma_run_tokens_err(
    x: ExpanderView,
    split: bool,
    outs: Seq<Seq<char>>,
    k0: int,
    a: Seq<TokenV>,
    b: Seq<TokenV>,
)
    requires
        run_tokens(x, split, outs, k0, a).0 is Err,
    ensures
        run_tokens(x, split, outs, k0, a + b) == run_tokens(x, split, outs, k0, a),
    decreases b.len(),
{
    if b.len() == 0 {
        assert(a + b =~= a);
    } else {
        lemma_run_tokens_err(x, split, outs, k0, a, b.drop_last());
        assert((a + b).drop_last() =~= a + b.drop_last());
    }
}

/// Whether `s` holds a pattern character.
fn contains_glob(s: &str) -> (b: bool)
    ensures
        b == has_glob(s@),
{
    let chars = str_chars(s);
    let mut i: usize = 0;
    while i < chars.len()
        invariant
            i <= chars@.len(),
            chars@ == s@,
            forall|j: int| 0 <= j < i ==> !is_glob_char(#[trigger] chars@[j]),
        decreases chars@.len() - i,
    {
        let c = chars[i];
        if c == '*' || c == '?' || c == '[' {
            assert(is_glob_char(chars@[i as int]));
            return true;
        }
        i = i + 1;
    }
    false
}

/// The words `ws`, none of them a pattern.
fn plain(ws: Vec<String>) -> (r: Vec<Field>)
    ensures
        fields_view(r@) == plain_fields(strings_view(ws@)),
{
    let mut r: Vec<Field> = Vec::new();
    let mut i: usize = 0;
    while i < ws.len()
        invariant
            i <= ws@.len(),
            fields_view(r@) == plain_fields(strings_view(ws@)).subrange(0, i as int),
        decreases ws@.len() - i,
    {
        let ghost before = fields_view(r@);
        let f = Field { text: copy_string(&ws[i]), pattern: false };
        r.push(f);
        assert(fields_view(r@) =~= before.push((ws@[i as int]@, false)));
        i = i + 1;
        assert(fields_view(r@) =~= plain_fields(strings_view(ws@)).subrange(0, i as int));
    }
    assert(plain_fields(strings_view(ws@)).subrange(0, ws@.len() as int) =~= plain_fields(
        strings_view(ws@),
    ));
    r
}

impl Expander {
    /// The state this expander reads.
    pub closed spec fn view(&self) -> ExpanderView {
        ExpanderView {
            last_exit_code: self.last_exit_code,
            positional: strings_view(self.positional_args@),
            options: self.options,
            arrays: self.arrays.view(),
            locals: self.locals.view(),
            env: self.env.view(),
        }
    }

    /// An expander over the given state; `env` is the environment the
    /// expansions read.
    pub fn new(
        last_exit_code: i32,
        positional_args: Vec<String>,
        options: ShellOptions,
        arrays: ArrayTable,
        locals: VarTable,
        env: VarTable,
    ) -> (e: Self)
        ensures
            e.view() == (ExpanderView {
                last_exit_code,
                positional: strings_view(positional_args@),
                options,
                arrays: arrays.view(),
                locals: locals.view(),
                env: env.view(),
            }),
    {
        Expander { last_exit_code, positional_args, options, arrays, locals, env }
    }

    /// The value of `$name`; `None` where it is unset under `set -u`.
    fn var_value(&self, name: &str) -> (r: Option<String>)
        ensures
            match var_value(self.view(), name@) {
                Some(v) => r matches Some(t) && t@ == v,
                None => r is None,
            },
    {
        match parse_usize(name) {
            Some(idx) => {
                if idx > 0 && idx <= self.positional_args.len() {
                    Some(copy_string(&self.positional_args[idx - 1]))
                } else {
                    Some(String::new())
                }
            },
            None => match self.locals.get(name) {
                Some(v) => Some(v),
                None => match self.env.get(name) {
                    Some(v) => Some(v),
                    None => {
                        if self.options.nounset {
                            None
                        } else {
                            Some(String::new())
                        }
                    },
                },
            },
        }
    }

    /// `input` with each `$name` replaced by its value.
    fn expand_vars(&self, input: &str) -> (r: Result<String, ShellError>)
        ensures
            text_result(r) == vars_expand(self.view(), input@, 0),
    {
        let chars = str_chars(input);
        let ghost x = self.view();
        let ghost s = chars@;
        let mut result = String::new();
        let mut i: usize = 0;
        while i < chars.len()
            invariant
                i <= s.len(),
                s == chars@,
                s == input@,
                x == self.view(),
                vars_expand(x, s, 0) == prepend(result@, vars_expand(x, s, i as int)),
            decreases s.len() - i,
        {
            let ghost r0 = result@;
            let ghost i0 = i as int;
            if chars[i] == '$' {
                let mut e = i + 1;
                while e < chars.len() && (is_alphanumeric(chars[e]) || chars[e] == '_')
                    invariant
                        i0 + 1 <= e <= s.len(),
                        s == chars@,
                        name_end(s, e as int) == name_end(s, i0 + 1),
                    decreases s.len() - e,
                {
                    e = e + 1;
                }
                assert(e == name_end(s, i0 + 1));
                if e > i + 1 {
                    let name = string_from_range(&chars, i + 1, e);
                    match self.var_value(name.as_str()) {
                        Some(v) => {
                            append_str(&mut result, v.as_str());
                            i = e;
                            assert(prepend(r0, prepend(v@, vars_expand(x, s, i as int))) == prepend(
                                result@,
                                vars_expand(x, s, i as int),
                            )) by {
                                match vars_expand(x, s, i as int) {
                                    Ok(t) => {
                                        assert(r0 + (v@ + t) =~= result@ + t);
                                    },
                                    Err(_) => {},
                                }
                            }
                        },
                        None => {
                            let mut msg = copy_string(&name);
                            append_str(&mut msg, ": unbound variable");
                            return Err(ShellError::Execution(msg));
                        },
                    }
                } else {
                    result.push('$');
                    i = i + 1;
                    assert(prepend(r0, prepend(seq!['$'], vars_expand(x, s, i as int))) == prepend(
                        result@,
                        vars_expand(x, s, i as int),
                    )) by {
                        match vars_expand(x, s, i as int) {
                            Ok(t) => {
                                assert(r0 + (seq!['$'] + t) =~= result@ + t);
                            },
                            Err(_) => {},
                        }
                    }
                }
            } else {
                result.push(chars[i]);
                i = i + 1;
                assert(prepend(r0, prepend(seq![s[i0]], vars_expand(x, s, i as int))) == prepend(
                    result@,
                    vars_expand(x, s, i as int),
                )) by {
                    match vars_expand(x, s, i as int) {
                        Ok(t) => {
                            assert(r0 + (seq![s[i0]] + t) =~= result@ + t);
                        },
                        Err(_) => {},
                    }
                }
            }
        }
        assert(prepend(result@, Ok(Seq::<char>::empty())) == Ok::<Seq<char>, ShellErrorV>(result@))
            by {
            assert(result@ + Seq::<char>::empty() =~= result@);
        }
        Ok(result)
    }

    /// Expands `input` the way a double-quoted word is expanded: arithmetic
    /// (`$((expr))`), then command substitution (`$(cmd)`, `` `cmd` ``),
    /// then variables. The substituted commands are recorded in `caps`,
    /// whose outputs take their place.
    pub fn expand_string(&self, input: &str, caps: &mut Captures) -> (r: Result<String, ShellError>)
        ensures
            final(caps).outputs() == old(caps).outputs(),
            final(caps).asked() == old(caps).asked() + string_commands(self.view(), input@),
            text_result(r) == string_result(
                self.view(),
                input@,
                old(caps).outputs(),
                old(caps).asked().len() as int,
            ),
    {
        let after_arith = expand_arithmetic(input, &self.env);
        let after_cmd = expand_command_substitution(after_arith.as_str(), caps);
        self.expand_vars(after_cmd.as_str())
    }

    /// Expands a word whose text may quote parts of itself, such as
    /// `FOO="bar baz"` or `prefix'suffix'`: bare and double-quoted parts
    /// are expanded as strings, single-quoted parts are kept as they are,
    /// and the quotes are dropped. Also tells whether the word quoted
    /// anything. Stops at the first part whose expansion fails.
    pub fn expand_word(&self, input: &str, caps: &mut Captures) -> (r: Result<(String, bool), ShellError>)
        ensures
            final(caps).outputs() == old(caps).outputs(),
            final(caps).asked() == old(caps).asked() + word_expansion(
                self.view(),
                input@,
                old(caps).outputs(),
                old(caps).asked().len() as int,
            ).1,
            match r {
                Ok((t, q)) => word_expansion(
                    self.view(),
                    input@,
                    old(caps).outputs(),
                    old(caps).asked().len() as int,
                ).0 == Ok::<Seq<char>, ShellErrorV>(t@) && q == has_quote(input@),
                Err(e) => word_expansion(
                    self.view(),
                    input@,
                    old(caps).outputs(),
                    old(caps).asked().len() as int,
                ).0 == Err::<Seq<char>, ShellErrorV>(e@),
            },
    {
        let chars = str_chars(input);
        let ghost x = self.view();
        let ghost s = chars@;
        let ghost outs = caps.outputs();
        let ghost a0 = caps.asked();
        let ghost k0 = a0.len() as int;
        let ghost full = word_regions(s, 0, QuoteState::Bare, Seq::empty());
        let ghost mut done: Seq<(bool, Seq<char>)> = Seq::empty();
        let mut state = QuoteState::Bare;
        let mut result = String::new();
        let mut region = String::new();
        let mut i: usize = 0;
        assert(done + full =~= full);
        while i < chars.len()
            invariant
                i <= s.len(),
                s == chars@,
                s == input@,
                x == self.view(),
                caps.outputs() == outs,
                outs == old(caps).outputs(),
                a0 == old(caps).asked(),
                k0 == a0.len(),
                full == word_regions(s, 0, QuoteState::Bare, Seq::empty()),
                done + word_regions(s, i as int, state, region@) == full,
                run_regions(x, outs, k0, done).0 == Ok::<Seq<char>, ShellErrorV>(result@),
                caps.asked() == a0 + run_regions(x, outs, k0, done).1,
            decreases s.len() - i,
        {
            let ghost i0 = i as int;
            let ghost reg0 = region@;
            let ghost done0 = done;
            let m = scan(&chars, i, &state);
            if m.flush {
                let ghost r = (m.expand, reg0);
                assert(word_regions(s, i0, state, reg0) == seq![r] + word_regions(
                    s,
                    i0 + 1,
                    m.next,
                    Seq::empty(),
                ));
                proof {
                    done = done0.push(r);
                    assert(done.drop_last() =~= done0);
                    assert(done + word_regions(s, i0 + 1, m.next, Seq::empty()) =~= done0 + (seq![r]
                        + word_regions(s, i0 + 1, m.next, Seq::empty())));
                }
                if m.expand {
                    let t = self.expand_string(region.as_str(), caps);
                    match t {
                        Ok(u) => {
                            append_str(&mut result, u.as_str());
                            assert(caps.asked() =~= a0 + run_regions(x, outs, k0, done).1);
                        },
                        Err(e) => {
                            proof {
                                assert(caps.asked() =~= a0 + run_regions(x, outs, k0, done).1);
                                lemma_run_regions_err(
                                    x,
                                    outs,
                                    k0,
                                    done,
                                    word_regions(s, i0 + 1, m.next, Seq::empty()),
                                );
                            }
                            return Err(e);
                        },
                    }
                } else {
                    append_str(&mut result, region.as_str());
                }
                region = String::new();
            } else {
                region.push(m.pushed);
            }
            state = m.next;
            i = i + m.step;
        }
        let ghost done0 = done;
        let ghost r = (state is Bare, region@);
        assert(word_regions(s, i as int, state, region@) == seq![r]);
        proof {
            done = done0.push(r);
            assert(done.drop_last() =~= done0);
            assert(done =~= full);
        }
        let is_bare = match state {
            QuoteState::Bare => true,
            _ => false,
        };
        if is_bare {
            let t = self.expand_string(region.as_str(), caps);
            match t {
                Ok(u) => {
                    append_str(&mut result, u.as_str());
                },
                Err(e) => {
                    return Err(e);
                },
            }
        } else {
            append_str(&mut result, region.as_str());
        }
        assert(caps.asked() =~= a0 + run_regions(x, outs, k0, done).1);
        let had_quotes = contains_quote(&chars);
        Ok((result, had_quotes))
    }

    /// `input` with a leading `~` (alone, or before `/`) replaced by the
    /// home directory.
    pub fn expand_tilde(&self, input: &str) -> (r: String)
        ensures
            r@ == tilde_expanded(self.view(), input@),
    {
        let chars = str_chars(input);
        let n = chars.len();
        let tilde_alone = n == 1 && chars[0] == '~';
        let tilde_dir = n >= 2 && chars[0] == '~' && chars[1] == '/';
        if !tilde_alone && !tilde_dir {
            assert(!(input@ =~= seq!['~']));
            return String::from_str(input);
        }
        let home = self.lookup_or("HOME", "/");
        if tilde_alone {
            assert(input@ =~= seq!['~']);
            home
        } else {
            assert(!(input@ =~= seq!['~']));
            let mut r = home;
            let rest = string_from_range(&chars, 1, n);
            append_str(&mut r, rest.as_str());
            r
        }
    }

    /// The value of `name` among the shell's variables, else in the
    /// environment, else `default`.
    fn lookup_or(&self, name: &str, default: &str) -> (r: String)
        ensures
            r@ == lookup_or(self.view(), name@, default@),
    {
        match self.locals.get(name) {
            Some(v) => v,
            None => match self.env.get(name) {
                Some(v) => v,
                None => String::from_str(default),
            },
        }
    }

    /// Splits an expanded, unquoted value into fields at the characters of
    /// `$IFS` (space, tab and newline where it is unset).
    pub fn split_fields(&self, value: &str) -> (r: Vec<String>)
        ensures
            strings_view(r@) == fields_of(value@, ifs_of(self.view())),
    {
        let ifs = self.lookup_or("IFS", " \t\n");
        split_with(value, ifs.as_str())
    }

    /// What one token expands to (see [`token_effect`]).
    fn expand_token(&self, token: &Token, split: bool, caps: &mut Captures) -> (r: Result<
        Vec<Field>,
        ShellError,
    >)
        ensures
            final(caps).outputs() == old(caps).outputs(),
            final(caps).asked() == old(caps).asked() + token_effect(
                self.view(),
                split,
                old(caps).outputs(),
                old(caps).asked().len() as int,
                token@,
            ).1,
            match r {
                Ok(v) => token_effect(
                    self.view(),
                    split,
                    old(caps).outputs(),
                    old(caps).asked().len() as int,
                    token@,
                ).0 == Ok::<Seq<(Seq<char>, bool)>, ShellErrorV>(fields_view(v@)),
                Err(e) => token_effect(
                    self.view(),
                    split,
                    old(caps).outputs(),
                    old(caps).asked().len() as int,
                    token@,
                ).0 == Err::<Seq<(Seq<char>, bool)>, ShellErrorV>(e@),
            },
    {
        let ghost a0 = caps.asked();
        reveal(token_effect);
        match token {
            Token::SingleQuoted(s) => {
                let mut r: Vec<Field> = Vec::new();
                r.push(Field { text: copy_string(s), pattern: false });
                assert(fields_view(r@) =~= seq![(s@, false)]);
                assert(caps.asked() =~= a0 + Seq::<Seq<char>>::empty());
                Ok(r)
            },
            Token::DoubleQuoted(s) => {
                let chars = str_chars(s.as_str());
                if find_brace_open(&chars, 0).is_some() {
                    assert(caps.asked() =~= a0 + Seq::<Seq<char>>::empty());
                    Ok(plain(expand_braced(&self.arrays, s.as_str())))
                } else {
                    match self.expand_string(s.as_str(), caps) {
                        Ok(u) => {
                            let mut r: Vec<Field> = Vec::new();
                            let ghost uv = u@;
                            r.push(Field { text: u, pattern: false });
                            assert(fields_view(r@) =~= seq![(uv, false)]);
                            Ok(r)
                        },
                        Err(e) => Err(e),
                    }
                }
            },
            Token::Word(s) => {
                let chars = str_chars(s.as_str());
                if find_brace_open(&chars, 0).is_some() {
                    assert(caps.asked() =~= a0 + Seq::<Seq<char>>::empty());
                    return Ok(plain(expand_braced(&self.arrays, s.as_str())));
                }
                let (raw, quoted) = match self.expand_word(s.as_str(), caps) {
                    Ok(w) => w,
                    Err(e) => {
                        return Err(e);
                    },
                };
                let tilded = self.expand_tilde(raw.as_str());
                let parts: Vec<String> = if !split || quoted {
                    let mut v: Vec<String> = Vec::new();
                    v.push(copy_string(&tilded));
                    assert(strings_view(v@) =~= seq![tilded@]);
                    v
                } else {
                    self.split_fields(tilded.as_str())
                };
                let ghost pv = strings_view(parts@);
                let mut r: Vec<Field> = Vec::new();
                let mut i: usize = 0;
                while i < parts.len()
                    invariant
                        i <= parts@.len(),
                        pv == strings_view(parts@),
                        fields_view(r@) == pv.map_values(|f: Seq<char>| (f, !quoted && has_glob(f))).subrange(
                            0,
                            i as int,
                        ),
                    decreases parts@.len() - i,
                {
                    let ghost before = fields_view(r@);
                    let g = contains_glob(parts[i].as_str());
                    r.push(Field { text: copy_string(&parts[i]), pattern: !quoted && g });
                    assert(fields_view(r@) =~= before.push((pv[i as int], !quoted && has_glob(pv[i as int]))));
                    i = i + 1;
                    assert(fields_view(r@) =~= pv.map_values(|f: Seq<char>| (f, !quoted && has_glob(f))).subrange(
                        0,
                        i as int,
                    ));
                }
                assert(pv.map_values(|f: Seq<char>| (f, !quoted && has_glob(f))).subrange(
                    0,
                    parts@.len() as int,
                ) =~= pv.map_values(|f: Seq<char>| (f, !quoted && has_glob(f))));
                Ok(r)
            },
            _ => {
                let r: Vec<Field> = Vec::new();
                assert(fields_view(r@) =~= Seq::<(Seq<char>, bool)>::empty());
                assert(caps.asked() =~= a0 + Seq::<Seq<char>>::empty());
                Ok(r)
            },
        }
    }

    /// Expands `tokens` into fields, in order: see [`token_effect`] for
    /// each kind of token. `split` tells whether unquoted words are split
    /// at `$IFS`: it is for command arguments and word lists, not for
    /// places that take a single value. Stops at the first error.
    pub fn expand_tokens(&self, tokens: Vec<Token>, split: bool, caps: &mut Captures) -> (r: Result<
        Vec<Field>,
        ShellError,
    >)
        ensures
            final(caps).outputs() == old(caps).outputs(),
            final(caps).asked() == old(caps).asked() + run_tokens(
                self.view(),
                split,
                old(caps).outputs(),
                old(caps).asked().len() as int,
                tokens@.map_values(|t: Token| t@),
            ).1,
            match r {
                Ok(v) => run_tokens(
                    self.view(),
                    split,
                    old(caps).outputs(),
                    old(caps).asked().len() as int,
                    tokens@.map_values(|t: Token| t@),
                ).0 == Ok::<Seq<(Seq<char>, bool)>, ShellErrorV>(fields_view(v@)),
                Err(e) => run_tokens(
                    self.view(),
                    split,
                    old(caps).outputs(),
                    old(caps).asked().len() as int,
                    tokens@.map_values(|t: Token| t@),
                ).0 == Err::<Seq<(Seq<char>, bool)>, ShellErrorV>(e@),
            },
    {
        let ghost x = self.view();
        let ghost outs = caps.outputs();
        let ghost a0 = caps.asked();
        let ghost k0 = a0.len() as int;
        let ghost ts = tokens@.map_values(|t: Token| t@);
        let mut out: Vec<Field> = Vec::new();
        let mut i: usize = 0;
        assert(ts.subrange(0, 0) =~= Seq::<TokenV>::empty());
        assert(fields_view(out@) =~= Seq::<(Seq<char>, bool)>::empty());
        assert(a0 + Seq::<Seq<char>>::empty() =~= a0);
        while i < tokens.len()
            invariant
                i <= tokens@.len(),
                x == self.view(),
                ts == tokens@.map_values(|t: Token| t@),
                caps.outputs() == outs,
                outs == old(caps).outputs(),
                a0 == old(caps).asked(),
                k0 == a0.len(),
                run_tokens(x, split, outs, k0, ts.subrange(0, i as int)).0 == Ok::<
                    Seq<(Seq<char>, bool)>,
                    ShellErrorV,
                >(fields_view(out@)),
                caps.asked() == a0 + run_tokens(x, split, outs, k0, ts.subrange(0, i as int)).1,
            decreases tokens@.len() - i,
        {
            let ghost pre = ts.subrange(0, i as int);
            let ghost ov = fields_view(out@);
            let ghost asked_before = caps.asked();
            proof {
                assert(ts.subrange(0, i + 1) =~= pre.push(tokens@[i as int]@));
                lemma_run_tokens_push(x, split, outs, k0, pre, tokens@[i as int]@);
            }
            match self.expand_token(&tokens[i], split, caps) {
                Ok(new_fields) => {
                    let mut new_fields = new_fields;
                    let ghost nv = new_fields@;
                    let ghost before = out@;
                    out.append(&mut new_fields);
                    assert(fields_view(out@) =~= fields_view(before) + fields_view(nv));
                    i = i + 1;
                    assert(caps.asked() =~= a0 + run_tokens(x, split, outs, k0, ts.subrange(0, i as int)).1);
                },
                Err(e) => {
                    proof {
                        let done = ts.subrange(0, i + 1);
                        assert(caps.asked() =~= a0 + run_tokens(x, split, outs, k0, done).1);
                        lemma_run_tokens_err(x, split, outs, k0, done, ts.subrange(i + 1, ts.len() as int));
                        assert(done + ts.subrange(i + 1, ts.len() as int) =~= ts);
                    }
                    return Err(e);
                },
            }
        }
        assert(ts.subrange(0, tokens@.len() as int) =~= ts);
        Ok(out)
    }
}

/// The words a field stands for once pathname expansion has matched it
/// against the file system: the paths it matched, in the order given, or
/// the field itself where it is no pattern or matched nothing.
pub fn field_words(field: Field, matches: Vec<String>) -> (r: Vec<String>)
    ensures
        strings_view(r@) == (if !field.pattern || matches@.len() == 0 {
            seq![field.text@]
        } else {
            strings_view(matches@)
        }),
{
    if !field.pattern || matches.len() == 0 {
        let mut r: Vec<String> = Vec::new();
        let ghost t = field.text@;
        r.push(field.text);
        assert(strings_view(r@) =~= seq![t]);
        r
    } else {
        matches
    }
}

proof fn lemma_vars_plain(x: ExpanderView, s: Seq<char>, i: int)
    requires
        0 <= i <= s.len(),
        forall|j: int| 0 <= j < s.len() ==> #[trigger] s[j] != '$',
    ensures
        vars_expand(x, s, i) == Ok::<Seq<char>, ShellErrorV>(s.subrange(i, s.len() as int)),
    decreases s.len() - i,
{
    if i < s.len() {
        lemma_vars_plain(x, s, i + 1);
        assert(s[i] != '$');
        assert(seq![s[i]] + s.subrange(i + 1, s.len() as int) =~= s.subrange(i, s.len() as int));
    } else {
        assert(s.subrange(i, s.len() as int) =~= Seq::<char>::empty());
    }
}

/// A string with no `$` and no backquote expands to itself and runs no
/// command.
pub proof fn law_plain_string_unchanged(x: ExpanderView, s: Seq<char>, outs: Seq<Seq<char>>, k: int)
    requires
        forall|j: int| 0 <= j < s.len() ==> #[trigger] s[j] != '$' && s[j] != '`',
    ensures
        string_result(x, s, outs, k) == Ok::<Seq<char>, ShellErrorV>(s),
        string_commands(x, s) == Seq::<Seq<char>>::empty(),
{
    assert(crate::expansion::arithmetic::no_arith_open(s)) by {
        assert forall|i: int| 0 <= i && i + 2 < s.len() implies !(#[trigger] s[i] == '$' && s[i + 1]
            == '(' && s[i + 2] == '(') by {
            assert(s[i] != '$');
        }
    }
    law_no_arith_unchanged(s, x.env);
    assert(crate::expansion::command::no_substitution(s)) by {
        assert forall|i: int| 0 <= i < s.len() implies #[trigger] s[i] != '`' by {
            assert(s[i] != '$' && s[i] != '`');
        }
        assert forall|i: int| 0 <= i && i + 1 < s.len() implies !(#[trigger] s[i] == '$' && s[i + 1]
            == '(') by {
            assert(s[i] != '$' && s[i] != '`');
        }
    }
    law_no_substitution_unchanged(s, outs, k);
    assert forall|j: int| 0 <= j < s.len() implies #[trigger] s[j] != '$' by {
        assert(s[j] != '$' && s[j] != '`');
    }
    lemma_vars_plain(x, s, 0);
    assert(s.subrange(0, s.len() as int) =~= s);
}

} // verus!
