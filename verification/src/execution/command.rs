//! A simple command of a script, and its expansion before it runs: its
//! words, the values of its assignments and the targets of its
//! redirections.
//!
//! Each of these is expanded on its own, in that order, from the tokens of
//! its text; the substituted commands of all of them go through one
//! [`Captures`], in the same order. Pathname expansion is left to the
//! caller, which matches each pattern field; a scalar value and a
//! redirection target then take the first word (or nothing), and a
//! here-string joins its words with single spaces.

use vstd::prelude::*;

use crate::error::{ShellError, ShellErrorV};
use crate::expansion::command::Captures;
use crate::expansion::expander::{
    fields_view, run_tokens, string_commands, string_result, Expander, ExpanderView, Field,
};
use crate::expansion::fields::strings_view;
use crate::lexer::token::{tokens_view, Token, TokenV};
use crate::lexer::{lex, tokenize};
use crate::text::copy_string;

verus! {

/// An assignment written before a command: `NAME=value` or
/// `NAME=(elements...)`.
pub enum Assignment {
    Scalar(String, String),
    Array(String, Vec<String>),
}

/// A redirection of a command. A here-document carries its body, whether
/// leading tabs are stripped (`<<-`), and whether its body is expanded
/// (its delimiter was not quoted).
pub enum Redirect {
    Input(String),
    Output(String),
    Append(String),
    HereString(String),
    HereDoc(String, bool, bool),
}

/// A simple command as the script parser leaves it.
pub struct SimpleCommand {
    pub args: Vec<String>,
    pub assignments: Vec<Assignment>,
    pub redirects: Vec<Redirect>,
}

/// An assignment as values.
pub enum AssignmentV {
    Scalar(Seq<char>, Seq<char>),
    Array(Seq<char>, Seq<Seq<char>>),
}

/// A redirection as values.
pub enum RedirectV {
    Input(Seq<char>),
    Output(Seq<char>),
    Append(Seq<char>),
    HereString(Seq<char>),
    HereDoc(Seq<char>, bool, bool),
}

/// A simple command as values.
pub struct SimpleCommandV {
    pub args: Seq<Seq<char>>,
    pub assignments: Seq<AssignmentV>,
    pub redirects: Seq<RedirectV>,
}

impl View for Assignment {
    type V = AssignmentV;

    open spec fn view(&self) -> AssignmentV {
        match self {
            Assignment::Scalar(k, v) => AssignmentV::Scalar(k@, v@),
            Assignment::Array(n, es) => AssignmentV::Array(n@, strings_view(es@)),
        }
    }
}

impl View for Redirect {
    type V = RedirectV;

    open spec fn view(&self) -> RedirectV {
        match self {
            Redirect::Input(p) => RedirectV::Input(p@),
            Redirect::Output(p) => RedirectV::Output(p@),
            Redirect::Append(p) => RedirectV::Append(p@),
            Redirect::HereString(s) => RedirectV::HereString(s@),
            Redirect::HereDoc(b, strip, expand) => RedirectV::HereDoc(b@, *strip, *expand),
        }
    }
}

impl View for SimpleCommand {
    type V = SimpleCommandV;

    open spec fn view(&self) -> SimpleCommandV {
        SimpleCommandV {
            args: strings_view(self.args@),
            assignments: self.assignments@.map_values(|a: Assignment| a@),
            redirects: self.redirects@.map_values(|r: Redirect| r@),
        }
    }
}

/// An assignment whose value has been expanded into fields.
pub enum ExpandedAssignment {
    Scalar(String, Vec<Field>),
    Array(String, Vec<Field>),
}

/// A redirection whose target has been expanded into fields; a
/// here-document keeps one body.
pub enum ExpandedRedirect {
    Input(Vec<Field>),
    Output(Vec<Field>),
    Append(Vec<Field>),
    HereString(Vec<Field>),
    HereDoc(String, bool, bool),
}

/// A simple command after expansion.
pub struct ExpandedCommand {
    pub args: Vec<Field>,
    pub assignments: Vec<ExpandedAssignment>,
    pub redirects: Vec<ExpandedRedirect>,
}

/// An expanded assignment as values.
pub enum ExpandedAssignmentV {
    Scalar(Seq<char>, Seq<(Seq<char>, bool)>),
    Array(Seq<char>, Seq<(Seq<char>, bool)>),
}

/// An expanded redirection as values.
pub enum ExpandedRedirectV {
    Input(Seq<(Seq<char>, bool)>),
    Output(Seq<(Seq<char>, bool)>),
    Append(Seq<(Seq<char>, bool)>),
    HereString(Seq<(Seq<char>, bool)>),
    HereDoc(Seq<char>, bool, bool),
}

/// An expanded command as values.
pub struct ExpandedCommandV {
    pub args: Seq<(Seq<char>, bool)>,
    pub assignments: Seq<ExpandedAssignmentV>,
    pub redirects: Seq<ExpandedRedirectV>,
}

impl View for ExpandedAssignment {
    type V = ExpandedAssignmentV;

    open spec fn view(&self) -> ExpandedAssignmentV {
        match self {
            ExpandedAssignment::Scalar(k, fs) => ExpandedAssignmentV::Scalar(k@, fields_view(fs@)),
            ExpandedAssignment::Array(n, fs) => ExpandedAssignmentV::Array(n@, fields_view(fs@)),
        }
    }
}

impl View for ExpandedRedirect {
    type V = ExpandedRedirectV;

    open spec fn view(&self) -> ExpandedRedirectV {
        match self {
            ExpandedRedirect::Input(fs) => ExpandedRedirectV::Input(fields_view(fs@)),
            ExpandedRedirect::Output(fs) => ExpandedRedirectV::Output(fields_view(fs@)),
            ExpandedRedirect::Append(fs) => ExpandedRedirectV::Append(fields_view(fs@)),
            ExpandedRedirect::HereString(fs) => ExpandedRedirectV::HereString(fields_view(fs@)),
            ExpandedRedirect::HereDoc(b, strip, expand) => ExpandedRedirectV::HereDoc(
                b@,
                *strip,
                *expand,
            ),
        }
    }
}

impl View for ExpandedCommand {
    type V = ExpandedCommandV;

    open spec fn view(&self) -> ExpandedCommandV {
        ExpandedCommandV {
            args: fields_view(self.args@),
            assignments: self.assignments@.map_values(|a: ExpandedAssignment| a@),
            redirects: self.redirects@.map_values(|r: ExpandedRedirect| r@),
        }
    }
}

// ───────────────────────── what is expanded ─────────────────────────

/// One piece of a command that expands into fields: tokens (split at
/// `$IFS` or not), a text expanded as one double-quoted string, or a text
/// kept as it is.
pub enum PartV {
    Tokens(Seq<TokenV>, bool),
    Text(Seq<char>),
    Literal(Seq<char>),
}

/// The tokens of each of `ws`, one after another.
pub open spec fn lex_all(ws: Seq<Seq<char>>) -> Seq<TokenV>
    decreases ws.len(),
{
    if ws.len() == 0 {
        Seq::empty()
    } else {
        lex_all(ws.drop_last()) + lex(ws.last())
    }
}

/// What an assignment's value expands from: a scalar's value is one
/// unsplit word, an array's elements are split words.
pub open spec fn assignment_part(a: AssignmentV) -> PartV {
    match a {
        AssignmentV::Scalar(_, v) => PartV::Tokens(lex(v), false),
        AssignmentV::Array(_, es) => PartV::Tokens(lex_all(es), true),
    }
}

/// What a redirection expands from: a target or a here-string is an
/// unsplit word; a here-document body is expanded as a double-quoted
/// string where its delimiter asked for it, and kept otherwise.
pub open spec fn redirect_part(r: RedirectV) -> PartV {
    match r {
        RedirectV::Input(p) => PartV::Tokens(lex(p), false),
        RedirectV::Output(p) => PartV::Tokens(lex(p), false),
        RedirectV::Append(p) => PartV::Tokens(lex(p), false),
        RedirectV::HereString(s) => PartV::Tokens(lex(s), false),
        RedirectV::HereDoc(b, _, expand) => if expand {
            PartV::Text(b)
        } else {
            PartV::Literal(b)
        },
    }
}

/// The pieces of `c` in the order they are expanded: all its words, then
/// each assignment, then each redirection.
pub open spec fn command_parts(c: SimpleCommandV) -> Seq<PartV> {
    seq![PartV::Tokens(lex_all(c.args), true)] + c.assignments.map_values(
        |a: AssignmentV| assignment_part(a),
    ) + c.redirects.map_values(|r: RedirectV| redirect_part(r))
}

/// What the piece `p` expands to, where its substituted commands take the
/// outputs from the `k`-th on, and the commands it substitutes.
#[verifier::opaque]
pub open spec fn part_effect(x: ExpanderView, outs: Seq<Seq<char>>, k: int, p: PartV) -> (
    Result<Seq<(Seq<char>, bool)>, ShellErrorV>,
    Seq<Seq<char>>,
) {
    match p {
        PartV::Tokens(ts, split) => run_tokens(x, split, outs, k, ts),
        PartV::Text(s) => (
            match string_result(x, s, outs, k) {
                Ok(u) => Ok(seq![(u, false)]),
                Err(e) => Err(e),
            },
            string_commands(x, s),
        ),
        PartV::Literal(s) => (Ok(seq![(s, false)]), Seq::empty()),
    }
}

/// The results so far and the commands substituted so far, after one more
/// piece.
pub open spec fn part_step(
    x: ExpanderView,
    outs: Seq<Seq<char>>,
    k0: int,
    st: (Result<Seq<Seq<(Seq<char>, bool)>>, ShellErrorV>, Seq<Seq<char>>),
    p: PartV,
) -> (Result<Seq<Seq<(Seq<char>, bool)>>, ShellErrorV>, Seq<Seq<char>>) {
    match st.0 {
        Err(_) => st,
        Ok(rs) => {
            let eff = part_effect(x, outs, k0 + st.1.len(), p);
            (
                match eff.0 {
                    Ok(fs) => Ok(rs.push(fs)),
                    Err(e) => Err(e),
                },
                st.1 + eff.1,
            )
        },
    }
}

/// The pieces `ps` expanded one after another, each to its own fields,
/// stopping at the first error.
pub open spec fn run_parts(x: ExpanderView, outs: Seq<Seq<char>>, k0: int, ps: Seq<PartV>) -> (
    Result<Seq<Seq<(Seq<char>, bool)>>, ShellErrorV>,
    Seq<Seq<char>>,
)
    decreases ps.len(),
{
    if ps.len() == 0 {
        (Ok(Seq::empty()), Seq::empty())
    } else {
        part_step(x, outs, k0, run_parts(x, outs, k0, ps.drop_last()), ps.last())
    }
}

/// The text of the first field, or nothing.
pub open spec fn first_text(fs: Seq<(Seq<char>, bool)>) -> Seq<char> {
    if fs.len() > 0 {
        fs[0].0
    } else {
        Seq::empty()
    }
}

/// The command `c` rebuilt from the fields `rs` of its pieces, taken in
/// the order of [`command_parts`].
pub open spec fn assembled(c: SimpleCommandV, rs: Seq<Seq<(Seq<char>, bool)>>) -> ExpandedCommandV {
    let n = c.assignments.len();
    ExpandedCommandV {
        args: rs[0],
        assignments: Seq::new(
            n,
            |i: int|
                match c.assignments[i] {
                    AssignmentV::Scalar(k, _) => ExpandedAssignmentV::Scalar(k, rs[1 + i]),
                    AssignmentV::Array(m, _) => ExpandedAssignmentV::Array(m, rs[1 + i]),
                },
        ),
        redirects: Seq::new(
            c.redirects.len(),
            |j: int|
                match c.redirects[j] {
                    RedirectV::Input(_) => ExpandedRedirectV::Input(rs[1 + n + j]),
                    RedirectV::Output(_) => ExpandedRedirectV::Output(rs[1 + n + j]),
                    RedirectV::Append(_) => ExpandedRedirectV::Append(rs[1 + n + j]),
                    RedirectV::HereString(_) => ExpandedRedirectV::HereString(rs[1 + n + j]),
                    RedirectV::HereDoc(_, strip, expand) => ExpandedRedirectV::HereDoc(
                        first_text(rs[1 + n + j]),
                        strip,
                        expand,
                    ),
                },
        ),
    }
}

// ───────────────────────── lemmas ─────────────────────────

proof fn lemma_run_parts_push(x: ExpanderView, outs: Seq<Seq<char>>, k0: int, pre: Seq<PartV>, p: PartV)
    ensures
        run_parts(x, outs, k0, pre.push(p)) == part_step(x, outs, k0, run_parts(x, outs, k0, pre), p),
{
    assert(pre.push(p).drop_last() =~= pre);
}

proof fn lemma_run_parts_err(x: ExpanderView, outs: Seq<Seq<char>>, k0: int, a: Seq<PartV>, b: Seq<PartV>)
    requires
        run_parts(x, outs, k0, a).0 is Err,
    ensures
        run_parts(x, outs, k0, a + b) == run_parts(x, outs, k0, a),
    decreases b.len(),
{
    if b.len() == 0 {
        assert(a + b =~= a);
    } else {
        lemma_run_parts_err(x, outs, k0, a, b.drop_last());
        assert((a + b).drop_last() =~= a + b.drop_last());
    }
}

proof fn lemma_run_parts_len(x: ExpanderView, outs: Seq<Seq<char>>, k0: int, ps: Seq<PartV>)
    ensures
        run_parts(x, outs, k0, ps).0 is Ok ==> (run_parts(x, outs, k0, ps).0->Ok_0).len() == ps.len(),
    decreases ps.len(),
{
    if ps.len() > 0 {
        lemma_run_parts_len(x, outs, k0, ps.drop_last());
    }
}

// ───────────────────────── pieces ─────────────────────────

/// A piece of a command to expand.
enum Part {
    Tokens(Vec<Token>, bool),
    Text(String),
    Literal(String),
}

impl View for Part {
    type V = PartV;

    closed spec fn view(&self) -> PartV {
        match self {
            Part::Tokens(ts, split) => PartV::Tokens(tokens_view(ts@), *split),
            Part::Text(s) => PartV::Text(s@),
            Part::Literal(s) => PartV::Literal(s@),
        }
    }
}

spec fn parts_view(v: Seq<Part>) -> Seq<PartV> {
    v.map_values(|p: Part| p@)
}

/// The tokens of each of `words`, one after another.
fn tokenize_all(words: &Vec<String>) -> (r: Vec<Token>)
    ensures
        tokens_view(r@) == lex_all(strings_view(words@)),
{
    let ghost ws = strings_view(words@);
    let mut out: Vec<Token> = Vec::new();
    let mut i: usize = 0;
    assert(ws.subrange(0, 0) =~= Seq::<Seq<char>>::empty());
    assert(tokens_view(out@) =~= Seq::<TokenV>::empty());
    while i < words.len()
        invariant
            i <= words@.len(),
            ws == strings_view(words@),
            tokens_view(out@) == lex_all(ws.subrange(0, i as int)),
        decreases words@.len() - i,
    {
        let mut t = tokenize(words[i].as_str());
        let ghost before = out@;
        let ghost tv = t@;
        out.append(&mut t);
        proof {
            assert(ws.subrange(0, i + 1).drop_last() =~= ws.subrange(0, i as int));
            assert(ws.subrange(0, i + 1).last() == words@[i as int]@);
            assert(tokens_view(out@) =~= tokens_view(before) + tokens_view(tv));
        }
        i = i + 1;
    }
    assert(ws.subrange(0, words@.len() as int) =~= ws);
    out
}

fn assignment_piece(a: &Assignment) -> (p: Part)
    ensures
        p@ == assignment_part(a@),
{
    match a {
        Assignment::Scalar(_, v) => Part::Tokens(tokenize(v.as_str()), false),
        Assignment::Array(_, es) => Part::Tokens(tokenize_all(es), true),
    }
}

fn redirect_piece(r: &Redirect) -> (p: Part)
    ensures
        p@ == redirect_part(r@),
{
    match r {
        Redirect::Input(path) => Part::Tokens(tokenize(path.as_str()), false),
        Redirect::Output(path) => Part::Tokens(tokenize(path.as_str()), false),
        Redirect::Append(path) => Part::Tokens(tokenize(path.as_str()), false),
        Redirect::HereString(s) => Part::Tokens(tokenize(s.as_str()), false),
        Redirect::HereDoc(body, _, expand) => if *expand {
            Part::Text(copy_string(body))
        } else {
            Part::Literal(copy_string(body))
        },
    }
}

/// The pieces of `command`, in the order they are expanded.
fn command_pieces(command: &SimpleCommand) -> (r: Vec<Part>)
    ensures
        parts_view(r@) == command_parts(command@),
{
    let ghost c = command@;
    let ghost aps = c.assignments.map_values(|a: AssignmentV| assignment_part(a));
    let ghost rps = c.redirects.map_values(|r: RedirectV| redirect_part(r));
    let mut out: Vec<Part> = Vec::new();
    out.push(Part::Tokens(tokenize_all(&command.args), true));
    assert(parts_view(out@) =~= seq![PartV::Tokens(lex_all(c.args), true)]);
    let mut i: usize = 0;
    while i < command.assignments.len()
        invariant
            i <= command.assignments@.len(),
            c == command@,
            aps == c.assignments.map_values(|a: AssignmentV| assignment_part(a)),
            parts_view(out@) == seq![PartV::Tokens(lex_all(c.args), true)] + aps.subrange(
                0,
                i as int,
            ),
        decreases command.assignments@.len() - i,
    {
        let p = assignment_piece(&command.assignments[i]);
        let ghost before = out@;
        out.push(p);
        proof {
            assert(parts_view(out@) =~= parts_view(before).push(p@));
            assert(aps.subrange(0, i + 1) =~= aps.subrange(0, i as int).push(aps[i as int]));
        }
        i = i + 1;
    }
    assert(aps.subrange(0, command.assignments@.len() as int) =~= aps);
    let mut j: usize = 0;
    while j < command.redirects.len()
        invariant
            j <= command.redirects@.len(),
            c == command@,
            aps == c.assignments.map_values(|a: AssignmentV| assignment_part(a)),
            rps == c.redirects.map_values(|r: RedirectV| redirect_part(r)),
            parts_view(out@) == seq![PartV::Tokens(lex_all(c.args), true)] + aps + rps.subrange(
                0,
                j as int,
            ),
        decreases command.redirects@.len() - j,
    {
        let p = redirect_piece(&command.redirects[j]);
        let ghost before = out@;
        out.push(p);
        proof {
            assert(parts_view(out@) =~= parts_view(before).push(p@));
            assert(rps.subrange(0, j + 1) =~= rps.subrange(0, j as int).push(rps[j as int]));
        }
        j = j + 1;
    }
    assert(rps.subrange(0, command.redirects@.len() as int) =~= rps);
    out
}

// ───────────────────────── expansion ─────────────────────────

/// The fields of each result, as values.
pub open spec fn results_view(v: Seq<Vec<Field>>) -> Seq<Seq<(Seq<char>, bool)>> {
    v.map_values(|f: Vec<Field>| fields_view(f@))
}

fn one_field(text: String) -> (v: Vec<Field>)
    ensures
        fields_view(v@) == seq![(text@, false)],
{
    let ghost t = text@;
    let mut v: Vec<Field> = Vec::new();
    v.push(Field { text, pattern: false });
    assert(fields_view(v@) =~= seq![(t, false)]);
    v
}

fn expand_piece(expander: &Expander, p: Part, caps: &mut Captures) -> (r: Result<Vec<Field>, ShellError>)
    ensures
        final(caps).outputs() == old(caps).outputs(),
        final(caps).asked() == old(caps).asked() + part_effect(
            expander.view(),
            old(caps).outputs(),
            old(caps).asked().len() as int,
            p@,
        ).1,
        match r {
            Ok(v) => part_effect(
                expander.view(),
                old(caps).outputs(),
                old(caps).asked().len() as int,
                p@,
            ).0 == Ok::<Seq<(Seq<char>, bool)>, ShellErrorV>(fields_view(v@)),
            Err(e) => part_effect(
                expander.view(),
                old(caps).outputs(),
                old(caps).asked().len() as int,
                p@,
            ).0 == Err::<Seq<(Seq<char>, bool)>, ShellErrorV>(e@),
        },
{
    reveal(part_effect);
    match p {
        Part::Tokens(ts, split) => expander.expand_tokens(ts, split, caps),
        Part::Text(s) => match expander.expand_string(s.as_str(), caps) {
            Ok(u) => Ok(one_field(u)),
            Err(e) => Err(e),
        },
        Part::Literal(s) => {
            let ghost a0 = caps.asked();
            assert(a0 + Seq::<Seq<char>>::empty() =~= a0);
            Ok(one_field(s))
        },
    }
}

fn expand_pieces(expander: &Expander, parts: Vec<Part>, caps: &mut Captures) -> (r: Result<
    Vec<Vec<Field>>,
    ShellError,
>)
    ensures
        final(caps).outputs() == old(caps).outputs(),
        final(caps).asked() == old(caps).asked() + run_parts(
            expander.view(),
            old(caps).outputs(),
            old(caps).asked().len() as int,
            parts_view(parts@),
        ).1,
        match r {
            Ok(v) => run_parts(
                expander.view(),
                old(caps).outputs(),
                old(caps).asked().len() as int,
                parts_view(parts@),
            ).0 == Ok::<Seq<Seq<(Seq<char>, bool)>>, ShellErrorV>(results_view(v@)),
            Err(e) => run_parts(
                expander.view(),
                old(caps).outputs(),
                old(caps).asked().len() as int,
                parts_view(parts@),
            ).0 == Err::<Seq<Seq<(Seq<char>, bool)>>, ShellErrorV>(e@),
        },
{
    let ghost x = expander.view();
    let ghost outs = caps.outputs();
    let ghost a0 = caps.asked();
    let ghost k0 = a0.len() as int;
    let ghost ps = parts_view(parts@);
    let mut rest = parts;
    let mut out: Vec<Vec<Field>> = Vec::new();
    let ghost mut i: int = 0;
    assert(ps.subrange(0, 0) =~= Seq::<PartV>::empty());
    assert(results_view(out@) =~= Seq::<Seq<(Seq<char>, bool)>>::empty());
    assert(a0 + Seq::<Seq<char>>::empty() =~= a0);
    assert(ps.subrange(0, ps.len() as int) =~= ps);
    while rest.len() > 0
        invariant
            0 <= i <= ps.len(),
            i + rest@.len() == ps.len(),
            ps == parts_view(parts@),
            x == expander.view(),
            parts_view(rest@) == ps.subrange(i, ps.len() as int),
            caps.outputs() == outs,
            outs == old(caps).outputs(),
            a0 == old(caps).asked(),
            k0 == a0.len(),
            run_parts(x, outs, k0, ps.subrange(0, i)).0 == Ok::<
                Seq<Seq<(Seq<char>, bool)>>,
                ShellErrorV,
            >(results_view(out@)),
            caps.asked() == a0 + run_parts(x, outs, k0, ps.subrange(0, i)).1,
        decreases rest@.len(),
    {
        let ghost rv = rest@;
        assert(parts_view(rv).len() == rv.len());
        let p = rest.remove(0);
        let ghost pv = p@;
        proof {
            assert(parts_view(rv)[0] == rv[0]@);
            assert(parts_view(rv)[0] == ps.subrange(i, ps.len() as int)[0]);
            assert(pv == ps[i]);
            assert(parts_view(rest@) =~= parts_view(rv).subrange(1, rv.len() as int));
            assert(parts_view(rest@) =~= ps.subrange(i + 1, ps.len() as int));
            assert(ps.subrange(0, i + 1) =~= ps.subrange(0, i).push(pv));
            lemma_run_parts_push(x, outs, k0, ps.subrange(0, i), pv);
        }
        match expand_piece(expander, p, caps) {
            Ok(fs) => {
                let ghost before = out@;
                out.push(fs);
                proof {
                    assert(results_view(out@) =~= results_view(before).push(fields_view(fs@)));
                    i = i + 1;
                    assert(caps.asked() =~= a0 + run_parts(x, outs, k0, ps.subrange(0, i)).1);
                }
            },
            Err(e) => {
                proof {
                    let done = ps.subrange(0, i + 1);
                    assert(caps.asked() =~= a0 + run_parts(x, outs, k0, done).1);
                    lemma_run_parts_err(x, outs, k0, done, ps.subrange(i + 1, ps.len() as int));
                    assert(done + ps.subrange(i + 1, ps.len() as int) =~= ps);
                }
                return Err(e);
            },
        }
    }
    assert(ps.subrange(0, i) =~= ps);
    Ok(out)
}

fn first_field_text(fs: &Vec<Field>) -> (r: String)
    ensures
        r@ == first_text(fields_view(fs@)),
{
    if fs.len() > 0 {
        copy_string(&fs[0].text)
    } else {
        String::new()
    }
}

/// The command rebuilt from the fields of its pieces.
fn assemble(command: &SimpleCommand, results: Vec<Vec<Field>>) -> (ec: ExpandedCommand)
    requires
        results@.len() == 1 + command.assignments@.len() + command.redirects@.len(),
    ensures
        ec@ == assembled(command@, results_view(results@)),
{
    let ghost c = command@;
    let ghost rs = results_view(results@);
    let ghost want = assembled(c, rs);
    let ghost n = command.assignments@.len() as int;
    let mut rest = results;
    assert(rs.len() == results@.len());
    let ghost rv = rest@;
    let args = rest.remove(0);
    proof {
        assert(fields_view(args@) == rs[0]);
        assert(results_view(rest@) =~= rs.subrange(1, rs.len() as int));
    }
    let mut assignments: Vec<ExpandedAssignment> = Vec::new();
    let mut i: usize = 0;
    while i < command.assignments.len()
        invariant
            i <= command.assignments@.len(),
            c == command@,
            n == command.assignments@.len(),
            rs.len() == 1 + n + command.redirects@.len(),
            want == assembled(c, rs),
            results_view(rest@) == rs.subrange(1 + i, rs.len() as int),
            assignments@.len() == i,
            forall|a: int| 0 <= a < i ==> #[trigger] assignments@[a]@ == want.assignments[a],
        decreases command.assignments@.len() - i,
    {
        let ghost rv = rest@;
        assert(results_view(rv).len() == rv.len());
        let fs = rest.remove(0);
        proof {
            assert(results_view(rv)[0] == fields_view(rv[0]@));
            assert(fields_view(fs@) == rs[1 + i]);
            assert(results_view(rest@) =~= results_view(rv).subrange(1, rv.len() as int));
            assert(results_view(rest@) =~= rs.subrange(1 + i + 1, rs.len() as int));
        }
        let a = match &command.assignments[i] {
            Assignment::Scalar(k, _) => ExpandedAssignment::Scalar(copy_string(k), fs),
            Assignment::Array(m, _) => ExpandedAssignment::Array(copy_string(m), fs),
        };
        assert(a@ == want.assignments[i as int]);
        assignments.push(a);
        i = i + 1;
    }
    let mut redirects: Vec<ExpandedRedirect> = Vec::new();
    let mut j: usize = 0;
    while j < command.redirects.len()
        invariant
            j <= command.redirects@.len(),
            c == command@,
            n == command.assignments@.len(),
            rs.len() == 1 + n + command.redirects@.len(),
            want == assembled(c, rs),
            results_view(rest@) == rs.subrange(1 + n + j, rs.len() as int),
            redirects@.len() == j,
            forall|b: int| 0 <= b < j ==> #[trigger] redirects@[b]@ == want.redirects[b],
        decreases command.redirects@.len() - j,
    {
        let ghost rv = rest@;
        assert(results_view(rv).len() == rv.len());
        let fs = rest.remove(0);
        proof {
            assert(results_view(rv)[0] == fields_view(rv[0]@));
            assert(fields_view(fs@) == rs[1 + n + j]);
            assert(results_view(rest@) =~= results_view(rv).subrange(1, rv.len() as int));
            assert(results_view(rest@) =~= rs.subrange(1 + n + j + 1, rs.len() as int));
        }
        let d = match &command.redirects[j] {
            Redirect::Input(_) => ExpandedRedirect::Input(fs),
            Redirect::Output(_) => ExpandedRedirect::Output(fs),
            Redirect::Append(_) => ExpandedRedirect::Append(fs),
            Redirect::HereString(_) => ExpandedRedirect::HereString(fs),
            Redirect::HereDoc(_, strip, expand) => ExpandedRedirect::HereDoc(
                first_field_text(&fs),
                *strip,
                *expand,
            ),
        };
        assert(d@ == want.redirects[j as int]);
        redirects.push(d);
        j = j + 1;
    }
    let ec = ExpandedCommand { args, assignments, redirects };
    assert(ec@.assignments =~= want.assignments);
    assert(ec@.redirects =~= want.redirects);
    ec
}

/// Expands `command` before it runs: all its words as split fields, each
/// assignment's value (a scalar's as one unsplit word, an array's elements
/// as split fields), each redirection target and here-string as one
/// unsplit word, and each here-document body as a double-quoted string
/// where its delimiter was not quoted. The pieces go in that order and
/// their substituted commands take the outputs of `caps` in turn; the
/// first error stops the expansion.
pub fn expand_command(expander: &Expander, command: &SimpleCommand, caps: &mut Captures) -> (r:
    Result<ExpandedCommand, ShellError>)
    ensures
        final(caps).outputs() == old(caps).outputs(),
        final(caps).asked() == old(caps).asked() + run_parts(
            expander.view(),
            old(caps).outputs(),
            old(caps).asked().len() as int,
            command_parts(command@),
        ).1,
        match r {
            Ok(ec) => {
                &&& run_parts(
                    expander.view(),
                    old(caps).outputs(),
                    old(caps).asked().len() as int,
                    command_parts(command@),
                ).0 is Ok
                &&& ec@ == assembled(
                    command@,
                    run_parts(
                        expander.view(),
                        old(caps).outputs(),
                        old(caps).asked().len() as int,
                        command_parts(command@),
                    ).0->Ok_0,
                )
            },
            Err(e) => run_parts(
                expander.view(),
                old(caps).outputs(),
                old(caps).asked().len() as int,
                command_parts(command@),
            ).0 == Err::<Seq<Seq<(Seq<char>, bool)>>, ShellErrorV>(e@),
        },
{
    let pieces = command_pieces(command);
    assert(parts_view(pieces@).len() == 1 + command.assignments@.len() + command.redirects@.len());
    match expand_pieces(expander, pieces, caps) {
        Ok(results) => {
            proof {
                lemma_run_parts_len(
                    expander.view(),
                    old(caps).outputs(),
                    old(caps).asked().len() as int,
                    parts_view(pieces@),
                );
            }
            assert(results_view(results@).len() == results@.len());
            Ok(assemble(command, results))
        },
        Err(e) => Err(e),
    }
}

/// The first of `words`, or nothing where there is none: the value a
/// scalar assignment or a redirection target takes from its words.
pub fn first_word(words: &Vec<String>) -> (r: String)
    ensures
        r@ == (if words@.len() > 0 {
            words@[0]@
        } else {
            Seq::empty()
        }),
{
    if words.len() > 0 {
        copy_string(&words[0])
    } else {
        String::new()
    }
}

} // verus!
