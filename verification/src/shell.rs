//! The line shell: a parsed command line is run pipeline by pipeline,
//! `&&`, `||` and `;` deciding from each pipeline's status which one comes
//! next. Running a pipeline is the caller's part: it asks the shell for the
//! next pipeline, runs it, and hands the status back.

use vstd::prelude::*;

use crate::expansion::arithmetic::name_end;
use crate::expansion::expander::{fields_view, has_glob, is_glob_char, Field};
use crate::expansion::fields::strings_view;
use crate::parser::{Node, NodeV, Pipeline, PipelineV};
use crate::text::{
    append_str, copy_string, i64_to_string, int_text, is_alphanumeric, str_chars,
    string_from_range,
};
use crate::vars::VarTable;

verus! {

/// The shell's own state: the status of the last foreground pipeline.
pub struct Shell {
    last_status: i32,
}

/// Where running a line stands, given the statuses of the pipelines run
/// so far.
#[verifier::ext_equal]
pub enum RunView {
    /// This pipeline runs next.
    Need(PipelineV),
    /// The line is done with this status; the statuses up to the position
    /// were used.
    Finished(i32, int),
}

/// Running `n` where the pipelines run so far gave `outs`, from the `k`-th
/// on: each pipeline takes the next status; `a && b` runs `b` only where `a`
/// gave 0, `a || b` only where it did not, and `a ; b` runs both. The
/// status of a line is that of the last pipeline it ran.
pub open spec fn run_from(n: NodeV, outs: Seq<i32>, k: int) -> RunView
    decreases n,
{
    match n {
        NodeV::Pipeline(p) => if 0 <= k < outs.len() {
            RunView::Finished(outs[k], k + 1)
        } else {
            RunView::Need(p)
        },
        NodeV::And(l, r) => match run_from(*l, outs, k) {
            RunView::Need(p) => RunView::Need(p),
            RunView::Finished(s, k2) => if s == 0 {
                run_from(*r, outs, k2)
            } else {
                RunView::Finished(s, k2)
            },
        },
        NodeV::Or(l, r) => match run_from(*l, outs, k) {
            RunView::Need(p) => RunView::Need(p),
            RunView::Finished(s, k2) => if s != 0 {
                run_from(*r, outs, k2)
            } else {
                RunView::Finished(s, k2)
            },
        },
        NodeV::Sequence(l, r) => match run_from(*l, outs, k) {
            RunView::Need(p) => RunView::Need(p),
            RunView::Finished(_, k2) => run_from(*r, outs, k2),
        },
    }
}

/// What the caller does next.
pub enum NodeStep {
    /// Run this pipeline and hand back its status.
    Run(Pipeline),
    /// The line is done, with this status.
    Done(i32),
}

/// Where the run of a node stands.
enum Step<'a> {
    Need(&'a Pipeline),
    Finished(i32, usize),
}

/// Where running `node` stands after the statuses `outs` from `k` on.
fn step<'a>(node: &'a Node, outs: &Vec<i32>, k: usize) -> (r: Step<'a>)
    requires
        k <= outs@.len(),
    ensures
        match r {
            Step::Need(p) => run_from(node@, outs@, k as int) == RunView::Need(p@),
            Step::Finished(s, k2) => run_from(node@, outs@, k as int) == RunView::Finished(s, k2 as int)
                && k2 <= outs@.len(),
        },
    decreases node,
{
    match node {
        Node::Pipeline(p) => {
            if k < outs.len() {
                Step::Finished(outs[k], k + 1)
            } else {
                Step::Need(p)
            }
        },
        Node::And(l, r) => {
            assert(node@ == NodeV::And(Box::new((**l)@), Box::new((**r)@)));
            match step(&**l, outs, k) {
                Step::Need(p) => Step::Need(p),
                Step::Finished(s, k2) => {
                    if s == 0 {
                        step(&**r, outs, k2)
                    } else {
                        Step::Finished(s, k2)
                    }
                },
            }
        },
        Node::Or(l, r) => {
            assert(node@ == NodeV::Or(Box::new((**l)@), Box::new((**r)@)));
            match step(&**l, outs, k) {
                Step::Need(p) => Step::Need(p),
                Step::Finished(s, k2) => {
                    if s != 0 {
                        step(&**r, outs, k2)
                    } else {
                        Step::Finished(s, k2)
                    }
                },
            }
        },
        Node::Sequence(l, r) => {
            assert(node@ == NodeV::Sequence(Box::new((**l)@), Box::new((**r)@)));
            match step(&**l, outs, k) {
                Step::Need(p) => Step::Need(p),
                Step::Finished(_, k2) => step(&**r, outs, k2),
            }
        },
    }
}

/// `s` from `i` on with `$?` replaced by `last` and each `$name` by its
/// value in `env` (nothing where it is unset); a `$` before anything else
/// stays.
pub open spec fn shell_vars(s: Seq<char>, i: int, last: i32, env: Map<Seq<char>, Seq<char>>) -> Seq<char>
    decreases s.len() - i,
{
    if i < 0 || i >= s.len() {
        Seq::empty()
    } else if s[i] != '$' {
        seq![s[i]] + shell_vars(s, i + 1, last, env)
    } else if i + 1 < s.len() && s[i + 1] == '?' {
        int_text(last as int) + shell_vars(s, i + 2, last, env)
    } else {
        let e = name_end(s, i + 1);
        if i + 1 < e <= s.len() {
            let name = s.subrange(i + 1, e);
            (if env.contains_key(name) {
                env[name]
            } else {
                Seq::empty()
            }) + shell_vars(s, e, last, env)
        } else {
            seq!['$'] + shell_vars(s, i + 1, last, env)
        }
    }
}

/// The fields of the arguments `args`: each with its variables expanded,
/// and a pattern where it then holds `*`, `?` or `[`.
pub open spec fn shell_fields(args: Seq<Seq<char>>, last: i32, env: Map<Seq<char>, Seq<char>>) -> Seq<
    (Seq<char>, bool),
> {
    args.map_values(
        |a: Seq<char>|
            (shell_vars(a, 0, last, env), has_glob(shell_vars(a, 0, last, env))),
    )
}

/// The notice for a pipeline sent to the background.
pub open spec fn background_text(p: PipelineV) -> Seq<char> {
    "[1] "@ + crate::expansion::fields::join_words(
        if p.commands.len() > 0 {
            p.commands[0].args
        } else {
            Seq::empty()
        },
    ) + " &"@
}

/// The path shown in the prompt: under `home` (where that is set) with
/// `~` in its place.
pub open spec fn display_path(cwd: Seq<char>, home: Seq<char>) -> Seq<char> {
    if home.len() > 0 && home.len() <= cwd.len() && cwd.subrange(0, home.len() as int) == home {
        seq!['~'] + cwd.subrange(home.len() as int, cwd.len() as int)
    } else {
        cwd
    }
}

/// The prompt for the working directory `cwd`.
pub open spec fn prompt_text(cwd: Seq<char>, home: Seq<char>) -> Seq<char> {
    "\x1b[1;34mMITOS\x1b[0m \x1b[1;32m"@ + display_path(cwd, home) + "\x1b[0m > "@
}

impl Shell {
    /// The status of the last foreground pipeline.
    pub closed spec fn status(&self) -> i32 {
        self.last_status
    }

    /// A shell whose last status is 0.
    pub fn new() -> (s: Self)
        ensures
            s.status() == 0,
    {
        Shell { last_status: 0 }
    }

    /// The status of the last foreground pipeline.
    pub fn last_status(&self) -> (s: i32)
        ensures
            s == self.status(),
    {
        self.last_status
    }

    /// What to do next for the line `node`, where the pipelines run so far
    /// gave the statuses `statuses`, in order.
    pub fn execute_node(&self, node: &Node, statuses: &Vec<i32>) -> (r: NodeStep)
        ensures
            r is Run ==> run_from(node@, statuses@, 0) == RunView::Need(r->Run_0@),
            r is Done ==> run_from(node@, statuses@, 0) is Finished && run_from(node@, statuses@, 0)->Finished_0 == r->Done_0,
    {
        let st = step(node, statuses, 0);
        match st {
            Step::Need(p) => {
                assert(run_from(node@, statuses@, 0) == RunView::Need(p@));
                let q = p.duplicate();
                assert(q@ == p@);
                NodeStep::Run(q)
            },
            Step::Finished(s, k) => NodeStep::Done(s),
        }
    }

    /// Records the status of a pipeline that ran: a foreground pipeline's
    /// status becomes the shell's last status; a background one leaves it
    /// and counts as 0. Gives the pipeline's status.
    pub fn finish_pipeline(&mut self, background: bool, status: i32) -> (r: i32)
        ensures
            background ==> r == 0 && final(self).status() == old(self).status(),
            !background ==> r == status && final(self).status() == status,
    {
        if background {
            0
        } else {
            self.last_status = status;
            status
        }
    }

    /// `input` with `$?` and `$name` expanded.
    pub fn expand_variables(&self, input: &str, env: &VarTable) -> (r: String)
        ensures
            r@ == shell_vars(input@, 0, self.status(), env.view()),
    {
        let chars = str_chars(input);
        let ghost s = chars@;
        let ghost last = self.last_status;
        let mut result = String::new();
        let mut i: usize = 0;
        while i < chars.len()
            invariant
                i <= s.len(),
                s == chars@,
                s == input@,
                last == self.status(),
                result@ + shell_vars(s, i as int, last, env.view()) == shell_vars(s, 0, last, env.view()),
            decreases s.len() - i,
        {
            let ghost r0 = result@;
            let ghost i0 = i as int;
            if chars[i] != '$' {
                result.push(chars[i]);
                i = i + 1;
                assert(r0 + (seq![s[i0]] + shell_vars(s, i as int, last, env.view())) =~= result@
                    + shell_vars(s, i as int, last, env.view()));
            } else if chars.len() > 1 && i < chars.len() - 1 && chars[i + 1] == '?' {
                let t = i64_to_string(self.last_status as i64);
                append_str(&mut result, t.as_str());
                i = i + 2;
                assert(r0 + (t@ + shell_vars(s, i as int, last, env.view())) =~= result@ + shell_vars(
                    s,
                    i as int,
                    last,
                    env.view(),
                ));
            } else {
                let mut e = i + 1;
                while e < chars.len() && (is_alphanumeric(chars[e]) || chars[e] == '_')
                    invariant
                        i0 + 1 <= e <= s.len(),
                        s == chars@,
                        name_end(s, e as int) == name_end(s, i0 + 1),
                    decreases s.len() - e,
                {
                    e = e + 1;
                }
                assert(e == name_end(s, i0 + 1));
                if e > i + 1 {
                    let name = string_from_range(&chars, i + 1, e);
                    let value = match env.get(name.as_str()) {
                        Some(v) => v,
                        None => String::new(),
                    };
                    append_str(&mut result, value.as_str());
                    i = e;
                    assert(r0 + (value@ + shell_vars(s, i as int, last, env.view())) =~= result@
                        + shell_vars(s, i as int, last, env.view()));
                } else {
                    result.push('$');
                    i = i + 1;
                    assert(r0 + (seq!['$'] + shell_vars(s, i as int, last, env.view())) =~= result@
                        + shell_vars(s, i as int, last, env.view()));
                }
            }
        }
        assert(result@ + Seq::<char>::empty() =~= result@);
        result
    }

    /// The fields of a command's arguments: variables expanded, and a
    /// pattern for pathname expansion where one then holds `*`, `?` or `[`.
    pub fn expand_args(&self, args: &[String], env: &VarTable) -> (r: Vec<Field>)
        ensures
            fields_view(r@) == shell_fields(strings_view(args@), self.status(), env.view()),
    {
        let ghost want = shell_fields(strings_view(args@), self.status(), env.view());
        let mut r: Vec<Field> = Vec::new();
        let mut i: usize = 0;
        while i < args.len()
            invariant
                i <= args@.len(),
                want == shell_fields(strings_view(args@), self.status(), env.view()),
                fields_view(r@) == want.subrange(0, i as int),
            decreases args@.len() - i,
        {
            let text = self.expand_variables(args[i].as_str(), env);
            let pattern = contains_glob_char(text.as_str());
            let ghost before = fields_view(r@);
            let ghost tv = text@;
            r.push(Field { text, pattern });
            assert(fields_view(r@) =~= before.push((tv, has_glob(tv))));
            i = i + 1;
            assert(fields_view(r@) =~= want.subrange(0, i as int));
        }
        assert(want.subrange(0, args@.len() as int) =~= want);
        r
    }
}

/// Whether `s` holds `*`, `?` or `[`.
fn contains_glob_char(s: &str) -> (b: bool)
    ensures
        b == has_glob(s@),
{
    let chars = str_chars(s);
    let mut i: usize = 0;
    while i < chars.len()
        invariant
            i <= chars@.len(),
            chars@ == s@,
            forall|j: int| 0 <= j < i ==> !is_glob_char(#[trigger] chars@[j]),
        decreases chars@.len() - i,
    {
        let c = chars[i];
        if c == '*' || c == '?' || c == '[' {
            assert(is_glob_char(chars@[i as int]));
            return true;
        }
        i = i + 1;
    }
    false
}

/// The notice printed for a pipeline sent to the background.
pub fn background_notice(p: &Pipeline) -> (r: String)
    ensures
        r@ == background_text(p@),
{
    let mut r = String::from_str("[1] ");
    if p.commands.len() > 0 {
        let words = crate::expansion::fields::join_with_spaces(&p.commands[0].args);
        append_str(&mut r, words.as_str());
    } else {
        let none: Vec<String> = Vec::new();
        let words = crate::expansion::fields::join_with_spaces(&none);
        assert(strings_view(none@) =~= Seq::<Seq<char>>::empty());
        append_str(&mut r, words.as_str());
    }
    append_str(&mut r, " &");
    r
}

/// The prompt for the working directory `cwd`, where `home` is `$HOME`
/// (empty where unset).
pub fn prompt(cwd: &str, home: &str) -> (r: String)
    ensures
        r@ == prompt_text(cwd@, home@),
{
    let c = str_chars(cwd);
    let h = str_chars(home);
    let under = h.len() > 0 && crate::completion::engine::has_prefix(cwd, home);
    let mut r = String::from_str("\x1b[1;34mMITOS\x1b[0m \x1b[1;32m");
    if under {
        r.push('~');
        let rest = string_from_range(&c, h.len(), c.len());
        append_str(&mut r, rest.as_str());
        assert(r@ =~= "\x1b[1;34mMITOS\x1b[0m \x1b[1;32m"@ + (seq!['~'] + rest@));
    } else {
        append_str(&mut r, cwd);
    }
    append_str(&mut r, "\x1b[0m > ");
    r
}

/// A line that finished ran at least one pipeline, took only statuses it
/// was given, and finished with the status of the last pipeline it ran.
pub proof fn law_status_of_last_run(n: NodeV, outs: Seq<i32>, k: int)
    requires
        0 <= k,
    ensures
        run_from(n, outs, k) matches RunView::Finished(s, k2) ==> k < k2 <= outs.len() && s == outs[k2
            - 1],
    decreases n,
{
    match n {
        NodeV::Pipeline(p) => {},
        NodeV::And(l, r) => {
            law_status_of_last_run(*l, outs, k);
            if let RunView::Finished(s, k2) = run_from(*l, outs, k) {
                law_status_of_last_run(*r, outs, k2);
            }
        },
        NodeV::Or(l, r) => {
            law_status_of_last_run(*l, outs, k);
            if let RunView::Finished(s, k2) = run_from(*l, outs, k) {
                law_status_of_last_run(*r, outs, k2);
            }
        },
        NodeV::Sequence(l, r) => {
            law_status_of_last_run(*l, outs, k);
            if let RunView::Finished(s, k2) = run_from(*l, outs, k) {
                law_status_of_last_run(*r, outs, k2);
            }
        },
    }
}

/// Statuses handed over after a line finished change nothing: the line
/// asks for each pipeline's status once, in order.
pub proof fn law_extra_statuses_ignored(n: NodeV, outs: Seq<i32>, more: Seq<i32>, k: int)
    requires
        0 <= k,
        run_from(n, outs, k) is Finished,
    ensures
        run_from(n, outs + more, k) == run_from(n, outs, k),
    decreases n,
{
    law_status_of_last_run(n, outs, k);
    match n {
        NodeV::Pipeline(p) => {
            assert((outs + more)[k] == outs[k]);
        },
        NodeV::And(l, r) => {
            law_extra_statuses_ignored(*l, outs, more, k);
            if let RunView::Finished(s, k2) = run_from(*l, outs, k) {
                if s == 0 {
                    law_status_of_last_run(*l, outs, k);
                    law_extra_statuses_ignored(*r, outs, more, k2);
                }
            }
        },
        NodeV::Or(l, r) => {
            law_extra_statuses_ignored(*l, outs, more, k);
            if let RunView::Finished(s, k2) = run_from(*l, outs, k) {
                if s != 0 {
                    law_status_of_last_run(*l, outs, k);
                    law_extra_statuses_ignored(*r, outs, more, k2);
                }
            }
        },
        NodeV::Sequence(l, r) => {
            law_extra_statuses_ignored(*l, outs, more, k);
            if let RunView::Finished(s, k2) = run_from(*l, outs, k) {
                law_status_of_last_run(*l, outs, k);
                law_extra_statuses_ignored(*r, outs, more, k2);
            }
        },
    }
}

} // verus!
