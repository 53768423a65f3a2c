//! The decisions of the script executor's compound commands: what runs
//! next once a part of a list, a condition, a loop body or a function body
//! has produced its outcome, and which branch of a `case` a word selects.
//! Running the parts themselves is the caller's work.

use vstd::prelude::*;

use crate::builtins::{alias_effect, eval, exec_builtin, name_is, trap, try_execute, ExecAction, ExecView};
use crate::builtins::set::set_run;
use crate::execution::command::{SimpleCommand, SimpleCommandV};
use crate::execution::executor::Executor;
use crate::execution::pipeline::{command_texts, join_pipes, pipeline_outcome, trace_line};
use crate::expansion::fields::join_words;
use crate::outcome::ExecOutcome;
use crate::process::job::{
    active_only, active_pred, job_line, last_stopped_before, lemma_active_only_filters,
    lemma_none_stopped, list_jobs, no_job_notice, resume_job, JobStatus, JobTable, JobView,
};
use crate::expansion::fields::strings_view;
use crate::text::{append_str, copy_string, eq_str};

verus! {

/// The operator between the two sides of an and-or list.
#[derive(Debug, Clone, Copy, PartialEq, Eq)]
pub enum ListOp {
    And,
    Or,
}

/// What follows the left side of a list.
pub enum ListStep {
    /// Run the right side; its outcome is the list's.
    RunRight,
    /// The list is done with this outcome.
    Done(ExecOutcome),
}

/// After the left side of `left; right`: the right side runs after a plain
/// status; a control-flow outcome (`break`, `return`, `exit`, ...) is the
/// list's own.
pub fn after_sequence_left(left: ExecOutcome) -> (r: ListStep)
    ensures
        left is Status ==> r is RunRight,
        !(left is Status) ==> r == ListStep::Done(left),
{
    match left {
        ExecOutcome::Status(_) => ListStep::RunRight,
        other => ListStep::Done(other),
    }
}

/// After the left side of `left && right` or `left || right`: the right
/// side runs where the left one succeeded (`&&`) or failed (`||`);
/// otherwise the list ends with the left side's status. A control-flow
/// outcome ends the list as it is.
pub fn after_and_or_left(op: ListOp, left: ExecOutcome) -> (r: ListStep)
    ensures
        match left {
            ExecOutcome::Status(s) => if (op == ListOp::And && s == 0) || (op == ListOp::Or && s
                != 0) {
                r is RunRight
            } else {
                r == ListStep::Done(ExecOutcome::Status(s))
            },
            _ => r == ListStep::Done(left),
        },
{
    match left {
        ExecOutcome::Status(s) => {
            let run_right = match op {
                ListOp::And => s == 0,
                ListOp::Or => s != 0,
            };
            if run_right {
                ListStep::RunRight
            } else {
                ListStep::Done(ExecOutcome::Status(s))
            }
        },
        other => ListStep::Done(other),
    }
}

/// What follows the condition of an `if`.
pub enum IfStep {
    Then,
    Else,
    Done(ExecOutcome),
}

/// After the condition of an `if`: the `then` branch runs where it
/// succeeded; the `else` branch where it failed and there is one, and
/// otherwise the `if` ends with status 0. A control-flow outcome ends the
/// `if` as it is.
pub fn after_if_condition(condition: ExecOutcome, has_else: bool) -> (r: IfStep)
    ensures
        match condition {
            ExecOutcome::Status(s) => if s == 0 {
                r is Then
            } else if has_else {
                r is Else
            } else {
                r == IfStep::Done(ExecOutcome::Status(0))
            },
            _ => r == IfStep::Done(condition),
        },
{
    match condition {
        ExecOutcome::Status(0) => IfStep::Then,
        ExecOutcome::Status(_) => if has_else {
            IfStep::Else
        } else {
            IfStep::Done(ExecOutcome::Status(0))
        },
        other => IfStep::Done(other),
    }
}

/// What follows a step of a loop.
pub enum LoopStep {
    /// Go on: run the body (after a condition) or the condition (after a
    /// body).
    Go,
    /// The loop is done with this outcome.
    Done(ExecOutcome),
}

/// After the condition of a `while`: the body runs where it succeeded; the
/// loop ends with status 0 where it failed. A control-flow outcome ends
/// the loop as it is.
pub fn after_while_condition(condition: ExecOutcome) -> (r: LoopStep)
    ensures
        match condition {
            ExecOutcome::Status(s) => if s == 0 {
                r is Go
            } else {
                r == LoopStep::Done(ExecOutcome::Status(0))
            },
            _ => r == LoopStep::Done(condition),
        },
{
    match condition {
        ExecOutcome::Status(0) => LoopStep::Go,
        ExecOutcome::Status(_) => LoopStep::Done(ExecOutcome::Status(0)),
        other => LoopStep::Done(other),
    }
}

/// After the body of a `while`: `break` ends the loop with status 0;
/// `continue` and a plain status go back to the condition; any other
/// outcome ends the loop as it is.
pub fn after_while_body(body: ExecOutcome) -> (r: LoopStep)
    ensures
        match body {
            ExecOutcome::Break => r == LoopStep::Done(ExecOutcome::Status(0)),
            ExecOutcome::Continue => r is Go,
            ExecOutcome::Status(_) => r is Go,
            _ => r == LoopStep::Done(body),
        },
{
    match body {
        ExecOutcome::Break => LoopStep::Done(ExecOutcome::Status(0)),
        ExecOutcome::Continue => LoopStep::Go,
        ExecOutcome::Status(_) => LoopStep::Go,
        other => LoopStep::Done(other),
    }
}

/// What follows a pass of a `for` body.
pub enum ForStep {
    /// Go on with the next word; the loop's status so far.
    Next(i32),
    /// The loop is done with this outcome.
    Done(ExecOutcome),
}

/// After the body of a `for` ran for one word, with `status` the loop's
/// status so far (0 before the first pass): `break` ends the loop with
/// that status; `continue` keeps it; a plain status becomes it; any other
/// outcome ends the loop as it is. A loop that runs out of words ends
/// with its status.
pub fn after_for_body(body: ExecOutcome, status: i32) -> (r: ForStep)
    ensures
        match body {
            ExecOutcome::Break => r == ForStep::Done(ExecOutcome::Status(status)),
            ExecOutcome::Continue => r == ForStep::Next(status),
            ExecOutcome::Status(s) => r == ForStep::Next(s),
            _ => r == ForStep::Done(body),
        },
{
    match body {
        ExecOutcome::Break => ForStep::Done(ExecOutcome::Status(status)),
        ExecOutcome::Continue => ForStep::Next(status),
        ExecOutcome::Status(s) => ForStep::Next(s),
        other => ForStep::Done(other),
    }
}

/// The outcome of a function call from that of its body: `return n` gives
/// status `n`; anything else is passed on.
pub fn function_outcome(body: ExecOutcome) -> (r: ExecOutcome)
    ensures
        match body {
            ExecOutcome::Return(s) => r == ExecOutcome::Status(s),
            _ => r == body,
        },
{
    match body {
        ExecOutcome::Return(s) => ExecOutcome::Status(s),
        other => other,
    }
}

/// What the executor does with the outcome of a top-level command.
pub enum TopLevel {
    /// Parse and run this text (`eval`).
    Run(String),
    /// Leave the shell with this status.
    Exit(i32),
    /// Record this status as the last one and go on.
    Record(i32),
}

/// What the executor does with the outcome of a top-level command: `eval`
/// text is run next, `exit` leaves the shell, and anything else records
/// its status (0 for `break` and `continue`) as the last one.
pub fn top_level(outcome: ExecOutcome) -> (r: TopLevel)
    ensures
        match outcome {
            ExecOutcome::Eval(code) => r matches TopLevel::Run(c) && c@ == code@,
            ExecOutcome::Exit(code) => r == TopLevel::Exit(code),
            ExecOutcome::Status(s) => r == TopLevel::Record(s),
            ExecOutcome::Return(s) => r == TopLevel::Record(s),
            _ => r == TopLevel::Record(0),
        },
{
    match outcome {
        ExecOutcome::Eval(code) => TopLevel::Run(code),
        ExecOutcome::Exit(code) => TopLevel::Exit(code),
        other => TopLevel::Record(other.status_or_zero()),
    }
}

// ───────────────────────── simple commands ─────────────────────────

/// How a pipeline of one command is run, decided from its words as
/// written, before anything is expanded.
pub enum Special {
    /// `set`: switch options.
    SetOptions,
    /// `eval`: run its words as a command line.
    EvalWords,
    /// Anything else: expand it first.
    Other,
}

/// `set` and `eval` are recognised by the first word as written, before
/// expansion.
pub fn special_command(args: &Vec<String>) -> (r: Special)
    ensures
        args@.len() > 0 && args@[0]@ == "set"@ ==> r is SetOptions,
        args@.len() > 0 && args@[0]@ == "eval"@ ==> r is EvalWords,
        !(args@.len() > 0 && (args@[0]@ == "set"@ || args@[0]@ == "eval"@)) ==> r is Other,
{
    proof {
        reveal_strlit("set");
        reveal_strlit("eval");
        assert("set"@.len() != "eval"@.len());
    }
    if args.len() > 0 && eq_str(args[0].as_str(), "set") {
        Special::SetOptions
    } else if args.len() > 0 && eq_str(args[0].as_str(), "eval") {
        Special::EvalWords
    } else {
        Special::Other
    }
}

/// What an expanded single command is.
pub enum CommandKind {
    /// No words: only its assignments take effect (status 0).
    AssignOnly,
    /// `source` or `.` without a file: print the message, status 2.
    SourceMissing(String),
    /// `source FILE ARGS...` or `. FILE ARGS...`: run the file with these
    /// arguments.
    Source(String, Vec<String>),
    /// `read`: read into variables.
    Read,
    /// A builtin, a function or a program.
    Other,
}

/// Whether `name` is `source` or `.`.
pub open spec fn is_source(name: Seq<char>) -> bool {
    name == "source"@ || name == "."@
}

/// What the expanded words `args` of a single command ask for.
pub fn command_kind(args: &Vec<String>) -> (r: CommandKind)
    ensures
        args@.len() == 0 ==> r is AssignOnly,
        args@.len() == 1 && is_source(args@[0]@) ==> (r matches CommandKind::SourceMissing(m)
            && m@ == "mitos: "@ + args@[0]@ + ": expected a file"@),
        args@.len() >= 2 && is_source(args@[0]@) ==> (r matches CommandKind::Source(f, rest) && f@
            == args@[1]@ && strings_view(rest@) == strings_view(args@).skip(2)),
        args@.len() > 0 && !is_source(args@[0]@) && args@[0]@ == "read"@ ==> r is Read,
        args@.len() > 0 && !is_source(args@[0]@) && args@[0]@ != "read"@ ==> r is Other,
{
    if args.len() == 0 {
        return CommandKind::AssignOnly;
    }
    let name = args[0].as_str();
    if eq_str(name, "source") || eq_str(name, ".") {
        if args.len() < 2 {
            let mut m = String::from_str("mitos: ");
            append_str(&mut m, name);
            append_str(&mut m, ": expected a file");
            return CommandKind::SourceMissing(m);
        }
        let mut rest: Vec<String> = Vec::new();
        let mut i: usize = 2;
        while i < args.len()
            invariant
                2 <= i <= args@.len(),
                strings_view(rest@) == strings_view(args@).subrange(2, i as int),
            decreases args@.len() - i,
        {
            let ghost before = strings_view(rest@);
            rest.push(copy_string(&args[i]));
            assert(strings_view(rest@) =~= before.push(args@[i as int]@));
            i = i + 1;
            assert(strings_view(args@).subrange(2, i as int) =~= strings_view(args@).subrange(
                2,
                i - 1,
            ).push(args@[i - 1]@));
        }
        assert(strings_view(args@).subrange(2, args@.len() as int) =~= strings_view(args@).skip(2));
        return CommandKind::Source(copy_string(&args[1]), rest);
    }
    if eq_str(name, "read") {
        CommandKind::Read
    } else {
        CommandKind::Other
    }
}

// ───────────────────────── case ─────────────────────────

/// Whether `text` matches the shell pattern `pattern`, the way the `glob`
/// crate's `Pattern` compiles and matches it; `None` where the pattern
/// does not compile.
pub uninterp spec fn glob_match(pattern: Seq<char>, text: Seq<char>) -> Option<bool>;

/// Compiles `pattern` with `glob::Pattern::new` and, where it compiles,
/// tells whether `text` matches it with `Pattern::matches`. Claimed: the
/// answer is `glob_match` of the two texts, nothing more.
#[verifier::external_body]
fn pattern_match(pattern: &str, text: &str) -> (r: Option<bool>)
    ensures
        r == glob_match(pattern@, text@),
{
    match glob::Pattern::new(pattern) {
        Ok(p) => Some(p.matches(text)),
        Err(_) => None,
    }
}

/// Whether the `case` pattern `pattern` selects `target`, where `matched`
/// is what matching the pattern gave: the match where the pattern
/// compiled (`Some`), being the same text where it did not (`None`).
pub open spec fn selects_given(matched: Option<bool>, pattern: Seq<char>, target: Seq<char>) -> bool {
    match matched {
        Some(m) => m,
        None => pattern == target,
    }
}

/// Whether the `case` pattern `pattern` selects `target`: by matching where
/// the pattern compiles, by being the same text where it does not.
pub open spec fn selects(pattern: Seq<char>, target: Seq<char>) -> bool {
    selects_given(glob_match(pattern, target), pattern, target)
}

/// Whether the `case` pattern `pattern` selects `target`, given what
/// matching the pattern gave (`matched`, `None` where it did not compile).
pub fn pattern_selects(pattern: &str, target: &str, matched: Option<bool>) -> (b: bool)
    ensures
        b == selects_given(matched, pattern@, target@),
{
    match matched {
        Some(m) => m,
        None => eq_str(pattern, target),
    }
}

/// Whether some of `patterns` selects `target`.
pub open spec fn any_selects(patterns: Seq<Seq<char>>, target: Seq<char>) -> bool {
    exists|k: int| 0 <= k < patterns.len() && selects(#[trigger] patterns[k], target)
}

/// The patterns of each branch as values.
pub open spec fn branches_view(b: Seq<Vec<String>>) -> Seq<Seq<Seq<char>>> {
    b.map_values(|ps: Vec<String>| ps@.map_values(|p: String| p@))
}

/// The branch of a `case` that `target` selects: the first whose patterns
/// (tried in order) include one that selects it; `None` where no branch
/// does, and the `case` ends with status 0.
pub fn case_branch(target: &str, branches: &Vec<Vec<String>>) -> (r: Option<usize>)
    ensures
        match r {
            Some(i) => i < branches@.len() && any_selects(branches_view(branches@)[i as int], target@)
                && forall|j: int|
                0 <= j < i ==> !any_selects(#[trigger] branches_view(branches@)[j], target@),
            None => forall|j: int|
                0 <= j < branches@.len() ==> !any_selects(
                    #[trigger] branches_view(branches@)[j],
                    target@,
                ),
        },
{
    let ghost bv = branches_view(branches@);
    let mut i: usize = 0;
    while i < branches.len()
        invariant
            i <= branches@.len(),
            bv == branches_view(branches@),
            forall|j: int| 0 <= j < i ==> !any_selects(#[trigger] bv[j], target@),
        decreases branches@.len() - i,
    {
        let patterns = &branches[i];
        let ghost pv = bv[i as int];
        assert(pv == patterns@.map_values(|p: String| p@));
        let mut k: usize = 0;
        while k < patterns.len()
            invariant
                k <= patterns@.len(),
                i < branches@.len(),
                bv == branches_view(branches@),
                pv == bv[i as int],
                forall|j: int| 0 <= j < i ==> !any_selects(#[trigger] bv[j], target@),
                pv == patterns@.map_values(|p: String| p@),
                forall|m: int| 0 <= m < k ==> !selects(#[trigger] pv[m], target@),
            decreases patterns@.len() - k,
        {
            let matched = pattern_match(patterns[k].as_str(), target);
            let hit = pattern_selects(patterns[k].as_str(), target, matched);
            assert(pv[k as int] == patterns@[k as int]@);
            if hit {
                assert(selects(pv[k as int], target@));
                assert(any_selects(pv, target@));
                return Some(i);
            }
            k = k + 1;
        }
        assert(!any_selects(pv, target@));
        i = i + 1;
    }
    None
}

// ───────────────────────── running a pipeline ─────────────────────────

/// What the executor does next with a pipeline.
pub enum PipelineStep {
    /// Nothing runs: this is the outcome.
    Done(ExecOutcome),
    /// Print the message on standard error; this is the outcome.
    Report(String, ExecOutcome),
    /// Expand the commands (see `expand_command`), after printing the
    /// trace line where there is one; then see [`pipeline_step`].
    Expand(Option<String>),
    /// The command had no words: its assignments were made; set these
    /// environment variables (of exported names) in order; status 0.
    Assigned(Vec<(String, String)>),
    /// Run the file with these arguments (`source`).
    Source(String, Vec<String>),
    /// Run `read` with these words.
    Read(Vec<String>),
    /// Do what the builtin leaves to do.
    Builtin(ExecAction),
    /// `jobs`: print these lines; this is the outcome.
    Listed(Vec<String>, ExecOutcome),
    /// `fg` (true) or `bg` (false): continue the job at this position of
    /// the job table, which is now marked running.
    Resume(usize, bool),
    /// Run these commands joined by pipes.
    Fork(Vec<Vec<String>>),
}

/// The words of each command as values.
pub open spec fn words_view(w: Seq<Vec<String>>) -> Seq<Seq<Seq<char>>> {
    w.map_values(|c: Vec<String>| strings_view(c@))
}

/// The words as written of the only command of `commands`, where there is
/// exactly one.
pub open spec fn only_words(commands: Seq<SimpleCommandV>) -> Option<Seq<Seq<char>>> {
    if commands.len() == 1 {
        Some(commands[0].args)
    } else {
        None
    }
}

/// Copies of the words of each command.
fn command_words(commands: &Vec<SimpleCommand>) -> (r: Vec<Vec<String>>)
    ensures
        words_view(r@) == commands@.map_values(|c: SimpleCommand| c@).map_values(
            |c: SimpleCommandV| c.args,
        ),
{
    let ghost want = commands@.map_values(|c: SimpleCommand| c@).map_values(
        |c: SimpleCommandV| c.args,
    );
    let mut r: Vec<Vec<String>> = Vec::new();
    let mut i: usize = 0;
    while i < commands.len()
        invariant
            i <= commands@.len(),
            want == commands@.map_values(|c: SimpleCommand| c@).map_values(
                |c: SimpleCommandV| c.args,
            ),
            words_view(r@) == want.subrange(0, i as int),
        decreases commands@.len() - i,
    {
        let ghost before = words_view(r@);
        let w = copy_words(&commands[i].args);
        r.push(w);
        assert(words_view(r@) =~= before.push(want[i as int]));
        i = i + 1;
        assert(want.subrange(0, i as int) =~= want.subrange(0, i - 1).push(want[i - 1]));
    }
    assert(want.subrange(0, commands@.len() as int) =~= want);
    r
}

fn copy_words(v: &Vec<String>) -> (r: Vec<String>)
    ensures
        strings_view(r@) == strings_view(v@),
{
    let mut r: Vec<String> = Vec::new();
    let mut i: usize = 0;
    while i < v.len()
        invariant
            i <= v@.len(),
            strings_view(r@) == strings_view(v@).subrange(0, i as int),
        decreases v@.len() - i,
    {
        let ghost before = strings_view(r@);
        r.push(copy_string(&v[i]));
        assert(strings_view(r@) =~= before.push(v@[i as int]@));
        i = i + 1;
        assert(strings_view(v@).subrange(0, i as int) =~= strings_view(v@).subrange(0, i - 1).push(
            v@[i - 1]@,
        ));
    }
    assert(strings_view(v@).subrange(0, v@.len() as int) =~= strings_view(v@));
    r
}

/// The first step of running the pipeline `commands`, before anything is
/// expanded: a lone `set` switches the options as its words as written
/// ask and gives its status (2, with the message, for an invalid option);
/// a lone `eval` with words gives them to be run, joined by spaces, and
/// without words gives status 0. Anything else is to be expanded, after
/// the trace line `+ ...` where `set -x` is on. Only `set` changes the
/// executor, and only its options.
pub fn pipeline_start(ex: &mut Executor, commands: &Vec<SimpleCommand>) -> (r: PipelineStep)
    ensures
        final(ex).last_status == old(ex).last_status,
        final(ex).traps == old(ex).traps,
        final(ex).aliases == old(ex).aliases,
        final(ex).jobs == old(ex).jobs,
        final(ex).arrays == old(ex).arrays,
        final(ex).locals == old(ex).locals,
        final(ex).exported == old(ex).exported,
        final(ex).contexts == old(ex).contexts,
        match only_words(commands@.map_values(|c: SimpleCommand| c@)) {
            Some(a) => if name_is(a, "set"@) {
                &&& final(ex).options == set_run(old(ex).options, a, 1).0
                &&& match set_run(old(ex).options, a, 1).1 {
                    None => r == PipelineStep::Done(ExecOutcome::Status(0)),
                    Some(bad) => r matches PipelineStep::Report(m, ExecOutcome::Status(2)) && m@
                        == "set: invalid option: "@ + bad,
                }
            } else if name_is(a, "eval"@) {
                &&& final(ex).options == old(ex).options
                &&& if a.len() < 2 {
                    r == PipelineStep::Done(ExecOutcome::Status(0))
                } else {
                    r matches PipelineStep::Done(ExecOutcome::Eval(code)) && code@ == join_words(
                        a.drop_first(),
                    )
                }
            } else {
                final(ex).options == old(ex).options && expand_step(
                    r,
                    old(ex).options.xtrace,
                    commands@,
                )
            },
            None => final(ex).options == old(ex).options && expand_step(
                r,
                old(ex).options.xtrace,
                commands@,
            ),
        },
{
    let ghost cv = commands@.map_values(|c: SimpleCommand| c@);
    if commands.len() == 1 {
        let args = &commands[0].args;
        assert(cv[0].args == strings_view(args@));
        proof {
            reveal_strlit("set");
            reveal_strlit("eval");
            assert("set"@.len() != "eval"@.len());
        }
        if args.len() > 0 && eq_str(args[0].as_str(), "set") {
            let (status, message) = crate::builtins::set::execute(args.as_slice(), &mut ex.options);
            return match message {
                Some(m) => PipelineStep::Report(m, ExecOutcome::Status(status)),
                None => PipelineStep::Done(ExecOutcome::Status(status)),
            };
        }
        if args.len() > 0 && eq_str(args[0].as_str(), "eval") {
            return match eval::execute(args.as_slice()) {
                Some(code) => PipelineStep::Done(ExecOutcome::Eval(code)),
                None => PipelineStep::Done(ExecOutcome::Status(0)),
            };
        }
    }
    if ex.options.xtrace {
        let words = command_words(commands);
        PipelineStep::Expand(Some(trace_line(&words)))
    } else {
        PipelineStep::Expand(None)
    }
}

/// `r` asks for expansion, with the trace line of `commands` exactly where
/// `xtrace` is on.
pub open spec fn expand_step(r: PipelineStep, xtrace: bool, commands: Seq<SimpleCommand>) -> bool {
    r matches PipelineStep::Expand(t) && (xtrace <==> t is Some) && (t matches Some(line)
        ==> line@ == "+ "@ + join_pipes(
        command_texts(
            commands.map_values(|c: SimpleCommand| c@).map_values(|c: SimpleCommandV| c.args),
        ),
    ))
}

/// An assignment whose value has been expanded and matched against the
/// file system: a scalar takes one value, an array its words.
pub enum ResolvedAssignment {
    Scalar(String, String),
    Array(String, Vec<String>),
}

/// A resolved assignment as values.
pub enum ResolvedView {
    Scalar(Seq<char>, Seq<char>),
    Array(Seq<char>, Seq<Seq<char>>),
}

impl View for ResolvedAssignment {
    type V = ResolvedView;

    open spec fn view(&self) -> ResolvedView {
        match self {
            ResolvedAssignment::Scalar(k, v) => ResolvedView::Scalar(k@, v@),
            ResolvedAssignment::Array(n, ws) => ResolvedView::Array(n@, strings_view(ws@)),
        }
    }
}

/// The shell variables, the arrays, and the environment variables to set,
/// after the assignments `asg` in order: a scalar sets its variable (and
/// the environment variable where the name is exported), an array is
/// replaced.
pub open spec fn assign_run(
    locals: Map<Seq<char>, Seq<char>>,
    arrays: Map<Seq<char>, Seq<Seq<char>>>,
    exported: Set<Seq<char>>,
    asg: Seq<ResolvedView>,
) -> (Map<Seq<char>, Seq<char>>, Map<Seq<char>, Seq<Seq<char>>>, Seq<(Seq<char>, Seq<char>)>)
    decreases asg.len(),
{
    if asg.len() == 0 {
        (locals, arrays, Seq::empty())
    } else {
        let (l, a, e) = assign_run(locals, arrays, exported, asg.drop_last());
        match asg.last() {
            ResolvedView::Scalar(k, v) => (
                l.insert(k, v),
                a,
                if exported.contains(k) {
                    e.push((k, v))
                } else {
                    e
                },
            ),
            ResolvedView::Array(n, ws) => (l, a.insert(n, ws), e),
        }
    }
}

/// Makes the assignments in order; gives the environment variables to set.
fn apply_assignments(ex: &mut Executor, asg: Vec<ResolvedAssignment>) -> (env: Vec<(String, String)>)
    ensures
        ({
            let (l, a, e) = assign_run(
                old(ex).locals(),
                old(ex).arrays.view(),
                old(ex).exported(),
                asg@.map_values(|x: ResolvedAssignment| x@),
            );
            &&& final(ex).locals() == l
            &&& final(ex).arrays.view() == a
            &&& env@.map_values(|p: (String, String)| (p.0@, p.1@)) == e
        }),
        final(ex).exported == old(ex).exported,
        final(ex).contexts == old(ex).contexts,
        final(ex).last_status == old(ex).last_status,
        final(ex).options == old(ex).options,
        final(ex).traps == old(ex).traps,
        final(ex).aliases == old(ex).aliases,
        final(ex).jobs == old(ex).jobs,
{
    let ghost av = asg@.map_values(|x: ResolvedAssignment| x@);
    let ghost ex0 = *ex;
    let mut env: Vec<(String, String)> = Vec::new();
    let mut i: usize = 0;
    assert(av.subrange(0, 0) =~= Seq::<ResolvedView>::empty());
    assert(env@.map_values(|p: (String, String)| (p.0@, p.1@)) =~= Seq::<(Seq<char>, Seq<char>)>::empty());
    while i < asg.len()
        invariant
            i <= asg@.len(),
            av == asg@.map_values(|x: ResolvedAssignment| x@),
            ex.exported == ex0.exported,
            ex.contexts == ex0.contexts,
            ex.last_status == ex0.last_status,
            ex.options == ex0.options,
            ex.traps == ex0.traps,
            ex.aliases == ex0.aliases,
            ex.jobs == ex0.jobs,
            ex0 == *old(ex),
            ({
                let (l, a, e) = assign_run(ex0.locals(), ex0.arrays.view(), ex0.exported(), av.subrange(0, i as int));
                &&& ex.locals() == l
                &&& ex.arrays.view() == a
                &&& env@.map_values(|p: (String, String)| (p.0@, p.1@)) == e
            }),
        decreases asg@.len() - i,
    {
        assert(av.subrange(0, i + 1).drop_last() =~= av.subrange(0, i as int));
        assert(av.subrange(0, i + 1).last() == asg@[i as int]@);
        let ghost before = env@.map_values(|p: (String, String)| (p.0@, p.1@));
        let ghost prev = assign_run(ex0.locals(), ex0.arrays.view(), ex0.exported(), av.subrange(0, i as int));
        let ghost next = assign_run(ex0.locals(), ex0.arrays.view(), ex0.exported(), av.subrange(0, i + 1));
        match &asg[i] {
            ResolvedAssignment::Scalar(k, v) => {
                assert(ex.exported() == ex0.exported());
                if ex.set_variable(k.as_str(), v.as_str()) {
                    env.push((copy_string(k), copy_string(v)));
                    assert(env@.map_values(|p: (String, String)| (p.0@, p.1@)) =~= before.push((k@, v@)));
                } else {
                    assert(env@.map_values(|p: (String, String)| (p.0@, p.1@)) =~= before);
                }
            },
            ResolvedAssignment::Array(n, ws) => {
                let copy = copy_words(ws);
                assert(copy.deep_view() =~= strings_view(copy@));
                ex.arrays.set(n.as_str(), copy);
                assert(env@.map_values(|p: (String, String)| (p.0@, p.1@)) =~= before);
                assert(next.1 == prev.1.insert(n@, strings_view(ws@)));
            },
        }
        i = i + 1;
    }
    assert(av.subrange(0, asg@.len() as int) =~= av);
    env
}

/// The position of the first command, from `k` on, that has words and
/// whose program was not found.
pub open spec fn first_missing(w: Seq<Seq<Seq<char>>>, found: Seq<bool>, k: int) -> Option<int>
    decreases w.len() - k,
{
    if k < 0 || k >= w.len() {
        None
    } else if w[k].len() > 0 && !found[k] {
        Some(k)
    } else {
        first_missing(w, found, k + 1)
    }
}

/// The message for a program that was not found.
pub open spec fn not_found_text(name: Seq<char>) -> Seq<char> {
    "mitos: Command not found: "@ + name
}

/// The last step before the pipeline's commands run: every command with
/// words must name a program that was found (`found`, one flag per
/// command); the first that does not gives status 127, recorded as the
/// last status, and nothing runs. Otherwise the commands run.
pub open spec fn fork_or_missing(
    r: PipelineStep,
    w: Seq<Seq<Seq<char>>>,
    found: Seq<bool>,
    old_status: i32,
    new_status: i32,
) -> bool {
    match first_missing(w, found, 0) {
        Some(k) => new_status == 127 && (r matches PipelineStep::Report(m, ExecOutcome::Status(s))
            && s == 127 && m@ == not_found_text(w[k][0])),
        None => new_status == old_status && (r matches PipelineStep::Fork(cmds) && words_view(
            cmds@,
        ) == w),
    }
}

proof fn lemma_first_missing_bounds(w: Seq<Seq<Seq<char>>>, found: Seq<bool>, k: int)
    requires
        0 <= k,
    ensures
        first_missing(w, found, k) matches Some(j) ==> k <= j < w.len() && w[j].len() > 0
            && !found[j],
    decreases w.len() - k,
{
    if k < w.len() && !(w[k].len() > 0 && !found[k]) {
        lemma_first_missing_bounds(w, found, k + 1);
    }
}

/// Checks that every command with words names a program that was found.
fn check_found(ex: &mut Executor, words: Vec<Vec<String>>, found: &Vec<bool>) -> (r: PipelineStep)
    requires
        found@.len() == words@.len(),
    ensures
        fork_or_missing(r, words_view(words@), found@, old(ex).last_status, final(ex).last_status),
        final(ex).options == old(ex).options,
        final(ex).traps == old(ex).traps,
        final(ex).aliases == old(ex).aliases,
        final(ex).jobs == old(ex).jobs,
        final(ex).arrays == old(ex).arrays,
        final(ex).locals == old(ex).locals,
        final(ex).exported == old(ex).exported,
        final(ex).contexts == old(ex).contexts,
{
    let ghost w = words_view(words@);
    let mut k: usize = 0;
    while k < words.len()
        invariant
            k <= words@.len(),
            found@.len() == words@.len(),
            w == words_view(words@),
            *ex == *old(ex),
            first_missing(w, found@, k as int) == first_missing(w, found@, 0),
        decreases words@.len() - k,
    {
        assert(w[k as int] == strings_view(words@[k as int]@));
        if words[k].len() > 0 && !found[k] {
            assert(w[k as int][0] == words@[k as int]@[0]@);
            let mut m = String::from_str("mitos: Command not found: ");
            append_str(&mut m, words[k][0].as_str());
            ex.last_status = 127;
            return PipelineStep::Report(m, ExecOutcome::Status(127));
        }
        k = k + 1;
    }
    PipelineStep::Fork(words)
}

/// The step of running a pipeline once its commands are expanded: `words`
/// holds each command's words after pathname expansion, `found` whether
/// each one's program was found on `$PATH`, and `assignments` the resolved
/// assignments of a lone command. For a lone command: with no words its
/// assignments are made (status 0); `source` and `.` run a file (status 2
/// with a message where none is named); `read` reads; a builtin goes
/// through `try_execute` (`jobs` lists and prunes the job table, `fg` and
/// `bg` resume the last stopped job, or give status 1 where none is
/// stopped). Anything else, and every pipeline of several commands, runs
/// once each command was found (status 127 otherwise).
pub fn pipeline_step(
    ex: &mut Executor,
    words: Vec<Vec<String>>,
    assignments: Vec<ResolvedAssignment>,
    found: &Vec<bool>,
) -> (r: PipelineStep)
    requires
        found@.len() == words@.len(),
    ensures
        final(ex).options == old(ex).options,
        final(ex).exported == old(ex).exported,
        final(ex).contexts == old(ex).contexts,
        ({
            let w = words_view(words@);
            if w.len() == 1 && w[0].len() == 0 {
                let (l, a, e) = assign_run(
                    old(ex).locals(),
                    old(ex).arrays.view(),
                    old(ex).exported(),
                    assignments@.map_values(|x: ResolvedAssignment| x@),
                );
                &&& final(ex).locals() == l
                &&& final(ex).arrays.view() == a
                &&& r matches PipelineStep::Assigned(env) && env@.map_values(
                    |p: (String, String)| (p.0@, p.1@),
                ) == e
                &&& final(ex).last_status == old(ex).last_status
                &&& final(ex).traps == old(ex).traps
                &&& final(ex).aliases == old(ex).aliases
                &&& final(ex).jobs == old(ex).jobs
            } else {
                &&& final(ex).locals == old(ex).locals
                &&& final(ex).arrays == old(ex).arrays
                &&& if w.len() == 1 && is_source(w[0][0]) {
                    &&& final(ex).last_status == old(ex).last_status
                    &&& final(ex).traps == old(ex).traps
                    &&& final(ex).aliases == old(ex).aliases
                    &&& final(ex).jobs == old(ex).jobs
                    &&& if w[0].len() < 2 {
                        r matches PipelineStep::Report(m, ExecOutcome::Status(s)) && s == 2 && m@
                            == "mitos: "@ + w[0][0] + ": expected a file"@
                    } else {
                        r matches PipelineStep::Source(f, rest) && f@ == w[0][1] && strings_view(
                            rest@,
                        ) == w[0].skip(2)
                    }
                } else if w.len() == 1 && w[0][0] == "read"@ {
                    &&& final(ex).last_status == old(ex).last_status
                    &&& final(ex).traps == old(ex).traps
                    &&& final(ex).aliases == old(ex).aliases
                    &&& final(ex).jobs == old(ex).jobs
                    &&& r matches PipelineStep::Read(a) && strings_view(a@) == w[0]
                } else if w.len() == 1 {
                    builtin_step(r, w[0], *old(ex), *final(ex), found@)
                } else {
                    &&& final(ex).traps == old(ex).traps
                    &&& final(ex).aliases == old(ex).aliases
                    &&& final(ex).jobs == old(ex).jobs
                    &&& fork_or_missing(r, w, found@, old(ex).last_status, final(ex).last_status)
                }
            }
        }),
{
    let ghost w = words_view(words@);
    if words.len() == 1 && words[0].len() == 0 {
        let env = apply_assignments(ex, assignments);
        return PipelineStep::Assigned(env);
    }
    if words.len() == 1 {
        assert(w[0] == strings_view(words@[0]@));
        proof {
            reveal_strlit("source");
            reveal_strlit(".");
            reveal_strlit("read");
        }
        match command_kind(&words[0]) {
            CommandKind::AssignOnly => {
                return PipelineStep::Done(ExecOutcome::Status(0));
            },
            CommandKind::SourceMissing(m) => {
                return PipelineStep::Report(m, ExecOutcome::Status(2));
            },
            CommandKind::Source(f, rest) => {
                return PipelineStep::Source(f, rest);
            },
            CommandKind::Read => {
                return PipelineStep::Read(copy_words(&words[0]));
            },
            CommandKind::Other => {},
        }
        let ghost ex0 = *ex;
        let ghost a = w[0];
        let args = words[0].as_slice();
        assert(strings_view(args@) == a);
        let action = try_execute(args, &mut ex.aliases, &mut ex.traps);
        assert(ex.jobs == ex0.jobs);
        assert(ex.last_status == ex0.last_status);
        return match action {
            Some(ExecAction::Jobs) => {
                assert(!name_is(a, "trap"@));
                let (lines, status) = list_jobs(&mut ex.jobs);
                PipelineStep::Listed(lines, ExecOutcome::Status(status))
            },
            Some(ExecAction::Fg) => match resume_job(&mut ex.jobs, "fg") {
                Ok(i) => PipelineStep::Resume(i, true),
                Err((m, s)) => PipelineStep::Report(m, ExecOutcome::Status(s)),
            },
            Some(ExecAction::Bg) => match resume_job(&mut ex.jobs, "bg") {
                Ok(i) => PipelineStep::Resume(i, false),
                Err((m, s)) => PipelineStep::Report(m, ExecOutcome::Status(s)),
            },
            Some(act) => PipelineStep::Builtin(act),
            None => {
                assert(words_view(words@) =~= seq![a]);
                check_found(ex, words, found)
            },
        };
    }
    check_found(ex, words, found)
}

/// What a lone command that goes to the builtins (`a`, its words) does:
/// aliases and traps change as `try_execute` says; `jobs`, `fg` and `bg`
/// act on the job table; another builtin is handed back; where there is
/// no builtin, the command runs once its program was found.
pub open spec fn builtin_step(
    r: PipelineStep,
    a: Seq<Seq<char>>,
    before: Executor,
    after: Executor,
    found: Seq<bool>,
) -> bool {
    &&& after.aliases.view() == alias_effect(before.aliases.view(), a)
    &&& if name_is(a, "trap"@) {
        &&& after.last_status == before.last_status
        &&& after.jobs == before.jobs
        &&& if a.len() < 3 {
            after.traps.view() == before.traps.view() && (r matches PipelineStep::Builtin(
                ExecAction::Report(m, ExecOutcome::Status(s)),
            ) && s == 2 && m@ == "trap: usage: trap COMMAND SIGNAL"@)
        } else {
            after.traps.view() == trap::with_traps(
                before.traps.view(),
                a[1],
                a.skip(2).map_values(|s: Seq<char>| trap::signal_key(s)),
            ) && (r matches PipelineStep::Builtin(ExecAction::Outcome(ExecOutcome::Status(s)))
                && s == 0)
        }
    } else {
        &&& after.traps.view() == before.traps.view()
        &&& match exec_builtin(a, before.aliases.view()) {
            Some(ExecView::Jobs) => {
                &&& after.last_status == before.last_status
                &&& after.jobs.view() == active_only(before.jobs.view())
                &&& after.jobs.next() == before.jobs.next()
                &&& r matches PipelineStep::Listed(lines, ExecOutcome::Status(s)) && s == 0
                    && lines@.map_values(|s: String| s@) == before.jobs.view().map_values(
                    |j: JobView| job_line(j),
                )
            },
            Some(ExecView::Fg) => after.last_status == before.last_status && resumed(
                r,
                true,
                before.jobs,
                after.jobs,
            ),
            Some(ExecView::Bg) => after.last_status == before.last_status && resumed(
                r,
                false,
                before.jobs,
                after.jobs,
            ),
            Some(v) => after.last_status == before.last_status && after.jobs == before.jobs && (
            r matches PipelineStep::Builtin(act) && act.view() == v),
            None => after.jobs == before.jobs && fork_or_missing(
                r,
                seq![a],
                found,
                before.last_status,
                after.last_status,
            ),
        }
    }
}

proof fn lemma_jobs_is_no_other_builtin()
    ensures
        "jobs"@ != "alias"@ && "jobs"@ != "unalias"@ && "jobs"@ != "set"@ && "jobs"@ != "break"@ && "jobs"@ != "continue"@ && "jobs"@ != "return"@ && "jobs"@ != "exit"@ && "jobs"@ != "true"@ && "jobs"@ != ":"@ && "jobs"@ != "false"@ && "jobs"@ != "echo"@ && "jobs"@ != "read"@ && "jobs"@ != "cd"@ && "jobs"@ != "pwd"@ && "jobs"@ != "export"@ && "jobs"@ != "test"@ && "jobs"@ != "["@ && "jobs"@ != "trap"@,
{
    reveal_strlit("jobs");
    reveal_strlit("alias");
    reveal_strlit("unalias");
    reveal_strlit("set");
    reveal_strlit("break");
    reveal_strlit("continue");
    reveal_strlit("return");
    reveal_strlit("exit");
    reveal_strlit("true");
    reveal_strlit(":");
    reveal_strlit("false");
    reveal_strlit("echo");
    reveal_strlit("read");
    reveal_strlit("cd");
    reveal_strlit("pwd");
    reveal_strlit("export");
    reveal_strlit("test");
    reveal_strlit("[");
    reveal_strlit("trap");
    assert("jobs"@.len() != "alias"@.len() || "jobs"@[0] != "alias"@[0]);
    assert("jobs"@.len() != "unalias"@.len() || "jobs"@[0] != "unalias"@[0]);
    assert("jobs"@.len() != "set"@.len() || "jobs"@[0] != "set"@[0]);
    assert("jobs"@.len() != "break"@.len() || "jobs"@[0] != "break"@[0]);
    assert("jobs"@.len() != "continue"@.len() || "jobs"@[0] != "continue"@[0]);
    assert("jobs"@.len() != "return"@.len() || "jobs"@[0] != "return"@[0]);
    assert("jobs"@.len() != "exit"@.len() || "jobs"@[0] != "exit"@[0]);
    assert("jobs"@.len() != "true"@.len() || "jobs"@[0] != "true"@[0]);
    assert("jobs"@.len() != ":"@.len() || "jobs"@[0] != ":"@[0]);
    assert("jobs"@.len() != "false"@.len() || "jobs"@[0] != "false"@[0]);
    assert("jobs"@.len() != "echo"@.len() || "jobs"@[0] != "echo"@[0]);
    assert("jobs"@.len() != "read"@.len() || "jobs"@[0] != "read"@[0]);
    assert("jobs"@.len() != "cd"@.len() || "jobs"@[0] != "cd"@[0]);
    assert("jobs"@.len() != "pwd"@.len() || "jobs"@[0] != "pwd"@[0]);
    assert("jobs"@.len() != "export"@.len() || "jobs"@[0] != "export"@[0]);
    assert("jobs"@.len() != "test"@.len() || "jobs"@[0] != "test"@[0]);
    assert("jobs"@.len() != "["@.len() || "jobs"@[0] != "["@[0]);
    assert("jobs"@.len() != "trap"@.len() || "jobs"@[0] != "trap"@[0]);
}

proof fn lemma_fg_is_no_other_builtin()
    ensures
        "fg"@ != "alias"@ && "fg"@ != "unalias"@ && "fg"@ != "set"@ && "fg"@ != "break"@ && "fg"@ != "continue"@ && "fg"@ != "return"@ && "fg"@ != "exit"@ && "fg"@ != "true"@ && "fg"@ != ":"@ && "fg"@ != "false"@ && "fg"@ != "echo"@ && "fg"@ != "read"@ && "fg"@ != "cd"@ && "fg"@ != "pwd"@ && "fg"@ != "export"@ && "fg"@ != "test"@ && "fg"@ != "["@ && "fg"@ != "trap"@ && "fg"@ != "jobs"@,
{
    reveal_strlit("fg");
    reveal_strlit("alias");
    reveal_strlit("unalias");
    reveal_strlit("set");
    reveal_strlit("break");
    reveal_strlit("continue");
    reveal_strlit("return");
    reveal_strlit("exit");
    reveal_strlit("true");
    reveal_strlit(":");
    reveal_strlit("false");
    reveal_strlit("echo");
    reveal_strlit("read");
    reveal_strlit("cd");
    reveal_strlit("pwd");
    reveal_strlit("export");
    reveal_strlit("test");
    reveal_strlit("[");
    reveal_strlit("trap");
    reveal_strlit("jobs");
    assert("fg"@.len() != "alias"@.len() || "fg"@[0] != "alias"@[0]);
    assert("fg"@.len() != "unalias"@.len() || "fg"@[0] != "unalias"@[0]);
    assert("fg"@.len() != "set"@.len() || "fg"@[0] != "set"@[0]);
    assert("fg"@.len() != "break"@.len() || "fg"@[0] != "break"@[0]);
    assert("fg"@.len() != "continue"@.len() || "fg"@[0] != "continue"@[0]);
    assert("fg"@.len() != "return"@.len() || "fg"@[0] != "return"@[0]);
    assert("fg"@.len() != "exit"@.len() || "fg"@[0] != "exit"@[0]);
    assert("fg"@.len() != "true"@.len() || "fg"@[0] != "true"@[0]);
    assert("fg"@.len() != ":"@.len() || "fg"@[0] != ":"@[0]);
    assert("fg"@.len() != "false"@.len() || "fg"@[0] != "false"@[0]);
    assert("fg"@.len() != "echo"@.len() || "fg"@[0] != "echo"@[0]);
    assert("fg"@.len() != "read"@.len() || "fg"@[0] != "read"@[0]);
    assert("fg"@.len() != "cd"@.len() || "fg"@[0] != "cd"@[0]);
    assert("fg"@.len() != "pwd"@.len() || "fg"@[0] != "pwd"@[0]);
    assert("fg"@.len() != "export"@.len() || "fg"@[0] != "export"@[0]);
    assert("fg"@.len() != "test"@.len() || "fg"@[0] != "test"@[0]);
    assert("fg"@.len() != "["@.len() || "fg"@[0] != "["@[0]);
    assert("fg"@.len() != "trap"@.len() || "fg"@[0] != "trap"@[0]);
    assert("fg"@.len() != "jobs"@.len() || "fg"@[0] != "jobs"@[0]);
}

proof fn lemma_bg_is_no_other_builtin()
    ensures
        "bg"@ != "alias"@ && "bg"@ != "unalias"@ && "bg"@ != "set"@ && "bg"@ != "break"@ && "bg"@ != "continue"@ && "bg"@ != "return"@ && "bg"@ != "exit"@ && "bg"@ != "true"@ && "bg"@ != ":"@ && "bg"@ != "false"@ && "bg"@ != "echo"@ && "bg"@ != "read"@ && "bg"@ != "cd"@ && "bg"@ != "pwd"@ && "bg"@ != "export"@ && "bg"@ != "test"@ && "bg"@ != "["@ && "bg"@ != "trap"@ && "bg"@ != "jobs"@ && "bg"@ != "fg"@,
{
    reveal_strlit("bg");
    reveal_strlit("alias");
    reveal_strlit("unalias");
    reveal_strlit("set");
    reveal_strlit("break");
    reveal_strlit("continue");
    reveal_strlit("return");
    reveal_strlit("exit");
    reveal_strlit("true");
    reveal_strlit(":");
    reveal_strlit("false");
    reveal_strlit("echo");
    reveal_strlit("read");
    reveal_strlit("cd");
    reveal_strlit("pwd");
    reveal_strlit("export");
    reveal_strlit("test");
    reveal_strlit("[");
    reveal_strlit("trap");
    reveal_strlit("jobs");
    reveal_strlit("fg");
    assert("bg"@.len() != "alias"@.len() || "bg"@[0] != "alias"@[0]);
    assert("bg"@.len() != "unalias"@.len() || "bg"@[0] != "unalias"@[0]);
    assert("bg"@.len() != "set"@.len() || "bg"@[0] != "set"@[0]);
    assert("bg"@.len() != "break"@.len() || "bg"@[0] != "break"@[0]);
    assert("bg"@.len() != "continue"@.len() || "bg"@[0] != "continue"@[0]);
    assert("bg"@.len() != "return"@.len() || "bg"@[0] != "return"@[0]);
    assert("bg"@.len() != "exit"@.len() || "bg"@[0] != "exit"@[0]);
    assert("bg"@.len() != "true"@.len() || "bg"@[0] != "true"@[0]);
    assert("bg"@.len() != ":"@.len() || "bg"@[0] != ":"@[0]);
    assert("bg"@.len() != "false"@.len() || "bg"@[0] != "false"@[0]);
    assert("bg"@.len() != "echo"@.len() || "bg"@[0] != "echo"@[0]);
    assert("bg"@.len() != "read"@.len() || "bg"@[0] != "read"@[0]);
    assert("bg"@.len() != "cd"@.len() || "bg"@[0] != "cd"@[0]);
    assert("bg"@.len() != "pwd"@.len() || "bg"@[0] != "pwd"@[0]);
    assert("bg"@.len() != "export"@.len() || "bg"@[0] != "export"@[0]);
    assert("bg"@.len() != "test"@.len() || "bg"@[0] != "test"@[0]);
    assert("bg"@.len() != "["@.len() || "bg"@[0] != "["@[0]);
    assert("bg"@.len() != "trap"@.len() || "bg"@[0] != "trap"@[0]);
    assert("bg"@.len() != "jobs"@.len() || "bg"@[0] != "jobs"@[0]);
    assert("bg"@.len() != "fg"@.len() || "bg"@[0] != "fg"@[0]);
}

/// A lone `jobs`: every job is listed once, in order (a finished one as
/// `Done`), the status is 0, the last status stays, and afterwards the
/// table holds exactly the jobs that are running or stopped, in their
/// order.
pub proof fn law_jobs_lists_then_prunes(
    r: PipelineStep,
    a: Seq<Seq<char>>,
    before: Executor,
    after: Executor,
    found: Seq<bool>,
)
    requires
        name_is(a, "jobs"@),
        builtin_step(r, a, before, after, found),
    ensures
        r matches PipelineStep::Listed(lines, ExecOutcome::Status(s)) && s == 0 && lines@.map_values(
            |l: String| l@,
        ) == before.jobs.view().map_values(|j: JobView| job_line(j)),
        after.jobs.view() == before.jobs.view().filter(active_pred()),
        after.last_status == before.last_status,
{
    lemma_jobs_is_no_other_builtin();
    lemma_active_only_filters(before.jobs.view());
}

/// A lone `fg` (`foreground`) or `bg` where no job is stopped: nothing is
/// resumed, the answer is status 1 with the notice `fg: no current job`
/// (or `bg: ...`), and the job table and the last status stay as they
/// were.
pub proof fn law_resume_without_stopped_job(
    r: PipelineStep,
    a: Seq<Seq<char>>,
    before: Executor,
    after: Executor,
    found: Seq<bool>,
    foreground: bool,
)
    requires
        name_is(a, if foreground { "fg"@ } else { "bg"@ }),
        builtin_step(r, a, before, after, found),
        forall|i: int|
            0 <= i < before.jobs.view().len() ==> #[trigger] before.jobs.view()[i].status
                != JobStatus::Stopped,
    ensures
        after.jobs.view() == before.jobs.view(),
        after.last_status == before.last_status,
        r matches PipelineStep::Report(m, ExecOutcome::Status(s)) && s == 1 && m@ == no_job_notice(
            if foreground { "fg"@ } else { "bg"@ },
        ),
{
    lemma_fg_is_no_other_builtin();
    lemma_bg_is_no_other_builtin();
    lemma_none_stopped(before.jobs.view(), before.jobs.view().len() as int);
}

/// `fg` (`foreground`) or `bg`: the last stopped job is marked running and
/// its position handed back; with no stopped job, status 1 and the table
/// as it was.
pub open spec fn resumed(r: PipelineStep, foreground: bool, before: JobTable, after: JobTable) -> bool {
    &&& after.next() == before.next()
    &&& match last_stopped_before(before.view(), before.view().len() as int) {
        Some(i) => r == PipelineStep::Resume(i as usize, foreground) && after.view()
            == before.view().update(i, JobView { status: JobStatus::Running, ..before.view()[i] }),
        None => after.view() == before.view() && (r matches PipelineStep::Report(
            m,
            ExecOutcome::Status(s),
        ) && s == 1 && m@ == no_job_notice(if foreground {
            "fg"@
        } else {
            "bg"@
        })),
    }
}

/// The end of a pipeline that ran with `status`: under `set -e` a failure
/// ends the shell with it; otherwise it becomes the last status.
pub fn pipeline_finish(ex: &mut Executor, status: i32) -> (r: ExecOutcome)
    ensures
        status != 0 && old(ex).options.errexit ==> r == ExecOutcome::Exit(status)
            && final(ex).last_status == old(ex).last_status,
        !(status != 0 && old(ex).options.errexit) ==> r == ExecOutcome::Status(status)
            && final(ex).last_status == status,
        final(ex).options == old(ex).options,
        final(ex).traps == old(ex).traps,
        final(ex).aliases == old(ex).aliases,
        final(ex).jobs == old(ex).jobs,
        final(ex).arrays == old(ex).arrays,
        final(ex).locals == old(ex).locals,
        final(ex).exported == old(ex).exported,
        final(ex).contexts == old(ex).contexts,
{
    let r = pipeline_outcome(status, ex.options.errexit);
    if let ExecOutcome::Status(s) = r {
        ex.last_status = s;
    }
    r
}

/// After one line of a sourced file gave `outcome`: a status becomes the
/// last status and the file goes on (`None`); any other outcome (`exit`,
/// `return`, `break`, `continue`, code for `eval`) ends the file with it,
/// the last status as it was.
pub fn after_sourced_line(ex: &mut Executor, outcome: ExecOutcome) -> (r: Option<ExecOutcome>)
    ensures
        match outcome {
            ExecOutcome::Status(s) => r is None && final(ex).last_status == s,
            _ => r == Some(outcome) && final(ex).last_status == old(ex).last_status,
        },
        final(ex).options == old(ex).options,
        final(ex).traps == old(ex).traps,
        final(ex).aliases == old(ex).aliases,
        final(ex).jobs == old(ex).jobs,
        final(ex).arrays == old(ex).arrays,
        final(ex).locals == old(ex).locals,
        final(ex).exported == old(ex).exported,
        final(ex).contexts == old(ex).contexts,
{
    match outcome {
        ExecOutcome::Status(s) => {
            ex.last_status = s;
            None
        },
        other => Some(other),
    }
}

} // verus!
