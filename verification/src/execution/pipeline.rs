//! How the script executor wires, waits for and reports a pipeline, and
//! how it answers the signals it caught.

use vstd::prelude::*;

use crate::expansion::fields::{join_with_spaces, join_words, strings_view};
use crate::outcome::ExecOutcome;
use crate::process::job::{first_in_group, JobStatus, JobTable, JobView};
use crate::text::{append_str, copy_string, eq_str, usize_to_string};
use crate::vars::VarTable;

verus! {

/// The pipes stage `i` of `n` uses: it reads from pipe `i - 1` where it is
/// not the first stage, and writes to pipe `i` where it is not the last.
pub fn stage_pipes(i: usize, n: usize) -> (r: (Option<usize>, Option<usize>))
    requires
        i < n,
    ensures
        r.0 == (if i > 0 {
            Some((i - 1) as usize)
        } else {
            None
        }),
        r.1 == (if i + 1 < n {
            Some(i)
        } else {
            None
        }),
{
    let input = if i > 0 {
        Some(i - 1)
    } else {
        None
    };
    let output = if i < n - 1 {
        Some(i)
    } else {
        None
    };
    (input, output)
}

/// How a stage of a pipeline ended, as a wait reports it.
#[derive(Debug, Clone, Copy, PartialEq, Eq, Structural)]
pub enum StageEnd {
    /// Exited with this status.
    Exited(i32),
    /// Killed by the signal with this number.
    Signaled(i32),
    /// Stopped by the signal with this number.
    Stopped(i32),
    /// Anything else a wait can report.
    Other,
}

/// The signal a stage ended with, 0 where none.
pub open spec fn signal_of(e: StageEnd) -> i32 {
    match e {
        StageEnd::Signaled(s) | StageEnd::Stopped(s) => s,
        _ => 0,
    }
}

/// The status of a pipeline whose stages ended as `ends`, in order, and
/// whether any stage stopped: the status is that of the last stage that
/// exited (its status) or was killed or stopped (128 plus the signal).
pub open spec fn pipeline_end(ends: Seq<StageEnd>) -> (i32, bool)
    decreases ends.len(),
{
    if ends.len() == 0 {
        (0, false)
    } else {
        let (last, stopped) = pipeline_end(ends.drop_last());
        match ends.last() {
            StageEnd::Exited(s) => (s, stopped),
            StageEnd::Signaled(sig) => ((128 + sig) as i32, stopped),
            StageEnd::Stopped(sig) => ((128 + sig) as i32, true),
            StageEnd::Other => (last, stopped),
        }
    }
}

/// The status of a pipeline from how its stages ended, and whether it was
/// stopped. Signal numbers are small.
pub fn wait_result(ends: &Vec<StageEnd>) -> (r: (i32, bool))
    requires
        forall|i: int| 0 <= i < ends@.len() ==> 0 <= #[trigger] signal_of(ends@[i]) <= 1024,
    ensures
        r == pipeline_end(ends@),
{
    let mut last: i32 = 0;
    let mut stopped = false;
    let mut i: usize = 0;
    while i < ends.len()
        invariant
            i <= ends@.len(),
            forall|j: int| 0 <= j < ends@.len() ==> 0 <= #[trigger] signal_of(ends@[j]) <= 1024,
            (last, stopped) == pipeline_end(ends@.subrange(0, i as int)),
        decreases ends@.len() - i,
    {
        assert(ends@.subrange(0, i + 1).drop_last() =~= ends@.subrange(0, i as int));
        assert(signal_of(ends@[i as int]) <= 1024);
        match ends[i] {
            StageEnd::Exited(s) => {
                last = s;
            },
            StageEnd::Signaled(sig) => {
                last = 128 + sig;
            },
            StageEnd::Stopped(sig) => {
                stopped = true;
                last = 128 + sig;
            },
            StageEnd::Other => {},
        }
        i = i + 1;
    }
    assert(ends@.subrange(0, ends@.len() as int) =~= ends@);
    (last, stopped)
}

/// The words of each command, joined by spaces.
pub open spec fn command_texts(cmds: Seq<Seq<Seq<char>>>) -> Seq<Seq<char>> {
    cmds.map_values(|c: Seq<Seq<char>>| join_words(c))
}

/// The commands that have words.
pub open spec fn nonempty_commands(cmds: Seq<Seq<Seq<char>>>) -> Seq<Seq<Seq<char>>>
    decreases cmds.len(),
{
    if cmds.len() == 0 {
        Seq::empty()
    } else if cmds.last().len() > 0 {
        nonempty_commands(cmds.drop_last()).push(cmds.last())
    } else {
        nonempty_commands(cmds.drop_last())
    }
}

/// The texts joined by ` | `.
pub open spec fn join_pipes(v: Seq<Seq<char>>) -> Seq<char>
    decreases v.len(),
{
    if v.len() == 0 {
        Seq::empty()
    } else if v.len() == 1 {
        v[0]
    } else {
        join_pipes(v.drop_last()) + " | "@ + v.last()
    }
}

/// The words of commands as values.
pub open spec fn commands_view(cmds: Seq<Vec<String>>) -> Seq<Seq<Seq<char>>> {
    cmds.map_values(|c: Vec<String>| strings_view(c@))
}

/// The texts of `v` joined by ` | `.
fn join_with_pipes(v: &Vec<String>) -> (r: String)
    ensures
        r@ == join_pipes(strings_view(v@)),
{
    let mut r = String::new();
    let mut i: usize = 0;
    while i < v.len()
        invariant
            i <= v@.len(),
            r@ == join_pipes(strings_view(v@).subrange(0, i as int)),
        decreases v@.len() - i,
    {
        let ghost pre = strings_view(v@).subrange(0, i as int);
        assert(strings_view(v@).subrange(0, i + 1).drop_last() =~= pre);
        if i > 0 {
            append_str(&mut r, " | ");
        }
        append_str(&mut r, v[i].as_str());
        proof {
            let now = strings_view(v@).subrange(0, i + 1);
            if i == 0 {
                assert(r@ =~= now[0]);
            } else {
                assert(r@ =~= join_pipes(pre) + " | "@ + now.last());
            }
        }
        i = i + 1;
    }
    assert(strings_view(v@).subrange(0, v@.len() as int) =~= strings_view(v@));
    r
}

/// How a stopped pipeline is described in the job table: its commands
/// with words, each written out, joined by ` | `.
pub fn job_description(cmds: &Vec<Vec<String>>) -> (r: String)
    ensures
        r@ == join_pipes(command_texts(nonempty_commands(commands_view(cmds@)))),
{
    let ghost cv = commands_view(cmds@);
    let mut texts: Vec<String> = Vec::new();
    let mut i: usize = 0;
    while i < cmds.len()
        invariant
            i <= cmds@.len(),
            cv == commands_view(cmds@),
            strings_view(texts@) == command_texts(nonempty_commands(cv.subrange(0, i as int))),
        decreases cmds@.len() - i,
    {
        let ghost pre = cv.subrange(0, i as int);
        assert(cv.subrange(0, i + 1).drop_last() =~= pre);
        assert(cv.subrange(0, i + 1).last() == strings_view(cmds@[i as int]@));
        if cmds[i].len() > 0 {
            let t = join_with_spaces(&cmds[i]);
            let ghost before = strings_view(texts@);
            texts.push(t);
            assert(strings_view(texts@) =~= before.push(join_words(strings_view(cmds@[i as int]@))));
            assert(command_texts(nonempty_commands(pre).push(strings_view(cmds@[i as int]@)))
                =~= command_texts(nonempty_commands(pre)).push(join_words(strings_view(cmds@[i as int]@))));
        }
        i = i + 1;
    }
    assert(cv.subrange(0, cmds@.len() as int) =~= cv);
    join_with_pipes(&texts)
}

/// The line `set -x` prints before a pipeline runs: `+ `, then each
/// command's words joined by spaces, the commands joined by ` | `.
pub fn trace_line(cmds: &Vec<Vec<String>>) -> (r: String)
    ensures
        r@ == "+ "@ + join_pipes(command_texts(commands_view(cmds@))),
{
    let ghost cv = commands_view(cmds@);
    let mut texts: Vec<String> = Vec::new();
    let mut i: usize = 0;
    while i < cmds.len()
        invariant
            i <= cmds@.len(),
            cv == commands_view(cmds@),
            strings_view(texts@) == command_texts(cv).subrange(0, i as int),
        decreases cmds@.len() - i,
    {
        let t = join_with_spaces(&cmds[i]);
        let ghost before = strings_view(texts@);
        texts.push(t);
        assert(strings_view(texts@) =~= before.push(command_texts(cv)[i as int]));
        i = i + 1;
        assert(strings_view(texts@) =~= command_texts(cv).subrange(0, i as int));
    }
    assert(command_texts(cv).subrange(0, cmds@.len() as int) =~= command_texts(cv));
    let mut r = String::from_str("+ ");
    let joined = join_with_pipes(&texts);
    append_str(&mut r, joined.as_str());
    r
}

/// The outcome of a pipeline that ended with `status`: under `set -e` a
/// failure ends the shell with that status.
pub fn pipeline_outcome(status: i32, errexit: bool) -> (r: ExecOutcome)
    ensures
        r == (if status != 0 && errexit {
            ExecOutcome::Exit(status)
        } else {
            ExecOutcome::Status(status)
        }),
{
    if status != 0 && errexit {
        ExecOutcome::Exit(status)
    } else {
        ExecOutcome::Status(status)
    }
}

/// The notice printed for a pipeline that was stopped.
pub open spec fn stopped_notice(id: usize, description: Seq<char>) -> Seq<char> {
    "\n["@ + crate::text::int_text(id as int) + "] Stopped          "@ + description
}

/// Records a stopped pipeline in process group `pgid` as a job: it is added,
/// then the first job of that group is marked stopped. Gives the new job's
/// id and the notice to print.
pub fn record_stopped(jobs: &mut JobTable, pgid: i32, description: String) -> (r: (usize, String))
    requires
        old(jobs).next() < usize::MAX,
    ensures
        r.0 == old(jobs).next(),
        final(jobs).next() == old(jobs).next() + 1,
        r.1@ == stopped_notice(r.0, description@),
        ({
            let added = old(jobs).view().push(
                JobView { id: r.0, pgid, command: description@, status: JobStatus::Running },
            );
            match first_in_group(added, pgid, 0) {
                Some(i) => final(jobs).view() == added.update(
                    i,
                    JobView { status: JobStatus::Stopped, ..added[i] },
                ),
                None => final(jobs).view() == added,
            }
        }),
{
    let mut notice = String::from_str("\n[");
    let d = copy_string(&description);
    let id = jobs.add(pgid, description);
    jobs.update_status(pgid, JobStatus::Stopped);
    let n = usize_to_string(id);
    append_str(&mut notice, n.as_str());
    append_str(&mut notice, "] Stopped          ");
    append_str(&mut notice, d.as_str());
    (id, notice)
}

/// How a pipeline in process group `pgid` ended, from how its stages
/// ended (`ends`, in order): its status is that of the last stage that
/// exited, was killed or was stopped; where a stage stopped, the pipeline
/// (described by `description`) becomes a stopped job and the notice to
/// print is given; otherwise the job table stays as it is.
pub fn stages_done(jobs: &mut JobTable, pgid: i32, description: String, ends: &Vec<StageEnd>) -> (r: (
    i32,
    Option<String>,
))
    requires
        forall|i: int| 0 <= i < ends@.len() ==> 0 <= #[trigger] signal_of(ends@[i]) <= 1024,
        old(jobs).next() < usize::MAX,
    ensures
        r.0 == pipeline_end(ends@).0,
        !pipeline_end(ends@).1 ==> r.1 is None && final(jobs).view() == old(jobs).view()
            && final(jobs).next() == old(jobs).next(),
        pipeline_end(ends@).1 ==> ({
            let id = old(jobs).next();
            let added = old(jobs).view().push(
                JobView { id, pgid, command: description@, status: JobStatus::Running },
            );
            &&& r.1 matches Some(n) && n@ == stopped_notice(id, description@)
            &&& final(jobs).next() == id + 1
            &&& match first_in_group(added, pgid, 0) {
                Some(i) => final(jobs).view() == added.update(
                    i,
                    JobView { status: JobStatus::Stopped, ..added[i] },
                ),
                None => final(jobs).view() == added,
            }
        }),
{
    let (status, stopped) = wait_result(ends);
    if stopped {
        let (_, notice) = record_stopped(jobs, pgid, description);
        (status, Some(notice))
    } else {
        (status, None)
    }
}

/// Whether some stage of `ends` stopped.
pub open spec fn some_stopped(ends: Seq<StageEnd>) -> bool {
    exists|i: int| 0 <= i < ends.len() && #[trigger] ends[i] is Stopped
}

/// A pipeline's status is its last stage's: the exit status, or 128 plus
/// the signal that killed or stopped it (a stage of which the wait reports
/// nothing else leaves the status of the one before); and the pipeline
/// counts as stopped exactly where one of its stages stopped.
pub proof fn law_status_of_last_stage(ends: Seq<StageEnd>)
    ensures
        ends.len() > 0 ==> pipeline_end(ends).0 == match ends.last() {
            StageEnd::Exited(s) => s,
            StageEnd::Signaled(g) => (128 + g) as i32,
            StageEnd::Stopped(g) => (128 + g) as i32,
            StageEnd::Other => pipeline_end(ends.drop_last()).0,
        },
        pipeline_end(ends).1 <==> some_stopped(ends),
    decreases ends.len(),
{
    if ends.len() > 0 {
        law_status_of_last_stage(ends.drop_last());
        let init = ends.drop_last();
        if some_stopped(init) {
            let i = choose|i: int| 0 <= i < init.len() && #[trigger] init[i] is Stopped;
            assert(ends[i] == init[i]);
        }
        if some_stopped(ends) && !(ends.last() is Stopped) {
            let i = choose|i: int| 0 <= i < ends.len() && #[trigger] ends[i] is Stopped;
            assert(init[i] == ends[i]);
        }
    } else {
        assert(!some_stopped(ends));
    }
}

/// The status the shell exits with on a caught signal that has no trap.
pub open spec fn default_exit(signal: Seq<char>) -> Option<i32> {
    if signal == "INT"@ {
        Some(130)
    } else if signal == "TERM"@ {
        Some(143)
    } else if signal == "HUP"@ {
        Some(129)
    } else {
        None
    }
}

/// How the shell answers the caught signal `signal` (`INT`, `TERM` or
/// `HUP`): with the command registered by `trap` for it, to be run, or,
/// where there is none, by exiting with the signal's status.
pub fn signal_response(signal: &str, traps: &VarTable) -> (r: Result<String, i32>)
    requires
        default_exit(signal@) is Some,
    ensures
        traps.view().contains_key(signal@) ==> (r matches Ok(c) && c@ == traps.view()[signal@]),
        !traps.view().contains_key(signal@) ==> r == Err::<String, i32>(default_exit(signal@)->0),
{
    match traps.get(signal) {
        Some(c) => Ok(c),
        None => {
            if eq_str(signal, "INT") {
                Err(130)
            } else if eq_str(signal, "TERM") {
                Err(143)
            } else {
                Err(129)
            }
        },
    }
}

} // verus!
