//! Finding and starting the programs a command names, and jobs.
//!
//! Spawning, waiting and opening files are the caller's part; here are the
//! choices around them: which paths to try for a program, where each
//! redirection goes, and which status a pipeline ends with.

pub mod job;
pub mod job_control;

use vstd::prelude::*;

use crate::config::startup::join_path;
use crate::expansion::fields::{split_on, split_with, strings_view, lemma_split_on_len};
use crate::parser::RedirOp;
use crate::text::{append_str, str_chars};

verus! {

/// The paths tried, in order, for `program`: the program itself where it
/// names a path (it holds a `/`); otherwise `program` under each directory
/// of `$PATH` (`path`), none where that is unset.
pub open spec fn candidates(program: Seq<char>, path: Option<Seq<char>>) -> Seq<Seq<char>> {
    if program.contains('/') {
        seq![program]
    } else {
        match path {
            None => Seq::empty(),
            Some(p) => split_on(p, seq![':']).map_values(|d: Seq<char>| join_path(d, program)),
        }
    }
}

/// The directories of a `$PATH` value: its pieces between `:`.
fn path_dirs(path: &str) -> (r: Vec<String>)
    ensures
        strings_view(r@) == split_on(path@, seq![':']),
{
    if path.is_empty() {
        let mut r: Vec<String> = Vec::new();
        r.push(String::new());
        assert(strings_view(r@) =~= seq![Seq::<char>::empty()]);
        return r;
    }
    let r = split_with(path, ":");
    proof {
        reveal_strlit(":");
        assert(":"@ =~= seq![':']);
        assert(!crate::expansion::fields::whitespace_ifs(":"@)) by {
            assert(":"@[0] == ':');
        }
    }
    r
}

/// The paths to try for `program`, where `path` is `$PATH`.
pub fn executable_candidates(program: &str, path: Option<String>) -> (r: Vec<String>)
    ensures
        strings_view(r@) == candidates(
            program@,
            match path {
                Some(p) => Some(p@),
                None => None,
            },
        ),
{
    let chars = str_chars(program);
    let mut has_slash = false;
    let mut i: usize = 0;
    while i < chars.len()
        invariant
            i <= chars@.len(),
            chars@ == program@,
            has_slash <==> exists|j: int| 0 <= j < i && chars@[j] == '/',
        decreases chars@.len() - i,
    {
        if chars[i] == '/' {
            has_slash = true;
        }
        i = i + 1;
    }
    assert(has_slash == program@.contains('/'));
    let mut r: Vec<String> = Vec::new();
    if has_slash {
        r.push(String::from_str(program));
        assert(strings_view(r@) =~= seq![program@]);
        return r;
    }
    let p = match path {
        None => {
            assert(strings_view(r@) =~= Seq::<Seq<char>>::empty());
            return r;
        },
        Some(p) => p,
    };
    let dirs = path_dirs(p.as_str());
    let ghost want = strings_view(dirs@).map_values(|d: Seq<char>| join_path(d, program@));
    let mut k: usize = 0;
    while k < dirs.len()
        invariant
            k <= dirs@.len(),
            want == strings_view(dirs@).map_values(|d: Seq<char>| join_path(d, program@)),
            strings_view(r@) == want.subrange(0, k as int),
        decreases dirs@.len() - k,
    {
        let d = str_chars(dirs[k].as_str());
        let mut c = crate::text::string_from_chars(&d);
        if d.len() > 0 && d[d.len() - 1] != '/' {
            c.push('/');
        }
        append_str(&mut c, program);
        proof {
            if d@.len() > 0 && d@.last() != '/' {
                assert(c@ =~= dirs@[k as int]@ + seq!['/'] + program@);
            } else {
                assert(c@ =~= dirs@[k as int]@ + program@);
            }
        }
        let ghost before = strings_view(r@);
        r.push(c);
        assert(strings_view(r@) =~= before.push(want[k as int]));
        k = k + 1;
        assert(strings_view(r@) =~= want.subrange(0, k as int));
    }
    assert(want.subrange(0, dirs@.len() as int) =~= want);
    r
}

/// How a redirected file is opened.
#[derive(Debug, Clone, Copy, PartialEq, Eq, Structural)]
pub enum OpenMode {
    /// For reading.
    Read,
    /// For writing, created or emptied.
    Truncate,
    /// For writing at its end, created where missing.
    Append,
}

/// Where a redirection goes.
#[derive(Debug, Clone, Copy, PartialEq, Eq, Structural)]
pub struct RedirectPlan {
    pub stdin: bool,
    pub stdout: bool,
    pub stderr: bool,
    pub mode: OpenMode,
    /// Whether the command fails (status 1, not run) where the file cannot
    /// be opened; otherwise the redirection is skipped.
    pub required: bool,
}

/// Where the redirection `op` goes: `<` reads standard input from the file;
/// `>` and `>>` write standard output; `2>` and `2>>` standard error; `&>`
/// and `&>>` both. Only `<` and `>` are required to open.
pub open spec fn plan_of(op: RedirOp) -> RedirectPlan {
    match op {
        RedirOp::In => RedirectPlan { stdin: true, stdout: false, stderr: false, mode: OpenMode::Read, required: true },
        RedirOp::Out => RedirectPlan { stdin: false, stdout: true, stderr: false, mode: OpenMode::Truncate, required: true },
        RedirOp::Append => RedirectPlan { stdin: false, stdout: true, stderr: false, mode: OpenMode::Append, required: false },
        RedirOp::ErrOut => RedirectPlan { stdin: false, stdout: false, stderr: true, mode: OpenMode::Truncate, required: false },
        RedirOp::ErrApp => RedirectPlan { stdin: false, stdout: false, stderr: true, mode: OpenMode::Append, required: false },
        RedirOp::AllOut => RedirectPlan { stdin: false, stdout: true, stderr: true, mode: OpenMode::Truncate, required: false },
        RedirOp::AllApp => RedirectPlan { stdin: false, stdout: true, stderr: true, mode: OpenMode::Append, required: false },
    }
}

/// Where the redirection `op` goes.
pub fn redirect_plan(op: RedirOp) -> (r: RedirectPlan)
    ensures
        r == plan_of(op),
{
    match op {
        RedirOp::In => RedirectPlan { stdin: true, stdout: false, stderr: false, mode: OpenMode::Read, required: true },
        RedirOp::Out => RedirectPlan { stdin: false, stdout: true, stderr: false, mode: OpenMode::Truncate, required: true },
        RedirOp::Append => RedirectPlan { stdin: false, stdout: true, stderr: false, mode: OpenMode::Append, required: false },
        RedirOp::ErrOut => RedirectPlan { stdin: false, stdout: false, stderr: true, mode: OpenMode::Truncate, required: false },
        RedirOp::ErrApp => RedirectPlan { stdin: false, stdout: false, stderr: true, mode: OpenMode::Append, required: false },
        RedirOp::AllOut => RedirectPlan { stdin: false, stdout: true, stderr: true, mode: OpenMode::Truncate, required: false },
        RedirOp::AllApp => RedirectPlan { stdin: false, stdout: true, stderr: true, mode: OpenMode::Append, required: false },
    }
}

/// A process's exit status as a shell status: its code, or 1 where it has
/// none (killed by a signal).
pub fn exit_status(code: Option<i32>) -> (s: i32)
    ensures
        s == match code {
            Some(c) => c,
            None => 1,
        },
{
    match code {
        Some(c) => c,
        None => 1,
    }
}

/// The status of a pipeline whose stages were waited for in order, each
/// wait giving the stage's exit code or failing: the status of the last
/// stage whose wait succeeded, 0 where none did.
pub open spec fn last_wait_status(waits: Seq<Option<Option<i32>>>) -> i32
    decreases waits.len(),
{
    if waits.len() == 0 {
        0
    } else {
        match waits.last() {
            Some(code) => match code {
                Some(c) => c,
                None => 1,
            },
            None => last_wait_status(waits.drop_last()),
        }
    }
}

/// The status of a pipeline from the waits for its stages.
pub fn pipeline_status(waits: &Vec<Option<Option<i32>>>) -> (s: i32)
    ensures
        s == last_wait_status(waits@),
{
    let mut s: i32 = 0;
    let mut i: usize = 0;
    while i < waits.len()
        invariant
            i <= waits@.len(),
            s == last_wait_status(waits@.subrange(0, i as int)),
        decreases waits@.len() - i,
    {
        assert(waits@.subrange(0, i + 1).drop_last() =~= waits@.subrange(0, i as int));
        match waits[i] {
            Some(code) => {
                s = exit_status(code);
            },
            None => {},
        }
        i = i + 1;
    }
    assert(waits@.subrange(0, waits@.len() as int) =~= waits@);
    s
}

} // verus!
