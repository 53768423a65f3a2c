//! The shell's built-in commands.
//!
//! The builtins of the line shell (`crate::shell`) are `cd`, `pwd`, `echo`,
//! `export`, `clear`, `help` and `exit`: what each decides is worked out
//! here; changing directory, printing and setting the environment are the
//! caller's part. The other modules hold the builtins of the script
//! executor.

pub mod alias;
pub mod eval;
pub mod permission;
pub mod read;
pub mod set;
pub mod test;
pub mod trap;

use vstd::prelude::*;

use crate::config::startup::join_path;
use crate::expansion::fields::{join_with_spaces, join_words, strings_view};
use crate::text::{
    append_str, copy_string, eq_str, find_char, first_at, lemma_first_at, parse_i32, parse_i32_spec,
    str_chars, string_from_range,
};
use crate::builtins::test::{execute_test, test_result, TestResult, TestView};
use crate::outcome::ExecOutcome;
use crate::vars::VarTable;

verus! {

/// What a builtin of the line shell returns.
#[derive(Debug, Clone, Copy, PartialEq, Eq, Structural)]
pub enum BuiltinResult {
    /// The command is no builtin.
    NotBuiltin,
    /// The builtin ran with this status.
    Continue(i32),
    /// The shell exits with this status.
    Exit(i32),
}

/// What a builtin leaves for the caller to do.
#[derive(Debug)]
pub enum BuiltinAction {
    /// The command is no builtin.
    NotBuiltin,
    /// Change to this directory, then set `OLDPWD` to the old directory and
    /// `PWD` to the new one.
    ChangeDir(String),
    /// Print the message on standard error; the status is the number.
    Fail(String, i32),
    /// Print the current directory.
    PrintDir,
    /// Print the text and a newline.
    Print(String),
    /// Print the environment, one `NAME=value` per line.
    ListEnv,
    /// Set these environment variables in order; then, where there is a
    /// message, print it on standard error (status 2).
    Export(Vec<(String, String)>, Option<String>),
    /// Clear the terminal.
    Clear,
    /// Exit with the status, after printing the message where there is one.
    Exit(i32, Option<String>),
}

/// An action as values.
pub enum ActionView {
    NotBuiltin,
    ChangeDir(Seq<char>),
    Fail(Seq<char>, i32),
    PrintDir,
    Print(Seq<char>),
    ListEnv,
    Export(Seq<(Seq<char>, Seq<char>)>, Option<Seq<char>>),
    Clear,
    Exit(i32, Option<Seq<char>>),
}

/// Name-value pairs as values.
pub open spec fn pairs_view(v: Seq<(String, String)>) -> Seq<(Seq<char>, Seq<char>)> {
    v.map_values(|p: (String, String)| (p.0@, p.1@))
}

/// An optional text as values.
pub open spec fn opt_view(o: Option<String>) -> Option<Seq<char>> {
    match o {
        Some(s) => Some(s@),
        None => None,
    }
}

impl BuiltinAction {
    pub open spec fn view(&self) -> ActionView {
        match self {
            BuiltinAction::NotBuiltin => ActionView::NotBuiltin,
            BuiltinAction::ChangeDir(p) => ActionView::ChangeDir(p@),
            BuiltinAction::Fail(m, s) => ActionView::Fail(m@, *s),
            BuiltinAction::PrintDir => ActionView::PrintDir,
            BuiltinAction::Print(t) => ActionView::Print(t@),
            BuiltinAction::ListEnv => ActionView::ListEnv,
            BuiltinAction::Export(v, m) => ActionView::Export(pairs_view(v@), opt_view(*m)),
            BuiltinAction::Clear => ActionView::Clear,
            BuiltinAction::Exit(s, m) => ActionView::Exit(*s, opt_view(*m)),
        }
    }
}

/// `path` joined onto `dir` the way `PathBuf::join` does: an absolute
/// `path` replaces `dir`.
pub open spec fn path_join(dir: Seq<char>, path: Seq<char>) -> Seq<char> {
    if path.len() > 0 && path[0] == '/' {
        path
    } else {
        join_path(dir, path)
    }
}

/// `input` with a leading `~` (alone, or before `/`) taken as `$HOME`; `~`
/// alone is `/` where `$HOME` is unset.
pub open spec fn home_path(env: Map<Seq<char>, Seq<char>>, input: Seq<char>) -> Seq<char> {
    if input == seq!['~'] {
        if env.contains_key("HOME"@) {
            env["HOME"@]
        } else {
            "/"@
        }
    } else if input.len() >= 2 && input[0] == '~' && input[1] == '/' && env.contains_key("HOME"@) {
        path_join(env["HOME"@], input.subrange(2, input.len() as int))
    } else {
        input
    }
}

/// What `cd` with the operands `args` does.
pub open spec fn cd_action(args: Seq<Seq<char>>, env: Map<Seq<char>, Seq<char>>) -> ActionView {
    if args.len() == 0 {
        ActionView::ChangeDir(
            if env.contains_key("HOME"@) {
                env["HOME"@]
            } else {
                "/"@
            },
        )
    } else if args[0] == "-"@ {
        if env.contains_key("OLDPWD"@) {
            ActionView::ChangeDir(env["OLDPWD"@])
        } else {
            ActionView::Fail("cd: OLDPWD not set"@, 1)
        }
    } else {
        ActionView::ChangeDir(home_path(env, args[0]))
    }
}

/// The assignments `export` makes with the operands `args` from position
/// `i` on, each `NAME=value` split at its first `=`, stopping at the first
/// malformed one; and the message for that one.
pub open spec fn export_run(args: Seq<Seq<char>>, i: int) -> (Seq<(Seq<char>, Seq<char>)>, Option<Seq<char>>)
    decreases args.len() - i,
{
    if i < 0 || i >= args.len() {
        (Seq::empty(), None)
    } else {
        let a = args[i];
        match first_at(a, '=', 0) {
            None => (Seq::empty(), Some("export: invalid assignment: "@ + a)),
            Some(j) => if j == 0 {
                (Seq::empty(), Some("export: empty variable name"@))
            } else {
                let rest = export_run(args, i + 1);
                (seq![(a.subrange(0, j), a.subrange(j + 1, a.len() as int))] + rest.0, rest.1)
            },
        }
    }
}

/// The status `exit` gives with the operands `args`, and its message.
pub open spec fn exit_action(args: Seq<Seq<char>>, last_status: i32) -> ActionView {
    if args.len() == 0 {
        ActionView::Exit(last_status, None)
    } else {
        match parse_i32_spec(args[0]) {
            Some(s) => ActionView::Exit(s, None),
            None => ActionView::Exit(2, Some("exit: numeric argument required"@)),
        }
    }
}

/// The text `help` prints.
pub open spec fn help_text() -> Seq<char> {
    "MITOS Shell\n\nBuilt-in commands:\n  cd [DIR]       Change directory\n  cd -           Return to previous directory\n  pwd            Print current directory\n  echo [TEXT]    Print text\n  export VAR=V   Set environment variable\n  clear          Clear terminal\n  help           Show help\n  exit [STATUS]  Exit shell\n\nExternal commands are searched using PATH."@
}

/// What the builtin `command` does with the operands `args`, where the
/// last status was `last_status` and the environment is `env`.
pub open spec fn builtin_action(
    command: Seq<char>,
    args: Seq<Seq<char>>,
    last_status: i32,
    env: Map<Seq<char>, Seq<char>>,
) -> ActionView {
    if command == "cd"@ {
        cd_action(args, env)
    } else if command == "pwd"@ {
        ActionView::PrintDir
    } else if command == "echo"@ {
        ActionView::Print(join_words(args))
    } else if command == "export"@ {
        if args.len() == 0 {
            ActionView::ListEnv
        } else {
            ActionView::Export(export_run(args, 0).0, export_run(args, 0).1)
        }
    } else if command == "clear"@ {
        ActionView::Clear
    } else if command == "help"@ {
        ActionView::Print(help_text())
    } else if command == "exit"@ {
        exit_action(args, last_status)
    } else {
        ActionView::NotBuiltin
    }
}

/// The value of `name` in `env`, or `default`.
fn env_or(env: &VarTable, name: &str, default: &str) -> (r: String)
    ensures
        r@ == (if env.view().contains_key(name@) {
            env.view()[name@]
        } else {
            default@
        }),
{
    match env.get(name) {
        Some(v) => v,
        None => String::from_str(default),
    }
}

/// `path` joined onto `dir`.
fn join_onto(dir: &str, path: &str) -> (r: String)
    ensures
        r@ == path_join(dir@, path@),
{
    let p = str_chars(path);
    if p.len() > 0 && p[0] == '/' {
        return String::from_str(path);
    }
    let d = str_chars(dir);
    let mut r = String::from_str(dir);
    if d.len() > 0 && d[d.len() - 1] != '/' {
        r.push('/');
    }
    append_str(&mut r, path);
    proof {
        if d@.len() > 0 && d@.last() != '/' {
            assert(r@ =~= dir@ + seq!['/'] + path@);
        } else {
            assert(r@ =~= dir@ + path@);
        }
    }
    r
}

/// `input` with a leading `~` taken as `$HOME`.
fn expand_home(env: &VarTable, input: &str) -> (r: String)
    ensures
        r@ == home_path(env.view(), input@),
{
    let c = str_chars(input);
    if c.len() == 1 && c[0] == '~' {
        assert(input@ =~= seq!['~']);
        return env_or(env, "HOME", "/");
    }
    assert(!(input@ =~= seq!['~']));
    if c.len() >= 2 && c[0] == '~' && c[1] == '/' {
        match env.get("HOME") {
            Some(home) => {
                let rest = string_from_range(&c, 2, c.len());
                return join_onto(home.as_str(), rest.as_str());
            },
            None => {},
        }
    }
    String::from_str(input)
}

/// The assignments of `export` with the operands `args` from `start` on.
fn export_pairs(args: &[String], start: usize) -> (r: (Vec<(String, String)>, Option<String>))
    requires
        start <= args@.len(),
    ensures
        pairs_view(r.0@) == export_run(strings_view(args@), start as int).0,
        opt_view(r.1) == export_run(strings_view(args@), start as int).1,
{
    let ghost a = strings_view(args@);
    let mut pairs: Vec<(String, String)> = Vec::new();
    let mut i = start;
    while i < args.len()
        invariant
            start <= i <= args@.len(),
            a == strings_view(args@),
            export_run(a, start as int) == (
                pairs_view(pairs@) + export_run(a, i as int).0,
                export_run(a, i as int).1,
            ),
        decreases args@.len() - i,
    {
        let c = str_chars(args[i].as_str());
        proof {
            lemma_first_at(c@, '=', 0);
        }
        match find_char(&c, '=', 0) {
            None => {
                let mut m = String::from_str("export: invalid assignment: ");
                append_str(&mut m, args[i].as_str());
                assert(pairs_view(pairs@) + Seq::<(Seq<char>, Seq<char>)>::empty() =~= pairs_view(pairs@));
                return (pairs, Some(m));
            },
            Some(j) => {
                if j == 0 {
                    assert(pairs_view(pairs@) + Seq::<(Seq<char>, Seq<char>)>::empty() =~= pairs_view(pairs@));
                    return (pairs, Some(String::from_str("export: empty variable name")));
                }
                let cl = c.len();
                assert(j < cl);
                let k = string_from_range(&c, 0, j);
                let v = string_from_range(&c, j + 1, cl);
                let ghost before = pairs_view(pairs@);
                pairs.push((k, v));
                proof {
                    assert(pairs_view(pairs@) =~= before.push((k@, v@)));
                    let rest = export_run(a, i + 1);
                    assert(before + (seq![(k@, v@)] + rest.0) =~= pairs_view(pairs@) + rest.0);
                }
            },
        }
        i = i + 1;
    }
    assert(pairs_view(pairs@) + Seq::<(Seq<char>, Seq<char>)>::empty() =~= pairs_view(pairs@));
    (pairs, None)
}

/// What the builtin `command` does with the operands `args`.
pub fn execute(command: &str, args: &[String], last_status: i32, env: &VarTable) -> (r: BuiltinAction)
    ensures
        r.view() == builtin_action(command@, strings_view(args@), last_status, env.view()),
{
    let ghost a = strings_view(args@);
    if eq_str(command, "cd") {
        if args.len() == 0 {
            return BuiltinAction::ChangeDir(env_or(env, "HOME", "/"));
        }
        if eq_str(args[0].as_str(), "-") {
            return match env.get("OLDPWD") {
                Some(p) => BuiltinAction::ChangeDir(p),
                None => BuiltinAction::Fail(String::from_str("cd: OLDPWD not set"), 1),
            };
        }
        BuiltinAction::ChangeDir(expand_home(env, args[0].as_str()))
    } else if eq_str(command, "pwd") {
        BuiltinAction::PrintDir
    } else if eq_str(command, "echo") {
        let mut words: Vec<String> = Vec::new();
        let mut i: usize = 0;
        while i < args.len()
            invariant
                i <= args@.len(),
                a == strings_view(args@),
                strings_view(words@) == a.subrange(0, i as int),
            decreases args@.len() - i,
        {
            let ghost before = strings_view(words@);
            words.push(copy_string(&args[i]));
            assert(strings_view(words@) =~= before.push(a[i as int]));
            i = i + 1;
            assert(strings_view(words@) =~= a.subrange(0, i as int));
        }
        assert(a.subrange(0, a.len() as int) =~= a);
        BuiltinAction::Print(join_with_spaces(&words))
    } else if eq_str(command, "export") {
        if args.len() == 0 {
            return BuiltinAction::ListEnv;
        }
        let (pairs, err) = export_pairs(args, 0);
        BuiltinAction::Export(pairs, err)
    } else if eq_str(command, "clear") {
        BuiltinAction::Clear
    } else if eq_str(command, "help") {
        BuiltinAction::Print(
            String::from_str(
                "MITOS Shell\n\nBuilt-in commands:\n  cd [DIR]       Change directory\n  cd -           Return to previous directory\n  pwd            Print current directory\n  echo [TEXT]    Print text\n  export VAR=V   Set environment variable\n  clear          Clear terminal\n  help           Show help\n  exit [STATUS]  Exit shell\n\nExternal commands are searched using PATH.",
            ),
        )
    } else if eq_str(command, "exit") {
        if args.len() == 0 {
            return BuiltinAction::Exit(last_status, None);
        }
        match parse_i32(args[0].as_str()) {
            Some(s) => BuiltinAction::Exit(s, None),
            None => BuiltinAction::Exit(2, Some(String::from_str("exit: numeric argument required"))),
        }
    } else {
        BuiltinAction::NotBuiltin
    }
}

/// `cd -` goes back to the previous directory: where `OLDPWD` is set it
/// changes to `OLDPWD`'s value, whatever `HOME` is; where it is unset it
/// fails with status 1. `cd` alone goes to `HOME` (`/` where it is unset).
pub proof fn law_cd_dash_returns_to_oldpwd(
    rest: Seq<Seq<char>>,
    last_status: i32,
    env: Map<Seq<char>, Seq<char>>,
)
    ensures
        env.contains_key("OLDPWD"@) ==> builtin_action("cd"@, seq!["-"@] + rest, last_status, env)
            == ActionView::ChangeDir(env["OLDPWD"@]),
        !env.contains_key("OLDPWD"@) ==> builtin_action("cd"@, seq!["-"@] + rest, last_status, env)
            == ActionView::Fail("cd: OLDPWD not set"@, 1),
        builtin_action("cd"@, Seq::empty(), last_status, env) == ActionView::ChangeDir(
            if env.contains_key("HOME"@) {
                env["HOME"@]
            } else {
                "/"@
            },
        ),
{
    assert((seq!["-"@] + rest)[0] == "-"@);
}

/// `cd DIR` goes to `DIR` as written where it neither is `-` nor starts
/// with `~`; `cd ~` goes to `HOME` (`/` where it is unset). Operands after
/// the first are not looked at.
pub proof fn law_cd_goes_to_its_operand(
    d: Seq<char>,
    rest: Seq<Seq<char>>,
    last_status: i32,
    env: Map<Seq<char>, Seq<char>>,
)
    ensures
        d != "-"@ && (d.len() == 0 || d[0] != '~') ==> builtin_action(
            "cd"@,
            seq![d] + rest,
            last_status,
            env,
        ) == ActionView::ChangeDir(d),
        builtin_action("cd"@, seq![seq!['~']] + rest, last_status, env) == ActionView::ChangeDir(
            if env.contains_key("HOME"@) {
                env["HOME"@]
            } else {
                "/"@
            },
        ),
{
    reveal_strlit("-");
    assert((seq![d] + rest)[0] == d);
    assert((seq![seq!['~']] + rest)[0] == seq!['~']);
    assert(seq!['~'][0] != "-"@[0]);
}

proof fn lemma_exit_is_no_other_builtin()
    ensures
        "exit"@ != "cd"@ && "exit"@ != "pwd"@ && "exit"@ != "echo"@ && "exit"@ != "export"@ && "exit"@
            != "clear"@ && "exit"@ != "help"@,
{
    reveal_strlit("exit");
    reveal_strlit("cd");
    reveal_strlit("pwd");
    reveal_strlit("echo");
    reveal_strlit("export");
    reveal_strlit("clear");
    reveal_strlit("help");
    assert("exit"@.len() == 4 && "cd"@.len() == 2 && "pwd"@.len() == 3 && "export"@.len() == 6
        && "clear"@.len() == 5);
    assert("exit"@[1] != "echo"@[1] && "exit"@[1] != "help"@[1]);
}

/// `exit` leaves with the last status; `exit N` with `N` where it is an
/// `i32`; with another operand it leaves with status 2 and says a number
/// was needed.
pub proof fn law_exit_status(
    n: Seq<char>,
    rest: Seq<Seq<char>>,
    last_status: i32,
    env: Map<Seq<char>, Seq<char>>,
)
    ensures
        builtin_action("exit"@, Seq::empty(), last_status, env) == ActionView::Exit(last_status, None),
        parse_i32_spec(n) matches Some(v) ==> builtin_action("exit"@, seq![n] + rest, last_status, env)
            == ActionView::Exit(v, None),
        parse_i32_spec(n) is None ==> builtin_action("exit"@, seq![n] + rest, last_status, env)
            == ActionView::Exit(2, Some("exit: numeric argument required"@)),
{
    lemma_exit_is_no_other_builtin();
    assert((seq![n] + rest)[0] == n);
}

/// A command that is none of `cd`, `pwd`, `echo`, `export`, `clear`,
/// `help` and `exit` is no builtin of the line shell: `execute` gives
/// `NotBuiltin`, which leaves the caller nothing to do (the environment,
/// the directory and the output stay as they are), and its result is
/// `NotBuiltin` whatever the caller reports.
pub proof fn law_other_commands_are_not_builtins(
    command: Seq<char>,
    args: Seq<Seq<char>>,
    last_status: i32,
    env: Map<Seq<char>, Seq<char>>,
)
    requires
        command != "cd"@,
        command != "pwd"@,
        command != "echo"@,
        command != "export"@,
        command != "clear"@,
        command != "help"@,
        command != "exit"@,
    ensures
        builtin_action(command, args, last_status, env) == ActionView::NotBuiltin,
{
}

/// What the builtin returns once the caller has done its part, where
/// `done` tells whether that part (changing directory, reading the
/// current directory, clearing the screen) succeeded.
pub fn result_of(action: &BuiltinAction, done: bool) -> (r: BuiltinResult)
    ensures
        r == match action.view() {
            ActionView::NotBuiltin => BuiltinResult::NotBuiltin,
            ActionView::ChangeDir(_) | ActionView::PrintDir | ActionView::Clear => BuiltinResult::Continue(
                if done {
                    0
                } else {
                    1
                },
            ),
            ActionView::Fail(_, s) => BuiltinResult::Continue(s),
            ActionView::Print(_) | ActionView::ListEnv => BuiltinResult::Continue(0),
            ActionView::Export(_, m) => BuiltinResult::Continue(
                if m is Some {
                    2
                } else {
                    0
                },
            ),
            ActionView::Exit(s, _) => BuiltinResult::Exit(s),
        },
{
    match action {
        BuiltinAction::NotBuiltin => BuiltinResult::NotBuiltin,
        BuiltinAction::ChangeDir(_) | BuiltinAction::PrintDir | BuiltinAction::Clear => {
            BuiltinResult::Continue(
                if done {
                    0
                } else {
                    1
                },
            )
        },
        BuiltinAction::Fail(_, s) => BuiltinResult::Continue(*s),
        BuiltinAction::Print(_) | BuiltinAction::ListEnv => BuiltinResult::Continue(0),
        BuiltinAction::Export(_, m) => BuiltinResult::Continue(
            if m.is_some() {
                2
            } else {
                0
            },
        ),
        BuiltinAction::Exit(s, _) => BuiltinResult::Exit(*s),
    }
}

// ───────────────────────── the script executor's builtins ─────────────────────────

/// What a builtin of the script executor leaves for the caller to do.
#[derive(Debug)]
pub enum ExecAction {
    /// Nothing more: this is the outcome.
    Outcome(ExecOutcome),
    /// Print the message on standard error; this is the outcome.
    Report(String, ExecOutcome),
    /// Print the text, with a newline where the flag says so (status 0, or
    /// 1 where writing fails).
    Echo(String, bool),
    /// Run `read` (see [`read`]).
    Read,
    /// Change to the directory, or to the home directory where there is
    /// none (status 0, or 1 where it fails).
    Cd(Option<String>),
    /// Print the current directory.
    Pwd,
    /// Set these environment variables in order; then, where there is a
    /// message, print it on standard error (status 1).
    Export(Vec<(String, String)>, Option<String>),
    /// Print the environment.
    ListEnv,
    /// The result of `test`.
    Test(TestResult),
    /// List the jobs, then drop the finished ones.
    Jobs,
    /// Resume the most recently stopped job in the foreground.
    Fg,
    /// Resume the most recently stopped job in the background.
    Bg,
    /// Print the aliases (see [`alias::list`]).
    ListAliases,
}

/// An action as values.
pub enum ExecView {
    Outcome(ExecOutcome),
    Report(Seq<char>, ExecOutcome),
    Echo(Seq<char>, bool),
    Read,
    Cd(Option<Seq<char>>),
    Pwd,
    Export(Seq<(Seq<char>, Seq<char>)>, Option<Seq<char>>),
    ListEnv,
    Test(TestView),
    Jobs,
    Fg,
    Bg,
    ListAliases,
}

impl ExecAction {
    pub open spec fn view(&self) -> ExecView {
        match self {
            ExecAction::Outcome(o) => ExecView::Outcome(*o),
            ExecAction::Report(m, o) => ExecView::Report(m@, *o),
            ExecAction::Echo(t, n) => ExecView::Echo(t@, *n),
            ExecAction::Read => ExecView::Read,
            ExecAction::Cd(d) => ExecView::Cd(opt_view(*d)),
            ExecAction::Pwd => ExecView::Pwd,
            ExecAction::Export(v, m) => ExecView::Export(pairs_view(v@), opt_view(*m)),
            ExecAction::ListEnv => ExecView::ListEnv,
            ExecAction::Test(t) => ExecView::Test(t.view()),
            ExecAction::Jobs => ExecView::Jobs,
            ExecAction::Fg => ExecView::Fg,
            ExecAction::Bg => ExecView::Bg,
            ExecAction::ListAliases => ExecView::ListAliases,
        }
    }
}

/// The command's name is `n`.
pub open spec fn name_is(args: Seq<Seq<char>>, n: Seq<char>) -> bool {
    args.len() > 0 && args[0] == n
}

/// The status `return` or `exit` takes from its operand: 0 where there is
/// none or it is no integer.
pub open spec fn code_of(args: Seq<Seq<char>>) -> i32 {
    if args.len() > 1 {
        match parse_i32_spec(args[1]) {
            Some(c) => c,
            None => 0,
        }
    } else {
        0
    }
}

/// `s` without the characters `c` at its start.
pub open spec fn trim_start_char(s: Seq<char>, c: char) -> Seq<char>
    decreases s.len(),
{
    if s.len() > 0 && s[0] == c {
        trim_start_char(s.drop_first(), c)
    } else {
        s
    }
}

/// `s` without the characters `c` at its end.
pub open spec fn trim_end_char(s: Seq<char>, c: char) -> Seq<char>
    decreases s.len(),
{
    if s.len() > 0 && s.last() == c {
        trim_end_char(s.drop_last(), c)
    } else {
        s
    }
}

/// An alias's value as it is stored: without surrounding single quotes,
/// then without surrounding double quotes.
pub open spec fn unquoted(s: Seq<char>) -> Seq<char> {
    let a = trim_end_char(trim_start_char(s, '\''), '\'');
    trim_end_char(trim_start_char(a, '"'), '"')
}

/// The text `echo` prints: its operands joined by spaces, after a leading
/// `-n`, which drops the newline.
pub open spec fn echo_view(args: Seq<Seq<char>>) -> ExecView {
    if args.len() > 1 && args[1] == "-n"@ {
        ExecView::Echo(join_words(args.subrange(2, args.len() as int)), false)
    } else {
        ExecView::Echo(join_words(args.subrange(1, args.len() as int)), true)
    }
}

/// The aliases after `alias` with the words `args`.
pub open spec fn alias_effect(aliases: Map<Seq<char>, Seq<char>>, args: Seq<Seq<char>>) -> Map<Seq<char>, Seq<char>> {
    if name_is(args, "alias"@) && args.len() >= 2 && first_at(args[1], '=', 0) is Some {
        let j = first_at(args[1], '=', 0)->0;
        aliases.insert(args[1].subrange(0, j), unquoted(args[1].subrange(j + 1, args[1].len() as int)))
    } else if name_is(args, "unalias"@) && args.len() >= 2 {
        aliases.remove(args[1])
    } else {
        aliases
    }
}

/// What the builtin named by `args[0]` does, or `None` where there is no
/// such builtin (`set` is none here: the executor runs it itself).
pub open spec fn exec_builtin(args: Seq<Seq<char>>, aliases: Map<Seq<char>, Seq<char>>) -> Option<ExecView> {
    if name_is(args, "alias"@) {
        if args.len() == 1 {
            Some(ExecView::ListAliases)
        } else if first_at(args[1], '=', 0) is Some {
            Some(ExecView::Outcome(ExecOutcome::Status(0)))
        } else {
            Some(ExecView::Report("alias: expected name=value"@, ExecOutcome::Status(1)))
        }
    } else if name_is(args, "unalias"@) {
        if args.len() >= 2 && aliases.contains_key(args[1]) {
            Some(ExecView::Outcome(ExecOutcome::Status(0)))
        } else {
            Some(ExecView::Report("unalias: not found"@, ExecOutcome::Status(1)))
        }
    } else {
        other_builtin(args)
    }
}

/// What a builtin other than `alias` and `unalias` does.
pub open spec fn other_builtin(args: Seq<Seq<char>>) -> Option<ExecView> {
    if name_is(args, "set"@) {
        None
    } else if name_is(args, "break"@) {
        Some(ExecView::Outcome(ExecOutcome::Break))
    } else if name_is(args, "continue"@) {
        Some(ExecView::Outcome(ExecOutcome::Continue))
    } else if name_is(args, "return"@) {
        Some(ExecView::Outcome(ExecOutcome::Return(code_of(args))))
    } else if name_is(args, "exit"@) {
        Some(ExecView::Outcome(ExecOutcome::Exit(code_of(args))))
    } else if name_is(args, "true"@) || name_is(args, ":"@) {
        Some(ExecView::Outcome(ExecOutcome::Status(0)))
    } else if name_is(args, "false"@) {
        Some(ExecView::Outcome(ExecOutcome::Status(1)))
    } else if name_is(args, "echo"@) {
        Some(echo_view(args))
    } else if name_is(args, "read"@) {
        Some(ExecView::Read)
    } else if name_is(args, "cd"@) {
        Some(ExecView::Cd(if args.len() < 2 || args[1] == "~"@ { None } else { Some(args[1]) }))
    } else if name_is(args, "pwd"@) {
        Some(ExecView::Pwd)
    } else if name_is(args, "export"@) {
        if args.len() == 1 {
            Some(ExecView::ListEnv)
        } else {
            Some(ExecView::Export(export_run(args, 1).0, export_run(args, 1).1))
        }
    } else if name_is(args, "test"@) || name_is(args, "["@) {
        Some(ExecView::Test(test_result(args)))
    } else if name_is(args, "jobs"@) {
        Some(ExecView::Jobs)
    } else if name_is(args, "fg"@) {
        Some(ExecView::Fg)
    } else if name_is(args, "bg"@) {
        Some(ExecView::Bg)
    } else {
        None
    }
}

/// `s` without the characters `c` at its start and end.
fn trim_char(s: &Vec<char>, lo: usize, hi: usize, c: char) -> (r: (usize, usize))
    requires
        lo <= hi <= s@.len(),
    ensures
        r.0 <= r.1 <= s@.len(),
        s@.subrange(r.0 as int, r.1 as int) == trim_end_char(
            trim_start_char(s@.subrange(lo as int, hi as int), c),
            c,
        ),
{
    let mut a = lo;
    while a < hi && s[a] == c
        invariant
            lo <= a <= hi <= s@.len(),
            trim_start_char(s@.subrange(a as int, hi as int), c) == trim_start_char(
                s@.subrange(lo as int, hi as int),
                c,
            ),
        decreases hi - a,
    {
        assert(s@.subrange(a as int, hi as int).drop_first() =~= s@.subrange(a + 1, hi as int));
        a = a + 1;
    }
    let mut b = hi;
    while b > a && s[b - 1] == c
        invariant
            lo <= a <= b <= hi <= s@.len(),
            trim_end_char(s@.subrange(a as int, b as int), c) == trim_end_char(
                s@.subrange(a as int, hi as int),
                c,
            ),
        decreases b,
    {
        assert(s@.subrange(a as int, b as int).drop_last() =~= s@.subrange(a as int, b - 1));
        b = b - 1;
    }
    (a, b)
}

/// The words `args[lo..]`, joined by spaces.
fn join_from(args: &[String], lo: usize) -> (r: String)
    requires
        lo <= args@.len(),
    ensures
        r@ == join_words(strings_view(args@).subrange(lo as int, args@.len() as int)),
{
    let ghost a = strings_view(args@);
    let mut words: Vec<String> = Vec::new();
    let mut i = lo;
    while i < args.len()
        invariant
            lo <= i <= args@.len(),
            a == strings_view(args@),
            strings_view(words@) == a.subrange(lo as int, i as int),
        decreases args@.len() - i,
    {
        let ghost before = strings_view(words@);
        words.push(copy_string(&args[i]));
        assert(strings_view(words@) =~= before.push(a[i as int]));
        i = i + 1;
        assert(strings_view(words@) =~= a.subrange(lo as int, i as int));
    }
    join_with_spaces(&words)
}

/// The status `return` or `exit` takes from its operand.
fn code_arg(args: &[String]) -> (c: i32)
    ensures
        c == code_of(strings_view(args@)),
{
    if args.len() > 1 {
        match parse_i32(args[1].as_str()) {
            Some(c) => c,
            None => 0,
        }
    } else {
        0
    }
}

/// Runs a builtin other than `alias`, `unalias` and `trap`.
fn other_builtins(args: &[String]) -> (r: Option<ExecAction>)
    requires
        args@.len() > 0,
    ensures
        match r {
            Some(a) => other_builtin(strings_view(args@)) == Some(a.view()),
            None => other_builtin(strings_view(args@)) is None,
        },
{
    let ghost a = strings_view(args@);
    let name = args[0].as_str();
    assert(a[0] == name@);
    if eq_str(name, "set") {
        None
    } else if eq_str(name, "break") {
        Some(ExecAction::Outcome(ExecOutcome::Break))
    } else if eq_str(name, "continue") {
        Some(ExecAction::Outcome(ExecOutcome::Continue))
    } else if eq_str(name, "return") {
        Some(ExecAction::Outcome(ExecOutcome::Return(code_arg(args))))
    } else if eq_str(name, "exit") {
        Some(ExecAction::Outcome(ExecOutcome::Exit(code_arg(args))))
    } else if eq_str(name, "true") || eq_str(name, ":") {
        Some(ExecAction::Outcome(ExecOutcome::Status(0)))
    } else if eq_str(name, "false") {
        Some(ExecAction::Outcome(ExecOutcome::Status(1)))
    } else if eq_str(name, "echo") {
        if args.len() > 1 && eq_str(args[1].as_str(), "-n") {
            Some(ExecAction::Echo(join_from(args, 2), false))
        } else {
            Some(ExecAction::Echo(join_from(args, 1), true))
        }
    } else if eq_str(name, "read") {
        Some(ExecAction::Read)
    } else if eq_str(name, "cd") {
        if args.len() < 2 || eq_str(args[1].as_str(), "~") {
            Some(ExecAction::Cd(None))
        } else {
            Some(ExecAction::Cd(Some(copy_string(&args[1]))))
        }
    } else if eq_str(name, "pwd") {
        Some(ExecAction::Pwd)
    } else if eq_str(name, "export") {
        if args.len() == 1 {
            Some(ExecAction::ListEnv)
        } else {
            let (pairs, err) = export_pairs(args, 1);
            Some(ExecAction::Export(pairs, err))
        }
    } else if eq_str(name, "test") || eq_str(name, "[") {
        Some(ExecAction::Test(execute_test(args)))
    } else if eq_str(name, "jobs") {
        Some(ExecAction::Jobs)
    } else if eq_str(name, "fg") {
        Some(ExecAction::Fg)
    } else if eq_str(name, "bg") {
        Some(ExecAction::Bg)
    } else {
        None
    }
}

/// Runs the builtin named by `args[0]` as far as it is the shell's own
/// logic: `alias`, `unalias` and `trap` change `aliases` and `traps`; for
/// the others the action says what is left to do. `None` where the command
/// is no builtin.
pub fn try_execute(args: &[String], aliases: &mut VarTable, traps: &mut VarTable) -> (r: Option<ExecAction>)
    ensures
        !name_is(strings_view(args@), "trap"@) ==> match r {
            Some(a) => exec_builtin(strings_view(args@), old(aliases).view()) == Some(a.view()),
            None => exec_builtin(strings_view(args@), old(aliases).view()) is None,
        },
        !name_is(strings_view(args@), "trap"@) ==> final(traps).view() == old(traps).view(),
        final(aliases).view() == alias_effect(old(aliases).view(), strings_view(args@)),
        name_is(strings_view(args@), "trap"@) ==> (args@.len() < 3 ==> final(traps).view() == old(traps).view()
            && (r matches Some(ExecAction::Report(m, ExecOutcome::Status(s))) && s == 2 && m@
            == "trap: usage: trap COMMAND SIGNAL"@)) && (args@.len() >= 3 ==> final(traps).view()
            == trap::with_traps(
            old(traps).view(),
            args@[1]@,
            strings_view(args@).skip(2).map_values(|s: Seq<char>| trap::signal_key(s)),
        ) && (r matches Some(ExecAction::Outcome(ExecOutcome::Status(s))) && s == 0)),
{
    let ghost a = strings_view(args@);
    if args.len() == 0 {
        return None;
    }
    let name = args[0].as_str();
    assert(a[0] == name@);
    if eq_str(name, "trap") {
        proof {
            reveal_strlit("trap");
            reveal_strlit("alias");
            reveal_strlit("unalias");
            assert("trap"@.len() == 4);
            assert(!name_is(a, "alias"@));
            assert(!name_is(a, "unalias"@));
        }
        let (status, msg) = trap::execute(args, traps);
        return match msg {
            Some(m) => Some(ExecAction::Report(m, ExecOutcome::Status(status))),
            None => Some(ExecAction::Outcome(ExecOutcome::Status(status))),
        };
    }
    if eq_str(name, "alias") {
        proof {
            reveal_strlit("alias");
            reveal_strlit("unalias");
            assert(!name_is(a, "unalias"@));
        }
        if args.len() == 1 {
            return Some(ExecAction::ListAliases);
        }
        let d = str_chars(args[1].as_str());
        proof {
            lemma_first_at(d@, '=', 0);
        }
        match find_char(&d, '=', 0) {
            Some(j) => {
                let dl = d.len();
                assert(j < dl);
                let key = string_from_range(&d, 0, j);
                let (a1, b1) = trim_char(&d, j + 1, dl, '\'');
                let (a2, b2) = trim_char(&d, a1, b1, '"');
                let value = string_from_range(&d, a2, b2);
                alias::set(aliases, key.as_str(), value.as_str());
                Some(ExecAction::Outcome(ExecOutcome::Status(0)))
            },
            None => Some(
                ExecAction::Report(
                    String::from_str("alias: expected name=value"),
                    ExecOutcome::Status(1),
                ),
            ),
        }
    } else if eq_str(name, "unalias") {
        let removed = if args.len() >= 2 {
            alias::remove(aliases, args[1].as_str())
        } else {
            false
        };
        if removed {
            Some(ExecAction::Outcome(ExecOutcome::Status(0)))
        } else {
            Some(ExecAction::Report(String::from_str("unalias: not found"), ExecOutcome::Status(1)))
        }
    } else {
        other_builtins(args)
    }
}

} // verus!
