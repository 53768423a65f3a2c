use mitos::builtins::test::{bool_to_status, execute_test, FileCheck, TestResult};
use mitos::builtins::{alias, eval, read, trap};
use mitos::builtins::{execute, result_of, try_execute, BuiltinAction, BuiltinResult, ExecAction};
use mitos::config::options::ShellOptions;
use mitos::outcome::ExecOutcome;
use mitos::vars::VarTable;

fn strings(v: &[&str]) -> Vec<String> {
    v.iter().map(|x| x.to_string()).collect()
}

#[test]
fn alias_set_get_remove() {
    let mut a = VarTable::new();
    assert_eq!(alias::get(&a, "ll"), None);
    alias::set(&mut a, "ll", "ls -l");
    assert_eq!(alias::get(&a, "ll"), Some("ls -l".to_string()));
    alias::set(&mut a, "ll", "ls -la");
    assert_eq!(alias::get(&a, "ll"), Some("ls -la".to_string()));
    assert!(alias::remove(&mut a, "ll"));
    assert!(!alias::remove(&mut a, "ll"));
    assert_eq!(alias::get(&a, "ll"), None);
}

#[test]
fn alias_expansion_chains_and_stops_on_cycles() {
    let mut a = VarTable::new();
    alias::set(&mut a, "l", "ll -h");
    alias::set(&mut a, "ll", "ls -l");
    assert_eq!(alias::expand(&a, "l  /tmp"), "ls -l -h /tmp");
    alias::set(&mut a, "x", "y 1");
    alias::set(&mut a, "y", "x 2");
    assert_eq!(alias::expand(&a, "x"), "x 2 1");
    assert_eq!(alias::expand(&a, "   "), "   ");
    assert_eq!(alias::expand(&a, "echo  x"), "echo x");
    alias::set(&mut a, "nothing", "");
    assert_eq!(alias::expand(&a, "nothing"), "");
}

#[test]
fn alias_list_shows_each_alias_once() {
    let mut a = VarTable::new();
    alias::set(&mut a, "ll", "ls -l");
    alias::set(&mut a, "g", "git");
    let mut lines = alias::list(&a);
    lines.sort();
    assert_eq!(lines, strings(&["alias g='git'", "alias ll='ls -l'"]));
}

#[test]
fn eval_joins_its_operands() {
    assert_eq!(eval::execute(&strings(&["eval"])), None);
    assert_eq!(eval::execute(&strings(&["eval", "echo", "a b"])), Some("echo a b".to_string()));
}

#[test]
fn set_switches_options_in_order() {
    let mut o = ShellOptions::default();
    assert_eq!(mitos::builtins::set::execute(&strings(&["set", "-e", "-u", "-x"]), &mut o), (0, None));
    assert!(o.errexit && o.nounset && o.xtrace);
    assert_eq!(mitos::builtins::set::execute(&strings(&["set", "+e", "-q", "+x"]), &mut o), (2, Some("set: invalid option: -q".to_string())));
    assert!(!o.errexit && o.nounset && o.xtrace);
    assert_eq!(mitos::builtins::set::execute(&strings(&["set"]), &mut o), (0, None));
}

#[test]
fn trap_registers_normalized_signal_names() {
    let mut traps = VarTable::new();
    assert_eq!(
        trap::execute(&strings(&["trap", "cmd"]), &mut traps),
        (2, Some("trap: usage: trap COMMAND SIGNAL".to_string()))
    );
    assert_eq!(traps.len(), 0);
    assert_eq!(trap::execute(&strings(&["trap", "echo bye", "SIGINT", "term", "sighup"]), &mut traps), (0, None));
    assert_eq!(traps.get("INT"), Some("echo bye".to_string()));
    assert_eq!(traps.get("TERM"), Some("echo bye".to_string()));
    assert_eq!(traps.get("SIGHUP"), Some("echo bye".to_string()));
    assert_eq!(traps.len(), 3);
}

#[test]
fn test_builtin_conditions() {
    let t = |v: &[&str]| execute_test(&strings(v));
    assert!(matches!(t(&["test"]), TestResult::Status(1)));
    assert!(matches!(t(&["test", "x"]), TestResult::Status(0)));
    assert!(matches!(t(&["test", ""]), TestResult::Status(1)));
    assert!(matches!(t(&["test", "-z", ""]), TestResult::Status(0)));
    assert!(matches!(t(&["test", "-n", ""]), TestResult::Status(1)));
    assert!(matches!(t(&["[", "a", "=", "a", "]"]), TestResult::Status(0)));
    assert!(matches!(t(&["[", "a", "!=", "a", "]"]), TestResult::Status(1)));
    assert!(matches!(t(&["test", "10", "-gt", "9"]), TestResult::Status(0)));
    assert!(matches!(t(&["test", "x", "-eq", "0"]), TestResult::Status(0)));
    assert!(matches!(t(&["test", "-2", "-le", "-3"]), TestResult::Status(1)));
    assert!(matches!(t(&["test", "-f", "/etc/passwd"]), TestResult::Check(FileCheck::IsFile, ref p) if p == "/etc/passwd"));
    assert!(matches!(t(&["test", "-d", "/tmp"]), TestResult::Check(FileCheck::IsDir, _)));
    assert!(matches!(t(&["test", "-x", "f"]), TestResult::Check(FileCheck::Exists, _)));
    assert!(matches!(t(&["[", "x"]), TestResult::Error(ref m) if m == "[: missing ']'"));
    assert!(matches!(t(&["test", "-q", "x"]), TestResult::Error(ref m) if m == "test: unknown unary operator -q"));
    assert!(matches!(t(&["test", "a", "~", "b"]), TestResult::Error(ref m) if m == "test: unknown binary operator ~"));
    assert!(matches!(t(&["test", "a", "b", "c", "d"]), TestResult::Error(ref m) if m == "test: too many arguments or invalid syntax"));
    assert_eq!(bool_to_status(true), 0);
    assert_eq!(bool_to_status(false), 1);
}

#[test]
fn read_builtin_parses_options() {
    let r = read::parse_args(&strings(&["read", "-s", "-p", "Name: ", "-r", "a", "b"])).unwrap();
    assert_eq!(r.prompt, Some("Name: ".to_string()));
    assert!(r.silent && r.raw);
    assert_eq!(r.vars, strings(&["a", "b"]));
    let d = read::parse_args(&strings(&["read", "--", "-x"])).unwrap();
    assert_eq!(d.vars, strings(&["-x"]));
    let reply = read::parse_args(&strings(&["read"])).unwrap();
    assert_eq!(reply.vars, strings(&["REPLY"]));
    assert!(matches!(read::parse_args(&strings(&["read", "-p"])), Err(ref m) if m == "read: -p requires an argument"));
    assert!(matches!(read::parse_args(&strings(&["read", "-z"])), Err(ref m) if m == "read: invalid option: -z"));
    assert_eq!(read::parse_args(&strings(&["read", "-", "v"])).unwrap().vars, strings(&["-", "v"]));
}

#[test]
fn read_builtin_assigns_words() {
    let pairs = read::assign_variables(&strings(&["a", "b", "c"]), " one two three four ");
    assert_eq!(
        pairs,
        vec![
            ("a".to_string(), "one".to_string()),
            ("b".to_string(), "two".to_string()),
            ("c".to_string(), "three four".to_string()),
        ]
    );
    let short = read::assign_variables(&strings(&["a", "b", "c"]), "x");
    assert_eq!(short[1].1, "");
    assert_eq!(short[2].1, "");
    let one = read::assign_variables(&strings(&["line"]), "  keep  spaces ");
    assert_eq!(one, vec![("line".to_string(), "  keep  spaces ".to_string())]);
    assert_eq!(read::trim_line("text\r\n\n"), "text");
}

#[test]
fn read_builtin_finishes_by_outcome() {
    let vars = strings(&["v"]);
    let (a, s, m) = read::finish(&vars, read::ReadInput::Line("hello\n".to_string()));
    assert_eq!((a, s, m), (vec![("v".to_string(), "hello".to_string())], 0, None));
    let (a, s, m) = read::finish(&vars, read::ReadInput::Eof);
    assert_eq!((a, s, m), (vec![("v".to_string(), String::new())], 1, None));
    let (a, s, m) = read::finish(&vars, read::ReadInput::Failed("broken pipe".to_string()));
    assert_eq!((a.len(), s, m), (0, 1, Some("read: broken pipe".to_string())));
}

fn env_home() -> VarTable {
    let mut env = VarTable::new();
    env.set("HOME", "/home/u".to_string());
    env
}

#[test]
fn line_shell_builtins_decide() {
    let env = env_home();
    let none: Vec<String> = Vec::new();
    assert!(matches!(execute("cd", &none, 0, &env), BuiltinAction::ChangeDir(ref p) if p == "/home/u"));
    assert!(matches!(execute("cd", &strings(&["~/src"]), 0, &env), BuiltinAction::ChangeDir(ref p) if p == "/home/u/src"));
    assert!(matches!(execute("cd", &strings(&["~//abs"]), 0, &env), BuiltinAction::ChangeDir(ref p) if p == "/abs"));
    assert!(matches!(execute("cd", &strings(&["-"]), 0, &env), BuiltinAction::Fail(ref m, 1) if m == "cd: OLDPWD not set"));
    assert!(matches!(execute("cd", &strings(&["dir"]), 0, &VarTable::new()), BuiltinAction::ChangeDir(ref p) if p == "dir"));
    assert!(matches!(execute("cd", &none, 0, &VarTable::new()), BuiltinAction::ChangeDir(ref p) if p == "/"));
    assert!(matches!(execute("echo", &strings(&["a", "b"]), 0, &env), BuiltinAction::Print(ref t) if t == "a b"));
    assert!(matches!(execute("pwd", &none, 0, &env), BuiltinAction::PrintDir));
    assert!(matches!(execute("export", &none, 0, &env), BuiltinAction::ListEnv));
    match execute("export", &strings(&["A=1", "B=x=y", "bad", "C=3"]), 0, &env) {
        BuiltinAction::Export(pairs, Some(m)) => {
            assert_eq!(pairs, vec![("A".to_string(), "1".to_string()), ("B".to_string(), "x=y".to_string())]);
            assert_eq!(m, "export: invalid assignment: bad");
        }
        other => panic!("unexpected {:?}", other),
    }
    assert!(matches!(execute("export", &strings(&["=v"]), 0, &env), BuiltinAction::Export(ref p, Some(ref m)) if p.is_empty() && m == "export: empty variable name"));
    assert!(matches!(execute("exit", &none, 7, &env), BuiltinAction::Exit(7, None)));
    assert!(matches!(execute("exit", &strings(&["3"]), 7, &env), BuiltinAction::Exit(3, None)));
    assert!(matches!(execute("exit", &strings(&["x"]), 7, &env), BuiltinAction::Exit(2, Some(ref m)) if m == "exit: numeric argument required"));
    assert!(matches!(execute("clear", &none, 0, &env), BuiltinAction::Clear));
    assert!(matches!(execute("help", &none, 0, &env), BuiltinAction::Print(ref t) if t.starts_with("MITOS Shell\n")));
    assert!(matches!(execute("ls", &none, 0, &env), BuiltinAction::NotBuiltin));
}

#[test]
fn line_shell_builtin_results() {
    let env = env_home();
    let none: Vec<String> = Vec::new();
    assert_eq!(result_of(&execute("cd", &none, 0, &env), true), BuiltinResult::Continue(0));
    assert_eq!(result_of(&execute("cd", &none, 0, &env), false), BuiltinResult::Continue(1));
    assert_eq!(result_of(&execute("cd", &strings(&["-"]), 0, &env), true), BuiltinResult::Continue(1));
    assert_eq!(result_of(&execute("export", &strings(&["bad"]), 0, &env), true), BuiltinResult::Continue(2));
    assert_eq!(result_of(&execute("exit", &none, 4, &env), true), BuiltinResult::Exit(4));
    assert_eq!(result_of(&execute("true", &none, 0, &env), true), BuiltinResult::NotBuiltin);
}

#[test]
fn executor_builtins_decide() {
    let mut aliases = VarTable::new();
    let mut traps = VarTable::new();
    let mut run = |v: &[&str]| try_execute(&strings(v), &mut aliases, &mut traps);
    assert!(matches!(run(&["break"]), Some(ExecAction::Outcome(ExecOutcome::Break))));
    assert!(matches!(run(&["continue"]), Some(ExecAction::Outcome(ExecOutcome::Continue))));
    assert!(matches!(run(&["return", "3"]), Some(ExecAction::Outcome(ExecOutcome::Return(3)))));
    assert!(matches!(run(&["return", "x"]), Some(ExecAction::Outcome(ExecOutcome::Return(0)))));
    assert!(matches!(run(&["exit"]), Some(ExecAction::Outcome(ExecOutcome::Exit(0)))));
    assert!(matches!(run(&["set", "-e"]), None));
    assert!(matches!(run(&[":"]), Some(ExecAction::Outcome(ExecOutcome::Status(0)))));
    assert!(matches!(run(&["false"]), Some(ExecAction::Outcome(ExecOutcome::Status(1)))));
    assert!(matches!(run(&["echo", "-n", "a", "b"]), Some(ExecAction::Echo(ref t, false)) if t == "a b"));
    assert!(matches!(run(&["echo", "a"]), Some(ExecAction::Echo(ref t, true)) if t == "a"));
    assert!(matches!(run(&["read", "x"]), Some(ExecAction::Read)));
    assert!(matches!(run(&["cd"]), Some(ExecAction::Cd(None))));
    assert!(matches!(run(&["cd", "~"]), Some(ExecAction::Cd(None))));
    assert!(matches!(run(&["cd", "/tmp"]), Some(ExecAction::Cd(Some(ref d))) if d == "/tmp"));
    assert!(matches!(run(&["pwd"]), Some(ExecAction::Pwd)));
    assert!(matches!(run(&["export"]), Some(ExecAction::ListEnv)));
    assert!(matches!(run(&["export", "A=1"]), Some(ExecAction::Export(ref p, None)) if p.len() == 1));
    assert!(matches!(run(&["[", "a", "]"]), Some(ExecAction::Test(TestResult::Status(0)))));
    assert!(matches!(run(&["jobs"]), Some(ExecAction::Jobs)));
    assert!(matches!(run(&["fg"]), Some(ExecAction::Fg)));
    assert!(matches!(run(&["bg"]), Some(ExecAction::Bg)));
    assert!(matches!(run(&["alias"]), Some(ExecAction::ListAliases)));
    assert!(matches!(run(&["alias", "ll='ls -l'"]), Some(ExecAction::Outcome(ExecOutcome::Status(0)))));
    assert!(matches!(run(&["alias", "oops"]), Some(ExecAction::Report(ref m, ExecOutcome::Status(1))) if m == "alias: expected name=value"));
    assert!(matches!(run(&["unalias", "nope"]), Some(ExecAction::Report(ref m, ExecOutcome::Status(1))) if m == "unalias: not found"));
    assert!(matches!(run(&["trap", "x"]), Some(ExecAction::Report(_, ExecOutcome::Status(2)))));
    assert!(matches!(run(&["trap", "echo", "EXIT"]), Some(ExecAction::Outcome(ExecOutcome::Status(0)))));
    assert!(matches!(run(&["ls"]), None));
    assert!(matches!(run(&[]), None));
    drop(run);
    assert_eq!(alias::get(&aliases, "ll"), Some("ls -l".to_string()));
    assert_eq!(traps.get("EXIT"), Some("echo".to_string()));
    let mut again = try_execute(&strings(&["unalias", "ll"]), &mut aliases, &mut traps);
    assert!(matches!(again.take(), Some(ExecAction::Outcome(ExecOutcome::Status(0)))));
    assert_eq!(alias::get(&aliases, "ll"), None);
}

#[test]
fn exec_outcome_status() {
    assert_eq!(ExecOutcome::Status(3).status_or_zero(), 3);
    assert_eq!(ExecOutcome::Return(4).status_or_zero(), 4);
    assert_eq!(ExecOutcome::Exit(5).status_or_zero(), 5);
    assert_eq!(ExecOutcome::Break.status_or_zero(), 0);
    assert_eq!(ExecOutcome::Eval("x".to_string()).status_or_zero(), 0);
}
