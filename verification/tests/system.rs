use mitos::execution::control::{after_sourced_line, pattern_selects};
use mitos::authentication::shadow_hash;
use mitos::completion::engine::{
    complete_commands, complete_files, complete_variables, extract_word, file_candidate,
    has_prefix, sort_candidates, split_path, text_no_later, Candidate, CompletionRequest,
    MitosCompleter,
};
use mitos::completion::helper::{is_complete, MitosHelper};
use mitos::config::startup::{files, startup_files};
use mitos::builtins::ExecAction;
use mitos::execution::command::SimpleCommand;
use mitos::execution::control::{
    pipeline_finish, pipeline_start, pipeline_step, PipelineStep, ResolvedAssignment,
};
use mitos::execution::pipeline::stages_done;
use mitos::execution::control::{
    after_and_or_left, after_for_body, after_if_condition, after_sequence_left, after_while_body,
    after_while_condition, case_branch, command_kind, function_outcome, special_command, top_level,
    CommandKind, ForStep, IfStep, ListOp, ListStep, LoopStep, Special, TopLevel,
};
use mitos::execution::pipeline::{
    job_description, pipeline_outcome, record_stopped, signal_response, stage_pipes, trace_line,
    wait_result, StageEnd,
};
use mitos::execution::executor::Executor;
use mitos::execution::read::{parse_read_options, read_assignment, ReadAssignment};
use mitos::outcome::ExecOutcome;
use mitos::parser::{self, RedirOp};
use mitos::permissions::client::PendingRequests;
use mitos::permissions::protocol::{
    frame, frame_len, GrantScope, PermissionRequest, RiskLevel, ServiceToShell, ShellToService,
};
use mitos::process::job::{job_lines, JobStatus, JobTable};
use mitos::process::job_control::JobControl;
use mitos::process::{executable_candidates, exit_status, pipeline_status, redirect_plan, OpenMode};
use mitos::shell::{background_notice, prompt, NodeStep, Shell};
use mitos::expansion::arithmetic::evaluate;
use mitos::text::{parse_i32, parse_i64, parse_u64, parse_usize};
use mitos::vars::VarTable;
use mitos::builtins::permission;

fn strings(v: &[&str]) -> Vec<String> {
    v.iter().map(|x| x.to_string()).collect()
}

fn displays(v: &[Candidate]) -> Vec<String> {
    v.iter().map(|c| c.display.clone()).collect()
}

fn replacements(v: &[Candidate]) -> Vec<String> {
    v.iter().map(|c| c.replacement.clone()).collect()
}

#[test]
fn job_table_gives_fresh_ids_and_cleans_up() {
    let mut t = JobTable::new();
    assert_eq!(t.add(100, "sleep 1".to_string()), 1);
    assert_eq!(t.add(200, "sleep 2".to_string()), 2);
    assert_eq!(t.add(300, "sleep 3".to_string()), 3);
    t.update_status(200, JobStatus::Stopped);
    t.update_status(100, JobStatus::Exited(0));
    t.update_status(999, JobStatus::Exited(1));
    assert_eq!(t.last_stopped(), Some(1));
    assert_eq!(
        job_lines(&t),
        strings(&["[1]  Done  sleep 1", "[2]  Stopped  sleep 2", "[3]  Running  sleep 3"])
    );
    t.cleanup_finished();
    assert_eq!(t.len(), 2);
    assert_eq!(t.job(0).id, 2);
    t.cleanup_finished();
    assert_eq!(t.len(), 2);
    assert_eq!(t.add(400, "x".to_string()), 4);
    t.set_status(0, JobStatus::Signaled(9));
    assert_eq!(t.last_stopped(), None);
}

#[test]
fn job_control_picks_the_process_group() {
    assert_eq!(JobControl::group_for(0, 42), 42);
    assert_eq!(JobControl::group_for(7, 42), 7);
}

#[test]
fn frames_carry_their_length() {
    let payload = vec![1u8, 2, 3];
    let f = frame(&payload);
    assert_eq!(f, vec![3, 0, 0, 0, 1, 2, 3]);
    assert_eq!(frame_len([f[0], f[1], f[2], f[3]]), 3);
    let big = vec![0u8; 300];
    let g = frame(&big);
    assert_eq!(&g[..4], &[44, 1, 0, 0]);
    assert_eq!(frame_len([g[0], g[1], g[2], g[3]]), 300);
    assert_eq!(frame_len([0xff, 0xff, 0xff, 0xff]), 4294967295);
}

fn request(id: u64, app: &str, risk: RiskLevel) -> PermissionRequest {
    PermissionRequest { id, app_name: app.to_string(), action: "use camera".to_string(), risk }
}

#[test]
fn pending_requests_follow_the_daemon_and_the_user() {
    let mut p = PendingRequests::new();
    let n = p.handle(ServiceToShell::Request(request(7, "cam", RiskLevel::Ask)));
    assert_eq!(n, "\n[permission] cam wants: use camera -- type `allow 7` or `deny 7`\n");
    let c = p.handle(ServiceToShell::Request(request(8, "bank", RiskLevel::Critical)));
    assert_eq!(c, "\n[permission] ignoring a CRITICAL request from bank (needs mitos-session)\n");
    assert_eq!(p.list_pending().len(), 1);
    assert!(matches!(
        p.resolve(7, true, GrantScope::Session),
        Some(ShellToService::Decision { id: 7, allow: true, scope: GrantScope::Session })
    ));
    assert!(p.resolve(7, true, GrantScope::Once).is_none());
    p.handle(ServiceToShell::Request(request(9, "mic", RiskLevel::Ask)));
    let r = p.handle(ServiceToShell::AlreadyResolved { id: 9 });
    assert_eq!(r, "\n[permission] request 9 was already resolved\n");
    assert_eq!(p.list_pending().len(), 0);
}

#[test]
fn permission_builtins() {
    let mut p = PendingRequests::new();
    assert_eq!(permission::list(&p), strings(&["No pending permission requests."]));
    p.handle(ServiceToShell::Request(request(5, "cam", RiskLevel::Ask)));
    p.handle(ServiceToShell::Request(request(6, "mic", RiskLevel::Ask)));
    let mut lines = permission::list(&p);
    lines.sort();
    assert_eq!(lines, strings(&["[5] cam wants: use camera", "[6] mic wants: use camera"]));
    let (s, m, d) = permission::allow(&mut p, &strings(&["allow"]));
    assert_eq!((s, m, d.is_none()), (1, Some("allow: usage: allow <id> [once|session]".to_string()), true));
    let (s, m, _) = permission::allow(&mut p, &strings(&["allow", "5", "forever"]));
    assert_eq!((s, m), (1, Some("allow: unknown scope 'forever' (expected once|session)".to_string())));
    let (s, m, d) = permission::allow(&mut p, &strings(&["allow", "5", "session"]));
    assert_eq!((s, m), (0, None));
    assert!(matches!(d, Some(ShellToService::Decision { id: 5, allow: true, scope: GrantScope::Session })));
    let (s, m, _) = permission::allow(&mut p, &strings(&["allow", "5"]));
    assert_eq!((s, m), (1, Some("allow: no pending permission request with id 5".to_string())));
    let (s, _, d) = permission::deny(&mut p, &strings(&["deny", "6"]));
    assert_eq!(s, 0);
    assert!(matches!(d, Some(ShellToService::Decision { id: 6, allow: false, scope: GrantScope::Once })));
    let (s, m, _) = permission::deny(&mut p, &strings(&["deny", "x"]));
    assert_eq!((s, m), (1, Some("deny: usage: deny <id>".to_string())));
    let (s, m, _) = permission::deny(&mut p, &strings(&["deny", "6"]));
    assert_eq!((s, m), (1, Some("deny: no pending permission request with id 6".to_string())));
}

fn run_line(line: &str, statuses_of: &dyn Fn(&str) -> i32) -> (Vec<String>, i32) {
    let node = parser::parse(line).unwrap();
    let shell = Shell::new();
    let mut statuses = Vec::new();
    let mut ran = Vec::new();
    loop {
        match shell.execute_node(&node, &statuses) {
            NodeStep::Run(p) => {
                let name = p.commands[0].args[0].clone();
                statuses.push(statuses_of(&name));
                ran.push(name);
            }
            NodeStep::Done(s) => return (ran, s),
        }
    }
}

#[test]
fn shell_runs_lists_by_status() {
    let status = |name: &str| if name == "false" { 1 } else { 0 };
    assert_eq!(run_line("true && echo", &status), (strings(&["true", "echo"]), 0));
    assert_eq!(run_line("false && echo", &status), (strings(&["false"]), 1));
    assert_eq!(run_line("false || echo", &status), (strings(&["false", "echo"]), 0));
    assert_eq!(run_line("true || echo", &status), (strings(&["true"]), 0));
    assert_eq!(run_line("false ; true", &status), (strings(&["false", "true"]), 0));
    assert_eq!(run_line("false && a || b", &status), (strings(&["false", "b"]), 0));
}

#[test]
fn shell_records_foreground_statuses() {
    let mut shell = Shell::new();
    assert_eq!(shell.last_status(), 0);
    assert_eq!(shell.finish_pipeline(false, 3), 3);
    assert_eq!(shell.last_status(), 3);
    assert_eq!(shell.finish_pipeline(true, 5), 0);
    assert_eq!(shell.last_status(), 3);
}

#[test]
fn shell_expands_variables_and_marks_patterns() {
    let mut shell = Shell::new();
    shell.finish_pipeline(false, 42);
    let mut env = VarTable::new();
    env.set("USER", "me".to_string());
    assert_eq!(shell.expand_variables("$? $USER $NOPE $ a$", &env), "42 me  $ a$");
    let fields = shell.expand_args(&strings(&["$USER", "*.txt"]), &env);
    assert_eq!(fields[0].text, "me");
    assert!(!fields[0].pattern);
    assert!(fields[1].pattern);
}

#[test]
fn shell_prompt_and_background_notice() {
    assert_eq!(prompt("/home/u/src", "/home/u"), "\x1b[1;34mMITOS\x1b[0m \x1b[1;32m~/src\x1b[0m > ");
    assert_eq!(prompt("/etc", "/home/u"), "\x1b[1;34mMITOS\x1b[0m \x1b[1;32m/etc\x1b[0m > ");
    assert_eq!(prompt("/etc", ""), "\x1b[1;34mMITOS\x1b[0m \x1b[1;32m/etc\x1b[0m > ");
    match parser::parse("sleep 5 &").unwrap() {
        parser::Node::Pipeline(p) => assert_eq!(background_notice(&p), "[1] sleep 5 &"),
        _ => panic!("expected pipeline"),
    }
}

#[test]
fn completion_finds_the_word_and_what_to_complete() {
    assert_eq!(extract_word("ls fo", 5), (3, "fo".to_string()));
    assert_eq!(extract_word("a|b", 3), (2, "b".to_string()));
    let c = MitosCompleter;
    assert!(matches!(c.request("ec", 2), (0, CompletionRequest::CommandsAndFiles(ref w)) if w == "ec"));
    assert!(matches!(c.request("ls sr", 5), (3, CompletionRequest::CommandsAndFiles(ref w)) if w == "sr"));
    assert!(matches!(c.request("ls -l sr", 8), (6, CompletionRequest::Files(ref w)) if w == "sr"));
    assert!(matches!(c.request("ls -l | gr", 10), (8, CompletionRequest::CommandsAndFiles(ref w)) if w == "gr"));
    assert!(matches!(c.request("echo $HO", 8), (5, CompletionRequest::Variables(ref w)) if w == "HO"));
}

#[test]
fn completion_candidates() {
    assert_eq!(complete_variables(&strings(&["HOME", "PATH", "HOST"]), "HO"), strings(&["$HOME", "$HOST"]));
    assert_eq!(displays(&complete_commands(&strings(&["lsblk", "ls", "cat", "ls"]), "ls")), strings(&["ls", "lsblk"]));
    assert_eq!(split_path("src/ma"), ("src/".to_string(), "ma".to_string()));
    assert_eq!(split_path("ma"), (String::new(), "ma".to_string()));
    assert_eq!(file_candidate("src//", "main.rs", false), "src/main.rs");
    assert_eq!(file_candidate("", "docs", true), "docs/");
    assert!(has_prefix("lsblk", "ls"));
    assert!(!has_prefix("l", "ls"));
}

#[test]
fn completeness_check() {
    let h = MitosHelper;
    assert!(h.is_complete("echo hi"));
    assert!(!is_complete("echo hi |"));
    assert!(!is_complete("a &&  "));
    assert!(!is_complete("echo \\"));
    assert!(!is_complete("if true"));
    assert!(is_complete("if true; then x; fi"));
    assert!(!is_complete("for x in a; do"));
    assert!(!is_complete("{ echo"));
    assert!(!is_complete("echo 'open"));
    assert!(is_complete("echo \"it's\""));
    assert!(is_complete("echo \\'"));
}

#[test]
fn executable_candidates_follow_path() {
    assert_eq!(executable_candidates("./run", Some("/bin".to_string())), strings(&["./run"]));
    assert_eq!(
        executable_candidates("ls", Some("/usr/bin:/bin/::x".to_string())),
        strings(&["/usr/bin/ls", "/bin/ls", "ls", "x/ls"])
    );
    assert_eq!(executable_candidates("ls", None), Vec::<String>::new());
}

#[test]
fn redirections_and_statuses() {
    let p = redirect_plan(RedirOp::In);
    assert!(p.stdin && !p.stdout && p.required && p.mode == OpenMode::Read);
    let p = redirect_plan(RedirOp::AllApp);
    assert!(p.stdout && p.stderr && !p.required && p.mode == OpenMode::Append);
    assert_eq!(redirect_plan(RedirOp::Out).mode, OpenMode::Truncate);
    assert_eq!(exit_status(Some(3)), 3);
    assert_eq!(exit_status(None), 1);
    assert_eq!(pipeline_status(&vec![Some(Some(2)), None, Some(None), None]), 1);
    assert_eq!(pipeline_status(&vec![None]), 0);
}

#[test]
fn executor_read_options_and_assignment() {
    let o = parse_read_options(&strings(&["read", "-p", "> ", "-t", "2.5", "-d", ",", "-s", "a", "b"]));
    assert_eq!(o.prompt, Some("> ".to_string()));
    assert_eq!(o.timeouts, strings(&["2.5"]));
    assert_eq!(o.delim, b',');
    assert!(o.silent);
    assert_eq!(o.vars, strings(&["a", "b"]));
    let e = parse_read_options(&strings(&["read", "-d", "é", "-a", "arr"]));
    assert_eq!(e.delim, 0xC3);
    assert_eq!(e.array, Some("arr".to_string()));
    match read_assignment(&e, "x y\r\r") {
        ReadAssignment::Array(name, words) => {
            assert_eq!(name, "arr");
            assert_eq!(words, strings(&["x", "y"]));
        }
        _ => panic!("expected array"),
    }
    match read_assignment(&o, "one two three") {
        ReadAssignment::Vars(p) => assert_eq!(
            p,
            vec![("a".to_string(), "one".to_string()), ("b".to_string(), "two three".to_string())]
        ),
        _ => panic!("expected variables"),
    }
    let reply = parse_read_options(&strings(&["read", "--", "-p"]));
    assert_eq!(reply.vars, strings(&["-p"]));
    let none = parse_read_options(&strings(&["read"]));
    match read_assignment(&none, " raw line ") {
        ReadAssignment::Vars(p) => assert_eq!(p, vec![("REPLY".to_string(), " raw line ".to_string())]),
        _ => panic!("expected variables"),
    }
}

#[test]
fn executor_pipeline_decisions() {
    assert_eq!(stage_pipes(0, 3), (None, Some(0)));
    assert_eq!(stage_pipes(1, 3), (Some(0), Some(1)));
    assert_eq!(stage_pipes(2, 3), (Some(1), None));
    assert_eq!(wait_result(&vec![StageEnd::Exited(1), StageEnd::Signaled(9)]), (137, false));
    assert_eq!(wait_result(&vec![StageEnd::Stopped(20), StageEnd::Other]), (148, true));
    assert_eq!(wait_result(&vec![]), (0, false));
    let cmds = vec![strings(&["ls", "-l"]), Vec::new(), strings(&["wc"])];
    assert_eq!(job_description(&cmds), "ls -l | wc");
    assert_eq!(trace_line(&cmds), "+ ls -l |  | wc");
    assert_eq!(pipeline_outcome(1, true), ExecOutcome::Exit(1));
    assert_eq!(pipeline_outcome(1, false), ExecOutcome::Status(1));
    assert_eq!(pipeline_outcome(0, true), ExecOutcome::Status(0));
    let mut jobs = JobTable::new();
    let (id, notice) = record_stopped(&mut jobs, 77, "vim".to_string());
    assert_eq!(id, 1);
    assert_eq!(notice, "\n[1] Stopped          vim");
    assert_eq!(jobs.job(0).status, JobStatus::Stopped);
    let mut traps = VarTable::new();
    assert_eq!(signal_response("INT", &traps), Err(130));
    assert_eq!(signal_response("TERM", &traps), Err(143));
    assert_eq!(signal_response("HUP", &traps), Err(129));
    traps.set("INT", "echo caught".to_string());
    assert_eq!(signal_response("INT", &traps), Ok("echo caught".to_string()));
}

#[test]
fn startup_files_in_order() {
    assert_eq!(startup_files(None), strings(&["/etc/mitosrc"]));
    assert_eq!(startup_files(Some("/home/u".to_string())), strings(&["/etc/mitosrc", "/home/u/.mitosrc"]));
    assert_eq!(startup_files(Some("/root/".to_string())), strings(&["/etc/mitosrc", "/root/.mitosrc"]));
    let f = files();
    assert_eq!(f[0], "/etc/mitosrc");
    assert!(f.len() <= 2);
}

#[test]
fn number_parsing_and_character_classes() {
    assert_eq!(parse_i64("-42"), Some(-42));
    assert_eq!(parse_i64("+7"), Some(7));
    assert_eq!(parse_i64("9223372036854775808"), None);
    assert_eq!(parse_i32("2147483647"), Some(2147483647));
    assert_eq!(parse_i32("2147483648"), None);
    assert_eq!(parse_u64("-1"), None);
    assert_eq!(parse_usize("12"), Some(12));
    assert_eq!(parse_usize(""), None);
}

#[test]
fn names_take_unicode_letters_and_digits() {
    let mut env = VarTable::new();
    env.set("é1", "5".to_string());
    env.set("ß٣", "v".to_string());
    assert_eq!(evaluate("é1 + 1", &env), Ok(6));
    let shell = Shell::new();
    assert_eq!(shell.expand_variables("[$ß٣]", &env), "[v]");
    assert_eq!(shell.expand_variables("[$ß٣-x]", &env), "[v-x]");
}

#[test]
fn command_candidates_are_sorted_and_unique() {
    let r = complete_commands(&strings(&["zsh", "grep", "gzip", "grep", "git", "ls"]), "g");
    assert_eq!(displays(&r), strings(&["git", "grep", "gzip"]));
    assert_eq!(replacements(&r), strings(&["git", "grep", "gzip"]));
    assert!(complete_commands(&strings(&["ls"]), "x").is_empty());
}

#[test]
fn file_candidates_follow_the_typed_directory() {
    let entries = vec![
        ("main.rs".to_string(), false),
        ("lib.rs".to_string(), false),
        ("macros".to_string(), true),
        ("other".to_string(), false),
    ];
    let r = complete_files("src/ma", &entries);
    assert_eq!(displays(&r), strings(&["macros", "main.rs"]));
    assert_eq!(replacements(&r), strings(&["src/macros/", "src/main.rs"]));
    let here = complete_files("l", &entries);
    assert_eq!(replacements(&here), strings(&["lib.rs"]));
}

#[test]
fn candidates_sort_by_code_point() {
    let v = vec![
        Candidate { display: "b".to_string(), replacement: "1".to_string() },
        Candidate { display: "B".to_string(), replacement: "2".to_string() },
        Candidate { display: "ab".to_string(), replacement: "3".to_string() },
        Candidate { display: "a".to_string(), replacement: "4".to_string() },
    ];
    let r = sort_candidates(&v);
    assert_eq!(displays(&r), strings(&["B", "a", "ab", "b"]));
    assert_eq!(replacements(&r), strings(&["2", "4", "3", "1"]));
    assert!(text_no_later("a", "ab"));
    assert!(!text_no_later("ab", "a"));
    assert!(text_no_later("same", "same"));
    assert!(text_no_later("Z", "a"));
}

#[test]
fn shadow_entries() {
    let content = "root:$6$abc$xyz:19000:0:99999:7:::\r\nalice:!:19000::::::\nbob:*:1\ncarol:$y$j9T$hash:19500\ndave\nerin:\n";
    assert_eq!(shadow_hash(content, "root"), Some("$6$abc$xyz".to_string()));
    assert_eq!(shadow_hash(content, "carol"), Some("$y$j9T$hash".to_string()));
    assert_eq!(shadow_hash(content, "alice"), None);
    assert_eq!(shadow_hash(content, "bob"), None);
    assert_eq!(shadow_hash(content, "dave"), None);
    assert_eq!(shadow_hash(content, "erin"), None);
    assert_eq!(shadow_hash(content, "mallory"), None);
    assert_eq!(shadow_hash("u:h\r", "u"), Some("h\r".to_string()));
    assert_eq!(shadow_hash("u:first\nu:second\n", "u"), Some("first".to_string()));
    assert_eq!(shadow_hash("", "u"), None);
}

#[test]
fn list_decisions() {
    assert!(matches!(after_and_or_left(ListOp::And, ExecOutcome::Status(0)), ListStep::RunRight));
    assert!(matches!(after_and_or_left(ListOp::And, ExecOutcome::Status(1)), ListStep::Done(ExecOutcome::Status(1))));
    assert!(matches!(after_and_or_left(ListOp::Or, ExecOutcome::Status(2)), ListStep::RunRight));
    assert!(matches!(after_and_or_left(ListOp::Or, ExecOutcome::Status(0)), ListStep::Done(ExecOutcome::Status(0))));
    assert!(matches!(after_and_or_left(ListOp::And, ExecOutcome::Exit(3)), ListStep::Done(ExecOutcome::Exit(3))));
    assert!(matches!(after_sequence_left(ExecOutcome::Status(5)), ListStep::RunRight));
    assert!(matches!(after_sequence_left(ExecOutcome::Break), ListStep::Done(ExecOutcome::Break)));
}

#[test]
fn conditional_and_loop_decisions() {
    assert!(matches!(after_if_condition(ExecOutcome::Status(0), false), IfStep::Then));
    assert!(matches!(after_if_condition(ExecOutcome::Status(1), true), IfStep::Else));
    assert!(matches!(after_if_condition(ExecOutcome::Status(1), false), IfStep::Done(ExecOutcome::Status(0))));
    assert!(matches!(after_if_condition(ExecOutcome::Return(4), true), IfStep::Done(ExecOutcome::Return(4))));
    assert!(matches!(after_while_condition(ExecOutcome::Status(0)), LoopStep::Go));
    assert!(matches!(after_while_condition(ExecOutcome::Status(7)), LoopStep::Done(ExecOutcome::Status(0))));
    assert!(matches!(after_while_body(ExecOutcome::Break), LoopStep::Done(ExecOutcome::Status(0))));
    assert!(matches!(after_while_body(ExecOutcome::Continue), LoopStep::Go));
    assert!(matches!(after_while_body(ExecOutcome::Status(9)), LoopStep::Go));
    assert!(matches!(after_while_body(ExecOutcome::Exit(1)), LoopStep::Done(ExecOutcome::Exit(1))));
    assert!(matches!(after_for_body(ExecOutcome::Break, 3), ForStep::Done(ExecOutcome::Status(3))));
    assert!(matches!(after_for_body(ExecOutcome::Continue, 3), ForStep::Next(3)));
    assert!(matches!(after_for_body(ExecOutcome::Status(8), 3), ForStep::Next(8)));
    assert!(matches!(after_for_body(ExecOutcome::Return(2), 3), ForStep::Done(ExecOutcome::Return(2))));
    assert_eq!(function_outcome(ExecOutcome::Return(6)), ExecOutcome::Status(6));
    assert_eq!(function_outcome(ExecOutcome::Exit(1)), ExecOutcome::Exit(1));
    assert!(matches!(top_level(ExecOutcome::Eval("ls".to_string())), TopLevel::Run(ref c) if c == "ls"));
    assert!(matches!(top_level(ExecOutcome::Exit(2)), TopLevel::Exit(2)));
    assert!(matches!(top_level(ExecOutcome::Status(5)), TopLevel::Record(5)));
    assert!(matches!(top_level(ExecOutcome::Break), TopLevel::Record(0)));
}

#[test]
fn case_selects_the_first_matching_branch() {
    let branches = vec![strings(&["*.c", "*.h"]), strings(&["[", "main.rs"]), strings(&["*.rs"])];
    assert_eq!(case_branch("main.rs", &branches), Some(1));
    assert_eq!(case_branch("lib.rs", &branches), Some(2));
    assert_eq!(case_branch("x.h", &branches), Some(0));
    assert_eq!(case_branch("[", &branches), Some(1));
    assert_eq!(case_branch("notes.txt", &branches), None);
    assert_eq!(case_branch("c?t", &vec![strings(&["c?t"])]), Some(0));
    assert_eq!(case_branch("anything", &Vec::new()), None);
}

#[test]
fn argument_lists_stack_and_keep_the_base() {
    let mut v = Executor::new();
    assert!(v.current_args().is_empty());
    v.push_context(strings(&["a", "b"]));
    assert_eq!(v.current_args(), strings(&["a", "b"]));
    v.push_context(strings(&["f"]));
    assert_eq!(v.current_args(), strings(&["f"]));
    v.pop_context();
    assert_eq!(v.current_args(), strings(&["a", "b"]));
    v.pop_context();
    v.pop_context();
    assert!(v.current_args().is_empty());
}

#[test]
fn shell_variables_shadow_the_environment_and_stay_exported() {
    let mut env = VarTable::new();
    env.set("PATH", "/bin".to_string());
    env.set("X", "from-env".to_string());
    let mut v = Executor::new();
    assert_eq!(v.get_variable("X", &env), Some("from-env".to_string()));
    assert_eq!(v.get_variable("NONE", &env), None);
    assert!(!v.set_variable("X", "local"));
    assert_eq!(v.get_variable("X", &env), Some("local".to_string()));
    assert_eq!(v.export_variable("X", &env), "local");
    assert!(v.set_variable("X", "again"));
    assert_eq!(v.export_variable("PATH", &env), "/bin");
    assert_eq!(v.export_variable("EMPTY", &env), "");
}

#[test]
fn executor_state_feeds_the_expander_and_the_exit_trap() {
    let mut ex = Executor::new();
    assert_eq!(ex.last_status(), 0);
    assert!(ex.exit_trap().is_none());
    ex.traps.set("EXIT", "echo bye".to_string());
    assert_eq!(ex.exit_trap(), Some("echo bye".to_string()));
    ex.last_status = 3;
    ex.push_context(strings(&["first"]));
    ex.set_variable("L", "local");
    let mut env = VarTable::new();
    env.set("E", "env".to_string());
    let e = ex.expander(&env);
    let mut caps = mitos::expansion::command::Captures::new(Vec::new());
    assert_eq!(e.expand_string("$? $1 $L $E", &mut caps).unwrap(), "$? first local env");
}

#[test]
fn single_commands_are_classified() {
    assert!(matches!(special_command(&strings(&["set", "-e"])), Special::SetOptions));
    assert!(matches!(special_command(&strings(&["eval", "ls"])), Special::EvalWords));
    assert!(matches!(special_command(&strings(&["echo"])), Special::Other));
    assert!(matches!(special_command(&Vec::new()), Special::Other));
    assert!(matches!(command_kind(&Vec::new()), CommandKind::AssignOnly));
    assert!(matches!(command_kind(&strings(&["."])), CommandKind::SourceMissing(ref m) if m == "mitos: .: expected a file"));
    assert!(matches!(command_kind(&strings(&["source", "f.sh", "a", "b"])), CommandKind::Source(ref f, ref rest) if f == "f.sh" && rest == &strings(&["a", "b"])));
    assert!(matches!(command_kind(&strings(&["read", "x"])), CommandKind::Read));
    assert!(matches!(command_kind(&strings(&["ls"])), CommandKind::Other));
}

fn simple(words: &[&str]) -> SimpleCommand {
    SimpleCommand { args: strings(words), assignments: Vec::new(), redirects: Vec::new() }
}

#[test]
fn pipeline_start_handles_set_and_eval_as_written() {
    let mut ex = Executor::new();
    assert!(matches!(pipeline_start(&mut ex, &vec![simple(&["set", "-e"])]), PipelineStep::Done(ExecOutcome::Status(0))));
    assert!(ex.options.errexit);
    assert!(matches!(pipeline_start(&mut ex, &vec![simple(&["set", "-q"])]),
        PipelineStep::Report(ref m, ExecOutcome::Status(2)) if m == "set: invalid option: -q"));
    assert!(matches!(pipeline_start(&mut ex, &vec![simple(&["eval"])]), PipelineStep::Done(ExecOutcome::Status(0))));
    assert!(matches!(pipeline_start(&mut ex, &vec![simple(&["eval", "ls", "-l"])]),
        PipelineStep::Done(ExecOutcome::Eval(ref c)) if c == "ls -l"));
    assert!(matches!(pipeline_start(&mut ex, &vec![simple(&["echo", "hi"])]), PipelineStep::Expand(None)));
    assert!(matches!(pipeline_start(&mut ex, &vec![simple(&["set", "-x"])]), PipelineStep::Done(ExecOutcome::Status(0))));
    assert!(matches!(pipeline_start(&mut ex, &vec![simple(&["ls", "-l"]), simple(&["wc"])]),
        PipelineStep::Expand(Some(ref t)) if t == "+ ls -l | wc"));
    assert_eq!(ex.last_status(), 0);
}

#[test]
fn pipeline_step_dispatches_a_lone_command() {
    let mut ex = Executor::new();
    let env = VarTable::new();
    ex.export_variable("X", &env);
    let r = pipeline_step(&mut ex, vec![Vec::new()], vec![
        ResolvedAssignment::Scalar("X".to_string(), "1".to_string()),
        ResolvedAssignment::Scalar("Y".to_string(), "2".to_string()),
        ResolvedAssignment::Array("A".to_string(), strings(&["p", "q"])),
    ], &vec![true]);
    assert!(matches!(r, PipelineStep::Assigned(ref e) if e == &vec![("X".to_string(), "1".to_string())]));
    assert_eq!(ex.get_variable("Y", &env), Some("2".to_string()));
    assert_eq!(ex.arrays.get("A"), Some(strings(&["p", "q"])));
    assert!(matches!(pipeline_step(&mut ex, vec![strings(&["source"])], Vec::new(), &vec![false]),
        PipelineStep::Report(ref m, ExecOutcome::Status(2)) if m == "mitos: source: expected a file"));
    assert!(matches!(pipeline_step(&mut ex, vec![strings(&[".", "f", "a"])], Vec::new(), &vec![false]),
        PipelineStep::Source(ref f, ref rest) if f == "f" && rest == &strings(&["a"])));
    assert!(matches!(pipeline_step(&mut ex, vec![strings(&["read", "v"])], Vec::new(), &vec![false]),
        PipelineStep::Read(ref a) if a == &strings(&["read", "v"])));
    assert!(matches!(pipeline_step(&mut ex, vec![strings(&["echo", "hi"])], Vec::new(), &vec![false]),
        PipelineStep::Builtin(ExecAction::Echo(ref t, true)) if t == "hi"));
    assert!(matches!(pipeline_step(&mut ex, vec![strings(&["alias", "ll=ls -l"])], Vec::new(), &vec![false]),
        PipelineStep::Builtin(ExecAction::Outcome(ExecOutcome::Status(0)))));
    assert_eq!(ex.aliases.get("ll"), Some("ls -l".to_string()));
    assert!(matches!(pipeline_step(&mut ex, vec![strings(&["nosuch", "x"])], Vec::new(), &vec![false]),
        PipelineStep::Report(ref m, ExecOutcome::Status(127)) if m == "mitos: Command not found: nosuch"));
    assert_eq!(ex.last_status(), 127);
    ex.last_status = 0;
    assert!(matches!(pipeline_step(&mut ex, vec![strings(&["ls"])], Vec::new(), &vec![true]),
        PipelineStep::Fork(ref c) if c == &vec![strings(&["ls"])]));
    assert!(matches!(pipeline_step(&mut ex, vec![strings(&["ls"]), strings(&["nope"])], Vec::new(), &vec![true, false]),
        PipelineStep::Report(ref m, ExecOutcome::Status(127)) if m == "mitos: Command not found: nope"));
}

#[test]
fn jobs_fg_and_bg_act_on_the_job_table() {
    let mut ex = Executor::new();
    assert!(matches!(pipeline_step(&mut ex, vec![strings(&["fg"])], Vec::new(), &vec![false]),
        PipelineStep::Report(ref m, ExecOutcome::Status(1)) if m == "fg: no current job"));
    assert!(matches!(pipeline_step(&mut ex, vec![strings(&["bg"])], Vec::new(), &vec![false]),
        PipelineStep::Report(ref m, ExecOutcome::Status(1)) if m == "bg: no current job"));
    assert_eq!(ex.jobs.len(), 0);
    ex.jobs.add(10, "sleep 9".to_string());
    ex.jobs.add(20, "vi".to_string());
    ex.jobs.add(30, "make".to_string());
    ex.jobs.update_status(10, JobStatus::Exited(0));
    ex.jobs.update_status(20, JobStatus::Stopped);
    assert!(matches!(pipeline_step(&mut ex, vec![strings(&["jobs"])], Vec::new(), &vec![false]),
        PipelineStep::Listed(ref l, ExecOutcome::Status(0)) if l == &strings(&["[1]  Done  sleep 9", "[2]  Stopped  vi", "[3]  Running  make"])));
    assert_eq!(ex.jobs.len(), 2);
    assert!(matches!(pipeline_step(&mut ex, vec![strings(&["bg"])], Vec::new(), &vec![false]), PipelineStep::Resume(0, false)));
    assert_eq!(ex.jobs.job(0).status, JobStatus::Running);
    assert!(matches!(pipeline_step(&mut ex, vec![strings(&["fg"])], Vec::new(), &vec![false]),
        PipelineStep::Report(_, ExecOutcome::Status(1))));
}

#[test]
fn pipeline_end_records_status_and_stopped_jobs() {
    let mut ex = Executor::new();
    assert_eq!(pipeline_finish(&mut ex, 3), ExecOutcome::Status(3));
    assert_eq!(ex.last_status(), 3);
    ex.options.errexit = true;
    assert_eq!(pipeline_finish(&mut ex, 4), ExecOutcome::Exit(4));
    assert_eq!(ex.last_status(), 3);
    assert_eq!(pipeline_finish(&mut ex, 0), ExecOutcome::Status(0));
    let mut jobs = JobTable::new();
    let (s, n) = stages_done(&mut jobs, 50, "cat | wc".to_string(), &vec![StageEnd::Exited(0), StageEnd::Exited(3)]);
    assert_eq!((s, n), (3, None));
    assert_eq!(jobs.len(), 0);
    let (s, n) = stages_done(&mut jobs, 60, "vi".to_string(), &vec![StageEnd::Signaled(9), StageEnd::Stopped(20)]);
    assert_eq!(s, 148);
    assert_eq!(n, Some("\n[1] Stopped          vi".to_string()));
    assert_eq!(jobs.job(0).status, JobStatus::Stopped);
    assert_eq!(jobs.job(0).pgid, 60);
}

#[test]
fn pending_requests_follow_a_run_of_messages() {
    let mut p = PendingRequests::new();
    let notices = p.handle_all(vec![
        ServiceToShell::Request(request(1, "cam", RiskLevel::Ask)),
        ServiceToShell::Request(request(2, "bank", RiskLevel::Critical)),
        ServiceToShell::Request(request(3, "mic", RiskLevel::Ask)),
        ServiceToShell::AlreadyResolved { id: 1 },
    ]);
    assert_eq!(notices.len(), 4);
    let ids: Vec<u64> = p.list_pending().iter().map(|r| r.id).collect();
    assert_eq!(ids, vec![3]);
}

#[test]
fn a_case_pattern_selects_by_its_match_or_by_equal_text() {
    assert!(pattern_selects("a*", "abc", Some(true)));
    assert!(!pattern_selects("a*", "abc", Some(false)));
    assert!(pattern_selects("[", "[", None));
    assert!(!pattern_selects("[", "x", None));
}

#[test]
fn the_listener_keeps_what_the_last_message_says() {
    let mut p = PendingRequests::new();
    p.handle_all(vec![
        ServiceToShell::Request(request(4, "cam", RiskLevel::Ask)),
        ServiceToShell::Request(request(4, "mic", RiskLevel::Ask)),
        ServiceToShell::Request(request(4, "bank", RiskLevel::Critical)),
        ServiceToShell::Request(request(5, "bank", RiskLevel::Critical)),
    ]);
    let pending = p.list_pending();
    assert_eq!(pending.len(), 1);
    assert_eq!((pending[0].id, pending[0].app_name.as_str()), (4, "mic"));
    assert_eq!(pending[0].risk, RiskLevel::Ask);
}

#[test]
fn a_new_executor_numbers_jobs_from_one() {
    let ex = Executor::new();
    assert_eq!(ex.jobs.next_id(), 1);
    assert_eq!(ex.jobs.len(), 0);
}

#[test]
fn a_sourced_file_goes_on_after_a_status_and_stops_otherwise() {
    let mut ex = Executor::new();
    assert_eq!(after_sourced_line(&mut ex, ExecOutcome::Status(3)), None);
    assert_eq!(ex.last_status, 3);
    assert_eq!(after_sourced_line(&mut ex, ExecOutcome::Exit(4)), Some(ExecOutcome::Exit(4)));
    assert_eq!(ex.last_status, 3);
}
