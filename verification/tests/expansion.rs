use mitos::builtins::alias;
use mitos::config::options::ShellOptions;
use mitos::error::ShellError;
use mitos::expansion::arithmetic::{evaluate, expand_arithmetic};
use mitos::expansion::braced::expand_braced;
use mitos::expansion::command::{expand_command_substitution, needs_running, trim_output, Captures};
use mitos::expansion::expander::{field_words, Expander, Field};
use mitos::expansion::fields::{split_whitespace, split_with};
use mitos::expansion::pipeline::expand_line;
use mitos::execution::command::{
    expand_command, first_word, Assignment, ExpandedAssignment, ExpandedRedirect, Redirect,
    SimpleCommand,
};
use mitos::lexer::tokenize;
use mitos::vars::{ArrayTable, VarTable};

fn s(x: &str) -> String {
    x.to_string()
}

fn strings(v: &[&str]) -> Vec<String> {
    v.iter().map(|x| x.to_string()).collect()
}

fn env_with(pairs: &[(&str, &str)]) -> VarTable {
    let mut t = VarTable::new();
    for (k, v) in pairs {
        t.set(k, v.to_string());
    }
    t
}

fn expander(args: &[&str], nounset: bool, locals: &[(&str, &str)], env: &[(&str, &str)]) -> Expander {
    let mut arrays = ArrayTable::new();
    arrays.set("arr", strings(&["x", "y", "z"]));
    let options = ShellOptions { errexit: false, nounset, xtrace: false };
    Expander::new(0, strings(args), options, arrays, env_with(locals), env_with(env))
}

#[test]
fn arithmetic_evaluates_with_precedence_and_parentheses() {
    let env = env_with(&[("N", "4")]);
    assert_eq!(evaluate("1 + 2 * 3", &env), Ok(7));
    assert_eq!(evaluate("(1 + 2) * 3", &env), Ok(9));
    assert_eq!(evaluate("N * N - 1", &env), Ok(15));
    assert_eq!(evaluate("(0 - 7) / 2", &env), Ok(-3));
    assert_eq!(evaluate("-7", &env), Err(()));
    assert_eq!(evaluate("7 % 3", &env), Ok(1));
}

#[test]
fn arithmetic_errors() {
    let env = VarTable::new();
    assert_eq!(evaluate("1 / 0", &env), Err(()));
    assert_eq!(evaluate("1 % 0", &env), Err(()));
    assert_eq!(evaluate("2 +", &env), Err(()));
    assert_eq!(evaluate("UNSET + 1", &env), Err(()));
}

#[test]
fn arithmetic_expansion_replaces_each_expression() {
    let env = env_with(&[("X", "5")]);
    assert_eq!(expand_arithmetic("a $((X + 1)) b $(( (3 + 4) * 2 ))", &env), "a 6 b 14");
    assert_eq!(expand_arithmetic("$((2 * (3 + 4)))", &env), "14");
    assert_eq!(expand_arithmetic("$(( ((1 + 2)) * 3 ))x", &env), "9x");
    assert_eq!(expand_arithmetic("$((2*(3+(4-1))))", &env), "12");
    assert_eq!(expand_arithmetic("bad $((1 / 0))", &env), "bad 0");
    assert_eq!(expand_arithmetic("open $((1 + 2", &env), "open $((1 + 2");
    assert_eq!(expand_arithmetic("no arithmetic here", &env), "no arithmetic here");
}

#[test]
fn command_substitution_records_commands_and_splices_outputs() {
    let mut caps = Captures::new(strings(&["hello\n\n", "world"]));
    let r = expand_command_substitution("say $(echo hello) and `echo world`!", &mut caps);
    assert_eq!(r, "say hello and world!");
    assert_eq!(caps.requested(), strings(&["echo hello", "echo world"]));
}

#[test]
fn command_substitution_nests_parentheses_and_leaves_unclosed_text() {
    let mut caps = Captures::new(strings(&["3"]));
    let r = expand_command_substitution("n=$(expr $(echo 1) + 2) $(oops", &mut caps);
    assert_eq!(r, "n=3 $(oops");
    assert_eq!(caps.requested(), strings(&["expr $(echo 1) + 2"]));
}

#[test]
fn command_substitution_of_a_blank_command_is_empty() {
    let mut caps = Captures::new(strings(&["ignored"]));
    assert_eq!(expand_command_substitution("[$(  )]", &mut caps), "[]");
    assert!(!needs_running("  \t"));
    assert!(needs_running(" ls "));
    assert_eq!(trim_output("out\n\n"), "out");
    assert_eq!(trim_output("a\nb\n"), "a\nb");
}

#[test]
fn missing_outputs_count_as_empty() {
    let mut caps = Captures::new(Vec::new());
    assert_eq!(expand_command_substitution("x$(true)y", &mut caps), "xy");
}

#[test]
fn expand_string_runs_arithmetic_then_substitution_then_variables() {
    let e = expander(&["first", "second"], false, &[("NAME", "mitos")], &[("HOME", "/home/u")]);
    let mut caps = Captures::new(strings(&["out"]));
    let r = e.expand_string("$NAME $1 $2 $3 $HOME $((1+1)) $(cmd) $ $?", &mut caps).unwrap();
    assert_eq!(r, "mitos first second  /home/u 2 out $ $?");
    assert_eq!(caps.requested(), strings(&["cmd"]));
}

#[test]
fn nounset_makes_an_unset_variable_an_error() {
    let e = expander(&[], true, &[], &[]);
    let mut caps = Captures::new(Vec::new());
    match e.expand_string("x $MISSING y", &mut caps) {
        Err(ShellError::Execution(m)) => assert_eq!(m, "MISSING: unbound variable"),
        other => panic!("unexpected {:?}", other),
    }
    let lenient = expander(&[], false, &[], &[]);
    assert_eq!(lenient.expand_string("x $MISSING y", &mut caps).unwrap(), "x  y");
}

#[test]
fn expand_word_handles_quoted_regions() {
    let e = expander(&[], false, &[("V", "val")], &[]);
    let mut caps = Captures::new(Vec::new());
    assert_eq!(e.expand_word("a\"$V b\"'$V'", &mut caps).unwrap(), (s("aval b$V"), true));
    assert_eq!(e.expand_word("plain$V", &mut caps).unwrap(), (s("plainval"), false));
    assert_eq!(e.expand_word("x\"a\\\"b\"", &mut caps).unwrap(), (s("xa\"b"), true));
    assert_eq!(e.expand_word("open'$V", &mut caps).unwrap(), (s("open$V"), true));
}

#[test]
fn tilde_expansion_uses_home() {
    let e = expander(&[], false, &[], &[("HOME", "/home/me")]);
    assert_eq!(e.expand_tilde("~"), "/home/me");
    assert_eq!(e.expand_tilde("~/docs"), "/home/me/docs");
    assert_eq!(e.expand_tilde("a~"), "a~");
    let no_home = expander(&[], false, &[], &[]);
    assert_eq!(no_home.expand_tilde("~"), "/");
}

#[test]
fn field_splitting_follows_ifs() {
    let e = expander(&[], false, &[], &[]);
    assert_eq!(e.split_fields("  a  b\tc\n"), strings(&["a", "b", "c"]));
    assert_eq!(e.split_fields(""), Vec::<String>::new());
    let comma = expander(&[], false, &[("IFS", ",")], &[]);
    assert_eq!(comma.split_fields("a,,b"), strings(&["a", "", "b"]));
    let none = expander(&[], false, &[("IFS", "")], &[]);
    assert_eq!(none.split_fields("a b"), strings(&["a b"]));
    assert_eq!(split_with(",x,", ","), strings(&["", "x", ""]));
    assert_eq!(split_whitespace("  one two  "), strings(&["one", "two"]));
}

#[test]
fn braced_array_expansions() {
    let mut arrays = ArrayTable::new();
    arrays.set("arr", strings(&["x", "y", "z"]));
    assert_eq!(expand_braced(&arrays, "${arr[@]}"), strings(&["x", "y", "z"]));
    assert_eq!(expand_braced(&arrays, "p${arr[@]}s"), strings(&["pxs", "pys", "pzs"]));
    assert_eq!(expand_braced(&arrays, "${arr[*]}"), strings(&["x y z"]));
    assert_eq!(expand_braced(&arrays, "n=${#arr[@]}"), strings(&["n=3"]));
    assert_eq!(expand_braced(&arrays, "${arr[1]}"), strings(&["y"]));
    assert_eq!(expand_braced(&arrays, "${arr[9]}"), strings(&["" ]));
    assert_eq!(expand_braced(&arrays, "${nope[@]}"), strings(&["${nope[@]}"]));
    assert_eq!(expand_braced(&arrays, "${arr[x]}"), strings(&["${arr[x]}"]));
    assert_eq!(expand_braced(&arrays, "${open"), strings(&["${open"]));
}

#[test]
fn expand_tokens_splits_unquoted_words_and_marks_patterns() {
    let e = expander(&[], false, &[("LIST", "a b"), ("P", "*.rs")], &[]);
    let mut caps = Captures::new(Vec::new());
    let tokens = tokenize("$LIST \"$LIST\" '$LIST' $P x\"$P\" \"${arr[@]}\"");
    let fields = e.expand_tokens(tokens, true, &mut caps).unwrap();
    let got: Vec<(String, bool)> = fields.into_iter().map(|f| (f.text, f.pattern)).collect();
    assert_eq!(
        got,
        vec![
            (s("a"), false),
            (s("b"), false),
            (s("a b"), false),
            (s("$LIST"), false),
            (s("*.rs"), true),
            (s("x*.rs"), false),
            (s("x"), false),
            (s("y"), false),
            (s("z"), false),
        ]
    );
    let single = e.expand_tokens(tokenize("$LIST"), false, &mut caps).unwrap();
    assert_eq!(single.len(), 1);
    assert_eq!(single[0].text, "a b");
}

#[test]
fn expand_tokens_stops_at_the_first_error() {
    let e = expander(&[], true, &[], &[]);
    let mut caps = Captures::new(Vec::new());
    let r = e.expand_tokens(tokenize("ok \"$(first)\" $NOPE \"$(second)\""), true, &mut caps);
    assert!(matches!(r, Err(ShellError::Execution(ref m)) if m == "NOPE: unbound variable"));
    assert_eq!(caps.requested(), strings(&["first"]));
}

#[test]
fn field_words_uses_matches_only_for_patterns() {
    let pattern = Field { text: s("*.txt"), pattern: true };
    assert_eq!(field_words(pattern, strings(&["a.txt", "b.txt"])), strings(&["a.txt", "b.txt"]));
    let unmatched = Field { text: s("*.none"), pattern: true };
    assert_eq!(field_words(unmatched, Vec::new()), strings(&["*.none"]));
    let plain = Field { text: s("x"), pattern: false };
    assert_eq!(field_words(plain, strings(&["ignored"])), strings(&["x"]));
}

#[test]
fn expand_line_expands_aliases_then_substitutions_then_arithmetic() {
    let mut aliases = VarTable::new();
    alias::set(&mut aliases, "ll", "ls -l");
    let env = VarTable::new();
    let mut caps = Captures::new(strings(&["X"]));
    let r = expand_line("ll   $(pwd) $[x]", &aliases, &env, &mut caps);
    assert_eq!(r, "ls -l X $[x]");
    assert_eq!(caps.requested(), strings(&["pwd"]));
    let mut caps2 = Captures::new(Vec::new());
    assert_eq!(expand_line("echo $((1+2))", &aliases, &env, &mut caps2), "echo ");
    assert_eq!(caps2.requested(), strings(&["(1+2)"]));
}

fn texts(v: &[Field]) -> Vec<(String, bool)> {
    v.iter().map(|f| (f.text.clone(), f.pattern)).collect()
}

#[test]
fn expand_command_expands_words_assignments_and_redirections_in_order() {
    let e = expander(&["one"], false, &[("LIST", "a b"), ("OUT", "log file")], &[]);
    let mut caps = Captures::new(strings(&["w", "v", "t", "b"]));
    let command = SimpleCommand {
        args: strings(&["echo", "$LIST", "\"$(x)\"", "*.rs"]),
        assignments: vec![
            Assignment::Scalar(s("K"), s("$LIST\"$(y)\"")),
            Assignment::Array(s("A"), strings(&["$1 two", "$LIST"])),
        ],
        redirects: vec![
            Redirect::Output(s("$OUT")),
            Redirect::Input(s("`z`")),
            Redirect::HereString(s("$LIST")),
            Redirect::HereDoc(s("hi $LIST $(q)\n"), true, true),
            Redirect::HereDoc(s("raw $LIST\n"), false, false),
        ],
    };
    let ec = expand_command(&e, &command, &mut caps).unwrap();
    assert_eq!(
        texts(&ec.args),
        vec![(s("echo"), false), (s("a"), false), (s("b"), false), (s("w"), false), (s("*.rs"), true)]
    );
    assert_eq!(ec.assignments.len(), 2);
    match &ec.assignments[0] {
        ExpandedAssignment::Scalar(k, fs) => {
            assert_eq!(k, "K");
            assert_eq!(texts(fs), vec![(s("a bv"), false)]);
        }
        _ => panic!("expected a scalar assignment"),
    }
    match &ec.assignments[1] {
        ExpandedAssignment::Array(k, fs) => {
            assert_eq!(k, "A");
            assert_eq!(
                texts(fs),
                vec![(s("one"), false), (s("two"), false), (s("a"), false), (s("b"), false)]
            );
        }
        _ => panic!("expected an array assignment"),
    }
    assert_eq!(ec.redirects.len(), 5);
    assert!(matches!(&ec.redirects[0], ExpandedRedirect::Output(fs) if texts(fs) == vec![(s("log file"), false)]));
    assert!(matches!(&ec.redirects[1], ExpandedRedirect::Input(fs) if texts(fs) == vec![(s("t"), false)]));
    assert!(matches!(&ec.redirects[2], ExpandedRedirect::HereString(fs) if texts(fs) == vec![(s("a b"), false)]));
    assert!(matches!(&ec.redirects[3], ExpandedRedirect::HereDoc(b, true, true) if b == "hi a b b\n"));
    assert!(matches!(&ec.redirects[4], ExpandedRedirect::HereDoc(b, false, false) if b == "raw $LIST\n"));
    assert_eq!(caps.requested(), strings(&["x", "y", "z", "q"]));
}

#[test]
fn expand_command_stops_at_the_first_error() {
    let e = expander(&[], true, &[], &[]);
    let mut caps = Captures::new(Vec::new());
    let command = SimpleCommand {
        args: strings(&["echo", "\"$(first)\""]),
        assignments: vec![Assignment::Scalar(s("K"), s("$MISSING"))],
        redirects: vec![Redirect::Output(s("$(never)"))],
    };
    let r = expand_command(&e, &command, &mut caps);
    assert!(matches!(r, Err(ShellError::Execution(ref m)) if m == "MISSING: unbound variable"));
    assert_eq!(caps.requested(), strings(&["first"]));
}

#[test]
fn first_word_or_nothing() {
    assert_eq!(first_word(&strings(&["a", "b"])), "a");
    assert_eq!(first_word(&Vec::new()), "");
}

#[test]
fn text_without_a_closed_substitution_comes_back_unchanged() {
    for text in ["$(echo", "a`b", "plain $x", "x $(a (b) c"] {
        let mut caps = Captures::new(strings(&["unused"]));
        assert_eq!(expand_command_substitution(text, &mut caps), text);
        assert!(caps.requested().is_empty());
    }
}

#[test]
fn one_substitution_in_plain_text() {
    let mut caps = Captures::new(strings(&["hi\n"]));
    assert_eq!(expand_command_substitution("a$(echo hi)b", &mut caps), "ahib");
    assert_eq!(caps.requested(), strings(&["echo hi"]));
    let mut caps = Captures::new(strings(&["hi\n\n"]));
    assert_eq!(expand_command_substitution("a`echo hi`b", &mut caps), "ahib");
    let mut caps = Captures::new(strings(&["ignored"]));
    assert_eq!(expand_command_substitution("x$( )y", &mut caps), "xy");
}
