use mitos::lexer::lexer::Lexer as PlainLexer;
use mitos::lexer::token::Token;
use mitos::lexer::{tokenize, tokenize_with_eof, Lexer};
use mitos::parser;
use mitos::parser::ast::{Node as AstNode, Redirect};
use mitos::parser::parser::Parser;
use mitos::parser::{Node, RedirOp};

fn word(s: &str) -> Token {
    Token::Word(s.to_string())
}

#[test]
fn tokenize_splits_operators_and_words() {
    let t = tokenize("ls -l | grep x && echo ok; true || false &");
    assert_eq!(
        t,
        vec![
            word("ls"),
            word("-l"),
            Token::Pipe,
            word("grep"),
            word("x"),
            Token::And,
            word("echo"),
            word("ok"),
            Token::Semicolon,
            word("true"),
            Token::Or,
            word("false"),
            Token::Background,
        ]
    );
}

#[test]
fn tokenize_quotes_redirections_and_heredocs() {
    let t = tokenize("cat <in >out >>log 'a b' \"c\\\"d\" <<EOF <<-X <<< s");
    assert_eq!(
        t,
        vec![
            word("cat"),
            Token::RedirectIn,
            word("in"),
            Token::RedirectOut,
            word("out"),
            Token::AppendOut,
            word("log"),
            Token::SingleQuoted("a b".to_string()),
            Token::DoubleQuoted("c\"d".to_string()),
            Token::HereDocStart(false),
            word("EOF"),
            Token::HereDocStart(true),
            word("X"),
            Token::HereString,
            word("s"),
        ]
    );
}

#[test]
fn tokenize_keeps_mid_word_quotes_and_detects_arrays() {
    let t = tokenize("FOO=\"bar baz\" arr=(a b)\n{ ! }");
    assert_eq!(
        t,
        vec![
            word("FOO=\"bar baz\""),
            Token::ArrayAssign("arr".to_string()),
            Token::LeftParen,
            word("a"),
            word("b"),
            Token::RightParen,
            Token::Newline,
            Token::LeftBrace,
            Token::Bang,
            Token::RightBrace,
        ]
    );
}

#[test]
fn tokenize_with_eof_ends_with_exactly_one_eof() {
    let t = tokenize_with_eof("echo hi");
    assert_eq!(t, vec![word("echo"), word("hi"), Token::Eof]);
    let empty = tokenize_with_eof("   ");
    assert_eq!(empty, vec![Token::Eof]);
}

#[test]
fn lexer_yields_tokens_one_by_one() {
    let mut l = Lexer::new("a|b");
    assert_eq!(l.next(), Some(word("a")));
    assert_eq!(l.next(), Some(Token::Pipe));
    assert_eq!(l.next(), Some(word("b")));
    assert_eq!(l.next(), None);
}

#[test]
fn plain_lexer_collects_words_and_operators() {
    let mut l = PlainLexer::new("echo \"a\\\"b\" >> f & x;y");
    let t = l.collect_tokens();
    assert_eq!(
        t,
        vec![
            word("echo"),
            word("a\"b"),
            Token::AppendOut,
            word("f"),
            Token::Background,
            word("x"),
            Token::Semicolon,
            word("y"),
        ]
    );
}

#[test]
fn line_parser_builds_left_deep_lists() {
    let n = parser::parse("a && b || c; d").unwrap();
    match n {
        Node::Sequence(l, r) => {
            match *r {
                Node::Pipeline(p) => assert_eq!(p.commands[0].args, vec!["d".to_string()]),
                _ => panic!("expected pipeline"),
            }
            match *l {
                Node::Or(l2, _) => match *l2 {
                    Node::And(_, _) => {}
                    _ => panic!("expected and"),
                },
                _ => panic!("expected or"),
            }
        }
        _ => panic!("expected sequence"),
    }
}

#[test]
fn line_parser_reads_pipelines_redirections_and_background() {
    let n = parser::parse("sort < in 2>> err | uniq > out &").unwrap();
    match n {
        Node::Pipeline(p) => {
            assert!(p.background);
            assert_eq!(p.commands.len(), 2);
            assert_eq!(p.commands[0].args, vec!["sort".to_string()]);
            assert_eq!(
                p.commands[0].redirs,
                vec![(RedirOp::In, "in".to_string()), (RedirOp::ErrApp, "err".to_string())]
            );
            assert_eq!(p.commands[1].redirs, vec![(RedirOp::Out, "out".to_string())]);
        }
        _ => panic!("expected pipeline"),
    }
}

#[test]
fn line_parser_errors() {
    assert_eq!(parser::parse("").unwrap_err(), "empty input");
    assert_eq!(parser::parse("ls >").unwrap_err(), "Expected filename after redirection");
    assert_eq!(parser::parse("| ls").unwrap_err(), "Empty command");
    assert_eq!(parser::parse("ls |").unwrap_err(), "Empty command");
}

#[test]
fn line_tokenizer_handles_quotes_and_fd_redirections() {
    let t = parser::tokenize("echo 'a b'\"c\" &> f 2> g").unwrap();
    assert_eq!(
        t,
        vec![
            parser::Token::Word("echo".to_string()),
            parser::Token::Word("a bc".to_string()),
            parser::Token::Redir(RedirOp::AllOut),
            parser::Token::Word("f".to_string()),
            parser::Token::Redir(RedirOp::ErrOut),
            parser::Token::Word("g".to_string()),
        ]
    );
}

#[test]
fn script_parser_builds_one_pipeline() {
    let tokens = tokenize("cat < a | wc > b &");
    let mut p = Parser::new(tokens);
    match p.parse().unwrap() {
        AstNode::Pipeline(cmds) => {
            assert_eq!(cmds.len(), 2);
            assert_eq!(cmds[0].args, vec!["cat".to_string()]);
            assert!(matches!(&cmds[0].redirects[0], Redirect::Input(f) if f == "a"));
            assert!(matches!(&cmds[1].redirects[0], Redirect::Output(f) if f == "b"));
            assert!(cmds[1].background);
        }
    }
}

#[test]
fn script_parser_errors() {
    let mut p = Parser::new(tokenize("| x"));
    assert!(matches!(p.parse(), Err(mitos::error::ShellError::Syntax(m)) if m == "Empty command in pipeline"));
    let mut p = Parser::new(tokenize("cat <"));
    assert!(matches!(p.parse(), Err(mitos::error::ShellError::Syntax(m)) if m == "Expected file after '<'"));
    let mut p = Parser::new(tokenize("cat >"));
    assert!(matches!(p.parse(), Err(mitos::error::ShellError::Syntax(m)) if m == "Expected file after '>'"));
    let mut p = Parser::new(tokenize("cat >>"));
    assert!(matches!(p.parse(), Err(mitos::error::ShellError::Syntax(m)) if m == "Expected file after '>>'"));
    let mut p = Parser::new(tokenize(";"));
    assert!(matches!(p.parse(), Err(mitos::error::ShellError::Syntax(m)) if m == "Empty command"));
}

#[test]
fn a_word_lexes_again_to_itself() {
    let line = "echo a'b c' \"x y\"z plain=1 | wc -l";
    for t in tokenize(line) {
        if let Token::Word(w) = t {
            assert_eq!(tokenize(&w), vec![Token::Word(w.clone())]);
        }
    }
}
