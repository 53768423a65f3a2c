//! Builds a pipeline from the tokens of `crate::lexer`: words and
//! redirections gather into commands, `|` starts the next command, `&` marks
//! the command as backgrounded, and `;`, `&&` or `||` end the pipeline.

use vstd::prelude::*;

use super::ast::{Command, CommandV, Node, NodeV, Redirect, RedirectV};
use crate::error::{ShellError, ShellErrorV};
use crate::lexer::token::{tokens_view, Token, TokenV};
use crate::text::copy_string;

verus! {

/// A command with nothing in it yet.
pub open spec fn blank_command() -> CommandV {
    CommandV { args: Seq::empty(), redirects: Seq::empty(), background: false }
}

/// The end of a pipeline at position `p`: the command being built joins the
/// others if it has any words; a pipeline with no command is an error.
pub open spec fn finish_pipeline(cur: CommandV, cmds: Seq<CommandV>, p: int) -> (
    Result<NodeV, ShellErrorV>,
    int,
) {
    let all = if cur.args.len() > 0 {
        cmds.push(cur)
    } else {
        cmds
    };
    (
        if all.len() == 0 {
            Err(ShellErrorV::Syntax("Empty command"@))
        } else {
            Ok(NodeV::Pipeline(all))
        },
        p,
    )
}

/// A redirection to the file named by the token after the operator at `p`,
/// or the error for a missing file name.
pub open spec fn redirect_target(t: Seq<TokenV>, p: int) -> Option<Seq<char>> {
    if 0 <= p + 1 < t.len() {
        match t[p + 1] {
            TokenV::Word(f) => Some(f),
            _ => None,
        }
    } else {
        None
    }
}

/// The position after a failed redirection at `p`.
pub open spec fn after_failed_redirect(t: Seq<TokenV>, p: int) -> int {
    if p + 1 < t.len() {
        p + 2
    } else {
        p + 1
    }
}

/// What parsing the tokens `t` from position `p` gives, where `cur` is the
/// command being built and `cmds` the commands already complete, together
/// with the position the parser stops at.
pub open spec fn parse_from(t: Seq<TokenV>, p: int, cur: CommandV, cmds: Seq<CommandV>) -> (
    Result<NodeV, ShellErrorV>,
    int,
)
    decreases t.len() - p,
{
    if p < 0 || p >= t.len() {
        finish_pipeline(cur, cmds, p)
    } else {
        match t[p] {
            TokenV::Word(w) => parse_from(
                t,
                p + 1,
                CommandV { args: cur.args.push(w), ..cur },
                cmds,
            ),
            TokenV::RedirectIn => match redirect_target(t, p) {
                Some(f) => parse_from(
                    t,
                    p + 2,
                    CommandV { redirects: cur.redirects.push(RedirectV::Input(f)), ..cur },
                    cmds,
                ),
                None => (
                    Err(ShellErrorV::Syntax("Expected file after '<'"@)),
                    after_failed_redirect(t, p),
                ),
            },
            TokenV::RedirectOut => match redirect_target(t, p) {
                Some(f) => parse_from(
                    t,
                    p + 2,
                    CommandV { redirects: cur.redirects.push(RedirectV::Output(f)), ..cur },
                    cmds,
                ),
                None => (
                    Err(ShellErrorV::Syntax("Expected file after '>'"@)),
                    after_failed_redirect(t, p),
                ),
            },
            TokenV::AppendOut => match redirect_target(t, p) {
                Some(f) => parse_from(
                    t,
                    p + 2,
                    CommandV { redirects: cur.redirects.push(RedirectV::Append(f)), ..cur },
                    cmds,
                ),
                None => (
                    Err(ShellErrorV::Syntax("Expected file after '>>'"@)),
                    after_failed_redirect(t, p),
                ),
            },
            TokenV::Background => parse_from(t, p + 1, CommandV { background: true, ..cur }, cmds),
            TokenV::Pipe => if cur.args.len() == 0 {
                (Err(ShellErrorV::Syntax("Empty command in pipeline"@)), p + 1)
            } else {
                parse_from(t, p + 1, blank_command(), cmds.push(cur))
            },
            TokenV::Semicolon | TokenV::And | TokenV::Or => finish_pipeline(cur, cmds, p + 1),
            _ => parse_from(t, p + 1, cur, cmds),
        }
    }
}

/// A parser over a fixed list of tokens, holding the position of the next one.
pub struct Parser {
    tokens: Vec<Token>,
    pos: usize,
}

fn syntax(msg: &str) -> (e: ShellError)
    ensures
        e@ == ShellErrorV::Syntax(msg@),
{
    ShellError::Syntax(String::from_str(msg))
}

impl Parser {
    /// The tokens, as values.
    pub closed spec fn token_values(&self) -> Seq<TokenV> {
        tokens_view(self.tokens@)
    }

    /// The position of the next token.
    pub closed spec fn position(&self) -> int {
        self.pos as int
    }

    /// The position never passes the end of the tokens.
    pub closed spec fn wf(&self) -> bool {
        self.pos <= self.tokens@.len()
    }

    /// A parser at the first of `tokens`.
    pub fn new(tokens: Vec<Token>) -> (p: Self)
        ensures
            p.wf(),
            p.token_values() == tokens_view(tokens@),
            p.position() == 0,
    {
        Self { tokens, pos: 0 }
    }

    fn advance(&mut self) -> (t: Option<Token>)
        requires
            old(self).wf(),
        ensures
            final(self).wf(),
            final(self).tokens@ == old(self).tokens@,
            final(self).pos == if old(self).pos < old(self).tokens@.len() {
                old(self).pos + 1
            } else {
                old(self).pos as int
            },
            match t {
                Some(x) => old(self).pos < old(self).tokens@.len() && x@ == tokens_view(
                    old(self).tokens@,
                )[old(self).pos as int],
                None => old(self).pos >= old(self).tokens@.len(),
            },
    {
        if self.pos < self.tokens.len() {
            let t = self.tokens[self.pos].duplicate();
            self.pos = self.pos + 1;
            Some(t)
        } else {
            None
        }
    }

    /// Parses one pipeline, stopping after the `;`, `&&` or `||` that ends it.
    pub fn parse(&mut self) -> (r: Result<Node, ShellError>)
        requires
            old(self).wf(),
        ensures
            final(self).wf(),
            final(self).token_values() == old(self).token_values(),
            ({
                let (res, p) = parse_from(
                    old(self).token_values(),
                    old(self).position(),
                    blank_command(),
                    Seq::empty(),
                );
                &&& final(self).position() == p
                &&& match r {
                    Ok(n) => res == Ok::<NodeV, ShellErrorV>(n@),
                    Err(e) => res == Err::<NodeV, ShellErrorV>(e@),
                }
            }),
    {
        let ghost t = self.token_values();
        let mut commands: Vec<Command> = Vec::new();
        let mut current = Command { args: Vec::new(), redirects: Vec::new(), background: false };
        assert(current@ =~= blank_command());
        assert(commands@.map_values(|c: Command| c@) =~= Seq::<CommandV>::empty());
        loop
            invariant_except_break
                parse_from(t, self.pos as int, current@, commands@.map_values(|c: Command| c@))
                    == parse_from(t, old(self).pos as int, blank_command(), Seq::empty()),
            invariant
                self.wf(),
                self.token_values() == t,
                t == old(self).token_values(),
            ensures
                finish_pipeline(current@, commands@.map_values(|c: Command| c@), self.pos as int)
                    == parse_from(t, old(self).pos as int, blank_command(), Seq::empty()),
            decreases self.tokens@.len() - self.pos,
        {
            let ghost p = self.pos as int;
            let ghost cur0 = current@;
            let ghost cmds0 = commands@.map_values(|c: Command| c@);
            let token = match self.advance() {
                Some(tok) => tok,
                None => break ,
            };
            match token {
                Token::Word(w) => {
                    let ghost wv = w@;
                    current.args.push(w);
                    assert(current@ =~= CommandV { args: cur0.args.push(wv), ..cur0 });
                },
                Token::RedirectIn => {
                    match self.advance() {
                        Some(Token::Word(file)) => {
                            current.redirects.push(Redirect::Input(file));
                            assert(current@ =~= CommandV {
                                redirects: cur0.redirects.push(RedirectV::Input(file@)),
                                ..cur0
                            });
                        },
                        _ => {
                            return Err(syntax("Expected file after '<'"));
                        },
                    }
                },
                Token::RedirectOut => {
                    match self.advance() {
                        Some(Token::Word(file)) => {
                            current.redirects.push(Redirect::Output(file));
                            assert(current@ =~= CommandV {
                                redirects: cur0.redirects.push(RedirectV::Output(file@)),
                                ..cur0
                            });
                        },
                        _ => {
                            return Err(syntax("Expected file after '>'"));
                        },
                    }
                },
                Token::AppendOut => {
                    match self.advance() {
                        Some(Token::Word(file)) => {
                            current.redirects.push(Redirect::Append(file));
                            assert(current@ =~= CommandV {
                                redirects: cur0.redirects.push(RedirectV::Append(file@)),
                                ..cur0
                            });
                        },
                        _ => {
                            return Err(syntax("Expected file after '>>'"));
                        },
                    }
                },
                Token::Background => {
                    current.background = true;
                    assert(current@ =~= CommandV { background: true, ..cur0 });
                },
                Token::Pipe => {
                    if current.args.len() == 0 {
                        return Err(syntax("Empty command in pipeline"));
                    }
                    let done = current;
                    current = Command { args: Vec::new(), redirects: Vec::new(), background: false };
                    commands.push(done);
                    assert(current@ =~= blank_command());
                    assert(commands@.map_values(|c: Command| c@) =~= cmds0.push(cur0));
                },
                Token::Semicolon | Token::And | Token::Or => {
                    break ;
                },
                _ => {},
            }
        }
        let ghost cur1 = current@;
        let ghost cmds1 = commands@.map_values(|c: Command| c@);
        if current.args.len() > 0 {
            commands.push(current);
            assert(commands@.map_values(|c: Command| c@) =~= cmds1.push(cur1));
        }
        if commands.len() == 0 {
            return Err(syntax("Empty command"));
        }
        Ok(Node::Pipeline(commands))
    }
}

} // verus!
