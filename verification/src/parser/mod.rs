//! The one-line command parser: splits a line into words and operators
//! (quotes removed, backslash escapes applied, `2>`-style redirections
//! recognized), then builds `&&`/`||`/`;` lists of pipelines, associating to
//! the left.

use vstd::prelude::*;

pub mod ast;
pub mod parser;

use crate::text::{copy_string, str_chars};

verus! {

/// A redirection operator.
#[derive(Debug, Clone, Copy, PartialEq, Eq, Structural)]
pub enum RedirOp {
    In,
    Out,
    Append,
    ErrOut,
    ErrApp,
    AllOut,
    AllApp,
}

/// A token of a command line.
#[derive(Debug, Clone, PartialEq)]
pub enum Token {
    Word(String),
    Pipe,
    And,
    Or,
    Semi,
    Amp,
    Redir(RedirOp),
}

/// A token with its text taken as a sequence of characters.
pub enum LineToken {
    Word(Seq<char>),
    Pipe,
    And,
    Or,
    Semi,
    Amp,
    Redir(RedirOp),
}

impl View for Token {
    type V = LineToken;

    open spec fn view(&self) -> LineToken {
        match self {
            Token::Word(w) => LineToken::Word(w@),
            Token::Pipe => LineToken::Pipe,
            Token::And => LineToken::And,
            Token::Or => LineToken::Or,
            Token::Semi => LineToken::Semi,
            Token::Amp => LineToken::Amp,
            Token::Redir(op) => LineToken::Redir(*op),
        }
    }
}

impl Token {
    /// A copy of this token.
    pub fn duplicate(&self) -> (r: Token)
        ensures
            r@ == self@,
    {
        match self {
            Token::Word(w) => Token::Word(copy_string(w)),
            Token::Pipe => Token::Pipe,
            Token::And => Token::And,
            Token::Or => Token::Or,
            Token::Semi => Token::Semi,
            Token::Amp => Token::Amp,
            Token::Redir(op) => Token::Redir(*op),
        }
    }
}

/// A parsed command line.
#[derive(Debug)]
pub enum Node {
    Pipeline(Pipeline),
    And(Box<Node>, Box<Node>),
    Or(Box<Node>, Box<Node>),
    Sequence(Box<Node>, Box<Node>),
}

/// Commands joined by `|`, optionally run in the background.
#[derive(Debug, Clone)]
pub struct Pipeline {
    pub commands: Vec<Command>,
    pub background: bool,
}

/// A command's words and its redirections.
#[derive(Debug, Clone)]
pub struct Command {
    pub args: Vec<String>,
    pub redirs: Vec<(RedirOp, String)>,
}

/// A command as values.
#[verifier::ext_equal]
pub struct CommandV {
    pub args: Seq<Seq<char>>,
    pub redirs: Seq<(RedirOp, Seq<char>)>,
}

/// A pipeline as values.
#[verifier::ext_equal]
pub struct PipelineV {
    pub commands: Seq<CommandV>,
    pub background: bool,
}

impl Command {
    /// A copy of this command.
    pub fn duplicate(&self) -> (r: Command)
        ensures
            r@ == self@,
    {
        let mut args: Vec<String> = Vec::new();
        let mut i: usize = 0;
        while i < self.args.len()
            invariant
                i <= self.args@.len(),
                args@.map_values(|a: String| a@) == self.args@.map_values(|a: String| a@).subrange(
                    0,
                    i as int,
                ),
            decreases self.args@.len() - i,
        {
            let ghost before = args@.map_values(|a: String| a@);
            args.push(crate::text::copy_string(&self.args[i]));
            assert(args@.map_values(|a: String| a@) =~= before.push(self.args@[i as int]@));
            i = i + 1;
            assert(args@.map_values(|a: String| a@) =~= self.args@.map_values(|a: String| a@).subrange(
                0,
                i as int,
            ));
        }
        let mut redirs: Vec<(RedirOp, String)> = Vec::new();
        let mut j: usize = 0;
        while j < self.redirs.len()
            invariant
                j <= self.redirs@.len(),
                redirs@.map_values(|r: (RedirOp, String)| (r.0, r.1@)) == self.redirs@.map_values(
                    |r: (RedirOp, String)| (r.0, r.1@),
                ).subrange(0, j as int),
            decreases self.redirs@.len() - j,
        {
            let ghost before = redirs@.map_values(|r: (RedirOp, String)| (r.0, r.1@));
            let op = self.redirs[j].0;
            redirs.push((op, crate::text::copy_string(&self.redirs[j].1)));
            assert(redirs@.map_values(|r: (RedirOp, String)| (r.0, r.1@)) =~= before.push(
                (self.redirs@[j as int].0, self.redirs@[j as int].1@),
            ));
            j = j + 1;
            assert(redirs@.map_values(|r: (RedirOp, String)| (r.0, r.1@)) =~= self.redirs@.map_values(
                |r: (RedirOp, String)| (r.0, r.1@),
            ).subrange(0, j as int));
        }
        assert(self.args@.map_values(|a: String| a@).subrange(0, self.args@.len() as int)
            =~= self.args@.map_values(|a: String| a@));
        assert(self.redirs@.map_values(|r: (RedirOp, String)| (r.0, r.1@)).subrange(
            0,
            self.redirs@.len() as int,
        ) =~= self.redirs@.map_values(|r: (RedirOp, String)| (r.0, r.1@)));
        Command { args, redirs }
    }
}

impl Pipeline {
    /// A copy of this pipeline.
    pub fn duplicate(&self) -> (r: Pipeline)
        ensures
            r@ == self@,
    {
        let mut commands: Vec<Command> = Vec::new();
        let mut i: usize = 0;
        while i < self.commands.len()
            invariant
                i <= self.commands@.len(),
                commands@.map_values(|c: Command| c@) == self.commands@.map_values(|c: Command| c@).subrange(
                    0,
                    i as int,
                ),
            decreases self.commands@.len() - i,
        {
            let ghost before = commands@.map_values(|c: Command| c@);
            commands.push(self.commands[i].duplicate());
            assert(commands@.map_values(|c: Command| c@) =~= before.push(self.commands@[i as int]@));
            i = i + 1;
            assert(commands@.map_values(|c: Command| c@) =~= self.commands@.map_values(|c: Command| c@).subrange(
                0,
                i as int,
            ));
        }
        assert(self.commands@.map_values(|c: Command| c@).subrange(0, self.commands@.len() as int)
            =~= self.commands@.map_values(|c: Command| c@));
        Pipeline { commands, background: self.background }
    }
}

/// A parsed line as values.
pub enum NodeV {
    Pipeline(PipelineV),
    And(Box<NodeV>, Box<NodeV>),
    Or(Box<NodeV>, Box<NodeV>),
    Sequence(Box<NodeV>, Box<NodeV>),
}

impl View for Command {
    type V = CommandV;

    open spec fn view(&self) -> CommandV {
        CommandV {
            args: self.args@.map_values(|a: String| a@),
            redirs: self.redirs@.map_values(|r: (RedirOp, String)| (r.0, r.1@)),
        }
    }
}

impl View for Pipeline {
    type V = PipelineV;

    open spec fn view(&self) -> PipelineV {
        PipelineV {
            commands: self.commands@.map_values(|c: Command| c@),
            background: self.background,
        }
    }
}

/// The value of a parsed line.
pub open spec fn node_view(n: Node) -> NodeV
    decreases n,
{
    match n {
        Node::Pipeline(p) => NodeV::Pipeline(p@),
        Node::And(l, r) => NodeV::And(Box::new(node_view(*l)), Box::new(node_view(*r))),
        Node::Or(l, r) => NodeV::Or(Box::new(node_view(*l)), Box::new(node_view(*r))),
        Node::Sequence(l, r) => NodeV::Sequence(Box::new(node_view(*l)), Box::new(node_view(*r))),
    }
}

impl View for Node {
    type V = NodeV;

    open spec fn view(&self) -> NodeV {
        node_view(*self)
    }
}

// ───────────────────────── splitting a line into tokens ─────────────────────────

/// The word collected so far, as a token list: one word, or none if empty.
pub open spec fn flush(w: Seq<char>) -> Seq<LineToken> {
    if w.len() > 0 {
        seq![LineToken::Word(w)]
    } else {
        Seq::empty()
    }
}

/// The body of a region quoted by `q` that starts at `p`: a backslash keeps
/// the character after it; the region ends at the first unescaped `q` (or
/// the end of the line). Also gives the position after the region.
pub open spec fn unquote(s: Seq<char>, p: int, q: char) -> (Seq<char>, int)
    decreases s.len() - p,
{
    if p < 0 || p >= s.len() {
        (Seq::empty(), if p < 0 { p } else { s.len() as int })
    } else if s[p] == '\\' {
        if p + 1 < s.len() {
            let (r, e) = unquote(s, p + 2, q);
            (seq![s[p + 1]] + r, e)
        } else {
            (Seq::empty(), s.len() as int)
        }
    } else if s[p] == q {
        (Seq::empty(), p + 1)
    } else {
        let (r, e) = unquote(s, p + 1, q);
        (seq![s[p]] + r, e)
    }
}

/// The character at `i`, if any.
pub open spec fn at(s: Seq<char>, i: int) -> Option<char> {
    if 0 <= i < s.len() {
        Some(s[i])
    } else {
        None
    }
}

/// The tokens of `s` from position `i`, where `w` is the part of a word
/// already collected.
pub open spec fn line_tokens(s: Seq<char>, i: int, w: Seq<char>) -> Seq<LineToken>
    decreases s.len() - i,
{
    if i < 0 || i >= s.len() {
        flush(w)
    } else {
        let c = s[i];
        if c == ' ' || c == '\t' {
            flush(w) + line_tokens(s, i + 1, Seq::empty())
        } else if c == '\'' || c == '"' {
            let (body, e) = unquote(s, i + 1, c);
            if i < e <= s.len() {
                line_tokens(s, e, w + body)
            } else {
                flush(w)
            }
        } else if c == '\\' {
            if i + 1 < s.len() {
                line_tokens(s, i + 2, w.push(s[i + 1]))
            } else {
                line_tokens(s, i + 1, w)
            }
        } else if c == '|' {
            if at(s, i + 1) == Some('|') {
                flush(w) + seq![LineToken::Or] + line_tokens(s, i + 2, Seq::empty())
            } else {
                flush(w) + seq![LineToken::Pipe] + line_tokens(s, i + 1, Seq::empty())
            }
        } else if c == '&' {
            if at(s, i + 1) == Some('&') {
                flush(w) + seq![LineToken::And] + line_tokens(s, i + 2, Seq::empty())
            } else if at(s, i + 1) == Some('>') {
                if at(s, i + 2) == Some('>') {
                    flush(w) + seq![LineToken::Redir(RedirOp::AllApp)] + line_tokens(
                        s,
                        i + 3,
                        Seq::empty(),
                    )
                } else {
                    flush(w) + seq![LineToken::Redir(RedirOp::AllOut)] + line_tokens(
                        s,
                        i + 2,
                        Seq::empty(),
                    )
                }
            } else {
                flush(w) + seq![LineToken::Amp] + line_tokens(s, i + 1, Seq::empty())
            }
        } else if c == ';' {
            flush(w) + seq![LineToken::Semi] + line_tokens(s, i + 1, Seq::empty())
        } else if c == '<' {
            flush(w) + seq![LineToken::Redir(RedirOp::In)] + line_tokens(s, i + 1, Seq::empty())
        } else if c == '>' {
            if at(s, i + 1) == Some('>') {
                flush(w) + seq![LineToken::Redir(RedirOp::Append)] + line_tokens(
                    s,
                    i + 2,
                    Seq::empty(),
                )
            } else {
                flush(w) + seq![LineToken::Redir(RedirOp::Out)] + line_tokens(
                    s,
                    i + 1,
                    Seq::empty(),
                )
            }
        } else if '0' <= c && c <= '9' && w.len() == 0 && at(s, i + 1) == Some('>') {
            if at(s, i + 2) == Some('>') {
                seq![LineToken::Redir(RedirOp::ErrApp)] + line_tokens(s, i + 3, Seq::empty())
            } else {
                seq![LineToken::Redir(RedirOp::ErrOut)] + line_tokens(s, i + 2, Seq::empty())
            }
        } else {
            line_tokens(s, i + 1, w.push(c))
        }
    }
}

pub proof fn lemma_unquote(s: Seq<char>, p: int, q: char)
    requires
        0 <= p <= s.len(),
    ensures
        p <= unquote(s, p, q).1 <= s.len(),
    decreases s.len() - p,
{
    if p < s.len() {
        if s[p] == '\\' {
            if p + 1 < s.len() {
                lemma_unquote(s, p + 2, q);
            }
        } else if s[p] != q {
            lemma_unquote(s, p + 1, q);
        }
    }
}

/// The tokens of a command line.
#[verifier::rlimit(60)]
pub fn tokenize(input: &str) -> (r: Result<Vec<Token>, String>)
    ensures
        r matches Ok(v) && v@.map_values(|t: Token| t@) == line_tokens(input@, 0, Seq::empty()),
{
    let s = str_chars(input);
    let n = s.len();
    let mut tokens: Vec<Token> = Vec::new();
    let mut current = String::new();
    let mut i: usize = 0;
    while i < n
        invariant
            n == s@.len(),
            i <= n,
            s@ == input@,
            tokens@.map_values(|t: Token| t@) + line_tokens(s@, i as int, current@) == line_tokens(
                s@,
                0,
                Seq::empty(),
            ),
        decreases n - i,
    {
        let ghost i0 = i as int;
        let ghost w0 = current@;
        let ghost t0 = tokens@.map_values(|t: Token| t@);
        let c = s[i];
        i = i + 1;
        if c == ' ' || c == '\t' {
            push_word(&mut current, &mut tokens);
            proof {
                assert(t0 + line_tokens(s@, i0, w0) =~= tokens@.map_values(|t: Token| t@)
                    + line_tokens(s@, i as int, current@));
            }
        } else if c == '\'' || c == '"' {
            let quote = c;
            proof {
                lemma_unquote(s@, i0 + 1, quote);
            }
            loop
                invariant_except_break
                    w0 + unquote(s@, i0 + 1, quote).0 == current@ + unquote(s@, i as int, quote).0,
                    unquote(s@, i0 + 1, quote).1 == unquote(s@, i as int, quote).1,
                invariant
                    n == s@.len(),
                    i0 < i <= n,
                ensures
                    w0 + unquote(s@, i0 + 1, quote).0 == current@,
                    unquote(s@, i0 + 1, quote).1 == i,
                decreases n - i,
            {
                if i >= n {
                    assert(current@ + Seq::<char>::empty() =~= current@);
                    break ;
                }
                let next = s[i];
                if next == '\\' {
                    if i + 1 < n {
                        let ghost before = current@;
                        current.push(s[i + 1]);
                        proof {
                            let (r, e) = unquote(s@, i + 2, quote);
                            assert(before + (seq![s@[i + 1]] + r) =~= current@ + r);
                        }
                        i = i + 2;
                    } else {
                        assert(current@ + Seq::<char>::empty() =~= current@);
                        i = n;
                        break ;
                    }
                } else if next == quote {
                    assert(current@ + Seq::<char>::empty() =~= current@);
                    i = i + 1;
                    break ;
                } else {
                    let ghost before = current@;
                    current.push(next);
                    proof {
                        let (r, e) = unquote(s@, i + 1, quote);
                        assert(before + (seq![next] + r) =~= current@ + r);
                    }
                    i = i + 1;
                }
            }
            proof {
                assert(w0 + unquote(s@, i0 + 1, quote).0 == current@);
                assert(line_tokens(s@, i0, w0) == line_tokens(s@, i as int, current@));
            }
        } else if c == '\\' {
            if i < n {
                current.push(s[i]);
                i = i + 1;
            }
            proof {
                assert(line_tokens(s@, i0, w0) == line_tokens(s@, i as int, current@));
            }
        } else if c == '|' {
            push_word(&mut current, &mut tokens);
            if i < n && s[i] == '|' {
                i = i + 1;
                tokens.push(Token::Or);
            } else {
                tokens.push(Token::Pipe);
            }
            proof {
                assert(tokens@.map_values(|t: Token| t@) =~= t0 + flush(w0) + seq![
                    tokens@.last()@,
                ]);
                assert(t0 + line_tokens(s@, i0, w0) =~= tokens@.map_values(|t: Token| t@)
                    + line_tokens(s@, i as int, current@));
            }
        } else if c == '&' {
            push_word(&mut current, &mut tokens);
            if i < n && s[i] == '&' {
                i = i + 1;
                tokens.push(Token::And);
            } else if i < n && s[i] == '>' {
                i = i + 1;
                if i < n && s[i] == '>' {
                    i = i + 1;
                    tokens.push(Token::Redir(RedirOp::AllApp));
                } else {
                    tokens.push(Token::Redir(RedirOp::AllOut));
                }
            } else {
                tokens.push(Token::Amp);
            }
            proof {
                assert(tokens@.map_values(|t: Token| t@) =~= t0 + flush(w0) + seq![
                    tokens@.last()@,
                ]);
                assert(t0 + line_tokens(s@, i0, w0) =~= tokens@.map_values(|t: Token| t@)
                    + line_tokens(s@, i as int, current@));
            }
        } else if c == ';' {
            push_word(&mut current, &mut tokens);
            tokens.push(Token::Semi);
            proof {
                assert(tokens@.map_values(|t: Token| t@) =~= t0 + flush(w0) + seq![
                    tokens@.last()@,
                ]);
                assert(t0 + line_tokens(s@, i0, w0) =~= tokens@.map_values(|t: Token| t@)
                    + line_tokens(s@, i as int, current@));
            }
        } else if c == '<' {
            push_word(&mut current, &mut tokens);
            tokens.push(Token::Redir(RedirOp::In));
            proof {
                assert(tokens@.map_values(|t: Token| t@) =~= t0 + flush(w0) + seq![
                    tokens@.last()@,
                ]);
                assert(t0 + line_tokens(s@, i0, w0) =~= tokens@.map_values(|t: Token| t@)
                    + line_tokens(s@, i as int, current@));
            }
        } else if c == '>' {
            push_word(&mut current, &mut tokens);
            if i < n && s[i] == '>' {
                i = i + 1;
                tokens.push(Token::Redir(RedirOp::Append));
            } else {
                tokens.push(Token::Redir(RedirOp::Out));
            }
            proof {
                assert(tokens@.map_values(|t: Token| t@) =~= t0 + flush(w0) + seq![
                    tokens@.last()@,
                ]);
                assert(t0 + line_tokens(s@, i0, w0) =~= tokens@.map_values(|t: Token| t@)
                    + line_tokens(s@, i as int, current@));
            }
        } else if '0' <= c && c <= '9' && current.as_str().is_empty() && i < n && s[i] == '>' {
            i = i + 1;
            if i < n && s[i] == '>' {
                i = i + 1;
                tokens.push(Token::Redir(RedirOp::ErrApp));
            } else {
                tokens.push(Token::Redir(RedirOp::ErrOut));
            }
            proof {
                assert(w0.len() == 0);
                assert(current@ =~= Seq::<char>::empty());
                assert(flush(w0) =~= Seq::<LineToken>::empty());
                assert(line_tokens(s@, i0, w0) == seq![tokens@.last()@] + line_tokens(
                    s@,
                    i as int,
                    Seq::empty(),
                ));
                assert(tokens@.map_values(|t: Token| t@) =~= t0 + seq![tokens@.last()@]);
                assert(t0 + line_tokens(s@, i0, w0) =~= tokens@.map_values(|t: Token| t@)
                    + line_tokens(s@, i as int, current@));
            }
        } else {
            current.push(c);
            proof {
                assert(line_tokens(s@, i0, w0) == line_tokens(s@, i as int, current@));
            }
        }
    }
    let ghost t0 = tokens@.map_values(|t: Token| t@);
    let ghost w0 = current@;
    push_word(&mut current, &mut tokens);
    proof {
        assert(tokens@.map_values(|t: Token| t@) =~= t0 + flush(w0));
    }
    Ok(tokens)
}

/// Moves the collected word, if any, into `tokens` as a word token.
fn push_word(current: &mut String, tokens: &mut Vec<Token>)
    ensures
        final(current)@ == Seq::<char>::empty(),
        final(tokens)@.map_values(|t: Token| t@) == old(tokens)@.map_values(|t: Token| t@) + flush(
            old(current)@,
        ),
{
    let ghost before = tokens@;
    if !current.as_str().is_empty() {
        let w = copy_string(current);
        tokens.push(Token::Word(w));
        *current = String::new();
        assert(tokens@.map_values(|t: Token| t@) =~= before.map_values(|t: Token| t@) + flush(
            old(current)@,
        ));
    } else {
        *current = String::new();
        assert(tokens@.map_values(|t: Token| t@) =~= before.map_values(|t: Token| t@) + flush(
            old(current)@,
        ));
    }
}


// ───────────────────────── building the list of pipelines ─────────────────────────

/// The message for a redirection operator with no file name after it.
pub open spec fn msg_expected_filename() -> Seq<char> {
    "Expected filename after redirection"@
}

/// The message for a command with neither words nor redirections.
pub open spec fn msg_empty_command() -> Seq<char> {
    "Empty command"@
}

/// The message for a line with no tokens.
pub open spec fn msg_empty_input() -> Seq<char> {
    "empty input"@
}

/// The token at `p`, if any.
pub open spec fn tok_at(t: Seq<LineToken>, p: int) -> Option<LineToken> {
    if 0 <= p < t.len() {
        Some(t[p])
    } else {
        None
    }
}

/// A command whose words and redirections so far are `args` and `redirs`,
/// continued from token `p`: words and `op file` pairs are taken until any
/// other token. Gives the command and the position after it.
pub open spec fn command_from(
    t: Seq<LineToken>,
    p: int,
    args: Seq<Seq<char>>,
    redirs: Seq<(RedirOp, Seq<char>)>,
) -> Result<(CommandV, int), Seq<char>>
    decreases t.len() - p,
{
    match tok_at(t, p) {
        Some(LineToken::Word(w)) => command_from(t, p + 1, args.push(w), redirs),
        Some(LineToken::Redir(op)) => match tok_at(t, p + 1) {
            Some(LineToken::Word(f)) => command_from(t, p + 2, args, redirs.push((op, f))),
            _ => Err(msg_expected_filename()),
        },
        _ => if args.len() == 0 && redirs.len() == 0 {
            Err(msg_empty_command())
        } else {
            Ok((CommandV { args, redirs }, p))
        },
    }
}

/// A command starting at token `p`.
pub open spec fn command_at(t: Seq<LineToken>, p: int) -> Result<(CommandV, int), Seq<char>> {
    command_from(t, p, Seq::empty(), Seq::empty())
}

/// A pipeline whose commands so far are `cmds`, continued from token `p`:
/// each `|` is followed by another command; a final `&` marks it as
/// backgrounded.
pub open spec fn pipeline_from(t: Seq<LineToken>, p: int, cmds: Seq<CommandV>) -> Result<
    (PipelineV, int),
    Seq<char>,
>
    decreases t.len() - p,
{
    if tok_at(t, p) == Some(LineToken::Pipe) {
        match command_at(t, p + 1) {
            Err(e) => Err(e),
            Ok((c, q)) => if p < q <= t.len() {
                pipeline_from(t, q, cmds.push(c))
            } else {
                Err(msg_empty_command())
            },
        }
    } else {
        let bg = tok_at(t, p) == Some(LineToken::Amp);
        Ok((PipelineV { commands: cmds, background: bg }, if bg { p + 1 } else { p }))
    }
}

/// A pipeline starting at token `p`.
pub open spec fn pipeline_at(t: Seq<LineToken>, p: int) -> Result<(PipelineV, int), Seq<char>> {
    match command_at(t, p) {
        Err(e) => Err(e),
        Ok((c, q)) => pipeline_from(t, q, seq![c]),
    }
}

/// A list whose left part so far is `left`, continued from token `p`: each
/// `&&`, `||` or `;` joins the next pipeline to everything before it; a `;`
/// at the very end of the line ends the list.
pub open spec fn list_from(t: Seq<LineToken>, p: int, left: NodeV) -> Result<(NodeV, int), Seq<char>>
    decreases t.len() - p,
{
    match tok_at(t, p) {
        Some(LineToken::And) => match pipeline_at(t, p + 1) {
            Err(e) => Err(e),
            Ok((r, q)) => if p < q <= t.len() {
                list_from(t, q, NodeV::And(Box::new(left), Box::new(NodeV::Pipeline(r))))
            } else {
                Err(msg_empty_command())
            },
        },
        Some(LineToken::Or) => match pipeline_at(t, p + 1) {
            Err(e) => Err(e),
            Ok((r, q)) => if p < q <= t.len() {
                list_from(t, q, NodeV::Or(Box::new(left), Box::new(NodeV::Pipeline(r))))
            } else {
                Err(msg_empty_command())
            },
        },
        Some(LineToken::Semi) => if p + 1 >= t.len() {
            Ok((left, p + 1))
        } else {
            match pipeline_at(t, p + 1) {
                Err(e) => Err(e),
                Ok((r, q)) => if p < q <= t.len() {
                    list_from(t, q, NodeV::Sequence(Box::new(left), Box::new(NodeV::Pipeline(r))))
                } else {
                    Err(msg_empty_command())
                },
            }
        },
        _ => Ok((left, p)),
    }
}

/// What `parse` gives for the tokens `t`.
pub open spec fn parse_tokens(t: Seq<LineToken>) -> Result<NodeV, Seq<char>> {
    if t.len() == 0 {
        Err(msg_empty_input())
    } else {
        match pipeline_at(t, 0) {
            Err(e) => Err(e),
            Ok((pl, q)) => match list_from(t, q, NodeV::Pipeline(pl)) {
                Err(e) => Err(e),
                Ok((n, _)) => Ok(n),
            },
        }
    }
}

/// What `parse` gives for the line `s`.
pub open spec fn parse_line(s: Seq<char>) -> Result<NodeV, Seq<char>> {
    parse_tokens(line_tokens(s, 0, Seq::empty()))
}

/// Every pipeline of `n` has a command, and every command has words or
/// redirections.
pub open spec fn well_formed(n: NodeV) -> bool
    decreases n,
{
    match n {
        NodeV::Pipeline(p) => pipeline_ok(p),
        NodeV::And(l, r) => well_formed(*l) && well_formed(*r),
        NodeV::Or(l, r) => well_formed(*l) && well_formed(*r),
        NodeV::Sequence(l, r) => well_formed(*l) && well_formed(*r),
    }
}

/// The pipeline has a command, and each has words or redirections.
pub open spec fn pipeline_ok(p: PipelineV) -> bool {
    p.commands.len() > 0 && forall|i: int| 0 <= i < p.commands.len() ==> command_ok(#[trigger] p.commands[i])
}

/// The command has words or redirections.
pub open spec fn command_ok(c: CommandV) -> bool {
    c.args.len() > 0 || c.redirs.len() > 0
}

proof fn lemma_command_ok(t: Seq<LineToken>, p: int, args: Seq<Seq<char>>, redirs: Seq<(RedirOp, Seq<char>)>)
    ensures
        command_from(t, p, args, redirs) matches Ok((c, _)) ==> command_ok(c),
    decreases t.len() - p,
{
    match tok_at(t, p) {
        Some(LineToken::Word(w)) => lemma_command_ok(t, p + 1, args.push(w), redirs),
        Some(LineToken::Redir(op)) => match tok_at(t, p + 1) {
            Some(LineToken::Word(f)) => lemma_command_ok(t, p + 2, args, redirs.push((op, f))),
            _ => {},
        },
        _ => {},
    }
}

proof fn lemma_pipeline_ok(t: Seq<LineToken>, p: int, cmds: Seq<CommandV>)
    requires
        cmds.len() > 0,
        forall|i: int| 0 <= i < cmds.len() ==> command_ok(#[trigger] cmds[i]),
    ensures
        pipeline_from(t, p, cmds) matches Ok((pl, _)) ==> pipeline_ok(pl),
    decreases t.len() - p,
{
    if tok_at(t, p) == Some(LineToken::Pipe) {
        lemma_command_ok(t, p + 1, Seq::empty(), Seq::empty());
        match command_at(t, p + 1) {
            Err(e) => {},
            Ok((c, q)) => if p < q <= t.len() {
                let c2 = cmds.push(c);
                assert forall|i: int| 0 <= i < c2.len() implies command_ok(#[trigger] c2[i]) by {
                    if i < cmds.len() {
                        assert(c2[i] == cmds[i]);
                    }
                }
                lemma_pipeline_ok(t, q, c2);
            },
        }
    }
}

proof fn lemma_pipeline_at_ok(t: Seq<LineToken>, p: int)
    ensures
        pipeline_at(t, p) matches Ok((pl, _)) ==> pipeline_ok(pl),
{
    lemma_command_ok(t, p, Seq::empty(), Seq::empty());
    match command_at(t, p) {
        Err(e) => {},
        Ok((c, q)) => {
            assert(seq![c][0] == c);
            lemma_pipeline_ok(t, q, seq![c]);
        },
    }
}

proof fn lemma_list_ok(t: Seq<LineToken>, p: int, left: NodeV)
    requires
        well_formed(left),
    ensures
        list_from(t, p, left) matches Ok((n, _)) ==> well_formed(n),
    decreases t.len() - p,
{
    lemma_pipeline_at_ok(t, p + 1);
    match tok_at(t, p) {
        Some(LineToken::And) => match pipeline_at(t, p + 1) {
            Err(e) => {},
            Ok((r, q)) => if p < q <= t.len() {
                let n2 = NodeV::And(Box::new(left), Box::new(NodeV::Pipeline(r)));
                assert(well_formed(NodeV::Pipeline(r)));
                assert(well_formed(n2));
                lemma_list_ok(t, q, n2);
            },
        },
        Some(LineToken::Or) => match pipeline_at(t, p + 1) {
            Err(e) => {},
            Ok((r, q)) => if p < q <= t.len() {
                let n2 = NodeV::Or(Box::new(left), Box::new(NodeV::Pipeline(r)));
                assert(well_formed(NodeV::Pipeline(r)));
                assert(well_formed(n2));
                lemma_list_ok(t, q, n2);
            },
        },
        Some(LineToken::Semi) => if p + 1 < t.len() {
            match pipeline_at(t, p + 1) {
                Err(e) => {},
                Ok((r, q)) => if p < q <= t.len() {
                    let n2 = NodeV::Sequence(Box::new(left), Box::new(NodeV::Pipeline(r)));
                assert(well_formed(NodeV::Pipeline(r)));
                assert(well_formed(n2));
                lemma_list_ok(t, q, n2);
                },
            }
        },
        _ => {},
    }
}

/// A parsed line is well formed: each of its pipelines has a command, and
/// each command has words or redirections.
pub proof fn law_parsed_well_formed(s: Seq<char>)
    ensures
        parse_line(s) matches Ok(n) ==> well_formed(n),
{
    let t = line_tokens(s, 0, Seq::empty());
    if t.len() > 0 {
        lemma_pipeline_at_ok(t, 0);
        match pipeline_at(t, 0) {
            Err(e) => {},
            Ok((pl, q)) => {
                lemma_list_ok(t, q, NodeV::Pipeline(pl));
            },
        }
    }
}

pub proof fn lemma_command_from(
    t: Seq<LineToken>,
    p: int,
    args: Seq<Seq<char>>,
    redirs: Seq<(RedirOp, Seq<char>)>,
)
    requires
        0 <= p <= t.len(),
    ensures
        command_from(t, p, args, redirs) matches Ok((_, q)) ==> p <= q <= t.len(),
    decreases t.len() - p,
{
    match tok_at(t, p) {
        Some(LineToken::Word(w)) => lemma_command_from(t, p + 1, args.push(w), redirs),
        Some(LineToken::Redir(op)) => match tok_at(t, p + 1) {
            Some(LineToken::Word(f)) => lemma_command_from(t, p + 2, args, redirs.push((op, f))),
            _ => {},
        },
        _ => {},
    }
}

pub proof fn lemma_pipeline_from(t: Seq<LineToken>, p: int, cmds: Seq<CommandV>)
    requires
        0 <= p <= t.len(),
    ensures
        pipeline_from(t, p, cmds) matches Ok((_, q)) ==> p <= q <= t.len(),
    decreases t.len() - p,
{
    if tok_at(t, p) == Some(LineToken::Pipe) {
        lemma_command_from(t, p + 1, Seq::empty(), Seq::empty());
        match command_at(t, p + 1) {
            Err(e) => {},
            Ok((c, q)) => if p < q <= t.len() {
                lemma_pipeline_from(t, q, cmds.push(c));
            },
        }
    }
}

pub proof fn lemma_pipeline_at(t: Seq<LineToken>, p: int)
    requires
        0 <= p <= t.len(),
    ensures
        pipeline_at(t, p) matches Ok((_, q)) ==> p <= q <= t.len(),
{
    lemma_command_from(t, p, Seq::empty(), Seq::empty());
    match command_at(t, p) {
        Err(e) => {},
        Ok((c, q)) => lemma_pipeline_from(t, q, seq![c]),
    }
}

/// A `String` holding `s`.
pub fn text_of(s: &str) -> (r: String)
    ensures
        r@ == s@,
{
    String::from_str(s)
}

struct Parser {
    tokens: Vec<Token>,
    pos: usize,
}

impl Parser {
    spec fn toks(&self) -> Seq<LineToken> {
        self.tokens@.map_values(|t: Token| t@)
    }

    spec fn wf(&self) -> bool {
        self.pos <= self.tokens@.len()
    }

    fn peek(&self) -> (t: Option<&Token>)
        requires
            self.wf(),
        ensures
            self.tokens@.len() <= usize::MAX,
            t is Some <==> self.pos < self.tokens@.len(),
            match t {
                Some(x) => tok_at(self.toks(), self.pos as int) == Some(x@),
                None => tok_at(self.toks(), self.pos as int) is None,
            },
    {
        if self.pos < self.tokens.len() {
            Some(&self.tokens[self.pos])
        } else {
            None
        }
    }

    fn next(&mut self) -> (t: Option<Token>)
        requires
            old(self).wf(),
        ensures
            final(self).wf(),
            final(self).tokens@ == old(self).tokens@,
            final(self).pos == if old(self).pos < old(self).tokens@.len() {
                old(self).pos + 1
            } else {
                old(self).pos as int
            },
            match t {
                Some(x) => tok_at(old(self).toks(), old(self).pos as int) == Some(x@),
                None => tok_at(old(self).toks(), old(self).pos as int) is None,
            },
    {
        if self.pos < self.tokens.len() {
            let t = self.tokens[self.pos].duplicate();
            self.pos = self.pos + 1;
            Some(t)
        } else {
            None
        }
    }

    fn parse_command(&mut self) -> (r: Result<Command, String>)
        requires
            old(self).wf(),
        ensures
            final(self).wf(),
            final(self).tokens@ == old(self).tokens@,
            match r {
                Ok(c) => command_at(old(self).toks(), old(self).pos as int) == Ok::<
                    (CommandV, int),
                    Seq<char>,
                >((c@, final(self).pos as int)),
                Err(e) => command_at(old(self).toks(), old(self).pos as int) == Err::<
                    (CommandV, int),
                    Seq<char>,
                >(e@),
            },
    {
        let mut args: Vec<String> = Vec::new();
        let mut redirs: Vec<(RedirOp, String)> = Vec::new();
        assert(args@.map_values(|a: String| a@) =~= Seq::<Seq<char>>::empty());
        assert(redirs@.map_values(|r: (RedirOp, String)| (r.0, r.1@)) =~= Seq::<
            (RedirOp, Seq<char>),
        >::empty());
        loop
            invariant
                self.wf(),
                self.tokens@ == old(self).tokens@,
                command_from(
                    self.toks(),
                    self.pos as int,
                    args@.map_values(|a: String| a@),
                    redirs@.map_values(|r: (RedirOp, String)| (r.0, r.1@)),
                ) == command_at(old(self).toks(), old(self).pos as int),
            decreases self.tokens@.len() - self.pos,
        {
            let ghost a0 = args@;
            let ghost r0 = redirs@;
            match self.peek() {
                Some(Token::Word(w)) => {
                    assert(self.pos < self.tokens@.len());
                    let w2 = copy_string(w);
                    args.push(w2);
                    self.pos = self.pos + 1;
                    assert(args@.map_values(|a: String| a@) =~= a0.map_values(|a: String| a@).push(
                        w2@,
                    ));
                },
                Some(Token::Redir(op)) => {
                    let op = *op;
                    self.pos = self.pos + 1;
                    match self.next() {
                        Some(Token::Word(file)) => {
                            redirs.push((op, file));
                            assert(redirs@.map_values(|r: (RedirOp, String)| (r.0, r.1@))
                                =~= r0.map_values(|r: (RedirOp, String)| (r.0, r.1@)).push(
                                (op, file@),
                            ));
                        },
                        _ => {
                            return Err(text_of("Expected filename after redirection"));
                        },
                    }
                },
                _ => {
                    if args.len() == 0 && redirs.len() == 0 {
                        return Err(text_of("Empty command"));
                    }
                    return Ok(Command { args, redirs });
                },
            }
        }
    }

    fn parse_pipeline(&mut self) -> (r: Result<Pipeline, String>)
        requires
            old(self).wf(),
        ensures
            final(self).wf(),
            final(self).tokens@ == old(self).tokens@,
            match r {
                Ok(p) => pipeline_at(old(self).toks(), old(self).pos as int) == Ok::<
                    (PipelineV, int),
                    Seq<char>,
                >((p@, final(self).pos as int)),
                Err(e) => pipeline_at(old(self).toks(), old(self).pos as int) == Err::<
                    (PipelineV, int),
                    Seq<char>,
                >(e@),
            },
    {
        let first = match self.parse_command() {
            Ok(c) => c,
            Err(e) => return Err(e),
        };
        let ghost first_v = first@;
        let mut commands: Vec<Command> = Vec::new();
        commands.push(first);
        assert(commands@.map_values(|c: Command| c@) =~= seq![first_v]);
        loop
            invariant
                self.wf(),
                self.tokens@ == old(self).tokens@,
                pipeline_from(self.toks(), self.pos as int, commands@.map_values(|c: Command| c@))
                    == pipeline_at(old(self).toks(), old(self).pos as int),
            ensures
                self.wf(),
                self.tokens@ == old(self).tokens@,
                pipeline_from(self.toks(), self.pos as int, commands@.map_values(|c: Command| c@))
                    == pipeline_at(old(self).toks(), old(self).pos as int),
                tok_at(self.toks(), self.pos as int) != Some(LineToken::Pipe),
            decreases self.tokens@.len() - self.pos,
        {
            let is_pipe = match self.peek() {
                Some(Token::Pipe) => true,
                _ => false,
            };
            if !is_pipe {
                break ;
            }
            let ghost p = self.pos as int;
            self.pos = self.pos + 1;
            proof {
                lemma_command_from(self.toks(), self.pos as int, Seq::empty(), Seq::empty());
            }
            let ghost c0 = commands@;
            match self.parse_command() {
                Ok(c) => {
                    commands.push(c);
                    assert(commands@.map_values(|c: Command| c@) =~= c0.map_values(
                        |c: Command| c@,
                    ).push(c@));
                },
                Err(e) => return Err(e),
            }
        }
        let ghost p0 = self.pos as int;
        let ghost cv0 = commands@.map_values(|c: Command| c@);
        let mut background = false;
        let is_amp = match self.peek() {
            Some(Token::Amp) => true,
            _ => false,
        };
        if is_amp {
            self.pos = self.pos + 1;
            background = true;
        }
        let r = Pipeline { commands, background };
        proof {
            let cv = r.commands@.map_values(|c: Command| c@);
            assert(r@ == PipelineV { commands: cv, background });
            assert(pipeline_from(old(self).toks(), p0, cv0) == pipeline_at(old(self).toks(), old(self).pos as int));
            assert(pipeline_from(old(self).toks(), p0, cv0) == Ok::<(PipelineV, int), Seq<char>>((PipelineV { commands: cv, background }, self.pos as int)));
        }
        Ok(r)
    }

    fn parse_expr(&mut self) -> (r: Result<Node, String>)
        requires
            old(self).wf(),
            old(self).pos == 0,
            old(self).tokens@.len() > 0,
        ensures
            match r {
                Ok(n) => parse_tokens(old(self).toks()) == Ok::<NodeV, Seq<char>>(n@),
                Err(e) => parse_tokens(old(self).toks()) == Err::<NodeV, Seq<char>>(e@),
            },
    {
        let ghost t = self.toks();
        let first = match self.parse_pipeline() {
            Ok(p) => p,
            Err(e) => return Err(e),
        };
        let mut left = Node::Pipeline(first);
        loop
            invariant_except_break
                parse_tokens(t) == match list_from(t, self.pos as int, left@) {
                    Err(e) => Err(e),
                    Ok((n, _)) => Ok::<NodeV, Seq<char>>(n),
                },
            invariant
                self.wf(),
                self.toks() == t,
                t == old(self).toks(),
            ensures
                parse_tokens(t) == Ok::<NodeV, Seq<char>>(left@),
            decreases self.tokens@.len() - self.pos,
        {
            let p = self.pos;
            let op: u8 = match self.peek() {
                Some(Token::And) => 1,
                Some(Token::Or) => 2,
                Some(Token::Semi) => 3,
                _ => 0,
            };
            if op == 0 {
                break ;
            }
            proof {
                assert(tok_at(t, p as int) == Some(
                    if op == 1 {
                        LineToken::And
                    } else if op == 2 {
                        LineToken::Or
                    } else {
                        LineToken::Semi
                    },
                ));
            }
            self.pos = self.pos + 1;
            if op == 3 && self.pos >= self.tokens.len() {
                break ;
            }
            proof {
                lemma_pipeline_at(t, self.pos as int);
            }
            let ghost lv0 = left@;
            let right = match self.parse_pipeline() {
                Ok(r) => r,
                Err(e) => {
                    proof {
                        assert(pipeline_at(t, p + 1) == Err::<(PipelineV, int), Seq<char>>(e@));
                        assert(list_from(t, p as int, lv0) == Err::<(NodeV, int), Seq<char>>(
                            e@,
                        ));
                    }
                    return Err(e);
                },
            };
            proof {
                assert(tok_at(t, p as int) == Some(
                    if op == 1 {
                        LineToken::And
                    } else if op == 2 {
                        LineToken::Or
                    } else {
                        LineToken::Semi
                    },
                ));
            }
            let ghost lv = left@;
            let ghost rv = right@;
            let rnode = Node::Pipeline(right);
            assert(rnode@ == NodeV::Pipeline(rv));
            left = if op == 1 {
                Node::And(Box::new(left), Box::new(rnode))
            } else if op == 2 {
                Node::Or(Box::new(left), Box::new(rnode))
            } else {
                Node::Sequence(Box::new(left), Box::new(rnode))
            };
            proof {
                if op == 1 {
                    assert(left@ == NodeV::And(Box::new(lv), Box::new(NodeV::Pipeline(rv))));
                } else if op == 2 {
                    assert(left@ == NodeV::Or(Box::new(lv), Box::new(NodeV::Pipeline(rv))));
                } else {
                    assert(left@ == NodeV::Sequence(Box::new(lv), Box::new(NodeV::Pipeline(rv))));
                }
            }
        }
        Ok(left)
    }
}

/// Parses a command line into a list of pipelines.
pub fn parse(input: &str) -> (r: Result<Node, String>)
    ensures
        match r {
            Ok(n) => parse_line(input@) == Ok::<NodeV, Seq<char>>(n@),
            Err(e) => parse_line(input@) == Err::<NodeV, Seq<char>>(e@),
        },
{
    let tokens = match tokenize(input) {
        Ok(t) => t,
        Err(e) => return Err(e),
    };
    if tokens.len() == 0 {
        return Err(text_of("empty input"));
    }
    let mut parser = Parser { tokens, pos: 0 };
    parser.parse_expr()
}
/// A character that goes on a plain word: no blank, quote, backslash or
/// operator character.
pub open spec fn word_char(c: char) -> bool {
    &&& c != ' ' && c != '\t' && c != '\'' && c != '"' && c != '\\'
    &&& c != '|' && c != '&' && c != ';' && c != '<' && c != '>'
}

proof fn lemma_word_run(s: Seq<char>, i: int, j: int, w: Seq<char>)
    requires
        0 <= i <= j <= s.len(),
        forall|k: int| i <= k < j ==> word_char(#[trigger] s[k]),
        j < s.len() ==> s[j] == ' ',
    ensures
        line_tokens(s, i, w) == line_tokens(s, j, w + s.subrange(i, j)),
    decreases j - i,
{
    if i < j {
        assert(word_char(s[i]));
        assert(i + 1 < j ==> word_char(s[i + 1]));
        assert(at(s, i + 1) != Some('>'));
        lemma_word_run(s, i + 1, j, w.push(s[i]));
        assert(w.push(s[i]) + s.subrange(i + 1, j) =~= w + s.subrange(i, j));
    } else {
        assert(w + s.subrange(i, j) =~= w);
    }
}

proof fn lemma_around_op(a: Seq<char>, op: Seq<char>, f: Seq<char>)
    requires
        a.len() > 0,
        f.len() > 0,
        op.len() > 0,
        forall|k: int| 0 <= k < a.len() ==> word_char(#[trigger] a[k]),
        forall|k: int| 0 <= k < f.len() ==> word_char(#[trigger] f[k]),
    ensures
        ({
            let s = a + " "@ + op + " "@ + f;
            let n = a.len() as int;
            &&& line_tokens(s, 0, Seq::empty()) == seq![LineToken::Word(a)] + line_tokens(
                s,
                n + 1,
                Seq::empty(),
            )
            &&& line_tokens(s, n + 1 + op.len(), Seq::empty()) == seq![LineToken::Word(f)]
            &&& forall|k: int| 0 <= k < op.len() ==> #[trigger] s[n + 1 + k] == op[k]
            &&& s.len() == n + 2 + op.len() + f.len()
            &&& s[n + 1 + op.len()] == ' '
        }),
{
    reveal_strlit(" ");
    let s = a + " "@ + op + " "@ + f;
    let n = a.len() as int;
    let q = n + 1 + op.len();
    let l = s.len() as int;
    assert(s[n] == ' ' && s[q] == ' ');
    assert forall|k: int| 0 <= k < op.len() implies #[trigger] s[n + 1 + k] == op[k] by {}
    assert forall|k: int| 0 <= k < n implies word_char(#[trigger] s[k]) by {
        assert(s[k] == a[k]);
    }
    assert forall|k: int| q + 1 <= k < l implies word_char(#[trigger] s[k]) by {
        assert(s[k] == f[k - q - 1]);
    }
    lemma_word_run(s, 0, n, Seq::empty());
    lemma_word_run(s, q + 1, l, Seq::empty());
    assert(Seq::<char>::empty() + s.subrange(0, n) =~= a);
    assert(Seq::<char>::empty() + s.subrange(q + 1, l) =~= f);
    assert(line_tokens(s, n, a) == seq![LineToken::Word(a)] + line_tokens(s, n + 1, Seq::empty()));
    assert(line_tokens(s, l, f) == seq![LineToken::Word(f)]);
    assert(line_tokens(s, q, Seq::empty()) =~= seq![LineToken::Word(f)]);
}

proof fn lemma_pipe_between_words(a: Seq<char>, f: Seq<char>)
    requires
        a.len() > 0,
        f.len() > 0,
        forall|k: int| 0 <= k < a.len() ==> word_char(#[trigger] a[k]),
        forall|k: int| 0 <= k < f.len() ==> word_char(#[trigger] f[k]),
    ensures
        line_tokens(a + " "@ + "|"@ + " "@ + f, 0, Seq::empty()) == seq![
            LineToken::Word(a),
            LineToken::Pipe,
            LineToken::Word(f),
        ],
{
    reveal_strlit("|");
    lemma_around_op(a, "|"@, f);
    let s = a + " "@ + "|"@ + " "@ + f;
    let n = a.len() as int;
    assert(s[n + 1 + 0] == '|');
    assert(s[n + 1 + 1] == ' ');
    assert(line_tokens(s, n + 1, Seq::empty()) == seq![LineToken::Pipe] + line_tokens(
        s,
        n + 1 + 1,
        Seq::empty(),
    ));
    assert(seq![LineToken::Word(a)] + (seq![LineToken::Pipe] + seq![LineToken::Word(f)]) =~= seq![
        LineToken::Word(a),
        LineToken::Pipe,
        LineToken::Word(f),
    ]);
}

proof fn lemma_or_between_words(a: Seq<char>, f: Seq<char>)
    requires
        a.len() > 0,
        f.len() > 0,
        forall|k: int| 0 <= k < a.len() ==> word_char(#[trigger] a[k]),
        forall|k: int| 0 <= k < f.len() ==> word_char(#[trigger] f[k]),
    ensures
        line_tokens(a + " "@ + "||"@ + " "@ + f, 0, Seq::empty()) == seq![
            LineToken::Word(a),
            LineToken::Or,
            LineToken::Word(f),
        ],
{
    reveal_strlit("||");
    lemma_around_op(a, "||"@, f);
    let s = a + " "@ + "||"@ + " "@ + f;
    let n = a.len() as int;
    assert(s[n + 1 + 0] == '|');
    assert(s[n + 1 + 1] == '|');
    assert(s[n + 1 + 2] == ' ');
    assert(line_tokens(s, n + 1, Seq::empty()) == seq![LineToken::Or] + line_tokens(
        s,
        n + 1 + 2,
        Seq::empty(),
    ));
    assert(seq![LineToken::Word(a)] + (seq![LineToken::Or] + seq![LineToken::Word(f)]) =~= seq![
        LineToken::Word(a),
        LineToken::Or,
        LineToken::Word(f),
    ]);
}

proof fn lemma_and_between_words(a: Seq<char>, f: Seq<char>)
    requires
        a.len() > 0,
        f.len() > 0,
        forall|k: int| 0 <= k < a.len() ==> word_char(#[trigger] a[k]),
        forall|k: int| 0 <= k < f.len() ==> word_char(#[trigger] f[k]),
    ensures
        line_tokens(a + " "@ + "&&"@ + " "@ + f, 0, Seq::empty()) == seq![
            LineToken::Word(a),
            LineToken::And,
            LineToken::Word(f),
        ],
{
    reveal_strlit("&&");
    lemma_around_op(a, "&&"@, f);
    let s = a + " "@ + "&&"@ + " "@ + f;
    let n = a.len() as int;
    assert(s[n + 1 + 0] == '&');
    assert(s[n + 1 + 1] == '&');
    assert(s[n + 1 + 2] == ' ');
    assert(line_tokens(s, n + 1, Seq::empty()) == seq![LineToken::And] + line_tokens(
        s,
        n + 1 + 2,
        Seq::empty(),
    ));
    assert(seq![LineToken::Word(a)] + (seq![LineToken::And] + seq![LineToken::Word(f)]) =~= seq![
        LineToken::Word(a),
        LineToken::And,
        LineToken::Word(f),
    ]);
}

proof fn lemma_amp_between_words(a: Seq<char>, f: Seq<char>)
    requires
        a.len() > 0,
        f.len() > 0,
        forall|k: int| 0 <= k < a.len() ==> word_char(#[trigger] a[k]),
        forall|k: int| 0 <= k < f.len() ==> word_char(#[trigger] f[k]),
    ensures
        line_tokens(a + " "@ + "&"@ + " "@ + f, 0, Seq::empty()) == seq![
            LineToken::Word(a),
            LineToken::Amp,
            LineToken::Word(f),
        ],
{
    reveal_strlit("&");
    lemma_around_op(a, "&"@, f);
    let s = a + " "@ + "&"@ + " "@ + f;
    let n = a.len() as int;
    assert(s[n + 1 + 0] == '&');
    assert(s[n + 1 + 1] == ' ');
    assert(line_tokens(s, n + 1, Seq::empty()) == seq![LineToken::Amp] + line_tokens(
        s,
        n + 1 + 1,
        Seq::empty(),
    ));
    assert(seq![LineToken::Word(a)] + (seq![LineToken::Amp] + seq![LineToken::Word(f)]) =~= seq![
        LineToken::Word(a),
        LineToken::Amp,
        LineToken::Word(f),
    ]);
}

proof fn lemma_semi_between_words(a: Seq<char>, f: Seq<char>)
    requires
        a.len() > 0,
        f.len() > 0,
        forall|k: int| 0 <= k < a.len() ==> word_char(#[trigger] a[k]),
        forall|k: int| 0 <= k < f.len() ==> word_char(#[trigger] f[k]),
    ensures
        line_tokens(a + " "@ + ";"@ + " "@ + f, 0, Seq::empty()) == seq![
            LineToken::Word(a),
            LineToken::Semi,
            LineToken::Word(f),
        ],
{
    reveal_strlit(";");
    lemma_around_op(a, ";"@, f);
    let s = a + " "@ + ";"@ + " "@ + f;
    let n = a.len() as int;
    assert(s[n + 1 + 0] == ';');
    assert(s[n + 1 + 1] == ' ');
    assert(line_tokens(s, n + 1, Seq::empty()) == seq![LineToken::Semi] + line_tokens(
        s,
        n + 1 + 1,
        Seq::empty(),
    ));
    assert(seq![LineToken::Word(a)] + (seq![LineToken::Semi] + seq![LineToken::Word(f)]) =~= seq![
        LineToken::Word(a),
        LineToken::Semi,
        LineToken::Word(f),
    ]);
}

proof fn lemma_input_between_words(a: Seq<char>, f: Seq<char>)
    requires
        a.len() > 0,
        f.len() > 0,
        forall|k: int| 0 <= k < a.len() ==> word_char(#[trigger] a[k]),
        forall|k: int| 0 <= k < f.len() ==> word_char(#[trigger] f[k]),
    ensures
        line_tokens(a + " "@ + "<"@ + " "@ + f, 0, Seq::empty()) == seq![
            LineToken::Word(a),
            LineToken::Redir(RedirOp::In),
            LineToken::Word(f),
        ],
{
    reveal_strlit("<");
    lemma_around_op(a, "<"@, f);
    let s = a + " "@ + "<"@ + " "@ + f;
    let n = a.len() as int;
    assert(s[n + 1 + 0] == '<');
    assert(s[n + 1 + 1] == ' ');
    assert(line_tokens(s, n + 1, Seq::empty()) == seq![LineToken::Redir(RedirOp::In)] + line_tokens(
        s,
        n + 1 + 1,
        Seq::empty(),
    ));
    assert(seq![LineToken::Word(a)] + (seq![LineToken::Redir(RedirOp::In)] + seq![LineToken::Word(f)]) =~= seq![
        LineToken::Word(a),
        LineToken::Redir(RedirOp::In),
        LineToken::Word(f),
    ]);
}

proof fn lemma_output_between_words(a: Seq<char>, f: Seq<char>)
    requires
        a.len() > 0,
        f.len() > 0,
        forall|k: int| 0 <= k < a.len() ==> word_char(#[trigger] a[k]),
        forall|k: int| 0 <= k < f.len() ==> word_char(#[trigger] f[k]),
    ensures
        line_tokens(a + " "@ + ">"@ + " "@ + f, 0, Seq::empty()) == seq![
            LineToken::Word(a),
            LineToken::Redir(RedirOp::Out),
            LineToken::Word(f),
        ],
{
    reveal_strlit(">");
    lemma_around_op(a, ">"@, f);
    let s = a + " "@ + ">"@ + " "@ + f;
    let n = a.len() as int;
    assert(s[n + 1 + 0] == '>');
    assert(s[n + 1 + 1] == ' ');
    assert(line_tokens(s, n + 1, Seq::empty()) == seq![LineToken::Redir(RedirOp::Out)] + line_tokens(
        s,
        n + 1 + 1,
        Seq::empty(),
    ));
    assert(seq![LineToken::Word(a)] + (seq![LineToken::Redir(RedirOp::Out)] + seq![LineToken::Word(f)]) =~= seq![
        LineToken::Word(a),
        LineToken::Redir(RedirOp::Out),
        LineToken::Word(f),
    ]);
}

proof fn lemma_append_between_words(a: Seq<char>, f: Seq<char>)
    requires
        a.len() > 0,
        f.len() > 0,
        forall|k: int| 0 <= k < a.len() ==> word_char(#[trigger] a[k]),
        forall|k: int| 0 <= k < f.len() ==> word_char(#[trigger] f[k]),
    ensures
        line_tokens(a + " "@ + ">>"@ + " "@ + f, 0, Seq::empty()) == seq![
            LineToken::Word(a),
            LineToken::Redir(RedirOp::Append),
            LineToken::Word(f),
        ],
{
    reveal_strlit(">>");
    lemma_around_op(a, ">>"@, f);
    let s = a + " "@ + ">>"@ + " "@ + f;
    let n = a.len() as int;
    assert(s[n + 1 + 0] == '>');
    assert(s[n + 1 + 1] == '>');
    assert(s[n + 1 + 2] == ' ');
    assert(line_tokens(s, n + 1, Seq::empty()) == seq![LineToken::Redir(RedirOp::Append)] + line_tokens(
        s,
        n + 1 + 2,
        Seq::empty(),
    ));
    assert(seq![LineToken::Word(a)] + (seq![LineToken::Redir(RedirOp::Append)] + seq![LineToken::Word(f)]) =~= seq![
        LineToken::Word(a),
        LineToken::Redir(RedirOp::Append),
        LineToken::Word(f),
    ]);
}

proof fn lemma_err_output_between_words(a: Seq<char>, f: Seq<char>)
    requires
        a.len() > 0,
        f.len() > 0,
        forall|k: int| 0 <= k < a.len() ==> word_char(#[trigger] a[k]),
        forall|k: int| 0 <= k < f.len() ==> word_char(#[trigger] f[k]),
    ensures
        line_tokens(a + " "@ + "2>"@ + " "@ + f, 0, Seq::empty()) == seq![
            LineToken::Word(a),
            LineToken::Redir(RedirOp::ErrOut),
            LineToken::Word(f),
        ],
{
    reveal_strlit("2>");
    lemma_around_op(a, "2>"@, f);
    let s = a + " "@ + "2>"@ + " "@ + f;
    let n = a.len() as int;
    assert(s[n + 1 + 0] == '2');
    assert(s[n + 1 + 1] == '>');
    assert(s[n + 1 + 2] == ' ');
    assert(line_tokens(s, n + 1, Seq::empty()) == seq![LineToken::Redir(RedirOp::ErrOut)] + line_tokens(
        s,
        n + 1 + 2,
        Seq::empty(),
    ));
    assert(seq![LineToken::Word(a)] + (seq![LineToken::Redir(RedirOp::ErrOut)] + seq![LineToken::Word(f)]) =~= seq![
        LineToken::Word(a),
        LineToken::Redir(RedirOp::ErrOut),
        LineToken::Word(f),
    ]);
}

proof fn lemma_err_append_between_words(a: Seq<char>, f: Seq<char>)
    requires
        a.len() > 0,
        f.len() > 0,
        forall|k: int| 0 <= k < a.len() ==> word_char(#[trigger] a[k]),
        forall|k: int| 0 <= k < f.len() ==> word_char(#[trigger] f[k]),
    ensures
        line_tokens(a + " "@ + "2>>"@ + " "@ + f, 0, Seq::empty()) == seq![
            LineToken::Word(a),
            LineToken::Redir(RedirOp::ErrApp),
            LineToken::Word(f),
        ],
{
    reveal_strlit("2>>");
    lemma_around_op(a, "2>>"@, f);
    let s = a + " "@ + "2>>"@ + " "@ + f;
    let n = a.len() as int;
    assert(s[n + 1 + 0] == '2');
    assert(s[n + 1 + 1] == '>');
    assert(s[n + 1 + 2] == '>');
    assert(s[n + 1 + 3] == ' ');
    assert(line_tokens(s, n + 1, Seq::empty()) == seq![LineToken::Redir(RedirOp::ErrApp)] + line_tokens(
        s,
        n + 1 + 3,
        Seq::empty(),
    ));
    assert(seq![LineToken::Word(a)] + (seq![LineToken::Redir(RedirOp::ErrApp)] + seq![LineToken::Word(f)]) =~= seq![
        LineToken::Word(a),
        LineToken::Redir(RedirOp::ErrApp),
        LineToken::Word(f),
    ]);
}

proof fn lemma_all_output_between_words(a: Seq<char>, f: Seq<char>)
    requires
        a.len() > 0,
        f.len() > 0,
        forall|k: int| 0 <= k < a.len() ==> word_char(#[trigger] a[k]),
        forall|k: int| 0 <= k < f.len() ==> word_char(#[trigger] f[k]),
    ensures
        line_tokens(a + " "@ + "&>"@ + " "@ + f, 0, Seq::empty()) == seq![
            LineToken::Word(a),
            LineToken::Redir(RedirOp::AllOut),
            LineToken::Word(f),
        ],
{
    reveal_strlit("&>");
    lemma_around_op(a, "&>"@, f);
    let s = a + " "@ + "&>"@ + " "@ + f;
    let n = a.len() as int;
    assert(s[n + 1 + 0] == '&');
    assert(s[n + 1 + 1] == '>');
    assert(s[n + 1 + 2] == ' ');
    assert(line_tokens(s, n + 1, Seq::empty()) == seq![LineToken::Redir(RedirOp::AllOut)] + line_tokens(
        s,
        n + 1 + 2,
        Seq::empty(),
    ));
    assert(seq![LineToken::Word(a)] + (seq![LineToken::Redir(RedirOp::AllOut)] + seq![LineToken::Word(f)]) =~= seq![
        LineToken::Word(a),
        LineToken::Redir(RedirOp::AllOut),
        LineToken::Word(f),
    ]);
}

proof fn lemma_all_append_between_words(a: Seq<char>, f: Seq<char>)
    requires
        a.len() > 0,
        f.len() > 0,
        forall|k: int| 0 <= k < a.len() ==> word_char(#[trigger] a[k]),
        forall|k: int| 0 <= k < f.len() ==> word_char(#[trigger] f[k]),
    ensures
        line_tokens(a + " "@ + "&>>"@ + " "@ + f, 0, Seq::empty()) == seq![
            LineToken::Word(a),
            LineToken::Redir(RedirOp::AllApp),
            LineToken::Word(f),
        ],
{
    reveal_strlit("&>>");
    lemma_around_op(a, "&>>"@, f);
    let s = a + " "@ + "&>>"@ + " "@ + f;
    let n = a.len() as int;
    assert(s[n + 1 + 0] == '&');
    assert(s[n + 1 + 1] == '>');
    assert(s[n + 1 + 2] == '>');
    assert(s[n + 1 + 3] == ' ');
    assert(line_tokens(s, n + 1, Seq::empty()) == seq![LineToken::Redir(RedirOp::AllApp)] + line_tokens(
        s,
        n + 1 + 3,
        Seq::empty(),
    ));
    assert(seq![LineToken::Word(a)] + (seq![LineToken::Redir(RedirOp::AllApp)] + seq![LineToken::Word(f)]) =~= seq![
        LineToken::Word(a),
        LineToken::Redir(RedirOp::AllApp),
        LineToken::Word(f),
    ]);
}

/// Every operator of the line between two plain words `a` and `f` gives
/// its own token: `|` a pipe, `||` or, `&&` and, `&` background, `;` a
/// separator, `<` input, `>` output that truncates, `>>` output that
/// appends, `2>` and `2>>` standard error (truncating, appending), `&>`
/// and `&>>` both outputs (truncating, appending).
pub proof fn law_operators_between_words(a: Seq<char>, f: Seq<char>)
    requires
        a.len() > 0,
        f.len() > 0,
        forall|k: int| 0 <= k < a.len() ==> word_char(#[trigger] a[k]),
        forall|k: int| 0 <= k < f.len() ==> word_char(#[trigger] f[k]),
    ensures
        line_tokens(a + " "@ + "|"@ + " "@ + f, 0, Seq::empty()) == seq![
            LineToken::Word(a),
            LineToken::Pipe,
            LineToken::Word(f),
        ],
        line_tokens(a + " "@ + "||"@ + " "@ + f, 0, Seq::empty()) == seq![
            LineToken::Word(a),
            LineToken::Or,
            LineToken::Word(f),
        ],
        line_tokens(a + " "@ + "&&"@ + " "@ + f, 0, Seq::empty()) == seq![
            LineToken::Word(a),
            LineToken::And,
            LineToken::Word(f),
        ],
        line_tokens(a + " "@ + "&"@ + " "@ + f, 0, Seq::empty()) == seq![
            LineToken::Word(a),
            LineToken::Amp,
            LineToken::Word(f),
        ],
        line_tokens(a + " "@ + ";"@ + " "@ + f, 0, Seq::empty()) == seq![
            LineToken::Word(a),
            LineToken::Semi,
            LineToken::Word(f),
        ],
        line_tokens(a + " "@ + "<"@ + " "@ + f, 0, Seq::empty()) == seq![
            LineToken::Word(a),
            LineToken::Redir(RedirOp::In),
            LineToken::Word(f),
        ],
        line_tokens(a + " "@ + ">"@ + " "@ + f, 0, Seq::empty()) == seq![
            LineToken::Word(a),
            LineToken::Redir(RedirOp::Out),
            LineToken::Word(f),
        ],
        line_tokens(a + " "@ + ">>"@ + " "@ + f, 0, Seq::empty()) == seq![
            LineToken::Word(a),
            LineToken::Redir(RedirOp::Append),
            LineToken::Word(f),
        ],
        line_tokens(a + " "@ + "2>"@ + " "@ + f, 0, Seq::empty()) == seq![
            LineToken::Word(a),
            LineToken::Redir(RedirOp::ErrOut),
            LineToken::Word(f),
        ],
        line_tokens(a + " "@ + "2>>"@ + " "@ + f, 0, Seq::empty()) == seq![
            LineToken::Word(a),
            LineToken::Redir(RedirOp::ErrApp),
            LineToken::Word(f),
        ],
        line_tokens(a + " "@ + "&>"@ + " "@ + f, 0, Seq::empty()) == seq![
            LineToken::Word(a),
            LineToken::Redir(RedirOp::AllOut),
            LineToken::Word(f),
        ],
        line_tokens(a + " "@ + "&>>"@ + " "@ + f, 0, Seq::empty()) == seq![
            LineToken::Word(a),
            LineToken::Redir(RedirOp::AllApp),
            LineToken::Word(f),
        ],
{
    lemma_pipe_between_words(a, f);
    lemma_or_between_words(a, f);
    lemma_and_between_words(a, f);
    lemma_amp_between_words(a, f);
    lemma_semi_between_words(a, f);
    lemma_input_between_words(a, f);
    lemma_output_between_words(a, f);
    lemma_append_between_words(a, f);
    lemma_err_output_between_words(a, f);
    lemma_err_append_between_words(a, f);
    lemma_all_output_between_words(a, f);
    lemma_all_append_between_words(a, f);
}

proof fn lemma_unquote_run(s: Seq<char>, p: int, e: int, qc: char)
    requires
        0 <= p <= e < s.len(),
        s[e] == qc,
        qc != '\\',
        forall|k: int| p <= k < e ==> #[trigger] s[k] != qc && s[k] != '\\',
    ensures
        unquote(s, p, qc) == (s.subrange(p, e), e + 1),
    decreases e - p,
{
    if p < e {
        assert(s[p] != qc && s[p] != '\\');
        lemma_unquote_run(s, p + 1, e, qc);
        let (r, x) = unquote(s, p + 1, qc);
        assert(r == s.subrange(p + 1, e) && x == e + 1);
        assert(unquote(s, p, qc) == (seq![s[p]] + r, x));
        assert(seq![s[p]] + s.subrange(p + 1, e) =~= s.subrange(p, e));
    } else {
        assert(unquote(s, p, qc) == (Seq::<char>::empty(), p + 1));
        assert(s.subrange(p, e) =~= Seq::<char>::empty());
    }
}

/// A quoted region is one word whatever it holds: for a text `q` with
/// neither the quote mark `qc` (`'` or `"`) nor a backslash in it, the line
/// `qc q qc` is the single word `q`, blanks and operator characters
/// included (nothing where `q` is empty).
pub proof fn law_quoted_text_is_one_word(q: Seq<char>, qc: char)
    requires
        qc == '\'' || qc == '"',
        forall|k: int| 0 <= k < q.len() ==> #[trigger] q[k] != qc && q[k] != '\\',
    ensures
        line_tokens(seq![qc] + q + seq![qc], 0, Seq::empty()) == (if q.len() > 0 {
            seq![LineToken::Word(q)]
        } else {
            Seq::<LineToken>::empty()
        }),
{
    let s = seq![qc] + q + seq![qc];
    let e = q.len() as int + 1;
    assert forall|k: int| 1 <= k < e implies #[trigger] s[k] != qc && s[k] != '\\' by {
        assert(s[k] == q[k - 1]);
    }
    lemma_unquote_run(s, 1, e, qc);
    assert(s.subrange(1, e) =~= q);
    assert(Seq::<char>::empty() + q =~= q);
    assert(line_tokens(s, e + 1, q) == flush(q));
}

} // verus!
