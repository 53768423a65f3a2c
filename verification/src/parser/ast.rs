//! The syntax tree that `crate::parser::parser::Parser` builds from the
//! tokens of `crate::lexer`.

use vstd::prelude::*;

verus! {

/// A parsed pipeline.
#[derive(Debug, Clone)]
pub enum Node {
    Pipeline(Vec<Command>),
}

/// A command: its words, its redirections, and whether it runs in the
/// background.
#[derive(Debug, Clone)]
pub struct Command {
    pub args: Vec<String>,
    pub redirects: Vec<Redirect>,
    pub background: bool,
}

/// A redirection of standard input or output to a file.
#[derive(Debug, Clone)]
pub enum Redirect {
    Input(String),
    Output(String),
    Append(String),
}

/// A redirection as values.
pub enum RedirectV {
    Input(Seq<char>),
    Output(Seq<char>),
    Append(Seq<char>),
}

/// A command as values.
#[verifier::ext_equal]
pub struct CommandV {
    pub args: Seq<Seq<char>>,
    pub redirects: Seq<RedirectV>,
    pub background: bool,
}

/// A pipeline as values.
pub enum NodeV {
    Pipeline(Seq<CommandV>),
}

impl View for Redirect {
    type V = RedirectV;

    open spec fn view(&self) -> RedirectV {
        match self {
            Redirect::Input(f) => RedirectV::Input(f@),
            Redirect::Output(f) => RedirectV::Output(f@),
            Redirect::Append(f) => RedirectV::Append(f@),
        }
    }
}

impl View for Command {
    type V = CommandV;

    open spec fn view(&self) -> CommandV {
        CommandV {
            args: self.args@.map_values(|a: String| a@),
            redirects: self.redirects@.map_values(|r: Redirect| r@),
            background: self.background,
        }
    }
}

impl View for Node {
    type V = NodeV;

    open spec fn view(&self) -> NodeV {
        match self {
            Node::Pipeline(cmds) => NodeV::Pipeline(cmds@.map_values(|c: Command| c@)),
        }
    }
}

} // verus!
