use vstd::prelude::*;

verus! {

/// The shell's errors. Operating-system failures carry the message (for
/// I/O) or the errno value (for system calls) of the underlying error.
#[derive(Debug)]
pub enum ShellError {
    Syntax(String),
    Execution(String),
    Io(String),
    Nix(i32),
    NotFound(String),
}

/// A shell error as values.
pub enum ShellErrorV {
    Syntax(Seq<char>),
    Execution(Seq<char>),
    Io(Seq<char>),
    Nix(i32),
    NotFound(Seq<char>),
}

impl View for ShellError {
    type V = ShellErrorV;

    open spec fn view(&self) -> ShellErrorV {
        match self {
            ShellError::Syntax(s) => ShellErrorV::Syntax(s@),
            ShellError::Execution(s) => ShellErrorV::Execution(s@),
            ShellError::Io(s) => ShellErrorV::Io(s@),
            ShellError::Nix(e) => ShellErrorV::Nix(*e),
            ShellError::NotFound(s) => ShellErrorV::NotFound(s@),
        }
    }
}

/// A text result as values.
pub open spec fn text_result(r: Result<String, ShellError>) -> Result<Seq<char>, ShellErrorV> {
    match r {
        Ok(s) => Ok(s@),
        Err(e) => Err(e@),
    }
}

} // verus!
