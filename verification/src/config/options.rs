use vstd::prelude::*;

verus! {

/// The options that `set` switches.
#[derive(Debug, Clone, Copy)]
pub struct ShellOptions {
    /// `set -e`: exit as soon as a command fails.
    pub errexit: bool,
    /// `set -u`: expanding an unset variable is an error.
    pub nounset: bool,
    /// `set -x`: print each command before it runs.
    pub xtrace: bool,
}

impl Default for ShellOptions {
    /// Every option off.
    fn default() -> (o: Self)
        ensures
            !o.errexit && !o.nounset && !o.xtrace,
    {
        ShellOptions { errexit: false, nounset: false, xtrace: false }
    }
}

} // verus!
