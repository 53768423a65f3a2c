//! `set`: switches the shell's options (`-e`/`+e`, `-u`/`+u`, `-x`/`+x`).

use vstd::prelude::*;

use crate::config::options::ShellOptions;
use crate::expansion::fields::strings_view;
use crate::text::{append_str, eq_str};

verus! {

/// The options after the flag `a`; `None` where `a` is no flag of `set`.
pub open spec fn set_flag(o: ShellOptions, a: Seq<char>) -> Option<ShellOptions> {
    if a == "-e"@ {
        Some(ShellOptions { errexit: true, nounset: o.nounset, xtrace: o.xtrace })
    } else if a == "+e"@ {
        Some(ShellOptions { errexit: false, nounset: o.nounset, xtrace: o.xtrace })
    } else if a == "-u"@ {
        Some(ShellOptions { errexit: o.errexit, nounset: true, xtrace: o.xtrace })
    } else if a == "+u"@ {
        Some(ShellOptions { errexit: o.errexit, nounset: false, xtrace: o.xtrace })
    } else if a == "-x"@ {
        Some(ShellOptions { errexit: o.errexit, nounset: o.nounset, xtrace: true })
    } else if a == "+x"@ {
        Some(ShellOptions { errexit: o.errexit, nounset: o.nounset, xtrace: false })
    } else {
        None
    }
}

/// The flags `args` from position `i` on applied in order to `o`, up to
/// the first one that is no flag; that one is given back as well.
pub open spec fn set_run(o: ShellOptions, args: Seq<Seq<char>>, i: int) -> (ShellOptions, Option<Seq<char>>)
    decreases args.len() - i,
{
    if i < 0 || i >= args.len() {
        (o, None)
    } else {
        match set_flag(o, args[i]) {
            None => (o, Some(args[i])),
            Some(o2) => set_run(o2, args, i + 1),
        }
    }
}

/// The options after the flag `a`; `None` where `a` is no flag of `set`.
fn apply_flag(o: ShellOptions, a: &str) -> (r: Option<ShellOptions>)
    ensures
        r == set_flag(o, a@),
{
    if eq_str(a, "-e") {
        Some(ShellOptions { errexit: true, nounset: o.nounset, xtrace: o.xtrace })
    } else if eq_str(a, "+e") {
        Some(ShellOptions { errexit: false, nounset: o.nounset, xtrace: o.xtrace })
    } else if eq_str(a, "-u") {
        Some(ShellOptions { errexit: o.errexit, nounset: true, xtrace: o.xtrace })
    } else if eq_str(a, "+u") {
        Some(ShellOptions { errexit: o.errexit, nounset: false, xtrace: o.xtrace })
    } else if eq_str(a, "-x") {
        Some(ShellOptions { errexit: o.errexit, nounset: o.nounset, xtrace: true })
    } else if eq_str(a, "+x") {
        Some(ShellOptions { errexit: o.errexit, nounset: o.nounset, xtrace: false })
    } else {
        None
    }
}

/// Runs `set` with `args` (the first being the command's name): applies
/// each flag in order. Gives the exit status, and the message for standard
/// error where a word is no flag: then the status is 2, and the flags before
/// that word stay applied.
pub fn execute(args: &[String], options: &mut ShellOptions) -> (r: (i32, Option<String>))
    ensures
        *final(options) == set_run(*old(options), strings_view(args@), 1).0,
        match set_run(*old(options), strings_view(args@), 1).1 {
            None => r.0 == 0 && r.1 is None,
            Some(bad) => r.0 == 2 && (r.1 matches Some(m) && m@ == "set: invalid option: "@ + bad),
        },
{
    let ghost all = strings_view(args@);
    let ghost o0 = *options;
    let mut i: usize = 1;
    while i < args.len()
        invariant
            1 <= i,
            all == strings_view(args@),
            o0 == *old(options),
            set_run(o0, all, 1) == set_run(*options, all, i as int),
        decreases args@.len() - i,
    {
        match apply_flag(*options, args[i].as_str()) {
            Some(o2) => {
                *options = o2;
            },
            None => {
                let mut msg = String::from_str("set: invalid option: ");
                append_str(&mut msg, args[i].as_str());
                return (2, Some(msg));
            },
        }
        i = i + 1;
    }
    (0, None)
}

} // verus!
