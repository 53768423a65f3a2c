//! `eval`: the arguments, joined, become a command line to run.

use vstd::prelude::*;

use crate::expansion::fields::{join_words, strings_view};
use crate::text::copy_string;

verus! {

/// The command line `eval` runs: its arguments after the name, joined by
/// spaces; `None` where there are none.
pub fn execute(args: &[String]) -> (r: Option<String>)
    ensures
        args@.len() < 2 ==> r is None,
        args@.len() >= 2 ==> (r matches Some(code) && code@ == join_words(
            strings_view(args@).drop_first(),
        )),
{
    if args.len() < 2 {
        return None;
    }
    let mut rest: Vec<String> = Vec::new();
    let mut i: usize = 1;
    while i < args.len()
        invariant
            1 <= i <= args@.len(),
            strings_view(rest@) == strings_view(args@).subrange(1, i as int),
        decreases args@.len() - i,
    {
        let ghost before = strings_view(rest@);
        rest.push(copy_string(&args[i]));
        assert(strings_view(rest@) =~= before.push(args@[i as int]@));
        i = i + 1;
        assert(strings_view(rest@) =~= strings_view(args@).subrange(1, i as int));
    }
    assert(strings_view(args@).subrange(1, args@.len() as int) =~= strings_view(args@).drop_first());
    Some(crate::expansion::fields::join_with_spaces(&rest))
}

} // verus!
