//! `trap COMMAND SIGNAL...`: the command to run when a signal arrives.

use vstd::prelude::*;

use crate::expansion::fields::strings_view;
use crate::text::{copy_string, str_chars, string_from_range};
use crate::vars::VarTable;

verus! {

/// What `str::to_uppercase` returns for `s`.
pub uninterp spec fn uppercase(s: Seq<char>) -> Seq<char>;

/// `str::to_uppercase`: the Unicode uppercase mapping of `s`. Its result is
/// named and nothing more is claimed of it.
#[verifier::external_body]
fn to_uppercase(s: &str) -> (r: String)
    ensures
        r@ == uppercase(s@),
{
    s.to_uppercase()
}

/// `s` without a leading `SIG`.
pub open spec fn strip_sig(s: Seq<char>) -> Seq<char> {
    if s.len() >= 3 && s.subrange(0, 3) == "SIG"@ {
        s.subrange(3, s.len() as int)
    } else {
        s
    }
}

/// `m` with `command` registered for each of the signal names `names`, in
/// order.
pub open spec fn with_traps(m: Map<Seq<char>, Seq<char>>, command: Seq<char>, names: Seq<Seq<char>>) -> Map<
    Seq<char>,
    Seq<char>,
>
    decreases names.len(),
{
    if names.len() == 0 {
        m
    } else {
        with_traps(m, command, names.drop_last()).insert(names.last(), command)
    }
}

/// The name a signal is registered under: without a leading `SIG`, then in
/// upper case.
pub open spec fn signal_key(s: Seq<char>) -> Seq<char> {
    uppercase(strip_sig(s))
}

/// `s` without a leading `SIG`.
fn strip_sig_prefix(s: &str) -> (r: String)
    ensures
        r@ == strip_sig(s@),
{
    let chars = str_chars(s);
    proof {
        reveal_strlit("SIG");
    }
    if chars.len() >= 3 && chars[0] == 'S' && chars[1] == 'I' && chars[2] == 'G' {
        assert(chars@.subrange(0, 3) =~= "SIG"@);
        string_from_range(&chars, 3, chars.len())
    } else {
        assert(!(s@.len() >= 3 && s@.subrange(0, 3) == "SIG"@)) by {
            if s@.len() >= 3 && s@.subrange(0, 3) == "SIG"@ {
                assert(s@.subrange(0, 3)[0] == 'S');
                assert(s@.subrange(0, 3)[1] == 'I');
                assert(s@.subrange(0, 3)[2] == 'G');
            }
        }
        String::from_str(s)
    }
}

/// Registers `command` for each of the signal names `names`, in order.
pub fn set_traps(traps: &mut VarTable, command: &str, names: &[String])
    ensures
        final(traps).view() == with_traps(old(traps).view(), command@, strings_view(names@)),
{
    let mut i: usize = 0;
    while i < names.len()
        invariant
            i <= names@.len(),
            traps.view() == with_traps(
                old(traps).view(),
                command@,
                strings_view(names@).subrange(0, i as int),
            ),
        decreases names@.len() - i,
    {
        assert(strings_view(names@).subrange(0, i + 1).drop_last() =~= strings_view(names@).subrange(
            0,
            i as int,
        ));
        traps.set(names[i].as_str(), String::from_str(command));
        i = i + 1;
    }
    assert(strings_view(names@).subrange(0, names@.len() as int) =~= strings_view(names@));
}

/// Runs `trap` with `args` (the first being the command's name): registers
/// `args[1]` for each signal named after it. Gives the exit status, and the
/// message for standard error: with fewer than two operands nothing is
/// registered and the status is 2.
pub fn execute(args: &[String], traps: &mut VarTable) -> (r: (i32, Option<String>))
    ensures
        args@.len() < 3 ==> final(traps).view() == old(traps).view() && r.0 == 2 && (r.1 matches Some(
            m,
        ) && m@ == "trap: usage: trap COMMAND SIGNAL"@),
        args@.len() >= 3 ==> final(traps).view() == with_traps(
            old(traps).view(),
            args@[1]@,
            strings_view(args@).skip(2).map_values(|s: Seq<char>| signal_key(s)),
        ) && r == (0i32, None::<String>),
{
    if args.len() < 3 {
        return (2, Some(String::from_str("trap: usage: trap COMMAND SIGNAL")));
    }
    let command = copy_string(&args[1]);
    let mut keys: Vec<String> = Vec::new();
    let mut i: usize = 2;
    let ghost want = strings_view(args@).skip(2).map_values(|s: Seq<char>| signal_key(s));
    while i < args.len()
        invariant
            2 <= i <= args@.len(),
            want == strings_view(args@).skip(2).map_values(|s: Seq<char>| signal_key(s)),
            strings_view(keys@) == want.subrange(0, i - 2),
        decreases args@.len() - i,
    {
        let stripped = strip_sig_prefix(args[i].as_str());
        let key = to_uppercase(stripped.as_str());
        let ghost before = strings_view(keys@);
        keys.push(key);
        assert(strings_view(keys@) =~= before.push(signal_key(args@[i as int]@)));
        i = i + 1;
        assert(strings_view(keys@) =~= want.subrange(0, i - 2));
    }
    assert(want.subrange(0, args@.len() - 2) =~= want);
    set_traps(traps, command.as_str(), keys.as_slice());
    (0, None)
}

} // verus!
