//! The pass over a whole input line before it is split into tokens.

use vstd::prelude::*;

use crate::builtins::alias::{alias_expansion, expand};
use crate::expansion::arithmetic::{arith_expand, expand_arithmetic};
use crate::expansion::command::{commands_in, expand_command_substitution, substituted, Captures};
use crate::vars::VarTable;

verus! {

/// What the line pass makes of `line`: aliases, then command substitution
/// (the commands printing `outs` from the `k`-th on), then arithmetic.
pub open spec fn line_expansion(
    aliases: Map<Seq<char>, Seq<char>>,
    env: Map<Seq<char>, Seq<char>>,
    line: Seq<char>,
    outs: Seq<Seq<char>>,
    k: int,
) -> Seq<char> {
    arith_expand(substituted(alias_expansion(aliases, line), 0, outs, k), env, 0)
}

/// Expands a raw input line before it is lexed: alias expansion (on the
/// text), then command substitution (`$(...)`, `` `...` ``), then
/// arithmetic expansion (`$(( expr ))`, its variables read from `env`).
pub fn expand_line(line: &str, aliases: &VarTable, env: &VarTable, caps: &mut Captures) -> (r: String)
    ensures
        final(caps).outputs() == old(caps).outputs(),
        final(caps).asked() == old(caps).asked() + commands_in(
            alias_expansion(aliases.view(), line@),
            0,
        ),
        r@ == line_expansion(
            aliases.view(),
            env.view(),
            line@,
            old(caps).outputs(),
            old(caps).asked().len() as int,
        ),
{
    let after_alias = expand(aliases, line);
    let after_cmd_sub = expand_command_substitution(after_alias.as_str(), caps);
    expand_arithmetic(after_cmd_sub.as_str(), env)
}

} // verus!
