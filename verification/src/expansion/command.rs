//! Command substitution: `$( cmd )` and `` `cmd` `` are replaced by what
//! `cmd` prints. Running the command is the caller's part: the functions
//! here find the commands, in order, and splice in the outputs they are
//! handed (an output that is missing counts as empty).

use vstd::prelude::*;

use crate::text::{copy_string, is_whitespace, is_ws, str_chars, string_from_range};

verus! {

/// Outputs of the commands that a substitution runs, handed out in order,
/// together with the commands asked for so far.
pub struct Captures {
    outputs: Vec<String>,
    requested: Vec<String>,
}

/// The `k`-th output, or empty where there is none.
pub open spec fn output_at(outs: Seq<Seq<char>>, k: int) -> Seq<char> {
    if 0 <= k < outs.len() {
        outs[k]
    } else {
        Seq::empty()
    }
}

impl Captures {
    /// The outputs available.
    pub closed spec fn outputs(&self) -> Seq<Seq<char>> {
        self.outputs@.map_values(|o: String| o@)
    }

    /// The commands asked for so far, in order.
    pub closed spec fn asked(&self) -> Seq<Seq<char>> {
        self.requested@.map_values(|c: String| c@)
    }

    /// Captures that hand out `outputs`, with nothing asked for yet.
    pub fn new(outputs: Vec<String>) -> (c: Self)
        ensures
            c.outputs() == outputs@.map_values(|o: String| o@),
            c.asked() == Seq::<Seq<char>>::empty(),
    {
        let c = Captures { outputs, requested: Vec::new() };
        assert(c.asked() =~= Seq::<Seq<char>>::empty());
        c
    }

    /// The commands asked for so far, in order.
    pub fn requested(&self) -> (r: Vec<String>)
        ensures
            r@.map_values(|c: String| c@) == self.asked(),
    {
        let mut r: Vec<String> = Vec::new();
        let mut i: usize = 0;
        while i < self.requested.len()
            invariant
                i <= self.requested@.len(),
                r@.map_values(|c: String| c@) == self.asked().subrange(0, i as int),
            decreases self.requested@.len() - i,
        {
            let ghost before = r@;
            let c = copy_string(&self.requested[i]);
            r.push(c);
            proof {
                assert(self.asked()[i as int] == self.requested@[i as int]@);
                assert(r@ == before.push(c));
                assert(r@.map_values(|c: String| c@) =~= before.map_values(|c: String| c@).push(c@));
            }
            i = i + 1;
            assert(r@.map_values(|c: String| c@) =~= self.asked().subrange(0, i as int));
        }
        assert(self.asked().subrange(0, self.requested@.len() as int) =~= self.asked());
        r
    }

    /// Records `command` as asked for and hands out the next output.
    pub fn take(&mut self, command: String) -> (out: String)
        ensures
            final(self).outputs() == old(self).outputs(),
            final(self).asked() == old(self).asked().push(command@),
            out@ == output_at(old(self).outputs(), old(self).asked().len() as int),
    {
        let k = self.requested.len();
        let out = if k < self.outputs.len() {
            copy_string(&self.outputs[k])
        } else {
            String::new()
        };
        let ghost before = self.requested@;
        self.requested.push(command);
        assert(self.asked() =~= before.map_values(|c: String| c@).push(command@));
        out
    }
}

/// The position of the `)` that closes a `$(` whose body starts at `i`
/// (with `depth` parentheses open), counting nested parentheses.
pub open spec fn paren_close(s: Seq<char>, i: int, depth: nat) -> Option<int>
    decreases s.len() - i,
{
    if i < 0 || i >= s.len() {
        None
    } else if s[i] == '(' {
        paren_close(s, i + 1, depth + 1)
    } else if s[i] == ')' {
        if depth <= 1 {
            Some(i)
        } else {
            paren_close(s, i + 1, (depth - 1) as nat)
        }
    } else {
        paren_close(s, i + 1, depth)
    }
}

/// The position of the first backquote at or after `i`.
pub open spec fn tick_close(s: Seq<char>, i: int) -> Option<int>
    decreases s.len() - i,
{
    if i < 0 || i >= s.len() {
        None
    } else if s[i] == '`' {
        Some(i)
    } else {
        tick_close(s, i + 1)
    }
}

/// Where a substitution starts at `i`: the command's text, and the position
/// after the substitution.
pub open spec fn substitution_at(s: Seq<char>, i: int) -> Option<(Seq<char>, int)> {
    if 0 <= i && i + 1 < s.len() && s[i] == '$' && s[i + 1] == '(' && paren_close(s, i + 2, 1) is Some {
        let j = paren_close(s, i + 2, 1)->0;
        Some((s.subrange(i + 2, j), j + 1))
    } else if 0 <= i < s.len() && s[i] == '`' && tick_close(s, i + 1) is Some {
        let j = tick_close(s, i + 1)->0;
        Some((s.subrange(i + 1, j), j + 1))
    } else {
        None
    }
}

pub proof fn lemma_paren_close(s: Seq<char>, i: int, depth: nat)
    requires
        0 <= i,
    ensures
        paren_close(s, i, depth) matches Some(j) ==> i <= j < s.len() && s[j] == ')',
    decreases s.len() - i,
{
    if 0 <= i < s.len() {
        if s[i] == '(' {
            lemma_paren_close(s, i + 1, depth + 1);
        } else if s[i] == ')' {
            if depth > 1 {
                lemma_paren_close(s, i + 1, (depth - 1) as nat);
            }
        } else {
            lemma_paren_close(s, i + 1, depth);
        }
    }
}

pub proof fn lemma_tick_close(s: Seq<char>, i: int)
    requires
        0 <= i,
    ensures
        tick_close(s, i) matches Some(j) ==> i <= j < s.len() && s[j] == '`',
    decreases s.len() - i,
{
    if 0 <= i < s.len() && s[i] != '`' {
        lemma_tick_close(s, i + 1);
    }
}

pub proof fn lemma_substitution_at(s: Seq<char>, i: int)
    requires
        0 <= i,
    ensures
        substitution_at(s, i) matches Some((c, e)) ==> i < e <= s.len(),
{
    lemma_paren_close(s, i + 2, 1);
    lemma_tick_close(s, i + 1);
}

/// The commands that the substitutions in `s` from `i` on run, in order.
pub open spec fn commands_in(s: Seq<char>, i: int) -> Seq<Seq<char>>
    decreases s.len() - i,
{
    if i < 0 || i >= s.len() {
        Seq::empty()
    } else {
        match substitution_at(s, i) {
            Some((c, e)) => if i < e <= s.len() {
                seq![c] + commands_in(s, e)
            } else {
                Seq::empty()
            },
            None => commands_in(s, i + 1),
        }
    }
}

/// What a substitution of `command` that printed `output` puts in its place:
/// nothing for a command that is blank, else the output without its
/// trailing newlines.
pub open spec fn captured(command: Seq<char>, output: Seq<char>) -> Seq<char> {
    if all_ws(command) {
        Seq::empty()
    } else {
        strip_newlines(output)
    }
}

/// `s` from `i` on with its substitutions replaced by the outputs `outs`,
/// starting with output `k`.
pub open spec fn substituted(s: Seq<char>, i: int, outs: Seq<Seq<char>>, k: int) -> Seq<char>
    decreases s.len() - i,
{
    if i < 0 || i >= s.len() {
        Seq::empty()
    } else {
        match substitution_at(s, i) {
            Some((c, e)) => if i < e <= s.len() {
                captured(c, output_at(outs, k)) + substituted(s, e, outs, k + 1)
            } else {
                Seq::empty()
            },
            None => seq![s[i]] + substituted(s, i + 1, outs, k),
        }
    }
}

/// The inner command of the `$(` whose body starts at `start`, and the
/// position after its closing `)`.
fn extract_paren_substitution(chars: &Vec<char>, start: usize) -> (r: Option<(String, usize)>)
    requires
        1 <= start <= chars@.len(),
    ensures
        match paren_close(chars@, start as int, 1) {
            Some(j) => r matches Some((inner, end)) && inner@ == chars@.subrange(start as int, j)
                && end == j + 1,
            None => r is None,
        },
{
    let mut depth: usize = 1;
    let mut i = start;
    while i < chars.len()
        invariant
            start <= i <= chars@.len(),
            1 <= start,
            1 <= depth <= i - start + 1,
            paren_close(chars@, i as int, depth as nat) == paren_close(chars@, start as int, 1),
        decreases chars@.len() - i,
    {
        if chars[i] == '(' {
            depth = depth + 1;
        } else if chars[i] == ')' {
            if depth == 1 {
                let inner = string_from_range(chars, start, i);
                return Some((inner, i + 1));
            }
            depth = depth - 1;
        }
        i = i + 1;
    }
    None
}

/// The inner command of the backquoted substitution whose body starts at
/// `start`, and the position after its closing backquote.
fn extract_backtick_substitution(chars: &Vec<char>, start: usize) -> (r: Option<(String, usize)>)
    requires
        start <= chars@.len(),
    ensures
        match tick_close(chars@, start as int) {
            Some(j) => r matches Some((inner, end)) && inner@ == chars@.subrange(start as int, j)
                && end == j + 1,
            None => r is None,
        },
{
    let mut i = start;
    while i < chars.len()
        invariant
            start <= i <= chars@.len(),
            tick_close(chars@, i as int) == tick_close(chars@, start as int),
        decreases chars@.len() - i,
    {
        if chars[i] == '`' {
            let inner = string_from_range(chars, start, i);
            return Some((inner, i + 1));
        }
        i = i + 1;
    }
    None
}

/// `input` with each `$( cmd )` and `` `cmd` `` replaced by the next output
/// of `caps`, each `cmd` being recorded in `caps` as asked for. An unclosed
/// substitution is left as it is.
pub fn expand_command_substitution(input: &str, caps: &mut Captures) -> (r: String)
    ensures
        final(caps).outputs() == old(caps).outputs(),
        final(caps).asked() == old(caps).asked() + commands_in(input@, 0),
        r@ == substituted(input@, 0, old(caps).outputs(), old(caps).asked().len() as int),
        no_closed_substitution(input@) ==> r@ == input@ && final(caps).asked() == old(caps).asked(),
{
    let chars = str_chars(input);
    let ghost s = chars@;
    let ghost outs = caps.outputs();
    let ghost k0 = caps.asked().len() as int;
    let ghost a0 = caps.asked();
    let mut result = String::new();
    let mut i: usize = 0;
    while i < chars.len()
        invariant
            i <= chars@.len(),
            chars@ == s,
            s == input@,
            caps.outputs() == outs,
            a0.len() == k0,
            caps.asked().len() >= k0,
            a0 + commands_in(s, 0) == caps.asked() + commands_in(s, i as int),
            result@ + substituted(s, i as int, outs, caps.asked().len() as int) == substituted(
                s,
                0,
                outs,
                k0,
            ),
        decreases chars@.len() - i,
    {
        let ghost i0 = i as int;
        let ghost r0 = result@;
        let ghost asked0 = caps.asked();
        proof {
            lemma_substitution_at(s, i0);
            lemma_paren_close(s, i0 + 2, 1);
        }
        let mut found: Option<(String, usize)> = None;
        if chars.len() > 1 && i < chars.len() - 1 && chars[i] == '$' && chars[i + 1] == '(' {
            found = extract_paren_substitution(&chars, i + 2);
        }
        if found.is_none() && chars[i] == '`' {
            found = extract_backtick_substitution(&chars, i + 1);
        }
        match found {
            Some((command, end)) => {
                let ghost cv = command@;
                let run = needs_running(command.as_str());
                let raw = caps.take(command);
                let output = if run {
                    trim_output(raw.as_str())
                } else {
                    String::new()
                };
                crate::text::append_str(&mut result, output.as_str());
                i = end;
                proof {
                    assert(substitution_at(s, i0) == Some((cv, i as int)));
                    assert(r0 + (output@ + substituted(s, i as int, outs, (asked0.len() + 1) as int))
                        =~= result@ + substituted(s, i as int, outs, caps.asked().len() as int));
                    assert(asked0 + (seq![cv] + commands_in(s, i as int)) =~= caps.asked()
                        + commands_in(s, i as int));
                }
            },
            None => {
                proof {
                    assert(substitution_at(s, i0) is None);
                }
                result.push(chars[i]);
                i = i + 1;
                proof {
                    assert(r0 + (seq![s[i0]] + substituted(s, i as int, outs, asked0.len() as int))
                        =~= result@ + substituted(s, i as int, outs, caps.asked().len() as int));
                }
            },
        }
    }
    proof {
        assert(result@ + Seq::<char>::empty() =~= result@);
        assert(caps.asked() + Seq::<Seq<char>>::empty() =~= caps.asked());
        if no_closed_substitution(s) {
            law_unclosed_substitution_unchanged(s, outs, k0);
            assert(a0 + Seq::<Seq<char>>::empty() =~= a0);
        }
    }
    result
}

/// Every character of `s` is whitespace.
pub open spec fn all_ws(s: Seq<char>) -> bool {
    forall|i: int| 0 <= i < s.len() ==> is_ws(#[trigger] s[i])
}

/// Whether a substituted command has anything to run: one that is empty
/// after trimming whitespace expands to nothing without being run.
pub fn needs_running(command: &str) -> (b: bool)
    ensures
        b == !all_ws(command@),
{
    let chars = str_chars(command);
    let mut i: usize = 0;
    while i < chars.len()
        invariant
            i <= chars@.len(),
            chars@ == command@,
            forall|j: int| 0 <= j < i ==> is_ws(#[trigger] chars@[j]),
        decreases chars@.len() - i,
    {
        if !is_whitespace(chars[i]) {
            return true;
        }
        i = i + 1;
    }
    false
}

/// `s` without its trailing newlines.
pub open spec fn strip_newlines(s: Seq<char>) -> Seq<char>
    decreases s.len(),
{
    if s.len() > 0 && s.last() == '\n' {
        strip_newlines(s.drop_last())
    } else {
        s
    }
}

/// A command's captured output as it is substituted: with its trailing
/// newlines removed.
pub fn trim_output(output: &str) -> (r: String)
    ensures
        r@ == strip_newlines(output@),
{
    let chars = str_chars(output);
    let mut end = chars.len();
    assert(chars@.subrange(0, end as int) =~= chars@);
    while end > 0 && chars[end - 1] == '\n'
        invariant
            end <= chars@.len(),
            strip_newlines(chars@.subrange(0, end as int)) == strip_newlines(output@),
            chars@ == output@,
        decreases end,
    {
        proof {
            assert(chars@.subrange(0, end as int).drop_last() =~= chars@.subrange(0, end - 1));
        }
        end = end - 1;
    }
    string_from_range(&chars, 0, end)
}

/// `s` holds no command substitution: no backquote, and no `$(`.
pub open spec fn no_substitution(s: Seq<char>) -> bool {
    &&& forall|i: int| 0 <= i < s.len() ==> #[trigger] s[i] != '`'
    &&& forall|i: int| 0 <= i && i + 1 < s.len() ==> !(#[trigger] s[i] == '$' && s[i + 1] == '(')
}

proof fn lemma_no_substitution_from(s: Seq<char>, i: int, outs: Seq<Seq<char>>, k: int)
    requires
        0 <= i <= s.len(),
        no_substitution(s),
    ensures
        substituted(s, i, outs, k) == s.subrange(i, s.len() as int),
        commands_in(s, i) == Seq::<Seq<char>>::empty(),
    decreases s.len() - i,
{
    if i < s.len() {
        lemma_no_substitution_from(s, i + 1, outs, k);
        assert(s[i] != '`');
        if i + 1 < s.len() {
            assert(!(s[i] == '$' && s[i + 1] == '('));
        }
        assert(substitution_at(s, i) is None);
        assert(seq![s[i]] + s.subrange(i + 1, s.len() as int) =~= s.subrange(i, s.len() as int));
    } else {
        assert(s.subrange(i, s.len() as int) =~= Seq::<char>::empty());
    }
}

/// Text without `$(` or backquotes runs no command and stays as it is.
pub proof fn law_no_substitution_unchanged(s: Seq<char>, outs: Seq<Seq<char>>, k: int)
    requires
        no_substitution(s),
    ensures
        substituted(s, 0, outs, k) == s,
        commands_in(s, 0) == Seq::<Seq<char>>::empty(),
{
    lemma_no_substitution_from(s, 0, outs, k);
    assert(s.subrange(0, s.len() as int) =~= s);
}

/// `s` closes no command substitution: no `$(` in it is closed by a
/// matching `)`, and it holds at most one backquote.
pub open spec fn no_closed_substitution(s: Seq<char>) -> bool {
    &&& forall|i: int|
        0 <= i && i + 1 < s.len() && #[trigger] s[i] == '$' && s[i + 1] == '(' ==> paren_close(
            s,
            i + 2,
            1,
        ) is None
    &&& forall|i: int, j: int| 0 <= i < j < s.len() && #[trigger] s[i] == '`' ==> #[trigger] s[j] != '`'
}

proof fn lemma_unclosed_from(s: Seq<char>, i: int, outs: Seq<Seq<char>>, k: int)
    requires
        0 <= i <= s.len(),
        no_closed_substitution(s),
    ensures
        substituted(s, i, outs, k) == s.subrange(i, s.len() as int),
        commands_in(s, i) == Seq::<Seq<char>>::empty(),
    decreases s.len() - i,
{
    if i < s.len() {
        lemma_unclosed_from(s, i + 1, outs, k);
        if s[i] == '`' {
            lemma_tick_close(s, i + 1);
            if tick_close(s, i + 1) is Some {
                let j = tick_close(s, i + 1)->0;
                assert(s[j] == '`');
            }
        }
        if i + 1 < s.len() && s[i] == '$' && s[i + 1] == '(' {
            assert(paren_close(s, i + 2, 1) is None);
        }
        assert(substitution_at(s, i) is None);
        assert(seq![s[i]] + s.subrange(i + 1, s.len() as int) =~= s.subrange(i, s.len() as int));
    } else {
        assert(s.subrange(i, s.len() as int) =~= Seq::<char>::empty());
    }
}

/// Text that closes no substitution (every `$(` left open, at most one
/// backquote) runs no command and stays as it is, whatever the outputs.
pub proof fn law_unclosed_substitution_unchanged(s: Seq<char>, outs: Seq<Seq<char>>, k: int)
    requires
        no_closed_substitution(s),
    ensures
        substituted(s, 0, outs, k) == s,
        commands_in(s, 0) == Seq::<Seq<char>>::empty(),
{
    lemma_unclosed_from(s, 0, outs, k);
    assert(s.subrange(0, s.len() as int) =~= s);
}

/// What a substitution puts in place of a command never ends with a
/// newline: trailing newlines of the output are dropped.
pub proof fn law_captured_no_trailing_newline(command: Seq<char>, output: Seq<char>)
    ensures
        captured(command, output).len() == 0 || captured(command, output).last() != '\n',
    decreases output.len(),
{
    if !all_ws(command) && output.len() > 0 && output.last() == '\n' {
        law_captured_no_trailing_newline(command, output.drop_last());
    }
}

/// Whether `s` holds neither `$` nor a backquote, so that no substitution
/// starts in it.
pub open spec fn plain_text(s: Seq<char>) -> bool {
    forall|i: int| 0 <= i < s.len() ==> #[trigger] s[i] != '$' && s[i] != '`'
}

proof fn lemma_plain_run(s: Seq<char>, i: int, j: int, outs: Seq<Seq<char>>, k: int)
    requires
        0 <= i <= j <= s.len(),
        forall|m: int| i <= m < j ==> #[trigger] s[m] != '$' && s[m] != '`',
    ensures
        substituted(s, i, outs, k) == s.subrange(i, j) + substituted(s, j, outs, k),
        commands_in(s, i) == commands_in(s, j),
    decreases j - i,
{
    if i < j {
        lemma_plain_run(s, i + 1, j, outs, k);
        assert(substitution_at(s, i) is None);
        assert(seq![s[i]] + (s.subrange(i + 1, j) + substituted(s, j, outs, k)) =~= s.subrange(i, j)
            + substituted(s, j, outs, k));
    } else {
        assert(s.subrange(i, j) =~= Seq::<char>::empty());
        assert(s.subrange(i, j) + substituted(s, j, outs, k) =~= substituted(s, j, outs, k));
    }
}

proof fn lemma_paren_walk(s: Seq<char>, i: int, j: int)
    requires
        0 <= i <= j < s.len(),
        s[j] == ')',
        forall|m: int| i <= m < j ==> #[trigger] s[m] != '(' && s[m] != ')',
    ensures
        paren_close(s, i, 1) == Some(j),
    decreases j - i,
{
    if i < j {
        lemma_paren_walk(s, i + 1, j);
    }
}

proof fn lemma_tick_walk(s: Seq<char>, i: int, j: int)
    requires
        0 <= i <= j < s.len(),
        s[j] == '`',
        forall|m: int| i <= m < j ==> #[trigger] s[m] != '`',
    ensures
        tick_close(s, i) == Some(j),
    decreases j - i,
{
    if i < j {
        lemma_tick_walk(s, i + 1, j);
    }
}

/// One `$( cmd )` in plain text: the text around it stays as it is, and
/// in its place comes what the command printed (output `k` of `outs`)
/// without its trailing newlines, or nothing where the command is blank;
/// the command is the one asked for.
pub proof fn law_one_paren_substitution(
    pre: Seq<char>,
    cmd: Seq<char>,
    post: Seq<char>,
    outs: Seq<Seq<char>>,
    k: int,
)
    requires
        plain_text(pre),
        plain_text(post),
        forall|i: int| 0 <= i < cmd.len() ==> #[trigger] cmd[i] != '(' && cmd[i] != ')',
    ensures
        substituted(pre + "$("@ + cmd + ")"@ + post, 0, outs, k) == pre + captured(
            cmd,
            output_at(outs, k),
        ) + post,
        commands_in(pre + "$("@ + cmd + ")"@ + post, 0) == seq![cmd],
{
    reveal_strlit("$(");
    reveal_strlit(")");
    let s = pre + "$("@ + cmd + ")"@ + post;
    let n = pre.len() as int;
    let j = n + 2 + cmd.len();
    assert(s[n] == '$' && s[n + 1] == '(' && s[j] == ')');
    assert(s.subrange(0, n) =~= pre);
    assert(s.subrange(n + 2, j) =~= cmd);
    assert(s.subrange(j + 1, s.len() as int) =~= post);
    assert forall|m: int| 0 <= m < n implies #[trigger] s[m] != '$' && s[m] != '`' by {
        assert(s[m] == pre[m]);
    }
    assert forall|m: int| n + 2 <= m < j implies #[trigger] s[m] != '(' && s[m] != ')' by {
        assert(s[m] == cmd[m - n - 2]);
    }
    assert forall|m: int| j + 1 <= m < s.len() implies #[trigger] s[m] != '$' && s[m] != '`' by {
        assert(s[m] == post[m - j - 1]);
    }
    lemma_plain_run(s, 0, n, outs, k);
    lemma_paren_walk(s, n + 2, j);
    assert(substitution_at(s, n) == Some((cmd, j + 1)));
    lemma_plain_run(s, j + 1, s.len() as int, outs, k + 1);
    assert(substituted(s, s.len() as int, outs, k + 1) == Seq::<char>::empty());
    assert(commands_in(s, s.len() as int) == Seq::<Seq<char>>::empty());
    assert(post + Seq::<char>::empty() =~= post);
    assert(seq![cmd] + Seq::<Seq<char>>::empty() =~= seq![cmd]);
    assert(pre + (captured(cmd, output_at(outs, k)) + post) =~= pre + captured(
        cmd,
        output_at(outs, k),
    ) + post);
}

/// One `` `cmd` `` in plain text: the same as a `$( cmd )`.
pub proof fn law_one_backquote_substitution(
    pre: Seq<char>,
    cmd: Seq<char>,
    post: Seq<char>,
    outs: Seq<Seq<char>>,
    k: int,
)
    requires
        plain_text(pre),
        plain_text(post),
        forall|i: int| 0 <= i < cmd.len() ==> #[trigger] cmd[i] != '`',
    ensures
        substituted(pre + "`"@ + cmd + "`"@ + post, 0, outs, k) == pre + captured(
            cmd,
            output_at(outs, k),
        ) + post,
        commands_in(pre + "`"@ + cmd + "`"@ + post, 0) == seq![cmd],
{
    reveal_strlit("`");
    let s = pre + "`"@ + cmd + "`"@ + post;
    let n = pre.len() as int;
    let j = n + 1 + cmd.len();
    assert(s[n] == '`' && s[j] == '`');
    assert(s.subrange(0, n) =~= pre);
    assert(s.subrange(n + 1, j) =~= cmd);
    assert(s.subrange(j + 1, s.len() as int) =~= post);
    assert forall|m: int| 0 <= m < n implies #[trigger] s[m] != '$' && s[m] != '`' by {
        assert(s[m] == pre[m]);
    }
    assert forall|m: int| n + 1 <= m < j implies #[trigger] s[m] != '`' by {
        assert(s[m] == cmd[m - n - 1]);
    }
    assert forall|m: int| j + 1 <= m < s.len() implies #[trigger] s[m] != '$' && s[m] != '`' by {
        assert(s[m] == post[m - j - 1]);
    }
    lemma_plain_run(s, 0, n, outs, k);
    lemma_tick_walk(s, n + 1, j);
    assert(substitution_at(s, n) == Some((cmd, j + 1)));
    lemma_plain_run(s, j + 1, s.len() as int, outs, k + 1);
    assert(substituted(s, s.len() as int, outs, k + 1) == Seq::<char>::empty());
    assert(commands_in(s, s.len() as int) == Seq::<Seq<char>>::empty());
    assert(post + Seq::<char>::empty() =~= post);
    assert(seq![cmd] + Seq::<Seq<char>>::empty() =~= seq![cmd]);
    assert(pre + (captured(cmd, output_at(outs, k)) + post) =~= pre + captured(
        cmd,
        output_at(outs, k),
    ) + post);
}

} // verus!
