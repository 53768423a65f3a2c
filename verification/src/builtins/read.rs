//! `read [-p PROMPT] [-s] [-r] [NAME...]`: reads a line and assigns its
//! words to the named variables (`REPLY` where none is named). The last
//! variable takes the rest of the line. The reading is the caller's part;
//! here the options are parsed and the line is assigned.

use vstd::prelude::*;

use crate::expansion::fields::{join_with_spaces, join_words, split_whitespace, strings_view, ws_words};
use crate::text::{append_str, copy_string, eq_str, str_chars, string_from_range};

verus! {

/// What `read` was asked to do.
pub struct ReadRequest {
    /// Printed on standard error before reading (`-p`).
    pub prompt: Option<String>,
    /// Do not echo the input (`-s`).
    pub silent: bool,
    /// Accepted for compatibility (`-r`); backslashes are never processed.
    pub raw: bool,
    /// The variables to assign, at least one.
    pub vars: Vec<String>,
}

/// The options of `read` from position `i` on, with those read so far:
/// the prompt, `-s`, `-r`, and where the variable names start; or the
/// message for a malformed option.
pub open spec fn read_options(
    args: Seq<Seq<char>>,
    i: int,
    prompt: Option<Seq<char>>,
    silent: bool,
    raw: bool,
) -> Result<(Option<Seq<char>>, bool, bool, int), Seq<char>>
    decreases args.len() - i,
{
    if i < 0 || i >= args.len() {
        Ok((prompt, silent, raw, i))
    } else {
        let a = args[i];
        if a == "-p"@ {
            if i + 1 >= args.len() {
                Err("read: -p requires an argument"@)
            } else {
                read_options(args, i + 2, Some(args[i + 1]), silent, raw)
            }
        } else if a == "-s"@ {
            read_options(args, i + 1, prompt, true, raw)
        } else if a == "-r"@ {
            read_options(args, i + 1, prompt, silent, true)
        } else if a == "--"@ {
            Ok((prompt, silent, raw, i + 1))
        } else if a.len() > 1 && a[0] == '-' && a != "-"@ {
            Err("read: invalid option: "@ + a)
        } else {
            Ok((prompt, silent, raw, i))
        }
    }
}

/// The variables named from position `start` on, or `REPLY` where none is.
pub open spec fn read_vars(args: Seq<Seq<char>>, start: int) -> Seq<Seq<char>> {
    if start >= args.len() {
        seq!["REPLY"@]
    } else {
        args.subrange(start, args.len() as int)
    }
}

/// Whether `a` is a malformed option: it starts with `-` and is longer
/// than `-` alone.
fn is_bad_option(a: &str) -> (b: bool)
    ensures
        b == (a@.len() > 1 && a@[0] == '-' && a@ != "-"@),
{
    let chars = str_chars(a);
    if chars.len() > 1 && chars[0] == '-' {
        let dash = eq_str(a, "-");
        !dash
    } else {
        false
    }
}

/// Parses the arguments of `read` (the first being the command's name);
/// `Err` holds the message for standard error, with status 2.
pub fn parse_args(args: &[String]) -> (r: Result<ReadRequest, String>)
    ensures
        match read_options(strings_view(args@), 1, None, false, false) {
            Ok((p, s, w, start)) => r matches Ok(req) && (match req.prompt {
                Some(t) => p == Some(t@),
                None => p is None,
            }) && req.silent == s && req.raw == w && strings_view(req.vars@) == read_vars(
                strings_view(args@),
                start,
            ),
            Err(m) => r matches Err(e) && e@ == m,
        },
{
    let ghost a = strings_view(args@);
    let mut prompt: Option<String> = None;
    let mut silent = false;
    let mut raw = false;
    let mut index: usize = 1;
    loop
        invariant_except_break
            1 <= index,
            a == strings_view(args@),
            read_options(a, 1, None, false, false) == read_options(
                a,
                index as int,
                match prompt {
                    Some(t) => Some(t@),
                    None => None,
                },
                silent,
                raw,
            ),
        ensures
            1 <= index,
            a == strings_view(args@),
            read_options(a, 1, None, false, false) == Ok::<
                (Option<Seq<char>>, bool, bool, int),
                Seq<char>,
            >(
                (
                    match prompt {
                        Some(t) => Some(t@),
                        None => None,
                    },
                    silent,
                    raw,
                    index as int,
                ),
            ),
        decreases args@.len() - index,
    {
        if index >= args.len() {
            break;
        }
        let arg = args[index].as_str();
        if eq_str(arg, "-p") {
            if index + 1 >= args.len() {
                return Err(String::from_str("read: -p requires an argument"));
            }
            prompt = Some(copy_string(&args[index + 1]));
            index = index + 2;
        } else if eq_str(arg, "-s") {
            silent = true;
            index = index + 1;
        } else if eq_str(arg, "-r") {
            raw = true;
            index = index + 1;
        } else if eq_str(arg, "--") {
            index = index + 1;
            break;
        } else if is_bad_option(arg) {
            let mut msg = String::from_str("read: invalid option: ");
            append_str(&mut msg, arg);
            return Err(msg);
        } else {
            break;
        }
    }
    let mut vars: Vec<String> = Vec::new();
    let mut i = index;
    while i < args.len()
        invariant
            index <= i,
            a == strings_view(args@),
            index >= args@.len() ==> vars@.len() == 0,
            index < args@.len() ==> i <= args@.len() && strings_view(vars@) == a.subrange(
                index as int,
                i as int,
            ),
        decreases args@.len() - i,
    {
        let ghost before = strings_view(vars@);
        vars.push(copy_string(&args[i]));
        assert(strings_view(vars@) =~= before.push(a[i as int]));
        i = i + 1;
        assert(strings_view(vars@) =~= a.subrange(index as int, i as int));
    }
    if vars.len() == 0 {
        vars.push(String::from_str("REPLY"));
        assert(strings_view(vars@) =~= seq!["REPLY"@]);
    } else {
        assert(index < args@.len());
    }
    Ok(ReadRequest { prompt, silent, raw, vars })
}

/// The value the `i`-th of `n` variables takes from the words `w` of a
/// line: its word, or for the last variable the rest of the words joined
/// by spaces; empty where the words have run out.
pub open spec fn word_for(n: int, w: Seq<Seq<char>>, i: int) -> Seq<char> {
    if i == n - 1 {
        if i < w.len() {
            join_words(w.subrange(i, w.len() as int))
        } else {
            Seq::empty()
        }
    } else if i < w.len() {
        w[i]
    } else {
        Seq::empty()
    }
}

/// The assignments that reading `line` makes to `vars`, in order: a single
/// variable takes the whole line; otherwise each takes its word of the line.
pub open spec fn read_assignments(vars: Seq<Seq<char>>, line: Seq<char>) -> Seq<(Seq<char>, Seq<char>)> {
    if vars.len() == 1 {
        seq![(vars[0], line)]
    } else {
        Seq::new(vars.len(), |i: int| (vars[i], word_for(vars.len() as int, ws_words(line), i)))
    }
}

/// Name-value pairs as values.
pub open spec fn pairs_view(v: Seq<(String, String)>) -> Seq<(Seq<char>, Seq<char>)> {
    v.map_values(|p: (String, String)| (p.0@, p.1@))
}

/// The words `w[lo..]` joined by spaces.
fn join_from(w: &Vec<String>, lo: usize) -> (r: String)
    requires
        lo <= w@.len(),
    ensures
        r@ == join_words(strings_view(w@).subrange(lo as int, w@.len() as int)),
{
    let mut rest: Vec<String> = Vec::new();
    let mut i = lo;
    while i < w.len()
        invariant
            lo <= i <= w@.len(),
            strings_view(rest@) == strings_view(w@).subrange(lo as int, i as int),
        decreases w@.len() - i,
    {
        let ghost before = strings_view(rest@);
        rest.push(copy_string(&w[i]));
        assert(strings_view(rest@) =~= before.push(w@[i as int]@));
        i = i + 1;
        assert(strings_view(rest@) =~= strings_view(w@).subrange(lo as int, i as int));
    }
    join_with_spaces(&rest)
}

/// The assignments that reading `line` makes to `vars`, in order.
pub fn assign_variables(vars: &[String], line: &str) -> (r: Vec<(String, String)>)
    ensures
        pairs_view(r@) == read_assignments(strings_view(vars@), line@),
{
    let ghost v = strings_view(vars@);
    let mut r: Vec<(String, String)> = Vec::new();
    if vars.len() == 1 {
        r.push((copy_string(&vars[0]), String::from_str(line)));
        assert(pairs_view(r@) =~= seq![(v[0], line@)]);
        return r;
    }
    let words = split_whitespace(line);
    let ghost w = strings_view(words@);
    let n = vars.len();
    let mut i: usize = 0;
    while i < n
        invariant
            n == vars@.len(),
            n != 1,
            i <= n,
            v == strings_view(vars@),
            w == strings_view(words@),
            w == ws_words(line@),
            pairs_view(r@) == read_assignments(v, line@).subrange(0, i as int),
        decreases n - i,
    {
        let value = if i == n - 1 {
            if i < words.len() {
                join_from(&words, i)
            } else {
                String::new()
            }
        } else if i < words.len() {
            copy_string(&words[i])
        } else {
            String::new()
        };
        assert(value@ == word_for(n as int, w, i as int));
        let ghost before = pairs_view(r@);
        r.push((copy_string(&vars[i]), value));
        assert(pairs_view(r@) =~= before.push((v[i as int], word_for(n as int, w, i as int))));
        i = i + 1;
        assert(pairs_view(r@) =~= read_assignments(v, line@).subrange(0, i as int));
    }
    assert(read_assignments(v, line@).subrange(0, n as int) =~= read_assignments(v, line@));
    r
}

/// `s` without its trailing newlines and carriage returns.
pub open spec fn trim_line_end(s: Seq<char>) -> Seq<char>
    decreases s.len(),
{
    if s.len() > 0 && (s.last() == '\n' || s.last() == '\r') {
        trim_line_end(s.drop_last())
    } else {
        s
    }
}

/// `s` without its trailing newlines and carriage returns.
pub fn trim_line(s: &str) -> (r: String)
    ensures
        r@ == trim_line_end(s@),
{
    let chars = str_chars(s);
    let mut end = chars.len();
    assert(chars@.subrange(0, end as int) =~= chars@);
    while end > 0 && (chars[end - 1] == '\n' || chars[end - 1] == '\r')
        invariant
            end <= chars@.len(),
            chars@ == s@,
            trim_line_end(chars@.subrange(0, end as int)) == trim_line_end(s@),
        decreases end,
    {
        assert(chars@.subrange(0, end as int).drop_last() =~= chars@.subrange(0, end - 1));
        end = end - 1;
    }
    string_from_range(&chars, 0, end)
}

/// What reading gave: the end of input, a line, or an error's message.
pub enum ReadInput {
    Eof,
    Line(String),
    Failed(String),
}

/// The assignments `read` makes, its exit status, and the message for
/// standard error, after reading gave `input`: at the end of input every
/// variable is emptied and the status is 1; a line is assigned without
/// its line ending; an error assigns nothing and gives status 1.
pub fn finish(vars: &[String], input: ReadInput) -> (r: (Vec<(String, String)>, i32, Option<String>))
    ensures
        match input {
            ReadInput::Eof => pairs_view(r.0@) == read_assignments(strings_view(vars@), Seq::empty())
                && r.1 == 1 && r.2 is None,
            ReadInput::Line(l) => pairs_view(r.0@) == read_assignments(
                strings_view(vars@),
                trim_line_end(l@),
            ) && r.1 == 0 && r.2 is None,
            ReadInput::Failed(e) => r.0@.len() == 0 && r.1 == 1 && (r.2 matches Some(m) && m@
                == "read: "@ + e@),
        },
{
    match input {
        ReadInput::Eof => {
            let empty = String::new();
            (assign_variables(vars, empty.as_str()), 1, None)
        },
        ReadInput::Line(l) => {
            let line = trim_line(l.as_str());
            (assign_variables(vars, line.as_str()), 0, None)
        },
        ReadInput::Failed(e) => {
            let mut msg = String::from_str("read: ");
            append_str(&mut msg, e.as_str());
            (Vec::new(), 1, Some(msg))
        },
    }
}

/// `read` assigns each named variable once, in the order named; a single
/// variable takes the whole line.
pub proof fn law_read_assigns_each(vars: Seq<Seq<char>>, line: Seq<char>)
    requires
        vars.len() > 0,
    ensures
        read_assignments(vars, line).len() == vars.len(),
        forall|i: int| 0 <= i < vars.len() ==> #[trigger] read_assignments(vars, line)[i].0 == vars[i],
        vars.len() == 1 ==> read_assignments(vars, line)[0].1 == line,
{
}

} // verus!
