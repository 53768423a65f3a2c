//! The script executor's `read`: `read [-p PROMPT] [-s] [-t SECONDS]
//! [-d DELIM] [-a ARRAY] [--] [NAME...]`. Reading (with its timeout, which
//! gives status 142) is the caller's part; here the options are parsed and
//! the line that was read is assigned.

use vstd::prelude::*;

use crate::builtins::trim_end_char;
use crate::expansion::fields::{join_with_spaces, join_words, split_whitespace, strings_view, ws_words};
use crate::text::{copy_string, eq_str, str_chars, string_from_range};

verus! {

/// The options of `read`.
pub struct ReadOptions {
    /// Printed on standard error before reading.
    pub prompt: Option<String>,
    /// Do not echo the input.
    pub silent: bool,
    /// The operands of the `-t` options, in order: the timeout is the last
    /// of them that is a number of seconds.
    pub timeouts: Vec<String>,
    /// The byte that ends the input.
    pub delim: u8,
    /// The array that takes the words of the input, where one is named.
    pub array: Option<String>,
    /// The variables that take the input.
    pub vars: Vec<String>,
}

/// The options as values.
#[verifier::ext_equal]
pub struct OptionsView {
    pub prompt: Option<Seq<char>>,
    pub silent: bool,
    pub timeouts: Seq<Seq<char>>,
    pub delim: u8,
    pub array: Option<Seq<char>>,
}

/// The first byte of the UTF-8 encoding of `c`.
pub open spec fn first_byte(c: char) -> u8 {
    let n = c as u32;
    if n < 0x80 {
        n as u8
    } else if n < 0x800 {
        (0xC0 + n / 64) as u8
    } else if n < 0x10000 {
        (0xE0 + n / 4096) as u8
    } else {
        (0xF0 + n / 262144) as u8
    }
}

/// The options of `read` from position `i` on, with those read so far,
/// and where the variable names start. `-p` and `-a` take the next word
/// where there is one; `-d` takes the first byte of the next word (a
/// newline where it is empty) and leaves the delimiter where there is no
/// next word; `-t` records the next word. An option whose word is missing
/// ends the words.
pub open spec fn read_opts(args: Seq<Seq<char>>, i: int, o: OptionsView) -> (OptionsView, int)
    decreases args.len() - i,
{
    if i < 0 || i >= args.len() {
        (o, i)
    } else {
        let a = args[i];
        let next: Option<Seq<char>> = if i + 1 < args.len() {
            Some(args[i + 1])
        } else {
            None
        };
        let after = if i + 1 < args.len() {
            i + 2
        } else {
            args.len() as int
        };
        if a == "-p"@ {
            read_opts(args, after, OptionsView { prompt: next, ..o })
        } else if a == "-s"@ {
            read_opts(args, i + 1, OptionsView { silent: true, ..o })
        } else if a == "-t"@ {
            read_opts(
                args,
                after,
                OptionsView {
                    timeouts: match next {
                        Some(t) => o.timeouts.push(t),
                        None => o.timeouts,
                    },
                    ..o
                },
            )
        } else if a == "-d"@ {
            read_opts(
                args,
                after,
                OptionsView {
                    delim: match next {
                        Some(d) => if d.len() > 0 {
                            first_byte(d[0])
                        } else {
                            10u8
                        },
                        None => o.delim,
                    },
                    ..o
                },
            )
        } else if a == "-a"@ {
            read_opts(args, after, OptionsView { array: next, ..o })
        } else if a == "--"@ {
            (o, i + 1)
        } else {
            (o, i)
        }
    }
}

/// The options before any are read.
pub open spec fn no_options() -> OptionsView {
    OptionsView { prompt: None, silent: false, timeouts: Seq::empty(), delim: 10u8, array: None }
}

/// The variables named from `start` on.
pub open spec fn vars_from(args: Seq<Seq<char>>, start: int) -> Seq<Seq<char>> {
    if start >= args.len() {
        Seq::empty()
    } else {
        args.subrange(start, args.len() as int)
    }
}

/// An optional text as values.
pub open spec fn opt_text(o: Option<String>) -> Option<Seq<char>> {
    match o {
        Some(s) => Some(s@),
        None => None,
    }
}

impl ReadOptions {
    pub open spec fn view(&self) -> OptionsView {
        OptionsView {
            prompt: opt_text(self.prompt),
            silent: self.silent,
            timeouts: strings_view(self.timeouts@),
            delim: self.delim,
            array: opt_text(self.array),
        }
    }
}

/// The first byte of the UTF-8 encoding of `c`.
fn utf8_first_byte(c: char) -> (b: u8)
    ensures
        b == first_byte(c),
{
    let n = c as u32;
    if n < 0x80 {
        n as u8
    } else if n < 0x800 {
        (0xC0 + n / 64) as u8
    } else if n < 0x10000 {
        (0xE0 + n / 4096) as u8
    } else {
        assert(n <= 0x10FFFF);
        (0xF0 + n / 262144) as u8
    }
}

/// Parses the words of `read` (the first being the command's name).
pub fn parse_read_options(args: &[String]) -> (r: ReadOptions)
    ensures
        r.view() == read_opts(strings_view(args@), 1, no_options()).0,
        strings_view(r.vars@) == vars_from(
            strings_view(args@),
            read_opts(strings_view(args@), 1, no_options()).1,
        ),
{
    let ghost a = strings_view(args@);
    let mut o = ReadOptions {
        prompt: None,
        silent: false,
        timeouts: Vec::new(),
        delim: 10u8,
        array: None,
        vars: Vec::new(),
    };
    assert(strings_view(o.timeouts@) =~= Seq::<Seq<char>>::empty());
    assert(o.view() =~= no_options());
    let mut i: usize = 1;
    loop
        invariant_except_break
            1 <= i,
            a == strings_view(args@),
            read_opts(a, 1, no_options()) == read_opts(a, i as int, o.view()),
        ensures
            1 <= i,
            a == strings_view(args@),
            read_opts(a, 1, no_options()) == (o.view(), i as int),
        decreases args@.len() - i,
    {
        if i >= args.len() {
            break;
        }
        let arg = args[i].as_str();
        let has_next = i < args.len() - 1;
        let after = if has_next {
            i + 2
        } else {
            args.len()
        };
        if eq_str(arg, "-p") {
            o.prompt = if has_next {
                Some(copy_string(&args[i + 1]))
            } else {
                None
            };
            i = after;
        } else if eq_str(arg, "-s") {
            o.silent = true;
            i = i + 1;
        } else if eq_str(arg, "-t") {
            if has_next {
                let ghost before = strings_view(o.timeouts@);
                o.timeouts.push(copy_string(&args[i + 1]));
                assert(strings_view(o.timeouts@) =~= before.push(a[i + 1]));
            }
            i = after;
        } else if eq_str(arg, "-d") {
            if has_next {
                let d = str_chars(args[i + 1].as_str());
                o.delim = if d.len() > 0 {
                    utf8_first_byte(d[0])
                } else {
                    10u8
                };
            }
            i = after;
        } else if eq_str(arg, "-a") {
            o.array = if has_next {
                Some(copy_string(&args[i + 1]))
            } else {
                None
            };
            i = after;
        } else if eq_str(arg, "--") {
            i = i + 1;
            break;
        } else {
            break;
        }
    }
    let mut vars: Vec<String> = Vec::new();
    let start = i;
    let mut k = i;
    while k < args.len()
        invariant
            start <= k,
            a == strings_view(args@),
            start >= args@.len() ==> vars@.len() == 0,
            start < args@.len() ==> k <= args@.len() && strings_view(vars@) == a.subrange(
                start as int,
                k as int,
            ),
        decreases args@.len() - k,
    {
        let ghost before = strings_view(vars@);
        vars.push(copy_string(&args[k]));
        assert(strings_view(vars@) =~= before.push(a[k as int]));
        k = k + 1;
        assert(strings_view(vars@) =~= a.subrange(start as int, k as int));
    }
    if start >= args.len() {
        assert(strings_view(vars@) =~= Seq::<Seq<char>>::empty());
    }
    o.vars = vars;
    o
}

/// What a `read` assigns.
pub enum ReadAssignment {
    /// The array takes these words.
    Array(String, Vec<String>),
    /// Each variable takes its value, in order.
    Vars(Vec<(String, String)>),
}

/// The value the `i`-th of `n` variables takes from the words `w`: its word
/// (empty where the words have run out), or for the last variable the
/// words from its position on, joined by spaces.
pub open spec fn word_or_rest(n: int, w: Seq<Seq<char>>, i: int) -> Seq<char> {
    if i == n - 1 {
        join_words(w.subrange(i, w.len() as int))
    } else if i < w.len() {
        w[i]
    } else {
        Seq::empty()
    }
}

/// What reading `input` assigns: the array takes its words; otherwise the
/// variables (`REPLY` where none is named) take it, one variable the whole
/// input (without trailing carriage returns).
pub open spec fn read_targets(array: Option<Seq<char>>, vars: Seq<Seq<char>>, input: Seq<char>) -> (
    Option<(Seq<char>, Seq<Seq<char>>)>,
    Seq<(Seq<char>, Seq<char>)>,
) {
    let line = trim_end_char(input, '\r');
    match array {
        Some(a) => (Some((a, ws_words(line))), Seq::empty()),
        None => {
            let vs = if vars.len() == 0 {
                seq!["REPLY"@]
            } else {
                vars
            };
            if vs.len() == 1 {
                (None, seq![(vs[0], line)])
            } else {
                (
                    None,
                    Seq::new(
                        vs.len(),
                        |i: int| (vs[i], word_or_rest(vs.len() as int, ws_words(line), i)),
                    ),
                )
            }
        },
    }
}

/// Name-value pairs as values.
pub open spec fn assigned(v: Seq<(String, String)>) -> Seq<(Seq<char>, Seq<char>)> {
    v.map_values(|p: (String, String)| (p.0@, p.1@))
}

/// The words `w[lo..]` joined by spaces.
fn rest_from(w: &Vec<String>, lo: usize) -> (r: String)
    requires
        lo <= w@.len(),
    ensures
        r@ == join_words(strings_view(w@).subrange(lo as int, w@.len() as int)),
{
    let mut rest: Vec<String> = Vec::new();
    let mut i = lo;
    while i < w.len()
        invariant
            lo <= i <= w@.len(),
            strings_view(rest@) == strings_view(w@).subrange(lo as int, i as int),
        decreases w@.len() - i,
    {
        let ghost before = strings_view(rest@);
        rest.push(copy_string(&w[i]));
        assert(strings_view(rest@) =~= before.push(w@[i as int]@));
        i = i + 1;
        assert(strings_view(rest@) =~= strings_view(w@).subrange(lo as int, i as int));
    }
    join_with_spaces(&rest)
}

/// What reading `input` assigns, with the options `o`. With more than one
/// variable, the last one takes the words from its position on: there must
/// be at least as many words as variables before it.
pub fn read_assignment(o: &ReadOptions, input: &str) -> (r: ReadAssignment)
    requires
        o.array is None && o.vars@.len() > 1 ==> o.vars@.len() - 1 <= ws_words(
            trim_end_char(input@, '\r'),
        ).len(),
    ensures
        match r {
            ReadAssignment::Array(name, words) => read_targets(o.view().array, strings_view(o.vars@), input@)
                == (Some((name@, strings_view(words@))), Seq::<(Seq<char>, Seq<char>)>::empty()),
            ReadAssignment::Vars(pairs) => read_targets(o.view().array, strings_view(o.vars@), input@)
                == (None::<(Seq<char>, Seq<Seq<char>>)>, assigned(pairs@)),
        },
{
    let c = str_chars(input);
    let mut end = c.len();
    assert(c@.subrange(0, end as int) =~= c@);
    while end > 0 && c[end - 1] == '\r'
        invariant
            end <= c@.len(),
            c@ == input@,
            trim_end_char(c@.subrange(0, end as int), '\r') == trim_end_char(input@, '\r'),
        decreases end,
    {
        assert(c@.subrange(0, end as int).drop_last() =~= c@.subrange(0, end - 1));
        end = end - 1;
    }
    let line = string_from_range(&c, 0, end);
    match &o.array {
        Some(name) => {
            return ReadAssignment::Array(copy_string(name), split_whitespace(line.as_str()));
        },
        None => {},
    }
    let mut vars: Vec<String> = Vec::new();
    if o.vars.len() == 0 {
        vars.push(String::from_str("REPLY"));
        assert(strings_view(vars@) =~= seq!["REPLY"@]);
    } else {
        let mut k: usize = 0;
        while k < o.vars.len()
            invariant
                k <= o.vars@.len(),
                strings_view(vars@) == strings_view(o.vars@).subrange(0, k as int),
            decreases o.vars@.len() - k,
        {
            let ghost before = strings_view(vars@);
            vars.push(copy_string(&o.vars[k]));
            assert(strings_view(vars@) =~= before.push(o.vars@[k as int]@));
            k = k + 1;
            assert(strings_view(vars@) =~= strings_view(o.vars@).subrange(0, k as int));
        }
        assert(strings_view(o.vars@).subrange(0, o.vars@.len() as int) =~= strings_view(o.vars@));
    }
    let ghost vs = strings_view(vars@);
    let mut pairs: Vec<(String, String)> = Vec::new();
    if vars.len() == 1 {
        pairs.push((copy_string(&vars[0]), copy_string(&line)));
        assert(assigned(pairs@) =~= seq![(vs[0], line@)]);
        return ReadAssignment::Vars(pairs);
    }
    let words = split_whitespace(line.as_str());
    let ghost w = strings_view(words@);
    let n = vars.len();
    let mut i: usize = 0;
    while i < n
        invariant
            n == vars@.len(),
            n > 1,
            i <= n,
            vs == strings_view(vars@),
            w == strings_view(words@),
            n - 1 <= w.len(),
            assigned(pairs@) == Seq::new(n as nat, |j: int| (vs[j], word_or_rest(n as int, w, j))).subrange(
                0,
                i as int,
            ),
        decreases n - i,
    {
        let value = if i == n - 1 {
            rest_from(&words, i)
        } else if i < words.len() {
            copy_string(&words[i])
        } else {
            String::new()
        };
        let ghost before = assigned(pairs@);
        pairs.push((copy_string(&vars[i]), value));
        assert(assigned(pairs@) =~= before.push((vs[i as int], word_or_rest(n as int, w, i as int))));
        i = i + 1;
        assert(assigned(pairs@) =~= Seq::new(n as nat, |j: int| (vs[j], word_or_rest(n as int, w, j))).subrange(
            0,
            i as int,
        ));
    }
    assert(Seq::new(n as nat, |j: int| (vs[j], word_or_rest(n as int, w, j))).subrange(0, n as int)
        =~= Seq::new(n as nat, |j: int| (vs[j], word_or_rest(n as int, w, j))));
    ReadAssignment::Vars(pairs)
}

} // verus!
