//! Braced array expansions: the first `${...}` in a word names an array
//! and selects from it.
//!
//! - `${#arr[@]}` is the number of elements;
//! - `${arr[@]}` gives one word per element, each with the text around the
//!   braces attached;
//! - `${arr[*]}` gives one word, the elements joined by spaces;
//! - `${arr[i]}` is element `i`, empty where there is none.
//!
//! A word whose braces name no array, or hold anything else, is left as it
//! is.

use vstd::prelude::*;

use crate::expansion::fields::{join_with_spaces, join_words, strings_view};
use crate::text::{
    chars_range, find_char, first_at, int_text, lemma_first_at, parse_usize, parse_usize_spec,
    string_from_chars, string_from_range, usize_to_string,
};
use crate::vars::ArrayTable;

verus! {

/// The first position at or after `i` where `${` starts.
pub open spec fn brace_open(s: Seq<char>, i: int) -> Option<int>
    decreases s.len() - i,
{
    if i < 0 || i + 1 >= s.len() {
        None
    } else if s[i] == '$' && s[i + 1] == '{' {
        Some(i)
    } else {
        brace_open(s, i + 1)
    }
}

/// `s` ends with `t`.
pub open spec fn ends_with(s: Seq<char>, t: Seq<char>) -> bool {
    t.len() <= s.len() && s.subrange(s.len() - t.len(), s.len() as int) == t
}

/// Each word of `v` with `prefix` before it and `suffix` after it.
pub open spec fn wrap_all(prefix: Seq<char>, v: Seq<Seq<char>>, suffix: Seq<char>) -> Seq<Seq<char>> {
    v.map_values(|w: Seq<char>| prefix + w + suffix)
}

/// What the first `${...}` of `s` expands to, with the arrays `arrays`.
pub open spec fn braced_words(arrays: Map<Seq<char>, Seq<Seq<char>>>, s: Seq<char>) -> Seq<Seq<char>> {
    match brace_open(s, 0) {
        None => seq![s],
        Some(a) => match first_at(s, '}', a + 2) {
            None => seq![s],
            Some(b) => {
                let inner = s.subrange(a + 2, b);
                let prefix = s.subrange(0, a);
                let suffix = s.subrange(b + 1, s.len() as int);
                let n = inner.len();
                if n >= 4 && inner[0] == '#' && ends_with(inner, seq!['[', '@', ']']) {
                    let name = inner.subrange(1, n - 3);
                    if arrays.contains_key(name) {
                        seq![prefix + int_text(arrays[name].len() as int) + suffix]
                    } else {
                        seq![s]
                    }
                } else if ends_with(inner, seq!['[', '@', ']']) {
                    let name = inner.subrange(0, n - 3);
                    if arrays.contains_key(name) {
                        wrap_all(prefix, arrays[name], suffix)
                    } else {
                        seq![s]
                    }
                } else if ends_with(inner, seq!['[', '*', ']']) {
                    let name = inner.subrange(0, n - 3);
                    if arrays.contains_key(name) {
                        seq![prefix + join_words(arrays[name]) + suffix]
                    } else {
                        seq![s]
                    }
                } else if n > 0 && inner[n - 1] == ']' && first_at(inner, '[', 0) is Some {
                    let bp = first_at(inner, '[', 0)->0;
                    let name = inner.subrange(0, bp);
                    let index = inner.subrange(bp + 1, n - 1);
                    if arrays.contains_key(name) && parse_usize_spec(index) is Some {
                        let k = parse_usize_spec(index)->0;
                        let arr = arrays[name];
                        seq![prefix + (if k < arr.len() { arr[k as int] } else { Seq::empty() }) + suffix]
                    } else {
                        seq![s]
                    }
                } else {
                    seq![s]
                }
            },
        },
    }
}

/// Whether `s` holds `${` anywhere.
pub open spec fn has_brace_open(s: Seq<char>) -> bool {
    brace_open(s, 0) is Some
}

pub proof fn lemma_brace_open(s: Seq<char>, i: int)
    requires
        0 <= i,
    ensures
        brace_open(s, i) matches Some(j) ==> i <= j && j + 1 < s.len() && s[j] == '$' && s[j + 1]
            == '{',
    decreases s.len() - i,
{
    if i + 1 < s.len() && !(s[i] == '$' && s[i + 1] == '{') {
        lemma_brace_open(s, i + 1);
    }
}

/// The first position at or after `from` where `${` starts.
pub fn find_brace_open(v: &Vec<char>, from: usize) -> (r: Option<usize>)
    ensures
        match brace_open(v@, from as int) {
            Some(j) => r == Some(j as usize),
            None => r is None,
        },
{
    let mut i = from;
    while v.len() > 0 && i < v.len() - 1
        invariant
            from <= i,
            brace_open(v@, i as int) == brace_open(v@, from as int),
        decreases v@.len() - i,
    {
        if v[i] == '$' && v[i + 1] == '{' {
            return Some(i);
        }
        i = i + 1;
    }
    None
}

/// Whether the characters of `v` end with `t`.
fn ends_with_chars(v: &Vec<char>, t: &Vec<char>) -> (b: bool)
    ensures
        b == ends_with(v@, t@),
{
    if t.len() > v.len() {
        return false;
    }
    let vl = v.len();
    let off = vl - t.len();
    let mut i: usize = 0;
    while i < t.len()
        invariant
            vl == v@.len(),
            off + t@.len() == vl,
            i <= t@.len(),
            forall|j: int| 0 <= j < i ==> v@[off + j] == t@[j],
        decreases t@.len() - i,
    {
        if v[off + i] != t[i] {
            assert(v@.subrange(off as int, v@.len() as int)[i as int] != t@[i as int]);
            return false;
        }
        i = i + 1;
    }
    assert(v@.subrange(off as int, v@.len() as int) =~= t@);
    true
}

/// `prefix`, `word` and `suffix` written one after another.
fn wrapped(prefix: &Vec<char>, word: &str, suffix: &Vec<char>) -> (r: String)
    ensures
        r@ == prefix@ + word@ + suffix@,
{
    let mut r = string_from_chars(prefix);
    crate::text::append_str(&mut r, word);
    crate::text::append_chars(&mut r, suffix);
    r
}

/// A table's copy of an array as the words it holds.
proof fn lemma_array_words(v: Vec<String>)
    ensures
        v.deep_view() == strings_view(v@),
{
    assert(v.deep_view() =~= strings_view(v@)) by {
        assert forall|j: int| 0 <= j < v@.len() implies v.deep_view()[j] == strings_view(v@)[j] by {
            assert(v.deep_view()[j] == v@[j].deep_view());
        }
    }
}

/// What the first `${...}` of `input` expands to, with the arrays `arrays`.
pub fn expand_braced(arrays: &ArrayTable, input: &str) -> (r: Vec<String>)
    ensures
        strings_view(r@) == braced_words(arrays.view(), input@),
{
    let s = crate::text::str_chars(input);
    let mut whole: Vec<String> = Vec::new();
    whole.push(String::from_str(input));
    assert(strings_view(whole@) =~= seq![input@]);
    let a = match find_brace_open(&s, 0) {
        Some(a) => a,
        None => {
            return whole;
        },
    };
    proof {
        lemma_brace_open(s@, 0);
        lemma_first_at(s@, '}', a + 2);
    }
    let b = match find_char(&s, '}', a + 2) {
        Some(b) => b,
        None => {
            return whole;
        },
    };
    let sl = s.len();
    assert(b < sl);
    let inner = chars_range(&s, a + 2, b);
    let prefix = chars_range(&s, 0, a);
    let suffix = chars_range(&s, b + 1, sl);
    let n = inner.len();
    let ghost av = arrays.view();
    let mut at: Vec<char> = Vec::new();
    at.push('[');
    at.push('@');
    at.push(']');
    let mut star: Vec<char> = Vec::new();
    star.push('[');
    star.push('*');
    star.push(']');
    assert(at@ =~= seq!['[', '@', ']']);
    assert(star@ =~= seq!['[', '*', ']']);
    if n >= 4 && inner[0] == '#' && ends_with_chars(&inner, &at) {
        let name = string_from_range(&inner, 1, n - 3);
        match arrays.get(name.as_str()) {
            Some(arr) => {
                let count = usize_to_string(arr.len());
                proof {
                    lemma_array_words(arr);
                }
                let mut r: Vec<String> = Vec::new();
                r.push(wrapped(&prefix, count.as_str(), &suffix));
                assert(strings_view(r@) =~= seq![prefix@ + count@ + suffix@]);
                return r;
            },
            None => {
                return whole;
            },
        }
    } else if ends_with_chars(&inner, &at) {
        let name = string_from_range(&inner, 0, n - 3);
        match arrays.get(name.as_str()) {
            Some(arr) => {
                proof {
                    lemma_array_words(arr);
                }
                let mut r: Vec<String> = Vec::new();
                let mut i: usize = 0;
                while i < arr.len()
                    invariant
                        i <= arr@.len(),
                        strings_view(r@) == wrap_all(prefix@, strings_view(arr@), suffix@).subrange(
                            0,
                            i as int,
                        ),
                    decreases arr@.len() - i,
                {
                    let ghost before = strings_view(r@);
                    let w = wrapped(&prefix, arr[i].as_str(), &suffix);
                    assert(w@ == wrap_all(prefix@, strings_view(arr@), suffix@)[i as int]);
                    r.push(w);
                    assert(strings_view(r@) =~= before.push(w@));
                    i = i + 1;
                    assert(strings_view(r@) =~= wrap_all(prefix@, strings_view(arr@), suffix@).subrange(
                        0,
                        i as int,
                    ));
                }
                assert(wrap_all(prefix@, strings_view(arr@), suffix@).subrange(0, arr@.len() as int)
                    =~= wrap_all(prefix@, strings_view(arr@), suffix@));
                return r;
            },
            None => {
                return whole;
            },
        }
    } else if ends_with_chars(&inner, &star) {
        let name = string_from_range(&inner, 0, n - 3);
        match arrays.get(name.as_str()) {
            Some(arr) => {
                proof {
                    lemma_array_words(arr);
                }
                let joined = join_with_spaces(&arr);
                let mut r: Vec<String> = Vec::new();
                r.push(wrapped(&prefix, joined.as_str(), &suffix));
                assert(strings_view(r@) =~= seq![prefix@ + joined@ + suffix@]);
                return r;
            },
            None => {
                return whole;
            },
        }
    } else if n > 0 && inner[n - 1] == ']' {
        proof {
            lemma_first_at(inner@, '[', 0);
        }
        match find_char(&inner, '[', 0) {
            Some(bp) => {
                let name = string_from_range(&inner, 0, bp);
                let index = string_from_range(&inner, bp + 1, n - 1);
                match arrays.get(name.as_str()) {
                    Some(arr) => match parse_usize(index.as_str()) {
                        Some(k) => {
                            proof {
                                lemma_array_words(arr);
                            }
                            let value = if k < arr.len() {
                                crate::text::copy_string(&arr[k])
                            } else {
                                String::new()
                            };
                            let mut r: Vec<String> = Vec::new();
                            r.push(wrapped(&prefix, value.as_str(), &suffix));
                            assert(strings_view(r@) =~= seq![prefix@ + value@ + suffix@]);
                            return r;
                        },
                        None => {
                            return whole;
                        },
                    },
                    None => {
                        return whole;
                    },
                }
            },
            None => {
                return whole;
            },
        }
    } else {
        return whole;
    }
}

/// A word without `${` is no array expansion: it stays one word, as it is.
pub proof fn law_no_brace_unchanged(arrays: Map<Seq<char>, Seq<Seq<char>>>, s: Seq<char>)
    requires
        !has_brace_open(s),
    ensures
        braced_words(arrays, s) == seq![s],
{
}

} // verus!
