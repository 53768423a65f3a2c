//! Aliases: a command line whose first word names an alias has that word
//! replaced by the alias's text, again and again for chained aliases, but
//! never twice for the same alias in one line.

use vstd::prelude::*;

use crate::expansion::fields::{
    contains_text, join_with_spaces, join_words, split_whitespace, strings_view, ws_words,
};
use crate::text::{append_str, copy_string};
use crate::vars::VarTable;

verus! {

/// Defines alias `name` as `value`, replacing any earlier definition.
pub fn set(aliases: &mut VarTable, name: &str, value: &str)
    ensures
        final(aliases).view() == old(aliases).view().insert(name@, value@),
{
    aliases.set(name, String::from_str(value));
}

/// The text of alias `name`, if there is one.
pub fn get(aliases: &VarTable, name: &str) -> (r: Option<String>)
    ensures
        match r {
            Some(v) => aliases.view().contains_key(name@) && v@ == aliases.view()[name@],
            None => !aliases.view().contains_key(name@),
        },
{
    aliases.get(name)
}

/// Drops alias `name`; tells whether there was one.
pub fn remove(aliases: &mut VarTable, name: &str) -> (b: bool)
    ensures
        b == old(aliases).view().contains_key(name@),
        final(aliases).view() == old(aliases).view().remove(name@),
{
    aliases.remove(name)
}

/// How `alias` lists an alias.
pub open spec fn alias_line(name: Seq<char>, value: Seq<char>) -> Seq<char> {
    "alias "@ + name + "='"@ + value + "'"@
}

/// `line` lists one of the aliases of `m`.
pub open spec fn lists_alias(m: Map<Seq<char>, Seq<char>>, line: Seq<char>) -> bool {
    exists|name: Seq<char>| m.contains_key(name) && line == #[trigger] alias_line(name, m[name])
}

/// One line per alias, `alias name='value'`, in no particular order.
pub fn list(aliases: &VarTable) -> (r: Vec<String>)
    ensures
        r@.len() == aliases.view().dom().len(),
        forall|i: int| 0 <= i < r@.len() ==> lists_alias(aliases.view(), #[trigger] r@[i]@),
        forall|name: Seq<char>|
            #[trigger] aliases.view().contains_key(name) ==> exists|i: int|
                0 <= i < r@.len() && r@[i]@ == alias_line(name, aliases.view()[name]),
{
    let pairs = aliases.pairs();
    let mut r: Vec<String> = Vec::new();
    let mut i: usize = 0;
    while i < pairs.len()
        invariant
            i <= pairs@.len(),
            r@.len() == i,
            forall|j: int|
                0 <= j < i ==> (#[trigger] r@[j])@ == alias_line(pairs@[j].0@, pairs@[j].1@),
        decreases pairs@.len() - i,
    {
        let mut line = String::from_str("alias ");
        append_str(&mut line, pairs[i].0.as_str());
        append_str(&mut line, "='");
        append_str(&mut line, pairs[i].1.as_str());
        append_str(&mut line, "'");
        r.push(line);
        i = i + 1;
    }
    proof {
        assert forall|j: int| 0 <= j < r@.len() implies lists_alias(aliases.view(), #[trigger] r@[j]@) by {
            assert(aliases.view().contains_key(pairs@[j].0@));
            assert(aliases.view()[pairs@[j].0@] == pairs@[j].1@);
            assert(r@[j]@ == alias_line(pairs@[j].0@, aliases.view()[pairs@[j].0@]));
        }
        assert forall|name: Seq<char>| #[trigger] aliases.view().contains_key(name) implies exists|
            j: int,
        | 0 <= j < r@.len() && r@[j]@ == alias_line(name, aliases.view()[name]) by {
            let j = choose|j: int| 0 <= j < pairs@.len() && pairs@[j].0@ == name;
            assert(r@[j]@ == alias_line(name, aliases.view()[name]));
        }
    }
    r
}

/// Expanding one more alias leaves fewer aliases that may still expand.
pub proof fn lemma_fewer_left(dom: Set<Seq<char>>, done: Set<Seq<char>>, w: Seq<char>)
    requires
        dom.finite(),
        dom.contains(w),
        !done.contains(w),
    ensures
        dom.difference(done.insert(w)).len() < dom.difference(done).len(),
{
    assert(dom.difference(done.insert(w)) =~= dom.difference(done).remove(w));
}

/// `words` with its first word replaced by its alias's words, again and
/// again, each alias at most once (those in `done` were used already).
pub open spec fn alias_chain(
    aliases: Map<Seq<char>, Seq<char>>,
    words: Seq<Seq<char>>,
    done: Set<Seq<char>>,
) -> Seq<Seq<char>>
    decreases aliases.dom().difference(done).len(),
    when aliases.dom().finite()
{
    if words.len() > 0 && !done.contains(words[0]) && aliases.contains_key(words[0]) {
        proof {
            lemma_fewer_left(aliases.dom(), done, words[0]);
        }
        alias_chain(
            aliases,
            ws_words(aliases[words[0]]) + words.drop_first(),
            done.insert(words[0]),
        )
    } else {
        words
    }
}

/// What alias expansion makes of `line`: a line with no words stays as it
/// is; otherwise its words after expansion, joined by single spaces.
pub open spec fn alias_expansion(aliases: Map<Seq<char>, Seq<char>>, line: Seq<char>) -> Seq<char> {
    if ws_words(line).len() == 0 {
        line
    } else {
        join_words(alias_chain(aliases, ws_words(line), Set::empty()))
    }
}

/// Expands the aliases at the start of `line`.
pub fn expand(aliases: &VarTable, line: &str) -> (r: String)
    ensures
        r@ == alias_expansion(aliases.view(), line@),
{
    let mut tokens = split_whitespace(line);
    if tokens.len() == 0 {
        return String::from_str(line);
    }
    proof {
        aliases.lemma_finite();
    }
    let ghost m = aliases.view();
    let ghost start = ws_words(line@);
    let mut expanded: Vec<String> = Vec::new();
    let ghost mut done: Set<Seq<char>> = Set::empty();
    loop
        invariant_except_break
            m == aliases.view(),
            m.dom().finite(),
            forall|w: Seq<char>| done.contains(w) <==> strings_view(expanded@).contains(w),
            alias_chain(m, strings_view(tokens@), done) == alias_chain(m, start, Set::empty()),
        ensures
            strings_view(tokens@) == alias_chain(m, start, Set::empty()),
        decreases m.dom().difference(done).len(),
    {
        if tokens.len() == 0 {
            break;
        }
        let first = copy_string(&tokens[0]);
        assert(first@ == strings_view(tokens@)[0]);
        if contains_text(&expanded, first.as_str()) {
            break;
        }
        match aliases.get(first.as_str()) {
            None => {
                break;
            },
            Some(replacement) => {
                let ghost tv = strings_view(tokens@);
                proof {
                    lemma_fewer_left(m.dom(), done, first@);
                }
                let mut next = split_whitespace(replacement.as_str());
                let ghost rv = strings_view(next@);
                let mut j: usize = 1;
                while j < tokens.len()
                    invariant
                        1 <= j <= tokens@.len(),
                        tv == strings_view(tokens@),
                        strings_view(next@) == rv + tv.subrange(1, j as int),
                    decreases tokens@.len() - j,
                {
                    let ghost before = strings_view(next@);
                    let w = copy_string(&tokens[j]);
                    next.push(w);
                    assert(strings_view(next@) =~= before.push(tv[j as int]));
                    j = j + 1;
                    assert(strings_view(next@) =~= rv + tv.subrange(1, j as int));
                }
                assert(tv.subrange(1, tv.len() as int) =~= tv.drop_first());
                let ghost ev = strings_view(expanded@);
                expanded.push(first);
                proof {
                    assert(strings_view(expanded@) =~= ev.push(first@));
                    done = done.insert(first@);
                    assert forall|w: Seq<char>| done.contains(w) <==> strings_view(
                        expanded@,
                    ).contains(w) by {
                        if w == first@ {
                            assert(strings_view(expanded@)[ev.len() as int] == w);
                        }
                        if strings_view(expanded@).contains(w) && w != first@ {
                            let k = choose|k: int|
                                0 <= k < strings_view(expanded@).len() && strings_view(
                                    expanded@,
                                )[k] == w;
                            assert(ev[k] == w);
                        }
                        if ev.contains(w) {
                            let k = choose|k: int| 0 <= k < ev.len() && ev[k] == w;
                            assert(strings_view(expanded@)[k] == w);
                        }
                    }
                }
                tokens = next;
            },
        }
    }
    join_with_spaces(&tokens)
}

/// A line whose first word names no alias keeps its words: alias
/// expansion only joins them with single spaces.
pub proof fn law_no_alias_unchanged(aliases: Map<Seq<char>, Seq<char>>, line: Seq<char>)
    requires
        aliases.dom().finite(),
        ws_words(line).len() > 0,
        !aliases.contains_key(ws_words(line)[0]),
    ensures
        alias_expansion(aliases, line) == join_words(ws_words(line)),
{
}

/// An alias is expanded once per line at most: where the first word is an
/// alias already used, or no alias, expansion stops there.
pub proof fn law_alias_used_once(
    aliases: Map<Seq<char>, Seq<char>>,
    words: Seq<Seq<char>>,
    done: Set<Seq<char>>,
)
    requires
        aliases.dom().finite(),
        words.len() > 0,
        done.contains(words[0]) || !aliases.contains_key(words[0]),
    ensures
        alias_chain(aliases, words, done) == words,
{
}

} // verus!
