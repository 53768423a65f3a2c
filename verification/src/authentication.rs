//! Finding a user's password hash in the text of the shadow password file,
//! for the `lala` privilege helper. Each line is `name:hash:...`; the
//! helper hashes the typed password with the stored hash as salt and
//! compares the two.

use vstd::prelude::*;

use crate::text::{chars_range, find_char, first_at, lemma_first_at, str_chars, string_from_chars};

verus! {

/// `l` without a carriage return at its end.
pub open spec fn strip_cr(l: Seq<char>) -> Seq<char> {
    if l.len() > 0 && l.last() == '\r' {
        l.drop_last()
    } else {
        l
    }
}

/// The lines of `s` from position `i` on, the way `str::lines` cuts them:
/// at each `\n`, dropping a `\r` just before it; a final `\n` starts no
/// empty line.
pub open spec fn lines_from(s: Seq<char>, i: int) -> Seq<Seq<char>>
    decreases s.len() - i,
{
    if i < 0 || i >= s.len() {
        Seq::empty()
    } else {
        match first_at(s, '\n', i) {
            Some(e) => {
                proof {
                    lemma_first_at(s, '\n', i);
                }
                seq![strip_cr(s.subrange(i, e))] + lines_from(s, e + 1)
            },
            None => seq![s.subrange(i, s.len() as int)],
        }
    }
}

/// The first `:`-separated field of `l`.
pub open spec fn first_field(l: Seq<char>) -> Seq<char> {
    match first_at(l, ':', 0) {
        Some(k) => l.subrange(0, k),
        None => l,
    }
}

/// The second `:`-separated field of `l`, or nothing where it has one
/// field only.
pub open spec fn second_field(l: Seq<char>) -> Seq<char> {
    match first_at(l, ':', 0) {
        Some(k) => {
            let rest = l.subrange(k + 1, l.len() as int);
            match first_at(rest, ':', 0) {
                Some(m) => rest.subrange(0, m),
                None => rest,
            }
        },
        None => Seq::empty(),
    }
}

/// Whether the line `l` is the entry of `user`: it has two fields or more,
/// the first being the name.
pub open spec fn is_entry_of(l: Seq<char>, user: Seq<char>) -> bool {
    first_at(l, ':', 0) is Some && first_field(l) == user
}

/// The stored hash of `user`: the second field of the first of `lines`
/// that is the user's entry, or nothing where none is.
pub open spec fn hash_in(lines: Seq<Seq<char>>, user: Seq<char>) -> Seq<char>
    decreases lines.len(),
{
    if lines.len() == 0 {
        Seq::empty()
    } else if is_entry_of(lines[0], user) {
        second_field(lines[0])
    } else {
        hash_in(lines.drop_first(), user)
    }
}

/// Whether a stored hash can match a password: an empty one, a locked
/// account (`!`) and a disabled one (`*`) cannot.
pub open spec fn usable_hash(h: Seq<char>) -> bool {
    h.len() > 0 && h != seq!['!'] && h != seq!['*']
}

fn same_chars(a: &Vec<char>, b: &Vec<char>) -> (r: bool)
    ensures
        r == (a@ == b@),
{
    if a.len() != b.len() {
        return false;
    }
    let mut i: usize = 0;
    while i < a.len()
        invariant
            a@.len() == b@.len(),
            i <= a@.len(),
            forall|j: int| 0 <= j < i ==> a@[j] == b@[j],
        decreases a@.len() - i,
    {
        if a[i] != b[i] {
            return false;
        }
        i = i + 1;
    }
    assert(a@ =~= b@);
    true
}

/// The second field of `line` where `line` is the entry of `user`.
fn entry_hash(line: &Vec<char>, user: &Vec<char>) -> (r: Option<Vec<char>>)
    ensures
        match r {
            Some(h) => is_entry_of(line@, user@) && h@ == second_field(line@),
            None => !is_entry_of(line@, user@),
        },
{
    proof {
        lemma_first_at(line@, ':', 0);
    }
    match find_char(line, ':', 0) {
        None => None,
        Some(k) => {
            assert(line@.len() == line.len());
            let name = chars_range(line, 0, k);
            assert(name@ == first_field(line@));
            if !same_chars(&name, user) {
                return None;
            }
            let rest = chars_range(line, k + 1, line.len());
            proof {
                lemma_first_at(rest@, ':', 0);
            }
            match find_char(&rest, ':', 0) {
                Some(m) => Some(chars_range(&rest, 0, m)),
                None => Some(rest),
            }
        },
    }
}

/// The stored hash of `username` in `content`, the text of the shadow
/// file, where it can match a password; `None` where the user has no
/// entry, or an empty, locked (`!`) or disabled (`*`) one.
pub fn shadow_hash(content: &str, username: &str) -> (r: Option<String>)
    ensures
        match r {
            Some(h) => h@ == hash_in(lines_from(content@, 0), username@) && usable_hash(h@),
            None => !usable_hash(hash_in(lines_from(content@, 0), username@)),
        },
{
    let s = str_chars(content);
    let u = str_chars(username);
    let ghost want = hash_in(lines_from(s@, 0), u@);
    let mut i: usize = 0;
    while i < s.len()
        invariant
            i <= s@.len(),
            s@ == content@,
            u@ == username@,
            want == hash_in(lines_from(content@, 0), username@),
            hash_in(lines_from(s@, i as int), u@) == want,
        decreases s@.len() - i,
    {
        proof {
            lemma_first_at(s@, '\n', i as int);
        }
        let found = find_char(&s, '\n', i);
        let e: usize = match found {
            Some(e) => e,
            None => s.len(),
        };
        let mut line = chars_range(&s, i, e);
        if found.is_some() && line.len() > 0 && line[line.len() - 1] == '\r' {
            line.pop();
        }
        proof {
            let lines = lines_from(s@, i as int);
            if found.is_some() {
                assert(line@ =~= strip_cr(s@.subrange(i as int, e as int)));
            } else {
                assert(line@ =~= s@.subrange(i as int, s@.len() as int));
            }
            assert(lines[0] == line@);
            assert(lines.drop_first() =~= lines_from(s@, e + 1));
        }
        match entry_hash(&line, &u) {
            Some(h) => {
                if h.len() == 0 {
                    return None;
                }
                if h.len() == 1 && (h[0] == '!' || h[0] == '*') {
                    assert(h@ =~= seq![h@[0]]);
                    return None;
                }
                assert(h@ != seq!['!'] && h@ != seq!['*']) by {
                    if h@.len() == 1 {
                        assert(seq!['!'][0] == '!');
                        assert(seq!['*'][0] == '*');
                    }
                }
                return Some(string_from_chars(&h));
            },
            None => {},
        }
        if found.is_some() {
            i = e + 1;
        } else {
            i = s.len();
        }
    }
    None
}

} // verus!
