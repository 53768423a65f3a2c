//! Field splitting: an unquoted expansion is cut into fields at the
//! characters of `$IFS`.

use vstd::prelude::*;

use crate::text::{copy_string, is_whitespace, is_ws, str_chars};

verus! {

/// The pieces of `s` between occurrences of the characters in `delims`
/// (the way `str::split` cuts with a set of characters): one more piece than
/// there are delimiters, empty pieces included.
pub open spec fn split_on(s: Seq<char>, delims: Seq<char>) -> Seq<Seq<char>>
    decreases s.len(),
{
    if s.len() == 0 {
        seq![Seq::empty()]
    } else {
        let init = split_on(s.drop_last(), delims);
        if delims.contains(s.last()) {
            init.push(Seq::empty())
        } else {
            init.update(init.len() - 1, init.last().push(s.last()))
        }
    }
}

/// The pieces of `ps` that are not empty, in order.
pub open spec fn nonempty(ps: Seq<Seq<char>>) -> Seq<Seq<char>>
    decreases ps.len(),
{
    if ps.len() == 0 {
        Seq::empty()
    } else if ps.last().len() > 0 {
        nonempty(ps.drop_last()).push(ps.last())
    } else {
        nonempty(ps.drop_last())
    }
}

/// Every character of `ifs` is a space, a tab or a newline.
pub open spec fn whitespace_ifs(ifs: Seq<char>) -> bool {
    forall|i: int| 0 <= i < ifs.len() ==> (#[trigger] ifs[i] == ' ' || ifs[i] == '\t' || ifs[i] == '\n')
}

/// The fields that `value` splits into with the separators `ifs`. An empty
/// `ifs` leaves `value` whole; an empty `value` gives no field. Where `ifs`
/// is only whitespace, runs of separators count as one and the edges are
/// trimmed; otherwise each separator ends a field, so two in a row give an
/// empty field between them.
pub open spec fn fields_of(value: Seq<char>, ifs: Seq<char>) -> Seq<Seq<char>> {
    if ifs.len() == 0 {
        seq![value]
    } else if value.len() == 0 {
        Seq::empty()
    } else if whitespace_ifs(ifs) {
        nonempty(split_on(value, ifs))
    } else {
        split_on(value, ifs)
    }
}

pub proof fn lemma_split_on_len(s: Seq<char>, delims: Seq<char>)
    ensures
        split_on(s, delims).len() >= 1,
    decreases s.len(),
{
    if s.len() > 0 {
        lemma_split_on_len(s.drop_last(), delims);
    }
}

/// The views of a list of strings.
pub open spec fn strings_view(v: Seq<String>) -> Seq<Seq<char>> {
    v.map_values(|s: String| s@)
}

/// Whether `c` is one of `set`.
pub fn char_in(c: char, set: &Vec<char>) -> (b: bool)
    ensures
        b == set@.contains(c),
{
    let mut i: usize = 0;
    while i < set.len()
        invariant
            i <= set@.len(),
            forall|j: int| 0 <= j < i ==> set@[j] != c,
        decreases set@.len() - i,
    {
        if set[i] == c {
            assert(set@[i as int] == c);
            return true;
        }
        i = i + 1;
    }
    false
}

/// The pieces of `s` between the characters of `delims`.
fn split_pieces(s: &Vec<char>, delims: &Vec<char>) -> (r: Vec<String>)
    ensures
        strings_view(r@) == split_on(s@, delims@),
{
    let mut done: Vec<String> = Vec::new();
    let mut cur = String::new();
    let mut i: usize = 0;
    assert(s@.subrange(0, 0) =~= Seq::<char>::empty());
    assert(strings_view(done@).push(cur@) =~= seq![Seq::<char>::empty()]);
    while i < s.len()
        invariant
            i <= s@.len(),
            split_on(s@.subrange(0, i as int), delims@) == strings_view(done@).push(cur@),
        decreases s@.len() - i,
    {
        let c = s[i];
        let ghost pre = s@.subrange(0, i as int);
        let ghost dv = strings_view(done@);
        let ghost cv = cur@;
        assert(s@.subrange(0, i + 1).drop_last() =~= pre);
        assert(s@.subrange(0, i + 1).last() == c);
        if char_in(c, delims) {
            let piece = cur;
            cur = String::new();
            done.push(piece);
            assert(strings_view(done@) =~= dv.push(cv));
            assert(strings_view(done@).push(cur@) =~= dv.push(cv).push(Seq::<char>::empty()));
        } else {
            cur.push(c);
            assert(dv.push(cv).update(dv.len() as int, cv.push(c)) =~= dv.push(cur@));
        }
        i = i + 1;
    }
    assert(s@.subrange(0, s@.len() as int) =~= s@);
    let ghost dv = strings_view(done@);
    done.push(cur);
    assert(strings_view(done@) =~= dv.push(cur@));
    done
}

/// The non-empty strings of `v`, in order.
fn drop_empty(v: Vec<String>) -> (r: Vec<String>)
    ensures
        strings_view(r@) == nonempty(strings_view(v@)),
{
    let mut out: Vec<String> = Vec::new();
    let mut i: usize = 0;
    assert(strings_view(v@).subrange(0, 0) =~= Seq::<Seq<char>>::empty());
    while i < v.len()
        invariant
            i <= v@.len(),
            strings_view(out@) == nonempty(strings_view(v@).subrange(0, i as int)),
        decreases v@.len() - i,
    {
        let ghost pre = strings_view(v@).subrange(0, i as int);
        let ghost ov = strings_view(out@);
        assert(strings_view(v@).subrange(0, i + 1).drop_last() =~= pre);
        assert(strings_view(v@).subrange(0, i + 1).last() == v@[i as int]@);
        if !v[i].as_str().is_empty() {
            out.push(copy_string(&v[i]));
            assert(strings_view(out@) =~= ov.push(v@[i as int]@));
        }
        i = i + 1;
    }
    assert(strings_view(v@).subrange(0, v@.len() as int) =~= strings_view(v@));
    out
}

/// Every character of `ifs` is whitespace in the sense of field splitting.
fn all_whitespace(ifs: &Vec<char>) -> (b: bool)
    ensures
        b == whitespace_ifs(ifs@),
{
    let mut i: usize = 0;
    while i < ifs.len()
        invariant
            i <= ifs@.len(),
            forall|j: int| 0 <= j < i ==> (#[trigger] ifs@[j] == ' ' || ifs@[j] == '\t' || ifs@[j] == '\n'),
        decreases ifs@.len() - i,
    {
        let c = ifs[i];
        if !(c == ' ' || c == '\t' || c == '\n') {
            assert(!(ifs@[i as int] == ' ' || ifs@[i as int] == '\t' || ifs@[i as int] == '\n'));
            return false;
        }
        i = i + 1;
    }
    true
}

/// The fields that `value` splits into with the separators `ifs`.
pub fn split_with(value: &str, ifs: &str) -> (r: Vec<String>)
    ensures
        strings_view(r@) == fields_of(value@, ifs@),
{
    if ifs.is_empty() {
        let mut r: Vec<String> = Vec::new();
        r.push(String::from_str(value));
        assert(strings_view(r@) =~= seq![value@]);
        return r;
    }
    if value.is_empty() {
        let r: Vec<String> = Vec::new();
        assert(strings_view(r@) =~= Seq::<Seq<char>>::empty());
        return r;
    }
    let s = str_chars(value);
    let d = str_chars(ifs);
    let pieces = split_pieces(&s, &d);
    if all_whitespace(&d) {
        drop_empty(pieces)
    } else {
        pieces
    }
}

/// The words of `v` joined by single spaces.
pub open spec fn join_words(v: Seq<Seq<char>>) -> Seq<char>
    decreases v.len(),
{
    if v.len() == 0 {
        Seq::empty()
    } else if v.len() == 1 {
        v[0]
    } else {
        join_words(v.drop_last()) + seq![' '] + v.last()
    }
}

/// The words of `v` joined by single spaces.
pub fn join_with_spaces(v: &Vec<String>) -> (r: String)
    ensures
        r@ == join_words(strings_view(v@)),
{
    let mut r = String::new();
    let mut i: usize = 0;
    while i < v.len()
        invariant
            i <= v@.len(),
            r@ == join_words(strings_view(v@).subrange(0, i as int)),
        decreases v@.len() - i,
    {
        let ghost pre = strings_view(v@).subrange(0, i as int);
        assert(strings_view(v@).subrange(0, i + 1).drop_last() =~= pre);
        if i > 0 {
            r.push(' ');
        }
        crate::text::append_str(&mut r, v[i].as_str());
        proof {
            let now = strings_view(v@).subrange(0, i + 1);
            if i == 0 {
                assert(r@ =~= now[0]);
            } else {
                assert(r@ =~= join_words(pre) + seq![' '] + now.last());
            }
        }
        i = i + 1;
    }
    assert(strings_view(v@).subrange(0, v@.len() as int) =~= strings_view(v@));
    r
}

/// The pieces of `s` between whitespace characters, empty pieces included.
pub open spec fn ws_pieces(s: Seq<char>) -> Seq<Seq<char>>
    decreases s.len(),
{
    if s.len() == 0 {
        seq![Seq::empty()]
    } else {
        let init = ws_pieces(s.drop_last());
        if is_ws(s.last()) {
            init.push(Seq::empty())
        } else {
            init.update(init.len() - 1, init.last().push(s.last()))
        }
    }
}

/// The words of `s`: its maximal runs of non-whitespace characters, as
/// `str::split_whitespace` gives them.
pub open spec fn ws_words(s: Seq<char>) -> Seq<Seq<char>> {
    nonempty(ws_pieces(s))
}

pub proof fn lemma_ws_pieces_len(s: Seq<char>)
    ensures
        ws_pieces(s).len() >= 1,
    decreases s.len(),
{
    if s.len() > 0 {
        lemma_ws_pieces_len(s.drop_last());
    }
}

/// The words of `s`, split at whitespace.
pub fn split_whitespace(s: &str) -> (r: Vec<String>)
    ensures
        strings_view(r@) == ws_words(s@),
{
    let chars = str_chars(s);
    let mut done: Vec<String> = Vec::new();
    let mut cur = String::new();
    let mut i: usize = 0;
    assert(chars@.subrange(0, 0) =~= Seq::<char>::empty());
    assert(strings_view(done@).push(cur@) =~= seq![Seq::<char>::empty()]);
    while i < chars.len()
        invariant
            i <= chars@.len(),
            ws_pieces(chars@.subrange(0, i as int)) == strings_view(done@).push(cur@),
        decreases chars@.len() - i,
    {
        let c = chars[i];
        let ghost pre = chars@.subrange(0, i as int);
        let ghost dv = strings_view(done@);
        let ghost cv = cur@;
        assert(chars@.subrange(0, i + 1).drop_last() =~= pre);
        assert(chars@.subrange(0, i + 1).last() == c);
        if is_whitespace(c) {
            let piece = cur;
            cur = String::new();
            done.push(piece);
            assert(strings_view(done@) =~= dv.push(cv));
            assert(strings_view(done@).push(cur@) =~= dv.push(cv).push(Seq::<char>::empty()));
        } else {
            cur.push(c);
            assert(dv.push(cv).update(dv.len() as int, cv.push(c)) =~= dv.push(cur@));
        }
        i = i + 1;
    }
    assert(chars@.subrange(0, chars@.len() as int) =~= s@);
    let ghost dv = strings_view(done@);
    done.push(cur);
    assert(strings_view(done@) =~= dv.push(cur@));
    drop_empty(done)
}

/// Whether `v` holds the text `t`.
pub fn contains_text(v: &Vec<String>, t: &str) -> (b: bool)
    ensures
        b == strings_view(v@).contains(t@),
{
    let mut i: usize = 0;
    while i < v.len()
        invariant
            i <= v@.len(),
            forall|j: int| 0 <= j < i ==> strings_view(v@)[j] != t@,
        decreases v@.len() - i,
    {
        if crate::text::eq_str(v[i].as_str(), t) {
            assert(strings_view(v@)[i as int] == t@);
            return true;
        }
        i = i + 1;
    }
    false
}

proof fn lemma_split_on_pieces(s: Seq<char>, delims: Seq<char>)
    ensures
        forall|p: int, j: int|
            0 <= p < split_on(s, delims).len() && 0 <= j < split_on(s, delims)[p].len() ==> !delims.contains(
                #[trigger] split_on(s, delims)[p][j],
            ),
    decreases s.len(),
{
    if s.len() > 0 {
        lemma_split_on_pieces(s.drop_last(), delims);
        lemma_split_on_len(s.drop_last(), delims);
        let init = split_on(s.drop_last(), delims);
        let r = split_on(s, delims);
        assert forall|p: int, j: int| 0 <= p < r.len() && 0 <= j < r[p].len() implies !delims.contains(
            #[trigger] r[p][j],
        ) by {
            if delims.contains(s.last()) {
                if p < init.len() {
                    assert(r[p] == init[p]);
                }
            } else {
                if p < init.len() - 1 {
                    assert(r[p] == init[p]);
                } else {
                    assert(r[p] == init.last().push(s.last()));
                    if j < init.last().len() {
                        assert(r[p][j] == init[init.len() - 1][j]);
                    }
                }
            }
        }
    }
}

proof fn lemma_nonempty_from(ps: Seq<Seq<char>>)
    ensures
        forall|a: int|
            0 <= a < nonempty(ps).len() ==> nonempty(ps)[a].len() > 0 && exists|b: int|
                0 <= b < ps.len() && ps[b] == #[trigger] nonempty(ps)[a],
    decreases ps.len(),
{
    if ps.len() > 0 {
        let init = ps.drop_last();
        lemma_nonempty_from(init);
        assert forall|a: int| 0 <= a < nonempty(ps).len() implies nonempty(ps)[a].len() > 0 && exists|
            b: int,
        | 0 <= b < ps.len() && ps[b] == #[trigger] nonempty(ps)[a] by {
            if a < nonempty(init).len() {
                let b = choose|b: int| 0 <= b < init.len() && init[b] == #[trigger] nonempty(init)[a];
                assert(ps[b] == init[b]);
                assert(nonempty(ps)[a] == nonempty(init)[a]);
            } else {
                assert(nonempty(ps)[a] == ps[ps.len() - 1]);
            }
        }
    }
}

/// With a separator set of whitespace only, every field is non-empty and
/// holds no separator.
pub proof fn law_whitespace_fields(value: Seq<char>, ifs: Seq<char>)
    requires
        ifs.len() > 0,
        whitespace_ifs(ifs),
    ensures
        forall|f: int|
            0 <= f < fields_of(value, ifs).len() ==> fields_of(value, ifs)[f].len() > 0 && forall|j: int|
                0 <= j < fields_of(value, ifs)[f].len() ==> !ifs.contains(
                    #[trigger] fields_of(value, ifs)[f][j],
                ),
{
    if value.len() > 0 {
        let ps = split_on(value, ifs);
        lemma_split_on_pieces(value, ifs);
        lemma_nonempty_from(ps);
        assert forall|f: int| 0 <= f < fields_of(value, ifs).len() implies fields_of(value, ifs)[f].len()
            > 0 && forall|j: int|
            0 <= j < fields_of(value, ifs)[f].len() ==> !ifs.contains(
                #[trigger] fields_of(value, ifs)[f][j],
            ) by {
            let b = choose|b: int| 0 <= b < ps.len() && ps[b] == #[trigger] nonempty(ps)[f];
            assert forall|j: int| 0 <= j < fields_of(value, ifs)[f].len() implies !ifs.contains(
                #[trigger] fields_of(value, ifs)[f][j],
            ) by {
                assert(fields_of(value, ifs)[f][j] == ps[b][j]);
            }
        }
    }
}

} // verus!
