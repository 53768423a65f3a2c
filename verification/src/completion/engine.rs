//! Tab completion: which word is being completed, and against what. The
//! candidates themselves (program names on `$PATH`, directory entries,
//! environment variable names) are listed by the caller; here they are
//! filtered and turned into replacements.

use vstd::prelude::*;

use crate::expansion::fields::{contains_text, strings_view};
use crate::text::{append_str, copy_string, is_whitespace, is_ws, str_chars, string_from_range};

verus! {

/// Completes words of a command line.
pub struct MitosCompleter;

/// A character that separates words for completion.
pub open spec fn is_separator(c: char) -> bool {
    is_ws(c) || c == '|' || c == ';' || c == '<' || c == '>'
}

/// Where the word that ends at `i` starts: just after the last separator
/// before `i`, or at 0.
pub open spec fn word_start(s: Seq<char>, i: int) -> int
    decreases i,
{
    if i <= 0 {
        0
    } else if is_separator(s[i - 1]) {
        i
    } else {
        word_start(s, i - 1)
    }
}

/// `s` without leading whitespace.
pub open spec fn trim_start(s: Seq<char>) -> Seq<char>
    decreases s.len(),
{
    if s.len() > 0 && is_ws(s[0]) {
        trim_start(s.drop_first())
    } else {
        s
    }
}

/// `s` without trailing whitespace.
pub open spec fn trim_end(s: Seq<char>) -> Seq<char>
    decreases s.len(),
{
    if s.len() > 0 && is_ws(s.last()) {
        trim_end(s.drop_last())
    } else {
        s
    }
}

/// `s` without leading or trailing whitespace.
pub open spec fn trim(s: Seq<char>) -> Seq<char> {
    trim_end(trim_start(s))
}

/// `p` is a prefix of `s`.
pub open spec fn starts_with(s: Seq<char>, p: Seq<char>) -> bool {
    p.len() <= s.len() && s.subrange(0, p.len() as int) == p
}

/// Whether the word starting at `start` is in command position: nothing
/// but one word (or nothing) comes before it, or what comes before ends
/// with `;` or `|`.
pub open spec fn command_position(line: Seq<char>, start: int) -> bool {
    let t = trim(line.subrange(0, start));
    !t.contains(' ') || (t.len() > 0 && (t.last() == ';' || t.last() == '|'))
}

/// What to complete the word against.
#[derive(Debug)]
pub enum CompletionRequest {
    /// Environment variable names starting with the text (the word without
    /// its `$`).
    Variables(String),
    /// Programs on `$PATH`, then files, starting with the word.
    CommandsAndFiles(String),
    /// Files starting with the word.
    Files(String),
}

/// A request as values.
pub enum RequestView {
    Variables(Seq<char>),
    CommandsAndFiles(Seq<char>),
    Files(Seq<char>),
}

impl CompletionRequest {
    pub open spec fn view(&self) -> RequestView {
        match self {
            CompletionRequest::Variables(s) => RequestView::Variables(s@),
            CompletionRequest::CommandsAndFiles(s) => RequestView::CommandsAndFiles(s@),
            CompletionRequest::Files(s) => RequestView::Files(s@),
        }
    }
}

/// What completing `line` at `pos` asks for.
pub open spec fn request_for(line: Seq<char>, pos: int) -> RequestView {
    let start = word_start(line, pos);
    let word = line.subrange(start, pos);
    if word.len() > 0 && word[0] == '$' {
        RequestView::Variables(word.drop_first())
    } else if command_position(line, start) {
        RequestView::CommandsAndFiles(word)
    } else {
        RequestView::Files(word)
    }
}

proof fn lemma_word_start(s: Seq<char>, i: int)
    requires
        0 <= i <= s.len(),
    ensures
        0 <= word_start(s, i) <= i,
    decreases i,
{
    if i > 0 && !is_separator(s[i - 1]) {
        lemma_word_start(s, i - 1);
    }
}

/// Whether `c` separates words for completion.
fn separator(c: char) -> (b: bool)
    ensures
        b == is_separator(c),
{
    is_whitespace(c) || c == '|' || c == ';' || c == '<' || c == '>'
}

/// The start of the word being typed at `pos` (a position in characters),
/// and its text.
pub fn extract_word(line: &str, pos: usize) -> (r: (usize, String))
    requires
        pos <= line@.len(),
    ensures
        r.0 == word_start(line@, pos as int),
        r.1@ == line@.subrange(r.0 as int, pos as int),
{
    let chars = str_chars(line);
    let mut i = pos;
    while i > 0 && !separator(chars[i - 1])
        invariant
            i <= pos <= chars@.len(),
            chars@ == line@,
            word_start(chars@, i as int) == word_start(chars@, pos as int),
        decreases i,
    {
        i = i - 1;
    }
    (i, string_from_range(&chars, i, pos))
}

/// `v` without leading or trailing whitespace.
fn trimmed(v: &Vec<char>, lo: usize, hi: usize) -> (r: Vec<char>)
    requires
        lo <= hi <= v@.len(),
    ensures
        r@ == trim(v@.subrange(lo as int, hi as int)),
{
    let mut a = lo;
    while a < hi && is_whitespace(v[a])
        invariant
            lo <= a <= hi <= v@.len(),
            trim_start(v@.subrange(a as int, hi as int)) == trim_start(v@.subrange(lo as int, hi as int)),
        decreases hi - a,
    {
        assert(v@.subrange(a as int, hi as int).drop_first() =~= v@.subrange(a + 1, hi as int));
        a = a + 1;
    }
    let mut b = hi;
    while b > a && is_whitespace(v[b - 1])
        invariant
            lo <= a <= b <= hi <= v@.len(),
            trim_end(v@.subrange(a as int, b as int)) == trim_end(v@.subrange(a as int, hi as int)),
        decreases b,
    {
        assert(v@.subrange(a as int, b as int).drop_last() =~= v@.subrange(a as int, b - 1));
        b = b - 1;
    }
    crate::text::chars_range(v, a, b)
}

impl MitosCompleter {
    /// What completing `line` at `pos` (a position in characters) asks
    /// for, and where the completed word starts.
    pub fn request(&self, line: &str, pos: usize) -> (r: (usize, CompletionRequest))
        requires
            pos <= line@.len(),
        ensures
            r.0 == word_start(line@, pos as int),
            r.1.view() == request_for(line@, pos as int),
    {
        let (start, word) = extract_word(line, pos);
        proof {
            lemma_word_start(line@, pos as int);
        }
        let w = str_chars(word.as_str());
        if w.len() > 0 && w[0] == '$' {
            let rest = string_from_range(&w, 1, w.len());
            assert(w@.subrange(1, w@.len() as int) =~= w@.drop_first());
            return (start, CompletionRequest::Variables(rest));
        }
        let chars = str_chars(line);
        let t = trimmed(&chars, 0, start);
        let mut has_space = false;
        let mut i: usize = 0;
        while i < t.len()
            invariant
                i <= t@.len(),
                has_space <==> exists|j: int| 0 <= j < i && t@[j] == ' ',
            decreases t@.len() - i,
        {
            if t[i] == ' ' {
                has_space = true;
            }
            i = i + 1;
        }
        assert(has_space == t@.contains(' '));
        let ends_op = t.len() > 0 && (t[t.len() - 1] == ';' || t[t.len() - 1] == '|');
        if !has_space || ends_op {
            (start, CompletionRequest::CommandsAndFiles(word))
        } else {
            (start, CompletionRequest::Files(word))
        }
    }
}

/// Whether `s` starts with `p`.
pub fn has_prefix(s: &str, p: &str) -> (b: bool)
    ensures
        b == starts_with(s@, p@),
{
    let x = str_chars(s);
    let y = str_chars(p);
    if y.len() > x.len() {
        return false;
    }
    let mut i: usize = 0;
    while i < y.len()
        invariant
            y@.len() <= x@.len(),
            i <= y@.len(),
            x@ == s@,
            y@ == p@,
            forall|j: int| 0 <= j < i ==> x@[j] == y@[j],
        decreases y@.len() - i,
    {
        if x[i] != y[i] {
            assert(x@.subrange(0, y@.len() as int)[i as int] != y@[i as int]);
            return false;
        }
        i = i + 1;
    }
    assert(x@.subrange(0, y@.len() as int) =~= y@);
    true
}

/// The names of `names` that start with `prefix`, in order, each with a
/// `$` before it.
pub open spec fn variable_matches(names: Seq<Seq<char>>, prefix: Seq<char>) -> Seq<Seq<char>>
    decreases names.len(),
{
    if names.len() == 0 {
        Seq::empty()
    } else if starts_with(names.last(), prefix) {
        variable_matches(names.drop_last(), prefix).push(seq!['$'] + names.last())
    } else {
        variable_matches(names.drop_last(), prefix)
    }
}

/// Completions for `$prefix` among the variable names `names`.
pub fn complete_variables(names: &Vec<String>, prefix: &str) -> (r: Vec<String>)
    ensures
        strings_view(r@) == variable_matches(strings_view(names@), prefix@),
{
    let mut r: Vec<String> = Vec::new();
    let mut i: usize = 0;
    while i < names.len()
        invariant
            i <= names@.len(),
            strings_view(r@) == variable_matches(strings_view(names@).subrange(0, i as int), prefix@),
        decreases names@.len() - i,
    {
        let ghost pre = strings_view(names@).subrange(0, i as int);
        assert(strings_view(names@).subrange(0, i + 1).drop_last() =~= pre);
        if has_prefix(names[i].as_str(), prefix) {
            let mut c = String::from_str("$");
            append_str(&mut c, names[i].as_str());
            let ghost before = strings_view(r@);
            r.push(c);
            proof {
                reveal_strlit("$");
                assert("$"@ =~= seq!['$']);
                assert(strings_view(r@) =~= before.push(seq!['$'] + names@[i as int]@));
            }
        }
        i = i + 1;
    }
    assert(strings_view(names@).subrange(0, names@.len() as int) =~= strings_view(names@));
    r
}

/// The names of `names` that start with `prefix`, each once, in the order
/// of their first occurrence.
pub open spec fn command_matches(names: Seq<Seq<char>>, prefix: Seq<char>) -> Seq<Seq<char>>
    decreases names.len(),
{
    if names.len() == 0 {
        Seq::empty()
    } else {
        let m = command_matches(names.drop_last(), prefix);
        if starts_with(names.last(), prefix) && !m.contains(names.last()) {
            m.push(names.last())
        } else {
            m
        }
    }
}

/// The program names of `names` that start with `prefix`, each once.
fn command_names(names: &Vec<String>, prefix: &str) -> (r: Vec<String>)
    ensures
        strings_view(r@) == command_matches(strings_view(names@), prefix@),
{
    let mut r: Vec<String> = Vec::new();
    let mut i: usize = 0;
    while i < names.len()
        invariant
            i <= names@.len(),
            strings_view(r@) == command_matches(strings_view(names@).subrange(0, i as int), prefix@),
        decreases names@.len() - i,
    {
        let ghost pre = strings_view(names@).subrange(0, i as int);
        assert(strings_view(names@).subrange(0, i + 1).drop_last() =~= pre);
        if has_prefix(names[i].as_str(), prefix) && !contains_text(&r, names[i].as_str()) {
            let ghost before = strings_view(r@);
            r.push(copy_string(&names[i]));
            assert(strings_view(r@) =~= before.push(names@[i as int]@));
        }
        i = i + 1;
    }
    assert(strings_view(names@).subrange(0, names@.len() as int) =~= strings_view(names@));
    r
}

/// Command completion offers each name once, and only names that start
/// with the word typed.
pub proof fn law_command_matches_unique(names: Seq<Seq<char>>, prefix: Seq<char>)
    ensures
        command_matches(names, prefix).no_duplicates(),
        forall|k: int|
            0 <= k < command_matches(names, prefix).len() ==> starts_with(
                #[trigger] command_matches(names, prefix)[k],
                prefix,
            ),
    decreases names.len(),
{
    if names.len() > 0 {
        law_command_matches_unique(names.drop_last(), prefix);
    }
}

/// Each word shown as itself and completing to itself.
pub open spec fn self_pairs(ws: Seq<Seq<char>>) -> Seq<(Seq<char>, Seq<char>)> {
    ws.map_values(|w: Seq<char>| (w, w))
}

/// Completions for a command among the program names `names` (found on
/// `$PATH`, in its order): those starting with `prefix`, each once, in the
/// order of their names.
pub fn complete_commands(names: &Vec<String>, prefix: &str) -> (r: Vec<Candidate>)
    ensures
        sorted_by_display(candidates_view(r@)),
        candidates_view(r@).to_multiset() == self_pairs(
            command_matches(strings_view(names@), prefix@),
        ).to_multiset(),
{
    let found = command_names(names, prefix);
    let mut cs: Vec<Candidate> = Vec::new();
    let mut i: usize = 0;
    while i < found.len()
        invariant
            i <= found@.len(),
            candidates_view(cs@) == self_pairs(strings_view(found@)).subrange(0, i as int),
        decreases found@.len() - i,
    {
        let ghost before = candidates_view(cs@);
        cs.push(Candidate { display: copy_string(&found[i]), replacement: copy_string(&found[i]) });
        proof {
            let sp = self_pairs(strings_view(found@));
            assert(strings_view(found@)[i as int] == found@[i as int]@);
            assert(sp[i as int] == (found@[i as int]@, found@[i as int]@));
            assert(sp.subrange(0, i + 1) =~= sp.subrange(0, i as int).push(sp[i as int]));
            assert(candidates_view(cs@) =~= before.push(sp[i as int]));
        }
        i = i + 1;
    }
    assert(self_pairs(strings_view(found@)).subrange(0, found@.len() as int) =~= self_pairs(
        strings_view(found@),
    ));
    sort_candidates(&cs)
}

/// The entries of the directory that `prefix` names whose names start with
/// its partial name, each with what it completes to.
pub open spec fn file_matches(prefix: Seq<char>, entries: Seq<(Seq<char>, bool)>) -> Seq<
    (Seq<char>, Seq<char>),
>
    decreases entries.len(),
{
    if entries.len() == 0 {
        Seq::empty()
    } else {
        let m = file_matches(prefix, entries.drop_last());
        let e = entries.last();
        if starts_with(e.0, path_parts(prefix).1) {
            m.push((e.0, file_replacement(path_parts(prefix).0, e.0, e.1)))
        } else {
            m
        }
    }
}

/// Directory entries (name, whether it is a directory) as values.
pub open spec fn entries_view(v: Seq<(String, bool)>) -> Seq<(Seq<char>, bool)> {
    v.map_values(|e: (String, bool)| (e.0@, e.1))
}

/// Completions for a file name: of `entries`, the entries of the directory
/// that `prefix` names (the current one where it names none), those whose
/// names start with the partial name after its last `/`, each shown by
/// its name and completing to the path typed with a `/` after a
/// directory, in the order of their names.
pub fn complete_files(prefix: &str, entries: &Vec<(String, bool)>) -> (r: Vec<Candidate>)
    ensures
        sorted_by_display(candidates_view(r@)),
        candidates_view(r@).to_multiset() == file_matches(prefix@, entries_view(entries@)).to_multiset(),
{
    let (dir, partial) = split_path(prefix);
    let ghost ev = entries_view(entries@);
    let mut cs: Vec<Candidate> = Vec::new();
    let mut i: usize = 0;
    while i < entries.len()
        invariant
            i <= entries@.len(),
            ev == entries_view(entries@),
            dir@ == path_parts(prefix@).0,
            partial@ == path_parts(prefix@).1,
            candidates_view(cs@) == file_matches(prefix@, ev.subrange(0, i as int)),
        decreases entries@.len() - i,
    {
        assert(ev.subrange(0, i + 1).drop_last() =~= ev.subrange(0, i as int));
        let name = &entries[i].0;
        if has_prefix(name.as_str(), partial.as_str()) {
            let ghost before = candidates_view(cs@);
            let replacement = file_candidate(dir.as_str(), name.as_str(), entries[i].1);
            cs.push(Candidate { display: copy_string(name), replacement });
            assert(candidates_view(cs@) =~= before.push(
                (name@, file_replacement(dir@, name@, entries@[i as int].1)),
            ));
        }
        i = i + 1;
    }
    assert(ev.subrange(0, entries@.len() as int) =~= ev);
    sort_candidates(&cs)
}

// ───────────────────────── order ─────────────────────────

/// A completion: what the list shows, and what replaces the word.
pub struct Candidate {
    pub display: String,
    pub replacement: String,
}

/// Candidates as values: (display, replacement).
pub open spec fn candidates_view(v: Seq<Candidate>) -> Seq<(Seq<char>, Seq<char>)> {
    v.map_values(|c: Candidate| (c.display@, c.replacement@))
}

/// Whether `a` comes no later than `b` when texts are ordered by the code
/// points of their characters, a prefix before its extensions.
pub open spec fn text_le(a: Seq<char>, b: Seq<char>) -> bool
    decreases a.len(),
{
    if a.len() == 0 {
        true
    } else if b.len() == 0 {
        false
    } else if (a[0] as u32) != (b[0] as u32) {
        (a[0] as u32) < (b[0] as u32)
    } else {
        text_le(a.drop_first(), b.drop_first())
    }
}

/// Whether the candidates are in the order of what they show.
pub open spec fn sorted_by_display(v: Seq<(Seq<char>, Seq<char>)>) -> bool {
    forall|i: int, j: int| #![trigger v[i], v[j]] 0 <= i < j < v.len() ==> text_le(v[i].0, v[j].0)
}

/// Of two texts, one comes no later than the other.
pub proof fn lemma_text_le_total(a: Seq<char>, b: Seq<char>)
    ensures
        text_le(a, b) || text_le(b, a),
    decreases a.len(),
{
    if a.len() > 0 && b.len() > 0 && (a[0] as u32) == (b[0] as u32) {
        lemma_text_le_total(a.drop_first(), b.drop_first());
    }
}

/// The order of texts is transitive.
pub proof fn lemma_text_le_transitive(a: Seq<char>, b: Seq<char>, c: Seq<char>)
    requires
        text_le(a, b),
        text_le(b, c),
    ensures
        text_le(a, c),
    decreases a.len(),
{
    if a.len() > 0 && b.len() > 0 && c.len() > 0 && (a[0] as u32) == (b[0] as u32) && (b[0] as u32)
        == (c[0] as u32) {
        lemma_text_le_transitive(a.drop_first(), b.drop_first(), c.drop_first());
    }
}

/// Whether `a` comes no later than `b`.
pub fn text_no_later(a: &str, b: &str) -> (r: bool)
    ensures
        r == text_le(a@, b@),
{
    let x = str_chars(a);
    let y = str_chars(b);
    let mut i: usize = 0;
    assert(x@.subrange(0, x@.len() as int) =~= x@);
    assert(y@.subrange(0, y@.len() as int) =~= y@);
    while i < x.len() && i < y.len() && (x[i] as u32) == (y[i] as u32)
        invariant
            i <= x@.len(),
            i <= y@.len(),
            x@ == a@,
            y@ == b@,
            text_le(x@.subrange(i as int, x@.len() as int), y@.subrange(i as int, y@.len() as int))
                == text_le(a@, b@),
        decreases x@.len() - i,
    {
        proof {
            let xs = x@.subrange(i as int, x@.len() as int);
            let ys = y@.subrange(i as int, y@.len() as int);
            assert(xs.drop_first() =~= x@.subrange(i + 1, x@.len() as int));
            assert(ys.drop_first() =~= y@.subrange(i + 1, y@.len() as int));
            assert(xs[0] == x@[i as int] && ys[0] == y@[i as int]);
        }
        i = i + 1;
    }
    if i == x.len() {
        true
    } else if i == y.len() {
        false
    } else {
        assert(x@.subrange(i as int, x@.len() as int)[0] == x@[i as int]);
        assert(y@.subrange(i as int, y@.len() as int)[0] == y@[i as int]);
        (x[i] as u32) < (y[i] as u32)
    }
}

/// `v` in the order of what its candidates show.
pub fn sort_candidates(v: &Vec<Candidate>) -> (r: Vec<Candidate>)
    ensures
        sorted_by_display(candidates_view(r@)),
        candidates_view(r@).to_multiset() == candidates_view(v@).to_multiset(),
{
    let ghost src = candidates_view(v@);
    let mut out: Vec<Candidate> = Vec::new();
    let mut i: usize = 0;
    assert(src.subrange(0, 0) =~= Seq::<(Seq<char>, Seq<char>)>::empty());
    assert(candidates_view(out@) =~= Seq::<(Seq<char>, Seq<char>)>::empty());
    while i < v.len()
        invariant
            i <= v@.len(),
            src == candidates_view(v@),
            sorted_by_display(candidates_view(out@)),
            candidates_view(out@).to_multiset() == src.subrange(0, i as int).to_multiset(),
        decreases v@.len() - i,
    {
        let c = Candidate {
            display: copy_string(&v[i].display),
            replacement: copy_string(&v[i].replacement),
        };
        let ghost cv = (c.display@, c.replacement@);
        let ghost ov = candidates_view(out@);
        let mut j: usize = out.len();
        while j > 0 && !text_no_later(out[j - 1].display.as_str(), c.display.as_str())
            invariant
                j <= out@.len(),
                ov == candidates_view(out@),
                cv == (c.display@, c.replacement@),
                forall|k: int| j <= k < ov.len() ==> !text_le(#[trigger] ov[k].0, cv.0),
            decreases j,
        {
            j = j - 1;
        }
        proof {
            let nv = ov.insert(j as int, cv);
            assert forall|p: int, q: int| #![trigger nv[p], nv[q]] 0 <= p < q < nv.len() implies text_le(
                nv[p].0,
                nv[q].0,
            ) by {
                if q < j {
                    assert(nv[p] == ov[p] && nv[q] == ov[q]);
                } else if p > j {
                    assert(nv[p] == ov[p - 1] && nv[q] == ov[q - 1]);
                } else if q == j {
                    assert(text_le(ov[j - 1].0, cv.0));
                    if p < j - 1 {
                        assert(text_le(ov[p].0, ov[j - 1].0));
                        lemma_text_le_transitive(ov[p].0, ov[j - 1].0, cv.0);
                    }
                } else if p == j {
                    assert(!text_le(ov[q - 1].0, cv.0));
                    lemma_text_le_total(ov[q - 1].0, cv.0);
                } else {
                    assert(nv[p] == ov[p] && nv[q] == ov[q - 1]);
                    assert(text_le(ov[p].0, ov[q - 1].0));
                }
            }
            assert(cv == src[i as int]);
            assert(src.subrange(0, i + 1) =~= src.subrange(0, i as int).push(cv));
            vstd::seq_lib::to_multiset_build(src.subrange(0, i as int), cv);
            assert(ov.len() == out@.len());
            vstd::seq_lib::to_multiset_insert(ov, j as int, cv);
        }
        out.insert(j, c);
        assert(candidates_view(out@) =~= ov.insert(j as int, cv));
        i = i + 1;
    }
    assert(src.subrange(0, v@.len() as int) =~= src);
    out
}

/// The directory part of `prefix` (up to and including its last `/`) and
/// the partial name after it.
pub open spec fn path_parts(prefix: Seq<char>) -> (Seq<char>, Seq<char>) {
    match crate::text::last_at(prefix, '/') {
        Some(i) => (prefix.subrange(0, i + 1), prefix.subrange(i + 1, prefix.len() as int)),
        None => (Seq::empty(), prefix),
    }
}

/// Splits `prefix` at its last `/` into the directory to search and the
/// partial name to complete.
pub fn split_path(prefix: &str) -> (r: (String, String))
    ensures
        r.0@ == path_parts(prefix@).0,
        r.1@ == path_parts(prefix@).1,
{
    let chars = str_chars(prefix);
    proof {
        crate::text::lemma_last_at(chars@, '/', chars@.len() as int);
    }
    let n = chars.len();
    match crate::text::rfind_char(&chars, '/') {
        Some(i) => {
            assert(i < n);
            (string_from_range(&chars, 0, i + 1), string_from_range(&chars, i + 1, n))
        },
        None => (String::new(), String::from_str(prefix)),
    }
}

/// `s` without its trailing `/` characters.
pub open spec fn trim_slashes(s: Seq<char>) -> Seq<char>
    decreases s.len(),
{
    if s.len() > 0 && s.last() == '/' {
        trim_slashes(s.drop_last())
    } else {
        s
    }
}

/// What a matching directory entry `name` completes to: the name, under
/// `dir` where one was typed, with a `/` after a directory.
pub open spec fn file_replacement(dir: Seq<char>, name: Seq<char>, is_dir: bool) -> Seq<char> {
    let base = if dir.len() == 0 {
        name
    } else {
        trim_slashes(dir) + seq!['/'] + name
    };
    if is_dir {
        base.push('/')
    } else {
        base
    }
}

/// What a matching directory entry `name` completes to.
pub fn file_candidate(dir: &str, name: &str, is_dir: bool) -> (r: String)
    ensures
        r@ == file_replacement(dir@, name@, is_dir),
{
    let mut r = if dir.is_empty() {
        String::from_str(name)
    } else {
        let d = str_chars(dir);
        let mut end = d.len();
        assert(d@.subrange(0, end as int) =~= d@);
        while end > 0 && d[end - 1] == '/'
            invariant
                end <= d@.len(),
                d@ == dir@,
                trim_slashes(d@.subrange(0, end as int)) == trim_slashes(dir@),
            decreases end,
        {
            assert(d@.subrange(0, end as int).drop_last() =~= d@.subrange(0, end - 1));
            end = end - 1;
        }
        let mut s = string_from_range(&d, 0, end);
        s.push('/');
        append_str(&mut s, name);
        s
    };
    if is_dir {
        r.push('/');
    }
    r
}

/// The word being completed holds no separator and starts the line or
/// follows one.
pub proof fn law_word_bounds(line: Seq<char>, pos: int)
    requires
        0 <= pos <= line.len(),
    ensures
        0 <= word_start(line, pos) <= pos,
        forall|j: int| word_start(line, pos) <= j < pos ==> !is_separator(#[trigger] line[j]),
        word_start(line, pos) > 0 ==> is_separator(line[word_start(line, pos) - 1]),
    decreases pos,
{
    if pos > 0 && !is_separator(line[pos - 1]) {
        law_word_bounds(line, pos - 1);
    }
}

} // verus!
