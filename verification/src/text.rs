//! Character and string helpers shared by the lexers, parsers and expanders:
//! conversion between `&str`/`String` and `Vec<char>`, the character classes
//! the shell distinguishes, and decimal integer formatting and parsing.

use vstd::prelude::*;

verus! {

/// `String::push` appends one character.
pub assume_specification[ String::push ](s: &mut String, ch: char)
    ensures
        final(s)@ == old(s)@.push(ch),
;

/// The characters of `s`, in order.
pub fn str_chars(s: &str) -> (v: Vec<char>)
    ensures
        v@ == s@,
{
    let n = s.unicode_len();
    let mut v: Vec<char> = Vec::new();
    let mut i: usize = 0;
    while i < n
        invariant
            n == s@.len(),
            i <= n,
            v@ == s@.subrange(0, i as int),
        decreases n - i,
    {
        let c = s.get_char(i);
        v.push(c);
        i = i + 1;
        assert(v@ =~= s@.subrange(0, i as int));
    }
    assert(v@ =~= s@);
    v
}

/// A `String` holding `v[lo..hi]`.
pub fn string_from_range(v: &Vec<char>, lo: usize, hi: usize) -> (s: String)
    requires
        lo <= hi <= v@.len(),
    ensures
        s@ == v@.subrange(lo as int, hi as int),
{
    let mut s = String::new();
    let mut i = lo;
    while i < hi
        invariant
            lo <= i <= hi <= v@.len(),
            s@ == v@.subrange(lo as int, i as int),
        decreases hi - i,
    {
        s.push(v[i]);
        i = i + 1;
        assert(s@ =~= v@.subrange(lo as int, i as int));
    }
    s
}

/// `v[lo..hi]` as a vector of its own.
pub fn chars_range(v: &Vec<char>, lo: usize, hi: usize) -> (r: Vec<char>)
    requires
        lo <= hi <= v@.len(),
    ensures
        r@ == v@.subrange(lo as int, hi as int),
{
    let mut r: Vec<char> = Vec::new();
    let mut i = lo;
    while i < hi
        invariant
            lo <= i <= hi <= v@.len(),
            r@ == v@.subrange(lo as int, i as int),
        decreases hi - i,
    {
        r.push(v[i]);
        i = i + 1;
        assert(r@ =~= v@.subrange(lo as int, i as int));
    }
    r
}

/// The first position at or after `i` where `s` holds `c`.
pub open spec fn first_at(s: Seq<char>, c: char, i: int) -> Option<int>
    decreases s.len() - i,
{
    if i < 0 || i >= s.len() {
        None
    } else if s[i] == c {
        Some(i)
    } else {
        first_at(s, c, i + 1)
    }
}

pub proof fn lemma_first_at(s: Seq<char>, c: char, i: int)
    requires
        0 <= i,
    ensures
        first_at(s, c, i) matches Some(j) ==> i <= j < s.len() && s[j] == c && forall|k: int|
            i <= k < j ==> s[k] != c,
        first_at(s, c, i) is None ==> forall|k: int| i <= k < s.len() ==> s[k] != c,
        first_at(s, c, i) is Some ==> i <= first_at(s, c, i)->Some_0 < s.len(),
        first_at(s, c, i) is Some ==> s[first_at(s, c, i)->Some_0] == c,
    decreases s.len() - i,
{
    if i < s.len() && s[i] != c {
        lemma_first_at(s, c, i + 1);
    }
}

/// The first position at or after `from` where `v` holds `c`.
pub fn find_char(v: &Vec<char>, c: char, from: usize) -> (r: Option<usize>)
    ensures
        match first_at(v@, c, from as int) {
            Some(j) => r == Some(j as usize),
            None => r is None,
        },
{
    let mut i = from;
    while i < v.len()
        invariant
            from <= i,
            first_at(v@, c, i as int) == first_at(v@, c, from as int),
        decreases v@.len() - i,
    {
        if v[i] == c {
            return Some(i);
        }
        i = i + 1;
    }
    None
}

/// The last position before `n` where `s` holds `c`.
pub open spec fn last_before(s: Seq<char>, c: char, n: int) -> Option<int>
    decreases n,
{
    if n <= 0 || n > s.len() {
        None
    } else if s[n - 1] == c {
        Some(n - 1)
    } else {
        last_before(s, c, n - 1)
    }
}

/// The last position where `s` holds `c`.
pub open spec fn last_at(s: Seq<char>, c: char) -> Option<int> {
    last_before(s, c, s.len() as int)
}

pub proof fn lemma_last_at(s: Seq<char>, c: char, n: int)
    requires
        0 <= n <= s.len(),
    ensures
        last_before(s, c, n) matches Some(j) ==> 0 <= j < n && s[j] == c,
    decreases n,
{
    if n > 0 && s[n - 1] != c {
        lemma_last_at(s, c, n - 1);
    }
}

/// The last position where `v` holds `c`.
pub fn rfind_char(v: &Vec<char>, c: char) -> (r: Option<usize>)
    ensures
        match last_at(v@, c) {
            Some(j) => r == Some(j as usize),
            None => r is None,
        },
{
    let mut n = v.len();
    while n > 0
        invariant
            n <= v@.len(),
            last_before(v@, c, n as int) == last_at(v@, c),
        decreases n,
    {
        if v[n - 1] == c {
            return Some(n - 1);
        }
        n = n - 1;
    }
    None
}

/// Whether `a` and `b` hold the same text.
pub fn eq_str(a: &str, b: &str) -> (r: bool)
    ensures
        r == (a@ == b@),
{
    let x = str_chars(a);
    let y = str_chars(b);
    if x.len() != y.len() {
        assert(x@.len() != y@.len());
        return false;
    }
    let mut i: usize = 0;
    while i < x.len()
        invariant
            x@ == a@,
            y@ == b@,
            x@.len() == y@.len(),
            i <= x@.len(),
            forall|j: int| 0 <= j < i ==> x@[j] == y@[j],
        decreases x@.len() - i,
    {
        if x[i] != y[i] {
            assert(x@[i as int] != y@[i as int]);
            return false;
        }
        i = i + 1;
    }
    assert(x@ =~= y@);
    true
}

/// A `String` holding all of `v`.
pub fn string_from_chars(v: &Vec<char>) -> (s: String)
    ensures
        s@ == v@,
{
    let s = string_from_range(v, 0, v.len());
    assert(v@.subrange(0, v@.len() as int) =~= v@);
    s
}

/// A copy of `s`.
pub fn copy_string(s: &String) -> (r: String)
    ensures
        r@ == s@,
{
    s.clone()
}

/// Appends the characters of `t` to `s`.
pub fn append_str(s: &mut String, t: &str)
    ensures
        final(s)@ == old(s)@ + t@,
{
    let cs = str_chars(t);
    append_chars(s, &cs);
}

/// Appends the characters of `v` to `s`.
pub fn append_chars(s: &mut String, v: &Vec<char>)
    ensures
        final(s)@ == old(s)@ + v@,
{
    let ghost s0 = s@;
    let mut i: usize = 0;
    while i < v.len()
        invariant
            i <= v@.len(),
            s@ == s0 + v@.subrange(0, i as int),
        decreases v@.len() - i,
    {
        s.push(v[i]);
        i = i + 1;
        assert(s@ =~= s0 + v@.subrange(0, i as int));
    }
    assert(v@.subrange(0, v@.len() as int) =~= v@);
}

/// Unicode `White_Space` property, as `char::is_whitespace` documents it.
pub open spec fn is_ws(c: char) -> bool {
    ||| ('\u{9}' <= c && c <= '\u{d}')
    ||| c == ' '
    ||| c == '\u{85}'
    ||| c == '\u{a0}'
    ||| c == '\u{1680}'
    ||| ('\u{2000}' <= c && c <= '\u{200a}')
    ||| c == '\u{2028}'
    ||| c == '\u{2029}'
    ||| c == '\u{202f}'
    ||| c == '\u{205f}'
    ||| c == '\u{3000}'
}

/// Whether `c` has the Unicode `White_Space` property.
pub fn is_whitespace(c: char) -> (b: bool)
    ensures
        b == is_ws(c),
{
    ('\u{9}' <= c && c <= '\u{d}') || c == ' ' || c == '\u{85}' || c == '\u{a0}' || c
        == '\u{1680}' || ('\u{2000}' <= c && c <= '\u{200a}') || c == '\u{2028}' || c
        == '\u{2029}' || c == '\u{202f}' || c == '\u{205f}' || c == '\u{3000}'
}

/// An ASCII decimal digit.
pub open spec fn is_digit(c: char) -> bool {
    '0' <= c && c <= '9'
}

/// An ASCII letter.
pub open spec fn is_ascii_letter(c: char) -> bool {
    ('a' <= c && c <= 'z') || ('A' <= c && c <= 'Z')
}

/// What `char::is_alphanumeric` returns for `c` (Unicode `Alphabetic` or `Numeric`).
pub uninterp spec fn char_alphanumeric(c: char) -> bool;

/// What `char::is_alphabetic` returns for `c` (Unicode `Alphabetic`).
pub uninterp spec fn char_alphabetic(c: char) -> bool;

/// `char::is_alphanumeric`. Its result is named; it holds of every
/// alphabetic character (the documentation defines it as `is_alphabetic()`
/// or `is_numeric()`), and on ASCII characters it is true exactly for
/// letters and digits, as the Unicode tables it reads give.
#[verifier::external_body]
pub(crate) fn is_alphanumeric(c: char) -> (b: bool)
    ensures
        b == char_alphanumeric(c),
        char_alphabetic(c) ==> b,
        c <= '\u{7f}' ==> (b <==> (is_ascii_letter(c) || is_digit(c))),
{
    c.is_alphanumeric()
}

/// `char::is_alphabetic`. Its result is named; an alphabetic character is
/// alphanumeric too (as `is_alphanumeric` is documented), and on ASCII
/// characters it is true exactly for letters, as the Unicode tables it reads
/// give.
#[verifier::external_body]
pub(crate) fn is_alphabetic(c: char) -> (b: bool)
    ensures
        b == char_alphabetic(c),
        b ==> char_alphanumeric(c),
        c <= '\u{7f}' ==> (b <==> is_ascii_letter(c)),
{
    c.is_alphabetic()
}

// ───────────────────────── decimal formatting ─────────────────────────

/// The ASCII digit for `d` (0..=9).
pub open spec fn digit_char(d: int) -> char {
    (d + 48) as char
}

/// The decimal digits of `n`, most significant first, without leading zeros.
pub open spec fn nat_digits(n: nat) -> Seq<char>
    decreases n,
{
    if n < 10 {
        seq![digit_char(n as int)]
    } else {
        nat_digits(n / 10).push(digit_char((n % 10) as int))
    }
}

/// `n` written in decimal the way `Display` writes an integer: a `-` for
/// negative values, then the digits of the magnitude.
pub open spec fn int_text(n: int) -> Seq<char> {
    if n < 0 {
        seq!['-'] + nat_digits((-n) as nat)
    } else {
        nat_digits(n as nat)
    }
}

fn push_digits(out: &mut String, n: u64)
    ensures
        final(out)@ == old(out)@ + nat_digits(n as nat),
    decreases n,
{
    if n < 10 {
        let d = n as u8;
        out.push((48u8 + d) as char);
        assert(old(out)@ + nat_digits(n as nat) =~= old(out)@.push(digit_char(n as int)));
    } else {
        push_digits(out, n / 10);
        let d = (n % 10) as u8;
        out.push((48u8 + d) as char);
        assert(nat_digits(n as nat) == nat_digits((n / 10) as nat).push(
            digit_char((n % 10) as int),
        ));
    }
}

/// `n.to_string()` for an `i64`.
pub fn i64_to_string(n: i64) -> (s: String)
    ensures
        s@ == int_text(n as int),
{
    let mut s = String::new();
    if n < 0 {
        s.push('-');
        let m: u64 = if n == i64::MIN {
            9223372036854775808u64
        } else {
            (-n) as u64
        };
        push_digits(&mut s, m);
    } else {
        push_digits(&mut s, n as u64);
    }
    s
}

/// `n.to_string()` for a `usize`.
pub fn usize_to_string(n: usize) -> (s: String)
    ensures
        s@ == int_text(n as int),
{
    let mut s = String::new();
    push_digits(&mut s, n as u64);
    s
}

/// `n.to_string()` for a `u64`.
pub fn u64_to_string(n: u64) -> (s: String)
    ensures
        s@ == int_text(n as int),
{
    let mut s = String::new();
    push_digits(&mut s, n);
    s
}

// ───────────────────────── decimal parsing ─────────────────────────

/// Every character of `s` is an ASCII digit.
pub open spec fn all_digits(s: Seq<char>) -> bool {
    forall|i: int| 0 <= i < s.len() ==> is_digit(#[trigger] s[i])
}

/// The value of a run of ASCII digits.
pub open spec fn digits_value(s: Seq<char>) -> nat
    decreases s.len(),
{
    if s.len() == 0 {
        0
    } else {
        (digits_value(s.drop_last()) * 10 + (s.last() as int - 48)) as nat
    }
}

/// The integer a decimal literal denotes, the syntax that Rust's `FromStr`
/// for integers reads: an optional sign (`-` only where `signed`), then at
/// least one ASCII digit. `None` where the text is no such literal.
pub open spec fn int_literal(s: Seq<char>, signed: bool) -> Option<int> {
    if s.len() > 0 && (s[0] == '+' || (signed && s[0] == '-')) {
        let r = s.drop_first();
        if r.len() > 0 && all_digits(r) {
            Some(
                if s[0] == '-' {
                    -(digits_value(r) as int)
                } else {
                    digits_value(r) as int
                },
            )
        } else {
            None
        }
    } else if s.len() > 0 && all_digits(s) {
        Some(digits_value(s) as int)
    } else {
        None
    }
}

/// `s.parse::<i64>().ok()`.
pub open spec fn parse_i64_spec(s: Seq<char>) -> Option<i64> {
    match int_literal(s, true) {
        Some(v) => if i64::MIN <= v && v <= i64::MAX {
            Some(v as i64)
        } else {
            None
        },
        None => None,
    }
}

/// `s.parse::<i32>().ok()`.
pub open spec fn parse_i32_spec(s: Seq<char>) -> Option<i32> {
    match int_literal(s, true) {
        Some(v) => if i32::MIN <= v && v <= i32::MAX {
            Some(v as i32)
        } else {
            None
        },
        None => None,
    }
}

/// `s.parse::<usize>().ok()`.
pub open spec fn parse_usize_spec(s: Seq<char>) -> Option<usize> {
    match int_literal(s, false) {
        Some(v) => if v <= usize::MAX {
            Some(v as usize)
        } else {
            None
        },
        None => None,
    }
}

/// `s.parse::<u64>().ok()`.
pub open spec fn parse_u64_spec(s: Seq<char>) -> Option<u64> {
    match int_literal(s, false) {
        Some(v) => if v <= u64::MAX {
            Some(v as u64)
        } else {
            None
        },
        None => None,
    }
}

proof fn lemma_digits_value_grows(s: Seq<char>, c: char)
    requires
        is_digit(c),
    ensures
        digits_value(s.push(c)) == digits_value(s) * 10 + (c as int - 48),
        digits_value(s.push(c)) >= digits_value(s),
{
    assert(s.push(c).drop_last() =~= s);
}

/// Reads the digits `v[lo..]` as a magnitude. `Err(())` where some character
/// is no digit (or there are none); `Ok(None)` where the magnitude is above
/// `max`; `Ok(Some(m))` otherwise.
fn read_magnitude(v: &Vec<char>, lo: usize, max: u64) -> (r: Result<Option<u64>, ()>)
    requires
        lo <= v@.len(),
    ensures
        ({
            let t = v@.subrange(lo as int, v@.len() as int);
            match r {
                Err(()) => !(t.len() > 0 && all_digits(t)),
                Ok(None) => t.len() > 0 && all_digits(t) && digits_value(t) > max,
                Ok(Some(m)) => t.len() > 0 && all_digits(t) && digits_value(t) <= max && m
                    == digits_value(t),
            }
        }),
{
    if lo == v.len() {
        return Err(());
    }
    let mut acc: u64 = 0;
    let mut big = false;
    let mut i = lo;
    while i < v.len()
        invariant
            lo <= i <= v@.len(),
            all_digits(v@.subrange(lo as int, i as int)),
            big <==> digits_value(v@.subrange(lo as int, i as int)) > max,
            !big ==> acc == digits_value(v@.subrange(lo as int, i as int)),
        decreases v@.len() - i,
    {
        let c = v[i];
        let ghost pre = v@.subrange(lo as int, i as int);
        if !('0' <= c && c <= '9') {
            assert(v@.subrange(lo as int, v@.len() as int)[i - lo] == c);
            return Err(());
        }
        proof {
            lemma_digits_value_grows(pre, c);
            assert(v@.subrange(lo as int, i + 1) =~= pre.push(c));
            assert forall|k: int| 0 <= k < pre.push(c).len() implies is_digit(
                #[trigger] pre.push(c)[k],
            ) by {
                if k < pre.len() {
                    assert(pre.push(c)[k] == pre[k]);
                }
            }
        }
        if !big {
            let d = (c as u32 - 48) as u64;
            if d > max || acc > (max - d) / 10 {
                proof {
                    lemma_overflow_step(acc as int, d as int, max as int);
                }
                big = true;
            } else {
                proof {
                    lemma_no_overflow_step(acc as int, d as int, max as int);
                }
                acc = acc * 10 + d;
            }
        }
        i = i + 1;
    }
    assert(v@.subrange(lo as int, v@.len() as int).len() > 0);
    if big {
        Ok(None)
    } else {
        Ok(Some(acc))
    }
}

proof fn lemma_overflow_step(acc: int, d: int, max: int)
    requires
        0 <= acc,
        0 <= d,
        0 <= max,
        d > max || acc > (max - d) / 10,
    ensures
        acc * 10 + d > max,
{
    if d <= max {
        assert(acc >= (max - d) / 10 + 1);
        assert((max - d) < ((max - d) / 10 + 1) * 10) by (nonlinear_arith)
            requires
                max - d >= 0,
        ;
        assert(acc * 10 >= ((max - d) / 10 + 1) * 10) by (nonlinear_arith)
            requires
                acc >= (max - d) / 10 + 1,
        ;
    }
}

proof fn lemma_no_overflow_step(acc: int, d: int, max: int)
    requires
        0 <= acc,
        0 <= d <= max,
        acc <= (max - d) / 10,
    ensures
        acc * 10 + d <= max,
{
    assert(acc * 10 <= ((max - d) / 10) * 10) by (nonlinear_arith)
        requires
            acc <= (max - d) / 10,
    ;
    assert(((max - d) / 10) * 10 <= max - d) by (nonlinear_arith)
        requires
            max - d >= 0,
    ;
}

/// `s.parse::<i64>().ok()`.
pub fn parse_i64(s: &str) -> (r: Option<i64>)
    ensures
        r == parse_i64_spec(s@),
{
    let v = str_chars(s);
    if v.len() > 0 && (v[0] == '+' || v[0] == '-') {
        let neg = v[0] == '-';
        let max: u64 = if neg {
            9223372036854775808u64
        } else {
            9223372036854775807u64
        };
        proof {
            assert(v@.subrange(1, v@.len() as int) =~= v@.drop_first());
        }
        match read_magnitude(&v, 1, max) {
            Err(()) => None,
            Ok(None) => None,
            Ok(Some(m)) => {
                if neg {
                    if m == 9223372036854775808u64 {
                        Some(i64::MIN)
                    } else {
                        Some(-(m as i64))
                    }
                } else {
                    Some(m as i64)
                }
            },
        }
    } else {
        proof {
            assert(v@.subrange(0, v@.len() as int) =~= v@);
        }
        match read_magnitude(&v, 0, 9223372036854775807u64) {
            Err(()) => None,
            Ok(None) => None,
            Ok(Some(m)) => Some(m as i64),
        }
    }
}

/// `s.parse::<i32>().ok()`.
pub fn parse_i32(s: &str) -> (r: Option<i32>)
    ensures
        r == parse_i32_spec(s@),
{
    match parse_i64(s) {
        Some(x) => {
            if -2147483648 <= x && x <= 2147483647 {
                Some(x as i32)
            } else {
                None
            }
        },
        None => None,
    }
}

fn parse_unsigned(s: &str, max: u64) -> (r: Option<u64>)
    ensures
        r == (match int_literal(s@, false) {
            Some(v) => if v <= max {
                Some(v as u64)
            } else {
                None::<u64>
            },
            None => None,
        }),
{
    let v = str_chars(s);
    let lo: usize = if v.len() > 0 && v[0] == '+' {
        1
    } else {
        0
    };
    proof {
        if lo == 1 {
            assert(v@.subrange(1, v@.len() as int) =~= v@.drop_first());
        } else {
            assert(v@.subrange(0, v@.len() as int) =~= v@);
        }
    }
    match read_magnitude(&v, lo, max) {
        Err(()) => None,
        Ok(None) => None,
        Ok(Some(m)) => Some(m),
    }
}

/// `s.parse::<u64>().ok()`.
pub fn parse_u64(s: &str) -> (r: Option<u64>)
    ensures
        r == parse_u64_spec(s@),
{
    parse_unsigned(s, u64::MAX)
}

/// `s.parse::<usize>().ok()`.
pub fn parse_usize(s: &str) -> (r: Option<usize>)
    ensures
        r == parse_usize_spec(s@),
{
    match parse_unsigned(s, usize::MAX as u64) {
        Some(m) => Some(m as usize),
        None => None,
    }
}

} // verus!
