//! `test` and `[`: evaluates a condition to an exit status, 0 for true, 1
//! for false and 2 for a syntax error. Conditions on files are handed back
//! as questions for the caller to ask the file system.

use vstd::prelude::*;

use crate::expansion::fields::strings_view;
use crate::text::{append_str, eq_str, parse_i64, parse_i64_spec};

verus! {

/// A question about a path.
#[derive(Debug, Clone, Copy, PartialEq, Eq, Structural)]
pub enum FileCheck {
    /// The path names a regular file.
    IsFile,
    /// The path names a directory.
    IsDir,
    /// The path names anything.
    Exists,
}

/// What a condition comes to.
#[derive(Debug)]
pub enum TestResult {
    /// The exit status.
    Status(i32),
    /// A syntax error: the message for standard error; the status is 2.
    Error(String),
    /// The answer to a question about a path, as a status.
    Check(FileCheck, String),
}

/// A condition's result as values.
pub enum TestView {
    Status(i32),
    Error(Seq<char>),
    Check(FileCheck, Seq<char>),
}

impl TestResult {
    pub open spec fn view(&self) -> TestView {
        match self {
            TestResult::Status(s) => TestView::Status(*s),
            TestResult::Error(m) => TestView::Error(m@),
            TestResult::Check(c, p) => TestView::Check(*c, p@),
        }
    }
}

/// The status for a truth value.
pub open spec fn status_of(b: bool) -> i32 {
    if b {
        0
    } else {
        1
    }
}

/// The status for a truth value: 0 for true, 1 for false.
pub fn bool_to_status(b: bool) -> (s: i32)
    ensures
        s == status_of(b),
{
    if b {
        0
    } else {
        1
    }
}

/// The integer an operand of a numeric comparison stands for: 0 where it
/// is no integer.
pub open spec fn numeric(s: Seq<char>) -> i64 {
    match parse_i64_spec(s) {
        Some(v) => v,
        None => 0,
    }
}

/// A unary condition `op x`.
pub open spec fn unary(op: Seq<char>, x: Seq<char>) -> TestView {
    if op == "-f"@ {
        TestView::Check(FileCheck::IsFile, x)
    } else if op == "-d"@ {
        TestView::Check(FileCheck::IsDir, x)
    } else if op == "-e"@ || op == "-r"@ || op == "-w"@ || op == "-x"@ {
        TestView::Check(FileCheck::Exists, x)
    } else if op == "-z"@ {
        TestView::Status(status_of(x.len() == 0))
    } else if op == "-n"@ {
        TestView::Status(status_of(x.len() != 0))
    } else {
        TestView::Error("test: unknown unary operator "@ + op)
    }
}

/// A binary condition `l op r`.
pub open spec fn binary(l: Seq<char>, op: Seq<char>, r: Seq<char>) -> TestView {
    if op == "="@ || op == "=="@ {
        TestView::Status(status_of(l == r))
    } else if op == "!="@ {
        TestView::Status(status_of(l != r))
    } else if op == "-eq"@ {
        TestView::Status(status_of(numeric(l) == numeric(r)))
    } else if op == "-ne"@ {
        TestView::Status(status_of(numeric(l) != numeric(r)))
    } else if op == "-lt"@ {
        TestView::Status(status_of(numeric(l) < numeric(r)))
    } else if op == "-le"@ {
        TestView::Status(status_of(numeric(l) <= numeric(r)))
    } else if op == "-gt"@ {
        TestView::Status(status_of(numeric(l) > numeric(r)))
    } else if op == "-ge"@ {
        TestView::Status(status_of(numeric(l) >= numeric(r)))
    } else {
        TestView::Error("test: unknown binary operator "@ + op)
    }
}

/// The condition given by the operands `a`: none is false; one is true
/// where it is not empty; two are a unary test; three are a binary test.
pub open spec fn condition(a: Seq<Seq<char>>) -> TestView {
    if a.len() == 0 {
        TestView::Status(1)
    } else if a.len() == 2 {
        unary(a[0], a[1])
    } else if a.len() == 3 {
        binary(a[0], a[1], a[2])
    } else if a.len() == 1 {
        TestView::Status(status_of(a[0].len() != 0))
    } else {
        TestView::Error("test: too many arguments or invalid syntax"@)
    }
}

/// What `test` with the words `args` comes to (the first being the
/// command's name). Written `[`, the command must end with `]`, which is
/// not an operand.
pub open spec fn test_result(args: Seq<Seq<char>>) -> TestView {
    if args[0] == "["@ {
        if args.last() != "]"@ {
            TestView::Error("[: missing ']'"@)
        } else {
            condition(args.subrange(1, args.len() - 1))
        }
    } else {
        condition(args.drop_first())
    }
}

/// A unary condition `op x`.
fn unary_test(op: &str, x: &str) -> (r: TestResult)
    ensures
        r.view() == unary(op@, x@),
{
    if eq_str(op, "-f") {
        TestResult::Check(FileCheck::IsFile, String::from_str(x))
    } else if eq_str(op, "-d") {
        TestResult::Check(FileCheck::IsDir, String::from_str(x))
    } else if eq_str(op, "-e") || eq_str(op, "-r") || eq_str(op, "-w") || eq_str(op, "-x") {
        TestResult::Check(FileCheck::Exists, String::from_str(x))
    } else if eq_str(op, "-z") {
        TestResult::Status(bool_to_status(x.is_empty()))
    } else if eq_str(op, "-n") {
        TestResult::Status(bool_to_status(!x.is_empty()))
    } else {
        let mut msg = String::from_str("test: unknown unary operator ");
        append_str(&mut msg, op);
        TestResult::Error(msg)
    }
}

/// The integer an operand of a numeric comparison stands for.
fn numeric_value(s: &str) -> (v: i64)
    ensures
        v == numeric(s@),
{
    match parse_i64(s) {
        Some(v) => v,
        None => 0,
    }
}

/// A binary condition `l op r`.
fn binary_test(l: &str, op: &str, r: &str) -> (t: TestResult)
    ensures
        t.view() == binary(l@, op@, r@),
{
    if eq_str(op, "=") || eq_str(op, "==") {
        TestResult::Status(bool_to_status(eq_str(l, r)))
    } else if eq_str(op, "!=") {
        TestResult::Status(bool_to_status(!eq_str(l, r)))
    } else if eq_str(op, "-eq") {
        TestResult::Status(bool_to_status(numeric_value(l) == numeric_value(r)))
    } else if eq_str(op, "-ne") {
        TestResult::Status(bool_to_status(numeric_value(l) != numeric_value(r)))
    } else if eq_str(op, "-lt") {
        TestResult::Status(bool_to_status(numeric_value(l) < numeric_value(r)))
    } else if eq_str(op, "-le") {
        TestResult::Status(bool_to_status(numeric_value(l) <= numeric_value(r)))
    } else if eq_str(op, "-gt") {
        TestResult::Status(bool_to_status(numeric_value(l) > numeric_value(r)))
    } else if eq_str(op, "-ge") {
        TestResult::Status(bool_to_status(numeric_value(l) >= numeric_value(r)))
    } else {
        let mut msg = String::from_str("test: unknown binary operator ");
        append_str(&mut msg, op);
        TestResult::Error(msg)
    }
}

/// Evaluates `test` or `[` with the words `args`, the first being the
/// command's name.
pub fn execute_test(args: &[String]) -> (r: TestResult)
    requires
        args@.len() >= 1,
    ensures
        r.view() == test_result(strings_view(args@)),
{
    let ghost a = strings_view(args@);
    let n = args.len();
    let is_bracket = eq_str(args[0].as_str(), "[");
    let lo: usize = 1;
    let mut hi: usize = n;
    if is_bracket {
        if !eq_str(args[n - 1].as_str(), "]") {
            return TestResult::Error(String::from_str("[: missing ']'"));
        }
        proof {
            reveal_strlit("[");
            reveal_strlit("]");
        }
        assert("["@[0] != "]"@[0]);
        assert(n >= 2);
        hi = n - 1;
    }
    let ghost ops = a.subrange(lo as int, hi as int);
    assert(is_bracket ==> a.subrange(1, a.len() - 1) == ops);
    assert(!is_bracket ==> a.drop_first() =~= ops);
    let count = hi - lo;
    if count == 0 {
        return TestResult::Status(1);
    }
    if count == 2 {
        return unary_test(args[lo].as_str(), args[lo + 1].as_str());
    }
    if count == 3 {
        return binary_test(args[lo].as_str(), args[lo + 1].as_str(), args[lo + 2].as_str());
    }
    if count == 1 {
        return TestResult::Status(bool_to_status(!args[lo].as_str().is_empty()));
    }
    TestResult::Error(String::from_str("test: too many arguments or invalid syntax"))
}

/// `test` gives 0 for true and 1 for false; every other outcome is a
/// syntax error (status 2) or a question about a path.
pub proof fn law_test_status(args: Seq<Seq<char>>)
    requires
        args.len() >= 1,
    ensures
        test_result(args) matches TestView::Status(s) ==> s == 0 || s == 1,
{
}

proof fn lemma_three_operands(l: Seq<char>, op: Seq<char>, r: Seq<char>)
    ensures
        test_result(seq!["test"@, l, op, r]) == binary(l, op, r),
        test_result(seq!["["@, l, op, r, "]"@]) == binary(l, op, r),
{
    reveal_strlit("test");
    reveal_strlit("[");
    reveal_strlit("]");
    assert("test"@.len() != "["@.len());
    assert(seq!["test"@, l, op, r].drop_first() =~= seq![l, op, r]);
    assert(seq!["["@, l, op, r, "]"@].subrange(1, 4) =~= seq![l, op, r]);
}

proof fn lemma_numeric_operators(l: Seq<char>, r: Seq<char>)
    ensures
        binary(l, "-eq"@, r) == TestView::Status(status_of(numeric(l) == numeric(r))),
        binary(l, "-ne"@, r) == TestView::Status(status_of(numeric(l) != numeric(r))),
        binary(l, "-lt"@, r) == TestView::Status(status_of(numeric(l) < numeric(r))),
        binary(l, "-le"@, r) == TestView::Status(status_of(numeric(l) <= numeric(r))),
        binary(l, "-gt"@, r) == TestView::Status(status_of(numeric(l) > numeric(r))),
        binary(l, "-ge"@, r) == TestView::Status(status_of(numeric(l) >= numeric(r))),
{
    reveal_strlit("-eq");
    reveal_strlit("-ne");
    reveal_strlit("-lt");
    reveal_strlit("-le");
    reveal_strlit("-gt");
    reveal_strlit("-ge");
    reveal_strlit("=");
    reveal_strlit("==");
    reveal_strlit("!=");
    assert("="@.len() == 1 && "=="@.len() == 2 && "!="@.len() == 2);
    assert("-eq"@.len() == 3 && "-ne"@.len() == 3 && "-lt"@.len() == 3);
    assert("-le"@.len() == 3 && "-gt"@.len() == 3 && "-ge"@.len() == 3);
    assert("-eq"@ != "="@ && "-eq"@ != "=="@ && "-eq"@ != "!="@);
    assert("-ne"@ != "="@ && "-ne"@ != "=="@ && "-ne"@ != "!="@);
    assert("-eq"@[1] != "-ne"@[1] || "-eq"@[2] != "-ne"@[2]);
    assert("-eq"@[1] != "-lt"@[1] || "-eq"@[2] != "-lt"@[2]);
    assert("-eq"@[1] != "-le"@[1] || "-eq"@[2] != "-le"@[2]);
    assert("-eq"@[1] != "-gt"@[1] || "-eq"@[2] != "-gt"@[2]);
    assert("-eq"@[1] != "-ge"@[1] || "-eq"@[2] != "-ge"@[2]);
    assert("-ne"@[1] != "-lt"@[1] || "-ne"@[2] != "-lt"@[2]);
    assert("-ne"@[1] != "-le"@[1] || "-ne"@[2] != "-le"@[2]);
    assert("-ne"@[1] != "-gt"@[1] || "-ne"@[2] != "-gt"@[2]);
    assert("-ne"@[1] != "-ge"@[1] || "-ne"@[2] != "-ge"@[2]);
    assert("-lt"@[1] != "-le"@[1] || "-lt"@[2] != "-le"@[2]);
    assert("-lt"@[1] != "-gt"@[1] || "-lt"@[2] != "-gt"@[2]);
    assert("-lt"@[1] != "-ge"@[1] || "-lt"@[2] != "-ge"@[2]);
    assert("-le"@[1] != "-gt"@[1] || "-le"@[2] != "-gt"@[2]);
    assert("-le"@[1] != "-ge"@[1] || "-le"@[2] != "-ge"@[2]);
    assert("-gt"@[1] != "-ge"@[1] || "-gt"@[2] != "-ge"@[2]);
}


/// The numeric comparisons of `test` and `[`: with the operands `l` and
/// `r` read as integers (0 where one is no integer), `-lt` holds (status 0)
/// exactly when l < r, `-le` when l <= r, `-gt` when l > r, `-ge` when
/// l >= r, `-eq` when l == r and `-ne` when l != r; otherwise the status is
/// 1. So `n -lt n` is false and `n -le n` true for every `n`.
pub proof fn law_numeric_comparisons(l: Seq<char>, r: Seq<char>)
    ensures
        test_result(seq!["test"@, l, "-eq"@, r]) == TestView::Status(if numeric(l) == numeric(r) {
            0
        } else {
            1
        }),
        test_result(seq!["test"@, l, "-ne"@, r]) == TestView::Status(if numeric(l) != numeric(r) {
            0
        } else {
            1
        }),
        test_result(seq!["test"@, l, "-lt"@, r]) == TestView::Status(if numeric(l) < numeric(r) {
            0
        } else {
            1
        }),
        test_result(seq!["test"@, l, "-le"@, r]) == TestView::Status(if numeric(l) <= numeric(r) {
            0
        } else {
            1
        }),
        test_result(seq!["test"@, l, "-gt"@, r]) == TestView::Status(if numeric(l) > numeric(r) {
            0
        } else {
            1
        }),
        test_result(seq!["test"@, l, "-ge"@, r]) == TestView::Status(if numeric(l) >= numeric(r) {
            0
        } else {
            1
        }),
        test_result(seq!["["@, l, "-eq"@, r, "]"@]) == TestView::Status(if numeric(l) == numeric(r) {
            0
        } else {
            1
        }),
        test_result(seq!["["@, l, "-ne"@, r, "]"@]) == TestView::Status(if numeric(l) != numeric(r) {
            0
        } else {
            1
        }),
        test_result(seq!["["@, l, "-lt"@, r, "]"@]) == TestView::Status(if numeric(l) < numeric(r) {
            0
        } else {
            1
        }),
        test_result(seq!["["@, l, "-le"@, r, "]"@]) == TestView::Status(if numeric(l) <= numeric(r) {
            0
        } else {
            1
        }),
        test_result(seq!["["@, l, "-gt"@, r, "]"@]) == TestView::Status(if numeric(l) > numeric(r) {
            0
        } else {
            1
        }),
        test_result(seq!["["@, l, "-ge"@, r, "]"@]) == TestView::Status(if numeric(l) >= numeric(r) {
            0
        } else {
            1
        }),
{
    lemma_three_operands(l, "-eq"@, r);
    lemma_three_operands(l, "-ne"@, r);
    lemma_three_operands(l, "-lt"@, r);
    lemma_three_operands(l, "-le"@, r);
    lemma_three_operands(l, "-gt"@, r);
    lemma_three_operands(l, "-ge"@, r);
    lemma_numeric_operators(l, r);
}

/// The string tests of `test`: `l = r` (also `==`) holds exactly when the
/// two texts are the same and `l != r` when they differ; `-z x` holds
/// exactly when `x` is empty and `-n x` when it is not; a lone operand
/// holds when it is not empty, and no operand at all is false. An operand
/// of a numeric comparison that is integer text stands for its value, any
/// other for 0.
pub proof fn law_string_tests(l: Seq<char>, r: Seq<char>, x: Seq<char>)
    ensures
        test_result(seq!["test"@, l, "="@, r]) == TestView::Status(if l == r { 0 } else { 1 }),
        test_result(seq!["test"@, l, "=="@, r]) == TestView::Status(if l == r { 0 } else { 1 }),
        test_result(seq!["test"@, l, "!="@, r]) == TestView::Status(if l != r { 0 } else { 1 }),
        test_result(seq!["test"@, "-z"@, x]) == TestView::Status(if x.len() == 0 { 0 } else { 1 }),
        test_result(seq!["test"@, "-n"@, x]) == TestView::Status(if x.len() != 0 { 0 } else { 1 }),
        test_result(seq!["test"@, x]) == TestView::Status(if x.len() != 0 { 0 } else { 1 }),
        test_result(seq!["test"@]) == TestView::Status(1),
        parse_i64_spec(l) matches Some(v) ==> numeric(l) == v,
        parse_i64_spec(l) is None ==> numeric(l) == 0,
{
    lemma_three_operands(l, "="@, r);
    lemma_three_operands(l, "=="@, r);
    lemma_three_operands(l, "!="@, r);
    reveal_strlit("test");
    reveal_strlit("[");
    reveal_strlit("=");
    reveal_strlit("==");
    reveal_strlit("!=");
    reveal_strlit("-z");
    reveal_strlit("-n");
    reveal_strlit("-f");
    reveal_strlit("-d");
    reveal_strlit("-e");
    reveal_strlit("-r");
    reveal_strlit("-w");
    reveal_strlit("-x");
    assert("test"@.len() != "["@.len());
    assert("=="@[0] != "!="@[0]);
    assert("-z"@[1] != "-f"@[1] && "-z"@[1] != "-d"@[1] && "-z"@[1] != "-e"@[1] && "-z"@[1] != "-r"@[1]
        && "-z"@[1] != "-w"@[1] && "-z"@[1] != "-x"@[1]);
    assert("-n"@[1] != "-f"@[1] && "-n"@[1] != "-d"@[1] && "-n"@[1] != "-e"@[1] && "-n"@[1] != "-r"@[1]
        && "-n"@[1] != "-w"@[1] && "-n"@[1] != "-x"@[1] && "-n"@[1] != "-z"@[1]);
    assert(seq!["test"@, "-z"@, x].drop_first() =~= seq!["-z"@, x]);
    assert(seq!["test"@, "-n"@, x].drop_first() =~= seq!["-n"@, x]);
    assert(seq!["test"@, x].drop_first() =~= seq![x]);
    assert(seq!["test"@].drop_first() =~= Seq::<Seq<char>>::empty());
}

} // verus!
