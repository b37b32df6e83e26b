//! Aggregation and reporting of test run outcomes.
//!
//! Tests run as independent child processes, in any order; what this
//! module pins down is everything the engine computes: the per-test
//! argument list with its color flag, the strictly increasing print
//! sequence number, the padded progress line for each completion, and
//! the final pass/fail summary with its singular or plural wording.

use crate::types::{clone_string_vec, ExecutableType, Test};
use vstd::prelude::*;

verus! {

/// The decimal digit character of a value below ten.
pub open spec fn dec_digit(d: int) -> char {
    if d == 0 {
        '0'
    } else if d == 1 {
        '1'
    } else if d == 2 {
        '2'
    } else if d == 3 {
        '3'
    } else if d == 4 {
        '4'
    } else if d == 5 {
        '5'
    } else if d == 6 {
        '6'
    } else if d == 7 {
        '7'
    } else if d == 8 {
        '8'
    } else {
        '9'
    }
}

/// The decimal rendering of a natural number, most significant digit
/// first, without leading zeros.
pub open spec fn dec_chars(n: nat) -> Seq<char>
    decreases n,
{
    if n < 10 {
        seq![dec_digit(n as int)]
    } else {
        dec_chars(n / 10) + seq![dec_digit((n % 10) as int)]
    }
}

/// The one-character string of a decimal digit.
fn digit_str(d: usize) -> (r: &'static str)
    requires
        d < 10,
    ensures
        r@ == seq![dec_digit(d as int)],
{
    proof {
        reveal_strlit("0");
        reveal_strlit("1");
        reveal_strlit("2");
        reveal_strlit("3");
        reveal_strlit("4");
        reveal_strlit("5");
        reveal_strlit("6");
        reveal_strlit("7");
        reveal_strlit("8");
        reveal_strlit("9");
    }
    let r = if d == 0 {
        "0"
    } else if d == 1 {
        "1"
    } else if d == 2 {
        "2"
    } else if d == 3 {
        "3"
    } else if d == 4 {
        "4"
    } else if d == 5 {
        "5"
    } else if d == 6 {
        "6"
    } else if d == 7 {
        "7"
    } else if d == 8 {
        "8"
    } else {
        "9"
    };
    proof {
        assert(r@ =~= seq![dec_digit(d as int)]);
    }
    r
}

/// Renders a number in decimal.
pub fn usize_to_string(n: usize) -> (r: String)
    ensures
        r@ == dec_chars(n as nat),
    decreases n,
{
    if n < 10 {
        digit_str(n).to_owned()
    } else {
        let mut s = usize_to_string(n / 10);
        s.append(digit_str(n % 10));
        s
    }
}

/// The color flag appended to a test's arguments, chosen by framework
/// and by whether colored output was requested.
pub open spec fn color_arg(t: ExecutableType, use_color: bool) -> Seq<char> {
    match t {
        ExecutableType::Gtest => if use_color {
            "--gtest_color=yes"@
        } else {
            "--gtest_color=no"@
        },
        ExecutableType::Catch2 => if use_color {
            "--colour-mode=ansi"@
        } else {
            "--colour-mode=none"@
        },
    }
}

/// The full invocation for one test: its own selection arguments plus
/// the framework's color flag.
pub fn run_arguments(test: &Test, use_color: bool) -> (r: Vec<String>)
    ensures
        r.deep_view() == test@.arguments + seq![
            color_arg(test@.executable.executable_type, use_color),
        ],
{
    let mut args = clone_string_vec(&test.arguments);
    let flag = match (use_color, &test.executable.executable_type) {
        (true, ExecutableType::Gtest) => String::from_str("--gtest_color=yes"),
        (false, ExecutableType::Gtest) => String::from_str("--gtest_color=no"),
        (true, ExecutableType::Catch2) => String::from_str("--colour-mode=ansi"),
        (false, ExecutableType::Catch2) => String::from_str("--colour-mode=none"),
    };
    args.push(flag);
    proof {
        assert(args.deep_view() =~= test@.arguments + seq![
            color_arg(test@.executable.executable_type, use_color),
        ]);
    }
    args
}

/// How many outcomes report a pass.
pub open spec fn count_passed(outcomes: Seq<bool>) -> nat
    decreases outcomes.len(),
{
    if outcomes.len() == 0 {
        0nat
    } else {
        count_passed(outcomes.drop_last()) + if outcomes.last() {
            1nat
        } else {
            0nat
        }
    }
}

/// Counts passed and failed outcomes; every outcome is one or the
/// other, so the two counts partition the total.
pub fn summarize(outcomes: &Vec<bool>) -> (r: (usize, usize))
    ensures
        r.0 == count_passed(outcomes@),
        r.1 == outcomes@.len() - count_passed(outcomes@),
{
    let n = outcomes.len();
    let mut passed: usize = 0;
    let mut i: usize = 0;
    while i < n
        invariant
            n == outcomes@.len(),
            i <= n,
            passed == count_passed(outcomes@.take(i as int)),
            passed <= i,
        decreases n - i,
    {
        proof {
            assert(outcomes@.take(i + 1).drop_last() =~= outcomes@.take(i as int));
            assert(outcomes@.take(i + 1).last() == outcomes@[i as int]);
        }
        if outcomes[i] {
            passed = passed + 1;
        }
        i = i + 1;
    }
    proof {
        assert(outcomes@.take(n as int) =~= outcomes@);
    }
    (passed, n - passed)
}

/// The singular or plural noun for a count of tests. Counts of zero
/// and one both read singular.
pub open spec fn test_word(n: nat) -> Seq<char> {
    if n > 1 {
        "tests"@
    } else {
        "test"@
    }
}

/// The aggregate summary line: passed and failed counts with correct
/// singular or plural wording.
pub open spec fn summary_line_model(passed: nat, failed: nat) -> Seq<char> {
    dec_chars(passed) + " "@ + test_word(passed) + " passed, "@ + dec_chars(failed) + " "@
        + test_word(failed) + " failed"@
}

/// Renders the aggregate summary line.
pub fn summary_line(passed: usize, failed: usize) -> (r: String)
    ensures
        r@ == summary_line_model(passed as nat, failed as nat),
{
    let mut s = usize_to_string(passed);
    s.append(" ");
    if passed > 1 {
        s.append("tests");
    } else {
        s.append("test");
    }
    s.append(" passed, ");
    let tail = usize_to_string(failed);
    s.append(tail.as_str());
    s.append(" ");
    if failed > 1 {
        s.append("tests");
    } else {
        s.append("test");
    }
    s.append(" failed");
    proof {
        assert(s@ =~= summary_line_model(passed as nat, failed as nat));
    }
    s
}

/// The desired width of a progress line, padded with dots.
pub open spec fn desired_line_len() -> int {
    120
}

/// One progress line: `[k/total] name ` padded with dots up to the
/// desired width, then ` PASSED` or ` FAILED`. A line whose fixed parts
/// already exceed the width gets no padding.
pub open spec fn progress_line_model(k: nat, total: nat, name: Seq<char>, passed: bool) -> Seq<
    char,
> {
    let first = "["@ + dec_chars(k) + "/"@ + dec_chars(total) + "] "@ + name + " "@;
    let last = if passed {
        " PASSED"@
    } else {
        " FAILED"@
    };
    let fill = if first.len() + last.len() <= desired_line_len() {
        Seq::new((desired_line_len() - first.len() - last.len()) as nat, |i: int| '.')
    } else {
        Seq::empty()
    };
    first + fill + last
}

/// Renders the progress line for the `k`-th completion of `total`
/// tests.
pub fn progress_line(k: usize, total: usize, name: &String, passed: bool) -> (r: String)
    ensures
        r@ == progress_line_model(k as nat, total as nat, name@, passed),
{
    proof {
        reveal_strlit(" PASSED");
        reveal_strlit(" FAILED");
    }
    let mut s = String::from_str("[");
    let ks = usize_to_string(k);
    s.append(ks.as_str());
    s.append("/");
    let ts = usize_to_string(total);
    s.append(ts.as_str());
    s.append("] ");
    s.append(name.as_str());
    s.append(" ");
    let ghost first = s@;
    let first_len = s.as_str().unicode_len();
    let fill: usize = if first_len <= 113 {
        113 - first_len
    } else {
        0
    };
    let mut d: usize = 0;
    while d < fill
        invariant
            d <= fill,
            s@ == first + Seq::new(d as nat, |i: int| '.'),
        decreases fill - d,
    {
        s.append(".");
        proof {
            reveal_strlit(".");
            assert(first + Seq::new((d + 1) as nat, |i: int| '.') =~= (first + Seq::new(
                d as nat,
                |i: int| '.',
            )) + "."@);
        }
        d = d + 1;
    }
    if passed {
        s.append(" PASSED");
    } else {
        s.append(" FAILED");
    }
    proof {
        assert(s@ =~= progress_line_model(k as nat, total as nat, name@, passed));
    }
    s
}

/// The monotonically increasing print-sequence counter: each completed
/// test takes the next number, so the numbers `1..=total` each appear
/// exactly once across a run of `total` tests.
pub struct ProgressCounter {
    /// How many completions have taken a number so far.
    pub count: usize,
}

impl ProgressCounter {
    /// A fresh counter, before any completion.
    pub fn new() -> (r: ProgressCounter)
        ensures
            r.count == 0,
    {
        ProgressCounter { count: 0 }
    }

    /// Takes the next print-sequence number: one more than every number
    /// taken before, so the sequence of numbers is strictly increasing
    /// and gap-free.
    pub fn next(&mut self) -> (k: usize)
        requires
            old(self).count < usize::MAX,
        ensures
            final(self).count == old(self).count + 1,
            k == final(self).count,
    {
        self.count = self.count + 1;
        self.count
    }
}

} // verus!
