//! Turning framework self-listings into runnable test records.
//!
//! A classified executable reports its inventory in a structured
//! listing: suites of named cases with declared source locations for
//! the GoogleTest family, a flat list of named tests for the Catch2
//! family. This module synthesizes one [`Test`] per selected case: the
//! fully qualified name, the declared location, and the argument list
//! that selects exactly that case, with an optional name filter applied
//! to the synthesized name before any argument is built.

use crate::filter::{regex_match, NameFilter};
use crate::types::{clone_string_vec, Executable, ExecutableModel, Test, TestModel};
use vstd::prelude::*;

verus! {

/// Mathematical model of a [`GtestCase`].
pub struct GtestCaseModel {
    /// The case name, unqualified.
    pub name: Seq<char>,
    /// The declared source file.
    pub file: Seq<char>,
    /// The declared source line.
    pub line: u32,
}

/// One named case of a GoogleTest suite, with its declared location.
pub struct GtestCase {
    /// The case name, unqualified.
    pub name: String,
    /// The declared source file.
    pub file: String,
    /// The declared source line.
    pub line: u32,
}

impl View for GtestCase {
    type V = GtestCaseModel;

    open spec fn view(&self) -> GtestCaseModel {
        GtestCaseModel { name: self.name@, file: self.file@, line: self.line }
    }
}

impl DeepView for GtestCase {
    type V = GtestCaseModel;

    open spec fn deep_view(&self) -> GtestCaseModel {
        self@
    }
}

/// Mathematical model of a [`GtestSuite`].
pub struct GtestSuiteModel {
    /// The suite name.
    pub name: Seq<char>,
    /// The suite's cases, in listing order.
    pub cases: Seq<GtestCaseModel>,
}

/// One named suite of a GoogleTest listing.
pub struct GtestSuite {
    /// The suite name.
    pub name: String,
    /// The suite's cases, in listing order.
    pub cases: Vec<GtestCase>,
}

impl View for GtestSuite {
    type V = GtestSuiteModel;

    open spec fn view(&self) -> GtestSuiteModel {
        GtestSuiteModel { name: self.name@, cases: self.cases.deep_view() }
    }
}

impl DeepView for GtestSuite {
    type V = GtestSuiteModel;

    open spec fn deep_view(&self) -> GtestSuiteModel {
        self@
    }
}

/// A GoogleTest self-listing: the suites a binary reported.
pub struct GtestListing {
    /// The suites, in listing order.
    pub suites: Vec<GtestSuite>,
}

/// Mathematical model of a [`Catch2Case`].
pub struct Catch2CaseModel {
    /// The test name.
    pub name: Seq<char>,
    /// The declared source file.
    pub file: Seq<char>,
    /// The declared source line.
    pub line: u32,
}

/// One named test of a Catch2 listing, with its declared location.
pub struct Catch2Case {
    /// The test name.
    pub name: String,
    /// The declared source file.
    pub file: String,
    /// The declared source line.
    pub line: u32,
}

impl View for Catch2Case {
    type V = Catch2CaseModel;

    open spec fn view(&self) -> Catch2CaseModel {
        Catch2CaseModel { name: self.name@, file: self.file@, line: self.line }
    }
}

impl DeepView for Catch2Case {
    type V = Catch2CaseModel;

    open spec fn deep_view(&self) -> Catch2CaseModel {
        self@
    }
}

/// A Catch2 self-listing: the tests a binary reported.
pub struct Catch2Listing {
    /// The tests, in listing order.
    pub tests: Vec<Catch2Case>,
}

/// Whether `prefix` opens `s`.
pub open spec fn seq_starts_with<A>(s: Seq<A>, prefix: Seq<A>) -> bool {
    s.len() >= prefix.len() && s.subrange(0, prefix.len() as int) == prefix
}

/// Whether `prefix` opens `s`, compared character by character.
pub fn str_starts_with(s: &str, prefix: &str) -> (r: bool)
    ensures
        r == seq_starts_with(s@, prefix@),
{
    let pn = prefix.unicode_len();
    let sn = s.unicode_len();
    if sn < pn {
        return false;
    }
    let mut i: usize = 0;
    while i < pn
        invariant
            pn == prefix@.len(),
            sn == s@.len(),
            pn <= sn,
            i <= pn,
            forall|k: int| 0 <= k < i ==> s@[k] == prefix@[k],
        decreases pn - i,
    {
        if s.get_char(i) != prefix.get_char(i) {
            proof {
                assert(!seq_starts_with(s@, prefix@)) by {
                    if s@.subrange(0, pn as int) == prefix@ {
                        assert(s@.subrange(0, pn as int)[i as int] == s@[i as int]);
                    }
                }
            }
            return false;
        }
        i = i + 1;
    }
    proof {
        assert(s@.subrange(0, pn as int) =~= prefix@);
    }
    true
}

/// The pattern a filter argument carries, when one was given.
pub open spec fn pattern_of(filter: Option<&NameFilter>) -> Option<Seq<char>> {
    match filter {
        Some(f) => Some(f.spec_pattern()),
        None => None,
    }
}

/// Whether a name passes the optional filter: no filter keeps every
/// name; a pattern keeps the names it matches.
pub open spec fn name_selected(filter: Option<Seq<char>>, name: Seq<char>) -> bool {
    match filter {
        Some(p) => regex_match(p, name),
        None => true,
    }
}

/// The fully qualified name of a GoogleTest case: `<suite>.<case>`.
pub open spec fn gtest_full_name(suite: Seq<char>, case_name: Seq<char>) -> Seq<char> {
    suite + "."@ + case_name
}

/// The caller's extra arguments without those that themselves specify
/// a GoogleTest filter, which would conflict with the one synthesized
/// per test.
pub open spec fn kept_extra_args(extra: Seq<Seq<char>>) -> Seq<Seq<char>>
    decreases extra.len(),
{
    if extra.len() == 0 {
        Seq::empty()
    } else {
        kept_extra_args(extra.drop_last()) + if seq_starts_with(
            extra.last(),
            "--gtest_filter="@,
        ) {
            Seq::empty()
        } else {
            seq![extra.last()]
        }
    }
}

/// The test record synthesized for one selected GoogleTest case.
pub open spec fn gtest_test_model(
    exec: ExecutableModel,
    suite: Seq<char>,
    case: GtestCaseModel,
    extra: Seq<Seq<char>>,
) -> TestModel {
    TestModel {
        name: gtest_full_name(suite, case.name),
        file: Some(case.file),
        line: Some(case.line),
        executable: exec,
        arguments: seq![
            "--gtest_filter="@ + gtest_full_name(suite, case.name),
            "--gtest_also_run_disabled_tests"@,
        ] + kept_extra_args(extra),
        index: None,
    }
}

/// The records of one suite's cases that pass the filter, in listing
/// order.
pub open spec fn suite_case_tests(
    exec: ExecutableModel,
    suite: Seq<char>,
    cases: Seq<GtestCaseModel>,
    extra: Seq<Seq<char>>,
    filter: Option<Seq<char>>,
) -> Seq<TestModel>
    decreases cases.len(),
{
    if cases.len() == 0 {
        Seq::empty()
    } else {
        suite_case_tests(exec, suite, cases.drop_last(), extra, filter) + if name_selected(
            filter,
            gtest_full_name(suite, cases.last().name),
        ) {
            seq![gtest_test_model(exec, suite, cases.last(), extra)]
        } else {
            Seq::empty()
        }
    }
}

/// The records a whole GoogleTest listing yields, suite by suite.
pub open spec fn gtest_listing_tests(
    exec: ExecutableModel,
    suites: Seq<GtestSuiteModel>,
    extra: Seq<Seq<char>>,
    filter: Option<Seq<char>>,
) -> Seq<TestModel>
    decreases suites.len(),
{
    if suites.len() == 0 {
        Seq::empty()
    } else {
        gtest_listing_tests(exec, suites.drop_last(), extra, filter) + suite_case_tests(
            exec,
            suites.last().name,
            suites.last().cases,
            extra,
            filter,
        )
    }
}

/// The single record synthesized when per-test enumeration is
/// suppressed: the executable itself, named by its path, carrying the
/// caller's extra arguments verbatim.
pub open spec fn executable_only_test(exec: ExecutableModel, extra: Seq<Seq<char>>) -> TestModel {
    TestModel {
        name: exec.path,
        file: None,
        line: None,
        executable: exec,
        arguments: extra,
        index: None,
    }
}

/// Synthesizes the runnable records of a GoogleTest listing: one per
/// case whose qualified name passes the filter, or exactly one for the
/// whole executable when per-test enumeration is suppressed.
pub fn get_tests_from_gtest_executable(
    executable: &Executable,
    listing: &GtestListing,
    executable_only: bool,
    extra_args: &Vec<String>,
    filter: Option<&NameFilter>,
) -> (r: Vec<Test>)
    ensures
        executable_only ==> r.deep_view() == seq![
            executable_only_test(executable@, extra_args.deep_view()),
        ],
        !executable_only ==> r.deep_view() == gtest_listing_tests(
            executable@,
            listing.suites.deep_view(),
            extra_args.deep_view(),
            pattern_of(filter),
        ),
{
    let mut out: Vec<Test> = Vec::new();
    if executable_only {
        out.push(
            Test {
                name: executable.path.clone(),
                file: None,
                line: None,
                executable: executable.clone(),
                arguments: clone_string_vec(extra_args),
                index: None,
            },
        );
        proof {
            assert(out.deep_view() =~= seq![
                executable_only_test(executable@, extra_args.deep_view()),
            ]);
        }
        return out;
    }
    let ghost exec_model = executable@;
    let ghost suites = listing.suites.deep_view();
    let ghost extra = extra_args.deep_view();
    let ghost pat = pattern_of(filter);
    let ns = listing.suites.len();
    let mut i: usize = 0;
    while i < ns
        invariant
            ns == listing.suites@.len(),
            suites == listing.suites.deep_view(),
            suites.len() == ns,
            exec_model == executable@,
            extra == extra_args.deep_view(),
            pat == pattern_of(filter),
            i <= ns,
            out.deep_view() == gtest_listing_tests(exec_model, suites.take(i as int), extra, pat),
        decreases ns - i,
    {
        let suite = &listing.suites[i];
        proof {
            assert(suite@ == suites[i as int]);
        }
        let ghost cases = suite.cases.deep_view();
        let ghost before_suite = out.deep_view();
        let nc = suite.cases.len();
        let mut j: usize = 0;
        while j < nc
            invariant
                nc == suite.cases@.len(),
                cases == suite.cases.deep_view(),
                cases.len() == nc,
                exec_model == executable@,
                extra == extra_args.deep_view(),
                pat == pattern_of(filter),
                j <= nc,
                out.deep_view() == before_suite + suite_case_tests(
                    exec_model,
                    suite.name@,
                    cases.take(j as int),
                    extra,
                    pat,
                ),
            decreases nc - j,
        {
            let case = &suite.cases[j];
            proof {
                assert(case@ == cases[j as int]);
                assert(cases.take(j + 1).drop_last() =~= cases.take(j as int));
                assert(cases.take(j + 1).last() == cases[j as int]);
            }
            let ghost before_case = out.deep_view();
            let mut full = suite.name.clone();
            full.append(".");
            full.append(case.name.as_str());
            let selected = match filter {
                Some(f) => f.is_match(full.as_str()),
                None => true,
            };
            if selected {
                let mut arguments: Vec<String> = Vec::new();
                let mut filter_arg = String::from_str("--gtest_filter=");
                filter_arg.append(full.as_str());
                arguments.push(filter_arg);
                arguments.push(String::from_str("--gtest_also_run_disabled_tests"));
                let ghost head = arguments.deep_view();
                let ne = extra_args.len();
                let mut k: usize = 0;
                while k < ne
                    invariant
                        ne == extra_args@.len(),
                        extra == extra_args.deep_view(),
                        extra.len() == ne,
                        k <= ne,
                        head.len() == 2,
                        arguments.deep_view() == head + kept_extra_args(extra.take(k as int)),
                    decreases ne - k,
                {
                    proof {
                        assert(extra_args@[k as int]@ == extra[k as int]);
                        assert(extra.take(k + 1).drop_last() =~= extra.take(k as int));
                        assert(extra.take(k + 1).last() == extra[k as int]);
                    }
                    let ghost before_arg = arguments.deep_view();
                    if !str_starts_with(extra_args[k].as_str(), "--gtest_filter=") {
                        arguments.push(extra_args[k].clone());
                        proof {
                            assert(arguments.deep_view() =~= before_arg + seq![extra[k as int]]);
                        }
                    }
                    proof {
                        assert(arguments.deep_view() =~= head + kept_extra_args(
                            extra.take(k + 1),
                        ));
                    }
                    k = k + 1;
                }
                proof {
                    assert(extra.take(ne as int) =~= extra);
                }
                let record = Test {
                    name: full,
                    file: Some(case.file.clone()),
                    line: Some(case.line),
                    executable: executable.clone(),
                    arguments,
                    index: None,
                };
                out.push(record);
                proof {
                    let spec_record = gtest_test_model(exec_model, suite.name@, cases[j as int], extra);
                    assert(out.deep_view().last().arguments =~= spec_record.arguments);
                    assert(out.deep_view().last() == spec_record);
                    assert(out.deep_view() =~= before_case + seq![spec_record]);
                }
            }
            j = j + 1;
        }
        proof {
            assert(cases.take(nc as int) =~= cases);
            assert(suites.take(i + 1).drop_last() =~= suites.take(i as int));
            assert(suites.take(i + 1).last() == suites[i as int]);
        }
        i = i + 1;
    }
    proof {
        assert(suites.take(ns as int) =~= suites);
    }
    out
}

/// The test record synthesized for one selected Catch2 test: the run
/// arguments name exactly that test.
pub open spec fn catch2_test_model(exec: ExecutableModel, case: Catch2CaseModel) -> TestModel {
    TestModel {
        name: case.name,
        file: Some(case.file),
        line: Some(case.line),
        executable: exec,
        arguments: seq![case.name],
        index: None,
    }
}

/// The records a Catch2 listing yields: one per test whose name passes
/// the filter, in listing order.
pub open spec fn catch2_listing_tests(
    exec: ExecutableModel,
    cases: Seq<Catch2CaseModel>,
    filter: Option<Seq<char>>,
) -> Seq<TestModel>
    decreases cases.len(),
{
    if cases.len() == 0 {
        Seq::empty()
    } else {
        catch2_listing_tests(exec, cases.drop_last(), filter) + if name_selected(
            filter,
            cases.last().name,
        ) {
            seq![catch2_test_model(exec, cases.last())]
        } else {
            Seq::empty()
        }
    }
}

/// Synthesizes the runnable records of a Catch2 listing: one per test
/// whose name passes the filter, or exactly one for the whole
/// executable when per-test enumeration is suppressed.
pub fn get_tests_from_catch2_executable(
    executable: &Executable,
    listing: &Catch2Listing,
    executable_only: bool,
    extra_args: &Vec<String>,
    filter: Option<&NameFilter>,
) -> (r: Vec<Test>)
    ensures
        executable_only ==> r.deep_view() == seq![
            executable_only_test(executable@, extra_args.deep_view()),
        ],
        !executable_only ==> r.deep_view() == catch2_listing_tests(
            executable@,
            listing.tests.deep_view(),
            pattern_of(filter),
        ),
{
    let mut out: Vec<Test> = Vec::new();
    if executable_only {
        out.push(
            Test {
                name: executable.path.clone(),
                file: None,
                line: None,
                executable: executable.clone(),
                arguments: clone_string_vec(extra_args),
                index: None,
            },
        );
        proof {
            assert(out.deep_view() =~= seq![
                executable_only_test(executable@, extra_args.deep_view()),
            ]);
        }
        return out;
    }
    let ghost exec_model = executable@;
    let ghost cases = listing.tests.deep_view();
    let ghost pat = pattern_of(filter);
    let n = listing.tests.len();
    let mut i: usize = 0;
    while i < n
        invariant
            n == listing.tests@.len(),
            cases == listing.tests.deep_view(),
            cases.len() == n,
            exec_model == executable@,
            pat == pattern_of(filter),
            i <= n,
            out.deep_view() == catch2_listing_tests(exec_model, cases.take(i as int), pat),
        decreases n - i,
    {
        let case = &listing.tests[i];
        proof {
            assert(case@ == cases[i as int]);
            assert(cases.take(i + 1).drop_last() =~= cases.take(i as int));
            assert(cases.take(i + 1).last() == cases[i as int]);
        }
        let ghost before = out.deep_view();
        let selected = match filter {
            Some(f) => f.is_match(case.name.as_str()),
            None => true,
        };
        if selected {
            let mut arguments: Vec<String> = Vec::new();
            arguments.push(case.name.clone());
            let record = Test {
                name: case.name.clone(),
                file: Some(case.file.clone()),
                line: Some(case.line),
                executable: executable.clone(),
                arguments,
                index: None,
            };
            out.push(record);
            proof {
                let spec_record = catch2_test_model(exec_model, cases[i as int]);
                assert(out.deep_view().last().arguments =~= spec_record.arguments);
                assert(out.deep_view().last() == spec_record);
                assert(out.deep_view() =~= before + seq![spec_record]);
            }
        }
        i = i + 1;
    }
    proof {
        assert(cases.take(n as int) =~= cases);
    }
    out
}

/// Whether a byte is ASCII whitespace, as trimming understands it.
pub open spec fn is_ws_byte(b: u8) -> bool {
    b == 0x09 || b == 0x0A || b == 0x0B || b == 0x0C || b == 0x0D || b == 0x20
}

/// `s` without its leading whitespace.
pub open spec fn trim_front(s: Seq<u8>) -> Seq<u8>
    decreases s.len(),
{
    if s.len() == 0 {
        s
    } else if is_ws_byte(s.first()) {
        trim_front(s.drop_first())
    } else {
        s
    }
}

/// `s` without its trailing whitespace.
pub open spec fn trim_back(s: Seq<u8>) -> Seq<u8>
    decreases s.len(),
{
    if s.len() == 0 {
        s
    } else if is_ws_byte(s.last()) {
        trim_back(s.drop_last())
    } else {
        s
    }
}

/// `s` without leading and trailing whitespace.
pub open spec fn trim_bytes(s: Seq<u8>) -> Seq<u8> {
    trim_back(trim_front(s))
}

/// Position of the first occurrence of byte `b` at or after `i`.
pub open spec fn first_byte_from(s: Seq<u8>, b: u8, i: int) -> Option<int>
    decreases s.len() - i,
{
    if i < 0 || i >= s.len() {
        None
    } else if s[i] == b {
        Some(i)
    } else {
        first_byte_from(s, b, i + 1)
    }
}

/// A scan that saw no `b` before `i` resolves to `i` when `b` stands
/// there, and to nothing when `i` passed the end.
proof fn lemma_byte_scan(s: Seq<u8>, b: u8, k: int, i: int)
    requires
        0 <= k <= i <= s.len(),
        forall|j: int| k <= j < i ==> s[j] != b,
        i < s.len() ==> s[i] == b,
    ensures
        first_byte_from(s, b, k) == if i < s.len() {
            Some(i)
        } else {
            None::<int>
        },
    decreases i - k,
{
    if k < i {
        lemma_byte_scan(s, b, k + 1, i);
    }
}

/// The bytes of the key `framework`.
pub open spec fn framework_key() -> Seq<u8> {
    seq![0x66u8, 0x72u8, 0x61u8, 0x6du8, 0x65u8, 0x77u8, 0x6fu8, 0x72u8, 0x6bu8]
}

/// Builds the `framework` key as a byte vector.
fn framework_key_bytes() -> (r: Vec<u8>)
    ensures
        r@ == framework_key(),
{
    let mut v: Vec<u8> = Vec::new();
    v.push(0x66);
    v.push(0x72);
    v.push(0x61);
    v.push(0x6d);
    v.push(0x65);
    v.push(0x77);
    v.push(0x6f);
    v.push(0x72);
    v.push(0x6b);
    proof {
        assert(v@ =~= framework_key());
    }
    v
}

/// Whether one output line reads `framework: Catch2` after trimming
/// the key before the first colon and the value after it.
pub open spec fn framework_line(line: Seq<u8>) -> bool {
    match first_byte_from(line, 0x3A, 0) {
        Some(j) => trim_bytes(line.subrange(0, j)) == framework_key() && trim_bytes(
            line.subrange(j + 1, line.len() as int),
        ) == crate::executable_finder::catch2_marker(),
        None => false,
    }
}

/// Whether the self-identification output starting at position `i`
/// holds a `framework: Catch2` line, lines being runs between newline
/// bytes.
pub open spec fn catch2_identified_from(out: Seq<u8>, i: int) -> bool
    decreases out.len() - i,
{
    if !(0 <= i < out.len()) {
        false
    } else {
        match first_byte_from(out, 0x0A, i) {
            Some(j) => if i <= j < out.len() {
                framework_line(out.subrange(i, j)) || catch2_identified_from(out, j + 1)
            } else {
                false
            },
            None => framework_line(out.subrange(i, out.len() as int)),
        }
    }
}

/// Whether a self-identification output names the Catch2 framework.
pub open spec fn catch2_identified(out: Seq<u8>) -> bool {
    catch2_identified_from(out, 0)
}

/// Finds the first occurrence of `b` at or after `start`.
fn scan_byte(data: &Vec<u8>, b: u8, start: usize) -> (r: Option<usize>)
    requires
        start <= data@.len(),
    ensures
        match r {
            Some(j) => start <= j < data@.len() && first_byte_from(data@, b, start as int)
                == Some(j as int),
            None => first_byte_from(data@, b, start as int) is None,
        },
{
    let n = data.len();
    let mut j: usize = start;
    while j < n
        invariant
            n == data@.len(),
            start <= j <= n,
            forall|k: int| start <= k < j ==> data@[k] != b,
        decreases n - j,
    {
        if data[j] == b {
            proof {
                lemma_byte_scan(data@, b, start as int, j as int);
            }
            return Some(j);
        }
        j = j + 1;
    }
    proof {
        lemma_byte_scan(data@, b, start as int, n as int);
    }
    None
}

/// Dropping leading whitespace stops at the first non-whitespace byte.
proof fn lemma_trim_front_range(s: Seq<u8>, f: int)
    requires
        0 <= f <= s.len(),
        forall|j: int| 0 <= j < f ==> is_ws_byte(s[j]),
        f < s.len() ==> !is_ws_byte(s[f]),
    ensures
        trim_front(s) =~= s.subrange(f, s.len() as int),
    decreases f,
{
    if f == 0 {
        assert(s.subrange(0, s.len() as int) =~= s);
    } else {
        assert(is_ws_byte(s.first()));
        lemma_trim_front_range(s.drop_first(), f - 1);
        assert(s.drop_first().subrange(f - 1, s.drop_first().len() as int) =~= s.subrange(
            f,
            s.len() as int,
        ));
    }
}

/// Dropping trailing whitespace stops at the last non-whitespace byte.
proof fn lemma_trim_back_range(s: Seq<u8>, e: int)
    requires
        0 <= e <= s.len(),
        forall|j: int| e <= j < s.len() ==> is_ws_byte(s[j]),
        e > 0 ==> !is_ws_byte(s[e - 1]),
    ensures
        trim_back(s) =~= s.subrange(0, e),
    decreases s.len(),
{
    if e == s.len() {
        assert(s.subrange(0, s.len() as int) =~= s);
    } else {
        assert(is_ws_byte(s.last()));
        lemma_trim_back_range(s.drop_last(), e);
        assert(s.drop_last().subrange(0, e) =~= s.subrange(0, e));
    }
}

/// Locates the whitespace-trimmed core of `line[lo..hi]`.
fn trim_range(line: &Vec<u8>, lo: usize, hi: usize) -> (r: (usize, usize))
    requires
        lo <= hi <= line@.len(),
    ensures
        lo <= r.0 <= r.1 <= hi,
        trim_bytes(line@.subrange(lo as int, hi as int)) =~= line@.subrange(
            r.0 as int,
            r.1 as int,
        ),
{
    let ghost sub = line@.subrange(lo as int, hi as int);
    let mut f: usize = lo;
    while f < hi && is_ws_exec(line[f])
        invariant
            lo <= f <= hi <= line@.len(),
            sub == line@.subrange(lo as int, hi as int),
            forall|j: int| lo <= j < f ==> is_ws_byte(line@[j]),
        decreases hi - f,
    {
        f = f + 1;
    }
    proof {
        lemma_trim_front_range(sub, f - lo);
        assert(sub.subrange(f - lo, sub.len() as int) =~= line@.subrange(f as int, hi as int));
    }
    let ghost fronted = line@.subrange(f as int, hi as int);
    let mut e: usize = hi;
    while e > f && is_ws_exec(line[e - 1])
        invariant
            lo <= f <= e <= hi <= line@.len(),
            fronted == line@.subrange(f as int, hi as int),
            forall|j: int| e <= j < hi ==> is_ws_byte(line@[j]),
        decreases e,
    {
        e = e - 1;
    }
    proof {
        lemma_trim_back_range(fronted, e - f);
        assert(fronted.subrange(0, e - f) =~= line@.subrange(f as int, e as int));
    }
    (f, e)
}

/// Whether a byte is ASCII whitespace.
fn is_ws_exec(b: u8) -> (r: bool)
    ensures
        r == is_ws_byte(b),
{
    b == 0x09 || b == 0x0A || b == 0x0B || b == 0x0C || b == 0x0D || b == 0x20
}

/// Compares `line[lo..hi]` with `expected`.
fn range_equals(line: &Vec<u8>, lo: usize, hi: usize, expected: &Vec<u8>) -> (r: bool)
    requires
        lo <= hi <= line@.len(),
    ensures
        r == (line@.subrange(lo as int, hi as int) == expected@),
{
    let en = expected.len();
    if hi - lo != en {
        proof {
            assert(line@.subrange(lo as int, hi as int).len() == hi - lo);
        }
        return false;
    }
    let mut i: usize = 0;
    while i < en
        invariant
            lo <= hi <= line@.len(),
            en == expected@.len(),
            hi - lo == en,
            i <= en,
            forall|k: int| 0 <= k < i ==> line@[lo + k] == expected@[k],
        decreases en - i,
    {
        if line[lo + i] != expected[i] {
            proof {
                assert(!(line@.subrange(lo as int, hi as int) == expected@)) by {
                    if line@.subrange(lo as int, hi as int) == expected@ {
                        assert(line@.subrange(lo as int, hi as int)[i as int] == line@[lo + i]);
                    }
                }
            }
            return false;
        }
        i = i + 1;
    }
    proof {
        assert(line@.subrange(lo as int, hi as int) =~= expected@);
    }
    true
}

/// Whether one line of self-identification output reads
/// `framework: Catch2`.
fn framework_line_exec(line: &Vec<u8>) -> (r: bool)
    ensures
        r == framework_line(line@),
{
    let key = framework_key_bytes();
    let value = crate::executable_finder::catch2_marker_bytes();
    let n = line.len();
    match scan_byte(line, 0x3A, 0) {
        Some(j) => {
            let (klo, khi) = trim_range(line, 0, j);
            if !range_equals(line, klo, khi, &key) {
                return false;
            }
            let (vlo, vhi) = trim_range(line, j + 1, n);
            range_equals(line, vlo, vhi, &value)
        },
        None => false,
    }
}

/// Whether a binary's self-identification output names the Catch2
/// framework: some `key: value` line whose trimmed key is `framework`
/// and whose trimmed value is `Catch2`. A binary that prints no such
/// line was optimistically classified and is treated as holding no
/// tests at all.
pub fn is_catch2_identify(output: &Vec<u8>) -> (r: bool)
    ensures
        r == catch2_identified(output@),
{
    let n = output.len();
    let mut lo: usize = 0;
    while lo < n
        invariant
            n == output@.len(),
            lo <= n,
            catch2_identified(output@) == catch2_identified_from(output@, lo as int),
        decreases n - lo,
    {
        match scan_byte(output, 0x0A, lo) {
            Some(j) => {
                let line = vstd::slice::slice_to_vec(
                    vstd::slice::slice_subrange(output.as_slice(), lo, j),
                );
                if framework_line_exec(&line) {
                    return true;
                }
                lo = j + 1;
            },
            None => {
                let line = vstd::slice::slice_to_vec(
                    vstd::slice::slice_subrange(output.as_slice(), lo, n),
                );
                return framework_line_exec(&line);
            },
        }
    }
    false
}

/// Position of the last `/` in a path, if any.
pub open spec fn last_slash(p: Seq<char>) -> Option<int>
    decreases p.len(),
{
    if p.len() == 0 {
        None
    } else if p.last() == '/' {
        Some(p.len() - 1)
    } else {
        last_slash(p.drop_last())
    }
}

/// A path with no `/` anywhere has no last slash.
proof fn lemma_last_slash_none(p: Seq<char>)
    requires
        forall|k: int| 0 <= k < p.len() ==> p[k] != '/',
    ensures
        last_slash(p) is None,
    decreases p.len(),
{
    if p.len() > 0 {
        lemma_last_slash_none(p.drop_last());
    }
}

/// A found last slash is in range, is a slash, and no slash follows.
proof fn lemma_last_slash_props(p: Seq<char>)
    requires
        last_slash(p) is Some,
    ensures
        ({
            let j = last_slash(p)->Some_0;
            0 <= j < p.len() && p[j] == '/' && forall|k: int| j < k < p.len() ==> p[k] != '/'
        }),
    decreases p.len(),
{
    if p.len() > 0 && p.last() != '/' {
        lemma_last_slash_props(p.drop_last());
        let j = last_slash(p)->Some_0;
        assert forall|k: int| j < k < p.len() implies p[k] != '/' by {
            if k < p.len() - 1 {
                assert(p.drop_last()[k] == p[k]);
            }
        }
    }
}

/// The last slash is the `/` after which no other follows.
proof fn lemma_last_slash_found(p: Seq<char>, j: int)
    requires
        0 <= j < p.len(),
        p[j] == '/',
        forall|k: int| j < k < p.len() ==> p[k] != '/',
    ensures
        last_slash(p) == Some(j),
    decreases p.len(),
{
    if j < p.len() - 1 {
        lemma_last_slash_found(p.drop_last(), j);
    }
}

/// The parent directory of a Unix-style path: everything before the
/// last `/` (the root when the slash opens the path), the empty path
/// for a bare name, nothing for the root or the empty path.
pub open spec fn parent_of(p: Seq<char>) -> Option<Seq<char>> {
    if p == seq!['/'] {
        None
    } else {
        match last_slash(p) {
            None => if p.len() == 0 {
                None
            } else {
                Some(Seq::empty())
            },
            Some(j) => if j == 0 {
                Some(p.subrange(0, 1))
            } else {
                Some(p.subrange(0, j))
            },
        }
    }
}

/// `rel` resolved against directory `base`: `rel` itself when it is
/// absolute or the base is empty, otherwise the two joined with one
/// separator.
pub open spec fn path_join(base: Seq<char>, rel: Seq<char>) -> Seq<char> {
    if rel.len() > 0 && rel[0] == '/' {
        rel
    } else if base.len() == 0 {
        rel
    } else if base.last() == '/' {
        base + rel
    } else {
        base + seq!['/'] + rel
    }
}

/// The candidate locations of a relative path, searching upward: the
/// path joined to the starting directory, then to each successive
/// parent, ending at the filesystem root.
pub open spec fn search_candidates(dir: Seq<char>, rel: Seq<char>) -> Seq<Seq<char>>
    decreases dir.len(),
{
    seq![path_join(dir, rel)] + match parent_of(dir) {
        None => Seq::empty(),
        Some(p) => if p.len() < dir.len() {
            search_candidates(p, rel)
        } else {
            Seq::empty()
        },
    }
}

/// A parent path is strictly shorter than the path it came from.
proof fn lemma_parent_shorter(p: Seq<char>)
    requires
        parent_of(p) is Some,
    ensures
        parent_of(p)->Some_0.len() < p.len(),
{
    if p != seq!['/'] {
        match last_slash(p) {
            None => {},
            Some(j) => {
                lemma_last_slash_props(p);
                if j == 0 && p.len() == 1 {
                    assert(p =~= seq!['/']);
                }
            },
        }
    }
}

/// A path opens with `/` exactly when it starts with the separator.
proof fn lemma_slash_prefix(s: Seq<char>)
    ensures
        seq_starts_with(s, "/"@) == (s.len() > 0 && s[0] == '/'),
{
    reveal_strlit("/");
    if s.len() > 0 && s[0] == '/' {
        assert(s.subrange(0, 1) =~= "/"@);
    }
    if seq_starts_with(s, "/"@) {
        assert(s.subrange(0, 1)[0] == s[0]);
    }
}

/// The ordered candidate locations of a declared source path: the path
/// itself when absolute, otherwise the path joined to the starting
/// directory and to each of its ancestors in turn. The first candidate
/// that exists on disk is the resolved source file.
pub open spec fn find_file_search(start: Seq<char>, rel: Seq<char>) -> Seq<Seq<char>> {
    if rel.len() > 0 && rel[0] == '/' {
        seq![rel]
    } else {
        search_candidates(start, rel)
    }
}

/// The parent directory of a Unix-style path string.
pub fn path_parent(p: &str) -> (r: Option<String>)
    ensures
        match r {
            Some(q) => parent_of(p@) == Some(q@),
            None => parent_of(p@) is None,
        },
{
    proof {
        reveal_strlit("/");
    }
    let n = p.unicode_len();
    if n == 1 && p.get_char(0) == '/' {
        proof {
            assert(p@ =~= seq!['/']);
        }
        return None;
    }
    proof {
        assert(p@ != seq!['/']);
    }
    let mut e: usize = n;
    while e > 0 && p.get_char(e - 1) != '/'
        invariant
            n == p@.len(),
            e <= n,
            forall|k: int| e <= k < n ==> p@[k] != '/',
        decreases e,
    {
        e = e - 1;
    }
    if e == 0 {
        proof {
            lemma_last_slash_none(p@);
        }
        if n == 0 {
            None
        } else {
            Some(String::new())
        }
    } else {
        let j = e - 1;
        proof {
            lemma_last_slash_found(p@, j as int);
        }
        if j == 0 {
            Some(p.substring_char(0, 1).to_owned())
        } else {
            Some(p.substring_char(0, j).to_owned())
        }
    }
}

/// Joins a directory and a relative path with one separator; an
/// absolute path or an empty base is used as given.
pub fn join_path(base: &str, rel: &str) -> (r: String)
    ensures
        r@ == path_join(base@, rel@),
{
    proof {
        reveal_strlit("/");
        lemma_slash_prefix(rel@);
        assert("/"@ =~= seq!['/']);
    }
    if str_starts_with(rel, "/") {
        return rel.to_owned();
    }
    let bn = base.unicode_len();
    if bn == 0 {
        return rel.to_owned();
    }
    let mut s = base.to_owned();
    if base.get_char(bn - 1) != '/' {
        s.append("/");
        proof {
            assert(s@ =~= base@ + seq!['/']);
        }
    }
    s.append(rel);
    proof {
        assert(s@ =~= path_join(base@, rel@));
    }
    s
}

/// The ordered candidate locations for resolving a declared source
/// path against an executable's directory and its ancestors. Checking
/// the candidates against the filesystem, in order, is the caller's
/// part; resolution failure is not fatal and simply leaves a test
/// without a source location.
pub fn find_file_candidates(search_start: &str, to_find: &str) -> (r: Vec<String>)
    ensures
        r.deep_view() == find_file_search(search_start@, to_find@),
{
    proof {
        reveal_strlit("/");
        lemma_slash_prefix(to_find@);
    }
    let mut out: Vec<String> = Vec::new();
    if str_starts_with(to_find, "/") {
        out.push(to_find.to_owned());
        proof {
            assert(out.deep_view() =~= seq![to_find@]);
        }
        return out;
    }
    let ghost start = search_start@;
    let ghost rel = to_find@;
    let mut cur: String = search_start.to_owned();
    proof {
        assert(out.deep_view() + search_candidates(start, rel) =~= search_candidates(start, rel));
    }
    loop
        invariant
            start == search_start@,
            rel == to_find@,
            !(rel.len() > 0 && rel[0] == '/'),
            find_file_search(start, rel) == out.deep_view() + search_candidates(cur@, rel),
        decreases cur@.len(),
    {
        let ghost before = out.deep_view();
        out.push(join_path(cur.as_str(), to_find));
        proof {
            assert(out.deep_view() =~= before + seq![path_join(cur@, rel)]);
        }
        match path_parent(cur.as_str()) {
            Some(parent) => {
                proof {
                    lemma_parent_shorter(cur@);
                    assert(search_candidates(cur@, rel) == seq![path_join(cur@, rel)]
                        + search_candidates(parent@, rel));
                    assert(out.deep_view() + search_candidates(parent@, rel)
                        =~= before + search_candidates(cur@, rel));
                }
                cur = parent;
            },
            None => {
                proof {
                    assert(search_candidates(cur@, rel) =~= seq![path_join(cur@, rel)]);
                    assert(out.deep_view() =~= before + search_candidates(cur@, rel));
                    assert(out.deep_view() =~= find_file_search(start, rel));
                }
                return out;
            },
        }
    }
}

/// Filtering only selects: the records of one suite enumerated with a
/// name filter are exactly the records of the unfiltered enumeration
/// whose synthesized name the pattern matches; the records themselves,
/// argument lists included, are unchanged.
proof fn lemma_gtest_suite_filter_selects(
    exec: ExecutableModel,
    suite: Seq<char>,
    cases: Seq<GtestCaseModel>,
    extra: Seq<Seq<char>>,
    p: Seq<char>,
)
    ensures
        suite_case_tests(exec, suite, cases, extra, Some(p)) == suite_case_tests(
            exec,
            suite,
            cases,
            extra,
            None,
        ).filter(|t: TestModel| regex_match(p, t.name)),
    decreases cases.len(),
{
    reveal(Seq::filter);
    broadcast use vstd::seq_lib::group_seq_lib_default;

    let pred = |t: TestModel| regex_match(p, t.name);
    if cases.len() == 0 {
    } else {
        lemma_gtest_suite_filter_selects(exec, suite, cases.drop_last(), extra, p);
        let m = gtest_test_model(exec, suite, cases.last(), extra);
        let unfiltered_rec = suite_case_tests(exec, suite, cases.drop_last(), extra, None);
        assert((unfiltered_rec + seq![m]).drop_last() =~= unfiltered_rec);
        assert((unfiltered_rec + seq![m]).last() == m);
        if pred(m) {
            assert((unfiltered_rec + seq![m]).filter(pred) =~= unfiltered_rec.filter(pred)
                + seq![m]);
        } else {
            assert((unfiltered_rec + seq![m]).filter(pred) =~= unfiltered_rec.filter(pred));
        }
        assert(suite_case_tests(exec, suite, cases, extra, Some(p)) =~= suite_case_tests(
            exec,
            suite,
            cases,
            extra,
            None,
        ).filter(pred));
    }
}

/// Filtering only selects, for a whole GoogleTest listing: enumeration
/// with a name filter yields exactly the subset of the unfiltered
/// records whose synthesized name the pattern matches, each record
/// byte-for-byte the one the unfiltered enumeration builds.
pub proof fn lemma_gtest_filter_selects(
    exec: ExecutableModel,
    suites: Seq<GtestSuiteModel>,
    extra: Seq<Seq<char>>,
    p: Seq<char>,
)
    ensures
        gtest_listing_tests(exec, suites, extra, Some(p)) == gtest_listing_tests(
            exec,
            suites,
            extra,
            None,
        ).filter(|t: TestModel| regex_match(p, t.name)),
    decreases suites.len(),
{
    reveal(Seq::filter);
    broadcast use vstd::seq_lib::group_seq_lib_default;

    let pred = |t: TestModel| regex_match(p, t.name);
    if suites.len() == 0 {
    } else {
        lemma_gtest_filter_selects(exec, suites.drop_last(), extra, p);
        lemma_gtest_suite_filter_selects(
            exec,
            suites.last().name,
            suites.last().cases,
            extra,
            p,
        );
        Seq::filter_distributes_over_add(
            gtest_listing_tests(exec, suites.drop_last(), extra, None),
            suite_case_tests(exec, suites.last().name, suites.last().cases, extra, None),
            pred,
        );
    }
}

/// Filtering only selects, for a Catch2 listing.
pub proof fn lemma_catch2_filter_selects(
    exec: ExecutableModel,
    cases: Seq<Catch2CaseModel>,
    p: Seq<char>,
)
    ensures
        catch2_listing_tests(exec, cases, Some(p)) == catch2_listing_tests(
            exec,
            cases,
            None,
        ).filter(|t: TestModel| regex_match(p, t.name)),
    decreases cases.len(),
{
    reveal(Seq::filter);
    broadcast use vstd::seq_lib::group_seq_lib_default;

    let pred = |t: TestModel| regex_match(p, t.name);
    if cases.len() == 0 {
    } else {
        lemma_catch2_filter_selects(exec, cases.drop_last(), p);
        let m = catch2_test_model(exec, cases.last());
        let unfiltered_rec = catch2_listing_tests(exec, cases.drop_last(), None);
        assert((unfiltered_rec + seq![m]).drop_last() =~= unfiltered_rec);
        assert((unfiltered_rec + seq![m]).last() == m);
        if pred(m) {
            assert((unfiltered_rec + seq![m]).filter(pred) =~= unfiltered_rec.filter(pred)
                + seq![m]);
        } else {
            assert((unfiltered_rec + seq![m]).filter(pred) =~= unfiltered_rec.filter(pred));
        }
        assert(catch2_listing_tests(exec, cases, Some(p)) =~= catch2_listing_tests(
            exec,
            cases,
            None,
        ).filter(pred));
    }
}

/// Enumeration is idempotent: two enumerations of the same GoogleTest
/// listing with the same filter yield the same records, and so the
/// same set of test names. Every input is a plain value and the result
/// is pinned by [`gtest_listing_tests`], so nothing a second run sees
/// can differ.
pub proof fn lemma_gtest_enumeration_idempotent(
    exec: ExecutableModel,
    suites: Seq<GtestSuiteModel>,
    extra: Seq<Seq<char>>,
    filter: Option<Seq<char>>,
    r1: Seq<TestModel>,
    r2: Seq<TestModel>,
)
    requires
        r1 == gtest_listing_tests(exec, suites, extra, filter),
        r2 == gtest_listing_tests(exec, suites, extra, filter),
    ensures
        r1 == r2,
        r1.map_values(|t: TestModel| t.name).to_set() == r2.map_values(
            |t: TestModel| t.name,
        ).to_set(),
{
}

/// Enumeration is idempotent for a Catch2 listing, in the same way.
pub proof fn lemma_catch2_enumeration_idempotent(
    exec: ExecutableModel,
    cases: Seq<Catch2CaseModel>,
    filter: Option<Seq<char>>,
    r1: Seq<TestModel>,
    r2: Seq<TestModel>,
)
    requires
        r1 == catch2_listing_tests(exec, cases, filter),
        r2 == catch2_listing_tests(exec, cases, filter),
    ensures
        r1 == r2,
        r1.map_values(|t: TestModel| t.name).to_set() == r2.map_values(
            |t: TestModel| t.name,
        ).to_set(),
{
}

/// A classified executable paired with the listing it reported.
pub struct ExecutableListing {
    /// The classified executable.
    pub executable: Executable,
    /// The suites the executable listed.
    pub listing: GtestListing,
}

/// The records a batch of GoogleTest executables yields: each
/// executable's listing enumerated in turn, unfiltered.
pub open spec fn all_gtest_tests(
    pairs: Seq<(ExecutableModel, Seq<GtestSuiteModel>)>,
    executables_only: bool,
    extra: Seq<Seq<char>>,
) -> Seq<TestModel>
    decreases pairs.len(),
{
    if pairs.len() == 0 {
        Seq::empty()
    } else {
        all_gtest_tests(pairs.drop_last(), executables_only, extra) + if executables_only {
            seq![executable_only_test(pairs.last().0, extra)]
        } else {
            gtest_listing_tests(pairs.last().0, pairs.last().1, extra, None)
        }
    }
}

/// The pair of models an [`ExecutableListing`] stands for.
pub open spec fn listing_pair(el: &ExecutableListing) -> (ExecutableModel, Seq<GtestSuiteModel>) {
    (el.executable@, el.listing.suites.deep_view())
}

/// Enumerates a whole batch of GoogleTest executables from their
/// listings, in order, without a name filter.
pub fn get_all_tests_from_executables(
    listings: &Vec<ExecutableListing>,
    executables_only: bool,
    extra_args: &Vec<String>,
) -> (r: Vec<Test>)
    ensures
        r.deep_view() == all_gtest_tests(
            Seq::new(listings@.len(), |i: int| listing_pair(&listings@[i])),
            executables_only,
            extra_args.deep_view(),
        ),
{
    let ghost pairs = Seq::new(listings@.len(), |i: int| listing_pair(&listings@[i]));
    let ghost extra = extra_args.deep_view();
    let mut out: Vec<Test> = Vec::new();
    let n = listings.len();
    let mut i: usize = 0;
    while i < n
        invariant
            n == listings@.len(),
            pairs == Seq::new(listings@.len(), |k: int| listing_pair(&listings@[k])),
            extra == extra_args.deep_view(),
            i <= n,
            out.deep_view() == all_gtest_tests(pairs.take(i as int), executables_only, extra),
        decreases n - i,
    {
        let entry = &listings[i];
        proof {
            assert(pairs.take(i + 1).drop_last() =~= pairs.take(i as int));
            assert(pairs.take(i + 1).last() == pairs[i as int]);
        }
        let ghost before = out.deep_view();
        let mut batch = get_tests_from_gtest_executable(
            &entry.executable,
            &entry.listing,
            executables_only,
            extra_args,
            None,
        );
        let ghost batch_model = batch.deep_view();
        let m = batch.len();
        let mut j: usize = 0;
        while j < m
            invariant
                m == batch_model.len(),
                j <= m,
                batch@.len() == m - j,
                forall|k: int| 0 <= k < m - j ==> batch@[k].deep_view() == batch_model[j + k],
                out.deep_view() == before + batch_model.take(j as int),
            decreases m - j,
        {
            let t = batch.remove(0);
            proof {
                assert(batch_model.take(j + 1).drop_last() =~= batch_model.take(j as int));
                assert(batch_model.take(j + 1).last() == batch_model[j as int]);
                assert(out.deep_view().push(t.deep_view()) =~= before + batch_model.take(j + 1));
            }
            out.push(t);
            j = j + 1;
        }
        proof {
            assert(batch_model.take(m as int) =~= batch_model);
            assert(out.deep_view() =~= all_gtest_tests(pairs.take(i + 1), executables_only, extra));
        }
        i = i + 1;
    }
    proof {
        assert(pairs.take(n as int) =~= pairs);
    }
    out
}

} // verus!
