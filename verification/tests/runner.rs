use cpp_test_runner::test_runner::{
    progress_line, run_arguments, summarize, summary_line, usize_to_string, ProgressCounter,
};
use cpp_test_runner::types::{Executable, ExecutableType, Test};

fn sample_test(executable_type: ExecutableType) -> Test {
    Test {
        name: String::from("Alpha.Foo"),
        file: None,
        line: None,
        executable: Executable {
            path: String::from("/bin/t"),
            modified: 0,
            executable_type,
        },
        arguments: vec![String::from("--gtest_filter=Alpha.Foo")],
        index: None,
    }
}

#[test]
fn decimal_rendering_is_exact() {
    assert_eq!(usize_to_string(0), "0");
    assert_eq!(usize_to_string(7), "7");
    assert_eq!(usize_to_string(10), "10");
    assert_eq!(usize_to_string(1234), "1234");
    assert_eq!(usize_to_string(100500), "100500");
}

#[test]
fn five_tests_with_two_failures_summarize_as_three_and_two() {
    let outcomes = vec![true, false, true, true, false];
    let (passed, failed) = summarize(&outcomes);
    assert_eq!((passed, failed), (3, 2));
    assert_eq!(summary_line(passed, failed), "3 tests passed, 2 tests failed");
}

#[test]
fn summary_wording_is_singular_for_zero_and_one() {
    assert_eq!(summary_line(1, 0), "1 test passed, 0 test failed");
    assert_eq!(summary_line(0, 1), "0 test passed, 1 test failed");
    assert_eq!(summary_line(2, 2), "2 tests passed, 2 tests failed");
}

#[test]
fn print_sequence_numbers_run_from_one_without_gaps() {
    let mut counter = ProgressCounter::new();
    let mut ks: Vec<usize> = Vec::new();
    for _ in 0..5 {
        ks.push(counter.next());
    }
    assert_eq!(ks, vec![1, 2, 3, 4, 5]);
}

#[test]
fn progress_lines_pad_to_the_desired_width() {
    let line = progress_line(1, 5, &String::from("Alpha.Foo"), true);
    let first = "[1/5] Alpha.Foo ";
    let dots = ".".repeat(120 - first.len() - " PASSED".len());
    assert_eq!(line, format!("{first}{dots} PASSED"));
    assert_eq!(line.chars().count(), 120);
    let failed = progress_line(2, 5, &String::from("Alpha.Foo"), false);
    assert!(failed.ends_with(" FAILED"));
}

#[test]
fn long_names_get_no_padding() {
    let name = "x".repeat(150);
    let line = progress_line(1, 1, &String::from(name.as_str()), true);
    assert_eq!(line, format!("[1/1] {name}  PASSED"));
}

#[test]
fn color_flags_follow_framework_and_choice() {
    let g = sample_test(ExecutableType::Gtest);
    let c = sample_test(ExecutableType::Catch2);
    assert_eq!(
        run_arguments(&g, true).last().map(String::as_str),
        Some("--gtest_color=yes")
    );
    assert_eq!(
        run_arguments(&g, false).last().map(String::as_str),
        Some("--gtest_color=no")
    );
    assert_eq!(
        run_arguments(&c, true).last().map(String::as_str),
        Some("--colour-mode=ansi")
    );
    assert_eq!(
        run_arguments(&c, false).last().map(String::as_str),
        Some("--colour-mode=none")
    );
    let args = run_arguments(&g, true);
    assert_eq!(args[0], "--gtest_filter=Alpha.Foo");
    assert_eq!(args.len(), 2);
}

#[test]
fn clone_with_index_changes_only_the_index() {
    let t = sample_test(ExecutableType::Gtest);
    let c = t.clone_with_index(3);
    assert_eq!(c.index, Some(3));
    assert_eq!(c.name, t.name);
    assert_eq!(c.arguments, t.arguments);
    assert_eq!(c.executable.path, t.executable.path);
}
