use cpp_test_runner::filter::NameFilter;
use cpp_test_runner::test_parser::{
    find_file_candidates, get_all_tests_from_executables, get_tests_from_catch2_executable,
    get_tests_from_gtest_executable, is_catch2_identify, join_path, path_parent, str_starts_with,
    Catch2Case, Catch2Listing, ExecutableListing, GtestCase, GtestListing, GtestSuite,
};
use cpp_test_runner::types::{Executable, ExecutableType};

fn gtest_exec() -> Executable {
    Executable {
        path: String::from("/build/bin/math_test"),
        modified: 42,
        executable_type: ExecutableType::Gtest,
    }
}

fn catch2_exec() -> Executable {
    Executable {
        path: String::from("/build/bin/str_test"),
        modified: 43,
        executable_type: ExecutableType::Catch2,
    }
}

fn two_by_two_listing() -> GtestListing {
    GtestListing {
        suites: vec![
            GtestSuite {
                name: String::from("Alpha"),
                cases: vec![
                    GtestCase { name: String::from("FooAdd"), file: String::from("src/alpha.cpp"), line: 10 },
                    GtestCase { name: String::from("Sub"), file: String::from("src/alpha.cpp"), line: 20 },
                ],
            },
            GtestSuite {
                name: String::from("Beta"),
                cases: vec![
                    GtestCase { name: String::from("Mul"), file: String::from("src/beta.cpp"), line: 5 },
                    GtestCase { name: String::from("FooDiv"), file: String::from("src/beta.cpp"), line: 15 },
                ],
            },
        ],
    }
}

#[test]
fn two_suites_of_two_cases_yield_four_tests() {
    let tests = get_tests_from_gtest_executable(&gtest_exec(), &two_by_two_listing(), false, &Vec::new(), None);
    assert_eq!(tests.len(), 4);
    let names: Vec<&str> = tests.iter().map(|t| t.name.as_str()).collect();
    assert_eq!(names, vec!["Alpha.FooAdd", "Alpha.Sub", "Beta.Mul", "Beta.FooDiv"]);
    assert_eq!(tests[0].file.as_deref(), Some("src/alpha.cpp"));
    assert_eq!(tests[0].line, Some(10));
    assert_eq!(tests[3].file.as_deref(), Some("src/beta.cpp"));
    assert_eq!(tests[3].line, Some(15));
    assert_eq!(
        tests[0].arguments,
        vec![String::from("--gtest_filter=Alpha.FooAdd"), String::from("--gtest_also_run_disabled_tests")]
    );
    assert_eq!(tests[0].executable.path, "/build/bin/math_test");
}

#[test]
fn enumerating_twice_yields_the_same_names() {
    let exec = gtest_exec();
    let listing = two_by_two_listing();
    let filter = NameFilter::new("Foo").unwrap();
    let first = get_tests_from_gtest_executable(&exec, &listing, false, &Vec::new(), Some(&filter));
    let second = get_tests_from_gtest_executable(&exec, &listing, false, &Vec::new(), Some(&filter));
    let mut a: Vec<String> = first.into_iter().map(|t| t.name).collect();
    let mut b: Vec<String> = second.into_iter().map(|t| t.name).collect();
    a.sort();
    b.sort();
    assert_eq!(a, b);
}

#[test]
fn name_filter_keeps_exactly_the_matching_cases() {
    let exec = gtest_exec();
    let listing = two_by_two_listing();
    let filter = NameFilter::new("Foo").unwrap();
    let unfiltered = get_tests_from_gtest_executable(&exec, &listing, false, &Vec::new(), None);
    let filtered = get_tests_from_gtest_executable(&exec, &listing, false, &Vec::new(), Some(&filter));
    let names: Vec<&str> = filtered.iter().map(|t| t.name.as_str()).collect();
    assert_eq!(names, vec!["Alpha.FooAdd", "Beta.FooDiv"]);
    // Argument lists are unaffected by filtering: each kept record
    // equals its unfiltered counterpart.
    assert_eq!(filtered[0].arguments, unfiltered[0].arguments);
    assert_eq!(filtered[1].arguments, unfiltered[3].arguments);
}

#[test]
fn extra_arguments_follow_but_filter_flags_are_dropped() {
    let extra = vec![String::from("--gtest_filter=Other.*"), String::from("--gtest_repeat=3")];
    let tests = get_tests_from_gtest_executable(&gtest_exec(), &two_by_two_listing(), false, &extra, None);
    assert_eq!(
        tests[0].arguments,
        vec![
            String::from("--gtest_filter=Alpha.FooAdd"),
            String::from("--gtest_also_run_disabled_tests"),
            String::from("--gtest_repeat=3"),
        ]
    );
}

#[test]
fn executables_only_yields_one_record_per_binary() {
    let extra = vec![String::from("--gtest_repeat=3")];
    let tests = get_tests_from_gtest_executable(&gtest_exec(), &two_by_two_listing(), true, &extra, None);
    assert_eq!(tests.len(), 1);
    assert_eq!(tests[0].name, "/build/bin/math_test");
    assert!(tests[0].file.is_none());
    assert!(tests[0].line.is_none());
    assert_eq!(tests[0].arguments, extra);
}

#[test]
fn catch2_listing_yields_one_record_per_test() {
    let listing = Catch2Listing {
        tests: vec![
            Catch2Case { name: String::from("vectors are resized"), file: String::from("test/vec.cpp"), line: 12 },
            Catch2Case { name: String::from("strings are joined"), file: String::from("test/str.cpp"), line: 30 },
        ],
    };
    let tests = get_tests_from_catch2_executable(&catch2_exec(), &listing, false, &Vec::new(), None);
    assert_eq!(tests.len(), 2);
    assert_eq!(tests[0].name, "vectors are resized");
    assert_eq!(tests[0].arguments, vec![String::from("vectors are resized")]);
    assert_eq!(tests[1].file.as_deref(), Some("test/str.cpp"));
    assert_eq!(tests[1].line, Some(30));
}

#[test]
fn catch2_filter_selects_matching_names() {
    let listing = Catch2Listing {
        tests: vec![
            Catch2Case { name: String::from("Foo grows"), file: String::from("a.cpp"), line: 1 },
            Catch2Case { name: String::from("bar shrinks"), file: String::from("b.cpp"), line: 2 },
        ],
    };
    let filter = NameFilter::new("Foo").unwrap();
    let tests = get_tests_from_catch2_executable(&catch2_exec(), &listing, false, &Vec::new(), Some(&filter));
    assert_eq!(tests.len(), 1);
    assert_eq!(tests[0].name, "Foo grows");
}

#[test]
fn libidentify_output_names_catch2() {
    let out = b"description: A Catch2 test executable\nframework: Catch2\nversion: 3.4.0\n".to_vec();
    assert!(is_catch2_identify(&out));
    let trimmed = b"  framework  :   Catch2  \r\n".to_vec();
    assert!(is_catch2_identify(&trimmed));
    let other = b"framework: doctest\n".to_vec();
    assert!(!is_catch2_identify(&other));
    let nokey = b"Catch2\n".to_vec();
    assert!(!is_catch2_identify(&nokey));
    assert!(!is_catch2_identify(&Vec::new()));
    let last_line_unterminated = b"framework: Catch2".to_vec();
    assert!(is_catch2_identify(&last_line_unterminated));
}

#[test]
fn candidates_walk_up_the_directory_tree() {
    let c = find_file_candidates("/build/bin", "src/alpha.cpp");
    assert_eq!(
        c,
        vec![
            String::from("/build/bin/src/alpha.cpp"),
            String::from("/build/src/alpha.cpp"),
            String::from("/src/alpha.cpp"),
        ]
    );
}

#[test]
fn absolute_paths_resolve_to_themselves() {
    let c = find_file_candidates("/build/bin", "/abs/alpha.cpp");
    assert_eq!(c, vec![String::from("/abs/alpha.cpp")]);
}

#[test]
fn parents_and_joins_follow_path_shape() {
    assert_eq!(path_parent("/a/b"), Some(String::from("/a")));
    assert_eq!(path_parent("/a"), Some(String::from("/")));
    assert_eq!(path_parent("/"), None);
    assert_eq!(path_parent("name"), Some(String::from("")));
    assert_eq!(path_parent(""), None);
    assert_eq!(join_path("/a", "b.cpp"), "/a/b.cpp");
    assert_eq!(join_path("/a/", "b.cpp"), "/a/b.cpp");
    assert_eq!(join_path("", "b.cpp"), "b.cpp");
    assert_eq!(join_path("/a", "/abs.cpp"), "/abs.cpp");
}

#[test]
fn prefix_test_matches_exact_prefixes() {
    assert!(str_starts_with("--gtest_filter=X", "--gtest_filter="));
    assert!(!str_starts_with("--gtest_filter", "--gtest_filter="));
    assert!(!str_starts_with("--gtest_repeat=3", "--gtest_filter="));
    assert!(str_starts_with("anything", ""));
}

#[test]
fn batches_enumerate_in_executable_order() {
    let other_exec = Executable {
        path: String::from("/build/bin/other_test"),
        modified: 44,
        executable_type: ExecutableType::Gtest,
    };
    let single = GtestListing {
        suites: vec![GtestSuite {
            name: String::from("Solo"),
            cases: vec![GtestCase { name: String::from("Only"), file: String::from("solo.cpp"), line: 1 }],
        }],
    };
    let batch = vec![
        ExecutableListing { executable: gtest_exec(), listing: two_by_two_listing() },
        ExecutableListing { executable: other_exec, listing: single },
    ];
    let tests = get_all_tests_from_executables(&batch, false, &Vec::new());
    let names: Vec<&str> = tests.iter().map(|t| t.name.as_str()).collect();
    assert_eq!(names, vec!["Alpha.FooAdd", "Alpha.Sub", "Beta.Mul", "Beta.FooDiv", "Solo.Only"]);
    assert_eq!(tests[4].executable.path, "/build/bin/other_test");
}
