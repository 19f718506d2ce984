use gdkit::process::{LogLine, OneshotResult};
use gdkit::testrun::{
    detect, dir_probes, file_probes, marks_summary, shape, PlanSource, ProjectFiles, TestStatus,
    SUMMARY_MAX_LEN,
};

fn project(dirs: &[&str], files: &[&str]) -> ProjectFiles {
    ProjectFiles {
        dirs: dirs.iter().map(|s| s.to_string()).collect(),
        files: files.iter().map(|s| s.to_string()).collect(),
    }
}

fn lines(raw: &[(&str, bool)]) -> OneshotResult {
    OneshotResult {
        exit_code: Some(0),
        timed_out: false,
        error_count: raw.iter().filter(|(_, error)| *error).count(),
        capture_complete: true,
        lines: raw
            .iter()
            .map(|(t, e)| LogLine { text: (*t).to_string(), is_error: *e })
            .collect(),
    }
}

#[test]
fn detects_nothing_in_an_empty_project() {
    assert_eq!(detect(&project(&[], &[])), None);
}

#[test]
fn a_test_dir_without_a_runner_is_not_enough() {
    assert_eq!(
        detect(&project(&["tests"], &[])),
        None,
        "a bare tests/ dir must not be claimed"
    );
}

#[test]
fn detects_a_script_harness() {
    let plan = detect(&project(&["tests"], &["tests/run_tests.gd"])).expect("harness detected");
    assert_eq!(plan.source, PlanSource::Detected("script harness"));
    assert!(plan.argv.contains(&"res://tests/run_tests.gd".to_string()));
    assert!(plan.argv.contains(&"--headless".to_string()));
}

#[test]
fn detects_gut_only_with_its_runner_present() {
    assert_eq!(
        detect(&project(&["addons/gut", "test"], &[])),
        None,
        "the addon dir alone must not be claimed"
    );

    let plan = detect(&project(&["addons/gut", "test"], &["addons/gut/gut_cmdln.gd"]))
        .expect("GUT detected");
    assert_eq!(plan.source, PlanSource::Detected("GUT"));
    assert!(plan.argv.iter().any(|a| a == "-gdir=res://test"));
    assert!(plan.argv.iter().any(|a| a == "-gexit"));
}

#[test]
fn gdunit_wins_over_a_script_harness() {
    let plan = detect(&project(
        &["addons/gdUnit4/bin", "tests"],
        &["addons/gdUnit4/bin/GdUnitCmdTool.gd", "tests/run_tests.gd"],
    ))
    .expect("gdUnit4 detected");
    assert_eq!(plan.source, PlanSource::Detected("gdUnit4"));
    assert!(plan
        .argv
        .iter()
        .any(|a| a == "res://addons/gdUnit4/bin/GdUnitCmdTool.gd"));
    assert!(plan.argv.iter().any(|a| a == "res://tests"));
}

#[test]
fn the_commands_are_exact() {
    let gut = detect(&project(&["test", "tests"], &["addons/gut/gut_cmdln.gd"])).unwrap();
    assert_eq!(
        gut.argv,
        [
            "{godot}",
            "--headless",
            "--path",
            "{project}",
            "-s",
            "res://addons/gut/gut_cmdln.gd",
            "-gdir=res://test",
            "-gexit",
        ]
    );
    let own = detect(&project(&[], &["tests/all_tests.gd", "test/tests.gd"])).unwrap();
    assert_eq!(own.argv[4..], ["--script", "res://test/tests.gd"]);
    // A framework without a test directory gives way to a harness of the project's own.
    let files = ["addons/gdUnit4/bin/GdUnitCmdTool.gd", "tests/tests.gd"];
    let own = detect(&project(&[], &files)).unwrap();
    assert_eq!(own.source, PlanSource::Detected("script harness"));
}

#[test]
fn only_probed_names_matter() {
    assert_eq!(dir_probes(), ["test", "tests"]);
    assert_eq!(file_probes().len(), 10);
    let a = detect(&project(&["tests", "art"], &["tests/run_tests.gd", "main.gd"]));
    let b = detect(&project(&["tests"], &["tests/run_tests.gd"]));
    assert_eq!(a, b);
}

#[test]
fn a_clean_run_passes() {
    let res = lines(&[("Tests run: 12, failures: 0", false)]);
    let out = shape(&res, 40);
    assert_eq!(out.status, TestStatus::Passed);
    assert!(!out.status.is_failure());
    assert_eq!(out.summary, vec!["Tests run: 12, failures: 0"]);
}

#[test]
fn a_non_zero_exit_fails() {
    let mut res = lines(&[("boom", false)]);
    res.exit_code = Some(1);
    let out = shape(&res, 40);
    assert_eq!(out.status, TestStatus::Failed);
    assert!(out.status.is_failure());
}

#[test]
fn a_timeout_is_its_own_status() {
    let mut res = lines(&[("hung", false)]);
    res.exit_code = None;
    res.timed_out = true;
    let out = shape(&res, 40);
    assert_eq!(out.status, TestStatus::TimedOut);
    assert!(out.status.is_failure());
}

#[test]
fn a_clean_exit_with_engine_errors_is_flagged_not_hidden() {
    let res = lines(&[("SCRIPT ERROR: nope", true), ("done", false)]);
    let out = shape(&res, 40);
    assert_eq!(out.status, TestStatus::PassedWithErrors);
    assert!(!out.status.is_failure(), "a clean exit is not a tool error");
}

#[test]
fn an_incomplete_capture_cannot_report_passing_tests() {
    let mut res = lines(&[("Tests run: 2, failures: 0", false)]);
    res.capture_complete = false;
    let outcome = shape(&res, 40);
    assert_eq!(outcome.status, TestStatus::Failed);
    assert!(outcome.status.is_failure());
    assert!(!res.ok());
}

#[test]
fn an_error_evicted_from_the_tail_still_affects_the_verdict() {
    let mut res = lines(&[("all done", false)]);
    res.error_count = 1;
    assert_eq!(shape(&res, 40).status, TestStatus::PassedWithErrors);
    assert!(!res.ok());
}

#[test]
fn errors_keep_their_stack_frames_and_drop_unrelated_lines() {
    let res = lines(&[
        ("noise", false),
        ("SCRIPT ERROR: Invalid call", true),
        ("   at: _ready (res://main.gd:12)", false),
        ("   at: run (res://tests/run_tests.gd:4)", false),
        ("unrelated output", false),
        ("   at: orphan frame with no error", false),
    ]);
    let out = shape(&res, 40);
    assert_eq!(out.errors.len(), 3, "error + its two frames: {:?}", out.errors);
    assert!(out.errors[0].contains("Invalid call"));
    assert!(out.errors[2].contains("run_tests.gd:4"));
}

#[test]
fn long_lines_are_not_mistaken_for_a_summary() {
    let long = format!("failed {}", "x".repeat(SUMMARY_MAX_LEN));
    let res = lines(&[(long.as_str(), false)]);
    assert!(shape(&res, 40).summary.is_empty());
}

#[test]
fn a_summary_is_recognised_in_any_case_and_up_to_the_limit() {
    let at_limit = format!("PASSED{}", "x".repeat(SUMMARY_MAX_LEN - 6));
    let wide = format!("TOTALS {}", "\u{e9}".repeat(100));
    let res = lines(&[
        ("7 PASSED", false),
        ("ORPHANS: 1", true),
        (at_limit.as_str(), false),
        (wide.as_str(), false),
        ("Overall", false),
    ]);
    assert_eq!(shape(&res, 1).summary, vec!["7 PASSED".to_string(), at_limit, wide]);
    assert!(marks_summary("12 test suites"));
    assert!(!marks_summary("12 TEST SUITES"));
}

#[test]
fn the_summary_limit_counts_characters() {
    let text = format!("failed {}", "\u{e9}".repeat(100));
    assert_eq!(text.len(), 207);
    assert_eq!(shape(&lines(&[(text.as_str(), false)]), 40).summary, vec![text.clone()]);
    let longer = format!("failed {}", "\u{e9}".repeat(SUMMARY_MAX_LEN - 6));
    assert!(shape(&lines(&[(longer.as_str(), false)]), 40).summary.is_empty());
}

#[test]
fn the_tail_is_what_was_asked_for() {
    let res = lines(&[("a", false), ("b", false), ("c", false)]);
    assert_eq!(shape(&res, 2).tail, vec!["b", "c"]);
    assert_eq!(shape(&res, 40).tail.len(), 3);
}

#[test]
fn render_names_the_command_and_its_source() {
    let res = lines(&[("Tests run: 3, failures: 0", false)]);
    let out = shape(&res, 40);
    let text = out.render(
        &PlanSource::Detected("script harness"),
        &["godot.exe".to_string(), "--headless".to_string()],
    );
    assert!(text.starts_with("PASSED"), "{text}");
    assert!(text.contains("detected: script harness"), "{text}");
    assert!(text.contains("godot.exe --headless"), "{text}");
}

#[test]
fn render_shows_the_evidence_there_is() {
    let mut res = lines(&[("ERROR: x", true), ("   at: f (res://a.gd:1)", false), ("1 failed", false)]);
    res.exit_code = Some(1);
    let text = shape(&res, 40).render(&PlanSource::Argument, &["t".to_string()]);
    assert_eq!(
        text,
        "FAILED (exit=Some(1))\nran [command argument]: t\nsummary:\n  1 failed\nerrors (2):\n  \
         ERROR: x\n     at: f (res://a.gd:1)\n"
    );
    let mut res = lines(&[("one", false), ("two", false)]);
    res.exit_code = None;
    res.timed_out = true;
    let text = shape(&res, 1).render(&PlanSource::Settings, &["t".to_string()]);
    assert_eq!(
        text,
        "TIMED OUT (exit=None)\nran [settings.test_command]: t\noutput tail:\n  two\n"
    );
    let many: Vec<String> = (0..9).map(|i| format!("{i} passed")).collect();
    let raw: Vec<(&str, bool)> = many.iter().map(|s| (s.as_str(), false)).collect();
    let text = shape(&lines(&raw), 1).render(&PlanSource::Settings, &["t".to_string()]);
    assert!(!text.contains("0 passed") && text.contains("1 passed"), "{text}");
}
