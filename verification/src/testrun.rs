//! Test-suite discovery and result shaping.
//!
//! Godot has no standard test runner, so the toolkit stays framework-agnostic: it runs a command and
//! reads its output. Detection is evidence-based: a framework is only claimed when the exact file
//! that would be invoked exists, so a wrong guess degrades to "no runner found".
//!
//! Result shaping is deliberately shallow. The outcome carries the process verdict, the error lines
//! with their GDScript stack frames, and any lines that read like a suite summary, verbatim.
use vstd::prelude::*;

use crate::process;
use crate::process::{LogLine, OneshotResult};
use crate::text;

verus! {

// ---- what runs ----------------------------------------------------------------------------------

/// Where a test command came from, reported so the caller can see what actually ran.
#[derive(Clone, Debug, PartialEq)]
pub enum PlanSource {
    /// Passed to the tool call.
    Argument,
    /// Read from persisted settings.
    Settings,
    /// Detected in the project; the string names the framework or convention.
    Detected(&'static str),
}

impl PlanSource {
    pub open spec fn words(self) -> Seq<char> {
        match self {
            PlanSource::Argument => "command argument"@,
            PlanSource::Settings => "settings.test_command"@,
            PlanSource::Detected(what) => "detected: "@ + what@,
        }
    }

    /// The source in words.
    pub fn text(&self) -> (r: String)
        ensures
            r@ == self.words(),
    {
        match self {
            PlanSource::Argument => "command argument".to_string(),
            PlanSource::Settings => "settings.test_command".to_string(),
            PlanSource::Detected(what) => {
                let mut out = "detected: ".to_string();
                out.append(what);
                out
            },
        }
    }
}

/// A test command template plus where it came from. `argv` still holds `{godot}`/`{project}`
/// placeholders.
#[derive(Clone, Debug, PartialEq)]
pub struct TestPlan {
    pub source: PlanSource,
    pub argv: Vec<String>,
}

/// gdUnit4's documented headless entry point.
pub const GDUNIT_RUNNER: &'static str = "addons/gdUnit4/bin/GdUnitCmdTool.gd";

/// GUT's command-line runner.
pub const GUT_RUNNER: &'static str = "addons/gut/gut_cmdln.gd";

/// Directories conventionally holding a Godot project's tests, most specific first.
pub open spec fn test_dir_names() -> Seq<Seq<char>> {
    seq!["test"@, "tests"@]
}

/// The scripts that a hand-rolled harness conventionally uses as its entry point, in the order in
/// which they are looked for.
pub open spec fn harness_names() -> Seq<Seq<char>> {
    seq![
        "test/run_tests.gd"@,
        "test/test_runner.gd"@,
        "test/tests.gd"@,
        "test/all_tests.gd"@,
        "tests/run_tests.gd"@,
        "tests/test_runner.gd"@,
        "tests/tests.gd"@,
        "tests/all_tests.gd"@,
    ]
}

/// The directories whose presence detection asks for, relative to the project.
pub fn dir_probes() -> (r: Vec<String>)
    ensures
        text::texts(r@) == test_dir_names(),
{
    let mut out: Vec<String> = Vec::new();
    out.push("test".to_string());
    out.push("tests".to_string());
    assert(text::texts(out@) =~= test_dir_names());
    out
}

fn harnesses() -> (r: Vec<String>)
    ensures
        text::texts(r@) == harness_names(),
{
    let mut out: Vec<String> = Vec::new();
    out.push("test/run_tests.gd".to_string());
    out.push("test/test_runner.gd".to_string());
    out.push("test/tests.gd".to_string());
    out.push("test/all_tests.gd".to_string());
    out.push("tests/run_tests.gd".to_string());
    out.push("tests/test_runner.gd".to_string());
    out.push("tests/tests.gd".to_string());
    out.push("tests/all_tests.gd".to_string());
    assert(text::texts(out@) =~= harness_names());
    out
}

/// The files whose presence detection asks for.
pub open spec fn runner_names() -> Seq<Seq<char>> {
    seq![GDUNIT_RUNNER@, GUT_RUNNER@] + harness_names()
}

/// The files whose presence detection asks for, relative to the project.
pub fn file_probes() -> (r: Vec<String>)
    ensures
        text::texts(r@) == runner_names(),
{
    let mut out: Vec<String> = Vec::new();
    out.push(GDUNIT_RUNNER.to_string());
    out.push(GUT_RUNNER.to_string());
    let mut rest = harnesses();
    let ghost tail = rest@;
    out.append(&mut rest);
    assert(text::texts(out@) =~= seq![GDUNIT_RUNNER@, GUT_RUNNER@] + text::texts(tail));
    out
}

/// The directories and files that a project holds, by their names relative to it.
pub struct ProjectFiles {
    pub dirs: Vec<String>,
    pub files: Vec<String>,
}

/// The first of `names` that is among `present`.
pub open spec fn first_present(names: Seq<Seq<char>>, present: Seq<Seq<char>>) -> Option<Seq<char>>
    decreases names.len(),
{
    if names.len() == 0 {
        None
    } else if text::lists(present, names[0]) {
        Some(names[0])
    } else {
        first_present(names.skip(1), present)
    }
}

fn find_present(names: &[String], present: &[String]) -> (r: Option<String>)
    ensures
        text::opt_text(r) == first_present(text::texts(names@), text::texts(present@)),
{
    let ghost all = text::texts(names@);
    assert(all.skip(0) == all);
    for i in 0..names.len()
        invariant
            all == text::texts(names@),
            first_present(all, text::texts(present@)) == first_present(
                all.skip(i as int),
                text::texts(present@),
            ),
    {
        assert(all.skip(i as int)[0] == names@[i as int]@);
        assert(all.skip(i as int).skip(1) == all.skip(i + 1));
        if text::listed(present, names[i].as_str()) {
            return Some(names[i].clone());
        }
    }
    None
}

/// The options that every detected command begins with.
pub open spec fn headless_words() -> Seq<Seq<char>> {
    seq!["{godot}"@, "--headless"@, "--path"@, "{project}"@]
}

impl ProjectFiles {
    pub open spec fn has_file(self, rel: Seq<char>) -> bool {
        text::lists(text::texts(self.files@), rel)
    }

    /// The directory that holds the tests.
    pub open spec fn test_dir(self) -> Option<Seq<char>> {
        first_present(test_dir_names(), text::texts(self.dirs@))
    }

    /// The script that runs them, where they have a harness of their own.
    pub open spec fn harness(self) -> Option<Seq<char>> {
        first_present(harness_names(), text::texts(self.files@))
    }

    /// The convention that the project follows, and the command that runs its tests.
    pub open spec fn convention(self) -> Option<(Seq<char>, Seq<Seq<char>>)> {
        if self.test_dir() is Some && self.has_file(GDUNIT_RUNNER@) {
            Some(
                (
                    "gdUnit4"@,
                    headless_words() + seq![
                        "-s"@,
                        "res://"@ + GDUNIT_RUNNER@,
                        "-a"@,
                        "res://"@ + self.test_dir()->Some_0,
                    ],
                ),
            )
        } else if self.test_dir() is Some && self.has_file(GUT_RUNNER@) {
            Some(
                (
                    "GUT"@,
                    headless_words() + seq![
                        "-s"@,
                        "res://"@ + GUT_RUNNER@,
                        "-gdir=res://"@ + self.test_dir()->Some_0,
                        "-gexit"@,
                    ],
                ),
            )
        } else if self.harness() is Some {
            Some(
                (
                    "script harness"@,
                    headless_words() + seq!["--script"@, "res://"@ + self.harness()->Some_0],
                ),
            )
        } else {
            None
        }
    }
}

fn headless() -> (r: Vec<String>)
    ensures
        text::texts(r@) == headless_words(),
{
    let mut argv: Vec<String> = Vec::new();
    argv.push("{godot}".to_string());
    argv.push("--headless".to_string());
    argv.push("--path".to_string());
    argv.push("{project}".to_string());
    assert(text::texts(argv@) =~= headless_words());
    argv
}

fn prefixed(prefix: &str, rest: &str) -> (r: String)
    ensures
        r@ == prefix@ + rest@,
{
    let mut out = prefix.to_string();
    out.append(rest);
    out
}

/// Whether the plan is the one that the project's convention gives.
pub open spec fn plan_matches(plan: Option<TestPlan>, want: Option<(Seq<char>, Seq<Seq<char>>)>) -> bool {
    match plan {
        None => want is None,
        Some(p) => match p.source {
            PlanSource::Detected(what) => want == Some((what@, text::texts(p.argv@))),
            _ => false,
        },
    }
}

/// Detect a test command by looking for the file each convention would actually invoke. Gives
/// `None` when nothing conclusive is there.
pub fn detect(project: &ProjectFiles) -> (r: Option<TestPlan>)
    ensures
        plan_matches(r, project.convention()),
{
    let dirs = dir_probes();
    if let Some(dir) = find_present(&dirs, &project.dirs) {
        if text::listed(&project.files, GDUNIT_RUNNER) {
            let mut argv = headless();
            argv.push("-s".to_string());
            argv.push(prefixed("res://", GDUNIT_RUNNER));
            argv.push("-a".to_string());
            argv.push(prefixed("res://", dir.as_str()));
            assert(text::texts(argv@) =~= project.convention()->Some_0.1);
            return Some(TestPlan { source: PlanSource::Detected("gdUnit4"), argv });
        }
        if text::listed(&project.files, GUT_RUNNER) {
            let mut argv = headless();
            argv.push("-s".to_string());
            argv.push(prefixed("res://", GUT_RUNNER));
            argv.push(prefixed("-gdir=res://", dir.as_str()));
            argv.push("-gexit".to_string());
            assert(text::texts(argv@) =~= project.convention()->Some_0.1);
            return Some(TestPlan { source: PlanSource::Detected("GUT"), argv });
        }
    }
    let scripts = harnesses();
    if let Some(script) = find_present(&scripts, &project.files) {
        let mut argv = headless();
        argv.push("--script".to_string());
        argv.push(prefixed("res://", script.as_str()));
        assert(text::texts(argv@) =~= project.convention()->Some_0.1);
        return Some(TestPlan { source: PlanSource::Detected("script harness"), argv });
    }
    None
}

proof fn lemma_first_present_is_listed(names: Seq<Seq<char>>, present: Seq<Seq<char>>)
    ensures
        first_present(names, present) is Some ==> text::lists(
            present,
            first_present(names, present)->Some_0,
        ),
    decreases names.len(),
{
    if names.len() > 0 && !text::lists(present, names[0]) {
        lemma_first_present_is_listed(names.skip(1), present);
    }
}

/// A convention is only claimed on evidence: the script that the command hands to Godot is a file
/// that the project holds.
pub proof fn law_detection_names_a_file_that_exists(project: ProjectFiles)
    ensures
        project.convention() is Some ==> exists|script: Seq<char>|
            {
                &&& #[trigger] project.has_file(script)
                &&& project.convention()->Some_0.1.len() >= 6
                &&& project.convention()->Some_0.1[5] == "res://"@ + script
            },
{
    if project.convention() is Some {
        lemma_first_present_is_listed(harness_names(), text::texts(project.files@));
        let argv = project.convention()->Some_0.1;
        if project.test_dir() is Some && project.has_file(GDUNIT_RUNNER@) {
            assert(argv[5] == "res://"@ + GDUNIT_RUNNER@);
        } else if project.test_dir() is Some && project.has_file(GUT_RUNNER@) {
            assert(argv[5] == "res://"@ + GUT_RUNNER@);
        } else {
            assert(project.has_file(project.harness()->Some_0));
            assert(argv[5] == "res://"@ + project.harness()->Some_0);
        }
    }
}

/// Two projects that agree on the probed names are detected alike, whatever else they hold.
pub proof fn law_only_the_probed_names_matter(a: ProjectFiles, b: ProjectFiles)
    requires
        forall|i: int|
            0 <= i < runner_names().len() ==> a.has_file(#[trigger] runner_names()[i]) == b.has_file(
                runner_names()[i],
            ),
        forall|i: int|
            0 <= i < test_dir_names().len() ==> text::lists(
                text::texts(a.dirs@),
                #[trigger] test_dir_names()[i],
            ) == text::lists(text::texts(b.dirs@), test_dir_names()[i]),
    ensures
        a.convention() == b.convention(),
{
    let runners = runner_names();
    assert(runners[0] == GDUNIT_RUNNER@ && runners[1] == GUT_RUNNER@);
    assert forall|i: int| 0 <= i < harness_names().len() implies text::lists(
        text::texts(a.files@),
        #[trigger] harness_names()[i],
    ) == text::lists(text::texts(b.files@), harness_names()[i]) by {
        assert(runners[i + 2] == harness_names()[i]);
    }
    lemma_first_present_agrees(harness_names(), text::texts(a.files@), text::texts(b.files@));
    lemma_first_present_agrees(test_dir_names(), text::texts(a.dirs@), text::texts(b.dirs@));
}

proof fn lemma_first_present_agrees(names: Seq<Seq<char>>, a: Seq<Seq<char>>, b: Seq<Seq<char>>)
    requires
        forall|i: int|
            0 <= i < names.len() ==> text::lists(a, #[trigger] names[i]) == text::lists(b, names[i]),
    ensures
        first_present(names, a) == first_present(names, b),
    decreases names.len(),
{
    if names.len() > 0 {
        assert(text::lists(a, names[0]) == text::lists(b, names[0]));
        let rest = names.skip(1);
        assert forall|i: int| 0 <= i < rest.len() implies text::lists(a, #[trigger] rest[i])
            == text::lists(b, rest[i]) by {
            assert(rest[i] == names[i + 1]);
        }
        lemma_first_present_agrees(rest, a, b);
    }
}

// ---- how it went --------------------------------------------------------------------------------

/// How a suite run ended.
#[derive(Clone, Copy, Debug, PartialEq, Eq, Structural)]
pub enum TestStatus {
    /// Clean exit, nothing error-classified.
    Passed,
    /// Clean exit, but error-classified lines were printed: a suite that swallows failures, or
    /// tests that deliberately provoke engine errors. Surfaced rather than silently reported green.
    PassedWithErrors,
    /// Non-zero exit.
    Failed,
    /// Killed at the timeout.
    TimedOut,
}

impl TestStatus {
    pub open spec fn is_red(self) -> bool {
        self == TestStatus::Failed || self == TestStatus::TimedOut
    }

    /// True when the run should be reported as a tool error.
    pub fn is_failure(self) -> (r: bool)
        ensures
            r == self.is_red(),
    {
        matches!(self, TestStatus::Failed | TestStatus::TimedOut)
    }

    pub open spec fn label_text(self) -> Seq<char> {
        match self {
            TestStatus::Passed => "PASSED"@,
            TestStatus::PassedWithErrors => "PASSED (with engine errors)"@,
            TestStatus::Failed => "FAILED"@,
            TestStatus::TimedOut => "TIMED OUT"@,
        }
    }

    pub fn label(self) -> (r: &'static str)
        ensures
            r@ == self.label_text(),
    {
        match self {
            TestStatus::Passed => "PASSED",
            TestStatus::PassedWithErrors => "PASSED (with engine errors)",
            TestStatus::Failed => "FAILED",
            TestStatus::TimedOut => "TIMED OUT",
        }
    }
}

/// A shaped test result: the verdict, the errors with their stack frames, and the suite's own
/// summary lines.
#[derive(Clone, Debug)]
pub struct TestOutcome {
    pub status: TestStatus,
    pub exit_code: Option<i32>,
    /// Error lines, each followed by the GDScript stack frames that trailed it.
    pub errors: Vec<String>,
    /// Lines that read like a framework summary, verbatim and in order.
    pub summary: Vec<String>,
    /// The last lines of output, for when nothing else is conclusive.
    pub tail: Vec<String>,
}

/// What an outcome says.
#[verifier::ext_equal]
pub struct OutcomeText {
    pub status: TestStatus,
    pub exit_code: Option<i32>,
    pub errors: Seq<Seq<char>>,
    pub summary: Seq<Seq<char>>,
    pub tail: Seq<Seq<char>>,
}

impl View for TestOutcome {
    type V = OutcomeText;

    open spec fn view(&self) -> OutcomeText {
        OutcomeText {
            status: self.status,
            exit_code: self.exit_code,
            errors: text::texts(self.errors@),
            summary: text::texts(self.summary@),
            tail: text::texts(self.tail@),
        }
    }
}

/// Max characters a line may have and still count as a summary.
pub const SUMMARY_MAX_LEN: usize = 200;

/// The verdict on a finished command.
pub open spec fn status_of(res: OneshotResult) -> TestStatus {
    if res.timed_out {
        TestStatus::TimedOut
    } else if res.exit_code != Some(0i32) || !res.capture_complete {
        TestStatus::Failed
    } else if res.error_count > 0 {
        TestStatus::PassedWithErrors
    } else {
        TestStatus::Passed
    }
}

/// The last line is an error, or a stack frame in a run of frames that an error opens.
pub open spec fn ends_in_error_block(lines: Seq<LogLine>) -> bool
    decreases lines.len(),
{
    lines.len() > 0 && (lines.last().is_error || (process::is_frame_text(lines.last().text@)
        && ends_in_error_block(lines.drop_last())))
}

/// The error lines, each with the stack frames beneath it.
pub open spec fn error_blocks(lines: Seq<LogLine>) -> Seq<Seq<char>>
    decreases lines.len(),
{
    if lines.len() == 0 {
        Seq::empty()
    } else if ends_in_error_block(lines) {
        error_blocks(lines.drop_last()).push(lines.last().text@)
    } else {
        error_blocks(lines.drop_last())
    }
}

/// Substrings that mark a line as a suite summary in the common Godot test frameworks.
pub open spec fn has_summary_marker(lower: Seq<char>) -> bool {
    ||| text::has(lower, "passed"@)
    ||| text::has(lower, "failed"@)
    ||| text::has(lower, "failures"@)
    ||| text::has(lower, "assertions"@)
    ||| text::has(lower, "test suites"@)
    ||| text::has(lower, "tests run"@)
    ||| text::has(lower, "orphans"@)
    ||| text::has(lower, "totals"@)
}

/// A short line, not an error, that reads like a suite summary in any letter case.
pub open spec fn is_summary_line(line: LogLine) -> bool {
    &&& !line.is_error
    &&& line.text@.len() <= SUMMARY_MAX_LEN
    &&& has_summary_marker(text::lowered(line.text@))
}

pub open spec fn summary_lines(lines: Seq<LogLine>) -> Seq<Seq<char>>
    decreases lines.len(),
{
    if lines.len() == 0 {
        Seq::empty()
    } else if is_summary_line(lines.last()) {
        summary_lines(lines.drop_last()).push(lines.last().text@)
    } else {
        summary_lines(lines.drop_last())
    }
}

/// Whether a lower-case line holds one of the words that mark a summary.
pub fn marks_summary(lower: &str) -> (r: bool)
    ensures
        r == has_summary_marker(lower@),
{
    text::contains(lower, "passed") || text::contains(lower, "failed") || text::contains(
        lower,
        "failures",
    ) || text::contains(lower, "assertions") || text::contains(lower, "test suites")
        || text::contains(lower, "tests run") || text::contains(lower, "orphans") || text::contains(
        lower,
        "totals",
    )
}

fn reads_like_summary(line: &LogLine) -> (r: bool)
    ensures
        r == is_summary_line(*line),
{
    if line.is_error || text::chars_of(line.text.as_str()).len() > SUMMARY_MAX_LEN {
        return false;
    }
    let lower = text::lower(line.text.as_str());
    marks_summary(lower.as_str())
}

/// The outcome of a finished command, with `tail` lines of its output.
pub open spec fn shaped(res: OneshotResult, tail: nat) -> OutcomeText {
    OutcomeText {
        status: status_of(res),
        exit_code: res.exit_code,
        errors: error_blocks(res.lines@),
        summary: summary_lines(res.lines@),
        tail: process::last_texts(res.lines@, tail),
    }
}

/// Shape a raw one-shot result into a test outcome.
pub fn shape(res: &OneshotResult, tail: usize) -> (r: TestOutcome)
    ensures
        r@ == shaped(*res, tail as nat),
{
    let clean = match res.exit_code {
        Some(code) => code == 0,
        None => false,
    };
    let status = if res.timed_out {
        TestStatus::TimedOut
    } else if !clean || !res.capture_complete {
        TestStatus::Failed
    } else if res.error_count > 0 {
        TestStatus::PassedWithErrors
    } else {
        TestStatus::Passed
    };
    let mut errors: Vec<String> = Vec::new();
    let mut summary: Vec<String> = Vec::new();
    let mut collecting = false;
    assert(text::texts(errors@) =~= Seq::<Seq<char>>::empty());
    assert(text::texts(summary@) =~= Seq::<Seq<char>>::empty());
    for i in 0..res.lines.len()
        invariant
            collecting == ends_in_error_block(res.lines@.take(i as int)),
            text::texts(errors@) == error_blocks(res.lines@.take(i as int)),
            text::texts(summary@) == summary_lines(res.lines@.take(i as int)),
    {
        let line = &res.lines[i];
        assert(res.lines@.take(i + 1).drop_last() =~= res.lines@.take(i as int));
        collecting = line.is_error || (collecting && process::is_stack_frame(line.text.as_str()));
        if collecting {
            let copy = line.text.clone();
            proof {
                text::lemma_texts_push(errors@, copy);
            }
            errors.push(copy);
        }
        if reads_like_summary(line) {
            let copy = line.text.clone();
            proof {
                text::lemma_texts_push(summary@, copy);
            }
            summary.push(copy);
        }
    }
    assert(res.lines@.take(res.lines@.len() as int) =~= res.lines@);
    TestOutcome {
        status,
        exit_code: res.exit_code,
        errors,
        summary,
        tail: process::last_lines(&res.lines, tail),
    }
}

/// How many of the summary lines are shown: the final ones are the suite totals.
pub const SHOWN_SUMMARY: usize = 8;

/// The last `n` of the texts.
pub open spec fn ending(v: Seq<Seq<char>>, n: nat) -> Seq<Seq<char>> {
    if v.len() <= n {
        v
    } else {
        v.skip(v.len() - n)
    }
}

impl OutcomeText {
    pub open spec fn verdict_text(self, source: PlanSource, argv: Seq<Seq<char>>) -> Seq<char> {
        self.status.label_text() + " (exit="@ + process::exit_words(self.exit_code) + ")\nran ["@
            + source.words() + "]: "@ + text::joined(argv, " "@) + "\n"@
    }

    pub open spec fn summary_text(self) -> Seq<char> {
        if self.summary.len() == 0 {
            Seq::empty()
        } else {
            "summary:\n"@ + text::indented(ending(self.summary, SHOWN_SUMMARY as nat))
        }
    }

    pub open spec fn tail_text(self) -> Seq<char> {
        if self.summary.len() == 0 && self.errors.len() == 0 {
            "output tail:\n"@ + text::indented(self.tail)
        } else {
            Seq::empty()
        }
    }

    pub open spec fn report(self, source: PlanSource, argv: Seq<Seq<char>>) -> Seq<char> {
        self.verdict_text(source, argv) + self.summary_text() + process::error_listing(self.errors)
            + self.tail_text()
    }
}

impl TestOutcome {
    /// Render the outcome: verdict first, then whichever evidence exists.
    pub fn render(&self, plan_source: &PlanSource, argv: &[String]) -> (r: String)
        ensures
            r@ == self@.report(*plan_source, text::texts(argv@)),
    {
        let mut out = self.status.label().to_string();
        out.append(" (exit=");
        out.append(process::exit_text(self.exit_code).as_str());
        out.append(")\nran [");
        out.append(plan_source.text().as_str());
        out.append("]: ");
        out.append(text::join(argv, " ").as_str());
        out.append("\n");
        out.append(self.summary_part().as_str());
        out.append(process::list_errors(&self.errors).as_str());
        out.append(self.tail_part().as_str());
        out
    }

    fn summary_part(&self) -> (r: String)
        ensures
            r@ == self@.summary_text(),
    {
        if self.summary.is_empty() {
            return String::new();
        }
        let count: usize = self.summary.len();
        let start: usize = if count > SHOWN_SUMMARY {
            count - SHOWN_SUMMARY
        } else {
            0
        };
        let shown = vstd::slice::slice_subrange(self.summary.as_slice(), start, count);
        assert(text::texts(shown@) =~= ending(text::texts(self.summary@), SHOWN_SUMMARY as nat));
        let mut out = "summary:\n".to_string();
        out.append(text::indent(shown).as_str());
        out
    }

    fn tail_part(&self) -> (r: String)
        ensures
            r@ == self@.tail_text(),
    {
        if !self.summary.is_empty() || !self.errors.is_empty() {
            return String::new();
        }
        let mut out = "output tail:\n".to_string();
        out.append(text::indent(&self.tail).as_str());
        out
    }
}

/// A suite passes exactly when its command ended in time with exit code zero and everything it
/// printed could be inspected; engine errors are then still named in the verdict.
pub proof fn law_when_a_suite_passes(res: OneshotResult)
    ensures
        !status_of(res).is_red() <==> !res.timed_out && res.exit_code == Some(0i32)
            && res.capture_complete,
        status_of(res) == TestStatus::Passed <==> res.is_ok(),
        !res.capture_complete ==> status_of(res).is_red(),
        !status_of(res).is_red() && res.error_count > 0 ==> status_of(res)
            == TestStatus::PassedWithErrors,
{
}

/// No error line is left out of the shaped outcome.
pub proof fn law_every_error_line_is_reported(lines: Seq<LogLine>, i: int)
    requires
        0 <= i < lines.len(),
        lines[i].is_error,
    ensures
        error_blocks(lines).contains(lines[i].text@),
    decreases lines.len(),
{
    if i == lines.len() - 1 {
        assert(error_blocks(lines).last() == lines[i].text@);
    } else {
        law_every_error_line_is_reported(lines.drop_last(), i);
        let rest = error_blocks(lines.drop_last());
        let k = rest.index_of(lines[i].text@);
        assert(error_blocks(lines)[k] == lines[i].text@);
    }
}

// ---- what detection and shaping are for ----------------------------------------------------------

/// A project is run by gdUnit4 where its runner is there, else by GUT where that is, over the
/// directory that holds the tests: `test` where there is one, else `tests`. The runner and the
/// directory are the ones that are handed to the engine.
pub proof fn law_which_framework_runs_the_tests(project: ProjectFiles, dir: Seq<char>)
    requires
        ({
            let dirs = text::texts(project.dirs@);
            dir == "test"@ && dirs.contains("test"@) || dir == "tests"@ && !dirs.contains("test"@)
                && dirs.contains("tests"@)
        }),
    ensures
        ({
            let files = text::texts(project.files@);
            let gdunit = files.contains("addons/gdUnit4/bin/GdUnitCmdTool.gd"@);
            let gut = files.contains("addons/gut/gut_cmdln.gd"@);
            let head = seq!["{godot}"@, "--headless"@, "--path"@, "{project}"@];
            &&& gdunit ==> project.convention() == Some(
                (
                    "gdUnit4"@,
                    head + seq![
                        "-s"@,
                        "res://"@ + "addons/gdUnit4/bin/GdUnitCmdTool.gd"@,
                        "-a"@,
                        "res://"@ + dir,
                    ],
                ),
            )
            &&& !gdunit && gut ==> project.convention() == Some(
                (
                    "GUT"@,
                    head + seq![
                        "-s"@,
                        "res://"@ + "addons/gut/gut_cmdln.gd"@,
                        "-gdir=res://"@ + dir,
                        "-gexit"@,
                    ],
                ),
            )
        }),
{
    let dirs = text::texts(project.dirs@);
    let files = text::texts(project.files@);
    reveal_with_fuel(first_present, 3);
    let names = test_dir_names();
    assert(names.skip(1) =~= seq!["tests"@]);
    text::law_what_is_listed(dirs, "test"@);
    text::law_what_is_listed(dirs, "tests"@);
    text::law_what_is_listed(files, "addons/gdUnit4/bin/GdUnitCmdTool.gd"@);
    text::law_what_is_listed(files, "addons/gut/gut_cmdln.gd"@);
    assert(project.test_dir() == Some(dir));
}

/// Where neither framework can run, a script of a known name in one of the two directories does: the
/// first of them in this order that is there. Without one nothing is claimed.
pub proof fn law_which_script_runs_the_tests(project: ProjectFiles, i: int)
    requires
        ({
            let dirs = text::texts(project.dirs@);
            let files = text::texts(project.files@);
            !dirs.contains("test"@) && !dirs.contains("tests"@) || !files.contains(
                "addons/gdUnit4/bin/GdUnitCmdTool.gd"@,
            ) && !files.contains("addons/gut/gut_cmdln.gd"@)
        }),
    ensures
        ({
            let files = text::texts(project.files@);
            let scripts = seq![
                "test/run_tests.gd"@,
                "test/test_runner.gd"@,
                "test/tests.gd"@,
                "test/all_tests.gd"@,
                "tests/run_tests.gd"@,
                "tests/test_runner.gd"@,
                "tests/tests.gd"@,
                "tests/all_tests.gd"@,
            ];
            &&& 0 <= i < 8 && files.contains(scripts[i]) && (forall|j: int|
                0 <= j < i ==> !files.contains(#[trigger] scripts[j])) ==> project.convention()
                == Some(
                (
                    "script harness"@,
                    seq![
                        "{godot}"@,
                        "--headless"@,
                        "--path"@,
                        "{project}"@,
                        "--script"@,
                        "res://"@ + scripts[i],
                    ],
                ),
            )
            &&& (forall|j: int| 0 <= j < 8 ==> !files.contains(#[trigger] scripts[j]))
                ==> project.convention() is None
        }),
{
    let dirs = text::texts(project.dirs@);
    let files = text::texts(project.files@);
    let scripts = harness_names();
    text::law_what_is_listed(dirs, "test"@);
    text::law_what_is_listed(dirs, "tests"@);
    text::law_what_is_listed(files, "addons/gdUnit4/bin/GdUnitCmdTool.gd"@);
    text::law_what_is_listed(files, "addons/gut/gut_cmdln.gd"@);
    reveal_with_fuel(first_present, 3);
    assert(test_dir_names().skip(1) =~= seq!["tests"@]);
    assert(seq!["tests"@].skip(1) =~= Seq::<Seq<char>>::empty());
    if 0 <= i < 8 && files.contains(scripts[i]) && forall|j: int|
        0 <= j < i ==> !files.contains(#[trigger] scripts[j]) {
        lemma_first_present_is(scripts, files, i);
        assert(headless_words() + seq!["--script"@, "res://"@ + scripts[i]] =~= seq![
            "{godot}"@,
            "--headless"@,
            "--path"@,
            "{project}"@,
            "--script"@,
            "res://"@ + scripts[i],
        ]);
    }
    if forall|j: int| 0 <= j < 8 ==> !files.contains(#[trigger] scripts[j]) {
        lemma_first_present_is(scripts, files, 8);
    }
}

proof fn lemma_first_present_is(names: Seq<Seq<char>>, present: Seq<Seq<char>>, i: int)
    requires
        0 <= i <= names.len(),
        i < names.len() ==> present.contains(names[i]),
        forall|j: int| 0 <= j < i ==> !present.contains(#[trigger] names[j]),
    ensures
        i < names.len() ==> first_present(names, present) == Some(names[i]),
        i == names.len() ==> first_present(names, present) is None,
    decreases names.len(),
{
    if names.len() > 0 {
        text::law_what_is_listed(present, names[0]);
        if i > 0 {
            let rest = names.skip(1);
            assert forall|j: int| 0 <= j < i - 1 implies !present.contains(#[trigger] rest[j]) by {
                assert(rest[j] == names[j + 1]);
            }
            if i < names.len() {
                assert(rest[i - 1] == names[i]);
            }
            lemma_first_present_is(rest, present, i - 1);
        }
    }
}


/// An error is reported with the stack frames right beneath it, in order; frames beneath anything
/// else, and every other line, are left out.
#[verifier::rlimit(50)]
pub proof fn law_errors_keep_their_stack_frames(
    before: Seq<LogLine>,
    line: LogLine,
    frames: Seq<LogLine>,
)
    requires
        forall|i: int|
            0 <= i < frames.len() ==> !(#[trigger] frames[i]).is_error && process::is_frame_text(
                frames[i].text@,
            ),
    ensures
        line.is_error ==> error_blocks(before + seq![line] + frames) == error_blocks(before)
            + seq![line.text@] + frames.map_values(|l: LogLine| l.text@),
        !line.is_error && !process::is_frame_text(line.text@) ==> error_blocks(
            before + seq![line] + frames,
        ) == error_blocks(before),
        error_blocks(frames) == Seq::<Seq<char>>::empty(),
    decreases frames.len(),
{
    let all = before + seq![line] + frames;
    if frames.len() == 0 {
        assert(all =~= before.push(line));
        assert(all.drop_last() =~= before);
        assert(frames.map_values(|l: LogLine| l.text@) =~= Seq::<Seq<char>>::empty());
        assert(error_blocks(before) + seq![line.text@] + Seq::<Seq<char>>::empty()
            =~= error_blocks(before).push(line.text@));
    } else {
        let front = frames.drop_last();
        assert forall|i: int| 0 <= i < front.len() implies !(#[trigger] front[i]).is_error
            && process::is_frame_text(front[i].text@) by {
            assert(front[i] == frames[i]);
        }
        law_errors_keep_their_stack_frames(before, line, front);
        assert(all.drop_last() =~= before + seq![line] + front);
        assert(all.last() == frames[frames.len() - 1]);
        lemma_block_goes_on(before, line, front);
        assert(!frames[frames.len() - 1].is_error);
        let a = error_blocks(before) + seq![line.text@];
        assert((a + front.map_values(|l: LogLine| l.text@)).push(frames.last().text@) =~= a
            + frames.map_values(|l: LogLine| l.text@));
        lemma_frames_alone(frames);
    }
}

proof fn lemma_frames_alone(frames: Seq<LogLine>)
    requires
        forall|i: int| 0 <= i < frames.len() ==> !(#[trigger] frames[i]).is_error,
    ensures
        !ends_in_error_block(frames),
        error_blocks(frames) == Seq::<Seq<char>>::empty(),
    decreases frames.len(),
{
    if frames.len() > 0 {
        assert(!frames[frames.len() - 1].is_error);
        let front = frames.drop_last();
        assert forall|i: int| 0 <= i < front.len() implies !(#[trigger] front[i]).is_error by {
            assert(front[i] == frames[i]);
        }
        lemma_frames_alone(front);
    }
}

proof fn lemma_block_goes_on(before: Seq<LogLine>, line: LogLine, frames: Seq<LogLine>)
    requires
        forall|i: int|
            0 <= i < frames.len() ==> !(#[trigger] frames[i]).is_error && process::is_frame_text(
                frames[i].text@,
            ),
    ensures
        line.is_error ==> ends_in_error_block(before + seq![line] + frames),
        !line.is_error && !process::is_frame_text(line.text@) ==> !ends_in_error_block(
            before + seq![line] + frames,
        ),
    decreases frames.len(),
{
    let all = before + seq![line] + frames;
    if frames.len() == 0 {
        assert(all =~= before.push(line));
    } else {
        let front = frames.drop_last();
        assert forall|i: int| 0 <= i < front.len() implies !(#[trigger] front[i]).is_error
            && process::is_frame_text(front[i].text@) by {
            assert(front[i] == frames[i]);
        }
        lemma_block_goes_on(before, line, front);
        assert(all.drop_last() =~= before + seq![line] + front);
        assert(all.last() == frames[frames.len() - 1]);
    }
}

/// The summary is made of the lines that read like one, in order: lines that are no errors, not too
/// long, and hold one of the marking words in any letter case.
#[verifier::rlimit(50)]
pub proof fn law_the_summary_lines(a: Seq<LogLine>, b: Seq<LogLine>, line: LogLine)
    ensures
        summary_lines(a + b) == summary_lines(a) + summary_lines(b),
        summary_lines(seq![line]) == if !line.is_error && line.text@.len() <= 200
            && has_summary_marker(text::lowered(line.text@)) {
            seq![line.text@]
        } else {
            Seq::empty()
        },
    decreases b.len(),
{
    reveal_with_fuel(summary_lines, 2);
    assert(seq![line].drop_last() =~= Seq::<LogLine>::empty());
    assert(Seq::<Seq<char>>::empty().push(line.text@) =~= seq![line.text@]);
    if b.len() == 0 {
        assert(a + b =~= a);
        assert(summary_lines(a) + summary_lines(b) =~= summary_lines(a));
    } else {
        law_the_summary_lines(a, b.drop_last(), line);
        assert((a + b).drop_last() =~= a + b.drop_last());
        assert(summary_lines(a + b) =~= summary_lines(a) + summary_lines(b));
    }
}

/// Any of the eight words marks a summary wherever it stands, and nothing else does.
pub proof fn law_what_marks_a_summary(a: Seq<char>, b: Seq<char>, k: int, lower: Seq<char>)
    ensures
        ({
            let words = seq![
                "passed"@,
                "failed"@,
                "failures"@,
                "assertions"@,
                "test suites"@,
                "tests run"@,
                "orphans"@,
                "totals"@,
            ];
            &&& 0 <= k < 8 ==> has_summary_marker(a + words[k] + b)
            &&& has_summary_marker(lower) ==> exists|j: int|
                0 <= j < 8 && text::has(lower, #[trigger] words[j])
        }),
{
    let words = seq![
        "passed"@,
        "failed"@,
        "failures"@,
        "assertions"@,
        "test suites"@,
        "tests run"@,
        "orphans"@,
        "totals"@,
    ];
    if 0 <= k < 8 {
        text::law_a_text_is_found_where_it_stands(lower, a, words[k], b);
    }
    assert(words[0] == "passed"@ && words[1] == "failed"@ && words[2] == "failures"@ && words[3]
        == "assertions"@ && words[4] == "test suites"@ && words[5] == "tests run"@ && words[6]
        == "orphans"@ && words[7] == "totals"@);
}

/// What is reported of a run: its own code, its own errors, summary and last lines, and the verdict.
pub proof fn law_what_is_shaped(res: OneshotResult, tail: nat)
    ensures
        ({
            let out = shaped(res, tail);
            &&& out.exit_code == res.exit_code
            &&& out.errors == error_blocks(res.lines@)
            &&& out.summary == summary_lines(res.lines@)
            &&& out.tail == process::last_texts(res.lines@, tail)
            &&& res.timed_out ==> out.status == TestStatus::TimedOut
            &&& !res.timed_out && (res.exit_code != Some(0i32) || !res.capture_complete)
                ==> out.status == TestStatus::Failed
            &&& out.status == TestStatus::Passed <==> res.exit_code == Some(0i32) && !res.timed_out
                && res.capture_complete && res.error_count == 0
        }),
{
}

/// The report opens with the verdict and the exit code, and names what was run and from where.
pub proof fn law_what_a_report_opens_with(
    out: OutcomeText,
    source: PlanSource,
    argv: Seq<Seq<char>>,
)
    ensures
        ({
            let report = out.report(source, argv);
            &&& text::begins(
                report,
                out.status.label_text() + " (exit="@ + process::exit_words(out.exit_code),
            )
            &&& text::has(report, source.words() + "]: "@ + text::joined(argv, " "@))
        }),
{
    let empty = Seq::<char>::empty();
    let report = out.report(source, argv);
    let ran = text::joined(argv, " "@);
    let evidence = out.summary_text() + process::error_listing(out.errors) + out.tail_text();
    let head = out.status.label_text() + " (exit="@ + process::exit_words(out.exit_code);
    let rest = ")\nran ["@ + source.words() + "]: "@ + ran + "\n"@ + evidence;
    assert(report =~= head + rest);
    text::law_a_text_is_found_where_it_stands(empty, empty, head, rest);
    let part = source.words() + "]: "@ + ran;
    assert(report =~= (head + ")\nran ["@) + part + ("\n"@ + evidence));
    text::lemma_has_part(report, head + ")\nran ["@, part, "\n"@ + evidence);
}

/// The report shows the evidence: the last summary lines, the first errors, and the output's tail
/// where there is neither.
pub proof fn law_what_evidence_a_report_shows(
    out: OutcomeText,
    source: PlanSource,
    argv: Seq<Seq<char>>,
    i: int,
)
    ensures
        ({
            let report = out.report(source, argv);
            &&& 0 <= i < out.summary.len() && i >= out.summary.len() - 8 ==> text::has(
                report,
                "  "@ + out.summary[i] + "\n"@,
            )
            &&& 0 <= i < out.errors.len() && i < 40 ==> text::has(
                report,
                "  "@ + out.errors[i] + "\n"@,
            )
            &&& out.summary.len() == 0 && out.errors.len() == 0 && 0 <= i < out.tail.len()
                ==> text::has(report, "  "@ + out.tail[i] + "\n"@)
        }),
{
    let empty = Seq::<char>::empty();
    let verdict = out.verdict_text(source, argv);
    let listing = process::error_listing(out.errors);
    let report = verdict + out.summary_text() + listing + out.tail_text();
    if 0 <= i < out.summary.len() && i >= out.summary.len() - 8 {
        let shown = ending(out.summary, SHOWN_SUMMARY as nat);
        let k = i - (out.summary.len() - shown.len());
        assert(shown[k] == out.summary[i]);
        text::law_every_indented_line_is_shown(shown, k);
        let rest = listing + out.tail_text();
        assert(report =~= (verdict + "summary:\n"@) + text::indented(shown) + rest);
        text::lemma_has_part(report, verdict + "summary:\n"@, text::indented(shown), rest);
        text::lemma_has_through(report, text::indented(shown), "  "@ + out.summary[i] + "\n"@);
    }
    if 0 <= i < out.errors.len() && i < 40 {
        process::law_errors_are_listed(out.errors, i);
        text::lemma_has_part(report, verdict + out.summary_text(), listing, out.tail_text());
        text::lemma_has_through(report, listing, "  "@ + out.errors[i] + "\n"@);
    }
    if out.summary.len() == 0 && out.errors.len() == 0 && 0 <= i < out.tail.len() {
        text::law_every_indented_line_is_shown(out.tail, i);
        let before = verdict + out.summary_text() + listing + "output tail:\n"@;
        assert(report =~= before + text::indented(out.tail) + empty);
        text::lemma_has_part(report, before, text::indented(out.tail), empty);
        text::lemma_has_through(report, text::indented(out.tail), "  "@ + out.tail[i] + "\n"@);
    }
}

/// The verdict in words: a passed suite is called so, and no other is.
pub proof fn law_the_words_of_a_verdict(status: TestStatus)
    ensures
        text::begins(status.label_text(), "PASSED"@) <==> !status.is_red(),
        status == TestStatus::TimedOut <==> status.label_text() == "TIMED OUT"@,
        status == TestStatus::Failed <==> status.label_text() == "FAILED"@,
        status == TestStatus::Passed <==> status.label_text() == "PASSED"@,
{
    reveal_strlit("PASSED");
    reveal_strlit("PASSED (with engine errors)");
    reveal_strlit("FAILED");
    reveal_strlit("TIMED OUT");
    assert("PASSED"@.subrange(0, 6) =~= "PASSED"@);
    assert("PASSED (with engine errors)"@.subrange(0, 6) =~= "PASSED"@);
    assert("FAILED"@[0] == 'F' && "TIMED OUT"@[0] == 'T' && "PASSED"@[0] == 'P');
    assert("FAILED"@.subrange(0, 6)[0] == 'F');
    assert("TIMED OUT"@.subrange(0, 6)[0] == 'T');
    assert("PASSED (with engine errors)"@.len() != "PASSED"@.len());
    assert("PASSED (with engine errors)"@[0] == 'P');
}

/// The source of a command is named: passed, saved, or detected and by what.
pub proof fn law_the_words_of_a_source(what: &'static str)
    ensures
        PlanSource::Argument.words() == "command argument"@,
        PlanSource::Settings.words() == "settings.test_command"@,
        text::finishes(PlanSource::Detected(what).words(), what@),
{
    let empty = Seq::<char>::empty();
    text::law_a_text_is_found_where_it_stands(empty, "detected: "@, what@, empty);
}

/// A plan that is found is the one the convention calls for, and none is found exactly where no
/// convention applies.
pub proof fn law_a_detected_plan_is_the_conventions(
    plan: Option<TestPlan>,
    what: Seq<char>,
    argv: Seq<Seq<char>>,
)
    ensures
        plan_matches(plan, None) ==> plan is None,
        plan_matches(plan, Some((what, argv))) ==> {
            &&& plan is Some
            &&& plan->Some_0.source matches PlanSource::Detected(name) && name@ == what
            &&& text::texts(plan->Some_0.argv@) == argv
        },
        plan_matches(None, None),
{
}

} // verus!
