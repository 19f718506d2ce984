//! The tools: what each hands to the engine, and what it reports.
//!
//! A tool checks its arguments, asks the engine to do something, and words the outcome. The first
//! and the last step are here; whoever runs the engine takes the arguments from here and brings the
//! result back.
use vstd::prelude::*;

use crate::config::Config;
use crate::export;
use crate::export::{ArtifactStamp, ExportMode, Preset};
use crate::path;
use crate::process;
use crate::process::{LogLine, OneshotResult, RunId};
use crate::settings;
use crate::settings::Settings;
use crate::testrun;
use crate::testrun::{PlanSource, ProjectFiles, TestPlan};
use crate::text;

verus! {

/// Default ceilings for the one-shot tools, in seconds.
pub const CHECK_TIMEOUT: u64 = 30;

pub const VERSION_TIMEOUT: u64 = 30;

pub const TESTS_TIMEOUT: u64 = 300;

pub const IMPORT_TIMEOUT: u64 = 600;

pub const EXPORT_TIMEOUT: u64 = 600;

pub const DUMP_TIMEOUT: u64 = 300;

/// How many log lines `status` and `run_tests` show unless told otherwise.
pub const DEFAULT_TAIL: usize = 40;

// ---- replies and errors -------------------------------------------------------------------------

/// What a tool answers.
#[derive(Clone, Debug, PartialEq)]
pub struct ToolReply {
    pub is_error: bool,
    pub text: String,
}

impl View for ToolReply {
    type V = (bool, Seq<char>);

    open spec fn view(&self) -> (bool, Seq<char>) {
        (self.is_error, self.text@)
    }
}

#[derive(Clone, Copy, Debug, PartialEq, Eq, Structural)]
pub enum ErrorKind {
    InvalidParams,
    Internal,
}

/// Why a tool call could not be carried out.
#[derive(Clone, Debug, PartialEq)]
pub struct ToolError {
    pub kind: ErrorKind,
    pub message: String,
}

impl View for ToolError {
    type V = (ErrorKind, Seq<char>);

    open spec fn view(&self) -> (ErrorKind, Seq<char>) {
        (self.kind, self.message@)
    }
}

/// The caller's arguments or setup are at fault.
pub fn invalid(message: String) -> (r: ToolError)
    ensures
        r@ == (ErrorKind::InvalidParams, message@),
{
    ToolError { kind: ErrorKind::InvalidParams, message }
}

/// Something went wrong on this side.
pub fn internal(message: String) -> (r: ToolError)
    ensures
        r@ == (ErrorKind::Internal, message@),
{
    ToolError { kind: ErrorKind::Internal, message }
}

pub const NO_GODOT: &'static str = "no Godot binary configured (set GODOT_BIN, or persist one with the `config` tool)";

pub const NO_PROJECT: &'static str = "no Godot project found (set GODOT_PROJECT, persist project_dir with the `config` tool, or rely on CLAUDE_PROJECT_DIR)";

pub fn need_godot(cfg: &Config) -> (r: Result<String, ToolError>)
    ensures
        match text::opt_text(cfg.godot_bin) {
            Some(p) => r is Ok && r->Ok_0@ == p,
            None => r is Err && r->Err_0@ == (ErrorKind::InvalidParams, NO_GODOT@),
        },
{
    match &cfg.godot_bin {
        Some(p) => Ok(p.clone()),
        None => Err(invalid(NO_GODOT.to_string())),
    }
}

pub fn need_project(cfg: &Config) -> (r: Result<String, ToolError>)
    ensures
        match text::opt_text(cfg.project_dir) {
            Some(p) => r is Ok && r->Ok_0@ == p,
            None => r is Err && r->Err_0@ == (ErrorKind::InvalidParams, NO_PROJECT@),
        },
{
    match &cfg.project_dir {
        Some(p) => Ok(p.clone()),
        None => Err(invalid(NO_PROJECT.to_string())),
    }
}

// ---- pieces of a report -------------------------------------------------------------------------

pub open spec fn tail_text(res: OneshotResult, n: nat) -> Seq<char> {
    text::indented(process::last_texts(res.lines@, n))
}

/// The last `n` captured lines, indented for inclusion in a report.
pub fn lines_tail(res: &OneshotResult, n: usize) -> (r: String)
    ensures
        r@ == tail_text(*res, n as nat),
{
    let last = process::last_lines(&res.lines, n);
    text::indent(&last)
}

pub open spec fn timed_note(res: OneshotResult) -> Seq<char> {
    if res.timed_out {
        ", timed out"@
    } else {
        ""@
    }
}

fn timed(res: &OneshotResult) -> (r: &'static str)
    ensures
        r@ == timed_note(*res),
{
    if res.timed_out {
        ", timed out"
    } else {
        ""
    }
}

pub open spec fn verdict_word(ok: bool) -> Seq<char> {
    if ok {
        "OK"@
    } else {
        "FAILED"@
    }
}

fn verdict(ok: bool) -> (r: &'static str)
    ensures
        r@ == verdict_word(ok),
{
    if ok {
        "OK"
    } else {
        "FAILED"
    }
}

// ---- ping ---------------------------------------------------------------------------------------

pub open spec fn ping_text(message: Option<Seq<char>>) -> Seq<char> {
    match message {
        Some(m) => if m.len() > 0 {
            "pong: "@ + m
        } else {
            "pong"@
        },
        None => "pong"@,
    }
}

pub fn ping(message: Option<&str>) -> (r: ToolReply)
    ensures
        r@ == (false, ping_text(text::opt_str(message))),
{
    if let Some(m) = message {
        if !m.is_empty() {
            let mut out = "pong: ".to_string();
            out.append(m);
            return ToolReply { is_error: false, text: out };
        }
    }
    ToolReply { is_error: false, text: "pong".to_string() }
}

// ---- run, status, stop --------------------------------------------------------------------------

pub open spec fn run_words(
    project: Seq<char>,
    headless: bool,
    scene: Option<Seq<char>>,
    extra: Seq<Seq<char>>,
) -> Seq<Seq<char>> {
    let windowed = if headless {
        seq!["--path"@, project, "--headless"@]
    } else {
        seq!["--path"@, project]
    };
    match scene {
        Some(s) => windowed.push(s) + extra,
        None => windowed + extra,
    }
}

/// The engine's arguments for a run.
pub fn run_args(project: &str, headless: bool, scene: Option<&str>, extra: &[String]) -> (r: Vec<
    String,
>)
    ensures
        text::texts(r@) == run_words(
            project@,
            headless,
            text::opt_str(scene),
            text::texts(extra@),
        ),
{
    let mut out: Vec<String> = Vec::new();
    out.push("--path".to_string());
    out.push(project.to_string());
    if headless {
        out.push("--headless".to_string());
    }
    if let Some(s) = scene {
        out.push(s.to_string());
    }
    let ghost front = text::texts(out@);
    let mut rest = text::copy_of(extra);
    let ghost tail = text::texts(rest@);
    out.append(&mut rest);
    assert(text::texts(out@) =~= front + tail);
    assert(front + tail =~= run_words(
        project@,
        headless,
        text::opt_str(scene),
        text::texts(extra@),
    ));
    out
}

pub open spec fn bool_words(b: bool) -> Seq<char> {
    if b {
        "true"@
    } else {
        "false"@
    }
}

pub open spec fn started_text(run_id: RunId, headless: bool, argv: Seq<Seq<char>>) -> Seq<char> {
    "started run_id="@ + text::decimal(run_id as nat) + " (headless="@ + bool_words(headless)
        + ")\nargv: "@ + text::joined(argv, " "@)
        + "\nPoll `status` for logs/exit; `stop` to kill."@
}

pub fn run_reply(run_id: RunId, headless: bool, argv: &[String]) -> (r: ToolReply)
    ensures
        r@ == (false, started_text(run_id, headless, text::texts(argv@))),
{
    let mut out = "started run_id=".to_string();
    out.append(text::decimal_text(run_id).as_str());
    out.append(" (headless=");
    out.append(
        if headless {
            "true"
        } else {
            "false"
        },
    );
    out.append(")\nargv: ");
    out.append(text::join(argv, " ").as_str());
    out.append("\nPoll `status` for logs/exit; `stop` to kill.");
    ToolReply { is_error: false, text: out }
}

/// The state of one run.
pub struct RunView {
    /// The code the process has ended with, or `None` while it runs.
    pub exit: Option<i32>,
    pub errors: usize,
    pub logs: Vec<LogLine>,
}

/// The log lines as they are shown, errors marked.
pub open spec fn log_words(logs: Seq<LogLine>) -> Seq<char>
    decreases logs.len(),
{
    if logs.len() == 0 {
        Seq::empty()
    } else {
        log_words(logs.drop_last()) + "  "@ + (if logs.last().is_error {
            "[ERR] "@
        } else {
            ""@
        }) + logs.last().text@ + "\n"@
    }
}

fn log_text(logs: &[LogLine]) -> (r: String)
    ensures
        r@ == log_words(logs@),
{
    let mut out = String::new();
    for i in 0..logs.len()
        invariant
            out@ == log_words(logs@.take(i as int)),
    {
        assert(logs@.take(i + 1).drop_last() =~= logs@.take(i as int));
        out.append("  ");
        out.append(
            if logs[i].is_error {
                "[ERR] "
            } else {
                ""
            },
        );
        out.append(logs[i].text.as_str());
        out.append("\n");
    }
    assert(logs@.take(logs@.len() as int) =~= logs@);
    out
}

pub open spec fn run_state_text(id: RunId, run: Option<RunView>) -> Seq<char> {
    match run {
        Some(v) => "run_id="@ + text::decimal(id as nat) + " state="@ + (if v.exit is None {
            "running"@
        } else {
            "exited"@
        }) + " exit="@ + process::exit_words(v.exit) + " errors="@ + text::decimal(
            v.errors as nat,
        ) + "\n"@ + log_words(v.logs@),
        None => "run_id="@ + text::decimal(id as nat) + ": not found\n"@,
    }
}

/// One run's part of the report.
pub fn run_state(id: RunId, run: &Option<RunView>) -> (r: String)
    ensures
        r@ == run_state_text(id, *run),
{
    let mut out = "run_id=".to_string();
    out.append(text::decimal_text(id).as_str());
    match run {
        Some(v) => {
            out.append(" state=");
            out.append(
                if v.exit.is_none() {
                    "running"
                } else {
                    "exited"
                },
            );
            out.append(" exit=");
            out.append(process::exit_text(v.exit).as_str());
            out.append(" errors=");
            out.append(text::count_text(v.errors).as_str());
            out.append("\n");
            out.append(log_text(&v.logs).as_str());
        },
        None => {
            out.append(": not found\n");
        },
    }
    out
}

pub open spec fn run_states_text(runs: Seq<(RunId, Option<RunView>)>) -> Seq<char>
    decreases runs.len(),
{
    if runs.len() == 0 {
        Seq::empty()
    } else {
        run_states_text(runs.drop_last()) + run_state_text(runs.last().0, runs.last().1)
    }
}

/// The report on the addressed runs, each with its state where there is such a run.
pub fn status_reply(runs: &[(RunId, Option<RunView>)]) -> (r: ToolReply)
    ensures
        r@ == (false, if runs@.len() == 0 {
            "no runs"@
        } else {
            run_states_text(runs@)
        }),
{
    if runs.len() == 0 {
        return ToolReply { is_error: false, text: "no runs".to_string() };
    }
    let mut out = String::new();
    for i in 0..runs.len()
        invariant
            out@ == run_states_text(runs@.take(i as int)),
    {
        assert(runs@.take(i + 1).drop_last() =~= runs@.take(i as int));
        let run = &runs[i];
        out.append(run_state(run.0, &run.1).as_str());
    }
    assert(runs@.take(runs@.len() as int) =~= runs@);
    ToolReply { is_error: false, text: out }
}

pub open spec fn id_words(ids: Seq<RunId>) -> Seq<Seq<char>> {
    ids.map_values(|id: RunId| text::decimal(id as nat))
}

/// The report on the runs that were stopped.
pub fn stop_reply(killed: &[RunId]) -> (r: ToolReply)
    ensures
        r@ == (false, "stopped: ["@ + text::joined(id_words(killed@), ", "@) + "]"@),
{
    let mut ids: Vec<String> = Vec::new();
    for i in 0..killed.len()
        invariant
            ids@.len() == i,
            forall|j: int| 0 <= j < i ==> #[trigger] ids@[j]@ == text::decimal(killed@[j] as nat),
    {
        ids.push(text::decimal_text(killed[i]));
    }
    assert(text::texts(ids@) =~= id_words(killed@));
    let mut out = "stopped: [".to_string();
    out.append(text::join(&ids, ", ").as_str());
    out.append("]");
    ToolReply { is_error: false, text: out }
}

// ---- check_script -------------------------------------------------------------------------------

pub fn check_args(project: &str, script: &str) -> (r: Vec<String>)
    ensures
        text::texts(r@) == seq![
            "--headless"@,
            "--path"@,
            project@,
            "--check-only"@,
            "--script"@,
            script@,
        ],
{
    let mut out: Vec<String> = Vec::new();
    out.push("--headless".to_string());
    out.push("--path".to_string());
    out.push(project.to_string());
    out.push("--check-only".to_string());
    out.push("--script".to_string());
    out.push(script.to_string());
    assert(text::texts(out@) =~= seq![
        "--headless"@,
        "--path"@,
        project@,
        "--check-only"@,
        "--script"@,
        script@,
    ]);
    out
}

pub open spec fn check_text(script: Seq<char>, res: OneshotResult) -> Seq<char> {
    if res.is_ok() {
        "OK — "@ + script + " parsed with no errors"@
    } else {
        let errors = process::error_texts(res.lines@);
        "PARSE FAILED — "@ + script + " (exit="@ + process::exit_words(res.exit_code) + timed_note(
            res,
        ) + ")\n"@ + if errors.len() == 0 {
            "output tail:\n"@ + tail_text(res, 12)
        } else {
            "errors:\n"@ + text::indented(errors)
        }
    }
}

/// The outcome of a parse-check.
pub fn check_reply(script: &str, res: &OneshotResult) -> (r: ToolReply)
    ensures
        r@ == (!res.is_ok(), check_text(script@, *res)),
{
    if res.ok() {
        let mut out = "OK — ".to_string();
        out.append(script);
        out.append(" parsed with no errors");
        return ToolReply { is_error: false, text: out };
    }
    let mut out = "PARSE FAILED — ".to_string();
    out.append(script);
    out.append(" (exit=");
    out.append(process::exit_text(res.exit_code).as_str());
    out.append(timed(res));
    out.append(")\n");
    let lines = res.error_lines();
    let errors = text::owned(&lines);
    let mut evidence = String::new();
    if errors.len() == 0 {
        evidence.append("output tail:\n");
        evidence.append(lines_tail(res, 12).as_str());
        assert(evidence@ =~= "output tail:\n"@ + tail_text(*res, 12));
    } else {
        evidence.append("errors:\n");
        evidence.append(text::indent(&errors).as_str());
        assert(evidence@ =~= "errors:\n"@ + text::indented(text::texts(errors@)));
    }
    out.append(evidence.as_str());
    ToolReply { is_error: true, text: out }
}

// ---- run_tests ----------------------------------------------------------------------------------

/// A test command ready to be run.
pub struct TestRun {
    pub source: PlanSource,
    pub project: String,
    /// The program and its arguments.
    pub argv: Vec<String>,
}

/// The command that is used, and where it comes from: the argument, else the saved one, else the
/// detected one.
pub open spec fn plan_of(
    command: Option<Seq<Seq<char>>>,
    saved: Option<Seq<Seq<char>>>,
    convention: Option<(Seq<char>, Seq<Seq<char>>)>,
) -> Option<(Seq<char>, Seq<Seq<char>>)> {
    match command {
        Some(c) => Some(("command argument"@, c)),
        None => match saved {
            Some(c) => Some(("settings.test_command"@, c)),
            None => match convention {
                Some((what, argv)) => Some(("detected: "@ + what, argv)),
                None => None,
            },
        },
    }
}

pub open spec fn no_runner_text(project: Seq<char>) -> Seq<char> {
    "no test runner found in "@ + project
        + ". gdkit looks for addons/gdUnit4/bin/GdUnitCmdTool.gd, addons/gut/gut_cmdln.gd, or a test(s)/run_tests.gd-style script. Pass `command`, or persist one with the `config` tool."@
}

/// Choose the test command: the argument, else the saved one, else the detected one.
pub fn choose_plan(
    command: Option<Vec<String>>,
    saved: &Option<Vec<String>>,
    files: &ProjectFiles,
) -> (r: Option<TestPlan>)
    ensures
        match r {
            Some(p) => plan_of(
                settings::command_text(command),
                settings::command_text(*saved),
                files.convention(),
            ) == Some((p.source.words(), text::texts(p.argv@))),
            None => plan_of(
                settings::command_text(command),
                settings::command_text(*saved),
                files.convention(),
            ) is None,
        },
{
    if let Some(argv) = command {
        return Some(TestPlan { source: PlanSource::Argument, argv });
    }
    if let Some(argv) = saved {
        return Some(TestPlan { source: PlanSource::Settings, argv: text::copy_of(argv) });
    }
    testrun::detect(files)
}

/// What is run for a `run_tests` call: where the command comes from, the project, and the command,
/// or why there is none.
pub open spec fn tests_for(
    project: Option<Seq<char>>,
    godot: Option<Seq<char>>,
    plan: Option<(Seq<char>, Seq<Seq<char>>)>,
) -> Result<(Seq<char>, Seq<char>, Seq<Seq<char>>), (ErrorKind, Seq<char>)> {
    match project {
        None => Err((ErrorKind::InvalidParams, NO_PROJECT@)),
        Some(dir) => match plan {
            None => Err((ErrorKind::InvalidParams, no_runner_text(dir))),
            Some((source, argv)) => match settings::expanded(argv, godot, Some(dir)) {
                Err(e) => Err((ErrorKind::InvalidParams, e)),
                Ok(words) => Ok((source, dir, words)),
            },
        },
    }
}

/// Settle what a `run_tests` call runs.
pub fn prepare_tests(cfg: &Config, command: Option<Vec<String>>, files: &ProjectFiles) -> (r:
    Result<TestRun, ToolError>)
    ensures
        ({
            let want = tests_for(
                text::opt_text(cfg.project_dir),
                text::opt_text(cfg.godot_bin),
                plan_of(
                    settings::command_text(command),
                    cfg.settings@.test_command,
                    files.convention(),
                ),
            );
            match r {
                Ok(run) => {
                    &&& want == Ok::<
                        (Seq<char>, Seq<char>, Seq<Seq<char>>),
                        (ErrorKind, Seq<char>),
                    >((run.source.words(), run.project@, text::texts(run.argv@)))
                    &&& run.argv@.len() > 0
                },
                Err(e) => want == Err::<
                    (Seq<char>, Seq<char>, Seq<Seq<char>>),
                    (ErrorKind, Seq<char>),
                >(e@),
            }
        }),
{
    let project = match need_project(cfg) {
        Ok(p) => p,
        Err(e) => {
            return Err(e);
        },
    };
    let plan = match choose_plan(command, &cfg.settings.test_command, files) {
        Some(p) => p,
        None => {
            let mut e = "no test runner found in ".to_string();
            e.append(project.as_str());
            e.append(
                ". gdkit looks for addons/gdUnit4/bin/GdUnitCmdTool.gd, addons/gut/gut_cmdln.gd, or a test(s)/run_tests.gd-style script. Pass `command`, or persist one with the `config` tool.",
            );
            return Err(invalid(e));
        },
    };
    match settings::expand_command(
        &plan.argv,
        text::borrowed(&cfg.godot_bin),
        Some(project.as_str()),
    ) {
        Ok(argv) => {
            proof {
                settings::law_expansion_keeps_the_length(
                    text::texts(plan.argv@),
                    text::opt_text(cfg.godot_bin),
                    Some(project@),
                );
                assert(text::texts(argv@).len() == argv@.len());
            }
            Ok(TestRun { source: plan.source, project, argv })
        },
        Err(e) => Err(invalid(e)),
    }
}

/// The outcome of a test run.
pub fn tests_reply(run: &TestRun, res: &OneshotResult, tail: usize) -> (r: ToolReply)
    ensures
        r@ == (
            testrun::status_of(*res).is_red(),
            testrun::shaped(*res, tail as nat).report(run.source, text::texts(run.argv@)),
        ),
{
    let outcome = testrun::shape(res, tail);
    let text = outcome.render(&run.source, &run.argv);
    ToolReply { is_error: outcome.status.is_failure(), text }
}

/// An explicit command outranks a saved one, which outranks what is detected.
pub proof fn law_test_command_precedence(
    command: Seq<Seq<char>>,
    saved: Seq<Seq<char>>,
    any_saved: Option<Seq<Seq<char>>>,
    convention: Option<(Seq<char>, Seq<Seq<char>>)>,
)
    ensures
        plan_of(Some(command), any_saved, convention) == Some(("command argument"@, command)),
        plan_of(None, Some(saved), convention) == Some(("settings.test_command"@, saved)),
        plan_of(None, None, convention) is Some <==> convention is Some,
        convention is Some ==> plan_of(None, None, convention)->Some_0.1 == convention->Some_0.1,
{
}

// ---- reimport -----------------------------------------------------------------------------------

pub fn import_args(project: &str) -> (r: Vec<String>)
    ensures
        text::texts(r@) == seq!["--headless"@, "--path"@, project@, "--import"@],
{
    let mut out: Vec<String> = Vec::new();
    out.push("--headless".to_string());
    out.push("--path".to_string());
    out.push(project.to_string());
    out.push("--import".to_string());
    assert(text::texts(out@) =~= seq!["--headless"@, "--path"@, project@, "--import"@]);
    out
}

/// The file that an import rebuilds when the project declares script classes.
pub fn class_cache_path(project: &str) -> (r: String)
    ensures
        r@ == path::joined(path::joined(project@, ".godot"@), "global_script_class_cache.cfg"@),
{
    let dir = path::join(project, ".godot");
    path::join(dir.as_str(), "global_script_class_cache.cfg")
}

pub open spec fn reimport_text(project: Seq<char>, res: OneshotResult, cached: bool) -> Seq<char> {
    "reimport "@ + verdict_word(res.is_ok()) + " (exit="@ + process::exit_words(res.exit_code)
        + timed_note(res) + ")\nproject: "@ + project + "\nclass cache: "@ + (if cached {
        "rebuilt"@
    } else {
        "absent (project declares no class_name scripts)"@
    }) + "\n"@ + process::error_listing(process::error_texts(res.lines@)) + if res.is_ok() {
        ""@
    } else {
        "output tail:\n"@ + tail_text(res, 12)
    }
}

/// The outcome of an import: it fails when the engine prints errors, even if it exits zero.
pub fn reimport_reply(project: &str, res: &OneshotResult, cached: bool) -> (r: ToolReply)
    ensures
        r@ == (!res.is_ok(), reimport_text(project@, *res, cached)),
{
    let ok = res.ok();
    let mut out = "reimport ".to_string();
    out.append(verdict(ok));
    out.append(" (exit=");
    out.append(process::exit_text(res.exit_code).as_str());
    out.append(timed(res));
    out.append(")\nproject: ");
    out.append(project);
    out.append("\nclass cache: ");
    out.append(
        if cached {
            "rebuilt"
        } else {
            "absent (project declares no class_name scripts)"
        },
    );
    out.append("\n");
    let lines = res.error_lines();
    let errors = text::owned(&lines);
    out.append(process::list_errors(&errors).as_str());
    out.append(closing(ok, res, 12).as_str());
    ToolReply { is_error: !ok, text: out }
}

/// The end of a report: the output's tail where something failed.
fn closing(ok: bool, res: &OneshotResult, n: usize) -> (r: String)
    ensures
        r@ == if ok {
            ""@
        } else {
            "output tail:\n"@ + tail_text(*res, n as nat)
        },
{
    if ok {
        return "".to_string();
    }
    let mut out = "output tail:\n".to_string();
    out.append(lines_tail(res, n).as_str());
    out
}

/// An import is reported as a success exactly when the engine exits zero, in time, with everything
/// it printed inspected and no error in it.
pub proof fn law_an_import_with_errors_fails(res: OneshotResult)
    requires
        res.error_count > 0 || !res.capture_complete || res.timed_out || res.exit_code != Some(
            0i32,
        ),
    ensures
        !res.is_ok(),
{
}

// ---- export -------------------------------------------------------------------------------------

/// The answer to a call that only lists the presets.
pub fn export_list_reply(project: &str, presets: &[Preset]) -> (r: ToolReply)
    ensures
        r@ == (false, if presets@.len() == 0 {
            "no export presets in "@ + path::joined(project@, export::PRESETS_FILE@)
        } else {
            "presets: "@ + export::names_text(presets@)
        }),
{
    if presets.len() == 0 {
        let mut out = "no export presets in ".to_string();
        out.append(export::presets_path(project).as_str());
        return ToolReply { is_error: false, text: out };
    }
    let mut out = "presets: ".to_string();
    out.append(export::names(presets).as_str());
    ToolReply { is_error: false, text: out }
}

/// The export mode that a lower-case word names.
pub open spec fn mode_named(lower: Seq<char>) -> Option<ExportMode> {
    if lower == "release"@ {
        Some(ExportMode::Release)
    } else if lower == "debug"@ {
        Some(ExportMode::Debug)
    } else if lower == "pack"@ {
        Some(ExportMode::Pack)
    } else {
        None
    }
}

/// The export mode that a lower-case word names.
pub fn export_mode(lower: &str) -> (r: Option<ExportMode>)
    ensures
        r == mode_named(lower@),
{
    if text::same(lower, "release") {
        Some(ExportMode::Release)
    } else if text::same(lower, "debug") {
        Some(ExportMode::Debug)
    } else if text::same(lower, "pack") {
        Some(ExportMode::Pack)
    } else {
        None
    }
}

pub open spec fn unknown_mode_text(shown: Seq<char>) -> Seq<char> {
    "unknown export mode "@ + shown + " — use release, debug, or pack"@
}

/// The error for a word, given how it is quoted, that names no export mode.
pub fn unknown_mode(shown: &str) -> (r: ToolError)
    ensures
        r@ == (ErrorKind::InvalidParams, unknown_mode_text(shown@)),
{
    let mut e = "unknown export mode ".to_string();
    e.append(shown);
    e.append(" — use release, debug, or pack");
    invalid(e)
}

/// The word that an argument stands for: case and surrounding blanks do not matter, and `release`
/// is the default.
pub open spec fn mode_word(mode: Option<Seq<char>>) -> Seq<char> {
    text::lowered(
        text::trimmed(
            match mode {
                Some(m) => m,
                None => "release"@,
            },
        ),
    )
}

pub open spec fn mode_of(mode: Option<Seq<char>>) -> Result<ExportMode, (ErrorKind, Seq<char>)> {
    match mode_named(mode_word(mode)) {
        Some(m) => Ok(m),
        None => Err(
            (
                ErrorKind::InvalidParams,
                unknown_mode_text(text::notation(mode_word(mode))),
            ),
        ),
    }
}

/// Letter case and surrounding blanks make no difference to the mode, and an export is a release
/// unless it says otherwise.
pub proof fn law_modes(a: Seq<char>, b: Seq<char>)
    ensures
        mode_of(None) == Ok::<ExportMode, (ErrorKind, Seq<char>)>(ExportMode::Release),
        text::lowered(text::trimmed(a)) == text::lowered(text::trimmed(b)) ==> mode_of(Some(a))
            == mode_of(Some(b)),
        mode_of(Some(text::trimmed(a))) == mode_of(Some(a)),
{
    let word = "release"@;
    reveal_strlit("release");
    text::lemma_trimmed_is_fixed(word);
    assert(vstd::utf8::is_ascii_chars(word));
    assert(text::lowered(word) =~= word);
    text::lemma_trimmed_twice(a);
}

pub fn parse_mode(mode: Option<&str>) -> (r: Result<ExportMode, ToolError>)
    ensures
        match r {
            Ok(m) => mode_of(text::opt_str(mode)) == Ok::<ExportMode, (ErrorKind, Seq<char>)>(m),
            Err(e) => mode_of(text::opt_str(mode)) == Err::<ExportMode, (ErrorKind, Seq<char>)>(
                e@,
            ),
        },
{
    let given = match mode {
        Some(m) => m,
        None => "release",
    };
    let lower = text::lower(text::trim(given).as_str());
    match export_mode(lower.as_str()) {
        Some(m) => Ok(m),
        None => Err(unknown_mode(text::quote(lower.as_str()).as_str())),
    }
}

/// What an `export` call asks for.
pub struct ExportRequest {
    pub preset: Option<String>,
    pub output: Option<String>,
    pub mode: Option<String>,
}

/// An export ready to be run.
pub struct ExportJob {
    pub godot: String,
    pub project: String,
    pub preset: Preset,
    pub mode: ExportMode,
    pub output: String,
    /// The engine's arguments.
    pub args: Vec<String>,
}

/// What an export job says.
pub struct ExportJobText {
    pub godot: Seq<char>,
    pub project: Seq<char>,
    pub preset: export::PresetText,
    pub mode: ExportMode,
    pub output: Seq<char>,
    pub args: Seq<Seq<char>>,
}

impl View for ExportJob {
    type V = ExportJobText;

    open spec fn view(&self) -> ExportJobText {
        ExportJobText {
            godot: self.godot@,
            project: self.project@,
            preset: self.preset@,
            mode: self.mode,
            output: self.output@,
            args: text::texts(self.args@),
        }
    }
}

/// What is asked for, else what is saved.
pub open spec fn or_else(a: Option<Seq<char>>, b: Option<Seq<char>>) -> Option<Seq<char>> {
    match a {
        Some(v) => Some(v),
        None => b,
    }
}

/// The job that an `export` call amounts to, or why there is none. The mode is checked first, so a
/// typo in it is not masked by whatever the preset lookup says.
pub open spec fn job_for(
    project: Seq<char>,
    godot: Option<Seq<char>>,
    saved: settings::SettingsText,
    request: ExportRequest,
    presets: Seq<Preset>,
) -> Result<ExportJobText, (ErrorKind, Seq<char>)> {
    let name = or_else(text::opt_text(request.preset), saved.export_preset);
    match mode_of(text::opt_text(request.mode)) {
        Err(e) => Err(e),
        Ok(mode) => match godot {
            None => Err((ErrorKind::InvalidParams, NO_GODOT@)),
            Some(bin) => match export::chosen_preset(presets, name) {
                None => Err((ErrorKind::InvalidParams, export::choice_error(presets, name))),
                Some(i) => match export::output_text(
                    presets[i].export_path@,
                    text::opt_text(request.output),
                    saved.export_output,
                ) {
                    None => Err(
                        (
                            ErrorKind::InvalidParams,
                            "preset "@ + text::notation(presets[i].name@)
                                + " has no export_path — pass an output path"@,
                        ),
                    ),
                    Some(o) => Ok(
                        ExportJobText {
                            godot: bin,
                            project,
                            preset: presets[i]@,
                            mode,
                            output: export::output_path(project, o),
                            args: export::export_args_text(
                                project,
                                presets[i].name@,
                                export::output_path(project, o),
                                mode,
                            ),
                        },
                    ),
                },
            },
        },
    }
}

/// Settle what an `export` call runs, given the project and its presets.
pub fn prepare_export(cfg: &Config, project: &str, request: &ExportRequest, presets: &[Preset]) -> (r:
    Result<ExportJob, ToolError>)
    ensures
        ({
            let want = job_for(
                project@,
                text::opt_text(cfg.godot_bin),
                cfg.settings@,
                *request,
                presets@,
            );
            match r {
                Ok(job) => want == Ok::<ExportJobText, (ErrorKind, Seq<char>)>(job@),
                Err(e) => want == Err::<ExportJobText, (ErrorKind, Seq<char>)>(e@),
            }
        }),
{
    let mode = match parse_mode(text::borrowed(&request.mode)) {
        Ok(m) => m,
        Err(e) => {
            return Err(e);
        },
    };
    let godot = match need_godot(cfg) {
        Ok(g) => g,
        Err(e) => {
            return Err(e);
        },
    };
    let name = match text::borrowed(&request.preset) {
        Some(n) => Some(n),
        None => text::borrowed(&cfg.settings.export_preset),
    };
    let preset = match export::choose_preset(presets, name) {
        Ok(p) => p,
        Err(e) => {
            return Err(invalid(e));
        },
    };
    let output = match export::resolve_output(
        project,
        preset,
        text::borrowed(&request.output),
        text::borrowed(&cfg.settings.export_output),
    ) {
        Ok(o) => o,
        Err(e) => {
            return Err(invalid(e));
        },
    };
    let args = export::export_args(project, preset, output.as_str(), mode);
    Ok(
        ExportJob {
            godot,
            project: project.to_string(),
            preset: preset.duplicate(),
            mode,
            output,
            args,
        },
    )
}

/// Whether an export succeeded: the engine ended cleanly, and the artifact is there, is not empty
/// and is not what was there before.
pub open spec fn export_ok(
    res: OneshotResult,
    before: Option<&ArtifactStamp>,
    after: Option<&ArtifactStamp>,
) -> bool {
    res.is_ok() && export::is_fresh(before, after)
}

pub open spec fn export_text(
    shown: Seq<char>,
    mode: ExportMode,
    output: Seq<char>,
    res: OneshotResult,
    before: Option<&ArtifactStamp>,
    after: Option<&ArtifactStamp>,
) -> Seq<char> {
    "export "@ + verdict_word(export_ok(res, before, after)) + " — preset "@ + shown + " ("@
        + mode.flag_text() + ") -> "@ + output + "\nexit="@ + process::exit_words(res.exit_code)
        + timed_note(res) + ", artifact "@ + export::artifact_word(before, after) + "\n"@
        + process::error_listing(process::error_texts(res.lines@)) + if export_ok(
        res,
        before,
        after,
    ) {
        ""@
    } else {
        "output tail:\n"@ + tail_text(res, 16)
    }
}

/// The outcome of an export, given how the preset's name is quoted and the artifact's stamps from
/// before and after.
pub fn export_report(
    shown: &str,
    mode: ExportMode,
    output: &str,
    res: &OneshotResult,
    before: Option<&ArtifactStamp>,
    after: Option<&ArtifactStamp>,
) -> (r: ToolReply)
    ensures
        r@ == (
            !export_ok(*res, before, after),
            export_text(shown@, mode, output@, *res, before, after),
        ),
{
    let (fresh, word) = ArtifactStamp::verdict(before, after);
    let ok = res.ok() && fresh;
    let mut out = "export ".to_string();
    out.append(verdict(ok));
    out.append(" — preset ");
    out.append(shown);
    out.append(" (");
    out.append(mode.flag());
    out.append(") -> ");
    out.append(output);
    out.append("\nexit=");
    out.append(process::exit_text(res.exit_code).as_str());
    out.append(timed(res));
    out.append(", artifact ");
    out.append(word);
    out.append("\n");
    let lines = res.error_lines();
    let errors = text::owned(&lines);
    out.append(process::list_errors(&errors).as_str());
    out.append(closing(ok, res, 16).as_str());
    ToolReply { is_error: !ok, text: out }
}

/// The outcome of an export job.
pub fn export_reply(
    job: &ExportJob,
    res: &OneshotResult,
    before: Option<&ArtifactStamp>,
    after: Option<&ArtifactStamp>,
) -> (r: ToolReply)
    ensures
        r@ == (
            !export_ok(*res, before, after),
            export_text(
                text::notation(job.preset.name@),
                job.mode,
                job.output@,
                *res,
                before,
                after,
            ),
        ),
{
    let shown = text::quote(job.preset.name.as_str());
    export_report(shown.as_str(), job.mode, job.output.as_str(), res, before, after)
}

/// An export succeeds exactly when the engine exits zero, in time, without reported errors, and
/// leaves a nonempty file that is not the one that was there before.
pub proof fn law_when_an_export_succeeds(
    res: OneshotResult,
    before: Option<&ArtifactStamp>,
    after: Option<&ArtifactStamp>,
)
    ensures
        export_ok(res, before, after) <==> {
            &&& res.exit_code == Some(0i32)
            &&& !res.timed_out
            &&& res.capture_complete
            &&& res.error_count == 0
            &&& after is Some
            &&& after->Some_0.len > 0
            &&& before != after
        },
        before == after ==> !export_ok(res, before, after),
{
}

// ---- config -------------------------------------------------------------------------------------

/// What a `config` call asks for.
pub struct ConfigArgs {
    pub godot_bin: Option<String>,
    pub project_dir: Option<String>,
    pub test_command: Option<Vec<String>>,
    pub export_preset: Option<String>,
    pub export_output: Option<String>,
    pub clear: bool,
}

/// A setting once a value has been applied to it: an absent value leaves it alone, a blank one
/// clears it.
pub open spec fn set_text(slot: Option<Seq<char>>, value: Option<Seq<char>>) -> Option<Seq<char>> {
    match value {
        Some(v) => if text::is_blank(v) {
            None
        } else {
            Some(v)
        },
        None => slot,
    }
}

/// Apply one optional string setting; an empty string means "clear".
pub fn set_opt(slot: &mut Option<String>, value: Option<String>, changed: &mut bool)
    ensures
        text::opt_text(*final(slot)) == set_text(text::opt_text(*old(slot)), text::opt_text(value)),
        value is None ==> *final(slot) == *old(slot),
        *final(changed) == (*old(changed) || value is Some),
{
    if let Some(v) = value {
        *slot = if text::blank(v.as_str()) {
            None
        } else {
            Some(v)
        };
        *changed = true;
    }
}

pub open spec fn set_command(
    slot: Option<Seq<Seq<char>>>,
    value: Option<Seq<Seq<char>>>,
) -> Option<Seq<Seq<char>>> {
    match value {
        Some(v) => if v.len() == 0 {
            None
        } else {
            Some(v)
        },
        None => slot,
    }
}

/// The settings that a call asks for: cleared first where it says so, then each value applied.
pub open spec fn configured(
    saved: settings::SettingsText,
    args: ConfigArgs,
) -> settings::SettingsText {
    let base = if args.clear {
        settings::SettingsText::nothing()
    } else {
        saved
    };
    settings::SettingsText {
        godot_bin: set_text(base.godot_bin, text::opt_text(args.godot_bin)),
        project_dir: set_text(base.project_dir, text::opt_text(args.project_dir)),
        test_command: set_command(base.test_command, settings::command_text(args.test_command)),
        export_preset: set_text(base.export_preset, text::opt_text(args.export_preset)),
        export_output: set_text(base.export_output, text::opt_text(args.export_output)),
    }
}

/// Whether a call asks for anything to be changed.
pub open spec fn asks_for_change(args: ConfigArgs) -> bool {
    args.clear || args.godot_bin is Some || args.project_dir is Some || args.test_command is Some
        || args.export_preset is Some || args.export_output is Some
}

/// Apply a `config` call to the settings. Gives the settings and whether they are to be saved.
pub fn apply_config(saved: &Settings, args: ConfigArgs) -> (r: (Settings, bool))
    ensures
        r.0@ == configured(saved@, args),
        r.1 == asks_for_change(args),
{
    let mut changed = args.clear;
    let mut s = if args.clear {
        Settings::default()
    } else {
        saved.duplicate()
    };
    set_opt(&mut s.godot_bin, args.godot_bin, &mut changed);
    set_opt(&mut s.project_dir, args.project_dir, &mut changed);
    set_opt(&mut s.export_preset, args.export_preset, &mut changed);
    set_opt(&mut s.export_output, args.export_output, &mut changed);
    if let Some(cmd) = args.test_command {
        s.test_command = if cmd.len() == 0 {
            None
        } else {
            Some(cmd)
        };
        changed = true;
    }
    (s, changed)
}

/// Every setting follows the same rule: what is absent is left alone (or cleared along with the rest),
/// what is blank is cleared, and anything else is taken. A call without arguments changes nothing,
/// and `clear` alone wipes every setting.
pub proof fn law_config_calls(saved: settings::SettingsText, args: ConfigArgs)
    ensures
        !asks_for_change(args) ==> configured(saved, args) == saved,
        args.clear && !asks_for_change(ConfigArgs { clear: false, ..args }) ==> configured(
            saved,
            args,
        ) == settings::SettingsText::nothing(),
        follows(saved.godot_bin, args.clear, text::opt_text(args.godot_bin), configured(
            saved,
            args,
        ).godot_bin),
        follows(saved.project_dir, args.clear, text::opt_text(args.project_dir), configured(
            saved,
            args,
        ).project_dir),
        follows(saved.export_preset, args.clear, text::opt_text(args.export_preset), configured(
            saved,
            args,
        ).export_preset),
        follows(saved.export_output, args.clear, text::opt_text(args.export_output), configured(
            saved,
            args,
        ).export_output),
        args.test_command is None ==> configured(saved, args).test_command == if args.clear {
            None
        } else {
            saved.test_command
        },
        args.test_command is Some ==> configured(saved, args).test_command == if args.test_command->Some_0@.len()
            == 0 {
            None
        } else {
            settings::command_text(args.test_command)
        },
{
    if let Some(cmd) = args.test_command {
        assert(text::texts(cmd@).len() == cmd@.len());
    }
}

/// What a setting becomes, given what was saved, whether the call clears, and its value in the call.
pub open spec fn follows(
    saved: Option<Seq<char>>,
    clear: bool,
    value: Option<Seq<char>>,
    result: Option<Seq<char>>,
) -> bool {
    &&& value is None && clear ==> result is None
    &&& value is None && !clear ==> result == saved
    &&& value is Some && text::is_blank(value->Some_0) ==> result is None
    &&& value is Some && !text::is_blank(value->Some_0) ==> result == value
}

pub open spec fn shown(v: Option<Seq<char>>) -> Seq<char> {
    match v {
        Some(s) => if s.len() > 0 {
            s
        } else {
            "—"@
        },
        None => "—"@,
    }
}

/// A value as it is reported.
pub fn show(v: Option<&str>) -> (r: String)
    ensures
        r@ == shown(text::opt_str(v)),
{
    match v {
        Some(s) => if s.is_empty() {
            "—".to_string()
        } else {
            s.to_string()
        },
        None => "—".to_string(),
    }
}

pub open spec fn joined_command(v: Option<Seq<Seq<char>>>) -> Option<Seq<char>> {
    match v {
        Some(c) => Some(text::joined(c, " "@)),
        None => None,
    }
}

pub open spec fn saved_text(s: settings::SettingsText) -> Seq<char> {
    if s == settings::SettingsText::nothing() {
        "  (nothing — everything comes from discovery)\n"@
    } else {
        "  godot_bin: "@ + shown(s.godot_bin) + "\n  project_dir: "@ + shown(s.project_dir)
            + "\n  test_command: "@ + shown(joined_command(s.test_command))
            + "\n  export_preset: "@ + shown(s.export_preset) + "\n  export_output: "@ + shown(
            s.export_output,
        ) + "\n"@
    }
}

pub open spec fn runner_text(
    saved: Option<Seq<Seq<char>>>,
    convention: Option<(Seq<char>, Seq<Seq<char>>)>,
) -> Seq<char> {
    match saved {
        Some(_) => "persisted test_command"@,
        None => match convention {
            Some((what, _)) => "detected: "@ + what,
            None => "none — pass `command` to run_tests or persist one"@,
        },
    }
}

pub open spec fn config_text(cfg: Config, files: ProjectFiles) -> Seq<char> {
    "resolved:\n  godot_bin: "@ + shown(text::opt_text(cfg.godot_bin)) + "\n  project_dir: "@
        + shown(text::opt_text(cfg.project_dir)) + "\n  data_dir: "@ + cfg.data_dir@
        + "\npersisted ("@ + path::joined(cfg.data_dir@, settings::SETTINGS_FILE@) + "):\n"@
        + saved_text(cfg.settings@) + if cfg.project_dir is Some {
        "test runner: "@ + runner_text(cfg.settings@.test_command, files.convention()) + "\n"@
    } else {
        ""@
    }
}

fn saved_report(s: &Settings) -> (r: String)
    ensures
        r@ == saved_text(s@),
{
    if s.is_empty() {
        return "  (nothing — everything comes from discovery)\n".to_string();
    }
    let command = match &s.test_command {
        Some(c) => Some(text::join(c, " ")),
        None => None,
    };
    let mut out = "  godot_bin: ".to_string();
    out.append(show(text::borrowed(&s.godot_bin)).as_str());
    out.append("\n  project_dir: ");
    out.append(show(text::borrowed(&s.project_dir)).as_str());
    out.append("\n  test_command: ");
    out.append(show(text::borrowed(&command)).as_str());
    out.append("\n  export_preset: ");
    out.append(show(text::borrowed(&s.export_preset)).as_str());
    out.append("\n  export_output: ");
    out.append(show(text::borrowed(&s.export_output)).as_str());
    out.append("\n");
    out
}

fn runner_report(saved: &Option<Vec<String>>, files: &ProjectFiles) -> (r: String)
    ensures
        r@ == runner_text(settings::command_text(*saved), files.convention()),
{
    if saved.is_some() {
        return "persisted test_command".to_string();
    }
    match testrun::detect(files) {
        Some(plan) => plan.source.text(),
        None => "none — pass `command` to run_tests or persist one".to_string(),
    }
}

/// What is resolved, and from where: the answer to "why is it using that Godot?".
pub fn render_config(cfg: &Config, files: &ProjectFiles) -> (r: String)
    ensures
        r@ == config_text(*cfg, *files),
{
    let mut out = "resolved:\n  godot_bin: ".to_string();
    out.append(show(text::borrowed(&cfg.godot_bin)).as_str());
    out.append("\n  project_dir: ");
    out.append(show(text::borrowed(&cfg.project_dir)).as_str());
    out.append("\n  data_dir: ");
    out.append(cfg.data_dir.as_str());
    out.append("\npersisted (");
    out.append(settings::settings_path(cfg.data_dir.as_str()).as_str());
    out.append("):\n");
    out.append(saved_report(&cfg.settings).as_str());
    let runner = if cfg.project_dir.is_some() {
        let mut line = "test runner: ".to_string();
        line.append(runner_report(&cfg.settings.test_command, files).as_str());
        line.append("\n");
        line
    } else {
        "".to_string()
    };
    out.append(runner.as_str());
    out
}

/// The answer to a `config` call: where the settings were saved, if they were, and what is resolved.
pub fn config_reply(saved: Option<&str>, cfg: &Config, files: &ProjectFiles) -> (r: ToolReply)
    ensures
        r@ == (false, match text::opt_str(saved) {
            Some(file) => "saved "@ + file + "\n"@ + config_text(*cfg, *files),
            None => config_text(*cfg, *files),
        }),
{
    let report = render_config(cfg, files);
    match saved {
        Some(file) => {
            let mut out = "saved ".to_string();
            out.append(file);
            out.append("\n");
            out.append(report.as_str());
            ToolReply { is_error: false, text: out }
        },
        None => ToolReply { is_error: false, text: report },
    }
}

// ---- what the tools are for ----------------------------------------------------------------------

/// A ping is answered, and what came with it comes back.
pub proof fn law_a_ping_is_answered(m: Seq<char>)
    ensures
        m.len() > 0 ==> ping_text(Some(m)) == "pong: "@ + m,
        ping_text(None) == "pong"@,
        m.len() == 0 ==> ping_text(Some(m)) == "pong"@,
{
}

/// The project is always handed to a run. The scene stands in the arguments exactly when it is asked
/// for, headless or not; `--headless` stands in front of it exactly when that is asked for; extra
/// arguments come last, in order.
#[verifier::rlimit(50)]
pub proof fn law_what_a_run_is_told(
    project: Seq<char>,
    headless: bool,
    scene: Seq<char>,
    extra: Seq<Seq<char>>,
)
    ensures
        run_words(project, false, None, Seq::empty()) == seq!["--path"@, project],
        run_words(project, true, None, Seq::empty()) == seq!["--path"@, project, "--headless"@],
        run_words(project, headless, None, extra) == run_words(
            project,
            headless,
            None,
            Seq::empty(),
        ) + extra,
        run_words(project, headless, Some(scene), extra) == run_words(
            project,
            headless,
            None,
            Seq::empty(),
        ) + seq![scene] + extra,
{
    let none = Seq::<Seq<char>>::empty();
    let front = run_words(project, headless, None, none);
    assert(run_words(project, false, None, none) =~= seq!["--path"@, project]);
    assert(run_words(project, true, None, none) =~= seq!["--path"@, project, "--headless"@]);
    assert(run_words(project, headless, None, extra) =~= front + extra);
    assert(run_words(project, headless, Some(scene), extra) =~= front + seq![scene] + extra);
}

/// The answer to a run names its id and the whole command.
#[verifier::rlimit(50)]
pub proof fn law_a_started_run_is_named(run_id: RunId, headless: bool, argv: Seq<Seq<char>>)
    ensures
        text::begins(
            started_text(run_id, headless, argv),
            "started run_id="@ + text::decimal(run_id as nat) + " "@,
        ),
        text::has(started_text(run_id, headless, argv), "\nargv: "@ + text::joined(argv, " "@)),
        headless ==> text::has(started_text(run_id, headless, argv), "headless=true"@),
        !headless ==> text::has(started_text(run_id, headless, argv), "headless=false"@),
{
    let empty = Seq::<char>::empty();
    let t = started_text(run_id, headless, argv);
    let id = text::decimal(run_id as nat);
    let ran = text::joined(argv, " "@);
    let end = "\nPoll `status` for logs/exit; `stop` to kill."@;
    let word = bool_words(headless);
    reveal_strlit(" (headless=");
    reveal_strlit(" ");
    reveal_strlit("(");
    reveal_strlit("headless=");
    assert(" (headless="@ =~= " "@ + "("@ + "headless="@);
    reveal_strlit(")\nargv: ");
    reveal_strlit(")");
    reveal_strlit("\nargv: ");
    assert(")\nargv: "@ =~= ")"@ + "\nargv: "@);
    let first = "started run_id="@ + id + " "@;
    let after = "("@ + "headless="@ + word + ")\nargv: "@ + ran + end;
    assert(t =~= first + after);
    text::law_a_text_is_found_where_it_stands(empty, empty, first, after);
    let front = "started run_id="@ + id + " (headless="@ + word + ")"@;
    assert(t =~= front + ("\nargv: "@ + ran) + end);
    text::lemma_has_part(t, front, "\nargv: "@ + ran, end);
    reveal_strlit("true");
    reveal_strlit("false");
    reveal_strlit("headless=true");
    reveal_strlit("headless=false");
    assert("headless=true"@ =~= "headless="@ + "true"@);
    assert("headless=false"@ =~= "headless="@ + "false"@);
    let lead = first + "("@;
    let rest = ")\nargv: "@ + ran + end;
    assert(t =~= lead + ("headless="@ + word) + rest);
    text::lemma_has_part(t, lead, "headless="@ + word, rest);
}

/// A log is shown line by line and in order, the errors marked and no other line.
pub proof fn law_a_log_is_shown_line_by_line(a: Seq<LogLine>, b: Seq<LogLine>, line: LogLine)
    ensures
        log_words(a + b) == log_words(a) + log_words(b),
        line.is_error ==> log_words(seq![line]) == "  "@ + "[ERR] "@ + line.text@ + "\n"@,
        !line.is_error ==> log_words(seq![line]) == "  "@ + line.text@ + "\n"@,
{
    lemma_logs_in_turn(a, b);
    assert(log_words(seq![line]) =~= "  "@ + (if line.is_error {
        "[ERR] "@
    } else {
        ""@
    }) + line.text@ + "\n"@) by {
        reveal_with_fuel(log_words, 2);
        assert(seq![line].drop_last() =~= Seq::<LogLine>::empty());
    }
    reveal_strlit("");
    if !line.is_error {
        assert("  "@ + ""@ =~= "  "@);
    }
}

#[verifier::rlimit(50)]
proof fn lemma_logs_in_turn(a: Seq<LogLine>, b: Seq<LogLine>)
    ensures
        log_words(a + b) == log_words(a) + log_words(b),
    decreases b.len(),
{
    if b.len() == 0 {
        assert(a + b =~= a);
        assert(log_words(a) + log_words(b) =~= log_words(a));
    } else {
        lemma_logs_in_turn(a, b.drop_last());
        assert((a + b).drop_last() =~= a + b.drop_last());
        assert((a + b).last() == b.last());
        let mark = if b.last().is_error {
            "[ERR] "@
        } else {
            ""@
        };
        let x = log_words(a);
        let y = log_words(b.drop_last());
        assert(x + y + "  "@ + mark + b.last().text@ + "\n"@ =~= x + (y + "  "@ + mark
            + b.last().text@ + "\n"@));
    }
}

/// The state of a run: running exactly while it has no code, its code and its errors as they are, and
/// its log in full; a run that is not there is said not to be.
pub proof fn law_the_state_of_a_run(id: RunId, v: RunView)
    ensures
        v.exit is None ==> text::begins(
            run_state_text(id, Some(v)),
            "run_id="@ + text::decimal(id as nat) + " state="@ + "running"@,
        ),
        v.exit is Some ==> text::begins(
            run_state_text(id, Some(v)),
            "run_id="@ + text::decimal(id as nat) + " state="@ + "exited"@,
        ),
        text::has(
            run_state_text(id, Some(v)),
            " exit="@ + process::exit_words(v.exit) + " errors="@ + text::decimal(v.errors as nat)
                + "\n"@,
        ),
        text::finishes(run_state_text(id, Some(v)), log_words(v.logs@)),
        run_state_text(id, None) == "run_id="@ + text::decimal(id as nat) + ": not found\n"@,
{
    let empty = Seq::<char>::empty();
    let t = run_state_text(id, Some(v));
    let state = if v.exit is None {
        "running"@
    } else {
        "exited"@
    };
    let head = "run_id="@ + text::decimal(id as nat) + " state="@ + state;
    let middle = " exit="@ + process::exit_words(v.exit) + " errors="@ + text::decimal(
        v.errors as nat,
    ) + "\n"@;
    let logs = log_words(v.logs@);
    assert(t =~= head + (middle + logs));
    text::law_a_text_is_found_where_it_stands(empty, empty, head, middle + logs);
    assert(t =~= head + middle + logs);
    text::lemma_has_part(t, head, middle, logs);
    text::law_a_text_is_found_where_it_stands(empty, head + middle, logs, empty);
}

/// A status report is the states of the addressed runs, one after the other.
#[verifier::rlimit(50)]
pub proof fn law_a_status_report_goes_run_by_run(
    a: Seq<(RunId, Option<RunView>)>,
    b: Seq<(RunId, Option<RunView>)>,
    run: (RunId, Option<RunView>),
)
    ensures
        run_states_text(a + b) == run_states_text(a) + run_states_text(b),
        run_states_text(seq![run]) == run_state_text(run.0, run.1),
    decreases b.len(),
{
    reveal_with_fuel(run_states_text, 2);
    assert(seq![run].drop_last() =~= Seq::<(RunId, Option<RunView>)>::empty());
    assert(run_states_text(seq![run]) =~= run_state_text(run.0, run.1));
    if b.len() == 0 {
        assert(a + b =~= a);
        assert(run_states_text(a) + run_states_text(b) =~= run_states_text(a));
    } else {
        law_a_status_report_goes_run_by_run(a, b.drop_last(), run);
        assert((a + b).drop_last() =~= a + b.drop_last());
        assert(run_states_text(a + b) =~= run_states_text(a) + run_states_text(b));
    }
}

/// Every run that was stopped is named.
pub proof fn law_stopped_runs_are_named(ids: Seq<RunId>, i: int)
    requires
        0 <= i < ids.len(),
    ensures
        id_words(ids).len() == ids.len(),
        id_words(ids)[i] == text::decimal(ids[i] as nat),
        text::has(text::joined(id_words(ids), ", "@), text::decimal(ids[i] as nat)),
{
    text::law_every_joined_item_is_shown(id_words(ids), ", "@, i);
}

/// The lines at the end of a report are the last ones of the output, all of them where there are no
/// more.
pub proof fn law_the_tail_in_a_report(res: OneshotResult, n: nat, i: int)
    requires
        0 <= i < res.lines@.len(),
        i >= res.lines@.len() - n,
    ensures
        text::has(tail_text(res, n), "  "@ + res.lines@[i].text@ + "\n"@),
{
    let last = process::last_texts(res.lines@, n);
    let k = i - (res.lines@.len() - last.len());
    assert(last[k] == res.lines@[i].text@);
    text::law_every_indented_line_is_shown(last, k);
}

/// A script passes its check exactly when the engine exits zero, in time, with nothing wrong in its
/// output, and the answer says so; otherwise it names the script and shows every error line, or the
/// last of the output where there is no error line.
#[verifier::rlimit(50)]
pub proof fn law_the_answer_to_a_check(script: Seq<char>, res: OneshotResult, i: int)
    ensures
        res.is_ok() ==> check_text(script, res) == "OK — "@ + script + " parsed with no errors"@,
        !res.is_ok() ==> text::begins(check_text(script, res), "PARSE FAILED — "@ + script),
        !res.is_ok() ==> text::has(
            check_text(script, res),
            " (exit="@ + process::exit_words(res.exit_code),
        ),
        !res.is_ok() && 0 <= i < res.lines@.len() && res.lines@[i].is_error ==> text::has(
            check_text(script, res),
            "  "@ + res.lines@[i].text@ + "\n"@,
        ),
        !res.is_ok() && process::error_texts(res.lines@).len() == 0 && 0 <= i < res.lines@.len() && i
            >= res.lines@.len() - 12 ==> text::has(
            check_text(script, res),
            "  "@ + res.lines@[i].text@ + "\n"@,
        ),
{
    let empty = Seq::<char>::empty();
    let t = check_text(script, res);
    if !res.is_ok() {
        let errors = process::error_texts(res.lines@);
        let evidence = if errors.len() == 0 {
            "output tail:\n"@ + tail_text(res, 12)
        } else {
            "errors:\n"@ + text::indented(errors)
        };
        let head = "PARSE FAILED — "@ + script;
        let exit = " (exit="@ + process::exit_words(res.exit_code);
        let rest = timed_note(res) + ")\n"@ + evidence;
        assert(t =~= head + (exit + rest));
        text::law_a_text_is_found_where_it_stands(empty, empty, head, exit + rest);
        assert(t =~= head + exit + rest);
        text::lemma_has_part(t, head, exit, rest);
        let lead = head + exit + timed_note(res) + ")\n"@;
        if 0 <= i < res.lines@.len() && res.lines@[i].is_error {
            process::lemma_error_line_is_listed(res.lines@, i);
            let k = errors.index_of(res.lines@[i].text@);
            text::law_every_indented_line_is_shown(errors, k);
            let list = text::indented(errors);
            assert(t =~= (lead + "errors:\n"@) + list + empty);
            text::lemma_has_part(t, lead + "errors:\n"@, list, empty);
            text::lemma_has_through(t, list, "  "@ + res.lines@[i].text@ + "\n"@);
        }
        if errors.len() == 0 && 0 <= i < res.lines@.len() && i >= res.lines@.len() - 12 {
            law_the_tail_in_a_report(res, 12, i);
            let list = tail_text(res, 12);
            assert(t =~= (lead + "output tail:\n"@) + list + empty);
            text::lemma_has_part(t, lead + "output tail:\n"@, list, empty);
            text::lemma_has_through(t, list, "  "@ + res.lines@[i].text@ + "\n"@);
        }
    }
}

/// A report says that a run was cut off exactly when it was.
pub proof fn law_a_timeout_is_said(res: OneshotResult)
    ensures
        res.timed_out ==> timed_note(res) == ", timed out"@,
        !res.timed_out ==> timed_note(res).len() == 0,
        verdict_word(true) == "OK"@,
        verdict_word(false) == "FAILED"@,
{
    reveal_strlit("");
}

/// A test run needs a project. It runs the command it was handed, whatever is saved or detected; then
/// the saved one, whatever is detected; then what the project's files call for. The command is run
/// with its placeholders filled by this project and this binary.
pub proof fn law_which_tests_are_run(
    dir: Seq<char>,
    godot: Option<Seq<char>>,
    command: Seq<Seq<char>>,
    saved: Option<Seq<Seq<char>>>,
    detected: Option<(Seq<char>, Seq<Seq<char>>)>,
)
    ensures
        ({
            let run = |plan: Option<(Seq<char>, Seq<Seq<char>>)>| tests_for(Some(dir), godot, plan);
            let words = settings::expanded(command, godot, Some(dir));
            &&& tests_for(None, godot, plan_of(Some(command), saved, detected)) is Err
            &&& words is Ok ==> run(plan_of(Some(command), saved, detected)) == Ok::<
                (Seq<char>, Seq<char>, Seq<Seq<char>>),
                (ErrorKind, Seq<char>),
            >(("command argument"@, dir, words->Ok_0))
            &&& words is Err ==> run(plan_of(Some(command), saved, detected)) == Err::<
                (Seq<char>, Seq<char>, Seq<Seq<char>>),
                (ErrorKind, Seq<char>),
            >((ErrorKind::InvalidParams, words->Err_0))
            &&& words is Ok ==> run(plan_of(None, Some(command), detected)) == Ok::<
                (Seq<char>, Seq<char>, Seq<Seq<char>>),
                (ErrorKind, Seq<char>),
            >(("settings.test_command"@, dir, words->Ok_0))
            &&& detected == Some((detected->Some_0.0, command)) && words is Ok ==> run(
                plan_of(None, None, detected),
            ) == Ok::<(Seq<char>, Seq<char>, Seq<Seq<char>>), (ErrorKind, Seq<char>)>(
                ("detected: "@ + detected->Some_0.0, dir, words->Ok_0),
            )
            &&& run(plan_of(None, None, None)) == Err::<
                (Seq<char>, Seq<char>, Seq<Seq<char>>),
                (ErrorKind, Seq<char>),
            >((ErrorKind::InvalidParams, no_runner_text(dir)))
        }),
        text::has(no_runner_text(dir), dir),
{
    let t = no_runner_text(dir);
    let rest =
        ". gdkit looks for addons/gdUnit4/bin/GdUnitCmdTool.gd, addons/gut/gut_cmdln.gd, or a test(s)/run_tests.gd-style script. Pass `command`, or persist one with the `config` tool."@;
    text::lemma_has_part(t, "no test runner found in "@, dir, rest);
}

/// The answer to an import: OK exactly when the engine exits zero, in time, without an error; it names
/// the code and the project, and says whether the class cache was rebuilt.
pub proof fn law_the_answer_to_an_import(project: Seq<char>, res: OneshotResult, cached: bool)
    ensures
        ({
            let t = reimport_text(project, res, cached);
            &&& res.is_ok() ==> text::begins(t, "reimport "@ + "OK"@)
            &&& !res.is_ok() ==> text::begins(t, "reimport "@ + "FAILED"@)
            &&& text::has(t, " (exit="@ + process::exit_words(res.exit_code) + timed_note(res))
            &&& text::has(t, ")\nproject: "@ + project)
            &&& cached ==> text::has(t, "\nclass cache: "@ + "rebuilt"@)
            &&& !cached ==> text::has(
                t,
                "\nclass cache: "@ + "absent (project declares no class_name scripts)"@,
            )
        }),
{
    let t = reimport_text(project, res, cached);
    let listing = process::error_listing(process::error_texts(res.lines@));
    let cache = if cached {
        "rebuilt"@
    } else {
        "absent (project declares no class_name scripts)"@
    };
    let closing = if res.is_ok() {
        ""@
    } else {
        "output tail:\n"@ + tail_text(res, 12)
    };
    let p1 = "reimport "@ + verdict_word(res.is_ok());
    let code = process::exit_words(res.exit_code);
    let note = timed_note(res);
    let p2 = " (exit="@ + code + note;
    let p3 = ")\nproject: "@ + project;
    let p4 = "\nclass cache: "@ + cache;
    let p5 = "\n"@ + listing + closing;
    text::lemma_put_together(p1, " (exit="@, code);
    text::lemma_put_together(p1, " (exit="@ + code, note);
    let q2 = p1 + p2;
    text::lemma_put_together(q2, ")\nproject: "@, project);
    let q3 = q2 + p3;
    text::lemma_put_together(q3, "\nclass cache: "@, cache);
    let q4 = q3 + p4;
    text::lemma_put_together(q4, "\n"@, listing);
    text::lemma_put_together(q4, "\n"@ + listing, closing);
    assert(t == q4 + p5);
    text::lemma_has_parts(p1, p2, p3, p4, p5);
}

/// The evidence in the answer to an import: the first errors, and the end of the output where it
/// failed.
pub proof fn law_the_evidence_on_an_import(
    project: Seq<char>,
    res: OneshotResult,
    cached: bool,
    i: int,
)
    ensures
        ({
            let t = reimport_text(project, res, cached);
            let errors = process::error_texts(res.lines@);
            &&& 0 <= i < errors.len() && i < 40 ==> text::has(t, "  "@ + errors[i] + "\n"@)
            &&& !res.is_ok() && 0 <= i < res.lines@.len() && i >= res.lines@.len() - 12 ==> text::has(
                t,
                "  "@ + res.lines@[i].text@ + "\n"@,
            )
        }),
{
    let empty = Seq::<char>::empty();
    let t = reimport_text(project, res, cached);
    let errors = process::error_texts(res.lines@);
    let listing = process::error_listing(errors);
    let closing = if res.is_ok() {
        ""@
    } else {
        "output tail:\n"@ + tail_text(res, 12)
    };
    let head = "reimport "@ + verdict_word(res.is_ok()) + " (exit="@ + process::exit_words(
        res.exit_code,
    ) + timed_note(res) + ")\nproject: "@ + project + "\nclass cache: "@ + (if cached {
        "rebuilt"@
    } else {
        "absent (project declares no class_name scripts)"@
    }) + "\n"@;
    assert(t == head + listing + closing);
    if 0 <= i < errors.len() && i < 40 {
        process::law_errors_are_listed(errors, i);
        text::lemma_has_part(t, head, listing, closing);
        text::lemma_has_through(t, listing, "  "@ + errors[i] + "\n"@);
    }
    if !res.is_ok() && 0 <= i < res.lines@.len() && i >= res.lines@.len() - 12 {
        law_the_tail_in_a_report(res, 12, i);
        let front = head + listing + "output tail:\n"@;
        assert(t =~= front + tail_text(res, 12) + empty);
        text::lemma_has_part(t, front, tail_text(res, 12), empty);
        text::lemma_has_through(t, tail_text(res, 12), "  "@ + res.lines@[i].text@ + "\n"@);
    }
}

/// Each mode has its word, in any case and between blanks; any other word is an error that quotes it.
pub proof fn law_the_words_for_the_modes(m: Seq<char>)
    ensures
        ({
            let word = text::lowered(text::trimmed(m));
            &&& word == "release"@ ==> mode_of(Some(m)) == Ok::<ExportMode, (ErrorKind, Seq<char>)>(
                ExportMode::Release,
            )
            &&& word == "debug"@ ==> mode_of(Some(m)) == Ok::<ExportMode, (ErrorKind, Seq<char>)>(
                ExportMode::Debug,
            )
            &&& word == "pack"@ ==> mode_of(Some(m)) == Ok::<ExportMode, (ErrorKind, Seq<char>)>(
                ExportMode::Pack,
            )
            &&& word != "release"@ && word != "debug"@ && word != "pack"@ ==> mode_of(Some(m)) is Err
                && mode_of(Some(m))->Err_0.0 == ErrorKind::InvalidParams && text::has(
                mode_of(Some(m))->Err_0.1,
                text::notation(word),
            )
        }),
{
    reveal_strlit("release");
    reveal_strlit("debug");
    reveal_strlit("pack");
    assert("release"@.len() == 7 && "debug"@.len() == 5 && "pack"@.len() == 4);
    let word = text::lowered(text::trimmed(m));
    let shown = text::notation(word);
    text::lemma_has_part(
        unknown_mode_text(shown),
        "unknown export mode "@,
        shown,
        " — use release, debug, or pack"@,
    );
}

/// A job exports the preset that the call names, whatever is saved; the saved one where the call names
/// none; the only one where nothing is named. It is run with the configured binary in this project, in
/// the mode that was asked for, and the engine is told that preset's name and that output.
pub proof fn law_what_is_exported(
    project: Seq<char>,
    godot: Option<Seq<char>>,
    saved: settings::SettingsText,
    request: ExportRequest,
    presets: Seq<Preset>,
)
    ensures
        job_for(project, godot, saved, request, presets) matches Ok(job) ==> {
            &&& request.preset is Some ==> job.preset.name == request.preset->Some_0@
            &&& request.preset is None && saved.export_preset is Some ==> job.preset.name
                == saved.export_preset->Some_0
            &&& request.preset is None && saved.export_preset is None ==> presets.len() == 1
                && job.preset == presets[0]@
            &&& exists|i: int| 0 <= i < presets.len() && job.preset == (#[trigger] presets[i])@
            &&& godot == Some(job.godot)
            &&& job.project == project
            &&& mode_of(text::opt_text(request.mode)) == Ok::<ExportMode, (ErrorKind, Seq<char>)>(
                job.mode,
            )
            &&& job.args.len() == 6
            &&& job.args[2] == project
            &&& job.mode == ExportMode::Release ==> job.args[3] == "--export-release"@
            &&& job.mode == ExportMode::Debug ==> job.args[3] == "--export-debug"@
            &&& job.mode == ExportMode::Pack ==> job.args[3] == "--export-pack"@
            &&& job.args[4] == job.preset.name
            &&& job.args[5] == job.output
        },
{
    let name = or_else(text::opt_text(request.preset), saved.export_preset);
    if name is Some {
        export::law_the_chosen_preset(presets, name->Some_0);
    }
    if job_for(project, godot, saved, request, presets) is Ok {
        let job = job_for(project, godot, saved, request, presets)->Ok_0;
        let i = export::chosen_preset(presets, name)->Some_0;
        assert(0 <= i < presets.len() && job.preset == presets[i]@);
        export::law_what_the_engine_is_told(project, job.preset.name, job.output, job.mode);
    }
}

/// A job writes to the output that the call names, whatever is saved; the saved one where the call
/// names none; the preset's own where nothing is named.
pub proof fn law_where_it_is_exported_to(
    project: Seq<char>,
    godot: Option<Seq<char>>,
    saved: settings::SettingsText,
    request: ExportRequest,
    presets: Seq<Preset>,
    o: Seq<char>,
)
    requires
        !text::is_blank(o),
    ensures
        job_for(project, godot, saved, request, presets) matches Ok(job) ==> {
            let unasked = request.output is None || text::is_blank(request.output->Some_0@);
            let unsaved = saved.export_output is None || text::is_blank(
                saved.export_output->Some_0,
            );
            let at = if path::is_absolute(o) {
                o
            } else {
                path::joined(project, o)
            };
            &&& text::opt_text(request.output) == Some(o) ==> job.output == at
            &&& unasked && saved.export_output == Some(o) ==> job.output == at
            &&& unasked && unsaved && job.preset.export_path == o ==> job.output == at
        },
{
}

/// An export is refused for what is wrong with it: an unknown mode first, then a missing binary, then
/// a preset that is not there or not named, then a missing output. Where nothing is wrong there is a
/// job.
pub proof fn law_when_there_is_a_job(
    project: Seq<char>,
    godot: Option<Seq<char>>,
    saved: settings::SettingsText,
    request: ExportRequest,
    presets: Seq<Preset>,
    i: int,
)
    requires
        0 <= i < presets.len(),
        forall|j: int| 0 <= j < i ==> (#[trigger] presets[j]).name@ != presets[i].name@,
    ensures
        ({
            let got = job_for(project, godot, saved, request, presets);
            let mode = mode_of(text::opt_text(request.mode));
            let asked = text::opt_text(request.preset);
            &&& mode is Err ==> got == Err::<ExportJobText, (ErrorKind, Seq<char>)>(mode->Err_0)
            &&& mode is Ok && godot is None ==> got == Err::<ExportJobText, (ErrorKind, Seq<char>)>(
                (ErrorKind::InvalidParams, NO_GODOT@),
            )
            &&& mode is Ok && godot is Some && asked == Some(presets[i].name@) && !text::is_blank(
                presets[i].export_path@,
            ) ==> got is Ok && got->Ok_0.preset == presets[i]@
            &&& asked is Some && (forall|j: int|
                0 <= j < presets.len() ==> (#[trigger] presets[j]).name@ != asked->Some_0)
                ==> got is Err
            &&& asked is None && saved.export_preset is None && presets.len() > 1 ==> got is Err
        }),
{
    export::law_which_preset_is_chosen(presets, i);
    if request.preset is Some {
        export::law_the_chosen_preset(presets, request.preset->Some_0@);
    }
    export::law_the_chosen_preset(presets, presets[i].name@);
}

/// The answer to an export: OK exactly when it succeeded; it names the preset, the mode's flag, the
/// output and the code, says what became of the artifact, and shows the errors and, on failure, the
/// end of the output.
#[verifier::rlimit(50)]
pub proof fn law_the_answer_to_an_export(
    shown: Seq<char>,
    mode: ExportMode,
    output: Seq<char>,
    res: OneshotResult,
    before: Option<&ArtifactStamp>,
    after: Option<&ArtifactStamp>,
)
    ensures
        ({
            let t = export_text(shown, mode, output, res, before, after);
            let ok = export_ok(res, before, after);
            &&& ok ==> text::begins(t, "export "@ + "OK"@ + " — preset "@ + shown)
            &&& !ok ==> text::begins(t, "export "@ + "FAILED"@ + " — preset "@ + shown)
            &&& text::has(t, " ("@ + mode.flag_text() + ") -> "@ + output)
            &&& text::has(t, "\nexit="@ + process::exit_words(res.exit_code) + timed_note(res))
            &&& text::has(t, ", artifact "@ + export::artifact_word(before, after) + "\n"@)
        }),
{
    let ok = export_ok(res, before, after);
    let listing = process::error_listing(process::error_texts(res.lines@));
    let closing = if ok {
        ""@
    } else {
        "output tail:\n"@ + tail_text(res, 16)
    };
    let p1 = "export "@ + verdict_word(ok) + " — preset "@ + shown;
    let flag = mode.flag_text();
    let p2 = " ("@ + flag + ") -> "@ + output;
    let q1 = p1 + " ("@ + flag + ") -> "@ + output;
    assert(q1 =~= p1 + p2);
    let exit = process::exit_words(res.exit_code);
    let p3 = "\nexit="@ + exit + timed_note(res);
    let q2 = q1 + "\nexit="@ + exit + timed_note(res);
    assert(q2 =~= q1 + p3);
    let word = export::artifact_word(before, after);
    let p4 = ", artifact "@ + word + "\n"@;
    let q3 = q2 + ", artifact "@ + word + "\n"@;
    assert(q3 =~= q2 + p4);
    assert(export_text(shown, mode, output, res, before, after) == q3 + listing + closing);
    assert(q3 + listing + closing =~= q3 + (listing + closing));
    text::lemma_has_parts(p1, p2, p3, p4, listing + closing);
}

/// The evidence in the answer to an export: the first errors, and the end of the output where it
/// failed.
pub proof fn law_the_evidence_on_an_export(
    shown: Seq<char>,
    mode: ExportMode,
    output: Seq<char>,
    res: OneshotResult,
    before: Option<&ArtifactStamp>,
    after: Option<&ArtifactStamp>,
    i: int,
)
    ensures
        ({
            let t = export_text(shown, mode, output, res, before, after);
            let errors = process::error_texts(res.lines@);
            &&& 0 <= i < errors.len() && i < 40 ==> text::has(t, "  "@ + errors[i] + "\n"@)
            &&& !export_ok(res, before, after) && 0 <= i < res.lines@.len() && i >= res.lines@.len()
                - 16 ==> text::has(t, "  "@ + res.lines@[i].text@ + "\n"@)
        }),
{
    let empty = Seq::<char>::empty();
    let t = export_text(shown, mode, output, res, before, after);
    let ok = export_ok(res, before, after);
    let errors = process::error_texts(res.lines@);
    let listing = process::error_listing(errors);
    let closing = if ok {
        ""@
    } else {
        "output tail:\n"@ + tail_text(res, 16)
    };
    let head = "export "@ + verdict_word(ok) + " — preset "@ + shown + " ("@ + mode.flag_text()
        + ") -> "@ + output + "\nexit="@ + process::exit_words(res.exit_code) + timed_note(res)
        + ", artifact "@ + export::artifact_word(before, after) + "\n"@;
    assert(t == head + listing + closing);
    if 0 <= i < errors.len() && i < 40 {
        process::law_errors_are_listed(errors, i);
        text::lemma_has_part(t, head, listing, closing);
        text::lemma_has_through(t, listing, "  "@ + errors[i] + "\n"@);
    }
    if !ok && 0 <= i < res.lines@.len() && i >= res.lines@.len() - 16 {
        law_the_tail_in_a_report(res, 16, i);
        let front = head + listing + "output tail:\n"@;
        assert(t =~= front + tail_text(res, 16) + empty);
        text::lemma_has_part(t, front, tail_text(res, 16), empty);
        text::lemma_has_through(t, tail_text(res, 16), "  "@ + res.lines@[i].text@ + "\n"@);
    }
}

/// A saved value is what later calls find: what is not blank is taken as it is, what is blank is
/// cleared, and setting one value leaves the others.
pub proof fn law_a_setting_is_saved_for_itself(saved: settings::SettingsText, args: ConfigArgs)
    ensures
        ({
            let now = configured(saved, args);
            &&& !args.clear && args.godot_bin is None ==> now.godot_bin == saved.godot_bin
            &&& !args.clear && args.project_dir is None ==> now.project_dir == saved.project_dir
            &&& !args.clear && args.test_command is None ==> now.test_command == saved.test_command
            &&& !args.clear && args.export_preset is None ==> now.export_preset
                == saved.export_preset
            &&& !args.clear && args.export_output is None ==> now.export_output
                == saved.export_output
            &&& args.godot_bin is Some && !text::is_blank(args.godot_bin->Some_0@) ==> now.godot_bin
                == Some(args.godot_bin->Some_0@)
            &&& args.project_dir is Some && !text::is_blank(args.project_dir->Some_0@)
                ==> now.project_dir == Some(args.project_dir->Some_0@)
            &&& args.export_preset is Some && !text::is_blank(args.export_preset->Some_0@)
                ==> now.export_preset == Some(args.export_preset->Some_0@)
            &&& args.export_output is Some && !text::is_blank(args.export_output->Some_0@)
                ==> now.export_output == Some(args.export_output->Some_0@)
        }),
        asks_for_change(args) <==> args.clear || args.godot_bin is Some || args.project_dir is Some
            || args.test_command is Some || args.export_preset is Some || args.export_output is Some,
{
}

/// A value is shown as it is, and one that is missing or empty by a dash.
pub proof fn law_how_a_value_is_shown(v: Seq<char>)
    ensures
        v.len() > 0 ==> shown(Some(v)) == v,
        shown(None) == "—"@,
        v.len() == 0 ==> shown(Some(v)) == "—"@,
{
}

/// The report on the configuration names what is resolved, each under its own label.
#[verifier::rlimit(50)]
pub proof fn law_what_the_configuration_report_resolves(cfg: Config, files: ProjectFiles)
    ensures
        ({
            let t = config_text(cfg, files);
            &&& text::begins(
                t,
                "resolved:\n  godot_bin: "@ + shown(text::opt_text(cfg.godot_bin))
                    + "\n  project_dir: "@ + shown(text::opt_text(cfg.project_dir))
                    + "\n  data_dir: "@ + cfg.data_dir@,
            )
            &&& text::has(t, saved_text(cfg.settings@))
            &&& cfg.project_dir is Some ==> text::finishes(
                t,
                "test runner: "@ + runner_text(cfg.settings@.test_command, files.convention())
                    + "\n"@,
            )
            &&& cfg.project_dir is None ==> text::finishes(t, saved_text(cfg.settings@))
        }),
{
    let empty = Seq::<char>::empty();
    let t = config_text(cfg, files);
    let head = "resolved:\n  godot_bin: "@ + shown(text::opt_text(cfg.godot_bin))
        + "\n  project_dir: "@ + shown(text::opt_text(cfg.project_dir)) + "\n  data_dir: "@
        + cfg.data_dir@;
    let middle = "\npersisted ("@ + path::joined(cfg.data_dir@, settings::SETTINGS_FILE@)
        + "):\n"@;
    let saved = saved_text(cfg.settings@);
    let runner = "test runner: "@ + runner_text(cfg.settings@.test_command, files.convention())
        + "\n"@;
    let end = if cfg.project_dir is Some {
        runner
    } else {
        ""@
    };
    reveal_strlit("");
    assert(t =~= head + (middle + saved + end));
    text::law_a_text_is_found_where_it_stands(empty, empty, head, middle + saved + end);
    assert(t =~= (head + middle) + saved + end);
    text::lemma_has_part(t, head + middle, saved, end);
    text::law_a_text_is_found_where_it_stands(empty, head + middle + saved, runner, empty);
    text::law_a_text_is_found_where_it_stands(empty, head + middle, saved, empty);
    if cfg.project_dir is None {
        assert(t =~= head + middle + saved);
    } else {
        assert(t =~= head + middle + saved + runner);
    }
}

/// The report on the saved settings shows each of them under its own label, or says that there is
/// none.
#[verifier::rlimit(50)]
pub proof fn law_what_the_configuration_report_saves(s: settings::SettingsText)
    ensures
        ({
            let t = saved_text(s);
            let some = s.godot_bin is Some || s.project_dir is Some || s.test_command is Some
                || s.export_preset is Some || s.export_output is Some;
            &&& some ==> text::has(t, "  godot_bin: "@ + shown(s.godot_bin) + "\n  project_dir: "@
                + shown(s.project_dir))
            &&& some ==> text::has(t, "\n  test_command: "@ + shown(joined_command(s.test_command)))
            &&& some ==> text::has(t, "\n  export_preset: "@ + shown(s.export_preset))
            &&& some ==> text::has(t, "\n  export_output: "@ + shown(s.export_output))
            &&& s.test_command is Some ==> joined_command(s.test_command) == Some(
                text::joined(s.test_command->Some_0, " "@),
            )
            &&& !some ==> t == "  (nothing — everything comes from discovery)\n"@
        }),
{
    let t = saved_text(s);
    let empty = Seq::<char>::empty();
    if s != settings::SettingsText::nothing() {
        let p1 = "  godot_bin: "@ + shown(s.godot_bin) + "\n  project_dir: "@ + shown(s.project_dir);
        let p2 = "\n  test_command: "@ + shown(joined_command(s.test_command));
        let p3 = "\n  export_preset: "@ + shown(s.export_preset);
        let p4 = "\n  export_output: "@ + shown(s.export_output);
        let end = "\n"@;
        assert(t =~= empty + p1 + (p2 + p3 + p4 + end));
        text::lemma_has_part(t, empty, p1, p2 + p3 + p4 + end);
        assert(t =~= p1 + p2 + (p3 + p4 + end));
        text::lemma_has_part(t, p1, p2, p3 + p4 + end);
        assert(t =~= (p1 + p2) + p3 + (p4 + end));
        text::lemma_has_part(t, p1 + p2, p3, p4 + end);
        assert(t =~= (p1 + p2 + p3) + p4 + end);
        text::lemma_has_part(t, p1 + p2 + p3, p4, end);
    }
}

/// The test runner that is reported is the one a test run would use.
pub proof fn law_the_reported_runner_is_the_one_that_runs(
    saved: Option<Seq<Seq<char>>>,
    detected: Option<(Seq<char>, Seq<Seq<char>>)>,
)
    ensures
        saved is Some ==> runner_text(saved, detected) == "persisted test_command"@,
        saved is None && detected is Some ==> runner_text(saved, detected) == plan_of(
            None,
            None,
            detected,
        )->Some_0.0 && text::finishes(runner_text(saved, detected), detected->Some_0.0),
        saved is None && detected is None ==> text::begins(runner_text(saved, detected), "none"@),
{
    let empty = Seq::<char>::empty();
    if detected is Some {
        text::law_a_text_is_found_where_it_stands(
            empty,
            "detected: "@,
            detected->Some_0.0,
            empty,
        );
    }
    reveal_strlit("none — pass `command` to run_tests or persist one");
    reveal_strlit("none");
    assert("none — pass `command` to run_tests or persist one"@.subrange(0, 4) =~= "none"@);
}

} // verus!
