use gdkit::config::Config;
use gdkit::export::{parse_presets, ArtifactMeta, ArtifactStamp, ExportMode};
use gdkit::process::{LogLine, OneshotResult};
use gdkit::server::{
    apply_config, check_args, check_reply, class_cache_path, config_reply, export_list_reply,
    export_reply, import_args, need_godot, need_project, parse_mode, ping, prepare_export,
    prepare_tests, reimport_reply, render_config, run_args, run_reply, set_opt, show, status_reply,
    stop_reply, tests_reply, ConfigArgs, ErrorKind, ExportRequest, RunView,
};
use gdkit::session::Session;
use gdkit::settings::Settings;
use gdkit::storage::{scratch_path, Attempt, Creation, ScratchDir};
use gdkit::testrun::{PlanSource, ProjectFiles};

fn no_files() -> ProjectFiles {
    ProjectFiles { dirs: vec![], files: vec![] }
}

fn result(exit: Option<i32>, lines: &[(&str, bool)]) -> OneshotResult {
    OneshotResult {
        exit_code: exit,
        timed_out: false,
        error_count: lines.iter().filter(|(_, e)| *e).count(),
        capture_complete: true,
        lines: lines
            .iter()
            .map(|(t, e)| LogLine { text: t.to_string(), is_error: *e })
            .collect(),
    }
}

fn cfg() -> Config {
    Config {
        godot_bin: Some("D:/godot.exe".to_string()),
        project_dir: Some("D:/game".to_string()),
        data_dir: "D:/data".to_string(),
        settings: Settings::default(),
    }
}

#[test]
fn export_modes_parse_and_default_to_release() {
    assert_eq!(parse_mode(None).unwrap(), ExportMode::Release);
    assert_eq!(parse_mode(Some(" Debug ")).unwrap(), ExportMode::Debug);
    assert_eq!(parse_mode(Some("pack")).unwrap(), ExportMode::Pack);
    let err = parse_mode(Some("sideways")).unwrap_err();
    assert!(format!("{err:?}").contains("sideways"));
}

#[test]
fn an_empty_value_clears_a_setting() {
    let mut slot = Some("old".to_string());
    let mut changed = false;

    set_opt(&mut slot, None, &mut changed);
    assert_eq!(slot.as_deref(), Some("old"), "absent means leave alone");
    assert!(!changed);

    set_opt(&mut slot, Some("new".into()), &mut changed);
    assert_eq!(slot.as_deref(), Some("new"));
    assert!(changed);

    set_opt(&mut slot, Some("   ".into()), &mut changed);
    assert_eq!(slot, None, "a blank value clears");
}

#[test]
fn missing_godot_and_project_produce_actionable_errors() {
    let cfg = Config::default();
    let err = format!("{:?}", need_godot(&cfg).unwrap_err());
    assert!(err.contains("GODOT_BIN"), "{err}");
    let err = format!("{:?}", need_project(&cfg).unwrap_err());
    assert!(err.contains("CLAUDE_PROJECT_DIR"), "{err}");
}

#[test]
fn config_report_names_the_settings_file_and_flags_pure_discovery() {
    let cfg = Config {
        godot_bin: Some("D:/godot.exe".to_string()),
        project_dir: None,
        data_dir: "D:/data".to_string(),
        settings: Settings::default(),
    };
    let out = render_config(&cfg, &no_files());
    assert!(out.contains("D:/godot.exe"), "{out}");
    assert!(out.contains("settings.json"), "{out}");
    assert!(out.contains("everything comes from discovery"), "{out}");
    // No project resolved, so there is nothing to say about a test runner.
    assert!(!out.contains("test runner:"), "{out}");
}

#[test]
fn a_mode_in_other_letters_is_quoted_in_lower_case() {
    let err = parse_mode(Some(" SIDE\u{c9}\"ways ")).unwrap_err();
    assert_eq!(err.kind, ErrorKind::InvalidParams);
    assert_eq!(
        err.message,
        "unknown export mode \"side\u{e9}\\\"ways\" — use release, debug, or pack"
    );
}

#[test]
fn ping_echoes_a_message() {
    assert_eq!(ping(None).text, "pong");
    assert_eq!(ping(Some("")).text, "pong");
    assert_eq!(ping(Some("hi")).text, "pong: hi");
}

#[test]
fn a_run_is_worded() {
    let args = run_args("D:/game", true, Some("res://a.tscn"), &["--quit".to_string()]);
    assert_eq!(args, ["--path", "D:/game", "--headless", "res://a.tscn", "--quit"]);
    assert_eq!(run_args("D:/game", false, None, &[]), ["--path", "D:/game"]);
    let reply = run_reply(3, true, &["godot.exe".to_string(), "--path".to_string()]);
    assert_eq!(
        reply.text,
        "started run_id=3 (headless=true)\nargv: godot.exe --path\nPoll `status` for logs/exit; `stop` to kill."
    );
}

#[test]
fn status_reports_each_run() {
    assert_eq!(status_reply(&[]).text, "no runs");
    let running = RunView {
        exit: None,
        errors: 1,
        logs: vec![
            LogLine { text: "hello".to_string(), is_error: false },
            LogLine { text: "ERROR: x".to_string(), is_error: true },
        ],
    };
    let exited = RunView { exit: Some(0), errors: 0, logs: vec![] };
    let reply = status_reply(&[(1, Some(running)), (2, Some(exited)), (9, None)]);
    assert!(!reply.is_error);
    assert_eq!(
        reply.text,
        "run_id=1 state=running exit=None errors=1\n  hello\n  [ERR] ERROR: x\n\
         run_id=2 state=exited exit=Some(0) errors=0\nrun_id=9: not found\n"
    );
}

#[test]
fn stop_lists_what_was_stopped() {
    assert_eq!(stop_reply(&[]).text, "stopped: []");
    assert_eq!(stop_reply(&[1, 12]).text, "stopped: [1, 12]");
}

#[test]
fn run_ids_are_never_reused() {
    let mut session: Session<&str> = Session::new();
    let a = session.reserve();
    session.enter(a, "a");
    let failed = session.reserve();
    let b = session.reserve();
    session.enter(b, "b");
    assert_eq!((a, failed, b), (1, 2, 3));
    assert_eq!(session.ids(), [1, 3]);
    assert_eq!(session.addressed(Some(7)), [7]);
    assert_eq!(session.take(Some(7)), []);
    assert_eq!(session.take(Some(1)), [(1, "a")]);
    let c = session.reserve();
    session.enter(c, "c");
    assert_eq!(c, 4);
    assert_eq!(session.take(None), [(3, "b"), (4, "c")]);
    assert!(session.ids().is_empty());
    assert_eq!(session.reserve(), 5);
}

#[test]
fn a_parse_check_is_worded() {
    assert_eq!(
        check_args("D:/game", "res://a.gd"),
        ["--headless", "--path", "D:/game", "--check-only", "--script", "res://a.gd"]
    );
    let ok = check_reply("res://a.gd", &result(Some(0), &[("fine", false)]));
    assert_eq!((ok.is_error, ok.text.as_str()), (false, "OK — res://a.gd parsed with no errors"));
    let bad = check_reply("a.gd", &result(Some(0), &[("Parse Error: x", true), ("y", false)]));
    assert_eq!(
        (bad.is_error, bad.text.as_str()),
        (true, "PARSE FAILED — a.gd (exit=Some(0))\nerrors:\n  Parse Error: x\n")
    );
    let mut hung = result(None, &[("y", false)]);
    hung.timed_out = true;
    assert_eq!(
        check_reply("a.gd", &hung).text,
        "PARSE FAILED — a.gd (exit=None, timed out)\noutput tail:\n  y\n"
    );
}

#[test]
fn an_explicit_test_command_outranks_saved_and_detected() {
    let files =
        ProjectFiles { dirs: vec![], files: vec!["tests/run_tests.gd".to_string()] };
    let mut c = cfg();
    c.settings.test_command = Some(vec!["saved".to_string()]);
    let run = prepare_tests(&c, Some(vec!["godot".to_string()]), &files).ok().unwrap();
    assert_eq!(run.source, PlanSource::Argument);
    assert_eq!(run.argv, ["D:/godot.exe"]);
    let run = prepare_tests(&c, None, &files).ok().unwrap();
    assert_eq!(run.source, PlanSource::Settings);
    assert_eq!(run.argv, ["saved"]);
    c.settings.test_command = None;
    let run = prepare_tests(&c, None, &files).ok().unwrap();
    assert_eq!(run.source, PlanSource::Detected("script harness"));
    assert_eq!(
        run.argv,
        ["D:/godot.exe", "--headless", "--path", "D:/game", "--script", "res://tests/run_tests.gd"]
    );
}

#[test]
fn a_test_run_that_cannot_be_set_up_says_why() {
    let e = prepare_tests(&Config::default(), None, &no_files()).err().unwrap();
    assert!(e.message.starts_with("no Godot project found"));
    let e = prepare_tests(&cfg(), None, &no_files()).err().unwrap();
    assert_eq!(e.kind, ErrorKind::InvalidParams);
    assert!(e.message.starts_with("no test runner found in D:/game. gdkit looks for "));
    let e = prepare_tests(&cfg(), Some(vec![]), &no_files()).err().unwrap();
    assert_eq!(e.message, "test_command is empty");
    let mut c = cfg();
    c.godot_bin = None;
    let e = prepare_tests(&c, Some(vec!["{godot}".to_string()]), &no_files()).err().unwrap();
    assert!(e.message.contains("{godot}"));
}

#[test]
fn a_failing_suite_is_a_tool_error() {
    let run = prepare_tests(&cfg(), Some(vec!["t".to_string()]), &no_files()).ok().unwrap();
    assert!(tests_reply(&run, &result(Some(1), &[]), 40).is_error);
    let reply = tests_reply(&run, &result(Some(0), &[("ERROR: x", true)]), 40);
    assert!(!reply.is_error);
    assert!(reply.text.starts_with("PASSED (with engine errors) (exit=Some(0))"));
}

#[test]
fn an_import_that_prints_errors_fails_even_if_it_exits_zero() {
    assert_eq!(import_args("D:/game"), ["--headless", "--path", "D:/game", "--import"]);
    assert_eq!(
        class_cache_path("D:/game"),
        "D:/game\\.godot\\global_script_class_cache.cfg"
    );
    let ok = reimport_reply("D:/game", &result(Some(0), &[("done", false)]), true);
    assert_eq!(
        (ok.is_error, ok.text.as_str()),
        (false, "reimport OK (exit=Some(0))\nproject: D:/game\nclass cache: rebuilt\n")
    );
    let bad = reimport_reply("D:/game", &result(Some(0), &[("ERROR: x", true)]), false);
    assert_eq!(
        (bad.is_error, bad.text.as_str()),
        (
            true,
            "reimport FAILED (exit=Some(0))\nproject: D:/game\nclass cache: absent (project \
             declares no class_name scripts)\nerrors (1):\n  ERROR: x\noutput tail:\n  ERROR: x\n"
        )
    );
}

const PRESETS: &str = "[preset.0]\nname=\"Win\"\nexport_path=\"out/g.exe\"\n[preset.1]\nname=\"Web\"\n";

fn request(preset: Option<&str>, mode: Option<&str>) -> ExportRequest {
    ExportRequest {
        preset: preset.map(str::to_string),
        output: None,
        mode: mode.map(str::to_string),
    }
}

#[test]
fn an_export_is_set_up_from_request_and_settings() {
    let presets = parse_presets(PRESETS);
    let job = prepare_export(&cfg(), "D:/game", &request(Some("Win"), None), &presets).ok().unwrap();
    assert_eq!(job.output, "D:/game\\out/g.exe");
    assert_eq!(
        job.args,
        ["--headless", "--path", "D:/game", "--export-release", "Win", "D:/game\\out/g.exe"]
    );
    let mut c = cfg();
    c.settings.export_preset = Some("Web".to_string());
    c.settings.export_output = Some("E:/web.zip".to_string());
    let job = prepare_export(&c, "D:/game", &request(None, Some("PACK")), &presets).ok().unwrap();
    assert_eq!(job.preset.name, "Web");
    assert_eq!(job.output, "E:/web.zip");
    assert_eq!(job.mode, ExportMode::Pack);
}

#[test]
fn an_export_that_cannot_be_set_up_says_why() {
    let presets = parse_presets(PRESETS);
    let fail = |c: &Config, r: ExportRequest| {
        prepare_export(c, "D:/game", &r, &presets).err().unwrap().message
    };
    // A typo in the mode is not masked by what comes after it.
    assert!(fail(&Config::default(), request(None, Some("x"))).contains("unknown export mode"));
    assert!(fail(&Config::default(), request(None, None)).contains("no Godot binary"));
    assert!(fail(&cfg(), request(None, None)).contains("several export presets"));
    assert!(fail(&cfg(), request(Some("Web"), None)).contains("\"Web\" has no export_path"));
}

#[test]
fn presets_are_listed() {
    assert_eq!(
        export_list_reply("D:/game", &[]).text,
        "no export presets in D:/game\\export_presets.cfg"
    );
    let text = export_list_reply("D:/game", &parse_presets(PRESETS)).text;
    assert!(text.starts_with("presets: \"Win\""), "{text}");
}

fn stamp(len: u64, modified: i128) -> Option<ArtifactStamp> {
    ArtifactStamp::read(ArtifactMeta::File { len, modified: Ok(modified), created: Some(1) })
        .ok()
        .unwrap()
}

#[test]
fn an_unchanged_build_cannot_satisfy_an_export() {
    let presets = parse_presets(PRESETS);
    let job = prepare_export(&cfg(), "D:/game", &request(Some("Win"), None), &presets).ok().unwrap();
    let clean = result(Some(0), &[("done", false)]);
    let old_build = stamp(5, 1);
    let new_build = stamp(6, 2);
    let reply = export_reply(&job, &clean, old_build.as_ref(), new_build.as_ref());
    assert_eq!(
        (reply.is_error, reply.text.as_str()),
        (
            false,
            "export OK — preset \"Win\" (--export-release) -> D:/game\\out/g.exe\nexit=Some(0), \
             artifact created or updated\n"
        )
    );
    let reply = export_reply(&job, &clean, old_build.as_ref(), stamp(5, 1).as_ref());
    assert_eq!(
        (reply.is_error, reply.text.as_str()),
        (
            true,
            "export FAILED — preset \"Win\" (--export-release) -> D:/game\\out/g.exe\nexit=Some(0), \
             artifact UNCHANGED from before this export\noutput tail:\n  done\n"
        )
    );
    assert!(export_reply(&job, &clean, None, None).is_error);
    let noisy = result(Some(0), &[("ERROR: x", true)]);
    assert!(export_reply(&job, &noisy, None, new_build.as_ref()).is_error);
}

fn config_args() -> ConfigArgs {
    ConfigArgs {
        godot_bin: None,
        project_dir: None,
        test_command: None,
        export_preset: None,
        export_output: None,
        clear: false,
    }
}

#[test]
fn a_config_call_changes_what_it_names() {
    let saved = Settings {
        godot_bin: Some("g".to_string()),
        test_command: Some(vec!["t".to_string()]),
        ..Default::default()
    };
    let (same, changed) = apply_config(&saved, config_args());
    assert!(!changed);
    assert_eq!(same, saved);
    let (next, changed) = apply_config(
        &saved,
        ConfigArgs {
            godot_bin: Some(" ".to_string()),
            export_preset: Some("Win".to_string()),
            test_command: Some(vec![]),
            ..config_args()
        },
    );
    assert!(changed);
    assert_eq!(next, Settings { export_preset: Some("Win".to_string()), ..Default::default() });
    let (wiped, changed) = apply_config(&saved, ConfigArgs { clear: true, ..config_args() });
    assert!(changed && wiped.is_empty());
    let (kept, _) = apply_config(
        &saved,
        ConfigArgs { clear: true, project_dir: Some("p".to_string()), ..config_args() },
    );
    assert_eq!(kept, Settings { project_dir: Some("p".to_string()), ..Default::default() });
}

#[test]
fn the_config_report_is_exact() {
    let mut c = cfg();
    c.settings.test_command = Some(vec!["a".to_string(), "b".to_string()]);
    let reply = config_reply(Some("D:/data/settings.json"), &c, &no_files());
    assert_eq!(
        reply.text,
        "saved D:/data/settings.json\nresolved:\n  godot_bin: D:/godot.exe\n  project_dir: D:/game\n  \
         data_dir: D:/data\npersisted (D:/data\\settings.json):\n  godot_bin: —\n  project_dir: —\n  \
         test_command: a b\n  export_preset: —\n  export_output: —\ntest runner: persisted test_command\n"
    );
    let reply = config_reply(None, &cfg(), &no_files());
    assert!(reply.text.starts_with("resolved:\n"));
    assert!(reply.text.ends_with(
        "(nothing — everything comes from discovery)\ntest runner: none — pass `command` to run_tests or persist one\n"
    ));
    assert_eq!(show(Some("")), "—");
    assert_eq!(show(None), "—");
}

#[test]
fn scratch_names_are_tried_a_bounded_number_of_times() {
    assert_eq!(scratch_path("D:/data", 42, 7), "D:/data\\.gdkit-tmp-42-7");
    let at = |tried, outcome| ScratchDir::new("D:/data/x".to_string(), tried, outcome);
    match at(0, Creation::Created) {
        Attempt::Done(dir) => assert_eq!(dir.path(), "D:/data/x"),
        _ => panic!("a created directory is used"),
    }
    assert!(matches!(at(0, Creation::AlreadyExists), Attempt::Again));
    assert!(matches!(at(98, Creation::AlreadyExists), Attempt::Again));
    match at(99, Creation::AlreadyExists) {
        Attempt::GivenUp(e) => assert_eq!(e, "cannot allocate temporary storage"),
        _ => panic!("the attempts are used up"),
    }
    match at(0, Creation::Failed("denied".to_string())) {
        Attempt::GivenUp(e) => assert_eq!(e, "denied"),
        _ => panic!("another error is final"),
    }
}
