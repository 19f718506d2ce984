use gdkit::settings::{
    choose_data_dir, expand_command, resolve_data_dir, settings_path, Settings, SettingsFile,
};

fn env_from(pairs: &[(&str, &str)]) -> impl Fn(&str) -> Option<String> {
    let owned: Vec<(String, String)> =
        pairs.iter().map(|(k, v)| (k.to_string(), v.to_string())).collect();
    move |k: &str| owned.iter().find(|(key, _)| key == k).map(|(_, v)| v.clone())
}

#[test]
fn data_dir_prefers_the_test_override() {
    let dir = resolve_data_dir(env_from(&[
        ("GDKIT_DATA_DIR", "D:/override"),
        ("CLAUDE_PLUGIN_DATA", "D:/plugin"),
        ("LOCALAPPDATA", "D:/appdata"),
    ]));
    assert_eq!(dir, "D:/override");
}

#[test]
fn data_dir_uses_the_plugin_data_dir_when_hosted() {
    let dir = resolve_data_dir(env_from(&[
        ("CLAUDE_PLUGIN_DATA", "D:/plugin"),
        ("LOCALAPPDATA", "D:/appdata"),
    ]));
    assert_eq!(dir, "D:/plugin");
}

#[test]
fn data_dir_falls_back_to_the_per_user_dir() {
    let dir = resolve_data_dir(env_from(&[("LOCALAPPDATA", "D:/appdata")]));
    assert_eq!(dir, "D:/appdata\\gdkit");

    let dir = resolve_data_dir(env_from(&[("HOME", "/home/dev")]));
    // Both slashes separate the parts of a path.
    assert_eq!(dir.replace('\\', "/"), "/home/dev/.local/share/gdkit");
}

#[test]
fn blank_env_values_are_ignored() {
    let dir = resolve_data_dir(env_from(&[
        ("GDKIT_DATA_DIR", "   "),
        ("LOCALAPPDATA", "D:/appdata"),
    ]));
    assert_eq!(dir, "D:/appdata\\gdkit");
}

#[test]
fn nothing_is_asked_for_once_the_data_dir_is_known() {
    let seen = |set: &str| {
        let keys = std::cell::RefCell::new(Vec::new());
        let _ = resolve_data_dir(|k: &str| {
            keys.borrow_mut().push(k.to_string());
            if k == set {
                Some("x".to_string())
            } else {
                None
            }
        });
        keys.into_inner()
    };
    assert_eq!(seen("GDKIT_DATA_DIR"), ["GDKIT_DATA_DIR"]);
    assert_eq!(seen("LOCALAPPDATA").len(), 3);
    assert_eq!(seen("XDG_DATA_HOME").last().unwrap(), "XDG_DATA_HOME");
    assert_eq!(seen("").last().unwrap(), "HOME");
}

#[test]
fn data_dir_ends_in_the_current_directory() {
    assert_eq!(resolve_data_dir(env_from(&[])), ".gdkit");
    assert_eq!(
        choose_data_dir(None, None, None, Some("/data".to_string()), Some("/home".to_string())),
        "/data\\gdkit"
    );
}

#[test]
fn what_was_read_is_loaded_and_a_missing_file_is_no_error() {
    // A missing file is not an error.
    let (loaded, warning) = Settings::load("D:/data", SettingsFile::Missing);
    assert!(loaded.is_empty());
    assert_eq!(warning, None);

    let s = Settings {
        godot_bin: Some("D:/godot/godot.exe".into()),
        test_command: Some(vec!["godot".into(), "-s".into(), "res://tests/run.gd".into()]),
        ..Default::default()
    };
    assert!(!s.is_empty());
    assert_eq!(s.duplicate(), s);
    let (loaded, warning) = Settings::load("D:/data", SettingsFile::Read(s.duplicate()));
    assert_eq!(loaded, s);
    assert_eq!(warning, None);
    assert_eq!(settings_path("D:/data"), "D:/data\\settings.json");
}

#[test]
fn malformed_settings_degrade_to_defaults() {
    let (loaded, warning) = Settings::load(
        "D:/data",
        SettingsFile::Malformed("key must be a string".to_string()),
    );
    assert!(loaded.is_empty());
    assert_eq!(
        warning.as_deref(),
        Some("settings malformed at D:/data\\settings.json (key must be a string) — using defaults")
    );
}

#[test]
fn unreadable_settings_degrade_to_defaults() {
    let (loaded, warning) =
        Settings::load("D:/data", SettingsFile::Unreadable("access denied".to_string()));
    assert!(loaded.is_empty());
    assert_eq!(
        warning.as_deref(),
        Some("settings unreadable at D:/data\\settings.json: access denied")
    );
}

#[test]
fn any_override_makes_settings_nonempty() {
    assert!(Settings::default().is_empty());
    let one = |f: fn(&mut Settings)| {
        let mut s = Settings::default();
        f(&mut s);
        s.is_empty()
    };
    assert!(!one(|s| s.godot_bin = Some("g".into())));
    assert!(!one(|s| s.project_dir = Some("p".into())));
    assert!(!one(|s| s.test_command = Some(vec![])));
    assert!(!one(|s| s.export_preset = Some("e".into())));
    assert!(!one(|s| s.export_output = Some("o".into())));
}

#[test]
fn expand_fills_both_placeholders() {
    let cmd = vec![
        "godot".to_string(),
        "--path".to_string(),
        "{project}".to_string(),
        "-s".to_string(),
        "res://tests/run.gd".to_string(),
    ];
    let out = expand_command(&cmd, Some("D:/godot/godot.exe"), Some("D:/game")).unwrap();
    assert_eq!(out[0], "D:/godot/godot.exe");
    assert_eq!(out[2], "D:/game");
}

#[test]
fn expand_leaves_an_external_runner_alone() {
    let cmd = vec!["./addons/gut/runtest.cmd".to_string(), "-gexit".to_string()];
    let out = expand_command(&cmd, None, None).unwrap();
    assert_eq!(out, cmd);
}

#[test]
fn expand_reports_the_missing_placeholder() {
    let cmd = vec!["godot".to_string(), "{project}".to_string()];
    let err = expand_command(&cmd, None, Some("D:/game")).unwrap_err();
    assert!(err.contains("{godot}"), "got: {err}");

    let err = expand_command(&cmd, Some("g.exe"), None).unwrap_err();
    assert!(err.contains("{project}"), "got: {err}");

    assert!(expand_command(&[], None, None).is_err());
}

#[test]
fn a_bare_godot_counts_in_program_position_only_and_in_any_case() {
    let cmd = vec!["GoDot".to_string(), "godot".to_string()];
    let out = expand_command(&cmd, Some("g.exe"), None).unwrap();
    assert_eq!(out, vec!["g.exe".to_string(), "godot".to_string()]);
    let cmd = vec!["run".to_string(), "--bin={godot}:{godot}".to_string()];
    let out = expand_command(&cmd, Some("g"), None).unwrap();
    assert_eq!(out[1], "--bin=g:g");
    assert_eq!(expand_command(&[], Some("g"), None).unwrap_err(), "test_command is empty");
}
