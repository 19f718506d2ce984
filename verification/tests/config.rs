use gdkit::config::{
    best_name, common_godot_dirs, discover_godot, first_existing_file, first_project_dir,
    godot_overrides, project_candidates, which_on_path, Config, Facts, Found, Probe, Seen,
};
use gdkit::settings::Settings;

fn settings_with(godot: Option<&str>, project: Option<&str>) -> Settings {
    Settings {
        godot_bin: godot.map(str::to_string),
        project_dir: project.map(str::to_string),
        ..Default::default()
    }
}

fn probe(path: &str, present: bool) -> Probe {
    Probe { path: path.to_string(), present, absolute: Some(path.to_string()) }
}

fn strings(v: &[&str]) -> Vec<String> {
    v.iter().map(|s| s.to_string()).collect()
}

#[test]
fn the_env_override_outranks_the_settings_file() {
    let s = settings_with(Some("D:/from-settings.exe"), None);
    let c = godot_overrides(Some("D:/from-env.exe"), &s);
    assert_eq!(c, strings(&["D:/from-env.exe", "D:/from-settings.exe"]));
}

#[test]
fn a_blank_override_is_ignored() {
    let s = settings_with(Some("  "), None);
    assert!(godot_overrides(Some(""), &s).is_empty());
}

#[test]
fn project_precedence_is_env_then_settings_then_host_then_cwd() {
    let s = settings_with(None, Some("D:/settings-proj"));
    let c = project_candidates(
        Some("D:/env-proj"),
        &s,
        Some("D:/host-proj"),
        Some("D:/cwd".to_string()),
    );
    assert_eq!(
        c,
        strings(&["D:/env-proj", "D:/settings-proj", "D:/host-proj", "D:/cwd"])
    );
}

#[test]
fn a_blank_project_value_is_passed_over_and_the_cwd_stays_last() {
    let s = settings_with(None, Some("   "));
    let c = project_candidates(None, &s, Some("D:/host"), Some("D:/cwd".to_string()));
    assert_eq!(c, strings(&["D:/host", "D:/cwd"]));
    assert!(project_candidates(None, &s, None, None).is_empty());
}

#[test]
fn only_a_directory_holding_project_godot_is_picked() {
    let picked = first_project_dir(&[probe("D:/empty", false), probe("D:/real", true)]);
    assert_eq!(picked.as_deref(), Some("D:/real"));
    assert_eq!(first_project_dir(&[probe("D:/empty", false)]), None);
}

#[test]
fn a_missing_binary_override_falls_through_instead_of_being_used() {
    let (picked, warnings) =
        first_existing_file(&[probe("D:/missing.exe", false), probe("D:/godot-stub.exe", true)]);
    assert_eq!(picked.as_deref(), Some("D:/godot-stub.exe"));
    assert_eq!(
        warnings,
        strings(&["configured Godot binary is not a file: D:/missing.exe"])
    );
    let (none, warnings) = first_existing_file(&[probe("D:/nope.exe", false)]);
    assert_eq!(none, None);
    assert_eq!(warnings.len(), 1);
}

#[test]
fn relative_discovery_is_anchored_before_a_child_changes_directory() {
    let relative = Probe {
        path: "game".to_string(),
        present: true,
        absolute: Some("D:/work/game".to_string()),
    };
    assert_eq!(first_project_dir(&[relative]).as_deref(), Some("D:/work/game"));
    let engine = Probe {
        path: "game/engine.exe".to_string(),
        present: true,
        absolute: Some("D:/work/game/engine.exe".to_string()),
    };
    assert_eq!(
        first_existing_file(&[engine]).0.as_deref(),
        Some("D:/work/game/engine.exe")
    );
}

#[test]
fn the_path_is_searched_for_the_exe_first() {
    assert_eq!(
        which_on_path(&strings(&["C:/a", "C:/b"])),
        strings(&["C:/a\\godot.exe", "C:/b\\godot.exe", "C:/a\\godot", "C:/b\\godot"])
    );
}

fn found(name: &str) -> Found {
    Found { path: format!("C:/Users/me/Downloads/{name}"), name: name.to_string() }
}

#[test]
fn a_console_build_is_preferred_then_the_latest_name() {
    let entries = [
        found("Godot_v4.6_win64_console.exe"),
        found("Godot_v4.7.1_win64.exe"),
        found("GODOT_v4.5_win64_Console.exe"),
        found("notes.txt"),
        found("Godot_v4.7.1_win64.zip"),
    ];
    assert_eq!(
        discover_godot(&[], &entries).as_deref(),
        Some("C:/Users/me/Downloads/Godot_v4.6_win64_console.exe")
    );
    assert_eq!(
        discover_godot(&[], &[found("godot_v4.6.exe"), found("godot_v4.7.exe")]).as_deref(),
        Some("C:/Users/me/Downloads/godot_v4.7.exe")
    );
    assert_eq!(discover_godot(&[], &[found("notes.txt")]), None);
}

#[test]
fn what_is_on_the_path_outranks_install_locations() {
    let on_path = [probe("C:/a/godot.exe", false), probe("C:/a/godot", true)];
    assert_eq!(
        discover_godot(&on_path, &[found("godot_console.exe")]).as_deref(),
        Some("C:/a/godot")
    );
}

#[test]
fn of_two_equal_names_the_last_is_picked() {
    assert_eq!(best_name(&strings(&["godot.exe", "godot.exe"])), Some(1));
    assert_eq!(best_name(&strings(&["godot.exe", "other.exe"])), Some(0));
    assert_eq!(best_name(&[]), None);
}

#[test]
fn install_locations_follow_the_environment() {
    let dirs = common_godot_dirs(
        Some("C:/Users/me".to_string()),
        Some("C:/Program Files".to_string()),
        None,
        Some("C:/Local".to_string()),
    );
    assert_eq!(
        dirs,
        strings(&[
            "C:/Users/me\\Desktop",
            "C:/Users/me\\Downloads",
            "C:/Program Files\\Godot",
            "C:/Program Files",
            "C:/Local\\Godot",
            "C:/Local",
        ])
    );
    assert!(common_godot_dirs(None, None, None, None).is_empty());
}

fn seen(path: &str) -> Seen {
    Seen { path: path.to_string(), absolute: Some(format!("abs:{path}")) }
}

fn facts(env_godot: Option<&str>, files: &[&str], projects: &[&str]) -> Facts {
    Facts {
        env_godot: env_godot.map(str::to_string),
        env_project: None,
        env_claude: None,
        cwd: Some("D:/cwd".to_string()),
        files: files.iter().map(|p| seen(p)).collect(),
        discovered: Some("C:/godot.exe".to_string()),
        projects: projects.iter().map(|p| seen(p)).collect(),
        data_dir: Some("D:/abs/data".to_string()),
    }
}

#[test]
fn an_override_that_exists_wins_over_discovery() {
    let saved = || settings_with(Some("D:/saved.exe"), Some("D:/game"));
    let resolve = |f: Facts| Config::from_settings("data".to_string(), saved(), f);

    let (cfg, warnings) =
        resolve(facts(Some("D:/env.exe"), &["D:/env.exe", "D:/saved.exe"], &["D:/game"]));
    assert_eq!(cfg.godot_bin.as_deref(), Some("abs:D:/env.exe"));
    assert_eq!(cfg.project_dir.as_deref(), Some("abs:D:/game"));
    assert_eq!(cfg.data_dir, "D:/abs/data");
    assert!(warnings.is_empty());

    let (cfg, warnings) = resolve(facts(Some("D:/gone.exe"), &["D:/saved.exe"], &["D:/cwd"]));
    assert_eq!(cfg.godot_bin.as_deref(), Some("abs:D:/saved.exe"));
    assert_eq!(cfg.project_dir.as_deref(), Some("abs:D:/cwd"));
    assert_eq!(warnings.len(), 1);

    let (cfg, warnings) = resolve(facts(None, &[], &[]));
    assert_eq!(cfg.godot_bin.as_deref(), Some("C:/godot.exe"));
    assert_eq!(cfg.project_dir, None);
    assert_eq!(warnings, strings(&["configured Godot binary is not a file: D:/saved.exe"]));
    assert_eq!(cfg.settings, saved());
}

#[test]
fn the_data_dir_stays_as_it_is_where_it_has_no_absolute_form() {
    let mut f = facts(None, &[], &[]);
    f.data_dir = None;
    let (cfg, _) = Config::from_settings("data".to_string(), Settings::default(), f);
    assert_eq!(cfg.data_dir, "data");
}

#[test]
fn the_summary_warns_of_what_was_not_found() {
    let notices = Config::default().log_summary();
    assert!(notices[0].warn && notices[0].text.contains("GODOT_BIN"));
    assert!(notices[1].warn && notices[1].text.contains("GODOT_PROJECT"));
    assert!(!notices[2].warn);
    let cfg = Config {
        godot_bin: Some("D:/godot.exe".to_string()),
        project_dir: Some("D:/game".to_string()),
        data_dir: "D:/data".to_string(),
        settings: Settings::default(),
    };
    let texts: Vec<String> = cfg.log_summary().into_iter().map(|n| n.text).collect();
    assert_eq!(
        texts,
        strings(&["godot binary: D:/godot.exe", "project dir: D:/game", "data dir: D:/data"])
    );
}
