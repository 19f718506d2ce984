use gdkit::export::{
    choose_preset, export_args, names, parse_presets, presets_path, read_presets, resolve_output,
    unquote, ArtifactMeta, ArtifactStamp, ExportMode, Preset, PresetsFile,
};

const SAMPLE: &str = r#"[preset.0]

name="Windows Desktop"
platform="Windows Desktop"
runnable=true
advanced_options=false
export_filter="all_resources"
export_path="builds/win/game.exe"
encryption_include_filters=""

[preset.0.options]

custom_template/debug=""
binary_format/embed_pck=false

[preset.1]

name="Linux"
platform="Linux"
runnable=false
export_path="builds/linux/game.x86_64"

[preset.1.options]

binary_format/architecture="x86_64"
"#;

#[test]
fn parses_presets_and_skips_option_sections() {
    let presets = parse_presets(SAMPLE);
    assert_eq!(presets.len(), 2, "{presets:?}");
    assert_eq!(presets[0].name, "Windows Desktop");
    assert_eq!(presets[0].platform, "Windows Desktop");
    assert_eq!(presets[0].export_path, "builds/win/game.exe");
    assert!(presets[0].runnable);
    assert_eq!(presets[1].name, "Linux");
    assert!(!presets[1].runnable);
    // A key that only exists inside [preset.N.options] must never leak into the preset.
    assert!(!presets[0].export_path.contains("x86_64"));
}

#[test]
fn ignores_a_nameless_section() {
    let presets = parse_presets("[preset.0]\nplatform=\"Web\"\n");
    assert!(presets.is_empty());
}

#[test]
fn unquotes_escapes() {
    assert_eq!(unquote(r#""a\"b""#), "a\"b");
    assert_eq!(unquote("true"), "true");
    assert_eq!(unquote(r#""C:\\games""#), r"C:\games");
}

#[test]
fn a_quoted_value_is_read_back() {
    assert_eq!(unquote(r#""\\\"""#), r#"\""#);
    assert_eq!(unquote(r#""a\\\\b""#), r"a\\b");
    assert_eq!(unquote("\""), "\"");
    assert_eq!(unquote("\"\""), "");
}

#[test]
fn keys_in_options_comments_and_lines_without_a_section_change_nothing() {
    let raw = "name=\"stray\"\r\n[preset.0]\r\n; name=\"commented\"\r\nname = \"Web\"\r\nnovalue\r\n\
               [preset.0.options]\r\nname=\"leaked\"\r\n";
    let presets = parse_presets(raw);
    assert_eq!(presets.len(), 1);
    assert_eq!(presets[0].name, "Web");
    assert!(!presets[0].runnable);
}

#[test]
fn missing_presets_file_is_empty_not_an_error() {
    assert_eq!(read_presets("D:/game", PresetsFile::NotFound).unwrap(), Vec::new());
}

#[test]
fn an_unreadable_presets_file_is_an_error() {
    let err = read_presets("D:/game", PresetsFile::Failed { error: "denied".to_string() }).unwrap_err();
    assert_eq!(err, "cannot read D:/game\\export_presets.cfg: denied");
    let read = read_presets("D:/game", PresetsFile::Text { raw: SAMPLE.to_string() }).unwrap();
    assert_eq!(read.len(), 2);
    assert_eq!(presets_path("D:/game"), "D:/game\\export_presets.cfg");
}

#[test]
fn choose_takes_the_only_preset_but_not_one_of_two() {
    let presets = parse_presets(SAMPLE);
    assert_eq!(choose_preset(&presets, Some("Linux")).unwrap().name, "Linux");

    let err = choose_preset(&presets, None).unwrap_err();
    assert!(err.contains("Windows Desktop") && err.contains("Linux"), "{err}");

    let one = vec![presets[0].clone()];
    assert_eq!(choose_preset(&one, None).unwrap().name, "Windows Desktop");

    let err = choose_preset(&presets, Some("Mac")).unwrap_err();
    assert!(err.contains("Available:"), "{err}");

    assert!(choose_preset(&[], None).unwrap_err().contains("no export presets"));
}

#[test]
fn a_missing_preset_is_quoted_with_its_escapes() {
    let presets = parse_presets(SAMPLE);
    let err = choose_preset(&presets, Some("a\"b\n")).unwrap_err();
    assert!(err.starts_with("no preset named \"a\\\"b\\n\". Available: "), "{err}");
    assert!(names(&presets).contains("\"Windows Desktop\""));
}

#[test]
fn output_precedence_is_request_then_setting_then_preset() {
    let project = "D:/game";
    let preset = &parse_presets(SAMPLE)[0];

    let p = resolve_output(project, preset, Some("out/a.exe"), Some("out/b.exe")).unwrap();
    assert_eq!(p, "D:/game\\out/a.exe");

    let p = resolve_output(project, preset, None, Some("out/b.exe")).unwrap();
    assert_eq!(p, "D:/game\\out/b.exe");

    let p = resolve_output(project, preset, None, None).unwrap();
    assert_eq!(p, "D:/game\\builds/win/game.exe");

    // Blank strings are treated as absent, not as a valid path.
    let p = resolve_output(project, preset, Some("  "), None).unwrap();
    assert_eq!(p, "D:/game\\builds/win/game.exe");
}

#[test]
fn options_never_reach_a_preset() {
    let with = |options: &str| {
        parse_presets(&format!(
            "[preset.0]\nname=\"A\"\n[preset.0.options]\n{options}\n[preset.1]\nname=\"B\"\n"
        ))
    };
    let plain = with("x=1");
    assert_eq!(plain.len(), 2);
    assert_eq!(plain[0].name, "A");
    assert_eq!(with("name=\"C\"\nexport_path=\"c.exe\"\nrunnable=true"), plain);
}

#[test]
fn a_relative_output_is_joined_with_a_backslash() {
    let preset = &parse_presets(SAMPLE)[0];
    let at = |project| resolve_output(project, preset, Some("out/a.exe"), None).unwrap();
    assert_eq!(at("D:\\game"), "D:\\game\\out/a.exe");
    assert_eq!(at("D:\\game\\"), "D:\\game\\out/a.exe");
    assert_eq!(at("D:/game/"), "D:/game/out/a.exe");
    assert_eq!(at("D:"), "D:out/a.exe");
}

#[test]
fn an_absolute_output_is_left_alone() {
    let preset = &parse_presets(SAMPLE)[0];
    let p = resolve_output("D:/game", preset, Some("C:/out/g.exe"), None).unwrap();
    assert_eq!(p, "C:/out/g.exe");
}

#[test]
fn a_preset_without_an_export_path_needs_one_passed() {
    let preset = Preset {
        name: "Web".into(),
        platform: "Web".into(),
        export_path: String::new(),
        runnable: false,
    };
    let err = resolve_output("D:/game", &preset, None, None).unwrap_err();
    assert!(err.contains("no export_path"), "{err}");
}

#[test]
fn export_args_carry_the_mode_flag_and_preset_name() {
    let preset = &parse_presets(SAMPLE)[0];
    let args = export_args("D:/game", preset, "D:/game/builds/win/game.exe", ExportMode::Debug);
    assert_eq!(args[0], "--headless");
    assert!(args.contains(&"--export-debug".to_string()));
    assert!(args.contains(&"Windows Desktop".to_string()));
    assert_eq!(ExportMode::Pack.flag(), "--export-pack");
    assert_eq!(ExportMode::Release.flag(), "--export-release");
}

fn file(len: u64, modified: i128) -> ArtifactStamp {
    let meta = ArtifactMeta::File { len, modified: Ok(modified), created: None };
    match ArtifactStamp::read(meta) {
        Ok(Some(stamp)) => stamp,
        _ => panic!("a regular file has a stamp"),
    }
}

#[test]
fn only_a_new_nonempty_artifact_counts() {
    let a = file(10, 1);
    let again = file(10, 1);
    let touched = file(10, 2);
    let empty = file(0, 3);
    assert_eq!(ArtifactStamp::verdict(None, Some(&a)), (true, "created or updated"));
    assert_eq!(ArtifactStamp::verdict(Some(&a), Some(&touched)), (true, "created or updated"));
    assert_eq!(
        ArtifactStamp::verdict(Some(&a), Some(&again)),
        (false, "UNCHANGED from before this export")
    );
    assert_eq!(ArtifactStamp::verdict(Some(&a), Some(&empty)), (false, "EMPTY"));
    assert_eq!(ArtifactStamp::verdict(Some(&a), None), (false, "MISSING"));
}

#[test]
fn an_artifact_that_cannot_be_examined_is_an_error() {
    assert!(matches!(ArtifactStamp::read(ArtifactMeta::NotFound), Ok(None)));
    let other = ArtifactStamp::read(ArtifactMeta::Other).err().unwrap();
    assert_eq!(other, "export output is not a regular file");
    let denied = ArtifactMeta::Failed { error: "denied".to_string() };
    assert_eq!(ArtifactStamp::read(denied).err().unwrap(), "denied");
    let untimed = ArtifactMeta::File { len: 1, modified: Err("no clock".to_string()), created: None };
    assert_eq!(ArtifactStamp::read(untimed).err().unwrap(), "no clock");
}
