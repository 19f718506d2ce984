use gdkit::cache::{
    dump_args, version_args, Asked, Begun, DocsCache, Dump, Lookup, Publishable, Source, Versioned,
};
use gdkit::config::Config;
use gdkit::docs::{
    bbcode_to_text, cache_dir, cache_path, parse_version_output, render_value, sanitize_version,
    Api, ApiIndex, Argument, Class, Constant, DumpFile, Enum, Header, Member, Method, Property,
    ReturnValue, Signal, Singleton,
};
use gdkit::process::{LogLine, OneshotResult};
use gdkit::server::ErrorKind;
use serde_json::Value;

/// A miniature dump with the same shape as the engine's, covering both class flavours.
const MINI: &str = r#"{
      "header": { "version_full_name": "Godot Engine v4.7.1.stable.official" },
      "classes": [
        {
          "name": "Node",
          "is_refcounted": false,
          "api_type": "core",
          "brief_description": "Base class for scene objects.",
          "description": "The [b]base[/b] class. See [method add_child].",
          "methods": [
            { "name": "add_child", "is_const": false, "is_static": false, "is_virtual": false,
              "is_vararg": false, "return_value": { "type": "void" },
              "arguments": [ { "name": "node", "type": "Node" },
                             { "name": "force_readable_name", "type": "bool", "default_value": "false" } ],
              "description": "Adds [param node] as a child." }
          ],
          "properties": [
            { "type": "String", "name": "name", "setter": "set_name", "getter": "get_name",
              "description": "The node's name." }
          ],
          "signals": [ { "name": "ready", "description": "Emitted when ready." } ],
          "constants": [ { "name": "NOTIFICATION_ENTER_TREE", "value": 10 } ],
          "enums": [ { "name": "ProcessMode", "is_bitfield": false,
                       "values": [ { "name": "PROCESS_MODE_INHERIT", "value": 0, "description": "Inherit." } ] } ]
        },
        {
          "name": "Sprite2D",
          "inherits": "Node",
          "api_type": "core",
          "brief_description": "General-purpose sprite node.",
          "description": "Displays a 2D texture.",
          "methods": [
            { "name": "is_pixel_opaque", "is_const": true, "return_value": { "type": "bool" },
              "arguments": [ { "name": "pos", "type": "Vector2" } ],
              "description": "Returns [code]true[/code] if opaque." }
          ],
          "properties": [
            { "type": "bool", "name": "centered", "setter": "set_centered", "getter": "is_centered",
              "description": "Whether the sprite is centered." }
          ]
        }
      ],
      "builtin_classes": [
        {
          "name": "Vector2",
          "brief_description": "A 2D vector.",
          "members": [ { "name": "x", "type": "float", "description": "The X component." } ],
          "methods": [ { "name": "angle", "return_type": "float", "is_const": true,
                         "description": "Returns the angle." } ],
          "constants": [ { "name": "ZERO", "type": "Vector2", "value": "Vector2(0, 0)",
                           "description": "Zero vector." } ]
        }
      ],
      "global_enums": [
        { "name": "Side", "is_bitfield": false,
          "values": [ { "name": "SIDE_LEFT", "value": 0, "description": "Left side." } ] }
      ],
      "utility_functions": [
        { "name": "sin", "return_type": "float", "category": "math",
          "arguments": [ { "name": "angle_rad", "type": "float" } ],
          "description": "Returns the sine." }
      ],
      "singletons": [ { "name": "Performance", "type": "Performance" } ]
    }"#;

// ---- a dump from its JSON ----------------------------------------------------------------

fn text(v: &Value, key: &str) -> String {
    v.get(key).and_then(Value::as_str).unwrap_or("").to_string()
}

fn opt(v: &Value, key: &str) -> Option<String> {
    v.get(key).and_then(Value::as_str).map(str::to_string)
}

fn flag(v: &Value, key: &str) -> bool {
    v.get(key).and_then(Value::as_bool).unwrap_or(false)
}

fn list<T>(v: &Value, key: &str, each: fn(&Value) -> T) -> Vec<T> {
    match v.get(key).and_then(Value::as_array) {
        Some(items) => items.iter().map(each).collect(),
        None => Vec::new(),
    }
}

fn argument(v: &Value) -> Argument {
    Argument { name: text(v, "name"), kind: text(v, "type"), default_value: opt(v, "default_value") }
}

fn method(v: &Value) -> Method {
    Method {
        name: text(v, "name"),
        is_const: flag(v, "is_const"),
        is_static: flag(v, "is_static"),
        is_virtual: flag(v, "is_virtual"),
        is_vararg: flag(v, "is_vararg"),
        return_value: v.get("return_value").map(|r| ReturnValue { kind: text(r, "type") }),
        return_type: opt(v, "return_type"),
        arguments: list(v, "arguments", argument),
        description: text(v, "description"),
        category: opt(v, "category"),
    }
}

fn property(v: &Value) -> Property {
    Property {
        name: text(v, "name"),
        kind: text(v, "type"),
        setter: opt(v, "setter"),
        getter: opt(v, "getter"),
        description: text(v, "description"),
    }
}

fn member(v: &Value) -> Member {
    Member { name: text(v, "name"), kind: text(v, "type"), description: text(v, "description") }
}

fn signal(v: &Value) -> Signal {
    Signal {
        name: text(v, "name"),
        arguments: list(v, "arguments", argument),
        description: text(v, "description"),
    }
}

fn constant(v: &Value) -> Constant {
    Constant {
        name: text(v, "name"),
        value: v.get("value").unwrap_or(&Value::Null).to_string(),
        description: text(v, "description"),
    }
}

fn enumeration(v: &Value) -> Enum {
    Enum {
        name: text(v, "name"),
        is_bitfield: flag(v, "is_bitfield"),
        values: list(v, "values", constant),
    }
}

fn class(v: &Value) -> Class {
    Class {
        name: text(v, "name"),
        inherits: opt(v, "inherits"),
        api_type: opt(v, "api_type"),
        brief_description: text(v, "brief_description"),
        description: text(v, "description"),
        methods: list(v, "methods", method),
        properties: list(v, "properties", property),
        members: list(v, "members", member),
        signals: list(v, "signals", signal),
        constants: list(v, "constants", constant),
        enums: list(v, "enums", enumeration),
    }
}

fn singleton(v: &Value) -> Singleton {
    Singleton { name: text(v, "name"), kind: text(v, "type") }
}

fn dump(json: &str) -> DumpFile {
    let v: Value = match serde_json::from_str(json) {
        Ok(v) => v,
        Err(e) => return DumpFile::Malformed(e.to_string()),
    };
    let header = match v.get("header") {
        Some(h) => Header { version_full_name: text(h, "version_full_name") },
        None => return DumpFile::Malformed("missing field `header`".to_string()),
    };
    DumpFile::Read(Api {
        header,
        classes: list(&v, "classes", class),
        builtin_classes: list(&v, "builtin_classes", class),
        global_enums: list(&v, "global_enums", enumeration),
        utility_functions: list(&v, "utility_functions", method),
        singletons: list(&v, "singletons", singleton),
    })
}

fn parse(json: &str) -> Result<ApiIndex, String> {
    ApiIndex::load("dump.json", dump(json))
}

fn index() -> ApiIndex {
    match parse(MINI) {
        Ok(idx) => idx,
        Err(e) => panic!("mini dump parses: {e}"),
    }
}

// ---- queries -----------------------------------------------------------------------------

#[test]
fn parses_both_class_flavours() {
    let idx = index();
    assert_eq!(idx.version, "Godot Engine v4.7.1.stable.official");
    assert_eq!(idx.class_count(), 3, "2 engine classes + 1 built-in");
}

#[test]
fn rejects_a_document_that_is_not_an_api_dump() {
    assert!(parse("{}").is_err());
    assert!(parse("nonsense").is_err());
}

#[test]
fn a_class_query_shows_the_inheritance_chain_and_members() {
    let out = index().query("Sprite2D");
    assert!(out.starts_with("Sprite2D (Sprite2D < Node)"), "{out}");
    assert!(out.contains("centered: bool"), "{out}");
    assert!(
        out.contains("is_pixel_opaque(pos: Vector2) -> bool  [const]"),
        "{out}"
    );
}

#[test]
fn class_lookup_is_case_insensitive() {
    assert!(index().query("sprite2d").starts_with("Sprite2D"));
}

#[test]
fn a_class_whose_name_holds_a_dot_is_found_in_any_case() {
    let idx = parse(&MINI.replace("Sprite2D", "Sprite.Two")).ok().unwrap();
    let page = idx.query("Sprite.Two");
    assert!(page.starts_with("Sprite.Two"), "{page}");
    assert_eq!(idx.query(" sPRITE.tWO "), page);
}

#[test]
fn a_singleton_class_says_so() {
    let mini = MINI.replace(r#""name": "Node","#, r#""name": "Performance","#);
    let idx = parse(&mini).ok().unwrap();
    let out = idx.query("Performance");
    assert!(out.contains("[singleton: Performance]"), "{out}");
    assert!(!index().query("Sprite2D").contains("singleton"));
}

#[test]
fn a_method_query_shows_the_signature_and_defaults() {
    let out = index().query("Node.add_child");
    assert!(out.contains("(method)"), "{out}");
    assert!(
        out.contains("add_child(node: Node, force_readable_name: bool = false) -> void"),
        "{out}"
    );
    assert!(out.contains("Adds node as a child."), "{out}");
}

#[test]
fn a_property_query_shows_its_accessors() {
    let out = index().query("Sprite2D.centered");
    assert!(out.contains("centered: bool"), "{out}");
    assert!(out.contains("set_centered"), "{out}");
}

#[test]
fn an_inherited_member_is_found_and_attributed() {
    let out = index().query("Sprite2D.name");
    assert!(out.contains("Node.name (property)"), "{out}");
    assert!(out.contains("inherited by Sprite2D from Node"), "{out}");
}

#[test]
fn signals_constants_enums_and_enum_values_all_resolve() {
    let idx = index();
    assert!(idx.query("Node.ready").contains("(signal)"));
    assert!(idx
        .query("Node.NOTIFICATION_ENTER_TREE")
        .contains("NOTIFICATION_ENTER_TREE = 10"));
    assert!(idx.query("Node.ProcessMode").contains("PROCESS_MODE_INHERIT = 0"));
    assert!(idx
        .query("Node.PROCESS_MODE_INHERIT")
        .contains("value of enum ProcessMode"));
}

#[test]
fn builtin_members_and_string_constants_render() {
    let idx = index();
    let out = idx.query("Vector2");
    assert!(out.contains("x: float"), "{out}");
    assert!(out.contains("ZERO = Vector2(0, 0)"), "{out}");
    assert!(idx.query("Vector2.angle").contains("angle() -> float  [const]"));
}

#[test]
fn an_unknown_member_names_what_was_searched() {
    let out = index().query("Sprite2D.nope");
    assert!(out.contains("no member \"nope\""), "{out}");
    assert!(out.contains("Sprite2D < Node"), "{out}");
}

#[test]
fn a_free_text_query_searches_members_utilities_and_enums() {
    let idx = index();
    let out = idx.query("pixel");
    assert!(out.contains("Sprite2D.is_pixel_opaque (method)"), "{out}");

    let out = idx.query("sin");
    assert!(out.contains("sin(angle_rad: float) -> float"), "{out}");
    assert!(out.contains("(math)"), "{out}");

    let out = idx.query("SIDE_LEFT");
    assert!(out.contains("Side.SIDE_LEFT = 0"), "{out}");
}

#[test]
fn a_query_matching_nothing_says_so() {
    let out = index().query("zzzznotathing");
    assert!(out.contains("nothing in the"), "{out}");
}

#[test]
fn an_empty_query_returns_the_overview() {
    let out = index().query("  ");
    assert!(out.contains("3 classes"), "{out}");
    assert!(out.contains("1 utility functions"), "{out}");
}

#[test]
fn case_and_blanks_make_no_difference() {
    let idx = index();
    assert_eq!(idx.query(" NODE.Add_Child "), idx.query("Node.add_child"));
    assert_eq!(idx.query("VECTOR2"), idx.query("Vector2"));
    assert_eq!(idx.query("Node."), idx.query("Node"));
    assert_eq!(idx.query(" sprite2d ."), idx.query("Sprite2D"));
}

#[test]
fn an_unknown_member_is_quoted_with_its_escapes() {
    let out = index().query("Node.a\"b");
    assert!(out.contains("no member \"a\\\"b\""), "{out}");
}

#[test]
fn the_last_class_of_a_name_counts() {
    let two = r#"{ "header": { "version_full_name": "v" },
        "classes": [ { "name": "A", "brief_description": "first" } ],
        "builtin_classes": [ { "name": "A", "brief_description": "second" } ] }"#;
    let idx = parse(two).ok().unwrap();
    assert_eq!(idx.class_count(), 1);
    assert!(idx.query("A").contains("second"));
}

#[test]
fn a_circle_of_classes_still_gets_an_answer() {
    let ring = r#"{ "header": { "version_full_name": "v" },
        "classes": [ { "name": "A", "inherits": "B" }, { "name": "B", "inherits": "A" } ] }"#;
    let idx = parse(ring).ok().unwrap();
    assert_eq!(idx.inheritance_chain("A").len(), 65);
    assert!(idx.query("A.nope").contains("A < B < A"));
    assert_eq!(idx.inheritance_chain("C").len(), 0);
}

#[test]
fn values_are_shown_as_json_reads_them() {
    assert_eq!(render_value("10"), "10");
    assert_eq!(render_value("\"Vector2(0, 0)\""), "Vector2(0, 0)");
    assert_eq!(render_value("\"a\\\"b\""), "a\"b");
    assert_eq!(render_value("[1, 2]"), "[1,2]");
    assert_eq!(render_value("null"), "?");
    assert_eq!(render_value("not json"), "not json");
}

#[test]
fn bbcode_becomes_readable_text() {
    assert_eq!(bbcode_to_text("[b]bold[/b] text"), "bold text");
    assert_eq!(
        bbcode_to_text("returns [code]true[/code]"),
        "returns `true`"
    );
    assert_eq!(bbcode_to_text("uses [param pos] now"), "uses pos now");
    assert_eq!(bbcode_to_text("see [method Node.free]"), "see Node.free");
    assert_eq!(bbcode_to_text("a [Sprite2D] node"), "a Sprite2D node");
    assert_eq!(bbcode_to_text("line[br]break"), "line\nbreak");
    assert_eq!(bbcode_to_text("[url=http://x]text[/url]"), "text");
    // An unmatched bracket must survive rather than eating the rest of the line.
    assert_eq!(bbcode_to_text("array[0 is fine"), "array[0 is fine");
    assert_eq!(bbcode_to_text("plain"), "plain");
}

// ---- versions and the cache --------------------------------------------------------------

#[test]
fn version_strings_become_safe_path_segments() {
    assert_eq!(
        sanitize_version("4.7.1.stable.official"),
        "4.7.1.stable.official"
    );
    assert_eq!(sanitize_version("4.7.1 stable/x"), "4.7.1-stable-x");
    assert_eq!(sanitize_version("   "), "unknown");
}

#[test]
fn a_clean_version_is_kept_as_it_is() {
    for v in ["4.7.1 stable/x", "--a--", "\u{e9}", "unknown"] {
        let once = sanitize_version(v);
        assert_eq!(sanitize_version(&once), once);
    }
    assert_eq!(sanitize_version("--a--"), "a");
    assert_eq!(sanitize_version("\u{e9}"), "unknown");
    assert_eq!(sanitize_version("..."), "...");
}

#[test]
fn a_version_of_dots_names_a_child_of_the_cache() {
    for v in [".", "..", " . ", " .. ", "-.-", "/..\\"] {
        assert_eq!(sanitize_version(v), "unknown", "{v}");
        assert_eq!(cache_dir("D:/data", v), "D:/data\\api\\unknown");
    }
}

#[test]
fn the_version_line_is_picked_out_of_banner_noise() {
    let lines = vec![
        "Godot Engine v4.7.1.stable - https://godotengine.org".to_string(),
        "4.7.1.stable.official.a13da4feb".to_string(),
    ];
    assert_eq!(
        parse_version_output(&lines).as_deref(),
        Some("4.7.1.stable.official.a13da4feb")
    );
    assert_eq!(parse_version_output(&["banner only".to_string()]), None);
}

#[test]
fn cache_paths_are_versioned() {
    let p = cache_path("D:/data", "4.7.1.stable");
    assert!(p.ends_with("extension_api.json"));
    assert!(p.contains("4.7.1.stable"));
    assert_eq!(cache_dir("D:/data", "x"), "D:/data\\api\\x");
}

fn engine(bin: Option<&str>) -> Config {
    Config {
        godot_bin: bin.map(str::to_string),
        data_dir: "D:/data".to_string(),
        ..Default::default()
    }
}

fn lookup(cache: &DocsCache, refresh: bool) -> Lookup {
    match cache.begin(&engine(Some("D:/godot.exe")), refresh) {
        Ok(Begun::AskVersion(lookup)) => lookup,
        _ => panic!("a configured engine is asked for its version"),
    }
}

fn versioned(cache: &DocsCache, refresh: bool, version: &str) -> Versioned {
    match lookup(cache, refresh).versioned(cache, Ok(vec![version.to_string()])) {
        Ok(Asked::Versioned(next)) => next,
        _ => panic!("the version is known"),
    }
}

/// A cache that holds the miniature dump for a version.
fn loaded(version: &str) -> DocsCache {
    let mut cache = DocsCache::new();
    let step = versioned(&cache, false, version);
    assert!(step.read(&mut cache, dump(MINI)).is_ok());
    cache
}

#[test]
fn an_engine_without_a_version_is_an_error() {
    assert_eq!(version_args(), ["--version"]);
    assert_eq!(dump_args(), ["--headless", "--dump-extension-api-with-docs"]);
    let cache = DocsCache::new();
    let step = versioned(&cache, true, " 4.7.1.x ");
    assert_eq!(step.version, "4.7.1.x");
    assert_eq!(step.godot, "D:/godot.exe");
    assert!(step.refresh);
    assert_eq!(step.dir, "D:/data\\api\\4.7.1.x");
    assert_eq!(step.path, "D:/data\\api\\4.7.1.x\\extension_api.json");
    let ran = Ok(vec!["a".to_string(), "b".to_string()]);
    let e = lookup(&cache, false).versioned(&cache, ran).err().unwrap();
    assert_eq!(e.kind, ErrorKind::Internal);
    assert_eq!(e.message, "could not read the Godot version from: a | b");
    let e = lookup(&cache, false).versioned(&cache, Err("gone".to_string())).err().unwrap();
    assert_eq!(e.message, "godot --version failed: gone");
}

#[test]
fn without_an_engine_only_what_is_in_memory_serves() {
    let none = engine(None);
    let e = DocsCache::new().begin(&none, false).err().unwrap();
    assert!(e.message.contains("GODOT_BIN"));
    let cache = loaded("4.7.1");
    assert!(matches!(cache.begin(&none, false), Ok(Begun::Answer)));
    assert!(cache.begin(&none, true).is_err());
}

#[test]
fn without_a_version_only_what_is_in_memory_serves() {
    let cache = loaded("4.7.1");
    let failed = || Err("gone".to_string());
    let odd = || Ok(vec!["a".to_string()]);
    assert!(matches!(lookup(&cache, false).versioned(&cache, failed()), Ok(Asked::Answer)));
    assert!(matches!(lookup(&cache, false).versioned(&cache, odd()), Ok(Asked::Answer)));
    let e = lookup(&cache, true).versioned(&cache, failed()).err().unwrap();
    assert_eq!(e.message, "godot --version failed: gone");
    let e = lookup(&cache, true).versioned(&cache, odd()).err().unwrap();
    assert_eq!(e.message, "could not read the Godot version from: a");
}

#[test]
fn an_engine_change_reloads_the_index() {
    let cache = DocsCache::new();
    assert_eq!(versioned(&cache, false, "4.7.1").source(&cache, false), Source::Dump);
    assert_eq!(versioned(&cache, false, "4.7.1").source(&cache, true), Source::Cached);
    assert!(cache.answer(None).is_none());

    let cache = loaded("4.7.1");
    assert_eq!(versioned(&cache, false, "4.7.1").source(&cache, true), Source::Loaded);
    assert_eq!(versioned(&cache, false, "4.7.1").source(&cache, false), Source::Loaded);
    assert_eq!(versioned(&cache, true, "4.7.1").source(&cache, true), Source::Dump);
    assert_eq!(versioned(&cache, false, "4.8.0").source(&cache, true), Source::Cached);
    assert_eq!(versioned(&cache, false, "4.8.0").source(&cache, false), Source::Dump);
}

fn run(exit_code: Option<i32>, timed_out: bool) -> OneshotResult {
    OneshotResult {
        exit_code,
        timed_out,
        lines: vec![LogLine { text: "boom".to_string(), is_error: false }],
        error_count: 0,
        capture_complete: true,
    }
}

fn written(json: &str) -> Dump {
    Dump::Written(run(Some(0), false), dump(json))
}

fn publishable(cache: &DocsCache, json: &str) -> Publishable {
    versioned(cache, true, "4.7.1").dumped(written(json)).ok().unwrap()
}

#[test]
fn a_failed_refresh_preserves_the_previous_reference() {
    let mut cache = loaded("4.7.1");
    let before = cache.answer(Some("Node")).unwrap();

    let e = versioned(&cache, true, "4.7.1").dumped(written("{")).err().unwrap();
    assert!(e.message.starts_with("bad API dump: "), "{}", e.message);
    assert_eq!(cache.answer(Some("Node")).unwrap(), before);

    let moved = Err("denied".to_string());
    let e = publishable(&cache, MINI).published(&mut cache, moved).unwrap_err();
    assert_eq!(
        e.message,
        "cannot replace D:/data\\api\\4.7.1\\extension_api.json: denied"
    );
    assert_eq!(cache.answer(Some("Node")).unwrap(), before);

    let step = versioned(&cache, false, "4.8.0");
    let e = step.read(&mut cache, DumpFile::Unreadable("denied".to_string())).unwrap_err();
    assert_eq!(
        e.message,
        "cannot read D:/data\\api\\4.8.0\\extension_api.json: denied"
    );
    assert_eq!(cache.answer(Some("Node")).unwrap(), before);
}

#[test]
fn a_refresh_of_a_run_that_failed_is_refused() {
    let cache = loaded("4.7.1");
    let ended = |refresh, exit_code, timed_out| {
        let res = run(exit_code, timed_out);
        versioned(&cache, refresh, "4.7.1").dumped(Dump::Written(res, dump(MINI)))
    };
    assert_eq!(
        ended(true, Some(1), false).err().unwrap().message,
        "the engine failed to refresh extension_api.json (exit=Some(1)). Output:\n  boom\n"
    );
    assert_eq!(
        ended(true, None, true).err().unwrap().message,
        "the engine failed to refresh extension_api.json (exit=None, timed out). Output:\n  boom\n"
    );
    assert!(ended(true, Some(0), true).is_err());
    assert!(ended(true, Some(0), false).is_ok());
    // A first dump has nothing to lose.
    assert!(ended(false, Some(1), false).is_ok());
}

#[test]
fn a_refresh_replaces_the_reference() {
    let mut cache = loaded("4.7.1");
    let other = MINI.replace("General-purpose sprite node.", "Refreshed.");
    assert!(publishable(&cache, &other).published(&mut cache, Ok(())).is_ok());
    assert!(cache.answer(Some("Sprite2D")).unwrap().text.contains("Refreshed."));
    assert!(cache.answer(None).unwrap().text.starts_with("Godot API reference "));
}

#[test]
fn every_failed_dump_says_why() {
    let cache = DocsCache::new();
    let why = |d: Dump| match versioned(&cache, false, "4.7.1").dumped(d) {
        Ok(_) => panic!("the dump is no good"),
        Err(e) => e.message,
    };
    assert_eq!(why(Dump::NotRun("gone".to_string())), "API dump failed to run: gone");
    assert_eq!(
        why(Dump::Nothing(run(Some(1), true))),
        "the engine wrote no extension_api.json (exit=Some(1), timed out). Output:\n  boom\n"
    );
    assert_eq!(
        why(Dump::Written(run(Some(0), false), DumpFile::Unreadable("denied".to_string()))),
        "cannot read D:/data\\api\\4.7.1\\extension_api.json: denied"
    );
    let empty = r#"{ "header": { "version_full_name": "v" } }"#;
    assert_eq!(why(written(empty)), "API dump contains no classes");
}
