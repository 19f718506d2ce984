//! Persisted settings.
//!
//! Discovery (Godot binary, project dir) works with zero setup, but a project that keeps Godot
//! somewhere unusual, or that needs a specific test command or export preset, must be able to say so
//! once and have it stick. Those answers live in a JSON file under the plugin data directory, which
//! survives plugin updates.
//!
//! Precedence for the directory: `GDKIT_DATA_DIR`, then `CLAUDE_PLUGIN_DATA`, then the OS per-user
//! data dir, then `.gdkit` in the current dir. Nothing here hard-fails: an unreadable or malformed
//! settings file yields defaults and a warning.
use vstd::prelude::*;

use crate::path;
use crate::text;

verus! {

/// File name inside the data dir.
pub const SETTINGS_FILE: &'static str = "settings.json";

/// Operator-set overrides. Every field is optional: absent means "use discovery".
#[derive(Clone, Debug, PartialEq)]
pub struct Settings {
    /// Absolute path to the Godot executable.
    pub godot_bin: Option<String>,
    /// Absolute path to the directory holding `project.godot`.
    pub project_dir: Option<String>,
    /// Command that runs the project's test suite, as program + args. Supports the placeholders
    /// `{godot}` (resolved Godot binary) and `{project}` (resolved project dir); a bare `godot`
    /// as the program is treated as `{godot}`.
    pub test_command: Option<Vec<String>>,
    /// Default `export_presets.cfg` preset name for the `export` tool.
    pub export_preset: Option<String>,
    /// Default output path for the `export` tool (absolute, or relative to the project dir).
    pub export_output: Option<String>,
}

/// What the settings say.
pub struct SettingsText {
    pub godot_bin: Option<Seq<char>>,
    pub project_dir: Option<Seq<char>>,
    pub test_command: Option<Seq<Seq<char>>>,
    pub export_preset: Option<Seq<char>>,
    pub export_output: Option<Seq<char>>,
}

pub open spec fn command_text(v: Option<Vec<String>>) -> Option<Seq<Seq<char>>> {
    match v {
        Some(c) => Some(text::texts(c@)),
        None => None,
    }
}

impl View for Settings {
    type V = SettingsText;

    open spec fn view(&self) -> SettingsText {
        SettingsText {
            godot_bin: text::opt_text(self.godot_bin),
            project_dir: text::opt_text(self.project_dir),
            test_command: command_text(self.test_command),
            export_preset: text::opt_text(self.export_preset),
            export_output: text::opt_text(self.export_output),
        }
    }
}

impl SettingsText {
    /// No override at all.
    pub open spec fn nothing() -> Self {
        SettingsText {
            godot_bin: None,
            project_dir: None,
            test_command: None,
            export_preset: None,
            export_output: None,
        }
    }
}

impl Default for Settings {
    fn default() -> (r: Self)
        ensures
            r@ == SettingsText::nothing(),
    {
        Settings {
            godot_bin: None,
            project_dir: None,
            test_command: None,
            export_preset: None,
            export_output: None,
        }
    }
}

/// What came of reading and parsing the settings file.
pub enum SettingsFile {
    /// There is none.
    Missing,
    /// It could not be read; the system's words for it.
    Unreadable(String),
    /// It is not what was written; the parser's words for it.
    Malformed(String),
    Read(Settings),
}

impl Settings {
    /// The settings that the file in `dir` holds, and the warning to log. A missing file yields
    /// defaults; an unreadable or malformed one yields a warning and also defaults.
    pub fn load(dir: &str, file: SettingsFile) -> (r: (Self, Option<String>))
        ensures
            match file {
                SettingsFile::Read(settings) => r.0 == settings,
                _ => r.0@ == SettingsText::nothing(),
            },
            text::opt_text(r.1) == match file {
                SettingsFile::Unreadable(e) => Some(
                    "settings unreadable at "@ + path::joined(dir@, SETTINGS_FILE@) + ": "@ + e@,
                ),
                SettingsFile::Malformed(e) => Some(
                    "settings malformed at "@ + path::joined(dir@, SETTINGS_FILE@) + " ("@ + e@
                        + ") — using defaults"@,
                ),
                _ => None,
            },
    {
        match file {
            SettingsFile::Read(settings) => (settings, None),
            SettingsFile::Missing => (Settings::default(), None),
            SettingsFile::Unreadable(e) => {
                let mut warning = "settings unreadable at ".to_string();
                warning.append(settings_path(dir).as_str());
                warning.append(": ");
                warning.append(e.as_str());
                (Settings::default(), Some(warning))
            },
            SettingsFile::Malformed(e) => {
                let mut warning = "settings malformed at ".to_string();
                warning.append(settings_path(dir).as_str());
                warning.append(" (");
                warning.append(e.as_str());
                warning.append(") — using defaults");
                (Settings::default(), Some(warning))
            },
        }
    }

    /// True when no override is set, that is when everything comes from discovery.
    pub fn is_empty(&self) -> (r: bool)
        ensures
            r == (self@ == SettingsText::nothing()),
    {
        self.godot_bin.is_none() && self.project_dir.is_none() && self.test_command.is_none()
            && self.export_preset.is_none() && self.export_output.is_none()
    }

    /// The same settings once more.
    pub fn duplicate(&self) -> (r: Self)
        ensures
            r@ == self@,
    {
        Settings {
            godot_bin: text::copy_opt(&self.godot_bin),
            project_dir: text::copy_opt(&self.project_dir),
            test_command: match &self.test_command {
                Some(c) => Some(text::copy_of(c)),
                None => None,
            },
            export_preset: text::copy_opt(&self.export_preset),
            export_output: text::copy_opt(&self.export_output),
        }
    }
}

/// The settings file's path inside a data dir.
pub fn settings_path(dir: &str) -> (r: String)
    ensures
        r@ == path::joined(dir@, SETTINGS_FILE@),
{
    path::join(dir, SETTINGS_FILE)
}

// ---- the data directory -------------------------------------------------------------------------

/// What the environment says of where data may be kept.
pub struct DataDirs {
    pub gdkit: Option<Seq<char>>,
    pub plugin: Option<Seq<char>>,
    pub local: Option<Seq<char>>,
    pub xdg: Option<Seq<char>>,
    pub home: Option<Seq<char>>,
}

/// A value that says something: not absent, not blank.
pub open spec fn is_set(v: Option<Seq<char>>) -> bool {
    v is Some && !text::is_blank(v->Some_0)
}

/// The data directory for what the environment says.
pub open spec fn data_dir(env: DataDirs) -> Seq<char> {
    if is_set(env.gdkit) {
        env.gdkit->Some_0
    } else if is_set(env.plugin) {
        env.plugin->Some_0
    } else if is_set(env.local) {
        path::joined(env.local->Some_0, "gdkit"@)
    } else if is_set(env.xdg) {
        path::joined(env.xdg->Some_0, "gdkit"@)
    } else if is_set(env.home) {
        path::joined(path::joined(path::joined(env.home->Some_0, ".local"@), "share"@), "gdkit"@)
    } else {
        ".gdkit"@
    }
}

/// The value, where it says something.
pub(crate) fn unless_blank(v: Option<String>) -> (r: Option<String>)
    ensures
        text::opt_text(r) == (if is_set(text::opt_text(v)) {
            text::opt_text(v)
        } else {
            None
        }),
{
    match v {
        Some(s) => if text::blank(s.as_str()) {
            None
        } else {
            Some(s)
        },
        None => None,
    }
}

/// Pick the data directory from the five values.
pub fn choose_data_dir(
    gdkit: Option<String>,
    plugin: Option<String>,
    local: Option<String>,
    xdg: Option<String>,
    home: Option<String>,
) -> (r: String)
    ensures
        r@ == data_dir(
            DataDirs {
                gdkit: text::opt_text(gdkit),
                plugin: text::opt_text(plugin),
                local: text::opt_text(local),
                xdg: text::opt_text(xdg),
                home: text::opt_text(home),
            },
        ),
{
    if let Some(v) = unless_blank(gdkit) {
        return v;
    }
    if let Some(v) = unless_blank(plugin) {
        return v;
    }
    if let Some(v) = unless_blank(local) {
        return path::join(v.as_str(), "gdkit");
    }
    if let Some(v) = unless_blank(xdg) {
        return path::join(v.as_str(), "gdkit");
    }
    if let Some(v) = unless_blank(home) {
        let local = path::join(v.as_str(), ".local");
        let share = path::join(local.as_str(), "share");
        return path::join(share.as_str(), "gdkit");
    }
    ".gdkit".to_string()
}

/// What the environment says, as far as it is asked: a value is asked for only where none before it
/// is set.
pub open spec fn asked<F: Fn(&str) -> Option<String>>(
    env: F,
    gdkit: Option<String>,
    plugin: Option<String>,
    local: Option<String>,
    xdg: Option<String>,
    home: Option<String>,
) -> bool {
    &&& call_ensures(env, ("GDKIT_DATA_DIR",), gdkit)
    &&& is_set(text::opt_text(gdkit)) || {
        &&& call_ensures(env, ("CLAUDE_PLUGIN_DATA",), plugin)
        &&& is_set(text::opt_text(plugin)) || {
            &&& call_ensures(env, ("LOCALAPPDATA",), local)
            &&& is_set(text::opt_text(local)) || {
                &&& call_ensures(env, ("XDG_DATA_HOME",), xdg)
                &&& is_set(text::opt_text(xdg)) || call_ensures(env, ("HOME",), home)
            }
        }
    }
}

fn unset(v: &Option<String>) -> (r: bool)
    ensures
        r == !is_set(text::opt_text(*v)),
{
    match v {
        Some(s) => text::blank(s.as_str()),
        None => true,
    }
}

/// Resolve the data directory. Reads the environment through `env` so that callers can drive it.
pub fn resolve_data_dir<F>(env: F) -> (r: String) where F: Fn(&str) -> Option<String>
    requires
        forall|key: &str| call_requires(env, (key,)),
    ensures
        exists|g: Option<String>, p: Option<String>, l: Option<String>, x: Option<String>, h: Option<String>|
            {
                &&& #[trigger] asked(env, g, p, l, x, h)
                &&& r@ == data_dir(
                    DataDirs {
                        gdkit: text::opt_text(g),
                        plugin: text::opt_text(p),
                        local: text::opt_text(l),
                        xdg: text::opt_text(x),
                        home: text::opt_text(h),
                    },
                )
            },
{
    let mut plugin: Option<String> = None;
    let mut local: Option<String> = None;
    let mut xdg: Option<String> = None;
    let mut home: Option<String> = None;
    let gdkit = env("GDKIT_DATA_DIR");
    if unset(&gdkit) {
        plugin = env("CLAUDE_PLUGIN_DATA");
        if unset(&plugin) {
            local = env("LOCALAPPDATA");
            if unset(&local) {
                xdg = env("XDG_DATA_HOME");
                if unset(&xdg) {
                    home = env("HOME");
                }
            }
        }
    }
    assert(asked(env, gdkit, plugin, local, xdg, home));
    choose_data_dir(gdkit, plugin, local, xdg, home)
}

/// A variable that is set to something outranks every later one, and a blank one counts as absent.
pub proof fn law_data_dir_precedence(env: DataDirs)
    ensures
        is_set(env.gdkit) ==> data_dir(env) == env.gdkit->Some_0,
        !is_set(env.gdkit) ==> data_dir(env) == data_dir(DataDirs { gdkit: None, ..env }),
        !is_set(env.gdkit) && is_set(env.plugin) ==> data_dir(env) == env.plugin->Some_0,
        !is_set(env.plugin) ==> data_dir(env) == data_dir(DataDirs { plugin: None, ..env }),
        !is_set(env.local) ==> data_dir(env) == data_dir(DataDirs { local: None, ..env }),
        !is_set(env.xdg) ==> data_dir(env) == data_dir(DataDirs { xdg: None, ..env }),
        !is_set(env.home) ==> data_dir(env) == data_dir(DataDirs { home: None, ..env }),
{
}

// ---- test commands ------------------------------------------------------------------------------

/// A part of a command as it is read: a bare `godot` in program position means "whatever discovery
/// resolved".
pub open spec fn template(i: int, part: Seq<char>) -> Seq<char> {
    if i == 0 && text::alike(part, "godot"@) {
        "{godot}"@
    } else {
        part
    }
}

/// A part with both placeholders filled, or why it cannot be.
pub open spec fn filled(
    part: Seq<char>,
    godot: Option<Seq<char>>,
    project: Option<Seq<char>>,
) -> Result<Seq<char>, Seq<char>> {
    if text::has(part, "{godot}"@) && godot is None {
        Err("test_command uses {godot} but no Godot binary is configured"@)
    } else {
        let half = if text::has(part, "{godot}"@) {
            text::replaced(part, "{godot}"@, godot->Some_0)
        } else {
            part
        };
        if text::has(half, "{project}"@) && project is None {
            Err("test_command uses {project} but no Godot project was found"@)
        } else if text::has(half, "{project}"@) {
            Ok(text::replaced(half, "{project}"@, project->Some_0))
        } else {
            Ok(half)
        }
    }
}

/// All parts filled, or why the first that cannot be is not.
pub open spec fn filled_all(
    cmd: Seq<Seq<char>>,
    godot: Option<Seq<char>>,
    project: Option<Seq<char>>,
) -> Result<Seq<Seq<char>>, Seq<char>>
    decreases cmd.len(),
{
    if cmd.len() == 0 {
        Ok(Seq::empty())
    } else {
        match filled_all(cmd.drop_last(), godot, project) {
            Err(e) => Err(e),
            Ok(front) => match filled(template(cmd.len() - 1, cmd.last()), godot, project) {
                Err(e) => Err(e),
                Ok(part) => Ok(front.push(part)),
            },
        }
    }
}

/// The command that a template stands for, or why it is unusable.
pub open spec fn expanded(
    cmd: Seq<Seq<char>>,
    godot: Option<Seq<char>>,
    project: Option<Seq<char>>,
) -> Result<Seq<Seq<char>>, Seq<char>> {
    if cmd.len() == 0 {
        Err("test_command is empty"@)
    } else {
        filled_all(cmd, godot, project)
    }
}

fn fill(part: &str, godot: Option<&str>, project: Option<&str>) -> (r: Result<String, String>)
    ensures
        match r {
            Ok(s) => filled(part@, text::opt_str(godot), text::opt_str(project)) == Ok::<
                Seq<char>,
                Seq<char>,
            >(s@),
            Err(e) => filled(part@, text::opt_str(godot), text::opt_str(project)) == Err::<
                Seq<char>,
                Seq<char>,
            >(e@),
        },
{
    proof {
        reveal_strlit("{godot}");
        reveal_strlit("{project}");
    }
    let mut s = part.to_string();
    if text::contains(s.as_str(), "{godot}") {
        match godot {
            None => {
                return Err(
                    "test_command uses {godot} but no Godot binary is configured".to_string(),
                );
            },
            Some(g) => {
                s = text::replace(s.as_str(), "{godot}", g);
            },
        }
    }
    if text::contains(s.as_str(), "{project}") {
        match project {
            None => {
                return Err("test_command uses {project} but no Godot project was found".to_string());
            },
            Some(p) => {
                s = text::replace(s.as_str(), "{project}", p);
            },
        }
    }
    Ok(s)
}

/// Substitute the `{godot}` / `{project}` placeholders in a configured command, and treat a bare
/// `godot` program name as `{godot}`. The error names the placeholder that could not be filled.
pub fn expand_command(cmd: &[String], godot: Option<&str>, project: Option<&str>) -> (r: Result<
    Vec<String>,
    String,
>)
    ensures
        match r {
            Ok(v) => expanded(text::texts(cmd@), text::opt_str(godot), text::opt_str(project))
                == Ok::<Seq<Seq<char>>, Seq<char>>(text::texts(v@)),
            Err(e) => expanded(text::texts(cmd@), text::opt_str(godot), text::opt_str(project))
                == Err::<Seq<Seq<char>>, Seq<char>>(e@),
        },
{
    if cmd.len() == 0 {
        return Err("test_command is empty".to_string());
    }
    let ghost all = text::texts(cmd@);
    let ghost g = text::opt_str(godot);
    let ghost p = text::opt_str(project);
    let mut out: Vec<String> = Vec::new();
    assert(text::texts(out@) =~= Seq::<Seq<char>>::empty());
    for i in 0..cmd.len()
        invariant
            all == text::texts(cmd@),
            g == text::opt_str(godot),
            p == text::opt_str(project),
            cmd@.len() > 0,
            filled_all(all.take(i as int), g, p) == Ok::<Seq<Seq<char>>, Seq<char>>(
                text::texts(out@),
            ),
    {
        assert(all.take(i + 1).drop_last() =~= all.take(i as int));
        let part = if i == 0 && text::equal_ignoring_case(cmd[i].as_str(), "godot") {
            "{godot}"
        } else {
            cmd[i].as_str()
        };
        match fill(part, godot, project) {
            Ok(s) => {
                proof {
                    text::lemma_texts_push(out@, s);
                }
                out.push(s);
            },
            Err(e) => {
                proof {
                    lemma_failure_stays(all, i + 1, g, p);
                }
                return Err(e);
            },
        }
    }
    assert(all.take(all.len() as int) =~= all);
    Ok(out)
}

/// A command that cannot be filled up to some part cannot be filled.
proof fn lemma_failure_stays(
    cmd: Seq<Seq<char>>,
    n: int,
    godot: Option<Seq<char>>,
    project: Option<Seq<char>>,
)
    requires
        0 <= n <= cmd.len(),
        filled_all(cmd.take(n), godot, project) is Err,
    ensures
        filled_all(cmd, godot, project) == filled_all(cmd.take(n), godot, project),
    decreases cmd.len() - n,
{
    if n < cmd.len() {
        assert(cmd.take(n + 1).drop_last() =~= cmd.take(n));
        lemma_failure_stays(cmd, n + 1, godot, project);
    } else {
        assert(cmd.take(n) =~= cmd);
    }
}

/// A command without placeholders, and without a bare `godot` as its program, is run as it is,
/// whatever was discovered.
pub proof fn law_a_plain_command_is_left_alone(
    cmd: Seq<Seq<char>>,
    godot: Option<Seq<char>>,
    project: Option<Seq<char>>,
)
    requires
        cmd.len() > 0,
        !text::alike(cmd[0], "godot"@),
        forall|i: int|
            0 <= i < cmd.len() ==> !text::has(#[trigger] cmd[i], "{godot}"@) && !text::has(
                cmd[i],
                "{project}"@,
            ),
    ensures
        expanded(cmd, godot, project) == Ok::<Seq<Seq<char>>, Seq<char>>(cmd),
{
    lemma_plain_parts(cmd, cmd.len() as int, godot, project);
    assert(cmd.take(cmd.len() as int) =~= cmd);
}

proof fn lemma_plain_parts(
    cmd: Seq<Seq<char>>,
    n: int,
    godot: Option<Seq<char>>,
    project: Option<Seq<char>>,
)
    requires
        0 <= n <= cmd.len(),
        cmd.len() > 0,
        !text::alike(cmd[0], "godot"@),
        forall|i: int|
            0 <= i < cmd.len() ==> !text::has(#[trigger] cmd[i], "{godot}"@) && !text::has(
                cmd[i],
                "{project}"@,
            ),
    ensures
        filled_all(cmd.take(n), godot, project) == Ok::<Seq<Seq<char>>, Seq<char>>(cmd.take(n)),
    decreases n,
{
    if n > 0 {
        lemma_plain_parts(cmd, n - 1, godot, project);
        assert(cmd.take(n).drop_last() =~= cmd.take(n - 1));
        assert(cmd.take(n - 1).push(cmd[n - 1]) =~= cmd.take(n));
    } else {
        assert(cmd.take(0) =~= Seq::<Seq<char>>::empty());
    }
}

/// An expanded command has as many parts as its template.
pub proof fn law_expansion_keeps_the_length(
    cmd: Seq<Seq<char>>,
    godot: Option<Seq<char>>,
    project: Option<Seq<char>>,
)
    ensures
        expanded(cmd, godot, project) is Ok ==> expanded(cmd, godot, project)->Ok_0.len()
            == cmd.len() > 0,
{
    lemma_parts_stay(cmd, godot, project);
}

proof fn lemma_parts_stay(
    cmd: Seq<Seq<char>>,
    godot: Option<Seq<char>>,
    project: Option<Seq<char>>,
)
    ensures
        filled_all(cmd, godot, project) is Ok ==> filled_all(cmd, godot, project)->Ok_0.len()
            == cmd.len(),
    decreases cmd.len(),
{
    if cmd.len() > 0 {
        lemma_parts_stay(cmd.drop_last(), godot, project);
    }
}

/// Where both are known, every command but the empty one can be expanded.
pub proof fn law_a_command_expands_where_both_are_known(
    cmd: Seq<Seq<char>>,
    godot: Seq<char>,
    project: Seq<char>,
)
    requires
        cmd.len() > 0,
    ensures
        expanded(cmd, Some(godot), Some(project)) is Ok,
{
    lemma_parts_expand(cmd, godot, project);
}

proof fn lemma_parts_expand(cmd: Seq<Seq<char>>, godot: Seq<char>, project: Seq<char>)
    ensures
        filled_all(cmd, Some(godot), Some(project)) is Ok,
    decreases cmd.len(),
{
    if cmd.len() > 0 {
        lemma_parts_expand(cmd.drop_last(), godot, project);
    }
}

// ---- what settings and commands are for ----------------------------------------------------------

/// A placeholder: a brace in front and no other brace of that kind.
spec fn opens_once(pat: Seq<char>) -> bool {
    &&& pat.len() > 1
    &&& pat[0] == '{'
    &&& forall|i: int| 0 < i < pat.len() ==> #[trigger] pat[i] != '{'
}

/// A placeholder that stands in a text with another in its middle stands in front of that or behind
/// it.
proof fn lemma_placeholders_do_not_overlap(
    a: Seq<char>,
    word: Seq<char>,
    b: Seq<char>,
    pat: Seq<char>,
    i: int,
)
    requires
        opens_once(word),
        opens_once(pat),
        text::occurs_at(a + word + b, pat, i),
    ensures
        text::has(a, pat) || text::has(b, pat) || (i == a.len() && pat[1] == word[1]),
        i < a.len() ==> text::has(a, pat),
        i > a.len() ==> text::has(b, pat),
{
    let s = a + word + b;
    let cut = s.subrange(i, i + pat.len());
    assert forall|k: int| 0 <= k < pat.len() implies s[i + k] == #[trigger] pat[k] by {
        assert(cut[k] == s[i + k]);
    }
    if i < a.len() {
        if i + pat.len() > a.len() {
            assert(s[a.len() as int] == word[0]);
            assert(s[i + (a.len() - i)] == pat[a.len() - i]);
        } else {
            assert(a.subrange(i, i + pat.len()) =~= cut);
            assert(text::occurs_at(a, pat, i));
        }
    } else if i == a.len() {
        assert(s[i + 1] == pat[1]);
        assert(s[i + 1] == word[1]);
    } else if i < a.len() + word.len() {
        assert(s[i + 0] == pat[0]);
        assert(s[i] == word[i - a.len()]);
    } else {
        let j = i - a.len() - word.len();
        assert(b.subrange(j, j + pat.len()) =~= cut);
        assert(text::occurs_at(b, pat, j));
    }
}

proof fn lemma_the_placeholders()
    ensures
        opens_once("{godot}"@),
        opens_once("{project}"@),
        "{godot}"@[1] != "{project}"@[1],
{
    reveal_strlit("{godot}");
    reveal_strlit("{project}");
}

/// What stands around `{project}` is kept, and the project stands where the placeholder stood; where
/// none is known, that is what the error names.
pub proof fn law_the_project_fills_its_placeholder(
    a: Seq<char>,
    b: Seq<char>,
    godot: Option<Seq<char>>,
    p: Seq<char>,
)
    requires
        !text::has(a, "{godot}"@) && !text::has(b, "{godot}"@),
        !text::has(a, "{project}"@) && !text::has(b, "{project}"@),
    ensures
        filled(a + "{project}"@ + b, godot, Some(p)) == Ok::<Seq<char>, Seq<char>>(a + p + b),
        filled(a + "{project}"@ + b, godot, None) is Err,
        text::has(filled(a + "{project}"@ + b, godot, None)->Err_0, "{project}"@),
        filled(a, godot, None) == Ok::<Seq<char>, Seq<char>>(a),
        filled(a, godot, Some(p)) == Ok::<Seq<char>, Seq<char>>(a),
{
    let word = "{project}"@;
    let s = a + word + b;
    lemma_the_placeholders();
    text::law_a_text_is_found_where_it_stands(s, a, word, b);
    if text::has(s, "{godot}"@) {
        let i = choose|i: int| text::occurs_at(s, "{godot}"@, i);
        lemma_placeholders_do_not_overlap(a, word, b, "{godot}"@, i);
    }
    assert forall|i: int| 0 <= i < a.len() implies !#[trigger] text::occurs_at(s, word, i) by {
        if text::occurs_at(s, word, i) {
            lemma_placeholders_do_not_overlap(a, word, b, word, i);
        }
    }
    text::law_replacing_keeps_what_stands_around(a, word, b, p);
    reveal_strlit("test_command uses {project} but no Godot project was found");
    reveal_strlit("{project}");
    let e = "test_command uses {project} but no Godot project was found"@;
    assert(e.subrange(18, 27) =~= word);
    assert(text::occurs_at(e, word, 18));
}

/// What stands around `{godot}` is kept, and the binary stands where the placeholder stood; where
/// none is known, that is what the error names.
pub proof fn law_the_binary_fills_its_placeholder(
    a: Seq<char>,
    b: Seq<char>,
    g: Seq<char>,
    project: Option<Seq<char>>,
)
    requires
        !text::has(a, "{godot}"@) && !text::has(b, "{godot}"@),
    ensures
        !text::has(a + g + b, "{project}"@) ==> filled(a + "{godot}"@ + b, Some(g), project) == Ok::<
            Seq<char>,
            Seq<char>,
        >(a + g + b),
        !text::has(a + g + b, "{godot}"@) ==> filled(a + "{godot}"@ + b, Some(g), project) == filled(
            a + g + b,
            None,
            project,
        ),
        filled(a + "{godot}"@ + b, None, project) is Err,
        text::has(filled(a + "{godot}"@ + b, None, project)->Err_0, "{godot}"@),
{
    let word = "{godot}"@;
    let s = a + word + b;
    lemma_the_placeholders();
    text::law_a_text_is_found_where_it_stands(s, a, word, b);
    assert forall|i: int| 0 <= i < a.len() implies !#[trigger] text::occurs_at(s, word, i) by {
        if text::occurs_at(s, word, i) {
            lemma_placeholders_do_not_overlap(a, word, b, word, i);
        }
    }
    text::law_replacing_keeps_what_stands_around(a, word, b, g);
    reveal_strlit("test_command uses {godot} but no Godot binary is configured");
    reveal_strlit("{godot}");
    let e = "test_command uses {godot} but no Godot binary is configured"@;
    assert(e.subrange(18, 25) =~= word);
    assert(text::occurs_at(e, word, 18));
}

/// A command is expanded part by part and in order: each part of the result is its own part filled,
/// and a program called `godot`, in any case, is the binary. It fails exactly when it is empty or one
/// of its parts cannot be filled.
pub proof fn law_a_command_is_expanded_part_by_part(
    cmd: Seq<Seq<char>>,
    godot: Option<Seq<char>>,
    project: Option<Seq<char>>,
    i: int,
)
    requires
        0 <= i < cmd.len(),
    ensures
        expanded(Seq::empty(), godot, project) is Err,
        expanded(cmd, godot, project) matches Ok(words) ==> {
            &&& words.len() == cmd.len()
            &&& i > 0 || !text::alike(cmd[0], "godot"@) ==> filled(cmd[i], godot, project) == Ok::<
                Seq<char>,
                Seq<char>,
            >(words[i])
            &&& text::alike(cmd[0], "godot"@) ==> godot is Some
            &&& text::alike(cmd[0], "godot"@) && !text::has(godot->Some_0, "{project}"@) ==> words[0]
                == godot->Some_0
        },
        (i > 0 || !text::alike(cmd[0], "godot"@)) && filled(cmd[i], godot, project) is Err
            ==> expanded(cmd, godot, project) is Err,
        text::alike(cmd[0], "godot"@) && godot is None ==> expanded(cmd, godot, project) is Err,
{
    lemma_a_part_of_the_command(cmd, godot, project, i);
    lemma_a_part_of_the_command(cmd, godot, project, 0);
    let empty = Seq::<char>::empty();
    lemma_the_placeholders();
    reveal_strlit("{godot}");
    assert(!text::has(empty, "{godot}"@)) by {
        if text::has(empty, "{godot}"@) {
            let k = choose|k: int| text::occurs_at(empty, "{godot}"@, k);
        }
    }
    if godot is Some {
        law_the_binary_fills_its_placeholder(empty, empty, godot->Some_0, project);
        assert(empty + godot->Some_0 + empty =~= godot->Some_0);
    }
    law_the_binary_fills_its_placeholder(empty, empty, empty, project);
    assert(empty + "{godot}"@ + empty =~= "{godot}"@);
}

proof fn lemma_a_part_of_the_command(
    cmd: Seq<Seq<char>>,
    godot: Option<Seq<char>>,
    project: Option<Seq<char>>,
    i: int,
)
    requires
        0 <= i < cmd.len(),
    ensures
        filled_all(cmd, godot, project) matches Ok(words) ==> words.len() == cmd.len() && filled(
            template(i, cmd[i]),
            godot,
            project,
        ) == Ok::<Seq<char>, Seq<char>>(words[i]),
        filled(template(i, cmd[i]), godot, project) is Err ==> filled_all(
            cmd,
            godot,
            project,
        ) is Err,
    decreases cmd.len(),
{
    let front = cmd.drop_last();
    lemma_parts_stay(front, godot, project);
    if i < front.len() {
        lemma_a_part_of_the_command(front, godot, project, i);
        assert(front[i] == cmd[i]);
    }
}

/// The per-user directory is taken from the first of the three that is set, and what is kept there
/// stands under it in a directory of this toolkit's own.
pub proof fn law_data_is_kept_under_the_users_directory(env: DataDirs)
    requires
        !is_set(env.gdkit) && !is_set(env.plugin),
    ensures
        is_set(env.local) && !path::is_verbatim(env.local->Some_0) ==> text::begins(
            data_dir(env),
            env.local->Some_0,
        ) && text::finishes(data_dir(env), "gdkit"@),
        !is_set(env.local) && is_set(env.xdg) && !path::is_verbatim(env.xdg->Some_0)
            ==> text::begins(data_dir(env), env.xdg->Some_0) && text::finishes(
            data_dir(env),
            "gdkit"@,
        ),
        !is_set(env.local) && !is_set(env.xdg) && is_set(env.home) ==> data_dir(env)
            == path::joined(
            path::joined(path::joined(env.home->Some_0, ".local"@), "share"@),
            "gdkit"@,
        ),
        !is_set(env.local) && !is_set(env.xdg) && !is_set(env.home) ==> data_dir(env) == ".gdkit"@,
{
    reveal_strlit("gdkit");
    let name = "gdkit"@;
    assert(path::prefix_len(name) == 0 && !path::is_rooted(name));
    if is_set(env.local) && !path::is_verbatim(env.local->Some_0) {
        path::law_a_relative_piece_stays_under_its_base(env.local->Some_0, name);
    }
    if is_set(env.xdg) && !path::is_verbatim(env.xdg->Some_0) {
        path::law_a_relative_piece_stays_under_its_base(env.xdg->Some_0, name);
    }
}

/// A value counts as set exactly when there is one that holds more than blanks.
pub proof fn law_what_is_set(v: Option<Seq<char>>)
    ensures
        is_set(v) <==> v is Some && exists|i: int|
            0 <= i < v->Some_0.len() && !text::is_white(#[trigger] v->Some_0[i]),
{
    if v is Some {
        text::law_what_is_blank(v->Some_0);
    }
}

/// The environment is asked for each directory in turn, until one is set.
pub proof fn law_what_the_environment_is_asked<F: Fn(&str) -> Option<String>>(
    env: F,
    gdkit: Option<String>,
    plugin: Option<String>,
    local: Option<String>,
    xdg: Option<String>,
    home: Option<String>,
)
    requires
        asked(env, gdkit, plugin, local, xdg, home),
    ensures
        call_ensures(env, ("GDKIT_DATA_DIR",), gdkit),
        gdkit is None ==> call_ensures(env, ("CLAUDE_PLUGIN_DATA",), plugin),
        gdkit is None && plugin is None ==> call_ensures(env, ("LOCALAPPDATA",), local),
        gdkit is None && plugin is None && local is None ==> call_ensures(
            env,
            ("XDG_DATA_HOME",),
            xdg,
        ),
        gdkit is None && plugin is None && local is None && xdg is None ==> call_ensures(
            env,
            ("HOME",),
            home,
        ),
{
}

} // verus!
