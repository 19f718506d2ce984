//! Configuration and discovery.
//!
//! Settles the Godot binary, the target project directory, and the data directory holding persisted
//! settings, from what was asked of the environment and the disk. Nothing here hard-fails: tools
//! that need Godot check `godot_bin` and return a clear error if it is missing.
//!
//! Precedence for the Godot binary: `GODOT_BIN`, then the persisted `godot_bin`, then `PATH`, then
//! common install locations. Precedence for the project dir: `GODOT_PROJECT`, then the persisted
//! `project_dir`, then `CLAUDE_PROJECT_DIR`, then the current dir.
use vstd::prelude::*;

use crate::path;
use crate::settings;
use crate::settings::Settings;
use crate::text;

verus! {

pub struct Config {
    /// Godot executable. On Windows the console build is preferred so the child's output can be
    /// captured (the plain build detaches from the console).
    pub godot_bin: Option<String>,
    /// Project directory containing `project.godot`. Optional: some tools don't need it.
    pub project_dir: Option<String>,
    /// Writable directory that survives plugin updates: settings file and API-reference cache.
    pub data_dir: String,
    /// The persisted overrides that fed this resolution.
    pub settings: Settings,
}

impl Default for Config {
    fn default() -> (r: Self)
        ensures
            r.godot_bin is None,
            r.project_dir is None,
            r.data_dir@ == Seq::<char>::empty(),
            r.settings@ == settings::SettingsText::nothing(),
    {
        Config {
            godot_bin: None,
            project_dir: None,
            data_dir: String::new(),
            settings: Settings::default(),
        }
    }
}

// ---- candidates ---------------------------------------------------------------------------------

/// The values that say something, in order.
pub open spec fn given(values: Seq<Option<Seq<char>>>) -> Seq<Seq<char>>
    decreases values.len(),
{
    if values.len() == 0 {
        Seq::empty()
    } else if settings::is_set(values.last()) {
        given(values.drop_last()).push(values.last()->Some_0)
    } else {
        given(values.drop_last())
    }
}

/// Add a value to the candidates where it says something.
fn add_given(out: &mut Vec<String>, value: Option<&str>)
    ensures
        text::texts(final(out)@) == text::texts(old(out)@) + given(seq![text::opt_str(value)]),
{
    proof {
        reveal_with_fuel(given, 2);
        let one = seq![text::opt_str(value)];
        assert(one.drop_last() =~= Seq::<Option<Seq<char>>>::empty());
    }
    if let Some(s) = value {
        if !text::blank(s) {
            let copy = s.to_string();
            proof {
                text::lemma_texts_push(out@, copy);
            }
            out.push(copy);
        }
    }
    assert(text::texts(out@) =~= text::texts(old(out)@) + given(seq![text::opt_str(value)]));
}

proof fn lemma_given_push(values: Seq<Option<Seq<char>>>, value: Option<Seq<char>>)
    ensures
        given(values.push(value)) == given(values) + given(seq![value]),
{
    reveal_with_fuel(given, 2);
    assert(values.push(value).drop_last() =~= values);
    assert(seq![value].drop_last() =~= Seq::<Option<Seq<char>>>::empty());
    assert(given(values.push(value)) =~= given(values) + given(seq![value]));
}

/// The explicit Godot binaries, highest precedence first.
pub open spec fn override_texts(
    env_godot: Option<Seq<char>>,
    saved: settings::SettingsText,
) -> Seq<Seq<char>> {
    given(seq![env_godot, saved.godot_bin])
}

/// Explicit Godot-binary candidates, highest precedence first. Checked before any discovery so a
/// deliberate choice always wins over whatever happens to be installed.
pub fn godot_overrides(env_godot: Option<&str>, settings: &Settings) -> (r: Vec<String>)
    ensures
        text::texts(r@) == override_texts(text::opt_str(env_godot), settings@),
{
    let mut out: Vec<String> = Vec::new();
    assert(text::texts(out@) =~= given(Seq::empty()));
    add_given(&mut out, env_godot);
    add_given(&mut out, text::borrowed(&settings.godot_bin));
    proof {
        let a = text::opt_str(env_godot);
        let b = settings@.godot_bin;
        lemma_given_push(Seq::empty(), a);
        assert(Seq::empty().push(a) =~= seq![a]);
        lemma_given_push(seq![a], b);
        assert(seq![a].push(b) =~= seq![a, b]);
    }
    out
}

/// The project directories to look at, highest precedence first.
pub open spec fn project_texts(
    env_project: Option<Seq<char>>,
    saved: settings::SettingsText,
    env_claude: Option<Seq<char>>,
    cwd: Option<Seq<char>>,
) -> Seq<Seq<char>> {
    given(seq![env_project, saved.project_dir, env_claude]) + match cwd {
        Some(dir) => seq![dir],
        None => Seq::empty(),
    }
}

/// Project-directory candidates, highest precedence first.
pub fn project_candidates(
    env_project: Option<&str>,
    settings: &Settings,
    env_claude: Option<&str>,
    cwd: Option<String>,
) -> (r: Vec<String>)
    ensures
        text::texts(r@) == project_texts(
            text::opt_str(env_project),
            settings@,
            text::opt_str(env_claude),
            text::opt_text(cwd),
        ),
{
    let mut out: Vec<String> = Vec::new();
    assert(text::texts(out@) =~= given(Seq::empty()));
    add_given(&mut out, env_project);
    add_given(&mut out, text::borrowed(&settings.project_dir));
    add_given(&mut out, env_claude);
    proof {
        let a = text::opt_str(env_project);
        let b = settings@.project_dir;
        let c = text::opt_str(env_claude);
        lemma_given_push(Seq::empty(), a);
        assert(Seq::empty().push(a) =~= seq![a]);
        lemma_given_push(seq![a], b);
        assert(seq![a].push(b) =~= seq![a, b]);
        lemma_given_push(seq![a, b], c);
        assert(seq![a, b].push(c) =~= seq![a, b, c]);
    }
    let ghost front = text::texts(out@);
    match cwd {
        Some(dir) => {
            proof {
                text::lemma_texts_push(out@, dir);
            }
            out.push(dir);
        },
        None => {},
    }
    assert(text::texts(out@) =~= front + match text::opt_text(cwd) {
        Some(dir) => seq![dir],
        None => Seq::empty(),
    });
    out
}

/// Where all four are known, `GODOT_PROJECT` comes first, then the saved directory, then
/// `CLAUDE_PROJECT_DIR`, then the current directory, which always comes last.
pub proof fn law_project_precedence(
    env_project: Option<Seq<char>>,
    saved: settings::SettingsText,
    env_claude: Option<Seq<char>>,
    cwd: Seq<char>,
)
    ensures
        settings::is_set(env_project) && settings::is_set(saved.project_dir) && settings::is_set(
            env_claude,
        ) ==> project_texts(env_project, saved, env_claude, Some(cwd)) == seq![
            env_project->Some_0,
            saved.project_dir->Some_0,
            env_claude->Some_0,
            cwd,
        ],
        project_texts(env_project, saved, env_claude, Some(cwd)).last() == cwd,
        settings::is_set(env_project) ==> project_texts(
            env_project,
            saved,
            env_claude,
            Some(cwd),
        )[0] == env_project->Some_0,
        !settings::is_set(env_project) && settings::is_set(saved.project_dir) ==> project_texts(
            env_project,
            saved,
            env_claude,
            Some(cwd),
        )[0] == saved.project_dir->Some_0,
{
    reveal_with_fuel(given, 4);
    let three = seq![env_project, saved.project_dir, env_claude];
    assert(three.drop_last() =~= seq![env_project, saved.project_dir]);
    assert(seq![env_project, saved.project_dir].drop_last() =~= seq![env_project]);
    assert(seq![env_project].drop_last() =~= Seq::<Option<Seq<char>>>::empty());
}

/// Blank values are never candidates.
pub proof fn law_a_blank_value_is_no_candidate(values: Seq<Option<Seq<char>>>, i: int)
    requires
        0 <= i < given(values).len(),
    ensures
        !text::is_blank(given(values)[i]),
    decreases values.len(),
{
    if values.len() > 0 {
        let front = given(values.drop_last());
        if i < front.len() {
            law_a_blank_value_is_no_candidate(values.drop_last(), i);
        }
    }
}

// ---- what is on disk ----------------------------------------------------------------------------

/// A candidate and what the disk says of it.
pub struct Probe {
    pub path: String,
    /// What was looked for is there: the file itself, or the `project.godot` inside it.
    pub present: bool,
    /// The candidate's absolute form, where the system could give one.
    pub absolute: Option<String>,
}

/// What a probe says.
pub struct ProbeText {
    pub path: Seq<char>,
    pub present: bool,
    pub absolute: Option<Seq<char>>,
}

impl View for Probe {
    type V = ProbeText;

    open spec fn view(&self) -> ProbeText {
        ProbeText {
            path: self.path@,
            present: self.present,
            absolute: text::opt_text(self.absolute),
        }
    }
}

pub open spec fn probe_texts(v: Seq<Probe>) -> Seq<ProbeText> {
    v.map_values(|p: Probe| p@)
}

/// The first candidate that is present, or the count when none is.
pub open spec fn first_found(probes: Seq<ProbeText>) -> int
    decreases probes.len(),
{
    if probes.len() == 0 || probes[0].present {
        0
    } else {
        1 + first_found(probes.skip(1))
    }
}

/// The absolute form of the first candidate that is present.
pub open spec fn picked(probes: Seq<ProbeText>) -> Option<Seq<char>> {
    if first_found(probes) < probes.len() {
        probes[first_found(probes)].absolute
    } else {
        None
    }
}

fn find_found(probes: &[Probe]) -> (r: usize)
    ensures
        r == first_found(probe_texts(probes@)),
        r <= probes@.len(),
{
    let mut i: usize = 0;
    let ghost all = probe_texts(probes@);
    assert(all.skip(0) == all);
    while i < probes.len() && !probes[i].present
        invariant
            all == probe_texts(probes@),
            i <= probes@.len(),
            first_found(all) == i + first_found(all.skip(i as int)),
        decreases probes@.len() - i,
    {
        assert(all.skip(i as int)[0] == probes@[i as int]@);
        assert(all.skip(i as int).skip(1) == all.skip(i + 1));
        i = i + 1;
    }
    if i < probes.len() {
        assert(all.skip(i as int)[0] == probes@[i as int]@);
    }
    i
}

pub open spec fn stale_text(path: Seq<char>) -> Seq<char> {
    "configured Godot binary is not a file: "@ + path
}

/// One warning for each candidate before the first that is present.
pub open spec fn stale_texts(probes: Seq<ProbeText>) -> Seq<Seq<char>> {
    probes.take(first_found(probes)).map_values(|p: ProbeText| stale_text(p.path))
}

/// First candidate that exists as a file, and the warnings to log: a candidate that does not exist
/// is named rather than skipped silently, since a stale override is the likeliest cause of "why is
/// it using the wrong Godot".
pub fn first_existing_file(candidates: &[Probe]) -> (r: (Option<String>, Vec<String>))
    ensures
        text::opt_text(r.0) == picked(probe_texts(candidates@)),
        text::texts(r.1@) == stale_texts(probe_texts(candidates@)),
{
    let at: usize = find_found(candidates);
    let mut warnings: Vec<String> = Vec::new();
    for i in 0..at
        invariant
            at <= candidates@.len(),
            warnings@.len() == i,
            forall|j: int|
                0 <= j < i ==> #[trigger] warnings@[j]@ == stale_text(candidates@[j].path@),
    {
        let mut line = "configured Godot binary is not a file: ".to_string();
        line.append(candidates[i].path.as_str());
        warnings.push(line);
    }
    assert(text::texts(warnings@) =~= stale_texts(probe_texts(candidates@)));
    let found = if at < candidates.len() {
        text::copy_opt(&candidates[at].absolute)
    } else {
        None
    };
    (found, warnings)
}

/// First candidate directory that actually holds a `project.godot`.
pub fn first_project_dir(candidates: &[Probe]) -> (r: Option<String>)
    ensures
        text::opt_text(r) == picked(probe_texts(candidates@)),
{
    let at: usize = find_found(candidates);
    if at < candidates.len() {
        text::copy_opt(&candidates[at].absolute)
    } else {
        None
    }
}

/// The candidate that is picked is present, and none before it is.
pub proof fn law_the_first_present_candidate_is_picked(probes: Seq<ProbeText>, i: int)
    requires
        0 <= i <= first_found(probes),
    ensures
        0 <= first_found(probes) <= probes.len(),
        i < first_found(probes) ==> !probes[i].present,
        i == first_found(probes) && i < probes.len() ==> probes[i].present && picked(probes)
            == probes[i].absolute,
    decreases probes.len(),
{
    if probes.len() > 0 && !probes[0].present {
        if i > 0 {
            law_the_first_present_candidate_is_picked(probes.skip(1), i - 1);
            assert(probes.skip(1)[i - 1] == probes[i] || i == probes.len());
        } else {
            lemma_found_is_within(probes.skip(1));
        }
    }
}

proof fn lemma_found_is_within(probes: Seq<ProbeText>)
    ensures
        0 <= first_found(probes) <= probes.len(),
    decreases probes.len(),
{
    if probes.len() > 0 && !probes[0].present {
        lemma_found_is_within(probes.skip(1));
    }
}

// ---- discovery ----------------------------------------------------------------------------------

/// Where an executable named like Godot's may stand on `PATH`, in the order it is looked for.
pub open spec fn on_path_texts(dirs: Seq<Seq<char>>) -> Seq<Seq<char>> {
    dirs.map_values(|d: Seq<char>| path::joined(d, "godot.exe"@)) + dirs.map_values(
        |d: Seq<char>| path::joined(d, "godot"@),
    )
}

fn beside(dirs: &[String], name: &str) -> (r: Vec<String>)
    ensures
        text::texts(r@) == text::texts(dirs@).map_values(|d: Seq<char>| path::joined(d, name@)),
{
    let mut out: Vec<String> = Vec::new();
    for i in 0..dirs.len()
        invariant
            out@.len() == i,
            forall|j: int|
                0 <= j < i ==> #[trigger] out@[j]@ == path::joined(dirs@[j]@, name@),
    {
        out.push(path::join(dirs[i].as_str(), name));
    }
    assert(text::texts(out@) =~= text::texts(dirs@).map_values(
        |d: Seq<char>| path::joined(d, name@),
    ));
    out
}

/// The executables to look for on `PATH`, given its directories: `godot.exe` in each, then `godot`
/// in each.
pub fn which_on_path(dirs: &[String]) -> (r: Vec<String>)
    ensures
        text::texts(r@) == on_path_texts(text::texts(dirs@)),
{
    let mut out = beside(dirs, "godot.exe");
    let mut rest = beside(dirs, "godot");
    let ghost a = out@;
    let ghost b = rest@;
    out.append(&mut rest);
    assert(text::texts(out@) =~= text::texts(a) + text::texts(b));
    out
}

/// A directory, and a directory inside it.
pub open spec fn install_texts(base: Option<Seq<char>>) -> Seq<Seq<char>> {
    match base {
        Some(v) => seq![path::joined(v, "Godot"@), v],
        None => Seq::empty(),
    }
}

pub open spec fn profile_texts(base: Option<Seq<char>>) -> Seq<Seq<char>> {
    match base {
        Some(up) => seq![path::joined(up, "Desktop"@), path::joined(up, "Downloads"@)],
        None => Seq::empty(),
    }
}

fn install_dirs(base: Option<String>) -> (r: Vec<String>)
    ensures
        text::texts(r@) == install_texts(text::opt_text(base)),
{
    let mut out: Vec<String> = Vec::new();
    if let Some(v) = base {
        out.push(path::join(v.as_str(), "Godot"));
        out.push(v);
    }
    assert(text::texts(out@) =~= install_texts(text::opt_text(base)));
    out
}

/// Windows locations worth probing for a manually-installed Godot, given what the environment says
/// of `USERPROFILE`, `ProgramFiles`, `ProgramFiles(x86)` and `LOCALAPPDATA`.
pub fn common_godot_dirs(
    user_profile: Option<String>,
    program_files: Option<String>,
    program_files_x86: Option<String>,
    local_app_data: Option<String>,
) -> (r: Vec<String>)
    ensures
        text::texts(r@) == profile_texts(text::opt_text(user_profile)) + install_texts(
            text::opt_text(program_files),
        ) + install_texts(text::opt_text(program_files_x86)) + install_texts(
            text::opt_text(local_app_data),
        ),
{
    let mut out: Vec<String> = Vec::new();
    if let Some(up) = &user_profile {
        out.push(path::join(up.as_str(), "Desktop"));
        out.push(path::join(up.as_str(), "Downloads"));
    }
    assert(text::texts(out@) =~= profile_texts(text::opt_text(user_profile)));
    let ghost p0 = text::texts(out@);
    let mut a = install_dirs(program_files);
    let mut b = install_dirs(program_files_x86);
    let mut c = install_dirs(local_app_data);
    let ghost pa = text::texts(a@);
    let ghost pb = text::texts(b@);
    let ghost pc = text::texts(c@);
    out.append(&mut a);
    assert(text::texts(out@) =~= p0 + pa);
    out.append(&mut b);
    assert(text::texts(out@) =~= p0 + pa + pb);
    out.append(&mut c);
    assert(text::texts(out@) =~= p0 + pa + pb + pc);
    out
}

/// A directory entry: its path, and its own name (empty where that is not Unicode).
pub struct Found {
    pub path: String,
    pub name: String,
}

/// The entry's name as it is compared.
pub open spec fn lower_name(f: Found) -> Seq<char> {
    text::lowered(f.name@)
}

/// A file named like a Godot executable.
pub open spec fn is_godot_name(lower: Seq<char>) -> bool {
    text::begins(lower, "godot"@) && text::finishes(lower, ".exe"@)
}

/// Whether the first name is preferred: a console build before any other (it writes to stdout, so
/// its log can be captured), then the lexically later name (roughly the later version).
pub open spec fn outranks(a: Seq<char>, b: Seq<char>) -> bool {
    if text::has(a, "console"@) == text::has(b, "console"@) {
        text::before(b, a)
    } else {
        text::has(a, "console"@)
    }
}

/// Which of the names is preferred over all others; of equal ones, the last.
pub open spec fn best_of(names: Seq<Seq<char>>) -> Option<int>
    decreases names.len(),
{
    if names.len() == 0 {
        None
    } else if !is_godot_name(names.last()) {
        best_of(names.drop_last())
    } else {
        match best_of(names.drop_last()) {
            None => Some(names.len() - 1),
            Some(i) => if outranks(names[i], names.last()) {
                Some(i)
            } else {
                Some(names.len() - 1)
            },
        }
    }
}

fn preferred(a: &str, b: &str) -> (r: bool)
    ensures
        r == outranks(a@, b@),
{
    let x = text::contains(a, "console");
    let y = text::contains(b, "console");
    if x == y {
        text::less(b, a)
    } else {
        x
    }
}

fn looks_like_godot(lower: &str) -> (r: bool)
    ensures
        r == is_godot_name(lower@),
{
    text::starts_with(lower, "godot") && text::ends_with(lower, ".exe")
}

/// Pick among lower-case file names, by index.
pub fn best_name(names: &[String]) -> (r: Option<usize>)
    ensures
        match r {
            Some(i) => i < names@.len() && best_of(text::texts(names@)) == Some(i as int),
            None => best_of(text::texts(names@)) is None,
        },
{
    let ghost all = text::texts(names@);
    let mut best: Option<usize> = None;
    for i in 0..names.len()
        invariant
            all == text::texts(names@),
            match best {
                Some(k) => k < i && best_of(all.take(i as int)) == Some(k as int),
                None => best_of(all.take(i as int)) is None,
            },
    {
        assert(all.take(i + 1).drop_last() =~= all.take(i as int));
        if looks_like_godot(names[i].as_str()) {
            best = match best {
                None => Some(i),
                Some(k) => if preferred(names[k].as_str(), names[i].as_str()) {
                    Some(k)
                } else {
                    Some(i)
                },
            };
        }
    }
    assert(all.take(all.len() as int) =~= all);
    best
}

/// The binary that discovery gives, before it is made absolute.
pub open spec fn discovered(on_path: Seq<ProbeText>, found: Seq<Found>) -> Option<Seq<char>> {
    if first_found(on_path) < on_path.len() {
        Some(on_path[first_found(on_path)].path)
    } else {
        match best_of(found.map_values(|f: Found| lower_name(f))) {
            Some(i) => Some(found[i].path@),
            None => None,
        }
    }
}

/// `PATH`, then common install locations. Console build preferred.
pub fn discover_godot(on_path: &[Probe], found: &[Found]) -> (r: Option<String>)
    ensures
        text::opt_text(r) == discovered(probe_texts(on_path@), found@),
{
    let at: usize = find_found(on_path);
    if at < on_path.len() {
        return Some(on_path[at].path.clone());
    }
    let mut names: Vec<String> = Vec::new();
    for i in 0..found.len()
        invariant
            names@.len() == i,
            forall|j: int| 0 <= j < i ==> #[trigger] names@[j]@ == lower_name(found@[j]),
    {
        names.push(text::lower(found[i].name.as_str()));
    }
    assert(text::texts(names@) =~= found@.map_values(|f: Found| lower_name(f)));
    match best_name(&names) {
        Some(i) => Some(found[i].path.clone()),
        None => None,
    }
}

/// No other Godot executable outranks the one that is picked.
pub proof fn law_the_best_binary_is_picked(names: Seq<Seq<char>>, k: int)
    requires
        0 <= k < names.len(),
        is_godot_name(names[k]),
    ensures
        best_of(names) is Some,
        0 <= best_of(names)->Some_0 < names.len(),
        is_godot_name(names[best_of(names)->Some_0]),
        !outranks(names[k], names[best_of(names)->Some_0]),
    decreases names.len(),
{
    let last = names.last();
    let front = names.drop_last();
    if k < names.len() - 1 {
        law_the_best_binary_is_picked(front, k);
        let i = best_of(front)->Some_0;
        assert(front[i] == names[i] && front[k] == names[k]);
        if is_godot_name(last) && !outranks(names[i], last) {
            if outranks(names[k], last) {
                lemma_outranks_through(names[k], last, names[i]);
            }
        }
    } else {
        text::lemma_before_irreflexive(last);
        if best_of(front) is Some {
            lemma_best_is_godot(front);
            let i = best_of(front)->Some_0;
            if outranks(names[i], last) && outranks(last, names[i]) {
                text::lemma_before_transitive(names[i], last, names[i]);
                text::lemma_before_irreflexive(names[i]);
            }
        }
    }
}

proof fn lemma_best_is_godot(names: Seq<Seq<char>>)
    requires
        best_of(names) is Some,
    ensures
        0 <= best_of(names)->Some_0 < names.len(),
        is_godot_name(names[best_of(names)->Some_0]),
    decreases names.len(),
{
    if !is_godot_name(names.last()) || best_of(names.drop_last()) is Some {
        lemma_best_is_godot(names.drop_last());
    }
}

/// What outranks a name also outranks whatever that name does not fall behind.
proof fn lemma_outranks_through(a: Seq<char>, b: Seq<char>, c: Seq<char>)
    requires
        outranks(a, b),
        !outranks(c, b),
    ensures
        outranks(a, c),
{
    text::lemma_before_total(b, c);
    if text::before(c, b) && text::before(b, a) {
        text::lemma_before_transitive(c, b, a);
    }
}

// ---- the resolved configuration -----------------------------------------------------------------

/// A candidate that is there, with its absolute form where the system could give one.
pub struct Seen {
    pub path: String,
    pub absolute: Option<String>,
}

/// Where a path is among what was seen, or the count when it is not.
pub open spec fn seen_at(seen: Seq<Seen>, path: Seq<char>) -> int
    decreases seen.len(),
{
    if seen.len() == 0 || seen[0].path@ == path {
        0
    } else {
        1 + seen_at(seen.skip(1), path)
    }
}

/// What the disk says of a candidate.
pub open spec fn looked_up(path: Seq<char>, seen: Seq<Seen>) -> ProbeText {
    ProbeText {
        path,
        present: seen_at(seen, path) < seen.len(),
        absolute: if seen_at(seen, path) < seen.len() {
            text::opt_text(seen[seen_at(seen, path)].absolute)
        } else {
            None
        },
    }
}

pub open spec fn all_looked_up(paths: Seq<Seq<char>>, seen: Seq<Seen>) -> Seq<ProbeText> {
    paths.map_values(|p: Seq<char>| looked_up(p, seen))
}

fn look_up(path: String, seen: &[Seen]) -> (r: Probe)
    ensures
        r@ == looked_up(path@, seen@),
{
    assert(seen@.skip(0) == seen@);
    for i in 0..seen.len()
        invariant
            seen_at(seen@, path@) == i + seen_at(seen@.skip(i as int), path@),
    {
        assert(seen@.skip(i as int)[0] == seen@[i as int]);
        assert(seen@.skip(i as int).skip(1) == seen@.skip(i + 1));
        if text::same(seen[i].path.as_str(), path.as_str()) {
            return Probe { path, present: true, absolute: text::copy_opt(&seen[i].absolute) };
        }
    }
    Probe { path, present: false, absolute: None }
}

fn look_up_all(paths: Vec<String>, seen: &[Seen]) -> (r: Vec<Probe>)
    ensures
        probe_texts(r@) == all_looked_up(text::texts(paths@), seen@),
{
    let mut out: Vec<Probe> = Vec::new();
    for i in 0..paths.len()
        invariant
            out@.len() == i,
            forall|j: int| 0 <= j < i ==> #[trigger] out@[j]@ == looked_up(paths@[j]@, seen@),
    {
        out.push(look_up(paths[i].clone(), seen));
    }
    assert(probe_texts(out@) =~= all_looked_up(text::texts(paths@), seen@));
    out
}

/// What was asked of the environment and the disk.
pub struct Facts {
    /// `GODOT_BIN`
    pub env_godot: Option<String>,
    /// `GODOT_PROJECT`
    pub env_project: Option<String>,
    /// `CLAUDE_PROJECT_DIR`
    pub env_claude: Option<String>,
    /// The current directory.
    pub cwd: Option<String>,
    /// The candidates of [`godot_overrides`] that are files.
    pub files: Vec<Seen>,
    /// What [`discover_godot`] gives, in its absolute form.
    pub discovered: Option<String>,
    /// The candidates of [`project_candidates`] that hold a `project.godot`.
    pub projects: Vec<Seen>,
    /// The data directory's absolute form, where the system could give one.
    pub data_dir: Option<String>,
}

impl Facts {
    /// The explicit binaries as they were found.
    pub open spec fn overrides(self, saved: settings::SettingsText) -> Seq<ProbeText> {
        all_looked_up(override_texts(text::opt_text(self.env_godot), saved), self.files@)
    }

    /// The binary that is used: an explicit one that is a file, else the discovered one.
    pub open spec fn godot(self, saved: settings::SettingsText) -> Option<Seq<char>> {
        match picked(self.overrides(saved)) {
            Some(p) => Some(p),
            None => text::opt_text(self.discovered),
        }
    }

    /// The project that is worked on: the first candidate that holds one.
    pub open spec fn project(self, saved: settings::SettingsText) -> Option<Seq<char>> {
        picked(
            all_looked_up(
                project_texts(
                    text::opt_text(self.env_project),
                    saved,
                    text::opt_text(self.env_claude),
                    text::opt_text(self.cwd),
                ),
                self.projects@,
            ),
        )
    }
}

impl Config {
    /// Resolve with an already-loaded settings file: the path `config` takes after a write, so a
    /// new setting takes effect without restarting the server. Gives the warnings to log along.
    pub fn from_settings(data_dir: String, settings: Settings, facts: Facts) -> (r: (
        Self,
        Vec<String>,
    ))
        ensures
            text::opt_text(r.0.godot_bin) == facts.godot(settings@),
            text::opt_text(r.0.project_dir) == facts.project(settings@),
            r.0.data_dir@ == match text::opt_text(facts.data_dir) {
                Some(p) => p,
                None => data_dir@,
            },
            r.0.settings == settings,
            text::texts(r.1@) == stale_texts(facts.overrides(settings@)),
    {
        let overrides = look_up_all(
            godot_overrides(text::borrowed(&facts.env_godot), &settings),
            &facts.files,
        );
        let (explicit, warnings) = first_existing_file(&overrides);
        let godot_bin = match explicit {
            Some(p) => Some(p),
            None => text::copy_opt(&facts.discovered),
        };
        let projects = look_up_all(
            project_candidates(
                text::borrowed(&facts.env_project),
                &settings,
                text::borrowed(&facts.env_claude),
                text::copy_opt(&facts.cwd),
            ),
            &facts.projects,
        );
        let project_dir = first_project_dir(&projects);
        let data_dir = match text::copy_opt(&facts.data_dir) {
            Some(p) => p,
            None => data_dir,
        };
        (Config { godot_bin, project_dir, data_dir, settings }, warnings)
    }

    /// What is logged of the configuration: one line each for the binary, the project and the data
    /// directory, marked where something was not found.
    pub fn log_summary(&self) -> (r: Vec<Notice>)
        ensures
            notice_texts(r@) == self.summary_notices(),
    {
        let godot = match &self.godot_bin {
            Some(p) => Notice { warn: false, text: labelled("godot binary: ", p.as_str()) },
            None => Notice { warn: true, text: NO_GODOT_FOUND.to_string() },
        };
        let project = match &self.project_dir {
            Some(p) => Notice { warn: false, text: labelled("project dir: ", p.as_str()) },
            None => Notice { warn: true, text: NO_PROJECT_FOUND.to_string() },
        };
        let data = Notice { warn: false, text: labelled("data dir: ", self.data_dir.as_str()) };
        let mut out: Vec<Notice> = Vec::new();
        out.push(godot);
        out.push(project);
        out.push(data);
        assert(notice_texts(out@) =~= self.summary_notices());
        out
    }

    pub open spec fn summary_notices(self) -> Seq<(bool, Seq<char>)> {
        seq![
            match text::opt_text(self.godot_bin) {
                Some(p) => (false, "godot binary: "@ + p),
                None => (true, NO_GODOT_FOUND@),
            },
            match text::opt_text(self.project_dir) {
                Some(p) => (false, "project dir: "@ + p),
                None => (true, NO_PROJECT_FOUND@),
            },
            (false, "data dir: "@ + self.data_dir@),
        ]
    }
}

pub const NO_GODOT_FOUND: &'static str = "no Godot binary found — set GODOT_BIN or persist one with the `config` tool; run/test/export/reimport will error until it is configured";

pub const NO_PROJECT_FOUND: &'static str = "no Godot project found (no project.godot) — set GODOT_PROJECT or rely on CLAUDE_PROJECT_DIR";

/// A line for the log.
pub struct Notice {
    pub warn: bool,
    pub text: String,
}

pub open spec fn notice_texts(v: Seq<Notice>) -> Seq<(bool, Seq<char>)> {
    v.map_values(|n: Notice| (n.warn, n.text@))
}

fn labelled(label: &str, value: &str) -> (r: String)
    ensures
        r@ == label@ + value@,
{
    let mut out = label.to_string();
    out.append(value);
    out
}

/// The environment outranks the settings file, and the settings file outranks discovery: a saved
/// binary that exists is used wherever the environment names none, whatever is installed.
pub proof fn law_a_deliberate_choice_wins(
    facts: Facts,
    saved: settings::SettingsText,
    path: Seq<char>,
)
    requires
        seen_at(facts.files@, path) < facts.files@.len(),
        facts.files@[seen_at(facts.files@, path)].absolute is Some,
        !text::is_blank(path),
    ensures
        text::opt_text(facts.env_godot) == Some(path) ==> facts.godot(saved) == text::opt_text(
            facts.files@[seen_at(facts.files@, path)].absolute,
        ),
        !settings::is_set(text::opt_text(facts.env_godot)) && saved.godot_bin == Some(path)
            ==> facts.godot(saved) == text::opt_text(
            facts.files@[seen_at(facts.files@, path)].absolute,
        ),
{
    reveal_with_fuel(given, 3);
    let env = text::opt_text(facts.env_godot);
    assert(seq![env, saved.godot_bin].drop_last() =~= seq![env]);
    assert(seq![env].drop_last() =~= Seq::<Option<Seq<char>>>::empty());
    let probes = facts.overrides(saved);
    if env == Some(path) || (!settings::is_set(env) && saved.godot_bin == Some(path)) {
        assert(override_texts(env, saved)[0] == path);
        assert(probes[0].present);
        assert(first_found(probes) == 0);
    }
}

// ---- what resolution is for ----------------------------------------------------------------------

/// The value alone, where it says something.
spec fn one(value: Option<Seq<char>>) -> Seq<Seq<char>> {
    if settings::is_set(value) {
        seq![value->Some_0]
    } else {
        Seq::empty()
    }
}

proof fn lemma_given_two(a: Option<Seq<char>>, b: Option<Seq<char>>)
    ensures
        given(seq![a, b]) == one(a) + one(b),
{
    reveal_with_fuel(given, 3);
    assert(seq![a, b].drop_last() =~= seq![a]);
    assert(seq![a].drop_last() =~= Seq::<Option<Seq<char>>>::empty());
    assert(given(seq![a, b]) =~= one(a) + one(b));
}

proof fn lemma_given_three(a: Option<Seq<char>>, b: Option<Seq<char>>, c: Option<Seq<char>>)
    ensures
        given(seq![a, b, c]) == one(a) + one(b) + one(c),
{
    lemma_given_two(a, b);
    assert(seq![a, b, c].drop_last() =~= seq![a, b]);
    assert(given(seq![a, b, c]) =~= one(a) + one(b) + one(c));
}

proof fn lemma_seen_at(seen: Seq<Seen>, path: Seq<char>, k: int)
    ensures
        0 <= seen_at(seen, path) <= seen.len(),
        0 <= k < seen.len() && seen[k].path@ == path && (forall|j: int|
            0 <= j < k ==> (#[trigger] seen[j]).path@ != path) ==> seen_at(seen, path) == k,
        (forall|j: int| 0 <= j < seen.len() ==> (#[trigger] seen[j]).path@ != path) ==> seen_at(
            seen,
            path,
        ) == seen.len(),
    decreases seen.len(),
{
    if seen.len() > 0 && seen[0].path@ != path {
        let rest = seen.skip(1);
        lemma_seen_at(rest, path, k - 1);
        if forall|j: int| 0 <= j < seen.len() ==> (#[trigger] seen[j]).path@ != path {
            assert forall|j: int| 0 <= j < rest.len() implies (#[trigger] rest[j]).path@ != path by {
                assert(rest[j] == seen[j + 1]);
            }
        }
        if 0 <= k < seen.len() && seen[k].path@ == path && forall|j: int|
            0 <= j < k ==> (#[trigger] seen[j]).path@ != path {
            assert(rest[k - 1] == seen[k]);
            assert forall|j: int| 0 <= j < k - 1 implies (#[trigger] rest[j]).path@ != path by {
                assert(rest[j] == seen[j + 1]);
            }
        }
    }
}

/// The first candidate decides where it is there; where it is not, the others do.
proof fn lemma_picked_in_turn(first: Seq<char>, rest: Seq<Seq<char>>, seen: Seq<Seen>)
    ensures
        seen_at(seen, first) < seen.len() ==> picked(all_looked_up(seq![first] + rest, seen))
            == text::opt_text(seen[seen_at(seen, first)].absolute),
        seen_at(seen, first) >= seen.len() ==> picked(all_looked_up(seq![first] + rest, seen))
            == picked(all_looked_up(rest, seen)),
        picked(all_looked_up(Seq::empty(), seen)) is None,
{
    let all = all_looked_up(seq![first] + rest, seen);
    let others = all_looked_up(rest, seen);
    lemma_seen_at(seen, first, 0);
    assert(all[0] == looked_up(first, seen));
    if seen_at(seen, first) >= seen.len() {
        assert(all.skip(1) =~= others);
        lemma_found_is_within(others);
        if first_found(others) < others.len() {
            assert(all[first_found(others) + 1] == others[first_found(others)]);
        }
    }
    assert(all_looked_up(Seq::empty(), seen) =~= Seq::<ProbeText>::empty());
}

/// The project is the one that `GODOT_PROJECT` names, whatever is saved; without that the saved one,
/// whatever the host says; then the host's, then the current directory. `projects[k]` is the project
/// found at the path in question.
pub proof fn law_which_project_is_worked_on(
    facts: Facts,
    saved: settings::SettingsText,
    path: Seq<char>,
    k: int,
)
    requires
        !text::is_blank(path),
        0 <= k < facts.projects@.len(),
        facts.projects@[k].path@ == path,
        forall|j: int| 0 <= j < k ==> (#[trigger] facts.projects@[j]).path@ != path,
    ensures
        ({
            let found = facts.project(saved) == text::opt_text(facts.projects@[k].absolute);
            let env = text::opt_text(facts.env_project);
            let host = text::opt_text(facts.env_claude);
            &&& env == Some(path) ==> found
            &&& !settings::is_set(env) && saved.project_dir == Some(path) ==> found
            &&& !settings::is_set(env) && !settings::is_set(saved.project_dir) && host == Some(path)
                ==> found
            &&& !settings::is_set(env) && !settings::is_set(saved.project_dir) && !settings::is_set(
                host,
            ) && text::opt_text(facts.cwd) == Some(path) ==> found
        }),
{
    let env = text::opt_text(facts.env_project);
    let host = text::opt_text(facts.env_claude);
    let cwd = text::opt_text(facts.cwd);
    let seen = facts.projects@;
    lemma_seen_at(seen, path, k);
    lemma_given_three(env, saved.project_dir, host);
    let list = project_texts(env, saved, host, cwd);
    if env == Some(path) || (!settings::is_set(env) && saved.project_dir == Some(path)) || (
    !settings::is_set(env) && !settings::is_set(saved.project_dir) && host == Some(path)) || (
    !settings::is_set(env) && !settings::is_set(saved.project_dir) && !settings::is_set(host) && cwd
        == Some(path)) {
        assert(list.len() > 0 && list[0] == path);
        assert(list =~= seq![path] + list.skip(1));
        lemma_picked_in_turn(path, list.skip(1), seen);
    }
}

/// A candidate that holds no project is passed over: the outcome is as if it had not been named. With
/// no candidate that holds one there is no project.
#[verifier::rlimit(50)]
pub proof fn law_a_candidate_without_a_project_is_passed_over(
    facts: Facts,
    saved: settings::SettingsText,
    other: Facts,
    path: Seq<char>,
)
    requires
        forall|j: int| 0 <= j < facts.projects@.len() ==> (#[trigger] facts.projects@[j]).path@ != path,
        other.projects == facts.projects,
        other.env_claude == facts.env_claude,
        other.cwd == facts.cwd,
        other.env_project is None,
    ensures
        text::opt_text(facts.env_project) == Some(path) ==> facts.project(saved) == other.project(
            saved,
        ),
        !settings::is_set(text::opt_text(facts.env_project)) && saved.project_dir == Some(path)
            ==> facts.project(saved) == facts.project(
            settings::SettingsText { project_dir: None, ..saved },
        ),
        !settings::is_set(text::opt_text(facts.env_project)) && !settings::is_set(saved.project_dir)
            && !settings::is_set(text::opt_text(facts.env_claude)) && (facts.cwd is None
            || text::opt_text(facts.cwd) == Some(path)) ==> facts.project(saved) is None,
{
    let env = text::opt_text(facts.env_project);
    let host = text::opt_text(facts.env_claude);
    let cwd = text::opt_text(facts.cwd);
    let seen = facts.projects@;
    lemma_seen_at(seen, path, 0);
    lemma_given_three(env, saved.project_dir, host);
    lemma_given_three(None, saved.project_dir, host);
    lemma_given_three(env, None, host);
    let list = project_texts(env, saved, host, cwd);
    lemma_picked_in_turn(path, list.skip(1), seen);
    if settings::is_set(env) && env == Some(path) {
        assert(list =~= seq![path] + list.skip(1));
        assert(list.skip(1) =~= project_texts(None, saved, host, cwd));
    } else if env == Some(path) {
        assert(list =~= project_texts(None, saved, host, cwd));
    } else if !settings::is_set(env) && saved.project_dir == Some(path) {
        let without = settings::SettingsText { project_dir: None, ..saved };
        if settings::is_set(saved.project_dir) {
            assert(list =~= seq![path] + list.skip(1));
            assert(list.skip(1) =~= project_texts(env, without, host, cwd));
        } else {
            assert(list =~= project_texts(env, without, host, cwd));
        }
    }
    if !settings::is_set(env) && !settings::is_set(saved.project_dir) && !settings::is_set(host) {
        if cwd is None {
            assert(list =~= Seq::<Seq<char>>::empty());
        } else if cwd == Some(path) {
            assert(list =~= seq![path] + Seq::<Seq<char>>::empty());
            lemma_picked_in_turn(path, Seq::empty(), seen);
        }
    }
}

/// The binary is the one that `GODOT_BIN` names, whatever is saved or installed; without that the
/// saved one, whatever is installed. One that is no file is passed over and named in a warning, and
/// where no explicit one is left what was discovered is used.
#[verifier::rlimit(50)]
pub proof fn law_which_binary_is_used(
    facts: Facts,
    saved: settings::SettingsText,
    path: Seq<char>,
    k: int,
)
    requires
        !text::is_blank(path),
    ensures
        ({
            let env = text::opt_text(facts.env_godot);
            let there = 0 <= k < facts.files@.len() && facts.files@[k].path@ == path
                && facts.files@[k].absolute is Some && forall|j: int|
                0 <= j < k ==> (#[trigger] facts.files@[j]).path@ != path;
            let gone = forall|j: int|
                0 <= j < facts.files@.len() ==> (#[trigger] facts.files@[j]).path@ != path;
            let discovered = text::opt_text(facts.discovered);
            &&& env == Some(path) && there ==> facts.godot(saved) == text::opt_text(
                facts.files@[k].absolute,
            )
            &&& !settings::is_set(env) && saved.godot_bin == Some(path) && there ==> facts.godot(saved)
                == text::opt_text(facts.files@[k].absolute)
            &&& env == Some(path) && gone && !settings::is_set(saved.godot_bin) ==> facts.godot(saved)
                == discovered && stale_texts(facts.overrides(saved)) == seq![stale_text(path)]
            &&& !settings::is_set(env) && saved.godot_bin == Some(path) && gone ==> facts.godot(saved)
                == discovered && stale_texts(facts.overrides(saved)) == seq![stale_text(path)]
            &&& !settings::is_set(env) && !settings::is_set(saved.godot_bin) ==> facts.godot(saved)
                == discovered && stale_texts(facts.overrides(saved)).len() == 0
        }),
        text::has(stale_text(path), path),
{
    let env = text::opt_text(facts.env_godot);
    let seen = facts.files@;
    lemma_seen_at(seen, path, k);
    lemma_given_two(env, saved.godot_bin);
    let list = override_texts(env, saved);
    let probes = facts.overrides(saved);
    lemma_picked_in_turn(path, list.skip(1), seen);
    lemma_picked_in_turn(path, Seq::empty(), seen);
    if (settings::is_set(env) && env == Some(path)) || (!settings::is_set(env)
        && settings::is_set(saved.godot_bin) && saved.godot_bin == Some(path)) {
        assert(list[0] == path);
        assert(list =~= seq![path] + list.skip(1));
        if list.len() == 1 {
            assert(list.skip(1) =~= Seq::<Seq<char>>::empty());
            if seen_at(seen, path) == seen.len() {
                reveal_with_fuel(first_found, 2);
                assert(probes[0] == looked_up(path, seen));
                assert(first_found(probes) == 1);
                assert(stale_texts(probes) =~= seq![stale_text(path)]);
            }
        }
    }
    if !settings::is_set(env) && !settings::is_set(saved.godot_bin) {
        assert(list =~= Seq::<Seq<char>>::empty());
        assert(stale_texts(probes) =~= Seq::<Seq<char>>::empty());
    }
    let empty = Seq::<char>::empty();
    assert(stale_text(path) =~= "configured Godot binary is not a file: "@ + path + empty);
    text::lemma_has_part(
        stale_text(path),
        "configured Godot binary is not a file: "@,
        path,
        empty,
    );
}

/// A saved binary serves where the one in the environment is no file.
pub proof fn law_the_saved_binary_stands_in(
    facts: Facts,
    saved: settings::SettingsText,
    gone: Seq<char>,
    path: Seq<char>,
    k: int,
)
    requires
        !text::is_blank(path),
        text::opt_text(facts.env_godot) == Some(gone),
        forall|j: int| 0 <= j < facts.files@.len() ==> (#[trigger] facts.files@[j]).path@ != gone,
        saved.godot_bin == Some(path),
        0 <= k < facts.files@.len(),
        facts.files@[k].path@ == path,
        facts.files@[k].absolute is Some,
        forall|j: int| 0 <= j < k ==> (#[trigger] facts.files@[j]).path@ != path,
    ensures
        facts.godot(saved) == text::opt_text(facts.files@[k].absolute),
{
    let env = text::opt_text(facts.env_godot);
    lemma_seen_at(facts.files@, path, k);
    lemma_seen_at(facts.files@, gone, 0);
    lemma_given_two(env, saved.godot_bin);
    lemma_picked_in_turn(path, Seq::empty(), facts.files@);
    lemma_picked_in_turn(gone, seq![path], facts.files@);
    assert(seq![path] =~= seq![path] + Seq::<Seq<char>>::empty());
    if settings::is_set(env) {
        assert(override_texts(env, saved) =~= seq![gone] + seq![path]);
    } else {
        assert(override_texts(env, saved) =~= seq![path]);
    }
}

/// What is on `PATH` outranks every other installation, and the first entry there outranks the rest.
pub proof fn law_the_path_outranks_other_installations(
    on_path: Seq<ProbeText>,
    found: Seq<Found>,
    i: int,
)
    requires
        0 <= i < on_path.len(),
        on_path[i].present,
        forall|j: int| 0 <= j < i ==> !(#[trigger] on_path[j]).present,
    ensures
        discovered(on_path, found) == Some(on_path[i].path),
    decreases on_path.len(),
{
    lemma_first_found_is(on_path, i);
}

proof fn lemma_first_found_is(probes: Seq<ProbeText>, i: int)
    requires
        0 <= i <= probes.len(),
        i < probes.len() ==> probes[i].present,
        forall|j: int| 0 <= j < i ==> !(#[trigger] probes[j]).present,
    ensures
        first_found(probes) == i,
    decreases probes.len(),
{
    if i > 0 {
        assert(!probes[0].present);
        let rest = probes.skip(1);
        assert forall|j: int| 0 <= j < i - 1 implies !(#[trigger] rest[j]).present by {
            assert(rest[j] == probes[j + 1]);
        }
        if i < probes.len() {
            assert(rest[i - 1] == probes[i]);
        }
        lemma_first_found_is(rest, i - 1);
    }
}

/// Where nothing is on `PATH`, an executable whose name starts with `godot` and ends with `.exe` is
/// found if there is one: a console build if there is one of those, and of builds that are alike in
/// that, one whose name no other one's follows.
pub proof fn law_which_installation_is_found(on_path: Seq<ProbeText>, found: Seq<Found>, k: int)
    requires
        forall|j: int| 0 <= j < on_path.len() ==> !(#[trigger] on_path[j]).present,
        0 <= k < found.len(),
        text::begins(text::lowered(found[k].name@), "godot"@),
        text::finishes(text::lowered(found[k].name@), ".exe"@),
    ensures
        exists|i: int|
            {
                let mine = text::lowered(found[k].name@);
                let best = text::lowered((#[trigger] found[i]).name@);
                &&& 0 <= i < found.len()
                &&& discovered(on_path, found) == Some(found[i].path@)
                &&& text::begins(best, "godot"@) && text::finishes(best, ".exe"@)
                &&& text::has(mine, "console"@) ==> text::has(best, "console"@)
                &&& text::has(mine, "console"@) == text::has(best, "console"@) ==> !text::before(
                    best,
                    mine,
                )
            },
{
    lemma_first_found_is(on_path, on_path.len() as int);
    let names = found.map_values(|f: Found| lower_name(f));
    law_the_best_binary_is_picked(names, k);
    let i = best_of(names)->Some_0;
    assert(names[i] == text::lowered(found[i].name@));
    assert(names[k] == text::lowered(found[k].name@));
    assert(discovered(on_path, found) == Some(found[i].path@));
}

/// Nothing is discovered where nothing is on `PATH` and no file is named like the engine.
pub proof fn law_nothing_is_made_up(on_path: Seq<ProbeText>, found: Seq<Found>)
    requires
        forall|j: int| 0 <= j < on_path.len() ==> !(#[trigger] on_path[j]).present,
        forall|k: int|
            0 <= k < found.len() ==> !(text::begins(
                text::lowered((#[trigger] found[k]).name@),
                "godot"@,
            ) && text::finishes(text::lowered(found[k].name@), ".exe"@)),
    ensures
        discovered(on_path, found) is None,
{
    lemma_first_found_is(on_path, on_path.len() as int);
    let names = found.map_values(|f: Found| lower_name(f));
    if best_of(names) is Some {
        lemma_best_is_godot(names);
        let i = best_of(names)->Some_0;
        assert(names[i] == text::lowered(found[i].name@));
        assert(0 <= i < found.len());
        assert(!is_godot_name(names[i])) by {
            assert(found[i].name@ == found[i].name@);
        }
    }
}

/// Every directory on `PATH` is looked into for both names, in the order of the directories, and
/// `godot.exe` comes before `godot` everywhere.
pub proof fn law_every_directory_is_looked_into(dirs: Seq<Seq<char>>, i: int)
    requires
        0 <= i < dirs.len(),
    ensures
        on_path_texts(dirs).len() == 2 * dirs.len(),
        on_path_texts(dirs)[i] == path::joined(dirs[i], "godot.exe"@),
        on_path_texts(dirs)[dirs.len() + i] == path::joined(dirs[i], "godot"@),
{
}

/// The log says what was resolved, and warns exactly about what was not.
pub proof fn law_the_summary_names_what_was_resolved(cfg: Config)
    ensures
        cfg.summary_notices().len() == 3,
        cfg.summary_notices()[0].0 <==> cfg.godot_bin is None,
        cfg.summary_notices()[1].0 <==> cfg.project_dir is None,
        !cfg.summary_notices()[2].0,
        cfg.godot_bin is Some ==> text::finishes(
            cfg.summary_notices()[0].1,
            cfg.godot_bin->Some_0@,
        ),
        cfg.project_dir is Some ==> text::finishes(
            cfg.summary_notices()[1].1,
            cfg.project_dir->Some_0@,
        ),
        text::finishes(cfg.summary_notices()[2].1, cfg.data_dir@),
{
    let empty = Seq::<char>::empty();
    if cfg.godot_bin is Some {
        text::law_a_text_is_found_where_it_stands(
            empty,
            "godot binary: "@,
            cfg.godot_bin->Some_0@,
            empty,
        );
    }
    if cfg.project_dir is Some {
        text::law_a_text_is_found_where_it_stands(
            empty,
            "project dir: "@,
            cfg.project_dir->Some_0@,
            empty,
        );
    }
    text::law_a_text_is_found_where_it_stands(empty, "data dir: "@, cfg.data_dir@, empty);
}

} // verus!
