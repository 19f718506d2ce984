//! Export presets and export runs.
//!
//! Godot's export command line addresses presets by name, and the names live in the project's
//! `export_presets.cfg`. Reading it makes it possible to list what is available, to pick the single
//! preset when there is only one, and to default the output path to the one the preset declares.
//!
//! A failed export can still exit zero, so an export is judged by its artifact as well: a file that
//! is there, is not empty and is not the one that was there before.
use vstd::prelude::*;

use crate::path;
use crate::text;

verus! {

// ---- the artifact -------------------------------------------------------------------------------

/// What the file system says of an output path.
pub enum ArtifactMeta {
    /// A regular file. Times are nanoseconds since the Unix epoch; the time of the last change is
    /// an error text where it cannot be read.
    File { len: u64, modified: Result<i128, String>, created: Option<i128> },
    /// Something that is not a regular file.
    Other,
    /// Nothing there.
    NotFound,
    /// The path could not be examined.
    Failed { error: String },
}

/// Snapshot of an artifact, taken before an export so that an older build cannot satisfy it.
#[derive(Clone, Copy, Debug)]
pub struct ArtifactStamp {
    pub len: u64,
    pub modified: i128,
    pub created: Option<i128>,
}

impl ArtifactStamp {
    /// The stamp of what the file system reports: none for a missing file, an error for what is no
    /// regular file or cannot be examined.
    pub fn read(meta: ArtifactMeta) -> (r: Result<Option<Self>, String>)
        ensures
            match meta {
                ArtifactMeta::File { len, modified, created } => match modified {
                    Ok(t) => r == Ok::<Option<Self>, String>(
                        Some(ArtifactStamp { len, modified: t, created }),
                    ),
                    Err(e) => r == Err::<Option<Self>, String>(e),
                },
                ArtifactMeta::Other => r is Err && r->Err_0@
                    == "export output is not a regular file"@,
                ArtifactMeta::NotFound => r == Ok::<Option<Self>, String>(None),
                ArtifactMeta::Failed { error } => r == Err::<Option<Self>, String>(error),
            },
    {
        match meta {
            ArtifactMeta::File { len, modified, created } => match modified {
                Ok(t) => Ok(Some(ArtifactStamp { len, modified: t, created })),
                Err(e) => Err(e),
            },
            ArtifactMeta::Other => Err("export output is not a regular file".to_string()),
            ArtifactMeta::NotFound => Ok(None),
            ArtifactMeta::Failed { error } => Err(error),
        }
    }

    fn same_as(&self, other: &Self) -> (r: bool)
        ensures
            r == (*self == *other),
    {
        let created = match (self.created, other.created) {
            (Some(a), Some(b)) => a == b,
            (None, None) => true,
            _ => false,
        };
        self.len == other.len && self.modified == other.modified && created
    }

    /// Whether the export produced its artifact, and the word for it.
    pub fn verdict(before: Option<&Self>, after: Option<&Self>) -> (r: (bool, &'static str))
        ensures
            r.0 == is_fresh(before, after),
            r.1@ == artifact_word(before, after),
    {
        match after {
            None => (false, "MISSING"),
            Some(stamp) => {
                if stamp.len == 0 {
                    return (false, "EMPTY");
                }
                if let Some(old_stamp) = before {
                    if old_stamp.same_as(stamp) {
                        return (false, "UNCHANGED from before this export");
                    }
                }
                (true, "created or updated")
            },
        }
    }
}

/// The artifact is there, is not empty and is not what was there before.
pub open spec fn is_fresh(before: Option<&ArtifactStamp>, after: Option<&ArtifactStamp>) -> bool {
    match after {
        None => false,
        Some(stamp) => stamp.len > 0 && before != Some(stamp),
    }
}

pub open spec fn artifact_word(
    before: Option<&ArtifactStamp>,
    after: Option<&ArtifactStamp>,
) -> Seq<char> {
    match after {
        None => "MISSING"@,
        Some(stamp) => if stamp.len == 0 {
            "EMPTY"@
        } else if before == Some(stamp) {
            "UNCHANGED from before this export"@
        } else {
            "created or updated"@
        },
    }
}

// ---- presets ------------------------------------------------------------------------------------

/// One entry from `export_presets.cfg`.
#[derive(Clone, Debug, PartialEq)]
pub struct Preset {
    pub name: String,
    pub platform: String,
    /// The preset's configured output path, relative to the project dir unless absolute. Empty
    /// when the preset never had one set in the editor.
    pub export_path: String,
    pub runnable: bool,
}

/// What a preset says.
pub struct PresetText {
    pub name: Seq<char>,
    pub platform: Seq<char>,
    pub export_path: Seq<char>,
    pub runnable: bool,
}

impl View for Preset {
    type V = PresetText;

    open spec fn view(&self) -> PresetText {
        PresetText {
            name: self.name@,
            platform: self.platform@,
            export_path: self.export_path@,
            runnable: self.runnable,
        }
    }
}

impl Preset {
    /// The same preset once more.
    pub fn duplicate(&self) -> (r: Self)
        ensures
            r@ == self@,
    {
        Preset {
            name: self.name.clone(),
            platform: self.platform.clone(),
            export_path: self.export_path.clone(),
            runnable: self.runnable,
        }
    }
}

pub open spec fn preset_texts(v: Seq<Preset>) -> Seq<PresetText> {
    v.map_values(|p: Preset| p@)
}

/// Which of Godot's export modes to invoke.
#[derive(Clone, Copy, Debug, PartialEq, Eq, Structural)]
pub enum ExportMode {
    Release,
    Debug,
    /// Data only: a `.pck` or `.zip`, no executable.
    Pack,
}

impl ExportMode {
    pub open spec fn flag_text(self) -> Seq<char> {
        match self {
            ExportMode::Release => "--export-release"@,
            ExportMode::Debug => "--export-debug"@,
            ExportMode::Pack => "--export-pack"@,
        }
    }

    pub fn flag(self) -> (r: &'static str)
        ensures
            r@ == self.flag_text(),
    {
        match self {
            ExportMode::Release => "--export-release",
            ExportMode::Debug => "--export-debug",
            ExportMode::Pack => "--export-pack",
        }
    }
}

/// Name of a project's export presets file.
pub const PRESETS_FILE: &'static str = "export_presets.cfg";

/// Path of a project's export presets file.
pub fn presets_path(project: &str) -> (r: String)
    ensures
        r@ == path::joined(project@, PRESETS_FILE@),
{
    path::join(project, PRESETS_FILE)
}

/// What reading a project's presets file gave.
pub enum PresetsFile {
    Text { raw: String },
    NotFound,
    Failed { error: String },
}

/// The presets of a project. A missing file yields an empty list: a project may not have configured
/// any exports yet.
pub fn read_presets(project: &str, file: PresetsFile) -> (r: Result<Vec<Preset>, String>)
    ensures
        match file {
            PresetsFile::Text { raw } => r is Ok && preset_texts(r->Ok_0@) == presets_of(raw@),
            PresetsFile::NotFound => r is Ok && r->Ok_0@.len() == 0,
            PresetsFile::Failed { error } => r is Err && r->Err_0@ == "cannot read "@
                + path::joined(project@, PRESETS_FILE@) + ": "@ + error@,
        },
{
    match file {
        PresetsFile::Text { raw } => Ok(parse_presets(raw.as_str())),
        PresetsFile::NotFound => Ok(Vec::new()),
        PresetsFile::Failed { error } => {
            let file_path = presets_path(project);
            let mut out = "cannot read ".to_string();
            out.append(file_path.as_str());
            out.append(": ");
            out.append(error.as_str());
            Err(out)
        },
    }
}

/// A value without its surrounding double quotes and with the two escapes that Godot's config
/// writer emits undone.
pub open spec fn unquoted(v: Seq<char>) -> Seq<char> {
    let inner = if v.len() >= 2 && v[0] == '"' && v.last() == '"' {
        v.subrange(1, v.len() - 1)
    } else {
        v
    };
    text::replaced(text::replaced(inner, "\\\""@, "\""@), "\\\\"@, "\\"@)
}

/// Strip surrounding double quotes and unescape the two sequences Godot's config writer emits.
pub fn unquote(v: &str) -> (r: String)
    ensures
        r@ == unquoted(v@),
{
    proof {
        reveal_strlit("\\\"");
        reveal_strlit("\\\\");
    }
    let c = text::chars_of(v);
    let inner = if c.len() >= 2 && c[0] == '"' && c[c.len() - 1] == '"' {
        let part = vstd::slice::slice_subrange(c.as_slice(), 1, c.len() - 1);
        assert(part@ == v@.subrange(1, v@.len() - 1));
        text::string_of(part)
    } else {
        v.to_string()
    };
    let quotes = text::replace(inner.as_str(), "\\\"", "\"");
    text::replace(quotes.as_str(), "\\\\", "\\")
}

/// A text with its quotes and backslashes escaped, as Godot's config writer does.
pub open spec fn escaped(s: Seq<char>) -> Seq<char>
    decreases s.len(),
{
    if s.len() == 0 {
        Seq::empty()
    } else if s[0] == '\\' {
        seq!['\\', '\\'] + escaped(s.skip(1))
    } else if s[0] == '"' {
        seq!['\\', '"'] + escaped(s.skip(1))
    } else {
        seq![s[0]] + escaped(s.skip(1))
    }
}

/// The same with the quotes as they are.
spec fn half_escaped(s: Seq<char>) -> Seq<char>
    decreases s.len(),
{
    if s.len() == 0 {
        Seq::empty()
    } else if s[0] == '\\' {
        seq!['\\', '\\'] + half_escaped(s.skip(1))
    } else {
        seq![s[0]] + half_escaped(s.skip(1))
    }
}

proof fn lemma_begins_with_two(s: Seq<char>, pat: Seq<char>)
    requires
        pat.len() == 2,
    ensures
        text::begins(s, pat) <==> s.len() >= 2 && s[0] == pat[0] && s[1] == pat[1],
{
    if s.len() >= 2 {
        let front = s.subrange(0, 2);
        assert(front[0] == s[0] && front[1] == s[1]);
        if s[0] == pat[0] && s[1] == pat[1] {
            assert(front =~= pat);
        }
    }
}

proof fn lemma_quotes_come_back(s: Seq<char>)
    ensures
        text::replaced(escaped(s), "\\\""@, "\""@) == half_escaped(s),
    decreases s.len(),
{
    reveal_strlit("\\\"");
    reveal_strlit("\"");
    let from = "\\\""@;
    let to = "\""@;
    let e = escaped(s);
    lemma_begins_with_two(e, from);
    if s.len() > 0 {
        let rest = escaped(s.skip(1));
        lemma_quotes_come_back(s.skip(1));
        if s[0] == '\\' {
            let once = e.skip(1);
            assert(once =~= seq!['\\'] + rest);
            lemma_begins_with_two(once, from);
            assert(once.skip(1) =~= rest);
            assert(rest.len() > 0 ==> rest[0] != '"');
            assert(!text::begins(e, from));
            assert(!text::begins(once, from));
            assert(text::replaced(once, from, to) == seq!['\\'] + text::replaced(rest, from, to));
            assert(text::replaced(e, from, to) =~= seq!['\\', '\\'] + text::replaced(
                rest,
                from,
                to,
            ));
        } else if s[0] == '"' {
            assert(e.skip(2) =~= rest);
            assert(text::begins(e, from));
            assert(to =~= seq!['"']);
        } else {
            assert(e.skip(1) =~= rest);
            assert(!text::begins(e, from));
        }
    }
}

proof fn lemma_backslashes_come_back(s: Seq<char>)
    ensures
        text::replaced(half_escaped(s), "\\\\"@, "\\"@) == s,
    decreases s.len(),
{
    reveal_strlit("\\\\");
    reveal_strlit("\\");
    let from = "\\\\"@;
    let to = "\\"@;
    let h = half_escaped(s);
    lemma_begins_with_two(h, from);
    if s.len() > 0 {
        let rest = half_escaped(s.skip(1));
        lemma_backslashes_come_back(s.skip(1));
        if s[0] == '\\' {
            assert(h.skip(2) =~= rest);
            assert(text::begins(h, from));
            assert(to + s.skip(1) =~= s);
        } else {
            assert(h.skip(1) =~= rest);
            assert(!text::begins(h, from));
            assert(seq![s[0]] + s.skip(1) =~= s);
        }
    }
}

/// Reading a quoted value gives back the text that was written.
pub proof fn law_unquoting_undoes_quoting(s: Seq<char>)
    ensures
        unquoted(seq!['"'] + escaped(s) + seq!['"']) == s,
{
    let v = seq!['"'] + escaped(s) + seq!['"'];
    assert(v.subrange(1, v.len() - 1) =~= escaped(s));
    lemma_quotes_come_back(s);
    lemma_backslashes_come_back(s);
}

/// How far a presets file has been read: the presets so far, and whether the lines that follow
/// belong to the last of them.
pub struct Reading {
    pub presets: Seq<PresetText>,
    pub inside: bool,
}

/// A line in brackets starts a section.
pub open spec fn is_section_line(line: Seq<char>) -> bool {
    line.len() > 0 && line[0] == '[' && line.last() == ']'
}

/// `[preset.N]` sections describe a preset; the `[preset.N.options]` sections hold settings of the
/// platform and describe none.
pub open spec fn is_preset_section(name: Seq<char>) -> bool {
    text::begins(name, "preset."@) && !text::finishes(name, ".options"@)
}

pub open spec fn new_preset() -> PresetText {
    PresetText {
        name: Seq::empty(),
        platform: Seq::empty(),
        export_path: Seq::empty(),
        runnable: false,
    }
}

/// A preset once a key has been given a value.
pub open spec fn with_key(p: PresetText, key: Seq<char>, value: Seq<char>) -> PresetText {
    if key == "name"@ {
        PresetText { name: value, ..p }
    } else if key == "platform"@ {
        PresetText { platform: value, ..p }
    } else if key == "export_path"@ {
        PresetText { export_path: value, ..p }
    } else if key == "runnable"@ {
        PresetText { runnable: value == "true"@, ..p }
    } else {
        p
    }
}

/// One more line read.
pub open spec fn read_line(st: Reading, raw: Seq<char>) -> Reading {
    let line = text::trimmed(raw);
    if is_section_line(line) {
        let opens = is_preset_section(line.subrange(1, line.len() - 1));
        Reading {
            presets: if opens {
                st.presets.push(new_preset())
            } else {
                st.presets
            },
            inside: opens,
        }
    } else if !st.inside || line.len() == 0 || line[0] == ';' || st.presets.len() == 0 {
        st
    } else {
        match text::split_at_first(line, '=') {
            Some((key, value)) => Reading {
                presets: st.presets.update(
                    st.presets.len() - 1,
                    with_key(
                        st.presets.last(),
                        text::trimmed(key),
                        unquoted(text::trimmed(value)),
                    ),
                ),
                inside: true,
            },
            None => st,
        }
    }
}

/// All the lines read, one after the other.
pub open spec fn read_lines(lines: Seq<Seq<char>>) -> Reading
    decreases lines.len(),
{
    if lines.len() == 0 {
        Reading { presets: Seq::empty(), inside: false }
    } else {
        read_line(read_lines(lines.drop_last()), lines.last())
    }
}

/// A section without a name is not addressable by the export command line, so it is no preset.
pub open spec fn named_only(v: Seq<PresetText>) -> Seq<PresetText>
    decreases v.len(),
{
    if v.len() == 0 {
        Seq::empty()
    } else if v.last().name.len() > 0 {
        named_only(v.drop_last()).push(v.last())
    } else {
        named_only(v.drop_last())
    }
}

/// The presets that a file describes.
pub open spec fn presets_of(raw: Seq<char>) -> Seq<PresetText> {
    named_only(read_lines(text::pieces(raw, '\n')).presets)
}

/// A preset is always addressable by its name.
pub proof fn law_every_preset_has_a_name(raw: Seq<char>, i: int)
    requires
        0 <= i < presets_of(raw).len(),
    ensures
        presets_of(raw)[i].name.len() > 0,
{
    lemma_named_only(read_lines(text::pieces(raw, '\n')).presets, i);
}

proof fn lemma_named_only(v: Seq<PresetText>, i: int)
    requires
        0 <= i < named_only(v).len(),
    ensures
        named_only(v)[i].name.len() > 0,
    decreases v.len(),
{
    if i < named_only(v.drop_last()).len() {
        lemma_named_only(v.drop_last(), i);
    }
}

/// The header of an options section.
pub open spec fn is_options_header(line: Seq<char>) -> bool {
    let t = text::trimmed(line);
    is_section_line(t) && text::finishes(t.subrange(1, t.len() - 1), ".options"@)
}

/// No line starts a section.
pub open spec fn holds_no_header(lines: Seq<Seq<char>>) -> bool {
    forall|i: int| 0 <= i < lines.len() ==> !is_section_line(text::trimmed(#[trigger] lines[i]))
}

/// Lines that start no section change nothing behind an options header.
proof fn lemma_options_change_nothing(
    before: Seq<Seq<char>>,
    header: Seq<char>,
    options: Seq<Seq<char>>,
)
    requires
        is_options_header(header),
        holds_no_header(options),
    ensures
        read_lines(before + seq![header] + options) == read_lines(before + seq![header]),
        !read_lines(before + seq![header]).inside,
        read_lines(before + seq![header]).presets == read_lines(before).presets,
    decreases options.len(),
{
    let start = before + seq![header];
    assert(start.drop_last() =~= before);
    if options.len() == 0 {
        assert(start + options =~= start);
    } else {
        assert(!is_section_line(text::trimmed(options[options.len() - 1])));
        assert(holds_no_header(options.drop_last())) by {
            assert forall|i: int| 0 <= i < options.len() - 1 implies !is_section_line(
                text::trimmed(#[trigger] options.drop_last()[i]),
            ) by {
                assert(options.drop_last()[i] == options[i]);
            }
        }
        lemma_options_change_nothing(before, header, options.drop_last());
        assert((start + options).drop_last() =~= start + options.drop_last());
    }
}

proof fn lemma_same_lines_follow(a: Seq<Seq<char>>, b: Seq<Seq<char>>, after: Seq<Seq<char>>)
    requires
        read_lines(a) == read_lines(b),
    ensures
        read_lines(a + after) == read_lines(b + after),
    decreases after.len(),
{
    if after.len() == 0 {
        assert(a + after =~= a);
        assert(b + after =~= b);
    } else {
        lemma_same_lines_follow(a, b, after.drop_last());
        assert((a + after).drop_last() =~= a + after.drop_last());
        assert((b + after).drop_last() =~= b + after.drop_last());
    }
}

/// The options of a preset never leak into it: two files that differ only in what stands in an
/// options section, headers aside, describe the same presets.
pub proof fn law_options_are_passed_over(
    a: Seq<char>,
    b: Seq<char>,
    before: Seq<Seq<char>>,
    header: Seq<char>,
    in_a: Seq<Seq<char>>,
    in_b: Seq<Seq<char>>,
    after: Seq<Seq<char>>,
)
    requires
        is_options_header(header),
        holds_no_header(in_a),
        holds_no_header(in_b),
        text::pieces(a, '\n') == before + seq![header] + in_a + after,
        text::pieces(b, '\n') == before + seq![header] + in_b + after,
    ensures
        presets_of(a) == presets_of(b),
{
    lemma_options_change_nothing(before, header, in_a);
    lemma_options_change_nothing(before, header, in_b);
    lemma_same_lines_follow(
        before + seq![header] + in_a,
        before + seq![header] + in_b,
        after,
    );
}

/// Give a key of the last preset its value.
fn set_key(presets: &mut Vec<Preset>, key: &str, value: String)
    requires
        old(presets)@.len() > 0,
    ensures
        preset_texts(final(presets)@) == preset_texts(old(presets)@).update(
            old(presets)@.len() - 1,
            with_key(old(presets)@.last()@, key@, value@),
        ),
{
    let ghost was = presets@;
    if let Some(p) = presets.pop() {
        let mut preset = p;
        let ghost meant = value@;
        if text::same(key, "name") {
            preset.name = value;
        } else if text::same(key, "platform") {
            preset.platform = value;
        } else if text::same(key, "export_path") {
            preset.export_path = value;
        } else if text::same(key, "runnable") {
            preset.runnable = text::same(value.as_str(), "true");
        }
        assert(preset@ == with_key(was.last()@, key@, meant));
        presets.push(preset);
        assert(preset_texts(presets@) =~= preset_texts(was).update(was.len() - 1, preset@));
    }
}

/// Parse the `[preset.N]` sections of an `export_presets.cfg`.
pub fn parse_presets(raw: &str) -> (r: Vec<Preset>)
    ensures
        preset_texts(r@) == presets_of(raw@),
{
    let lines = text::split(raw, '\n');
    let mut found: Vec<Preset> = Vec::new();
    let mut inside = false;
    assert(preset_texts(found@) =~= Seq::<PresetText>::empty());
    for i in 0..lines.len()
        invariant
            preset_texts(found@) == read_lines(text::texts(lines@).take(i as int)).presets,
            inside == read_lines(text::texts(lines@).take(i as int)).inside,
    {
        let ghost all = text::texts(lines@);
        let ghost st = read_lines(all.take(i as int));
        assert(all.take(i + 1).drop_last() =~= all.take(i as int));
        assert(all.take(i + 1).last() == lines@[i as int]@);
        let chars = text::chars_of(lines[i].as_str());
        let line = text::trim_chars(&chars);
        if line.len() > 0 && line[0] == '[' && line[line.len() - 1] == ']' {
            let section = text::string_of(vstd::slice::slice_subrange(line, 1, line.len() - 1));
            inside = text::starts_with(section.as_str(), "preset.") && !text::ends_with(
                section.as_str(),
                ".options",
            );
            if inside {
                let ghost was = found@;
                found.push(
                    Preset {
                        name: String::new(),
                        platform: String::new(),
                        export_path: String::new(),
                        runnable: false,
                    },
                );
                assert(preset_texts(found@) =~= preset_texts(was).push(new_preset()));
            }
        } else if inside && line.len() > 0 && line[0] != ';' && found.len() > 0 {
            if let Some((key, value)) = text::split_once(line, '=') {
                let key_text = text::string_of(text::trim_chars(key));
                let value_text = text::string_of(text::trim_chars(value));
                let meant = unquote(value_text.as_str());
                set_key(&mut found, key_text.as_str(), meant);
            }
        }
    }
    assert(text::texts(lines@).take(lines@.len() as int) =~= text::texts(lines@));
    keep_named(found)
}

fn keep_named(found: Vec<Preset>) -> (r: Vec<Preset>)
    ensures
        preset_texts(r@) == named_only(preset_texts(found@)),
{
    let mut out: Vec<Preset> = Vec::new();
    let ghost all = preset_texts(found@);
    assert(preset_texts(out@) =~= Seq::<PresetText>::empty());
    for i in 0..found.len()
        invariant
            all == preset_texts(found@),
            preset_texts(out@) == named_only(all.take(i as int)),
    {
        assert(all.take(i + 1).drop_last() =~= all.take(i as int));
        if !found[i].name.as_str().is_empty() {
            let ghost was = out@;
            let p = Preset {
                name: found[i].name.clone(),
                platform: found[i].platform.clone(),
                export_path: found[i].export_path.clone(),
                runnable: found[i].runnable,
            };
            out.push(p);
            assert(preset_texts(out@) =~= preset_texts(was).push(found@[i as int]@));
        }
    }
    assert(all.take(all.len() as int) == all);
    out
}

// ---- choosing -----------------------------------------------------------------------------------

/// The first preset of that name, or the length when there is none.
pub open spec fn preset_at(presets: Seq<Preset>, name: Seq<char>) -> int
    decreases presets.len(),
{
    if presets.len() == 0 || presets[0].name@ == name {
        0
    } else {
        1 + preset_at(presets.skip(1), name)
    }
}

/// `"Name" (Platform)`
pub open spec fn preset_label(p: Preset) -> Seq<char> {
    text::notation(p.name@) + " ("@ + p.platform@ + ")"@
}

pub open spec fn names_text(presets: Seq<Preset>) -> Seq<char> {
    text::joined(presets.map_values(|p: Preset| preset_label(p)), ", "@)
}

/// Comma-separated preset names, for error messages and listings.
pub fn names(presets: &[Preset]) -> (r: String)
    ensures
        r@ == names_text(presets@),
{
    let mut labels: Vec<String> = Vec::new();
    for i in 0..presets.len()
        invariant
            labels@.len() == i,
            forall|j: int| 0 <= j < i ==> #[trigger] labels@[j]@ == preset_label(presets@[j]),
    {
        let mut label = text::quote(presets[i].name.as_str());
        label.append(" (");
        label.append(presets[i].platform.as_str());
        label.append(")");
        labels.push(label);
    }
    assert(text::texts(labels@) =~= presets@.map_values(|p: Preset| preset_label(p)));
    text::join(&labels, ", ")
}

/// Which preset is exported: the one of the requested name, else the only one.
pub open spec fn chosen_preset(presets: Seq<Preset>, requested: Option<Seq<char>>) -> Option<int> {
    match requested {
        Some(name) => if preset_at(presets, name) < presets.len() {
            Some(preset_at(presets, name))
        } else {
            None
        },
        None => if presets.len() == 1 {
            Some(0)
        } else {
            None
        },
    }
}

proof fn lemma_preset_at(presets: Seq<Preset>, name: Seq<char>)
    ensures
        0 <= preset_at(presets, name) <= presets.len(),
        preset_at(presets, name) < presets.len() ==> presets[preset_at(presets, name)].name@
            == name,
        forall|i: int|
            0 <= i < preset_at(presets, name) ==> (#[trigger] presets[i]).name@ != name,
    decreases presets.len(),
{
    if presets.len() > 0 && presets[0].name@ != name {
        let rest = presets.skip(1);
        lemma_preset_at(rest, name);
        assert forall|i: int| 0 <= i < preset_at(presets, name) implies (#[trigger] presets[i]).name@
            != name by {
            if i > 0 {
                assert(rest[i - 1] == presets[i]);
            }
        }
    }
}

/// A request is met by the first preset of that name and by no other; without one, only a single
/// preset is chosen.
pub proof fn law_the_chosen_preset(presets: Seq<Preset>, name: Seq<char>)
    ensures
        chosen_preset(presets, Some(name)) matches Some(i) ==> 0 <= i < presets.len()
            && presets[i].name@ == name,
        chosen_preset(presets, Some(name)) is None ==> forall|i: int|
            0 <= i < presets.len() ==> (#[trigger] presets[i]).name@ != name,
        chosen_preset(presets, None) is Some <==> presets.len() == 1,
{
    lemma_preset_at(presets, name);
}

/// Why no preset could be chosen.
pub open spec fn choice_error(presets: Seq<Preset>, requested: Option<Seq<char>>) -> Seq<char> {
    if presets.len() == 0 {
        "no export presets — configure one in the Godot editor (Project > Export), which writes export_presets.cfg"@
    } else {
        match requested {
            Some(name) => "no preset named "@ + text::notation(name) + ". Available: "@
                + names_text(presets),
            None => "several export presets exist — name one. Available: "@ + names_text(presets),
        }
    }
}

/// Choose the preset to export: the requested name, else the only one, else an error listing the
/// candidates so the caller can pick.
pub fn choose_preset<'a>(presets: &'a [Preset], requested: Option<&str>) -> (r: Result<
    &'a Preset,
    String,
>)
    ensures
        match chosen_preset(presets@, text::opt_str(requested)) {
            Some(i) => r == Ok::<&Preset, String>(&presets@[i]),
            None => r is Err && r->Err_0@ == choice_error(presets@, text::opt_str(requested)),
        },
{
    if presets.len() == 0 {
        return Err(
            "no export presets — configure one in the Godot editor (Project > Export), which writes export_presets.cfg".to_string(),
        );
    }
    match requested {
        Some(name) => {
            assert(presets@.skip(0) == presets@);
            for i in 0..presets.len()
                invariant
                    requested == Some(name),
                    preset_at(presets@, name@) == i + preset_at(presets@.skip(i as int), name@),
            {
                assert(presets@.skip(i as int)[0] == presets@[i as int]);
                assert(presets@.skip(i as int).skip(1) == presets@.skip(i + 1));
                if text::same(presets[i].name.as_str(), name) {
                    return Ok(&presets[i]);
                }
            }
            let shown = text::quote(name);
            let listed = names(presets);
            let mut out = "no preset named ".to_string();
            out.append(shown.as_str());
            out.append(". Available: ");
            out.append(listed.as_str());
            Err(out)
        },
        None => {
            if presets.len() == 1 {
                return Ok(&presets[0]);
            }
            let listed = names(presets);
            let mut out = "several export presets exist — name one. Available: ".to_string();
            out.append(listed.as_str());
            Err(out)
        },
    }
}

// ---- the output ---------------------------------------------------------------------------------

/// The text, where there is one that is not blank.
pub open spec fn said(v: Option<Seq<char>>) -> Option<Seq<char>> {
    match v {
        Some(s) => if text::is_blank(s) {
            None
        } else {
            Some(s)
        },
        None => None,
    }
}

fn unless_blank<'a>(v: Option<&'a str>) -> (r: Option<&'a str>)
    ensures
        text::opt_str(r) == said(text::opt_str(v)),
{
    match v {
        Some(s) => if text::blank(s) {
            None
        } else {
            Some(s)
        },
        None => None,
    }
}

/// The output that is asked for: the request, else the configured default, else the preset's own.
pub open spec fn output_text(
    export_path: Seq<char>,
    requested: Option<Seq<char>>,
    configured: Option<Seq<char>>,
) -> Option<Seq<char>> {
    if said(requested) is Some {
        said(requested)
    } else if said(configured) is Some {
        said(configured)
    } else {
        said(Some(export_path))
    }
}

/// Where that output lies: where it says, when it is absolute, and under the project otherwise.
pub open spec fn output_path(project: Seq<char>, output: Seq<char>) -> Seq<char> {
    if path::is_absolute(output) {
        output
    } else {
        path::joined(project, output)
    }
}

/// An explicit output outranks the configured one, which outranks the preset's own; blank ones count
/// as absent. An absolute output is left alone.
pub proof fn law_output_precedence(
    project: Seq<char>,
    export_path: Seq<char>,
    requested: Option<Seq<char>>,
    configured: Option<Seq<char>>,
)
    ensures
        said(requested) is Some ==> output_text(export_path, requested, configured) == requested,
        said(requested) is None && said(configured) is Some ==> output_text(
            export_path,
            requested,
            configured,
        ) == configured,
        said(requested) is None && said(configured) is None ==> output_text(
            export_path,
            requested,
            configured,
        ) == said(Some(export_path)),
        path::is_absolute(export_path) ==> output_path(project, export_path) == export_path,
{
}

/// Resolve the output path: the explicit request, else the configured default, else the preset's
/// own `export_path`. A relative path resolves against the project dir, matching the engine.
pub fn resolve_output(
    project: &str,
    preset: &Preset,
    requested: Option<&str>,
    configured: Option<&str>,
) -> (r: Result<String, String>)
    ensures
        match output_text(
            preset.export_path@,
            text::opt_str(requested),
            text::opt_str(configured),
        ) {
            Some(o) => r is Ok && r->Ok_0@ == output_path(project@, o),
            None => r is Err && r->Err_0@ == "preset "@ + text::notation(preset.name@)
                + " has no export_path — pass an output path"@,
        },
{
    let own = unless_blank(Some(preset.export_path.as_str()));
    let chosen = match unless_blank(requested) {
        Some(s) => Some(s),
        None => match unless_blank(configured) {
            Some(s) => Some(s),
            None => own,
        },
    };
    match chosen {
        Some(s) => if path::absolute(s) {
            Ok(s.to_string())
        } else {
            Ok(path::join(project, s))
        },
        None => {
            let shown = text::quote(preset.name.as_str());
            let mut out = "preset ".to_string();
            out.append(shown.as_str());
            out.append(" has no export_path — pass an output path");
            Err(out)
        },
    }
}

/// The engine's arguments for an export run.
pub open spec fn export_args_text(
    project: Seq<char>,
    name: Seq<char>,
    output: Seq<char>,
    mode: ExportMode,
) -> Seq<Seq<char>> {
    seq!["--headless"@, "--path"@, project, mode.flag_text(), name, output]
}

/// Build the Godot argv for an export run.
pub fn export_args(project: &str, preset: &Preset, output: &str, mode: ExportMode) -> (r: Vec<
    String,
>)
    ensures
        text::texts(r@) == export_args_text(project@, preset.name@, output@, mode),
{
    let mut out: Vec<String> = Vec::new();
    out.push("--headless".to_string());
    out.push("--path".to_string());
    out.push(project.to_string());
    out.push(mode.flag().to_string());
    out.push(preset.name.clone());
    out.push(output.to_string());
    assert(text::texts(out@) =~= export_args_text(project@, preset.name@, output@, mode));
    out
}

// ---- what presets and outputs are for ------------------------------------------------------------

/// The presets that were read, once one more line `key=value` has been: the last one has the value.
proof fn lemma_a_key_line(st: Reading, key: Seq<char>, value: Seq<char>)
    requires
        st.inside,
        st.presets.len() > 0,
        key.len() > 0,
        forall|i: int| 0 <= i < key.len() ==> #[trigger] key[i] != '=',
        !text::is_white(key[0]) && !text::is_white(key.last()),
        key[0] != '[' && key[0] != ';',
        value.len() > 0,
        !text::is_white(value[0]) && !text::is_white(value.last()),
    ensures
        read_line(st, key + seq!['='] + value) == (Reading {
            presets: st.presets.update(
                st.presets.len() - 1,
                with_key(st.presets.last(), key, unquoted(value)),
            ),
            inside: true,
        }),
{
    let line = key + seq!['='] + value;
    assert(line[0] == key[0] && line.last() == value.last());
    text::lemma_trimmed_is_fixed(line);
    text::lemma_trimmed_is_fixed(key);
    text::lemma_trimmed_is_fixed(value);
    text::law_a_split_is_at_the_first_place(line, key, '=', value);
}

/// A value in quotes, as it stands in a presets file.
pub open spec fn quoted(s: Seq<char>) -> Seq<char> {
    seq!['"'] + escaped(s) + seq!['"']
}

/// The lines of a section that describes a preset.
pub open spec fn section_lines(number: Seq<char>, p: PresetText) -> Seq<Seq<char>> {
    seq![
        "[preset."@ + number + "]"@,
        "name="@ + quoted(p.name),
        "platform="@ + quoted(p.platform),
        "export_path="@ + quoted(p.export_path),
        "runnable="@ + if p.runnable {
            "true"@
        } else {
            "false"@
        },
    ]
}

/// A preset that a file describes is read as it was written, behind those in front of it: name,
/// platform, path and whether it can be run.
#[verifier::rlimit(50)]
pub proof fn law_a_written_preset_is_read_back(
    before: Seq<Seq<char>>,
    number: Seq<char>,
    p: PresetText,
)
    requires
        !text::finishes("preset."@ + number, ".options"@),
    ensures
        read_lines(before + section_lines(number, p)).presets == read_lines(before).presets.push(p),
        read_lines(before + section_lines(number, p)).inside,
{
    let lines = section_lines(number, p);
    let s0 = read_lines(before);
    let l1 = before + lines.take(1);
    let l2 = before + lines.take(2);
    let l3 = before + lines.take(3);
    let l4 = before + lines.take(4);
    let l5 = before + lines;
    assert(l1.drop_last() =~= before);
    assert(l2.drop_last() =~= l1);
    assert(l3.drop_last() =~= l2);
    assert(l4.drop_last() =~= l3);
    assert(l5.drop_last() =~= l4);
    lemma_a_header_line(s0, number);
    let s1 = read_lines(l1);
    assert(s1.presets == s0.presets.push(new_preset()));
    reveal_strlit("name=");
    reveal_strlit("platform=");
    reveal_strlit("export_path=");
    reveal_strlit("runnable=");
    reveal_strlit("name");
    reveal_strlit("platform");
    reveal_strlit("export_path");
    reveal_strlit("runnable");
    reveal_strlit("true");
    reveal_strlit("false");
    assert("name="@ =~= "name"@ + seq!['=']);
    assert("platform="@ =~= "platform"@ + seq!['=']);
    assert("export_path="@ =~= "export_path"@ + seq!['=']);
    assert("runnable="@ =~= "runnable"@ + seq!['=']);
    assert("name"@.len() == 4 && "platform"@.len() == 8 && "export_path"@.len() == 11
        && "runnable"@.len() == 8);
    assert("platform"@[0] == 'p' && "runnable"@[0] == 'r');
    assert("true"@.len() == 4 && "false"@.len() == 5);
    law_unquoting_undoes_quoting(p.name);
    law_unquoting_undoes_quoting(p.platform);
    law_unquoting_undoes_quoting(p.export_path);
    lemma_a_key_line(s1, "name"@, quoted(p.name));
    let s2 = read_lines(l2);
    assert(s2.presets =~= s0.presets.push(PresetText { name: p.name, ..new_preset() }));
    lemma_a_key_line(s2, "platform"@, quoted(p.platform));
    let s3 = read_lines(l3);
    assert(s3.presets =~= s0.presets.push(
        PresetText { name: p.name, platform: p.platform, ..new_preset() },
    ));
    lemma_a_key_line(s3, "export_path"@, quoted(p.export_path));
    let s4 = read_lines(l4);
    assert(s4.presets =~= s0.presets.push(PresetText { runnable: false, ..p }));
    let word = if p.runnable {
        "true"@
    } else {
        "false"@
    };
    lemma_a_key_line(s4, "runnable"@, word);
    lemma_a_bare_word(word);
    assert(read_lines(l5).presets =~= s0.presets.push(p));
}

proof fn lemma_a_bare_word(word: Seq<char>)
    requires
        word == "true"@ || word == "false"@,
    ensures
        unquoted(word) == word,
{
    reveal_strlit("true");
    reveal_strlit("false");
    reveal_strlit("\\\"");
    reveal_strlit("\\\\");
    let empty = Seq::<char>::empty();
    assert forall|pat: Seq<char>| pat.len() > 0 && pat[0] == '\\' implies !(#[trigger] text::has(
        word,
        pat,
    )) by {
        if text::has(word, pat) {
            let i = choose|i: int| text::occurs_at(word, pat, i);
            assert(word.subrange(i, i + pat.len())[0] == word[i]);
        }
    }
    assert("\\\""@[0] == '\\' && "\\\\"@[0] == '\\');
    assert(!text::has(word, "\\\""@) && !text::has(word, "\\\\"@));
    text::law_replacing_keeps_what_stands_around(empty, "\\\""@, word, "\""@);
    text::law_replacing_keeps_what_stands_around(empty, "\\\\"@, word, "\\"@);
}

proof fn lemma_a_header_line(st: Reading, number: Seq<char>)
    requires
        !text::finishes("preset."@ + number, ".options"@),
    ensures
        read_line(st, "[preset."@ + number + "]"@) == (Reading {
            presets: st.presets.push(new_preset()),
            inside: true,
        }),
{
    reveal_strlit("[preset.");
    reveal_strlit("preset.");
    reveal_strlit("]");
    let line = "[preset."@ + number + "]"@;
    assert(line[0] == '[' && line.last() == ']');
    text::lemma_trimmed_is_fixed(line);
    assert("[preset."@ =~= seq!['['] + "preset."@);
    assert(line.subrange(1, line.len() - 1) =~= "preset."@ + number);
    text::law_a_text_is_found_where_it_stands(line, number, "preset."@, number);
}

/// A preset is read from the text of a file: where the lines of a file go on with a preset's section,
/// that preset is read behind the others, unless it has no name.
pub proof fn law_a_file_is_read_section_by_section(
    raw: Seq<char>,
    front: Seq<char>,
    number: Seq<char>,
    p: PresetText,
)
    requires
        !text::finishes("preset."@ + number, ".options"@),
        text::pieces(raw, '\n') == text::pieces(front, '\n') + section_lines(number, p),
    ensures
        p.name.len() > 0 ==> presets_of(raw) == presets_of(front).push(p),
        p.name.len() == 0 ==> presets_of(raw) == presets_of(front),
{
    law_a_written_preset_is_read_back(text::pieces(front, '\n'), number, p);
    let v = read_lines(text::pieces(front, '\n')).presets;
    assert(v.push(p).drop_last() =~= v);
}

/// Keys that say nothing of a preset, comments and blank lines leave every preset as it is.
pub proof fn law_other_lines_change_nothing(st: Reading, key: Seq<char>, value: Seq<char>, line: Seq<char>)
    ensures
        key != "name"@ && key != "platform"@ && key != "export_path"@ && key != "runnable"@
            ==> forall|p: PresetText| #[trigger] with_key(p, key, value) == p,
        text::is_blank(line) ==> read_line(st, line).presets == st.presets,
        text::trimmed(line).len() > 0 && text::trimmed(line)[0] == ';' ==> read_line(st, line).presets
            == st.presets,
{
}

/// A key gives its own field its value and leaves the others.
pub proof fn law_each_key_sets_its_field(p: PresetText, value: Seq<char>)
    ensures
        with_key(p, "name"@, value) == (PresetText { name: value, ..p }),
        with_key(p, "platform"@, value) == (PresetText { platform: value, ..p }),
        with_key(p, "export_path"@, value) == (PresetText { export_path: value, ..p }),
        with_key(p, "runnable"@, "true"@).runnable,
        value != "true"@ ==> !with_key(p, "runnable"@, value).runnable,
        with_key(p, "runnable"@, value).name == p.name,
{
    reveal_strlit("name");
    reveal_strlit("platform");
    reveal_strlit("export_path");
    reveal_strlit("runnable");
    assert("name"@.len() == 4 && "platform"@.len() == 8 && "export_path"@.len() == 11
        && "runnable"@.len() == 8);
    assert("platform"@[0] == 'p' && "runnable"@[0] == 'r');
}

/// Only nameless sections are left out, and the others keep their order.
#[verifier::rlimit(50)]
pub proof fn law_named_presets_are_kept(a: Seq<PresetText>, b: Seq<PresetText>, p: PresetText)
    ensures
        named_only(a + b) == named_only(a) + named_only(b),
        named_only(seq![p]) == if p.name.len() > 0 {
            seq![p]
        } else {
            Seq::empty()
        },
    decreases b.len(),
{
    reveal_with_fuel(named_only, 2);
    assert(seq![p].drop_last() =~= Seq::<PresetText>::empty());
    assert(Seq::<PresetText>::empty().push(p) =~= seq![p]);
    if b.len() == 0 {
        assert(a + b =~= a);
        assert(named_only(a) + named_only(b) =~= named_only(a));
    } else {
        law_named_presets_are_kept(a, b.drop_last(), p);
        assert((a + b).drop_last() =~= a + b.drop_last());
        assert(named_only(a + b) =~= named_only(a) + named_only(b));
    }
}

/// A named preset is the first one of that name; without a name the only one is chosen, and among
/// several none.
pub proof fn law_which_preset_is_chosen(presets: Seq<Preset>, i: int)
    requires
        0 <= i < presets.len(),
        forall|j: int| 0 <= j < i ==> (#[trigger] presets[j]).name@ != presets[i].name@,
    ensures
        chosen_preset(presets, Some(presets[i].name@)) == Some(i),
        presets.len() == 1 ==> chosen_preset(presets, None) == Some(0int),
        presets.len() > 1 ==> chosen_preset(presets, None) is None,
{
    let name = presets[i].name@;
    lemma_preset_at(presets, name);
    let k = preset_at(presets, name);
    if k < i {
        assert(presets[k].name@ == name);
    }
    if k > i {
        assert(presets[i].name@ != name);
    }
}

/// Where no preset can be chosen the error says what is available: every preset with its name and
/// platform, and the name that was asked for.
pub proof fn law_the_error_lists_the_presets(presets: Seq<Preset>, requested: Option<Seq<char>>, i: int)
    requires
        0 <= i < presets.len(),
    ensures
        text::has(
            choice_error(presets, requested),
            text::notation(presets[i].name@) + " ("@ + presets[i].platform@ + ")"@,
        ),
        requested is Some ==> text::has(
            choice_error(presets, requested),
            text::notation(requested->Some_0),
        ),
{
    let labels = presets.map_values(|p: Preset| preset_label(p));
    let listed = names_text(presets);
    let empty = Seq::<char>::empty();
    let e = choice_error(presets, requested);
    text::law_every_joined_item_is_shown(labels, ", "@, i);
    match requested {
        Some(name) => {
            let front = "no preset named "@ + text::notation(name) + ". Available: "@;
            assert(e =~= front + listed + empty);
            text::lemma_has_part(e, front, listed, empty);
            let rest = ". Available: "@ + listed;
            assert(e =~= "no preset named "@ + text::notation(name) + rest);
            text::lemma_has_part(e, "no preset named "@, text::notation(name), rest);
        },
        None => {
            let front = "several export presets exist — name one. Available: "@;
            assert(e =~= front + listed + empty);
            text::lemma_has_part(e, front, listed, empty);
        },
    }
    text::lemma_has_through(e, listed, labels[i]);
}

/// The output is the one that is asked for, whatever is configured; then the configured one, whatever
/// the preset says; then the preset's own. Blank ones count as absent, and with none there is none.
pub proof fn law_which_output_is_used(
    own: Seq<char>,
    requested: Option<Seq<char>>,
    configured: Option<Seq<char>>,
    o: Seq<char>,
)
    requires
        !text::is_blank(o),
    ensures
        output_text(own, Some(o), configured) == Some(o),
        requested is None || text::is_blank(requested->Some_0) ==> output_text(
            own,
            requested,
            Some(o),
        ) == Some(o),
        (requested is None || text::is_blank(requested->Some_0)) && (configured is None
            || text::is_blank(configured->Some_0)) ==> output_text(o, requested, configured) == Some(
            o,
        ) && (text::is_blank(own) ==> output_text(own, requested, configured) is None),
{
}

/// An absolute output is where it says; a relative one lies under the project.
pub proof fn law_where_an_output_lies(project: Seq<char>, output: Seq<char>)
    ensures
        path::is_absolute(output) ==> output_path(project, output) == output,
        path::prefix_len(output) == 0 && !path::is_rooted(output) && !path::is_verbatim(project)
            ==> text::begins(output_path(project, output), project) && text::finishes(
            output_path(project, output),
            output,
        ),
{
    if path::prefix_len(output) == 0 && !path::is_rooted(output) && !path::is_verbatim(project) {
        path::law_a_relative_piece_stays_under_its_base(project, output);
    }
}

/// The engine is told to export, headless, in the project, in the mode that was asked for, the preset
/// by its name and to the output.
pub proof fn law_what_the_engine_is_told(
    project: Seq<char>,
    name: Seq<char>,
    output: Seq<char>,
    mode: ExportMode,
)
    ensures
        ({
            let args = export_args_text(project, name, output, mode);
            &&& args.len() == 6
            &&& args[0] == "--headless"@
            &&& args[1] == "--path"@ && args[2] == project
            &&& mode == ExportMode::Release ==> args[3] == "--export-release"@
            &&& mode == ExportMode::Debug ==> args[3] == "--export-debug"@
            &&& mode == ExportMode::Pack ==> args[3] == "--export-pack"@
            &&& args[4] == name && args[5] == output
        }),
{
}

/// The word for an artifact says what became of it, and agrees with whether it counts.
pub proof fn law_the_word_for_an_artifact(
    before: Option<&ArtifactStamp>,
    after: Option<&ArtifactStamp>,
)
    ensures
        is_fresh(before, after) <==> after is Some && after->Some_0.len > 0 && before != after,
        is_fresh(before, after) ==> artifact_word(before, after) == "created or updated"@,
        after is None ==> artifact_word(before, after) == "MISSING"@,
        after is Some && after->Some_0.len == 0 ==> artifact_word(before, after) == "EMPTY"@,
        after is Some && after->Some_0.len > 0 && before == after ==> artifact_word(before, after)
            == "UNCHANGED from before this export"@,
{
}

} // verus!
