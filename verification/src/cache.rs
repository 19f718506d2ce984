//! The cached API reference.
//!
//! The reference is generated from the installed engine and cached on disk by the engine's version;
//! the parsed index is held in memory under the same version. Every lookup asks the engine for its
//! version first, so an engine change reloads the index; an engine that does not tell it leaves what
//! is in memory to serve. A refresh dumps into temporary storage and replaces what is there only
//! once the engine has finished well and the dump has been read, so a failed one leaves the previous
//! reference in place.
use vstd::prelude::*;

use crate::config::Config;
use crate::docs;
use crate::docs::{Api, ApiIndex, DumpFile};
use crate::path;
use crate::process;
use crate::process::OneshotResult;
use crate::server;
use crate::server::{ErrorKind, ToolError, ToolReply};
use crate::text;

verus! {

/// The reference in memory: the engine version it was dumped from, and its index.
pub struct Reference {
    pub key: String,
    pub index: ApiIndex,
}

pub struct DocsCache {
    pub loaded: Option<Reference>,
}

/// Where the answer to a lookup comes from.
#[derive(Clone, Copy, Debug, PartialEq, Eq, Structural)]
pub enum Source {
    /// The index in memory.
    Loaded,
    /// The cached dump on disk.
    Cached,
    /// A dump that the engine has yet to write.
    Dump,
}

/// The reference in memory serves its own version, unless a refresh is asked for; otherwise the
/// cached dump of the version does, where there is one.
pub open spec fn source_of(
    loaded: Option<Seq<char>>,
    refresh: bool,
    version: Seq<char>,
    cached: bool,
) -> Source {
    if refresh {
        Source::Dump
    } else if loaded == Some(version) {
        Source::Loaded
    } else if cached {
        Source::Cached
    } else {
        Source::Dump
    }
}

impl DocsCache {
    pub open spec fn wf(self) -> bool {
        self.loaded is Some ==> self.loaded->Some_0.index.wf()
    }

    /// The version of the reference in memory.
    pub open spec fn version(self) -> Option<Seq<char>> {
        match self.loaded {
            Some(reference) => Some(reference.key@),
            None => None,
        }
    }

    /// The reference in memory is that of the version's dump.
    pub open spec fn holds(self, version: Seq<char>, api: Api) -> bool {
        &&& self.version() == Some(version)
        &&& self.loaded->Some_0.index.holds(api)
    }

    pub fn new() -> (r: Self)
        ensures
            r.wf(),
            r.loaded is None,
    {
        DocsCache { loaded: None }
    }

    /// Where the answer for the engine's `version` comes from; `cached` says whether its dump is on
    /// disk.
    pub fn source(&self, refresh: bool, version: &str, cached: bool) -> (r: Source)
        ensures
            r == source_of(self.version(), refresh, version@, cached),
    {
        if refresh {
            return Source::Dump;
        }
        if let Some(reference) = &self.loaded {
            if text::same(reference.key.as_str(), version) {
                return Source::Loaded;
            }
        }
        if cached {
            Source::Cached
        } else {
            Source::Dump
        }
    }

    /// Begin a lookup. Where no engine is configured, what is in memory serves, unless a refresh is
    /// asked for.
    pub fn begin(&self, cfg: &Config, refresh: bool) -> (r: Result<Begun, ToolError>)
        ensures
            match text::opt_text(cfg.godot_bin) {
                Some(godot) => r matches Ok(Begun::AskVersion(l)) && l.godot@ == godot
                    && l.data_dir@ == cfg.data_dir@ && l.refresh == refresh,
                None => if !refresh && self.loaded is Some {
                    r == Ok::<Begun, ToolError>(Begun::Answer)
                } else {
                    r is Err && r->Err_0@ == (ErrorKind::InvalidParams, server::NO_GODOT@)
                },
            },
    {
        match server::need_godot(cfg) {
            Ok(godot) => Ok(
                Begun::AskVersion(Lookup { godot, data_dir: cfg.data_dir.clone(), refresh }),
            ),
            Err(e) => if !refresh && self.loaded.is_some() {
                Ok(Begun::Answer)
            } else {
                Err(e)
            },
        }
    }

    /// Answer a lookup from the reference in memory.
    pub fn answer(&self, query: Option<&str>) -> (r: Option<ToolReply>)
        requires
            self.wf(),
        ensures
            match self.loaded {
                Some(reference) => r is Some && r->Some_0@ == (false, reference.index.answer(
                    match text::opt_str(query) {
                        Some(q) => q,
                        None => ""@,
                    },
                )),
                None => r is None,
            },
    {
        match &self.loaded {
            Some(reference) => {
                let q = match query {
                    Some(q) => q,
                    None => "",
                };
                Some(ToolReply { is_error: false, text: reference.index.query(q) })
            },
            None => None,
        }
    }
}

/// Once a dump has been taken for a version, that version is served from memory until a refresh is
/// asked for, and its answers are those of the dump's index.
pub proof fn law_what_was_taken_is_served(cache: DocsCache, version: Seq<char>, api: Api, cached: bool)
    requires
        cache.holds(version, api),
    ensures
        source_of(cache.version(), false, version, cached) == Source::Loaded,
        cache.loaded->Some_0.index.holds(api),
        source_of(cache.version(), true, version, cached) == Source::Dump,
{
}

/// A reference serves lookups of its own version from memory and no other's: a changed engine makes
/// the index be loaded anew, and a refresh always asks the engine.
pub proof fn law_an_engine_change_reloads(key: Seq<char>, version: Seq<char>, cached: bool)
    ensures
        source_of(Some(key), false, key, cached) == Source::Loaded,
        key != version ==> source_of(Some(key), false, version, cached) != Source::Loaded,
        source_of(Some(key), true, version, cached) == Source::Dump,
        source_of(None, false, version, true) == Source::Cached,
        source_of(None, false, version, false) == Source::Dump,
{
}

// ---- a lookup, step by step ---------------------------------------------------------------------

/// A lookup that has begun.
pub enum Begun {
    /// The reference in memory answers it.
    Answer,
    /// The engine is asked for its version.
    AskVersion(Lookup),
}

/// A lookup for an engine whose version is not known yet.
pub struct Lookup {
    pub godot: String,
    pub data_dir: String,
    pub refresh: bool,
}

/// A lookup after the engine was asked for its version.
pub enum Asked {
    /// The reference in memory answers it.
    Answer,
    /// The version is known.
    Versioned(Versioned),
}

/// A lookup for an engine whose version is known.
pub struct Versioned {
    pub godot: String,
    pub version: String,
    pub refresh: bool,
    /// Where the version's dump is cached.
    pub dir: String,
    pub path: String,
}

/// A dump that has been read and may take the cached one's place.
pub struct Publishable {
    pub version: String,
    pub path: String,
    pub index: ApiIndex,
}

pub fn version_args() -> (r: Vec<String>)
    ensures
        text::texts(r@) == seq!["--version"@],
{
    let mut out: Vec<String> = Vec::new();
    out.push("--version".to_string());
    assert(text::texts(out@) =~= seq!["--version"@]);
    out
}

/// The dump has no output-path flag: it is written into the working directory.
pub fn dump_args() -> (r: Vec<String>)
    ensures
        text::texts(r@) == seq!["--headless"@, "--dump-extension-api-with-docs"@],
{
    let mut out: Vec<String> = Vec::new();
    out.push("--headless".to_string());
    out.push("--dump-extension-api-with-docs".to_string());
    assert(text::texts(out@) =~= seq!["--headless"@, "--dump-extension-api-with-docs"@]);
    out
}

/// Why no version could be read from what the engine printed.
pub open spec fn no_version_text(lines: Seq<Seq<char>>) -> Seq<char> {
    "could not read the Godot version from: "@ + text::joined(lines, " | "@)
}

/// Why the engine's version is not known, if it is not.
pub open spec fn version_error(ran: Result<Vec<String>, String>) -> Option<Seq<char>> {
    match ran {
        Err(e) => Some("godot --version failed: "@ + e@),
        Ok(lines) => match docs::version_among(text::texts(lines@)) {
            None => Some(no_version_text(text::texts(lines@))),
            Some(_) => None,
        },
    }
}

impl Lookup {
    /// The lookup for the engine's version `v`.
    pub open spec fn at(self, v: Seq<char>, next: Versioned) -> bool {
        &&& next.godot@ == self.godot@
        &&& next.version@ == v
        &&& next.refresh == self.refresh
        &&& next.dir@ == docs::cache_dir_of(self.data_dir@, v)
        &&& next.path@ == path::joined(docs::cache_dir_of(self.data_dir@, v), docs::DUMP_FILE@)
    }

    /// Take what the engine printed when asked for its version, or why it could not be run. Where
    /// the version is not known, what is in memory serves, unless a refresh is asked for.
    pub fn versioned(self, cache: &DocsCache, ran: Result<Vec<String>, String>) -> (r: Result<
        Asked,
        ToolError,
    >)
        ensures
            match version_error(ran) {
                None => {
                    &&& r matches Ok(Asked::Versioned(next))
                    &&& self.at(docs::version_among(text::texts(ran->Ok_0@))->Some_0, next)
                },
                Some(e) => if !self.refresh && cache.loaded is Some {
                    r == Ok::<Asked, ToolError>(Asked::Answer)
                } else {
                    r is Err && r->Err_0@ == (ErrorKind::Internal, e)
                },
            },
    {
        let mut out;
        match ran {
            Ok(lines) => match docs::parse_version_output(&lines) {
                Some(version) => {
                    let dir = docs::cache_dir(self.data_dir.as_str(), version.as_str());
                    let path = docs::cache_path(self.data_dir.as_str(), version.as_str());
                    return Ok(
                        Asked::Versioned(
                            Versioned {
                                godot: self.godot,
                                version,
                                refresh: self.refresh,
                                dir,
                                path,
                            },
                        ),
                    );
                },
                None => {
                    out = "could not read the Godot version from: ".to_string();
                    out.append(text::join(&lines, " | ").as_str());
                },
            },
            Err(e) => {
                out = "godot --version failed: ".to_string();
                out.append(e.as_str());
            },
        }
        if !self.refresh && cache.loaded.is_some() {
            Ok(Asked::Answer)
        } else {
            Err(server::internal(out))
        }
    }
}

/// What came of a dump.
pub enum Dump {
    /// The engine could not be run; the system's words for it.
    NotRun(String),
    /// It ran and wrote no dump.
    Nothing(OneshotResult),
    /// It ran and wrote one, which was read.
    Written(OneshotResult, DumpFile),
}

/// The engine exited with zero, in time.
pub open spec fn finished_well(res: OneshotResult) -> bool {
    res.exit_code == Some(0i32) && !res.timed_out
}

/// How a run ended, and the last it printed.
pub open spec fn ending_text(res: OneshotResult) -> Seq<char> {
    " (exit="@ + process::exit_words(res.exit_code) + server::timed_note(res) + "). Output:\n"@
        + server::tail_text(res, 12)
}

fn ending(res: &OneshotResult) -> (r: String)
    ensures
        r@ == ending_text(*res),
{
    let mut out = " (exit=".to_string();
    out.append(process::exit_text(res.exit_code).as_str());
    out.append(
        if res.timed_out {
            ", timed out"
        } else {
            ""
        },
    );
    out.append("). Output:\n");
    out.append(server::lines_tail(res, 12).as_str());
    out
}

pub open spec fn no_dump_text(res: OneshotResult) -> Seq<char> {
    "the engine wrote no "@ + docs::DUMP_FILE@ + ending_text(res)
}

pub open spec fn failed_refresh_text(res: OneshotResult) -> Seq<char> {
    "the engine failed to refresh "@ + docs::DUMP_FILE@ + ending_text(res)
}

/// Why the dump at `path` gives no index, if it gives none.
pub open spec fn reading_error(path: Seq<char>, file: DumpFile) -> Option<Seq<char>> {
    match file {
        DumpFile::Unreadable(e) => Some("cannot read "@ + path + ": "@ + e@),
        DumpFile::Malformed(e) => Some("bad API dump: "@ + e@),
        DumpFile::Read(api) => if docs::holds_no_classes(api) {
            Some("API dump contains no classes"@)
        } else {
            None
        },
    }
}

/// Why what the engine was asked for gives no index, if it gives none. A refresh takes no file of a
/// run that did not finish well; where there is nothing to lose, what was written counts.
pub open spec fn dump_error(path: Seq<char>, refresh: bool, dump: Dump) -> Option<Seq<char>> {
    match dump {
        Dump::NotRun(e) => Some("API dump failed to run: "@ + e@),
        Dump::Nothing(res) => Some(no_dump_text(res)),
        Dump::Written(res, file) => if refresh && !finished_well(res) {
            Some(failed_refresh_text(res))
        } else {
            reading_error(path, file)
        },
    }
}

/// A refresh succeeds only with a run that exited with zero in time and a dump that was read and
/// holds classes; every other outcome is an error.
pub proof fn law_a_refresh_needs_a_run_that_finished_well(path: Seq<char>, dump: Dump)
    ensures
        dump_error(path, true, dump) is None <==> {
            &&& dump matches Dump::Written(res, DumpFile::Read(api))
            &&& finished_well(res)
            &&& !docs::holds_no_classes(api)
        },
{
}

impl Versioned {
    /// Where the answer comes from; `cached` says whether the version's dump is on disk.
    pub fn source(&self, cache: &DocsCache, cached: bool) -> (r: Source)
        ensures
            r == source_of(cache.version(), self.refresh, self.version@, cached),
    {
        cache.source(self.refresh, self.version.as_str(), cached)
    }

    /// Take the cached dump as it was read. Where it gives no index, everything stays as it is.
    pub fn read(self, cache: &mut DocsCache, file: DumpFile) -> (r: Result<(), ToolError>)
        requires
            old(cache).wf(),
        ensures
            final(cache).wf(),
            match reading_error(self.path@, file) {
                Some(e) => r is Err && r->Err_0@ == (ErrorKind::Internal, e) && *final(cache)
                    == *old(cache),
                None => r is Ok && final(cache).holds(self.version@, file->Read_0),
            },
    {
        match ApiIndex::load(self.path.as_str(), file) {
            Ok(index) => {
                cache.loaded = Some(Reference { key: self.version, index });
                Ok(())
            },
            Err(e) => Err(server::internal(e)),
        }
    }

    /// Take what came of the dump that the engine was asked for. Only one that gives an index may
    /// take the cached one's place.
    pub fn dumped(self, dump: Dump) -> (r: Result<Publishable, ToolError>)
        ensures
            match dump_error(self.path@, self.refresh, dump) {
                Some(e) => r is Err && r->Err_0@ == (ErrorKind::Internal, e),
                None => {
                    &&& r is Ok
                    &&& r->Ok_0.version == self.version
                    &&& r->Ok_0.path == self.path
                    &&& r->Ok_0.index.holds(dump->Written_1->Read_0)
                },
            },
    {
        let file = match dump {
            Dump::NotRun(e) => {
                let mut out = "API dump failed to run: ".to_string();
                out.append(e.as_str());
                return Err(server::internal(out));
            },
            Dump::Nothing(res) => {
                let mut out = "the engine wrote no ".to_string();
                out.append(docs::DUMP_FILE);
                out.append(ending(&res).as_str());
                return Err(server::internal(out));
            },
            Dump::Written(res, file) => {
                let well = match res.exit_code {
                    Some(code) => code == 0 && !res.timed_out,
                    None => false,
                };
                if self.refresh && !well {
                    let mut out = "the engine failed to refresh ".to_string();
                    out.append(docs::DUMP_FILE);
                    out.append(ending(&res).as_str());
                    return Err(server::internal(out));
                }
                file
            },
        };
        match ApiIndex::load(self.path.as_str(), file) {
            Ok(index) => Ok(Publishable { version: self.version, path: self.path, index }),
            Err(e) => Err(server::internal(e)),
        }
    }
}

impl Publishable {
    /// Take note of whether the dump was moved into its place. Where it was not, everything stays
    /// as it is.
    pub fn published(self, cache: &mut DocsCache, moved: Result<(), String>) -> (r: Result<
        (),
        ToolError,
    >)
        requires
            old(cache).wf(),
            self.index.wf(),
        ensures
            final(cache).wf(),
            match moved {
                Ok(_) => r is Ok && final(cache).loaded == Some(
                    Reference { key: self.version, index: self.index },
                ),
                Err(e) => r is Err && r->Err_0@ == (
                    ErrorKind::Internal,
                    "cannot replace "@ + self.path@ + ": "@ + e@,
                ) && *final(cache) == *old(cache),
            },
    {
        match moved {
            Ok(_) => {
                cache.loaded = Some(Reference { key: self.version, index: self.index });
                Ok(())
            },
            Err(e) => {
                let mut out = "cannot replace ".to_string();
                out.append(self.path.as_str());
                out.append(": ");
                out.append(e.as_str());
                Err(server::internal(out))
            },
        }
    }
}

/// Where nothing is to be lost, a dump that was written and read and holds classes serves, however
/// the run ended; nothing else does.
pub proof fn law_a_first_dump_only_has_to_be_read(path: Seq<char>, dump: Dump)
    ensures
        dump_error(path, false, dump) is None <==> {
            &&& dump matches Dump::Written(_, DumpFile::Read(api))
            &&& api.classes@.len() > 0 || api.builtin_classes@.len() > 0
        },
{
}

/// A run finished well exactly when it exited with zero and was not cut off.
pub proof fn law_what_finishes_well(res: OneshotResult)
    ensures
        finished_well(res) <==> res.exit_code is Some && res.exit_code->Some_0 == 0 && !res.timed_out,
{
}

/// What could not be read is named with the reason.
pub proof fn law_a_reading_error_says_why(path: Seq<char>, e: String, refresh: bool)
    ensures
        reading_error(path, DumpFile::Unreadable(e)) is Some,
        text::has(reading_error(path, DumpFile::Unreadable(e))->Some_0, path),
        text::finishes(reading_error(path, DumpFile::Unreadable(e))->Some_0, e@),
        reading_error(path, DumpFile::Malformed(e)) is Some,
        text::finishes(reading_error(path, DumpFile::Malformed(e))->Some_0, e@),
        dump_error(path, refresh, Dump::NotRun(e)) is Some,
        text::finishes(dump_error(path, refresh, Dump::NotRun(e))->Some_0, e@),
{
    let empty = Seq::<char>::empty();
    let t = "cannot read "@ + path + ": "@ + e@;
    assert(t =~= "cannot read "@ + path + (": "@ + e@));
    text::lemma_has_part(t, "cannot read "@, path, ": "@ + e@);
    text::law_a_text_is_found_where_it_stands(empty, "cannot read "@ + path + ": "@, e@, empty);
    text::law_a_text_is_found_where_it_stands(empty, "bad API dump: "@, e@, empty);
    text::law_a_text_is_found_where_it_stands(empty, "API dump failed to run: "@, e@, empty);
}

/// A run that wrote nothing, and a refresh that failed, are reported with the exit code, whether time
/// ran out, and the last lines that were printed.
pub proof fn law_a_failed_dump_shows_how_it_ended(
    path: Seq<char>,
    refresh: bool,
    res: OneshotResult,
    file: DumpFile,
)
    ensures
        ({
            let end = " (exit="@ + process::exit_words(res.exit_code) + (if res.timed_out {
                ", timed out"@
            } else {
                ""@
            }) + "). Output:\n"@ + text::indented(process::last_texts(res.lines@, 12));
            &&& dump_error(path, refresh, Dump::Nothing(res)) is Some
            &&& text::finishes(dump_error(path, refresh, Dump::Nothing(res))->Some_0, end)
            &&& !finished_well(res) ==> dump_error(path, true, Dump::Written(res, file)) is Some
            &&& !finished_well(res) ==> text::finishes(
                dump_error(path, true, Dump::Written(res, file))->Some_0,
                end,
            )
        }),
{
    let empty = Seq::<char>::empty();
    let end = ending_text(res);
    text::law_a_text_is_found_where_it_stands(
        empty,
        "the engine wrote no "@ + docs::DUMP_FILE@,
        end,
        empty,
    );
    text::law_a_text_is_found_where_it_stands(
        empty,
        "the engine failed to refresh "@ + docs::DUMP_FILE@,
        end,
        empty,
    );
}

/// The version is known exactly where the engine printed a line that reads like one; otherwise every
/// line that it printed is shown, or why it could not be run.
pub proof fn law_when_a_version_is_known(lines: Vec<String>, e: String, i: int)
    ensures
        version_error(Ok::<Vec<String>, String>(lines)) is None <==> docs::version_among(
            text::texts(lines@),
        ) is Some,
        version_error(Ok::<Vec<String>, String>(lines)) is Some && 0 <= i < lines@.len() ==> text::has(
            version_error(Ok::<Vec<String>, String>(lines))->Some_0,
            lines@[i]@,
        ),
        version_error(Err::<Vec<String>, String>(e)) is Some,
        text::finishes(version_error(Err::<Vec<String>, String>(e))->Some_0, e@),
{
    let empty = Seq::<char>::empty();
    let all = text::texts(lines@);
    text::law_a_text_is_found_where_it_stands(empty, "godot --version failed: "@, e@, empty);
    if 0 <= i < lines@.len() {
        let list = text::joined(all, " | "@);
        let head = "could not read the Godot version from: "@;
        assert(no_version_text(all) =~= head + list + empty);
        text::law_every_joined_item_is_shown(all, " | "@, i);
        text::lemma_has_part(no_version_text(all), head, list, empty);
        text::lemma_has_through(no_version_text(all), list, all[i]);
        assert(all[i] == lines@[i]@);
    }
}

/// A lookup for a version is the one that was begun: for the same engine and with the same wish to
/// refresh, in the version's own directory.
pub proof fn law_a_versioned_lookup_is_the_one_begun(
    lookup: Lookup,
    v: Seq<char>,
    w: Seq<char>,
    next: Versioned,
    other: Versioned,
)
    requires
        lookup.at(v, next),
    ensures
        next.godot@ == lookup.godot@,
        next.refresh == lookup.refresh,
        next.version@ == v,
        next.path@ == path::joined(next.dir@, "extension_api.json"@),
        docs::is_clean_segment(v) && docs::is_clean_segment(w) && v != w && lookup.at(w, other)
            ==> next.dir@ != other.dir@,
{
    if docs::is_clean_segment(v) && docs::is_clean_segment(w) && v != w && lookup.at(w, other) {
        docs::law_versions_are_cached_apart(lookup.data_dir@, v, w);
    }
}

/// A cache holds a dump under the version it was taken for and under no other.
pub proof fn law_a_reference_belongs_to_one_version(
    cache: DocsCache,
    v: Seq<char>,
    w: Seq<char>,
    api: Api,
)
    requires
        cache.holds(v, api),
    ensures
        cache.loaded is Some && cache.loaded->Some_0.key@ == v,
        w != v ==> !cache.holds(w, api),
{
}

/// Whatever is in memory is an index that is in order, and an empty cache has nothing to be wrong.
pub proof fn law_what_is_in_memory_is_in_order(cache: DocsCache)
    ensures
        cache.wf() && cache.loaded is Some ==> cache.loaded->Some_0.index.wf(),
        cache.loaded is None ==> cache.wf(),
        cache.version() is Some <==> cache.loaded is Some,
{
}

} // verus!
