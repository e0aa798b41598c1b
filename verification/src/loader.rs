//! Runtime plugin loader: what decides whether a plugin is loaded.
//!
//! Loading a plugin takes answers from outside: what the manifest says, what
//! the files hold, what the dynamic library exports. [`LoadState`] says what is
//! asked next, [`LoadEvent`] is an answer, and [`step`] goes from one to the
//! other until the plugin is loaded or refused.

use vstd::prelude::*;

use crate::checksum;
use crate::checksum::{expected_checksum, verify_checksum};
use crate::grammar;
use crate::grammar::{check_compiled_for, check_grammar};
use crate::manifest::{LanguageProfile, PluginManifest};
use crate::paths;
use crate::paths::{display_path, grammar_dir, grammar_path, plugin_dir_named, query_path};
use crate::text::same_text;
use crate::version;
use crate::version::version_at_least;
use std::path::PathBuf;
use tree_sitter::Language;

verus! {

/// Result of loading a single plugin.
#[derive(Debug)]
pub struct LoadedPlugin<S, T> {
    /// Plugin name from manifest
    pub name: String,
    /// Display name
    pub display_name: String,
    /// Version
    pub version: String,
    /// File extensions
    pub extensions: Vec<String>,
    /// Loaded tree-sitter grammar
    pub grammar: Language,
    /// Compiled tree-sitter query source
    pub query_src: String,
    /// Layer 2: language profile (semantics + thresholds)
    pub profile: LanguageProfile<S, T>,
}

/// Error loading a plugin (non-fatal: the plugin is skipped).
#[derive(Debug)]
pub struct PluginLoadError {
    pub plugin_dir: PathBuf,
    pub error: String,
}

// ---------------------------------------------------------------------------
// Host version
// ---------------------------------------------------------------------------
/// Why a plugin cannot run with host version `current`, in words; `None` if it
/// can: it asks for no version, or for one that the host has reached.
pub open spec fn version_refusal(
    name: Seq<char>,
    min: Option<Seq<char>>,
    current: Seq<char>,
) -> Option<Seq<char>> {
    match min {
        None => None,
        Some(m) => if !version::valid_version(current) {
            Some(invalid_min_error(name, m, version::version_error(current)))
        } else if !version::valid_version(m) {
            Some(invalid_min_error(name, m, version::version_error(m)))
        } else if !version::at_least(current, m) {
            Some(
                "Plugin '"@ + name + "' requires sentrux >= "@ + m + ", but this build is "@
                    + current,
            )
        } else {
            None
        },
    }
}

/// The complaint that versions could not be compared.
pub open spec fn invalid_min_error(name: Seq<char>, min: Seq<char>, error: Seq<char>) -> Seq<
    char,
> {
    "Plugin '"@ + name + "' has invalid min_sentrux_version '"@ + min + "': "@ + error
}

/// The characters of an optional string.
pub open spec fn optional_text(s: Option<String>) -> Option<Seq<char>> {
    match s {
        Some(t) => Some(t@),
        None => None,
    }
}

/// Validates the minimum host version of the plugin called `name`.
pub fn check_min_version(name: &str, min: &Option<String>, current: &str) -> (r: Result<
    (),
    String,
>)
    ensures
        r is Ok <==> version_refusal(name@, optional_text(*min), current@) is None,
        r matches Err(e) ==> version_refusal(name@, optional_text(*min), current@) == Some(e@),
        r is Ok <==> (min matches Some(m) ==> version::valid_version(current@)
            && version::valid_version(m@) && version::at_least(current@, m@)),
{
    match min {
        None => Ok(()),
        Some(m) => match version_at_least(current, m.as_str()) {
            Ok(true) => Ok(()),
            Ok(false) => {
                let mut e: String = String::new();
                e.append("Plugin '");
                e.append(name);
                e.append("' requires sentrux >= ");
                e.append(m.as_str());
                e.append(", but this build is ");
                e.append(current);
                assert(e@ =~= "Plugin '"@ + name@ + "' requires sentrux >= "@ + m@
                    + ", but this build is "@ + current@);
                Err(e)
            },
            Err(error) => {
                let mut e: String = String::new();
                e.append("Plugin '");
                e.append(name);
                e.append("' has invalid min_sentrux_version '");
                e.append(m.as_str());
                e.append("': ");
                e.append(error.as_str());
                assert(e@ =~= invalid_min_error(name@, m@, error@));
                Err(e)
            },
        },
    }
}

// ---------------------------------------------------------------------------
// Loading one plugin
// ---------------------------------------------------------------------------
/// Which plugin to load, and for what.
pub struct LoadRequest {
    /// The plugin's directory.
    pub plugin_dir: PathBuf,
    /// The directory under which the plugin's grammar binary lies.
    pub grammar_home: PathBuf,
    /// The grammar file of this platform; `unsupported` if there can be none.
    pub grammar_file: String,
    /// The version of the host.
    pub current_version: String,
}

/// How far the loading of a plugin has come, and so what it waits for.
pub enum LoadState<S, T> {
    /// The manifest in the plugin's directory.
    NeedManifest { request: LoadRequest },
    /// What the query file at `path` holds.
    NeedQuery { request: LoadRequest, manifest: PluginManifest<S, T>, path: PathBuf },
    /// Whether the captures of the query match the declared capabilities.
    NeedCaptures { request: LoadRequest, manifest: PluginManifest<S, T>, query_src: String },
    /// Whether the grammar binary at `path` exists.
    NeedGrammarFile {
        request: LoadRequest,
        manifest: PluginManifest<S, T>,
        query_src: String,
        path: PathBuf,
    },
    /// What the grammar binary at `path` holds.
    NeedGrammarBytes {
        request: LoadRequest,
        manifest: PluginManifest<S, T>,
        query_src: String,
        path: PathBuf,
    },
    /// The grammar that the dynamic library at `path` exports.
    NeedGrammar { manifest: PluginManifest<S, T>, query_src: String, path: PathBuf },
    /// Whether the query compiles for the grammar.
    NeedCompiledQuery { manifest: PluginManifest<S, T>, query_src: String, grammar: Language },
    /// The plugin is loaded.
    Loaded { plugin: LoadedPlugin<S, T> },
    /// The plugin cannot be loaded.
    Refused { error: String },
}

/// An answer to what a [`LoadState`] waits for.
pub enum LoadEvent<S, T> {
    Manifest(Result<PluginManifest<S, T>, String>),
    Query(Result<String, String>),
    Captures(Result<(), String>),
    GrammarFile(bool),
    GrammarBytes(Result<Vec<u8>, String>),
    Grammar(Result<Language, String>),
    CompiledQuery(Result<(), String>),
}

/// `event` answers what `state` waits for.
pub open spec fn answers<S, T>(state: LoadState<S, T>, event: LoadEvent<S, T>) -> bool {
    match state {
        LoadState::NeedManifest { .. } => event is Manifest,
        LoadState::NeedQuery { .. } => event is Query,
        LoadState::NeedCaptures { .. } => event is Captures,
        LoadState::NeedGrammarFile { .. } => event is GrammarFile,
        LoadState::NeedGrammarBytes { .. } => event is GrammarBytes,
        LoadState::NeedGrammar { .. } => event is Grammar,
        LoadState::NeedCompiledQuery { .. } => event is CompiledQuery,
        LoadState::Loaded { .. } => false,
        LoadState::Refused { .. } => false,
    }
}

/// The plugin was refused, with this complaint.
pub open spec fn refused_with<S, T>(state: LoadState<S, T>, error: Seq<char>) -> bool {
    state matches LoadState::Refused { error: e } && e@ == error
}

/// What follows from the manifest, or from why there is none: the plugin has
/// to run with the host version before its query is read.
pub open spec fn follows_manifest<S, T>(
    request: LoadRequest,
    read: Result<PluginManifest<S, T>, String>,
    next: LoadState<S, T>,
) -> bool {
    match read {
        Err(e) => refused_with(next, e@),
        Ok(manifest) => match version_refusal(
            manifest.plugin.name@,
            optional_text(manifest.plugin.min_sentrux_version),
            request.current_version@,
        ) {
            Some(e) => refused_with(next, e),
            None => {
                &&& next matches LoadState::NeedQuery { request: r, manifest: m, path: p }
                &&& r == request
                &&& m == manifest
                &&& paths::path_parts(p) == paths::path_parts(request.plugin_dir) + seq![
                    "queries"@,
                    "tags.scm"@,
                ]
            },
        },
    }
}

/// What follows from the query file, or from why it could not be read.
pub open spec fn follows_query<S, T>(
    request: LoadRequest,
    manifest: PluginManifest<S, T>,
    path: PathBuf,
    read: Result<String, String>,
    next: LoadState<S, T>,
) -> bool {
    match read {
        Err(e) => refused_with(
            next,
            "Failed to read "@ + paths::path_text(path) + ": "@ + e@,
        ),
        Ok(query) => {
            &&& next matches LoadState::NeedCaptures { request: r, manifest: m, query_src: q }
            &&& r == request
            &&& m == manifest
            &&& q == query
        },
    }
}

/// What follows from whether the captures match the capabilities: if they do,
/// and the platform is supported, the grammar binary is looked for.
pub open spec fn follows_captures<S, T>(
    request: LoadRequest,
    manifest: PluginManifest<S, T>,
    query: String,
    checked: Result<(), String>,
    next: LoadState<S, T>,
) -> bool {
    match checked {
        Err(e) => refused_with(next, e@),
        Ok(()) => if request.grammar_file@ == "unsupported"@ {
            refused_with(next, "Unsupported platform for runtime grammar loading"@)
        } else {
            &&& next matches LoadState::NeedGrammarFile {
                request: r,
                manifest: m,
                query_src: q,
                path: p,
            }
            &&& r == request
            &&& m == manifest
            &&& q == query
            &&& paths::lies_at(
                p,
                request.grammar_home,
                seq!["grammars"@, request.grammar_file@],
            )
        },
    }
}

/// What follows from whether the grammar binary exists: if the manifest has a
/// checksum for it, its bytes are asked for, and else the library is loaded.
pub open spec fn follows_grammar_file<S, T>(
    request: LoadRequest,
    manifest: PluginManifest<S, T>,
    query: String,
    path: PathBuf,
    exists: bool,
    next: LoadState<S, T>,
) -> bool {
    if !exists {
        refused_with(
            next,
            "Grammar binary not found: "@ + paths::path_text(path)
                + ". Build it for this platform."@,
        )
    } else if checksum::expected_for(manifest, request.grammar_file@) is Some {
        &&& next matches LoadState::NeedGrammarBytes {
            request: r,
            manifest: m,
            query_src: q,
            path: p,
        }
        &&& r == request
        &&& m == manifest
        &&& q == query
        &&& p == path
    } else {
        &&& next matches LoadState::NeedGrammar { manifest: m, query_src: q, path: p }
        &&& m == manifest
        &&& q == query
        &&& p == path
    }
}

/// What follows from the bytes of the grammar binary: the library is loaded if
/// they have the expected checksum, which is that of 32 bytes.
pub open spec fn follows_grammar_bytes<S, T>(
    request: LoadRequest,
    manifest: PluginManifest<S, T>,
    query: String,
    path: PathBuf,
    read: Result<Vec<u8>, String>,
    next: LoadState<S, T>,
) -> bool {
    match read {
        Err(e) => refused_with(next, "Failed to read grammar for checksum: "@ + e@),
        Ok(bytes) => {
            &&& checksum::expected_for(manifest, request.grammar_file@) is Some
                ==> checksum::sha256_digest(bytes@).len() == 32
            &&& if checksum::checksum_holds(manifest, request.grammar_file@, bytes@) {
                &&& next matches LoadState::NeedGrammar { manifest: m, query_src: q, path: p }
                &&& m == manifest
                &&& q == query
                &&& p == path
            } else {
                refused_with(
                    next,
                    checksum::mismatch_error(
                        path,
                        checksum::expected_for(manifest, request.grammar_file@)->0,
                        checksum::sha256_digest(bytes@),
                    ),
                )
            }
        },
    }
}

/// The colour of a plugin whose manifest gives none.
pub open spec fn default_color() -> Seq<u8> {
    seq![80u8, 85u8, 90u8]
}

/// `plugin` is made of what the manifest says, the query and the grammar.
pub open spec fn is_plugin_of<S, T>(
    plugin: LoadedPlugin<S, T>,
    manifest: PluginManifest<S, T>,
    query: String,
    grammar: Language,
) -> bool {
    &&& plugin.name == manifest.plugin.name
    &&& plugin.display_name == manifest.plugin.display_name
    &&& plugin.version == manifest.plugin.version
    &&& plugin.extensions == manifest.plugin.extensions
    &&& plugin.grammar == grammar
    &&& plugin.query_src == query
    &&& plugin.profile.name@ == manifest.plugin.name@
    &&& plugin.profile.semantics == manifest.semantics
    &&& plugin.profile.thresholds == manifest.thresholds
    &&& plugin.profile.color_rgb@ == (match manifest.plugin.color_rgb {
        Some(c) => c@,
        None => default_color(),
    })
}

/// What follows when everything of a plugin is there: it is loaded, or refused
/// for what is wrong with its grammar or its query.
pub open spec fn follows_verdict<S, T>(
    manifest: PluginManifest<S, T>,
    query: String,
    grammar: Language,
    defect: Option<Seq<char>>,
    next: LoadState<S, T>,
) -> bool {
    match grammar::grammar_error(
        grammar::abi_of(grammar),
        manifest.grammar.abi_version,
        defect,
    ) {
        Some(e) => refused_with(next, e),
        None => next matches LoadState::Loaded { plugin } && is_plugin_of(
            plugin,
            manifest,
            query,
            grammar,
        ),
    }
}

/// What follows from the grammar, or from why it could not be loaded: it has to
/// be new enough, and the query has to compile for it. Whether a query compiles
/// that is not flat is asked.
pub open spec fn follows_grammar<S, T>(
    manifest: PluginManifest<S, T>,
    query: String,
    loaded: Result<Language, String>,
    next: LoadState<S, T>,
) -> bool {
    match loaded {
        Err(e) => refused_with(next, e@),
        Ok(language) => if grammar::abi_of(language) >= manifest.grammar.abi_version
            && !grammar::is_flat_query(query@) {
            &&& next matches LoadState::NeedCompiledQuery { manifest: m, query_src: q, grammar: g }
            &&& m == manifest
            &&& q == query
            &&& g == language
        } else {
            follows_verdict(
                manifest,
                query,
                language,
                grammar::query_defect(language, query@),
                next,
            )
        },
    }
}

/// `next` is the state that follows when `event` answers `state`.
pub open spec fn follows<S, T>(
    state: LoadState<S, T>,
    event: LoadEvent<S, T>,
    next: LoadState<S, T>,
) -> bool {
    match (state, event) {
        (LoadState::NeedManifest { request }, LoadEvent::Manifest(a)) => follows_manifest(
            request,
            a,
            next,
        ),
        (LoadState::NeedQuery { request, manifest, path }, LoadEvent::Query(a)) => follows_query(
            request,
            manifest,
            path,
            a,
            next,
        ),
        (
            LoadState::NeedCaptures { request, manifest, query_src },
            LoadEvent::Captures(a),
        ) => follows_captures(request, manifest, query_src, a, next),
        (
            LoadState::NeedGrammarFile { request, manifest, query_src, path },
            LoadEvent::GrammarFile(a),
        ) => follows_grammar_file(request, manifest, query_src, path, a, next),
        (
            LoadState::NeedGrammarBytes { request, manifest, query_src, path },
            LoadEvent::GrammarBytes(a),
        ) => follows_grammar_bytes(request, manifest, query_src, path, a, next),
        (
            LoadState::NeedGrammar { manifest, query_src, path },
            LoadEvent::Grammar(a),
        ) => follows_grammar(manifest, query_src, a, next),
        (
            LoadState::NeedCompiledQuery { manifest, query_src, grammar },
            LoadEvent::CompiledQuery(a),
        ) => follows_verdict(manifest, query_src, grammar, grammar::defect_of(a), next),
        _ => false,
    }
}

fn refuse<S, T>(error: String) -> (next: LoadState<S, T>)
    ensures
        refused_with(next, error@),
{
    LoadState::Refused { error }
}

fn on_manifest<S, T>(
    request: LoadRequest,
    read: Result<PluginManifest<S, T>, String>,
) -> (next: LoadState<S, T>)
    ensures
        follows_manifest(request, read, next),
{
    match read {
        Err(e) => refuse(e),
        Ok(manifest) => {
            match check_min_version(
                manifest.plugin.name.as_str(),
                &manifest.plugin.min_sentrux_version,
                request.current_version.as_str(),
            ) {
                Err(e) => refuse(e),
                Ok(()) => {
                    let path = query_path(&request.plugin_dir);
                    LoadState::NeedQuery { request, manifest, path }
                },
            }
        },
    }
}

fn on_query<S, T>(
    request: LoadRequest,
    manifest: PluginManifest<S, T>,
    path: PathBuf,
    read: Result<String, String>,
) -> (next: LoadState<S, T>)
    ensures
        follows_query(request, manifest, path, read, next),
{
    match read {
        Err(error) => {
            let mut e: String = String::new();
            e.append("Failed to read ");
            e.append(display_path(&path).as_str());
            e.append(": ");
            e.append(error.as_str());
            assert(e@ =~= "Failed to read "@ + paths::path_text(path) + ": "@ + error@);
            refuse(e)
        },
        Ok(query_src) => LoadState::NeedCaptures { request, manifest, query_src },
    }
}

fn on_captures<S, T>(
    request: LoadRequest,
    manifest: PluginManifest<S, T>,
    query_src: String,
    checked: Result<(), String>,
) -> (next: LoadState<S, T>)
    ensures
        follows_captures(request, manifest, query_src, checked, next),
{
    match checked {
        Err(e) => refuse(e),
        Ok(()) => {
            if same_text(request.grammar_file.as_str(), "unsupported") {
                refuse("Unsupported platform for runtime grammar loading".to_owned())
            } else {
                let path = grammar_path(&request.grammar_home, request.grammar_file.as_str());
                LoadState::NeedGrammarFile { request, manifest, query_src, path }
            }
        },
    }
}

fn on_grammar_file<S, T>(
    request: LoadRequest,
    manifest: PluginManifest<S, T>,
    query_src: String,
    path: PathBuf,
    exists: bool,
) -> (next: LoadState<S, T>)
    ensures
        follows_grammar_file(request, manifest, query_src, path, exists, next),
{
    if !exists {
        let mut e: String = String::new();
        e.append("Grammar binary not found: ");
        e.append(display_path(&path).as_str());
        e.append(". Build it for this platform.");
        assert(e@ =~= "Grammar binary not found: "@ + paths::path_text(path)
            + ". Build it for this platform."@);
        return refuse(e);
    }
    let has_checksum: bool = expected_checksum(
        &manifest,
        request.grammar_file.as_str(),
    ).is_some();
    if has_checksum {
        LoadState::NeedGrammarBytes { request, manifest, query_src, path }
    } else {
        LoadState::NeedGrammar { manifest, query_src, path }
    }
}

fn on_grammar_bytes<S, T>(
    request: LoadRequest,
    manifest: PluginManifest<S, T>,
    query_src: String,
    path: PathBuf,
    read: Result<Vec<u8>, String>,
) -> (next: LoadState<S, T>)
    ensures
        follows_grammar_bytes(request, manifest, query_src, path, read, next),
{
    match read {
        Err(error) => {
            let mut e: String = String::new();
            e.append("Failed to read grammar for checksum: ");
            e.append(error.as_str());
            assert(e@ =~= "Failed to read grammar for checksum: "@ + error@);
            refuse(e)
        },
        Ok(bytes) => {
            match verify_checksum(
                &manifest,
                &path,
                request.grammar_file.as_str(),
                bytes.as_slice(),
            ) {
                Err(e) => refuse(e),
                Ok(()) => LoadState::NeedGrammar { manifest, query_src, path },
            }
        },
    }
}

/// Puts a plugin together out of its manifest, its query and its grammar.
pub fn assemble<S, T>(
    manifest: PluginManifest<S, T>,
    query_src: String,
    grammar: Language,
) -> (plugin: LoadedPlugin<S, T>)
    ensures
        is_plugin_of(plugin, manifest, query_src, grammar),
        plugin.name == manifest.plugin.name,
        plugin.display_name == manifest.plugin.display_name,
        plugin.version == manifest.plugin.version,
        plugin.extensions == manifest.plugin.extensions,
        plugin.grammar == grammar,
        plugin.query_src == query_src,
        plugin.profile.name@ == manifest.plugin.name@,
        plugin.profile.semantics == manifest.semantics,
        plugin.profile.thresholds == manifest.thresholds,
        manifest.plugin.color_rgb matches Some(c) ==> plugin.profile.color_rgb@ == c@,
        manifest.plugin.color_rgb is None ==> plugin.profile.color_rgb@ == seq![80u8, 85u8, 90u8],
{
    let color_rgb: [u8; 3] = match manifest.plugin.color_rgb {
        Some(c) => c,
        None => [80, 85, 90],
    };
    assert(manifest.plugin.color_rgb is None ==> color_rgb@ =~= default_color());
    let profile = LanguageProfile {
        name: manifest.plugin.name.clone(),
        semantics: manifest.semantics,
        thresholds: manifest.thresholds,
        color_rgb,
    };
    LoadedPlugin {
        name: manifest.plugin.name,
        display_name: manifest.plugin.display_name,
        version: manifest.plugin.version,
        extensions: manifest.plugin.extensions,
        grammar,
        query_src,
        profile,
    }
}

fn on_grammar<S, T>(
    manifest: PluginManifest<S, T>,
    query_src: String,
    loaded: Result<Language, String>,
) -> (next: LoadState<S, T>)
    ensures
        follows_grammar(manifest, query_src, loaded, next),
{
    match loaded {
        Err(e) => refuse(e),
        Ok(language) => {
            match check_grammar(&language, query_src.as_str(), manifest.grammar.abi_version) {
                None => LoadState::NeedCompiledQuery { manifest, query_src, grammar: language },
                Some(Err(e)) => refuse(e),
                Some(Ok(())) => LoadState::Loaded {
                    plugin: assemble(manifest, query_src, language),
                },
            }
        },
    }
}

fn on_compiled_query<S, T>(
    manifest: PluginManifest<S, T>,
    query_src: String,
    grammar: Language,
    compiled: Result<(), String>,
) -> (next: LoadState<S, T>)
    ensures
        follows_verdict(manifest, query_src, grammar, grammar::defect_of(compiled), next),
{
    match check_compiled_for(&grammar, manifest.grammar.abi_version, compiled) {
        Err(e) => refuse(e),
        Ok(()) => LoadState::Loaded { plugin: assemble(manifest, query_src, grammar) },
    }
}

/// Starts loading a plugin.
pub fn start<S, T>(request: LoadRequest) -> (state: LoadState<S, T>)
    ensures
        state == (LoadState::<S, T>::NeedManifest { request }),
{
    LoadState::NeedManifest { request }
}

/// Goes on with the answer to what `state` waits for.
pub fn step<S, T>(state: LoadState<S, T>, event: LoadEvent<S, T>) -> (next: LoadState<S, T>)
    requires
        answers(state, event),
    ensures
        follows(state, event, next),
{
    match (state, event) {
        (LoadState::NeedManifest { request }, LoadEvent::Manifest(a)) => on_manifest(request, a),
        (LoadState::NeedQuery { request, manifest, path }, LoadEvent::Query(a)) => on_query(
            request,
            manifest,
            path,
            a,
        ),
        (
            LoadState::NeedCaptures { request, manifest, query_src },
            LoadEvent::Captures(a),
        ) => on_captures(request, manifest, query_src, a),
        (
            LoadState::NeedGrammarFile { request, manifest, query_src, path },
            LoadEvent::GrammarFile(a),
        ) => on_grammar_file(request, manifest, query_src, path, a),
        (
            LoadState::NeedGrammarBytes { request, manifest, query_src, path },
            LoadEvent::GrammarBytes(a),
        ) => on_grammar_bytes(request, manifest, query_src, path, a),
        (
            LoadState::NeedGrammar { manifest, query_src, path: _ },
            LoadEvent::Grammar(a),
        ) => on_grammar(manifest, query_src, a),
        (
            LoadState::NeedCompiledQuery { manifest, query_src, grammar },
            LoadEvent::CompiledQuery(a),
        ) => on_compiled_query(manifest, query_src, grammar, a),
        (state, _) => state,
    }
}

// ---------------------------------------------------------------------------
// Loading all plugins
// ---------------------------------------------------------------------------
/// What an entry of the plugins directory came to.
pub enum EntryOutcome<S, T> {
    /// It is no directory, and so no plugin.
    NotADirectory,
    /// It is the directory of a plugin that was loaded.
    Loaded(LoadedPlugin<S, T>),
    /// It is the directory of a plugin that was refused.
    Refused(String),
}

/// The plugins that were loaded, in the order of the entries.
pub open spec fn plugins_of<S, T>(entries: Seq<(PathBuf, EntryOutcome<S, T>)>) -> Seq<
    LoadedPlugin<S, T>,
>
    decreases entries.len(),
{
    if entries.len() == 0 {
        seq![]
    } else {
        match entries.last().1 {
            EntryOutcome::Loaded(plugin) => plugins_of(entries.drop_last()).push(plugin),
            _ => plugins_of(entries.drop_last()),
        }
    }
}

/// The directories of the plugins that were refused, each with the complaint,
/// in the order of the entries.
pub open spec fn errors_of<S, T>(entries: Seq<(PathBuf, EntryOutcome<S, T>)>) -> Seq<
    PluginLoadError,
>
    decreases entries.len(),
{
    if entries.len() == 0 {
        seq![]
    } else {
        match entries.last().1 {
            EntryOutcome::Refused(error) => errors_of(entries.drop_last()).push(
                PluginLoadError { plugin_dir: entries.last().0, error },
            ),
            _ => errors_of(entries.drop_last()),
        }
    }
}

/// Sorts what the entries of the plugins directory came to into the plugins
/// that were loaded and the errors. An error does not stop the others.
pub fn load_all_plugins<S, T>(entries: Vec<(PathBuf, EntryOutcome<S, T>)>) -> (r: (
    Vec<LoadedPlugin<S, T>>,
    Vec<PluginLoadError>,
))
    ensures
        r.0@ == plugins_of(entries@),
        r.1@ == errors_of(entries@),
{
    let mut loaded: Vec<LoadedPlugin<S, T>> = Vec::new();
    let mut errors: Vec<PluginLoadError> = Vec::new();
    for entry in it: entries
        invariant
            it.seq() == entries@,
            loaded@ == plugins_of(entries@.take(it.index())),
            errors@ == errors_of(entries@.take(it.index())),
    {
        assert(entries@.take(it.index() + 1).drop_last() =~= entries@.take(it.index()));
        let (plugin_dir, outcome) = entry;
        match outcome {
            EntryOutcome::NotADirectory => {},
            EntryOutcome::Loaded(plugin) => {
                loaded.push(plugin);
            },
            EntryOutcome::Refused(error) => {
                errors.push(PluginLoadError { plugin_dir, error });
            },
        }
    }
    assert(entries@.take(entries@.len() as int) =~= entries@);
    (loaded, errors)
}

// ---------------------------------------------------------------------------
// Bundled grammars
// ---------------------------------------------------------------------------
/// A grammar binary to be copied from the distribution to the user's plugins.
pub struct GrammarCopy {
    /// The bundled grammar binary.
    pub from: PathBuf,
    /// The directory that has to be there for the copy.
    pub dir: PathBuf,
    /// Where the copy goes.
    pub to: PathBuf,
}

/// From where to where the grammar of the bundled plugin called `name`, in the
/// directory `bundled_plugin`, would be copied.
pub fn grammar_copy(
    bundled_plugin: &PathBuf,
    user_dir: &PathBuf,
    name: &str,
    grammar_file: &str,
) -> (copy: GrammarCopy)
    ensures
        paths::lies_at(copy.from, *bundled_plugin, seq!["grammars"@, grammar_file@]),
        paths::lies_at(copy.dir, *user_dir, seq![name@, "grammars"@]),
        paths::lies_at(copy.to, *user_dir, seq![name@, "grammars"@, grammar_file@]),
        paths::is_plain_name(grammar_file@) ==> paths::path_parts(copy.to) == paths::path_parts(
            copy.dir,
        ).push(grammar_file@),
        paths::is_plain_name(grammar_file@) ==> paths::path_parts(copy.from) == paths::path_parts(
            *bundled_plugin,
        ).push("grammars"@).push(grammar_file@),
        paths::is_plain_name(name@) ==> paths::path_parts(copy.dir) == paths::path_parts(
            *user_dir,
        ).push(name@).push("grammars"@),
{
    let user_plugin = plugin_dir_named(user_dir, name);
    let copy = GrammarCopy {
        from: grammar_path(bundled_plugin, grammar_file),
        dir: grammar_dir(&user_plugin),
        to: grammar_path(&user_plugin, grammar_file),
    };
    proof {
        paths::lemma_grammars_is_plain();
        let two = seq![name@, "grammars"@];
        let three = seq![name@, "grammars"@, grammar_file@];
        let file = seq!["grammars"@, grammar_file@];
        if paths::is_plain_name(grammar_file@) {
            assert forall|i: int| 0 <= i < file.len() implies paths::is_plain_name(
                #[trigger] file[i],
            ) by {
                assert(file[i] == "grammars"@ || file[i] == grammar_file@);
            }
            assert(paths::path_parts(copy.to) =~= paths::path_parts(copy.dir).push(
                grammar_file@,
            ));
        }
        if forall|i: int| 0 <= i < two.len() ==> paths::is_plain_name(#[trigger] two[i]) {
            assert(paths::is_plain_name(two[0]));
            assert(paths::path_parts(copy.dir) =~= paths::path_parts(*user_dir) + two);
        }
        if forall|i: int| 0 <= i < three.len() ==> paths::is_plain_name(#[trigger] three[i]) {
            assert(paths::is_plain_name(three[0]));
            assert(paths::is_plain_name(three[2]));
            assert(paths::path_parts(copy.to) =~= paths::path_parts(*user_dir) + three);
        }
    }
    copy
}

/// A bundled grammar is copied only if it is there, and only if the user does not
/// already have it.
pub open spec fn is_copied(bundled_exists: bool, user_exists: bool) -> bool {
    bundled_exists && !user_exists
}

/// Whether a bundled grammar is copied.
pub fn should_copy(bundled_exists: bool, user_exists: bool) -> (b: bool)
    ensures
        b == is_copied(bundled_exists, user_exists),
        b <==> bundled_exists && !user_exists,
{
    bundled_exists && !user_exists
}

} // verus!
