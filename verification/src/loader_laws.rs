//! What holds of the loading of plugins as a whole.

use vstd::prelude::*;

use crate::checksum;
use crate::grammar;
use crate::loader;
use crate::loader::{
    EntryOutcome, LoadEvent, LoadRequest, LoadState, LoadedPlugin, PluginLoadError,
};
use crate::manifest::PluginManifest;
use crate::paths;
use crate::text;
use crate::version;
use std::path::PathBuf;
use tree_sitter::Language;

verus! {

/// The states that the loading of a plugin goes through, and the answers that
/// take it from each to the next.
pub open spec fn is_run<S, T>(
    request: LoadRequest,
    states: Seq<LoadState<S, T>>,
    events: Seq<LoadEvent<S, T>>,
) -> bool {
    &&& states.len() == events.len() + 1
    &&& states[0] == (LoadState::<S, T>::NeedManifest { request })
    &&& forall|i: int|
        0 <= i < events.len() ==> loader::follows(
            #[trigger] states[i],
            #[trigger] events[i],
            states[i + 1],
        )
}

/// Nothing more is asked.
pub open spec fn is_final<S, T>(state: LoadState<S, T>) -> bool {
    state is Loaded || state is Refused
}

/// What outside would answer, if it were asked.
pub struct Answers<S, T> {
    pub manifest: Result<PluginManifest<S, T>, String>,
    pub query: Result<String, String>,
    pub captures: Result<(), String>,
    pub grammar_exists: bool,
    pub grammar_bytes: Result<Vec<u8>, String>,
    pub grammar: Result<Language, String>,
    pub compiled: Result<(), String>,
}

/// The event is what outside answers.
pub open spec fn is_answer<S, T>(event: LoadEvent<S, T>, answers: Answers<S, T>) -> bool {
    match event {
        LoadEvent::Manifest(a) => a == answers.manifest,
        LoadEvent::Query(a) => a == answers.query,
        LoadEvent::Captures(a) => a == answers.captures,
        LoadEvent::GrammarFile(a) => a == answers.grammar_exists,
        LoadEvent::GrammarBytes(a) => a == answers.grammar_bytes,
        LoadEvent::Grammar(a) => a == answers.grammar,
        LoadEvent::CompiledQuery(a) => a == answers.compiled,
    }
}

/// The checks that come before the grammar library is opened: the manifest can
/// be read, the plugin runs with the host version, the query can be read, its
/// captures are right, the platform is supported, the grammar binary exists,
/// and it has the checksum that the manifest expects, if it expects one.
pub open spec fn may_open_library<S, T>(request: LoadRequest, answers: Answers<S, T>) -> bool {
    &&& answers.manifest matches Ok(manifest)
    &&& loader::version_refusal(
        manifest.plugin.name@,
        loader::optional_text(manifest.plugin.min_sentrux_version),
        request.current_version@,
    ) is None
    &&& answers.query is Ok
    &&& answers.captures is Ok
    &&& request.grammar_file@ != "unsupported"@
    &&& answers.grammar_exists
    &&& checksum::expected_for(manifest, request.grammar_file@) is Some ==> {
        &&& answers.grammar_bytes matches Ok(bytes)
        &&& checksum::checksum_holds(manifest, request.grammar_file@, bytes@)
    }
}

/// What is wrong with the query for the grammar: for a flat query what compiling
/// it finds, for any other what is answered.
pub open spec fn defect<S, T>(
    language: Language,
    query: Seq<char>,
    answers: Answers<S, T>,
) -> Option<Seq<char>> {
    if grammar::is_flat_query(query) {
        grammar::query_defect(language, query)
    } else {
        grammar::defect_of(answers.compiled)
    }
}

/// All that a plugin needs to be loaded.
pub open spec fn is_loadable<S, T>(request: LoadRequest, answers: Answers<S, T>) -> bool {
    &&& may_open_library(request, answers)
    &&& answers.grammar matches Ok(language)
    &&& grammar::grammar_error(
        grammar::abi_of(language),
        answers.manifest->Ok_0.grammar.abi_version,
        defect(language, answers.query->Ok_0@, answers),
    ) is None
}

/// The steps of a run, one by one.
proof fn lemma_steps<S, T>(
    request: LoadRequest,
    states: Seq<LoadState<S, T>>,
    events: Seq<LoadEvent<S, T>>,
)
    requires
        is_run(request, states, events),
    ensures
        events.len() > 0 ==> loader::follows(states[0], events[0], states[1]),
        events.len() > 1 ==> loader::follows(states[1], events[1], states[2]),
        events.len() > 2 ==> loader::follows(states[2], events[2], states[3]),
        events.len() > 3 ==> loader::follows(states[3], events[3], states[4]),
        events.len() > 4 ==> loader::follows(states[4], events[4], states[5]),
        events.len() > 5 ==> loader::follows(states[5], events[5], states[6]),
        events.len() > 6 ==> loader::follows(states[6], events[6], states[7]),
        events.len() > 7 ==> loader::follows(states[7], events[7], states[8]),
{
}

/// Loading ends: no more than seven answers are asked for, and a state that is
/// not final has an answer that takes it further.
pub proof fn loading_ends<S, T>(
    request: LoadRequest,
    states: Seq<LoadState<S, T>>,
    events: Seq<LoadEvent<S, T>>,
)
    requires
        is_run(request, states, events),
    ensures
        events.len() <= 7,
        is_final(states.last()) <==> forall|e: LoadEvent<S, T>|
            !#[trigger] loader::answers(states.last(), e),
{
    lemma_steps(request, states, events);
    let s = states.last();
    if !is_final(s) {
        assert(loader::answers(s, LoadEvent::<S, T>::GrammarFile(true)) || loader::answers(
            s,
            LoadEvent::<S, T>::Captures(Ok(())),
        ) || loader::answers(s, LoadEvent::<S, T>::Manifest(arbitrary())) || loader::answers(
            s,
            LoadEvent::<S, T>::Query(arbitrary()),
        ) || loader::answers(s, LoadEvent::<S, T>::GrammarBytes(arbitrary()))
            || loader::answers(s, LoadEvent::<S, T>::Grammar(arbitrary())) || loader::answers(
            s,
            LoadEvent::<S, T>::CompiledQuery(Ok(())),
        ));
    }
}

/// A grammar library is opened only after everything that can be checked
/// before has been: in particular no library is opened whose bytes do not have
/// the checksum that the manifest gives, which has to be of the right length. The
/// library is the grammar binary of this platform under the directory that was
/// asked for.
pub proof fn library_is_opened_only_after_all_checks<S, T>(
    request: LoadRequest,
    states: Seq<LoadState<S, T>>,
    events: Seq<LoadEvent<S, T>>,
    answers: Answers<S, T>,
)
    requires
        is_run(request, states, events),
        forall|i: int| 0 <= i < events.len() ==> is_answer(#[trigger] events[i], answers),
        states.last() is NeedGrammar,
    ensures
        may_open_library(request, answers),
        states.last()->NeedGrammar_manifest == answers.manifest->Ok_0,
        states.last()->NeedGrammar_query_src == answers.query->Ok_0,
        paths::lies_at(
            states.last()->NeedGrammar_path,
            request.grammar_home,
            seq!["grammars"@, request.grammar_file@],
        ),
        checksum::expected_for(answers.manifest->Ok_0, request.grammar_file@) is Some
            ==> events.last() == LoadEvent::<S, T>::GrammarBytes(answers.grammar_bytes),
        checksum::expected_for(answers.manifest->Ok_0, request.grammar_file@) matches Some(e)
            ==> e.len() == 64,
{
    lemma_steps(request, states, events);
    lemma_answered(events, answers);
}

proof fn lemma_answered<S, T>(events: Seq<LoadEvent<S, T>>, answers: Answers<S, T>)
    requires
        forall|i: int| 0 <= i < events.len() ==> is_answer(#[trigger] events[i], answers),
    ensures
        events.len() > 0 ==> is_answer(events[0], answers),
        events.len() > 1 ==> is_answer(events[1], answers),
        events.len() > 2 ==> is_answer(events[2], answers),
        events.len() > 3 ==> is_answer(events[3], answers),
        events.len() > 4 ==> is_answer(events[4], answers),
        events.len() > 5 ==> is_answer(events[5], answers),
        events.len() > 6 ==> is_answer(events[6], answers),
{
}

/// A plugin is loaded exactly when everything that it needs is as it should be,
/// and then it is made of its manifest, its query and its grammar.
pub proof fn plugin_is_loaded_iff_loadable<S, T>(
    request: LoadRequest,
    states: Seq<LoadState<S, T>>,
    events: Seq<LoadEvent<S, T>>,
    answers: Answers<S, T>,
)
    requires
        is_run(request, states, events),
        forall|i: int| 0 <= i < events.len() ==> is_answer(#[trigger] events[i], answers),
        is_final(states.last()),
    ensures
        states.last() is Loaded <==> is_loadable(request, answers),
        states.last() matches LoadState::Loaded { plugin } ==> loader::is_plugin_of(
            plugin,
            answers.manifest->Ok_0,
            answers.query->Ok_0,
            answers.grammar->Ok_0,
        ),
        states.last() matches LoadState::Loaded { plugin } ==> {
            let manifest = answers.manifest->Ok_0;
            &&& plugin.name == manifest.plugin.name
            &&& plugin.display_name == manifest.plugin.display_name
            &&& plugin.version == manifest.plugin.version
            &&& plugin.extensions == manifest.plugin.extensions
            &&& plugin.grammar == answers.grammar->Ok_0
            &&& plugin.query_src == answers.query->Ok_0
            &&& plugin.profile.name@ == manifest.plugin.name@
            &&& plugin.profile.semantics == manifest.semantics
            &&& plugin.profile.thresholds == manifest.thresholds
            &&& manifest.plugin.color_rgb matches Some(c) ==> plugin.profile.color_rgb@ == c@
            &&& manifest.plugin.color_rgb is None ==> plugin.profile.color_rgb@ == seq![
                80u8,
                85u8,
                90u8,
            ]
        },
{
    lemma_steps(request, states, events);
    lemma_answered(events, answers);
}

/// How loading ends, by what was answered: with the complaint about the first
/// thing that is wrong, or with the plugin if nothing is.
pub proof fn first_thing_wrong_is_complained_about<S, T>(
    request: LoadRequest,
    states: Seq<LoadState<S, T>>,
    events: Seq<LoadEvent<S, T>>,
    answers: Answers<S, T>,
)
    requires
        is_run(request, states, events),
        forall|i: int| 0 <= i < events.len() ==> is_answer(#[trigger] events[i], answers),
        states.last() is Loaded || states.last() is Refused,
    ensures
        match answers.manifest {
            Err(e) => states.last() matches LoadState::Refused { error } && error@ == e@,
            Ok(manifest) => if let Some(e) = loader::version_refusal(
                manifest.plugin.name@,
                loader::optional_text(manifest.plugin.min_sentrux_version),
                request.current_version@,
            ) {
                states.last() matches LoadState::Refused { error } && error@ == e
            } else if let Err(e) = answers.query {
                states.last() matches LoadState::Refused { error } && error@ == "Failed to read "@
                    + paths::path_text(states[1]->NeedQuery_path) + ": "@ + e@
            } else if let Err(e) = answers.captures {
                states.last() matches LoadState::Refused { error } && error@ == e@
            } else if request.grammar_file@ == "unsupported"@ {
                states.last() matches LoadState::Refused { error } && error@
                    == "Unsupported platform for runtime grammar loading"@
            } else if !answers.grammar_exists {
                states.last() matches LoadState::Refused { error } && error@
                    == "Grammar binary not found: "@ + paths::path_text(
                    states[3]->NeedGrammarFile_path,
                ) + ". Build it for this platform."@
            } else {
                let expected = checksum::expected_for(manifest, request.grammar_file@);
                match (expected, answers.grammar_bytes) {
                    (Some(_), Err(e)) => states.last() matches LoadState::Refused { error }
                        && error@ == "Failed to read grammar for checksum: "@ + e@,
                    (Some(digits), Ok(bytes)) if !checksum::digest_matches(
                        checksum::sha256_digest(bytes@),
                        digits,
                    ) => states.last() matches LoadState::Refused { error } && error@
                        == checksum::mismatch_error(
                        states[3]->NeedGrammarFile_path,
                        digits,
                        checksum::sha256_digest(bytes@),
                    ),
                    _ => match answers.grammar {
                        Err(e) => states.last() matches LoadState::Refused { error } && error@
                            == e@,
                        Ok(language) => {
                            let abi = grammar::abi_of(language);
                            let query = answers.query->Ok_0@;
                            if abi < manifest.grammar.abi_version {
                                states.last() matches LoadState::Refused { error } && error@
                                    == "Grammar ABI version "@ + text::decimal(abi as nat)
                                    + " < required "@ + text::decimal(
                                    manifest.grammar.abi_version as nat,
                                )
                            } else if grammar::is_flat_query(query) {
                                match grammar::query_defect(language, query) {
                                    Some(d) => states.last() matches LoadState::Refused { error }
                                        && error@ == "Query compilation failed: "@ + d,
                                    None => states.last() is Loaded,
                                }
                            } else {
                                match answers.compiled {
                                    Err(d) => states.last() matches LoadState::Refused { error }
                                        && error@ == "Query compilation failed: "@ + d@,
                                    Ok(()) => states.last() is Loaded,
                                }
                            }
                        },
                    },
                }
            },
        },
{
    lemma_steps(request, states, events);
    lemma_answered(events, answers);
}

/// Everything that is asked is about the plugin that was asked for: its query
/// file and its grammar binary, and what was answered so far is kept as it is.
pub proof fn questions_are_about_the_plugin<S, T>(
    request: LoadRequest,
    states: Seq<LoadState<S, T>>,
    events: Seq<LoadEvent<S, T>>,
    answers: Answers<S, T>,
    i: int,
)
    requires
        is_run(request, states, events),
        forall|i: int| 0 <= i < events.len() ==> is_answer(#[trigger] events[i], answers),
        0 <= i < states.len(),
    ensures
        match states[i] {
            LoadState::NeedManifest { request: r } => r == request,
            LoadState::NeedQuery { request: r, manifest, path } => {
                &&& i == 1
                &&& r == request
                &&& answers.manifest == Ok::<_, String>(manifest)
                &&& paths::path_parts(path) == paths::path_parts(request.plugin_dir).push(
                    "queries"@,
                ).push("tags.scm"@)
            },
            LoadState::NeedCaptures { request: r, manifest, query_src } => {
                &&& i == 2
                &&& r == request
                &&& answers.manifest == Ok::<_, String>(manifest)
                &&& answers.query == Ok::<_, String>(query_src)
            },
            LoadState::NeedGrammarFile { request: r, manifest, query_src, path } => {
                &&& i == 3
                &&& r == request
                &&& answers.manifest == Ok::<_, String>(manifest)
                &&& answers.query == Ok::<_, String>(query_src)
                &&& paths::is_plain_name(request.grammar_file@) ==> paths::path_parts(path)
                    == paths::path_parts(request.grammar_home).push("grammars"@).push(
                    request.grammar_file@,
                )
            },
            LoadState::NeedGrammarBytes { request: r, manifest, query_src, path } => {
                &&& i == 4
                &&& r == request
                &&& answers.manifest == Ok::<_, String>(manifest)
                &&& answers.query == Ok::<_, String>(query_src)
                &&& path == states[3]->NeedGrammarFile_path
            },
            LoadState::NeedGrammar { manifest, query_src, path } => {
                &&& answers.manifest == Ok::<_, String>(manifest)
                &&& answers.query == Ok::<_, String>(query_src)
                &&& path == states[3]->NeedGrammarFile_path
            },
            LoadState::NeedCompiledQuery { manifest, query_src, grammar } => {
                &&& answers.manifest == Ok::<_, String>(manifest)
                &&& answers.query == Ok::<_, String>(query_src)
                &&& answers.grammar == Ok::<_, String>(grammar)
            },
            _ => i == states.len() - 1,
        },
{
    lemma_steps(request, states, events);
    lemma_answered(events, answers);
    loading_ends(request, states, events);
    let base = paths::path_parts(request.plugin_dir);
    let home = paths::path_parts(request.grammar_home);
    let file = seq!["grammars"@, request.grammar_file@];
    assert(base + seq!["queries"@, "tags.scm"@] =~= base.push("queries"@).push("tags.scm"@));
    assert(home + file =~= home.push("grammars"@).push(request.grammar_file@));
    if paths::is_plain_name(request.grammar_file@) {
        paths::lemma_grammars_is_plain();
        assert forall|k: int| 0 <= k < file.len() implies paths::is_plain_name(
            #[trigger] file[k],
        ) by {
            assert(file[k] == "grammars"@ || file[k] == request.grammar_file@);
        }
    }
    assert(i == 0 || i == 1 || i == 2 || i == 3 || i == 4 || i == 5 || i == 6 || i == 7);
}

/// Every answer of the kind that a state waits for is taken, and no other is.
pub proof fn every_fitting_answer_is_taken<S, T>(state: LoadState<S, T>, event: LoadEvent<S, T>)
    ensures
        loader::answers(state, event) <==> {
            ||| state is NeedManifest && event is Manifest
            ||| state is NeedQuery && event is Query
            ||| state is NeedCaptures && event is Captures
            ||| state is NeedGrammarFile && event is GrammarFile
            ||| state is NeedGrammarBytes && event is GrammarBytes
            ||| state is NeedGrammar && event is Grammar
            ||| state is NeedCompiledQuery && event is CompiledQuery
        },
{
}

/// A plugin that asks for no host version always runs; one that does runs
/// exactly if both versions are valid and the host has reached the one that it
/// asks for. The complaint quotes what it asked for.
pub proof fn host_version_decides(name: Seq<char>, min: Option<String>, current: Seq<char>)
    ensures
        min is None ==> loader::version_refusal(name, loader::optional_text(min), current) is None,
        min matches Some(m) ==> loader::version_refusal(name, loader::optional_text(min), current)
            == (if !version::valid_version(current) {
            Some(
                "Plugin '"@ + name + "' has invalid min_sentrux_version '"@ + m@ + "': "@
                    + version::version_error(current),
            )
        } else if !version::valid_version(m@) {
            Some(
                "Plugin '"@ + name + "' has invalid min_sentrux_version '"@ + m@ + "': "@
                    + version::version_error(m@),
            )
        } else if !version::at_least(current, m@) {
            Some(
                "Plugin '"@ + name + "' requires sentrux >= "@ + m@ + ", but this build is "@
                    + current,
            )
        } else {
            None
        }),
{
}

/// A plugin that cannot run with the host version is refused before anything
/// else of it is looked at.
pub proof fn unsuitable_plugin_is_refused_at_once<S, T>(
    request: LoadRequest,
    states: Seq<LoadState<S, T>>,
    events: Seq<LoadEvent<S, T>>,
    manifest: PluginManifest<S, T>,
)
    requires
        is_run(request, states, events),
        events.len() > 0,
        events[0] == LoadEvent::<S, T>::Manifest(Ok(manifest)),
        loader::version_refusal(
            manifest.plugin.name@,
            loader::optional_text(manifest.plugin.min_sentrux_version),
            request.current_version@,
        ) is Some,
    ensures
        events.len() == 1,
        loader::refused_with(
            states.last(),
            loader::version_refusal(
                manifest.plugin.name@,
                loader::optional_text(manifest.plugin.min_sentrux_version),
                request.current_version@,
            )->0,
        ),
{
    lemma_steps(request, states, events);
}

// ---------------------------------------------------------------------------
// All plugins
// ---------------------------------------------------------------------------
/// How many entries are directories.
pub open spec fn directory_count<S, T>(entries: Seq<(PathBuf, EntryOutcome<S, T>)>) -> nat
    decreases entries.len(),
{
    if entries.len() == 0 {
        0
    } else if entries.last().1 is NotADirectory {
        directory_count(entries.drop_last())
    } else {
        directory_count(entries.drop_last()) + 1
    }
}

/// Every directory ends up either among the plugins or among the errors.
pub proof fn every_directory_is_accounted_for<S, T>(
    entries: Seq<(PathBuf, EntryOutcome<S, T>)>,
)
    ensures
        loader::plugins_of(entries).len() + loader::errors_of(entries).len() == directory_count(
            entries,
        ),
    decreases entries.len(),
{
    if entries.len() > 0 {
        every_directory_is_accounted_for(entries.drop_last());
    }
}

proof fn lemma_entries_concat<S, T>(
    a: Seq<(PathBuf, EntryOutcome<S, T>)>,
    b: Seq<(PathBuf, EntryOutcome<S, T>)>,
)
    ensures
        loader::plugins_of(a + b) == loader::plugins_of(a) + loader::plugins_of(b),
        loader::errors_of(a + b) == loader::errors_of(a) + loader::errors_of(b),
    decreases b.len(),
{
    if b.len() == 0 {
        assert(a + b =~= a);
    } else {
        assert((a + b).drop_last() =~= a + b.drop_last());
        lemma_entries_concat(a, b.drop_last());
    }
    assert(loader::plugins_of(a + b) =~= loader::plugins_of(a) + loader::plugins_of(b));
    assert(loader::errors_of(a + b) =~= loader::errors_of(a) + loader::errors_of(b));
}

/// `at` are the places of the entries that were loaded, in order, and `plugins`
/// are the plugins there.
pub open spec fn are_the_loaded<S, T>(
    at: Seq<int>,
    entries: Seq<(PathBuf, EntryOutcome<S, T>)>,
    plugins: Seq<LoadedPlugin<S, T>>,
) -> bool {
    &&& at.len() == plugins.len()
    &&& forall|k: int|
        0 <= k < at.len() ==> 0 <= #[trigger] at[k] < entries.len() && entries[at[k]].1
            == EntryOutcome::<S, T>::Loaded(plugins[k])
    &&& forall|j: int, k: int| 0 <= j < k < at.len() ==> at[j] < at[k]
    &&& forall|i: int|
        0 <= i < entries.len() && (#[trigger] entries[i]).1 is Loaded ==> at.contains(i)
}

/// `at` are the places of the entries that were refused, in order, and `errors`
/// are their directories and complaints.
pub open spec fn are_the_refused<S, T>(
    at: Seq<int>,
    entries: Seq<(PathBuf, EntryOutcome<S, T>)>,
    errors: Seq<PluginLoadError>,
) -> bool {
    &&& at.len() == errors.len()
    &&& forall|k: int|
        0 <= k < at.len() ==> 0 <= #[trigger] at[k] < entries.len() && entries[at[k]].1
            == EntryOutcome::<S, T>::Refused(errors[k].error) && entries[at[k]].0
            == errors[k].plugin_dir
    &&& forall|j: int, k: int| 0 <= j < k < at.len() ==> at[j] < at[k]
    &&& forall|i: int|
        0 <= i < entries.len() && (#[trigger] entries[i]).1 is Refused ==> at.contains(i)
}

/// Every plugin that was loaded is handed over, as it is and in the order of the
/// entries, and nothing else is.
pub proof fn loaded_plugins_are_handed_over<S, T>(entries: Seq<(PathBuf, EntryOutcome<S, T>)>)
    ensures
        exists|at: Seq<int>| are_the_loaded(at, entries, loader::plugins_of(entries)),
    decreases entries.len(),
{
    let plugins = loader::plugins_of(entries);
    if entries.len() == 0 {
        assert(are_the_loaded(Seq::<int>::empty(), entries, plugins));
    } else {
        let init = entries.drop_last();
        let last = entries.len() - 1;
        loaded_plugins_are_handed_over(init);
        let part = loader::plugins_of(init);
        let before = choose|at: Seq<int>| are_the_loaded(at, init, part);
        let at = if entries[last].1 is Loaded {
            before.push(last)
        } else {
            before
        };
        assert forall|k: int| 0 <= k < at.len() implies 0 <= #[trigger] at[k] < entries.len()
            && entries[at[k]].1 == EntryOutcome::<S, T>::Loaded(plugins[k]) by {
            if k < before.len() {
                assert(at[k] == before[k]);
                assert(init[before[k]] == entries[at[k]]);
            }
        }
        assert forall|i: int|
            0 <= i < entries.len() && (#[trigger] entries[i]).1 is Loaded implies at.contains(i) by {
            if i < last {
                assert(init[i] == entries[i]);
                let k = choose|k: int| 0 <= k < before.len() && before[k] == i;
                assert(at[k] == i);
            } else {
                assert(at[before.len() as int] == i);
            }
        }
        assert(are_the_loaded(at, entries, plugins));
    }
}

/// Every plugin that was refused is reported with its directory and its
/// complaint, in the order of the entries, and nothing else is.
pub proof fn refused_plugins_are_reported<S, T>(entries: Seq<(PathBuf, EntryOutcome<S, T>)>)
    ensures
        exists|at: Seq<int>| are_the_refused(at, entries, loader::errors_of(entries)),
    decreases entries.len(),
{
    let errors = loader::errors_of(entries);
    if entries.len() == 0 {
        assert(are_the_refused(Seq::<int>::empty(), entries, errors));
    } else {
        let init = entries.drop_last();
        let last = entries.len() - 1;
        refused_plugins_are_reported(init);
        let part = loader::errors_of(init);
        let before = choose|at: Seq<int>| are_the_refused(at, init, part);
        let at = if entries[last].1 is Refused {
            before.push(last)
        } else {
            before
        };
        assert forall|k: int| 0 <= k < at.len() implies 0 <= #[trigger] at[k] < entries.len()
            && entries[at[k]].1 == EntryOutcome::<S, T>::Refused(errors[k].error)
            && entries[at[k]].0 == errors[k].plugin_dir by {
            if k < before.len() {
                assert(at[k] == before[k]);
                assert(init[before[k]] == entries[at[k]]);
            }
        }
        assert forall|i: int|
            0 <= i < entries.len() && (#[trigger] entries[i]).1 is Refused implies at.contains(
            i,
        ) by {
            if i < last {
                assert(init[i] == entries[i]);
                let k = choose|k: int| 0 <= k < before.len() && before[k] == i;
                assert(at[k] == i);
            } else {
                assert(at[before.len() as int] == i);
            }
        }
        assert(are_the_refused(at, entries, errors));
    }
}

/// A plugin is among those handed over exactly if an entry was loaded as it.
pub proof fn plugin_is_handed_over_unchanged<S, T>(
    entries: Seq<(PathBuf, EntryOutcome<S, T>)>,
    plugin: LoadedPlugin<S, T>,
)
    ensures
        loader::plugins_of(entries).contains(plugin) <==> exists|i: int|
            0 <= i < entries.len() && (#[trigger] entries[i]).1
                == EntryOutcome::<S, T>::Loaded(plugin),
{
    loaded_plugins_are_handed_over(entries);
    let plugins = loader::plugins_of(entries);
    let at = choose|at: Seq<int>| are_the_loaded(at, entries, plugins);
    if plugins.contains(plugin) {
        let k = choose|k: int| 0 <= k < plugins.len() && plugins[k] == plugin;
        assert(entries[at[k]].1 == EntryOutcome::<S, T>::Loaded(plugin));
    }
    if exists|i: int|
        0 <= i < entries.len() && (#[trigger] entries[i]).1 == EntryOutcome::<S, T>::Loaded(
            plugin,
        ) {
        let i = choose|i: int|
            0 <= i < entries.len() && (#[trigger] entries[i]).1 == EntryOutcome::<S, T>::Loaded(
                plugin,
            );
        assert(at.contains(i));
        let k = choose|k: int| 0 <= k < at.len() && at[k] == i;
        assert(plugins[k] == plugin);
    }
}

/// An error is not fatal: a plugin that is refused changes nothing for the
/// others, wherever it stands, and is reported with its directory.
pub proof fn refused_plugin_does_not_affect_others<S, T>(
    before: Seq<(PathBuf, EntryOutcome<S, T>)>,
    dir: PathBuf,
    error: String,
    after: Seq<(PathBuf, EntryOutcome<S, T>)>,
)
    ensures
        ({
            let all = before + seq![(dir, EntryOutcome::<S, T>::Refused(error))] + after;
            &&& loader::plugins_of(all) == loader::plugins_of(before + after)
            &&& loader::errors_of(all) == loader::errors_of(before) + seq![
                PluginLoadError { plugin_dir: dir, error },
            ] + loader::errors_of(after)
        }),
{
    let one = seq![(dir, EntryOutcome::<S, T>::Refused(error))];
    lemma_entries_concat(before, one);
    lemma_entries_concat(before + one, after);
    lemma_entries_concat(before, after);
    assert(one.drop_last().len() == 0);
    assert(one.last() == (dir, EntryOutcome::<S, T>::Refused(error)));
    assert(loader::plugins_of(one.drop_last()).len() == 0);
    assert(loader::plugins_of(one) =~= seq![]);
    assert(loader::errors_of(one.drop_last()).len() == 0);
    assert(loader::errors_of(one) =~= seq![PluginLoadError { plugin_dir: dir, error }]);
    assert(loader::plugins_of(before) + loader::plugins_of(one) =~= loader::plugins_of(before));
}

// ---------------------------------------------------------------------------
// Bundled grammars
// ---------------------------------------------------------------------------
/// The names of the user's plugins that have a grammar, after the grammars of
/// the bundled plugins have been copied, every copy succeeding. Each bundled
/// plugin is given by its name and whether it has a grammar.
pub open spec fn copied(user: Set<Seq<char>>, bundled: Seq<(Seq<char>, bool)>) -> Set<Seq<char>>
    decreases bundled.len(),
{
    if bundled.len() == 0 {
        user
    } else {
        let before = copied(user, bundled.drop_last());
        let (name, exists) = bundled.last();
        if loader::is_copied(exists, before.contains(name)) {
            before.insert(name)
        } else {
            before
        }
    }
}

/// The user has the grammar of every bundled plugin that has one after copying,
/// and keeps those that were there.
pub proof fn copying_brings_every_grammar(
    user: Set<Seq<char>>,
    bundled: Seq<(Seq<char>, bool)>,
    name: Seq<char>,
)
    ensures
        copied(user, bundled).contains(name) <==> user.contains(name) || exists|i: int|
            0 <= i < bundled.len() && #[trigger] bundled[i] == (name, true),
    decreases bundled.len(),
{
    if bundled.len() > 0 {
        let init = bundled.drop_last();
        copying_brings_every_grammar(user, init, name);
        assert forall|i: int| 0 <= i < init.len() implies #[trigger] init[i] == bundled[i] by {}
        if exists|i: int| 0 <= i < init.len() && #[trigger] init[i] == (name, true) {
            let i = choose|i: int| 0 <= i < init.len() && #[trigger] init[i] == (name, true);
            assert(bundled[i] == (name, true));
        }
        if exists|i: int| 0 <= i < bundled.len() && #[trigger] bundled[i] == (name, true) {
            let i = choose|i: int| 0 <= i < bundled.len() && #[trigger] bundled[i] == (name, true);
            if i < init.len() {
                assert(init[i] == (name, true));
            }
        }
        if bundled.last() == (name, true) {
            assert(bundled[bundled.len() - 1] == (name, true));
        }
    }
}

/// Copying is done once: after the bundled grammars have been copied, no further
/// copy is asked for, and copying again changes nothing. Where no bundled plugin
/// can be listed, nothing changes either.
pub proof fn copying_again_changes_nothing(
    user: Set<Seq<char>>,
    bundled: Seq<(Seq<char>, bool)>,
)
    ensures
        forall|i: int|
            0 <= i < bundled.len() ==> !loader::is_copied(
                (#[trigger] bundled[i]).1,
                copied(user, bundled).contains(bundled[i].0),
            ),
        copied(copied(user, bundled), bundled) == copied(user, bundled),
        copied(user, seq![]) == user,
{
    let once = copied(user, bundled);
    let twice = copied(once, bundled);
    assert forall|i: int| 0 <= i < bundled.len() implies !loader::is_copied(
        (#[trigger] bundled[i]).1,
        once.contains(bundled[i].0),
    ) by {
        copying_brings_every_grammar(user, bundled, bundled[i].0);
    }
    assert forall|name: Seq<char>| twice.contains(name) == once.contains(name) by {
        copying_brings_every_grammar(user, bundled, name);
        copying_brings_every_grammar(once, bundled, name);
    }
    assert(twice =~= once);
}

} // verus!
