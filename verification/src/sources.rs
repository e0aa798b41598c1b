//! Where plugins are loaded from: the user's directory, and the one that ships
//! with the distribution.

use vstd::prelude::*;

use crate::text::same_text;
use std::path::PathBuf;

verus! {

/// A directory in one of the two places that plugins are loaded from.
pub struct PluginEntry {
    /// The name of the directory.
    pub name: String,
    /// The directory.
    pub dir: PathBuf,
    /// Whether it holds a manifest.
    pub has_manifest: bool,
    /// Whether it holds a grammar binary for this platform.
    pub has_grammar: bool,
}

/// A plugin to be loaded.
pub struct PluginSource<'a> {
    /// The directory of its manifest and its query.
    pub plugin_dir: &'a PathBuf,
    /// The directory under which its grammar binary lies.
    pub grammar_home: &'a PathBuf,
}

/// One of `entries` is called `name` and holds a manifest.
pub open spec fn offers_manifest(entries: Seq<PluginEntry>, name: Seq<char>) -> bool {
    exists|i: int|
        0 <= i < entries.len() && (#[trigger] entries[i]).name@ == name && entries[i].has_manifest
}

/// The first of `entries` that is called `name` and holds a grammar binary.
pub open spec fn grammar_offered(entries: Seq<PluginEntry>, name: Seq<char>) -> Option<PathBuf>
    decreases entries.len(),
{
    if entries.len() == 0 {
        None
    } else if entries.first().name@ == name && entries.first().has_grammar {
        Some(entries.first().dir)
    } else {
        grammar_offered(entries.drop_first(), name)
    }
}

/// A bundled directory is loaded from if it holds a manifest, the user has none
/// of that name, and one of the two has a grammar.
pub open spec fn is_bundled_source(entry: PluginEntry, user: Seq<PluginEntry>) -> bool {
    &&& entry.has_manifest
    &&& !offers_manifest(user, entry.name@)
    &&& entry.has_grammar || grammar_offered(user, entry.name@) is Some
}

/// A bundled directory of that name is loaded from.
pub open spec fn comes_bundled(
    name: Seq<char>,
    user: Seq<PluginEntry>,
    bundled: Seq<PluginEntry>,
) -> bool {
    exists|i: int|
        0 <= i < bundled.len() && (#[trigger] bundled[i]).name@ == name && is_bundled_source(
            bundled[i],
            user,
        )
}

/// A user directory is loaded from unless it has no manifest and the plugin of
/// that name comes bundled.
pub open spec fn is_user_source(
    entry: PluginEntry,
    user: Seq<PluginEntry>,
    bundled: Seq<PluginEntry>,
) -> bool {
    entry.has_manifest || !comes_bundled(entry.name@, user, bundled)
}

/// The directories of the plugin in `entry`, the second that of its grammar: its
/// own if that holds one, and else the first of that name in the other place
/// that does, if any.
pub open spec fn source_of(entry: PluginEntry, other: Seq<PluginEntry>) -> (PathBuf, PathBuf) {
    (
        entry.dir,
        match grammar_offered(other, entry.name@) {
            Some(dir) if !entry.has_grammar => dir,
            _ => entry.dir,
        },
    )
}

/// What is loaded from the user's directories, in order.
pub open spec fn user_sources(user: Seq<PluginEntry>, bundled: Seq<PluginEntry>) -> Seq<
    (PathBuf, PathBuf),
> {
    user.filter(|e: PluginEntry| is_user_source(e, user, bundled)).map_values(
        |e: PluginEntry| source_of(e, bundled),
    )
}

/// What is loaded from the bundled directories, in order.
pub open spec fn bundled_sources(user: Seq<PluginEntry>, bundled: Seq<PluginEntry>) -> Seq<
    (PathBuf, PathBuf),
> {
    bundled.filter(|e: PluginEntry| is_bundled_source(e, user)).map_values(
        |e: PluginEntry| source_of(e, user),
    )
}

/// All that is loaded, the user's plugins first.
pub open spec fn sources(user: Seq<PluginEntry>, bundled: Seq<PluginEntry>) -> Seq<
    (PathBuf, PathBuf),
> {
    user_sources(user, bundled) + bundled_sources(user, bundled)
}

/// The directories of sources.
pub open spec fn dirs_of(sources: Seq<PluginSource>) -> Seq<(PathBuf, PathBuf)> {
    sources.map_values(|s: PluginSource| (*s.plugin_dir, *s.grammar_home))
}

fn has_manifest_named(entries: &Vec<PluginEntry>, name: &str) -> (b: bool)
    ensures
        b == offers_manifest(entries@, name@),
{
    let mut i: usize = 0;
    while i < entries.len()
        invariant
            i <= entries@.len(),
            forall|j: int|
                0 <= j < i ==> !((#[trigger] entries@[j]).name@ == name@
                    && entries@[j].has_manifest),
        decreases entries@.len() - i,
    {
        if entries[i].has_manifest && same_text(entries[i].name.as_str(), name) {
            assert(entries@[i as int].name@ == name@);
            return true;
        }
        i = i + 1;
    }
    false
}

fn grammar_named<'a>(entries: &'a Vec<PluginEntry>, name: &str) -> (r: Option<&'a PathBuf>)
    ensures
        r is Some <==> grammar_offered(entries@, name@) is Some,
        r matches Some(dir) ==> grammar_offered(entries@, name@) == Some(*dir),
{
    let mut i: usize = 0;
    assert(entries@.skip(0) =~= entries@);
    while i < entries.len()
        invariant
            i <= entries@.len(),
            grammar_offered(entries@.skip(i as int), name@) == grammar_offered(entries@, name@),
        decreases entries@.len() - i,
    {
        assert(entries@.skip(i as int).drop_first() =~= entries@.skip(i + 1));
        if entries[i].has_grammar && same_text(entries[i].name.as_str(), name) {
            return Some(&entries[i].dir);
        }
        i = i + 1;
    }
    None
}

fn loads_bundled(entry: &PluginEntry, user: &Vec<PluginEntry>) -> (b: bool)
    ensures
        b == is_bundled_source(*entry, user@),
{
    entry.has_manifest && !has_manifest_named(user, entry.name.as_str()) && (entry.has_grammar
        || grammar_named(user, entry.name.as_str()).is_some())
}

fn loads_user(entry: &PluginEntry, user: &Vec<PluginEntry>, bundled: &Vec<PluginEntry>) -> (b: bool)
    ensures
        b == is_user_source(*entry, user@, bundled@),
{
    if entry.has_manifest {
        return true;
    }
    let mut i: usize = 0;
    while i < bundled.len()
        invariant
            i <= bundled@.len(),
            !entry.has_manifest,
            forall|j: int|
                0 <= j < i ==> !((#[trigger] bundled@[j]).name@ == entry.name@
                    && is_bundled_source(bundled@[j], user@)),
        decreases bundled@.len() - i,
    {
        if same_text(bundled[i].name.as_str(), entry.name.as_str()) && loads_bundled(
            &bundled[i],
            user,
        ) {
            assert(bundled@[i as int].name@ == entry.name@);
            return false;
        }
        i = i + 1;
    }
    true
}

fn source<'a>(entry: &'a PluginEntry, other: &'a Vec<PluginEntry>) -> (s: PluginSource<'a>)
    ensures
        (*s.plugin_dir, *s.grammar_home) == source_of(*entry, other@),
{
    let grammar_home: &'a PathBuf = if entry.has_grammar {
        &entry.dir
    } else {
        match grammar_named(other, entry.name.as_str()) {
            Some(dir) => dir,
            None => &entry.dir,
        }
    };
    PluginSource { plugin_dir: &entry.dir, grammar_home }
}

/// The plugins to load from BOTH places. A user directory with a manifest takes
/// priority over a bundled one of its name, and the grammar binary of a plugin
/// is searched in both.
pub fn plugin_sources<'a>(user: &'a Vec<PluginEntry>, bundled: &'a Vec<PluginEntry>) -> (r: Vec<
    PluginSource<'a>,
>)
    ensures
        dirs_of(r@) == sources(user@, bundled@),
        r@.len() == sources(user@, bundled@).len(),
        forall|k: int|
            0 <= k < r@.len() ==> *(#[trigger] r@[k]).plugin_dir == sources(user@, bundled@)[k].0
                && *r@[k].grammar_home == sources(user@, bundled@)[k].1,
{
    let mut r: Vec<PluginSource<'a>> = Vec::new();
    let ghost in_user = |e: PluginEntry| is_user_source(e, user@, bundled@);
    let ghost of_user = |e: PluginEntry| source_of(e, bundled@);
    let ghost in_bundled = |e: PluginEntry| is_bundled_source(e, user@);
    let ghost of_bundled = |e: PluginEntry| source_of(e, user@);
    reveal(Seq::filter);
    assert(dirs_of(r@) =~= user@.take(0).filter(in_user).map_values(of_user));
    let mut i: usize = 0;
    while i < user.len()
        invariant
            i <= user@.len(),
            in_user == (|e: PluginEntry| is_user_source(e, user@, bundled@)),
            of_user == (|e: PluginEntry| source_of(e, bundled@)),
            dirs_of(r@) == user@.take(i as int).filter(in_user).map_values(of_user),
        decreases user@.len() - i,
    {
        reveal(Seq::filter);
        assert(user@.take(i + 1).drop_last() =~= user@.take(i as int));
        let ghost before = dirs_of(r@);
        if loads_user(&user[i], user, bundled) {
            r.push(source(&user[i], bundled));
            assert(dirs_of(r@) =~= before.push(source_of(user@[i as int], bundled@)));
        }
        assert(dirs_of(r@) =~= user@.take(i + 1).filter(in_user).map_values(of_user));
        i = i + 1;
    }
    assert(user@.take(user@.len() as int) =~= user@);
    assert(dirs_of(r@) =~= user_sources(user@, bundled@) + bundled@.take(0).filter(
        in_bundled,
    ).map_values(of_bundled));
    let mut k: usize = 0;
    while k < bundled.len()
        invariant
            k <= bundled@.len(),
            in_bundled == (|e: PluginEntry| is_bundled_source(e, user@)),
            of_bundled == (|e: PluginEntry| source_of(e, user@)),
            dirs_of(r@) == user_sources(user@, bundled@) + bundled@.take(k as int).filter(
                in_bundled,
            ).map_values(of_bundled),
        decreases bundled@.len() - k,
    {
        reveal(Seq::filter);
        assert(bundled@.take(k + 1).drop_last() =~= bundled@.take(k as int));
        let ghost before = dirs_of(r@);
        if loads_bundled(&bundled[k], user) {
            r.push(source(&bundled[k], user));
            assert(dirs_of(r@) =~= before.push(source_of(bundled@[k as int], user@)));
        }
        assert(dirs_of(r@) =~= user_sources(user@, bundled@) + bundled@.take(k + 1).filter(
            in_bundled,
        ).map_values(of_bundled));
        k = k + 1;
    }
    assert(bundled@.take(bundled@.len() as int) =~= bundled@);
    assert forall|k: int| 0 <= k < r@.len() implies *(#[trigger] r@[k]).plugin_dir == sources(
        user@,
        bundled@,
    )[k].0 && *r@[k].grammar_home == sources(user@, bundled@)[k].1 by {
        assert(dirs_of(r@)[k] == (*r@[k].plugin_dir, *r@[k].grammar_home));
    }
    r
}

// ---------------------------------------------------------------------------
// Laws
// ---------------------------------------------------------------------------
proof fn lemma_filtered(
    entries: Seq<PluginEntry>,
    wanted: spec_fn(PluginEntry) -> bool,
    of: spec_fn(PluginEntry) -> (PathBuf, PathBuf),
    source: (PathBuf, PathBuf),
)
    ensures
        entries.filter(wanted).map_values(of).contains(source) <==> exists|i: int|
            0 <= i < entries.len() && wanted(#[trigger] entries[i]) && of(entries[i]) == source,
    decreases entries.len(),
{
    reveal(Seq::filter);
    let r = entries.filter(wanted).map_values(of);
    if entries.len() > 0 {
        let init = entries.drop_last();
        let part = init.filter(wanted).map_values(of);
        lemma_filtered(init, wanted, of, source);
        assert forall|i: int| 0 <= i < init.len() implies #[trigger] init[i] == entries[i] by {}
        assert(entries[entries.len() - 1] == entries.last());
        if wanted(entries.last()) {
            assert(r =~= part.push(of(entries.last())));
            assert(r[r.len() - 1] == of(entries.last()));
        } else {
            assert(r =~= part);
        }
        if part.contains(source) {
            let k = choose|k: int| 0 <= k < part.len() && part[k] == source;
            assert(r[k] == source);
            let i = choose|i: int|
                0 <= i < init.len() && wanted(#[trigger] init[i]) && of(init[i]) == source;
            assert(wanted(entries[i]));
        } else if exists|i: int|
            0 <= i < entries.len() && wanted(#[trigger] entries[i]) && of(entries[i]) == source {
            let i = choose|i: int|
                0 <= i < entries.len() && wanted(#[trigger] entries[i]) && of(entries[i]) == source;
            if i < init.len() {
                assert(wanted(init[i]));
            }
        }
    }
}

proof fn lemma_grammar_offered(entries: Seq<PluginEntry>, name: Seq<char>)
    ensures
        grammar_offered(entries, name) is Some <==> exists|i: int|
            0 <= i < entries.len() && (#[trigger] entries[i]).name@ == name
                && entries[i].has_grammar,
        grammar_offered(entries, name) matches Some(dir) ==> exists|i: int|
            0 <= i < entries.len() && (#[trigger] entries[i]).name@ == name
                && entries[i].has_grammar && entries[i].dir == dir,
    decreases entries.len(),
{
    if entries.len() > 0 {
        let rest = entries.drop_first();
        lemma_grammar_offered(rest, name);
        assert forall|i: int| 0 <= i < rest.len() implies #[trigger] rest[i] == entries[i + 1] by {}
        assert forall|i: int| 0 < i < entries.len() implies #[trigger] entries[i] == rest[i
            - 1] by {}
        if entries[0].name@ == name && entries[0].has_grammar {
        } else if let Some(dir) = grammar_offered(entries, name) {
            let i = choose|i: int|
                0 <= i < rest.len() && (#[trigger] rest[i]).name@ == name && rest[i].has_grammar
                    && rest[i].dir == dir;
            assert(entries[i + 1].dir == dir);
        } else if exists|i: int|
            0 <= i < entries.len() && (#[trigger] entries[i]).name@ == name
                && entries[i].has_grammar {
            let i = choose|i: int|
                0 <= i < entries.len() && (#[trigger] entries[i]).name@ == name
                    && entries[i].has_grammar;
            assert(rest[i - 1].has_grammar);
        }
    }
}

/// Plugins are loaded from both places, and from nowhere else.
pub proof fn plugins_are_loaded_from_both(
    user: Seq<PluginEntry>,
    bundled: Seq<PluginEntry>,
    source: (PathBuf, PathBuf),
)
    ensures
        sources(user, bundled).contains(source) <==> (exists|i: int|
            0 <= i < user.len() && is_user_source(#[trigger] user[i], user, bundled) && source_of(
                user[i],
                bundled,
            ) == source) || (exists|k: int|
            0 <= k < bundled.len() && is_bundled_source(#[trigger] bundled[k], user) && source_of(
                bundled[k],
                user,
            ) == source),
{
    let a = user_sources(user, bundled);
    let b = bundled_sources(user, bundled);
    let in_user = |e: PluginEntry| is_user_source(e, user, bundled);
    let in_bundled = |e: PluginEntry| is_bundled_source(e, user);
    lemma_filtered(user, in_user, |e: PluginEntry| source_of(e, bundled), source);
    lemma_filtered(bundled, in_bundled, |e: PluginEntry| source_of(e, user), source);
    if a.contains(source) {
        let i = choose|i: int| 0 <= i < a.len() && a[i] == source;
        assert((a + b)[i] == source);
        let j = choose|j: int|
            0 <= j < user.len() && in_user(#[trigger] user[j]) && source_of(user[j], bundled)
                == source;
        assert(is_user_source(user[j], user, bundled));
    }
    if b.contains(source) {
        let i = choose|i: int| 0 <= i < b.len() && b[i] == source;
        assert((a + b)[a.len() + i] == source);
        let j = choose|j: int|
            0 <= j < bundled.len() && in_bundled(#[trigger] bundled[j]) && source_of(
                bundled[j],
                user,
            ) == source;
        assert(is_bundled_source(bundled[j], user));
    }
    if sources(user, bundled).contains(source) {
        let i = choose|i: int| 0 <= i < (a + b).len() && (a + b)[i] == source;
        if i < a.len() {
            assert(a[i] == source);
        } else {
            assert(b[i - a.len()] == source);
        }
    }
    if exists|i: int|
        0 <= i < user.len() && is_user_source(#[trigger] user[i], user, bundled) && source_of(
            user[i],
            bundled,
        ) == source {
        let i = choose|i: int|
            0 <= i < user.len() && is_user_source(#[trigger] user[i], user, bundled) && source_of(
                user[i],
                bundled,
            ) == source;
        assert(in_user(user[i]));
    }
    if exists|k: int|
        0 <= k < bundled.len() && is_bundled_source(#[trigger] bundled[k], user) && source_of(
            bundled[k],
            user,
        ) == source {
        let k = choose|k: int|
            0 <= k < bundled.len() && is_bundled_source(#[trigger] bundled[k], user) && source_of(
                bundled[k],
                user,
            ) == source;
        assert(in_bundled(bundled[k]));
    }
}

/// The user's manifests take priority: a user directory that holds one is loaded
/// from, and no bundled directory of its name is.
pub proof fn user_plugins_take_priority(
    user: Seq<PluginEntry>,
    bundled: Seq<PluginEntry>,
    i: int,
)
    requires
        0 <= i < user.len(),
        user[i].has_manifest,
    ensures
        sources(user, bundled).contains(source_of(user[i], bundled)),
        source_of(user[i], bundled).0 == user[i].dir,
        !comes_bundled(user[i].name@, user, bundled),
{
    plugins_are_loaded_from_both(user, bundled, source_of(user[i], bundled));
    assert(is_user_source(user[i], user, bundled));
    assert(offers_manifest(user, user[i].name@));
}

/// A complete bundled plugin that the user has no manifest of is loaded as it
/// is, and user directories of its name are passed over.
pub proof fn complete_bundled_plugin_is_loaded(
    user: Seq<PluginEntry>,
    bundled: Seq<PluginEntry>,
    k: int,
)
    requires
        0 <= k < bundled.len(),
        bundled[k].has_manifest,
        bundled[k].has_grammar,
        !offers_manifest(user, bundled[k].name@),
    ensures
        sources(user, bundled).contains((bundled[k].dir, bundled[k].dir)),
        forall|i: int|
            0 <= i < user.len() && (#[trigger] user[i]).name@ == bundled[k].name@
                ==> !is_user_source(user[i], user, bundled),
{
    plugins_are_loaded_from_both(user, bundled, source_of(bundled[k], user));
    assert(is_bundled_source(bundled[k], user));
    assert(comes_bundled(bundled[k].name@, user, bundled));
}

/// A user directory without a manifest, such as one that a grammar was copied
/// to, keeps no plugin from being loaded.
pub proof fn grammar_alone_hides_no_plugin(
    user: Seq<PluginEntry>,
    entry: PluginEntry,
    plugin: PluginEntry,
)
    requires
        !entry.has_manifest,
        is_bundled_source(plugin, user),
    ensures
        is_bundled_source(plugin, user.push(entry)),
{
    let all = user.push(entry);
    let name = plugin.name@;
    lemma_grammar_offered(user, name);
    lemma_grammar_offered(all, name);
    if offers_manifest(all, name) {
        let i = choose|i: int|
            0 <= i < all.len() && (#[trigger] all[i]).name@ == name && all[i].has_manifest;
        assert(user[i].has_manifest);
    }
    if grammar_offered(user, name) is Some {
        let i = choose|i: int|
            0 <= i < user.len() && (#[trigger] user[i]).name@ == name && user[i].has_grammar;
        assert(all[i].has_grammar);
    }
}

/// The grammar of a plugin is searched in both places: if a directory of its
/// name holds one in either, the plugin gets it from such a directory, and from
/// its own if that holds one.
pub proof fn grammar_is_searched_in_both(
    entry: PluginEntry,
    other: Seq<PluginEntry>,
)
    ensures
        entry.has_grammar ==> source_of(entry, other).1 == entry.dir,
        !entry.has_grammar && (exists|i: int|
            0 <= i < other.len() && (#[trigger] other[i]).name@ == entry.name@
                && other[i].has_grammar) ==> exists|i: int|
            0 <= i < other.len() && (#[trigger] other[i]).name@ == entry.name@
                && other[i].has_grammar && other[i].dir == source_of(entry, other).1,
{
    lemma_grammar_offered(other, entry.name@);
}

/// Without bundled plugins every user directory is loaded from.
pub proof fn user_directories_alone_are_all_loaded(user: Seq<PluginEntry>)
    ensures
        sources(user, seq![]) == user.map_values(|e: PluginEntry| (e.dir, e.dir)),
{
    let none = Seq::<PluginEntry>::empty();
    lemma_all_wanted(user, |e: PluginEntry| is_user_source(e, user, none));
    reveal(Seq::filter);
    assert(bundled_sources(user, none) =~= seq![]);
    assert(sources(user, seq![]) =~= user.map_values(|e: PluginEntry| (e.dir, e.dir)));
}

proof fn lemma_all_wanted(entries: Seq<PluginEntry>, wanted: spec_fn(PluginEntry) -> bool)
    requires
        forall|i: int| 0 <= i < entries.len() ==> wanted(#[trigger] entries[i]),
    ensures
        entries.filter(wanted) == entries,
    decreases entries.len(),
{
    reveal(Seq::filter);
    if entries.len() > 0 {
        let init = entries.drop_last();
        assert forall|i: int| 0 <= i < init.len() implies wanted(#[trigger] init[i]) by {
            assert(wanted(entries[i]));
        }
        lemma_all_wanted(init, wanted);
        assert(wanted(entries[entries.len() - 1]));
        assert(entries.drop_last().push(entries.last()) =~= entries);
    }
}

/// A bundled directory is loaded from exactly if it holds a manifest, no user
/// directory of its name does, and it or a user directory of its name holds a
/// grammar.
pub proof fn bundled_plugin_needs_manifest_and_grammar(
    entry: PluginEntry,
    user: Seq<PluginEntry>,
)
    ensures
        is_bundled_source(entry, user) <==> {
            &&& entry.has_manifest
            &&& forall|i: int|
                0 <= i < user.len() && (#[trigger] user[i]).name@ == entry.name@
                    ==> !user[i].has_manifest
            &&& entry.has_grammar || exists|i: int|
                0 <= i < user.len() && (#[trigger] user[i]).name@ == entry.name@
                    && user[i].has_grammar
        },
{
    lemma_grammar_offered(user, entry.name@);
}

/// A user directory is loaded from exactly if it holds a manifest, or no bundled
/// directory of its name is loaded from.
pub proof fn user_directory_without_manifest_gives_way(
    entry: PluginEntry,
    user: Seq<PluginEntry>,
    bundled: Seq<PluginEntry>,
)
    ensures
        is_user_source(entry, user, bundled) <==> entry.has_manifest || forall|k: int|
            0 <= k < bundled.len() && (#[trigger] bundled[k]).name@ == entry.name@
                ==> !is_bundled_source(bundled[k], user),
{
}

/// A plugin is loaded from its own directory, and its grammar from there too if
/// it holds one; else from the first directory of its name in the other place
/// that holds one; and if none does, from its own again.
pub proof fn grammar_comes_from_the_first_place_that_has_it(
    entry: PluginEntry,
    other: Seq<PluginEntry>,
    j: int,
)
    ensures
        source_of(entry, other).0 == entry.dir,
        entry.has_grammar ==> source_of(entry, other).1 == entry.dir,
        (forall|i: int|
            0 <= i < other.len() && (#[trigger] other[i]).name@ == entry.name@
                ==> !other[i].has_grammar) ==> source_of(entry, other).1 == entry.dir,
        !entry.has_grammar && 0 <= j < other.len() && other[j].name@ == entry.name@
            && other[j].has_grammar && (forall|i: int|
            0 <= i < j && (#[trigger] other[i]).name@ == entry.name@ ==> !other[i].has_grammar)
            ==> source_of(entry, other).1 == other[j].dir,
{
    lemma_grammar_offered(other, entry.name@);
    if 0 <= j < other.len() && other[j].name@ == entry.name@ && other[j].has_grammar && (forall|
        i: int,
    |
        0 <= i < j && (#[trigger] other[i]).name@ == entry.name@ ==> !other[i].has_grammar) {
        lemma_first_grammar(other, entry.name@, j);
    }
}

proof fn lemma_first_grammar(entries: Seq<PluginEntry>, name: Seq<char>, j: int)
    requires
        0 <= j < entries.len(),
        entries[j].name@ == name,
        entries[j].has_grammar,
        forall|i: int|
            0 <= i < j && (#[trigger] entries[i]).name@ == name ==> !entries[i].has_grammar,
    ensures
        grammar_offered(entries, name) == Some(entries[j].dir),
    decreases entries.len(),
{
    if j > 0 {
        let rest = entries.drop_first();
        assert forall|i: int| 0 <= i < j - 1 && (#[trigger] rest[i]).name@ == name implies !
        rest[i].has_grammar by {
            assert(rest[i] == entries[i + 1]);
        }
        assert(rest[j - 1] == entries[j]);
        assert(!(entries[0].name@ == name && entries[0].has_grammar));
        lemma_first_grammar(rest, name, j - 1);
    }
}

/// `at` are the places of the entries that are wanted, in order, and `found` are
/// their sources.
spec fn are_the_wanted(
    at: Seq<int>,
    entries: Seq<PluginEntry>,
    wanted: spec_fn(PluginEntry) -> bool,
    of: spec_fn(PluginEntry) -> (PathBuf, PathBuf),
    found: Seq<(PathBuf, PathBuf)>,
) -> bool {
    &&& at.len() == found.len()
    &&& forall|k: int|
        0 <= k < at.len() ==> 0 <= #[trigger] at[k] < entries.len() && wanted(entries[at[k]])
            && found[k] == of(entries[at[k]])
    &&& forall|j: int, k: int| 0 <= j < k < at.len() ==> at[j] < at[k]
    &&& forall|i: int| 0 <= i < entries.len() && wanted(#[trigger] entries[i]) ==> at.contains(i)
}

proof fn lemma_wanted_in_order(
    entries: Seq<PluginEntry>,
    wanted: spec_fn(PluginEntry) -> bool,
    of: spec_fn(PluginEntry) -> (PathBuf, PathBuf),
)
    ensures
        exists|at: Seq<int>|
            are_the_wanted(at, entries, wanted, of, entries.filter(wanted).map_values(of)),
    decreases entries.len(),
{
    reveal(Seq::filter);
    let found = entries.filter(wanted).map_values(of);
    if entries.len() == 0 {
        assert(are_the_wanted(Seq::<int>::empty(), entries, wanted, of, found));
    } else {
        let init = entries.drop_last();
        let last = entries.len() - 1;
        let part = init.filter(wanted).map_values(of);
        lemma_wanted_in_order(init, wanted, of);
        let before = choose|at: Seq<int>| are_the_wanted(at, init, wanted, of, part);
        let at = if wanted(entries[last]) {
            before.push(last)
        } else {
            before
        };
        if wanted(entries[last]) {
            assert(found =~= part.push(of(entries[last])));
        } else {
            assert(found =~= part);
        }
        assert forall|k: int| 0 <= k < at.len() implies 0 <= #[trigger] at[k] < entries.len()
            && wanted(entries[at[k]]) && found[k] == of(entries[at[k]]) by {
            if k < before.len() {
                assert(at[k] == before[k]);
                assert(init[before[k]] == entries[at[k]]);
            }
        }
        assert forall|i: int|
            0 <= i < entries.len() && wanted(#[trigger] entries[i]) implies at.contains(i) by {
            if i < last {
                assert(init[i] == entries[i]);
                let k = choose|k: int| 0 <= k < before.len() && before[k] == i;
                assert(at[k] == i);
            } else {
                assert(at[before.len() as int] == i);
            }
        }
        assert(are_the_wanted(at, entries, wanted, of, found));
    }
}

/// `found` is what is loaded from the user directories at the places `at` and
/// then from the bundled directories at the places `then_at`. These are all the
/// places that are loaded from, in order.
pub open spec fn are_loaded_in_order(
    at: Seq<int>,
    then_at: Seq<int>,
    user: Seq<PluginEntry>,
    bundled: Seq<PluginEntry>,
    found: Seq<(PathBuf, PathBuf)>,
) -> bool {
    &&& found.len() == at.len() + then_at.len()
    &&& forall|k: int|
        0 <= k < at.len() ==> 0 <= #[trigger] at[k] < user.len() && is_user_source(
            user[at[k]],
            user,
            bundled,
        ) && found[k] == source_of(user[at[k]], bundled)
    &&& forall|k: int|
        0 <= k < then_at.len() ==> 0 <= #[trigger] then_at[k] < bundled.len() && is_bundled_source(
            bundled[then_at[k]],
            user,
        ) && found[at.len() + k] == source_of(bundled[then_at[k]], user)
    &&& forall|j: int, k: int| 0 <= j < k < at.len() ==> at[j] < at[k]
    &&& forall|j: int, k: int| 0 <= j < k < then_at.len() ==> then_at[j] < then_at[k]
    &&& forall|i: int|
        0 <= i < user.len() && is_user_source(#[trigger] user[i], user, bundled) ==> at.contains(i)
    &&& forall|i: int|
        0 <= i < bundled.len() && is_bundled_source(#[trigger] bundled[i], user)
            ==> then_at.contains(i)
}

/// The user's plugins come first and the bundled ones after them, both in the
/// order in which they were listed, and each once.
pub proof fn plugins_are_loaded_in_the_order_listed(
    user: Seq<PluginEntry>,
    bundled: Seq<PluginEntry>,
)
    ensures
        exists|at: Seq<int>, then_at: Seq<int>|
            are_loaded_in_order(at, then_at, user, bundled, sources(user, bundled)),
{
    let in_user = |e: PluginEntry| is_user_source(e, user, bundled);
    let of_user = |e: PluginEntry| source_of(e, bundled);
    let in_bundled = |e: PluginEntry| is_bundled_source(e, user);
    let of_bundled = |e: PluginEntry| source_of(e, user);
    lemma_wanted_in_order(user, in_user, of_user);
    lemma_wanted_in_order(bundled, in_bundled, of_bundled);
    let a = user_sources(user, bundled);
    let b = bundled_sources(user, bundled);
    let at = choose|at: Seq<int>| are_the_wanted(at, user, in_user, of_user, a);
    let then_at = choose|at: Seq<int>| are_the_wanted(at, bundled, in_bundled, of_bundled, b);
    let found = sources(user, bundled);
    assert forall|k: int| 0 <= k < at.len() implies 0 <= #[trigger] at[k] < user.len()
        && is_user_source(user[at[k]], user, bundled) && found[k] == source_of(
        user[at[k]],
        bundled,
    ) by {
        assert(in_user(user[at[k]]));
        assert(a[k] == of_user(user[at[k]]));
    }
    assert forall|k: int| 0 <= k < then_at.len() implies 0 <= #[trigger] then_at[k] < bundled.len()
        && is_bundled_source(bundled[then_at[k]], user) && found[at.len() + k] == source_of(
        bundled[then_at[k]],
        user,
    ) by {
        assert(in_bundled(bundled[then_at[k]]));
        assert(b[k] == of_bundled(bundled[then_at[k]]));
    }
    assert forall|i: int|
        0 <= i < user.len() && is_user_source(#[trigger] user[i], user, bundled) implies at.contains(
        i,
    ) by {
        assert(in_user(user[i]));
    }
    assert forall|i: int|
        0 <= i < bundled.len() && is_bundled_source(
            #[trigger] bundled[i],
            user,
        ) implies then_at.contains(i) by {
        assert(in_bundled(bundled[i]));
    }
    assert(are_loaded_in_order(at, then_at, user, bundled, found));
}

} // verus!
