//! Where plugins live and how a plugin directory is laid out:
//!
//! - `grammars/<platform>.so|.dylib`: the compiled tree-sitter grammar
//! - `queries/tags.scm`: the tree-sitter queries
//!
//! A path is modelled by the list of its components.

use vstd::prelude::*;

use std::path::PathBuf;

verus! {

/// `std::path::PathBuf`, an owned path.
#[verifier::external_type_specification]
#[verifier::external_body]
pub struct ExPathBuf(std::path::PathBuf);

/// The components of a path, as `Path::components` lists them, each as text. The
/// marker of the root is among them, but not behind a Windows prefix: joining a
/// name to a bare prefix can add it there.
pub uninterp spec fn path_parts(path: PathBuf) -> Seq<Seq<char>>;

/// What a path shows as: the text that `Path::display` writes.
pub uninterp spec fn path_text(path: PathBuf) -> Seq<char>;

/// A name that is one ordinary path component on every platform: not empty, not
/// `.` or `..`, and without separators and drive letters.
pub open spec fn is_plain_name(name: Seq<char>) -> bool {
    &&& name.len() > 0
    &&& name != seq!['.']
    &&& name != seq!['.', '.']
    &&& !name.contains('/')
    &&& !name.contains('\\')
    &&& !name.contains(':')
}

/// `path` is `base` followed by `names`, provided that they are plain names.
pub open spec fn lies_at(path: PathBuf, base: PathBuf, names: Seq<Seq<char>>) -> bool {
    (forall|i: int| 0 <= i < names.len() ==> is_plain_name(#[trigger] names[i])) ==> path_parts(
        path,
    ) == path_parts(base) + names
}

/// The name of the directory of grammars is plain.
pub(crate) proof fn lemma_grammars_is_plain()
    ensures
        is_plain_name("grammars"@),
{
    reveal_strlit("grammars");
    assert("grammars"@.len() == 8);
    assert("grammars"@ != seq!['.']);
    assert("grammars"@ != seq!['.', '.']);
}

/// `Path::join` with a plain name gives the path with that name as one further
/// component. Nothing is said of joining anything else, such as an absolute
/// path, which depends on the platform.
#[verifier::external_body]
fn join(base: &PathBuf, name: &str) -> (path: PathBuf)
    ensures
        is_plain_name(name@) ==> path_parts(path) == path_parts(*base).push(name@),
{
    base.join(name)
}

/// `Path::display` gives a text that depends on the path alone.
#[verifier::external_body]
pub(crate) fn display_path(path: &PathBuf) -> (text: String)
    ensures
        text@ == path_text(*path),
{
    path.display().to_string()
}

/// `dirs::home_dir` gives the user's home directory, if it finds one. It asks
/// the environment, so nothing is said of the result.
#[verifier::external_body]
fn home_dir() -> (home: Option<PathBuf>) {
    dirs::home_dir()
}

/// The plugins directory of the user whose home directory is `home`.
pub fn plugins_dir_in(home: Option<PathBuf>) -> (dir: Option<PathBuf>)
    ensures
        dir is Some <==> home is Some,
        dir matches Some(d) ==> path_parts(d) == path_parts(home->0) + seq![
            ".sentrux"@,
            "plugins"@,
        ],
{
    match home {
        Some(h) => {
            proof {
                reveal_strlit(".sentrux");
                reveal_strlit("plugins");
            }
            let dir = join(&join(&h, ".sentrux"), "plugins");
            assert(path_parts(dir) =~= path_parts(h) + seq![".sentrux"@, "plugins"@]);
            Some(dir)
        },
        None => None,
    }
}

/// Get the user's plugins directory path (~/.sentrux/plugins/).
pub fn plugins_dir() -> (dir: Option<PathBuf>)
    ensures
        dir matches Some(d) ==> {
            let n = path_parts(d).len();
            n >= 2 && path_parts(d).skip(n - 2) == seq![".sentrux"@, "plugins"@]
        },
{
    let dir = plugins_dir_in(home_dir());
    assert(dir matches Some(d) ==> path_parts(d).skip(path_parts(d).len() - 2) =~= seq![
        ".sentrux"@,
        "plugins"@,
    ]);
    dir
}

/// Where the bundled plugins directory would be: next to the executable, which
/// lies in `exe_dir`, if that is known.
pub fn bundled_plugins_dir(exe_dir: Option<PathBuf>) -> (dir: Option<PathBuf>)
    ensures
        dir is Some <==> exe_dir is Some,
        dir matches Some(d) ==> path_parts(d) == path_parts(exe_dir->0).push("plugins"@),
{
    match exe_dir {
        Some(e) => {
            proof {
                reveal_strlit("plugins");
            }
            Some(join(&e, "plugins"))
        },
        None => None,
    }
}

/// The manifest of a plugin.
pub fn manifest_path(plugin_dir: &PathBuf) -> (path: PathBuf)
    ensures
        path_parts(path) == path_parts(*plugin_dir).push("plugin.toml"@),
{
    proof {
        reveal_strlit("plugin.toml");
        assert("plugin.toml"@.len() == 11);
    }
    join(plugin_dir, "plugin.toml")
}

/// The query file of a plugin.
pub fn query_path(plugin_dir: &PathBuf) -> (path: PathBuf)
    ensures
        path_parts(path) == path_parts(*plugin_dir) + seq!["queries"@, "tags.scm"@],
{
    proof {
        reveal_strlit("queries");
        reveal_strlit("tags.scm");
    }
    let path = join(&join(plugin_dir, "queries"), "tags.scm");
    assert(path_parts(path) =~= path_parts(*plugin_dir) + seq!["queries"@, "tags.scm"@]);
    path
}

/// The directory of a plugin's grammar binaries.
pub fn grammar_dir(plugin_dir: &PathBuf) -> (path: PathBuf)
    ensures
        path_parts(path) == path_parts(*plugin_dir).push("grammars"@),
{
    proof {
        lemma_grammars_is_plain();
    }
    join(plugin_dir, "grammars")
}

/// The grammar binary of a plugin for the platform whose file it is.
pub fn grammar_path(plugin_dir: &PathBuf, grammar_file: &str) -> (path: PathBuf)
    ensures
        lies_at(path, *plugin_dir, seq!["grammars"@, grammar_file@]),
        is_plain_name(grammar_file@) ==> path_parts(path) == path_parts(*plugin_dir).push(
            "grammars"@,
        ).push(grammar_file@),
{
    let path = join(&grammar_dir(plugin_dir), grammar_file);
    let ghost names = seq!["grammars"@, grammar_file@];
    proof {
        if forall|i: int| 0 <= i < names.len() ==> is_plain_name(#[trigger] names[i]) {
            assert(is_plain_name(names[1]));
            assert(path_parts(path) =~= path_parts(*plugin_dir) + names);
        }
    }
    path
}

/// The directory of the plugin called `name` under the plugins directory.
pub fn plugin_dir_named(plugins_dir: &PathBuf, name: &str) -> (path: PathBuf)
    ensures
        lies_at(path, *plugins_dir, seq![name@]),
        is_plain_name(name@) ==> path_parts(path) == path_parts(*plugins_dir).push(name@),
{
    let path = join(plugins_dir, name);
    let ghost names = seq![name@];
    proof {
        if forall|i: int| 0 <= i < names.len() ==> is_plain_name(#[trigger] names[i]) {
            assert(is_plain_name(names[0]));
            assert(path_parts(path) =~= path_parts(*plugins_dir) + names);
        }
    }
    path
}

/// A name is plain exactly if it is not empty, not `.` or `..`, and without the
/// characters `/`, `\` and `:`.
pub proof fn plain_name_is_one_component(name: Seq<char>)
    ensures
        is_plain_name(name) <==> {
            &&& name != ""@
            &&& name != "."@
            &&& name != ".."@
            &&& forall|i: int|
                0 <= i < name.len() ==> #[trigger] name[i] != '/' && name[i] != '\\' && name[i]
                    != ':'
        },
{
    reveal_strlit("");
    reveal_strlit(".");
    reveal_strlit("..");
    assert("."@ =~= seq!['.']);
    assert(".."@ =~= seq!['.', '.']);
    assert(name.len() == 0 <==> name =~= ""@);
    if is_plain_name(name) {
        assert forall|i: int| 0 <= i < name.len() implies #[trigger] name[i] != '/' && name[i]
            != '\\' && name[i] != ':' by {
            assert(name.contains(name[i]));
        }
    }
}

/// A path with plain names behind a directory has the directory's components and
/// then the names.
pub proof fn plain_names_are_appended(path: PathBuf, base: PathBuf, names: Seq<Seq<char>>)
    requires
        lies_at(path, base, names),
        forall|i: int| 0 <= i < names.len() ==> is_plain_name(#[trigger] names[i]),
    ensures
        path_parts(path).len() == path_parts(base).len() + names.len(),
        path_parts(path).take(path_parts(base).len() as int) == path_parts(base),
        path_parts(path).skip(path_parts(base).len() as int) == names,
{
    assert(path_parts(path).take(path_parts(base).len() as int) =~= path_parts(base));
    assert(path_parts(path).skip(path_parts(base).len() as int) =~= names);
}

} // verus!
