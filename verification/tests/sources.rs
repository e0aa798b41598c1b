use sentrux_core::sources::{plugin_sources, PluginEntry};
use std::path::PathBuf;

fn entry(place: &str, name: &str, has_manifest: bool, has_grammar: bool) -> PluginEntry {
    PluginEntry {
        name: name.to_string(),
        dir: PathBuf::from(place).join(name),
        has_manifest,
        has_grammar,
    }
}

fn complete(place: &str, name: &str) -> PluginEntry {
    entry(place, name, true, true)
}

fn loaded(user: Vec<PluginEntry>, bundled: Vec<PluginEntry>) -> Vec<(String, String)> {
    plugin_sources(&user, &bundled)
        .iter()
        .map(|s| {
            (
                s.plugin_dir.display().to_string(),
                s.grammar_home.display().to_string(),
            )
        })
        .collect()
}

fn pairs(expected: &[(&str, &str)]) -> Vec<(String, String)> {
    expected
        .iter()
        .map(|(a, b)| (a.to_string(), b.to_string()))
        .collect()
}

#[test]
fn user_plugins_come_before_bundled_ones() {
    assert_eq!(
        loaded(
            vec![complete("/u", "rust"), complete("/u", "go")],
            vec![
                complete("/b", "c"),
                complete("/b", "go"),
                complete("/b", "Rust"),
                complete("/b", "rust"),
            ],
        ),
        pairs(&[
            ("/u/rust", "/u/rust"),
            ("/u/go", "/u/go"),
            ("/b/c", "/b/c"),
            ("/b/Rust", "/b/Rust"),
        ])
    );
}

#[test]
fn one_place_can_be_empty() {
    assert_eq!(
        loaded(vec![], vec![complete("/b", "c"), complete("/b", "d")]),
        pairs(&[("/b/c", "/b/c"), ("/b/d", "/b/d")])
    );
    // Every user directory is looked at, whatever it holds.
    assert_eq!(
        loaded(
            vec![
                complete("/u", "c"),
                entry("/u", "d", false, true),
                entry("/u", "e", false, false),
            ],
            vec![]
        ),
        pairs(&[("/u/c", "/u/c"), ("/u/d", "/u/d"), ("/u/e", "/u/e")])
    );
    assert_eq!(loaded(vec![], vec![]), pairs(&[]));
}

#[test]
fn copied_grammar_does_not_hide_a_bundled_plugin() {
    assert_eq!(
        loaded(
            vec![entry("/u", "c", false, true)],
            vec![complete("/b", "c")]
        ),
        pairs(&[("/b/c", "/b/c")])
    );
}

#[test]
fn incomplete_bundled_plugins_are_passed_over() {
    // No grammar anywhere, or no manifest.
    assert_eq!(
        loaded(
            vec![],
            vec![
                entry("/b", "c", true, false),
                entry("/b", "d", false, true),
                entry("/b", "e", false, false),
            ]
        ),
        pairs(&[])
    );
    // A user directory of that name is then looked at again.
    assert_eq!(
        loaded(
            vec![entry("/u", "c", false, false)],
            vec![entry("/b", "c", true, false)]
        ),
        pairs(&[("/u/c", "/u/c")])
    );
}

#[test]
fn grammars_are_searched_in_both_places() {
    // The user's manifest with the bundled grammar.
    assert_eq!(
        loaded(
            vec![entry("/u", "c", true, false)],
            vec![entry("/b", "c", true, true)]
        ),
        pairs(&[("/u/c", "/b/c")])
    );
    // The bundled manifest with the user's grammar.
    assert_eq!(
        loaded(
            vec![entry("/u", "c", false, true)],
            vec![entry("/b", "c", true, false)]
        ),
        pairs(&[("/b/c", "/u/c")])
    );
    // None in either place, or only under another name.
    assert_eq!(
        loaded(
            vec![entry("/u", "c", true, false)],
            vec![entry("/b", "d", false, true)]
        ),
        pairs(&[("/u/c", "/u/c")])
    );
}
