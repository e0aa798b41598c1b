use sentrux_core::checksum::{
    check_digest, expected_checksum, platform_key, verify_checksum,
};
use sentrux_core::grammar::{
    check_abi, check_compiled, check_compiled_for, check_grammar, check_query, compile_flat_query,
    grammar_function, is_flat, library_error, symbol_error, symbol_name, MAX_FLAT_LEN,
};
use sentrux_core::loader::{
    check_min_version, grammar_copy, load_all_plugins, should_copy, start, step, EntryOutcome,
    LoadEvent, LoadRequest, LoadState, LoadedPlugin,
};
use sentrux_core::manifest::{Checksums, GrammarInfo, PluginInfo, PluginManifest};
use sentrux_core::paths::{
    bundled_plugins_dir, grammar_path, manifest_path, plugins_dir, plugins_dir_in, query_path,
};
use std::path::PathBuf;
use tree_sitter::Language;

const ABC_SHA256: &str = "ba7816bf8f01cfea414140de5dae2223b00361a396177a9cb410ff61f20015ad";

type Manifest = PluginManifest<u8, &'static str>;
type State = LoadState<u8, &'static str>;
type Event = LoadEvent<u8, &'static str>;

fn json() -> Language {
    tree_sitter_json::LANGUAGE.into()
}

fn manifest() -> Manifest {
    PluginManifest {
        plugin: PluginInfo {
            name: "json".to_string(),
            display_name: "JSON".to_string(),
            version: "1.2.3".to_string(),
            extensions: vec!["json".to_string(), "jsonc".to_string()],
            min_sentrux_version: Some("0.5.0".to_string()),
            color_rgb: None,
        },
        grammar: GrammarInfo {
            symbol_name: None,
            abi_version: 13,
        },
        semantics: 7,
        thresholds: "strict",
        checksums: Checksums::new(),
    }
}

fn manifest_with_checksum(checksum: &str) -> Manifest {
    let mut m = manifest();
    m.checksums
        .insert("linux-x86_64".to_string(), checksum.to_string());
    m
}

fn request() -> LoadRequest {
    LoadRequest {
        plugin_dir: PathBuf::from("/plugins/json"),
        grammar_home: PathBuf::from("/plugins/json"),
        grammar_file: "linux-x86_64.so".to_string(),
        current_version: "0.5.7".to_string(),
    }
}

fn after(state: State, events: Vec<Event>) -> State {
    let mut state = state;
    for event in events {
        state = step(state, event);
    }
    state
}

fn error_of(state: State) -> String {
    match state {
        LoadState::Refused { error } => error,
        _ => panic!("not refused"),
    }
}

fn good_until_grammar_file(m: Manifest) -> Vec<Event> {
    vec![
        LoadEvent::Manifest(Ok(m)),
        LoadEvent::Query(Ok("(string) @s".to_string())),
        LoadEvent::Captures(Ok(())),
    ]
}

fn loaded_json() -> LoadedPlugin<u8, &'static str> {
    let mut events = good_until_grammar_file(manifest());
    events.push(LoadEvent::GrammarFile(true));
    events.push(LoadEvent::Grammar(Ok(json())));
    match after(start(request()), events) {
        LoadState::Loaded { plugin } => plugin,
        _ => panic!("not loaded"),
    }
}

#[test]
fn test_plugins_dir() {
    let dir = plugins_dir();
    assert!(dir.is_some());
    assert!(dir.unwrap().ends_with(".sentrux/plugins"));
}

#[test]
fn test_load_nonexistent_dir() {
    // A plugins directory that does not exist has no entries.
    let (loaded, errors) = load_all_plugins::<u8, u8>(Vec::new());
    assert!(loaded.is_empty());
    assert!(errors.is_empty());
}

#[test]
fn directories_are_laid_out() {
    assert_eq!(
        plugins_dir_in(Some(PathBuf::from("/home/u"))),
        Some(PathBuf::from("/home/u/.sentrux/plugins"))
    );
    assert_eq!(plugins_dir_in(None), None);
    assert_eq!(
        bundled_plugins_dir(Some(PathBuf::from("/opt/sentrux"))),
        Some(PathBuf::from("/opt/sentrux/plugins"))
    );
    assert_eq!(bundled_plugins_dir(None), None);
    let dir = PathBuf::from("/p/rust");
    assert_eq!(manifest_path(&dir), PathBuf::from("/p/rust/plugin.toml"));
    assert_eq!(query_path(&dir), PathBuf::from("/p/rust/queries/tags.scm"));
    assert_eq!(
        grammar_path(&dir, "linux-x86_64.so"),
        PathBuf::from("/p/rust/grammars/linux-x86_64.so")
    );
}

#[test]
fn bundled_grammars_are_copied_once() {
    let copy = grammar_copy(
        &PathBuf::from("/opt/plugins/rust"),
        &PathBuf::from("/home/u/.sentrux/plugins"),
        "rust",
        "darwin-arm64.dylib",
    );
    assert_eq!(
        copy.from,
        PathBuf::from("/opt/plugins/rust/grammars/darwin-arm64.dylib")
    );
    assert_eq!(
        copy.dir,
        PathBuf::from("/home/u/.sentrux/plugins/rust/grammars")
    );
    assert_eq!(
        copy.to,
        PathBuf::from("/home/u/.sentrux/plugins/rust/grammars/darwin-arm64.dylib")
    );
    assert_eq!(copy.to, copy.dir.join("darwin-arm64.dylib"));
    assert!(should_copy(true, false));
    assert!(!should_copy(true, true));
    assert!(!should_copy(false, false));
    assert!(!should_copy(false, true));
}

#[test]
fn platform_is_the_file_without_its_extension() {
    assert_eq!(platform_key("darwin-arm64.dylib"), "darwin-arm64");
    assert_eq!(platform_key("a.b.so"), "a.b");
    assert_eq!(platform_key(".so"), "");
    assert_eq!(platform_key("windows"), "windows");
}

#[test]
fn checksums_are_kept_by_platform() {
    let mut c = Checksums::new();
    assert!(c.get("linux").is_none());
    c.insert("linux".to_string(), "1".to_string());
    c.insert("darwin".to_string(), "2".to_string());
    assert_eq!(c.get("linux"), Some(&"1".to_string()));
    c.insert("linux".to_string(), "3".to_string());
    assert_eq!(c.get("linux"), Some(&"3".to_string()));
    assert_eq!(c.get("darwin"), Some(&"2".to_string()));
    assert!(c.get("windows").is_none());
}

#[test]
fn checksum_of_the_grammar_is_verified() {
    let path = PathBuf::from("/g/linux-x86_64.so");
    let file = "linux-x86_64.so";
    assert_eq!(
        verify_checksum(&manifest_with_checksum(ABC_SHA256), &path, file, b"abc"),
        Ok(())
    );
    // The case of the checksum does not matter.
    let upper = ABC_SHA256.to_uppercase();
    assert_eq!(
        verify_checksum(&manifest_with_checksum(&upper), &path, file, b"abc"),
        Ok(())
    );
    assert_eq!(
        verify_checksum(&manifest_with_checksum("00"), &path, file, b"abc"),
        Err(format!(
            "Checksum mismatch for /g/linux-x86_64.so: expected 00, got {}",
            ABC_SHA256
        ))
    );
    assert!(verify_checksum(&manifest_with_checksum(ABC_SHA256), &path, file, b"abd").is_err());
    // A checksum of the wrong length is never right.
    for wrong in ["", "ba", &ABC_SHA256[..63], &format!("{}0", ABC_SHA256)] {
        assert!(
            verify_checksum(&manifest_with_checksum(wrong), &path, file, b"abc").is_err(),
            "{}",
            wrong
        );
    }
    assert!(verify_checksum(&manifest_with_checksum(""), &path, file, b"").is_err());
    // No checksum for the platform: nothing to verify.
    assert_eq!(
        verify_checksum(&manifest(), &path, file, b"anything"),
        Ok(())
    );
    assert_eq!(
        verify_checksum(&manifest_with_checksum("00"), &path, "other.so", b"abc"),
        Ok(())
    );
    assert_eq!(
        expected_checksum(&manifest_with_checksum("00"), file),
        Some(&"00".to_string())
    );
    assert_eq!(expected_checksum(&manifest(), file), None);
}

#[test]
fn digest_is_compared_in_hexadecimal() {
    let path = PathBuf::from("g.so");
    assert_eq!(check_digest(&path, "00ff1A", &[0, 255, 26]), Ok(()));
    assert_eq!(
        check_digest(&path, "00ff1b", &[0, 255, 26]),
        Err("Checksum mismatch for g.so: expected 00ff1b, got 00ff1a".to_string())
    );
    assert!(check_digest(&path, "00ff1", &[0, 255, 26]).is_err());
    assert!(check_digest(&path, "", &[]).is_ok());
}

#[test]
fn grammar_symbols_follow_the_convention() {
    let mut m = manifest();
    assert_eq!(symbol_name(&m), "json");
    m.grammar.symbol_name = Some("json5".to_string());
    assert_eq!(symbol_name(&m), "json5");
    assert_eq!(grammar_function("json5"), "tree_sitter_json5");
    let path = PathBuf::from("/g/x.so");
    assert_eq!(
        library_error(&path, "no such file"),
        "Failed to load /g/x.so: no such file"
    );
    assert_eq!(
        symbol_error(&path, "json", "undefined"),
        "Symbol 'tree_sitter_json' not found in /g/x.so: undefined. \
         The grammar must export tree_sitter_json()."
    );
}

#[test]
fn grammar_has_to_be_new_enough() {
    assert_eq!(check_abi(14, 14), Ok(()));
    assert_eq!(check_abi(15, 14), Ok(()));
    assert_eq!(
        check_abi(9, 105),
        Err("Grammar ABI version 9 < required 105".to_string())
    );
    let abi = json().abi_version();
    assert_eq!(
        check_grammar(&json(), "(string) @s", abi as u32),
        Some(Ok(()))
    );
    let too_old = format!("Grammar ABI version {} < required {}", abi, abi + 1);
    assert_eq!(
        check_grammar(&json(), "(string) @s", abi as u32 + 1),
        Some(Err(too_old.clone()))
    );
    // An old grammar is refused whatever the query is.
    assert_eq!(
        check_grammar(&json(), "(pair (string) @s)", abi as u32 + 1),
        Some(Err(too_old))
    );
}

#[test]
fn query_has_to_compile() {
    assert_eq!(check_query(Ok(())), Ok(()));
    assert_eq!(
        check_query(Err("why".to_string())),
        Err("Query compilation failed: why".to_string())
    );
    let e = check_grammar(&json(), "(no_such_node) @s", 0)
        .unwrap()
        .unwrap_err();
    assert!(e.starts_with("Query compilation failed: QueryError {"), "{}", e);
    assert!(e.contains("no_such_node"), "{}", e);
    for bad in ["(string", "string)", "()", "@s", "(string) @", "s"] {
        assert!(check_grammar(&json(), bad, 0).unwrap().is_err(), "{}", bad);
    }
    for good in ["", " \t\r\n", "(_)", "_ @x", "(ERROR) @e", "(string) @a.b-c_1\n(number) @n"] {
        assert_eq!(check_grammar(&json(), good, 0), Some(Ok(())), "{}", good);
    }
}

#[test]
fn only_flat_queries_are_compiled() {
    for other in [
        "(pair (string) @s)",
        "( string)",
        "(string)*",
        "[(string) (number)]",
        "(#eq? @a @b)",
        "(.eq)",
        "key: (string)",
        "\"{\"",
        "; comment",
        "(a, b)",
        "(é)",
        "(string) .",
    ] {
        assert!(!is_flat(other), "{}", other);
        assert_eq!(compile_flat_query(&json(), other), None);
        assert_eq!(check_grammar(&json(), other, 0), None);
    }
    assert!(is_flat("(a.b) @c.d (e)"));
    assert_eq!(compile_flat_query(&json(), "(string) @s"), Some(Ok(())));
    let longest = "(string) ".repeat(MAX_FLAT_LEN / 9 + 1)[..MAX_FLAT_LEN].to_string();
    assert!(is_flat(&longest));
    assert!(compile_flat_query(&json(), &longest).unwrap().is_err());
    let mut whole = "(string)@s".repeat(MAX_FLAT_LEN / 10);
    assert_eq!(compile_flat_query(&json(), &whole), Some(Ok(())));
    whole.push_str("     ");
    assert!(!is_flat(&whole));
}

#[test]
fn compiled_query_is_judged_after_the_version() {
    assert_eq!(check_compiled(14, 14, Ok(())), Ok(()));
    assert_eq!(
        check_compiled(14, 14, Err("why".to_string())),
        Err("Query compilation failed: why".to_string())
    );
    for compiled in [Ok(()), Err("why".to_string())] {
        assert_eq!(
            check_compiled(13, 14, compiled),
            Err("Grammar ABI version 13 < required 14".to_string())
        );
    }
    assert_eq!(check_compiled_for(&json(), 0, Ok(())), Ok(()));
    assert_eq!(
        check_compiled_for(&json(), 0, Err("why".to_string())),
        Err("Query compilation failed: why".to_string())
    );
    assert_eq!(
        check_compiled_for(&json(), 1000, Ok(())),
        Err(format!(
            "Grammar ABI version {} < required 1000",
            json().abi_version()
        ))
    );
}

fn waiting_for_compiled_query() -> State {
    let query = "(pair key: (string) @k)";
    let state = after(
        start(request()),
        vec![
            LoadEvent::Manifest(Ok(manifest())),
            LoadEvent::Query(Ok(query.to_string())),
            LoadEvent::Captures(Ok(())),
            LoadEvent::GrammarFile(true),
            LoadEvent::Grammar(Ok(json())),
        ],
    );
    match &state {
        LoadState::NeedCompiledQuery {
            query_src, grammar, ..
        } => {
            assert_eq!(query_src, query);
            assert_eq!(grammar, &json());
        }
        _ => panic!("the compiled query has to be asked for"),
    }
    state
}

#[test]
fn plugin_with_nested_query_is_loaded() {
    match step(waiting_for_compiled_query(), LoadEvent::CompiledQuery(Ok(()))) {
        LoadState::Loaded { plugin } => {
            assert_eq!(plugin.name, "json");
            assert_eq!(plugin.query_src, "(pair key: (string) @k)");
            assert_eq!(plugin.grammar, json());
        }
        _ => panic!("not loaded"),
    }
}

#[test]
fn nested_query_has_to_compile() {
    let s = step(
        waiting_for_compiled_query(),
        LoadEvent::CompiledQuery(Err("bad field".to_string())),
    );
    assert_eq!(error_of(s), "Query compilation failed: bad field");
}

#[test]
fn grammar_can_lie_elsewhere() {
    let mut r = request();
    r.grammar_home = PathBuf::from("/opt/plugins/json");
    match after(start(r), good_until_grammar_file(manifest())) {
        LoadState::NeedGrammarFile { path, .. } => assert_eq!(
            path,
            PathBuf::from("/opt/plugins/json/grammars/linux-x86_64.so")
        ),
        _ => panic!("the grammar has to be asked for"),
    }
}

#[test]
fn host_version_is_checked() {
    assert_eq!(check_min_version("p", &None, "anything"), Ok(()));
    assert_eq!(
        check_min_version("p", &Some("0.5.7".to_string()), "0.5.7"),
        Ok(())
    );
    assert_eq!(
        check_min_version("p", &Some("0.6".to_string()), "0.5.7"),
        Err("Plugin 'p' requires sentrux >= 0.6, but this build is 0.5.7".to_string())
    );
    assert_eq!(
        check_min_version("p", &Some("x".to_string()), "0.5.7"),
        Err(
            "Plugin 'p' has invalid min_sentrux_version 'x': invalid version component 'x'"
                .to_string()
        )
    );
}

#[test]
fn plugin_without_checksum_is_loaded() {
    let p = loaded_json();
    assert_eq!(p.name, "json");
    assert_eq!(p.display_name, "JSON");
    assert_eq!(p.version, "1.2.3");
    assert_eq!(p.extensions, vec!["json".to_string(), "jsonc".to_string()]);
    assert_eq!(p.grammar, json());
    assert_eq!(p.query_src, "(string) @s");
    assert_eq!(p.profile.name, "json");
    assert_eq!(p.profile.semantics, 7);
    assert_eq!(p.profile.thresholds, "strict");
    assert_eq!(p.profile.color_rgb, [80, 85, 90]);
}

#[test]
fn plugin_with_the_right_checksum_is_loaded() {
    let mut m = manifest_with_checksum(ABC_SHA256);
    m.plugin.color_rgb = Some([1, 2, 3]);
    m.plugin.min_sentrux_version = None;
    let mut events = good_until_grammar_file(m);
    events.push(LoadEvent::GrammarFile(true));
    let state = after(start(request()), events);
    match &state {
        LoadState::NeedGrammarBytes { path, .. } => assert_eq!(
            path,
            &PathBuf::from("/plugins/json/grammars/linux-x86_64.so")
        ),
        _ => panic!("the bytes have to be asked for"),
    }
    let state = step(state, LoadEvent::GrammarBytes(Ok(b"abc".to_vec())));
    match &state {
        LoadState::NeedGrammar { path, .. } => assert_eq!(
            path,
            &PathBuf::from("/plugins/json/grammars/linux-x86_64.so")
        ),
        _ => panic!("the grammar has to be asked for"),
    }
    match step(state, LoadEvent::Grammar(Ok(json()))) {
        LoadState::Loaded { plugin } => assert_eq!(plugin.profile.color_rgb, [1, 2, 3]),
        _ => panic!("not loaded"),
    }
}

#[test]
fn manifest_errors_are_passed_on() {
    let s = after(
        start(request()),
        vec![LoadEvent::Manifest(Err("no manifest".to_string()))],
    );
    assert_eq!(error_of(s), "no manifest");
}

#[test]
fn unsuitable_plugin_is_refused_first() {
    let mut m = manifest();
    m.plugin.min_sentrux_version = Some("0.6.0".to_string());
    let s = after(start(request()), vec![LoadEvent::Manifest(Ok(m))]);
    assert_eq!(
        error_of(s),
        "Plugin 'json' requires sentrux >= 0.6.0, but this build is 0.5.7"
    );
}

#[test]
fn unreadable_query_is_refused() {
    let s = after(
        start(request()),
        vec![
            LoadEvent::Manifest(Ok(manifest())),
            LoadEvent::Query(Err("denied".to_string())),
        ],
    );
    assert_eq!(
        error_of(s),
        "Failed to read /plugins/json/queries/tags.scm: denied"
    );
}

#[test]
fn wrong_captures_are_refused() {
    let s = after(
        start(request()),
        vec![
            LoadEvent::Manifest(Ok(manifest())),
            LoadEvent::Query(Ok("q".to_string())),
            LoadEvent::Captures(Err("missing capture".to_string())),
        ],
    );
    assert_eq!(error_of(s), "missing capture");
}

#[test]
fn unsupported_platform_is_refused() {
    let mut r = request();
    r.grammar_file = "unsupported".to_string();
    let s = after(start(r), good_until_grammar_file(manifest()));
    assert_eq!(
        error_of(s),
        "Unsupported platform for runtime grammar loading"
    );
}

#[test]
fn missing_grammar_is_refused() {
    let mut events = good_until_grammar_file(manifest());
    events.push(LoadEvent::GrammarFile(false));
    assert_eq!(
        error_of(after(start(request()), events)),
        "Grammar binary not found: /plugins/json/grammars/linux-x86_64.so. \
         Build it for this platform."
    );
}

#[test]
fn tampered_grammar_is_refused_before_it_is_opened() {
    let mut events = good_until_grammar_file(manifest_with_checksum(ABC_SHA256));
    events.push(LoadEvent::GrammarFile(true));
    events.push(LoadEvent::GrammarBytes(Ok(b"abd".to_vec())));
    let e = error_of(after(start(request()), events));
    assert!(e.starts_with(
        "Checksum mismatch for /plugins/json/grammars/linux-x86_64.so: expected ba7816bf"
    ));
}

#[test]
fn unreadable_grammar_is_refused() {
    let mut events = good_until_grammar_file(manifest_with_checksum(ABC_SHA256));
    events.push(LoadEvent::GrammarFile(true));
    events.push(LoadEvent::GrammarBytes(Err("denied".to_string())));
    assert_eq!(
        error_of(after(start(request()), events)),
        "Failed to read grammar for checksum: denied"
    );
}

#[test]
fn grammar_errors_are_passed_on() {
    let mut events = good_until_grammar_file(manifest());
    events.push(LoadEvent::GrammarFile(true));
    events.push(LoadEvent::Grammar(Err("cannot open".to_string())));
    assert_eq!(error_of(after(start(request()), events)), "cannot open");

    let mut m = manifest();
    m.grammar.abi_version = 1000;
    let mut events = good_until_grammar_file(m);
    events.push(LoadEvent::GrammarFile(true));
    events.push(LoadEvent::Grammar(Ok(json())));
    assert_eq!(
        error_of(after(start(request()), events)),
        format!(
            "Grammar ABI version {} < required 1000",
            json().abi_version()
        )
    );
}

#[test]
fn refused_plugins_do_not_stop_the_others() {
    let (loaded, errors) = load_all_plugins(vec![
        (
            PathBuf::from("/plugins/bad"),
            EntryOutcome::Refused("broken".to_string()),
        ),
        (PathBuf::from("/plugins/readme"), EntryOutcome::NotADirectory),
        (
            PathBuf::from("/plugins/json"),
            EntryOutcome::Loaded(loaded_json()),
        ),
        (
            PathBuf::from("/plugins/worse"),
            EntryOutcome::Refused("lost".to_string()),
        ),
    ]);
    assert_eq!(loaded.len(), 1);
    assert_eq!(loaded[0].name, "json");
    assert_eq!(errors.len(), 2);
    assert_eq!(errors[0].plugin_dir, PathBuf::from("/plugins/bad"));
    assert_eq!(errors[0].error, "broken");
    assert_eq!(errors[1].plugin_dir, PathBuf::from("/plugins/worse"));
    assert_eq!(errors[1].error, "lost");
}
