//! Tree-sitter grammars: the symbol that a grammar library exports, the ABI
//! version that a grammar has, and the queries that are compiled against it.

use vstd::prelude::*;

use crate::manifest::PluginManifest;
use crate::paths;
use crate::paths::display_path;
use crate::text;
use crate::text::{characters, decimal_text};
use std::path::PathBuf;
use tree_sitter::{Language, Query};

verus! {

/// `tree_sitter::Language`, a grammar.
#[verifier::external_type_specification]
#[verifier::external_body]
pub struct ExLanguage(tree_sitter::Language);

/// The ABI version of a grammar.
pub uninterp spec fn abi_of(grammar: Language) -> usize;

/// What is wrong with a flat query for a grammar, in words; `None` if it
/// compiles.
pub uninterp spec fn query_defect(grammar: Language, query: Seq<char>) -> Option<Seq<char>>;

/// The length up to which a query can be flat.
pub const MAX_FLAT_LEN: usize = 16384;

/// A character of the names of nodes and captures.
pub open spec fn is_word_char(c: char) -> bool {
    'a' <= c <= 'z' || 'A' <= c <= 'Z' || '0' <= c <= '9' || c == '_' || c == '-' || c == '.'
}

/// White space between the parts of a query.
pub open spec fn is_blank(c: char) -> bool {
    c == ' ' || c == '\t' || c == '\n' || c == '\r'
}

/// A parenthesis is open at the end of `s`.
pub open spec fn ends_open(s: Seq<char>) -> bool
    decreases s.len(),
{
    if s.len() == 0 || s.last() == ')' {
        false
    } else if s.last() == '(' {
        true
    } else {
        ends_open(s.drop_last())
    }
}

/// `c` can follow `s` in a flat query. Parentheses hold a name and nothing
/// else, and no name starts with a dot.
pub open spec fn can_follow(s: Seq<char>, c: char) -> bool {
    &&& c == '.' ==> s.len() > 0 && is_word_char(s.last())
    &&& is_word_char(c) || c == ')' || (!ends_open(s) && (c == '(' || c == '@' || is_blank(c)))
}

/// A short list of bare nodes and captures, such as `(string) @s (number) @n`:
/// no nodes within nodes, no alternations, quantifiers, predicates, strings or
/// comments.
pub open spec fn is_flat_query(query: Seq<char>) -> bool {
    &&& query.len() <= MAX_FLAT_LEN
    &&& forall|i: int|
        #![trigger query[i]]
        0 <= i < query.len() ==> can_follow(query.take(i), query[i])
}

/// Whether a query is flat.
pub fn is_flat(query: &str) -> (b: bool)
    ensures
        b == is_flat_query(query@),
{
    let chars = characters(query);
    if chars.len() > MAX_FLAT_LEN {
        return false;
    }
    let mut open: bool = false;
    let mut after_word: bool = false;
    let mut i: usize = 0;
    while i < chars.len()
        invariant
            chars@ == query@,
            i <= chars@.len() <= MAX_FLAT_LEN,
            open == ends_open(query@.take(i as int)),
            after_word == (i > 0 && is_word_char(query@[i - 1])),
            forall|j: int|
                #![trigger query@[j]]
                0 <= j < i ==> can_follow(query@.take(j), query@[j]),
        decreases chars@.len() - i,
    {
        let c = chars[i];
        let word: bool = ('a' <= c && c <= 'z') || ('A' <= c && c <= 'Z') || ('0' <= c && c <= '9')
            || c == '_' || c == '-' || c == '.';
        let blank: bool = c == ' ' || c == '\t' || c == '\n' || c == '\r';
        let fits: bool = (c != '.' || after_word) && (word || c == ')' || (!open && (c == '(' || c
            == '@' || blank)));
        assert(fits == can_follow(query@.take(i as int), query@[i as int]));
        if !fits {
            return false;
        }
        assert(query@.take(i + 1).drop_last() =~= query@.take(i as int));
        if c == '(' {
            open = true;
        } else if c == ')' {
            open = false;
        }
        after_word = word;
        i = i + 1;
    }
    true
}

/// `Language::abi_version` reads the ABI version out of the grammar.
#[verifier::external_body]
fn abi_version(grammar: &Language) -> (abi: usize)
    ensures
        abi == abi_of(*grammar),
{
    grammar.abi_version()
}

/// `Query::new` compiles a query for a grammar, or says what is wrong with it.
/// For a flat query, which is plain ASCII, that depends on the grammar and the
/// text of the query alone. The error is given as its debugging text.
///
/// Other queries are left out. What is made of text beyond ASCII depends on the
/// locale. Among queries with children, quantifiers or predicates there are
/// some on which the call does not return, such as `(a)*+`; with children it
/// can depend on the grammar which ones.
#[verifier::external_body]
fn compile_query(grammar: &Language, query: &str) -> (r: Result<(), String>)
    requires
        is_flat_query(query@),
    ensures
        r is Ok <==> query_defect(*grammar, query@) is None,
        r matches Err(e) ==> query_defect(*grammar, query@) == Some(e@),
{
    match Query::new(grammar, query) {
        Ok(_) => Ok(()),
        Err(e) => Err(format!("{:?}", e)),
    }
}

/// Compiles a query for a grammar if it is flat.
pub fn compile_flat_query(grammar: &Language, query: &str) -> (r: Option<Result<(), String>>)
    ensures
        r is Some <==> is_flat_query(query@),
        r matches Some(compiled) ==> defect_of(compiled) == query_defect(*grammar, query@),
{
    if is_flat(query) {
        Some(compile_query(grammar, query))
    } else {
        None
    }
}

/// The name in the symbol that the plugin's grammar library exports: the one
/// that the manifest gives, or else the plugin's name.
pub open spec fn symbol_of<S, T>(manifest: PluginManifest<S, T>) -> Seq<char> {
    match manifest.grammar.symbol_name {
        Some(n) => n@,
        None => manifest.plugin.name@,
    }
}

/// The name in the symbol that the plugin's grammar library exports.
pub fn symbol_name<S, T>(manifest: &PluginManifest<S, T>) -> (name: &str)
    ensures
        name@ == symbol_of(*manifest),
{
    match &manifest.grammar.symbol_name {
        Some(n) => n.as_str(),
        None => manifest.plugin.name.as_str(),
    }
}

/// The function that the grammar library for `lang_name` exports, by the
/// convention of tree-sitter.
pub fn grammar_function(lang_name: &str) -> (name: String)
    ensures
        name@ == "tree_sitter_"@ + lang_name@,
{
    let mut name: String = String::new();
    name.append("tree_sitter_");
    name.append(lang_name);
    assert(name@ =~= "tree_sitter_"@ + lang_name@);
    name
}

/// The complaint that the library at `path` could not be opened.
pub fn library_error(path: &PathBuf, error: &str) -> (e: String)
    ensures
        e@ == "Failed to load "@ + paths::path_text(*path) + ": "@ + error@,
{
    let mut e: String = String::new();
    e.append("Failed to load ");
    e.append(display_path(path).as_str());
    e.append(": ");
    e.append(error);
    assert(e@ =~= "Failed to load "@ + paths::path_text(*path) + ": "@ + error@);
    e
}

/// The complaint that the library at `path` does not export the function for
/// `lang_name`.
pub fn symbol_error(path: &PathBuf, lang_name: &str, error: &str) -> (e: String)
    ensures
        e@ == "Symbol 'tree_sitter_"@ + lang_name@ + "' not found in "@ + paths::path_text(*path)
            + ": "@ + error@ + ". The grammar must export tree_sitter_"@ + lang_name@ + "()."@,
{
    let mut e: String = String::new();
    e.append("Symbol 'tree_sitter_");
    e.append(lang_name);
    e.append("' not found in ");
    e.append(display_path(path).as_str());
    e.append(": ");
    e.append(error);
    e.append(". The grammar must export tree_sitter_");
    e.append(lang_name);
    e.append("().");
    assert(e@ =~= "Symbol 'tree_sitter_"@ + lang_name@ + "' not found in "@ + paths::path_text(
        *path,
    ) + ": "@ + error@ + ". The grammar must export tree_sitter_"@ + lang_name@ + "()."@);
    e
}

/// The complaint that a grammar is older than the plugin needs.
pub open spec fn abi_error(abi: usize, required: u32) -> Seq<char> {
    "Grammar ABI version "@ + text::decimal(abi as nat) + " < required "@ + text::decimal(
        required as nat,
    )
}

/// The complaint about a query that does not compile.
pub open spec fn query_error(defect: Seq<char>) -> Seq<char> {
    "Query compilation failed: "@ + defect
}

/// What the compilation of a query found wrong with it.
pub open spec fn defect_of(compiled: Result<(), String>) -> Option<Seq<char>> {
    match compiled {
        Ok(()) => None,
        Err(d) => Some(d@),
    }
}

/// What is wrong with a grammar of version `abi` and a query with this defect,
/// for a plugin that needs version `required`: first that the grammar is too
/// old, then that the query does not compile.
pub open spec fn grammar_error(abi: usize, required: u32, defect: Option<Seq<char>>) -> Option<
    Seq<char>,
> {
    if abi < required {
        Some(abi_error(abi, required))
    } else {
        match defect {
            Some(d) => Some(query_error(d)),
            None => None,
        }
    }
}

/// Verifies an ABI version.
pub fn check_abi(abi: usize, required: u32) -> (r: Result<(), String>)
    ensures
        r is Ok <==> abi >= required,
        r matches Err(e) ==> e@ == abi_error(abi, required),
{
    if abi < required as usize {
        let mut e: String = String::new();
        e.append("Grammar ABI version ");
        e.append(decimal_text(abi as u64).as_str());
        e.append(" < required ");
        e.append(decimal_text(required as u64).as_str());
        assert(e@ =~= abi_error(abi, required));
        Err(e)
    } else {
        Ok(())
    }
}

/// Verifies what the compilation of a query came to.
pub fn check_query(compiled: Result<(), String>) -> (r: Result<(), String>)
    ensures
        r is Ok <==> compiled is Ok,
        r matches Err(e) ==> e@ == query_error(compiled->Err_0@),
{
    match compiled {
        Ok(()) => Ok(()),
        Err(defect) => {
            let mut e: String = String::new();
            e.append("Query compilation failed: ");
            e.append(defect.as_str());
            assert(e@ =~= query_error(defect@));
            Err(e)
        },
    }
}

/// Verifies an ABI version and what the compilation of a query came to.
pub fn check_compiled(abi: usize, required: u32, compiled: Result<(), String>) -> (r: Result<
    (),
    String,
>)
    ensures
        defect_of(r) == grammar_error(abi, required, defect_of(compiled)),
{
    check_abi(abi, required)?;
    check_query(compiled)
}

/// Verifies the ABI version of a grammar and what the compilation of a query
/// for it came to.
pub fn check_compiled_for(grammar: &Language, required: u32, compiled: Result<(), String>) -> (r:
    Result<(), String>)
    ensures
        defect_of(r) == grammar_error(abi_of(*grammar), required, defect_of(compiled)),
{
    check_compiled(abi_version(grammar), required, compiled)
}

/// Verifies the ABI version of a grammar and test-compiles a flat query, to
/// catch errors early. `None` if the grammar is new enough and the query is not
/// flat, so that it still has to be compiled.
pub fn check_grammar(grammar: &Language, query: &str, required: u32) -> (r: Option<
    Result<(), String>,
>)
    ensures
        r is None <==> abi_of(*grammar) >= required && !is_flat_query(query@),
        r matches Some(checked) ==> defect_of(checked) == grammar_error(
            abi_of(*grammar),
            required,
            query_defect(*grammar, query@),
        ),
{
    let abi = abi_version(grammar);
    match check_abi(abi, required) {
        Err(e) => Some(Err(e)),
        Ok(()) => match compile_flat_query(grammar, query) {
            Some(compiled) => Some(check_compiled(abi, required, compiled)),
            None => None,
        },
    }
}

// ---------------------------------------------------------------------------
// Laws
// ---------------------------------------------------------------------------
proof fn lemma_word_chars(c: char)
    ensures
        is_word_char(c) <==> "abcdefghijklmnopqrstuvwxyzABCDEFGHIJKLMNOPQRSTUVWXYZ0123456789_-."@.contains(c),
{
    reveal_strlit("abcdefghijklmnopqrstuvwxyzABCDEFGHIJKLMNOPQRSTUVWXYZ0123456789_-.");
    let all = "abcdefghijklmnopqrstuvwxyzABCDEFGHIJKLMNOPQRSTUVWXYZ0123456789_-."@;
    assert(all.len() == 65);
    if is_word_char(c) {
        let k: int = if 'a' <= c <= 'z' {
            c as int - 97
        } else if 'A' <= c <= 'Z' {
            c as int - 65 + 26
        } else if '0' <= c <= '9' {
            c as int - 48 + 52
        } else if c == '_' {
            62
        } else if c == '-' {
            63
        } else {
            64
        };
        assert(all[k] as int == c as int);
        assert(all[k] == c);
    }
    if all.contains(c) {
        let k = choose|k: int| 0 <= k < all.len() && all[k] == c;
        assert(all[k] as int == (if k < 26 {
            97 + k
        } else if k < 52 {
            65 + k - 26
        } else if k < 62 {
            48 + k - 52
        } else {
            all[k] as int
        }));
    }
}

proof fn lemma_ends_open(s: Seq<char>)
    ensures
        ends_open(s) <==> exists|i: int|
            0 <= i < s.len() && #[trigger] s[i] == '(' && !s.skip(i).contains(')'),
    decreases s.len(),
{
    if s.len() > 0 {
        let init = s.drop_last();
        let last = s.len() - 1;
        lemma_ends_open(init);
        if s.last() == '(' {
            assert(s[last] == '(');
            assert(s.skip(last) =~= seq!['(']);
        } else if s.last() == ')' {
            assert forall|i: int| 0 <= i < s.len() && #[trigger] s[i] == '(' implies s.skip(
                i,
            ).contains(')') by {
                assert(s.skip(i)[last - i] == ')');
            }
        } else {
            assert forall|i: int| 0 <= i < init.len() implies (#[trigger] init.skip(i).contains(
                ')',
            ) <==> s.skip(i).contains(')')) by {
                if init.skip(i).contains(')') {
                    let k = choose|k: int| 0 <= k < init.skip(i).len() && init.skip(i)[k] == ')';
                    assert(s.skip(i)[k] == ')');
                }
                if s.skip(i).contains(')') {
                    let k = choose|k: int| 0 <= k < s.skip(i).len() && s.skip(i)[k] == ')';
                    assert(i + k != last);
                    assert(init.skip(i)[k] == ')');
                }
            }
            if ends_open(init) {
                let i = choose|i: int|
                    0 <= i < init.len() && #[trigger] init[i] == '(' && !init.skip(i).contains(
                        ')',
                    );
                assert(s[i] == '(');
            }
            if exists|i: int|
                0 <= i < s.len() && #[trigger] s[i] == '(' && !s.skip(i).contains(')') {
                let i = choose|i: int|
                    0 <= i < s.len() && #[trigger] s[i] == '(' && !s.skip(i).contains(')');
                assert(init[i] == '(');
            }
        }
    }
}

/// A query is flat exactly if it has no more than 16384 characters, all of them
/// letters, digits, `_`, `-`, `.`, white space, parentheses and `@`, has only
/// names in its parentheses, and dots only within names.
pub proof fn flat_query_has_only_names_in_parentheses(query: Seq<char>)
    ensures
        is_flat_query(query) <==> {
            let word = "abcdefghijklmnopqrstuvwxyzABCDEFGHIJKLMNOPQRSTUVWXYZ0123456789_-."@;
            &&& query.len() <= 16384
            &&& forall|j: int|
                0 <= j < query.len() ==> word.contains(#[trigger] query[j]) || query[j] == ' '
                    || query[j] == '\t' || query[j] == '\n' || query[j] == '\r' || query[j] == '('
                    || query[j] == ')' || query[j] == '@'
            &&& forall|i: int, j: int|
                0 <= i < j < query.len() && #[trigger] query[i] == '(' && !query.subrange(
                    i,
                    j,
                ).contains(')') ==> word.contains(#[trigger] query[j]) || query[j] == ')'
            &&& forall|j: int|
                0 <= j < query.len() && #[trigger] query[j] == '.' ==> j > 0 && word.contains(
                    query[j - 1],
                )
        },
{
    let word = "abcdefghijklmnopqrstuvwxyzABCDEFGHIJKLMNOPQRSTUVWXYZ0123456789_-."@;
    assert forall|c: char| #[trigger] is_word_char(c) == word.contains(c) by {
        lemma_word_chars(c);
    }
    assert forall|i: int, j: int| 0 <= i < j <= query.len() implies query.take(j).skip(i)
        == #[trigger] query.subrange(i, j) by {
        assert(query.take(j).skip(i) =~= query.subrange(i, j));
    }
    if is_flat_query(query) {
        assert forall|i: int, j: int|
            0 <= i < j < query.len() && #[trigger] query[i] == '(' && !query.subrange(
                i,
                j,
            ).contains(')') implies word.contains(#[trigger] query[j]) || query[j] == ')' by {
            lemma_ends_open(query.take(j));
            assert(query.take(j)[i] == '(');
            assert(query.take(j).skip(i) == query.subrange(i, j));
            assert(can_follow(query.take(j), query[j]));
            assert(is_word_char(query[j]) == word.contains(query[j]));
        }
        assert forall|j: int| 0 <= j < query.len() implies word.contains(#[trigger] query[j])
            || query[j] == ' ' || query[j] == '\t' || query[j] == '\n' || query[j] == '\r'
            || query[j] == '(' || query[j] == ')' || query[j] == '@' by {
            assert(can_follow(query.take(j), query[j]));
            assert(is_word_char(query[j]) == word.contains(query[j]));
        }
        assert forall|j: int| 0 <= j < query.len() && #[trigger] query[j] == '.' implies j > 0
            && word.contains(query[j - 1]) by {
            assert(can_follow(query.take(j), query[j]));
            assert(is_word_char(query.take(j).last()) == word.contains(query.take(j).last()));
        }
    } else if query.len() <= MAX_FLAT_LEN {
        let j = choose|j: int|
            #![trigger query[j]]
            0 <= j < query.len() && !can_follow(query.take(j), query[j]);
        lemma_ends_open(query.take(j));
        assert(is_word_char(query[j]) == word.contains(query[j]));
        if j > 0 {
            assert(query.take(j).last() == query[j - 1]);
            assert(is_word_char(query[j - 1]) == word.contains(query[j - 1]));
        }
        if ends_open(query.take(j)) {
            let i = choose|i: int|
                0 <= i < query.take(j).len() && #[trigger] query.take(j)[i] == '(' && !query.take(
                    j,
                ).skip(i).contains(')');
            assert(query[i] == '(');
            assert(query.take(j).skip(i) == query.subrange(i, j));
        }
    }
}

/// A grammar that is too old is complained about before its query is, and with
/// nothing wrong there is no complaint.
pub proof fn old_grammar_is_complained_about_first(
    abi: usize,
    required: u32,
    compiled: Result<(), String>,
)
    ensures
        grammar_error(abi, required, defect_of(compiled)) == (if abi < required {
            Some(
                "Grammar ABI version "@ + text::decimal(abi as nat) + " < required "@
                    + text::decimal(required as nat),
            )
        } else if let Err(d) = compiled {
            Some("Query compilation failed: "@ + d@)
        } else {
            None
        }),
        compiled is Ok <==> defect_of(compiled) is None,
        compiled matches Err(d) ==> defect_of(compiled) == Some(d@),
{
}

/// The complaint about a flat query is the one that compiling it gave.
pub proof fn defect_of_a_query_is_complained_about(abi: usize, required: u32, defect: Seq<char>)
    requires
        abi >= required,
    ensures
        grammar_error(abi, required, Some(defect)) == Some("Query compilation failed: "@ + defect),
        grammar_error(abi, required, None) is None,
{
}

/// The exported symbol is named by the manifest, or else after the plugin.
pub proof fn symbol_is_named_by_the_manifest<S, T>(manifest: PluginManifest<S, T>)
    ensures
        manifest.grammar.symbol_name matches Some(n) ==> symbol_of(manifest) == n@,
        manifest.grammar.symbol_name is None ==> symbol_of(manifest) == manifest.plugin.name@,
{
}

} // verus!
