//! What the loader reads of a plugin's manifest.

use vstd::prelude::*;

use crate::text::same_text;

verus! {

/// The checksums of the grammar binaries, by platform.
pub struct Checksums {
    entries: Vec<(String, String)>,
}

/// Position of the entry for `platform`, or the number of entries.
spec fn entry_index(entries: Seq<(String, String)>, platform: Seq<char>) -> int
    decreases entries.len(),
{
    if entries.len() == 0 || entries[0].0@ == platform {
        0
    } else {
        1 + entry_index(entries.drop_first(), platform)
    }
}

proof fn lemma_entry_index(entries: Seq<(String, String)>, platform: Seq<char>)
    ensures
        0 <= entry_index(entries, platform) <= entries.len(),
        forall|j: int|
            0 <= j < entry_index(entries, platform) ==> (#[trigger] entries[j]).0@ != platform,
        entry_index(entries, platform) < entries.len() ==> entries[entry_index(
            entries,
            platform,
        )].0@ == platform,
    decreases entries.len(),
{
    if entries.len() > 0 && entries[0].0@ != platform {
        let rest = entries.drop_first();
        lemma_entry_index(rest, platform);
        assert forall|j: int| 0 <= j < entry_index(entries, platform) implies (
        #[trigger] entries[j]).0@ != platform by {
            if j > 0 {
                assert(entries[j] == rest[j - 1]);
            }
        }
    }
}

impl View for Checksums {
    type V = Map<Seq<char>, Seq<char>>;

    closed spec fn view(&self) -> Map<Seq<char>, Seq<char>> {
        Map::new(
            |p: Seq<char>| entry_index(self.entries@, p) < self.entries@.len(),
            |p: Seq<char>| self.entries@[entry_index(self.entries@, p)].1@,
        )
    }
}

impl Checksums {
    /// No platform has two checksums.
    #[verifier::type_invariant]
    spec fn well_formed(self) -> bool {
        forall|i: int, j: int|
            0 <= i < j < self.entries@.len() ==> (#[trigger] self.entries@[i]).0@ != (
            #[trigger] self.entries@[j]).0@
    }

    /// No checksums.
    pub fn new() -> (c: Checksums)
        ensures
            c@ == Map::<Seq<char>, Seq<char>>::empty(),
    {
        let c = Checksums { entries: Vec::new() };
        assert(c@ =~= Map::<Seq<char>, Seq<char>>::empty()) by {
            assert forall|p: Seq<char>| !c@.contains_key(p) by {
                lemma_entry_index(c.entries@, p);
            }
        }
        c
    }

    /// Position of the entry for `platform`, or the number of entries.
    fn position(entries: &Vec<(String, String)>, platform: &str) -> (i: usize)
        ensures
            i == entry_index(entries@, platform@),
            i <= entries@.len(),
    {
        let mut i: usize = 0;
        while i < entries.len()
            invariant
                i <= entries@.len(),
                forall|j: int| 0 <= j < i ==> (#[trigger] entries@[j]).0@ != platform@,
            decreases entries@.len() - i,
        {
            if same_text(entries[i].0.as_str(), platform) {
                proof {
                    lemma_entry_index(entries@, platform@);
                }
                return i;
            }
            i = i + 1;
        }
        proof {
            lemma_entry_index(entries@, platform@);
        }
        i
    }

    /// Sets the checksum for `platform`, in place of any that it had.
    pub fn insert(&mut self, platform: String, checksum: String)
        ensures
            final(self)@ == old(self)@.insert(platform@, checksum@),
    {
        proof {
            use_type_invariant(&*self);
        }
        let ghost before = self@;
        let ghost was = self.entries@;
        let ghost name = platform@;
        let ghost hash = checksum@;
        let mut entries: Vec<(String, String)> = Vec::new();
        std::mem::swap(&mut entries, &mut self.entries);
        let i = Self::position(&entries, platform.as_str());
        if i < entries.len() {
            entries.set(i, (platform, checksum));
        } else {
            entries.push((platform, checksum));
        }
        proof {
            lemma_entry_index(was, name);
            assert forall|p: Seq<char>| #[trigger]
                entry_index(entries@, p) == (if p == name {
                    i as int
                } else if entry_index(was, p) < was.len() {
                    entry_index(was, p)
                } else {
                    entries@.len() as int
                }) by {
                lemma_entry_index(was, p);
                lemma_entry_index(entries@, p);
                let k = entry_index(entries@, p);
                let m = entry_index(was, p);
                if p == name {
                    assert(entries@[i as int].0@ == p);
                    if k < i {
                        assert(entries@[k] == was[k]);
                    }
                } else {
                    if k < entries@.len() && k < was.len() && k != i {
                        assert(entries@[k] == was[k]);
                    }
                    if m < was.len() {
                        if m != i {
                            assert(entries@[m] == was[m]);
                        }
                    }
                }
            }
        }
        self.entries = entries;
        proof {
            let now = self.entries@;
            let goal = before.insert(name, hash);
            assert forall|p: Seq<char>| #[trigger]
                self@.contains_key(p) == goal.contains_key(p) && (self@.contains_key(p) ==> self@[p]
                    == goal[p]) by {
                lemma_entry_index(was, p);
                let m = entry_index(was, p);
                assert(entry_index(now, p) == entry_index(entries@, p));
                if p != name && m < was.len() {
                    assert(now[m] == was[m]);
                }
            }
            assert(self@ =~= goal);
        }
    }

    /// The checksum for `platform`, if there is one.
    pub fn get(&self, platform: &str) -> (r: Option<&String>)
        ensures
            r is Some <==> self@.contains_key(platform@),
            r matches Some(h) ==> h@ == self@[platform@],
    {
        let i = Self::position(&self.entries, platform);
        if i < self.entries.len() {
            Some(&self.entries[i].1)
        } else {
            None
        }
    }
}

/// The plugin section of a manifest.
pub struct PluginInfo {
    pub name: String,
    pub display_name: String,
    pub version: String,
    pub extensions: Vec<String>,
    /// The least host version that the plugin runs with.
    pub min_sentrux_version: Option<String>,
    pub color_rgb: Option<[u8; 3]>,
}

/// The grammar section of a manifest.
pub struct GrammarInfo {
    /// The name in the exported symbol, where it is not the plugin's name.
    pub symbol_name: Option<String>,
    /// The least grammar ABI version that the plugin needs.
    pub abi_version: u32,
}

/// A plugin's manifest. The semantics (`S`) and the thresholds (`T`) are
/// passed on as they are.
pub struct PluginManifest<S, T> {
    pub plugin: PluginInfo,
    pub grammar: GrammarInfo,
    pub semantics: S,
    pub thresholds: T,
    pub checksums: Checksums,
}

/// Language profile: semantics, thresholds and colour.
#[derive(Debug)]
pub struct LanguageProfile<S, T> {
    pub name: String,
    pub semantics: S,
    pub thresholds: T,
    pub color_rgb: [u8; 3],
}

} // verus!
