# sentrux_core

The decisions behind two parts of the sentrux analyser, written and proved in
Verus:

- **Plugin loading.** Which language plugins may be loaded: the host version
  they ask for, the checksum of their grammar binary, the ABI version of the
  grammar, and the queries compiled against it; and where plugins come from:
  the user's directory first, then what ships with the distribution.
- **Quality cross-validation.** How well the dependency edges of a project
  compress, as a second opinion on its quality signal.

## Layout

- `src/version.rs`, `src/version_laws.rs`: version strings and their order
- `src/manifest.rs`, `src/paths.rs`: what a plugin declares and where its files lie
- `src/checksum.rs`, `src/grammar.rs`: checks of grammar binaries and of grammars
- `src/sources.rs`: which plugins come from where
- `src/loader.rs`, `src/loader_laws.rs`: loading a plugin, step by step
- `src/cross_validation.rs`: the compression estimate
- `src/text.rs`, `src/order.rs`: strings and dictionary order
- `app/`: directories, files, dynamic libraries and floating-point numbers
- `tests/`: tests of the library as it is compiled
