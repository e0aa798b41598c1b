//! The decisions behind plugin loading and quality cross-validation in the
//! sentrux analyser.

pub mod checksum;
pub mod cross_validation;
pub mod grammar;
pub mod loader;
pub mod loader_laws;
pub mod manifest;
pub mod order;
pub mod paths;
pub mod sources;
pub mod text;
pub mod text_laws;
pub mod version;
pub mod version_laws;
