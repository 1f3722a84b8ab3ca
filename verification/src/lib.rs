//! Multi-format version synchronization: detect and rewrite semantic
//! versions across manifest files, and generate a conventional-commit
//! changelog.

pub mod semver;
pub mod text;
pub mod kv;
pub mod cmake;
pub mod meson;
pub mod toml_doc;
pub mod json_doc;
pub mod project_files;
pub mod version;
pub mod changelog;
