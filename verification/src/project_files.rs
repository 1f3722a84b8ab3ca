//! Manifest files and the per-kind dispatch of the version rewrite.

use vstd::prelude::*;
use crate::semver::{SemVer, VersionError, spec_parse_version, parse_version_string};
use crate::text::{spec_ends_with, ends_with_str};
use crate::cmake::{spec_update_cmake, update_cmake_version};
use crate::meson::{spec_update_meson, update_meson_version};
use crate::kv::{spec_update_kv, update_platformio_ini, update_library_properties};
use crate::toml_doc::{
    spec_update_cargo, spec_update_pyproject, update_cargo_toml, update_pyproject_toml,
};
use crate::json_doc::{spec_update_library_json, update_library_json};

verus! {

/// The kind of project a manifest belongs to.
#[derive(Clone, Copy, PartialEq, Eq, Structural, Debug)]
pub enum ProjectType {
    Rust,
    Python,
    Cpp,
    Meson,
    PlatformIO,
}

/// One manifest file: where it lives and which adapter rewrites it.
pub struct ProjectFile {
    pub path: String,
    pub project_type: ProjectType,
}

/// The rewrite of an embedded-project manifest, chosen by the file name's
/// well-known suffix.
#[verifier::opaque]
pub open spec fn spec_update_platformio(
    path: Seq<char>,
    content: Seq<char>,
    v: SemVer,
) -> Result<Seq<char>, VersionError> {
    if spec_ends_with(path, "platformio.ini"@) {
        Ok(spec_update_kv(content, v, true))
    } else if spec_ends_with(path, "library.json"@) {
        spec_update_library_json(content, v)
    } else if spec_ends_with(path, "library.properties"@) {
        Ok(spec_update_kv(content, v, false))
    } else {
        Err(VersionError::Unsupported)
    }
}

/// The rewrite of one manifest's text: the new version string is split
/// into its numeric components, then the manifest kind's adapter applies
/// it.
#[verifier::opaque]
pub open spec fn spec_update_file(
    ty: ProjectType,
    path: Seq<char>,
    content: Seq<char>,
    new_version: Seq<char>,
) -> Result<Seq<char>, VersionError> {
    match spec_parse_version(new_version) {
        Err(e) => Err(e),
        Ok(v) => match ty {
            ProjectType::Rust => spec_update_cargo(content, v),
            ProjectType::Python => spec_update_pyproject(content, v),
            ProjectType::Cpp => Ok(spec_update_cmake(content, v)),
            ProjectType::Meson => Ok(spec_update_meson(content, v)),
            ProjectType::PlatformIO => spec_update_platformio(path, content, v),
        },
    }
}

impl ProjectFile {
    /// Rewrites the manifest's text to carry `new_version`, using the
    /// adapter of this file's kind.
    pub fn update_version(&self, content: &str, new_version: &str) -> (r: Result<
        String,
        VersionError,
    >)
        ensures
            match r {
                Ok(out) => spec_update_file(self.project_type, self.path@, content@, new_version@)
                    == Ok::<Seq<char>, VersionError>(out@),
                Err(e) => spec_update_file(self.project_type, self.path@, content@, new_version@)
                    == Err::<Seq<char>, VersionError>(e),
            },
    {
        proof {
            reveal(spec_update_file);
        }
        let v = match parse_version_string(new_version) {
            Ok(v) => v,
            Err(e) => return Err(e),
        };
        match self.project_type {
            ProjectType::Rust => update_cargo_toml(content, v),
            ProjectType::Python => update_pyproject_toml(content, v),
            ProjectType::Cpp => Ok(update_cmake_version(content, v.major, v.minor, v.patch)),
            ProjectType::Meson => Ok(update_meson_version(content, v.major, v.minor, v.patch)),
            ProjectType::PlatformIO => self.update_platformio_project(content, new_version),
        }
    }

    /// Rewrites an embedded-project manifest, chosen by the file name:
    /// the INI-style project file, the JSON library manifest, or the
    /// properties library manifest.
    pub fn update_platformio_project(&self, content: &str, new_version: &str) -> (r: Result<
        String,
        VersionError,
    >)
        ensures
            match r {
                Ok(out) => (match spec_parse_version(new_version@) {
                    Err(e) => Err(e),
                    Ok(v) => spec_update_platformio(self.path@, content@, v),
                }) == Ok::<Seq<char>, VersionError>(out@),
                Err(e) => (match spec_parse_version(new_version@) {
                    Err(e2) => Err(e2),
                    Ok(v) => spec_update_platformio(self.path@, content@, v),
                }) == Err::<Seq<char>, VersionError>(e),
            },
    {
        proof {
            reveal(spec_update_platformio);
        }
        let v = match parse_version_string(new_version) {
            Ok(v) => v,
            Err(e) => return Err(e),
        };
        if ends_with_str(self.path.as_str(), "platformio.ini") {
            Ok(update_platformio_ini(content, v))
        } else if ends_with_str(self.path.as_str(), "library.json") {
            update_library_json(content, v)
        } else if ends_with_str(self.path.as_str(), "library.properties") {
            Ok(update_library_properties(content, v))
        } else {
            Err(VersionError::Unsupported)
        }
    }
}

} // verus!
