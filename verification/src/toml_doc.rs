//! Structured TOML manifest adapters: the package manifest
//! (`package.version`) and the Python project manifest
//! (`tool.poetry.version`).
//!
//! Parsing and format-preserving editing are done by the `toml_edit`
//! crate behind trusted wrappers; what the wrappers return is named by
//! uninterpreted functions, and everything around the calls is verified.

use vstd::prelude::*;
use crate::semver::{
    SemVer, VersionError, spec_version_str, spec_parse_version, version_string,
    lemma_version_str_round_trip, parse_version_string,
};

verus! {

/// What reading `package.version` from the text of a package manifest
/// yields: `None` for text that is not valid TOML, `Some(None)` when the
/// field is absent or not a string, `Some(Some(value))` otherwise.
pub uninterp spec fn toml_package_version_of(s: Seq<char>) -> Option<Option<Seq<char>>>;

/// The text of a package manifest after `package.version` is set to `v`:
/// `None` for text that is not valid TOML or whose `package` key holds no
/// table.
pub uninterp spec fn toml_with_package_version(s: Seq<char>, v: Seq<char>) -> Option<Seq<char>>;

/// What reading `tool.poetry.version` yields, as for the package manifest.
pub uninterp spec fn toml_poetry_version_of(s: Seq<char>) -> Option<Option<Seq<char>>>;

/// The text after `tool.poetry.version` is set to `v`, where a
/// `tool.poetry` table exists; a document without one is returned as
/// re-serialized by the editor, unchanged in content.
pub uninterp spec fn toml_with_poetry_version(s: Seq<char>, v: Seq<char>) -> Option<Seq<char>>;

/// Relies on toml_edit: `str::parse::<DocumentMut>` accepts exactly valid
/// TOML, and `get`/`as_str` read the `package.version` string field.
#[verifier::external_body]
fn toml_read_package_version(content: &str) -> (r: Result<Option<String>, VersionError>)
    ensures
        match r {
            Ok(Some(ver)) => toml_package_version_of(content@) == Some(Some(ver@)),
            Ok(None) => toml_package_version_of(content@) == Some(None::<Seq<char>>),
            Err(e) => toml_package_version_of(content@) is None && e == VersionError::Parse,
        },
{
    match content.parse::<toml_edit::DocumentMut>() {
        Ok(doc) => Ok(
            doc.get("package").and_then(|p| p.get("version")).and_then(|x| x.as_str()).map(
                |s| s.to_string(),
            ),
        ),
        Err(_) => Err(VersionError::Parse),
    }
}

/// Relies on toml_edit: the `package.version` entry is set on the parsed
/// document and the document re-serialized with its formatting preserved;
/// reading the result gives the value back.
#[verifier::external_body]
fn toml_write_package_version(content: &str, new_version: &str) -> (r: Result<
    String,
    VersionError,
>)
    ensures
        match r {
            Ok(out) => toml_with_package_version(content@, new_version@) == Some(out@)
                && toml_package_version_of(out@) == Some(Some(new_version@)),
            Err(e) => toml_with_package_version(content@, new_version@) is None && e
                == VersionError::Parse,
        },
{
    let mut doc = match content.parse::<toml_edit::DocumentMut>() {
        Ok(d) => d,
        Err(_) => return Err(VersionError::Parse),
    };
    let item = doc.entry("package").or_insert(toml_edit::Item::Table(toml_edit::Table::new()));
    match item.as_table_like_mut() {
        Some(t) => {
            t.insert("version", toml_edit::value(new_version));
            Ok(doc.to_string())
        },
        None => Err(VersionError::Parse),
    }
}

/// Relies on toml_edit: `get`/`as_table`/`as_str` read the
/// `tool.poetry.version` string field of a `[tool.poetry]` table.
#[verifier::external_body]
fn toml_read_poetry_version(content: &str) -> (r: Result<Option<String>, VersionError>)
    ensures
        match r {
            Ok(Some(ver)) => toml_poetry_version_of(content@) == Some(Some(ver@)),
            Ok(None) => toml_poetry_version_of(content@) == Some(None::<Seq<char>>),
            Err(e) => toml_poetry_version_of(content@) is None && e == VersionError::Parse,
        },
{
    match content.parse::<toml_edit::DocumentMut>() {
        Ok(doc) => Ok(
            doc.get("tool").and_then(|t| t.get("poetry")).and_then(|p| p.as_table()).and_then(
                |p| p.get("version"),
            ).and_then(|x| x.as_str()).map(|s| s.to_string()),
        ),
        Err(_) => Err(VersionError::Parse),
    }
}

/// Relies on toml_edit: when a `[tool.poetry]` table exists its `version`
/// entry is set, and the document is re-serialized with its formatting
/// preserved; when the manifest carried a poetry version before, reading
/// the result gives the new value back.
#[verifier::external_body]
fn toml_write_poetry_version(content: &str, new_version: &str) -> (r: Result<
    String,
    VersionError,
>)
    ensures
        match r {
            Ok(out) => toml_with_poetry_version(content@, new_version@) == Some(out@) && (
            toml_poetry_version_of(content@) matches Some(Some(_))
                ==> toml_poetry_version_of(out@) == Some(Some(new_version@))),
            Err(e) => toml_with_poetry_version(content@, new_version@) is None && e
                == VersionError::Parse,
        },
{
    let mut doc = match content.parse::<toml_edit::DocumentMut>() {
        Ok(d) => d,
        Err(_) => return Err(VersionError::Parse),
    };
    if let Some(tool) = doc.get_mut("tool") {
        if let Some(toml_edit::Item::Table(poetry)) = tool.get_mut("poetry") {
            poetry.insert("version", toml_edit::value(new_version));
        }
    }
    Ok(doc.to_string())
}

/// Detection over a package manifest: the `package.version` field read as
/// `major.minor.patch`.
pub open spec fn spec_detect_cargo(s: Seq<char>) -> Result<Option<SemVer>, VersionError> {
    match toml_package_version_of(s) {
        None => Err(VersionError::Parse),
        Some(None) => Ok(None),
        Some(Some(vs)) => match spec_parse_version(vs) {
            Ok(v) => Ok(Some(v)),
            Err(e) => Err(e),
        },
    }
}

/// Detection over a Python project manifest: the `tool.poetry.version`
/// field read as `major.minor.patch`.
pub open spec fn spec_detect_pyproject(s: Seq<char>) -> Result<Option<SemVer>, VersionError> {
    match toml_poetry_version_of(s) {
        None => Err(VersionError::Parse),
        Some(None) => Ok(None),
        Some(Some(vs)) => match spec_parse_version(vs) {
            Ok(v) => Ok(Some(v)),
            Err(e) => Err(e),
        },
    }
}

/// The package manifest after its version is set to `v`.
pub open spec fn spec_update_cargo(s: Seq<char>, v: SemVer) -> Result<Seq<char>, VersionError> {
    match toml_with_package_version(s, spec_version_str(v)) {
        None => Err(VersionError::Parse),
        Some(out) => Ok(out),
    }
}

/// The Python project manifest after its poetry version is set to `v`.
pub open spec fn spec_update_pyproject(s: Seq<char>, v: SemVer) -> Result<
    Seq<char>,
    VersionError,
> {
    match toml_with_poetry_version(s, spec_version_str(v)) {
        None => Err(VersionError::Parse),
        Some(out) => Ok(out),
    }
}

/// Reads the version of a package manifest.
pub fn detect_cargo_version(content: &str) -> (r: Result<Option<SemVer>, VersionError>)
    ensures
        r == spec_detect_cargo(content@),
{
    match toml_read_package_version(content) {
        Err(e) => Err(e),
        Ok(None) => Ok(None),
        Ok(Some(vs)) => match parse_version_string(vs.as_str()) {
            Ok(v) => Ok(Some(v)),
            Err(e) => Err(e),
        },
    }
}

/// Reads the version of a Python project manifest.
pub fn detect_pyproject_version(content: &str) -> (r: Result<Option<SemVer>, VersionError>)
    ensures
        r == spec_detect_pyproject(content@),
{
    match toml_read_poetry_version(content) {
        Err(e) => Err(e),
        Ok(None) => Ok(None),
        Ok(Some(vs)) => match parse_version_string(vs.as_str()) {
            Ok(v) => Ok(Some(v)),
            Err(e) => Err(e),
        },
    }
}

/// Sets `package.version` of a package manifest to `v`. On success,
/// detection on the result reads back exactly `v`.
pub fn update_cargo_toml(content: &str, v: SemVer) -> (r: Result<String, VersionError>)
    ensures
        match r {
            Ok(out) => spec_update_cargo(content@, v) == Ok::<Seq<char>, VersionError>(out@)
                && spec_detect_cargo(out@) == Ok::<Option<SemVer>, VersionError>(Some(v)),
            Err(e) => spec_update_cargo(content@, v) == Err::<Seq<char>, VersionError>(e),
        },
{
    let vs = version_string(v);
    match toml_write_package_version(content, vs.as_str()) {
        Ok(out) => {
            proof {
                lemma_version_str_round_trip(v);
            }
            Ok(out)
        },
        Err(e) => Err(e),
    }
}

/// Sets `tool.poetry.version` of a Python project manifest to `v`. On
/// success, when the manifest carried a poetry version before, detection
/// on the result reads back exactly `v`.
pub fn update_pyproject_toml(content: &str, v: SemVer) -> (r: Result<String, VersionError>)
    ensures
        match r {
            Ok(out) => spec_update_pyproject(content@, v) == Ok::<Seq<char>, VersionError>(out@)
                && (toml_poetry_version_of(content@) matches Some(Some(_))
                ==> spec_detect_pyproject(out@) == Ok::<Option<SemVer>, VersionError>(Some(v))),
            Err(e) => spec_update_pyproject(content@, v) == Err::<Seq<char>, VersionError>(e),
        },
{
    let vs = version_string(v);
    match toml_write_poetry_version(content, vs.as_str()) {
        Ok(out) => {
            proof {
                lemma_version_str_round_trip(v);
            }
            Ok(out)
        },
        Err(e) => Err(e),
    }
}

} // verus!
