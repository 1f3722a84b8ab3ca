//! JSON library manifest adapter: the whole document is parsed, its
//! top-level `version` string field read or set, and the document
//! re-serialized with pretty formatting.
//!
//! Parsing and serialization are done by the `serde_json` crate behind
//! trusted wrappers; what the wrappers return is named by uninterpreted
//! functions, and everything around the calls is verified.

use vstd::prelude::*;
use crate::semver::{
    SemVer, VersionError, spec_version_str, spec_parse_version, version_string,
    lemma_version_str_round_trip, parse_version_string,
};

verus! {

/// What reading the top-level `version` field of a JSON document yields:
/// `None` for text that is not valid JSON, `Some(None)` when the field is
/// absent or not a string, `Some(Some(value))` otherwise.
pub uninterp spec fn json_version_field(s: Seq<char>) -> Option<Option<Seq<char>>>;

/// The document after its `version` field is set to `v` and the whole
/// value is re-serialized with pretty formatting: `None` for text that is
/// not valid JSON. A document whose top level is no object is
/// re-serialized unchanged in content.
pub uninterp spec fn json_with_version(s: Seq<char>, v: Seq<char>) -> Option<Seq<char>>;

/// Relies on serde_json: `from_str` accepts exactly valid JSON, and
/// `Value::get`/`Value::as_str` read the top-level `version` string field.
#[verifier::external_body]
fn json_read_version(content: &str) -> (r: Result<Option<String>, VersionError>)
    ensures
        match r {
            Ok(Some(ver)) => json_version_field(content@) == Some(Some(ver@)),
            Ok(None) => json_version_field(content@) == Some(None::<Seq<char>>),
            Err(e) => json_version_field(content@) is None && e == VersionError::Parse,
        },
{
    match serde_json::from_str::<serde_json::Value>(content) {
        Ok(json) => Ok(json.get("version").and_then(|x| x.as_str()).map(|s| s.to_string())),
        Err(_) => Err(VersionError::Parse),
    }
}

/// Relies on serde_json: the `version` entry of a top-level object is set
/// and the value re-serialized by `to_string_pretty`; when the document
/// carried a version field before, reading the result gives the new value
/// back.
#[verifier::external_body]
fn json_write_version(content: &str, new_version: &str) -> (r: Result<String, VersionError>)
    ensures
        match r {
            Ok(out) => json_with_version(content@, new_version@) == Some(out@) && (
            json_version_field(content@) matches Some(Some(_)) ==> json_version_field(out@)
                == Some(Some(new_version@))),
            Err(e) => json_with_version(content@, new_version@) is None && e
                == VersionError::Parse,
        },
{
    let mut json: serde_json::Value = match serde_json::from_str(content) {
        Ok(j) => j,
        Err(_) => return Err(VersionError::Parse),
    };
    if let Some(obj) = json.as_object_mut() {
        obj.insert("version".to_string(), serde_json::Value::String(new_version.to_string()));
    }
    match serde_json::to_string_pretty(&json) {
        Ok(out) => Ok(out),
        Err(_) => Err(VersionError::Parse),
    }
}

/// Detection over a JSON library manifest: the top-level `version` field
/// read as `major.minor.patch`.
pub open spec fn spec_detect_library_json(s: Seq<char>) -> Result<Option<SemVer>, VersionError> {
    match json_version_field(s) {
        None => Err(VersionError::Parse),
        Some(None) => Ok(None),
        Some(Some(vs)) => match spec_parse_version(vs) {
            Ok(v) => Ok(Some(v)),
            Err(e) => Err(e),
        },
    }
}

/// The JSON library manifest after its version is set to `v`.
pub open spec fn spec_update_library_json(s: Seq<char>, v: SemVer) -> Result<
    Seq<char>,
    VersionError,
> {
    match json_with_version(s, spec_version_str(v)) {
        None => Err(VersionError::Parse),
        Some(out) => Ok(out),
    }
}

/// Reads the version of a JSON library manifest.
pub fn extract_library_json_version(content: &str) -> (r: Result<Option<SemVer>, VersionError>)
    ensures
        r == spec_detect_library_json(content@),
{
    match json_read_version(content) {
        Err(e) => Err(e),
        Ok(None) => Ok(None),
        Ok(Some(vs)) => match parse_version_string(vs.as_str()) {
            Ok(v) => Ok(Some(v)),
            Err(e) => Err(e),
        },
    }
}

/// Sets the `version` field of a JSON library manifest to `v`. On success,
/// when the manifest carried a version field before, detection on the
/// result reads back exactly `v`.
pub fn update_library_json(content: &str, v: SemVer) -> (r: Result<String, VersionError>)
    ensures
        match r {
            Ok(out) => spec_update_library_json(content@, v) == Ok::<Seq<char>, VersionError>(
                out@,
            ) && (json_version_field(content@) matches Some(Some(_))
                ==> spec_detect_library_json(out@) == Ok::<Option<SemVer>, VersionError>(
                    Some(v),
                )),
            Err(e) => spec_update_library_json(content@, v) == Err::<Seq<char>, VersionError>(e),
        },
{
    let vs = version_string(v);
    match json_write_version(content, vs.as_str()) {
        Ok(out) => {
            proof {
                lemma_version_str_round_trip(v);
            }
            Ok(out)
        },
        Err(e) => Err(e),
    }
}

} // verus!
