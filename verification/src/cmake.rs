//! CMake project file adapter.
//!
//! Version declarations come in three pattern classes, tried in this order
//! by detection: a `project(... VERSION x.y.z)` call, a
//! `set(PROJECT_VERSION x.y.z)` (or `set(CMAKE_PROJECT_VERSION ...)`)
//! command, and the three `set(PROJECT_VERSION_MAJOR/MINOR/PATCH n)`
//! commands together. Rewriting updates the first line of the project
//! class, the first line of the set class, and every line of the component
//! classes; all other lines are kept verbatim.

use vstd::prelude::*;
use vstd::string::StrSliceExecFns;
use vstd::string::StringExecFns;
use crate::semver::{
    SemVer, VersionError, spec_version_str, version_string, lemma_version_str_chars,
    spec_version_after, spec_number_after, version_after, number_after,
    lemma_version_after_value, lemma_number_after_value,
};
use crate::text::{
    is_line_ws, ws_prefix_len, lemma_ws_prefix, lemma_ws_prefix_at, trim_start_len,
    spec_match_at, spec_contains, spec_find, match_at, find_str, contains_str, lemma_find_at,
    lemma_find_properties, is_digit, spec_dec_str, lemma_dec_str_digits, u64_to_string,
    spec_split_lines, spec_join_lines, split_lines, join_lines, line_is_clean,
    no_line_breaks, lemma_split_lines_clean, lemma_split_join, exists_where, first_where, lemma_first_where,
    lemma_first_where_at,
};

verus! {

/// `project(`, the head of a project call.
pub open spec fn proj_key() -> Seq<char> {
    seq!['p', 'r', 'o', 'j', 'e', 'c', 't', '(']
}

/// The `VERSION` keyword of a project call.
pub open spec fn ver_key() -> Seq<char> {
    seq!['V', 'E', 'R', 'S', 'I', 'O', 'N']
}

/// `set(PROJECT_VERSION `, the head of a whole-version set command.
pub open spec fn set_pv_key() -> Seq<char> {
    seq![
        's', 'e', 't', '(', 'P', 'R', 'O', 'J', 'E', 'C', 'T', '_', 'V', 'E', 'R', 'S', 'I',
        'O', 'N', ' ',
    ]
}

/// `set(CMAKE_PROJECT_VERSION `, its alternative spelling.
pub open spec fn set_cpv_key() -> Seq<char> {
    seq![
        's', 'e', 't', '(', 'C', 'M', 'A', 'K', 'E', '_', 'P', 'R', 'O', 'J', 'E', 'C', 'T',
        '_', 'V', 'E', 'R', 'S', 'I', 'O', 'N', ' ',
    ]
}

/// `set(PROJECT_VERSION_MAJOR `.
pub open spec fn maj_key() -> Seq<char> {
    seq![
        's', 'e', 't', '(', 'P', 'R', 'O', 'J', 'E', 'C', 'T', '_', 'V', 'E', 'R', 'S', 'I',
        'O', 'N', '_', 'M', 'A', 'J', 'O', 'R', ' ',
    ]
}

/// `set(PROJECT_VERSION_MINOR `.
pub open spec fn min_key() -> Seq<char> {
    seq![
        's', 'e', 't', '(', 'P', 'R', 'O', 'J', 'E', 'C', 'T', '_', 'V', 'E', 'R', 'S', 'I',
        'O', 'N', '_', 'M', 'I', 'N', 'O', 'R', ' ',
    ]
}

/// `set(PROJECT_VERSION_PATCH `.
pub open spec fn pat_key() -> Seq<char> {
    seq![
        's', 'e', 't', '(', 'P', 'R', 'O', 'J', 'E', 'C', 'T', '_', 'V', 'E', 'R', 'S', 'I',
        'O', 'N', '_', 'P', 'A', 'T', 'C', 'H', ' ',
    ]
}

pub open spec fn uscore_major() -> Seq<char> {
    seq!['_', 'M', 'A', 'J', 'O', 'R']
}

pub open spec fn uscore_minor() -> Seq<char> {
    seq!['_', 'M', 'I', 'N', 'O', 'R']
}

pub open spec fn uscore_patch() -> Seq<char> {
    seq!['_', 'P', 'A', 'T', 'C', 'H']
}

/// A project call carrying a version: first token `project(`, and the
/// `VERSION` keyword somewhere on the line.
pub open spec fn cmake_project_class(l: Seq<char>) -> bool {
    spec_match_at(l, ws_prefix_len(l) as int, proj_key()) && spec_contains(l, ver_key())
}

/// A whole-version set command, not one of the component commands.
pub open spec fn cmake_set_class(l: Seq<char>) -> bool {
    let a = ws_prefix_len(l) as int;
    &&& (spec_match_at(l, a, set_pv_key()) || spec_match_at(l, a, set_cpv_key()))
    &&& !spec_contains(l, uscore_major())
    &&& !spec_contains(l, uscore_minor())
    &&& !spec_contains(l, uscore_patch())
}

pub open spec fn cmake_major_class(l: Seq<char>) -> bool {
    spec_match_at(l, ws_prefix_len(l) as int, maj_key())
}

pub open spec fn cmake_minor_class(l: Seq<char>) -> bool {
    spec_match_at(l, ws_prefix_len(l) as int, min_key())
}

pub open spec fn cmake_patch_class(l: Seq<char>) -> bool {
    spec_match_at(l, ws_prefix_len(l) as int, pat_key())
}

pub open spec fn cmake_project_fn() -> spec_fn(Seq<char>) -> bool {
    |l: Seq<char>| cmake_project_class(l)
}

pub open spec fn cmake_set_fn() -> spec_fn(Seq<char>) -> bool {
    |l: Seq<char>| cmake_set_class(l)
}

pub open spec fn cmake_major_fn() -> spec_fn(Seq<char>) -> bool {
    |l: Seq<char>| cmake_major_class(l)
}

pub open spec fn cmake_minor_fn() -> spec_fn(Seq<char>) -> bool {
    |l: Seq<char>| cmake_minor_class(l)
}

pub open spec fn cmake_patch_fn() -> spec_fn(Seq<char>) -> bool {
    |l: Seq<char>| cmake_patch_class(l)
}

/// A project line rewritten: everything before the first `VERSION` keyword
/// kept, the keyword and the new version written after it. Text that stood
/// after the old version is dropped.
pub open spec fn cmake_project_canon(l: Seq<char>, v: SemVer) -> Seq<char> {
    l.subrange(0, spec_find(l, ver_key())) + ver_key() + seq![' '] + spec_version_str(v)
}

/// The canonical whole-version set command.
pub open spec fn cmake_set_canon(v: SemVer) -> Seq<char> {
    set_pv_key() + spec_version_str(v) + seq![')']
}

pub open spec fn cmake_major_canon(n: u64) -> Seq<char> {
    maj_key() + spec_dec_str(n as nat) + seq![')']
}

pub open spec fn cmake_minor_canon(n: u64) -> Seq<char> {
    min_key() + spec_dec_str(n as nat) + seq![')']
}

pub open spec fn cmake_patch_canon(n: u64) -> Seq<char> {
    pat_key() + spec_dec_str(n as nat) + seq![')']
}

/// The version a project line carries, written after its first `VERSION`
/// keyword.
pub open spec fn cmake_project_version(l: Seq<char>) -> Result<SemVer, VersionError> {
    spec_version_after(l, spec_find(l, ver_key()) + ver_key().len() as int)
}

/// The version a set command carries, written after its head.
pub open spec fn cmake_set_version(l: Seq<char>) -> Result<SemVer, VersionError> {
    let a = ws_prefix_len(l) as int;
    if spec_match_at(l, a, set_pv_key()) {
        spec_version_after(l, a + set_pv_key().len() as int)
    } else {
        spec_version_after(l, a + set_cpv_key().len() as int)
    }
}

pub open spec fn cmake_major_value(l: Seq<char>) -> Result<u64, VersionError> {
    spec_number_after(l, ws_prefix_len(l) as int + maj_key().len() as int)
}

pub open spec fn cmake_minor_value(l: Seq<char>) -> Result<u64, VersionError> {
    spec_number_after(l, ws_prefix_len(l) as int + min_key().len() as int)
}

pub open spec fn cmake_patch_value(l: Seq<char>) -> Result<u64, VersionError> {
    spec_number_after(l, ws_prefix_len(l) as int + pat_key().len() as int)
}

/// Detection: the project call wins; then the whole-version set command;
/// then the three component commands, which must all be present.
pub open spec fn spec_detect_cmake(s: Seq<char>) -> Result<Option<SemVer>, VersionError> {
    let ls = spec_split_lines(s);
    if exists_where(ls, cmake_project_fn()) {
        match cmake_project_version(ls[first_where(ls, cmake_project_fn())]) {
            Ok(v) => Ok(Some(v)),
            Err(e) => Err(e),
        }
    } else if exists_where(ls, cmake_set_fn()) {
        match cmake_set_version(ls[first_where(ls, cmake_set_fn())]) {
            Ok(v) => Ok(Some(v)),
            Err(e) => Err(e),
        }
    } else if exists_where(ls, cmake_major_fn()) && exists_where(ls, cmake_minor_fn())
        && exists_where(ls, cmake_patch_fn()) {
        match cmake_major_value(ls[first_where(ls, cmake_major_fn())]) {
            Err(e) => Err(e),
            Ok(major) => match cmake_minor_value(ls[first_where(ls, cmake_minor_fn())]) {
                Err(e) => Err(e),
                Ok(minor) => match cmake_patch_value(ls[first_where(ls, cmake_patch_fn())]) {
                    Err(e) => Err(e),
                    Ok(patch) => Ok(Some(SemVer { major, minor, patch })),
                },
            },
        }
    } else {
        Ok(None)
    }
}

/// One line of the rewrite: the first project-class line and the first
/// set-class line become canonical, every component line becomes canonical,
/// all other lines are kept verbatim.
pub open spec fn cmake_rewrite_line_at(ls: Seq<Seq<char>>, i: int, v: SemVer) -> Seq<char> {
    let l = ls[i];
    if cmake_project_class(l) {
        if i == first_where(ls, cmake_project_fn()) {
            cmake_project_canon(l, v)
        } else {
            l
        }
    } else if cmake_set_class(l) {
        if i == first_where(ls, cmake_set_fn()) {
            cmake_set_canon(v)
        } else {
            l
        }
    } else if cmake_major_class(l) {
        cmake_major_canon(v.major)
    } else if cmake_minor_class(l) {
        cmake_minor_canon(v.minor)
    } else if cmake_patch_class(l) {
        cmake_patch_canon(v.patch)
    } else {
        l
    }
}

pub open spec fn cmake_rewritten_lines(ls: Seq<Seq<char>>, v: SemVer) -> Seq<Seq<char>> {
    Seq::new(ls.len(), |i: int| cmake_rewrite_line_at(ls, i, v))
}

/// Content with its version declarations rewritten to carry `v`.
pub open spec fn spec_update_cmake(s: Seq<char>, v: SemVer) -> Seq<char> {
    spec_join_lines(cmake_rewritten_lines(spec_split_lines(s), v))
}

/// Whether `s` holds version declarations that the rewrite reaches.
pub open spec fn cmake_has_version_line(s: Seq<char>) -> bool {
    let ls = spec_split_lines(s);
    ||| exists_where(ls, cmake_project_fn())
    ||| exists_where(ls, cmake_set_fn())
    ||| (exists_where(ls, cmake_major_fn()) && exists_where(ls, cmake_minor_fn())
        && exists_where(ls, cmake_patch_fn()))
}

fn cmake_project_class_exec(l: &str) -> (r: bool)
    ensures
        r == cmake_project_class(l@),
{
    proof {
        reveal_strlit("project(");
        reveal_strlit("VERSION");
        assert("project("@ =~= proj_key());
        assert("VERSION"@ =~= ver_key());
        lemma_ws_prefix(l@);
    }
    let a = trim_start_len(l);
    match_at(l, a, "project(") && contains_str(l, "VERSION")
}

fn cmake_set_class_exec(l: &str) -> (r: bool)
    ensures
        r == cmake_set_class(l@),
{
    proof {
        reveal_strlit("set(PROJECT_VERSION ");
        reveal_strlit("set(CMAKE_PROJECT_VERSION ");
        reveal_strlit("_MAJOR");
        reveal_strlit("_MINOR");
        reveal_strlit("_PATCH");
        assert("set(PROJECT_VERSION "@ =~= set_pv_key());
        assert("set(CMAKE_PROJECT_VERSION "@ =~= set_cpv_key());
        assert("_MAJOR"@ =~= uscore_major());
        assert("_MINOR"@ =~= uscore_minor());
        assert("_PATCH"@ =~= uscore_patch());
        lemma_ws_prefix(l@);
    }
    let a = trim_start_len(l);
    (match_at(l, a, "set(PROJECT_VERSION ") || match_at(l, a, "set(CMAKE_PROJECT_VERSION "))
        && !contains_str(l, "_MAJOR") && !contains_str(l, "_MINOR") && !contains_str(l, "_PATCH")
}

fn cmake_major_class_exec(l: &str) -> (r: bool)
    ensures
        r == cmake_major_class(l@),
{
    proof {
        reveal_strlit("set(PROJECT_VERSION_MAJOR ");
        assert("set(PROJECT_VERSION_MAJOR "@ =~= maj_key());
        lemma_ws_prefix(l@);
    }
    let a = trim_start_len(l);
    match_at(l, a, "set(PROJECT_VERSION_MAJOR ")
}

fn cmake_minor_class_exec(l: &str) -> (r: bool)
    ensures
        r == cmake_minor_class(l@),
{
    proof {
        reveal_strlit("set(PROJECT_VERSION_MINOR ");
        assert("set(PROJECT_VERSION_MINOR "@ =~= min_key());
        lemma_ws_prefix(l@);
    }
    let a = trim_start_len(l);
    match_at(l, a, "set(PROJECT_VERSION_MINOR ")
}

fn cmake_patch_class_exec(l: &str) -> (r: bool)
    ensures
        r == cmake_patch_class(l@),
{
    proof {
        reveal_strlit("set(PROJECT_VERSION_PATCH ");
        assert("set(PROJECT_VERSION_PATCH "@ =~= pat_key());
        lemma_ws_prefix(l@);
    }
    let a = trim_start_len(l);
    match_at(l, a, "set(PROJECT_VERSION_PATCH ")
}

fn cmake_project_version_exec(l: &str) -> (r: Result<SemVer, VersionError>)
    requires
        cmake_project_class(l@),
    ensures
        r == cmake_project_version(l@),
{
    proof {
        reveal_strlit("VERSION");
        assert("VERSION"@ =~= ver_key());
    }
    let n = l.unicode_len();
    let f = match find_str(l, "VERSION") {
        Some(f) => f,
        None => {
            proof {
                assert(false);
            }
            0
        },
    };
    proof {
        lemma_find_properties(l@, ver_key());
    }
    version_after(l, f + 7)
}

fn cmake_set_version_exec(l: &str) -> (r: Result<SemVer, VersionError>)
    requires
        cmake_set_class(l@),
    ensures
        r == cmake_set_version(l@),
{
    proof {
        reveal_strlit("set(PROJECT_VERSION ");
        assert("set(PROJECT_VERSION "@ =~= set_pv_key());
        lemma_ws_prefix(l@);
    }
    let n = l.unicode_len();
    let a = trim_start_len(l);
    if match_at(l, a, "set(PROJECT_VERSION ") {
        version_after(l, a + 20)
    } else {
        version_after(l, a + 26)
    }
}

fn cmake_component_value_exec(l: &str, key_len: usize) -> (r: Result<u64, VersionError>)
    requires
        ws_prefix_len(l@) + key_len <= l@.len(),
    ensures
        r == spec_number_after(l@, ws_prefix_len(l@) as int + key_len as int),
{
    proof {
        lemma_ws_prefix(l@);
    }
    let n = l.unicode_len();
    let a = trim_start_len(l);
    number_after(l, a + key_len)
}

/// Reads the version of a CMake project file: the project call's `VERSION`,
/// else the whole-version set command, else the three component commands.
pub fn extract_cmake_version(content: &str) -> (r: Result<Option<SemVer>, VersionError>)
    ensures
        r == spec_detect_cmake(content@),
{
    let ghost big = spec_split_lines(content@);
    let ls = split_lines(content);
    // First pass: the project call.
    let mut i: usize = 0;
    while i < ls.len()
        invariant
            big == spec_split_lines(content@),
            ls.deep_view() == big,
            big.len() == ls.len(),
            0 <= i <= ls.len(),
            forall|j: int| 0 <= j < i ==> !cmake_project_class(#[trigger] big[j]),
        decreases ls.len() - i,
    {
        proof {
            assert(ls@[i as int]@ == big[i as int]);
        }
        if cmake_project_class_exec(ls[i].as_str()) {
            proof {
                lemma_first_where_at(big, cmake_project_fn(), i as int);
            }
            let r = cmake_project_version_exec(ls[i].as_str());
            return match r {
                Ok(v) => Ok(Some(v)),
                Err(e) => Err(e),
            };
        }
        i = i + 1;
    }
    proof {
        if exists_where(big, cmake_project_fn()) {
            let w = choose|w: int| 0 <= w < big.len() && cmake_project_fn()(#[trigger] big[w]);
            assert(!cmake_project_class(big[w]));
        }
    }
    // Second pass: the whole-version set command.
    let mut i: usize = 0;
    while i < ls.len()
        invariant
            big == spec_split_lines(content@),
            ls.deep_view() == big,
            big.len() == ls.len(),
            0 <= i <= ls.len(),
            !exists_where(big, cmake_project_fn()),
            forall|j: int| 0 <= j < i ==> !cmake_set_class(#[trigger] big[j]),
        decreases ls.len() - i,
    {
        proof {
            assert(ls@[i as int]@ == big[i as int]);
        }
        if cmake_set_class_exec(ls[i].as_str()) {
            proof {
                lemma_first_where_at(big, cmake_set_fn(), i as int);
            }
            let r = cmake_set_version_exec(ls[i].as_str());
            return match r {
                Ok(v) => Ok(Some(v)),
                Err(e) => Err(e),
            };
        }
        i = i + 1;
    }
    proof {
        if exists_where(big, cmake_set_fn()) {
            let w = choose|w: int| 0 <= w < big.len() && cmake_set_fn()(#[trigger] big[w]);
            assert(!cmake_set_class(big[w]));
        }
    }
    // Third pass: the three component commands.
    let mut maj: Option<usize> = None;
    let mut min: Option<usize> = None;
    let mut pat: Option<usize> = None;
    let mut i: usize = 0;
    while i < ls.len()
        invariant
            big == spec_split_lines(content@),
            ls.deep_view() == big,
            big.len() == ls.len(),
            0 <= i <= ls.len(),
            match maj {
                Some(k) => k < i && cmake_major_class(big[k as int]) && (forall|j: int|
                    0 <= j < k ==> !cmake_major_class(#[trigger] big[j])),
                None => forall|j: int| 0 <= j < i ==> !cmake_major_class(#[trigger] big[j]),
            },
            match min {
                Some(k) => k < i && cmake_minor_class(big[k as int]) && (forall|j: int|
                    0 <= j < k ==> !cmake_minor_class(#[trigger] big[j])),
                None => forall|j: int| 0 <= j < i ==> !cmake_minor_class(#[trigger] big[j]),
            },
            match pat {
                Some(k) => k < i && cmake_patch_class(big[k as int]) && (forall|j: int|
                    0 <= j < k ==> !cmake_patch_class(#[trigger] big[j])),
                None => forall|j: int| 0 <= j < i ==> !cmake_patch_class(#[trigger] big[j]),
            },
        decreases ls.len() - i,
    {
        proof {
            assert(ls@[i as int]@ == big[i as int]);
        }
        if maj.is_none() && cmake_major_class_exec(ls[i].as_str()) {
            maj = Some(i);
        }
        if min.is_none() && cmake_minor_class_exec(ls[i].as_str()) {
            min = Some(i);
        }
        if pat.is_none() && cmake_patch_class_exec(ls[i].as_str()) {
            pat = Some(i);
        }
        i = i + 1;
    }
    match (maj, min, pat) {
        (Some(km), Some(kn), Some(kp)) => {
            proof {
                lemma_first_where_at(big, cmake_major_fn(), km as int);
                lemma_first_where_at(big, cmake_minor_fn(), kn as int);
                lemma_first_where_at(big, cmake_patch_fn(), kp as int);
                assert(ls@[km as int]@ == big[km as int]);
                assert(ls@[kn as int]@ == big[kn as int]);
                assert(ls@[kp as int]@ == big[kp as int]);
                assert(big[km as int].len() >= ws_prefix_len(big[km as int]) + 26);
            }
            let rm = cmake_component_value_exec(ls[km].as_str(), 26);
            let rn = cmake_component_value_exec(ls[kn].as_str(), 26);
            let rp = cmake_component_value_exec(ls[kp].as_str(), 26);
            match rm {
                Err(e) => Err(e),
                Ok(major) => match rn {
                    Err(e) => Err(e),
                    Ok(minor) => match rp {
                        Err(e) => Err(e),
                        Ok(patch) => Ok(Some(SemVer { major, minor, patch })),
                    },
                },
            }
        },
        _ => {
            proof {
                if maj.is_none() && exists_where(big, cmake_major_fn()) {
                    let w = choose|w: int|
                        0 <= w < big.len() && cmake_major_fn()(#[trigger] big[w]);
                    assert(!cmake_major_class(big[w]));
                }
                if min.is_none() && exists_where(big, cmake_minor_fn()) {
                    let w = choose|w: int|
                        0 <= w < big.len() && cmake_minor_fn()(#[trigger] big[w]);
                    assert(!cmake_minor_class(big[w]));
                }
                if pat.is_none() && exists_where(big, cmake_patch_fn()) {
                    let w = choose|w: int|
                        0 <= w < big.len() && cmake_patch_fn()(#[trigger] big[w]);
                    assert(!cmake_patch_class(big[w]));
                }
            }
            Ok(None)
        },
    }
}

fn cmake_project_canon_exec(l: &str, v: SemVer) -> (r: String)
    requires
        cmake_project_class(l@),
    ensures
        r@ == cmake_project_canon(l@, v),
{
    proof {
        reveal_strlit("VERSION");
        reveal_strlit("VERSION ");
        assert("VERSION"@ =~= ver_key());
        assert("VERSION "@ =~= ver_key() + seq![' ']);
    }
    let f = match find_str(l, "VERSION") {
        Some(f) => f,
        None => {
            proof {
                assert(false);
            }
            0
        },
    };
    proof {
        lemma_find_properties(l@, ver_key());
    }
    let mut out = String::from_str(l.substring_char(0, f));
    out.append("VERSION ");
    let ver = version_string(v);
    out.append(ver.as_str());
    proof {
        assert(out@ =~= cmake_project_canon(l@, v));
    }
    out
}

fn cmake_set_canon_exec(v: SemVer) -> (r: String)
    ensures
        r@ == cmake_set_canon(v),
{
    proof {
        reveal_strlit("set(PROJECT_VERSION ");
        reveal_strlit(")");
        assert("set(PROJECT_VERSION "@ =~= set_pv_key());
        assert(")"@ =~= seq![')']);
    }
    let mut out = String::from_str("set(PROJECT_VERSION ");
    let ver = version_string(v);
    out.append(ver.as_str());
    out.append(")");
    proof {
        assert(out@ =~= cmake_set_canon(v));
    }
    out
}

fn cmake_major_canon_exec(n: u64) -> (r: String)
    ensures
        r@ == cmake_major_canon(n),
{
    proof {
        reveal_strlit("set(PROJECT_VERSION_MAJOR ");
        reveal_strlit(")");
        assert("set(PROJECT_VERSION_MAJOR "@ =~= maj_key());
        assert(")"@ =~= seq![')']);
    }
    let mut out = String::from_str("set(PROJECT_VERSION_MAJOR ");
    let d = u64_to_string(n);
    out.append(d.as_str());
    out.append(")");
    proof {
        assert(out@ =~= cmake_major_canon(n));
    }
    out
}

fn cmake_minor_canon_exec(n: u64) -> (r: String)
    ensures
        r@ == cmake_minor_canon(n),
{
    proof {
        reveal_strlit("set(PROJECT_VERSION_MINOR ");
        reveal_strlit(")");
        assert("set(PROJECT_VERSION_MINOR "@ =~= min_key());
        assert(")"@ =~= seq![')']);
    }
    let mut out = String::from_str("set(PROJECT_VERSION_MINOR ");
    let d = u64_to_string(n);
    out.append(d.as_str());
    out.append(")");
    proof {
        assert(out@ =~= cmake_minor_canon(n));
    }
    out
}

fn cmake_patch_canon_exec(n: u64) -> (r: String)
    ensures
        r@ == cmake_patch_canon(n),
{
    proof {
        reveal_strlit("set(PROJECT_VERSION_PATCH ");
        reveal_strlit(")");
        assert("set(PROJECT_VERSION_PATCH "@ =~= pat_key());
        assert(")"@ =~= seq![')']);
    }
    let mut out = String::from_str("set(PROJECT_VERSION_PATCH ");
    let d = u64_to_string(n);
    out.append(d.as_str());
    out.append(")");
    proof {
        assert(out@ =~= cmake_patch_canon(n));
    }
    out
}

/// Rewrites the version declarations of a CMake project file: the first
/// project call with a `VERSION` keyword, the first whole-version set
/// command, and every component set command; all other lines are kept
/// verbatim.
pub fn update_cmake_version(content: &str, major: u64, minor: u64, patch: u64) -> (r: String)
    ensures
        r@ == spec_update_cmake(content@, SemVer { major, minor, patch }),
{
    let v = SemVer { major, minor, patch };
    let ghost big = spec_split_lines(content@);
    let ls = split_lines(content);
    let mut out: Vec<String> = Vec::new();
    let mut done_project = false;
    let mut done_set = false;
    let mut i: usize = 0;
    proof {
        assert(out.deep_view() =~= Seq::new(0, |j: int| cmake_rewrite_line_at(big, j, v)));
    }
    while i < ls.len()
        invariant
            v == (SemVer { major, minor, patch }),
            big == spec_split_lines(content@),
            ls.deep_view() == big,
            big.len() == ls.len(),
            0 <= i <= ls.len(),
            done_project <==> (exists|j: int|
                0 <= j < i && cmake_project_class(#[trigger] big[j])),
            done_set <==> (exists|j: int| 0 <= j < i && cmake_set_class(#[trigger] big[j])),
            out.deep_view() == Seq::new(i as nat, |j: int| cmake_rewrite_line_at(big, j, v)),
        decreases ls.len() - i,
    {
        proof {
            assert(ls@[i as int]@ == big[i as int]);
        }
        let ghost old_dv = out.deep_view();
        let line: String = if cmake_project_class_exec(ls[i].as_str()) {
            if !done_project {
                proof {
                    lemma_first_where_at(big, cmake_project_fn(), i as int);
                    assert(cmake_rewrite_line_at(big, i as int, v) == cmake_project_canon(
                        big[i as int],
                        v,
                    ));
                }
                done_project = true;
                cmake_project_canon_exec(ls[i].as_str(), v)
            } else {
                proof {
                    assert(exists_where(big, cmake_project_fn()));
                    lemma_first_where(big, cmake_project_fn());
                    let j0 = choose|j: int|
                        0 <= j < i && cmake_project_class(#[trigger] big[j]);
                    if first_where(big, cmake_project_fn()) == i {
                        assert(!cmake_project_class(big[j0]));
                    }
                    assert(first_where(big, cmake_project_fn()) != i as int);
                    assert(cmake_rewrite_line_at(big, i as int, v) == big[i as int]);
                }
                String::from_str(ls[i].as_str())
            }
        } else if cmake_set_class_exec(ls[i].as_str()) {
            if !done_set {
                proof {
                    lemma_first_where_at(big, cmake_set_fn(), i as int);
                    assert(cmake_rewrite_line_at(big, i as int, v) == cmake_set_canon(v));
                }
                done_set = true;
                cmake_set_canon_exec(v)
            } else {
                proof {
                    assert(exists_where(big, cmake_set_fn()));
                    lemma_first_where(big, cmake_set_fn());
                    let j0 = choose|j: int| 0 <= j < i && cmake_set_class(#[trigger] big[j]);
                    if first_where(big, cmake_set_fn()) == i {
                        assert(!cmake_set_class(big[j0]));
                    }
                    assert(first_where(big, cmake_set_fn()) != i as int);
                    assert(cmake_rewrite_line_at(big, i as int, v) == big[i as int]);
                }
                String::from_str(ls[i].as_str())
            }
        } else if cmake_major_class_exec(ls[i].as_str()) {
            proof {
                assert(cmake_rewrite_line_at(big, i as int, v) == cmake_major_canon(v.major));
            }
            cmake_major_canon_exec(major)
        } else if cmake_minor_class_exec(ls[i].as_str()) {
            proof {
                assert(cmake_rewrite_line_at(big, i as int, v) == cmake_minor_canon(v.minor));
            }
            cmake_minor_canon_exec(minor)
        } else if cmake_patch_class_exec(ls[i].as_str()) {
            proof {
                assert(cmake_rewrite_line_at(big, i as int, v) == cmake_patch_canon(v.patch));
            }
            cmake_patch_canon_exec(patch)
        } else {
            proof {
                assert(cmake_rewrite_line_at(big, i as int, v) == big[i as int]);
            }
            String::from_str(ls[i].as_str())
        };
        proof {
            let l = big[i as int];
            if cmake_project_class(l) {
                if i as int == first_where(big, cmake_project_fn()) {
                    assert(line@ == cmake_project_canon(l, v));
                } else {
                    assert(line@ == l);
                }
            } else if cmake_set_class(l) {
                if i as int == first_where(big, cmake_set_fn()) {
                    assert(line@ == cmake_set_canon(v));
                } else {
                    assert(line@ == l);
                }
            } else if cmake_major_class(l) {
                assert(line@ == cmake_major_canon(v.major));
            } else if cmake_minor_class(l) {
                assert(line@ == cmake_minor_canon(v.minor));
            } else if cmake_patch_class(l) {
                assert(line@ == cmake_patch_canon(v.patch));
            } else {
                assert(line@ == l);
            }
            assert(line@ == cmake_rewrite_line_at(big, i as int, v));
        }
        out.push(line);
        proof {
            assert(out.deep_view() =~= old_dv.push(cmake_rewrite_line_at(big, i as int, v)));
            assert(out.deep_view() =~= Seq::new(
                (i + 1) as nat,
                |j: int| cmake_rewrite_line_at(big, j, v),
            ));
        }
        i = i + 1;
    }
    proof {
        assert(out.deep_view() =~= cmake_rewritten_lines(big, v));
    }
    join_lines(&out)
}

/// A project call is no set or component command: their first characters
/// differ.
proof fn lemma_proj_disjoint(l: Seq<char>)
    requires
        cmake_project_class(l),
    ensures
        !cmake_set_class(l),
        !cmake_major_class(l),
        !cmake_minor_class(l),
        !cmake_patch_class(l),
{
    let a = ws_prefix_len(l) as int;
    assert(l[a] == proj_key()[0]);
    if spec_match_at(l, a, set_pv_key()) {
        assert(l[a] == set_pv_key()[0]);
    }
    if spec_match_at(l, a, set_cpv_key()) {
        assert(l[a] == set_cpv_key()[0]);
    }
    if spec_match_at(l, a, maj_key()) {
        assert(l[a] == maj_key()[0]);
    }
    if spec_match_at(l, a, min_key()) {
        assert(l[a] == min_key()[0]);
    }
    if spec_match_at(l, a, pat_key()) {
        assert(l[a] == pat_key()[0]);
    }
}

/// A component command holds its `_MAJOR`/`_MINOR`/`_PATCH` marker, so it
/// is no whole-version set command; and the three markers exclude each
/// other.
proof fn lemma_comp_disjoint(l: Seq<char>)
    ensures
        cmake_major_class(l) ==> !cmake_set_class(l) && !cmake_minor_class(l)
            && !cmake_patch_class(l),
        cmake_minor_class(l) ==> !cmake_set_class(l) && !cmake_patch_class(l),
        cmake_patch_class(l) ==> !cmake_set_class(l),
{
    let a = ws_prefix_len(l) as int;
    if cmake_major_class(l) {
        assert forall|k: int| 0 <= k < 6 implies l[a + 19 + k] == #[trigger] uscore_major()[k] by {
            assert(l[a + 19 + k] == maj_key()[19 + k]);
        }
        assert(spec_match_at(l, a + 19, uscore_major()));
        assert(spec_contains(l, uscore_major()));
        if cmake_minor_class(l) {
            assert(l[a + 21] == maj_key()[21]);
            assert(l[a + 21] == min_key()[21]);
        }
        if cmake_patch_class(l) {
            assert(l[a + 20] == maj_key()[20]);
            assert(l[a + 20] == pat_key()[20]);
        }
    }
    if cmake_minor_class(l) {
        assert forall|k: int| 0 <= k < 6 implies l[a + 19 + k] == #[trigger] uscore_minor()[k] by {
            assert(l[a + 19 + k] == min_key()[19 + k]);
        }
        assert(spec_match_at(l, a + 19, uscore_minor()));
        assert(spec_contains(l, uscore_minor()));
        if cmake_patch_class(l) {
            assert(l[a + 20] == min_key()[20]);
            assert(l[a + 20] == pat_key()[20]);
        }
    }
    if cmake_patch_class(l) {
        assert forall|k: int| 0 <= k < 6 implies l[a + 19 + k] == #[trigger] uscore_patch()[k] by {
            assert(l[a + 19 + k] == pat_key()[19 + k]);
        }
        assert(spec_match_at(l, a + 19, uscore_patch()));
        assert(spec_contains(l, uscore_patch()));
    }
}

/// Inside a project line the `VERSION` keyword stands after the
/// `project(` head, and the line keeps its indent when rewritten.
proof fn lemma_proj_canon_base(l: Seq<char>, v: SemVer)
    requires
        cmake_project_class(l),
    ensures
        spec_find(l, ver_key()) >= ws_prefix_len(l) + 8,
        spec_find(l, ver_key()) + 7 <= l.len(),
        spec_match_at(l, spec_find(l, ver_key()), ver_key()),
        forall|j: int| 0 <= j < spec_find(l, ver_key()) ==> !spec_match_at(l, j, ver_key()),
        ws_prefix_len(cmake_project_canon(l, v)) == ws_prefix_len(l),
        spec_match_at(cmake_project_canon(l, v), ws_prefix_len(l) as int, proj_key()),
{
    lemma_ws_prefix(l);
    lemma_find_properties(l, ver_key());
    let a = ws_prefix_len(l) as int;
    let f = spec_find(l, ver_key());
    let c = cmake_project_canon(l, v);
    assert(l[f] == ver_key()[0]);
    assert(!is_line_ws('V'));
    assert forall|k: int| 0 <= k < 8 implies l[a + k] == #[trigger] proj_key()[k] by {}
    assert(f >= a + 8) by {
        if f < a {
            assert(is_line_ws(l[f]));
        }
        if a <= f < a + 8 {
            assert(l[f] == proj_key()[f - a]);
        }
    }
    assert(forall|j: int| 0 <= j < f ==> c[j] == l[j]);
    assert(c[a] == 'p');
    lemma_ws_prefix_at(c, a);
    assert(spec_match_at(c, a, proj_key()));
}

/// The `VERSION` keyword of the rewritten project line stands where it
/// stood in the original.
#[verifier::rlimit(100)]
#[verifier::spinoff_prover]
proof fn lemma_proj_canon_find(l: Seq<char>, v: SemVer)
    requires
        cmake_project_class(l),
    ensures
        spec_find(cmake_project_canon(l, v), ver_key()) == spec_find(l, ver_key()),
        spec_match_at(cmake_project_canon(l, v), spec_find(l, ver_key()), ver_key()),
{
    lemma_proj_canon_base(l, v);
    let f = spec_find(l, ver_key());
    let c = cmake_project_canon(l, v);
    assert(forall|j: int| 0 <= j < f ==> c[j] == l[j]);
    assert forall|k: int| 0 <= k < 7 implies c[f + k] == #[trigger] ver_key()[k] by {}
    assert(spec_match_at(c, f, ver_key()));
    assert(f + 7 <= c.len());
    assert forall|j: int| 0 <= j < f implies !spec_match_at(c, j, ver_key()) by {
        if spec_match_at(c, j, ver_key()) {
            if j + 7 <= f {
                crate::text::lemma_match_transfer(l, c, f, j, ver_key());
            } else {
                assert(c[j + (f - j)] == ver_key()[f - j]);
                assert(c[f] == ver_key()[0]);
                assert(1 <= f - j < 7);
                assert(ver_key()[f - j] != 'V');
            }
        }
    }
    lemma_find_at(c, ver_key(), f);
}

/// The rewritten project line: the `VERSION` keyword stands where it stood,
/// the line still belongs to the project class and to no other, it reads
/// back exactly `v`, rewriting it again changes nothing, and no line break
/// appears.
#[verifier::rlimit(100)]
proof fn lemma_proj_canon_props(l: Seq<char>, v: SemVer)
    requires
        cmake_project_class(l),
    ensures
        spec_find(cmake_project_canon(l, v), ver_key()) == spec_find(l, ver_key()),
        cmake_project_class(cmake_project_canon(l, v)),
        !cmake_set_class(cmake_project_canon(l, v)),
        !cmake_major_class(cmake_project_canon(l, v)),
        !cmake_minor_class(cmake_project_canon(l, v)),
        !cmake_patch_class(cmake_project_canon(l, v)),
        cmake_project_version(cmake_project_canon(l, v)) == Ok::<SemVer, VersionError>(v),
        cmake_project_canon(cmake_project_canon(l, v), v) == cmake_project_canon(l, v),
        line_is_clean(l) ==> line_is_clean(cmake_project_canon(l, v)),
{
    lemma_version_str_chars(v);
    lemma_proj_canon_base(l, v);
    lemma_proj_canon_find(l, v);
    let a = ws_prefix_len(l) as int;
    let f = spec_find(l, ver_key());
    let vstr = spec_version_str(v);
    let c = cmake_project_canon(l, v);
    assert(spec_contains(c, ver_key()));
    assert(cmake_project_class(c));
    lemma_proj_disjoint(c);
    // Reading back.
    assert(c[f + 7] == ' ');
    assert forall|i: int| 0 <= i < vstr.len() implies c[f + 8 + i] == vstr[i] by {}
    lemma_version_after_value(c, f + 7, 1, v);
    // Rewriting the rewritten line reproduces it.
    assert(c.subrange(0, f) =~= l.subrange(0, f));
    assert(cmake_project_canon(c, v) =~= c);
    // No line breaks.
    if line_is_clean(l) {
        assert forall|j: int| 0 <= j < c.len() implies #[trigger] c[j] != '\n' by {
            if j < f {
                assert(c[j] == l[j]);
            } else if j < f + 7 {
                assert(c[j] == ver_key()[j - f]);
            } else if j == f + 7 {
            } else {
                assert(c[j] == vstr[j - f - 8]);
                assert(is_digit(vstr[j - f - 8]) || vstr[j - f - 8] == '.');
            }
        }
    }
}

/// The canonical whole-version set command: it belongs to the set class
/// and to no other, and reads back exactly `v`.
#[verifier::rlimit(80)]
proof fn lemma_set_canon_props(v: SemVer)
    ensures
        cmake_set_class(cmake_set_canon(v)),
        !cmake_project_class(cmake_set_canon(v)),
        !cmake_major_class(cmake_set_canon(v)),
        !cmake_minor_class(cmake_set_canon(v)),
        !cmake_patch_class(cmake_set_canon(v)),
        cmake_set_version(cmake_set_canon(v)) == Ok::<SemVer, VersionError>(v),
        line_is_clean(cmake_set_canon(v)),
{
    lemma_version_str_chars(v);
    let vstr = spec_version_str(v);
    let c = cmake_set_canon(v);
    assert(c[0] == 's');
    assert(!is_line_ws('s'));
    lemma_ws_prefix_at(c, 0);
    assert forall|k: int| 0 <= k < 20 implies c[k] == #[trigger] set_pv_key()[k] by {}
    assert(spec_match_at(c, 0, set_pv_key()));
    // An underscore stands only inside `PROJECT_VERSION`.
    assert forall|j: int| 0 <= j < c.len() && #[trigger] c[j] == '_' implies j == 11 by {
        if 20 <= j < 20 + vstr.len() {
            assert(c[j] == vstr[j - 20]);
            assert(is_digit(vstr[j - 20]) || vstr[j - 20] == '.');
        }
    }
    assert(!spec_contains(c, uscore_major())) by {
        if spec_contains(c, uscore_major()) {
            let j = choose|j: int| spec_match_at(c, j, uscore_major());
            assert(c[j] == uscore_major()[0]);
            assert(c[j + 1] == uscore_major()[1]);
        }
    }
    assert(!spec_contains(c, uscore_minor())) by {
        if spec_contains(c, uscore_minor()) {
            let j = choose|j: int| spec_match_at(c, j, uscore_minor());
            assert(c[j] == uscore_minor()[0]);
            assert(c[j + 1] == uscore_minor()[1]);
        }
    }
    assert(!spec_contains(c, uscore_patch())) by {
        if spec_contains(c, uscore_patch()) {
            let j = choose|j: int| spec_match_at(c, j, uscore_patch());
            assert(c[j] == uscore_patch()[0]);
            assert(c[j + 1] == uscore_patch()[1]);
        }
    }
    assert(cmake_set_class(c));
    if spec_match_at(c, 0, proj_key()) {
        assert(c[0] == proj_key()[0]);
    }
    if spec_match_at(c, 0, maj_key()) {
        assert(c[19] == maj_key()[19]);
    }
    if spec_match_at(c, 0, min_key()) {
        assert(c[19] == min_key()[19]);
    }
    if spec_match_at(c, 0, pat_key()) {
        assert(c[19] == pat_key()[19]);
    }
    assert forall|i: int| 0 <= i < vstr.len() implies c[20 + i] == vstr[i] by {}
    assert(c[20 + vstr.len() as int] == ')');
    lemma_version_after_value(c, 20, 0, v);
    assert forall|j: int| 0 <= j < c.len() implies #[trigger] c[j] != '\n' by {
        if 20 <= j < 20 + vstr.len() {
            assert(c[j] == vstr[j - 20]);
            assert(is_digit(vstr[j - 20]) || vstr[j - 20] == '.');
        }
    }
}

/// The canonical component commands: each belongs to its own class and to
/// no other, and reads back exactly its number.
#[verifier::rlimit(80)]
proof fn lemma_comp_canon_props(n: u64)
    ensures
        cmake_major_class(cmake_major_canon(n)),
        !cmake_project_class(cmake_major_canon(n)),
        !cmake_set_class(cmake_major_canon(n)),
        !cmake_minor_class(cmake_major_canon(n)),
        !cmake_patch_class(cmake_major_canon(n)),
        cmake_major_value(cmake_major_canon(n)) == Ok::<u64, VersionError>(n),
        line_is_clean(cmake_major_canon(n)),
        cmake_minor_class(cmake_minor_canon(n)),
        !cmake_project_class(cmake_minor_canon(n)),
        !cmake_set_class(cmake_minor_canon(n)),
        !cmake_major_class(cmake_minor_canon(n)),
        !cmake_patch_class(cmake_minor_canon(n)),
        cmake_minor_value(cmake_minor_canon(n)) == Ok::<u64, VersionError>(n),
        line_is_clean(cmake_minor_canon(n)),
        cmake_patch_class(cmake_patch_canon(n)),
        !cmake_project_class(cmake_patch_canon(n)),
        !cmake_set_class(cmake_patch_canon(n)),
        !cmake_major_class(cmake_patch_canon(n)),
        !cmake_minor_class(cmake_patch_canon(n)),
        cmake_patch_value(cmake_patch_canon(n)) == Ok::<u64, VersionError>(n),
        line_is_clean(cmake_patch_canon(n)),
{
    lemma_dec_str_digits(n as nat);
    let dstr = spec_dec_str(n as nat);
    let cm = cmake_major_canon(n);
    let cn = cmake_minor_canon(n);
    let cp = cmake_patch_canon(n);
    assert(!is_line_ws('s'));
    // Major.
    assert(cm[0] == 's');
    lemma_ws_prefix_at(cm, 0);
    assert forall|k: int| 0 <= k < 26 implies cm[k] == #[trigger] maj_key()[k] by {}
    assert(spec_match_at(cm, 0, maj_key()));
    lemma_comp_disjoint(cm);
    if spec_match_at(cm, 0, proj_key()) {
        assert(cm[0] == proj_key()[0]);
    }
    assert forall|i: int| 0 <= i < dstr.len() implies cm[26 + i] == dstr[i] by {}
    assert(cm[26 + dstr.len() as int] == ')');
    lemma_number_after_value(cm, 26, 0, n);
    assert forall|j: int| 0 <= j < cm.len() implies #[trigger] cm[j] != '\n' by {
        if 26 <= j < 26 + dstr.len() {
            assert(cm[j] == dstr[j - 26]);
            assert(is_digit(dstr[j - 26]));
        }
    }
    // Minor.
    assert(cn[0] == 's');
    lemma_ws_prefix_at(cn, 0);
    assert forall|k: int| 0 <= k < 26 implies cn[k] == #[trigger] min_key()[k] by {}
    assert(spec_match_at(cn, 0, min_key()));
    lemma_comp_disjoint(cn);
    if spec_match_at(cn, 0, proj_key()) {
        assert(cn[0] == proj_key()[0]);
    }
    if spec_match_at(cn, 0, maj_key()) {
        assert(cn[21] == maj_key()[21]);
    }
    assert forall|i: int| 0 <= i < dstr.len() implies cn[26 + i] == dstr[i] by {}
    assert(cn[26 + dstr.len() as int] == ')');
    lemma_number_after_value(cn, 26, 0, n);
    assert forall|j: int| 0 <= j < cn.len() implies #[trigger] cn[j] != '\n' by {
        if 26 <= j < 26 + dstr.len() {
            assert(cn[j] == dstr[j - 26]);
            assert(is_digit(dstr[j - 26]));
        }
    }
    // Patch.
    assert(cp[0] == 's');
    lemma_ws_prefix_at(cp, 0);
    assert forall|k: int| 0 <= k < 26 implies cp[k] == #[trigger] pat_key()[k] by {}
    assert(spec_match_at(cp, 0, pat_key()));
    lemma_comp_disjoint(cp);
    if spec_match_at(cp, 0, proj_key()) {
        assert(cp[0] == proj_key()[0]);
    }
    if spec_match_at(cp, 0, maj_key()) {
        assert(cp[20] == maj_key()[20]);
    }
    if spec_match_at(cp, 0, min_key()) {
        assert(cp[20] == min_key()[20]);
    }
    assert forall|i: int| 0 <= i < dstr.len() implies cp[26 + i] == dstr[i] by {}
    assert(cp[26 + dstr.len() as int] == ')');
    lemma_number_after_value(cp, 26, 0, n);
    assert forall|j: int| 0 <= j < cp.len() implies #[trigger] cp[j] != '\n' by {
        if 26 <= j < 26 + dstr.len() {
            assert(cp[j] == dstr[j - 26]);
            assert(is_digit(dstr[j - 26]));
        }
    }
}

/// One rewritten line belongs to exactly the classes its original belonged
/// to, and stays free of line breaks.
proof fn lemma_cmake_classes_preserved(ls: Seq<Seq<char>>, i: int, v: SemVer)
    requires
        0 <= i < ls.len(),
    ensures
        cmake_project_class(cmake_rewrite_line_at(ls, i, v)) == cmake_project_class(ls[i]),
        cmake_set_class(cmake_rewrite_line_at(ls, i, v)) == cmake_set_class(ls[i]),
        cmake_major_class(cmake_rewrite_line_at(ls, i, v)) == cmake_major_class(ls[i]),
        cmake_minor_class(cmake_rewrite_line_at(ls, i, v)) == cmake_minor_class(ls[i]),
        cmake_patch_class(cmake_rewrite_line_at(ls, i, v)) == cmake_patch_class(ls[i]),
        line_is_clean(ls[i]) ==> line_is_clean(cmake_rewrite_line_at(ls, i, v)),
{
    let l = ls[i];
    if cmake_project_class(l) {
        lemma_proj_disjoint(l);
        if i == first_where(ls, cmake_project_fn()) {
            lemma_proj_canon_props(l, v);
        }
    } else if cmake_set_class(l) {
        lemma_comp_disjoint(l);
        if i == first_where(ls, cmake_set_fn()) {
            lemma_set_canon_props(v);
        }
    } else if cmake_major_class(l) {
        lemma_comp_disjoint(l);
        lemma_comp_canon_props(v.major);
    } else if cmake_minor_class(l) {
        lemma_comp_disjoint(l);
        lemma_comp_canon_props(v.minor);
    } else if cmake_patch_class(l) {
        lemma_comp_disjoint(l);
        lemma_comp_canon_props(v.patch);
    }
}

/// For every pattern class, the rewritten lines have the same matching
/// lines, at the same places.
proof fn lemma_cmake_rewrite_structure(ls: Seq<Seq<char>>, v: SemVer)
    ensures
        forall|i: int|
            0 <= i < ls.len() ==> cmake_project_class(
                #[trigger] cmake_rewritten_lines(ls, v)[i],
            ) == cmake_project_class(ls[i]),
        forall|i: int|
            0 <= i < ls.len() ==> cmake_set_class(#[trigger] cmake_rewritten_lines(ls, v)[i])
                == cmake_set_class(ls[i]),
        forall|i: int|
            0 <= i < ls.len() ==> cmake_major_class(#[trigger] cmake_rewritten_lines(ls, v)[i])
                == cmake_major_class(ls[i]),
        forall|i: int|
            0 <= i < ls.len() ==> cmake_minor_class(#[trigger] cmake_rewritten_lines(ls, v)[i])
                == cmake_minor_class(ls[i]),
        forall|i: int|
            0 <= i < ls.len() ==> cmake_patch_class(#[trigger] cmake_rewritten_lines(ls, v)[i])
                == cmake_patch_class(ls[i]),
        exists_where(cmake_rewritten_lines(ls, v), cmake_project_fn()) == exists_where(
            ls,
            cmake_project_fn(),
        ),
        exists_where(cmake_rewritten_lines(ls, v), cmake_set_fn()) == exists_where(
            ls,
            cmake_set_fn(),
        ),
        exists_where(cmake_rewritten_lines(ls, v), cmake_major_fn()) == exists_where(
            ls,
            cmake_major_fn(),
        ),
        exists_where(cmake_rewritten_lines(ls, v), cmake_minor_fn()) == exists_where(
            ls,
            cmake_minor_fn(),
        ),
        exists_where(cmake_rewritten_lines(ls, v), cmake_patch_fn()) == exists_where(
            ls,
            cmake_patch_fn(),
        ),
        no_line_breaks(ls) ==> no_line_breaks(cmake_rewritten_lines(ls, v)),
{
    let ls2 = cmake_rewritten_lines(ls, v);
    assert forall|i: int| 0 <= i < ls.len() implies cmake_project_class(#[trigger] ls2[i])
        == cmake_project_class(ls[i]) && cmake_set_class(ls2[i]) == cmake_set_class(ls[i])
        && cmake_major_class(ls2[i]) == cmake_major_class(ls[i]) && cmake_minor_class(ls2[i])
        == cmake_minor_class(ls[i]) && cmake_patch_class(ls2[i]) == cmake_patch_class(ls[i]) by {
        lemma_cmake_classes_preserved(ls, i, v);
    }
    assert(exists_where(ls2, cmake_project_fn()) == exists_where(ls, cmake_project_fn())) by {
        if exists_where(ls, cmake_project_fn()) {
            let w = choose|w: int| 0 <= w < ls.len() && cmake_project_fn()(#[trigger] ls[w]);
            assert(cmake_project_fn()(ls2[w]));
        }
        if exists_where(ls2, cmake_project_fn()) {
            let w = choose|w: int| 0 <= w < ls2.len() && cmake_project_fn()(#[trigger] ls2[w]);
            assert(cmake_project_fn()(ls[w]));
        }
    }
    assert(exists_where(ls2, cmake_set_fn()) == exists_where(ls, cmake_set_fn())) by {
        if exists_where(ls, cmake_set_fn()) {
            let w = choose|w: int| 0 <= w < ls.len() && cmake_set_fn()(#[trigger] ls[w]);
            assert(cmake_set_fn()(ls2[w]));
        }
        if exists_where(ls2, cmake_set_fn()) {
            let w = choose|w: int| 0 <= w < ls2.len() && cmake_set_fn()(#[trigger] ls2[w]);
            assert(cmake_set_fn()(ls[w]));
        }
    }
    assert(exists_where(ls2, cmake_major_fn()) == exists_where(ls, cmake_major_fn())) by {
        if exists_where(ls, cmake_major_fn()) {
            let w = choose|w: int| 0 <= w < ls.len() && cmake_major_fn()(#[trigger] ls[w]);
            assert(cmake_major_fn()(ls2[w]));
        }
        if exists_where(ls2, cmake_major_fn()) {
            let w = choose|w: int| 0 <= w < ls2.len() && cmake_major_fn()(#[trigger] ls2[w]);
            assert(cmake_major_fn()(ls[w]));
        }
    }
    assert(exists_where(ls2, cmake_minor_fn()) == exists_where(ls, cmake_minor_fn())) by {
        if exists_where(ls, cmake_minor_fn()) {
            let w = choose|w: int| 0 <= w < ls.len() && cmake_minor_fn()(#[trigger] ls[w]);
            assert(cmake_minor_fn()(ls2[w]));
        }
        if exists_where(ls2, cmake_minor_fn()) {
            let w = choose|w: int| 0 <= w < ls2.len() && cmake_minor_fn()(#[trigger] ls2[w]);
            assert(cmake_minor_fn()(ls[w]));
        }
    }
    assert(exists_where(ls2, cmake_patch_fn()) == exists_where(ls, cmake_patch_fn())) by {
        if exists_where(ls, cmake_patch_fn()) {
            let w = choose|w: int| 0 <= w < ls.len() && cmake_patch_fn()(#[trigger] ls[w]);
            assert(cmake_patch_fn()(ls2[w]));
        }
        if exists_where(ls2, cmake_patch_fn()) {
            let w = choose|w: int| 0 <= w < ls2.len() && cmake_patch_fn()(#[trigger] ls2[w]);
            assert(cmake_patch_fn()(ls[w]));
        }
    }
    if no_line_breaks(ls) {
        assert forall|i: int| 0 <= i < ls2.len() implies line_is_clean(#[trigger] ls2[i]) by {
            assert(line_is_clean(ls[i]));
            lemma_cmake_classes_preserved(ls, i, v);
        }
    }
}

/// Law: after a rewrite, detection reads back exactly the written version,
/// for any content that holds version declarations the rewrite reaches.
#[verifier::rlimit(100)]
#[verifier::spinoff_prover]
pub proof fn lemma_cmake_detect_after_update(s: Seq<char>, v: SemVer)
    requires
        cmake_has_version_line(s),
    ensures
        spec_detect_cmake(spec_update_cmake(s, v)) == Ok::<Option<SemVer>, VersionError>(Some(v)),
{
    let ls = spec_split_lines(s);
    let ls2 = cmake_rewritten_lines(ls, v);
    lemma_split_lines_clean(s);
    lemma_cmake_rewrite_structure(ls, v);
    lemma_split_join(ls2);
    assert(spec_split_lines(spec_update_cmake(s, v)) == ls2);
    if exists_where(ls, cmake_project_fn()) {
        let i0 = first_where(ls, cmake_project_fn());
        lemma_first_where(ls, cmake_project_fn());
        assert(ls2[i0] == cmake_project_canon(ls[i0], v));
        lemma_proj_canon_props(ls[i0], v);
        assert forall|j: int| 0 <= j < i0 implies !cmake_project_fn()(#[trigger] ls2[j]) by {
            assert(!cmake_project_class(ls[j]));
        }
        lemma_first_where_at(ls2, cmake_project_fn(), i0);
        assert(cmake_project_version(ls2[i0]) == Ok::<SemVer, VersionError>(v));
    } else if exists_where(ls, cmake_set_fn()) {
        let i1 = first_where(ls, cmake_set_fn());
        lemma_first_where(ls, cmake_set_fn());
        assert(!cmake_project_class(ls[i1])) by {
            if cmake_project_class(ls[i1]) {
                lemma_proj_disjoint(ls[i1]);
            }
        }
        assert(ls2[i1] == cmake_set_canon(v));
        lemma_set_canon_props(v);
        assert forall|j: int| 0 <= j < i1 implies !cmake_set_fn()(#[trigger] ls2[j]) by {
            assert(!cmake_set_class(ls[j]));
        }
        lemma_first_where_at(ls2, cmake_set_fn(), i1);
        assert(cmake_set_version(ls2[i1]) == Ok::<SemVer, VersionError>(v));
        assert(!exists_where(ls2, cmake_project_fn()));
    } else {
        let im = first_where(ls, cmake_major_fn());
        let imi = first_where(ls, cmake_minor_fn());
        let ip = first_where(ls, cmake_patch_fn());
        lemma_first_where(ls, cmake_major_fn());
        lemma_first_where(ls, cmake_minor_fn());
        lemma_first_where(ls, cmake_patch_fn());
        lemma_comp_canon_props(v.major);
        lemma_comp_canon_props(v.minor);
        lemma_comp_canon_props(v.patch);
        assert(!cmake_project_class(ls[im]) && !cmake_set_class(ls[im])) by {
            if cmake_project_class(ls[im]) {
                lemma_proj_disjoint(ls[im]);
            }
            lemma_comp_disjoint(ls[im]);
        }
        assert(ls2[im] == cmake_major_canon(v.major));
        assert(!cmake_project_class(ls[imi]) && !cmake_set_class(ls[imi])
            && !cmake_major_class(ls[imi])) by {
            if cmake_project_class(ls[imi]) {
                lemma_proj_disjoint(ls[imi]);
            }
            lemma_comp_disjoint(ls[imi]);
        }
        assert(ls2[imi] == cmake_minor_canon(v.minor));
        assert(!cmake_project_class(ls[ip]) && !cmake_set_class(ls[ip]) && !cmake_major_class(
            ls[ip],
        ) && !cmake_minor_class(ls[ip])) by {
            if cmake_project_class(ls[ip]) {
                lemma_proj_disjoint(ls[ip]);
            }
            lemma_comp_disjoint(ls[ip]);
        }
        assert(ls2[ip] == cmake_patch_canon(v.patch));
        assert forall|j: int| 0 <= j < im implies !cmake_major_fn()(#[trigger] ls2[j]) by {
            assert(!cmake_major_class(ls[j]));
        }
        lemma_first_where_at(ls2, cmake_major_fn(), im);
        assert forall|j: int| 0 <= j < imi implies !cmake_minor_fn()(#[trigger] ls2[j]) by {
            assert(!cmake_minor_class(ls[j]));
        }
        lemma_first_where_at(ls2, cmake_minor_fn(), imi);
        assert forall|j: int| 0 <= j < ip implies !cmake_patch_fn()(#[trigger] ls2[j]) by {
            assert(!cmake_patch_class(ls[j]));
        }
        lemma_first_where_at(ls2, cmake_patch_fn(), ip);
        assert(cmake_major_value(ls2[im]) == Ok::<u64, VersionError>(v.major));
        assert(cmake_minor_value(ls2[imi]) == Ok::<u64, VersionError>(v.minor));
        assert(cmake_patch_value(ls2[ip]) == Ok::<u64, VersionError>(v.patch));
        assert(!exists_where(ls2, cmake_project_fn()));
        assert(!exists_where(ls2, cmake_set_fn()));
        assert((SemVer { major: v.major, minor: v.minor, patch: v.patch }) == v);
    }
}

/// Law: rewriting twice with the same version equals rewriting once.
#[verifier::rlimit(100)]
#[verifier::spinoff_prover]
pub proof fn lemma_cmake_update_idempotent(s: Seq<char>, v: SemVer)
    ensures
        spec_update_cmake(spec_update_cmake(s, v), v) == spec_update_cmake(s, v),
{
    let ls = spec_split_lines(s);
    let ls2 = cmake_rewritten_lines(ls, v);
    lemma_split_lines_clean(s);
    lemma_cmake_rewrite_structure(ls, v);
    lemma_split_join(ls2);
    assert(spec_split_lines(spec_update_cmake(s, v)) == ls2);
    let ls3 = cmake_rewritten_lines(ls2, v);
    assert forall|i: int| 0 <= i < ls2.len() implies #[trigger] ls3[i] == ls2[i] by {
        let l = ls[i];
        lemma_cmake_classes_preserved(ls, i, v);
        if cmake_project_class(l) {
            lemma_proj_disjoint(l);
            lemma_proj_disjoint(ls2[i]);
            if exists_where(ls, cmake_project_fn()) {
                let i0 = first_where(ls, cmake_project_fn());
                lemma_first_where(ls, cmake_project_fn());
                assert forall|j: int| 0 <= j < i0 implies !cmake_project_fn()(
                    #[trigger] ls2[j],
                ) by {
                    lemma_cmake_classes_preserved(ls, j, v);
                }
                lemma_first_where_at(ls2, cmake_project_fn(), i0);
                if i == i0 {
                    lemma_proj_canon_props(l, v);
                    assert(ls2[i] == cmake_project_canon(l, v));
                    assert(ls3[i] == cmake_project_canon(ls2[i], v));
                    lemma_proj_canon_find(l, v);
                    assert(cmake_project_canon(ls2[i], v) =~= ls2[i]);
                } else {
                    assert(ls2[i] == l);
                }
            }
        } else if cmake_set_class(l) {
            lemma_comp_disjoint(l);
            lemma_set_canon_props(v);
            if exists_where(ls, cmake_set_fn()) {
                let i1 = first_where(ls, cmake_set_fn());
                lemma_first_where(ls, cmake_set_fn());
                assert forall|j: int| 0 <= j < i1 implies !cmake_set_fn()(#[trigger] ls2[j]) by {
                    lemma_cmake_classes_preserved(ls, j, v);
                }
                lemma_first_where_at(ls2, cmake_set_fn(), i1);
                if i == i1 {
                    assert(ls2[i] == cmake_set_canon(v));
                } else {
                    assert(ls2[i] == l);
                }
            }
        } else if cmake_major_class(l) {
            lemma_comp_disjoint(l);
            lemma_comp_canon_props(v.major);
        } else if cmake_minor_class(l) {
            lemma_comp_disjoint(l);
            lemma_comp_canon_props(v.minor);
        } else if cmake_patch_class(l) {
            lemma_comp_disjoint(l);
            lemma_comp_canon_props(v.patch);
        }
    }
    assert(ls3 =~= ls2);
}

} // verus!
