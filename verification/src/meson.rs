//! Meson build file adapter.
//!
//! Version declarations come in three pattern classes, tried in this order
//! by detection: a `version : 'x.y.z',` entry of the project call, a
//! `version = 'x.y.z'` variable, and the three
//! `version_major/minor/patch = 'n'` variables together. Rewriting keeps
//! each line's indent, updates every line of the entry class and of the
//! component classes, and leaves everything else verbatim; the variable
//! form is read but never rewritten.

use vstd::prelude::*;
use vstd::string::StrSliceExecFns;
use vstd::string::StringExecFns;
use crate::semver::{
    SemVer, VersionError, spec_version_str, spec_parse_version, version_string,
    lemma_version_str_chars, spec_version_after, spec_number_after, version_after, number_after,
    lemma_version_after_value, lemma_number_after_value, };
use crate::text::{
    is_line_ws, ws_prefix_len, lemma_ws_prefix, lemma_ws_prefix_at, trim_start_len, spec_match_at, match_at, is_digit, spec_dec_str, lemma_dec_str_digits, u64_to_string,
    run_end, run_end_exec, spec_split_lines, spec_join_lines, split_lines,
    join_lines, line_is_clean, lemma_split_lines_clean, lemma_split_join,
    exists_where, first_where, lemma_first_where, lemma_first_where_at,
};
use crate::kv::{kv_class, kv_value_start, kv_class_exec, kv_value_start_exec};

verus! {

/// `version : '`, the head of a project call's version entry.
pub open spec fn mv_key() -> Seq<char> {
    seq!['v', 'e', 'r', 's', 'i', 'o', 'n', ' ', ':', ' ', '\'']
}

/// `version_major = '`.
pub open spec fn mmaj_key() -> Seq<char> {
    seq![
        'v', 'e', 'r', 's', 'i', 'o', 'n', '_', 'm', 'a', 'j', 'o', 'r', ' ', '=', ' ', '\'',
    ]
}

/// `version_minor = '`.
pub open spec fn mmin_key() -> Seq<char> {
    seq![
        'v', 'e', 'r', 's', 'i', 'o', 'n', '_', 'm', 'i', 'n', 'o', 'r', ' ', '=', ' ', '\'',
    ]
}

/// `version_patch = '`.
pub open spec fn mpat_key() -> Seq<char> {
    seq![
        'v', 'e', 'r', 's', 'i', 'o', 'n', '_', 'p', 'a', 't', 'c', 'h', ' ', '=', ' ', '\'',
    ]
}

/// A project call's version entry.
pub open spec fn meson_v_class(l: Seq<char>) -> bool {
    spec_match_at(l, ws_prefix_len(l) as int, mv_key())
}

/// A `version = '...'` variable holding a quoted digit-and-dot value: the
/// key, `=`, an opening quote, a non-empty digit-and-dot run, and a
/// closing quote.
pub open spec fn meson_var_class(l: Seq<char>) -> bool {
    let vs = kv_value_start(l);
    let e = run_end(l, vs + 1, true);
    &&& kv_class(l)
    &&& vs < l.len()
    &&& (l[vs] == '\'' || l[vs] == '"')
    &&& e > vs + 1
    &&& e < l.len()
    &&& (l[e] == '\'' || l[e] == '"')
}

pub open spec fn meson_major_class(l: Seq<char>) -> bool {
    spec_match_at(l, ws_prefix_len(l) as int, mmaj_key())
}

pub open spec fn meson_minor_class(l: Seq<char>) -> bool {
    spec_match_at(l, ws_prefix_len(l) as int, mmin_key())
}

pub open spec fn meson_patch_class(l: Seq<char>) -> bool {
    spec_match_at(l, ws_prefix_len(l) as int, mpat_key())
}

pub open spec fn meson_v_fn() -> spec_fn(Seq<char>) -> bool {
    |l: Seq<char>| meson_v_class(l)
}

pub open spec fn meson_var_fn() -> spec_fn(Seq<char>) -> bool {
    |l: Seq<char>| meson_var_class(l)
}

pub open spec fn meson_major_fn() -> spec_fn(Seq<char>) -> bool {
    |l: Seq<char>| meson_major_class(l)
}

pub open spec fn meson_minor_fn() -> spec_fn(Seq<char>) -> bool {
    |l: Seq<char>| meson_minor_class(l)
}

pub open spec fn meson_patch_fn() -> spec_fn(Seq<char>) -> bool {
    |l: Seq<char>| meson_patch_class(l)
}

/// The indent of a line: its leading whitespace.
pub open spec fn indent_of(l: Seq<char>) -> Seq<char> {
    l.subrange(0, ws_prefix_len(l) as int)
}

/// A version entry rewritten: the indent kept, then the entry in canonical
/// form with a trailing comma.
pub open spec fn meson_v_canon(l: Seq<char>, v: SemVer) -> Seq<char> {
    indent_of(l) + mv_key() + spec_version_str(v) + seq!['\'', ',']
}

pub open spec fn meson_major_canon(l: Seq<char>, n: u64) -> Seq<char> {
    indent_of(l) + mmaj_key() + spec_dec_str(n as nat) + seq!['\'']
}

pub open spec fn meson_minor_canon(l: Seq<char>, n: u64) -> Seq<char> {
    indent_of(l) + mmin_key() + spec_dec_str(n as nat) + seq!['\'']
}

pub open spec fn meson_patch_canon(l: Seq<char>, n: u64) -> Seq<char> {
    indent_of(l) + mpat_key() + spec_dec_str(n as nat) + seq!['\'']
}

/// The version a project-call entry carries, written after its head.
pub open spec fn meson_v_version(l: Seq<char>) -> Result<SemVer, VersionError> {
    spec_version_after(l, ws_prefix_len(l) as int + mv_key().len() as int)
}

/// The version a `version = '...'` variable carries: its quoted value.
pub open spec fn meson_var_version(l: Seq<char>) -> Result<SemVer, VersionError> {
    let vs = kv_value_start(l);
    spec_parse_version(l.subrange(vs + 1, run_end(l, vs + 1, true)))
}

pub open spec fn meson_major_value(l: Seq<char>) -> Result<u64, VersionError> {
    spec_number_after(l, ws_prefix_len(l) as int + mmaj_key().len() as int)
}

pub open spec fn meson_minor_value(l: Seq<char>) -> Result<u64, VersionError> {
    spec_number_after(l, ws_prefix_len(l) as int + mmin_key().len() as int)
}

pub open spec fn meson_patch_value(l: Seq<char>) -> Result<u64, VersionError> {
    spec_number_after(l, ws_prefix_len(l) as int + mpat_key().len() as int)
}

/// Detection: the project-call entry wins; then the quoted variable; then
/// the three component variables, which must all be present.
pub open spec fn spec_detect_meson(s: Seq<char>) -> Result<Option<SemVer>, VersionError> {
    let ls = spec_split_lines(s);
    if exists_where(ls, meson_v_fn()) {
        match meson_v_version(ls[first_where(ls, meson_v_fn())]) {
            Ok(v) => Ok(Some(v)),
            Err(e) => Err(e),
        }
    } else if exists_where(ls, meson_var_fn()) {
        match meson_var_version(ls[first_where(ls, meson_var_fn())]) {
            Ok(v) => Ok(Some(v)),
            Err(e) => Err(e),
        }
    } else if exists_where(ls, meson_major_fn()) && exists_where(ls, meson_minor_fn())
        && exists_where(ls, meson_patch_fn()) {
        match meson_major_value(ls[first_where(ls, meson_major_fn())]) {
            Err(e) => Err(e),
            Ok(major) => match meson_minor_value(ls[first_where(ls, meson_minor_fn())]) {
                Err(e) => Err(e),
                Ok(minor) => match meson_patch_value(ls[first_where(ls, meson_patch_fn())]) {
                    Err(e) => Err(e),
                    Ok(patch) => Ok(Some(SemVer { major, minor, patch })),
                },
            },
        }
    } else {
        Ok(None)
    }
}

/// One line of the rewrite: every entry line and every component line
/// becomes canonical under its own indent; all other lines are kept
/// verbatim.
pub open spec fn meson_rewrite_line(l: Seq<char>, v: SemVer) -> Seq<char> {
    if meson_v_class(l) {
        meson_v_canon(l, v)
    } else if meson_major_class(l) {
        meson_major_canon(l, v.major)
    } else if meson_minor_class(l) {
        meson_minor_canon(l, v.minor)
    } else if meson_patch_class(l) {
        meson_patch_canon(l, v.patch)
    } else {
        l
    }
}

pub open spec fn meson_rewrite_fn(v: SemVer) -> spec_fn(Seq<char>) -> Seq<char> {
    |l: Seq<char>| meson_rewrite_line(l, v)
}

/// Content with its version declarations rewritten to carry `v`.
pub open spec fn spec_update_meson(s: Seq<char>, v: SemVer) -> Seq<char> {
    spec_join_lines(spec_split_lines(s).map_values(meson_rewrite_fn(v)))
}

/// Whether `s` holds version declarations that the rewrite reaches, and
/// none that would shadow them afterwards: a project-call entry, or all
/// three component variables with no quoted `version = '...'` variable
/// standing before them in detection order.
pub open spec fn meson_has_version_line(s: Seq<char>) -> bool {
    let ls = spec_split_lines(s);
    ||| exists_where(ls, meson_v_fn())
    ||| (!exists_where(ls, meson_var_fn()) && exists_where(ls, meson_major_fn())
        && exists_where(ls, meson_minor_fn()) && exists_where(ls, meson_patch_fn()))
}

fn meson_v_class_exec(l: &str) -> (r: bool)
    ensures
        r == meson_v_class(l@),
{
    proof {
        reveal_strlit("version : '");
        assert("version : '"@ =~= mv_key());
        lemma_ws_prefix(l@);
    }
    let a = trim_start_len(l);
    match_at(l, a, "version : '")
}

fn meson_var_class_exec(l: &str) -> (r: bool)
    ensures
        r == meson_var_class(l@),
{
    if !kv_class_exec(l) {
        return false;
    }
    let n = l.unicode_len();
    let vs = kv_value_start_exec(l);
    if vs >= n {
        return false;
    }
    let c = l.get_char(vs);
    if !(c == '\'' || c == '"') {
        return false;
    }
    let e = run_end_exec(l, vs + 1, true);
    if e == vs + 1 || e >= n {
        return false;
    }
    let cc = l.get_char(e);
    cc == '\'' || cc == '"'
}

fn meson_major_class_exec(l: &str) -> (r: bool)
    ensures
        r == meson_major_class(l@),
{
    proof {
        reveal_strlit("version_major = '");
        assert("version_major = '"@ =~= mmaj_key());
        lemma_ws_prefix(l@);
    }
    let a = trim_start_len(l);
    match_at(l, a, "version_major = '")
}

fn meson_minor_class_exec(l: &str) -> (r: bool)
    ensures
        r == meson_minor_class(l@),
{
    proof {
        reveal_strlit("version_minor = '");
        assert("version_minor = '"@ =~= mmin_key());
        lemma_ws_prefix(l@);
    }
    let a = trim_start_len(l);
    match_at(l, a, "version_minor = '")
}

fn meson_patch_class_exec(l: &str) -> (r: bool)
    ensures
        r == meson_patch_class(l@),
{
    proof {
        reveal_strlit("version_patch = '");
        assert("version_patch = '"@ =~= mpat_key());
        lemma_ws_prefix(l@);
    }
    let a = trim_start_len(l);
    match_at(l, a, "version_patch = '")
}

fn meson_v_version_exec(l: &str) -> (r: Result<SemVer, VersionError>)
    requires
        meson_v_class(l@),
    ensures
        r == meson_v_version(l@),
{
    proof {
        lemma_ws_prefix(l@);
    }
    let n = l.unicode_len();
    let a = trim_start_len(l);
    version_after(l, a + 11)
}

fn meson_var_version_exec(l: &str) -> (r: Result<SemVer, VersionError>)
    requires
        meson_var_class(l@),
    ensures
        r == meson_var_version(l@),
{
    let n = l.unicode_len();
    let vs = kv_value_start_exec(l);
    let e = run_end_exec(l, vs + 1, true);
    let sub = l.substring_char(vs + 1, e);
    crate::semver::parse_version_string(sub)
}

fn meson_component_value_exec(l: &str) -> (r: Result<u64, VersionError>)
    requires
        ws_prefix_len(l@) + 17 <= l@.len(),
    ensures
        r == spec_number_after(l@, ws_prefix_len(l@) as int + 17),
{
    proof {
        lemma_ws_prefix(l@);
    }
    let n = l.unicode_len();
    let a = trim_start_len(l);
    number_after(l, a + 17)
}

/// Reads the version of a Meson build file: the project call's version
/// entry, else a quoted `version = '...'` variable, else the three
/// component variables.
pub fn extract_meson_version(content: &str) -> (r: Result<Option<SemVer>, VersionError>)
    ensures
        r == spec_detect_meson(content@),
{
    let ghost big = spec_split_lines(content@);
    let ls = split_lines(content);
    // First pass: the project-call entry.
    let mut i: usize = 0;
    while i < ls.len()
        invariant
            big == spec_split_lines(content@),
            ls.deep_view() == big,
            big.len() == ls.len(),
            0 <= i <= ls.len(),
            forall|j: int| 0 <= j < i ==> !meson_v_class(#[trigger] big[j]),
        decreases ls.len() - i,
    {
        proof {
            assert(ls@[i as int]@ == big[i as int]);
        }
        if meson_v_class_exec(ls[i].as_str()) {
            proof {
                lemma_first_where_at(big, meson_v_fn(), i as int);
            }
            let r = meson_v_version_exec(ls[i].as_str());
            return match r {
                Ok(v) => Ok(Some(v)),
                Err(e) => Err(e),
            };
        }
        i = i + 1;
    }
    proof {
        if exists_where(big, meson_v_fn()) {
            let w = choose|w: int| 0 <= w < big.len() && meson_v_fn()(#[trigger] big[w]);
            assert(!meson_v_class(big[w]));
        }
    }
    // Second pass: the quoted variable.
    let mut i: usize = 0;
    while i < ls.len()
        invariant
            big == spec_split_lines(content@),
            ls.deep_view() == big,
            big.len() == ls.len(),
            0 <= i <= ls.len(),
            !exists_where(big, meson_v_fn()),
            forall|j: int| 0 <= j < i ==> !meson_var_class(#[trigger] big[j]),
        decreases ls.len() - i,
    {
        proof {
            assert(ls@[i as int]@ == big[i as int]);
        }
        if meson_var_class_exec(ls[i].as_str()) {
            proof {
                lemma_first_where_at(big, meson_var_fn(), i as int);
            }
            let r = meson_var_version_exec(ls[i].as_str());
            return match r {
                Ok(v) => Ok(Some(v)),
                Err(e) => Err(e),
            };
        }
        i = i + 1;
    }
    proof {
        if exists_where(big, meson_var_fn()) {
            let w = choose|w: int| 0 <= w < big.len() && meson_var_fn()(#[trigger] big[w]);
            assert(!meson_var_class(big[w]));
        }
    }
    // Third pass: the three component variables.
    let mut maj: Option<usize> = None;
    let mut min: Option<usize> = None;
    let mut pat: Option<usize> = None;
    let mut i: usize = 0;
    while i < ls.len()
        invariant
            big == spec_split_lines(content@),
            ls.deep_view() == big,
            big.len() == ls.len(),
            0 <= i <= ls.len(),
            match maj {
                Some(k) => k < i && meson_major_class(big[k as int]) && (forall|j: int|
                    0 <= j < k ==> !meson_major_class(#[trigger] big[j])),
                None => forall|j: int| 0 <= j < i ==> !meson_major_class(#[trigger] big[j]),
            },
            match min {
                Some(k) => k < i && meson_minor_class(big[k as int]) && (forall|j: int|
                    0 <= j < k ==> !meson_minor_class(#[trigger] big[j])),
                None => forall|j: int| 0 <= j < i ==> !meson_minor_class(#[trigger] big[j]),
            },
            match pat {
                Some(k) => k < i && meson_patch_class(big[k as int]) && (forall|j: int|
                    0 <= j < k ==> !meson_patch_class(#[trigger] big[j])),
                None => forall|j: int| 0 <= j < i ==> !meson_patch_class(#[trigger] big[j]),
            },
        decreases ls.len() - i,
    {
        proof {
            assert(ls@[i as int]@ == big[i as int]);
        }
        if maj.is_none() && meson_major_class_exec(ls[i].as_str()) {
            maj = Some(i);
        }
        if min.is_none() && meson_minor_class_exec(ls[i].as_str()) {
            min = Some(i);
        }
        if pat.is_none() && meson_patch_class_exec(ls[i].as_str()) {
            pat = Some(i);
        }
        i = i + 1;
    }
    match (maj, min, pat) {
        (Some(km), Some(kn), Some(kp)) => {
            proof {
                lemma_first_where_at(big, meson_major_fn(), km as int);
                lemma_first_where_at(big, meson_minor_fn(), kn as int);
                lemma_first_where_at(big, meson_patch_fn(), kp as int);
                assert(ls@[km as int]@ == big[km as int]);
                assert(ls@[kn as int]@ == big[kn as int]);
                assert(ls@[kp as int]@ == big[kp as int]);
            }
            let rm = meson_component_value_exec(ls[km].as_str());
            let rn = meson_component_value_exec(ls[kn].as_str());
            let rp = meson_component_value_exec(ls[kp].as_str());
            match rm {
                Err(e) => Err(e),
                Ok(major) => match rn {
                    Err(e) => Err(e),
                    Ok(minor) => match rp {
                        Err(e) => Err(e),
                        Ok(patch) => Ok(Some(SemVer { major, minor, patch })),
                    },
                },
            }
        },
        _ => {
            proof {
                if maj.is_none() && exists_where(big, meson_major_fn()) {
                    let w = choose|w: int|
                        0 <= w < big.len() && meson_major_fn()(#[trigger] big[w]);
                    assert(!meson_major_class(big[w]));
                }
                if min.is_none() && exists_where(big, meson_minor_fn()) {
                    let w = choose|w: int|
                        0 <= w < big.len() && meson_minor_fn()(#[trigger] big[w]);
                    assert(!meson_minor_class(big[w]));
                }
                if pat.is_none() && exists_where(big, meson_patch_fn()) {
                    let w = choose|w: int|
                        0 <= w < big.len() && meson_patch_fn()(#[trigger] big[w]);
                    assert(!meson_patch_class(big[w]));
                }
            }
            Ok(None)
        },
    }
}

fn meson_line_canon_exec(l: &str, key: &str, tail: &str, body: &str) -> (r: String)
    requires
        ws_prefix_len(l@) <= l@.len(),
    ensures
        r@ == indent_of(l@) + key@ + body@ + tail@,
{
    proof {
        lemma_ws_prefix(l@);
    }
    let a = trim_start_len(l);
    let mut out = String::from_str(l.substring_char(0, a));
    out.append(key);
    out.append(body);
    out.append(tail);
    proof {
        assert(out@ =~= indent_of(l@) + key@ + body@ + tail@);
    }
    out
}

/// Rewrites the version declarations of a Meson build file: every
/// project-call entry and every component variable, each under its own
/// indent; all other lines are kept verbatim.
pub fn update_meson_version(content: &str, major: u64, minor: u64, patch: u64) -> (r: String)
    ensures
        r@ == spec_update_meson(content@, SemVer { major, minor, patch }),
{
    let v = SemVer { major, minor, patch };
    let ghost big = spec_split_lines(content@);
    let ls = split_lines(content);
    let mut out: Vec<String> = Vec::new();
    let mut i: usize = 0;
    proof {
        reveal_strlit("version : '");
        reveal_strlit("version_major = '");
        reveal_strlit("version_minor = '");
        reveal_strlit("version_patch = '");
        reveal_strlit("',");
        reveal_strlit("'");
        assert(out.deep_view() =~= big.subrange(0, 0).map_values(meson_rewrite_fn(v)));
    }
    while i < ls.len()
        invariant
            v == (SemVer { major, minor, patch }),
            big == spec_split_lines(content@),
            ls.deep_view() == big,
            big.len() == ls.len(),
            0 <= i <= ls.len(),
            out.deep_view() == big.subrange(0, i as int).map_values(meson_rewrite_fn(v)),
        decreases ls.len() - i,
    {
        proof {
            reveal_strlit("version : '");
            reveal_strlit("version_major = '");
            reveal_strlit("version_minor = '");
            reveal_strlit("version_patch = '");
            reveal_strlit("',");
            reveal_strlit("'");
            assert("version : '"@ =~= mv_key());
            assert("version_major = '"@ =~= mmaj_key());
            assert("version_minor = '"@ =~= mmin_key());
            assert("version_patch = '"@ =~= mpat_key());
            assert("',"@ =~= seq!['\'', ',']);
            assert("'"@ =~= seq!['\'']);
            assert(ls@[i as int]@ == big[i as int]);
        }
        let line: String = if meson_v_class_exec(ls[i].as_str()) {
            let body = version_string(v);
            meson_line_canon_exec(ls[i].as_str(), "version : '", "',", body.as_str())
        } else if meson_major_class_exec(ls[i].as_str()) {
            let body = u64_to_string(major);
            meson_line_canon_exec(ls[i].as_str(), "version_major = '", "'", body.as_str())
        } else if meson_minor_class_exec(ls[i].as_str()) {
            let body = u64_to_string(minor);
            meson_line_canon_exec(ls[i].as_str(), "version_minor = '", "'", body.as_str())
        } else if meson_patch_class_exec(ls[i].as_str()) {
            let body = u64_to_string(patch);
            meson_line_canon_exec(ls[i].as_str(), "version_patch = '", "'", body.as_str())
        } else {
            String::from_str(ls[i].as_str())
        };
        assert(line@ == meson_rewrite_line(big[i as int], v));
        let ghost old_dv = out.deep_view();
        out.push(line);
        proof {
            assert(out.deep_view() =~= old_dv.push(meson_rewrite_line(big[i as int], v)));
            assert(out.deep_view() =~= big.subrange(0, i + 1).map_values(meson_rewrite_fn(v)));
        }
        i = i + 1;
    }
    proof {
        assert(big.subrange(0, big.len() as int) =~= big);
    }
    join_lines(&out)
}

/// The pattern classes of one line exclude each other.
proof fn lemma_meson_disjoint(l: Seq<char>)
    ensures
        meson_v_class(l) ==> !meson_major_class(l) && !meson_minor_class(l)
            && !meson_patch_class(l) && !meson_var_class(l),
        meson_major_class(l) ==> !meson_minor_class(l) && !meson_patch_class(l)
            && !meson_var_class(l),
        meson_minor_class(l) ==> !meson_patch_class(l) && !meson_var_class(l),
        meson_patch_class(l) ==> !meson_var_class(l),
{
    let a = ws_prefix_len(l) as int;
    if meson_v_class(l) {
        if meson_major_class(l) {
            assert(l[a + 7] == mv_key()[7]);
            assert(l[a + 7] == mmaj_key()[7]);
        }
        if meson_minor_class(l) {
            assert(l[a + 7] == mv_key()[7]);
            assert(l[a + 7] == mmin_key()[7]);
        }
        if meson_patch_class(l) {
            assert(l[a + 7] == mv_key()[7]);
            assert(l[a + 7] == mpat_key()[7]);
        }
        if meson_var_class(l) {
            let t = l.subrange(a + 7, l.len() as int);
            assert(t[0] == mv_key()[7]);
            assert(t[1] == mv_key()[8]);
            assert(is_line_ws(t[0]) && !is_line_ws(t[1]));
            lemma_ws_prefix_at(t, 1);
            assert(crate::kv::kv_eq_pos(l) == a + 8);
            assert(l[a + 8] == ':');
        }
    }
    if meson_major_class(l) || meson_minor_class(l) || meson_patch_class(l) {
        if meson_major_class(l) && meson_minor_class(l) {
            assert(l[a + 9] == mmaj_key()[9]);
            assert(l[a + 9] == mmin_key()[9]);
        }
        if meson_major_class(l) && meson_patch_class(l) {
            assert(l[a + 8] == mmaj_key()[8]);
            assert(l[a + 8] == mpat_key()[8]);
        }
        if meson_minor_class(l) && meson_patch_class(l) {
            assert(l[a + 8] == mmin_key()[8]);
            assert(l[a + 8] == mpat_key()[8]);
        }
        if meson_var_class(l) {
            let t = l.subrange(a + 7, l.len() as int);
            if meson_major_class(l) {
                assert(t[0] == mmaj_key()[7]);
            }
            if meson_minor_class(l) {
                assert(t[0] == mmin_key()[7]);
            }
            if meson_patch_class(l) {
                assert(t[0] == mpat_key()[7]);
            }
            assert(t[0] == '_');
            lemma_ws_prefix_at(t, 0);
            assert(crate::kv::kv_eq_pos(l) == a + 7);
            assert(l[a + 7] == '_');
        }
    }
}

/// A canonical entry or component line: it belongs to its own class and to
/// no other, keeps the indent, reads back its value, and holds no line
/// break.
#[verifier::rlimit(100)]
#[verifier::spinoff_prover]
proof fn lemma_meson_canon_props(l: Seq<char>, v: SemVer)
    ensures
        ({
            let c = meson_v_canon(l, v);
            meson_v_class(c) && !meson_var_class(c) && !meson_major_class(c)
                && !meson_minor_class(c) && !meson_patch_class(c) && indent_of(c) == indent_of(l)
                && meson_v_version(c) == Ok::<SemVer, VersionError>(v) && line_is_clean(c)
        }),
        ({
            let c = meson_major_canon(l, v.major);
            meson_major_class(c) && !meson_var_class(c) && !meson_v_class(c)
                && !meson_minor_class(c) && !meson_patch_class(c) && indent_of(c) == indent_of(l)
                && meson_major_value(c) == Ok::<u64, VersionError>(v.major) && line_is_clean(c)
        }),
        ({
            let c = meson_minor_canon(l, v.minor);
            meson_minor_class(c) && !meson_var_class(c) && !meson_v_class(c)
                && !meson_major_class(c) && !meson_patch_class(c) && indent_of(c) == indent_of(l)
                && meson_minor_value(c) == Ok::<u64, VersionError>(v.minor) && line_is_clean(c)
        }),
        ({
            let c = meson_patch_canon(l, v.patch);
            meson_patch_class(c) && !meson_var_class(c) && !meson_v_class(c)
                && !meson_major_class(c) && !meson_minor_class(c) && indent_of(c) == indent_of(l)
                && meson_patch_value(c) == Ok::<u64, VersionError>(v.patch) && line_is_clean(c)
        }),
{
    lemma_ws_prefix(l);
    lemma_version_str_chars(v);
    lemma_dec_str_digits(v.major as nat);
    lemma_dec_str_digits(v.minor as nat);
    lemma_dec_str_digits(v.patch as nat);
    let a = ws_prefix_len(l) as int;
    let ind = indent_of(l);
    let vstr = spec_version_str(v);
    assert(forall|i: int| 0 <= i < a ==> is_line_ws(#[trigger] ind[i]));
    lemma_meson_v_canon_part(l, v);
    lemma_meson_comp_canon_part(l, v.major, mmaj_key());
    lemma_meson_comp_canon_part(l, v.minor, mmin_key());
    lemma_meson_comp_canon_part(l, v.patch, mpat_key());
    let cv = meson_v_canon(l, v);
    let cm = meson_major_canon(l, v.major);
    let cn = meson_minor_canon(l, v.minor);
    let cp = meson_patch_canon(l, v.patch);
    lemma_meson_disjoint(cv);
    lemma_meson_disjoint(cm);
    lemma_meson_disjoint(cn);
    lemma_meson_disjoint(cp);
    if meson_major_class(cv) {
        assert(cv[a + 7] == mv_key()[7]);
        assert(cv[a + 7] == mmaj_key()[7]);
    }
    if meson_minor_class(cv) {
        assert(cv[a + 7] == mmin_key()[7]);
    }
    if meson_patch_class(cv) {
        assert(cv[a + 7] == mpat_key()[7]);
    }
    if meson_v_class(cm) {
        assert(cm[a + 7] == mv_key()[7]);
        assert(cm[a + 7] == mmaj_key()[7]);
    }
    if meson_v_class(cn) {
        assert(cn[a + 7] == mv_key()[7]);
        assert(cn[a + 7] == mmin_key()[7]);
    }
    if meson_minor_class(cm) {
        assert(cm[a + 9] == mmin_key()[9]);
        assert(cm[a + 9] == mmaj_key()[9]);
    }
    if meson_patch_class(cm) {
        assert(cm[a + 8] == mpat_key()[8]);
        assert(cm[a + 8] == mmaj_key()[8]);
    }
    if meson_major_class(cn) {
        assert(cn[a + 9] == mmaj_key()[9]);
        assert(cn[a + 9] == mmin_key()[9]);
    }
    if meson_patch_class(cn) {
        assert(cn[a + 8] == mpat_key()[8]);
        assert(cn[a + 8] == mmin_key()[8]);
    }
    if meson_v_class(cp) {
        assert(cp[a + 7] == mv_key()[7]);
        assert(cp[a + 7] == mpat_key()[7]);
    }
    if meson_major_class(cp) {
        assert(cp[a + 8] == mmaj_key()[8]);
        assert(cp[a + 8] == mpat_key()[8]);
    }
    if meson_minor_class(cp) {
        assert(cp[a + 8] == mmin_key()[8]);
        assert(cp[a + 8] == mpat_key()[8]);
    }
}

/// The canonical entry line matches its class, keeps the indent and reads
/// back `v`.
proof fn lemma_meson_v_canon_part(l: Seq<char>, v: SemVer)
    ensures
        meson_v_class(meson_v_canon(l, v)),
        indent_of(meson_v_canon(l, v)) == indent_of(l),
        ws_prefix_len(meson_v_canon(l, v)) == ws_prefix_len(l),
        meson_v_version(meson_v_canon(l, v)) == Ok::<SemVer, VersionError>(v),
        line_is_clean(meson_v_canon(l, v)),
{
    lemma_ws_prefix(l);
    lemma_version_str_chars(v);
    let a = ws_prefix_len(l) as int;
    let ind = indent_of(l);
    let vstr = spec_version_str(v);
    let c = meson_v_canon(l, v);
    assert(forall|i: int| 0 <= i < a ==> is_line_ws(#[trigger] c[i]));
    assert(c[a] == mv_key()[0]);
    assert(!is_line_ws('v'));
    lemma_ws_prefix_at(c, a);
    assert forall|k: int| 0 <= k < 11 implies c[a + k] == #[trigger] mv_key()[k] by {}
    assert(spec_match_at(c, a, mv_key()));
    assert(indent_of(c) =~= ind);
    assert forall|i: int| 0 <= i < vstr.len() implies c[a + 11 + i] == vstr[i] by {}
    assert(c[a + 11 + vstr.len() as int] == '\'');
    lemma_version_after_value(c, a + 11, 0, v);
    assert forall|j: int| 0 <= j < c.len() implies #[trigger] c[j] != '\n' by {
        if j < a {
            assert(is_line_ws(c[j]));
        } else if j < a + 11 {
            assert(c[j] == mv_key()[j - a]);
        } else if j < a + 11 + vstr.len() {
            assert(c[j] == vstr[j - a - 11]);
            assert(is_digit(vstr[j - a - 11]) || vstr[j - a - 11] == '.');
        }
    }
}

/// A canonical component line matches its key, keeps the indent and reads
/// back its number.
proof fn lemma_meson_comp_canon_part(l: Seq<char>, n: u64, key: Seq<char>)
    requires
        key.len() == 17,
        key[0] == 'v',
        !is_digit(key[16]) && key[16] != '\n',
        forall|k: int| 0 <= k < 17 ==> !is_line_ws(#[trigger] key[k]) || k == 7 || k == 13
            || k == 15,
        forall|k: int| 0 <= k < 17 ==> #[trigger] key[k] != '\n',
        key[13] == ' ' && key[15] == ' ' && key[7] == '_',
    ensures
        spec_match_at(indent_of(l) + key + spec_dec_str(n as nat) + seq!['\''], ws_prefix_len(l)
            as int, key),
        ws_prefix_len(indent_of(l) + key + spec_dec_str(n as nat) + seq!['\''])
            == ws_prefix_len(l),
        indent_of(indent_of(l) + key + spec_dec_str(n as nat) + seq!['\'']) == indent_of(l),
        spec_number_after(indent_of(l) + key + spec_dec_str(n as nat) + seq!['\''], ws_prefix_len(
            l,
        ) as int + 17) == Ok::<u64, VersionError>(n),
        line_is_clean(indent_of(l) + key + spec_dec_str(n as nat) + seq!['\'']),
{
    lemma_ws_prefix(l);
    lemma_dec_str_digits(n as nat);
    let a = ws_prefix_len(l) as int;
    let ind = indent_of(l);
    let dstr = spec_dec_str(n as nat);
    let c = ind + key + dstr + seq!['\''];
    assert(forall|i: int| 0 <= i < a ==> is_line_ws(#[trigger] c[i]));
    assert(c[a] == key[0]);
    assert(!is_line_ws('v'));
    lemma_ws_prefix_at(c, a);
    assert forall|k: int| 0 <= k < 17 implies c[a + k] == #[trigger] key[k] by {}
    assert(spec_match_at(c, a, key));
    assert(indent_of(c) =~= ind);
    assert forall|i: int| 0 <= i < dstr.len() implies c[a + 17 + i] == dstr[i] by {}
    assert(c[a + 17 + dstr.len() as int] == '\'');
    assert(!is_digit('\''));
    lemma_number_after_value(c, a + 17, 0, n);
    assert forall|j: int| 0 <= j < c.len() implies #[trigger] c[j] != '\n' by {
        if j < a {
            assert(is_line_ws(c[j]));
        } else if j < a + 17 {
            assert(c[j] == key[j - a]);
        } else if j < a + 17 + dstr.len() {
            assert(c[j] == dstr[j - a - 17]);
            assert(is_digit(dstr[j - a - 17]));
        }
    }
}

/// One rewritten line belongs to exactly the classes its original belonged
/// to, and stays free of line breaks.
proof fn lemma_meson_classes_preserved(l: Seq<char>, v: SemVer)
    ensures
        meson_v_class(meson_rewrite_line(l, v)) == meson_v_class(l),
        meson_var_class(meson_rewrite_line(l, v)) == meson_var_class(l),
        meson_major_class(meson_rewrite_line(l, v)) == meson_major_class(l),
        meson_minor_class(meson_rewrite_line(l, v)) == meson_minor_class(l),
        meson_patch_class(meson_rewrite_line(l, v)) == meson_patch_class(l),
        line_is_clean(l) ==> line_is_clean(meson_rewrite_line(l, v)),
{
    lemma_meson_disjoint(l);
    if meson_v_class(l) || meson_major_class(l) || meson_minor_class(l) || meson_patch_class(l) {
        lemma_meson_canon_props(l, v);
    }
}

/// Law: after a rewrite, detection reads back exactly the written version,
/// for any content that holds version declarations the rewrite reaches.
#[verifier::rlimit(100)]
#[verifier::spinoff_prover]
pub proof fn lemma_meson_detect_after_update(s: Seq<char>, v: SemVer)
    requires
        meson_has_version_line(s),
    ensures
        spec_detect_meson(spec_update_meson(s, v)) == Ok::<Option<SemVer>, VersionError>(Some(v)),
{
    let ls = spec_split_lines(s);
    let ls2 = ls.map_values(meson_rewrite_fn(v));
    lemma_split_lines_clean(s);
    assert forall|i: int|
        0 <= i < ls.len() implies meson_v_class(#[trigger] ls2[i]) == meson_v_class(ls[i])
        && meson_var_class(ls2[i]) == meson_var_class(ls[i]) && meson_major_class(ls2[i])
        == meson_major_class(ls[i]) && meson_minor_class(ls2[i]) == meson_minor_class(ls[i])
        && meson_patch_class(ls2[i]) == meson_patch_class(ls[i]) && line_is_clean(ls2[i]) by {
        assert(line_is_clean(ls[i]));
        lemma_meson_classes_preserved(ls[i], v);
    }
    lemma_split_join(ls2);
    assert(spec_split_lines(spec_update_meson(s, v)) == ls2);
    if exists_where(ls, meson_v_fn()) {
        let i0 = first_where(ls, meson_v_fn());
        lemma_first_where(ls, meson_v_fn());
        lemma_meson_canon_props(ls[i0], v);
        assert(ls2[i0] == meson_v_canon(ls[i0], v));
        assert forall|j: int| 0 <= j < i0 implies !meson_v_fn()(#[trigger] ls2[j]) by {
            assert(!meson_v_class(ls[j]));
        }
        lemma_first_where_at(ls2, meson_v_fn(), i0);
        assert(meson_v_version(ls2[i0]) == Ok::<SemVer, VersionError>(v));
    } else {
        assert(!exists_where(ls, meson_var_fn()));
        assert(!exists_where(ls2, meson_v_fn())) by {
            if exists_where(ls2, meson_v_fn()) {
                let w = choose|w: int| 0 <= w < ls2.len() && meson_v_fn()(#[trigger] ls2[w]);
                assert(meson_v_fn()(ls[w]));
            }
        }
        assert(!exists_where(ls2, meson_var_fn())) by {
            if exists_where(ls2, meson_var_fn()) {
                let w = choose|w: int| 0 <= w < ls2.len() && meson_var_fn()(#[trigger] ls2[w]);
                assert(meson_var_fn()(ls[w]));
            }
        }
        let im = first_where(ls, meson_major_fn());
        let imi = first_where(ls, meson_minor_fn());
        let ip = first_where(ls, meson_patch_fn());
        lemma_first_where(ls, meson_major_fn());
        lemma_first_where(ls, meson_minor_fn());
        lemma_first_where(ls, meson_patch_fn());
        lemma_meson_disjoint(ls[im]);
        lemma_meson_disjoint(ls[imi]);
        lemma_meson_disjoint(ls[ip]);
        lemma_meson_canon_props(ls[im], v);
        lemma_meson_canon_props(ls[imi], v);
        lemma_meson_canon_props(ls[ip], v);
        assert(!meson_v_class(ls[im]));
        assert(ls2[im] == meson_major_canon(ls[im], v.major));
        assert(!meson_v_class(ls[imi]) && !meson_major_class(ls[imi]));
        assert(ls2[imi] == meson_minor_canon(ls[imi], v.minor));
        assert(!meson_v_class(ls[ip]) && !meson_major_class(ls[ip]) && !meson_minor_class(
            ls[ip],
        ));
        assert(ls2[ip] == meson_patch_canon(ls[ip], v.patch));
        assert forall|j: int| 0 <= j < im implies !meson_major_fn()(#[trigger] ls2[j]) by {
            assert(!meson_major_class(ls[j]));
        }
        lemma_first_where_at(ls2, meson_major_fn(), im);
        assert forall|j: int| 0 <= j < imi implies !meson_minor_fn()(#[trigger] ls2[j]) by {
            assert(!meson_minor_class(ls[j]));
        }
        lemma_first_where_at(ls2, meson_minor_fn(), imi);
        assert forall|j: int| 0 <= j < ip implies !meson_patch_fn()(#[trigger] ls2[j]) by {
            assert(!meson_patch_class(ls[j]));
        }
        lemma_first_where_at(ls2, meson_patch_fn(), ip);
        assert(meson_major_value(ls2[im]) == Ok::<u64, VersionError>(v.major));
        assert(meson_minor_value(ls2[imi]) == Ok::<u64, VersionError>(v.minor));
        assert(meson_patch_value(ls2[ip]) == Ok::<u64, VersionError>(v.patch));
        assert((SemVer { major: v.major, minor: v.minor, patch: v.patch }) == v);
    }
}

/// Law: rewriting twice with the same version equals rewriting once.
#[verifier::rlimit(100)]
#[verifier::spinoff_prover]
pub proof fn lemma_meson_update_idempotent(s: Seq<char>, v: SemVer)
    ensures
        spec_update_meson(spec_update_meson(s, v), v) == spec_update_meson(s, v),
{
    let ls = spec_split_lines(s);
    let ls2 = ls.map_values(meson_rewrite_fn(v));
    lemma_split_lines_clean(s);
    assert forall|i: int| 0 <= i < ls2.len() implies line_is_clean(#[trigger] ls2[i]) by {
        assert(line_is_clean(ls[i]));
        lemma_meson_classes_preserved(ls[i], v);
    }
    lemma_split_join(ls2);
    assert(spec_split_lines(spec_update_meson(s, v)) == ls2);
    assert forall|i: int|
        0 <= i < ls2.len() implies meson_rewrite_fn(v)(#[trigger] ls2[i]) == ls2[i] by {
        let l = ls[i];
        lemma_meson_disjoint(l);
        lemma_meson_classes_preserved(l, v);
        if meson_v_class(l) {
            lemma_meson_canon_props(l, v);
            lemma_meson_canon_props(ls2[i], v);
            assert(meson_v_canon(ls2[i], v) =~= ls2[i]);
        } else if meson_major_class(l) {
            lemma_meson_canon_props(l, v);
            lemma_meson_canon_props(ls2[i], v);
            assert(meson_major_canon(ls2[i], v.major) =~= ls2[i]);
        } else if meson_minor_class(l) {
            lemma_meson_canon_props(l, v);
            lemma_meson_canon_props(ls2[i], v);
            assert(meson_minor_canon(ls2[i], v.minor) =~= ls2[i]);
        } else if meson_patch_class(l) {
            lemma_meson_canon_props(l, v);
            lemma_meson_canon_props(ls2[i], v);
            assert(meson_patch_canon(ls2[i], v.patch) =~= ls2[i]);
        }
    }
    assert(ls2.map_values(meson_rewrite_fn(v)) =~= ls2);
}

} // verus!
