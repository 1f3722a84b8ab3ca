//! Key/value manifest adapters: the INI-style project manifest (quoted
//! version value) and the properties library manifest (bare version value).
//!
//! A version declaration is a line `version = value`, possibly indented.
//! Rewriting keeps every byte through the `=` and the whitespace after it
//! and replaces the value on every declaration line; detection reads the
//! value of the first declaration line.

use vstd::prelude::*;
use vstd::string::StrSliceExecFns;
use vstd::string::StringExecFns;
use crate::semver::{
    SemVer, VersionError, spec_version_str, spec_parse_version, version_string,
    lemma_version_str_chars, lemma_version_str_round_trip, parse_version_prefix,
};
use crate::text::{
    is_line_ws, ws_prefix_len, lemma_ws_prefix, trim_start_len, ws_run_from, spec_match_at,
    match_at, is_digit, run_end, spec_split_lines, spec_join_lines, split_lines,
    join_lines, line_is_clean, lemma_split_lines_clean, lemma_split_join,
    exists_where, first_where, lemma_first_where, lemma_first_where_at,
};

verus! {

/// The literal key of a version declaration line.
pub open spec fn kv_key() -> Seq<char> {
    seq!['v', 'e', 'r', 's', 'i', 'o', 'n']
}

/// Position of the `=` of a version declaration: after the indent, the key
/// and any whitespace.
pub open spec fn kv_eq_pos(l: Seq<char>) -> int {
    let p = ws_prefix_len(l) as int + kv_key().len() as int;
    p + ws_prefix_len(l.subrange(p, l.len() as int))
}

/// Whether a line declares a version: its first token is the key,
/// followed by optional whitespace and `=`.
pub open spec fn kv_class(l: Seq<char>) -> bool {
    &&& spec_match_at(l, ws_prefix_len(l) as int, kv_key())
    &&& kv_eq_pos(l) < l.len()
    &&& l[kv_eq_pos(l)] == '='
}

pub open spec fn kv_class_fn() -> spec_fn(Seq<char>) -> bool {
    |l: Seq<char>| kv_class(l)
}

/// Position where the value of a declaration begins: after the `=` and any
/// whitespace.
pub open spec fn kv_value_start(l: Seq<char>) -> int {
    let q = kv_eq_pos(l);
    q + 1 + ws_prefix_len(l.subrange(q + 1, l.len() as int))
}

/// A declaration line rewritten to carry `v`: everything through the `=`
/// and the following whitespace kept, the value replaced. Other lines are
/// kept verbatim.
pub open spec fn kv_rewrite_line(l: Seq<char>, v: SemVer, quoted: bool) -> Seq<char> {
    if kv_class(l) {
        if quoted {
            l.subrange(0, kv_value_start(l)) + seq!['"'] + spec_version_str(v) + seq!['"']
        } else {
            l.subrange(0, kv_value_start(l)) + spec_version_str(v)
        }
    } else {
        l
    }
}

pub open spec fn kv_rewrite_fn(v: SemVer, quoted: bool) -> spec_fn(Seq<char>) -> Seq<char> {
    |l: Seq<char>| kv_rewrite_line(l, v, quoted)
}

/// Content with the value of every version declaration line replaced.
pub open spec fn spec_update_kv(s: Seq<char>, v: SemVer, quoted: bool) -> Seq<char> {
    spec_join_lines(spec_split_lines(s).map_values(kv_rewrite_fn(v, quoted)))
}

/// The version a declaration line carries: its value, one leading quote
/// removed when the format quotes, read as `major.minor.patch`.
pub open spec fn kv_line_version(l: Seq<char>, quoted: bool) -> Result<SemVer, VersionError> {
    let vs = kv_value_start(l);
    let p = if quoted && vs < l.len() && (l[vs] == '"' || l[vs] == '\'') {
        vs + 1
    } else {
        vs
    };
    let e = run_end(l, p, true);
    spec_parse_version(l.subrange(p, e))
}

/// Detection: the version of the first declaration line, if any line
/// declares one.
pub open spec fn spec_detect_kv(s: Seq<char>, quoted: bool) -> Result<
    Option<SemVer>,
    VersionError,
> {
    let ls = spec_split_lines(s);
    if exists_where(ls, kv_class_fn()) {
        match kv_line_version(ls[first_where(ls, kv_class_fn())], quoted) {
            Ok(v) => Ok(Some(v)),
            Err(e) => Err(e),
        }
    } else {
        Ok(None)
    }
}

/// Whether `s` holds any version declaration line.
pub open spec fn kv_has_version_line(s: Seq<char>) -> bool {
    exists_where(spec_split_lines(s), kv_class_fn())
}

/// Whether a line declares a version, executable form.
pub(crate) fn kv_class_exec(l: &str) -> (r: bool)
    ensures
        r == kv_class(l@),
{
    proof {
        reveal_strlit("version");
        assert("version"@ =~= kv_key());
        lemma_ws_prefix(l@);
    }
    let n = l.unicode_len();
    let a = trim_start_len(l);
    if !match_at(l, a, "version") {
        return false;
    }
    let p = a + 7;
    let q = p + ws_run_from(l, p);
    if q < n {
        l.get_char(q) == '='
    } else {
        false
    }
}

/// Position where the value of a declaration begins, executable form.
pub(crate) fn kv_value_start_exec(l: &str) -> (r: usize)
    requires
        kv_class(l@),
    ensures
        r == kv_value_start(l@),
        r <= l@.len(),
{
    proof {
        reveal_strlit("version");
        assert("version"@ =~= kv_key());
        lemma_ws_prefix(l@);
    }
    let n = l.unicode_len();
    let a = trim_start_len(l);
    let p = a + 7;
    let q = p + ws_run_from(l, p);
    q + 1 + ws_run_from(l, q + 1)
}

/// The version a declaration line carries, executable form.
fn kv_line_version_exec(l: &str, quoted: bool) -> (r: Result<SemVer, VersionError>)
    requires
        kv_class(l@),
    ensures
        r == kv_line_version(l@, quoted),
{
    let n = l.unicode_len();
    let vs = kv_value_start_exec(l);
    let p = if quoted && vs < n {
        let c = l.get_char(vs);
        if c == '"' || c == '\'' {
            vs + 1
        } else {
            vs
        }
    } else {
        vs
    };
    parse_version_prefix(l, p)
}

/// A declaration line rewritten to carry `v`, executable form.
fn kv_rewrite_line_exec(l: &str, v: SemVer, quoted: bool) -> (r: String)
    ensures
        r@ == kv_rewrite_line(l@, v, quoted),
{
    if !kv_class_exec(l) {
        return String::from_str(l);
    }
    let vs = kv_value_start_exec(l);
    let mut out = String::from_str(l.substring_char(0, vs));
    proof {
        reveal_strlit("\"");
        assert("\""@ =~= seq!['"']);
    }
    if quoted {
        out.append("\"");
    }
    let ver = version_string(v);
    out.append(ver.as_str());
    if quoted {
        out.append("\"");
    }
    proof {
        assert(out@ =~= kv_rewrite_line(l@, v, quoted));
    }
    out
}

/// Content with every version declaration line rewritten, executable form.
fn update_kv(content: &str, v: SemVer, quoted: bool) -> (r: String)
    ensures
        r@ == spec_update_kv(content@, v, quoted),
{
    let ghost big = spec_split_lines(content@);
    let ghost f = kv_rewrite_fn(v, quoted);
    let ls = split_lines(content);
    let mut out: Vec<String> = Vec::new();
    let mut i: usize = 0;
    proof {
        assert(out.deep_view() =~= big.subrange(0, 0).map_values(f));
    }
    while i < ls.len()
        invariant
            ls.deep_view() == big,
            big.len() == ls.len(),
            0 <= i <= ls.len(),
            out.deep_view() == big.subrange(0, i as int).map_values(kv_rewrite_fn(v, quoted)),
        decreases ls.len() - i,
    {
        let line = kv_rewrite_line_exec(ls[i].as_str(), v, quoted);
        let ghost old_dv = out.deep_view();
        out.push(line);
        proof {
            assert(ls@[i as int]@ == big[i as int]);
            assert(out.deep_view() =~= old_dv.push(kv_rewrite_line(big[i as int], v, quoted)));
            assert(out.deep_view() =~= big.subrange(0, i + 1).map_values(kv_rewrite_fn(v, quoted)));
        }
        i = i + 1;
    }
    proof {
        assert(big.subrange(0, big.len() as int) =~= big);
    }
    join_lines(&out)
}

/// Detection over content, executable form.
fn detect_kv(content: &str, quoted: bool) -> (r: Result<Option<SemVer>, VersionError>)
    ensures
        r == spec_detect_kv(content@, quoted),
{
    let ghost big = spec_split_lines(content@);
    let ls = split_lines(content);
    let mut i: usize = 0;
    while i < ls.len()
        invariant
            big == spec_split_lines(content@),
            ls.deep_view() == big,
            big.len() == ls.len(),
            0 <= i <= ls.len(),
            forall|j: int| 0 <= j < i ==> !kv_class(#[trigger] big[j]),
        decreases ls.len() - i,
    {
        proof {
            assert(ls@[i as int]@ == big[i as int]);
        }
        if kv_class_exec(ls[i].as_str()) {
            proof {
                assert(kv_class_fn()(big[i as int]));
                assert forall|j: int| 0 <= j < i implies !kv_class_fn()(#[trigger] big[j]) by {
                    assert(!kv_class(big[j]));
                }
                lemma_first_where_at(big, kv_class_fn(), i as int);
                assert(exists_where(big, kv_class_fn()));
            }
            let r = kv_line_version_exec(ls[i].as_str(), quoted);
            return match r {
                Ok(v) => Ok(Some(v)),
                Err(e) => Err(e),
            };
        }
        i = i + 1;
    }
    proof {
        if exists_where(big, kv_class_fn()) {
            let w = choose|w: int| 0 <= w < big.len() && kv_class_fn()(#[trigger] big[w]);
            assert(!kv_class(big[w]));
        }
    }
    Ok(None)
}

/// Reads the version of an INI-style project manifest: the value of the
/// first `version = ...` line, unquoted and parsed as `major.minor.patch`.
pub fn extract_platformio_ini_version(content: &str) -> (r: Result<Option<SemVer>, VersionError>)
    ensures
        r == spec_detect_kv(content@, true),
{
    detect_kv(content, true)
}

/// Reads the version of a properties library manifest: the value of the
/// first `version=...` line parsed as `major.minor.patch`.
pub fn extract_library_properties_version(content: &str) -> (r: Result<
    Option<SemVer>,
    VersionError,
>)
    ensures
        r == spec_detect_kv(content@, false),
{
    detect_kv(content, false)
}

/// Rewrites every `version = ...` line of an INI-style manifest to carry
/// `v` as a quoted string; all other lines are kept verbatim.
pub fn update_platformio_ini(content: &str, v: SemVer) -> (r: String)
    ensures
        r@ == spec_update_kv(content@, v, true),
{
    update_kv(content, v, true)
}

/// Rewrites every `version=...` line of a properties manifest to carry `v`
/// bare; all other lines are kept verbatim.
pub fn update_library_properties(content: &str, v: SemVer) -> (r: String)
    ensures
        r@ == spec_update_kv(content@, v, false),
{
    update_kv(content, v, false)
}

/// A rewritten declaration line is still a declaration, reads back exactly
/// `v`, rewriting it again changes nothing, and no line break appears.
#[verifier::rlimit(60)]
proof fn lemma_kv_rewrite_line_props(l: Seq<char>, v: SemVer, quoted: bool)
    requires
        kv_class(l),
    ensures
        kv_class(kv_rewrite_line(l, v, quoted)),
        kv_value_start(kv_rewrite_line(l, v, quoted)) == kv_value_start(l),
        kv_line_version(kv_rewrite_line(l, v, quoted), quoted) == Ok::<SemVer, VersionError>(v),
        kv_rewrite_line(kv_rewrite_line(l, v, quoted), v, quoted) == kv_rewrite_line(l, v, quoted),
        line_is_clean(l) ==> line_is_clean(kv_rewrite_line(l, v, quoted)),
{
    lemma_ws_prefix(l);
    lemma_version_str_chars(v);
    lemma_version_str_round_trip(v);
    let a = ws_prefix_len(l) as int;
    let p = a + kv_key().len() as int;
    let q = kv_eq_pos(l);
    let vs = kv_value_start(l);
    let vstr = spec_version_str(v);
    let l2 = kv_rewrite_line(l, v, quoted);
    lemma_ws_prefix(l.subrange(p, l.len() as int));
    lemma_ws_prefix(l.subrange(q + 1, l.len() as int));
    assert(a + 7 <= l.len());
    assert(l[a] == 'v');
    assert(a <= p <= q < vs <= l.len());
    // The kept prefix agrees with `l` on every position below `vs`.
    assert(l2.subrange(0, vs) =~= l.subrange(0, vs));
    assert(forall|j: int| 0 <= j < vs ==> l2[j] == l[j]);
    // Same indent: the key starts where it did.
    crate::text::lemma_ws_prefix_at(l2, a);
    assert(ws_prefix_len(l2) == a);
    assert(spec_match_at(l2, a, kv_key()));
    // Same `=` position.
    let t2 = l2.subrange(p, l2.len() as int);
    assert forall|j: int| 0 <= j < q - p implies is_line_ws(#[trigger] t2[j]) by {
        assert(t2[j] == l[p + j]);
        assert(is_line_ws(l.subrange(p, l.len() as int)[j]));
    }
    assert(t2[q - p] == l[q]);
    crate::text::lemma_ws_prefix_at(t2, q - p);
    assert(kv_eq_pos(l2) == q);
    assert(l2[q] == '=');
    assert(kv_class(l2));
    // Same value position.
    let u2 = l2.subrange(q + 1, l2.len() as int);
    assert forall|j: int| 0 <= j < vs - q - 1 implies is_line_ws(#[trigger] u2[j]) by {
        assert(u2[j] == l[q + 1 + j]);
        assert(is_line_ws(l.subrange(q + 1, l.len() as int)[j]));
    }
    assert(l2.len() > vs);
    assert(u2[vs - q - 1] == l2[vs]);
    if quoted {
        assert(l2[vs] == '"');
    } else {
        assert(l2[vs] == vstr[0]);
        assert(is_digit(vstr[0]) || vstr[0] == '.');
    }
    assert(!is_line_ws(l2[vs]));
    crate::text::lemma_ws_prefix_at(u2, vs - q - 1);
    assert(kv_value_start(l2) == vs);
    // Reading the rewritten line gives `v` back.
    let rp = if quoted {
        vs + 1
    } else {
        vs
    };
    assert forall|j: int| rp <= j < rp + vstr.len() implies (is_digit(#[trigger] l2[j]) || l2[j]
        == '.') by {
        assert(l2[j] == vstr[j - rp]);
    }
    if quoted {
        assert(l2[rp + vstr.len()] == '"');
        assert(!(is_digit('"') || '"' == '.'));
    }
    crate::text::lemma_run_end_is(l2, rp, rp + vstr.len() as int, true);
    assert(l2.subrange(rp, rp + vstr.len() as int) =~= vstr);
    assert(kv_line_version(l2, quoted) == Ok::<SemVer, VersionError>(v));
    // Rewriting again reproduces the same line.
    let l3 = kv_rewrite_line(l2, v, quoted);
    assert(l3 =~= l2);
    // No line breaks are introduced.
    if line_is_clean(l) {
        assert forall|j: int| 0 <= j < l2.len() implies #[trigger] l2[j] != '\n' by {
            if j < vs {
                assert(l2[j] == l[j]);
            } else if quoted && j == vs {
            } else if quoted && j == l2.len() - 1 {
            } else {
                let k = if quoted {
                    j - vs - 1
                } else {
                    j - vs
                };
                assert(l2[j] == vstr[k]);
                assert(is_digit(vstr[k]) || vstr[k] == '.');
            }
        }
    }
}

/// Law: after a rewrite, detection reads back exactly the written version,
/// for any content that holds a version declaration line.
pub proof fn lemma_kv_detect_after_update(s: Seq<char>, v: SemVer, quoted: bool)
    requires
        kv_has_version_line(s),
    ensures
        spec_detect_kv(spec_update_kv(s, v, quoted), quoted) == Ok::<
            Option<SemVer>,
            VersionError,
        >(Some(v)),
{
    let ls = spec_split_lines(s);
    let f = kv_rewrite_fn(v, quoted);
    let ls2 = ls.map_values(f);
    lemma_split_lines_clean(s);
    assert forall|i: int| 0 <= i < ls2.len() implies line_is_clean(#[trigger] ls2[i]) by {
        assert(line_is_clean(ls[i]));
        if kv_class(ls[i]) {
            lemma_kv_rewrite_line_props(ls[i], v, quoted);
        }
    }
    lemma_split_join(ls2);
    let i0 = first_where(ls, kv_class_fn());
    lemma_first_where(ls, kv_class_fn());
    lemma_kv_rewrite_line_props(ls[i0], v, quoted);
    assert(kv_class_fn()(ls2[i0]));
    assert forall|j: int| 0 <= j < i0 implies !kv_class_fn()(#[trigger] ls2[j]) by {
        assert(!kv_class(ls[j]));
        assert(ls2[j] == ls[j]);
    }
    lemma_first_where_at(ls2, kv_class_fn(), i0);
    assert(exists_where(ls2, kv_class_fn()));
    assert(kv_line_version(ls2[i0], quoted) == Ok::<SemVer, VersionError>(v));
}

/// Law: rewriting twice with the same version equals rewriting once.
pub proof fn lemma_kv_update_idempotent(s: Seq<char>, v: SemVer, quoted: bool)
    ensures
        spec_update_kv(spec_update_kv(s, v, quoted), v, quoted) == spec_update_kv(s, v, quoted),
{
    let ls = spec_split_lines(s);
    let f = kv_rewrite_fn(v, quoted);
    let ls2 = ls.map_values(f);
    lemma_split_lines_clean(s);
    assert forall|i: int| 0 <= i < ls2.len() implies line_is_clean(#[trigger] ls2[i]) by {
        assert(line_is_clean(ls[i]));
        if kv_class(ls[i]) {
            lemma_kv_rewrite_line_props(ls[i], v, quoted);
        }
    }
    lemma_split_join(ls2);
    assert forall|i: int| 0 <= i < ls2.len() implies f(#[trigger] ls2[i]) == ls2[i] by {
        if kv_class(ls[i]) {
            lemma_kv_rewrite_line_props(ls[i], v, quoted);
        } else {
            assert(ls2[i] == ls[i]);
        }
    }
    assert(ls2.map_values(f) =~= ls2);
}

} // verus!
