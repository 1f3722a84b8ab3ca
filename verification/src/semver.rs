//! The semantic version datatype, its string form `major.minor.patch`, and
//! the parser for located version strings.

use vstd::prelude::*;
use vstd::string::StrSliceExecFns;
use vstd::string::StringExecFns;
use crate::text::{
    spec_dec_str, dec_value, is_digit, run_end, spec_parse_run, lemma_run_end,
    lemma_dec_str_digits, lemma_dec_str_value, u64_to_string, parse_run, run_end_exec,
    is_line_ws, ws_prefix_len, lemma_ws_prefix_at, ws_run_from,
    lemma_run_end_is,
};

verus! {

/// A semantic version: major, minor and patch, each a non-negative integer.
#[derive(Clone, Copy, PartialEq, Eq, Structural, Debug)]
pub struct SemVer {
    pub major: u64,
    pub minor: u64,
    pub patch: u64,
}

impl SemVer {
    /// Builds a version from its three components.
    pub fn new(major: u64, minor: u64, patch: u64) -> (r: SemVer)
        ensures
            r == (SemVer { major, minor, patch }),
    {
        SemVer { major, minor, patch }
    }
}

/// How a manifest operation fails.
///
/// `Parse`: the content is not valid for its structured format.
/// `Format`: a located version string does not have three dot-separated
/// numeric components.
/// `Unsupported`: the file name matches no known manifest kind.
#[derive(Clone, Copy, PartialEq, Eq, Structural, Debug)]
pub enum VersionError {
    Parse,
    Format,
    Unsupported,
}

/// The string form of a version: `major.minor.patch` in decimal.
pub open spec fn spec_version_str(v: SemVer) -> Seq<char> {
    spec_dec_str(v.major as nat) + seq!['.'] + spec_dec_str(v.minor as nat) + seq!['.']
        + spec_dec_str(v.patch as nat)
}

/// Every character of a version string is a digit or a dot.
pub open spec fn digits_and_dots(s: Seq<char>) -> bool {
    forall|i: int| 0 <= i < s.len() ==> (is_digit(#[trigger] s[i]) || s[i] == '.')
}

pub proof fn lemma_version_str_chars(v: SemVer)
    ensures
        digits_and_dots(spec_version_str(v)),
        spec_version_str(v).len() >= 5,
{
    lemma_dec_str_digits(v.major as nat);
    lemma_dec_str_digits(v.minor as nat);
    lemma_dec_str_digits(v.patch as nat);
    let a = spec_dec_str(v.major as nat);
    let b = spec_dec_str(v.minor as nat);
    let c = spec_dec_str(v.patch as nat);
    let s = spec_version_str(v);
    assert forall|i: int| 0 <= i < s.len() implies (is_digit(#[trigger] s[i]) || s[i] == '.') by {
        if i < a.len() {
            assert(s[i] == a[i]);
        } else if i == a.len() {
        } else if i < a.len() + 1 + b.len() {
            assert(s[i] == b[i - a.len() - 1]);
        } else if i == a.len() + 1 + b.len() {
        } else {
            assert(s[i] == c[i - a.len() - b.len() - 2]);
        }
    }
}

/// Builds the `major.minor.patch` string of a version.
pub fn version_string(v: SemVer) -> (r: String)
    ensures
        r@ == spec_version_str(v),
{
    proof {
        reveal_strlit(".");
    }
    let mut out = u64_to_string(v.major);
    out.append(".");
    let mi = u64_to_string(v.minor);
    out.append(mi.as_str());
    out.append(".");
    let pa = u64_to_string(v.patch);
    out.append(pa.as_str());
    proof {
        assert("."@ =~= seq!['.']);
        assert(out@ =~= spec_version_str(v));
    }
    out
}

/// Reads `major.minor.patch` starting at `from`: three digit runs separated
/// by dots. Characters after the third run are not inspected.
pub open spec fn spec_parse_triple_at(s: Seq<char>, from: int) -> Option<SemVer> {
    let e1 = run_end(s, from, false);
    match spec_parse_run(s, from) {
        None => None,
        Some(major) => if e1 < s.len() && s[e1] == '.' {
            let e2 = run_end(s, e1 + 1, false);
            match spec_parse_run(s, e1 + 1) {
                None => None,
                Some(minor) => if e2 < s.len() && s[e2] == '.' {
                    match spec_parse_run(s, e2 + 1) {
                        None => None,
                        Some(patch) => Some(SemVer { major, minor, patch }),
                    }
                } else {
                    None
                },
            }
        } else {
            None
        },
    }
}

/// Position right after the third digit run, for input accepted by
/// `spec_parse_triple_at`.
pub open spec fn spec_triple_end(s: Seq<char>, from: int) -> int {
    let e1 = run_end(s, from, false);
    let e2 = run_end(s, e1 + 1, false);
    run_end(s, e2 + 1, false)
}

/// Reads a whole version string: three dot-separated decimal components.
/// Further dot-separated components may follow the third one; any other
/// trailing text is refused.
pub open spec fn spec_parse_version(s: Seq<char>) -> Result<SemVer, VersionError> {
    match spec_parse_triple_at(s, 0) {
        None => Err(VersionError::Format),
        Some(v) => {
            let e3 = spec_triple_end(s, 0);
            if e3 == s.len() || s[e3] == '.' {
                Ok(v)
            } else {
                Err(VersionError::Format)
            }
        },
    }
}

/// Reads `major.minor.patch` starting at `from`, executable form.
pub fn parse_triple_at(s: &str, from: usize) -> (r: Option<SemVer>)
    requires
        from <= s@.len(),
    ensures
        r == spec_parse_triple_at(s@, from as int),
{
    let n = s.unicode_len();
    let (r1, e1) = parse_run(s, from);
    match r1 {
        None => None,
        Some(major) => {
            if e1 < n && s.get_char(e1) == '.' {
                let (r2, e2) = parse_run(s, e1 + 1);
                match r2 {
                    None => None,
                    Some(minor) => {
                        if e2 < n && s.get_char(e2) == '.' {
                            let (r3, _e3) = parse_run(s, e2 + 1);
                            match r3 {
                                None => None,
                                Some(patch) => Some(SemVer { major, minor, patch }),
                            }
                        } else {
                            None
                        }
                    },
                }
            } else {
                None
            }
        },
    }
}

/// Splits a version string into its numeric components.
///
/// Returns `Err(VersionError::Format)` when the string does not begin with
/// three dot-separated decimal components, or when text other than further
/// dot-separated components follows them.
pub fn parse_version_string(s: &str) -> (r: Result<SemVer, VersionError>)
    ensures
        r == spec_parse_version(s@),
{
    let n = s.unicode_len();
    let (r1, e1) = parse_run(s, 0);
    match r1 {
        None => Err(VersionError::Format),
        Some(major) => {
            if e1 < n && s.get_char(e1) == '.' {
                let (r2, e2) = parse_run(s, e1 + 1);
                match r2 {
                    None => Err(VersionError::Format),
                    Some(minor) => {
                        if e2 < n && s.get_char(e2) == '.' {
                            let (r3, e3) = parse_run(s, e2 + 1);
                            match r3 {
                                None => Err(VersionError::Format),
                                Some(patch) => {
                                    if e3 == n || s.get_char(e3) == '.' {
                                        Ok(SemVer { major, minor, patch })
                                    } else {
                                        Err(VersionError::Format)
                                    }
                                },
                            }
                        } else {
                            Err(VersionError::Format)
                        }
                    },
                }
            } else {
                Err(VersionError::Format)
            }
        },
    }
}

/// Reads the version carried by the digit-and-dot run starting at `from`:
/// the run is cut out and read as a whole version string.
pub fn parse_version_prefix(s: &str, from: usize) -> (r: Result<SemVer, VersionError>)
    requires
        from <= s@.len(),
    ensures
        r == spec_parse_version(s@.subrange(from as int, run_end(s@, from as int, true))),
{
    let e = run_end_exec(s, from, true);
    let sub = s.substring_char(from, e);
    parse_version_string(sub)
}

/// The version written after position `pos`: optional whitespace, then the
/// digit-and-dot run read as a whole version string.
pub open spec fn spec_version_after(l: Seq<char>, pos: int) -> Result<SemVer, VersionError> {
    let start = pos + ws_prefix_len(l.subrange(pos, l.len() as int));
    spec_parse_version(l.subrange(start, run_end(l, start, true)))
}

/// The single number written after position `pos`: optional whitespace,
/// then a digit run.
pub open spec fn spec_number_after(l: Seq<char>, pos: int) -> Result<u64, VersionError> {
    let start = pos + ws_prefix_len(l.subrange(pos, l.len() as int));
    match spec_parse_run(l, start) {
        None => Err(VersionError::Format),
        Some(n) => Ok(n),
    }
}

/// Reads the version written after position `pos`, executable form.
pub fn version_after(l: &str, pos: usize) -> (r: Result<SemVer, VersionError>)
    requires
        pos <= l@.len(),
    ensures
        r == spec_version_after(l@, pos as int),
{
    let n = l.unicode_len();
    let start = pos + ws_run_from(l, pos);
    parse_version_prefix(l, start)
}

/// Reads the single number written after position `pos`, executable form.
pub fn number_after(l: &str, pos: usize) -> (r: Result<u64, VersionError>)
    requires
        pos <= l@.len(),
    ensures
        r == spec_number_after(l@, pos as int),
{
    let n0 = l.unicode_len();
    let start = pos + ws_run_from(l, pos);
    let (n, _e) = parse_run(l, start);
    match n {
        None => Err(VersionError::Format),
        Some(n) => Ok(n),
    }
}

/// When whitespace and then exactly the string of `v` stand after `pos`,
/// with nothing of a digit run following, reading yields `v`.
pub proof fn lemma_version_after_value(l: Seq<char>, pos: int, k: int, v: SemVer)
    requires
        0 <= pos,
        pos + k <= l.len(),
        k >= 0,
        forall|i: int| pos <= i < pos + k ==> is_line_ws(#[trigger] l[i]),
        pos + k + spec_version_str(v).len() <= l.len(),
        forall|i: int|
            0 <= i < spec_version_str(v).len() ==> l[pos + k + i] == spec_version_str(v)[i],
        pos + k + spec_version_str(v).len() < l.len() ==> !(is_digit(
            l[pos + k + spec_version_str(v).len()],
        ) || l[pos + k + spec_version_str(v).len()] == '.'),
    ensures
        spec_version_after(l, pos) == Ok::<SemVer, VersionError>(v),
{
    lemma_version_str_chars(v);
    lemma_version_str_round_trip(v);
    let vstr = spec_version_str(v);
    let t = l.subrange(pos, l.len() as int);
    assert forall|i: int| 0 <= i < k implies is_line_ws(#[trigger] t[i]) by {
        assert(t[i] == l[pos + i]);
    }
    assert(t[k] == vstr[0]);
    assert(is_digit(vstr[0]) || vstr[0] == '.');
    assert(!is_line_ws(t[k]));
    lemma_ws_prefix_at(t, k);
    let start = pos + k;
    assert forall|i: int|
        start <= i < start + vstr.len() implies (is_digit(#[trigger] l[i]) || l[i] == '.') by {
        assert(l[i] == vstr[i - start]);
    }
    lemma_run_end_is(l, start, start + vstr.len() as int, true);
    assert(l.subrange(start, start + vstr.len() as int) =~= vstr);
}

/// When whitespace and then exactly the digit string of `n` stand after
/// `pos`, with no digit following, reading yields `n`.
pub proof fn lemma_number_after_value(l: Seq<char>, pos: int, k: int, n: u64)
    requires
        0 <= pos,
        pos + k <= l.len(),
        k >= 0,
        forall|i: int| pos <= i < pos + k ==> is_line_ws(#[trigger] l[i]),
        pos + k + spec_dec_str(n as nat).len() <= l.len(),
        forall|i: int|
            0 <= i < spec_dec_str(n as nat).len() ==> l[pos + k + i] == spec_dec_str(n as nat)[i],
        pos + k + spec_dec_str(n as nat).len() < l.len() ==> !is_digit(
            l[pos + k + spec_dec_str(n as nat).len()],
        ),
    ensures
        spec_number_after(l, pos) == Ok::<u64, VersionError>(n),
{
    lemma_dec_str_digits(n as nat);
    lemma_dec_str_value(n as nat);
    let dstr = spec_dec_str(n as nat);
    let t = l.subrange(pos, l.len() as int);
    assert forall|i: int| 0 <= i < k implies is_line_ws(#[trigger] t[i]) by {
        assert(t[i] == l[pos + i]);
    }
    assert(t[k] == dstr[0]);
    assert(is_digit(dstr[0]));
    assert(!is_line_ws(t[k]));
    lemma_ws_prefix_at(t, k);
    let start = pos + k;
    assert forall|i: int| start <= i < start + dstr.len() implies is_digit(#[trigger] l[i]) by {
        assert(l[i] == dstr[i - start]);
    }
    lemma_run_end_at(l, start, start + dstr.len() as int);
    assert(l.subrange(start, start + dstr.len() as int) =~= dstr);
    assert(run_end(l, start, false) > start);
    assert(dec_value(dstr) == n <= u64::MAX);
}

/// The run of digits starting `from` ends exactly at `k` when everything
/// before `k` is a digit and `k` holds none.
pub proof fn lemma_run_end_at(s: Seq<char>, from: int, k: int)
    requires
        0 <= from <= k <= s.len(),
        forall|i: int| from <= i < k ==> is_digit(#[trigger] s[i]),
        k < s.len() ==> !is_digit(s[k]),
    ensures
        run_end(s, from, false) == k,
{
    lemma_run_end(s, from, false);
    let e = run_end(s, from, false);
    if e < k {
        assert(is_digit(s[e]));
    }
    if e > k && k < s.len() {
        assert(is_digit(s[k]));
    }
}

/// Parsing the string form of a version yields the version back.
pub proof fn lemma_version_str_round_trip(v: SemVer)
    ensures
        spec_parse_triple_at(spec_version_str(v), 0) == Some(v),
        spec_triple_end(spec_version_str(v), 0) == spec_version_str(v).len(),
        spec_parse_version(spec_version_str(v)) == Ok::<SemVer, VersionError>(v),
{
    let a = spec_dec_str(v.major as nat);
    let b = spec_dec_str(v.minor as nat);
    let c = spec_dec_str(v.patch as nat);
    let s = spec_version_str(v);
    lemma_dec_str_digits(v.major as nat);
    lemma_dec_str_digits(v.minor as nat);
    lemma_dec_str_digits(v.patch as nat);
    lemma_dec_str_value(v.major as nat);
    lemma_dec_str_value(v.minor as nat);
    lemma_dec_str_value(v.patch as nat);
    let la = a.len() as int;
    let lb = b.len() as int;
    let lc = c.len() as int;
    assert forall|i: int| 0 <= i < la implies is_digit(#[trigger] s[i]) by {
        assert(s[i] == a[i]);
    }
    assert(s[la] == '.');
    assert(!is_digit('.'));
    lemma_run_end_at(s, 0, la);
    assert(s.subrange(0, la) =~= a);
    assert(spec_parse_run(s, 0) == Some(v.major));
    assert forall|i: int| la + 1 <= i < la + 1 + lb implies is_digit(#[trigger] s[i]) by {
        assert(s[i] == b[i - la - 1]);
    }
    assert(s[la + 1 + lb] == '.');
    lemma_run_end_at(s, la + 1, la + 1 + lb);
    assert(s.subrange(la + 1, la + 1 + lb) =~= b);
    assert(spec_parse_run(s, la + 1) == Some(v.minor));
    assert forall|i: int| la + lb + 2 <= i < s.len() implies is_digit(#[trigger] s[i]) by {
        assert(s[i] == c[i - la - lb - 2]);
    }
    lemma_run_end_at(s, la + lb + 2, s.len() as int);
    assert(s.subrange(la + lb + 2, s.len() as int) =~= c);
    assert(spec_parse_run(s, la + lb + 2) == Some(v.patch));
}

} // verus!
