//! Character-sequence utilities shared by the manifest format adapters:
//! whitespace trimming, prefix and substring tests, decimal numbers, and
//! splitting text into lines.

use vstd::prelude::*;
use vstd::string::StrSliceExecFns;
use vstd::string::StringExecFns;

verus! {

/// Whitespace that may surround a token on one line.
pub open spec fn is_line_ws(c: char) -> bool {
    c == ' ' || c == '\t' || c == '\r'
}

/// Number of leading whitespace characters of `s`.
pub open spec fn ws_prefix_len(s: Seq<char>) -> nat
    decreases s.len(),
{
    if s.len() == 0 {
        0
    } else if is_line_ws(s[0]) {
        1 + ws_prefix_len(s.subrange(1, s.len() as int))
    } else {
        0
    }
}

/// Number of trailing whitespace characters of `s`.
pub open spec fn ws_suffix_len(s: Seq<char>) -> nat
    decreases s.len(),
{
    if s.len() == 0 {
        0
    } else if is_line_ws(s[s.len() - 1]) {
        1 + ws_suffix_len(s.subrange(0, s.len() - 1))
    } else {
        0
    }
}

/// `s` with leading whitespace removed.
pub open spec fn spec_trim_start(s: Seq<char>) -> Seq<char> {
    s.subrange(ws_prefix_len(s) as int, s.len() as int)
}

/// `s` with leading and trailing whitespace removed.
pub open spec fn spec_trim(s: Seq<char>) -> Seq<char> {
    let t = spec_trim_start(s);
    t.subrange(0, t.len() - ws_suffix_len(t))
}

pub proof fn lemma_ws_prefix(s: Seq<char>)
    ensures
        ws_prefix_len(s) <= s.len(),
        forall|i: int| 0 <= i < ws_prefix_len(s) ==> is_line_ws(#[trigger] s[i]),
        ws_prefix_len(s) < s.len() ==> !is_line_ws(s[ws_prefix_len(s) as int]),
    decreases s.len(),
{
    if s.len() > 0 && is_line_ws(s[0]) {
        let t = s.subrange(1, s.len() as int);
        lemma_ws_prefix(t);
        assert forall|i: int| 0 <= i < ws_prefix_len(s) implies is_line_ws(#[trigger] s[i]) by {
            if i > 0 {
                assert(is_line_ws(t[i - 1]));
            }
        }
    }
}

pub proof fn lemma_ws_suffix(s: Seq<char>)
    ensures
        ws_suffix_len(s) <= s.len(),
        forall|i: int|
            s.len() - ws_suffix_len(s) <= i < s.len() ==> is_line_ws(#[trigger] s[i]),
        ws_suffix_len(s) < s.len() ==> !is_line_ws(s[s.len() - ws_suffix_len(s) - 1]),
    decreases s.len(),
{
    if s.len() > 0 && is_line_ws(s[s.len() - 1]) {
        let t = s.subrange(0, s.len() - 1);
        lemma_ws_suffix(t);
        assert forall|i: int|
            s.len() - ws_suffix_len(s) <= i < s.len() implies is_line_ws(#[trigger] s[i]) by {
            if i < s.len() - 1 {
                assert(is_line_ws(t[i]));
            }
        }
    }
}

/// Index of the first non-whitespace character of `s`, executable form.
pub fn trim_start_len(s: &str) -> (i: usize)
    ensures
        i == ws_prefix_len(s@),
{
    let n = s.unicode_len();
    let mut i: usize = 0;
    proof {
        lemma_ws_prefix(s@);
    }
    while i < n
        invariant
            0 <= i <= n,
            n == s@.len(),
            i <= ws_prefix_len(s@),
            forall|j: int| 0 <= j < i ==> is_line_ws(#[trigger] s@[j]),
        decreases n - i,
    {
        let c = s.get_char(i);
        if !(c == ' ' || c == '\t' || c == '\r') {
            proof {
                lemma_ws_prefix_at(s@, i as int);
            }
            return i;
        }
        proof {
            lemma_ws_prefix_step(s@, i as int);
        }
        i = i + 1;
    }
    proof {
        lemma_ws_prefix(s@);
    }
    i
}

/// If the first `i` characters are whitespace and `s[i]` is not, the
/// whitespace prefix ends exactly at `i`.
pub proof fn lemma_ws_prefix_at(s: Seq<char>, i: int)
    requires
        0 <= i < s.len(),
        forall|j: int| 0 <= j < i ==> is_line_ws(#[trigger] s[j]),
        !is_line_ws(s[i]),
    ensures
        ws_prefix_len(s) == i,
{
    lemma_ws_prefix(s);
    if ws_prefix_len(s) < i {
        assert(is_line_ws(s[ws_prefix_len(s) as int]));
    }
}

/// If the first `i + 1` characters are whitespace, the whitespace prefix is
/// longer than `i`.
proof fn lemma_ws_prefix_step(s: Seq<char>, i: int)
    requires
        0 <= i < s.len(),
        forall|j: int| 0 <= j <= i ==> is_line_ws(#[trigger] s[j]),
    ensures
        ws_prefix_len(s) > i,
    decreases i,
{
    assert(is_line_ws(s[0]));
    if i > 0 {
        let t = s.subrange(1, s.len() as int);
        assert(forall|j: int| 0 <= j <= i - 1 ==> is_line_ws(#[trigger] t[j]));
        lemma_ws_prefix_step(t, i - 1);
    }
}

/// The trailing whitespace of `s` starts exactly at `k` when everything
/// from `k` on is whitespace and the character before `k` is not.
proof fn lemma_ws_suffix_at(s: Seq<char>, k: int)
    requires
        0 <= k <= s.len(),
        forall|i: int| k <= i < s.len() ==> is_line_ws(#[trigger] s[i]),
        k > 0 ==> !is_line_ws(s[k - 1]),
    ensures
        ws_suffix_len(s) == s.len() - k,
{
    lemma_ws_suffix(s);
    let b = ws_suffix_len(s);
    if b < s.len() - k {
        assert(is_line_ws(s[s.len() - b - 1]));
    }
    if b > s.len() - k {
        assert(is_line_ws(s[k - 1]));
    }
}

/// Whether the character at position `i` is line whitespace.
fn is_ws_at(s: &str, i: usize) -> (r: bool)
    requires
        i < s@.len(),
    ensures
        r == is_line_ws(s@[i as int]),
{
    let c = s.get_char(i);
    c == ' ' || c == '\t' || c == '\r'
}

/// `s` without leading or trailing whitespace, executable form.
pub fn trim_str<'a>(s: &'a str) -> (r: &'a str)
    ensures
        r@ == spec_trim(s@),
{
    let n = s.unicode_len();
    let a = trim_start_len(s);
    proof {
        lemma_ws_prefix(s@);
    }
    let mut e: usize = n;
    while e > a && is_ws_at(s, e - 1)
        invariant
            a <= e <= n,
            n == s@.len(),
            a == ws_prefix_len(s@),
            forall|j: int| e <= j < n ==> is_line_ws(#[trigger] s@[j]),
        decreases e,
    {
        e = e - 1;
    }
    let ghost t = spec_trim_start(s@);
    proof {
        assert forall|i: int| e - a <= i < t.len() implies is_line_ws(#[trigger] t[i]) by {
            assert(t[i] == s@[a + i]);
        }
        if e > a {
            assert(!is_line_ws(s@[e - 1]));
            assert(t[e - a - 1] == s@[e - 1]);
        }
        lemma_ws_suffix_at(t, e - a);
        assert(spec_trim(s@) =~= s@.subrange(a as int, e as int));
    }
    s.substring_char(a, e)
}

/// `p` is a prefix of `s`.
pub open spec fn spec_starts_with(s: Seq<char>, p: Seq<char>) -> bool {
    p.len() <= s.len() && (forall|k: int| 0 <= k < p.len() ==> s[k] == #[trigger] p[k])
}

/// `p` occurs in `s` at position `i`.
pub open spec fn spec_match_at(s: Seq<char>, i: int, p: Seq<char>) -> bool {
    0 <= i && i + p.len() <= s.len() && (forall|k: int|
        0 <= k < p.len() ==> s[i + k] == #[trigger] p[k])
}

/// `p` occurs somewhere in `s`.
pub open spec fn spec_contains(s: Seq<char>, p: Seq<char>) -> bool {
    exists|i: int| spec_match_at(s, i, p)
}

/// Position of the first occurrence of `p` in `s`; meaningful only when
/// `spec_contains(s, p)` holds.
pub open spec fn spec_find(s: Seq<char>, p: Seq<char>) -> int
    decreases s.len(),
{
    if spec_match_at(s, 0, p) {
        0
    } else if s.len() == 0 {
        0
    } else {
        1 + spec_find(s.subrange(1, s.len() as int), p)
    }
}

pub proof fn lemma_find_properties(s: Seq<char>, p: Seq<char>)
    requires
        spec_contains(s, p),
    ensures
        0 <= spec_find(s, p),
        spec_find(s, p) + p.len() <= s.len(),
        spec_match_at(s, spec_find(s, p), p),
        forall|j: int| 0 <= j < spec_find(s, p) ==> !spec_match_at(s, j, p),
    decreases s.len(),
{
    if spec_match_at(s, 0, p) {
    } else {
        let i = choose|i: int| spec_match_at(s, i, p);
        assert(i > 0);
        let t = s.subrange(1, s.len() as int);
        assert(spec_match_at(t, i - 1, p));
        lemma_find_properties(t, p);
        let f = spec_find(t, p);
        assert(spec_match_at(s, f + 1, p));
        assert forall|j: int| 0 <= j < f + 1 implies !spec_match_at(s, j, p) by {
            if j > 0 && spec_match_at(s, j, p) {
                assert(spec_match_at(t, j - 1, p));
            }
        }
    }
}

/// A match within the common prefix of two sequences carries over.
pub proof fn lemma_match_transfer(s1: Seq<char>, s2: Seq<char>, m: int, j: int, p: Seq<char>)
    requires
        0 <= j,
        j + p.len() <= m,
        m <= s1.len(),
        m <= s2.len(),
        forall|i: int| 0 <= i < m ==> s1[i] == s2[i],
        spec_match_at(s2, j, p),
    ensures
        spec_match_at(s1, j, p),
{
    assert forall|k: int| 0 <= k < p.len() implies s1[j + k] == #[trigger] p[k] by {
        assert(s2[j + k] == p[k]);
        assert(s1[j + k] == s2[j + k]);
    }
}

/// The first occurrence of `p` is at `k` exactly when `p` matches at `k`
/// and nowhere before.
pub proof fn lemma_find_at(s: Seq<char>, p: Seq<char>, k: int)
    requires
        spec_match_at(s, k, p),
        forall|j: int| 0 <= j < k ==> !spec_match_at(s, j, p),
    ensures
        spec_contains(s, p),
        spec_find(s, p) == k,
{
    assert(spec_contains(s, p));
    lemma_find_properties(s, p);
    let f = spec_find(s, p);
    if f < k {
        assert(!spec_match_at(s, f, p));
    }
}

/// Whether `p` occurs in `s` starting exactly at position `i`, executable
/// form.
pub fn match_at(s: &str, i: usize, p: &str) -> (r: bool)
    requires
        i <= s@.len(),
    ensures
        r == spec_match_at(s@, i as int, p@),
{
    let n = s.unicode_len();
    let m = p.unicode_len();
    if m > n - i {
        return false;
    }
    let mut k: usize = 0;
    while k < m
        invariant
            0 <= k <= m,
            n == s@.len(),
            m == p@.len(),
            i + m <= n,
            forall|j: int| 0 <= j < k ==> s@[i + j] == #[trigger] p@[j],
        decreases m - k,
    {
        if s.get_char(i + k) != p.get_char(k) {
            return false;
        }
        k = k + 1;
    }
    true
}

/// Whether `p` is a prefix of `s`, executable form.
pub fn starts_with_str(s: &str, p: &str) -> (r: bool)
    ensures
        r == spec_starts_with(s@, p@),
{
    let r = match_at(s, 0, p);
    assert(spec_match_at(s@, 0, p@) == spec_starts_with(s@, p@));
    r
}

/// First occurrence of `p` in `s`, executable form.
pub fn find_str(s: &str, p: &str) -> (r: Option<usize>)
    ensures
        match r {
            Some(i) => spec_contains(s@, p@) && i == spec_find(s@, p@),
            None => !spec_contains(s@, p@),
        },
{
    let n = s.unicode_len();
    let m = p.unicode_len();
    if m > n {
        return None;
    }
    let mut i: usize = 0;
    while i <= n - m
        invariant
            0 <= i,
            m <= n,
            i + m <= n + 1,
            n == s@.len(),
            m == p@.len(),
            forall|j: int| 0 <= j < i ==> !spec_match_at(s@, j, p@),
        decreases n - i,
    {
        if match_at(s, i, p) {
            proof {
                lemma_find_properties(s@, p@);
                let f = spec_find(s@, p@);
                if f < i {
                    assert(spec_match_at(s@, f, p@));
                }
                if f > i {
                    assert(!spec_match_at(s@, i as int, p@));
                }
            }
            return Some(i);
        }
        i = i + 1;
    }
    proof {
        assert forall|j: int| 0 <= j implies !spec_match_at(s@, j, p@) by {
            if spec_match_at(s@, j, p@) {
                assert(j + p@.len() <= s@.len());
            }
        }
    }
    None
}

/// Whether `p` occurs anywhere in `s`, executable form.
pub fn contains_str(s: &str, p: &str) -> (r: bool)
    ensures
        r == spec_contains(s@, p@),
{
    match find_str(s, p) {
        Some(_) => true,
        None => false,
    }
}

/// Decimal digit.
pub open spec fn is_digit(c: char) -> bool {
    '0' <= c && c <= '9'
}

/// Numeric value of a digit character.
pub open spec fn digit_val(c: char) -> int {
    c as u32 - '0' as u32
}

pub open spec fn all_digits(s: Seq<char>) -> bool {
    forall|i: int| 0 <= i < s.len() ==> is_digit(#[trigger] s[i])
}

/// Value of a digit string read in base ten.
pub open spec fn dec_value(s: Seq<char>) -> int
    decreases s.len(),
{
    if s.len() == 0 {
        0
    } else {
        dec_value(s.subrange(0, s.len() - 1)) * 10 + digit_val(s[s.len() - 1])
    }
}

/// The digit character for a value below ten.
pub open spec fn digit_char(d: int) -> char {
    if d == 0 {
        '0'
    } else if d == 1 {
        '1'
    } else if d == 2 {
        '2'
    } else if d == 3 {
        '3'
    } else if d == 4 {
        '4'
    } else if d == 5 {
        '5'
    } else if d == 6 {
        '6'
    } else if d == 7 {
        '7'
    } else if d == 8 {
        '8'
    } else {
        '9'
    }
}

/// Decimal notation of a non-negative number, without leading zeros.
pub open spec fn spec_dec_str(n: nat) -> Seq<char>
    decreases n,
{
    if n < 10 {
        seq![digit_char(n as int)]
    } else {
        spec_dec_str(n / 10).push(digit_char((n % 10) as int))
    }
}

pub proof fn lemma_dec_str_digits(n: nat)
    ensures
        spec_dec_str(n).len() >= 1,
        all_digits(spec_dec_str(n)),
    decreases n,
{
    if n >= 10 {
        lemma_dec_str_digits(n / 10);
        let p = spec_dec_str(n / 10);
        let s = p.push(digit_char((n % 10) as int));
        assert forall|i: int| 0 <= i < s.len() implies is_digit(#[trigger] s[i]) by {
            if i < p.len() {
                assert(is_digit(p[i]));
            }
        }
    }
}

pub proof fn lemma_dec_str_value(n: nat)
    ensures
        dec_value(spec_dec_str(n)) == n,
    decreases n,
{
    assert(digit_val(digit_char(0)) == 0);
    assert(digit_val(digit_char(1)) == 1);
    assert(digit_val(digit_char(2)) == 2);
    assert(digit_val(digit_char(3)) == 3);
    assert(digit_val(digit_char(4)) == 4);
    assert(digit_val(digit_char(5)) == 5);
    assert(digit_val(digit_char(6)) == 6);
    assert(digit_val(digit_char(7)) == 7);
    assert(digit_val(digit_char(8)) == 8);
    assert(digit_val(digit_char(9)) == 9);
    if n < 10 {
        let s = spec_dec_str(n);
        assert(s.subrange(0, 0) =~= Seq::<char>::empty());
        assert(dec_value(s) == dec_value(s.subrange(0, 0)) * 10 + digit_val(s[0]));
    } else {
        lemma_dec_str_value(n / 10);
        let p = spec_dec_str(n / 10);
        let s = p.push(digit_char((n % 10) as int));
        assert(s.subrange(0, s.len() - 1) =~= p);
        assert(dec_value(s) == dec_value(p) * 10 + digit_val(digit_char((n % 10) as int)));
        assert(dec_value(s) == (n / 10) * 10 + (n % 10));
    }
}

pub open spec fn pow10(k: nat) -> int
    decreases k,
{
    if k == 0 {
        1
    } else {
        10 * pow10((k - 1) as nat)
    }
}

pub proof fn lemma_pow10_pos(k: nat)
    ensures
        pow10(k) >= 1,
    decreases k,
{
    if k > 0 {
        lemma_pow10_pos((k - 1) as nat);
    }
}

pub proof fn lemma_dec_value_nonneg(s: Seq<char>)
    requires
        all_digits(s),
    ensures
        dec_value(s) >= 0,
    decreases s.len(),
{
    if s.len() > 0 {
        let p = s.subrange(0, s.len() - 1);
        assert(all_digits(p));
        lemma_dec_value_nonneg(p);
    }
}

pub proof fn lemma_dec_value_append(a: Seq<char>, b: Seq<char>)
    ensures
        dec_value(a + b) == dec_value(a) * pow10(b.len()) + dec_value(b),
    decreases b.len(),
{
    if b.len() == 0 {
        assert(a + b =~= a);
    } else {
        let b0 = b.subrange(0, b.len() - 1);
        lemma_dec_value_append(a, b0);
        let s = a + b;
        assert(s.subrange(0, s.len() - 1) =~= a + b0);
        assert(s[s.len() - 1] == b[b.len() - 1]);
        assert(dec_value(s) == (dec_value(a) * pow10(b0.len()) + dec_value(b0)) * 10 + digit_val(
            b[b.len() - 1],
        ));
        assert(dec_value(a) * pow10(b0.len()) * 10 == dec_value(a) * pow10(b.len()))
            by (nonlinear_arith)
            requires
                pow10(b.len()) == 10 * pow10(b0.len()),
        ;
    }
}

/// A digit string is worth at least any of its prefixes.
pub proof fn lemma_dec_value_prefix(s: Seq<char>, k: int)
    requires
        all_digits(s),
        0 <= k <= s.len(),
    ensures
        dec_value(s.subrange(0, k)) <= dec_value(s),
{
    let a = s.subrange(0, k);
    let b = s.subrange(k, s.len() as int);
    assert(s =~= a + b);
    lemma_dec_value_append(a, b);
    assert(all_digits(a));
    assert(all_digits(b));
    lemma_dec_value_nonneg(a);
    lemma_dec_value_nonneg(b);
    lemma_pow10_pos(b.len());
    assert(dec_value(a) * pow10(b.len()) >= dec_value(a)) by (nonlinear_arith)
        requires
            dec_value(a) >= 0,
            pow10(b.len()) >= 1,
    ;
}

/// End of the run of digit (or digit-and-dot) characters starting at `from`.
pub open spec fn run_end(s: Seq<char>, from: int, dots: bool) -> int
    decreases s.len() - from,
{
    if from < 0 || from >= s.len() {
        from
    } else if is_digit(s[from]) || (dots && s[from] == '.') {
        run_end(s, from + 1, dots)
    } else {
        from
    }
}

pub proof fn lemma_run_end(s: Seq<char>, from: int, dots: bool)
    requires
        0 <= from <= s.len(),
    ensures
        from <= run_end(s, from, dots) <= s.len(),
        forall|i: int|
            from <= i < run_end(s, from, dots) ==> (is_digit(#[trigger] s[i]) || (dots && s[i]
                == '.')),
        run_end(s, from, dots) < s.len() ==> !(is_digit(s[run_end(s, from, dots)]) || (dots
            && s[run_end(s, from, dots)] == '.')),
    decreases s.len() - from,
{
    if from < s.len() && (is_digit(s[from]) || (dots && s[from] == '.')) {
        lemma_run_end(s, from + 1, dots);
    }
}

/// The digit (or digit-and-dot) run from `from` ends exactly at `k` when
/// everything before `k` belongs to the run and `k` holds nothing of it.
pub proof fn lemma_run_end_is(s: Seq<char>, from: int, k: int, dots: bool)
    requires
        0 <= from <= k <= s.len(),
        forall|i: int|
            from <= i < k ==> (is_digit(#[trigger] s[i]) || (dots && s[i] == '.')),
        k < s.len() ==> !(is_digit(s[k]) || (dots && s[k] == '.')),
    ensures
        run_end(s, from, dots) == k,
{
    lemma_run_end(s, from, dots);
    let e = run_end(s, from, dots);
    if e < k {
        assert(is_digit(s[e]) || (dots && s[e] == '.'));
    }
    if e > k && k < s.len() {
        assert(is_digit(s[k]) || (dots && s[k] == '.'));
    }
}

/// Executable scan for the end of a digit (or digit-and-dot) run.
pub fn run_end_exec(s: &str, from: usize, dots: bool) -> (r: usize)
    requires
        from <= s@.len(),
    ensures
        r == run_end(s@, from as int, dots),
        from <= r <= s@.len(),
{
    let n = s.unicode_len();
    let mut i: usize = from;
    while i < n
        invariant
            from <= i <= n,
            n == s@.len(),
            run_end(s@, from as int, dots) == run_end(s@, i as int, dots),
        decreases n - i,
    {
        let c = s.get_char(i);
        let ok = (c >= '0' && c <= '9') || (dots && c == '.');
        if !ok {
            return i;
        }
        i = i + 1;
    }
    i
}

/// The digit string for a `u64`, executable form.
pub fn u64_to_string(n: u64) -> (r: String)
    ensures
        r@ == spec_dec_str(n as nat),
    decreases n,
{
    if n < 10 {
        digit_string(n)
    } else {
        let mut s = u64_to_string(n / 10);
        let d = digit_string(n % 10);
        s.append(d.as_str());
        proof {
            assert(s@ =~= spec_dec_str((n / 10) as nat).push(digit_char((n % 10) as int)));
        }
        s
    }
}

/// A one-character string holding the given digit.
fn digit_string(d: u64) -> (r: String)
    requires
        d < 10,
    ensures
        r@ =~= seq![digit_char(d as int)],
{
    proof {
        reveal_strlit("0");
        reveal_strlit("1");
        reveal_strlit("2");
        reveal_strlit("3");
        reveal_strlit("4");
        reveal_strlit("5");
        reveal_strlit("6");
        reveal_strlit("7");
        reveal_strlit("8");
        reveal_strlit("9");
    }
    let t = if d == 0 {
        "0"
    } else if d == 1 {
        "1"
    } else if d == 2 {
        "2"
    } else if d == 3 {
        "3"
    } else if d == 4 {
        "4"
    } else if d == 5 {
        "5"
    } else if d == 6 {
        "6"
    } else if d == 7 {
        "7"
    } else if d == 8 {
        "8"
    } else {
        "9"
    };
    String::from_str(t)
}

/// Value of the digit run starting at `from`: `None` when the run is empty
/// or its value does not fit in a `u64`.
pub open spec fn spec_parse_run(s: Seq<char>, from: int) -> Option<u64> {
    let e = run_end(s, from, false);
    if e == from {
        None
    } else if dec_value(s.subrange(from, e)) <= u64::MAX {
        Some(dec_value(s.subrange(from, e)) as u64)
    } else {
        None
    }
}

/// Reads the digit run starting at `from`; returns its value (if any) and
/// the position right after the run.
pub fn parse_run(s: &str, from: usize) -> (r: (Option<u64>, usize))
    requires
        from <= s@.len(),
    ensures
        r.1 == run_end(s@, from as int, false),
        r.0 == spec_parse_run(s@, from as int),
        from <= r.1 <= s@.len(),
{
    let e = run_end_exec(s, from, false);
    proof {
        lemma_run_end(s@, from as int, false);
    }
    if e == from {
        return (None, e);
    }
    let mut val: u64 = 0;
    let mut k: usize = from;
    let ghost run = s@.subrange(from as int, e as int);
    proof {
        assert(all_digits(run));
        assert(run.subrange(0, 0) =~= Seq::<char>::empty());
    }
    while k < e
        invariant
            from <= k <= e,
            e <= s@.len(),
            e == run_end(s@, from as int, false),
            run == s@.subrange(from as int, e as int),
            all_digits(run),
            val == dec_value(run.subrange(0, k - from)),
        decreases e - k,
    {
        let c = s.get_char(k);
        proof {
            lemma_run_end(s@, from as int, false);
            assert(c == run[k - from]);
            assert(is_digit(c));
        }
        let d: u64 = (c as u32 - 48) as u64;
        assert(d == digit_val(c) && d <= 9);
        if val > (u64::MAX - d) / 10 {
            proof {
                let p = run.subrange(0, k - from);
                let q = run.subrange(0, k - from + 1);
                assert(q.subrange(0, q.len() - 1) =~= p);
                assert(dec_value(q) == val * 10 + d);
                assert(val * 10 + d > u64::MAX) by (nonlinear_arith)
                    requires
                        val > (u64::MAX - d) / 10,
                        0 <= d <= 9,
                ;
                assert(all_digits(run));
                lemma_dec_value_prefix(run, k - from + 1);
            }
            return (None, e);
        }
        proof {
            assert(val * 10 + d <= u64::MAX) by (nonlinear_arith)
                requires
                    val <= (u64::MAX - d) / 10,
                    0 <= d <= 9,
            ;
            let p = run.subrange(0, k - from);
            let q = run.subrange(0, k - from + 1);
            assert(q.subrange(0, q.len() - 1) =~= p);
            assert(dec_value(q) == val * 10 + d);
        }
        val = val * 10 + d;
        k = k + 1;
    }
    proof {
        assert(run.subrange(0, e - from) =~= run);
    }
    (Some(val), e)
}

/// Index of the first line break in `s`, or `s.len()` when there is none.
pub open spec fn line_break(s: Seq<char>) -> int
    decreases s.len(),
{
    if s.len() == 0 {
        0
    } else if s[0] == '\n' {
        0
    } else {
        1 + line_break(s.subrange(1, s.len() as int))
    }
}

pub proof fn lemma_line_break(s: Seq<char>)
    ensures
        0 <= line_break(s) <= s.len(),
        forall|i: int| 0 <= i < line_break(s) ==> #[trigger] s[i] != '\n',
        line_break(s) < s.len() ==> s[line_break(s)] == '\n',
    decreases s.len(),
{
    if s.len() > 0 && s[0] != '\n' {
        let t = s.subrange(1, s.len() as int);
        lemma_line_break(t);
        assert forall|i: int| 0 <= i < line_break(s) implies #[trigger] s[i] != '\n' by {
            if i > 0 {
                assert(t[i - 1] != '\n');
            }
        }
    }
}

/// The first line break is at `k` exactly when no break comes before `k`.
pub proof fn lemma_line_break_at(s: Seq<char>, k: int)
    requires
        0 <= k <= s.len(),
        forall|i: int| 0 <= i < k ==> #[trigger] s[i] != '\n',
        k < s.len() ==> s[k] == '\n',
    ensures
        line_break(s) == k,
{
    lemma_line_break(s);
    if line_break(s) < k {
        assert(s[line_break(s)] != '\n');
    }
    if line_break(s) > k && k < s.len() {
        assert(s[k] != '\n');
    }
}

/// The lines of `s`: segments between line breaks, a trailing empty segment
/// dropped.
pub open spec fn spec_split_lines(s: Seq<char>) -> Seq<Seq<char>>
    decreases s.len(),
{
    if s.len() == 0 {
        Seq::empty()
    } else {
        let k = line_break(s);
        if 0 <= k && k < s.len() {
            seq![s.subrange(0, k)] + spec_split_lines(s.subrange(k + 1, s.len() as int))
        } else {
            seq![s]
        }
    }
}

/// Text made of the given lines, each one closed by a line break.
pub open spec fn spec_join_lines(ls: Seq<Seq<char>>) -> Seq<char>
    decreases ls.len(),
{
    if ls.len() == 0 {
        Seq::empty()
    } else {
        ls[0] + seq!['\n'] + spec_join_lines(ls.subrange(1, ls.len() as int))
    }
}

pub open spec fn line_is_clean(l: Seq<char>) -> bool {
    forall|i: int| 0 <= i < l.len() ==> #[trigger] l[i] != '\n'
}

pub open spec fn no_line_breaks(ls: Seq<Seq<char>>) -> bool {
    forall|i: int| 0 <= i < ls.len() ==> line_is_clean(#[trigger] ls[i])
}

pub proof fn lemma_split_lines_clean(s: Seq<char>)
    ensures
        no_line_breaks(spec_split_lines(s)),
    decreases s.len(),
{
    if s.len() > 0 {
        let k = line_break(s);
        lemma_line_break(s);
        if k == s.len() {
            assert(line_is_clean(s));
        } else {
            lemma_split_lines_clean(s.subrange(k + 1, s.len() as int));
            let ls = spec_split_lines(s);
            let rest = spec_split_lines(s.subrange(k + 1, s.len() as int));
            assert(line_is_clean(s.subrange(0, k)));
            assert forall|i: int| 0 <= i < ls.len() implies line_is_clean(#[trigger] ls[i]) by {
                if i > 0 {
                    assert(ls[i] == rest[i - 1]);
                }
            }
        }
    }
}

/// Splitting undoes joining, for lines free of line breaks.
pub proof fn lemma_split_join(ls: Seq<Seq<char>>)
    requires
        no_line_breaks(ls),
    ensures
        spec_split_lines(spec_join_lines(ls)) == ls,
    decreases ls.len(),
{
    if ls.len() > 0 {
        let rest = ls.subrange(1, ls.len() as int);
        let s = spec_join_lines(ls);
        let l0 = ls[0];
        assert(line_is_clean(l0));
        assert forall|i: int| 0 <= i < l0.len() implies #[trigger] s[i] != '\n' by {
            assert(s[i] == l0[i]);
        }
        assert(s[l0.len() as int] == '\n');
        lemma_line_break_at(s, l0.len() as int);
        assert(s.subrange(0, l0.len() as int) =~= l0);
        assert(s.subrange(l0.len() as int + 1, s.len() as int) =~= spec_join_lines(rest));
        assert(no_line_breaks(rest));
        lemma_split_join(rest);
        assert(spec_split_lines(s) =~= seq![l0] + spec_split_lines(spec_join_lines(rest)));
        assert(seq![l0] + rest =~= ls);
    }
}

pub proof fn lemma_join_push(ls: Seq<Seq<char>>, l: Seq<char>)
    ensures
        spec_join_lines(ls.push(l)) == spec_join_lines(ls) + l + seq!['\n'],
    decreases ls.len(),
{
    if ls.len() == 0 {
        let p = ls.push(l);
        assert(p.len() == 1);
        assert(p[0] == l);
        assert(p.subrange(1, 1) =~= Seq::<Seq<char>>::empty());
        assert(spec_join_lines(p.subrange(1, 1)) =~= Seq::<char>::empty());
        assert(spec_join_lines(p) =~= l + seq!['\n'] + Seq::<char>::empty());
        assert(spec_join_lines(p) =~= l + seq!['\n']);
        assert(spec_join_lines(ls) + l + seq!['\n'] =~= l + seq!['\n']);
    } else {
        let p = ls.push(l);
        assert(p[0] == ls[0]);
        assert(p.subrange(1, p.len() as int) =~= ls.subrange(1, ls.len() as int).push(l));
        lemma_join_push(ls.subrange(1, ls.len() as int), l);
        assert(spec_join_lines(p) =~= spec_join_lines(ls) + l + seq!['\n']);
    }
}

/// Splits text into its lines, executable form.
pub fn split_lines(s: &str) -> (r: Vec<String>)
    ensures
        r.deep_view() == spec_split_lines(s@),
{
    let n = s.unicode_len();
    let mut acc: Vec<String> = Vec::new();
    let mut start: usize = 0;
    let mut i: usize = 0;
    proof {
        assert(acc.deep_view() =~= Seq::<Seq<char>>::empty());
        assert(s@.subrange(0, n as int) =~= s@);
    }
    while i < n
        invariant
            0 <= start <= i <= n,
            n == s@.len(),
            forall|j: int| start <= j < i ==> #[trigger] s@[j] != '\n',
            spec_split_lines(s@) == acc.deep_view() + spec_split_lines(
                s@.subrange(start as int, n as int),
            ),
        decreases n - i,
    {
        let c = s.get_char(i);
        if c == '\n' {
            let seg = s.substring_char(start, i);
            let ghost t = s@.subrange(start as int, n as int);
            proof {
                assert forall|j: int| 0 <= j < i - start implies #[trigger] t[j] != '\n' by {
                    assert(t[j] == s@[start + j]);
                }
                assert(t[i - start] == '\n');
                lemma_line_break_at(t, i - start);
                assert(t.subrange(0, i - start) =~= s@.subrange(start as int, i as int));
                assert(t.subrange(i - start + 1, t.len() as int) =~= s@.subrange(
                    i + 1,
                    n as int,
                ));
            }
            let seg_string = String::from_str(seg);
            let ghost old_dv = acc.deep_view();
            acc.push(seg_string);
            proof {
                assert(acc.deep_view() =~= old_dv.push(s@.subrange(start as int, i as int)));
                assert(old_dv.push(s@.subrange(start as int, i as int)) + spec_split_lines(
                    s@.subrange(i + 1, n as int),
                ) =~= old_dv + spec_split_lines(t));
            }
            start = i + 1;
        }
        i = i + 1;
    }
    if start < n {
        let seg = s.substring_char(start, n);
        let ghost t = s@.subrange(start as int, n as int);
        proof {
            assert forall|j: int| 0 <= j < t.len() implies #[trigger] t[j] != '\n' by {
                assert(t[j] == s@[start + j]);
            }
            lemma_line_break_at(t, t.len() as int);
            assert(spec_split_lines(t) =~= seq![t]);
        }
        let seg_string = String::from_str(seg);
        let ghost old_dv = acc.deep_view();
        acc.push(seg_string);
        proof {
            assert(acc.deep_view() =~= old_dv.push(t));
            assert(old_dv + seq![t] =~= old_dv.push(t));
        }
    } else {
        proof {
            assert(s@.subrange(start as int, n as int).len() == 0);
            assert(acc.deep_view() + Seq::<Seq<char>>::empty() =~= acc.deep_view());
        }
    }
    acc
}

/// Joins lines back into text, each line closed by a line break.
pub fn join_lines(ls: &Vec<String>) -> (r: String)
    ensures
        r@ == spec_join_lines(ls.deep_view()),
{
    let mut out = String::new();
    let mut i: usize = 0;
    proof {
        reveal_strlit("\n");
        assert(ls.deep_view().subrange(0, 0) =~= Seq::<Seq<char>>::empty());
    }
    while i < ls.len()
        invariant
            0 <= i <= ls.len(),
            ls.deep_view().len() == ls.len(),
            out@ == spec_join_lines(ls.deep_view().subrange(0, i as int)),
        decreases ls.len() - i,
    {
        proof {
            assert(ls.deep_view()[i as int] == ls@[i as int]@);
        }
        out.append(ls[i].as_str());
        out.append("\n");
        proof {
            reveal_strlit("\n");
            let dv = ls.deep_view();
            assert("\n"@ =~= seq!['\n']);
            lemma_join_push(dv.subrange(0, i as int), dv[i as int]);
            assert(dv.subrange(0, i + 1) =~= dv.subrange(0, i as int).push(dv[i as int]));
        }
        i = i + 1;
    }
    proof {
        assert(ls.deep_view().subrange(0, ls.deep_view().len() as int) =~= ls.deep_view());
    }
    out
}

/// Length of the whitespace run starting at `from`, executable form.
pub fn ws_run_from(s: &str, from: usize) -> (r: usize)
    requires
        from <= s@.len(),
    ensures
        r == ws_prefix_len(s@.subrange(from as int, s@.len() as int)),
        from + r <= s@.len(),
{
    let t = s.substring_char(from, s.unicode_len());
    proof {
        lemma_ws_prefix(s@.subrange(from as int, s@.len() as int));
    }
    trim_start_len(t)
}

/// `p` is a suffix of `s`.
pub open spec fn spec_ends_with(s: Seq<char>, p: Seq<char>) -> bool {
    p.len() <= s.len() && spec_match_at(s, s.len() - p.len(), p)
}

/// Whether `p` is a suffix of `s`, executable form.
pub fn ends_with_str(s: &str, p: &str) -> (r: bool)
    ensures
        r == spec_ends_with(s@, p@),
{
    let n = s.unicode_len();
    let m = p.unicode_len();
    if m > n {
        return false;
    }
    match_at(s, n - m, p)
}

/// Some line of `ls` satisfies `p`.
pub open spec fn exists_where(ls: Seq<Seq<char>>, p: spec_fn(Seq<char>) -> bool) -> bool {
    exists|i: int| 0 <= i < ls.len() && p(#[trigger] ls[i])
}

/// Index of the first line of `ls` satisfying `p`; meaningful only when
/// `exists_where(ls, p)` holds.
pub open spec fn first_where(ls: Seq<Seq<char>>, p: spec_fn(Seq<char>) -> bool) -> int
    decreases ls.len(),
{
    if ls.len() == 0 {
        0
    } else if p(ls[0]) {
        0
    } else {
        1 + first_where(ls.subrange(1, ls.len() as int), p)
    }
}

pub proof fn lemma_first_where(ls: Seq<Seq<char>>, p: spec_fn(Seq<char>) -> bool)
    requires
        exists_where(ls, p),
    ensures
        0 <= first_where(ls, p) < ls.len(),
        p(ls[first_where(ls, p)]),
        forall|j: int| 0 <= j < first_where(ls, p) ==> !p(#[trigger] ls[j]),
    decreases ls.len(),
{
    if ls.len() > 0 && !p(ls[0]) {
        let t = ls.subrange(1, ls.len() as int);
        let i = choose|i: int| 0 <= i < ls.len() && p(#[trigger] ls[i]);
        assert(t[i - 1] == ls[i]);
        assert(exists_where(t, p));
        lemma_first_where(t, p);
        assert(ls[1 + first_where(t, p)] == t[first_where(t, p)]);
        assert forall|j: int| 0 <= j < first_where(ls, p) implies !p(#[trigger] ls[j]) by {
            if j > 0 {
                assert(ls[j] == t[j - 1]);
            }
        }
    }
}

/// The first line satisfying `p` is at `k` exactly when `ls[k]` satisfies it
/// and no earlier line does.
pub proof fn lemma_first_where_at(ls: Seq<Seq<char>>, p: spec_fn(Seq<char>) -> bool, k: int)
    requires
        0 <= k < ls.len(),
        p(ls[k]),
        forall|j: int| 0 <= j < k ==> !p(#[trigger] ls[j]),
    ensures
        first_where(ls, p) == k,
{
    assert(exists_where(ls, p));
    lemma_first_where(ls, p);
    let f = first_where(ls, p);
    if f < k {
        assert(!p(ls[f]));
    }
    if f > k {
        assert(!p(ls[k]));
    }
}

} // verus!
