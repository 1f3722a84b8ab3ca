//! Conventional-commit changelog generation: one commit message is
//! classified by the grammar `type(scope)?: description` and turned into a
//! bulleted entry, merge and version-bump commits are skipped, and a dated
//! release section is spliced into the changelog document right after its
//! `# Changelog` header.

use vstd::prelude::*;
use vstd::string::StrSliceExecFns;
use vstd::string::StringExecFns;
use crate::text::{
    spec_starts_with, spec_contains, spec_find, starts_with_str, contains_str, find_str,
    match_at, spec_match_at, line_break, lemma_line_break_at,
    lemma_find_properties,
};

verus! {

/// Whitespace that may surround a commit message, line breaks among it.
pub open spec fn is_msg_ws(c: char) -> bool {
    c == ' ' || c == '\t' || c == '\r' || c == '\n'
}

/// Number of leading whitespace characters of a message.
pub open spec fn msg_ws_prefix_len(s: Seq<char>) -> nat
    decreases s.len(),
{
    if s.len() == 0 {
        0
    } else if is_msg_ws(s[0]) {
        1 + msg_ws_prefix_len(s.subrange(1, s.len() as int))
    } else {
        0
    }
}

/// Number of trailing whitespace characters of a message.
pub open spec fn msg_ws_suffix_len(s: Seq<char>) -> nat
    decreases s.len(),
{
    if s.len() == 0 {
        0
    } else if is_msg_ws(s[s.len() - 1]) {
        1 + msg_ws_suffix_len(s.subrange(0, s.len() - 1))
    } else {
        0
    }
}

/// A message with surrounding whitespace removed.
pub open spec fn spec_msg_trim(s: Seq<char>) -> Seq<char> {
    let t = s.subrange(msg_ws_prefix_len(s) as int, s.len() as int);
    t.subrange(0, t.len() - msg_ws_suffix_len(t))
}

proof fn lemma_msg_ws_prefix(s: Seq<char>)
    ensures
        msg_ws_prefix_len(s) <= s.len(),
        forall|i: int| 0 <= i < msg_ws_prefix_len(s) ==> is_msg_ws(#[trigger] s[i]),
        msg_ws_prefix_len(s) < s.len() ==> !is_msg_ws(s[msg_ws_prefix_len(s) as int]),
    decreases s.len(),
{
    if s.len() > 0 && is_msg_ws(s[0]) {
        let t = s.subrange(1, s.len() as int);
        lemma_msg_ws_prefix(t);
        assert forall|i: int|
            0 <= i < msg_ws_prefix_len(s) implies is_msg_ws(#[trigger] s[i]) by {
            if i > 0 {
                assert(is_msg_ws(t[i - 1]));
            }
        }
    }
}

proof fn lemma_msg_ws_suffix(s: Seq<char>)
    ensures
        msg_ws_suffix_len(s) <= s.len(),
        forall|i: int|
            s.len() - msg_ws_suffix_len(s) <= i < s.len() ==> is_msg_ws(#[trigger] s[i]),
        msg_ws_suffix_len(s) < s.len() ==> !is_msg_ws(s[s.len() - msg_ws_suffix_len(s) - 1]),
    decreases s.len(),
{
    if s.len() > 0 && is_msg_ws(s[s.len() - 1]) {
        let t = s.subrange(0, s.len() - 1);
        lemma_msg_ws_suffix(t);
        assert forall|i: int|
            s.len() - msg_ws_suffix_len(s) <= i < s.len() implies is_msg_ws(
                #[trigger] s[i],
            ) by {
            if i < s.len() - 1 {
                assert(is_msg_ws(t[i]));
            }
        }
    }
}

proof fn lemma_msg_ws_prefix_at(s: Seq<char>, i: int)
    requires
        0 <= i <= s.len(),
        forall|j: int| 0 <= j < i ==> is_msg_ws(#[trigger] s[j]),
        i < s.len() ==> !is_msg_ws(s[i]),
    ensures
        msg_ws_prefix_len(s) == i,
{
    lemma_msg_ws_prefix(s);
    if msg_ws_prefix_len(s) < i {
        assert(!is_msg_ws(s[msg_ws_prefix_len(s) as int]));
    }
    if msg_ws_prefix_len(s) > i && i < s.len() {
        assert(is_msg_ws(s[i]));
    }
}

proof fn lemma_msg_ws_suffix_at(s: Seq<char>, k: int)
    requires
        0 <= k <= s.len(),
        forall|i: int| k <= i < s.len() ==> is_msg_ws(#[trigger] s[i]),
        k > 0 ==> !is_msg_ws(s[k - 1]),
    ensures
        msg_ws_suffix_len(s) == s.len() - k,
{
    lemma_msg_ws_suffix(s);
    let b = msg_ws_suffix_len(s);
    if b < s.len() - k {
        assert(is_msg_ws(s[s.len() - b - 1]));
    }
    if b > s.len() - k {
        assert(is_msg_ws(s[k - 1]));
    }
}

/// Whether the character at `i` is message whitespace.
fn is_msg_ws_at(s: &str, i: usize) -> (r: bool)
    requires
        i < s@.len(),
    ensures
        r == is_msg_ws(s@[i as int]),
{
    let c = s.get_char(i);
    c == ' ' || c == '\t' || c == '\r' || c == '\n'
}

/// A message with surrounding whitespace removed, executable form.
pub fn msg_trim<'a>(s: &'a str) -> (r: &'a str)
    ensures
        r@ == spec_msg_trim(s@),
{
    let n = s.unicode_len();
    let mut a: usize = 0;
    while a < n && is_msg_ws_at(s, a)
        invariant
            0 <= a <= n,
            n == s@.len(),
            forall|j: int| 0 <= j < a ==> is_msg_ws(#[trigger] s@[j]),
        decreases n - a,
    {
        a = a + 1;
    }
    proof {
        lemma_msg_ws_prefix_at(s@, a as int);
    }
    let mut e: usize = n;
    while e > a && is_msg_ws_at(s, e - 1)
        invariant
            a <= e <= n,
            n == s@.len(),
            forall|j: int| e <= j < n ==> is_msg_ws(#[trigger] s@[j]),
        decreases e,
    {
        e = e - 1;
    }
    let ghost t = s@.subrange(a as int, s@.len() as int);
    proof {
        assert forall|i: int| e - a <= i < t.len() implies is_msg_ws(#[trigger] t[i]) by {
            assert(t[i] == s@[a + i]);
        }
        if e > a {
            assert(!is_msg_ws(s@[e - 1]));
            assert(t[e - a - 1] == s@[e - 1]);
        }
        lemma_msg_ws_suffix_at(t, e - a);
        assert(spec_msg_trim(s@) =~= s@.subrange(a as int, e as int));
    }
    s.substring_char(a, e)
}

/// A word character of the conventional-commit type token.
pub open spec fn is_word_char(c: char) -> bool {
    ('a' <= c && c <= 'z') || ('A' <= c && c <= 'Z') || ('0' <= c && c <= '9') || c == '_'
}

/// End of the run of word characters starting at `from`.
pub open spec fn word_run_end(s: Seq<char>, from: int) -> int
    decreases s.len() - from,
{
    if from < 0 || from >= s.len() {
        from
    } else if is_word_char(s[from]) {
        word_run_end(s, from + 1)
    } else {
        from
    }
}

/// Executable scan for the end of a word-character run.
fn word_run_end_exec(s: &str, from: usize) -> (r: usize)
    requires
        from <= s@.len(),
    ensures
        r == word_run_end(s@, from as int),
        from <= r <= s@.len(),
{
    let n = s.unicode_len();
    let mut i: usize = from;
    while i < n
        invariant
            from <= i <= n,
            n == s@.len(),
            word_run_end(s@, from as int) == word_run_end(s@, i as int),
        decreases n - i,
    {
        let c = s.get_char(i);
        let ok = (c >= 'a' && c <= 'z') || (c >= 'A' && c <= 'Z') || (c >= '0' && c <= '9') || c
            == '_';
        if !ok {
            return i;
        }
        i = i + 1;
    }
    i
}

/// Position of the first closing parenthesis at or after `from`, or the
/// end of the line.
pub open spec fn close_paren_at(s: Seq<char>, from: int) -> int
    decreases s.len() - from,
{
    if from < 0 || from >= s.len() {
        from
    } else if s[from] == ')' {
        from
    } else {
        close_paren_at(s, from + 1)
    }
}

/// Executable scan for the first closing parenthesis.
fn close_paren_at_exec(s: &str, from: usize) -> (r: usize)
    requires
        from <= s@.len(),
    ensures
        r == close_paren_at(s@, from as int),
        from <= r <= s@.len(),
{
    let n = s.unicode_len();
    let mut i: usize = from;
    while i < n
        invariant
            from <= i <= n,
            n == s@.len(),
            close_paren_at(s@, from as int) == close_paren_at(s@, i as int),
        decreases n - i,
    {
        if s.get_char(i) == ')' {
            return i;
        }
        i = i + 1;
    }
    i
}

/// The first line of a message.
pub open spec fn first_line_of(msg: Seq<char>) -> Seq<char> {
    msg.subrange(0, line_break(msg))
}

/// The parts of a conventional-commit first line, by the grammar
/// `type(scope)?: description`: the type is a non-empty run of word
/// characters, the optional scope a non-empty parenthesized text without
/// closing parentheses, and the description everything after `: `,
/// non-empty.
pub open spec fn spec_conv_parts(line: Seq<char>) -> Option<
    (Seq<char>, Option<Seq<char>>, Seq<char>),
> {
    let te = word_run_end(line, 0);
    if te == 0 {
        None
    } else if te < line.len() && line[te] == '(' {
        let ce = close_paren_at(line, te + 1);
        if te + 1 < ce && ce + 3 < line.len() && line[ce + 1] == ':' && line[ce + 2] == ' ' {
            Some(
                (
                    line.subrange(0, te),
                    Some(line.subrange(te + 1, ce)),
                    line.subrange(ce + 3, line.len() as int),
                ),
            )
        } else {
            None
        }
    } else if te + 1 < line.len() && line[te] == ':' && line[te + 1] == ' ' && te + 2
        < line.len() {
        Some((line.subrange(0, te), None, line.subrange(te + 2, line.len() as int)))
    } else {
        None
    }
}

/// The changelog entry for one first line: known types map to a fixed
/// marker, the scope is kept for features and fixes, and anything
/// unrecognized falls back to a bare bullet of the whole line.
pub open spec fn spec_entry_line(line: Seq<char>) -> Seq<char> {
    match spec_conv_parts(line) {
        None => "- "@ + line,
        Some((ty, scope, desc)) => {
            if ty == "feat"@ {
                match scope {
                    Some(sc) => "- "@ + "✨"@ + " **"@ + sc + ":** "@ + desc,
                    None => "- "@ + "✨"@ + " "@ + desc,
                }
            } else if ty == "fix"@ {
                match scope {
                    Some(sc) => "- "@ + "🐛"@ + " **"@ + sc + ":** "@ + desc,
                    None => "- "@ + "🐛"@ + " "@ + desc,
                }
            } else if ty == "docs"@ {
                "- "@ + "📚"@ + " "@ + desc
            } else if ty == "style"@ {
                "- "@ + "💎"@ + " "@ + desc
            } else if ty == "refactor"@ {
                "- "@ + "♻\u{fe0f}"@ + " "@ + desc
            } else if ty == "perf"@ {
                "- "@ + "⚡\u{fe0f}"@ + " "@ + desc
            } else if ty == "test"@ {
                "- "@ + "✅"@ + " "@ + desc
            } else if ty == "build"@ {
                "- "@ + "📦"@ + " "@ + desc
            } else if ty == "ci"@ {
                "- "@ + "👷"@ + " "@ + desc
            } else if ty == "chore"@ {
                "- "@ + "🔧"@ + " "@ + desc
            } else {
                "- "@ + line
            }
        },
    }
}

/// The changelog entry for a whole commit message: empty messages give
/// none, every other message is classified by its first line.
pub open spec fn spec_format_commit_message(msg: Seq<char>) -> Option<Seq<char>> {
    if msg.len() == 0 {
        None
    } else {
        Some(spec_entry_line(first_line_of(msg)))
    }
}

/// Whether the type token of the line equals the given literal.
fn type_is(fl: &str, te: usize, lit: &str) -> (r: bool)
    requires
        te <= fl@.len(),
    ensures
        r == (fl@.subrange(0, te as int) == lit@),
{
    let m = lit.unicode_len();
    if te != m {
        proof {
            assert(fl@.subrange(0, te as int).len() != lit@.len());
        }
        return false;
    }
    let r = match_at(fl, 0, lit);
    proof {
        if r {
            assert(fl@.subrange(0, te as int) =~= lit@);
        }
        if fl@.subrange(0, te as int) == lit@ {
            assert forall|k: int| 0 <= k < lit@.len() implies fl@[k] == #[trigger] lit@[k] by {
                assert(fl@.subrange(0, te as int)[k] == fl@[k]);
            }
        }
    }
    r
}

/// Builds an entry of the form `- <marker> <desc>`.
fn plain_entry(marker: &str, fl: &str, ds: usize) -> (r: String)
    requires
        ds <= fl@.len(),
    ensures
        r@ == "- "@ + marker@ + " "@ + fl@.subrange(ds as int, fl@.len() as int),
{
    let mut out = String::from_str("- ");
    out.append(marker);
    out.append(" ");
    out.append(fl.substring_char(ds, fl.unicode_len()));
    proof {
        assert(out@ =~= "- "@ + marker@ + " "@ + fl@.subrange(ds as int, fl@.len() as int));
    }
    out
}

/// Builds an entry of the form `- <marker> **<scope>:** <desc>`.
fn scoped_entry(marker: &str, fl: &str, ss: usize, se: usize, ds: usize) -> (r: String)
    requires
        ss <= se <= fl@.len(),
        ds <= fl@.len(),
    ensures
        r@ == "- "@ + marker@ + " **"@ + fl@.subrange(ss as int, se as int) + ":** "@
            + fl@.subrange(ds as int, fl@.len() as int),
{
    let mut out = String::from_str("- ");
    out.append(marker);
    out.append(" **");
    out.append(fl.substring_char(ss, se));
    out.append(":** ");
    out.append(fl.substring_char(ds, fl.unicode_len()));
    proof {
        assert(out@ =~= "- "@ + marker@ + " **"@ + fl@.subrange(ss as int, se as int) + ":** "@
            + fl@.subrange(ds as int, fl@.len() as int));
    }
    out
}

/// Classifies one commit message: its first line is parsed by the
/// conventional-commit grammar and mapped to a bulleted entry; an empty
/// message yields no entry.
pub fn format_commit_message(message: &str) -> (r: Option<String>)
    ensures
        match r {
            Some(s) => spec_format_commit_message(message@) == Some(s@),
            None => spec_format_commit_message(message@) is None,
        },
{
    let n = message.unicode_len();
    if n == 0 {
        return None;
    }
    // The first line.
    let mut lb: usize = 0;
    while lb < n && message.get_char(lb) != '\n'
        invariant
            0 <= lb <= n,
            n == message@.len(),
            forall|j: int| 0 <= j < lb ==> #[trigger] message@[j] != '\n',
        decreases n - lb,
    {
        lb = lb + 1;
    }
    proof {
        lemma_line_break_at(message@, lb as int);
    }
    let fl = message.substring_char(0, lb);
    let ghost flv = first_line_of(message@);
    proof {
        assert(fl@ == flv);
    }
    let m = fl.unicode_len();
    let te = word_run_end_exec(fl, 0);
    // Parse the grammar.
    let parts: Option<(usize, Option<(usize, usize)>, usize)> = if te == 0 {
        None
    } else if te < m && fl.get_char(te) == '(' {
        let ce = close_paren_at_exec(fl, te + 1);
        if te + 1 < ce && m > 3 && ce < m - 3 {
            let c1 = fl.get_char(ce + 1);
            let c2 = fl.get_char(ce + 2);
            if c1 == ':' && c2 == ' ' {
                Some((te, Some((te + 1, ce)), ce + 3))
            } else {
                None
            }
        } else {
            None
        }
    } else if m > 2 && te < m - 2 {
        let c1 = fl.get_char(te);
        let c2 = fl.get_char(te + 1);
        if c1 == ':' && c2 == ' ' {
            Some((te, None, te + 2))
        } else {
            None
        }
    } else {
        None
    };
    match parts {
        None => {
            proof {
                assert(spec_conv_parts(flv) is None);
            }
            let mut out = String::from_str("- ");
            out.append(fl);
            proof {
                assert(out@ =~= "- "@ + flv);
            }
            Some(out)
        },
        Some((te, scope, ds)) => {
            proof {
                match scope {
                    Some((ss, se)) => {
                        assert(spec_conv_parts(flv) == Some(
                            (
                                flv.subrange(0, te as int),
                                Some(flv.subrange(ss as int, se as int)),
                                flv.subrange(ds as int, flv.len() as int),
                            ),
                        ));
                    },
                    None => {
                        assert(spec_conv_parts(flv) == Some(
                            (
                                flv.subrange(0, te as int),
                                None::<Seq<char>>,
                                flv.subrange(ds as int, flv.len() as int),
                            ),
                        ));
                    },
                }
            }
            let entry: String = if type_is(fl, te, "feat") {
                match scope {
                    Some((ss, se)) => scoped_entry("✨", fl, ss, se, ds),
                    None => plain_entry("✨", fl, ds),
                }
            } else if type_is(fl, te, "fix") {
                match scope {
                    Some((ss, se)) => scoped_entry("🐛", fl, ss, se, ds),
                    None => plain_entry("🐛", fl, ds),
                }
            } else if type_is(fl, te, "docs") {
                plain_entry("📚", fl, ds)
            } else if type_is(fl, te, "style") {
                plain_entry("💎", fl, ds)
            } else if type_is(fl, te, "refactor") {
                plain_entry("♻\u{fe0f}", fl, ds)
            } else if type_is(fl, te, "perf") {
                plain_entry("⚡\u{fe0f}", fl, ds)
            } else if type_is(fl, te, "test") {
                plain_entry("✅", fl, ds)
            } else if type_is(fl, te, "build") {
                plain_entry("📦", fl, ds)
            } else if type_is(fl, te, "ci") {
                plain_entry("👷", fl, ds)
            } else if type_is(fl, te, "chore") {
                plain_entry("🔧", fl, ds)
            } else {
                let mut out = String::from_str("- ");
                out.append(fl);
                proof {
                    assert(out@ =~= "- "@ + flv);
                }
                out
            };
            Some(entry)
        },
    }
}

/// A commit skipped by changelog generation: a merge commit, or one that
/// mentions a version bump.
pub open spec fn spec_skip_commit(t: Seq<char>) -> bool {
    spec_starts_with(t, "Merge"@) || spec_contains(t, "bump version"@)
}

/// The changelog body built from a sequence of commit messages: each
/// message is trimmed, merge and version-bump commits are skipped, and
/// every remaining entry is closed by a line break, in the order given.
pub open spec fn spec_generate_changes(messages: Seq<Seq<char>>) -> Seq<char>
    decreases messages.len(),
{
    if messages.len() == 0 {
        Seq::empty()
    } else {
        let t = spec_msg_trim(messages[0]);
        let rest = spec_generate_changes(messages.subrange(1, messages.len() as int));
        if spec_skip_commit(t) {
            rest
        } else {
            match spec_format_commit_message(t) {
                None => rest,
                Some(e) => e + seq!['\n'] + rest,
            }
        }
    }
}

/// Builds the changelog body from commit messages, newest first, exactly
/// as `spec_generate_changes` describes.
pub fn generate_changes(messages: &Vec<String>) -> (r: String)
    ensures
        r@ == spec_generate_changes(messages.deep_view()),
{
    let ghost dv = messages.deep_view();
    let n = messages.len();
    let mut out = String::new();
    let mut i: usize = 0;
    proof {
        assert(dv.subrange(0, n as int) =~= dv);
    }
    while i < n
        invariant
            n == messages.len(),
            dv == messages.deep_view(),
            dv.len() == n,
            0 <= i <= n,
            spec_generate_changes(dv) == out@ + spec_generate_changes(
                dv.subrange(i as int, n as int),
            ),
        decreases n - i,
    {
        let ghost suffix = dv.subrange(i as int, n as int);
        proof {
            assert(suffix[0] == dv[i as int]);
            assert(dv[i as int] == messages@[i as int]@);
            assert(suffix.subrange(1, suffix.len() as int) =~= dv.subrange(i + 1, n as int));
        }
        let t = msg_trim(messages[i].as_str());
        if starts_with_str(t, "Merge") || contains_str(t, "bump version") {
        } else {
            match format_commit_message(t) {
                None => {},
                Some(e) => {
                    out.append(e.as_str());
                    out.append("\n");
                    proof {
                        reveal_strlit("\n");
                        assert("\n"@ =~= seq!['\n']);
                        assert(out@ =~= (out@.subrange(
                            0,
                            out@.len() - e@.len() - 1,
                        ) + e@ + seq!['\n']));
                    }
                },
            }
        }
        proof {
            assert(out@ + spec_generate_changes(dv.subrange(i + 1, n as int))
                =~= spec_generate_changes(dv));
        }
        i = i + 1;
    }
    proof {
        assert(dv.subrange(n as int, n as int).len() == 0);
    }
    out
}

/// One dated release section: `# <version> (<date>)`, a blank line, the
/// entries, and a closing line break.
pub open spec fn spec_release_section(
    version: Seq<char>,
    date: Seq<char>,
    changes: Seq<char>,
) -> Seq<char> {
    "# "@ + version + " ("@ + date + ")\n\n"@ + changes + "\n"@
}

/// The changelog document after one release is written: an empty document
/// gains the `# Changelog` header first; otherwise the new section is
/// spliced right after the first occurrence of the header text, or at the
/// start of a document without one, above all earlier sections.
pub open spec fn spec_update_changelog(
    existing: Seq<char>,
    version: Seq<char>,
    date: Seq<char>,
    changes: Seq<char>,
) -> Seq<char> {
    let section = spec_release_section(version, date, changes);
    if existing.len() == 0 {
        "# Changelog\n\n"@ + section
    } else {
        let pos = if spec_contains(existing, "# Changelog"@) {
            spec_find(existing, "# Changelog"@) + "# Changelog"@.len() as int
        } else {
            0
        };
        existing.subrange(0, pos) + "\n\n"@ + section + existing.subrange(
            pos,
            existing.len() as int,
        )
    }
}

/// Law: into a document that begins with the changelog header, a new
/// release section is spliced directly after the header, above everything
/// that follows it — releases accumulate newest-first.
pub proof fn lemma_update_changelog_after_header(
    existing: Seq<char>,
    version: Seq<char>,
    date: Seq<char>,
    changes: Seq<char>,
)
    requires
        spec_starts_with(existing, "# Changelog"@),
        existing.len() > 0,
    ensures
        spec_update_changelog(existing, version, date, changes) == existing.subrange(
            0,
            "# Changelog"@.len() as int,
        ) + "\n\n"@ + spec_release_section(version, date, changes) + existing.subrange(
            "# Changelog"@.len() as int,
            existing.len() as int,
        ),
{
    let hdr = "# Changelog"@;
    assert(spec_match_at(existing, 0, hdr));
    crate::text::lemma_find_at(existing, hdr, 0);
}

/// Writes one release into the changelog document, exactly as
/// `spec_update_changelog` describes.
pub fn update_changelog(existing: &str, version: &str, date: &str, changes: &str) -> (r: String)
    ensures
        r@ == spec_update_changelog(existing@, version@, date@, changes@),
{
    let mut section = String::from_str("# ");
    section.append(version);
    section.append(" (");
    section.append(date);
    section.append(")\n\n");
    section.append(changes);
    section.append("\n");
    proof {
        assert(section@ =~= spec_release_section(version@, date@, changes@));
    }
    let n = existing.unicode_len();
    if n == 0 {
        let mut out = String::from_str("# Changelog\n\n");
        out.append(section.as_str());
        proof {
            assert(out@ =~= spec_update_changelog(existing@, version@, date@, changes@));
        }
        return out;
    }
    let pos = match find_str(existing, "# Changelog") {
        Some(f) => {
            proof {
                lemma_find_properties(existing@, "# Changelog"@);
            }
            f + "# Changelog".unicode_len()
        },
        None => 0,
    };
    let mut out = String::from_str(existing.substring_char(0, pos));
    out.append("\n\n");
    out.append(section.as_str());
    out.append(existing.substring_char(pos, n));
    proof {
        assert(out@ =~= spec_update_changelog(existing@, version@, date@, changes@));
    }
    out
}

/// Relies on chrono's `Local::now` and `format`: the current date in the
/// form `YYYY-MM-DD`. The result depends on the clock and the machine's
/// time zone, so nothing further is promised of it.
#[verifier::external_body]
fn local_date_string() -> (r: String) {
    chrono::Local::now().format("%Y-%m-%d").to_string()
}

/// Writes one release into the changelog document under the current local
/// date: the result is a correct merge for some date string.
pub fn update_changelog_today(existing: &str, version: &str, changes: &str) -> (r: String)
    ensures
        exists|date: Seq<char>|
            r@ == #[trigger] spec_update_changelog(existing@, version@, date, changes@),
{
    let date = local_date_string();
    let r = update_changelog(existing, version, date.as_str(), changes);
    proof {
        assert(r@ == spec_update_changelog(existing@, version@, date@, changes@));
    }
    r
}

} // verus!
