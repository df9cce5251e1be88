//! The name-safety grammar.
//!
//! A client-supplied name is acceptable when it is one leading segment —
//! either a run of word characters, or one or more dot-prefixed runs of
//! word characters (dotfile style) — followed by zero or more extension
//! suffixes, each a dot and a run of ASCII alphanumerics. The grammar is
//! anchored at both ends, so it rejects the empty string, `.`, any `..`
//! run, trailing dots, path separators, whitespace and every non-ASCII
//! character. It is the single boundary between untrusted input and the
//! filesystem: uploads and download routes both go through it.

use vstd::prelude::*;
use vstd::string::StrSliceExecFns;

verus! {

/// Word characters: what may appear in a leading segment.
pub open spec fn is_word_char(c: char) -> bool {
    ('a' <= c && c <= 'z') || ('A' <= c && c <= 'Z') || ('0' <= c && c <= '9') || c == '_'
        || c == '-'
}

/// Extension characters: what may appear after a suffix dot.
pub open spec fn is_ext_char(c: char) -> bool {
    ('a' <= c && c <= 'z') || ('A' <= c && c <= 'Z') || ('0' <= c && c <= '9')
}

/// Index of the first `'.'` in `s`, or `s.len()` if `s` has none.
pub open spec fn first_dot(s: Seq<char>) -> int
    decreases s.len(),
{
    if s.len() == 0 {
        0
    } else if s[0] == '.' {
        0
    } else {
        1 + first_dot(s.skip(1))
    }
}

/// No two adjacent dots anywhere in `s`.
pub open spec fn no_double_dot(s: Seq<char>) -> bool {
    forall|i: int| 0 <= i && i + 1 < s.len() ==> !(#[trigger] s[i] == '.' && s[i + 1] == '.')
}

/// What keeps a name safe as a single path segment: nonempty, only word
/// characters and dots, no adjacent dots, and no trailing dot. Every valid
/// name is safe, and collision renaming preserves safety (see `resolve`).
pub open spec fn safe_name(s: Seq<char>) -> bool {
    &&& s.len() > 0
    &&& (forall|i: int| 0 <= i < s.len() ==> is_word_char(#[trigger] s[i]) || s[i] == '.')
    &&& no_double_dot(s)
    &&& s[s.len() - 1] != '.'
}

/// The full grammar: a safe name whose characters after the first dot are
/// extension characters or further suffix dots — unless the name starts
/// with a dot, in which case the whole name is read as a dotfile-style
/// leading segment and word characters may follow the dots.
pub open spec fn valid_name(s: Seq<char>) -> bool {
    &&& safe_name(s)
    &&& (s[0] != '.' ==> (forall|j: int|
        first_dot(s) < j < s.len() ==> is_ext_char(#[trigger] s[j]) || s[j] == '.'))
}

/// `first_dot` is a position in `0 ..= s.len()`, has no dot before it, and
/// points at a dot whenever it is a proper position.
pub proof fn lemma_first_dot(s: Seq<char>)
    ensures
        0 <= first_dot(s) <= s.len(),
        forall|j: int| 0 <= j < first_dot(s) ==> #[trigger] s[j] != '.',
        first_dot(s) < s.len() ==> s[first_dot(s)] == '.',
    decreases s.len(),
{
    if s.len() == 0 {
    } else if s[0] == '.' {
    } else {
        lemma_first_dot(s.skip(1));
        assert forall|j: int| 0 <= j < first_dot(s) implies #[trigger] s[j] != '.' by {
            if j > 0 {
                assert(s.skip(1)[j - 1] == s[j]);
            }
        }
        if first_dot(s) < s.len() {
            assert(s.skip(1)[first_dot(s) - 1] == s[first_dot(s)]);
        }
    }
}

/// A position with no dot before it that is a dot (or the end) is exactly
/// `first_dot`.
pub proof fn lemma_first_dot_is(s: Seq<char>, k: int)
    requires
        0 <= k <= s.len(),
        forall|j: int| 0 <= j < k ==> #[trigger] s[j] != '.',
        k < s.len() ==> s[k] == '.',
    ensures
        first_dot(s) == k,
{
    lemma_first_dot(s);
    if first_dot(s) < k {
        assert(s[first_dot(s)] == '.');
    }
    if k < first_dot(s) {
        assert(s[k] != '.');
    }
}

/// Decides `is_word_char`.
pub fn check_word_char(c: char) -> (b: bool)
    ensures
        b == is_word_char(c),
{
    ('a' <= c && c <= 'z') || ('A' <= c && c <= 'Z') || ('0' <= c && c <= '9') || c == '_'
        || c == '-'
}

/// Decides `is_ext_char`.
pub fn check_ext_char(c: char) -> (b: bool)
    ensures
        b == is_ext_char(c),
{
    ('a' <= c && c <= 'z') || ('A' <= c && c <= 'Z') || ('0' <= c && c <= '9')
}

/// Decides the name-safety grammar. Pure: the result is a function of the
/// characters of `name` alone, so checking a name twice gives the same
/// answer, and the upload check and the download route cannot drift apart.
pub fn is_valid_name(name: &str) -> (b: bool)
    ensures
        b == valid_name(name@),
{
    let n = name.unicode_len();
    if n == 0 {
        return false;
    }
    let first_is_dot = name.get_char(0) == '.';
    let mut seen_dot = false;
    let mut dot_idx: usize = 0;
    let mut i: usize = 0;
    while i < n
        invariant
            0 < n == name@.len(),
            0 <= i <= n,
            first_is_dot == (name@[0] == '.'),
            seen_dot ==> 0 <= dot_idx < i && name@[dot_idx as int] == '.' && (forall|j: int|
                0 <= j < dot_idx ==> #[trigger] name@[j] != '.'),
            !seen_dot ==> (forall|j: int| 0 <= j < i ==> #[trigger] name@[j] != '.'),
            forall|j: int| 0 <= j < i ==> is_word_char(#[trigger] name@[j]) || name@[j] == '.',
            forall|j: int|
                0 <= j && j + 1 < i ==> !(#[trigger] name@[j] == '.' && name@[j + 1] == '.'),
            !first_is_dot && seen_dot ==> (forall|j: int|
                dot_idx < j < i ==> is_ext_char(#[trigger] name@[j]) || name@[j] == '.'),
            i == n ==> name@[n - 1] != '.',
        decreases n - i,
    {
        let c = name.get_char(i);
        if !check_word_char(c) && c != '.' {
            return false;
        }
        if c == '.' && i > 0 && name.get_char(i - 1) == '.' {
            assert(!no_double_dot(name@));
            return false;
        }
        if !first_is_dot && seen_dot && c != '.' && !check_ext_char(c) {
            proof {
                lemma_first_dot_is(name@, dot_idx as int);
            }
            return false;
        }
        if i == n - 1 && c == '.' {
            return false;
        }
        if c == '.' && !seen_dot {
            seen_dot = true;
            dot_idx = i;
        }
        i = i + 1;
    }
    proof {
        if !first_is_dot {
            if seen_dot {
                lemma_first_dot_is(name@, dot_idx as int);
            } else {
                lemma_first_dot_is(name@, n as int);
            }
        }
    }
    true
}

/// Any nonempty string of word characters and internal single dots — no
/// leading, trailing or doubled dot — whose characters after the first dot
/// are alphanumeric or further dots, is a valid name. (The last condition
/// is forced by the grammar: its extension suffixes take no underscore or
/// hyphen, so a name such as `a.b_c` lies outside it.)
pub proof fn lemma_plain_names_valid(s: Seq<char>)
    requires
        s.len() > 0,
        forall|i: int| 0 <= i < s.len() ==> is_word_char(#[trigger] s[i]) || s[i] == '.',
        s[0] != '.',
        s[s.len() - 1] != '.',
        no_double_dot(s),
        forall|i: int, j: int|
            #![trigger s[i], s[j]]
            0 <= i < j < s.len() && s[i] == '.' ==> is_ext_char(s[j]) || s[j] == '.',
    ensures
        valid_name(s),
{
    lemma_first_dot(s);
    assert forall|j: int| first_dot(s) < j < s.len() implies is_ext_char(#[trigger] s[j]) || s[j]
        == '.' by {
        assert(s[first_dot(s)] == '.');
    }
}

/// Unsafe shapes are all rejected: the empty string, any string with two
/// adjacent dots, any string ending in a dot (so also `.` itself), and any
/// string with a character outside word characters and the dot — which
/// covers path separators, whitespace, shell metacharacters and every
/// non-ASCII character.
pub proof fn lemma_unsafe_names_invalid(s: Seq<char>)
    requires
        s.len() == 0 || (exists|i: int|
            0 <= i && i + 1 < s.len() && #[trigger] s[i] == '.' && s[i + 1] == '.') || s[s.len()
            - 1] == '.' || (exists|i: int|
            0 <= i < s.len() && !is_word_char(#[trigger] s[i]) && s[i] != '.'),
    ensures
        !valid_name(s),
{
    if s.len() == 0 {
    } else if exists|i: int|
        0 <= i && i + 1 < s.len() && #[trigger] s[i] == '.' && s[i + 1] == '.' {
        let i = choose|i: int| 0 <= i && i + 1 < s.len() && #[trigger] s[i] == '.' && s[i + 1]
            == '.';
        assert(s[i] == '.' && s[i + 1] == '.');
        assert(!no_double_dot(s));
    } else if s[s.len() - 1] == '.' {
    } else {
        let i = choose|i: int| 0 <= i < s.len() && !is_word_char(#[trigger] s[i]) && s[i] != '.';
        assert(valid_name(s) ==> is_word_char(s[i]) || s[i] == '.');
    }
}

} // verus!
