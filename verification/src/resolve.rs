//! Deterministic collision renaming.
//!
//! When the desired name is taken, the store tries `name_copy0`,
//! `name_copy1`, … in order: the marker `_copyN` goes immediately before
//! the first dot of the name, or at its end when the name has no dot
//! (`photo.jpg` → `photo_copy0.jpg`, `README` → `README_copy0`). This
//! module builds the candidates and proves that renaming never makes a
//! safe name unsafe, so a renamed file is still a single clean path
//! segment.

use vstd::prelude::*;
use vstd::string::{StrSliceExecFns, StringExecFns};
use crate::name::{first_dot, is_ext_char, is_word_char, lemma_first_dot, safe_name};

verus! {

/// The decimal digit `d` as a character, for `d <= 9`.
pub open spec fn digit_char(d: nat) -> char {
    if d == 0 {
        '0'
    } else if d == 1 {
        '1'
    } else if d == 2 {
        '2'
    } else if d == 3 {
        '3'
    } else if d == 4 {
        '4'
    } else if d == 5 {
        '5'
    } else if d == 6 {
        '6'
    } else if d == 7 {
        '7'
    } else if d == 8 {
        '8'
    } else {
        '9'
    }
}

/// The decimal digits of `n`, most significant first.
pub open spec fn dec_digits(n: nat) -> Seq<char>
    decreases n,
{
    if n < 10 {
        seq![digit_char(n)]
    } else {
        dec_digits(n / 10).push(digit_char(n % 10))
    }
}

/// The marker that renaming inserts: `_copy` followed by the digits of `n`.
pub open spec fn copy_marker(n: u32) -> Seq<char> {
    seq!['_', 'c', 'o', 'p', 'y'] + dec_digits(n as nat)
}

/// The `n`-th alternate for a name: the marker spliced in immediately
/// before the first dot, or appended when the name has no dot.
pub open spec fn candidate_of(s: Seq<char>, n: u32) -> Seq<char> {
    s.subrange(0, first_dot(s)) + copy_marker(n) + s.subrange(first_dot(s), s.len() as int)
}

/// Decimal digits are extension characters (so word characters, not dots).
pub proof fn lemma_dec_digits_chars(n: nat)
    ensures
        dec_digits(n).len() > 0,
        forall|i: int| 0 <= i < dec_digits(n).len() ==> is_ext_char(#[trigger] dec_digits(n)[i]),
    decreases n,
{
    if n < 10 {
    } else {
        lemma_dec_digits_chars(n / 10);
    }
}

/// Every marker character is a word character; none is a dot.
pub proof fn lemma_copy_marker_chars(n: u32)
    ensures
        copy_marker(n).len() > 0,
        forall|i: int|
            0 <= i < copy_marker(n).len() ==> is_word_char(#[trigger] copy_marker(n)[i])
                && copy_marker(n)[i] != '.',
{
    lemma_dec_digits_chars(n as nat);
    assert forall|i: int| 0 <= i < copy_marker(n).len() implies is_word_char(
        #[trigger] copy_marker(n)[i],
    ) && copy_marker(n)[i] != '.' by {
        if i >= 5 {
            assert(copy_marker(n)[i] == dec_digits(n as nat)[i - 5]);
            assert(is_ext_char(dec_digits(n as nat)[i - 5]));
        }
    }
}

/// Renaming never breaks the safety boundary: the alternate of a safe name
/// is itself safe. Its characters come from the name and the marker, the
/// marker contains no dot, and the ending is the name's own ending (or a
/// digit), so no path separator, dot run or trailing dot can appear.
pub proof fn lemma_candidate_safe(s: Seq<char>, n: u32)
    requires
        safe_name(s),
    ensures
        safe_name(candidate_of(s, n)),
{
    lemma_first_dot(s);
    lemma_copy_marker_chars(n);
    let fd = first_dot(s);
    let mk = copy_marker(n);
    let c = candidate_of(s, n);
    assert(c.len() == s.len() + mk.len());
    assert forall|i: int| 0 <= i < c.len() implies is_word_char(#[trigger] c[i]) || c[i]
        == '.' by {
        if i < fd {
            assert(c[i] == s[i]);
        } else if i < fd + mk.len() {
            assert(c[i] == mk[i - fd]);
        } else {
            assert(c[i] == s[i - mk.len()]);
        }
    }
    assert forall|i: int| 0 <= i < c.len() && #[trigger] c[i] == '.' implies i >= fd
        + mk.len() by {
        if i < fd {
            assert(c[i] == s[i]);
        } else if i < fd + mk.len() {
            assert(c[i] == mk[i - fd]);
        }
    }
    assert forall|i: int|
        0 <= i && i + 1 < c.len() implies !(#[trigger] c[i] == '.' && c[i + 1] == '.') by {
        if c[i] == '.' && c[i + 1] == '.' {
            assert(c[i] == s[i - mk.len()]);
            assert(c[i + 1] == s[i + 1 - mk.len()]);
            assert(!(s[i - mk.len()] == '.' && s[i - mk.len() + 1] == '.'));
        }
    }
    if fd < s.len() {
        assert(c[c.len() - 1] == s[s.len() - 1]);
    } else {
        assert(c[c.len() - 1] == mk[mk.len() - 1]);
    }
}

/// The digit `d` as a one-character string.
fn digit_str(d: u32) -> (s: &'static str)
    requires
        d < 10,
    ensures
        s@ == seq![digit_char(d as nat)],
{
    proof {
        reveal_strlit("0");
        reveal_strlit("1");
        reveal_strlit("2");
        reveal_strlit("3");
        reveal_strlit("4");
        reveal_strlit("5");
        reveal_strlit("6");
        reveal_strlit("7");
        reveal_strlit("8");
        reveal_strlit("9");
    }
    let s: &'static str = if d == 0 {
        "0"
    } else if d == 1 {
        "1"
    } else if d == 2 {
        "2"
    } else if d == 3 {
        "3"
    } else if d == 4 {
        "4"
    } else if d == 5 {
        "5"
    } else if d == 6 {
        "6"
    } else if d == 7 {
        "7"
    } else if d == 8 {
        "8"
    } else {
        "9"
    };
    proof {
        assert(s@ =~= seq![digit_char(d as nat)]);
    }
    s
}

/// Renders `n` in decimal.
fn u32_to_decimal(n: u32) -> (s: String)
    ensures
        s@ == dec_digits(n as nat),
    decreases n,
{
    if n < 10 {
        digit_str(n).to_owned()
    } else {
        let mut s = u32_to_decimal(n / 10);
        s.append(digit_str(n % 10));
        proof {
            assert(s@ =~= dec_digits((n / 10) as nat).push(digit_char((n % 10) as nat)));
        }
        s
    }
}

/// Position of the first `'.'` of `s`, or its length if it has none.
fn find_first_dot(s: &str) -> (i: usize)
    ensures
        i as int == first_dot(s@),
{
    let n = s.unicode_len();
    let mut i: usize = 0;
    while i < n
        invariant
            0 <= i <= n == s@.len(),
            forall|j: int| 0 <= j < i ==> #[trigger] s@[j] != '.',
        decreases n - i,
    {
        if s.get_char(i) == '.' {
            proof {
                crate::name::lemma_first_dot_is(s@, i as int);
            }
            return i;
        }
        i = i + 1;
    }
    proof {
        crate::name::lemma_first_dot_is(s@, n as int);
    }
    n
}

/// Builds the `n`-th alternate name for `original`: `_copyN` immediately
/// before the first dot, or appended when there is no dot.
pub fn candidate_name(original: &str, n: u32) -> (r: String)
    ensures
        r@ == candidate_of(original@, n),
{
    let len = original.unicode_len();
    let dot = find_first_dot(original);
    proof {
        lemma_first_dot(original@);
    }
    let head = original.substring_char(0, dot);
    let tail = original.substring_char(dot, len);
    let mut r = head.to_owned();
    r.append("_copy");
    let digits = u32_to_decimal(n);
    r.append(digits.as_str());
    r.append(tail);
    proof {
        reveal_strlit("_copy");
        assert(r@ =~= candidate_of(original@, n));
    }
    r
}

} // verus!
