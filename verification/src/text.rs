//! Byte and text helpers: lossy UTF-8 decoding, null-terminated strings and ASCII comparisons.

use vstd::prelude::*;
use vstd::string::StrSliceExecFns;

verus! {

/// The characters that `String::from_utf8_lossy` produces for `bytes`.
pub uninterp spec fn utf8_lossy(bytes: Seq<u8>) -> Seq<char>;

/// Each byte read as the character with that code point.
pub open spec fn ascii_chars(bytes: Seq<u8>) -> Seq<char> {
    bytes.map_values(|b: u8| b as char)
}

/// Calls `String::from_utf8_lossy`, which decodes UTF-8 and replaces invalid sequences with
/// U+FFFD. The contract names the result as a function of the bytes, and states the one case
/// that needs no decoding rules: bytes that are all ASCII (valid UTF-8, one character each)
/// come back as those characters. What other bytes decode to is left unsaid.
#[verifier::external_body]
pub fn lossy_string(bytes: &[u8]) -> (s: String)
    ensures
        s@ == utf8_lossy(bytes@),
        (forall|i: int| 0 <= i < bytes@.len() ==> #[trigger] bytes@[i] < 0x80) ==> s@ == ascii_chars(bytes@),
{
    String::from_utf8_lossy(bytes).into_owned()
}

/// Appends all bytes of `s` to `out`.
pub fn append_bytes(out: &mut Vec<u8>, s: &[u8])
    ensures
        final(out)@ == old(out)@ + s@,
{
    let n = s.len();
    let mut i: usize = 0;
    while i < n
        invariant
            n == s@.len(),
            i <= n,
            out@ == old(out)@ + s@.take(i as int),
        decreases n - i,
    {
        assert(s@.take(i + 1) =~= s@.take(i as int).push(s@[i as int]));
        out.push(s[i]);
        i = i + 1;
    }
    assert(s@.take(n as int) =~= s@);
}

/// Index of the first zero byte of `s` at or after `from`, or `s.len()` if there is none.
pub open spec fn spec_first_zero(s: Seq<u8>, from: int) -> int
    decreases s.len() - from,
{
    if from >= s.len() {
        s.len() as int
    } else if s[from] == 0 {
        from
    } else {
        spec_first_zero(s, from + 1)
    }
}

/// [`spec_first_zero`] lies between `from` and the end of `s`.
pub proof fn lemma_first_zero_bounds(s: Seq<u8>, from: int)
    requires
        0 <= from <= s.len(),
    ensures
        from <= spec_first_zero(s, from) <= s.len(),
    decreases s.len() - from,
{
    if from < s.len() && s[from] != 0 {
        lemma_first_zero_bounds(s, from + 1);
    }
}

/// Finds the first zero byte at or after `from`.
pub fn find_zero(s: &[u8], from: usize) -> (end: usize)
    requires
        from <= s@.len(),
    ensures
        end == spec_first_zero(s@, from as int),
        from <= end <= s@.len(),
{
    let mut end = from;
    while end < s.len() && s[end] != 0
        invariant
            from <= end <= s@.len(),
            spec_first_zero(s@, end as int) == spec_first_zero(s@, from as int),
        decreases s@.len() - end,
    {
        end = end + 1;
    }
    end
}

/// Position after the string that starts at `cursor`: one past its terminating zero, or the
/// end of `s` when it is not terminated.
pub open spec fn spec_after_string(s: Seq<u8>, cursor: int) -> int {
    let end = spec_first_zero(s, cursor);
    if end < s.len() { end + 1 } else { end }
}

/// Whether `s` ends with `suffix`.
pub open spec fn spec_ends_with(s: Seq<char>, suffix: Seq<char>) -> bool {
    suffix.len() <= s.len() && s.subrange(s.len() - suffix.len(), s.len() as int) == suffix
}

/// Code point of the ASCII lower-case of a character; other characters are unchanged.
pub open spec fn spec_ascii_lower(c: char) -> u32 {
    if 'A' <= c <= 'Z' { ((c as u32) + 32) as u32 } else { c as u32 }
}

/// Whether two character sequences are equal up to ASCII case.
pub open spec fn spec_eq_ignore_ascii_case(a: Seq<char>, b: Seq<char>) -> bool {
    a.len() == b.len() && forall|i: int|
        0 <= i < a.len() ==> spec_ascii_lower(#[trigger] a[i]) == spec_ascii_lower(b[i])
}

fn ascii_lower(c: char) -> (r: u32)
    ensures
        r == spec_ascii_lower(c),
{
    if 'A' <= c && c <= 'Z' {
        (c as u32) + 32
    } else {
        c as u32
    }
}

/// Whether `s` ends with `suffix` (compared as characters).
pub fn ends_with(s: &str, suffix: &str) -> (r: bool)
    ensures
        r == spec_ends_with(s@, suffix@),
{
    let n = s.unicode_len();
    let m = suffix.unicode_len();
    if m > n {
        return false;
    }
    let mut i: usize = 0;
    while i < m
        invariant
            n == s@.len(),
            m == suffix@.len(),
            m <= n,
            i <= m,
            forall|j: int| 0 <= j < i ==> s@[n - m + j] == suffix@[j],
        decreases m - i,
    {
        if s.get_char(n - m + i) != suffix.get_char(i) {
            assert(s@.subrange(n - m, n as int)[i as int] != suffix@[i as int]);
            return false;
        }
        i = i + 1;
    }
    assert(s@.subrange(n - m, n as int) =~= suffix@);
    true
}

/// Whether `a` and `b` are equal up to ASCII case.
pub fn eq_ignore_ascii_case(a: &str, b: &str) -> (r: bool)
    ensures
        r == spec_eq_ignore_ascii_case(a@, b@),
{
    let n = a.unicode_len();
    if n != b.unicode_len() {
        return false;
    }
    let mut i: usize = 0;
    while i < n
        invariant
            n == a@.len(),
            n == b@.len(),
            i <= n,
            forall|j: int| 0 <= j < i ==> spec_ascii_lower(#[trigger] a@[j]) == spec_ascii_lower(b@[j]),
        decreases n - i,
    {
        if ascii_lower(a.get_char(i)) != ascii_lower(b.get_char(i)) {
            return false;
        }
        i = i + 1;
    }
    true
}

/// Whether two strings hold the same characters.
pub fn str_eq(a: &str, b: &str) -> (r: bool)
    ensures
        r == (a@ == b@),
{
    let n = a.unicode_len();
    if n != b.unicode_len() {
        return false;
    }
    let mut i: usize = 0;
    while i < n
        invariant
            n == a@.len(),
            n == b@.len(),
            i <= n,
            forall|j: int| 0 <= j < i ==> a@[j] == b@[j],
        decreases n - i,
    {
        if a.get_char(i) != b.get_char(i) {
            return false;
        }
        i = i + 1;
    }
    assert(a@ =~= b@);
    true
}

} // verus!
