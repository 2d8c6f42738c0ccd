//! Small facts about `char` and `str` used across the crate, and the few
//! standard-library string operations the verified code calls.

use vstd::prelude::*;

use crate::text::chars::{char_is_whitespace, is_whitespace};

verus! {

pub open spec fn is_ascii_upper(c: char) -> bool {
    'A' <= c <= 'Z'
}

pub open spec fn is_ascii_lower(c: char) -> bool {
    'a' <= c <= 'z'
}

pub open spec fn is_ascii_digit(c: char) -> bool {
    '0' <= c <= '9'
}

/// ASCII lower-casing of one char.
pub open spec fn ascii_lower(c: char) -> char {
    if 'A' <= c <= 'Z' {
        ((c as u32) + 32) as char
    } else {
        c
    }
}

/// `c.to_ascii_lowercase()`.
pub fn char_to_ascii_lower(c: char) -> (r: char)
    ensures
        r == ascii_lower(c),
{
    if 'A' <= c && c <= 'Z' {
        ((c as u8) + 32u8) as char
    } else {
        c
    }
}

/// `c.is_ascii_uppercase()`.
pub fn char_is_ascii_upper(c: char) -> (b: bool)
    ensures
        b == is_ascii_upper(c),
{
    'A' <= c && c <= 'Z'
}

/// `c.is_ascii_lowercase()`.
pub fn char_is_ascii_lower(c: char) -> (b: bool)
    ensures
        b == is_ascii_lower(c),
{
    'a' <= c && c <= 'z'
}

/// `c.is_ascii_digit()`.
pub fn char_is_ascii_digit(c: char) -> (b: bool)
    ensures
        b == is_ascii_digit(c),
{
    '0' <= c && c <= '9'
}

/// Whether `s` contains `c`.
pub fn str_contains_char(s: &str, c: char) -> (b: bool)
    ensures
        b == s@.contains(c),
{
    let v = collect_chars(s);
    let mut i: usize = 0;
    while i < v.len()
        invariant
            v@ == s@,
            i <= v@.len(),
            forall|j: int| 0 <= j < i ==> v@[j] != c,
        decreases v@.len() - i,
    {
        if v[i] == c {
            assert(s@[i as int] == c);
            return true;
        }
        i = i + 1;
    }
    false
}

/// Append one char to a `String` (`String::push`).
#[verifier::external_body]
pub fn string_push(s: &mut String, c: char)
    ensures
        final(s)@ == old(s)@.push(c),
{
    s.push(c)
}

/// Whether two strings hold the same chars.
pub fn str_eq(a: &str, b: &str) -> (r: bool)
    ensures
        r == (a@ == b@),
{
    let n = a.unicode_len();
    if n != b.unicode_len() {
        return false;
    }
    let mut i: usize = 0;
    while i < n
        invariant
            n == a@.len(),
            n == b@.len(),
            i <= n,
            forall|j: int| 0 <= j < i ==> a@[j] == b@[j],
        decreases n - i,
    {
        if a.get_char(i) != b.get_char(i) {
            return false;
        }
        i = i + 1;
    }
    assert(a@ =~= b@);
    true
}

/// The chars of `s`, in order.
pub fn collect_chars(s: &str) -> (v: Vec<char>)
    ensures
        v@ == s@,
{
    let mut v: Vec<char> = Vec::new();
    for c in it: s.chars()
        invariant
            it.seq() == s@,
            v@ == s@.take(it.index() as int),
    {
        proof {
            assert(s@.take(it.index() + 1) =~= v@.push(c));
        }
        v.push(c);
    }
    assert(v@ =~= s@);
    v
}

/// The chars `v[a..b]`, copied.
pub fn slice_chars(v: &Vec<char>, a: usize, b: usize) -> (r: Vec<char>)
    requires
        a <= b <= v@.len(),
    ensures
        r@ == v@.subrange(a as int, b as int),
{
    let mut r: Vec<char> = Vec::new();
    let mut i = a;
    while i < b
        invariant
            a <= i <= b <= v@.len(),
            r@ == v@.subrange(a as int, i as int),
        decreases b - i,
    {
        r.push(v[i]);
        i = i + 1;
        proof {
            assert(r@ =~= v@.subrange(a as int, i as int));
        }
    }
    r
}

/// The chars of `v` as a `String`.
pub fn chars_to_string(v: &Vec<char>) -> (r: String)
    ensures
        r@ == v@,
{
    let mut r = String::new();
    let mut i: usize = 0;
    while i < v.len()
        invariant
            i <= v@.len(),
            r@ == v@.take(i as int),
        decreases v@.len() - i,
    {
        string_push(&mut r, v[i]);
        i = i + 1;
        proof {
            assert(r@ =~= v@.take(i as int));
        }
    }
    assert(r@ =~= v@);
    r
}

/// Leading whitespace chars of `v` from `i`.
pub open spec fn trim_start_from(v: Seq<char>, i: int) -> int
    decreases v.len() - i,
{
    if 0 <= i < v.len() && char_is_whitespace(v[i]) {
        trim_start_from(v, i + 1)
    } else {
        i
    }
}

/// End (exclusive) of `v` once trailing whitespace before `j` is dropped,
/// not going below `lo`.
pub open spec fn trim_end_from(v: Seq<char>, j: int, lo: int) -> int
    decreases j,
{
    if 0 < j && lo < j <= v.len() && char_is_whitespace(v[j - 1]) {
        trim_end_from(v, j - 1, lo)
    } else {
        j
    }
}

/// `str::trim`: `v` without leading and trailing whitespace.
pub open spec fn spec_trim(v: Seq<char>) -> Seq<char> {
    let a = trim_start_from(v, 0);
    v.subrange(a, trim_end_from(v, v.len() as int, a))
}

/// Bounds of `v` with leading and trailing whitespace dropped.
pub fn trim_bounds(v: &Vec<char>) -> (r: (usize, usize))
    ensures
        r.0 <= r.1 <= v@.len(),
        v@.subrange(r.0 as int, r.1 as int) == spec_trim(v@),
{
    let n = v.len();
    let mut a: usize = 0;
    while a < n && is_whitespace(v[a])
        invariant
            n == v@.len(),
            a <= n,
            trim_start_from(v@, a as int) == trim_start_from(v@, 0),
        decreases n - a,
    {
        a = a + 1;
    }
    let mut b: usize = n;
    while b > a && is_whitespace(v[b - 1])
        invariant
            n == v@.len(),
            a <= b <= n,
            trim_end_from(v@, b as int, a as int) == trim_end_from(v@, n as int, a as int),
        decreases b,
    {
        b = b - 1;
    }
    (a, b)
}

/// Whether `s.trim()` is exactly `want`.
pub fn trimmed_eq(s: &str, want: &str) -> (b: bool)
    ensures
        b == (spec_trim(s@) == want@),
{
    let v = collect_chars(s);
    let (a, z) = trim_bounds(&v);
    let t = chars_to_string(&slice_chars(&v, a, z));
    str_eq(t.as_str(), want)
}

} // verus!
