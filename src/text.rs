use vstd::prelude::*;
use vstd::string::*;

use crate::slicing::{fold_index, slice_bounds, slice_of};

verus! {

/// Whether `c` is one of the ASCII digits `0`..`9`.
pub open spec fn is_digit_char(c: char) -> bool {
    '0' <= c <= '9'
}

/// Whether `c` is an ASCII letter.
pub open spec fn is_alpha_char(c: char) -> bool {
    ('a' <= c <= 'z') || ('A' <= c <= 'Z')
}

/// Python's `str.isdigit` restricted to ASCII: non-empty and only digits.
pub open spec fn all_digits(s: Seq<char>) -> bool {
    s.len() > 0 && forall|i: int| 0 <= i < s.len() ==> is_digit_char(#[trigger] s[i])
}

/// Python's `str.isalpha` restricted to ASCII: non-empty and only letters.
pub open spec fn all_alpha(s: Seq<char>) -> bool {
    s.len() > 0 && forall|i: int| 0 <= i < s.len() ==> is_alpha_char(#[trigger] s[i])
}

/// The string that `s[index]` gives: the one character at the folded index, or the
/// empty string when the index is out of range.
pub open spec fn char_at(s: Seq<char>, index: int) -> Seq<char> {
    let i = fold_index(index, s.len() as int);
    if 0 <= i < s.len() {
        seq![s[i]]
    } else {
        Seq::empty()
    }
}

/// Number of code points of `s`; for an ASCII string this is its byte length, read
/// in constant time.
pub fn str_len(s: &str) -> (r: usize)
    ensures
        r == s@.len(),
{
    if s.is_ascii() {
        proof {
            is_ascii_spec_bytes(s);
        }
        let bytes = s.as_bytes();
        assert(bytes@.len() == s@.len());
        bytes.len()
    } else {
        s.unicode_len()
    }
}

/// `true` when `v` is non-empty and every character is an ASCII digit.
pub fn py_isdigit(v: &str) -> (r: bool)
    ensures
        r == all_digits(v@),
{
    if v.is_empty() {
        return false;
    }
    if !v.is_ascii() {
        // a character outside ASCII is no ASCII digit
        return false;
    }
    let n = v.unicode_len();
    let mut i: usize = 0;
    while i < n
        invariant
            n == v@.len(),
            v.is_ascii(),
            i <= n,
            forall|k: int| 0 <= k < i ==> is_digit_char(#[trigger] v@[k]),
        decreases n - i,
    {
        let b = v.get_ascii(i);
        if !(48 <= b && b <= 57) {
            assert(!is_digit_char(v@[i as int]));
            return false;
        }
        i = i + 1;
    }
    true
}

/// `true` when `v` is non-empty and every character is an ASCII letter.
pub fn py_isalpha(v: &str) -> (r: bool)
    ensures
        r == all_alpha(v@),
{
    if v.is_empty() {
        return false;
    }
    if !v.is_ascii() {
        // a character outside ASCII is no ASCII letter
        return false;
    }
    let n = v.unicode_len();
    let mut i: usize = 0;
    while i < n
        invariant
            n == v@.len(),
            v.is_ascii(),
            i <= n,
            forall|k: int| 0 <= k < i ==> is_alpha_char(#[trigger] v@[k]),
        decreases n - i,
    {
        let b = v.get_ascii(i);
        if !((97 <= b && b <= 122) || (65 <= b && b <= 90)) {
            assert(!is_alpha_char(v@[i as int]));
            return false;
        }
        i = i + 1;
    }
    true
}

/// Python's `s[index]` on code points: a negative index counts from the end; out of
/// range gives the empty string.
pub fn py_str_at(s: &str, index: i64) -> (r: String)
    ensures
        r@ == char_at(s@, index as int),
{
    let n = str_len(s) as i128;
    let mut idx = index as i128;
    if idx < 0 {
        idx = idx + n;
    }
    if idx < 0 || idx >= n {
        return String::new();
    }
    let i = idx as usize;
    if s.is_ascii() {
        s.substring_ascii(i, i + 1).to_owned()
    } else {
        s.substring_char(i, i + 1).to_owned()
    }
}

/// Python's `s[start:end]` on code points, with the clamping rules of
/// `normalize_slice_range`.
pub fn py_slice_str(s: &str, start: Option<i64>, end: Option<i64>) -> (r: String)
    ensures
        r@ == slice_of(s@, start, end),
{
    let n = str_len(s);
    let (i, j) = slice_bounds(n, start, end);
    if s.is_ascii() {
        s.substring_ascii(i, j).to_owned()
    } else {
        s.substring_char(i, j).to_owned()
    }
}

/// For an index in `[-len, len)`, `s[index]` is the one character at the folded position;
/// for any other index it is the empty string.
pub proof fn lemma_char_at(s: Seq<char>, index: int)
    ensures
        -s.len() <= index < 0 ==> char_at(s, index) == seq![s[index + s.len()]],
        0 <= index < s.len() ==> char_at(s, index) == seq![s[index]],
        (index < -s.len() || index >= s.len()) ==> char_at(s, index) == Seq::<char>::empty(),
{
}

} // verus!
