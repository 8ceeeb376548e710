//! Character-level scanning helpers for the assembly text: the character
//! classes the grammar uses, and runs of whitespace, letters, digits and
//! alphanumeric characters, each with a specification-level counterpart.
use vstd::prelude::*;

verus! {

/// Whitespace as the grammar understands it: space, tab, carriage return,
/// line feed.
pub open spec fn is_space_char(c: char) -> bool {
    c == ' ' || c == '\t' || c == '\r' || c == '\n'
}

/// An ASCII decimal digit.
pub open spec fn is_digit_char(c: char) -> bool {
    48 <= c as u32 && c as u32 <= 57
}

/// An ASCII letter.
pub open spec fn is_alpha_char(c: char) -> bool {
    (65 <= c as u32 && c as u32 <= 90) || (97 <= c as u32 && c as u32 <= 122)
}

/// An ASCII letter or digit.
pub open spec fn is_alnum_char(c: char) -> bool {
    is_alpha_char(c) || is_digit_char(c)
}

pub fn space_char(c: char) -> (r: bool)
    ensures
        r == is_space_char(c),
{
    c == ' ' || c == '\t' || c == '\r' || c == '\n'
}

pub fn digit_char(c: char) -> (r: bool)
    ensures
        r == is_digit_char(c),
{
    let u = c as u32;
    48 <= u && u <= 57
}

pub fn alpha_char(c: char) -> (r: bool)
    ensures
        r == is_alpha_char(c),
{
    let u = c as u32;
    (65 <= u && u <= 90) || (97 <= u && u <= 122)
}

pub fn alnum_char(c: char) -> (r: bool)
    ensures
        r == is_alnum_char(c),
{
    alpha_char(c) || digit_char(c)
}

/// The first position at or after `pos` that does not hold whitespace.
pub open spec fn spec_skip_space(s: Seq<char>, pos: int) -> int
    decreases s.len() - pos,
{
    if pos < s.len() && is_space_char(s[pos]) {
        spec_skip_space(s, pos + 1)
    } else {
        pos
    }
}

pub proof fn lemma_skip_space_bounds(s: Seq<char>, pos: int)
    requires
        0 <= pos <= s.len(),
    ensures
        pos <= spec_skip_space(s, pos) <= s.len(),
    decreases s.len() - pos,
{
    if pos < s.len() && is_space_char(s[pos]) {
        lemma_skip_space_bounds(s, pos + 1);
    }
}

/// The end of the run of alphanumeric characters that starts at `pos`.
pub open spec fn spec_scan_alnum(s: Seq<char>, pos: int) -> int
    decreases s.len() - pos,
{
    if pos < s.len() && is_alnum_char(s[pos]) {
        spec_scan_alnum(s, pos + 1)
    } else {
        pos
    }
}

pub proof fn lemma_scan_alnum_bounds(s: Seq<char>, pos: int)
    requires
        0 <= pos <= s.len(),
    ensures
        pos <= spec_scan_alnum(s, pos) <= s.len(),
    decreases s.len() - pos,
{
    if pos < s.len() && is_alnum_char(s[pos]) {
        lemma_scan_alnum_bounds(s, pos + 1);
    }
}

/// The end of the run of letters that starts at `pos`.
pub open spec fn spec_scan_alpha(s: Seq<char>, pos: int) -> int
    decreases s.len() - pos,
{
    if pos < s.len() && is_alpha_char(s[pos]) {
        spec_scan_alpha(s, pos + 1)
    } else {
        pos
    }
}

/// The end of the run of digits that starts at `pos`.
pub open spec fn spec_scan_digits(s: Seq<char>, pos: int) -> int
    decreases s.len() - pos,
{
    if pos < s.len() && is_digit_char(s[pos]) {
        spec_scan_digits(s, pos + 1)
    } else {
        pos
    }
}

pub proof fn lemma_scan_digits_bounds(s: Seq<char>, pos: int)
    requires
        0 <= pos <= s.len(),
    ensures
        pos <= spec_scan_digits(s, pos) <= s.len(),
    decreases s.len() - pos,
{
    if pos < s.len() && is_digit_char(s[pos]) {
        lemma_scan_digits_bounds(s, pos + 1);
    }
}

pub fn skip_space(s: &str, pos: usize) -> (r: usize)
    requires
        pos <= s@.len(),
    ensures
        r == spec_skip_space(s@, pos as int),
        pos <= r <= s@.len(),
{
    let n = s.unicode_len();
    let mut i = pos;
    while i < n && space_char(s.get_char(i))
        invariant
            pos <= i <= n,
            n == s@.len(),
            spec_skip_space(s@, pos as int) == spec_skip_space(s@, i as int),
        decreases n - i,
    {
        i = i + 1;
    }
    i
}

pub fn scan_alnum(s: &str, pos: usize) -> (r: usize)
    requires
        pos <= s@.len(),
    ensures
        r == spec_scan_alnum(s@, pos as int),
        pos <= r <= s@.len(),
{
    let n = s.unicode_len();
    let mut i = pos;
    while i < n && alnum_char(s.get_char(i))
        invariant
            pos <= i <= n,
            n == s@.len(),
            spec_scan_alnum(s@, pos as int) == spec_scan_alnum(s@, i as int),
        decreases n - i,
    {
        i = i + 1;
    }
    i
}

pub fn scan_alpha(s: &str, pos: usize) -> (r: usize)
    requires
        pos <= s@.len(),
    ensures
        r == spec_scan_alpha(s@, pos as int),
        pos <= r <= s@.len(),
{
    let n = s.unicode_len();
    let mut i = pos;
    while i < n && alpha_char(s.get_char(i))
        invariant
            pos <= i <= n,
            n == s@.len(),
            spec_scan_alpha(s@, pos as int) == spec_scan_alpha(s@, i as int),
        decreases n - i,
    {
        i = i + 1;
    }
    i
}

pub fn scan_digits(s: &str, pos: usize) -> (r: usize)
    requires
        pos <= s@.len(),
    ensures
        r == spec_scan_digits(s@, pos as int),
        pos <= r <= s@.len(),
{
    let n = s.unicode_len();
    let mut i = pos;
    while i < n && digit_char(s.get_char(i))
        invariant
            pos <= i <= n,
            n == s@.len(),
            spec_scan_digits(s@, pos as int) == spec_scan_digits(s@, i as int),
        decreases n - i,
    {
        i = i + 1;
    }
    i
}

pub proof fn lemma_scan_digits_chars(s: Seq<char>, pos: int)
    requires
        0 <= pos <= s.len(),
    ensures
        forall|k: int| pos <= k < spec_scan_digits(s, pos) ==> is_digit_char(s[k]),
    decreases s.len() - pos,
{
    if pos < s.len() && is_digit_char(s[pos]) {
        lemma_scan_digits_bounds(s, pos + 1);
        lemma_scan_digits_chars(s, pos + 1);
    }
}

/// The numeric value of the digit run `s[pos..end)`, read in base ten.
pub open spec fn spec_digits_value(s: Seq<char>, pos: int, end: int) -> int
    decreases end - pos,
{
    if pos < end {
        spec_digits_value(s, pos, end - 1) * 10 + (s[end - 1] as u32 - 48)
    } else {
        0
    }
}

pub proof fn lemma_digits_value_nonneg(s: Seq<char>, pos: int, end: int)
    requires
        0 <= pos <= end <= s.len(),
        forall|k: int| pos <= k < end ==> is_digit_char(s[k]),
    ensures
        spec_digits_value(s, pos, end) >= 0,
    decreases end - pos,
{
    if pos < end {
        lemma_digits_value_nonneg(s, pos, end - 1);
    }
}

pub proof fn lemma_digits_value_monotone(s: Seq<char>, pos: int, mid: int, end: int)
    requires
        0 <= pos <= mid <= end <= s.len(),
        forall|k: int| pos <= k < end ==> is_digit_char(s[k]),
    ensures
        spec_digits_value(s, pos, mid) <= spec_digits_value(s, pos, end),
    decreases end - mid,
{
    if mid < end {
        lemma_digits_value_monotone(s, pos, mid, end - 1);
        lemma_digits_value_nonneg(s, pos, end - 1);
    }
}

/// Reads the value of the digit run `s[pos..end)`, up to a cap; a run whose
/// value exceeds the cap yields `None`.
pub fn digits_value_capped(s: &str, pos: usize, end: usize, cap: u64) -> (r: Option<u64>)
    requires
        pos <= end <= s@.len(),
        forall|k: int| pos <= k < end ==> is_digit_char(s@[k]),
        cap <= 0x7fff_ffff,
    ensures
        match r {
            Some(v) => spec_digits_value(s@, pos as int, end as int) == v && v <= cap,
            None => spec_digits_value(s@, pos as int, end as int) > cap,
        },
{
    let mut acc: u64 = 0;
    let mut i = pos;
    while i < end
        invariant
            pos <= i <= end <= s@.len(),
            forall|k: int| pos <= k < end ==> is_digit_char(s@[k]),
            cap <= 0x7fff_ffff,
            acc == spec_digits_value(s@, pos as int, i as int),
            acc <= cap,
        decreases end - i,
    {
        let c = s.get_char(i);
        let d: u64 = (c as u32) as u64 - 48;
        acc = acc * 10 + d;
        i = i + 1;
        if acc > cap {
            proof {
                lemma_digits_value_monotone(s@, pos as int, i as int, end as int);
            }
            return None;
        }
    }
    Some(acc)
}

/// The position of the first occurrence of `c` at or after `pos`, or the
/// length of the text when there is none.
pub open spec fn spec_find_char(s: Seq<char>, pos: int, c: char) -> int
    decreases s.len() - pos,
{
    if pos < s.len() {
        if s[pos] == c {
            pos
        } else {
            spec_find_char(s, pos + 1, c)
        }
    } else {
        pos
    }
}

pub fn find_char(s: &str, pos: usize, c: char) -> (r: usize)
    requires
        pos <= s@.len(),
    ensures
        r == spec_find_char(s@, pos as int, c),
        pos <= r <= s@.len(),
{
    let n = s.unicode_len();
    let mut i = pos;
    while i < n && s.get_char(i) != c
        invariant
            pos <= i <= n,
            n == s@.len(),
            spec_find_char(s@, pos as int, c) == spec_find_char(s@, i as int, c),
        decreases n - i,
    {
        i = i + 1;
    }
    i
}

/// Equality of two pieces of text, compared by their characters.
pub fn str_eq(a: &str, b: &str) -> (r: bool)
    ensures
        r == (a@ == b@),
{
    let x = a.to_owned();
    let y = b.to_owned();
    x == y
}

/// The characters `s[from..to)` as an owned string.
pub fn substring(s: &str, from: usize, to: usize) -> (r: String)
    requires
        from <= to <= s@.len(),
    ensures
        r@ == s@.subrange(from as int, to as int),
{
    s.substring_char(from, to).to_owned()
}

} // verus!
