//! Searches over ranges of characters: whitespace, a character, a string.
use vstd::prelude::*;
use crate::text::{byte_offset, len_utf8, lemma_byte_offset_mono, lemma_byte_offset_step};

verus! {

/// Unicode's White_Space property, as `char::is_whitespace` has it.
pub open spec fn is_ws(c: char) -> bool {
    let v = c as u32;
    (0x9 <= v && v <= 0xd) || v == 0x20 || v == 0x85 || v == 0xa0 || v == 0x1680 || (0x2000 <= v && v
        <= 0x200a) || v == 0x2028 || v == 0x2029 || v == 0x202f || v == 0x205f || v == 0x3000
}

pub fn is_whitespace(c: char) -> (r: bool)
    ensures
        r == is_ws(c),
{
    let v = c as u32;
    (0x9 <= v && v <= 0xd) || v == 0x20 || v == 0x85 || v == 0xa0 || v == 0x1680 || (0x2000 <= v && v
        <= 0x200a) || v == 0x2028 || v == 0x2029 || v == 0x202f || v == 0x205f || v == 0x3000
}

/// The index of the first `c` in `s[lo..hi)`, or -1.
pub open spec fn first_char_in(s: Seq<char>, lo: int, hi: int, c: char) -> int
    decreases hi - lo,
{
    if hi <= lo {
        -1
    } else if s[lo] == c {
        lo
    } else {
        first_char_in(s, lo + 1, hi, c)
    }
}

/// The index of the last `c` in `s[lo..hi)`, or -1.
pub open spec fn last_char_in(s: Seq<char>, lo: int, hi: int, c: char) -> int
    decreases hi - lo,
{
    if hi <= lo {
        -1
    } else if s[hi - 1] == c {
        hi - 1
    } else {
        last_char_in(s, lo, hi - 1, c)
    }
}

/// The first index from `lo` on that holds no whitespace, or `hi`.
pub open spec fn ws_end(s: Seq<char>, lo: int, hi: int) -> int
    decreases hi - lo,
{
    if hi <= lo {
        hi
    } else if !is_ws(s[lo]) {
        lo
    } else {
        ws_end(s, lo + 1, hi)
    }
}

/// The index just past the last character before `hi` that is no
/// whitespace, or `lo`.
pub open spec fn ws_start(s: Seq<char>, lo: int, hi: int) -> int
    decreases hi - lo,
{
    if hi <= lo {
        lo
    } else if !is_ws(s[hi - 1]) {
        hi
    } else {
        ws_start(s, lo, hi - 1)
    }
}

/// `t` occurs in `s` at `i`.
pub open spec fn occurs_at(s: Seq<char>, t: Seq<char>, i: int) -> bool {
    0 <= i && i + t.len() <= s.len() && s.subrange(i, i + t.len() as int) == t
}

/// The greatest `i <= k` at which `t` occurs in `s` and ends by `hi`, or -1.
pub open spec fn last_str_in(s: Seq<char>, hi: int, t: Seq<char>, k: int) -> int
    decreases k + 1,
{
    if k < 0 {
        -1
    } else if k + t.len() <= hi && occurs_at(s, t, k) {
        k
    } else {
        last_str_in(s, hi, t, k - 1)
    }
}

/// The least `i >= k` at which `t` occurs in `s` and ends by `hi`, or -1.
pub open spec fn first_str_in(s: Seq<char>, hi: int, t: Seq<char>, k: int) -> int
    decreases hi + 1 - k,
{
    if k + t.len() > hi || k < 0 {
        -1
    } else if occurs_at(s, t, k) {
        k
    } else {
        first_str_in(s, hi, t, k + 1)
    }
}

pub fn first_char_index(s: &Vec<char>, lo: usize, hi: usize, c: char) -> (r: Option<usize>)
    requires
        lo <= hi <= s@.len(),
    ensures
        r matches Some(i) ==> i == first_char_in(s@, lo as int, hi as int, c),
        r is None ==> first_char_in(s@, lo as int, hi as int, c) == -1,
{
    let mut i = lo;
    while i < hi
        invariant
            lo <= i <= hi <= s@.len(),
            first_char_in(s@, lo as int, hi as int, c) == first_char_in(s@, i as int, hi as int, c),
        decreases hi - i,
    {
        if s[i] == c {
            return Some(i);
        }
        i = i + 1;
    }
    None
}

pub fn last_char_index(s: &Vec<char>, lo: usize, hi: usize, c: char) -> (r: Option<usize>)
    requires
        lo <= hi <= s@.len(),
    ensures
        r matches Some(i) ==> i == last_char_in(s@, lo as int, hi as int, c),
        r is None ==> last_char_in(s@, lo as int, hi as int, c) == -1,
{
    let mut i = hi;
    while i > lo
        invariant
            lo <= i <= hi <= s@.len(),
            last_char_in(s@, lo as int, hi as int, c) == last_char_in(s@, lo as int, i as int, c),
        decreases i - lo,
    {
        if s[i - 1] == c {
            return Some(i - 1);
        }
        i = i - 1;
    }
    None
}

pub fn skip_ws_forward(s: &Vec<char>, lo: usize, hi: usize) -> (r: usize)
    requires
        lo <= hi <= s@.len(),
    ensures
        r == ws_end(s@, lo as int, hi as int),
        lo <= r <= hi,
{
    let mut i = lo;
    while i < hi && is_whitespace(s[i])
        invariant
            lo <= i <= hi <= s@.len(),
            ws_end(s@, lo as int, hi as int) == ws_end(s@, i as int, hi as int),
        decreases hi - i,
    {
        i = i + 1;
    }
    i
}

pub fn skip_ws_backward(s: &Vec<char>, lo: usize, hi: usize) -> (r: usize)
    requires
        lo <= hi <= s@.len(),
    ensures
        r == ws_start(s@, lo as int, hi as int),
        lo <= r <= hi,
{
    let mut i = hi;
    while i > lo && is_whitespace(s[i - 1])
        invariant
            lo <= i <= hi <= s@.len(),
            ws_start(s@, lo as int, hi as int) == ws_start(s@, lo as int, i as int),
        decreases i - lo,
    {
        i = i - 1;
    }
    i
}

/// Whether `t` occurs in `s` at `i`.
pub fn matches_at(s: &Vec<char>, t: &Vec<char>, i: usize) -> (r: bool)
    ensures
        r == occurs_at(s@, t@, i as int),
{
    if i > s.len() || t.len() > s.len() - i {
        return false;
    }
    let slen = s.len();
    let mut j: usize = 0;
    while j < t.len()
        invariant
            i + t@.len() <= s@.len(),
            slen == s@.len(),
            j <= t@.len(),
            forall|m: int| 0 <= m < j ==> s@[i + m] == t@[m],
        decreases t@.len() - j,
    {
        assert(i + j < s@.len());
        if s[i + j] != t[j] {
            proof {
                assert(s@.subrange(i as int, i + t@.len())[j as int] != t@[j as int]);
            }
            return false;
        }
        j = j + 1;
    }
    proof {
        assert(s@.subrange(i as int, i + t@.len()) =~= t@);
    }
    true
}

/// The last place in `s[0..hi)` where `t` occurs.
pub fn last_str_index(s: &Vec<char>, hi: usize, t: &Vec<char>) -> (r: Option<usize>)
    requires
        hi <= s@.len(),
    ensures
        r matches Some(i) ==> i == last_str_in(s@, hi as int, t@, hi as int),
        r is None ==> last_str_in(s@, hi as int, t@, hi as int) == -1,
{
    let mut k: usize = hi;
    loop
        invariant
            k <= hi <= s@.len(),
            last_str_in(s@, hi as int, t@, hi as int) == last_str_in(s@, hi as int, t@, k as int),
        decreases k,
    {
        if t.len() <= hi - k && matches_at(s, t, k) {
            return Some(k);
        }
        if k == 0 {
            assert(last_str_in(s@, hi as int, t@, -1) == -1);
            return None;
        }
        k = k - 1;
    }
}

/// The first place in `s[lo..hi)` where `t` occurs.
pub fn first_str_index(s: &Vec<char>, lo: usize, hi: usize, t: &Vec<char>) -> (r: Option<usize>)
    requires
        lo <= hi <= s@.len(),
    ensures
        r matches Some(i) ==> i == first_str_in(s@, hi as int, t@, lo as int),
        r is None ==> first_str_in(s@, hi as int, t@, lo as int) == -1,
{
    let mut k: usize = lo;
    while k <= hi
        invariant
            lo <= k,
            hi <= s@.len(),
            first_str_in(s@, hi as int, t@, lo as int) == first_str_in(s@, hi as int, t@, k as int),
        decreases hi + 1 - k,
    {
        if t.len() > hi - k {
            return None;
        }
        if matches_at(s, t, k) {
            return Some(k);
        }
        if k == hi {
            assert(first_str_in(s@, hi as int, t@, hi + 1) == -1);
            return None;
        }
        k = k + 1;
    }
    None
}

/// The number of bytes of `s[a..b)`.
pub fn range_bytes(s: &Vec<char>, a: usize, b: usize) -> (r: u32)
    requires
        a <= b <= s@.len(),
        byte_offset(s@, s@.len() as int) <= u32::MAX,
    ensures
        r == byte_offset(s@, b as int) - byte_offset(s@, a as int),
{
    let mut i = a;
    let mut n: u32 = 0;
    proof {
        lemma_byte_offset_mono(s@, a as int, b as int);
        lemma_byte_offset_mono(s@, b as int, s@.len() as int);
    }
    while i < b
        invariant
            a <= i <= b <= s@.len(),
            byte_offset(s@, s@.len() as int) <= u32::MAX,
            byte_offset(s@, b as int) <= byte_offset(s@, s@.len() as int),
            n == byte_offset(s@, i as int) - byte_offset(s@, a as int),
            byte_offset(s@, a as int) <= byte_offset(s@, i as int),
        decreases b - i,
    {
        proof {
            lemma_byte_offset_step(s@, i as int);
            lemma_byte_offset_mono(s@, i as int + 1, b as int);
        }
        n = n + len_utf8(s[i]) as u32;
        i = i + 1;
    }
    n
}

} // verus!
