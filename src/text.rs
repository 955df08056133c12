//! Character-level facts about source text: how many bytes a character takes
//! in UTF-8 and how many code units in UTF-16, and byte offsets of prefixes.
use vstd::prelude::*;
use vstd::std_specs::iter::IteratorSpec;

verus! {

broadcast use vstd::string::group_string_axioms;

/// Number of bytes of `c` in UTF-8.
pub open spec fn utf8_len(c: char) -> nat {
    if (c as u32) < 0x80 {
        1
    } else if (c as u32) < 0x800 {
        2
    } else if (c as u32) < 0x10000 {
        3
    } else {
        4
    }
}

/// Number of UTF-16 code units of `c`: two for a surrogate pair.
pub open spec fn utf16_len(c: char) -> nat {
    if (c as u32) < 0x10000 {
        1
    } else {
        2
    }
}

/// Number of bytes of `cs` in UTF-8.
pub open spec fn byte_len(cs: Seq<char>) -> nat
    decreases cs.len(),
{
    if cs.len() == 0 {
        0
    } else {
        byte_len(cs.drop_last()) + utf8_len(cs.last())
    }
}

/// Byte offset of the `k`-th character of `cs`.
pub open spec fn byte_offset(cs: Seq<char>, k: int) -> nat {
    byte_len(cs.take(k))
}

pub proof fn lemma_byte_offset_step(cs: Seq<char>, k: int)
    requires
        0 <= k < cs.len(),
    ensures
        byte_offset(cs, k + 1) == byte_offset(cs, k) + utf8_len(cs[k]),
{
    assert(cs.take(k + 1).drop_last() =~= cs.take(k));
}

pub proof fn lemma_byte_offset_mono(cs: Seq<char>, j: int, k: int)
    requires
        0 <= j <= k <= cs.len(),
    ensures
        byte_offset(cs, j) + (k - j) <= byte_offset(cs, k),
    decreases k - j,
{
    if j < k {
        lemma_byte_offset_step(cs, k - 1);
        lemma_byte_offset_mono(cs, j, k - 1);
    }
}

pub proof fn lemma_byte_offset_full(cs: Seq<char>)
    ensures
        byte_offset(cs, cs.len() as int) == byte_len(cs),
{
    assert(cs.take(cs.len() as int) =~= cs);
}

/// Byte offsets are strictly increasing in the character index.
pub proof fn lemma_byte_offset_strict(cs: Seq<char>, j: int, k: int)
    requires
        0 <= j < k <= cs.len(),
    ensures
        byte_offset(cs, j) + utf8_len(cs[j]) <= byte_offset(cs, k),
{
    lemma_byte_offset_step(cs, j);
    lemma_byte_offset_mono(cs, j + 1, k);
}

/// Relies on nothing outside: the UTF-8 length of a character.
pub fn len_utf8(c: char) -> (r: usize)
    ensures
        r == utf8_len(c),
        1 <= r <= 4,
{
    let v = c as u32;
    if v < 0x80 {
        1
    } else if v < 0x800 {
        2
    } else if v < 0x10000 {
        3
    } else {
        4
    }
}

/// The UTF-16 length of a character.
pub fn len_utf16(c: char) -> (r: usize)
    ensures
        r == utf16_len(c),
        1 <= r <= 2,
{
    if (c as u32) < 0x10000 {
        1
    } else {
        2
    }
}

/// The characters of `s`, in order.
pub fn chars_of(s: &str) -> (r: Vec<char>)
    ensures
        r@ == s@,
{
    let mut out: Vec<char> = Vec::new();
    let mut it = s.chars();
    loop
        invariant
            out@ + it.remaining() == s@,
            it.decrease() is Some,
        ensures
            out@ == s@,
        decreases it.decrease()->0,
    {
        match it.next() {
            Some(c) => {
                out.push(c);
            },
            None => {
                assert(out@ =~= s@);
                break;
            },
        }
    }
    out
}

} // verus!
