//! One interned source file: its text, where it sits in the shared address
//! space, and the tables derived from its text.
use vstd::prelude::*;
use crate::pos::BytePos;
use crate::file_name::FileName;
use crate::text::{byte_len, byte_offset, chars_of, len_utf8, lemma_byte_offset_full, lemma_byte_offset_mono, lemma_byte_offset_step, lemma_byte_offset_strict, utf8_len};
use crate::analysis::{analyze_source_file, analysis_of, line_starts_upto, multibyte_upto, non_narrow_upto, MultiByteChar, NonNarrowChar};

verus! {

/// Positions strictly increase along `s`.
pub open spec fn strictly_sorted(s: Seq<BytePos>) -> bool {
    forall|i: int, j: int| 0 <= i < j < s.len() ==> s[i].0 < s[j].0
}

/// A source file registered in a source map.
pub struct SourceFile {
    /// The name, after path remapping.
    pub name: FileName,
    /// Whether path remapping changed the name.
    pub name_was_remapped: bool,
    /// The name before path remapping.
    pub unmapped_path: Option<FileName>,
    /// The text, without a byte order mark.
    pub src: String,
    /// The characters of `src`.
    pub chars: Vec<char>,
    /// The position of the first byte.
    pub start_pos: BytePos,
    /// The position just past the last byte.
    pub end_pos: BytePos,
    /// The position where each line starts.
    pub lines: Vec<BytePos>,
    /// The characters that take more than one byte, by position.
    pub multibyte_chars: Vec<MultiByteChar>,
    /// The characters that are not one column wide, by position.
    pub non_narrow_chars: Vec<NonNarrowChar>,
}

impl SourceFile {
    /// The text and the tables agree, and the file fits the address space.
    pub open spec fn wf(&self) -> bool {
        &&& self.chars@ == self.src@
        &&& self.start_pos.0 + byte_len(self.src@) <= u32::MAX
        &&& self.end_pos.0 == self.start_pos.0 + byte_len(self.src@)
        &&& (self.lines@, self.multibyte_chars@, self.non_narrow_chars@) == analysis_of(
            self.src@,
            self.start_pos.0 as int,
        )
        &&& forall|i: int|
            0 <= i < self.non_narrow_chars@.len() ==> #[trigger] self.non_narrow_chars@[i].spec_width() <= 4
    }

    /// The byte length of the text.
    pub open spec fn len_bytes(&self) -> nat {
        byte_len(self.src@)
    }

    /// `b` does not fall strictly inside a multi-byte character.
    pub open spec fn is_boundary(&self, b: int) -> bool {
        forall|i: int|
            0 <= i < self.multibyte_chars@.len() ==> !(#[trigger] self.multibyte_chars@[i].pos.0 < b
                < self.multibyte_chars@[i].pos.0 + self.multibyte_chars@[i].bytes)
    }

    /// Builds a file from its text placed at `start_pos`, and analyses the text.
    pub fn new(
        name: FileName,
        name_was_remapped: bool,
        unmapped_path: FileName,
        src: String,
        start_pos: BytePos,
    ) -> (r: SourceFile)
        requires
            start_pos.0 + byte_len(src@) <= u32::MAX,
        ensures
            r.wf(),
            r.name@ == name@,
            r.name_was_remapped == name_was_remapped,
            r.unmapped_path == Some(unmapped_path),
            r.src@ == src@,
            r.start_pos == start_pos,
    {
        let chars = chars_of(src.as_str());
        let n = text_byte_len(&chars);
        let (lines, multibyte_chars, non_narrow_chars) = analyze_source_file(&chars, start_pos);
        SourceFile {
            name,
            name_was_remapped,
            unmapped_path: Some(unmapped_path),
            src,
            chars,
            start_pos,
            end_pos: BytePos(start_pos.0 + n),
            lines,
            multibyte_chars,
            non_narrow_chars,
        }
    }

    /// The characters of line `line_number`, without its newline.
    pub fn get_line(&self, line_number: usize) -> (r: Option<String>)
        requires
            self.wf(),
        ensures
            line_number >= self.lines@.len() ==> r is None,
            line_number < self.lines@.len() ==> (r matches Some(t) && t@ == line_text(self.src@, char_index_for(
                self.src@,
                self.lines@[line_number as int].0 - self.start_pos.0,
            ))),
    {
        match self.line_bounds(line_number) {
            Some((k, e)) => Some(self.src.as_str().substring_char(k, e).to_owned()),
            None => None,
        }
    }

    /// The number of characters of line `line_number`, without its newline.
    pub fn line_len(&self, line_number: usize) -> (r: Option<usize>)
        requires
            self.wf(),
        ensures
            line_number >= self.lines@.len() ==> r is None,
            line_number < self.lines@.len() ==> r == Some(line_text(self.src@, char_index_for(
                self.src@,
                self.lines@[line_number as int].0 - self.start_pos.0,
            )).len() as usize),
    {
        match self.line_bounds(line_number) {
            Some((k, e)) => Some(e - k),
            None => None,
        }
    }

    fn line_bounds(&self, line_number: usize) -> (r: Option<(usize, usize)>)
        requires
            self.wf(),
        ensures
            line_number >= self.lines@.len() ==> r is None,
            line_number < self.lines@.len() ==> (r matches Some((k, e)) && k == char_index_for(
                self.src@,
                self.lines@[line_number as int].0 - self.start_pos.0,
            ) && e == next_newline(self.src@, k as int) && k <= e <= self.src@.len()),
    {
        if line_number >= self.lines.len() {
            return None;
        }
        proof {
            self.lemma_lines();
            assert(self.lines@[0] == self.start_pos);
            if line_number > 0 {
                assert(self.lines@[0].0 < self.lines@[line_number as int].0);
            }
        }
        let begin = (self.lines[line_number].0 - self.start_pos.0) as usize;
        let k = match self.char_index_at(begin) {
            Some(k) => k,
            None => {
                return None;
            },
        };
        let mut e = k;
        while e < self.chars.len() && self.chars[e] != '\n'
            invariant
                self.wf(),
                k <= e <= self.chars@.len(),
                next_newline(self.src@, k as int) == next_newline(self.src@, e as int),
            decreases self.chars@.len() - e,
        {
            e = e + 1;
        }
        Some((k, e))
    }

    /// The number of lines.
    pub fn count_lines(&self) -> (r: usize)
        ensures
            r == self.lines@.len(),
    {
        self.lines.len()
    }

    /// The index of the line that holds `pos`: the last line that starts at
    /// or before it. `None` when the file has no lines or `pos` lies before
    /// the first one.
    pub fn lookup_line(&self, pos: BytePos) -> (r: Option<usize>)
        requires
            self.wf(),
        ensures
            r is None <==> (self.lines@.len() == 0 || pos.0 < self.lines@[0].0),
            r matches Some(k) ==> k < self.lines@.len() && self.lines@[k as int].0 <= pos.0 && (k + 1
                < self.lines@.len() ==> pos.0 < self.lines@[k + 1].0),
    {
        proof {
            self.lemma_lines();
        }
        let n = self.lines.len();
        // count of line starts at or before pos
        let mut lo: usize = 0;
        let mut hi: usize = n;
        while lo < hi
            invariant
                lo <= hi <= n == self.lines@.len(),
                strictly_sorted(self.lines@),
                forall|i: int| 0 <= i < lo ==> #[trigger] self.lines@[i].0 <= pos.0,
                forall|i: int| hi <= i < n ==> #[trigger] self.lines@[i].0 > pos.0,
            decreases hi - lo,
        {
            let mid = lo + (hi - lo) / 2;
            if self.lines[mid].0 <= pos.0 {
                lo = mid + 1;
            } else {
                hi = mid;
            }
        }
        if lo == 0 {
            None
        } else {
            Some(lo - 1)
        }
    }

    /// The char index whose byte offset from the start of the file is `rel`,
    /// if one is.
    pub fn char_index_at(&self, rel: usize) -> (r: Option<usize>)
        requires
            self.wf(),
        ensures
            r matches Some(k) ==> k <= self.chars@.len() && byte_offset(self.src@, k as int) == rel,
            r is None ==> forall|k: int| 0 <= k <= self.chars@.len() ==> byte_offset(self.src@, k) != rel,
            r matches Some(k) ==> k == char_index_for(self.src@, rel as int),
            r is None ==> char_index_for(self.src@, rel as int) == -1,
    {
        let r = self.char_index_scan(rel);
        proof {
            match r {
                Some(k) => {
                    lemma_char_index_for(self.src@, k as int);
                },
                None => {},
            }
        }
        r
    }

    fn char_index_scan(&self, rel: usize) -> (r: Option<usize>)
        requires
            self.wf(),
        ensures
            r matches Some(k) ==> k <= self.chars@.len() && byte_offset(self.src@, k as int) == rel,
            r is None ==> forall|k: int| 0 <= k <= self.chars@.len() ==> byte_offset(self.src@, k) != rel,
    {
        let mut i: usize = 0;
        let mut off: usize = 0;
        proof {
            assert(self.src@.take(0) =~= Seq::<char>::empty());
            lemma_byte_offset_full(self.src@);
        }
        while i < self.chars.len() && off < rel
            invariant
                self.wf(),
                i <= self.chars@.len(),
                off == byte_offset(self.src@, i as int),
                byte_offset(self.src@, self.chars@.len() as int) == byte_len(self.src@),
                forall|k: int| 0 <= k < i ==> byte_offset(self.src@, k) < rel,
            decreases self.chars@.len() - i,
        {
            proof {
                lemma_byte_offset_step(self.src@, i as int);
                lemma_byte_offset_mono(self.src@, i as int + 1, self.chars@.len() as int);
            }
            off = off + len_utf8(self.chars[i]);
            i = i + 1;
        }
        if off == rel {
            Some(i)
        } else {
            proof {
                assert forall|k: int| 0 <= k <= self.chars@.len() implies byte_offset(self.src@, k) != rel by {
                    if k > i {
                        lemma_byte_offset_mono(self.src@, i as int, k);
                    }
                }
            }
            None
        }
    }

    /// Facts about the line table: it is sorted, starts at the file start,
    /// and every line starts inside the file.
    pub proof fn lemma_lines(&self)
        requires
            self.wf(),
        ensures
            strictly_sorted(self.lines@),
            self.lines@.len() > 0 ==> self.lines@[0] == self.start_pos,
            forall|i: int| 0 <= i < self.lines@.len() ==> #[trigger] self.lines@[i].0 < self.end_pos.0,
            self.lines@.len() == 0 <==> self.src@.len() == 0,
            self.src@.len() == 0 ==> self.multibyte_chars@.len() == 0 && self.non_narrow_chars@.len() == 0,
            forall|i: int| 0 <= i < self.lines@.len() ==> self.is_boundary(#[trigger] self.lines@[i].0 as int),
            forall|i: int|
                0 <= i < self.lines@.len() ==> char_index_for(self.src@, #[trigger] self.lines@[i].0 - self.start_pos.0)
                    >= 0,
    {
        let cs = self.src@;
        let s = self.start_pos.0 as int;
        lemma_line_starts_upto(cs, s, cs.len() as int);
        lemma_line_starts_are_char_starts(cs, s, cs.len() as int);
        lemma_byte_offset_full(cs);
        assert forall|i: int| 0 <= i < self.lines@.len() implies self.is_boundary(#[trigger] self.lines@[i].0 as int) by {
            let l = line_starts_upto(cs, s, cs.len() as int);
            assert(self.lines@[i] == l[i]);
            let k2 = choose|k2: int| 0 <= k2 <= cs.len() && l[i].0 == s + byte_offset(cs, k2);
            lemma_char_starts_are_boundaries(cs, s, cs.len() as int, k2);
        }
        assert forall|i: int| 0 <= i < self.lines@.len() implies char_index_for(self.src@, #[trigger] self.lines@[i].0
            - self.start_pos.0) >= 0 by {
            let l = line_starts_upto(cs, s, cs.len() as int);
            assert(self.lines@[i] == l[i]);
            let k2 = choose|k2: int| 0 <= k2 <= cs.len() && l[i].0 == s + byte_offset(cs, k2);
            lemma_char_index_for(cs, k2);
        }
        if cs.len() > 0 {
            lemma_byte_offset_strict(cs, 0, cs.len() as int);
            assert(cs.take(0) =~= Seq::<char>::empty());
        }
    }
}

/// The index of the character that starts `rel` bytes into `cs` (or the
/// end of `cs`), or -1 when no character starts there.
pub open spec fn char_index_for(cs: Seq<char>, rel: int) -> int {
    if exists|k: int| 0 <= k <= cs.len() && byte_offset(cs, k) == rel {
        choose|k: int| 0 <= k <= cs.len() && byte_offset(cs, k) == rel
    } else {
        -1
    }
}

/// Byte offsets tell characters apart.
pub proof fn lemma_char_index_for(cs: Seq<char>, k: int)
    requires
        0 <= k <= cs.len(),
    ensures
        char_index_for(cs, byte_offset(cs, k) as int) == k,
{
    let rel = byte_offset(cs, k) as int;
    assert(exists|j: int| 0 <= j <= cs.len() && byte_offset(cs, j) == rel);
    let j = choose|j: int| 0 <= j <= cs.len() && byte_offset(cs, j) == rel;
    if j < k {
        lemma_byte_offset_strict(cs, j, k);
    } else if j > k {
        lemma_byte_offset_strict(cs, k, j);
    }
}

/// The index of the first newline at or after `k`, or the length of `cs`.
pub open spec fn next_newline(cs: Seq<char>, k: int) -> int
    decreases cs.len() - k,
{
    if k >= cs.len() || k < 0 {
        cs.len() as int
    } else if cs[k] == '\n' {
        k
    } else {
        next_newline(cs, k + 1)
    }
}

/// The characters from `k` up to the next newline.
pub open spec fn line_text(cs: Seq<char>, k: int) -> Seq<char> {
    cs.subrange(k, next_newline(cs, k))
}

/// Character indices are ordered as their byte offsets.
pub proof fn lemma_char_index_order(cs: Seq<char>, a: int, b: int)
    requires
        0 <= a <= cs.len(),
        0 <= b <= cs.len(),
        byte_offset(cs, a) <= byte_offset(cs, b),
    ensures
        a <= b,
{
    if a > b {
        lemma_byte_offset_strict(cs, b, a);
    }
}

/// The byte length of `cs` in UTF-8, when it fits in 32 bits.
pub fn text_byte_len(cs: &Vec<char>) -> (r: u32)
    requires
        byte_len(cs@) <= u32::MAX,
    ensures
        r == byte_len(cs@),
{
    let mut i: usize = 0;
    let mut n: u32 = 0;
    proof {
        assert(cs@.take(0) =~= Seq::<char>::empty());
        lemma_byte_offset_full(cs@);
    }
    while i < cs.len()
        invariant
            i <= cs@.len(),
            n == byte_offset(cs@, i as int),
            byte_offset(cs@, cs@.len() as int) <= u32::MAX,
        decreases cs@.len() - i,
    {
        proof {
            lemma_byte_offset_step(cs@, i as int);
            lemma_byte_offset_mono(cs@, i as int + 1, cs@.len() as int);
        }
        n = n + len_utf8(cs[i]) as u32;
        i = i + 1;
    }
    proof {
        lemma_byte_offset_full(cs@);
    }
    n
}

/// The index of the last of the first `n` line starts at or before `pos`,
/// or -1.
pub open spec fn last_line_at_or_before(lines: Seq<BytePos>, pos: int, n: int) -> int
    decreases n,
{
    if n <= 0 {
        -1
    } else if lines[n - 1].0 <= pos {
        n - 1
    } else {
        last_line_at_or_before(lines, pos, n - 1)
    }
}

/// In a sorted sequence, the last start at or before `pos` is just before
/// the first start after it.
pub proof fn lemma_last_line_partition(lines: Seq<BytePos>, pos: int, p: int, n: int)
    requires
        0 <= p <= n <= lines.len(),
        forall|i: int| 0 <= i < p ==> #[trigger] lines[i].0 <= pos,
        forall|i: int| p <= i < n ==> #[trigger] lines[i].0 > pos,
    ensures
        last_line_at_or_before(lines, pos, n) == p - 1,
    decreases n,
{
    if n > p {
        lemma_last_line_partition(lines, pos, p, n - 1);
    }
}

/// No character start lies strictly inside a multi-byte character.
pub proof fn lemma_char_starts_are_boundaries(cs: Seq<char>, s: int, k: int, k2: int)
    requires
        0 <= s,
        0 <= k <= cs.len(),
        0 <= k2 <= cs.len(),
        s + byte_len(cs) <= u32::MAX,
    ensures
        forall|i: int|
            0 <= i < multibyte_upto(cs, s, k).len() ==> !((#[trigger] multibyte_upto(cs, s, k)[i]).pos.0 < s
                + byte_offset(cs, k2) < multibyte_upto(cs, s, k)[i].pos.0 + multibyte_upto(cs, s, k)[i].bytes),
    decreases k,
{
    lemma_byte_offset_full(cs);
    if k > 0 {
        lemma_char_starts_are_boundaries(cs, s, k - 1, k2);
        lemma_byte_offset_step(cs, k - 1);
        lemma_byte_offset_mono(cs, k, cs.len() as int);
        if k2 <= k - 1 {
            lemma_byte_offset_mono(cs, k2, k - 1);
        } else {
            lemma_byte_offset_mono(cs, k, k2);
        }
        let prev = multibyte_upto(cs, s, k - 1);
        let cur = multibyte_upto(cs, s, k);
        assert forall|i: int| 0 <= i < cur.len() implies !((#[trigger] cur[i]).pos.0 < s + byte_offset(cs, k2)
            < cur[i].pos.0 + cur[i].bytes) by {
            if i < prev.len() {
                assert(cur[i] == prev[i]);
            } else {
                assert(cur[i].pos.0 == s + byte_offset(cs, k - 1));
                assert(cur[i].bytes == utf8_len(cs[k - 1]));
            }
        }
    }
}

/// Line starts are character starts.
pub proof fn lemma_line_starts_are_char_starts(cs: Seq<char>, s: int, k: int)
    requires
        0 <= s,
        0 <= k <= cs.len(),
        s + byte_len(cs) <= u32::MAX,
    ensures
        forall|i: int|
            0 <= i < line_starts_upto(cs, s, k).len() ==> exists|k2: int|
                0 <= k2 <= cs.len() && (#[trigger] line_starts_upto(cs, s, k)[i]).0 == s + byte_offset(cs, k2),
    decreases k,
{
    lemma_byte_offset_full(cs);
    if k > 0 {
        lemma_line_starts_are_char_starts(cs, s, k - 1);
        lemma_byte_offset_mono(cs, k, cs.len() as int);
        let l = line_starts_upto(cs, s, k);
        assert forall|i: int| 0 <= i < l.len() implies exists|k2: int|
            0 <= k2 <= cs.len() && (#[trigger] l[i]).0 == s + byte_offset(cs, k2) by {
            if i == l.len() - 1 && cs[k - 1] == '\n' {
                assert(l[i].0 == s + byte_offset(cs, k));
            } else {
                assert(l[i] == line_starts_upto(cs, s, k - 1)[i]);
            }
        }
    } else {
        assert(cs.take(0) =~= Seq::<char>::empty());
        assert(line_starts_upto(cs, s, 0)[0].0 == s + byte_offset(cs, 0));
    }
}

/// The line starts of a prefix are sorted, begin at the file start, and lie
/// at or before the end of the prefix.
pub proof fn lemma_line_starts_upto(cs: Seq<char>, s: int, k: int)
    requires
        0 <= s,
        0 <= k <= cs.len(),
        s + byte_len(cs) <= u32::MAX,
    ensures
        line_starts_upto(cs, s, k).len() >= 1,
        line_starts_upto(cs, s, k)[0].0 == s,
        strictly_sorted(line_starts_upto(cs, s, k)),
        forall|i: int|
            0 <= i < line_starts_upto(cs, s, k).len() ==> #[trigger] line_starts_upto(cs, s, k)[i].0 <= s
                + byte_offset(cs, k),
        line_starts_upto(cs, s, k).last().0 == s + byte_offset(cs, k) ==> (k == 0 || cs[k - 1] == '\n'),
    decreases k,
{
    lemma_byte_offset_full(cs);
    if k > 0 {
        lemma_line_starts_upto(cs, s, k - 1);
        lemma_byte_offset_step(cs, k - 1);
        lemma_byte_offset_mono(cs, k, cs.len() as int);
    } else {
        assert(cs.take(0) =~= Seq::<char>::empty());
    }
}

/// Entries are disjoint, in order of position, and each takes 2 to 4 bytes.
pub open spec fn multibyte_ordered(ms: Seq<MultiByteChar>) -> bool {
    &&& forall|i: int| 0 <= i < ms.len() ==> 2 <= #[trigger] ms[i].bytes <= 4
    &&& forall|i: int, j: int| 0 <= i < j < ms.len() ==> ms[i].pos.0 + ms[i].bytes <= ms[j].pos.0
}

/// The multi-byte characters of a prefix are ordered and lie inside it.
pub proof fn lemma_multibyte_upto(cs: Seq<char>, s: int, k: int)
    requires
        0 <= s,
        0 <= k <= cs.len(),
        s + byte_len(cs) <= u32::MAX,
    ensures
        multibyte_ordered(multibyte_upto(cs, s, k)),
        forall|i: int|
            0 <= i < multibyte_upto(cs, s, k).len() ==> s <= (#[trigger] multibyte_upto(cs, s, k)[i]).pos.0
                && multibyte_upto(cs, s, k)[i].pos.0 + multibyte_upto(cs, s, k)[i].bytes <= s
                + byte_offset(cs, k),
    decreases k,
{
    lemma_byte_offset_full(cs);
    if k > 0 {
        lemma_multibyte_upto(cs, s, k - 1);
        lemma_byte_offset_step(cs, k - 1);
        lemma_byte_offset_mono(cs, k, cs.len() as int);
    }
}

/// The non-narrow characters of a prefix are in strictly increasing
/// position and lie inside it.
pub proof fn lemma_non_narrow_upto(cs: Seq<char>, s: int, k: int)
    requires
        0 <= s,
        0 <= k <= cs.len(),
        s + byte_len(cs) <= u32::MAX,
    ensures
        forall|i: int, j: int|
            0 <= i < j < non_narrow_upto(cs, s, k).len() ==> non_narrow_upto(cs, s, k)[i].spec_pos().0
                < non_narrow_upto(cs, s, k)[j].spec_pos().0,
        forall|i: int|
            0 <= i < non_narrow_upto(cs, s, k).len() ==> s <= (#[trigger] non_narrow_upto(cs, s, k)[i]).spec_pos().0
                < s + byte_offset(cs, k),
        non_narrow_upto(cs, s, k).len() <= k,
    decreases k,
{
    lemma_byte_offset_full(cs);
    if k > 0 {
        lemma_non_narrow_upto(cs, s, k - 1);
        lemma_byte_offset_step(cs, k - 1);
        lemma_byte_offset_mono(cs, k, cs.len() as int);
    }
}

impl SourceFile {
    /// Facts about the multi-byte table of a well-formed file.
    pub proof fn lemma_multibyte(&self)
        requires
            self.wf(),
        ensures
            multibyte_ordered(self.multibyte_chars@),
            forall|i: int|
                0 <= i < self.multibyte_chars@.len() ==> self.start_pos.0 <= (
                #[trigger] self.multibyte_chars@[i]).pos.0 && self.multibyte_chars@[i].pos.0
                    + self.multibyte_chars@[i].bytes <= self.end_pos.0,
    {
        lemma_multibyte_upto(self.src@, self.start_pos.0 as int, self.src@.len() as int);
        lemma_byte_offset_full(self.src@);
    }

    /// Facts about the non-narrow table of a well-formed file.
    pub proof fn lemma_non_narrow(&self)
        requires
            self.wf(),
        ensures
            forall|i: int, j: int|
                0 <= i < j < self.non_narrow_chars@.len() ==> self.non_narrow_chars@[i].spec_pos().0
                    < self.non_narrow_chars@[j].spec_pos().0,
            forall|i: int|
                0 <= i < self.non_narrow_chars@.len() ==> self.start_pos.0 <= (
                #[trigger] self.non_narrow_chars@[i]).spec_pos().0 < self.end_pos.0,
            self.non_narrow_chars@.len() <= self.src@.len(),
    {
        lemma_non_narrow_upto(self.src@, self.start_pos.0 as int, self.src@.len() as int);
        lemma_byte_offset_full(self.src@);
    }
}

} // verus!
