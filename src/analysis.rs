//! The per-file tables derived from source text: where lines start, where
//! multi-byte characters sit, and which characters are not one column wide.
use vstd::prelude::*;
use crate::pos::BytePos;
use crate::text::{byte_len, byte_offset, len_utf8, lemma_byte_offset_step, lemma_byte_offset_mono, lemma_byte_offset_full, utf8_len};

verus! {

/// A character whose UTF-8 encoding takes more than one byte.
#[derive(Clone, Copy, Debug, PartialEq, Eq, Hash, Structural)]
pub struct MultiByteChar {
    /// The absolute position of the character's first byte.
    pub pos: BytePos,
    /// The number of bytes, 2 to 4.
    pub bytes: u8,
}

impl MultiByteChar {
    /// How many more UTF-8 bytes than UTF-16 code units the character takes.
    pub open spec fn utf16_diff(self) -> nat {
        if self.bytes == 4 {
            2
        } else {
            (self.bytes - 1) as nat
        }
    }

    pub fn byte_to_char_diff(&self) -> (r: u8)
        requires
            2 <= self.bytes <= 4,
        ensures
            r == self.utf16_diff(),
    {
        if self.bytes == 4 {
            2
        } else {
            self.bytes - 1
        }
    }
}

/// A character that is not rendered one column wide.
#[derive(Clone, Copy, Debug, PartialEq, Eq, Hash, Structural)]
pub enum NonNarrowChar {
    /// Rendered with no width (control and combining characters).
    ZeroWidth(BytePos),
    /// Rendered with the given number of columns, two or more.
    Wide(BytePos, usize),
    /// A tab, counted as four columns.
    Tab(BytePos),
}

impl NonNarrowChar {
    pub open spec fn spec_pos(&self) -> BytePos {
        match *self {
            NonNarrowChar::ZeroWidth(p) => p,
            NonNarrowChar::Wide(p, _) => p,
            NonNarrowChar::Tab(p) => p,
        }
    }

    pub open spec fn spec_width(&self) -> usize {
        match *self {
            NonNarrowChar::ZeroWidth(_) => 0,
            NonNarrowChar::Wide(_, w) => w,
            NonNarrowChar::Tab(_) => 4,
        }
    }

    #[verifier::when_used_as_spec(spec_pos)]
    pub fn pos(&self) -> (r: BytePos)
        ensures
            r == self.spec_pos(),
    {
        match self {
            NonNarrowChar::ZeroWidth(p) => *p,
            NonNarrowChar::Wide(p, _) => *p,
            NonNarrowChar::Tab(p) => *p,
        }
    }

    #[verifier::when_used_as_spec(spec_width)]
    pub fn width(&self) -> (r: usize)
        ensures
            r == self.spec_width(),
    {
        match self {
            NonNarrowChar::ZeroWidth(_) => 0,
            NonNarrowChar::Wide(_, w) => *w,
            NonNarrowChar::Tab(_) => 4,
        }
    }
}

/// The display width that the Unicode width tables give a character.
pub uninterp spec fn unicode_width_of(c: char) -> Option<usize>;

/// Relies on unicode_width's `UnicodeWidthChar::width`: the column width of a
/// character, `None` for the C0 and C1 control characters, never more than 3.
#[verifier::external_body]
fn char_width(c: char) -> (r: Option<usize>)
    ensures
        r == unicode_width_of(c),
        r is None <==> ((c as u32) < 0x20 || (0x7f <= (c as u32) && (c as u32) < 0xa0)),
        r matches Some(w) ==> w <= 3,
{
    unicode_width::UnicodeWidthChar::width(c)
}

/// The absolute position of the `k`-th character of a file starting at `start`.
pub open spec fn char_start(cs: Seq<char>, start: int, k: int) -> BytePos {
    BytePos((start + byte_offset(cs, k)) as u32)
}

/// The line starts contributed by the first `k` characters: the file start,
/// then the position after each newline.
pub open spec fn line_starts_upto(cs: Seq<char>, start: int, k: int) -> Seq<BytePos>
    decreases k,
{
    if k <= 0 {
        seq![BytePos(start as u32)]
    } else if cs[k - 1] == '\n' {
        line_starts_upto(cs, start, k - 1).push(char_start(cs, start, k))
    } else {
        line_starts_upto(cs, start, k - 1)
    }
}

/// Where each line of the file starts; a line start at the very end of the
/// file (after a final newline, or in an empty file) is not a line.
pub open spec fn line_starts(cs: Seq<char>, start: int) -> Seq<BytePos> {
    let l = line_starts_upto(cs, start, cs.len() as int);
    if l.last().0 == start + byte_len(cs) {
        l.drop_last()
    } else {
        l
    }
}

/// The multi-byte characters among the first `k` characters.
pub open spec fn multibyte_upto(cs: Seq<char>, start: int, k: int) -> Seq<MultiByteChar>
    decreases k,
{
    if k <= 0 {
        seq![]
    } else if utf8_len(cs[k - 1]) > 1 {
        multibyte_upto(cs, start, k - 1).push(
            MultiByteChar { pos: char_start(cs, start, k - 1), bytes: utf8_len(cs[k - 1]) as u8 },
        )
    } else {
        multibyte_upto(cs, start, k - 1)
    }
}

/// The width entry of `c` at `pos`, if it is not one column wide: tabs,
/// other control characters but the newline, and what the width tables say
/// of characters from U+007F on.
pub open spec fn non_narrow_of(c: char, pos: BytePos) -> Option<NonNarrowChar> {
    if (c as u32) < 0x20 {
        if c == '\n' {
            None
        } else if c == '\t' {
            Some(NonNarrowChar::Tab(pos))
        } else {
            Some(NonNarrowChar::ZeroWidth(pos))
        }
    } else if (c as u32) < 0x7f {
        None
    } else {
        let w = match unicode_width_of(c) {
            Some(w) => w,
            None => 0,
        };
        if w == 1 {
            None
        } else if w == 0 {
            Some(NonNarrowChar::ZeroWidth(pos))
        } else {
            Some(NonNarrowChar::Wide(pos, w))
        }
    }
}

/// The non-narrow characters among the first `k` characters.
pub open spec fn non_narrow_upto(cs: Seq<char>, start: int, k: int) -> Seq<NonNarrowChar>
    decreases k,
{
    if k <= 0 {
        seq![]
    } else {
        match non_narrow_of(cs[k - 1], char_start(cs, start, k - 1)) {
            Some(n) => non_narrow_upto(cs, start, k - 1).push(n),
            None => non_narrow_upto(cs, start, k - 1),
        }
    }
}

/// The analysis of a whole file.
pub open spec fn analysis_of(cs: Seq<char>, start: int) -> (Seq<BytePos>, Seq<MultiByteChar>, Seq<NonNarrowChar>) {
    (line_starts(cs, start), multibyte_upto(cs, start, cs.len() as int), non_narrow_upto(cs, start, cs.len() as int))
}

/// Scans the text of a file once and builds its line starts, multi-byte
/// characters and non-narrow characters.
pub fn analyze_source_file(cs: &Vec<char>, start: BytePos) -> (r: (Vec<BytePos>, Vec<MultiByteChar>, Vec<NonNarrowChar>))
    requires
        start.0 + byte_len(cs@) <= u32::MAX,
    ensures
        (r.0@, r.1@, r.2@) == analysis_of(cs@, start.0 as int),
        forall|i: int| 0 <= i < r.2@.len() ==> #[trigger] r.2@[i].spec_width() <= 4,
{
    let mut lines: Vec<BytePos> = Vec::new();
    lines.push(start);
    let mut mbcs: Vec<MultiByteChar> = Vec::new();
    let mut nns: Vec<NonNarrowChar> = Vec::new();
    let mut pos: u32 = start.0;
    let mut i: usize = 0;
    proof {
        lemma_byte_offset_full(cs@);
        assert(cs@.take(0) =~= Seq::<char>::empty());
    }
    while i < cs.len()
        invariant
            i <= cs.len(),
            start.0 + byte_len(cs@) <= u32::MAX,
            byte_offset(cs@, cs.len() as int) == byte_len(cs@),
            pos == start.0 + byte_offset(cs@, i as int),
            lines@ == line_starts_upto(cs@, start.0 as int, i as int),
            lines.len() >= 1,
            mbcs@ == multibyte_upto(cs@, start.0 as int, i as int),
            nns@ == non_narrow_upto(cs@, start.0 as int, i as int),
            forall|j: int| 0 <= j < nns@.len() ==> #[trigger] nns@[j].spec_width() <= 4,
        decreases cs.len() - i,
    {
        let c = cs[i];
        let n = len_utf8(c);
        proof {
            lemma_byte_offset_step(cs@, i as int);
            lemma_byte_offset_mono(cs@, i as int + 1, cs.len() as int);
        }
        let here = BytePos(pos);
        let v = c as u32;
        if v < 0x20 {
            if c == '\n' {
                lines.push(BytePos(pos + 1));
            } else if c == '\t' {
                nns.push(NonNarrowChar::Tab(here));
            } else {
                nns.push(NonNarrowChar::ZeroWidth(here));
            }
        } else if v >= 0x7f {
            if n > 1 {
                mbcs.push(MultiByteChar { pos: here, bytes: n as u8 });
            }
            let w = match char_width(c) {
                Some(w) => w,
                None => 0,
            };
            if w == 0 {
                nns.push(NonNarrowChar::ZeroWidth(here));
            } else if w != 1 {
                nns.push(NonNarrowChar::Wide(here, w));
            }
        }
        pos = pos + n as u32;
        i = i + 1;
    }
    let last = lines[lines.len() - 1];
    if last.0 == pos {
        lines.pop();
    }
    (lines, mbcs, nns)
}

} // verus!
