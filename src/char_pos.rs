//! Conversions from byte positions to character and UTF-16 offsets, with a
//! cursor that makes a run of nearby queries cheap.
use vstd::prelude::*;
use crate::pos::BytePos;
use crate::analysis::MultiByteChar;
use crate::source_file::{multibyte_ordered, SourceFile};

verus! {

/// Sum of the UTF-16 differences of the first `k` entries.
pub open spec fn diff_sum(ms: Seq<MultiByteChar>, k: int) -> nat
    decreases k,
{
    if k <= 0 {
        0
    } else {
        diff_sum(ms, k - 1) + ms[k - 1].utf16_diff()
    }
}

/// Sum of the UTF-16 differences of those of the first `n` entries that
/// start before `b`.
pub open spec fn extra_before(ms: Seq<MultiByteChar>, n: int, b: int) -> nat
    decreases n,
{
    if n <= 0 {
        0
    } else {
        extra_before(ms, n - 1, b) + if ms[n - 1].pos.0 < b {
            ms[n - 1].utf16_diff()
        } else {
            0
        }
    }
}

/// How many more UTF-8 bytes than UTF-16 code units the text of `f` takes
/// before position `b`.
pub open spec fn utf16_extra(f: SourceFile, b: int) -> nat {
    extra_before(f.multibyte_chars@, f.multibyte_chars@.len() as int, b)
}

/// The UTF-16 offset of position `b` from the start of `f`.
pub open spec fn utf16_offset(f: SourceFile, b: int) -> int {
    b - f.start_pos.0 - utf16_extra(f, b)
}

pub proof fn lemma_extra_all_before(ms: Seq<MultiByteChar>, k: int, b: int)
    requires
        0 <= k <= ms.len(),
        forall|j: int| 0 <= j < k ==> #[trigger] ms[j].pos.0 < b,
    ensures
        extra_before(ms, k, b) == diff_sum(ms, k),
    decreases k,
{
    if k > 0 {
        lemma_extra_all_before(ms, k - 1, b);
    }
}

pub proof fn lemma_extra_rest_after(ms: Seq<MultiByteChar>, k: int, n: int, b: int)
    requires
        0 <= k <= n <= ms.len(),
        forall|j: int| k <= j < n ==> #[trigger] ms[j].pos.0 >= b,
    ensures
        extra_before(ms, n, b) == extra_before(ms, k, b),
    decreases n - k,
{
    if n > k {
        lemma_extra_rest_after(ms, k, n - 1, b);
    }
}

/// The differences of a run of entries are fewer than the bytes the run spans.
pub proof fn lemma_diff_sum_range(ms: Seq<MultiByteChar>, i: int, k: int)
    requires
        multibyte_ordered(ms),
        0 <= i < k <= ms.len(),
    ensures
        diff_sum(ms, k) - diff_sum(ms, i) + (k - i) <= ms[k - 1].pos.0 + ms[k - 1].bytes - ms[i].pos.0,
    decreases k - i,
{
    assert(2 <= ms[k - 1].bytes <= 4);
    if k - 1 > i {
        lemma_diff_sum_range(ms, i, k - 1);
        assert(ms[k - 2].pos.0 + ms[k - 2].bytes <= ms[k - 1].pos.0);
    }
}

/// In an ordered table, the entries before `b` come first.
pub proof fn lemma_split(ms: Seq<MultiByteChar>, n: int, b: int) -> (c: int)
    requires
        multibyte_ordered(ms),
        0 <= n <= ms.len(),
    ensures
        0 <= c <= n,
        forall|j: int| 0 <= j < c ==> #[trigger] ms[j].pos.0 < b,
        forall|j: int| c <= j < n ==> #[trigger] ms[j].pos.0 >= b,
    decreases n,
{
    if n == 0 {
        0
    } else {
        let c = lemma_split(ms, n - 1, b);
        if ms[n - 1].pos.0 < b {
            assert forall|j: int| 0 <= j < n implies #[trigger] ms[j].pos.0 < b by {
                if j < n - 1 {
                    assert(ms[j].pos.0 + ms[j].bytes <= ms[n - 1].pos.0);
                }
            }
            n
        } else {
            c
        }
    }
}

/// Between two positions of a file, the second of which is no position
/// inside a character, the UTF-8 surplus grows by at most the bytes between
/// them: UTF-16 offsets never decrease.
pub proof fn lemma_extra_diff(f: &SourceFile, b1: int, b2: int)
    requires
        f.wf(),
        f.start_pos.0 <= b1 <= b2,
        f.is_boundary(b2),
    ensures
        utf16_extra(*f, b1) <= utf16_extra(*f, b2),
        utf16_extra(*f, b2) - utf16_extra(*f, b1) <= b2 - b1,
        utf16_extra(*f, f.start_pos.0 as int) == 0,
        utf16_offset(*f, b1) <= utf16_offset(*f, b2),
        0 <= utf16_offset(*f, b2),
{
    f.lemma_multibyte();
    let ms = f.multibyte_chars@;
    let n = ms.len() as int;
    let c1 = lemma_split(ms, n, b1);
    let c2 = lemma_split(ms, n, b2);
    let c0 = lemma_split(ms, n, f.start_pos.0 as int);
    assert(c0 == 0) by {
        if c0 > 0 {
            assert(ms[0].pos.0 < f.start_pos.0);
        }
    }
    lemma_extra_all_before(ms, c0, f.start_pos.0 as int);
    lemma_extra_rest_after(ms, c0, n, f.start_pos.0 as int);
    lemma_extra_all_before(ms, c1, b1);
    lemma_extra_rest_after(ms, c1, n, b1);
    lemma_extra_all_before(ms, c2, b2);
    lemma_extra_rest_after(ms, c2, n, b2);
    assert(c1 <= c2) by {
        if c1 > c2 {
            assert(ms[c2].pos.0 >= b2);
            assert(ms[c2].pos.0 < b1);
        }
    }
    lemma_diff_sum_mono(ms, c1, c2);
    if c1 < c2 {
        lemma_diff_sum_range(ms, c1, c2);
        assert(ms[c2 - 1].pos.0 < b2);
        assert(ms[c2 - 1].pos.0 + ms[c2 - 1].bytes <= b2);
    }
    if c2 > 0 {
        lemma_diff_sum_range(ms, 0, c2);
        assert(ms[c2 - 1].pos.0 + ms[c2 - 1].bytes <= b2);
    }
}

pub proof fn lemma_diff_sum_mono(ms: Seq<MultiByteChar>, i: int, k: int)
    requires
        0 <= i <= k <= ms.len(),
    ensures
        diff_sum(ms, i) <= diff_sum(ms, k),
    decreases k - i,
{
    if k > i {
        lemma_diff_sum_mono(ms, i, k - 1);
    }
}

/// The state of the last conversion: a cursor into a file's multi-byte
/// table.
#[derive(Clone, Copy, Debug)]
pub struct ByteToCharPosState {
    /// The last position converted.
    pub pos: BytePos,
    /// The sum of the differences of the entries before `pos`.
    pub total_extra_bytes: u32,
    /// The number of entries before `pos`.
    pub mbc_index: usize,
}

impl ByteToCharPosState {
    /// The cursor describes a point of `f`'s multi-byte table.
    pub open spec fn valid_for(&self, f: SourceFile) -> bool {
        let ms = f.multibyte_chars@;
        &&& self.mbc_index <= ms.len()
        &&& forall|j: int| 0 <= j < self.mbc_index ==> #[trigger] ms[j].pos.0 < self.pos.0
        &&& forall|j: int| self.mbc_index <= j < ms.len() ==> #[trigger] ms[j].pos.0 >= self.pos.0
        &&& self.total_extra_bytes == diff_sum(ms, self.mbc_index as int)
    }

    /// A cursor at the dummy position, valid for every file.
    pub open spec fn is_fresh(&self) -> bool {
        self.pos.0 == 0 && self.total_extra_bytes == 0 && self.mbc_index == 0
    }

    pub proof fn lemma_fresh_valid(&self, f: &SourceFile)
        requires
            self.is_fresh(),
        ensures
            self.valid_for(*f),
    {
    }
}

impl Default for ByteToCharPosState {
    fn default() -> (r: ByteToCharPosState)
        ensures
            r.is_fresh(),
    {
        ByteToCharPosState { pos: BytePos(0), total_extra_bytes: 0, mbc_index: 0 }
    }
}

/// The number of UTF-8 bytes beyond UTF-16 code units in the text of `file`
/// before `bpos`, found by moving the cursor `state` forward or backward from
/// where the last query left it.
pub fn calc_utf16_offset(file: &SourceFile, bpos: BytePos, state: &mut ByteToCharPosState) -> (r: u32)
    requires
        file.wf(),
        old(state).valid_for(*file),
    ensures
        r == utf16_extra(*file, bpos.0 as int),
        final(state).valid_for(*file),
        final(state).pos == bpos,
        final(state).total_extra_bytes == r,
{
    proof {
        file.lemma_multibyte();
    }
    let ghost ms = file.multibyte_chars@;
    let n = file.multibyte_chars.len();
    let mut total_extra_bytes = state.total_extra_bytes;
    let mut index = state.mbc_index;
    if bpos.0 >= state.pos.0 {
        while index < n && file.multibyte_chars[index].pos.0 < bpos.0
            invariant
                file.wf(),
                ms == file.multibyte_chars@,
                n == ms.len(),
                multibyte_ordered(ms),
                forall|i: int| 0 <= i < ms.len() ==> #[trigger] ms[i].pos.0 + ms[i].bytes <= file.end_pos.0,
                index <= n,
                forall|j: int| 0 <= j < index ==> #[trigger] ms[j].pos.0 < bpos.0,
                forall|j: int| index <= j < n ==> #[trigger] ms[j].pos.0 >= state.pos.0,
                total_extra_bytes == diff_sum(ms, index as int),
            decreases n - index,
        {
            proof {
                lemma_diff_sum_range(ms, 0, index as int + 1);
            }
            let mbc = &file.multibyte_chars[index];
            total_extra_bytes = total_extra_bytes + mbc.byte_to_char_diff() as u32;
            index = index + 1;
        }
        proof {
            assert forall|j: int| index <= j < n implies #[trigger] ms[j].pos.0 >= bpos.0 by {
                if j > index {
                    assert(ms[index as int].pos.0 + ms[index as int].bytes <= ms[j].pos.0);
                }
            }
        }
    } else {
        while index > 0 && file.multibyte_chars[index - 1].pos.0 >= bpos.0
            invariant
                file.wf(),
                ms == file.multibyte_chars@,
                n == ms.len(),
                multibyte_ordered(ms),
                index <= n,
                forall|j: int| 0 <= j < index ==> #[trigger] ms[j].pos.0 < state.pos.0,
                forall|j: int| index <= j < n ==> #[trigger] ms[j].pos.0 >= bpos.0,
                total_extra_bytes == diff_sum(ms, index as int),
            decreases index,
        {
            let mbc = &file.multibyte_chars[index - 1];
            total_extra_bytes = total_extra_bytes - mbc.byte_to_char_diff() as u32;
            index = index - 1;
        }
        proof {
            assert forall|j: int| 0 <= j < index implies #[trigger] ms[j].pos.0 < bpos.0 by {
                if j < index - 1 {
                    assert(ms[j].pos.0 + ms[j].bytes <= ms[index - 1].pos.0);
                }
            }
        }
    }
    proof {
        lemma_extra_all_before(ms, index as int, bpos.0 as int);
        lemma_extra_rest_after(ms, index as int, n as int, bpos.0 as int);
    }
    state.pos = bpos;
    state.total_extra_bytes = total_extra_bytes;
    state.mbc_index = index;
    total_extra_bytes
}


/// The UTF-16 offset, from the start of `f`, of the `k`-th multi-byte
/// character.
pub open spec fn mbc_utf16_pos(f: SourceFile, k: int) -> int {
    f.multibyte_chars@[k].pos.0 - f.start_pos.0 - diff_sum(f.multibyte_chars@, k)
}

/// How many of the first `n` multi-byte characters of `f` start before the
/// UTF-16 offset `c`.
pub open spec fn count_before_utf16(f: SourceFile, c: int, n: int) -> int
    decreases n,
{
    if n <= 0 {
        0
    } else {
        count_before_utf16(f, c, n - 1) + if mbc_utf16_pos(f, n - 1) < c {
            1int
        } else {
            0
        }
    }
}

/// The position of `f` whose UTF-16 offset from the start is `c`.
pub open spec fn bytepos_of_utf16(f: SourceFile, c: int) -> int {
    let p = count_before_utf16(f, c, f.multibyte_chars@.len() as int);
    f.start_pos.0 + c + diff_sum(f.multibyte_chars@, p)
}

proof fn lemma_count_prefix(f: SourceFile, c: int, p: int, n: int)
    requires
        0 <= p <= n <= f.multibyte_chars@.len(),
        forall|k: int| 0 <= k < p ==> mbc_utf16_pos(f, k) < c,
        forall|k: int| p <= k < n ==> mbc_utf16_pos(f, k) >= c,
    ensures
        count_before_utf16(f, c, n) == p,
    decreases n,
{
    if n > p {
        lemma_count_prefix(f, c, p, n - 1);
    } else if n > 0 {
        lemma_count_prefix(f, c, p - 1, n - 1);
    }
}

/// Converting a position that starts a character to its UTF-16 offset and
/// back gives the position again.
pub proof fn lemma_utf16_round_trip(f: &SourceFile, b: int)
    requires
        f.wf(),
        f.start_pos.0 <= b,
        f.is_boundary(b),
    ensures
        bytepos_of_utf16(*f, utf16_offset(*f, b)) == b,
{
    f.lemma_multibyte();
    let ms = f.multibyte_chars@;
    let n = ms.len() as int;
    let p = lemma_split(ms, n, b);
    lemma_extra_all_before(ms, p, b);
    lemma_extra_rest_after(ms, p, n, b);
    let c = utf16_offset(*f, b);
    assert(c == b - f.start_pos.0 - diff_sum(ms, p));
    assert forall|k: int| 0 <= k < p implies mbc_utf16_pos(*f, k) < c by {
        lemma_diff_sum_range(ms, k, p);
        assert(ms[p - 1].pos.0 < b);
    }
    assert forall|k: int| p <= k < n implies mbc_utf16_pos(*f, k) >= c by {
        if k > p {
            lemma_diff_sum_range(ms, p, k);
            assert(ms[k - 1].pos.0 + ms[k - 1].bytes <= ms[k].pos.0);
        }
        assert(ms[k].pos.0 >= b);
        lemma_diff_sum_mono(ms, p, k);
    }
    lemma_count_prefix(*f, c, p, n);
}

/// The position of `file` whose UTF-16 offset from its start is `chpos`.
pub fn charpos_to_bytepos(file: &SourceFile, chpos: usize) -> (r: BytePos)
    requires
        file.wf(),
        file.start_pos.0 + chpos + diff_sum(file.multibyte_chars@, file.multibyte_chars@.len() as int) <= u32::MAX,
    ensures
        r.0 == bytepos_of_utf16(*file, chpos as int),
{
    proof {
        file.lemma_multibyte();
    }
    let ghost ms = file.multibyte_chars@;
    let n = file.multibyte_chars.len();
    let mut idx: usize = 0;
    let mut extra: u32 = 0;
    proof {
        lemma_diff_sum_mono(ms, 0, n as int);
        assert forall|k: int| 0 <= k < n implies diff_sum(ms, k) <= (#[trigger] ms[k]).pos.0 - file.start_pos.0 by {
            if k > 0 {
                lemma_diff_sum_range(ms, 0, k);
                assert(ms[k - 1].pos.0 + ms[k - 1].bytes <= ms[k].pos.0);
            }
        }
    }
    while idx < n && (file.multibyte_chars[idx].pos.0 - file.start_pos.0 - extra) < chpos as u32
        invariant
            file.wf(),
            ms == file.multibyte_chars@,
            n == ms.len(),
            multibyte_ordered(ms),
            forall|i: int| 0 <= i < ms.len() ==> file.start_pos.0 <= (#[trigger] ms[i]).pos.0 && ms[i].pos.0 + ms[i].bytes <= file.end_pos.0,
            file.start_pos.0 + chpos + diff_sum(ms, n as int) <= u32::MAX,
            idx <= n,
            extra == diff_sum(ms, idx as int),
            forall|k: int| 0 <= k < idx ==> mbc_utf16_pos(*file, k) < chpos,
            forall|k: int| 0 <= k < n ==> diff_sum(ms, k) <= (#[trigger] ms[k]).pos.0 - file.start_pos.0,
        decreases n - idx,
    {
        proof {
            lemma_diff_sum_range(ms, 0, idx as int + 1);
            lemma_diff_sum_mono(ms, idx as int + 1, n as int);
        }
        extra = extra + file.multibyte_chars[idx].byte_to_char_diff() as u32;
        idx = idx + 1;
    }
    proof {
        if idx < n {
            if idx > 0 {
                lemma_diff_sum_range(ms, 0, idx as int);
            }
            assert forall|k: int| idx <= k < n implies mbc_utf16_pos(*file, k) >= chpos by {
                if k > idx {
                    lemma_diff_sum_range(ms, idx as int, k);
                    assert(ms[k - 1].pos.0 + ms[k - 1].bytes <= ms[k].pos.0);
                }
            }
        }
        lemma_count_prefix(*file, chpos as int, idx as int, n as int);
        lemma_diff_sum_mono(ms, idx as int, n as int);
    }
    BytePos(file.start_pos.0 + chpos as u32 + extra)
}
} // verus!
