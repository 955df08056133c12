//! Queries that resolve a byte position to its file, line and column.
use vstd::prelude::*;
use std::rc::Rc;
use crate::pos::{BytePos, CharPos};
use crate::file_name::FileName;
use crate::source_file::{last_line_at_or_before, lemma_last_line_partition, SourceFile};
use crate::source_map::{last_file_at_or_before, SourceMap};
use crate::char_pos::{calc_utf16_offset, lemma_extra_diff, utf16_offset, ByteToCharPosState};
use crate::analysis::NonNarrowChar;

verus! {

/// A position resolved to its file, its line (from 1) and its column.
pub struct Loc {
    pub file: Rc<SourceFile>,
    /// The line, counted from 1; 0 in an empty file.
    pub line: usize,
    /// The column in UTF-16 code units.
    pub col: CharPos,
    /// The column as rendered, counting wide and zero-width characters.
    pub col_display: usize,
}

/// A resolved position with its file name.
pub struct LocWithOpt {
    pub filename: FileName,
    pub line: usize,
    pub col: CharPos,
    pub file: Option<Rc<SourceFile>>,
}

/// A file and a line index in it, from 0.
pub struct SourceFileAndLine {
    pub sf: Rc<SourceFile>,
    pub line: usize,
}

/// A file and a byte offset from its start.
pub struct SourceFileAndBytePos {
    pub sf: Rc<SourceFile>,
    pub pos: BytePos,
}

/// Why a position could not be resolved.
#[derive(Clone, Copy, Debug, PartialEq, Eq, Structural)]
pub enum SourceMapLookupError {
    /// The position is dummy or lies before every file.
    NoFileFor(BytePos),
}

/// Start positions strictly increase along `files`.
pub open spec fn starts_sorted(files: Seq<Rc<SourceFile>>) -> bool {
    forall|i: int, j: int| 0 <= i < j < files.len() ==> files[i].start_pos.0 < files[j].start_pos.0
}

/// The index of the last file among `files` that starts at or before `pos`,
/// or -1; -1 also for the dummy position.
pub open spec fn last_start_index(files: Seq<Rc<SourceFile>>, pos: BytePos) -> int {
    if pos.0 == 0 {
        -1
    } else {
        last_file_at_or_before(files, pos.0 as int, files.len() as int)
    }
}

/// The index of the line of `f` that holds `pos`, or -1.
pub open spec fn line_index_of(f: SourceFile, pos: int) -> int {
    last_line_at_or_before(f.lines@, pos, f.lines@.len() as int)
}

/// Sum of the widths of the non-narrow entries in `[a, b)`.
pub open spec fn width_sum(ns: Seq<NonNarrowChar>, a: int, b: int) -> nat
    decreases b - a,
{
    if b <= a {
        0
    } else {
        width_sum(ns, a, b - 1) + ns[b - 1].spec_width() as nat
    }
}

/// The number of non-narrow entries of `f` before `pos`.
pub open spec fn non_narrow_before(ns: Seq<NonNarrowChar>, pos: int, n: int) -> int
    decreases n,
{
    if n <= 0 {
        0
    } else {
        non_narrow_before(ns, pos, n - 1) + if ns[n - 1].spec_pos().0 < pos {
            1int
        } else {
            0
        }
    }
}

/// The rendered column of `pos`, whose line starts at `line_start` and whose
/// UTF-16 column is `col`: one column per character, corrected by the widths
/// of the non-narrow characters between them.
pub open spec fn display_col(f: SourceFile, line_start: int, pos: int, col: int) -> int {
    let ns = f.non_narrow_chars@;
    let a = non_narrow_before(ns, line_start, ns.len() as int);
    let b = non_narrow_before(ns, pos, ns.len() as int);
    let v = col + width_sum(ns, a, b) - (b - a);
    if v >= 0 {
        v
    } else {
        0
    }
}

/// The location of `pos` in `f`.
pub open spec fn loc_spec(f: SourceFile, pos: int) -> (int, int, int) {
    let a = line_index_of(f, pos);
    if a < 0 {
        let col = utf16_offset(f, pos);
        (0, col, col)
    } else {
        let ls = f.lines@[a].0 as int;
        let col = utf16_offset(f, pos) - utf16_offset(f, ls);
        (a + 1, col, display_col(f, ls, pos, col))
    }
}

/// The count of entries before `key`, in a table ordered by position.
fn non_narrow_partition(ns: &Vec<NonNarrowChar>, key: BytePos) -> (r: usize)
    requires
        forall|i: int, j: int| 0 <= i < j < ns@.len() ==> ns@[i].spec_pos().0 < ns@[j].spec_pos().0,
    ensures
        r <= ns@.len(),
        forall|i: int| 0 <= i < r ==> (#[trigger] ns@[i]).spec_pos().0 < key.0,
        forall|i: int| r <= i < ns@.len() ==> (#[trigger] ns@[i]).spec_pos().0 >= key.0,
        r == non_narrow_before(ns@, key.0 as int, ns@.len() as int),
{
    let mut lo: usize = 0;
    let mut hi: usize = ns.len();
    while lo < hi
        invariant
            lo <= hi <= ns@.len(),
            forall|i: int, j: int| 0 <= i < j < ns@.len() ==> ns@[i].spec_pos().0 < ns@[j].spec_pos().0,
            forall|i: int| 0 <= i < lo ==> (#[trigger] ns@[i]).spec_pos().0 < key.0,
            forall|i: int| hi <= i < ns@.len() ==> (#[trigger] ns@[i]).spec_pos().0 >= key.0,
        decreases hi - lo,
    {
        let mid = lo + (hi - lo) / 2;
        if ns[mid].pos().0 < key.0 {
            lo = mid + 1;
        } else {
            hi = mid;
        }
    }
    proof {
        lemma_non_narrow_before(ns@, key.0 as int, lo as int, ns@.len() as int);
    }
    lo
}

proof fn lemma_non_narrow_before(ns: Seq<NonNarrowChar>, pos: int, p: int, n: int)
    requires
        0 <= p <= n <= ns.len(),
        forall|i: int| 0 <= i < p ==> (#[trigger] ns[i]).spec_pos().0 < pos,
        forall|i: int| p <= i < n ==> (#[trigger] ns[i]).spec_pos().0 >= pos,
    ensures
        non_narrow_before(ns, pos, n) == p,
    decreases n,
{
    if n > 0 {
        if n > p {
            lemma_non_narrow_before(ns, pos, p, n - 1);
        } else {
            lemma_non_narrow_before(ns, pos, p - 1, n - 1);
        }
    }
}

/// In a list ordered by start, the last start at or before `pos` is just
/// before the first start after it.
pub proof fn lemma_last_file_partition(files: Seq<Rc<SourceFile>>, pos: int, p: int, n: int)
    requires
        0 <= p <= n <= files.len(),
        forall|i: int| 0 <= i < p ==> #[trigger] files[i].start_pos.0 <= pos,
        forall|i: int| p <= i < n ==> #[trigger] files[i].start_pos.0 > pos,
    ensures
        last_file_at_or_before(files, pos, n) == p - 1,
    decreases n,
{
    if n > p {
        lemma_last_file_partition(files, pos, p, n - 1);
    }
}

impl SourceMap {
    /// The last file among `files` that starts at or before `pos`, found by
    /// binary search. `None` for the dummy position and when every file
    /// starts after `pos`.
    pub fn lookup_source_file_in(files: &[Rc<SourceFile>], pos: BytePos) -> (r: Option<Rc<SourceFile>>)
        requires
            starts_sorted(files@),
        ensures
            last_start_index(files@, pos) >= 0 ==> r == Some(files@[last_start_index(files@, pos)]),
            last_start_index(files@, pos) < 0 ==> r is None,
            -1 <= last_start_index(files@, pos) < files@.len(),
    {
        if pos.is_dummy() {
            return None;
        }
        let mut lo: usize = 0;
        let mut hi: usize = files.len();
        while lo < hi
            invariant
                lo <= hi <= files@.len(),
                starts_sorted(files@),
                forall|i: int| 0 <= i < lo ==> #[trigger] files@[i].start_pos.0 <= pos.0,
                forall|i: int| hi <= i < files@.len() ==> #[trigger] files@[i].start_pos.0 > pos.0,
            decreases hi - lo,
        {
            let mid = lo + (hi - lo) / 2;
            if files[mid].start_pos.0 <= pos.0 {
                lo = mid + 1;
            } else {
                hi = mid;
            }
        }
        proof {
            lemma_last_file_partition(files@, pos.0 as int, lo as int, files@.len() as int);
        }
        if lo == 0 {
            None
        } else {
            Some(files[lo - 1].clone())
        }
    }

    /// The sorted order of a well-formed map's files.
    pub proof fn lemma_starts_sorted(&self)
        requires
            self.wf(),
        ensures
            starts_sorted(self.files@),
    {
        assert forall|i: int, j: int| 0 <= i < j < self.files@.len() implies self.files@[i].start_pos.0
            < self.files@[j].start_pos.0 by {
            assert(self.files@[i].wf());
        }
    }

    /// A position from the start of a file up to its end, included,
    /// resolves to that file.
    pub proof fn lemma_file_index_of_member(&self, i: int, pos: BytePos)
        requires
            self.wf(),
            0 <= i < self.files@.len(),
            self.files@[i].start_pos.0 <= pos.0 <= self.files@[i].end_pos.0,
        ensures
            self.file_index(pos) == i,
    {
        self.lemma_starts_sorted();
        let files = self.files@;
        assert(files[i].wf());
        assert forall|j: int| i + 1 <= j < files.len() implies #[trigger] files[j].start_pos.0 > pos.0 by {
            assert(files[i].end_pos.0 < files[j].start_pos.0);
        }
        assert forall|j: int| 0 <= j < i + 1 implies #[trigger] files[j].start_pos.0 <= pos.0 by {
            if j < i {
                assert(files[j].start_pos.0 < files[i].start_pos.0);
            }
        }
        lemma_last_file_partition(files, pos.0 as int, i + 1, files.len() as int);
    }

    /// The file that holds `pos`, or `NoFileFor(pos)`.
    pub fn try_lookup_source_file(&self, pos: BytePos) -> (r: Result<Option<Rc<SourceFile>>, SourceMapLookupError>)
        requires
            self.wf(),
        ensures
            self.file_index(pos) >= 0 ==> r == Ok::<Option<Rc<SourceFile>>, SourceMapLookupError>(
                Some(self.files@[self.file_index(pos)]),
            ),
            self.file_index(pos) < 0 ==> r == Err::<Option<Rc<SourceFile>>, SourceMapLookupError>(
                SourceMapLookupError::NoFileFor(pos),
            ),
            -1 <= self.file_index(pos) < self.files@.len(),
    {
        proof {
            self.lemma_starts_sorted();
        }
        match Self::lookup_source_file_in(self.files.as_slice(), pos) {
            Some(f) => {
                if pos.0 <= f.end_pos.0 {
                    Ok(Some(f))
                } else {
                    Err(SourceMapLookupError::NoFileFor(pos))
                }
            },
            None => Err(SourceMapLookupError::NoFileFor(pos)),
        }
    }

    /// The file that holds `pos`, which must have one.
    pub fn lookup_source_file(&self, pos: BytePos) -> (r: Rc<SourceFile>)
        requires
            self.wf(),
            self.file_index(pos) >= 0,
        ensures
            r == self.files@[self.file_index(pos)],
    {
        match self.try_lookup_source_file(pos) {
            Ok(Some(f)) => f,
            _ => {
                assert(false);
                self.files[0].clone()
            },
        }
    }

    /// The file that holds `bpos` and the offset of `bpos` from its start.
    pub fn try_lookup_byte_offset(&self, bpos: BytePos) -> (r: Result<SourceFileAndBytePos, SourceMapLookupError>)
        requires
            self.wf(),
        ensures
            self.file_index(bpos) < 0 ==> r == Err::<SourceFileAndBytePos, SourceMapLookupError>(
                SourceMapLookupError::NoFileFor(bpos),
            ),
            self.file_index(bpos) >= 0 ==> (r matches Ok(v) && v.sf == self.files@[self.file_index(bpos)]
                && v.pos.0 == bpos.0 - v.sf.start_pos.0),
    {
        match self.try_lookup_source_file(bpos) {
            Ok(Some(sf)) => {
                proof {
                    self.lemma_file_index(bpos);
                }
                let offset = BytePos(bpos.0 - sf.start_pos.0);
                Ok(SourceFileAndBytePos { sf, pos: offset })
            },
            _ => Err(SourceMapLookupError::NoFileFor(bpos)),
        }
    }

    /// The file that holds `bpos` and the offset of `bpos` from its start;
    /// `bpos` must lie in a file.
    pub fn lookup_byte_offset(&self, bpos: BytePos) -> (r: SourceFileAndBytePos)
        requires
            self.wf(),
            self.file_index(bpos) >= 0,
        ensures
            r.sf == self.files@[self.file_index(bpos)],
            r.pos.0 == bpos.0 - r.sf.start_pos.0,
    {
        match self.try_lookup_byte_offset(bpos) {
            Ok(v) => v,
            Err(_) => {
                assert(false);
                SourceFileAndBytePos { sf: self.files[0].clone(), pos: bpos }
            },
        }
    }

    /// What the index of the file of `pos` means: that file starts at or
    /// before `pos`, and the next one after it.
    pub proof fn lemma_file_index(&self, pos: BytePos)
        requires
            self.wf(),
        ensures
            -1 <= self.file_index(pos) < self.files@.len(),
            self.file_index(pos) >= 0 ==> self.files@[self.file_index(pos)].start_pos.0 <= pos.0,
            self.file_index(pos) >= 0 && self.file_index(pos) + 1 < self.files@.len() ==> pos.0
                < self.files@[self.file_index(pos) + 1].start_pos.0,
            self.file_index(pos) >= 0 ==> pos.0 <= self.files@[self.file_index(pos)].end_pos.0 && pos.0 != 0,
    {
        self.lemma_starts_sorted();
        let files = self.files@;
        let n = files.len() as int;
        if pos.0 != 0 {
            let p = lemma_partition_point(files, pos.0 as int, n);
            lemma_last_file_partition(files, pos.0 as int, p, n);
        }
    }

    /// The line of `pos` in `f`, or `f` itself when it has none there.
    pub fn lookup_line_with(&self, f: Rc<SourceFile>, pos: BytePos) -> (r: Result<SourceFileAndLine, Rc<SourceFile>>)
        requires
            f.wf(),
        ensures
            line_index_of(*f, pos.0 as int) >= 0 ==> (r matches Ok(v) && v.sf == f && v.line
                == line_index_of(*f, pos.0 as int)),
            line_index_of(*f, pos.0 as int) < 0 ==> r == Err::<SourceFileAndLine, Rc<SourceFile>>(f),
    {
        proof {
            f.lemma_lines();
        }
        match f.lookup_line(pos) {
            Some(line) => {
                proof {
                    lemma_line_index(&*f, pos.0 as int);
                }
                Ok(SourceFileAndLine { sf: f, line })
            },
            None => {
                proof {
                    lemma_line_index(&*f, pos.0 as int);
                }
                Err(f)
            },
        }
    }

    /// The line of `pos`, whose file must exist.
    pub fn lookup_line(&self, pos: BytePos) -> (r: Result<SourceFileAndLine, Rc<SourceFile>>)
        requires
            self.wf(),
            self.file_index(pos) >= 0,
        ensures
            ({
                let f = self.files@[self.file_index(pos)];
                &&& line_index_of(*f, pos.0 as int) >= 0 ==> (r matches Ok(v) && v.sf == f && v.line
                    == line_index_of(*f, pos.0 as int))
                &&& line_index_of(*f, pos.0 as int) < 0 ==> r == Err::<SourceFileAndLine, Rc<SourceFile>>(f)
            }),
    {
        let f = self.lookup_source_file(pos);
        proof {
            self.lemma_file_index(pos);
            assert(self.files@[self.file_index(pos)].wf());
        }
        self.lookup_line_with(f, pos)
    }

    /// The UTF-16 offset of `bpos` from the start of `map`.
    pub fn bytepos_to_file_charpos_with(&self, map: &SourceFile, bpos: BytePos) -> (r: CharPos)
        requires
            map.wf(),
            map.start_pos.0 <= bpos.0,
            map.is_boundary(bpos.0 as int),
        ensures
            r.0 == utf16_offset(*map, bpos.0 as int),
    {
        let mut state = ByteToCharPosState::default();
        proof {
            state.lemma_fresh_valid(map);
            lemma_extra_diff(map, map.start_pos.0 as int, bpos.0 as int);
        }
        let total_extra_bytes = calc_utf16_offset(map, bpos, &mut state);
        CharPos((bpos.0 - map.start_pos.0 - total_extra_bytes) as usize)
    }

    /// The UTF-16 offset of `bpos` from the start of its file.
    pub fn bytepos_to_file_charpos(&self, bpos: BytePos) -> (r: Result<CharPos, SourceMapLookupError>)
        requires
            self.wf(),
            self.file_index(bpos) >= 0 ==> self.files@[self.file_index(bpos)].is_boundary(bpos.0 as int),
        ensures
            self.file_index(bpos) < 0 ==> r == Err::<CharPos, SourceMapLookupError>(
                SourceMapLookupError::NoFileFor(bpos),
            ),
            self.file_index(bpos) >= 0 ==> (r matches Ok(c) && c.0 == utf16_offset(
                *self.files@[self.file_index(bpos)],
                bpos.0 as int,
            )),
    {
        match self.try_lookup_source_file(bpos) {
            Ok(Some(map)) => {
                proof {
                    self.lemma_file_index(bpos);
                    assert(self.files@[self.file_index(bpos)].wf());
                }
                Ok(self.bytepos_to_file_charpos_with(&map, bpos))
            },
            _ => Err(SourceMapLookupError::NoFileFor(bpos)),
        }
    }
}

/// `v`, or `usize::MAX` when it is larger.
pub open spec fn cap_usize(v: int) -> int {
    if v <= usize::MAX {
        v
    } else {
        usize::MAX as int
    }
}

proof fn lemma_width_sum_bound(ns: Seq<NonNarrowChar>, a: int, b: int)
    requires
        0 <= a <= b <= ns.len(),
        forall|i: int| 0 <= i < ns.len() ==> #[trigger] ns[i].spec_width() <= 4,
    ensures
        width_sum(ns, a, b) <= 4 * (b - a),
    decreases b - a,
{
    if a < b {
        lemma_width_sum_bound(ns, a, b - 1);
    }
}

impl SourceMap {
    /// The location of `pos` in `fm`: its line (from 1, or 0 in an empty
    /// file), its UTF-16 column, and its rendered column.
    pub fn try_lookup_char_pos_with(&self, fm: Rc<SourceFile>, pos: BytePos) -> (r: Result<Loc, SourceMapLookupError>)
        requires
            fm.wf(),
            fm.start_pos.0 <= pos.0,
            fm.is_boundary(pos.0 as int),
        ensures
            r matches Ok(loc) && loc.file == fm && loc.line == loc_spec(*fm, pos.0 as int).0 && loc.col.0
                == loc_spec(*fm, pos.0 as int).1 && loc.col_display == cap_usize(loc_spec(*fm, pos.0 as int).2),
    {
        proof {
            fm.lemma_lines();
            fm.lemma_non_narrow();
            lemma_line_index(&*fm, pos.0 as int);
        }
        match self.lookup_line_with(fm, pos) {
            Ok(SourceFileAndLine { sf: f, line: a }) => {
                let chpos = self.bytepos_to_file_charpos_with(&f, pos);
                let linebpos = f.lines[a];
                proof {
                    assert(f.lines@[0] == f.start_pos);
                    assert(f.is_boundary(f.lines@[a as int].0 as int));
                    lemma_extra_diff(&*f, linebpos.0 as int, pos.0 as int);
                }
                let linechpos = self.bytepos_to_file_charpos_with(&f, linebpos);
                let col = CharPos(chpos.0 - linechpos.0);
                let ns = &f.non_narrow_chars;
                let start_width_idx = non_narrow_partition(ns, linebpos);
                let end_width_idx = non_narrow_partition(ns, pos);
                proof {
                    if start_width_idx > end_width_idx {
                        assert(ns@[end_width_idx as int].spec_pos().0 >= pos.0);
                        assert(ns@[end_width_idx as int].spec_pos().0 < linebpos.0);
                    }
                    crate::text::lemma_byte_offset_mono(f.src@, 0, f.src@.len() as int);
                    crate::text::lemma_byte_offset_full(f.src@);
                    assert(f.src@.take(0) =~= Seq::<char>::empty());
                }
                let mut non_narrow: u64 = 0;
                let mut i: usize = start_width_idx;
                while i < end_width_idx
                    invariant
                        start_width_idx <= i <= end_width_idx <= ns@.len() <= u32::MAX,
                        forall|k: int| 0 <= k < ns@.len() ==> #[trigger] ns@[k].spec_width() <= 4,
                        non_narrow == width_sum(ns@, start_width_idx as int, i as int),
                    decreases end_width_idx - i,
                {
                    proof {
                        lemma_width_sum_bound(ns@, start_width_idx as int, i as int);
                    }
                    non_narrow = non_narrow + ns[i].width() as u64;
                    i = i + 1;
                }
                proof {
                    lemma_width_sum_bound(ns@, start_width_idx as int, end_width_idx as int);
                }
                let nlines = f.lines.len();
                assert(a < nlines);
                let special_chars = (end_width_idx - start_width_idx) as u64;
                let v: u64 = col.0 as u64 + non_narrow;
                let shown: u64 = if v >= special_chars { v - special_chars } else { 0 };
                let col_display: usize = if shown <= usize::MAX as u64 { shown as usize } else { usize::MAX };
                Ok(Loc { file: f, line: a + 1, col, col_display })
            },
            Err(f) => {
                let chpos = self.bytepos_to_file_charpos_with(&f, pos);
                Ok(Loc { file: f, line: 0, col: chpos, col_display: chpos.0 })
            },
        }
    }

    /// The location of `pos` in `fm`.
    pub fn lookup_char_pos_with(&self, fm: Rc<SourceFile>, pos: BytePos) -> (r: Loc)
        requires
            fm.wf(),
            fm.start_pos.0 <= pos.0,
            fm.is_boundary(pos.0 as int),
        ensures
            r.file == fm,
            r.line == loc_spec(*fm, pos.0 as int).0,
            r.col.0 == loc_spec(*fm, pos.0 as int).1,
            r.col_display == cap_usize(loc_spec(*fm, pos.0 as int).2),
    {
        match self.try_lookup_char_pos_with(fm, pos) {
            Ok(loc) => loc,
            Err(_) => {
                assert(false);
                Loc { file: self.files[0].clone(), line: 0, col: CharPos(0), col_display: 0 }
            },
        }
    }

    /// The location of `pos`, or `NoFileFor(pos)` when no file holds it.
    pub fn try_lookup_char_pos(&self, pos: BytePos) -> (r: Result<Loc, SourceMapLookupError>)
        requires
            self.wf(),
            self.file_index(pos) >= 0 ==> self.files@[self.file_index(pos)].is_boundary(pos.0 as int),
        ensures
            self.file_index(pos) < 0 ==> r == Err::<Loc, SourceMapLookupError>(SourceMapLookupError::NoFileFor(pos)),
            self.file_index(pos) >= 0 ==> (r matches Ok(loc) && loc.file == self.files@[self.file_index(pos)]
                && loc.line == loc_spec(*loc.file, pos.0 as int).0 && loc.col.0 == loc_spec(*loc.file, pos.0 as int).1
                && loc.col_display == cap_usize(loc_spec(*loc.file, pos.0 as int).2)),
    {
        match self.try_lookup_source_file(pos) {
            Ok(Some(fm)) => {
                proof {
                    self.lemma_file_index(pos);
                    assert(self.files@[self.file_index(pos)].wf());
                }
                self.try_lookup_char_pos_with(fm, pos)
            },
            _ => Err(SourceMapLookupError::NoFileFor(pos)),
        }
    }

    /// The location of `pos`, which must lie in a file.
    pub fn lookup_char_pos(&self, pos: BytePos) -> (r: Loc)
        requires
            self.wf(),
            self.file_index(pos) >= 0,
            self.files@[self.file_index(pos)].is_boundary(pos.0 as int),
        ensures
            r.file == self.files@[self.file_index(pos)],
            r.line == loc_spec(*r.file, pos.0 as int).0,
            r.col.0 == loc_spec(*r.file, pos.0 as int).1,
            r.col_display == cap_usize(loc_spec(*r.file, pos.0 as int).2),
    {
        match self.try_lookup_char_pos(pos) {
            Ok(loc) => loc,
            Err(_) => {
                assert(false);
                Loc { file: self.files[0].clone(), line: 0, col: CharPos(0), col_display: 0 }
            },
        }
    }

    /// The location of `pos` with the name of its file.
    pub fn lookup_char_pos_adj(&self, pos: BytePos) -> (r: LocWithOpt)
        requires
            self.wf(),
            self.file_index(pos) >= 0,
            self.files@[self.file_index(pos)].is_boundary(pos.0 as int),
        ensures
            r.file == Some(self.files@[self.file_index(pos)]),
            r.filename@ == self.files@[self.file_index(pos)].name@,
            r.line == loc_spec(*self.files@[self.file_index(pos)], pos.0 as int).0,
            r.col.0 == loc_spec(*self.files@[self.file_index(pos)], pos.0 as int).1,
    {
        let loc = self.lookup_char_pos(pos);
        LocWithOpt { filename: loc.file.name.duplicate(), line: loc.line, col: loc.col, file: Some(loc.file) }
    }
}

/// The count of files that start at or before `pos`, in a sorted list.
proof fn lemma_partition_point(files: Seq<Rc<SourceFile>>, pos: int, n: int) -> (p: int)
    requires
        starts_sorted(files),
        0 <= n <= files.len(),
    ensures
        0 <= p <= n,
        forall|i: int| 0 <= i < p ==> #[trigger] files[i].start_pos.0 <= pos,
        forall|i: int| p <= i < n ==> #[trigger] files[i].start_pos.0 > pos,
    decreases n,
{
    if n == 0 {
        0
    } else {
        let p = lemma_partition_point(files, pos, n - 1);
        if files[n - 1].start_pos.0 <= pos {
            n
        } else {
            p
        }
    }
}

/// What the line index of `pos` means.
pub proof fn lemma_line_index(f: &SourceFile, pos: int)
    requires
        f.wf(),
    ensures
        -1 <= line_index_of(*f, pos) < f.lines@.len(),
        line_index_of(*f, pos) >= 0 ==> f.lines@[line_index_of(*f, pos)].0 <= pos,
        line_index_of(*f, pos) >= 0 && line_index_of(*f, pos) + 1 < f.lines@.len() ==> pos
            < f.lines@[line_index_of(*f, pos) + 1].0,
        line_index_of(*f, pos) < 0 <==> (f.lines@.len() == 0 || pos < f.lines@[0].0),
{
    f.lemma_lines();
    let l = f.lines@;
    let p = lemma_line_partition_point(l, pos, l.len() as int);
    lemma_last_line_partition(l, pos, p, l.len() as int);
}

proof fn lemma_line_partition_point(l: Seq<BytePos>, pos: int, n: int) -> (p: int)
    requires
        crate::source_file::strictly_sorted(l),
        0 <= n <= l.len(),
    ensures
        0 <= p <= n,
        forall|i: int| 0 <= i < p ==> #[trigger] l[i].0 <= pos,
        forall|i: int| p <= i < n ==> #[trigger] l[i].0 > pos,
    decreases n,
{
    if n == 0 {
        0
    } else {
        let p = lemma_line_partition_point(l, pos, n - 1);
        if l[n - 1].0 <= pos {
            n
        } else {
            p
        }
    }
}


/// A source of files for position lookups: a source map, or a wrapper that
/// stores positions in another form.
pub trait Files {
    /// The lookups of this source can be asked.
    spec fn files_ready(&self) -> bool;

    /// The position that `raw_pos`, as stored, stands for; by default itself.
    fn map_raw_pos(&self, raw_pos: BytePos) -> BytePos {
        raw_pos
    }

    /// Whether `raw_pos` lies in `f`; by default whether it lies in
    /// `[start_pos, end_pos)`.
    fn is_in_file(&self, f: &SourceFile, raw_pos: BytePos) -> bool {
        f.start_pos.0 <= raw_pos.0 && raw_pos.0 < f.end_pos.0
    }

    /// The file that holds `raw_pos`, or `NoFileFor`.
    fn try_lookup_source_file(&self, raw_pos: BytePos) -> Result<Option<Rc<SourceFile>>, SourceMapLookupError>
        requires
            self.files_ready(),
    ;
}

impl Files for SourceMap {
    open spec fn files_ready(&self) -> bool {
        self.wf()
    }

    fn try_lookup_source_file(&self, raw_pos: BytePos) -> Result<Option<Rc<SourceFile>>, SourceMapLookupError> {
        SourceMap::try_lookup_source_file(self, raw_pos)
    }
}

} // verus!
