//! Span queries by line: merging, multi-line tests, and the lines a span
//! covers.
use vstd::prelude::*;
use std::rc::Rc;
use crate::pos::{BytePos, CharPos, Span};
use crate::source_file::{char_index_for, line_text, SourceFile};
use crate::source_map::SourceMap;
use crate::lookup::{lemma_line_index, line_index_of, loc_spec};
use crate::snippet::{DistinctSources, FilePos};
use crate::lookup::SourceMapLookupError;

verus! {

/// One line that a span covers, with the columns it covers on it.
#[derive(Clone, Copy, Debug, PartialEq, Eq, Structural)]
pub struct LineInfo {
    /// The index of the line, from 0.
    pub line_index: usize,
    /// The first column covered.
    pub start_col: CharPos,
    /// The column after the last one covered.
    pub end_col: CharPos,
}

/// The lines a span covers, in its file.
pub struct FileLines {
    pub file: Rc<SourceFile>,
    pub lines: Vec<LineInfo>,
}

/// Why the lines of a span could not be found.
#[derive(Debug, PartialEq)]
pub enum SpanLinesError {
    IllFormedSpan(Span),
    DistinctSources(DistinctSources),
    /// An end is dummy or lies outside every file.
    LookupFailed(SourceMapLookupError),
}

/// Both ends of `a` and of `b` lie in one file, `a` ends on the line where
/// `b` begins, and `a` comes first without overlapping `b`.
pub open spec fn mergeable(sm: SourceMap, a: Span, b: Span) -> bool {
    let i = sm.file_index(a.lo);
    let f = *sm.files@[i];
    &&& i >= 0
    &&& sm.file_index(a.hi) == i
    &&& sm.file_index(b.lo) == i
    &&& sm.file_index(b.hi) == i
    &&& line_index_of(f, a.hi.0 as int) >= 0
    &&& line_index_of(f, a.hi.0 as int) == line_index_of(f, b.lo.0 as int)
    &&& a.lo.0 <= b.lo.0
    &&& a.hi.0 <= b.lo.0
}

/// Both ends of `sp` lie in files, and not inside a character.
pub open spec fn locatable(sm: SourceMap, p: BytePos) -> bool {
    sm.file_index(p) >= 0 && sm.files@[sm.file_index(p)].is_boundary(p.0 as int)
}

/// `p`, when it lies in a file, does not fall inside a character there.
pub open spec fn on_boundary_if_located(sm: SourceMap, p: BytePos) -> bool {
    sm.file_index(p) >= 0 ==> sm.files@[sm.file_index(p)].is_boundary(p.0 as int)
}

/// The number of characters of line `idx` of `f`.
pub open spec fn line_char_len(f: SourceFile, idx: int) -> int {
    line_text(f.src@, char_index_for(f.src@, f.lines@[idx].0 - f.start_pos.0)).len() as int
}

/// The `t`-th line of a span that begins on line `a` at column `lo_col`
/// and ends on line `b` at column `hi_col`.
pub open spec fn line_info_at(f: SourceFile, a: int, b: int, lo_col: int, hi_col: int, t: int) -> LineInfo {
    let idx = a + t;
    LineInfo {
        line_index: idx as usize,
        start_col: CharPos(if t == 0 { lo_col as usize } else { 0 }),
        end_col: CharPos(if idx == b { hi_col as usize } else { line_char_len(f, idx) as usize }),
    }
}

impl SourceMap {
    /// The union of `sp_lhs` and `sp_rhs`, when they can be merged.
    pub fn merge_spans(&self, sp_lhs: Span, sp_rhs: Span) -> (r: Option<Span>)
        requires
            self.wf(),
        ensures
            mergeable(*self, sp_lhs, sp_rhs) ==> r == Some(sp_lhs.to_spec(sp_rhs)),
            !mergeable(*self, sp_lhs, sp_rhs) ==> r is None,
    {
        let f = match self.try_lookup_source_file(sp_lhs.lo) {
            Ok(Some(f)) => f,
            _ => {
                return None;
            },
        };
        proof {
            self.lemma_starts_sorted();
            self.lemma_file_index(sp_lhs.lo);
            self.lemma_file_index(sp_lhs.hi);
            self.lemma_file_index(sp_rhs.lo);
            self.lemma_file_index(sp_rhs.hi);
            assert(f.wf());
        }
        if !self.same_file(&f, sp_lhs.hi) || !self.same_file(&f, sp_rhs.lo) || !self.same_file(&f, sp_rhs.hi) {
            return None;
        }
        proof {
            lemma_line_index(&*f, sp_lhs.hi.0 as int);
            lemma_line_index(&*f, sp_rhs.lo.0 as int);
            f.lemma_lines();
        }
        let lhs_end = match f.lookup_line(sp_lhs.hi) {
            Some(l) => l,
            None => {
                return None;
            },
        };
        let rhs_begin = match f.lookup_line(sp_rhs.lo) {
            Some(l) => l,
            None => {
                return None;
            },
        };
        proof {
            lemma_line_index_unique(&*f, sp_lhs.hi.0 as int, lhs_end as int);
            lemma_line_index_unique(&*f, sp_rhs.lo.0 as int, rhs_begin as int);
        }
        if lhs_end != rhs_begin {
            return None;
        }
        if sp_lhs.lo.0 <= sp_rhs.lo.0 && sp_lhs.hi.0 <= sp_rhs.lo.0 {
            Some(sp_lhs.to(sp_rhs))
        } else {
            None
        }
    }

    /// `pos` resolves to the file `f`.
    fn same_file(&self, f: &SourceFile, pos: BytePos) -> (r: bool)
        requires
            self.wf(),
            exists|i: int| 0 <= i < self.files@.len() && *self.files@[i] == *f,
        ensures
            r == (self.file_index(pos) >= 0 && *self.files@[self.file_index(pos)] == *f),
    {
        proof {
            self.lemma_starts_sorted();
            self.lemma_file_index(pos);
        }
        match self.try_lookup_source_file(pos) {
            Ok(Some(g)) => {
                proof {
                    let i = choose|i: int| 0 <= i < self.files@.len() && *self.files@[i] == *f;
                    let j = self.file_index(pos);
                    if i != j {
                        if i < j {
                            assert(self.files@[i].start_pos.0 < self.files@[j].start_pos.0);
                        } else {
                            assert(self.files@[j].start_pos.0 < self.files@[i].start_pos.0);
                        }
                    }
                }
                g.start_pos.0 == f.start_pos.0
            },
            _ => false,
        }
    }

    /// Whether `p` lies in a file.
    pub fn is_located(&self, p: BytePos) -> (r: bool)
        requires
            self.wf(),
        ensures
            r == (self.file_index(p) >= 0),
    {
        self.try_lookup_source_file(p).is_ok()
    }

    /// Whether the two ends of `sp` lie on different lines; false when an
    /// end lies in no file.
    pub fn is_multiline(&self, sp: Span) -> (r: bool)
        requires
            self.wf(),
            on_boundary_if_located(*self, sp.lo),
            on_boundary_if_located(*self, sp.hi),
        ensures
            !(locatable(*self, sp.lo) && locatable(*self, sp.hi)) ==> !r,
            locatable(*self, sp.lo) && locatable(*self, sp.hi) ==> r == (loc_spec(
                *self.files@[self.file_index(sp.lo)],
                sp.lo.0 as int,
            ).0 != loc_spec(*self.files@[self.file_index(sp.hi)], sp.hi.0 as int).0),
    {
        if !self.is_located(sp.lo) || !self.is_located(sp.hi) {
            return false;
        }
        let lo = self.lookup_char_pos(sp.lo);
        let hi = self.lookup_char_pos(sp.hi);
        lo.line != hi.line
    }

    /// The lines that `sp` covers, with the columns it covers on each.
    pub fn span_to_lines(&self, sp: Span) -> (r: Result<FileLines, SpanLinesError>)
        requires
            self.wf(),
            on_boundary_if_located(*self, sp.lo),
            on_boundary_if_located(*self, sp.hi),
        ensures
            sp.lo.0 > sp.hi.0 ==> r == Err::<FileLines, SpanLinesError>(SpanLinesError::IllFormedSpan(sp)),
            sp.lo.0 <= sp.hi.0 && self.file_index(sp.lo) < 0 ==> r == Err::<FileLines, SpanLinesError>(
                SpanLinesError::LookupFailed(SourceMapLookupError::NoFileFor(sp.lo)),
            ),
            sp.lo.0 <= sp.hi.0 && self.file_index(sp.lo) >= 0 && self.file_index(sp.hi) < 0 ==> r == Err::<
                FileLines,
                SpanLinesError,
            >(SpanLinesError::LookupFailed(SourceMapLookupError::NoFileFor(sp.hi))),
            sp.lo.0 <= sp.hi.0 && self.file_index(sp.lo) >= 0 && self.file_index(sp.hi) >= 0 && self.file_index(sp.lo)
                != self.file_index(sp.hi) ==> (r matches Err(
                SpanLinesError::DistinctSources(d),
            ) && d.begin.0@ == self.files@[self.file_index(sp.lo)].name@ && d.begin.1
                == self.files@[self.file_index(sp.lo)].start_pos && d.end.0@
                == self.files@[self.file_index(sp.hi)].name@ && d.end.1
                == self.files@[self.file_index(sp.hi)].start_pos),
            sp.lo.0 <= sp.hi.0 && self.file_index(sp.lo) >= 0 && self.file_index(sp.lo) == self.file_index(sp.hi)
                ==> ({
                let f = *self.files@[self.file_index(sp.lo)];
                let a = line_index_of(f, sp.lo.0 as int);
                let b = line_index_of(f, sp.hi.0 as int);
                r matches Ok(fl) && *fl.file == f && (f.src@.len() == 0 ==> fl.lines@.len() == 0) && (
                f.src@.len() > 0 ==> fl.lines@.len() == b - a + 1 && forall|t: int|
                    0 <= t < fl.lines@.len() ==> #[trigger] fl.lines@[t] == line_info_at(
                        f,
                        a,
                        b,
                        loc_spec(f, sp.lo.0 as int).1,
                        loc_spec(f, sp.hi.0 as int).1,
                        t,
                    ))
            }),
    {
        if sp.lo.0 > sp.hi.0 {
            return Err(SpanLinesError::IllFormedSpan(sp));
        }
        if !self.is_located(sp.lo) {
            return Err(SpanLinesError::LookupFailed(SourceMapLookupError::NoFileFor(sp.lo)));
        }
        if !self.is_located(sp.hi) {
            return Err(SpanLinesError::LookupFailed(SourceMapLookupError::NoFileFor(sp.hi)));
        }
        let lo = self.lookup_char_pos(sp.lo);
        let hi = self.lookup_char_pos(sp.hi);
        proof {
            self.lemma_starts_sorted();
            self.lemma_file_index(sp.lo);
            self.lemma_file_index(sp.hi);
        }
        if lo.file.start_pos.0 != hi.file.start_pos.0 {
            return Err(
                SpanLinesError::DistinctSources(
                    DistinctSources {
                        begin: FilePos(lo.file.name.duplicate(), lo.file.start_pos),
                        end: FilePos(hi.file.name.duplicate(), hi.file.start_pos),
                    },
                ),
            );
        }
        let ghost i = self.file_index(sp.lo);
        proof {
            let j = self.file_index(sp.hi);
            if i != j {
                if i < j {
                    assert(self.files@[i].start_pos.0 < self.files@[j].start_pos.0);
                } else {
                    assert(self.files@[j].start_pos.0 < self.files@[i].start_pos.0);
                }
            }
        }
        let file = lo.file;
        proof {
            assert(file.wf());
            file.lemma_lines();
        }
        if file.chars.len() == 0 {
            return Ok(FileLines { file, lines: Vec::new() });
        }
        proof {
            lemma_line_index(&*file, sp.lo.0 as int);
            lemma_line_index(&*file, sp.hi.0 as int);
            assert(file.lines@[0] == file.start_pos);
            lemma_line_index_mono(&*file, sp.lo.0 as int, sp.hi.0 as int);
        }
        let a = lo.line - 1;
        let b = hi.line - 1;
        let mut lines: Vec<LineInfo> = Vec::new();
        let mut start_col = lo.col;
        let mut line_index = a;
        while line_index < b
            invariant
                file.wf(),
                a <= line_index <= b < file.lines@.len(),
                a as int == line_index_of(*file, sp.lo.0 as int),
                b as int == line_index_of(*file, sp.hi.0 as int),
                lo.col.0 == loc_spec(*file, sp.lo.0 as int).1,
                hi.col.0 == loc_spec(*file, sp.hi.0 as int).1,
                start_col == (if line_index == a { lo.col } else { CharPos(0) }),
                lines@.len() == line_index - a,
                forall|t: int|
                    0 <= t < lines@.len() ==> #[trigger] lines@[t] == line_info_at(
                        *file,
                        a as int,
                        b as int,
                        lo.col.0 as int,
                        hi.col.0 as int,
                        t,
                    ),
            decreases b - line_index,
        {
            let line_len = match file.line_len(line_index) {
                Some(n) => n,
                None => 0,
            };
            lines.push(LineInfo { line_index, start_col, end_col: CharPos(line_len) });
            start_col = CharPos(0);
            line_index = line_index + 1;
        }
        lines.push(LineInfo { line_index: b, start_col, end_col: hi.col });
        Ok(FileLines { file, lines })
    }
}

/// The line index of a position is the only line that holds it.
pub proof fn lemma_line_index_unique(f: &SourceFile, pos: int, k: int)
    requires
        f.wf(),
        0 <= k < f.lines@.len(),
        f.lines@[k].0 <= pos,
        k + 1 < f.lines@.len() ==> pos < f.lines@[k + 1].0,
    ensures
        line_index_of(*f, pos) == k,
{
    f.lemma_lines();
    lemma_line_index(f, pos);
    let j = line_index_of(*f, pos);
    if j < k {
        assert(f.lines@[j + 1].0 <= f.lines@[k].0);
    } else if j > k {
        assert(f.lines@[k + 1].0 <= f.lines@[j].0);
    }
}

/// Later positions are on the same line or a later one.
pub proof fn lemma_line_index_mono(f: &SourceFile, lo_pos: int, hi_pos: int)
    requires
        f.wf(),
        lo_pos <= hi_pos,
    ensures
        line_index_of(*f, lo_pos) <= line_index_of(*f, hi_pos),
{
    f.lemma_lines();
    lemma_line_index(f, lo_pos);
    lemma_line_index(f, hi_pos);
    let a = line_index_of(*f, lo_pos);
    let b = line_index_of(*f, hi_pos);
    if a > b && b >= 0 {
        assert(f.lines@[b + 1].0 <= f.lines@[a].0);
    }
}

/// The union of two mergeable spans starts where the first starts, ends
/// where the second ends, and lies in one file.
pub proof fn lemma_merge_law(sm: SourceMap, a: Span, b: Span)
    requires
        sm.wf(),
        mergeable(sm, a, b),
        b.lo.0 <= b.hi.0,
    ensures
        a.to_spec(b).lo == a.lo,
        a.to_spec(b).hi == b.hi,
        sm.file_index(a.to_spec(b).lo) == sm.file_index(a.to_spec(b).hi),
        sm.file_index(a.to_spec(b).lo) >= 0,
{
}

} // verus!
