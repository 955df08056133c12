//! Extracting the source text of a span, and the text before and after it.
use vstd::prelude::*;
use std::rc::Rc;
use crate::pos::{BytePos, Span};
use crate::file_name::FileName;
use crate::source_file::{char_index_for, SourceFile};
use crate::source_map::SourceMap;
use crate::lookup::SourceMapLookupError;

verus! {

/// A file, by name, and its start position.
#[derive(Debug, PartialEq)]
pub struct FilePos(pub FileName, pub BytePos);

/// The two ends of a span lie in different files.
#[derive(Debug, PartialEq)]
pub struct DistinctSources {
    pub begin: FilePos,
    pub end: FilePos,
}

/// Offsets of a span that do not fit its file's text.
#[derive(Debug, PartialEq)]
pub struct MalformedSourceMapPositions {
    pub name: FileName,
    pub source_len: usize,
    pub begin_pos: BytePos,
    pub end_pos: BytePos,
}

/// Why the text of a span could not be taken.
#[derive(Debug, PartialEq)]
pub enum SpanSnippetError {
    /// `lo > hi`.
    IllFormedSpan(Span),
    DistinctSources(DistinctSources),
    /// The offsets lie outside the text or inside a character.
    MalformedForSourcemap(MalformedSourceMapPositions),
    /// An end is the dummy position.
    DummyBytePos,
    LookupFailed(SourceMapLookupError),
}

/// What taking the text of a span comes to.
pub enum SourceRange {
    /// The file index and the character range of the text.
    Range(int, int, int),
    IllFormed,
    Dummy,
    NoFile(BytePos),
    /// The file indices of the two ends.
    Distinct(int, int),
    /// The file index and the byte offsets of the two ends.
    Malformed(int, int, int),
}

/// The outcome of taking the text of `sp` from `sm`.
pub open spec fn source_range(sm: SourceMap, sp: Span) -> SourceRange {
    if sp.lo.0 > sp.hi.0 {
        SourceRange::IllFormed
    } else if sp.lo.0 == 0 || sp.hi.0 == 0 {
        SourceRange::Dummy
    } else if sm.file_index(sp.lo) < 0 {
        SourceRange::NoFile(sp.lo)
    } else if sm.file_index(sp.hi) < 0 {
        SourceRange::NoFile(sp.hi)
    } else if sm.file_index(sp.lo) != sm.file_index(sp.hi) {
        SourceRange::Distinct(sm.file_index(sp.lo), sm.file_index(sp.hi))
    } else {
        let i = sm.file_index(sp.lo);
        let f = sm.files@[i];
        let b = sp.lo.0 - f.start_pos.0;
        let e = sp.hi.0 - f.start_pos.0;
        if b > e || e > f.len_bytes() || char_index_for(f.src@, b) < 0 || char_index_for(f.src@, e) < 0 {
            SourceRange::Malformed(i, b, e)
        } else {
            SourceRange::Range(i, char_index_for(f.src@, b), char_index_for(f.src@, e))
        }
    }
}

/// `e` is the error that the outcome `s` of taking the text of `sp` reports.
pub open spec fn reports(sm: SourceMap, sp: Span, s: SourceRange, e: SpanSnippetError) -> bool {
    match s {
        SourceRange::IllFormed => e == SpanSnippetError::IllFormedSpan(sp),
        SourceRange::Dummy => e == SpanSnippetError::DummyBytePos,
        SourceRange::NoFile(p) => e == SpanSnippetError::LookupFailed(SourceMapLookupError::NoFileFor(p)),
        SourceRange::Distinct(i, j) => e matches SpanSnippetError::DistinctSources(d) && d.begin.0@
            == sm.files@[i].name@ && d.begin.1 == sm.files@[i].start_pos && d.end.0@ == sm.files@[j].name@
            && d.end.1 == sm.files@[j].start_pos,
        SourceRange::Malformed(i, b, e2) => e matches SpanSnippetError::MalformedForSourcemap(m) && m.name@
            == sm.files@[i].name@ && m.source_len == sm.files@[i].len_bytes() && m.begin_pos.0 == b
            && m.end_pos.0 == e2,
        SourceRange::Range(..) => false,
    }
}

/// The span from the start of a file to its end takes the whole text.
pub proof fn lemma_whole_file_range(sm: SourceMap, i: int)
    requires
        sm.wf(),
        0 <= i < sm.files@.len(),
    ensures
        source_range(sm, Span { lo: sm.files@[i].start_pos, hi: sm.files@[i].end_pos }) == SourceRange::Range(
            i,
            0,
            sm.files@[i].src@.len() as int,
        ),
{
    let f = sm.files@[i];
    assert(f.wf());
    sm.lemma_file_index_of_member(i, f.start_pos);
    sm.lemma_file_index_of_member(i, f.end_pos);
    crate::text::lemma_byte_offset_full(f.src@);
    assert(f.src@.take(0) =~= Seq::<char>::empty());
    crate::source_file::lemma_char_index_for(f.src@, 0);
    crate::source_file::lemma_char_index_for(f.src@, f.src@.len() as int);
}

/// The snippet of the span that covers a whole registered file is that
/// file's text.
pub proof fn lemma_snippet_identity(sm: SourceMap, i: int, r: Result<String, SpanSnippetError>)
    requires
        sm.wf(),
        0 <= i < sm.files@.len(),
        match source_range(sm, Span { lo: sm.files@[i].start_pos, hi: sm.files@[i].end_pos }) {
            SourceRange::Range(j, k1, k2) => r matches Ok(s) && s@ == sm.files@[j].src@.subrange(k1, k2),
            s => r matches Err(e) && reports(sm, Span { lo: sm.files@[i].start_pos, hi: sm.files@[i].end_pos }, s, e),
        },
    ensures
        r matches Ok(s) && s@ == sm.files@[i].src@,
{
    lemma_whole_file_range(sm, i);
    assert(sm.files@[i].src@.subrange(0, sm.files@[i].src@.len() as int) =~= sm.files@[i].src@);
}

impl SourceMap {
    /// The file of `sp` and the character range of its text.
    pub fn span_to_source(&self, sp: Span) -> (r: Result<(Rc<SourceFile>, usize, usize), SpanSnippetError>)
        requires
            self.wf(),
        ensures
            match source_range(*self, sp) {
                SourceRange::Range(i, k1, k2) => r matches Ok((f, a, b)) && f == self.files@[i] && a == k1
                    && b == k2 && k1 <= k2 <= f.src@.len() && f.wf(),
                s => r matches Err(e) && reports(*self, sp, s, e),
            },
    {
        if sp.lo.0 > sp.hi.0 {
            return Err(SpanSnippetError::IllFormedSpan(sp));
        }
        if sp.lo.is_dummy() || sp.hi.is_dummy() {
            return Err(SpanSnippetError::DummyBytePos);
        }
        let local_begin = match self.try_lookup_byte_offset(sp.lo) {
            Ok(v) => v,
            Err(e) => {
                return Err(SpanSnippetError::LookupFailed(e));
            },
        };
        let local_end = match self.try_lookup_byte_offset(sp.hi) {
            Ok(v) => v,
            Err(e) => {
                return Err(SpanSnippetError::LookupFailed(e));
            },
        };
        proof {
            self.lemma_file_index(sp.lo);
            self.lemma_file_index(sp.hi);
            self.lemma_starts_sorted();
        }
        if local_begin.sf.start_pos.0 != local_end.sf.start_pos.0 {
            return Err(
                SpanSnippetError::DistinctSources(
                    DistinctSources {
                        begin: FilePos(local_begin.sf.name.duplicate(), local_begin.sf.start_pos),
                        end: FilePos(local_end.sf.name.duplicate(), local_end.sf.start_pos),
                    },
                ),
            );
        }
        proof {
            let i = self.file_index(sp.lo);
            let j = self.file_index(sp.hi);
            if i != j {
                if i < j {
                    assert(self.files@[i].start_pos.0 < self.files@[j].start_pos.0);
                } else {
                    assert(self.files@[j].start_pos.0 < self.files@[i].start_pos.0);
                }
            }
            assert(self.files@[i].wf());
        }
        let sf = local_begin.sf;
        let start_index = local_begin.pos.0 as usize;
        let end_index = local_end.pos.0 as usize;
        let source_len = (sf.end_pos.0 - sf.start_pos.0) as usize;
        if start_index > end_index || end_index > source_len {
            return Err(self.malformed(&sf, source_len, local_begin.pos, local_end.pos));
        }
        let k1 = sf.char_index_at(start_index);
        let k2 = sf.char_index_at(end_index);
        match (k1, k2) {
            (Some(a), Some(b)) => {
                proof {
                    crate::source_file::lemma_char_index_order(sf.src@, a as int, b as int);
                }
                Ok((sf, a, b))
            },
            _ => Err(self.malformed(&sf, source_len, local_begin.pos, local_end.pos)),
        }
    }

    fn malformed(&self, sf: &SourceFile, source_len: usize, b: BytePos, e: BytePos) -> (r: SpanSnippetError)
        ensures
            r matches SpanSnippetError::MalformedForSourcemap(m) && m.name@ == sf.name@ && m.source_len
                == source_len && m.begin_pos == b && m.end_pos == e,
    {
        SpanSnippetError::MalformedForSourcemap(
            MalformedSourceMapPositions { name: sf.name.duplicate(), source_len, begin_pos: b, end_pos: e },
        )
    }

    /// The text of `sp`.
    pub fn span_to_snippet(&self, sp: Span) -> (r: Result<String, SpanSnippetError>)
        requires
            self.wf(),
        ensures
            match source_range(*self, sp) {
                SourceRange::Range(i, k1, k2) => r matches Ok(s) && s@ == self.files@[i].src@.subrange(k1, k2),
                s => r matches Err(e) && reports(*self, sp, s, e),
            },
    {
        match self.span_to_source(sp) {
            Ok((f, a, b)) => Ok(f.src.as_str().substring_char(a, b).to_owned()),
            Err(e) => Err(e),
        }
    }

    /// The text of the file of `sp` before it.
    pub fn span_to_prev_source(&self, sp: Span) -> (r: Result<String, SpanSnippetError>)
        requires
            self.wf(),
        ensures
            match source_range(*self, sp) {
                SourceRange::Range(i, k1, k2) => r matches Ok(s) && s@ == self.files@[i].src@.subrange(0, k1),
                s => r matches Err(e) && reports(*self, sp, s, e),
            },
    {
        match self.span_to_source(sp) {
            Ok((f, a, b)) => Ok(f.src.as_str().substring_char(0, a).to_owned()),
            Err(e) => Err(e),
        }
    }

    /// The text of the file of `sp` after it.
    pub fn span_to_next_source(&self, sp: Span) -> (r: Result<String, SpanSnippetError>)
        requires
            self.wf(),
        ensures
            match source_range(*self, sp) {
                SourceRange::Range(i, k1, k2) => r matches Ok(s) && s@ == self.files@[i].src@.subrange(
                    k2,
                    self.files@[i].src@.len() as int,
                ),
                s => r matches Err(e) && reports(*self, sp, s, e),
            },
    {
        match self.span_to_source(sp) {
            Ok((f, a, b)) => Ok(f.src.as_str().substring_char(b, f.chars.len()).to_owned()),
            Err(e) => Err(e),
        }
    }
}

impl SourceMap {
    /// Calls `op` with the text of `sp`.
    pub fn with_snippet_of_span<F, Ret>(&self, sp: Span, op: F) -> (r: Result<Ret, SpanSnippetError>) where
        F: FnOnce(&str) -> Ret,

        requires
            self.wf(),
            forall|s: &str| op.requires((s,)),
        ensures
            match source_range(*self, sp) {
                SourceRange::Range(i, k1, k2) => r is Ok && exists|s: &str|
                    s@ == self.files@[i].src@.subrange(k1, k2) && #[trigger] op.ensures((s,), r->Ok_0),
                s => r matches Err(e) && reports(*self, sp, s, e),
            },
    {
        match self.span_to_source(sp) {
            Ok((f, a, b)) => {
                let s = f.src.as_str().substring_char(a, b);
                let v = op(s);
                let r: Result<Ret, SpanSnippetError> = Ok(v);
                assert(r->Ok_0 == v);
                assert(op.ensures((s,), r->Ok_0));
                r
            },
            Err(e) => Err(e),
        }
    }

    /// Calls `op` with the text of the file of `sp` before it.
    pub fn with_span_to_prev_source<F, Ret>(&self, sp: Span, op: F) -> (r: Result<Ret, SpanSnippetError>) where
        F: FnOnce(&str) -> Ret,

        requires
            self.wf(),
            forall|s: &str| op.requires((s,)),
        ensures
            match source_range(*self, sp) {
                SourceRange::Range(i, k1, k2) => r is Ok && exists|s: &str|
                    s@ == self.files@[i].src@.subrange(0, k1) && #[trigger] op.ensures((s,), r->Ok_0),
                s => r matches Err(e) && reports(*self, sp, s, e),
            },
    {
        match self.span_to_source(sp) {
            Ok((f, a, b)) => {
                let s = f.src.as_str().substring_char(0, a);
                let v = op(s);
                let r: Result<Ret, SpanSnippetError> = Ok(v);
                assert(r->Ok_0 == v);
                assert(op.ensures((s,), r->Ok_0));
                r
            },
            Err(e) => Err(e),
        }
    }

    /// Calls `op` with the text of the file of `sp` after it.
    pub fn with_span_to_next_source<F, Ret>(&self, sp: Span, op: F) -> (r: Result<Ret, SpanSnippetError>) where
        F: FnOnce(&str) -> Ret,

        requires
            self.wf(),
            forall|s: &str| op.requires((s,)),
        ensures
            match source_range(*self, sp) {
                SourceRange::Range(i, k1, k2) => r is Ok && exists|s: &str|
                    s@ == self.files@[i].src@.subrange(k2, self.files@[i].src@.len() as int) && #[trigger] op.ensures((s,), r->Ok_0),
                s => r matches Err(e) && reports(*self, sp, s, e),
            },
    {
        match self.span_to_source(sp) {
            Ok((f, a, b)) => {
                let s = f.src.as_str().substring_char(b, f.chars.len());
                let v = op(s);
                let r: Result<Ret, SpanSnippetError> = Ok(v);
                assert(r->Ok_0 == v);
                assert(op.ensures((s,), r->Ok_0));
                r
            },
            Err(e) => Err(e),
        }
    }
}

} // verus!
