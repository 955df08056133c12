//! Span adjusters: they grow or shrink a span by looking at the text around
//! it, and hand the span back unchanged when the text cannot be had.
use vstd::prelude::*;
use crate::pos::{BytePos, Span};
use crate::source_file::{char_index_for, SourceFile};
use crate::source_map::SourceMap;
use crate::snippet::{source_range, SourceRange};
use crate::text::{byte_offset, byte_len, chars_of, lemma_byte_offset_full, lemma_byte_offset_mono};
use crate::scan::{first_char_in, first_char_index, first_str_in, first_str_index, is_ws, is_whitespace, last_char_in, last_char_index, last_str_in, last_str_index, range_bytes, skip_ws_backward, skip_ws_forward, ws_end, ws_start};

verus! {

/// The absolute position of the `k`-th character of `f`.
pub open spec fn pos_of(f: SourceFile, k: int) -> BytePos {
    BytePos((f.start_pos.0 + byte_offset(f.src@, k)) as u32)
}

/// In a resolved range, the character indices sit at the span's ends.
pub proof fn lemma_range(sm: SourceMap, sp: Span)
    requires
        sm.wf(),
        source_range(sm, sp) is Range,
    ensures
        ({
            let (i, k1, k2) = match source_range(sm, sp) {
                SourceRange::Range(i, k1, k2) => (i, k1, k2),
                _ => (0, 0, 0),
            };
            let f = sm.files@[i];
            &&& 0 <= i < sm.files@.len()
            &&& f.wf()
            &&& 0 <= k1 <= k2 <= f.src@.len()
            &&& sp.lo.0 == f.start_pos.0 + byte_offset(f.src@, k1)
            &&& sp.hi.0 == f.start_pos.0 + byte_offset(f.src@, k2)
            &&& byte_offset(f.src@, f.src@.len() as int) == byte_len(f.src@)
            &&& f.start_pos.0 + byte_len(f.src@) <= u32::MAX
        }),
{
    sm.lemma_file_index(sp.lo);
    let i = sm.file_index(sp.lo);
    let f = sm.files@[i];
    assert(f.wf());
    lemma_byte_offset_full(f.src@);
    let b = sp.lo.0 - f.start_pos.0;
    let e = sp.hi.0 - f.start_pos.0;
    let k1 = char_index_for(f.src@, b);
    let k2 = char_index_for(f.src@, e);
    assert(byte_offset(f.src@, k1) == b);
    assert(byte_offset(f.src@, k2) == e);
    if k1 > k2 {
        crate::text::lemma_byte_offset_strict(f.src@, k2, k1);
    }
}

/// Growing `sp` leftward over the text after the last `c` before it.
pub open spec fn extend_prev_char_spec(f: SourceFile, k1: int, sp: Span, c: char) -> Span {
    let cs = f.src@;
    let p = last_char_in(cs, 0, k1, c);
    let j = ws_end(cs, p + 1, k1);
    if p >= 0 && j < k1 && first_char_in(cs, j, k1, '\n') == -1 {
        Span::new_spec(pos_of(f, j), sp.hi)
    } else {
        sp
    }
}

/// Growing `sp` leftward over the text after the last `t` before it.
pub open spec fn extend_prev_str_spec(f: SourceFile, k1: int, sp: Span, t: Seq<char>, accept_newlines: bool) -> Option<Span> {
    let cs = f.src@;
    let p = last_str_in(cs, k1, t, k1);
    let j = ws_end(cs, p + t.len(), k1);
    if p >= 0 && j < k1 && (first_char_in(cs, j, k1, '\n') == -1 || accept_newlines) {
        Some(Span::new_spec(pos_of(f, j), sp.hi))
    } else {
        None
    }
}

/// What `span_extend_to_prev_str` makes of `sp`.
pub open spec fn extend_prev_str_result(sm: SourceMap, sp: Span, pat: Seq<char>, accept_newlines: bool) -> Span {
    match source_range(sm, sp) {
        SourceRange::Range(i, k1, k2) => {
            let f = *sm.files@[i];
            match extend_prev_str_spec(f, k1, sp, pat + seq![' '], accept_newlines) {
                Some(s) => s,
                None => match extend_prev_str_spec(f, k1, sp, pat + seq!['\t'], accept_newlines) {
                    Some(s) => s,
                    None => match extend_prev_str_spec(f, k1, sp, pat + seq!['\n'], accept_newlines) {
                        Some(s) => s,
                        None => sp,
                    },
                },
            }
        },
        _ => sp,
    }
}

/// Growing `sp` rightward over the text before the first `c` after it.
pub open spec fn extend_next_char_spec(f: SourceFile, k2: int, sp: Span, c: char) -> Span {
    let cs = f.src@;
    let e = first_char_in(cs, k2, cs.len() as int, c);
    let j = ws_start(cs, k2, e);
    if e >= 0 && j > k2 && first_char_in(cs, k2, j, '\n') == -1 {
        Span::new_spec(sp.lo, pos_of(f, j))
    } else {
        sp
    }
}

/// Growing `sp` rightward over the text before the first `t` after it.
pub open spec fn extend_next_str_spec(f: SourceFile, k2: int, sp: Span, t: Seq<char>, accept_newlines: bool) -> Option<Span> {
    let cs = f.src@;
    let e = first_str_in(cs, cs.len() as int, t, k2);
    let j = ws_start(cs, k2, e);
    if e >= 0 && j > k2 && (first_char_in(cs, k2, j, '\n') == -1 || accept_newlines) {
        Some(Span::new_spec(sp.lo, pos_of(f, j)))
    } else {
        None
    }
}

/// Shrinking `sp` to the text before the first `c` in it.
pub open spec fn until_char_spec(f: SourceFile, k1: int, k2: int, sp: Span, c: char) -> Span {
    let cs = f.src@;
    let e = first_char_in(cs, k1, k2, c);
    let j = ws_start(cs, k1, e);
    if e >= 0 && j > k1 && first_char_in(cs, k1, j, '\n') == -1 {
        Span::new_spec(sp.lo, pos_of(f, j))
    } else {
        sp
    }
}

/// Shrinking `sp` to end just after the first `c` in it.
pub open spec fn through_char_spec(f: SourceFile, k1: int, k2: int, sp: Span, c: char) -> Span {
    let e = first_char_in(f.src@, k1, k2, c);
    if e >= 0 {
        Span::new_spec(sp.lo, pos_of(f, e + 1))
    } else {
        sp
    }
}

/// The first index from `lo` that holds whitespace, or `hi`.
pub open spec fn non_ws_end(s: Seq<char>, lo: int, hi: int) -> int
    decreases hi - lo,
{
    if hi <= lo {
        hi
    } else if is_ws(s[lo]) {
        lo
    } else {
        non_ws_end(s, lo + 1, hi)
    }
}

fn skip_non_ws_forward(s: &Vec<char>, lo: usize, hi: usize) -> (r: usize)
    requires
        lo <= hi <= s@.len(),
    ensures
        r == non_ws_end(s@, lo as int, hi as int),
        lo <= r <= hi,
{
    let mut i = lo;
    while i < hi && !is_whitespace(s[i])
        invariant
            lo <= i <= hi <= s@.len(),
            non_ws_end(s@, lo as int, hi as int) == non_ws_end(s@, i as int, hi as int),
        decreases hi - i,
    {
        i = i + 1;
    }
    i
}

proof fn lemma_first_char_bounds(s: Seq<char>, lo: int, hi: int, c: char)
    ensures
        first_char_in(s, lo, hi, c) == -1 || (lo <= first_char_in(s, lo, hi, c) < hi && s[first_char_in(s, lo, hi, c)] == c),
    decreases hi - lo,
{
    if lo < hi {
        lemma_first_char_bounds(s, lo + 1, hi, c);
    }
}

proof fn lemma_last_char_bounds(s: Seq<char>, lo: int, hi: int, c: char)
    ensures
        last_char_in(s, lo, hi, c) == -1 || lo <= last_char_in(s, lo, hi, c) < hi,
    decreases hi - lo,
{
    if lo < hi {
        lemma_last_char_bounds(s, lo, hi - 1, c);
    }
}

proof fn lemma_last_str_bounds(s: Seq<char>, hi: int, t: Seq<char>, k: int)
    ensures
        last_str_in(s, hi, t, k) == -1 || (0 <= last_str_in(s, hi, t, k) <= k && last_str_in(s, hi, t, k)
            + t.len() <= hi),
    decreases k + 1,
{
    if k >= 0 {
        lemma_last_str_bounds(s, hi, t, k - 1);
    }
}

proof fn lemma_first_str_bounds(s: Seq<char>, hi: int, t: Seq<char>, k: int)
    ensures
        first_str_in(s, hi, t, k) == -1 || (k <= first_str_in(s, hi, t, k) && first_str_in(s, hi, t, k)
            + t.len() <= hi),
    decreases hi + 1 - k,
{
    if k + t.len() <= hi && k >= 0 {
        lemma_first_str_bounds(s, hi, t, k + 1);
    }
}

impl SourceMap {
    /// Extends `sp` leftward to just after the previous `c`, when the text
    /// in between is not empty once leading whitespace is dropped and holds
    /// no newline.
    pub fn span_extend_to_prev_char(&self, sp: Span, c: char) -> (r: Span)
        requires
            self.wf(),
        ensures
            match source_range(*self, sp) {
                SourceRange::Range(i, k1, k2) => r == extend_prev_char_spec(*self.files@[i], k1, sp, c),
                _ => r == sp,
            },
    {
        match self.span_to_source(sp) {
            Ok((f, k1, k2)) => {
                proof {
                    lemma_range(*self, sp);
                    lemma_last_char_bounds(f.src@, 0, k1 as int, c);
                }
                let from = match last_char_index(&f.chars, 0, k1, c) {
                    Some(p) => p + 1,
                    None => {
                        return sp;
                    },
                };
                let j = skip_ws_forward(&f.chars, from, k1);
                if j < k1 && first_char_index(&f.chars, j, k1, '\n').is_none() {
                    let n = range_bytes(&f.chars, j, k1);
                    sp.with_lo(BytePos(sp.lo.0 - n))
                } else {
                    sp
                }
            },
            Err(_) => sp,
        }
    }

    fn extend_prev_str_once(&self, f: &SourceFile, k1: usize, sp: Span, t: &Vec<char>, accept_newlines: bool) -> (r: Option<Span>)
        requires
            f.wf(),
            k1 <= f.src@.len(),
            sp.lo.0 == f.start_pos.0 + byte_offset(f.src@, k1 as int),
            byte_offset(f.src@, f.src@.len() as int) == byte_len(f.src@),
        ensures
            r == extend_prev_str_spec(*f, k1 as int, sp, t@, accept_newlines),
    {
        proof {
            lemma_last_str_bounds(f.src@, k1 as int, t@, k1 as int);
        }
        let from = match last_str_index(&f.chars, k1, t) {
            Some(p) => p + t.len(),
            None => {
                return None;
            },
        };
        let j = skip_ws_forward(&f.chars, from, k1);
        if j < k1 && (first_char_index(&f.chars, j, k1, '\n').is_none() || accept_newlines) {
            let n = range_bytes(&f.chars, j, k1);
            Some(sp.with_lo(BytePos(sp.lo.0 - n)))
        } else {
            None
        }
    }

    /// Extends `sp` leftward to just after the previous `pat` followed by a
    /// space, a tab or a newline (tried in that order), when the text in
    /// between is not empty once leading whitespace is dropped and holds no
    /// newline, unless newlines are accepted.
    pub fn span_extend_to_prev_str(&self, sp: Span, pat: &str, accept_newlines: bool) -> (r: Span)
        requires
            self.wf(),
        ensures
            r == extend_prev_str_result(*self, sp, pat@, accept_newlines),
    {
        match self.span_to_source(sp) {
            Ok((f, k1, k2)) => {
                proof {
                    lemma_range(*self, sp);
                }
                let p = chars_of(pat);
                let mut t = p.clone();
                t.push(' ');
                assert(t@ == pat@ + seq![' ']);
                if let Some(s) = self.extend_prev_str_once(&f, k1, sp, &t, accept_newlines) {
                    return s;
                }
                let mut t = p.clone();
                t.push('\t');
                assert(t@ == pat@ + seq!['\t']);
                if let Some(s) = self.extend_prev_str_once(&f, k1, sp, &t, accept_newlines) {
                    return s;
                }
                let mut t = p;
                t.push('\n');
                assert(t@ == pat@ + seq!['\n']);
                if let Some(s) = self.extend_prev_str_once(&f, k1, sp, &t, accept_newlines) {
                    return s;
                }
                sp
            },
            Err(_) => sp,
        }
    }

    /// Extends `sp` rightward to just before the next `c`, when the text in
    /// between is not empty once trailing whitespace is dropped and holds no
    /// newline.
    pub fn span_extend_to_next_char(&self, sp: Span, c: char) -> (r: Span)
        requires
            self.wf(),
        ensures
            match source_range(*self, sp) {
                SourceRange::Range(i, k1, k2) => r == extend_next_char_spec(*self.files@[i], k2, sp, c),
                _ => r == sp,
            },
    {
        match self.span_to_source(sp) {
            Ok((f, k1, k2)) => {
                proof {
                    lemma_range(*self, sp);
                    lemma_first_char_bounds(f.src@, k2 as int, f.src@.len() as int, c);
                }
                let n = f.chars.len();
                let to = match first_char_index(&f.chars, k2, n, c) {
                    Some(e) => e,
                    None => {
                        return sp;
                    },
                };
                let j = skip_ws_backward(&f.chars, k2, to);
                if j > k2 && first_char_index(&f.chars, k2, j, '\n').is_none() {
                    let m = range_bytes(&f.chars, k2, j);
                    proof {
                        lemma_byte_offset_mono(f.src@, j as int, f.src@.len() as int);
                    }
                    sp.with_hi(BytePos(sp.hi.0 + m))
                } else {
                    sp
                }
            },
            Err(_) => sp,
        }
    }

    fn extend_next_str_once(&self, f: &SourceFile, k2: usize, sp: Span, t: &Vec<char>, accept_newlines: bool) -> (r: Option<Span>)
        requires
            f.wf(),
            k2 <= f.src@.len(),
            sp.hi.0 == f.start_pos.0 + byte_offset(f.src@, k2 as int),
            byte_offset(f.src@, f.src@.len() as int) == byte_len(f.src@),
        ensures
            r == extend_next_str_spec(*f, k2 as int, sp, t@, accept_newlines),
    {
        proof {
            lemma_first_str_bounds(f.src@, f.src@.len() as int, t@, k2 as int);
        }
        let n = f.chars.len();
        let to = match first_str_index(&f.chars, k2, n, t) {
            Some(e) => e,
            None => {
                return None;
            },
        };
        let j = skip_ws_backward(&f.chars, k2, to);
        if j > k2 && (first_char_index(&f.chars, k2, j, '\n').is_none() || accept_newlines) {
            let m = range_bytes(&f.chars, k2, j);
            proof {
                lemma_byte_offset_mono(f.src@, j as int, f.src@.len() as int);
            }
            Some(sp.with_hi(BytePos(sp.hi.0 + m)))
        } else {
            None
        }
    }

    /// Extends `sp` rightward to just before the next `pat` followed by a
    /// space, a tab or a newline (tried in that order).
    pub fn span_extend_to_next_str(&self, sp: Span, pat: &str, accept_newlines: bool) -> (r: Span)
        requires
            self.wf(),
        ensures
            match source_range(*self, sp) {
                SourceRange::Range(i, k1, k2) => {
                    let f = *self.files@[i];
                    r == match extend_next_str_spec(f, k2, sp, pat@ + seq![' '], accept_newlines) {
                        Some(s) => s,
                        None => match extend_next_str_spec(f, k2, sp, pat@ + seq!['\t'], accept_newlines) {
                            Some(s) => s,
                            None => match extend_next_str_spec(f, k2, sp, pat@ + seq!['\n'], accept_newlines) {
                                Some(s) => s,
                                None => sp,
                            },
                        },
                    }
                },
                _ => r == sp,
            },
    {
        match self.span_to_source(sp) {
            Ok((f, k1, k2)) => {
                proof {
                    lemma_range(*self, sp);
                }
                let p = chars_of(pat);
                let mut t = p.clone();
                t.push(' ');
                assert(t@ == pat@ + seq![' ']);
                if let Some(s) = self.extend_next_str_once(&f, k2, sp, &t, accept_newlines) {
                    return s;
                }
                let mut t = p.clone();
                t.push('\t');
                assert(t@ == pat@ + seq!['\t']);
                if let Some(s) = self.extend_next_str_once(&f, k2, sp, &t, accept_newlines) {
                    return s;
                }
                let mut t = p;
                t.push('\n');
                assert(t@ == pat@ + seq!['\n']);
                if let Some(s) = self.extend_next_str_once(&f, k2, sp, &t, accept_newlines) {
                    return s;
                }
                sp
            },
            Err(_) => sp,
        }
    }

    /// Shrinks `sp` to end before the first `c` in it, trailing whitespace
    /// dropped, when that leaves text with no newline. A dummy span stays.
    pub fn span_until_char(&self, sp: Span, c: char) -> (r: Span)
        requires
            self.wf(),
        ensures
            sp.spec_is_dummy() ==> r == sp,
            !sp.spec_is_dummy() ==> match source_range(*self, sp) {
                SourceRange::Range(i, k1, k2) => r == until_char_spec(*self.files@[i], k1, k2, sp, c),
                _ => r == sp,
            },
    {
        if sp.is_dummy() {
            return sp;
        }
        match self.span_to_source(sp) {
            Ok((f, k1, k2)) => {
                proof {
                    lemma_range(*self, sp);
                    lemma_first_char_bounds(f.src@, k1 as int, k2 as int, c);
                }
                let to = match first_char_index(&f.chars, k1, k2, c) {
                    Some(e) => e,
                    None => {
                        return sp;
                    },
                };
                let j = skip_ws_backward(&f.chars, k1, to);
                if j > k1 && first_char_index(&f.chars, k1, j, '\n').is_none() {
                    let m = range_bytes(&f.chars, k1, j);
                    proof {
                        lemma_byte_offset_mono(f.src@, j as int, f.src@.len() as int);
                    }
                    sp.with_hi(BytePos(sp.lo.0 + m))
                } else {
                    sp
                }
            },
            Err(_) => sp,
        }
    }

    /// Shrinks `sp` to end just after the first `c` in it. A dummy span
    /// stays, and so does a span without `c`.
    pub fn span_through_char(&self, sp: Span, c: char) -> (r: Span)
        requires
            self.wf(),
        ensures
            sp.spec_is_dummy() ==> r == sp,
            !sp.spec_is_dummy() ==> match source_range(*self, sp) {
                SourceRange::Range(i, k1, k2) => r == through_char_spec(*self.files@[i], k1, k2, sp, c),
                _ => r == sp,
            },
    {
        if sp.is_dummy() {
            return sp;
        }
        match self.span_to_source(sp) {
            Ok((f, k1, k2)) => {
                proof {
                    lemma_range(*self, sp);
                    lemma_first_char_bounds(f.src@, k1 as int, k2 as int, c);
                }
                match first_char_index(&f.chars, k1, k2, c) {
                    Some(e) => {
                        let m = range_bytes(&f.chars, k1, e + 1);
                        proof {
                            lemma_byte_offset_mono(f.src@, e + 1, f.src@.len() as int);
                        }
                        sp.with_hi(BytePos(sp.lo.0 + m))
                    },
                    None => sp,
                }
            },
            Err(_) => sp,
        }
    }

    /// Shrinks `sp` to its first token and the whitespace after it.
    pub fn span_until_non_whitespace(&self, sp: Span) -> (r: Span)
        requires
            self.wf(),
        ensures
            match source_range(*self, sp) {
                SourceRange::Range(i, k1, k2) => {
                    let f = *self.files@[i];
                    r == Span::new_spec(sp.lo, pos_of(f, ws_end(f.src@, non_ws_end(f.src@, k1, k2), k2)))
                },
                _ => r == sp,
            },
    {
        match self.span_to_source(sp) {
            Ok((f, k1, k2)) => {
                proof {
                    lemma_range(*self, sp);
                }
                let t = skip_non_ws_forward(&f.chars, k1, k2);
                let j = skip_ws_forward(&f.chars, t, k2);
                let m = range_bytes(&f.chars, k1, j);
                proof {
                    lemma_byte_offset_mono(f.src@, j as int, f.src@.len() as int);
                }
                sp.with_hi(BytePos(sp.lo.0 + m))
            },
            Err(_) => sp,
        }
    }

    /// Shrinks `sp` to its first token, without the whitespace after it.
    pub fn span_until_whitespace(&self, sp: Span) -> (r: Span)
        requires
            self.wf(),
        ensures
            match source_range(*self, sp) {
                SourceRange::Range(i, k1, k2) => {
                    let f = *self.files@[i];
                    r == Span::new_spec(sp.lo, pos_of(f, non_ws_end(f.src@, k1, k2)))
                },
                _ => r == sp,
            },
    {
        match self.span_to_source(sp) {
            Ok((f, k1, k2)) => {
                proof {
                    lemma_range(*self, sp);
                }
                let j = skip_non_ws_forward(&f.chars, k1, k2);
                let m = range_bytes(&f.chars, k1, j);
                proof {
                    lemma_byte_offset_mono(f.src@, j as int, f.src@.len() as int);
                }
                sp.with_hi(BytePos(sp.lo.0 + m))
            },
            Err(_) => sp,
        }
    }

    /// `sp` cut before the opening brace of a definition.
    pub fn def_span(&self, sp: Span) -> (r: Span)
        requires
            self.wf(),
        ensures
            sp.spec_is_dummy() ==> r == sp,
            !sp.spec_is_dummy() ==> match source_range(*self, sp) {
                SourceRange::Range(i, k1, k2) => r == until_char_spec(*self.files@[i], k1, k2, sp, '{'),
                _ => r == sp,
            },
    {
        self.span_until_char(sp, '{')
    }

    /// The number of bytes of leading whitespace on the line where `sp`
    /// begins, up to `sp`.
    pub fn span_to_margin(&self, sp: Span) -> (r: Option<usize>)
        requires
            self.wf(),
        ensures
            match source_range(*self, sp) {
                SourceRange::Range(i, k1, k2) => {
                    let f = *self.files@[i];
                    let j0 = last_char_in(f.src@, 0, k1, '\n') + 1;
                    r == Some((byte_offset(f.src@, ws_end(f.src@, j0, k1)) - byte_offset(f.src@, j0)) as usize)
                },
                _ => r is None,
            },
    {
        match self.span_to_source(sp) {
            Ok((f, k1, k2)) => {
                proof {
                    lemma_range(*self, sp);
                    lemma_last_char_bounds(f.src@, 0, k1 as int, '\n');
                }
                let j0 = match last_char_index(&f.chars, 0, k1, '\n') {
                    Some(p) => p + 1,
                    None => 0,
                };
                let j = skip_ws_forward(&f.chars, j0, k1);
                Some(range_bytes(&f.chars, j0, j) as usize)
            },
            Err(_) => None,
        }
    }
}

impl SourceMap {
    /// Shrinks `sp` to the longest prefix of its text whose characters all
    /// satisfy `predicate`.
    pub fn span_take_while<P>(&self, sp: Span, predicate: P) -> (r: Span) where P: Fn(char) -> bool,
        requires
            self.wf(),
            forall|c: char| #[trigger] predicate.requires((c,)),
        ensures
            match source_range(*self, sp) {
                SourceRange::Range(i, k1, k2) => {
                    let f = *self.files@[i];
                    exists|j: int|
                        k1 <= j <= k2 && r == Span::new_spec(sp.lo, pos_of(f, j)) && (forall|m: int|
                            k1 <= m < j ==> #[trigger] predicate.ensures((f.src@[m],), true)) && (j < k2
                            ==> predicate.ensures((f.src@[j],), false))
                },
                _ => r == sp,
            },
    {
        match self.span_to_source(sp) {
            Ok((f, k1, k2)) => {
                proof {
                    lemma_range(*self, sp);
                }
                let mut j = k1;
                while j < k2
                    invariant
                        f.wf(),
                        k1 <= j <= k2 <= f.src@.len(),
                        forall|c: char| #[trigger] predicate.requires((c,)),
                        forall|m: int| k1 <= m < j ==> #[trigger] predicate.ensures((f.src@[m],), true),
                    ensures
                        k1 <= j <= k2,
                        forall|m: int| k1 <= m < j ==> #[trigger] predicate.ensures((f.src@[m],), true),
                        j < k2 ==> predicate.ensures((f.src@[j as int],), false),
                    decreases k2 - j,
                {
                    let c = f.chars[j];
                    let keep = predicate(c);
                    if !keep {
                        break;
                    }
                    j = j + 1;
                }
                let m = range_bytes(&f.chars, k1, j);
                proof {
                    lemma_byte_offset_mono(f.src@, j as int, f.src@.len() as int);
                }
                let r = sp.with_hi(BytePos(sp.lo.0 + m));
                assert(r == Span::new_spec(sp.lo, pos_of(*f, j as int)));
                r
            },
            Err(_) => sp,
        }
    }
}

/// The adjusters hand a span back unchanged when the character they look
/// for is not in the text they search.
pub proof fn lemma_char_adjusters_absent(f: SourceFile, k1: int, k2: int, sp: Span, c: char)
    requires
        0 <= k1 <= k2 <= f.src@.len(),
    ensures
        (forall|m: int| k1 <= m < k2 ==> f.src@[m] != c) ==> through_char_spec(f, k1, k2, sp, c) == sp
            && until_char_spec(f, k1, k2, sp, c) == sp,
        (forall|m: int| 0 <= m < k1 ==> f.src@[m] != c) ==> extend_prev_char_spec(f, k1, sp, c) == sp,
        (forall|m: int| k2 <= m < f.src@.len() ==> f.src@[m] != c) ==> extend_next_char_spec(f, k2, sp, c)
            == sp,
{
    if forall|m: int| k1 <= m < k2 ==> f.src@[m] != c {
        lemma_first_char_absent(f.src@, k1, k2, c);
    }
    if forall|m: int| 0 <= m < k1 ==> f.src@[m] != c {
        lemma_last_char_absent(f.src@, 0, k1, c);
    }
    if forall|m: int| k2 <= m < f.src@.len() ==> f.src@[m] != c {
        lemma_first_char_absent(f.src@, k2, f.src@.len() as int, c);
    }
}

/// A pattern that does not occur before (after) the span makes that try of
/// extending to it fail; when the tries with all three delimiters fail, the
/// span comes back unchanged.
pub proof fn lemma_str_adjusters_absent(f: SourceFile, k1: int, k2: int, sp: Span, t: Seq<char>, accept_newlines: bool)
    requires
        0 <= k1 <= k2 <= f.src@.len(),
        last_str_in(f.src@, k1, t, k1) == -1,
        first_str_in(f.src@, f.src@.len() as int, t, k2) == -1,
    ensures
        extend_prev_str_spec(f, k1, sp, t, accept_newlines) is None,
        extend_next_str_spec(f, k2, sp, t, accept_newlines) is None,
{
}

proof fn lemma_last_char_absent(s: Seq<char>, lo: int, hi: int, c: char)
    requires
        forall|m: int| lo <= m < hi ==> s[m] != c,
    ensures
        last_char_in(s, lo, hi, c) == -1,
    decreases hi - lo,
{
    if lo < hi {
        lemma_last_char_absent(s, lo, hi - 1, c);
    }
}

proof fn lemma_first_char_absent(s: Seq<char>, lo: int, hi: int, c: char)
    requires
        forall|m: int| lo <= m < hi ==> s[m] != c,
    ensures
        first_char_in(s, lo, hi, c) == -1,
    decreases hi - lo,
{
    if lo < hi {
        lemma_first_char_absent(s, lo + 1, hi, c);
    }
}

} // verus!
