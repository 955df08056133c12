//! Spans and snippets for suggestions about function signatures.
use vstd::prelude::*;
use vstd::string::StringExecFns;
use crate::pos::{BytePos, Span};
use crate::source_map::SourceMap;
use crate::snippet::{source_range, SourceRange};
use crate::adjust::{extend_prev_str_result, pos_of, lemma_range};
use crate::scan::range_bytes;
use crate::text::lemma_byte_offset_mono;

verus! {

/// Whether the Unicode tables give `c` the Alphabetic or the Numeric
/// property.
pub uninterp spec fn alphanumeric(c: char) -> bool;

/// Relies on std's `char::is_alphanumeric`: Alphabetic or Numeric.
#[verifier::external_body]
fn is_alphanumeric(c: char) -> (r: bool)
    ensures
        r == alphanumeric(c),
{
    c.is_alphanumeric()
}

/// The first index in `[lo, hi)` of a character that cannot be part of an
/// identifier, or -1.
pub open spec fn ident_end(s: Seq<char>, lo: int, hi: int) -> int
    decreases hi - lo,
{
    if hi <= lo {
        -1
    } else if !alphanumeric(s[lo]) && s[lo] != '_' {
        lo
    } else {
        ident_end(s, lo + 1, hi)
    }
}

/// Where the generic parameters after a function name end: the first `(`
/// outside angle brackets, or `hi`.
pub open spec fn generics_end(s: Seq<char>, j: int, hi: int, depth: int) -> int
    decreases hi - j,
{
    if j >= hi {
        hi
    } else if s[j] == '<' {
        generics_end(s, j + 1, hi, depth + 1)
    } else if s[j] == '>' {
        generics_end(s, j + 1, hi, depth - 1)
    } else if s[j] == '(' && depth == 0 {
        j
    } else {
        generics_end(s, j + 1, hi, depth)
    }
}

fn ident_end_index(s: &Vec<char>, lo: usize, hi: usize) -> (r: Option<usize>)
    requires
        lo <= hi <= s@.len(),
    ensures
        r matches Some(i) ==> i == ident_end(s@, lo as int, hi as int) && lo <= i < hi,
        r is None ==> ident_end(s@, lo as int, hi as int) == -1,
{
    let mut i = lo;
    while i < hi
        invariant
            lo <= i <= hi <= s@.len(),
            ident_end(s@, lo as int, hi as int) == ident_end(s@, i as int, hi as int),
        decreases hi - i,
    {
        if !is_alphanumeric(s[i]) && s[i] != '_' {
            return Some(i);
        }
        i = i + 1;
    }
    None
}

proof fn lemma_generics_end_bounds(s: Seq<char>, j: int, hi: int, depth: int)
    requires
        j <= hi,
    ensures
        j <= generics_end(s, j, hi, depth) <= hi,
    decreases hi - j,
{
    if j < hi {
        lemma_generics_end_bounds(s, j + 1, hi, depth + 1);
        lemma_generics_end_bounds(s, j + 1, hi, depth - 1);
        lemma_generics_end_bounds(s, j + 1, hi, depth);
    }
}

/// The end of the generics that follow a function name ending at `e`.
fn generics_scan(f: &crate::source_file::SourceFile, e: usize, k2: usize) -> (t: usize)
    requires
        f.wf(),
        e <= k2 <= f.src@.len(),
    ensures
        e <= t <= k2,
        t as int == generics_end(f.src@, e as int, k2 as int, 0),
{
    let mut t = e;
    let mut depth: i64 = 0;
    proof {
        lemma_generics_end_bounds(f.src@, e as int, k2 as int, 0);
        lemma_byte_offset_mono(f.src@, 0, f.src@.len() as int);
        crate::text::lemma_byte_offset_full(f.src@);
        assert(f.src@.take(0) =~= Seq::<char>::empty());
    }
    while t < k2
        invariant
            f.wf(),
            e <= t <= k2 <= f.src@.len(),
            f.src@.len() <= u32::MAX,
            -(t - e) <= depth <= t - e,
            generics_end(f.src@, e as int, k2 as int, 0) == generics_end(f.src@, t as int, k2 as int, depth as int),
        ensures
            e <= t <= k2,
            t as int == generics_end(f.src@, e as int, k2 as int, 0),
        decreases k2 - t,
    {
        let c = f.chars[t];
        if c == '<' {
            depth = depth + 1;
        } else if c == '>' {
            depth = depth - 1;
        } else if c == '(' && depth == 0 {
            assert(generics_end(f.src@, t as int, k2 as int, depth as int) == t);
            break;
        }
        t = t + 1;
    }
    t
}

/// The text of a function name and its generics, opened for one more
/// parameter: `name<A, ` or `name<`.
fn suggestion_head(f: &crate::source_file::SourceFile, k1: usize, e: usize, t: usize) -> (r: String)
    requires
        f.wf(),
        k1 <= e <= t <= f.src@.len(),
    ensures
        r@ == if t > e && f.src@[t - 1] == '>' {
            f.src@.subrange(k1 as int, t - 1) + seq![',', ' ']
        } else {
            f.src@.subrange(k1 as int, t as int) + seq!['<']
        },
{
    let text = f.src.as_str();
    proof {
        reveal_strlit(", ");
        reveal_strlit("<");
    }
    if t > e && f.chars[t - 1] == '>' {
        text.substring_char(k1, t - 1).to_owned().concat(", ")
    } else {
        text.substring_char(k1, t).to_owned().concat("<")
    }
}

impl SourceMap {
    /// The span of the name of the function whose `fn` keyword comes
    /// before `span`.
    pub fn generate_fn_name_span(&self, span: Span) -> (r: Option<Span>)
        requires
            self.wf(),
        ensures
            ({
                let p = extend_prev_str_result(*self, span, "fn"@, true);
                match source_range(*self, p) {
                    SourceRange::Range(i, k1, k2) => {
                        let f = *self.files@[i];
                        let e = ident_end(f.src@, k1, k2);
                        if e >= 0 {
                            r == Some(Span::new_spec(p.lo, pos_of(f, e)))
                        } else {
                            r is None
                        }
                    },
                    _ => r is None,
                }
            }),
    {
        let prev_span = self.span_extend_to_prev_str(span, "fn", true);
        match self.span_to_source(prev_span) {
            Ok((f, k1, k2)) => {
                proof {
                    lemma_range(*self, prev_span);
                }
                match ident_end_index(&f.chars, k1, k2) {
                    Some(e) => {
                        let m = range_bytes(&f.chars, k1, e);
                        proof {
                            lemma_byte_offset_mono(f.src@, e as int, f.src@.len() as int);
                        }
                        Some(prev_span.with_hi(BytePos(prev_span.lo.0 + m)))
                    },
                    None => None,
                }
            },
            Err(_) => None,
        }
    }

    /// For the span of a type parameter in a function signature: the span of
    /// the function's name with its generics, and that text with the type
    /// parameter added to the generics.
    pub fn generate_local_type_param_snippet(&self, span: Span) -> (r: Option<(Span, String)>)
        requires
            self.wf(),
        ensures
            ({
                let p = extend_prev_str_result(*self, span, "fn"@, false);
                if p == span {
                    r is None
                } else {
                    match source_range(*self, p) {
                        SourceRange::Range(i, k1, k2) => {
                            let f = *self.files@[i];
                            let cs = f.src@;
                            let e = ident_end(cs, k1, k2);
                            if e < 0 {
                                r is None
                            } else {
                                let t = generics_end(cs, e, k2, 0);
                                let head = if t > e && cs[t - 1] == '>' {
                                    cs.subrange(k1, t - 1) + seq![',', ' ']
                                } else {
                                    cs.subrange(k1, t) + seq!['<']
                                };
                                let param = match source_range(*self, span) {
                                    SourceRange::Range(i2, a, b) => self.files@[i2].src@.subrange(a, b),
                                    _ => seq!['T'],
                                };
                                r matches Some((s2, text)) && s2 == Span::new_spec(p.lo, pos_of(f, t)) && text@
                                    == head + param + seq!['>']
                            }
                        },
                        _ => r is None,
                    }
                }
            }),
    {
        let sugg_span = self.span_extend_to_prev_str(span, "fn", false);
        if sugg_span == span {
            return None;
        }
        let (f, k1, k2) = match self.span_to_source(sugg_span) {
            Ok(v) => v,
            Err(_) => {
                return None;
            },
        };
        proof {
            lemma_range(*self, sugg_span);
        }
        let e = match ident_end_index(&f.chars, k1, k2) {
            Some(e) => e,
            None => {
                return None;
            },
        };
        let t = generics_scan(&f, e, k2);
        let m = range_bytes(&f.chars, k1, t);
        proof {
            lemma_byte_offset_mono(f.src@, t as int, f.src@.len() as int);
        }
        let new_span = sugg_span.with_hi(BytePos(sugg_span.lo.0 + m));
        let head = suggestion_head(&f, k1, e, t);
        proof {
            reveal_strlit("T");
            reveal_strlit(">");
        }
        let param = match self.span_to_snippet(span) {
            Ok(s) => s,
            Err(_) => String::from_str("T"),
        };
        let new_snippet = head.concat(param.as_str()).concat(">");
        Some((new_span, new_snippet))
    }
}

} // verus!
