//! One-character spans at the ends of a span.
use vstd::prelude::*;
use crate::pos::{BytePos, Span};
use crate::source_file::{char_index_for, SourceFile};
use crate::source_map::SourceMap;

verus! {

/// The first offset from `t` on that starts a character of `f`, or `t`
/// once it reaches `len`.
pub open spec fn next_boundary(f: SourceFile, t: int, len: int) -> int
    decreases len - t,
{
    if t >= len || char_index_for(f.src@, t) >= 0 {
        t
    } else {
        next_boundary(f, t + 1, len)
    }
}

/// The last offset from `t` down that starts a character of `f`, stopping
/// at 0.
pub open spec fn prev_boundary(f: SourceFile, t: int, len: int) -> int
    decreases t,
{
    if t >= len || t <= 0 || char_index_for(f.src@, t) >= 0 {
        t
    } else {
        prev_boundary(f, t - 1, len)
    }
}

/// The byte width of the character before the end of `sp` (or after it,
/// `forwards`); 1 where it cannot be told.
pub open spec fn char_width_at(sm: SourceMap, sp: Span, forwards: bool) -> int {
    if sp.lo.0 >= sp.hi.0 {
        1
    } else if sm.file_index(sp.lo) < 0 || sm.file_index(sp.hi) < 0 || sm.file_index(sp.lo) != sm.file_index(sp.hi) {
        1
    } else {
        let f = *sm.files@[sm.file_index(sp.lo)];
        let s = sp.lo.0 - f.start_pos.0;
        let e = sp.hi.0 - f.start_pos.0;
        let len = f.len_bytes() as int;
        if !forwards && e == 0 {
            1
        } else if s > e || e > len || char_index_for(f.src@, s) < 0 {
            1
        } else if forwards {
            next_boundary(f, e + 1, len) - e
        } else {
            e - prev_boundary(f, e - 1, len)
        }
    }
}

impl SourceMap {
    /// The width in bytes of the character just before the end of `sp`, or
    /// just after it when `forwards`.
    pub fn find_width_of_character_at_span(&self, sp: Span, forwards: bool) -> (r: u32)
        requires
            self.wf(),
        ensures
            r == char_width_at(*self, sp, forwards),
    {
        if sp.lo.0 >= sp.hi.0 {
            return 1;
        }
        let local_begin = match self.try_lookup_byte_offset(sp.lo) {
            Ok(v) => v,
            Err(_) => {
                return 1;
            },
        };
        let local_end = match self.try_lookup_byte_offset(sp.hi) {
            Ok(v) => v,
            Err(_) => {
                return 1;
            },
        };
        proof {
            self.lemma_starts_sorted();
            self.lemma_file_index(sp.lo);
            self.lemma_file_index(sp.hi);
        }
        if local_begin.sf.start_pos.0 != local_end.sf.start_pos.0 {
            proof {
                let i = self.file_index(sp.lo);
                let j = self.file_index(sp.hi);
                assert(i != j);
            }
            return 1;
        }
        proof {
            let i = self.file_index(sp.lo);
            let j = self.file_index(sp.hi);
            if i != j {
                if i < j {
                    assert(self.files@[i].start_pos.0 < self.files@[j].start_pos.0);
                } else {
                    assert(self.files@[j].start_pos.0 < self.files@[i].start_pos.0);
                }
            }
            assert(self.files@[i].wf());
        }
        let f = local_begin.sf;
        let start_index = local_begin.pos.0 as usize;
        let end_index = local_end.pos.0 as usize;
        if !forwards && end_index == 0 {
            return 1;
        }
        let source_len = (f.end_pos.0 - f.start_pos.0) as usize;
        if start_index > end_index || end_index > source_len {
            return 1;
        }
        if f.char_index_at(start_index).is_none() {
            return 1;
        }
        proof {
            assert(f.start_pos.0 >= 1);
        }
        if forwards {
            let mut target = end_index + 1;
            while target < source_len && f.char_index_at(target).is_none()
                invariant
                    f.wf(),
                    end_index < target,
                    source_len == f.len_bytes(),
                    target <= source_len + 1,
                    next_boundary(*f, end_index + 1, source_len as int) == next_boundary(*f, target as int, source_len as int),
                decreases source_len - target,
            {
                target = target + 1;
            }
            assert(next_boundary(*f, target as int, source_len as int) == target);
            (target - end_index) as u32
        } else {
            let mut target = end_index - 1;
            loop
                invariant
                    f.wf(),
                    target < end_index <= source_len,
                    source_len == f.len_bytes(),
                    prev_boundary(*f, end_index - 1, source_len as int) == prev_boundary(*f, target as int, source_len as int),
                ensures
                    target < end_index,
                    prev_boundary(*f, end_index - 1, source_len as int) == target,
                decreases target,
            {
                if target >= source_len || target == 0 || f.char_index_at(target).is_some() {
                    assert(prev_boundary(*f, target as int, source_len as int) == target);
                    break;
                }
                target = target - 1;
            }
            (end_index - target) as u32
        }
    }

    /// The span of the first character of `sp`.
    pub fn start_point(&self, sp: Span) -> (r: Span)
        requires
            self.wf(),
        ensures
            ({
                let w = char_width_at(*self, sp, false);
                let corrected = if sp.lo.0 + w <= u32::MAX { sp.lo.0 + w } else { sp.lo.0 as int };
                r == sp.with_hi_spec(BytePos(corrected as u32))
            }),
    {
        let pos = sp.lo.0;
        let width = self.find_width_of_character_at_span(sp, false);
        let corrected_start_position = match pos.checked_add(width) {
            Some(p) => p,
            None => pos,
        };
        let end_point = BytePos(if corrected_start_position >= sp.lo.0 { corrected_start_position } else { sp.lo.0 });
        sp.with_hi(end_point)
    }

    /// The span of the last character of `sp`.
    pub fn end_point(&self, sp: Span) -> (r: Span)
        requires
            self.wf(),
        ensures
            ({
                let w = char_width_at(*self, sp, false);
                let corrected = if sp.hi.0 >= w { sp.hi.0 - w } else { sp.hi.0 as int };
                let e = if corrected >= sp.lo.0 { corrected } else { sp.lo.0 as int };
                r == sp.with_lo_spec(BytePos(e as u32))
            }),
    {
        let pos = sp.hi.0;
        let width = self.find_width_of_character_at_span(sp, false);
        let corrected_end_position = match pos.checked_sub(width) {
            Some(p) => p,
            None => pos,
        };
        let end_point = BytePos(if corrected_end_position >= sp.lo.0 { corrected_end_position } else { sp.lo.0 });
        sp.with_lo(end_point)
    }

    /// The span of the character just after `sp`.
    pub fn next_point(&self, sp: Span) -> (r: Span)
        requires
            self.wf(),
        ensures
            ({
                let w = char_width_at(*self, sp, true);
                let start = sp.hi.0 as int;
                let step = if w >= 1 { w - 1 } else { 0 };
                let end = if start + step <= u32::MAX { start + step } else { start };
                let lo1 = if sp.lo.0 < u32::MAX { sp.lo.0 + 1 } else { sp.lo.0 as int };
                r == Span::new_spec(BytePos(start as u32), BytePos((if lo1 >= end { lo1 } else { end }) as u32))
            }),
    {
        let start_of_next_point = sp.hi.0;
        let width = self.find_width_of_character_at_span(sp, true);
        let step = if width >= 1 { width - 1 } else { 0 };
        let end_of_next_point = match start_of_next_point.checked_add(step) {
            Some(p) => p,
            None => start_of_next_point,
        };
        let lo1 = if sp.lo.0 < u32::MAX { sp.lo.0 + 1 } else { sp.lo.0 };
        let end_of_next_point = BytePos(if lo1 >= end_of_next_point { lo1 } else { end_of_next_point });
        Span::new(BytePos(start_of_next_point), end_of_next_point)
    }
}

} // verus!
