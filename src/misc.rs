//! Smaller queries of a source map: by name, line counts, offsets, and the
//! text forms of locations.
use vstd::prelude::*;
use std::rc::Rc;
use vstd::string::StringExecFns;
use crate::pos::{BytePos, Span};
use crate::file_name::{display_of, FileName};
use crate::source_file::{strictly_sorted, SourceFile};
use crate::source_map::SourceMap;
use crate::char_pos::{calc_utf16_offset, lemma_extra_diff, utf16_offset, ByteToCharPosState};
use crate::lookup::loc_spec;
use crate::lines::{locatable, on_boundary_if_located};

verus! {

/// The decimal digits of `n`.
pub open spec fn decimal(n: nat) -> Seq<char>
    decreases n,
{
    if n < 10 {
        seq![digit_char(n)]
    } else {
        decimal(n / 10) + seq![digit_char(n % 10)]
    }
}

pub open spec fn digit_char(d: nat) -> char {
    if d == 0 {
        '0'
    } else if d == 1 {
        '1'
    } else if d == 2 {
        '2'
    } else if d == 3 {
        '3'
    } else if d == 4 {
        '4'
    } else if d == 5 {
        '5'
    } else if d == 6 {
        '6'
    } else if d == 7 {
        '7'
    } else if d == 8 {
        '8'
    } else {
        '9'
    }
}

fn digit_string(d: usize) -> (r: String)
    requires
        d < 10,
    ensures
        r@ == seq![digit_char(d as nat)],
{
    proof {
        reveal_strlit("0");
        reveal_strlit("1");
        reveal_strlit("2");
        reveal_strlit("3");
        reveal_strlit("4");
        reveal_strlit("5");
        reveal_strlit("6");
        reveal_strlit("7");
        reveal_strlit("8");
        reveal_strlit("9");
    }
    let s = if d == 0 {
        "0"
    } else if d == 1 {
        "1"
    } else if d == 2 {
        "2"
    } else if d == 3 {
        "3"
    } else if d == 4 {
        "4"
    } else if d == 5 {
        "5"
    } else if d == 6 {
        "6"
    } else if d == 7 {
        "7"
    } else if d == 8 {
        "8"
    } else {
        "9"
    };
    let r = String::from_str(s);
    assert(r@ =~= seq![digit_char(d as nat)]);
    r
}

/// `n` written in decimal.
pub fn to_decimal(n: usize) -> (r: String)
    ensures
        r@ == decimal(n as nat),
    decreases n,
{
    if n < 10 {
        digit_string(n)
    } else {
        let head = to_decimal(n / 10);
        let tail = digit_string(n % 10);
        head.concat(tail.as_str())
    }
}

/// The sum of the line counts of the first `n` files.
pub open spec fn total_lines(files: Seq<Rc<SourceFile>>, n: int) -> int
    decreases n,
{
    if n <= 0 {
        0
    } else {
        total_lines(files, n - 1) + files[n - 1].lines@.len()
    }
}

/// Strictly increasing positions in `[a, b)` are at most `b - a` many.
proof fn lemma_sorted_count(s: Seq<BytePos>, a: int, b: int)
    requires
        strictly_sorted(s),
        forall|i: int| 0 <= i < s.len() ==> a <= #[trigger] s[i].0 < b,
    ensures
        s.len() <= if b > a { b - a } else { 0 },
    decreases s.len(),
{
    if s.len() > 0 {
        let t = s.drop_last();
        assert(strictly_sorted(t));
        assert forall|i: int| 0 <= i < t.len() implies a <= #[trigger] t[i].0 < s.last().0 by {
            assert(t[i] == s[i]);
        }
        lemma_sorted_count(t, a, s.last().0 as int);
    }
}

proof fn lemma_total_lines(sm: &SourceMap, n: int)
    requires
        sm.wf(),
        0 <= n <= sm.files@.len(),
    ensures
        n > 0 ==> total_lines(sm.files@, n) <= sm.files@[n - 1].end_pos.0,
        total_lines(sm.files@, n) >= 0,
    decreases n,
{
    if n > 0 {
        lemma_total_lines(sm, n - 1);
        let f = sm.files@[n - 1];
        assert(f.wf());
        f.lemma_lines();
        lemma_sorted_count(f.lines@, f.start_pos.0 as int, f.end_pos.0 as int);
        if n > 1 {
            assert(sm.files@[n - 2].end_pos.0 < f.start_pos.0);
        }
    }
}

impl SourceMap {
    /// The first file registered under `filename`.
    pub fn get_source_file(&self, filename: &FileName) -> (r: Option<Rc<SourceFile>>)
        ensures
            r matches Some(f) ==> exists|i: int|
                0 <= i < self.files@.len() && self.files@[i] == f && f.name@ == filename@ && forall|j: int|
                    0 <= j < i ==> self.files@[j].name@ != filename@,
            r is None ==> forall|j: int| 0 <= j < self.files@.len() ==> self.files@[j].name@ != filename@,
    {
        let mut i: usize = 0;
        while i < self.files.len()
            invariant
                i <= self.files@.len(),
                forall|j: int| 0 <= j < i ==> self.files@[j].name@ != filename@,
            decreases self.files@.len() - i,
        {
            if self.files[i].name.eq(filename) {
                return Some(self.files[i].clone());
            }
            i = i + 1;
        }
        None
    }

    /// The number of lines of all files.
    pub fn count_lines(&self) -> (r: usize)
        requires
            self.wf(),
        ensures
            r == total_lines(self.files@, self.files@.len() as int),
    {
        let mut total: usize = 0;
        let mut i: usize = 0;
        while i < self.files.len()
            invariant
                self.wf(),
                i <= self.files@.len(),
                total == total_lines(self.files@, i as int),
            decreases self.files@.len() - i,
        {
            proof {
                lemma_total_lines(self, i + 1);
            }
            total = total + self.files[i].count_lines();
            i = i + 1;
        }
        total
    }

    /// The UTF-16 offsets of the two ends of `span` from the start of `file`.
    pub fn span_to_char_offset(&self, file: &SourceFile, span: Span) -> (r: (u32, u32))
        requires
            file.wf(),
            file.start_pos.0 <= span.lo.0,
            file.start_pos.0 <= span.hi.0,
            file.is_boundary(span.lo.0 as int),
            file.is_boundary(span.hi.0 as int),
        ensures
            r.0 == utf16_offset(*file, span.lo.0 as int),
            r.1 == utf16_offset(*file, span.hi.0 as int),
    {
        let start_offset = file.start_pos;
        let mut state = ByteToCharPosState::default();
        proof {
            state.lemma_fresh_valid(file);
            lemma_extra_diff(file, file.start_pos.0 as int, span.lo.0 as int);
            lemma_extra_diff(file, file.start_pos.0 as int, span.hi.0 as int);
        }
        let a = calc_utf16_offset(file, span.lo, &mut state);
        let start = span.lo.0 - start_offset.0 - a;
        let b = calc_utf16_offset(file, span.hi, &mut state);
        let end = span.hi.0 - start_offset.0 - b;
        (start, end)
    }

    /// `orig` moved by the line offset of a doctest, if one is set.
    pub fn doctest_offset_line(&self, orig: usize) -> (r: usize)
        requires
            self.doctest_offset matches Some((_, line)) ==> 0 <= orig + line <= usize::MAX,
        ensures
            self.doctest_offset matches Some((_, line)) ==> r == orig + line,
            self.doctest_offset is None ==> r == orig,
    {
        match &self.doctest_offset {
            Some((_, line)) => {
                let line = *line;
                if line >= 0 {
                    orig + line as usize
                } else {
                    orig - (-(line + 1)) as usize - 1
                }
            },
            None => orig,
        }
    }

    /// The name of the file where `sp` begins.
    pub fn span_to_filename(&self, sp: Span) -> (r: FileName)
        requires
            self.wf(),
            self.file_index(sp.lo) >= 0,
        ensures
            r@ == self.files@[self.file_index(sp.lo)].name@,
    {
        let f = self.lookup_source_file(sp.lo);
        f.name.duplicate()
    }

    /// The name before path remapping of the file where `sp` begins.
    pub fn span_to_unmapped_path(&self, sp: Span) -> (r: Option<FileName>)
        requires
            self.wf(),
            self.file_index(sp.lo) >= 0,
        ensures
            r matches Some(n) ==> self.files@[self.file_index(sp.lo)].unmapped_path matches Some(u) && n@ == u@,
            r is None ==> self.files@[self.file_index(sp.lo)].unmapped_path is None,
    {
        let f = self.lookup_source_file(sp.lo);
        match &f.unmapped_path {
            Some(u) => Some(u.duplicate()),
            None => None,
        }
    }

    /// `<name:line:column>` for where `sp` begins, the column counted from 1.
    pub fn mk_substr_filename(&self, sp: Span) -> (r: String)
        requires
            self.wf(),
            locatable(*self, sp.lo),
            loc_spec(*self.files@[self.file_index(sp.lo)], sp.lo.0 as int).1 + 1 <= usize::MAX,
        ensures
            ({
                let f = *self.files@[self.file_index(sp.lo)];
                let l = loc_spec(f, sp.lo.0 as int);
                r@ == seq!['<'] + display_of(f.name@) + seq![':'] + decimal(l.0 as nat) + seq![':'] + decimal(
                    (l.1 + 1) as nat,
                ) + seq!['>']
            }),
    {
        let pos = self.lookup_char_pos(sp.lo);
        proof {
            reveal_strlit("<");
            reveal_strlit(":");
            reveal_strlit(">");
        }
        let name = pos.file.name.to_display_string();
        let s = String::from_str("<").concat(name.as_str()).concat(":").concat(to_decimal(pos.line).as_str());
        let s = s.concat(":").concat(to_decimal(pos.col.0 + 1).as_str()).concat(">");
        proof {
            let f = *self.files@[self.file_index(sp.lo)];
            let l = loc_spec(f, sp.lo.0 as int);
            assert(s@ =~= seq!['<'] + display_of(f.name@) + seq![':'] + decimal(l.0 as nat) + seq![':'] + decimal(
                (l.1 + 1) as nat,
            ) + seq!['>']);
        }
        s
    }

    /// `name:line:col: line:col` for the two ends of `sp`, columns counted
    /// from 1; `no-location` when an end lies in no file.
    pub fn span_to_string(&self, sp: Span) -> (r: String)
        requires
            self.wf(),
            on_boundary_if_located(*self, sp.lo),
            on_boundary_if_located(*self, sp.hi),
            locatable(*self, sp.lo) ==> loc_spec(*self.files@[self.file_index(sp.lo)], sp.lo.0 as int).1 + 1 <= usize::MAX,
            locatable(*self, sp.hi) ==> loc_spec(*self.files@[self.file_index(sp.hi)], sp.hi.0 as int).1 + 1 <= usize::MAX,
        ensures
            !(locatable(*self, sp.lo) && locatable(*self, sp.hi)) ==> r@ == "no-location"@,
            locatable(*self, sp.lo) && locatable(*self, sp.hi) ==> ({
                let f = *self.files@[self.file_index(sp.lo)];
                let g = *self.files@[self.file_index(sp.hi)];
                let l = loc_spec(f, sp.lo.0 as int);
                let h = loc_spec(g, sp.hi.0 as int);
                r@ == display_of(f.name@) + seq![':'] + decimal(l.0 as nat) + seq![':'] + decimal((l.1 + 1) as nat)
                    + seq![':', ' '] + decimal(h.0 as nat) + seq![':'] + decimal((h.1 + 1) as nat)
            }),
    {
        if !self.is_located(sp.lo) || !self.is_located(sp.hi) {
            return String::from_str("no-location");
        }
        let lo = self.lookup_char_pos_adj(sp.lo);
        let hi = self.lookup_char_pos_adj(sp.hi);
        proof {
            reveal_strlit(":");
            reveal_strlit(": ");
        }
        let name = lo.filename.to_display_string();
        let s = name.concat(":").concat(to_decimal(lo.line).as_str()).concat(":").concat(
            to_decimal(lo.col.0 + 1).as_str(),
        );
        let s = s.concat(": ").concat(to_decimal(hi.line).as_str()).concat(":").concat(
            to_decimal(hi.col.0 + 1).as_str(),
        );
        proof {
            let f = *self.files@[self.file_index(sp.lo)];
            let g = *self.files@[self.file_index(sp.hi)];
            let l = loc_spec(f, sp.lo.0 as int);
            let h = loc_spec(g, sp.hi.0 as int);
            assert(s@ =~= display_of(f.name@) + seq![':'] + decimal(l.0 as nat) + seq![':'] + decimal((l.1 + 1) as nat)
                + seq![':', ' '] + decimal(h.0 as nat) + seq![':'] + decimal((h.1 + 1) as nat));
        }
        s
    }
}

} // verus!
