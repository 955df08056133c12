use vstd::prelude::*;

verus! {

/// Lowest position of the band reserved for comment anchors.
pub const DUMMY_RESERVE: u32 = 4294901759;

/// An absolute byte offset into the address space shared by all files.
#[derive(Clone, Copy, Debug, PartialEq, Eq, Hash, PartialOrd, Ord, Structural)]
pub struct BytePos(pub u32);

/// A character offset relative to the start of one file.
#[derive(Clone, Copy, Debug, PartialEq, Eq, Hash, PartialOrd, Ord, Structural)]
pub struct CharPos(pub usize);

impl BytePos {
    pub open spec fn spec_is_dummy(self) -> bool {
        self.0 == 0
    }

    pub open spec fn spec_is_reserved_for_comments(self) -> bool {
        self.0 >= DUMMY_RESERVE && self.0 != u32::MAX
    }

    #[verifier::when_used_as_spec(spec_is_dummy)]
    pub fn is_dummy(self) -> (r: bool)
        ensures
            r == self.spec_is_dummy(),
    {
        self.0 == 0
    }

    /// Positions in the high band are anchors for synthesized comments and
    /// never address real source text.
    #[verifier::when_used_as_spec(spec_is_reserved_for_comments)]
    pub fn is_reserved_for_comments(self) -> (r: bool)
        ensures
            r == self.spec_is_reserved_for_comments(),
    {
        self.0 >= DUMMY_RESERVE && self.0 != u32::MAX
    }

    pub fn to_u32(self) -> (r: u32)
        ensures
            r == self.0,
    {
        self.0
    }

    pub fn to_usize(self) -> (r: usize)
        ensures
            r == self.0,
    {
        self.0 as usize
    }
}

impl CharPos {
    pub fn to_usize(self) -> (r: usize)
        ensures
            r == self.0,
    {
        self.0
    }
}

/// A half-open range `[lo, hi)` of absolute byte positions.
#[derive(Clone, Copy, Debug, PartialEq, Eq, Hash, Structural)]
pub struct Span {
    pub lo: BytePos,
    pub hi: BytePos,
}

impl Span {
    /// The span that has no location.
    pub fn dummy() -> (r: Span)
        ensures
            r.lo.0 == 0 && r.hi.0 == 0,
    {
        Span { lo: BytePos(0), hi: BytePos(0) }
    }

    /// Builds a span from its two ends, ordering them so that `lo <= hi`.
    pub fn new(lo: BytePos, hi: BytePos) -> (r: Span)
        ensures
            lo.0 <= hi.0 ==> r == (Span { lo, hi }),
            lo.0 > hi.0 ==> r == (Span { lo: hi, hi: lo }),
    {
        if lo.0 > hi.0 {
            Span { lo: hi, hi: lo }
        } else {
            Span { lo, hi }
        }
    }

    pub fn lo(self) -> (r: BytePos)
        ensures
            r == self.lo,
    {
        self.lo
    }

    pub fn hi(self) -> (r: BytePos)
        ensures
            r == self.hi,
    {
        self.hi
    }

    pub open spec fn spec_is_dummy(self) -> bool {
        self.lo.0 == 0 && self.hi.0 == 0
    }

    /// A span is dummy when both of its ends are the dummy position.
    #[verifier::when_used_as_spec(spec_is_dummy)]
    pub fn is_dummy(self) -> (r: bool)
        ensures
            r == self.spec_is_dummy(),
    {
        self.lo.0 == 0 && self.hi.0 == 0
    }

    pub open spec fn with_lo_spec(self, lo: BytePos) -> Span {
        Span::new_spec(lo, self.hi)
    }

    pub open spec fn with_hi_spec(self, hi: BytePos) -> Span {
        Span::new_spec(self.lo, hi)
    }

    pub fn with_lo(self, lo: BytePos) -> (r: Span)
        ensures
            r == Span::new_spec(lo, self.hi),
    {
        Span::new(lo, self.hi)
    }

    pub fn with_hi(self, hi: BytePos) -> (r: Span)
        ensures
            r == Span::new_spec(self.lo, hi),
    {
        Span::new(self.lo, hi)
    }

    pub open spec fn new_spec(lo: BytePos, hi: BytePos) -> Span {
        if lo.0 > hi.0 {
            Span { lo: hi, hi: lo }
        } else {
            Span { lo, hi }
        }
    }

    /// The span from the lower start to the higher end of two spans.
    pub open spec fn to_spec(self, end: Span) -> Span {
        Span::new_spec(
            if self.lo.0 <= end.lo.0 { self.lo } else { end.lo },
            if self.hi.0 >= end.hi.0 { self.hi } else { end.hi },
        )
    }

    /// The smallest span that covers both `self` and `end`.
    pub fn to(self, end: Span) -> (r: Span)
        ensures
            r == self.to_spec(end),
            self.lo.0 <= self.hi.0 ==> r.lo.0 == if self.lo.0 <= end.lo.0 { self.lo.0 } else { end.lo.0 },
            self.lo.0 <= self.hi.0 ==> r.hi.0 == if self.hi.0 >= end.hi.0 { self.hi.0 } else { end.hi.0 },
    {
        let lo = if self.lo.0 <= end.lo.0 { self.lo } else { end.lo };
        let hi = if self.hi.0 >= end.hi.0 { self.hi } else { end.hi };
        Span::new(lo, hi)
    }
}

} // verus!
