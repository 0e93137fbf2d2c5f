//! Byte-offset ranges into source text.

use crate::rich::Describe;
use crate::text::{decimal, push_decimal};
use vstd::prelude::*;

verus! {

/// A half-open range `[start, end)` of byte offsets into the source text.
#[derive(Clone, Copy, Debug, PartialEq, Eq, Structural, Hash)]
pub struct Span {
    pub start: usize,
    pub end: usize,
}

impl Span {
    /// The span `[start, end)`.
    pub fn new(start: usize, end: usize) -> (r: Span)
        ensures
            r.start == start,
            r.end == end,
    {
        Span { start, end }
    }

    /// The number of bytes the span covers; zero when `end` is not past `start`.
    pub open spec fn spec_len(self) -> nat {
        if self.end >= self.start {
            (self.end - self.start) as nat
        } else {
            0
        }
    }

    /// Spans are ordered by `start`, then by `end`.
    pub open spec fn precedes(self, other: Span) -> bool {
        self.start < other.start || (self.start == other.start && self.end < other.end)
    }

    /// Whether `self` lies entirely inside `outer`.
    pub open spec fn within(self, outer: Span) -> bool {
        outer.start <= self.start && self.end <= outer.end
    }

    /// Decides [`Span::within`].
    pub fn is_within(&self, outer: &Span) -> (r: bool)
        ensures
            r == self.within(*outer),
    {
        outer.start <= self.start && self.end <= outer.end
    }

    /// Decides [`Span::precedes`].
    pub fn is_before(&self, other: &Span) -> (r: bool)
        ensures
            r == self.precedes(*other),
    {
        self.start < other.start || (self.start == other.start && self.end < other.end)
    }
}

impl Describe for Span {
    /// The offsets of the span: `start..end`.
    open spec fn description(&self) -> Seq<char> {
        decimal(self.start as nat) + ".."@ + decimal(self.end as nat)
    }

    fn describe(&self) -> (r: String) {
        let mut r = String::new();
        push_decimal(&mut r, self.start as u64);
        r.append("..");
        push_decimal(&mut r, self.end as u64);
        assert(r@ =~= self.description());
        r
    }
}

} // verus!
