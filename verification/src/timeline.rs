//! Points and spans on the media timeline, and the editing modes that scale
//! the thresholds applied to them.

use vstd::prelude::*;

verus! {

/// A point on the media timeline, in whole milliseconds from its start.
pub type Millis = u64;

/// The signed distance in milliseconds from `earlier` to `later`.
pub open spec fn gap_ms(later: Millis, earlier: Millis) -> int {
    later as int - earlier as int
}

/// Computes the signed distance from `earlier` to `later`.
pub fn gap_between(later: Millis, earlier: Millis) -> (g: i128)
    ensures
        g == gap_ms(later, earlier),
{
    later as i128 - earlier as i128
}

/// A half-open span `[start, end)` of the timeline.
#[derive(Clone, Copy, Debug, PartialEq, Eq, Structural)]
pub struct Segment {
    pub start: Millis,
    pub end: Millis,
}

impl Segment {
    /// A span is valid when it has positive duration.
    pub open spec fn valid(self) -> bool {
        self.start < self.end
    }

    /// Whether the instant `t` lies inside the span.
    pub open spec fn contains(self, t: int) -> bool {
        self.start <= t < self.end
    }

    /// The length of the span; zero for spans that are not valid.
    pub open spec fn span(self) -> int {
        if self.start < self.end {
            self.end - self.start
        } else {
            0
        }
    }

    pub fn new(start: Millis, end: Millis) -> (s: Segment)
        ensures
            s.start == start,
            s.end == end,
    {
        Segment { start, end }
    }

    pub fn is_valid(&self) -> (b: bool)
        ensures
            b == self.valid(),
    {
        self.start < self.end
    }

    pub fn duration(&self) -> (d: Millis)
        ensures
            d == self.span(),
    {
        if self.start < self.end {
            self.end - self.start
        } else {
            0
        }
    }
}

/// Whether some span of `segs` contains the instant `t`.
pub open spec fn covered(segs: Seq<Segment>, t: int) -> bool {
    exists|i: int| 0 <= i < segs.len() && (#[trigger] segs[i]).contains(t)
}

/// How aggressively material is cut. The mode fixes every threshold of the
/// range builder.
#[derive(Clone, Copy, Debug, PartialEq, Eq, Structural)]
pub enum ProcessingMode {
    Aggressive,
    Moderate,
    Conservative,
}

impl ProcessingMode {
    /// Removal spans closer than this are merged into one.
    pub open spec fn merge_gap_ms(self) -> int {
        match self {
            ProcessingMode::Aggressive => 1500,
            ProcessingMode::Moderate => 1000,
            ProcessingMode::Conservative => 500,
        }
    }

    /// Keep spans shorter than this are dropped.
    pub open spec fn min_keep_ms(self) -> int {
        match self {
            ProcessingMode::Aggressive => 1200,
            ProcessingMode::Moderate => 800,
            ProcessingMode::Conservative => 300,
        }
    }

    /// The longest pause between two kept chunks that stays inside one keep
    /// range.
    pub open spec fn max_keep_gap_ms(self) -> int {
        match self {
            ProcessingMode::Aggressive => 1500,
            ProcessingMode::Moderate => 2500,
            ProcessingMode::Conservative => 4000,
        }
    }

    /// The margin added at both ends of a keep range built from chunks.
    pub open spec fn padding_ms(self) -> int {
        match self {
            ProcessingMode::Aggressive => 80,
            ProcessingMode::Moderate => 100,
            ProcessingMode::Conservative => 150,
        }
    }

    pub fn merge_gap(&self) -> (g: Millis)
        ensures
            g == self.merge_gap_ms(),
    {
        match self {
            ProcessingMode::Aggressive => 1500,
            ProcessingMode::Moderate => 1000,
            ProcessingMode::Conservative => 500,
        }
    }

    pub fn min_keep_duration(&self) -> (d: Millis)
        ensures
            d == self.min_keep_ms(),
    {
        match self {
            ProcessingMode::Aggressive => 1200,
            ProcessingMode::Moderate => 800,
            ProcessingMode::Conservative => 300,
        }
    }

    pub fn max_keep_gap(&self) -> (g: Millis)
        ensures
            g == self.max_keep_gap_ms(),
    {
        match self {
            ProcessingMode::Aggressive => 1500,
            ProcessingMode::Moderate => 2500,
            ProcessingMode::Conservative => 4000,
        }
    }

    pub fn padding(&self) -> (p: Millis)
        ensures
            p == self.padding_ms(),
    {
        match self {
            ProcessingMode::Aggressive => 80,
            ProcessingMode::Moderate => 100,
            ProcessingMode::Conservative => 150,
        }
    }
}

} // verus!
