//! The measurements that the strategies take of chunks: pauses between
//! neighbours, shared content words, coverage ratios, and the search for a
//! later chunk that restates an earlier one.

use vstd::prelude::*;
use crate::timeline::gap_between;
use crate::profile::{ProfileView, ChunkProfile, profile_views, profiles_wf};
use crate::marks::{Mark, removed, is_removed};

verus! {

/// The pause assumed where a chunk has no neighbour: far longer than any
/// threshold.
pub open spec fn far_ms() -> int {
    999_000
}

/// The pause between chunk `i` and the chunk before it.
pub open spec fn pause_before(pv: Seq<ProfileView>, i: int) -> int {
    if 0 < i < pv.len() {
        pv[i].start - pv[i - 1].end
    } else {
        far_ms()
    }
}

/// The pause between chunk `i` and the chunk after it.
pub open spec fn pause_after(pv: Seq<ProfileView>, i: int) -> int {
    if 0 <= i && i + 1 < pv.len() {
        pv[i + 1].start - pv[i].end
    } else {
        far_ms()
    }
}

/// The time from the end of chunk `i` to the start of chunk `j`.
pub open spec fn distance(pv: Seq<ProfileView>, i: int, j: int) -> int {
    pv[j].start - pv[i].end
}

/// The number of content words that chunks `i` and `j` have in common.
pub open spec fn shared(pv: Seq<ProfileView>, i: int, j: int) -> nat {
    pv[i].content.intersect(pv[j].content).len()
}

/// The number of content words of chunk `i`.
pub open spec fn content_len(pv: Seq<ProfileView>, i: int) -> nat {
    pv[i].content.len()
}

/// Whether `part` is at least `percent` hundredths of `whole`.
pub open spec fn reaches_percent(part: int, whole: int, percent: int) -> bool {
    part * 100 >= percent * whole
}

pub fn pause_before_ms(p: &Vec<ChunkProfile>, i: usize) -> (g: i128)
    requires
        i < p.len(),
    ensures
        g == pause_before(profile_views(p@), i as int),
{
    if i > 0 {
        gap_between(p[i].start, p[i - 1].end)
    } else {
        999_000
    }
}

pub fn pause_after_ms(p: &Vec<ChunkProfile>, i: usize) -> (g: i128)
    requires
        i < p.len(),
    ensures
        g == pause_after(profile_views(p@), i as int),
{
    if i + 1 < p.len() {
        gap_between(p[i + 1].start, p[i].end)
    } else {
        999_000
    }
}

pub fn distance_ms(p: &Vec<ChunkProfile>, i: usize, j: usize) -> (g: i128)
    requires
        i < p.len(),
        j < p.len(),
    ensures
        g == distance(profile_views(p@), i as int, j as int),
{
    gap_between(p[j].start, p[i].end)
}

pub fn shared_count(p: &Vec<ChunkProfile>, i: usize, j: usize) -> (n: usize)
    requires
        profiles_wf(p@),
        i < p.len(),
        j < p.len(),
    ensures
        n == shared(profile_views(p@), i as int, j as int),
        n <= content_len(profile_views(p@), i as int),
{
    p[i].content.shared_count(&p[j].content)
}

pub fn content_count(p: &Vec<ChunkProfile>, i: usize) -> (n: usize)
    requires
        profiles_wf(p@),
        i < p.len(),
    ensures
        n == content_len(profile_views(p@), i as int),
{
    p[i].content.len()
}

/// Whether `part` is at least `percent` hundredths of `whole`.
pub fn percent_reached(part: usize, whole: u128, percent: u8) -> (b: bool)
    requires
        whole <= 0x2_0000_0000_0000_0000,
    ensures
        b == reaches_percent(part as int, whole as int, percent as int),
{
    let lhs: u128 = part as u128 * 100;
    assert(percent as u128 * whole <= 255 * 0x2_0000_0000_0000_0000) by (nonlinear_arith)
        requires
            percent <= 255,
            whole <= 0x2_0000_0000_0000_0000,
    ;
    let rhs: u128 = percent as u128 * whole;
    lhs >= rhs
}

/// The four searches for a later chunk that restates an earlier one.
#[derive(Clone, Copy, Debug, PartialEq, Eq, Structural)]
pub enum Lookahead {
    /// A later chunk of at least eight words with highly similar content.
    HighSimilarity,
    /// A later chunk at least twice as long that covers most of the content.
    Superseded,
    /// A chunk close behind that covers half of a cut-short chunk's content.
    CutShort,
    /// A longer chunk close behind that covers half of a short chunk's
    /// content.
    Restated,
}

impl Lookahead {
    /// How far behind the earlier chunk's end a later chunk may start.
    pub open spec fn reach(self) -> int {
        match self {
            Lookahead::HighSimilarity => 200_000,
            Lookahead::Superseded => 300_000,
            Lookahead::CutShort => 60_000,
            Lookahead::Restated => 120_000,
        }
    }

    /// The position at which the search started behind chunk `i` ends.
    pub open spec fn limit(self, i: int, n: int) -> int {
        match self {
            Lookahead::HighSimilarity => n,
            Lookahead::Superseded => n,
            Lookahead::CutShort => if i + 8 < n {
                i + 8
            } else {
                n
            },
            Lookahead::Restated => if i + 10 < n {
                i + 10
            } else {
                n
            },
        }
    }

    /// Whether chunk `j` is looked at: the first two searches pass over
    /// removed chunks, the first also over chunks of fewer than eight words.
    pub open spec fn eligible(self, pv: Seq<ProfileView>, marks: Seq<Option<Mark>>, j: int) -> bool {
        match self {
            Lookahead::HighSimilarity => !removed(marks, j) && pv[j].word_count >= 8,
            Lookahead::Superseded => !removed(marks, j),
            Lookahead::CutShort => true,
            Lookahead::Restated => true,
        }
    }

    /// Whether the later chunk `j` restates the earlier chunk `i`.
    pub open spec fn hit(self, pv: Seq<ProfileView>, i: int, j: int) -> bool {
        let sh = shared(pv, i, j) as int;
        let ci = content_len(pv, i) as int;
        let cj = content_len(pv, j) as int;
        match self {
            Lookahead::HighSimilarity => {
                &&& distance(pv, i, j) >= 0
                &&& sh >= 5
                &&& (reaches_percent(sh, pv[i].content.union(pv[j].content).len() as int, 35) || (
                reaches_percent(sh, if ci <= cj { ci } else { cj }, 55) && pv[j].word_count
                    > pv[i].word_count))
            },
            Lookahead::Superseded => {
                &&& distance(pv, i, j) >= 0
                &&& cj >= 3
                &&& reaches_percent(sh, ci, 70)
                &&& pv[j].word_count >= 2 * pv[i].word_count
                &&& sh >= 4
            },
            Lookahead::CutShort => reaches_percent(sh, ci, 50),
            Lookahead::Restated => {
                &&& sh >= 1
                &&& reaches_percent(sh, ci, 50)
                &&& pv[j].word_count > pv[i].word_count
            },
        }
    }
}

/// The first chunk from `j` up to, but not including, `end` that restates
/// chunk `i`. The search passes over chunks that are not eligible and stops
/// without result at the first eligible chunk beyond reach.
pub open spec fn first_hit(
    kind: Lookahead,
    pv: Seq<ProfileView>,
    marks: Seq<Option<Mark>>,
    i: int,
    j: int,
    end: int,
) -> Option<int>
    decreases end - j,
{
    if j >= end {
        None
    } else if !kind.eligible(pv, marks, j) {
        first_hit(kind, pv, marks, i, j + 1, end)
    } else if distance(pv, i, j) > kind.reach() {
        None
    } else if kind.hit(pv, i, j) {
        Some(j)
    } else {
        first_hit(kind, pv, marks, i, j + 1, end)
    }
}

/// The later chunk that restates chunk `i`, if the search finds one.
pub open spec fn restated_by(
    kind: Lookahead,
    pv: Seq<ProfileView>,
    marks: Seq<Option<Mark>>,
    i: int,
) -> Option<int> {
    first_hit(kind, pv, marks, i, i + 1, kind.limit(i, pv.len() as int))
}

/// A hit of the search lies behind its starting point and before its end.
pub proof fn lemma_first_hit_range(
    kind: Lookahead,
    pv: Seq<ProfileView>,
    marks: Seq<Option<Mark>>,
    i: int,
    j: int,
    end: int,
)
    ensures
        first_hit(kind, pv, marks, i, j, end) is Some ==> j <= first_hit(
            kind,
            pv,
            marks,
            i,
            j,
            end,
        )->0 < end,
    decreases end - j,
{
    if j < end {
        lemma_first_hit_range(kind, pv, marks, i, j + 1, end);
    }
}

impl Lookahead {
    pub fn reach_ms(&self) -> (r: i128)
        ensures
            r == self.reach(),
    {
        match self {
            Lookahead::HighSimilarity => 200_000,
            Lookahead::Superseded => 300_000,
            Lookahead::CutShort => 60_000,
            Lookahead::Restated => 120_000,
        }
    }

    pub fn limit_index(&self, i: usize, n: usize) -> (end: usize)
        requires
            i < n,
        ensures
            end == self.limit(i as int, n as int),
            i < end <= n,
    {
        match self {
            Lookahead::HighSimilarity => n,
            Lookahead::Superseded => n,
            Lookahead::CutShort => if n - i > 8 {
                i + 8
            } else {
                n
            },
            Lookahead::Restated => if n - i > 10 {
                i + 10
            } else {
                n
            },
        }
    }

    pub fn is_eligible(&self, p: &Vec<ChunkProfile>, marks: &Vec<Option<Mark>>, j: usize) -> (b:
        bool)
        requires
            j < p.len(),
        ensures
            b == self.eligible(profile_views(p@), marks@, j as int),
    {
        match self {
            Lookahead::HighSimilarity => !is_removed(marks, j) && p[j].word_count >= 8,
            Lookahead::Superseded => !is_removed(marks, j),
            Lookahead::CutShort => true,
            Lookahead::Restated => true,
        }
    }

    pub fn is_hit(&self, p: &Vec<ChunkProfile>, i: usize, j: usize) -> (b: bool)
        requires
            profiles_wf(p@),
            i < p.len(),
            j < p.len(),
        ensures
            b == self.hit(profile_views(p@), i as int, j as int),
    {
        let sh = shared_count(p, i, j);
        let ci = content_count(p, i);
        let cj = content_count(p, j);
        match self {
            Lookahead::HighSimilarity => {
                if distance_ms(p, i, j) < 0 || sh < 5 {
                    return false;
                }
                let union = p[i].content.union_count(&p[j].content);
                let least: usize = if ci <= cj {
                    ci
                } else {
                    cj
                };
                percent_reached(sh, union, 35) || (percent_reached(sh, least as u128, 55)
                    && p[j].word_count > p[i].word_count)
            },
            Lookahead::Superseded => {
                distance_ms(p, i, j) >= 0 && cj >= 3 && percent_reached(sh, ci as u128, 70)
                    && p[j].word_count as u128 >= 2 * (p[i].word_count as u128) && sh >= 4
            },
            Lookahead::CutShort => percent_reached(sh, ci as u128, 50),
            Lookahead::Restated => {
                sh >= 1 && percent_reached(sh, ci as u128, 50) && p[j].word_count
                    > p[i].word_count
            },
        }
    }
}

/// Searches behind chunk `i` for the first chunk that restates it.
pub fn find_restatement(
    kind: Lookahead,
    p: &Vec<ChunkProfile>,
    marks: &Vec<Option<Mark>>,
    i: usize,
) -> (found: Option<usize>)
    requires
        profiles_wf(p@),
        i < p.len(),
    ensures
        match restated_by(kind, profile_views(p@), marks@, i as int) {
            Some(j) => found == Some(j as usize) && i < j < p.len(),
            None => found is None,
        },
{
    let ghost pv = profile_views(p@);
    let end = kind.limit_index(i, p.len());
    let mut j: usize = i + 1;
    while j < end
        invariant
            i < j <= end <= p.len(),
            profiles_wf(p@),
            pv == profile_views(p@),
            first_hit(kind, pv, marks@, i as int, j as int, end as int) == restated_by(
                kind,
                pv,
                marks@,
                i as int,
            ),
        decreases end - j,
    {
        if kind.is_eligible(p, marks, j) {
            if distance_ms(p, i, j) > kind.reach_ms() {
                return None;
            }
            if kind.is_hit(p, i, j) {
                return Some(j);
            }
        }
        j += 1;
    }
    None
}

} // verus!
