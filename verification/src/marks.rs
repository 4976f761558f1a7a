//! The removal state that the strategies pass along: for each chunk, whether
//! it is removed, by which strategy, and in favour of which chunk.

use vstd::prelude::*;

verus! {

/// The ten strategies of the classifier, in the order in which they run.
#[derive(Clone, Copy, Debug, PartialEq, Eq, Structural)]
pub enum Strategy {
    /// Chunks that share their opener with a later take.
    SharedOpener,
    /// Chunks between a removed take and its keeper.
    ZoneFill,
    /// Chunks highly similar to a later chunk.
    HighSimilarity,
    /// Fragments and continuations next to removed chunks.
    FragmentCleanup,
    /// Chunks that are not in the transcript's language.
    OffLanguage,
    /// Chunks sandwiched between removed chunks, and tiny neighbours.
    SandwichCleanup,
    /// Chunks superseded by a later, longer take.
    Superseded,
    /// Zone fill for the pairs found after the first zone fill.
    ZoneRefill,
    /// Chunks deep inside a removed zone.
    ExtendedZone,
    /// Short fragments left behind a removed chunk.
    OrphanFragment,
}

/// The record that a strategy leaves on a chunk it removes. A mark, once
/// set, is never changed or cleared.
#[derive(Clone, Copy, Debug, PartialEq, Eq)]
pub struct Mark {
    /// The strategy that removed the chunk.
    pub strategy: Strategy,
    /// The chunk in whose favour it was removed, where the strategy names
    /// one.
    pub keeper: Option<usize>,
}

/// Whether chunk `i` is removed. Positions outside the list are not.
pub open spec fn removed(marks: Seq<Option<Mark>>, i: int) -> bool {
    0 <= i < marks.len() && marks[i] is Some
}

/// `later` extends `earlier`: it has the same length and keeps every mark
/// of `earlier` as it is.
pub open spec fn extends(later: Seq<Option<Mark>>, earlier: Seq<Option<Mark>>) -> bool {
    &&& later.len() == earlier.len()
    &&& forall|i: int| 0 <= i < earlier.len() && earlier[i] is Some ==> later[i] == earlier[i]
}

/// Every keeper named by a mark is a position of the list.
pub open spec fn keepers_in_range(marks: Seq<Option<Mark>>) -> bool {
    forall|i: int|
        0 <= i < marks.len() && (#[trigger] marks[i]) is Some && marks[i]->0.keeper is Some
            ==> marks[i]->0.keeper->0 < marks.len()
}

pub proof fn lemma_extends_transitive(
    a: Seq<Option<Mark>>,
    b: Seq<Option<Mark>>,
    c: Seq<Option<Mark>>,
)
    requires
        extends(b, a),
        extends(c, b),
    ensures
        extends(c, a),
{
}

/// Extending the marks never makes a removed chunk kept again.
pub proof fn lemma_extends_keeps_removed(later: Seq<Option<Mark>>, earlier: Seq<Option<Mark>>, i: int)
    requires
        extends(later, earlier),
        removed(earlier, i),
    ensures
        removed(later, i),
{
}

pub fn is_removed(marks: &Vec<Option<Mark>>, i: usize) -> (b: bool)
    ensures
        b == removed(marks@, i as int),
{
    i < marks.len() && marks[i].is_some()
}

/// A list of `n` chunks, none removed.
pub open spec fn unmarked(n: nat) -> Seq<Option<Mark>> {
    Seq::new(n, |i: int| None::<Mark>)
}

pub fn no_marks(n: usize) -> (marks: Vec<Option<Mark>>)
    ensures
        marks@ == unmarked(n as nat),
        keepers_in_range(marks@),
{
    let mut marks: Vec<Option<Mark>> = Vec::new();
    let mut i: usize = 0;
    while i < n
        invariant
            i <= n,
            marks.len() == i,
            forall|k: int| 0 <= k < i ==> marks@[k] is None,
        decreases n - i,
    {
        marks.push(None);
        i += 1;
    }
    proof {
        assert(marks@ =~= unmarked(n as nat));
    }
    marks
}

impl Strategy {
    /// The short name of the strategy, by its place in the order.
    pub fn tag(&self) -> (s: &'static str)
        ensures
            s@ == strategy_tag(*self),
    {
        match self {
            Strategy::SharedOpener => "S1",
            Strategy::ZoneFill => "S2",
            Strategy::HighSimilarity => "S3",
            Strategy::FragmentCleanup => "S4",
            Strategy::OffLanguage => "S5",
            Strategy::SandwichCleanup => "S6",
            Strategy::Superseded => "S7",
            Strategy::ZoneRefill => "S8",
            Strategy::ExtendedZone => "S9",
            Strategy::OrphanFragment => "S10",
        }
    }
}

pub open spec fn strategy_tag(s: Strategy) -> Seq<char> {
    match s {
        Strategy::SharedOpener => "S1"@,
        Strategy::ZoneFill => "S2"@,
        Strategy::HighSimilarity => "S3"@,
        Strategy::FragmentCleanup => "S4"@,
        Strategy::OffLanguage => "S5"@,
        Strategy::SandwichCleanup => "S6"@,
        Strategy::Superseded => "S7"@,
        Strategy::ZoneRefill => "S8"@,
        Strategy::ExtendedZone => "S9"@,
        Strategy::OrphanFragment => "S10"@,
    }
}

} // verus!
