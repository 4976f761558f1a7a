//! The retake classifier: ten strategies run in a fixed order, each adding
//! marks to those of the strategies before it.

use vstd::prelude::*;
use crate::profile::{
    ProfileView, ChunkProfile, profile_views, profiles_wf, profiles_of, build_profiles,
};
use crate::marks::{
    Mark, Strategy, removed, extends, keepers_in_range, unmarked, no_marks, is_removed,
    lemma_extends_transitive,
};
use crate::strategies::{
    decide, zone_rule, decide_mark, check_zone, next_survivor, prev_survivor, find_next_survivor,
    find_prev_survivor,
};
use crate::lexicon::{Lexicon, french_lexicon};
use crate::transcript::{SpeechChunk, chunk_views};

verus! {

/// One pass of a strategy over the chunks before `k`, in order: each chunk
/// not yet removed gets the mark the strategy decides on, given the marks as
/// they stand when the pass reaches it.
pub open spec fn sweep_upto(
    kind: Strategy,
    pv: Seq<ProfileView>,
    marks: Seq<Option<Mark>>,
    k: int,
) -> Seq<Option<Mark>>
    decreases k,
{
    if k <= 0 {
        marks
    } else {
        let m = sweep_upto(kind, pv, marks, k - 1);
        if k - 1 < m.len() && m[k - 1] is None && decide(kind, pv, m, k - 1) is Some {
            m.update(k - 1, decide(kind, pv, m, k - 1))
        } else {
            m
        }
    }
}

/// One pass of a strategy over all chunks.
pub open spec fn sweep(kind: Strategy, pv: Seq<ProfileView>, marks: Seq<Option<Mark>>) -> Seq<
    Option<Mark>,
> {
    sweep_upto(kind, pv, marks, pv.len() as int)
}

/// Up to `passes` passes of a strategy, ending early with the first pass
/// that changes nothing.
pub open spec fn sweep_repeatedly(
    kind: Strategy,
    pv: Seq<ProfileView>,
    marks: Seq<Option<Mark>>,
    passes: nat,
) -> Seq<Option<Mark>>
    decreases passes,
{
    if passes == 0 {
        marks
    } else {
        let m = sweep(kind, pv, marks);
        if m == marks {
            marks
        } else {
            sweep_repeatedly(kind, pv, m, (passes - 1) as nat)
        }
    }
}

/// The keeper of the pair at `r` if zone fill `kind` works on that pair.
/// The first zone fill works on the pairs of the shared-opener strategy;
/// the second on the pairs found by the sandwich cleanup and the
/// superseded-take detection whose keeper is still kept.
pub open spec fn zone_keeper(kind: Strategy, snapshot: Seq<Option<Mark>>, r: int) -> Option<int> {
    if 0 <= r < snapshot.len() && snapshot[r] is Some && snapshot[r]->0.keeper is Some {
        let m = snapshot[r]->0;
        let k = m.keeper->0 as int;
        if kind == Strategy::ZoneFill && m.strategy == Strategy::SharedOpener {
            Some(k)
        } else if kind == Strategy::ZoneRefill && (m.strategy == Strategy::SandwichCleanup
            || m.strategy == Strategy::Superseded) && !removed(snapshot, k) {
            Some(k)
        } else {
            None
        }
    } else {
        None
    }
}

/// Zone fill over the chunks from `lo` up to, but not including, `b`, for a
/// pair with keeper `k`.
pub open spec fn fill_zone_upto(
    kind: Strategy,
    pv: Seq<ProfileView>,
    marks: Seq<Option<Mark>>,
    k: int,
    lo: int,
    b: int,
) -> Seq<Option<Mark>>
    decreases b - lo,
{
    if b <= lo {
        marks
    } else {
        let m = fill_zone_upto(kind, pv, marks, k, lo, b - 1);
        if 0 <= b - 1 < m.len() && m[b - 1] is None && zone_rule(
            kind == Strategy::ZoneRefill,
            pv,
            m,
            b - 1,
            k,
        ) {
            m.update(b - 1, Some(Mark { strategy: kind, keeper: Some(k as usize) }))
        } else {
            m
        }
    }
}

/// Zone fill for the pairs at the positions before `r`, in ascending order
/// of the removed chunk.
pub open spec fn fill_zones_upto(
    kind: Strategy,
    pv: Seq<ProfileView>,
    snapshot: Seq<Option<Mark>>,
    marks: Seq<Option<Mark>>,
    r: int,
) -> Seq<Option<Mark>>
    decreases r,
{
    if r <= 0 {
        marks
    } else {
        let m = fill_zones_upto(kind, pv, snapshot, marks, r - 1);
        match zone_keeper(kind, snapshot, r - 1) {
            Some(k) => fill_zone_upto(kind, pv, m, k, r, k),
            None => m,
        }
    }
}

/// Zone fill for all pairs that stand in `marks` when it begins.
pub open spec fn fill_zones(kind: Strategy, pv: Seq<ProfileView>, marks: Seq<Option<Mark>>) -> Seq<
    Option<Mark>,
> {
    fill_zones_upto(kind, pv, marks, marks, marks.len() as int)
}

/// What one strategy makes of the marks it is given.
pub open spec fn apply_strategy(kind: Strategy, pv: Seq<ProfileView>, marks: Seq<Option<Mark>>)
    -> Seq<Option<Mark>> {
    match kind {
        Strategy::SharedOpener => sweep(kind, pv, marks),
        Strategy::ZoneFill => fill_zones(kind, pv, marks),
        Strategy::HighSimilarity => sweep(kind, pv, marks),
        Strategy::FragmentCleanup => sweep_repeatedly(kind, pv, marks, 5),
        Strategy::OffLanguage => sweep(kind, pv, marks),
        Strategy::SandwichCleanup => sweep_repeatedly(kind, pv, marks, 3),
        Strategy::Superseded => sweep(kind, pv, marks),
        Strategy::ZoneRefill => fill_zones(kind, pv, marks),
        Strategy::ExtendedZone => sweep_repeatedly(kind, pv, marks, 3),
        Strategy::OrphanFragment => sweep(kind, pv, marks),
    }
}

/// The strategy that runs in place `n`, counted from one.
pub open spec fn strategy_at(n: int) -> Strategy {
    if n <= 1 {
        Strategy::SharedOpener
    } else if n == 2 {
        Strategy::ZoneFill
    } else if n == 3 {
        Strategy::HighSimilarity
    } else if n == 4 {
        Strategy::FragmentCleanup
    } else if n == 5 {
        Strategy::OffLanguage
    } else if n == 6 {
        Strategy::SandwichCleanup
    } else if n == 7 {
        Strategy::Superseded
    } else if n == 8 {
        Strategy::ZoneRefill
    } else if n == 9 {
        Strategy::ExtendedZone
    } else {
        Strategy::OrphanFragment
    }
}

/// The marks after the first `n` strategies.
pub open spec fn marks_after(pv: Seq<ProfileView>, n: nat) -> Seq<Option<Mark>>
    decreases n,
{
    if n == 0 {
        unmarked(pv.len())
    } else {
        apply_strategy(strategy_at(n as int), pv, marks_after(pv, (n - 1) as nat))
    }
}

/// The marks after all ten strategies.
pub open spec fn classified(pv: Seq<ProfileView>) -> Seq<Option<Mark>> {
    marks_after(pv, 10)
}

pub proof fn lemma_sweep_extends(kind: Strategy, pv: Seq<ProfileView>, marks: Seq<Option<Mark>>, k: int)
    ensures
        extends(sweep_upto(kind, pv, marks, k), marks),
    decreases k,
{
    if k > 0 {
        lemma_sweep_extends(kind, pv, marks, k - 1);
    }
}

pub proof fn lemma_sweep_repeatedly_extends(
    kind: Strategy,
    pv: Seq<ProfileView>,
    marks: Seq<Option<Mark>>,
    passes: nat,
)
    ensures
        extends(sweep_repeatedly(kind, pv, marks, passes), marks),
    decreases passes,
{
    if passes > 0 {
        let m = sweep(kind, pv, marks);
        lemma_sweep_extends(kind, pv, marks, pv.len() as int);
        if m != marks {
            lemma_sweep_repeatedly_extends(kind, pv, m, (passes - 1) as nat);
        }
    }
}

pub proof fn lemma_fill_zone_extends(
    kind: Strategy,
    pv: Seq<ProfileView>,
    marks: Seq<Option<Mark>>,
    k: int,
    lo: int,
    b: int,
)
    ensures
        extends(fill_zone_upto(kind, pv, marks, k, lo, b), marks),
    decreases b - lo,
{
    if b > lo {
        lemma_fill_zone_extends(kind, pv, marks, k, lo, b - 1);
    }
}

pub proof fn lemma_fill_zones_extends(
    kind: Strategy,
    pv: Seq<ProfileView>,
    snapshot: Seq<Option<Mark>>,
    marks: Seq<Option<Mark>>,
    r: int,
)
    ensures
        extends(fill_zones_upto(kind, pv, snapshot, marks, r), marks),
    decreases r,
{
    if r > 0 {
        lemma_fill_zones_extends(kind, pv, snapshot, marks, r - 1);
        let m = fill_zones_upto(kind, pv, snapshot, marks, r - 1);
        match zone_keeper(kind, snapshot, r - 1) {
            Some(k) => {
                lemma_fill_zone_extends(kind, pv, m, k, r, k);
            },
            None => {},
        }
    }
}

/// No strategy changes or clears a mark that it is given: what it returns
/// extends what it received.
pub proof fn lemma_strategy_extends(kind: Strategy, pv: Seq<ProfileView>, marks: Seq<Option<Mark>>)
    ensures
        extends(apply_strategy(kind, pv, marks), marks),
{
    lemma_sweep_extends(kind, pv, marks, pv.len() as int);
    lemma_sweep_repeatedly_extends(kind, pv, marks, 5);
    lemma_sweep_repeatedly_extends(kind, pv, marks, 3);
    lemma_fill_zones_extends(kind, pv, marks, marks, marks.len() as int);
}

/// Removal is monotonic: the marks after `later` strategies extend the
/// marks after `earlier` strategies. A chunk removed by one strategy stays
/// removed, with the same mark, through every strategy that follows.
pub proof fn lemma_removal_monotonic(pv: Seq<ProfileView>, earlier: nat, later: nat)
    requires
        earlier <= later,
    ensures
        extends(marks_after(pv, later), marks_after(pv, earlier)),
        forall|i: int|
            removed(marks_after(pv, earlier), i) ==> removed(marks_after(pv, later), i),
    decreases later - earlier,
{
    if earlier < later {
        lemma_removal_monotonic(pv, earlier, (later - 1) as nat);
        lemma_strategy_extends(
            strategy_at(later as int),
            pv,
            marks_after(pv, (later - 1) as nat),
        );
    }
}

/// Runs one pass of a strategy. Returns whether the pass set a mark.
pub fn run_sweep(kind: Strategy, p: &Vec<ChunkProfile>, marks: &mut Vec<Option<Mark>>) -> (changed:
    bool)
    requires
        profiles_wf(p@),
        old(marks).len() == p.len(),
        keepers_in_range(old(marks)@),
    ensures
        final(marks)@ == sweep(kind, profile_views(p@), old(marks)@),
        extends(final(marks)@, old(marks)@),
        keepers_in_range(final(marks)@),
        changed == (final(marks)@ != old(marks)@),
{
    let ghost pv = profile_views(p@);
    let ghost start = marks@;
    let mut changed = false;
    let mut i: usize = 0;
    while i < p.len()
        invariant
            i <= p.len(),
            profiles_wf(p@),
            pv == profile_views(p@),
            marks.len() == p.len(),
            keepers_in_range(marks@),
            marks@ == sweep_upto(kind, pv, start, i as int),
            extends(marks@, start),
            !changed ==> marks@ == start,
            changed ==> exists|k: int| 0 <= k < start.len() && start[k] is None && marks@[k] is Some,
        decreases p.len() - i,
    {
        if marks[i].is_none() {
            let mark = decide_mark(kind, p, marks, i);
            if mark.is_some() {
                let ghost before = marks@;
                marks[i] = mark;
                proof {
                    assert(marks@ =~= before.update(i as int, mark));
                    assert(start[i as int] is None);
                    assert(marks@[i as int] is Some);
                }
                changed = true;
            }
        }
        i += 1;
    }
    changed
}

/// Runs up to `passes` passes of a strategy, ending early with the first
/// pass that changes nothing.
pub fn run_sweeps(kind: Strategy, p: &Vec<ChunkProfile>, marks: &mut Vec<Option<Mark>>, passes: usize)
    requires
        profiles_wf(p@),
        old(marks).len() == p.len(),
        keepers_in_range(old(marks)@),
    ensures
        final(marks)@ == sweep_repeatedly(kind, profile_views(p@), old(marks)@, passes as nat),
        extends(final(marks)@, old(marks)@),
        keepers_in_range(final(marks)@),
{
    let ghost pv = profile_views(p@);
    let ghost start = marks@;
    let mut left: usize = passes;
    while left > 0
        invariant
            profiles_wf(p@),
            pv == profile_views(p@),
            marks.len() == p.len(),
            keepers_in_range(marks@),
            extends(marks@, start),
            start == old(marks)@,
            sweep_repeatedly(kind, pv, marks@, left as nat) == sweep_repeatedly(
                kind,
                pv,
                start,
                passes as nat,
            ),
        decreases left,
    {
        let ghost before = marks@;
        let changed = run_sweep(kind, p, marks);
        proof {
            lemma_extends_transitive(start, before, marks@);
            assert(sweep(kind, pv, before) == marks@);
        }
        if !changed {
            proof {
                assert(marks@ == before);
                assert(sweep_repeatedly(kind, pv, before, left as nat) == before);
            }
            return ;
        }
        left -= 1;
    }
}

/// Runs zone fill for one pair: the chunks strictly between `r` and its
/// keeper `k`.
pub fn run_zone(kind: Strategy, p: &Vec<ChunkProfile>, marks: &mut Vec<Option<Mark>>, r: usize, k: usize)
    requires
        profiles_wf(p@),
        old(marks).len() == p.len(),
        keepers_in_range(old(marks)@),
        r < p.len(),
        k < p.len(),
    ensures
        final(marks)@ == fill_zone_upto(
            kind,
            profile_views(p@),
            old(marks)@,
            k as int,
            r + 1,
            k as int,
        ),
        extends(final(marks)@, old(marks)@),
        keepers_in_range(final(marks)@),
{
    let ghost pv = profile_views(p@);
    let ghost start = marks@;
    let strict: bool = match kind {
        Strategy::ZoneRefill => true,
        _ => false,
    };
    let mut b: usize = r + 1;
    while b < k
        invariant
            r + 1 <= b,
            b <= k || (k <= r && b == r + 1),
            k < p.len(),
            profiles_wf(p@),
            pv == profile_views(p@),
            marks.len() == p.len(),
            keepers_in_range(marks@),
            extends(marks@, start),
            strict == (kind == Strategy::ZoneRefill),
            marks@ == fill_zone_upto(kind, pv, start, k as int, r + 1, b as int),
        decreases k - b,
    {
        if marks[b].is_none() && check_zone(strict, p, marks, b, k) {
            let ghost before = marks@;
            marks[b] = Some(Mark { strategy: kind, keeper: Some(k) });
            proof {
                assert(marks@ =~= before.update(
                    b as int,
                    Some(Mark { strategy: kind, keeper: Some(k) }),
                ));
            }
        }
        b += 1;
    }
    proof {
        if k <= r {
            assert(fill_zone_upto(kind, pv, start, k as int, r + 1, k as int) == start);
            assert(fill_zone_upto(kind, pv, start, k as int, r + 1, r + 1) == start);
        }
    }
}

/// The keeper of the pair at `r` if zone fill `kind` works on that pair.
pub fn find_zone_keeper(kind: Strategy, snapshot: &Vec<Option<Mark>>, r: usize) -> (found: Option<
    usize,
>)
    requires
        r < snapshot.len(),
        keepers_in_range(snapshot@),
    ensures
        match zone_keeper(kind, snapshot@, r as int) {
            Some(k) => found == Some(k as usize) && k < snapshot.len(),
            None => found is None,
        },
{
    match snapshot[r] {
        Some(m) => match m.keeper {
            Some(k) => {
                let from_opener: bool = match (kind, m.strategy) {
                    (Strategy::ZoneFill, Strategy::SharedOpener) => true,
                    _ => false,
                };
                let from_late: bool = match (kind, m.strategy) {
                    (Strategy::ZoneRefill, Strategy::SandwichCleanup) => true,
                    (Strategy::ZoneRefill, Strategy::Superseded) => true,
                    _ => false,
                };
                if from_opener || (from_late && !is_removed(snapshot, k)) {
                    Some(k)
                } else {
                    None
                }
            },
            None => None,
        },
        None => None,
    }
}

/// Runs zone fill for every pair that stands in the marks when it begins.
pub fn run_zone_fill(kind: Strategy, p: &Vec<ChunkProfile>, marks: &mut Vec<Option<Mark>>)
    requires
        profiles_wf(p@),
        old(marks).len() == p.len(),
        keepers_in_range(old(marks)@),
    ensures
        final(marks)@ == fill_zones(kind, profile_views(p@), old(marks)@),
        extends(final(marks)@, old(marks)@),
        keepers_in_range(final(marks)@),
{
    let ghost pv = profile_views(p@);
    let snapshot = marks.clone();
    assert(snapshot@ =~= marks@);
    let mut r: usize = 0;
    while r < p.len()
        invariant
            r <= p.len(),
            profiles_wf(p@),
            pv == profile_views(p@),
            marks.len() == p.len(),
            snapshot.len() == p.len(),
            keepers_in_range(marks@),
            keepers_in_range(snapshot@),
            extends(marks@, snapshot@),
            marks@ == fill_zones_upto(kind, pv, snapshot@, snapshot@, r as int),
        decreases p.len() - r,
    {
        match find_zone_keeper(kind, &snapshot, r) {
            Some(k) => {
                run_zone(kind, p, marks, r, k);
            },
            None => {},
        }
        r += 1;
    }
}


/// Runs one strategy on the marks of the strategies before it.
pub fn run_strategy(kind: Strategy, p: &Vec<ChunkProfile>, marks: &mut Vec<Option<Mark>>)
    requires
        profiles_wf(p@),
        old(marks).len() == p.len(),
        keepers_in_range(old(marks)@),
    ensures
        final(marks)@ == apply_strategy(kind, profile_views(p@), old(marks)@),
        extends(final(marks)@, old(marks)@),
        keepers_in_range(final(marks)@),
{
    match kind {
        Strategy::SharedOpener => {
            run_sweep(kind, p, marks);
        },
        Strategy::ZoneFill => {
            run_zone_fill(kind, p, marks);
        },
        Strategy::HighSimilarity => {
            run_sweep(kind, p, marks);
        },
        Strategy::FragmentCleanup => {
            run_sweeps(kind, p, marks, 5);
        },
        Strategy::OffLanguage => {
            run_sweep(kind, p, marks);
        },
        Strategy::SandwichCleanup => {
            run_sweeps(kind, p, marks, 3);
        },
        Strategy::Superseded => {
            run_sweep(kind, p, marks);
        },
        Strategy::ZoneRefill => {
            run_zone_fill(kind, p, marks);
        },
        Strategy::ExtendedZone => {
            run_sweeps(kind, p, marks, 3);
        },
        Strategy::OrphanFragment => {
            run_sweep(kind, p, marks);
        },
    }
}

/// Runs the ten strategies, in order, on chunks given by their profiles.
///
/// The result holds one entry per chunk: the mark of the strategy that
/// removed the chunk, or `None` for a chunk that is kept.
pub fn classify_profiles(p: &Vec<ChunkProfile>) -> (marks: Vec<Option<Mark>>)
    requires
        profiles_wf(p@),
    ensures
        marks@ == classified(profile_views(p@)),
        marks.len() == p.len(),
        keepers_in_range(marks@),
{
    let ghost pv = profile_views(p@);
    let mut marks = no_marks(p.len());
    assert(marks@ == marks_after(pv, 0));
    run_strategy(Strategy::SharedOpener, p, &mut marks);
    assert(marks@ == marks_after(pv, 1));
    run_strategy(Strategy::ZoneFill, p, &mut marks);
    assert(marks@ == marks_after(pv, 2));
    run_strategy(Strategy::HighSimilarity, p, &mut marks);
    assert(marks@ == marks_after(pv, 3));
    run_strategy(Strategy::FragmentCleanup, p, &mut marks);
    assert(marks@ == marks_after(pv, 4));
    run_strategy(Strategy::OffLanguage, p, &mut marks);
    assert(marks@ == marks_after(pv, 5));
    run_strategy(Strategy::SandwichCleanup, p, &mut marks);
    assert(marks@ == marks_after(pv, 6));
    run_strategy(Strategy::Superseded, p, &mut marks);
    assert(marks@ == marks_after(pv, 7));
    run_strategy(Strategy::ZoneRefill, p, &mut marks);
    assert(marks@ == marks_after(pv, 8));
    run_strategy(Strategy::ExtendedZone, p, &mut marks);
    assert(marks@ == marks_after(pv, 9));
    run_strategy(Strategy::OrphanFragment, p, &mut marks);
    assert(marks@ == marks_after(pv, 10));
    marks
}

/// Classifies the chunks of a transcript under a lexicon.
///
/// Never fails: an empty list of chunks yields an empty list of marks.
pub fn classify(chunks: &Vec<SpeechChunk>, lex: &Lexicon) -> (marks: Vec<Option<Mark>>)
    ensures
        marks@ == classified(profiles_of(chunk_views(chunks@), lex@)),
        marks.len() == chunks.len(),
        keepers_in_range(marks@),
{
    let profiles = build_profiles(chunks, lex);
    classify_profiles(&profiles)
}

/// One line of the classifier's report: a removed chunk, the chunk held to
/// be its better take, and the strategy that removed it.
#[derive(Clone, Copy, Debug, PartialEq, Eq)]
pub struct RemovalRecord {
    pub remove_id: usize,
    pub keep_id: usize,
    pub strategy: Strategy,
}

/// The chunk reported as kept in place of a removed chunk that no strategy
/// paired: the next chunk that is kept, or else the last one before it.
pub open spec fn nominal_keeper(marks: Seq<Option<Mark>>, i: int) -> Option<int> {
    match next_survivor(marks, i + 1) {
        Some(k) => Some(k),
        None => prev_survivor(marks, i),
    }
}

/// The record of chunk `i`: none for a kept chunk, and none for a removed
/// chunk without a pair when no chunk at all is kept.
pub open spec fn record_of(marks: Seq<Option<Mark>>, i: int) -> Option<RemovalRecord> {
    if removed(marks, i) {
        let m = marks[i]->0;
        match m.keeper {
            Some(k) => Some(RemovalRecord { remove_id: i as usize, keep_id: k, strategy: m.strategy }),
            None => match nominal_keeper(marks, i) {
                Some(k) => Some(
                    RemovalRecord { remove_id: i as usize, keep_id: k as usize, strategy: m.strategy },
                ),
                None => None,
            },
        }
    } else {
        None
    }
}

/// The records of the chunks before `k`, in ascending order.
pub open spec fn records_upto(marks: Seq<Option<Mark>>, k: int) -> Seq<RemovalRecord>
    decreases k,
{
    if k <= 0 {
        Seq::empty()
    } else {
        match record_of(marks, k - 1) {
            Some(r) => records_upto(marks, k - 1).push(r),
            None => records_upto(marks, k - 1),
        }
    }
}

/// The report of a classification.
pub open spec fn records(marks: Seq<Option<Mark>>) -> Seq<RemovalRecord> {
    records_upto(marks, marks.len() as int)
}

/// A removed chunk has at most one record, records come in ascending order
/// of the removed chunk, and every record is about a removed chunk.
pub proof fn lemma_records_ascending(marks: Seq<Option<Mark>>, k: int)
    requires
        0 <= k <= marks.len() <= usize::MAX,
    ensures
        records_upto(marks, k).len() <= k,
        forall|a: int|
            0 <= a < records_upto(marks, k).len() ==> (#[trigger] records_upto(
                marks,
                k,
            )[a]).remove_id < k && removed(marks, records_upto(marks, k)[a].remove_id as int),
        forall|a: int, b: int|
            0 <= a < b < records_upto(marks, k).len() ==> records_upto(marks, k)[a].remove_id
                < records_upto(marks, k)[b].remove_id,
    decreases k,
{
    if k > 0 {
        lemma_records_ascending(marks, k - 1);
        let prev = records_upto(marks, k - 1);
        let cur = records_upto(marks, k);
        match record_of(marks, k - 1) {
            Some(r) => {
                assert(cur == prev.push(r));
                assert(r.remove_id == k - 1);
                assert forall|a: int| 0 <= a < cur.len() implies (#[trigger] cur[a]).remove_id < k
                    && removed(marks, cur[a].remove_id as int) by {
                    if a < prev.len() {
                        assert(cur[a] == prev[a]);
                    }
                }
                assert forall|a: int, b: int| 0 <= a < b < cur.len() implies cur[a].remove_id
                    < cur[b].remove_id by {
                    assert(cur[a] == prev[a]);
                    if b < prev.len() {
                        assert(cur[b] == prev[b]);
                    }
                }
            },
            None => {
                assert(cur == prev);
            },
        }
    }
}

/// Writes the report of a classification: one record per removed chunk,
/// in ascending order. A chunk that no strategy paired is reported with the
/// nearest kept chunk, the next one if there is one.
pub fn removal_records(marks: &Vec<Option<Mark>>) -> (out: Vec<RemovalRecord>)
    ensures
        out@ == records(marks@),
        out.len() <= marks.len(),
{
    let mut out: Vec<RemovalRecord> = Vec::new();
    let mut i: usize = 0;
    while i < marks.len()
        invariant
            i <= marks.len(),
            out.len() <= i,
            out@ == records_upto(marks@, i as int),
        decreases marks.len() - i,
    {
        match marks[i] {
            Some(m) => {
                let keeper: Option<usize> = match m.keeper {
                    Some(k) => Some(k),
                    None => match find_next_survivor(marks, i + 1) {
                        Some(k) => Some(k),
                        None => find_prev_survivor(marks, i),
                    },
                };
                match keeper {
                    Some(k) => {
                        out.push(RemovalRecord { remove_id: i, keep_id: k, strategy: m.strategy });
                    },
                    None => {},
                }
            },
            None => {},
        }
        i += 1;
    }
    out
}

/// The flags of the chunks that are kept: `true` where no mark is set.
pub open spec fn kept_flags(marks: Seq<Option<Mark>>) -> Seq<bool> {
    Seq::new(marks.len(), |i: int| marks[i] is None)
}

/// Reads off which chunks a classification keeps.
pub fn kept_chunks(marks: &Vec<Option<Mark>>) -> (kept: Vec<bool>)
    ensures
        kept@ == kept_flags(marks@),
{
    let mut kept: Vec<bool> = Vec::new();
    let mut i: usize = 0;
    while i < marks.len()
        invariant
            i <= marks.len(),
            kept.len() == i,
            forall|k: int| 0 <= k < i ==> kept@[k] == (marks@[k] is None),
        decreases marks.len() - i,
    {
        kept.push(marks[i].is_none());
        i += 1;
    }
    proof {
        assert(kept@ =~= kept_flags(marks@));
    }
    kept
}

/// Detects the retakes among the chunks of a French transcript and reports
/// them: runs the ten strategies and returns one record per removed chunk.
pub fn detect_all_retake_pairs(chunks: &Vec<SpeechChunk>) -> (out: Vec<RemovalRecord>)
    ensures
        out@ == records(classified(profiles_of(chunk_views(chunks@), french_lexicon()))),
        out.len() <= chunks.len(),
{
    let lex = Lexicon::french();
    let marks = classify(chunks, &lex);
    removal_records(&marks)
}


/// Whether `id` names a chunk that the classification keeps.
pub open spec fn survives(marks: Seq<Option<Mark>>, id: usize) -> bool {
    id < marks.len() && marks[id as int] is None
}

/// The ids among `ids` that name chunks the classification keeps, in
/// order.
pub open spec fn surviving_ids(ids: Seq<usize>, marks: Seq<Option<Mark>>) -> Seq<usize> {
    ids.filter(|id: usize| survives(marks, id))
}

/// Checks a keep list that came from outside against the classification:
/// ids that name no chunk, or a chunk already removed, are dropped.
pub fn retain_surviving(ids: &Vec<usize>, marks: &Vec<Option<Mark>>) -> (out: Vec<usize>)
    ensures
        out@ == surviving_ids(ids@, marks@),
        out.len() <= ids.len(),
{
    let mut out: Vec<usize> = Vec::new();
    let mut i: usize = 0;
    proof {
        reveal(Seq::filter);
    }
    while i < ids.len()
        invariant
            i <= ids.len(),
            out.len() <= i,
            out@ == surviving_ids(ids@.take(i as int), marks@),
        decreases ids.len() - i,
    {
        proof {
            reveal(Seq::filter);
            assert(ids@.take(i + 1).drop_last() =~= ids@.take(i as int));
        }
        let id = ids[i];
        if id < marks.len() && marks[id].is_none() {
            out.push(id);
        }
        i += 1;
    }
    proof {
        assert(ids@.take(i as int) =~= ids@);
    }
    out
}

} // verus!
