//! The rule by which each strategy decides whether to remove a chunk, given
//! the chunks' profiles and the marks set so far.

use vstd::prelude::*;
use crate::profile::{ProfileView, ChunkProfile, profile_views, profiles_wf};
use crate::marks::{Mark, Strategy, removed, is_removed};
use crate::measures::{
    Lookahead, far_ms, pause_before, pause_after, distance, shared, content_len, reaches_percent,
    restated_by, pause_before_ms, pause_after_ms, distance_ms, shared_count, content_count,
    percent_reached, find_restatement,
};
use crate::openers::{shared_opener_keeper, find_shared_opener_keeper};

verus! {

/// Fragment and continuation cleanup: a chunk goes when it is tiny and
/// sandwiched between removed chunks, tiny and close behind a removed chunk,
/// cut short and next to a removed chunk, a short continuation close behind
/// a removed chunk, or when a chunk close behind it restates its content.
pub open spec fn fragment_rule(pv: Seq<ProfileView>, marks: Seq<Option<Mark>>, i: int) -> bool {
    let wc = pv[i].word_count;
    let pr = removed(marks, i - 1);
    let nr = removed(marks, i + 1);
    let gb = pause_before(pv, i);
    ||| wc < 5 && pr && nr
    ||| wc < 4 && pr && gb < 5_000
    ||| pv[i].truncated && wc < 10 && (pr || nr)
    ||| pv[i].lowercase && wc < 15 && pr && gb < 5_000
    ||| pv[i].truncated && wc < 12 && content_len(pv, i) > 0 && restated_by(
        Lookahead::CutShort,
        pv,
        marks,
        i,
    ) is Some
    ||| 3 <= wc <= 15 && content_len(pv, i) > 0 && restated_by(Lookahead::Restated, pv, marks, i)
        is Some
}

/// Off-language filtering: a chunk of at least three words goes when fewer
/// than a tenth of its tokens belong to the core vocabulary.
pub open spec fn off_language_rule(pv: Seq<ProfileView>, i: int) -> bool {
    pv[i].token_count > 0 && 10 * pv[i].core_hits < pv[i].token_count && pv[i].word_count >= 3
}

/// Sandwiched and tiny cleanup: a chunk goes when it lies between removed
/// chunks with short pauses on both sides and has at most twenty words, has
/// at most three words and a removed neighbour, or has at most five words
/// and a removed neighbour a short pause away.
pub open spec fn sandwich_rule(pv: Seq<ProfileView>, marks: Seq<Option<Mark>>, i: int) -> bool {
    let wc = pv[i].word_count;
    let pr = removed(marks, i - 1);
    let nr = removed(marks, i + 1);
    let gb = pause_before(pv, i);
    let ga = pause_after(pv, i);
    ||| pr && nr && gb < 10_000 && ga < 10_000 && wc <= 20
    ||| wc <= 3 && (pr || nr)
    ||| wc <= 5 && ((pr && gb < 5_000) || (nr && ga < 5_000))
}

/// Extended zone cleanup: a chunk goes when at least two removed chunks
/// flank it on each side and it has at most fifteen words, or when at least
/// three removed chunks precede it, the pause before it is short and it has
/// at most ten words.
pub open spec fn extended_zone_rule(pv: Seq<ProfileView>, marks: Seq<Option<Mark>>, i: int) -> bool {
    let wc = pv[i].word_count;
    let two_before = removed(marks, i - 1) && removed(marks, i - 2);
    let three_before = two_before && removed(marks, i - 3);
    let two_after = removed(marks, i + 1) && removed(marks, i + 2);
    ||| two_before && two_after && wc <= 15
    ||| three_before && wc <= 10 && pause_before(pv, i) < 5_000
}

/// The first chunk from `j` on that is not removed.
pub open spec fn next_survivor(marks: Seq<Option<Mark>>, j: int) -> Option<int>
    decreases marks.len() - j,
{
    if j >= marks.len() || j < 0 {
        None
    } else if !removed(marks, j) {
        Some(j)
    } else {
        next_survivor(marks, j + 1)
    }
}

/// The last chunk before `j` that is not removed.
pub open spec fn prev_survivor(marks: Seq<Option<Mark>>, j: int) -> Option<int>
    decreases j,
{
    if j <= 0 || j > marks.len() {
        None
    } else if !removed(marks, j - 1) {
        Some(j - 1)
    } else {
        prev_survivor(marks, j - 1)
    }
}

/// The pause between chunk `i` and the next chunk that is not removed.
pub open spec fn pause_to_survivor(pv: Seq<ProfileView>, marks: Seq<Option<Mark>>, i: int) -> int {
    match next_survivor(marks, i + 1) {
        Some(j) => distance(pv, i, j),
        None => far_ms(),
    }
}

/// Orphan fragment cleanup: a chunk of at most eight words goes when it
/// follows a removed chunk and a long pause separates it from the next
/// chunk that is kept.
pub open spec fn orphan_rule(pv: Seq<ProfileView>, marks: Seq<Option<Mark>>, i: int) -> bool {
    pv[i].word_count <= 8 && removed(marks, i - 1) && pause_to_survivor(pv, marks, i) > 20_000
}

/// Zone fill: a chunk between a removed take and its keeper `k` goes when
/// it is short and close behind a removed chunk, a continuation close
/// behind a removed chunk, cut short or very short behind a removed chunk,
/// or when it shares enough of its content with the keeper. The strict form
/// asks more of chunks longer than twenty words.
pub open spec fn zone_rule(
    strict: bool,
    pv: Seq<ProfileView>,
    marks: Seq<Option<Mark>>,
    b: int,
    k: int,
) -> bool {
    let wc = pv[b].word_count;
    let pr = removed(marks, b - 1);
    let gap = pause_before(pv, b);
    let sh = shared(pv, b, k) as int;
    let min_shared: int = if strict && wc > 20 {
        4
    } else {
        3
    };
    let min_coverage: int = if strict && wc > 20 {
        40
    } else {
        25
    };
    ||| wc < 8 && pr && gap < 10_000
    ||| pv[b].lowercase && pr && gap < 5_000 && wc < 20
    ||| pv[b].truncated && wc < 12 && pr
    ||| wc < 5 && pr
    ||| wc >= 5 && content_len(pv, b) > 0 && sh >= min_shared && reaches_percent(
        sh,
        content_len(pv, b) as int,
        min_coverage,
    )
}

/// The keeper that a pairing strategy names for chunk `i`, if it removes
/// the chunk.
pub open spec fn paired_keeper(
    kind: Strategy,
    pv: Seq<ProfileView>,
    marks: Seq<Option<Mark>>,
    i: int,
) -> Option<int> {
    match kind {
        Strategy::SharedOpener => shared_opener_keeper(pv, i),
        Strategy::HighSimilarity => if pv[i].word_count >= 8 && content_len(pv, i) >= 3 {
            restated_by(Lookahead::HighSimilarity, pv, marks, i)
        } else {
            None
        },
        Strategy::Superseded => if content_len(pv, i) >= 3 {
            restated_by(Lookahead::Superseded, pv, marks, i)
        } else {
            None
        },
        _ => None,
    }
}

/// Whether a cleanup strategy removes chunk `i`.
pub open spec fn cleanup_rule(
    kind: Strategy,
    pv: Seq<ProfileView>,
    marks: Seq<Option<Mark>>,
    i: int,
) -> bool {
    match kind {
        Strategy::FragmentCleanup => fragment_rule(pv, marks, i),
        Strategy::OffLanguage => off_language_rule(pv, i),
        Strategy::SandwichCleanup => sandwich_rule(pv, marks, i),
        Strategy::ExtendedZone => extended_zone_rule(pv, marks, i),
        Strategy::OrphanFragment => orphan_rule(pv, marks, i),
        _ => false,
    }
}

/// The mark that strategy `kind` sets on chunk `i`, not yet removed, given
/// the marks set so far; `None` where it leaves the chunk alone. The two
/// zone-fill strategies do not decide chunk by chunk and set no mark here.
pub open spec fn decide(kind: Strategy, pv: Seq<ProfileView>, marks: Seq<Option<Mark>>, i: int)
    -> Option<Mark> {
    match paired_keeper(kind, pv, marks, i) {
        Some(k) => Some(Mark { strategy: kind, keeper: Some(k as usize) }),
        None => if cleanup_rule(kind, pv, marks, i) {
            Some(Mark { strategy: kind, keeper: None })
        } else {
            None
        },
    }
}

pub fn check_fragment(p: &Vec<ChunkProfile>, marks: &Vec<Option<Mark>>, i: usize) -> (b: bool)
    requires
        profiles_wf(p@),
        i < p.len(),
    ensures
        b == fragment_rule(profile_views(p@), marks@, i as int),
{
    let wc = p[i].word_count;
    let pr = i > 0 && is_removed(marks, i - 1);
    let nr = i < usize::MAX && is_removed(marks, i + 1);
    let gb = pause_before_ms(p, i);
    if wc < 5 && pr && nr {
        return true;
    }
    if wc < 4 && pr && gb < 5_000 {
        return true;
    }
    if p[i].truncated && wc < 10 && (pr || nr) {
        return true;
    }
    if p[i].lowercase && wc < 15 && pr && gb < 5_000 {
        return true;
    }
    let has_content = content_count(p, i) > 0;
    if p[i].truncated && wc < 12 && has_content && find_restatement(
        Lookahead::CutShort,
        p,
        marks,
        i,
    ).is_some() {
        return true;
    }
    3 <= wc && wc <= 15 && has_content && find_restatement(Lookahead::Restated, p, marks, i).is_some()
}

pub fn check_off_language(p: &Vec<ChunkProfile>, i: usize) -> (b: bool)
    requires
        i < p.len(),
    ensures
        b == off_language_rule(profile_views(p@), i as int),
{
    p[i].token_count > 0 && 10 * (p[i].core_hits as u128) < p[i].token_count as u128
        && p[i].word_count >= 3
}

pub fn check_sandwich(p: &Vec<ChunkProfile>, marks: &Vec<Option<Mark>>, i: usize) -> (b: bool)
    requires
        i < p.len(),
    ensures
        b == sandwich_rule(profile_views(p@), marks@, i as int),
{
    let wc = p[i].word_count;
    let pr = i > 0 && is_removed(marks, i - 1);
    let nr = i < usize::MAX && is_removed(marks, i + 1);
    let gb = pause_before_ms(p, i);
    let ga = pause_after_ms(p, i);
    (pr && nr && gb < 10_000 && ga < 10_000 && wc <= 20) || (wc <= 3 && (pr || nr)) || (wc <= 5
        && ((pr && gb < 5_000) || (nr && ga < 5_000)))
}

pub fn check_extended_zone(p: &Vec<ChunkProfile>, marks: &Vec<Option<Mark>>, i: usize) -> (b: bool)
    requires
        i < p.len(),
        marks.len() == p.len(),
    ensures
        b == extended_zone_rule(profile_views(p@), marks@, i as int),
{
    let wc = p[i].word_count;
    let two_before = i >= 2 && is_removed(marks, i - 1) && is_removed(marks, i - 2);
    let three_before = two_before && i >= 3 && is_removed(marks, i - 3);
    let two_after = p.len() - i > 2 && is_removed(marks, i + 1) && is_removed(marks, i + 2);
    (two_before && two_after && wc <= 15) || (three_before && wc <= 10 && pause_before_ms(p, i)
        < 5_000)
}

/// The first chunk from `j` on that is not removed.
pub fn find_next_survivor(marks: &Vec<Option<Mark>>, j: usize) -> (found: Option<usize>)
    ensures
        match next_survivor(marks@, j as int) {
            Some(k) => found == Some(k as usize) && j <= k < marks.len(),
            None => found is None,
        },
{
    let mut k: usize = j;
    while k < marks.len()
        invariant
            j <= k,
            next_survivor(marks@, k as int) == next_survivor(marks@, j as int),
        decreases marks.len() - k,
    {
        if !is_removed(marks, k) {
            return Some(k);
        }
        k += 1;
    }
    None
}

/// The last chunk before `j` that is not removed.
pub fn find_prev_survivor(marks: &Vec<Option<Mark>>, j: usize) -> (found: Option<usize>)
    ensures
        match prev_survivor(marks@, j as int) {
            Some(k) => found == Some(k as usize) && k < j && k < marks.len(),
            None => found is None,
        },
{
    if j > marks.len() {
        return None;
    }
    let mut k: usize = j;
    while k > 0
        invariant
            k <= j <= marks.len(),
            prev_survivor(marks@, k as int) == prev_survivor(marks@, j as int),
        decreases k,
    {
        if !is_removed(marks, k - 1) {
            return Some(k - 1);
        }
        k -= 1;
    }
    None
}

pub fn check_orphan(p: &Vec<ChunkProfile>, marks: &Vec<Option<Mark>>, i: usize) -> (b: bool)
    requires
        i < p.len(),
        marks.len() == p.len(),
    ensures
        b == orphan_rule(profile_views(p@), marks@, i as int),
{
    if !(p[i].word_count <= 8 && i > 0 && is_removed(marks, i - 1)) {
        return false;
    }
    let pause: i128 = match find_next_survivor(marks, i + 1) {
        Some(j) => distance_ms(p, i, j),
        None => 999_000,
    };
    pause > 20_000
}

pub fn check_zone(
    strict: bool,
    p: &Vec<ChunkProfile>,
    marks: &Vec<Option<Mark>>,
    b: usize,
    k: usize,
) -> (r: bool)
    requires
        profiles_wf(p@),
        b < p.len(),
        k < p.len(),
    ensures
        r == zone_rule(strict, profile_views(p@), marks@, b as int, k as int),
{
    let wc = p[b].word_count;
    let pr = b > 0 && is_removed(marks, b - 1);
    let gap = pause_before_ms(p, b);
    if wc < 8 && pr && gap < 10_000 {
        return true;
    }
    if p[b].lowercase && pr && gap < 5_000 && wc < 20 {
        return true;
    }
    if p[b].truncated && wc < 12 && pr {
        return true;
    }
    if wc < 5 && pr {
        return true;
    }
    let min_shared: usize = if strict && wc > 20 {
        4
    } else {
        3
    };
    let min_coverage: u8 = if strict && wc > 20 {
        40
    } else {
        25
    };
    let ci = content_count(p, b);
    let sh = shared_count(p, b, k);
    wc >= 5 && ci > 0 && sh >= min_shared && percent_reached(sh, ci as u128, min_coverage)
}

/// Decides what strategy `kind` does with chunk `i`.
pub fn decide_mark(kind: Strategy, p: &Vec<ChunkProfile>, marks: &Vec<Option<Mark>>, i: usize) -> (m:
    Option<Mark>)
    requires
        profiles_wf(p@),
        i < p.len(),
        marks.len() == p.len(),
    ensures
        m == decide(kind, profile_views(p@), marks@, i as int),
        m is Some ==> m->0.strategy == kind,
        m is Some && m->0.keeper is Some ==> m->0.keeper->0 < p.len(),
{
    let keeper: Option<usize> = match kind {
        Strategy::SharedOpener => find_shared_opener_keeper(p, i),
        Strategy::HighSimilarity => if p[i].word_count >= 8 && content_count(p, i) >= 3 {
            find_restatement(Lookahead::HighSimilarity, p, marks, i)
        } else {
            None
        },
        Strategy::Superseded => if content_count(p, i) >= 3 {
            find_restatement(Lookahead::Superseded, p, marks, i)
        } else {
            None
        },
        _ => None,
    };
    match keeper {
        Some(k) => Some(Mark { strategy: kind, keeper: Some(k) }),
        None => {
            let goes: bool = match kind {
                Strategy::FragmentCleanup => check_fragment(p, marks, i),
                Strategy::OffLanguage => check_off_language(p, i),
                Strategy::SandwichCleanup => check_sandwich(p, marks, i),
                Strategy::ExtendedZone => check_extended_zone(p, marks, i),
                Strategy::OrphanFragment => check_orphan(p, marks, i),
                _ => false,
            };
            if goes {
                Some(Mark { strategy: kind, keeper: None })
            } else {
                None
            }
        },
    }
}

} // verus!
