//! Shared-opener groups: chunks that begin with the same three words, split
//! into runs of takes that follow each other closely, and the test by which
//! an earlier take is given up for the last one of its run.

use vstd::prelude::*;
use crate::text::views;
use crate::ngrams::window_eq;
use crate::profile::{ProfileView, ChunkProfile, profile_views, profiles_wf};
use crate::measures::{
    distance, shared, content_len, reaches_percent, distance_ms, shared_count, content_count,
    percent_reached,
};

verus! {

/// The longest pause between two takes of one run.
pub open spec fn run_gap_ms() -> int {
    120_000
}

/// Whether chunk `j` belongs to an opener group: it has an opener and at
/// least three words.
pub open spec fn grouped(pv: Seq<ProfileView>, j: int) -> bool {
    0 <= j < pv.len() && pv[j].opener is Some && pv[j].word_count >= 3
}

/// Whether chunk `j` has the opener of chunk `i`.
pub open spec fn same_opener(pv: Seq<ProfileView>, i: int, j: int) -> bool {
    pv[i].opener is Some && pv[j].opener == pv[i].opener
}

/// Whether chunk `j` belongs to the opener group of chunk `i`.
pub open spec fn mates(pv: Seq<ProfileView>, i: int, j: int) -> bool {
    grouped(pv, j) && same_opener(pv, i, j)
}

/// The last take of the run, followed from take `cur` through the chunks
/// from `j` on: the run goes on with the next chunk of the group unless that
/// chunk starts more than the run gap after `cur` ends.
pub open spec fn chain_end(pv: Seq<ProfileView>, i: int, cur: int, j: int) -> int
    decreases pv.len() - j,
{
    if j >= pv.len() {
        cur
    } else if mates(pv, i, j) {
        if distance(pv, cur, j) > run_gap_ms() {
            cur
        } else {
            chain_end(pv, i, j, j + 1)
        }
    } else {
        chain_end(pv, i, cur, j + 1)
    }
}

/// The first take of the run, followed back from take `cur` through the
/// chunks from `j` down.
pub open spec fn chain_start(pv: Seq<ProfileView>, i: int, cur: int, j: int) -> int
    decreases j + 1,
{
    if j < 0 {
        cur
    } else if mates(pv, i, j) {
        if distance(pv, j, cur) > run_gap_ms() {
            cur
        } else {
            chain_start(pv, i, j, j - 1)
        }
    } else {
        chain_start(pv, i, cur, j - 1)
    }
}

/// The keeper of the run of chunk `i`: its temporally last take.
pub open spec fn run_keeper(pv: Seq<ProfileView>, i: int) -> int {
    chain_end(pv, i, i, i + 1)
}

/// The first take of the run of chunk `i`.
pub open spec fn run_first(pv: Seq<ProfileView>, i: int) -> int {
    chain_start(pv, i, i, i - 1)
}

/// The number of chunks before `k` that have the opener of chunk `i`.
pub open spec fn opener_count(pv: Seq<ProfileView>, i: int, k: int) -> int
    decreases k,
{
    if k <= 0 {
        0
    } else {
        opener_count(pv, i, k - 1) + if same_opener(pv, i, k - 1) {
            1int
        } else {
            0int
        }
    }
}

/// How often the opener of chunk `i` occurs among all chunks.
pub open spec fn opener_frequency(pv: Seq<ProfileView>, i: int) -> int {
    opener_count(pv, i, pv.len() as int)
}

/// Whether two takes of the group of chunk `i` between `first` and `last`
/// share at least `least` content words: the sign that the run repeats a
/// topic, not just a phrase.
pub open spec fn run_overlaps(pv: Seq<ProfileView>, i: int, first: int, last: int, least: int) -> bool {
    exists|a: int, b: int|
        first <= a < b <= last && mates(pv, i, a) && mates(pv, i, b) && #[trigger] shared(pv, a, b)
            >= least
}

/// How much an opener proves by itself.
#[derive(Clone, Copy, Debug, PartialEq, Eq, Structural)]
pub enum OpenerClass {
    /// A distinctive opener: two shared content words confirm a retake.
    Confident,
    /// A common or weak opener: a retake needs more shared content words
    /// and a minimum coverage, in percent, of both chunks' content.
    NeedsCorroboration { min_shared: usize, min_coverage: u8 },
}

/// The class of an opener by its weakness and its frequency.
pub open spec fn opener_class(weak: bool, frequency: int) -> OpenerClass {
    if weak {
        OpenerClass::NeedsCorroboration { min_shared: 4, min_coverage: 25 }
    } else if frequency >= 6 {
        OpenerClass::NeedsCorroboration { min_shared: 5, min_coverage: 20 }
    } else if frequency >= 4 {
        OpenerClass::NeedsCorroboration { min_shared: 4, min_coverage: 15 }
    } else {
        OpenerClass::Confident
    }
}

/// The least number of content words that two takes of a run must share
/// for the run to count as a retake sequence.
pub open spec fn min_run_shared(frequency: int) -> int {
    if frequency >= 4 {
        3
    } else {
        2
    }
}

/// Whether a take with `ci` content words is confirmed as a retake of a
/// keeper with `ck` content words, the two sharing `sh`.
pub open spec fn confirms(class: OpenerClass, sh: int, ci: int, ck: int) -> bool {
    sh >= 2 && match class {
        OpenerClass::Confident => true,
        OpenerClass::NeedsCorroboration { min_shared, min_coverage } => {
            &&& sh >= min_shared
            &&& reaches_percent(sh, ci, min_coverage as int)
            &&& reaches_percent(sh, ck, min_coverage as int)
        },
    }
}

/// The keeper in whose favour the shared-opener strategy removes chunk `i`,
/// if it removes it: chunk `i` belongs to an opener group, is not the last
/// take of its run, the run repeats a topic, and chunk `i` is confirmed
/// against the last take.
pub open spec fn shared_opener_keeper(pv: Seq<ProfileView>, i: int) -> Option<int> {
    if grouped(pv, i) {
        let k = run_keeper(pv, i);
        let f = run_first(pv, i);
        let freq = opener_frequency(pv, i);
        if k != i && run_overlaps(pv, i, f, k, min_run_shared(freq)) && confirms(
            opener_class(pv[i].weak_opener, freq),
            shared(pv, i, k) as int,
            content_len(pv, i) as int,
            content_len(pv, k) as int,
        ) {
            Some(k)
        } else {
            None
        }
    } else {
        None
    }
}

pub proof fn lemma_chain_end_range(pv: Seq<ProfileView>, i: int, cur: int, j: int)
    requires
        0 <= cur < j,
        cur < pv.len(),
    ensures
        cur <= chain_end(pv, i, cur, j) < pv.len(),
    decreases pv.len() - j,
{
    if j < pv.len() {
        if mates(pv, i, j) {
            if distance(pv, cur, j) <= run_gap_ms() {
                lemma_chain_end_range(pv, i, j, j + 1);
            }
        } else {
            lemma_chain_end_range(pv, i, cur, j + 1);
        }
    }
}

pub fn is_grouped(p: &Vec<ChunkProfile>, j: usize) -> (b: bool)
    requires
        j < p.len(),
    ensures
        b == grouped(profile_views(p@), j as int),
{
    p[j].opener.is_some() && p[j].word_count >= 3
}

pub fn has_same_opener(p: &Vec<ChunkProfile>, i: usize, j: usize) -> (b: bool)
    requires
        profiles_wf(p@),
        i < p.len(),
        j < p.len(),
    ensures
        b == same_opener(profile_views(p@), i as int, j as int),
{
    match (&p[i].opener, &p[j].opener) {
        (Some(a), Some(b)) => {
            let eq = window_eq(a, 0, b, 0, 3);
            proof {
                assert(views(a@).subrange(0, 3) =~= views(a@));
                assert(views(b@).subrange(0, 3) =~= views(b@));
            }
            eq
        },
        _ => false,
    }
}

pub fn are_mates(p: &Vec<ChunkProfile>, i: usize, j: usize) -> (b: bool)
    requires
        profiles_wf(p@),
        i < p.len(),
        j < p.len(),
    ensures
        b == mates(profile_views(p@), i as int, j as int),
{
    is_grouped(p, j) && has_same_opener(p, i, j)
}

/// The last take of the run of chunk `i`.
pub fn find_run_keeper(p: &Vec<ChunkProfile>, i: usize) -> (k: usize)
    requires
        profiles_wf(p@),
        i < p.len(),
    ensures
        k == run_keeper(profile_views(p@), i as int),
        i <= k < p.len(),
{
    let ghost pv = profile_views(p@);
    let mut cur: usize = i;
    let mut j: usize = i + 1;
    while j < p.len()
        invariant
            i <= cur < j <= p.len(),
            profiles_wf(p@),
            pv == profile_views(p@),
            chain_end(pv, i as int, cur as int, j as int) == run_keeper(pv, i as int),
        decreases p.len() - j,
    {
        if are_mates(p, i, j) {
            if distance_ms(p, cur, j) > 120_000 {
                return cur;
            }
            cur = j;
        }
        j += 1;
    }
    cur
}

/// The first take of the run of chunk `i`.
pub fn find_run_first(p: &Vec<ChunkProfile>, i: usize) -> (f: usize)
    requires
        profiles_wf(p@),
        i < p.len(),
    ensures
        f == run_first(profile_views(p@), i as int),
        f <= i,
{
    let ghost pv = profile_views(p@);
    let mut cur: usize = i;
    let mut j: usize = i;
    while j > 0
        invariant
            j <= cur <= i < p.len(),
            profiles_wf(p@),
            pv == profile_views(p@),
            chain_start(pv, i as int, cur as int, j - 1) == run_first(pv, i as int),
        decreases j,
    {
        let m: usize = j - 1;
        if are_mates(p, i, m) {
            if distance_ms(p, m, cur) > 120_000 {
                return cur;
            }
            cur = m;
        }
        j -= 1;
    }
    cur
}

/// How often the opener of chunk `i` occurs among all chunks.
pub fn count_opener(p: &Vec<ChunkProfile>, i: usize) -> (n: usize)
    requires
        profiles_wf(p@),
        i < p.len(),
    ensures
        n == opener_frequency(profile_views(p@), i as int),
{
    let ghost pv = profile_views(p@);
    let mut n: usize = 0;
    let mut k: usize = 0;
    while k < p.len()
        invariant
            k <= p.len(),
            i < p.len(),
            n <= k,
            profiles_wf(p@),
            pv == profile_views(p@),
            n == opener_count(pv, i as int, k as int),
        decreases p.len() - k,
    {
        if has_same_opener(p, i, k) {
            n += 1;
        }
        k += 1;
    }
    n
}

/// Whether two takes of the group of chunk `i` between `first` and `last`
/// share at least `least` content words.
pub fn run_has_overlap(p: &Vec<ChunkProfile>, i: usize, first: usize, last: usize, least: usize) -> (
    found: bool
)
    requires
        profiles_wf(p@),
        i < p.len(),
        first <= last < p.len(),
    ensures
        found == run_overlaps(
            profile_views(p@),
            i as int,
            first as int,
            last as int,
            least as int,
        ),
{
    let ghost pv = profile_views(p@);
    let mut a: usize = first;
    while a < last
        invariant
            first <= a <= last < p.len(),
            i < p.len(),
            profiles_wf(p@),
            pv == profile_views(p@),
            forall|x: int, y: int|
                first <= x < a && x < y <= last && mates(pv, i as int, x) && mates(pv, i as int, y)
                    ==> #[trigger] shared(pv, x, y) < least,
        decreases last - a,
    {
        if are_mates(p, i, a) {
            let mut b: usize = a + 1;
            while b <= last
                invariant
                    first <= a < b <= last + 1,
                    last < p.len(),
                    i < p.len(),
                    profiles_wf(p@),
                    pv == profile_views(p@),
                    mates(pv, i as int, a as int),
                    forall|y: int|
                        a < y < b && mates(pv, i as int, y) ==> #[trigger] shared(pv, a as int, y)
                            < least,
                decreases last + 1 - b,
            {
                if are_mates(p, i, b) && shared_count(p, a, b) >= least {
                    proof {
                        assert(shared(pv, a as int, b as int) >= least);
                    }
                    return true;
                }
                b += 1;
            }
        }
        a += 1;
    }
    false
}

/// Classifies an opener by its weakness and its frequency.
pub fn classify_opener(weak: bool, frequency: usize) -> (class: OpenerClass)
    ensures
        class == opener_class(weak, frequency as int),
{
    if weak {
        OpenerClass::NeedsCorroboration { min_shared: 4, min_coverage: 25 }
    } else if frequency >= 6 {
        OpenerClass::NeedsCorroboration { min_shared: 5, min_coverage: 20 }
    } else if frequency >= 4 {
        OpenerClass::NeedsCorroboration { min_shared: 4, min_coverage: 15 }
    } else {
        OpenerClass::Confident
    }
}

/// Whether a take is confirmed as a retake of its keeper.
pub fn is_confirmed(class: OpenerClass, sh: usize, ci: usize, ck: usize) -> (b: bool)
    ensures
        b == confirms(class, sh as int, ci as int, ck as int),
{
    if sh < 2 {
        return false;
    }
    match class {
        OpenerClass::Confident => true,
        OpenerClass::NeedsCorroboration { min_shared, min_coverage } => {
            sh >= min_shared && percent_reached(sh, ci as u128, min_coverage) && percent_reached(
                sh,
                ck as u128,
                min_coverage,
            )
        },
    }
}

/// The keeper in whose favour the shared-opener strategy removes chunk `i`.
pub fn find_shared_opener_keeper(p: &Vec<ChunkProfile>, i: usize) -> (found: Option<usize>)
    requires
        profiles_wf(p@),
        i < p.len(),
    ensures
        match shared_opener_keeper(profile_views(p@), i as int) {
            Some(k) => found == Some(k as usize) && i < k < p.len(),
            None => found is None,
        },
{
    if !is_grouped(p, i) {
        return None;
    }
    let k = find_run_keeper(p, i);
    if k == i {
        return None;
    }
    let f = find_run_first(p, i);
    let freq = count_opener(p, i);
    let least: usize = if freq >= 4 {
        3
    } else {
        2
    };
    if !run_has_overlap(p, i, f, k, least) {
        return None;
    }
    let class = classify_opener(p[i].weak_opener, freq);
    if is_confirmed(class, shared_count(p, i, k), content_count(p, i), content_count(p, k)) {
        Some(k)
    } else {
        None
    }
}

} // verus!
