//! The post-processing corrector: two repairs of a keep set that an outside
//! refinement may have changed.

use vstd::prelude::*;
use crate::profile::{
    ProfileView, ChunkProfile, profile_views, profiles_wf, profiles_of, build_profiles,
};
use crate::openers::{
    grouped, mates, run_first, run_keeper, is_grouped, are_mates, find_run_first, find_run_keeper,
};
use crate::lexicon::{Lexicon};
use crate::transcript::{SpeechChunk, chunk_views, flagged, is_flagged};

verus! {

/// Whether chunk `i` is kept once continuations are re-attached: it was
/// kept, or the chunk after it begins with a lowercase letter and is itself
/// kept once continuations are re-attached.
pub open spec fn reattached(pv: Seq<ProfileView>, kept: Seq<bool>, i: int) -> bool
    decreases pv.len() - i,
{
    if i < 0 || i >= pv.len() {
        false
    } else {
        flagged(kept, i) || (i + 1 < pv.len() && pv[i + 1].lowercase && reattached(pv, kept, i + 1))
    }
}

/// The keep set with every continuation re-attached to what it continues.
pub open spec fn with_continuations(pv: Seq<ProfileView>, kept: Seq<bool>) -> Seq<bool> {
    Seq::new(pv.len(), |i: int| reattached(pv, kept, i))
}

/// Whether the run of takes of chunk `i`, which spans from `first` to
/// `last`, has lost a take.
pub open spec fn take_dropped(pv: Seq<ProfileView>, kept: Seq<bool>, i: int, first: int, last: int) -> bool {
    exists|m: int| first <= m <= last && #[trigger] mates(pv, i, m) && !flagged(kept, m)
}

/// Whether a take of the run of chunk `i` behind `i`, up to `last`, is kept.
pub open spec fn later_take_kept(pv: Seq<ProfileView>, kept: Seq<bool>, i: int, last: int) -> bool {
    exists|m: int| i < m <= last && #[trigger] mates(pv, i, m) && flagged(kept, m)
}

/// Whether retake enforcement removes the kept chunk `i`: it belongs to a
/// run of takes that has already lost a take, and a later take of the run
/// is kept.
pub open spec fn enforcement_removes(pv: Seq<ProfileView>, kept: Seq<bool>, i: int) -> bool {
    &&& flagged(kept, i)
    &&& grouped(pv, i)
    &&& take_dropped(pv, kept, i, run_first(pv, i), run_keeper(pv, i))
    &&& later_take_kept(pv, kept, i, run_keeper(pv, i))
}

/// The keep set with retake enforcement applied.
pub open spec fn with_enforcement(pv: Seq<ProfileView>, kept: Seq<bool>) -> Seq<bool> {
    Seq::new(pv.len(), |i: int| flagged(kept, i) && !enforcement_removes(pv, kept, i))
}

/// The corrected keep set: continuations re-attached, then retake groups
/// enforced on the re-attached set. Enforcement has the last word: it may
/// remove a chunk that re-attachment has just brought back, and it leaves a
/// run alone whose only dropped take was brought back.
pub open spec fn corrected(pv: Seq<ProfileView>, kept: Seq<bool>) -> Seq<bool> {
    with_enforcement(pv, with_continuations(pv, kept))
}

/// Re-attachment only adds to the keep set, and leaves no kept chunk that
/// begins with a lowercase letter behind a chunk that is not kept.
pub proof fn lemma_continuations(pv: Seq<ProfileView>, kept: Seq<bool>)
    ensures
        with_continuations(pv, kept).len() == pv.len(),
        forall|i: int|
            0 <= i < pv.len() && flagged(kept, i) ==> #[trigger] with_continuations(pv, kept)[i],
        forall|i: int|
            0 < i < pv.len() && (#[trigger] with_continuations(pv, kept)[i]) && pv[i].lowercase
                ==> with_continuations(pv, kept)[i - 1],
{
    let w = with_continuations(pv, kept);
    assert forall|i: int| 0 < i < pv.len() && (#[trigger] w[i]) && pv[i].lowercase implies w[i
        - 1] by {
        assert(reattached(pv, kept, i - 1));
    }
}

/// What the whole correction guarantees of continuations: where a chunk
/// that begins with a lowercase letter is kept in the end, the chunk before
/// it is kept as well, unless retake enforcement removed that chunk as an
/// earlier take of a run that had lost a take.
pub proof fn lemma_corrected_continuations(pv: Seq<ProfileView>, kept: Seq<bool>)
    ensures
        corrected(pv, kept).len() == pv.len(),
        forall|i: int|
            0 < i < pv.len() && (#[trigger] corrected(pv, kept)[i]) && pv[i].lowercase ==> corrected(
                pv,
                kept,
            )[i - 1] || enforcement_removes(pv, with_continuations(pv, kept), i - 1),
        forall|i: int|
            0 <= i < pv.len() && (#[trigger] corrected(pv, kept)[i]) ==> reattached(pv, kept, i),
{
    lemma_continuations(pv, kept);
    let attached = with_continuations(pv, kept);
    assert forall|i: int|
        0 < i < pv.len() && (#[trigger] corrected(pv, kept)[i]) && pv[i].lowercase implies corrected(
        pv,
        kept,
    )[i - 1] || enforcement_removes(pv, attached, i - 1) by {
        assert(attached[i]);
        assert(attached[i - 1]);
    }
}

/// Enforcement only takes from the keep set.
pub proof fn lemma_enforcement_shrinks(pv: Seq<ProfileView>, kept: Seq<bool>)
    ensures
        with_enforcement(pv, kept).len() == pv.len(),
        forall|i: int|
            0 <= i < pv.len() && (#[trigger] with_enforcement(pv, kept)[i]) ==> flagged(kept, i),
{
}

/// Continuation re-attachment: wherever a kept chunk begins with a
/// lowercase letter, the chunk before it is kept as well, so that no
/// sentence is left without its beginning.
pub fn reattach_continuations(p: &Vec<ChunkProfile>, kept: &Vec<bool>) -> (out: Vec<bool>)
    ensures
        out@ == with_continuations(profile_views(p@), kept@),
        out.len() == p.len(),
{
    let ghost pv = profile_views(p@);
    let n: usize = p.len();
    let mut out: Vec<bool> = Vec::new();
    let mut i: usize = 0;
    while i < n
        invariant
            i <= n,
            n == p.len(),
            out.len() == i,
            forall|k: int| 0 <= k < i ==> out@[k] == flagged(kept@, k),
        decreases n - i,
    {
        out.push(is_flagged(kept, i));
        i += 1;
    }
    let mut j: usize = n;
    while j > 1
        invariant
            j <= n,
            n == p.len(),
            out.len() == n,
            pv == profile_views(p@),
            forall|k: int| 0 <= k < j - 1 ==> out@[k] == flagged(kept@, k),
            forall|k: int| j - 1 <= k < n && 0 <= k ==> out@[k] == reattached(pv, kept@, k),
        decreases j,
    {
        let cur: usize = j - 1;
        if out[cur] && p[cur].lowercase && !out[cur - 1] {
            out[cur - 1] = true;
        }
        j -= 1;
    }
    proof {
        assert(out@ =~= with_continuations(pv, kept@));
    }
    out
}

/// Whether retake enforcement removes chunk `i`.
pub fn check_enforcement(p: &Vec<ChunkProfile>, kept: &Vec<bool>, i: usize) -> (b: bool)
    requires
        profiles_wf(p@),
        i < p.len(),
    ensures
        b == enforcement_removes(profile_views(p@), kept@, i as int),
{
    let ghost pv = profile_views(p@);
    if !is_flagged(kept, i) || !is_grouped(p, i) {
        return false;
    }
    let first = find_run_first(p, i);
    let last = find_run_keeper(p, i);
    let mut dropped = false;
    let mut later = false;
    let mut m: usize = first;
    while m <= last
        invariant
            first <= i <= last < p.len(),
            first <= m <= last + 1,
            profiles_wf(p@),
            pv == profile_views(p@),
            dropped == take_dropped(pv, kept@, i as int, first as int, m - 1),
            later == later_take_kept(pv, kept@, i as int, m - 1),
        decreases last + 1 - m,
    {
        if are_mates(p, i, m) {
            if !is_flagged(kept, m) {
                dropped = true;
            } else if m > i {
                later = true;
            }
        }
        proof {
            let mi = m as int;
            if take_dropped(pv, kept@, i as int, first as int, mi) && !(mates(pv, i as int, mi)
                && !flagged(kept@, mi)) {
                let w = choose|w: int|
                    first <= w <= mi && #[trigger] mates(pv, i as int, w) && !flagged(kept@, w);
                assert(first <= w <= mi - 1);
            }
            if later_take_kept(pv, kept@, i as int, mi) && !(mi > i && mates(pv, i as int, mi)
                && flagged(kept@, mi)) {
                let w = choose|w: int|
                    i < w <= mi && #[trigger] mates(pv, i as int, w) && flagged(kept@, w);
                assert(i < w <= mi - 1);
            }
        }
        m += 1;
    }
    dropped && later
}

/// Targeted retake enforcement: in every run of takes with a shared opener
/// that has already lost a take, only the last take still kept stays.
pub fn enforce_retake_groups(p: &Vec<ChunkProfile>, kept: &Vec<bool>) -> (out: Vec<bool>)
    requires
        profiles_wf(p@),
    ensures
        out@ == with_enforcement(profile_views(p@), kept@),
        out.len() == p.len(),
{
    let ghost pv = profile_views(p@);
    let mut out: Vec<bool> = Vec::new();
    let mut i: usize = 0;
    while i < p.len()
        invariant
            i <= p.len(),
            out.len() == i,
            profiles_wf(p@),
            pv == profile_views(p@),
            forall|k: int|
                0 <= k < i ==> out@[k] == (flagged(kept@, k) && !enforcement_removes(pv, kept@, k)),
        decreases p.len() - i,
    {
        let stays = is_flagged(kept, i) && !check_enforcement(p, kept, i);
        out.push(stays);
        i += 1;
    }
    proof {
        assert(out@ =~= with_enforcement(pv, kept@));
    }
    out
}

/// Corrects a keep set given by the chunks' profiles: re-attaches
/// continuations, then enforces retake groups.
pub fn correct_profiles(p: &Vec<ChunkProfile>, kept: &Vec<bool>) -> (out: Vec<bool>)
    requires
        profiles_wf(p@),
    ensures
        out@ == corrected(profile_views(p@), kept@),
        out.len() == p.len(),
{
    let attached = reattach_continuations(p, kept);
    enforce_retake_groups(p, &attached)
}

/// Corrects the keep set of a transcript. `kept[i]` says whether chunk `i`
/// is kept; chunks beyond the end of `kept` count as removed. The result
/// has one flag per chunk.
pub fn correct_keep_set(chunks: &Vec<SpeechChunk>, kept: &Vec<bool>, lex: &Lexicon) -> (out: Vec<
    bool,
>)
    ensures
        out@ == corrected(profiles_of(chunk_views(chunks@), lex@), kept@),
        out.len() == chunks.len(),
{
    let profiles = build_profiles(chunks, lex);
    correct_profiles(&profiles, kept)
}

/// The flags of the listed chunks among `n` chunks.
pub open spec fn flags_of(n: nat, ids: Seq<usize>) -> Seq<bool> {
    Seq::new(n, |i: int| ids.contains(i as usize))
}

/// Turns a list of chunk ids into one flag per chunk. Ids that name no
/// chunk are ignored.
pub fn keep_flags(n: usize, ids: &Vec<usize>) -> (flags: Vec<bool>)
    ensures
        flags@ == flags_of(n as nat, ids@),
{
    let mut flags: Vec<bool> = Vec::new();
    let mut i: usize = 0;
    while i < n
        invariant
            i <= n,
            flags.len() == i,
            forall|k: int| 0 <= k < i ==> flags@[k] == false,
        decreases n - i,
    {
        flags.push(false);
        i += 1;
    }
    let mut j: usize = 0;
    while j < ids.len()
        invariant
            j <= ids.len(),
            flags.len() == n,
            forall|k: int| 0 <= k < n ==> flags@[k] == ids@.take(j as int).contains(k as usize),
        decreases ids.len() - j,
    {
        let id = ids[j];
        if id < n {
            flags[id] = true;
        }
        proof {
            let before = ids@.take(j as int);
            let after = ids@.take(j + 1);
            assert(after =~= before.push(id));
            assert forall|k: int| 0 <= k < n implies flags@[k] == after.contains(k as usize) by {
                if before.contains(k as usize) {
                    let w = choose|w: int| 0 <= w < before.len() && before[w] == k as usize;
                    assert(after[w] == k as usize);
                }
                if k as usize == id {
                    assert(after[j as int] == id);
                }
                if after.contains(k as usize) {
                    let w = choose|w: int| 0 <= w < after.len() && after[w] == k as usize;
                    if w < j {
                        assert(before[w] == k as usize);
                    }
                }
            }
        }
        j += 1;
    }
    proof {
        assert(ids@.take(j as int) =~= ids@);
        assert(flags@ =~= flags_of(n as nat, ids@));
    }
    flags
}

/// The ids of the flagged chunks, in ascending order.
pub open spec fn flagged_ids(flags: Seq<bool>, k: int) -> Seq<usize>
    decreases k,
{
    if k <= 0 {
        Seq::empty()
    } else if flagged(flags, k - 1) {
        flagged_ids(flags, k - 1).push((k - 1) as usize)
    } else {
        flagged_ids(flags, k - 1)
    }
}

/// Lists the ids of the flagged chunks in ascending order.
pub fn keep_ids(flags: &Vec<bool>) -> (ids: Vec<usize>)
    ensures
        ids@ == flagged_ids(flags@, flags.len() as int),
{
    let mut ids: Vec<usize> = Vec::new();
    let mut i: usize = 0;
    while i < flags.len()
        invariant
            i <= flags.len(),
            ids@ == flagged_ids(flags@, i as int),
        decreases flags.len() - i,
    {
        if flags[i] {
            ids.push(i);
        }
        i += 1;
    }
    ids
}

} // verus!
