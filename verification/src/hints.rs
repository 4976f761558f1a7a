//! Retake groups by similarity: chunks gathered around an earlier chunk
//! that they resemble in wording.

use vstd::prelude::*;
use crate::timeline::{Millis, gap_ms, gap_between};
use crate::similarity::{
    Threshold, jaccard, gram_set, edit_similarity, ngram_similarity, sequence_matcher_similarity,
};
use crate::transcript::{SpeechChunk, ChunkView, chunk_views};

verus! {

/// Whether two texts resemble each other: the Jaccard index of their word
/// trigrams or their edit similarity is at least `num / den`.
pub open spec fn resemble(a: Seq<char>, b: Seq<char>, num: int, den: int) -> bool {
    jaccard(gram_set(a, 3), gram_set(b, 3)).reaches(num, den) || edit_similarity(a, b).reaches(
        num,
        den,
    )
}

/// Whether chunk `j` resembles one of the first `k` members of `group`.
pub open spec fn resembles_member(
    cv: Seq<ChunkView>,
    group: Seq<usize>,
    j: int,
    num: int,
    den: int,
    k: int,
) -> bool {
    exists|m: int| 0 <= m < k && resemble(cv[(#[trigger] group[m]) as int].text, cv[j].text, num, den)
}

/// The group around chunk `i`, grown through the chunks from `j` on: a
/// chunk not yet in a group joins when it resembles a member, until a chunk
/// starts more than `window` after chunk `i` ends. Returns the group and
/// the chunks in groups.
pub open spec fn grow_group(
    cv: Seq<ChunkView>,
    taken: Seq<bool>,
    group: Seq<usize>,
    i: int,
    j: int,
    window: int,
    num: int,
    den: int,
) -> (Seq<usize>, Seq<bool>)
    decreases cv.len() - j,
{
    if j >= cv.len() || j < 0 {
        (group, taken)
    } else if taken[j] {
        grow_group(cv, taken, group, i, j + 1, window, num, den)
    } else if gap_ms(cv[j].start, cv[i].end) > window {
        (group, taken)
    } else if resembles_member(cv, group, j, num, den, group.len() as int) {
        grow_group(cv, taken.update(j, true), group.push(j as usize), i, j + 1, window, num, den)
    } else {
        grow_group(cv, taken, group, i, j + 1, window, num, den)
    }
}

/// The groups found from chunk `i` on, behind those already found.
pub open spec fn groups_from(
    cv: Seq<ChunkView>,
    taken: Seq<bool>,
    groups: Seq<Seq<usize>>,
    i: int,
    window: int,
    num: int,
    den: int,
) -> Seq<Seq<usize>>
    decreases cv.len() - i,
{
    if i >= cv.len() || i < 0 {
        groups
    } else if taken[i] {
        groups_from(cv, taken, groups, i + 1, window, num, den)
    } else {
        let (group, grown) = grow_group(cv, taken, seq![i as usize], i, i + 1, window, num, den);
        if group.len() > 1 {
            groups_from(cv, grown.update(i, true), groups.push(group), i + 1, window, num, den)
        } else {
            groups_from(cv, grown, groups, i + 1, window, num, den)
        }
    }
}

/// The retake groups of a list of chunks.
pub open spec fn similarity_groups(cv: Seq<ChunkView>, window: int, num: int, den: int) -> Seq<
    Seq<usize>,
> {
    groups_from(cv, Seq::new(cv.len(), |k: int| false), Seq::empty(), 0, window, num, den)
}

/// The views of a list of groups.
pub open spec fn id_lists(groups: Seq<Vec<usize>>) -> Seq<Seq<usize>> {
    groups.map_values(|g: Vec<usize>| g@)
}

/// Whether two texts resemble each other.
pub fn texts_resemble(a: &str, b: &str, num: u32, den: u32) -> (r: bool)
    ensures
        r == resemble(a@, b@, num as int, den as int),
{
    ngram_similarity(a, b, 3).at_least(num, den) || sequence_matcher_similarity(a, b).at_least(
        num,
        den,
    )
}

/// Whether chunk `j` resembles a member of `group`.
pub fn resembles_any(
    chunks: &Vec<SpeechChunk>,
    group: &Vec<usize>,
    j: usize,
    num: u32,
    den: u32,
) -> (similar: bool)
    requires
        j < chunks.len(),
        forall|k: int| 0 <= k < group.len() ==> (#[trigger] group@[k]) < chunks.len(),
    ensures
        similar == resembles_member(
            chunk_views(chunks@),
            group@,
            j as int,
            num as int,
            den as int,
            group.len() as int,
        ),
{
    let ghost cv = chunk_views(chunks@);
    let mut m: usize = 0;
    while m < group.len()
        invariant
            m <= group.len(),
            j < chunks.len(),
            cv == chunk_views(chunks@),
            forall|k: int| 0 <= k < group.len() ==> (#[trigger] group@[k]) < chunks.len(),
            !resembles_member(cv, group@, j as int, num as int, den as int, m as int),
        decreases group.len() - m,
    {
        let member = group[m];
        if texts_resemble(chunks[member].text.as_str(), chunks[j].text.as_str(), num, den) {
            proof {
                assert(resemble(
                    cv[group@[m as int] as int].text,
                    cv[j as int].text,
                    num as int,
                    den as int,
                ));
            }
            return true;
        }
        proof {
            let gs = group@;
            if resembles_member(cv, gs, j as int, num as int, den as int, m + 1) {
                let w = choose|w: int|
                    0 <= w < m + 1 && resemble(
                        cv[(#[trigger] gs[w]) as int].text,
                        cv[j as int].text,
                        num as int,
                        den as int,
                    );
                assert(w < m);
            }
        }
        m += 1;
    }
    false
}

/// Grows the group around chunk `i` and marks the chunks that join it.
pub fn collect_group(
    chunks: &Vec<SpeechChunk>,
    taken: &mut Vec<bool>,
    i: usize,
    time_window: Millis,
    num: u32,
    den: u32,
) -> (group: Vec<usize>)
    requires
        i < chunks.len(),
        old(taken).len() == chunks.len(),
    ensures
        final(taken).len() == chunks.len(),
        (group@, final(taken)@) == grow_group(
            chunk_views(chunks@),
            old(taken)@,
            seq![i],
            i as int,
            i + 1,
            time_window as int,
            num as int,
            den as int,
        ),
{
    let ghost cv = chunk_views(chunks@);
    let ghost start_taken = taken@;
    let n: usize = chunks.len();
    let mut group: Vec<usize> = Vec::new();
    group.push(i);
    proof {
        assert(group@ =~= seq![i]);
    }
    let mut j: usize = i + 1;
    while j < n
        invariant
            i < j <= n,
            n == chunks.len(),
            cv == chunk_views(chunks@),
            taken.len() == n,
            start_taken == old(taken)@,
            forall|m: int| 0 <= m < group.len() ==> (#[trigger] group@[m]) < n,
            grow_group(
                cv,
                taken@,
                group@,
                i as int,
                j as int,
                time_window as int,
                num as int,
                den as int,
            ) == grow_group(
                cv,
                start_taken,
                seq![i],
                i as int,
                i + 1,
                time_window as int,
                num as int,
                den as int,
            ),
        decreases n - j,
    {
        if !taken[j] {
            if gap_between(chunks[j].start, chunks[i].end) > time_window as i128 {
                return group;
            }
            if resembles_any(chunks, &group, j, num, den) {
                group.push(j);
                taken[j] = true;
            }
        }
        j += 1;
    }
    group
}

/// Groups the chunks that resemble each other in wording. Each group lists
/// chunk positions in ascending order; its last member is the take to
/// keep. `min_similarity` is the least similarity between a chunk and some
/// member of the group it joins.
pub fn detect_retake_groups_advanced(
    chunks: &Vec<SpeechChunk>,
    time_window: Millis,
    min_similarity: Threshold,
) -> (groups: Vec<Vec<usize>>)
    ensures
        id_lists(groups@) == similarity_groups(
            chunk_views(chunks@),
            time_window as int,
            min_similarity.num as int,
            min_similarity.den as int,
        ),
{
    let ghost cv = chunk_views(chunks@);
    let num = min_similarity.num;
    let den = min_similarity.den;
    let n: usize = chunks.len();
    let mut taken: Vec<bool> = Vec::new();
    let mut t: usize = 0;
    while t < n
        invariant
            t <= n,
            taken.len() == t,
            forall|k: int| 0 <= k < t ==> taken@[k] == false,
        decreases n - t,
    {
        taken.push(false);
        t += 1;
    }
    proof {
        assert(taken@ =~= Seq::new(cv.len(), |k: int| false));
    }
    let mut groups: Vec<Vec<usize>> = Vec::new();
    let mut i: usize = 0;
    proof {
        assert(id_lists(groups@) =~= Seq::<Seq<usize>>::empty());
    }
    while i < n
        invariant
            i <= n,
            n == chunks.len(),
            cv == chunk_views(chunks@),
            taken.len() == n,
            groups_from(
                cv,
                taken@,
                id_lists(groups@),
                i as int,
                time_window as int,
                num as int,
                den as int,
            ) == similarity_groups(cv, time_window as int, num as int, den as int),
        decreases n - i,
    {
        if !taken[i] {
            let group = collect_group(chunks, &mut taken, i, time_window, num, den);
            if group.len() > 1 {
                taken[i] = true;
                let ghost before = groups@;
                let ghost gv = group@;
                groups.push(group);
                proof {
                    assert(id_lists(groups@) =~= id_lists(before).push(gv));
                }
            }
        }
        i += 1;
    }
    groups
}

} // verus!
