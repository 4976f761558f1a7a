//! Two detectors of passages that were started over: false starts, given up
//! for a longer passage with the same opening, and retake sequences, three
//! or more passages with the same opening in quick succession.

use vstd::prelude::*;
use crate::chars::{chars_of, chars_eq};
use crate::timeline::{gap_ms, gap_between};
use crate::text::{views, tokens, folded_word, split_tokens};
use crate::ngrams::window_eq;
use crate::measures::{reaches_percent, percent_reached};
use crate::passages::fold_each;
use crate::review::{Passage, PassageView, passage_views};

verus! {

/// The tokens of a text, each folded.
pub open spec fn folded_tokens(text: Seq<char>) -> Seq<Seq<char>> {
    tokens(text).map_values(|t: Seq<char>| folded_word(t))
}

/// The number of the first `k` words of `a` that occur in `b`.
pub open spec fn found_in(a: Seq<Seq<char>>, b: Seq<Seq<char>>, k: int) -> int
    decreases k,
{
    if k <= 0 {
        0
    } else {
        found_in(a, b, k - 1) + if b.contains(a[k - 1]) {
            1int
        } else {
            0int
        }
    }
}

/// Whether passage `i` is a false start of the later passage `j`: the two
/// open with the same three words, `j` has more words, and `j` holds at
/// least seven in ten of the words with which `i` goes on.
pub open spec fn false_start_of(pv: Seq<PassageView>, i: int, j: int) -> bool {
    let a = folded_tokens(pv[i].text);
    let b = folded_tokens(pv[j].text);
    &&& a.len() >= 3
    &&& b.len() >= 3
    &&& a.take(3) == b.take(3)
    &&& pv[i].word_count < pv[j].word_count
    &&& reaches_percent(found_in(a.skip(3), b.skip(3), a.len() - 3), a.len() - 3, 70)
}

/// Whether passage `i` is a false start of a passage from `j` on that
/// begins no more than two minutes after `i` ends.
pub open spec fn has_later_take(pv: Seq<PassageView>, i: int, j: int) -> bool
    decreases pv.len() - j,
{
    if j >= pv.len() {
        false
    } else if gap_ms(pv[j].start, pv[i].end) > 120_000 {
        false
    } else if false_start_of(pv, i, j) {
        true
    } else {
        has_later_take(pv, i, j + 1)
    }
}

/// The ids of the false starts among the first `k` passages.
pub open spec fn false_starts_upto(pv: Seq<PassageView>, k: int) -> Seq<usize>
    decreases k,
{
    if k <= 0 {
        Seq::empty()
    } else {
        let prev = false_starts_upto(pv, k - 1);
        if !prev.contains(pv[k - 1].id) && has_later_take(pv, k - 1, k) {
            prev.push(pv[k - 1].id)
        } else {
            prev
        }
    }
}

/// The tokens of a passage's text, each folded.
pub fn folded_token_list(p: &Passage) -> (out: Vec<Vec<char>>)
    ensures
        views(out@) == folded_tokens(p.text@),
{
    let toks = split_tokens(&chars_of(p.text.as_str()));
    fold_each(&toks)
}

/// Whether `list` holds the word `w`.
pub fn list_contains(list: &Vec<Vec<char>>, from: usize, w: &Vec<char>) -> (b: bool)
    requires
        from <= list.len(),
    ensures
        b == views(list@).skip(from as int).contains(w@),
{
    let ghost tail = views(list@).skip(from as int);
    let mut i: usize = from;
    while i < list.len()
        invariant
            from <= i <= list.len(),
            tail == views(list@).skip(from as int),
            forall|k: int| 0 <= k < i - from ==> tail[k] != w@,
        decreases list.len() - i,
    {
        if chars_eq(&list[i], w) {
            proof {
                assert(tail[i - from] == w@);
            }
            return true;
        }
        i += 1;
    }
    false
}

/// Whether passage `i` is a false start of the later passage `j`.
pub fn is_false_start_of(passages: &Vec<Passage>, i: usize, j: usize) -> (b: bool)
    requires
        i < passages.len(),
        j < passages.len(),
    ensures
        b == false_start_of(passage_views(passages@), i as int, j as int),
{
    let a = folded_token_list(&passages[i]);
    let b = folded_token_list(&passages[j]);
    if a.len() < 3 || b.len() < 3 {
        return false;
    }
    let same = window_eq(&a, 0, &b, 0, 3);
    proof {
        assert(views(a@).subrange(0, 3) =~= views(a@).take(3));
        assert(views(b@).subrange(0, 3) =~= views(b@).take(3));
    }
    if !same || passages[i].word_count >= passages[j].word_count {
        return false;
    }
    let ghost rest_a = views(a@).skip(3);
    let ghost rest_b = views(b@).skip(3);
    let mut found: usize = 0;
    let mut k: usize = 3;
    while k < a.len()
        invariant
            3 <= k <= a.len(),
            3 <= b.len(),
            rest_a == views(a@).skip(3),
            rest_b == views(b@).skip(3),
            found <= k - 3,
            found == found_in(rest_a, rest_b, k - 3),
        decreases a.len() - k,
    {
        if list_contains(&b, 3, &a[k]) {
            found += 1;
        }
        proof {
            assert(rest_a[k - 3] == a@[k as int]@);
        }
        k += 1;
    }
    percent_reached(found, (a.len() - 3) as u128, 70)
}

/// Whether passage `i` is a false start of a later passage that begins no
/// more than two minutes after it ends.
pub fn later_take_exists(passages: &Vec<Passage>, i: usize) -> (b: bool)
    requires
        i < passages.len(),
    ensures
        b == has_later_take(passage_views(passages@), i as int, i + 1),
{
    let ghost pv = passage_views(passages@);
    let mut j: usize = i + 1;
    while j < passages.len()
        invariant
            i < j <= passages.len(),
            pv == passage_views(passages@),
            has_later_take(pv, i as int, j as int) == has_later_take(pv, i as int, i + 1),
        decreases passages.len() - j,
    {
        if gap_between(passages[j].start, passages[i].end) > 120_000 {
            return false;
        }
        if is_false_start_of(passages, i, j) {
            return true;
        }
        j += 1;
    }
    false
}

/// Detects false starts: passages that open with the same three words as a
/// longer passage close behind and whose remaining words mostly recur in
/// it. Returns their ids in order.
pub fn detect_false_starts(passages: &Vec<Passage>) -> (ids: Vec<usize>)
    ensures
        ids@ == false_starts_upto(passage_views(passages@), passages.len() as int),
{
    let ghost pv = passage_views(passages@);
    let mut ids: Vec<usize> = Vec::new();
    let mut i: usize = 0;
    while i < passages.len()
        invariant
            i <= passages.len(),
            pv == passage_views(passages@),
            ids@ == false_starts_upto(pv, i as int),
        decreases passages.len() - i,
    {
        let mut known = false;
        let mut m: usize = 0;
        while m < ids.len()
            invariant
                m <= ids.len(),
                i < passages.len(),
                known == ids@.take(m as int).contains(passages@[i as int].id),
            decreases ids.len() - m,
        {
            proof {
                let before = ids@.take(m as int);
                let after = ids@.take(m + 1);
                let id = passages@[i as int].id;
                assert(after =~= before.push(ids@[m as int]));
                if before.contains(id) {
                    let w = choose|w: int| 0 <= w < before.len() && before[w] == id;
                    assert(after[w] == id);
                }
                if ids@[m as int] == id {
                    assert(after[m as int] == id);
                }
                if after.contains(id) {
                    let w = choose|w: int| 0 <= w < after.len() && after[w] == id;
                    if w < m {
                        assert(before[w] == id);
                    }
                }
            }
            if ids[m] == passages[i].id {
                known = true;
            }
            m += 1;
        }
        proof {
            assert(ids@.take(m as int) =~= ids@);
        }
        if !known && later_take_exists(passages, i) {
            ids.push(passages[i].id);
        }
        i += 1;
    }
    ids
}


/// The first three folded words of a text, if it has that many.
pub open spec fn opening(text: Seq<char>) -> Option<Seq<Seq<char>>> {
    let t = folded_tokens(text);
    if t.len() >= 3 {
        Some(t.take(3))
    } else {
        None
    }
}

/// Whether passage `m` takes part: it is not yet removed and has an
/// opening.
pub open spec fn in_play(pv: Seq<PassageView>, removed: Seq<usize>, m: int) -> bool {
    !removed.contains(pv[m].id) && opening(pv[m].text) is Some
}

/// Whether passage `m` takes part and opens as passage `i` does.
pub open spec fn same_opening(pv: Seq<PassageView>, removed: Seq<usize>, i: int, m: int) -> bool {
    in_play(pv, removed, m) && opening(pv[m].text) == opening(pv[i].text)
}

/// Whether passage `i` is the first of the passages that open as it does.
pub open spec fn leads(pv: Seq<PassageView>, removed: Seq<usize>, i: int) -> bool {
    in_play(pv, removed, i) && forall|m: int| 0 <= m < i ==> !same_opening(pv, removed, i, m)
}

/// The ids of the passages before `k` that open as passage `i` does.
pub open spec fn sequence_ids(pv: Seq<PassageView>, removed: Seq<usize>, i: int, k: int) -> Seq<
    usize,
>
    decreases k,
{
    if k <= 0 {
        Seq::empty()
    } else if same_opening(pv, removed, i, k - 1) {
        sequence_ids(pv, removed, i, k - 1).push(pv[k - 1].id)
    } else {
        sequence_ids(pv, removed, i, k - 1)
    }
}

/// The first `k` of `ids` without `keep`.
pub open spec fn without_upto(ids: Seq<usize>, keep: usize, k: int) -> Seq<usize>
    decreases k,
{
    if k <= 0 {
        Seq::empty()
    } else if ids[k - 1] != keep {
        without_upto(ids, keep, k - 1).push(ids[k - 1])
    } else {
        without_upto(ids, keep, k - 1)
    }
}

/// What the sequence led by passage `i` gives up: when at least three
/// passages open as `i` does and no more than three minutes lie between the
/// start of the first and the end of the last, all of them but the last.
pub open spec fn sequence_removals(pv: Seq<PassageView>, removed: Seq<usize>, i: int) -> Seq<usize> {
    let ids = sequence_ids(pv, removed, i, pv.len() as int);
    if leads(pv, removed, i) && ids.len() >= 3 && ids.first() < pv.len() && ids.last() < pv.len()
        && gap_ms(pv[ids.last() as int].end, pv[ids.first() as int].start) <= 180_000 {
        without_upto(ids, ids.last(), ids.len() as int)
    } else {
        Seq::empty()
    }
}

/// What the sequences led by the first `k` passages give up.
pub open spec fn retake_sequences_upto(pv: Seq<PassageView>, removed: Seq<usize>, k: int) -> Seq<
    usize,
>
    decreases k,
{
    if k <= 0 {
        Seq::empty()
    } else {
        retake_sequences_upto(pv, removed, k - 1) + sequence_removals(pv, removed, k - 1)
    }
}

/// Whether `ids` holds `id`.
pub fn ids_contain(ids: &Vec<usize>, id: usize) -> (b: bool)
    ensures
        b == ids@.contains(id),
{
    let mut i: usize = 0;
    while i < ids.len()
        invariant
            i <= ids.len(),
            forall|k: int| 0 <= k < i ==> ids@[k] != id,
        decreases ids.len() - i,
    {
        if ids[i] == id {
            return true;
        }
        i += 1;
    }
    false
}

/// The folded tokens of every passage.
pub open spec fn token_lists_match(lists: Seq<Vec<Vec<char>>>, pv: Seq<PassageView>) -> bool {
    &&& lists.len() == pv.len()
    &&& forall|k: int| 0 <= k < pv.len() ==> views((#[trigger] lists[k])@) == folded_tokens(pv[k].text)
}

pub fn folded_token_lists(passages: &Vec<Passage>) -> (lists: Vec<Vec<Vec<char>>>)
    ensures
        token_lists_match(lists@, passage_views(passages@)),
{
    let mut lists: Vec<Vec<Vec<char>>> = Vec::new();
    let mut i: usize = 0;
    while i < passages.len()
        invariant
            i <= passages.len(),
            lists.len() == i,
            forall|k: int|
                0 <= k < i ==> views((#[trigger] lists@[k])@) == folded_tokens(passages@[k].text@),
        decreases passages.len() - i,
    {
        lists.push(folded_token_list(&passages[i]));
        i += 1;
    }
    lists
}

pub fn has_same_opening(
    passages: &Vec<Passage>,
    lists: &Vec<Vec<Vec<char>>>,
    already_removed: &Vec<usize>,
    i: usize,
    m: usize,
) -> (b: bool)
    requires
        token_lists_match(lists@, passage_views(passages@)),
        i < passages.len(),
        m < passages.len(),
        opening(passages@[i as int].text@) is Some,
    ensures
        b == same_opening(passage_views(passages@), already_removed@, i as int, m as int),
{
    if ids_contain(already_removed, passages[m].id) || lists[m].len() < 3 {
        return false;
    }
    let same = window_eq(&lists[m], 0, &lists[i], 0, 3);
    proof {
        assert(views(lists@[m as int]@).subrange(0, 3) =~= views(lists@[m as int]@).take(3));
        assert(views(lists@[i as int]@).subrange(0, 3) =~= views(lists@[i as int]@).take(3));
    }
    same
}

/// What the sequence led by passage `i` gives up.
pub fn find_sequence_removals(
    passages: &Vec<Passage>,
    lists: &Vec<Vec<Vec<char>>>,
    already_removed: &Vec<usize>,
    i: usize,
) -> (out: Vec<usize>)
    requires
        token_lists_match(lists@, passage_views(passages@)),
        i < passages.len(),
    ensures
        out@ == sequence_removals(passage_views(passages@), already_removed@, i as int),
{
    let ghost pv = passage_views(passages@);
    let n: usize = passages.len();
    let mut out: Vec<usize> = Vec::new();
    if ids_contain(already_removed, passages[i].id) || lists[i].len() < 3 {
        return out;
    }
    let mut m: usize = 0;
    while m < i
        invariant
            m <= i < n,
            n == passages.len(),
            pv == passage_views(passages@),
            token_lists_match(lists@, pv),
            opening(pv[i as int].text) is Some,
            out@ =~= Seq::<usize>::empty(),
            forall|k: int| 0 <= k < m ==> !same_opening(pv, already_removed@, i as int, k),
        decreases i - m,
    {
        if has_same_opening(passages, lists, already_removed, i, m) {
            proof {
                assert(same_opening(pv, already_removed@, i as int, m as int));
                assert(!leads(pv, already_removed@, i as int));
            }
            return out;
        }
        m += 1;
    }
    let mut ids: Vec<usize> = Vec::new();
    let mut k: usize = 0;
    while k < n
        invariant
            k <= n,
            i < n,
            n == passages.len(),
            pv == passage_views(passages@),
            token_lists_match(lists@, pv),
            opening(pv[i as int].text) is Some,
            ids@ == sequence_ids(pv, already_removed@, i as int, k as int),
        decreases n - k,
    {
        if has_same_opening(passages, lists, already_removed, i, k) {
            ids.push(passages[k].id);
        }
        k += 1;
    }
    if ids.len() < 3 {
        return out;
    }
    let first = ids[0];
    let last = ids[ids.len() - 1];
    if first >= n || last >= n {
        return out;
    }
    if gap_between(passages[last].end, passages[first].start) > 180_000 {
        return out;
    }
    let mut j: usize = 0;
    while j < ids.len()
        invariant
            j <= ids.len(),
            out@ == without_upto(ids@, last, j as int),
        decreases ids.len() - j,
    {
        if ids[j] != last {
            out.push(ids[j]);
        }
        j += 1;
    }
    out
}

/// Detects retake sequences among the passages not yet removed: where at
/// least three passages open with the same three words and span no more
/// than three minutes, all but the last are given up. Returns the ids given
/// up, sequence by sequence in the order in which the sequences begin.
pub fn detect_retake_sequences(passages: &Vec<Passage>, already_removed: &Vec<usize>) -> (to_remove:
    Vec<usize>)
    ensures
        to_remove@ == retake_sequences_upto(
            passage_views(passages@),
            already_removed@,
            passages.len() as int,
        ),
{
    let ghost pv = passage_views(passages@);
    let lists = folded_token_lists(passages);
    let mut to_remove: Vec<usize> = Vec::new();
    let mut i: usize = 0;
    while i < passages.len()
        invariant
            i <= passages.len(),
            pv == passage_views(passages@),
            token_lists_match(lists@, pv),
            to_remove@ == retake_sequences_upto(pv, already_removed@, i as int),
        decreases passages.len() - i,
    {
        let mut found = find_sequence_removals(passages, &lists, already_removed, i);
        to_remove.append(&mut found);
        i += 1;
    }
    to_remove
}

} // verus!
