//! Passages: the word stream cut for review, and two detectors of takes
//! that were started over.

use vstd::prelude::*;
use crate::chars::{chars_of, string_of};
use crate::timeline::{Segment, gap_ms, gap_between};
use crate::text::{views, folded_word, fold_chars, trimmed, trim_chars};
use crate::ngrams::window_eq;
use crate::fillers::copy_word;
use crate::segmenter::spaced_text;
use crate::similarity::{spaced, join_spaced};
use crate::phrases::range_text;
use crate::review::{Passage, PassageView, passage_views};
use crate::transcript::{Word, word_texts};

verus! {

/// Whether a word lies inside one of the spans.
pub open spec fn inside_any(w: Word, skip: Seq<Segment>) -> bool {
    exists|k: int| 0 <= k < skip.len() && w.start >= (#[trigger] skip[k]).start && w.end <= skip[k].end
}

/// The words that lie inside none of the spans.
pub open spec fn meaningful(words: Seq<Word>, skip: Seq<Segment>) -> Seq<Word> {
    words.filter(|w: Word| !inside_any(w, skip))
}

/// The words of the stream, each folded.
pub open spec fn folded_words(words: Seq<Word>) -> Seq<Seq<char>> {
    word_texts(words).map_values(|t: Seq<char>| folded_word(t))
}

/// The state of the cut after some words: the passages closed so far, the
/// word at which the open passage begins, and the widest pause seen inside
/// the open passage as the number of words before it, less one, and its
/// length.
pub struct PassageScan {
    pub passages: Seq<PassageView>,
    pub from: int,
    pub best: Option<(int, int)>,
}

/// A passage closed at a pause: its words, each followed by a space,
/// trimmed.
pub open spec fn full_passage(words: Seq<Word>, lo: int, hi: int, id: int) -> PassageView {
    PassageView {
        id: id as usize,
        text: trimmed(spaced_text(words, lo, hi)),
        start: words[lo].start,
        end: words[hi - 1].end,
        word_count: hi - lo,
    }
}

/// A passage split off an oversized one: its words with single spaces
/// between them.
pub open spec fn split_passage(words: Seq<Word>, lo: int, hi: int, id: int) -> PassageView {
    PassageView {
        id: id as usize,
        text: spaced(word_texts(words).subrange(lo, hi)),
        start: words[lo].start,
        end: words[hi - 1].end,
        word_count: hi - lo,
    }
}

/// Whether the speaker starts the open passage over after word `i`: the
/// passage holds at least three words, three more words follow, and these
/// equal, folded, the first three words of the passage.
pub open spec fn passage_restarts(words: Seq<Word>, from: int, i: int) -> bool {
    let folded = folded_words(words);
    &&& i - from + 1 >= 3
    &&& i + 3 < words.len()
    &&& folded.subrange(from, from + 3) == folded.subrange(i + 1, i + 4)
}

/// The pause after word `i`; very long after the last word.
pub open spec fn pause_behind(words: Seq<Word>, i: int) -> int {
    if i + 1 < words.len() {
        gap_ms(words[i + 1].start, words[i].end)
    } else {
        999_000
    }
}

/// The widest pause of the open passage once word `i` has joined it. Pauses
/// count from the third word of the passage on.
pub open spec fn widest_pause(words: Seq<Word>, st: PassageScan, i: int) -> Option<(int, int)> {
    let before = if st.from == i {
        None
    } else {
        st.best
    };
    let wc = i - st.from + 1;
    let gap = pause_behind(words, i);
    if wc >= 3 && gap < 999_000 {
        match before {
            Some((_, widest)) => if gap > widest {
                Some((wc - 1, gap))
            } else {
                before
            },
            None => Some((wc - 1, gap)),
        }
    } else {
        before
    }
}

/// The state of the cut after word `i`.
///
/// A passage closes where the speaker starts over; at a pause of at least
/// 0.7 seconds, or of at least 0.3 seconds once it holds thirty words; and
/// with the last word. A passage of fewer than three words closes only with
/// the last word or at a pause of at least five seconds. A passage that
/// reaches sixty words without closing is split behind its widest pause.
pub open spec fn passage_step(words: Seq<Word>, st: PassageScan, i: int) -> PassageScan {
    let wc = i - st.from + 1;
    let last = i + 1 == words.len();
    let gap = pause_behind(words, i);
    let best = widest_pause(words, st, i);
    let next_id = st.passages.len() as int;
    let closes = gap >= 700 || (wc >= 30 && gap >= 300) || last;
    if passage_restarts(words, st.from, i) {
        PassageScan {
            passages: st.passages.push(full_passage(words, st.from, i + 1, next_id)),
            from: i + 1,
            best: None,
        }
    } else if wc >= 60 && !closes {
        match best {
            Some((at, _)) => PassageScan {
                passages: st.passages.push(
                    split_passage(words, st.from, st.from + at + 1, next_id),
                ),
                from: st.from + at + 1,
                best: None,
            },
            None => PassageScan { passages: st.passages, from: st.from, best: None },
        }
    } else if closes && (wc >= 3 || last || gap >= 5_000) {
        PassageScan {
            passages: st.passages.push(full_passage(words, st.from, i + 1, next_id)),
            from: i + 1,
            best: None,
        }
    } else {
        PassageScan { passages: st.passages, from: st.from, best }
    }
}

/// The state of the cut after the first `k` words.
pub open spec fn passage_scan(words: Seq<Word>, k: int) -> PassageScan
    decreases k,
{
    if k <= 0 {
        PassageScan { passages: Seq::empty(), from: 0, best: None }
    } else {
        passage_step(words, passage_scan(words, k - 1), k - 1)
    }
}

/// The passages of a word stream, the words inside the given spans left
/// out.
pub open spec fn passages_of(words: Seq<Word>, skip: Seq<Segment>) -> Seq<PassageView> {
    passage_scan(meaningful(words, skip), meaningful(words, skip).len() as int).passages
}

pub fn is_inside_any(w: &Word, skip: &Vec<Segment>) -> (b: bool)
    ensures
        b == inside_any(*w, skip@),
{
    let mut k: usize = 0;
    while k < skip.len()
        invariant
            k <= skip.len(),
            forall|m: int|
                0 <= m < k ==> !(w.start >= (#[trigger] skip@[m]).start && w.end <= skip@[m].end),
        decreases skip.len() - k,
    {
        if w.start >= skip[k].start && w.end <= skip[k].end {
            return true;
        }
        k += 1;
    }
    false
}

/// Keeps the words that lie inside none of the spans.
pub fn retain_meaningful(words: &Vec<Word>, skip: &Vec<Segment>) -> (out: Vec<Word>)
    ensures
        out@ == meaningful(words@, skip@),
        out.len() <= words.len(),
{
    let mut out: Vec<Word> = Vec::new();
    let mut i: usize = 0;
    proof {
        reveal(Seq::filter);
    }
    while i < words.len()
        invariant
            i <= words.len(),
            out.len() <= i,
            out@ == meaningful(words@.take(i as int), skip@),
        decreases words.len() - i,
    {
        proof {
            reveal(Seq::filter);
            assert(words@.take(i + 1).drop_last() =~= words@.take(i as int));
        }
        if !is_inside_any(&words[i], skip) {
            out.push(copy_word(&words[i]));
        }
        i += 1;
    }
    proof {
        assert(words@.take(i as int) =~= words@);
    }
    out
}

/// The texts of the words as characters.
pub fn word_chars(words: &Vec<Word>) -> (out: Vec<Vec<char>>)
    ensures
        views(out@) == word_texts(words@),
        out.len() == words.len(),
{
    let mut out: Vec<Vec<char>> = Vec::new();
    let mut i: usize = 0;
    while i < words.len()
        invariant
            i <= words.len(),
            out.len() == i,
            forall|k: int| 0 <= k < i ==> out@[k]@ == words@[k].word@,
        decreases words.len() - i,
    {
        out.push(chars_of(words[i].word.as_str()));
        i += 1;
    }
    proof {
        assert(views(out@) =~= word_texts(words@));
    }
    out
}

/// Folds every word of a list.
pub fn fold_each(texts: &Vec<Vec<char>>) -> (out: Vec<Vec<char>>)
    ensures
        views(out@) == views(texts@).map_values(|t: Seq<char>| folded_word(t)),
        out.len() == texts.len(),
{
    let mut out: Vec<Vec<char>> = Vec::new();
    let mut i: usize = 0;
    while i < texts.len()
        invariant
            i <= texts.len(),
            out.len() == i,
            forall|k: int| 0 <= k < i ==> out@[k]@ == folded_word(texts@[k]@),
        decreases texts.len() - i,
    {
        out.push(fold_chars(&texts[i]));
        i += 1;
    }
    proof {
        assert(views(out@) =~= views(texts@).map_values(|t: Seq<char>| folded_word(t)));
    }
    out
}

/// What the executable state of the cut stands for.
pub open spec fn best_view(best: Option<(usize, i128)>) -> Option<(int, int)> {
    match best {
        Some((at, gap)) => Some((at as int, gap as int)),
        None => None,
    }
}

/// The place of the widest pause; zero where there is none.
pub open spec fn best_at(best: Option<(usize, i128)>) -> int {
    match best {
        Some((at, _)) => at as int,
        None => 0,
    }
}

/// Cuts the words that lie outside the spans to skip into passages for
/// review.
pub fn segment_into_passages(words: &Vec<Word>, segments_to_skip: &Vec<Segment>) -> (passages: Vec<
    Passage,
>)
    ensures
        passage_views(passages@) == passages_of(words@, segments_to_skip@),
{
    let mw = retain_meaningful(words, segments_to_skip);
    let n: usize = mw.len();
    let texts = word_chars(&mw);
    let folded = fold_each(&texts);
    let mut passages: Vec<Passage> = Vec::new();
    let mut from: usize = 0;
    let mut best: Option<(usize, i128)> = None;
    let mut i: usize = 0;
    proof {
        assert(passage_views(passages@) =~= passage_scan(mw@, 0).passages);
    }
    while i < n
        invariant
            i <= n,
            n == mw.len(),
            texts.len() == n,
            folded.len() == n,
            views(texts@) == word_texts(mw@),
            views(folded@) == folded_words(mw@),
            from <= i,
            best is Some ==> from + best_at(best) < i,
            passages.len() <= i,
            passage_scan(mw@, i as int) == (PassageScan {
                passages: passage_views(passages@),
                from: from as int,
                best: best_view(best),
            }),
        decreases n - i,
    {
        let ghost st = passage_scan(mw@, i as int);
        let ghost before = passages@;
        let wc: usize = i - from + 1;
        let last: bool = i + 1 == n;
        let gap: i128 = if last {
            999_000
        } else {
            gap_between(mw[i + 1].start, mw[i].end)
        };
        let mut widest: Option<(usize, i128)> = if from == i {
            None
        } else {
            best
        };
        if wc >= 3 && gap < 999_000 {
            match widest {
                Some((_, g)) => {
                    if gap > g {
                        widest = Some((wc - 1, gap));
                    }
                },
                None => {
                    widest = Some((wc - 1, gap));
                },
            }
        }
        assert(best_view(widest) == widest_pause(mw@, st, i as int));
        let restart: bool = wc >= 3 && n - i > 3 && window_eq(&folded, from, &folded, i + 1, 3);
        let closes: bool = gap >= 700 || (wc >= 30 && gap >= 300) || last;
        if restart {
            let text = trim_chars(&range_text(&mw, from, i + 1));
            let p = Passage {
                id: passages.len(),
                text: string_of(&text),
                start: mw[from].start,
                end: mw[i].end,
                word_count: wc,
            };
            passages.push(p);
            proof {
                assert(passage_views(passages@) =~= passage_views(before).push(p@));
            }
            from = i + 1;
            best = None;
        } else if wc >= 60 && !closes {
            match widest {
                Some((at, _)) => {
                    let text = join_spaced(&texts, from, from + at + 1);
                    let p = Passage {
                        id: passages.len(),
                        text: string_of(&text),
                        start: mw[from].start,
                        end: mw[from + at].end,
                        word_count: at + 1,
                    };
                    passages.push(p);
                    proof {
                        assert(passage_views(passages@) =~= passage_views(before).push(p@));
                    }
                    from = from + at + 1;
                },
                None => {},
            }
            best = None;
        } else if closes && (wc >= 3 || last || gap >= 5_000) {
            let text = trim_chars(&range_text(&mw, from, i + 1));
            let p = Passage {
                id: passages.len(),
                text: string_of(&text),
                start: mw[from].start,
                end: mw[i].end,
                word_count: wc,
            };
            passages.push(p);
            proof {
                assert(passage_views(passages@) =~= passage_views(before).push(p@));
            }
            from = i + 1;
            best = None;
        } else {
            best = widest;
        }
        i += 1;
    }
    passages
}

} // verus!
