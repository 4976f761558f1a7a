//! Spans without usable speech, found from the words alone: pauses between
//! words, words stretched over hidden content, stretches where a
//! transcript loops, and stretches with very few words.

use vstd::prelude::*;
use crate::chars::chars_of;
use crate::timeline::{Millis, Segment, ProcessingMode, gap_ms, gap_between};
use crate::text::views;
use crate::merge::{sort_by_start, merge_sorted, sort_spans, merge_ordered};
use crate::ranges::{clamp_to, drop_short, retain_long};
use crate::fillers::{without_fillers, filter_filler_words};
use crate::similarity::{spaced_windows, spaced_window_list};
use crate::measures::{reaches_percent, percent_reached};
use crate::passages::word_chars;
use crate::transcript::{Word, word_texts};

verus! {

/// The margin left around speech when a pause is cut.
pub open spec fn silence_padding_ms() -> int {
    150
}

/// An instant given as an integer, brought into the range of the timeline.
pub open spec fn instant(t: int) -> Millis {
    clamp_to(t, u64::MAX)
}

/// `t + d`, limited to the range of the timeline.
pub fn later(t: Millis, d: Millis) -> (r: Millis)
    ensures
        r == instant(t + d),
{
    if u64::MAX - t < d {
        u64::MAX
    } else {
        t + d
    }
}

/// `t - d`, limited to the range of the timeline.
pub fn earlier(t: Millis, d: Millis) -> (r: Millis)
    ensures
        r == instant(t - d),
{
    if t < d {
        0
    } else {
        t - d
    }
}

/// The silence before the first word, if it is long enough to cut.
pub open spec fn leading_silence(words: Seq<Word>, min_silence: int) -> Seq<Segment> {
    if words.len() > 0 && words[0].start > min_silence + silence_padding_ms() {
        seq![Segment { start: 0, end: instant(words[0].start - silence_padding_ms()) }]
    } else {
        Seq::empty()
    }
}

/// The silence in the pause after word `i`: the pause less the padding at
/// both ends.
pub open spec fn pause_silence(words: Seq<Word>, i: int) -> Segment {
    Segment {
        start: instant(words[i].end + silence_padding_ms()),
        end: instant(words[i + 1].start - silence_padding_ms()),
    }
}

/// The silences in the pauses after the first `k` words: one for each pause
/// of at least `min_silence` that is longer than the padding on both sides.
pub open spec fn pause_silences(words: Seq<Word>, min_silence: int, k: int) -> Seq<Segment>
    decreases k,
{
    if k <= 0 {
        Seq::empty()
    } else if gap_ms(words[k].start, words[k - 1].end) >= min_silence && pause_silence(
        words,
        k - 1,
    ).valid() {
        pause_silences(words, min_silence, k - 1).push(pause_silence(words, k - 1))
    } else {
        pause_silences(words, min_silence, k - 1)
    }
}

/// The silence after the last word, if it is long enough to cut.
pub open spec fn trailing_silence(words: Seq<Word>, min_silence: int, total: Millis) -> Seq<
    Segment,
> {
    if words.len() > 0 && total - words.last().end > min_silence + silence_padding_ms() {
        seq![Segment { start: instant(words.last().end + silence_padding_ms()), end: total }]
    } else {
        Seq::empty()
    }
}

/// The silences of a word stream.
pub open spec fn word_silences(words: Seq<Word>, min_silence: int, total: Millis) -> Seq<Segment> {
    leading_silence(words, min_silence) + pause_silences(words, min_silence, words.len() - 1)
        + trailing_silence(words, min_silence, total)
}

/// Finds the silences of a word stream: before the first word, in every
/// pause of at least `min_silence`, and after the last word, each with a
/// margin of 0.15 seconds left around the speech. A pause that the margins
/// use up yields no silence, so every span returned has positive duration.
pub fn detect_word_silences(words: &Vec<Word>, min_silence: Millis, total_duration: Millis) -> (out:
    Vec<Segment>)
    ensures
        out@ == word_silences(words@, min_silence as int, total_duration),
        forall|i: int| 0 <= i < out.len() ==> (#[trigger] out@[i]).valid(),
{
    let mut out: Vec<Segment> = Vec::new();
    let n: usize = words.len();
    if n == 0 {
        proof {
            assert(out@ =~= word_silences(words@, min_silence as int, total_duration));
        }
        return out;
    }
    if words[0].start as u128 > min_silence as u128 + 150 {
        out.push(Segment { start: 0, end: earlier(words[0].start, 150) });
    }
    let ghost lead = out@;
    let mut i: usize = 0;
    while i + 1 < n
        invariant
            i + 1 <= n,
            n == words.len(),
            out@ == lead + pause_silences(words@, min_silence as int, i as int),
            forall|k: int| 0 <= k < out.len() ==> (#[trigger] out@[k]).valid(),
        decreases n - i,
    {
        if gap_between(words[i + 1].start, words[i].end) >= min_silence as i128 {
            let from = later(words[i].end, 150);
            let to = earlier(words[i + 1].start, 150);
            if from < to {
                out.push(Segment { start: from, end: to });
                proof {
                    assert(out@ =~= lead + pause_silences(words@, min_silence as int, i + 1));
                }
            }
        }
        i += 1;
    }
    let last_end = words[n - 1].end;
    if gap_between(total_duration, last_end) > min_silence as i128 + 150 {
        out.push(Segment { start: later(last_end, 150), end: total_duration });
    }
    proof {
        assert(words@.last() == words@[n - 1]);
        assert(out@ =~= word_silences(words@, min_silence as int, total_duration));
    }
    out
}

/// The longest time a word of `chars` characters is expected to take: 0.08
/// seconds per character, at least half a second and at most a second and a
/// half.
pub open spec fn expected_ms(chars: int) -> int {
    if chars * 80 < 500 {
        500
    } else if chars * 80 > 1_500 {
        1_500
    } else {
        chars * 80
    }
}

/// Whether a word is stretched: it lasts more than a second and a half and
/// more than a second beyond what its length lets expect.
pub open spec fn is_stretched(w: Word) -> bool {
    let d = w.end - w.start;
    d > 1_500 && d > expected_ms(w.word@.len() as int) + 1_000
}

/// The hidden content behind the first `k` words: for each stretched word,
/// the span from 0.3 seconds after its start to its end.
pub open spec fn stretched_upto(words: Seq<Word>, k: int) -> Seq<Segment>
    decreases k,
{
    if k <= 0 {
        Seq::empty()
    } else if is_stretched(words[k - 1]) {
        stretched_upto(words, k - 1).push(
            Segment { start: (words[k - 1].start + 300) as Millis, end: words[k - 1].end },
        )
    } else {
        stretched_upto(words, k - 1)
    }
}

/// Finds the words that last far longer than their length lets expect: a
/// transcript hides repeated or skipped content behind such words. Returns
/// the span of each stretched word but for its first 0.3 seconds.
pub fn detect_stretched_words(words: &Vec<Word>) -> (out: Vec<Segment>)
    ensures
        out@ == stretched_upto(words@, words.len() as int),
        forall|i: int| 0 <= i < out.len() ==> (#[trigger] out@[i]).valid(),
{
    let mut out: Vec<Segment> = Vec::new();
    let mut i: usize = 0;
    while i < words.len()
        invariant
            i <= words.len(),
            out@ == stretched_upto(words@, i as int),
            forall|k: int| 0 <= k < out.len() ==> (#[trigger] out@[k]).valid(),
        decreases words.len() - i,
    {
        let w = &words[i];
        let d = gap_between(w.end, w.start);
        let count = chars_of(w.word.as_str()).len();
        let expected: i128 = if count < 7 {
            500
        } else if count > 18 {
            1_500
        } else {
            count as i128 * 80
        };
        if d > 1_500 && d > expected + 1_000 {
            out.push(Segment { start: w.start + 300, end: w.end });
        }
        i += 1;
    }
    out
}

/// Whether a word lies inside the window from `from` to `to`.
pub open spec fn in_window(w: Word, from: Millis, to: Millis) -> bool {
    w.start >= from && w.end <= to
}

/// The words inside a window, in order.
pub open spec fn window_words(words: Seq<Word>, from: Millis, to: Millis) -> Seq<Word> {
    words.filter(|w: Word| in_window(w, from, to))
}

/// Keeps the words inside a window.
pub fn words_in_window(words: &Vec<Word>, from: Millis, to: Millis) -> (out: Vec<Word>)
    ensures
        out@ == window_words(words@, from, to),
        out.len() <= words.len(),
{
    let mut out: Vec<Word> = Vec::new();
    let mut i: usize = 0;
    proof {
        reveal(Seq::filter);
    }
    while i < words.len()
        invariant
            i <= words.len(),
            out.len() <= i,
            out@ == window_words(words@.take(i as int), from, to),
        decreases words.len() - i,
    {
        proof {
            reveal(Seq::filter);
            assert(words@.take(i + 1).drop_last() =~= words@.take(i as int));
        }
        if words[i].start >= from && words[i].end <= to {
            out.push(crate::fillers::copy_word(&words[i]));
        }
        i += 1;
    }
    proof {
        assert(words@.take(i as int) =~= words@);
    }
    out
}

/// How often `g` occurs among the first `k` of `grams`.
pub open spec fn occurrences(grams: Seq<Seq<char>>, g: Seq<char>, k: int) -> int
    decreases k,
{
    if k <= 0 {
        0
    } else {
        occurrences(grams, g, k - 1) + if grams[k - 1] == g {
            1int
        } else {
            0int
        }
    }
}

/// Whether the three-word group at `i` occurs at least five times.
pub open spec fn is_heavy(grams: Seq<Seq<char>>, i: int) -> bool {
    0 <= i < grams.len() && occurrences(grams, grams[i], grams.len() as int) >= 5
}

/// Whether the word at `p` belongs to a three-word group that occurs at
/// least five times.
pub open spec fn in_loop(grams: Seq<Seq<char>>, p: int) -> bool {
    is_heavy(grams, p) || is_heavy(grams, p - 1) || is_heavy(grams, p - 2)
}

/// The number of the first `k` words that belong to such a group.
pub open spec fn looped_words(grams: Seq<Seq<char>>, k: int) -> int
    decreases k,
{
    if k <= 0 {
        0
    } else {
        looped_words(grams, k - 1) + if in_loop(grams, k - 1) {
            1int
        } else {
            0int
        }
    }
}

/// Whether the words of a window loop: there are at least nine, and at
/// least seven in ten belong to a three-word group that occurs five times
/// or more.
pub open spec fn is_looping(texts: Seq<Seq<char>>) -> bool {
    texts.len() >= 9 && reaches_percent(
        looped_words(spaced_windows(texts, 3), texts.len() as int),
        texts.len() as int,
        70,
    )
}

/// Whether the words of a window loop.
pub fn window_loops(texts: &Vec<Vec<char>>) -> (b: bool)
    ensures
        b == is_looping(views(texts@)),
{
    let n: usize = texts.len();
    if n < 9 {
        return false;
    }
    let grams = spaced_window_list(texts, 3);
    let ghost gv = views(grams@);
    assert(gv.len() == n - 2);
    let mut heavy: Vec<bool> = Vec::new();
    let mut i: usize = 0;
    while i < grams.len()
        invariant
            i <= grams.len(),
            gv == views(grams@),
            heavy.len() == i,
            forall|k: int| 0 <= k < i ==> heavy@[k] == is_heavy(gv, k),
        decreases grams.len() - i,
    {
        let mut count: usize = 0;
        let mut j: usize = 0;
        while j < grams.len()
            invariant
                j <= grams.len(),
                i < grams.len(),
                gv == views(grams@),
                count <= j,
                count == occurrences(gv, gv[i as int], j as int),
            decreases grams.len() - j,
        {
            if crate::chars::chars_eq(&grams[j], &grams[i]) {
                count += 1;
            }
            j += 1;
        }
        heavy.push(count >= 5);
        i += 1;
    }
    let mut looped: usize = 0;
    let mut p: usize = 0;
    while p < n
        invariant
            p <= n,
            n == texts.len(),
            heavy.len() == gv.len(),
            looped <= p,
            forall|k: int| 0 <= k < gv.len() ==> heavy@[k] == is_heavy(gv, k),
            looped == looped_words(gv, p as int),
        decreases n - p,
    {
        let a = p < heavy.len() && heavy[p];
        let b = p >= 1 && p - 1 < heavy.len() && heavy[p - 1];
        let c = p >= 2 && p - 2 < heavy.len() && heavy[p - 2];
        if a || b || c {
            looped += 1;
        }
        p += 1;
    }
    percent_reached(looped, n as u128, 70)
}

/// The windows of one minute, from `from` on in steps of half a minute, in
/// which the words loop. A window is looked at as long as it begins at
/// least half a minute before `last_end`.
pub open spec fn looping_windows(words: Seq<Word>, from: int, last_end: int) -> Seq<Segment>
    decreases last_end - from,
{
    if from + 30_000 > last_end || from < 0 {
        Seq::empty()
    } else {
        let to = instant(from + 60_000);
        let rest = looping_windows(words, from + 30_000, last_end);
        if is_looping(word_texts(window_words(words, from as Millis, to))) {
            seq![Segment { start: from as Millis, end: to }] + rest
        } else {
            rest
        }
    }
}

/// The stretches in which a transcript of at least ten words loops.
pub open spec fn hallucinations(words: Seq<Word>) -> Seq<Segment> {
    if words.len() < 10 {
        Seq::empty()
    } else {
        merge_sorted(looping_windows(words, words[0].start as int, words.last().end as int), 0)
    }
}

/// Finds the stretches where a transcript loops on the same few words, as
/// transcription does when it cannot make out the speech. Returns the
/// looping windows, merged where they overlap or touch.
pub fn detect_whisper_hallucinations(words: &Vec<Word>) -> (out: Vec<Segment>)
    ensures
        out@ == hallucinations(words@),
{
    if words.len() < 10 {
        return Vec::new();
    }
    let first_start = words[0].start;
    let last_end = words[words.len() - 1].end;
    let ghost all = looping_windows(words@, first_start as int, last_end as int);
    let mut found: Vec<Segment> = Vec::new();
    let mut from: Millis = first_start;
    while from <= last_end && last_end - from >= 30_000
        invariant
            found@ + looping_windows(words@, from as int, last_end as int) == all,
        decreases last_end - from,
    {
        let to = later(from, 60_000);
        let inside = words_in_window(words, from, to);
        let texts = word_chars(&inside);
        let ghost rest = looping_windows(words@, from + 30_000, last_end as int);
        let ghost before = found@;
        if window_loops(&texts) {
            found.push(Segment { start: from, end: to });
            proof {
                assert(found@ + rest =~= before + (seq![Segment { start: from, end: to }] + rest));
            }
        }
        from = from + 30_000;
    }
    proof {
        assert(found@ + Seq::<Segment>::empty() =~= found@);
        assert(words@.last() == words@[words.len() - 1]);
    }
    merge_ordered(&found, 0)
}

/// The fewest words per minute that count as speech.
pub open spec fn min_words_per_minute(mode: ProcessingMode) -> int {
    match mode {
        ProcessingMode::Aggressive => 8,
        ProcessingMode::Moderate => 5,
        ProcessingMode::Conservative => 3,
    }
}

/// The windows of one minute, from `from` on in steps of half a minute and
/// inside the timeline, that hold fewer than `least` words.
pub open spec fn sparse_windows(words: Seq<Word>, least: int, from: int, total: int) -> Seq<Segment>
    decreases total - from,
{
    if from + 60_000 > total || from < 0 {
        Seq::empty()
    } else {
        let rest = sparse_windows(words, least, from + 30_000, total);
        if window_words(words, from as Millis, (from + 60_000) as Millis).len() < least {
            seq![Segment { start: from as Millis, end: (from + 60_000) as Millis }] + rest
        } else {
            rest
        }
    }
}

/// A dead zone shrunk by 0.3 seconds at both ends.
pub open spec fn shrunk(s: Segment) -> Segment {
    let from = instant(s.start + 300);
    let to = instant(s.end - 300);
    Segment {
        start: from,
        end: if to >= from {
            to
        } else {
            from
        },
    }
}

pub open spec fn shrunk_all(spans: Seq<Segment>) -> Seq<Segment> {
    spans.map_values(|s: Segment| shrunk(s))
}

/// The dead zones of a recording of at least a minute: the sparse windows
/// and the looping stretches, merged where they overlap or touch, shrunk,
/// and kept where at least ten seconds remain.
pub open spec fn sparse_regions(words: Seq<Word>, mode: ProcessingMode, total: Millis) -> Seq<
    Segment,
> {
    if words.len() == 0 || total < 60_000 {
        Seq::empty()
    } else {
        let meaningful = without_fillers(words);
        let windows = sparse_windows(meaningful, min_words_per_minute(mode), 0, total as int)
            + hallucinations(meaningful);
        drop_short(shrunk_all(merge_sorted(sort_by_start(windows), 0)), 10_000)
    }
}

/// Finds the dead zones of a recording: stretches with too few words for
/// the mode, or in which the transcript loops.
pub fn detect_sparse_regions(words: &Vec<Word>, mode: ProcessingMode, total_duration: Millis) -> (out:
    Vec<Segment>)
    ensures
        out@ == sparse_regions(words@, mode, total_duration),
{
    if words.len() == 0 || total_duration < 60_000 {
        return Vec::new();
    }
    let least: usize = match mode {
        ProcessingMode::Aggressive => 8,
        ProcessingMode::Moderate => 5,
        ProcessingMode::Conservative => 3,
    };
    let meaningful = filter_filler_words(words);
    let ghost all = sparse_windows(meaningful@, least as int, 0, total_duration as int);
    let mut windows: Vec<Segment> = Vec::new();
    let mut from: Millis = 0;
    while total_duration - from >= 60_000
        invariant
            from <= total_duration,
            windows@ + sparse_windows(meaningful@, least as int, from as int, total_duration as int)
                == all,
        decreases total_duration - from,
    {
        let to: Millis = from + 60_000;
        let inside = words_in_window(&meaningful, from, to);
        let ghost rest = sparse_windows(
            meaningful@,
            least as int,
            from + 30_000,
            total_duration as int,
        );
        let ghost before = windows@;
        if inside.len() < least {
            windows.push(Segment { start: from, end: to });
            proof {
                assert(windows@ + rest =~= before + (seq![Segment { start: from, end: to }]
                    + rest));
            }
        }
        from = from + 30_000;
    }
    proof {
        assert(windows@ + Seq::<Segment>::empty() =~= windows@);
    }
    let mut loops = detect_whisper_hallucinations(&meaningful);
    windows.append(&mut loops);
    let merged = merge_ordered(&sort_spans(&windows), 0);
    let mut regions: Vec<Segment> = Vec::new();
    let mut i: usize = 0;
    while i < merged.len()
        invariant
            i <= merged.len(),
            regions.len() == i,
            forall|k: int| 0 <= k < i ==> regions@[k] == shrunk(merged@[k]),
        decreases merged.len() - i,
    {
        let s = merged[i];
        let start = later(s.start, 300);
        let to = earlier(s.end, 300);
        let end: Millis = if to >= start {
            to
        } else {
            start
        };
        regions.push(Segment { start, end });
        i += 1;
    }
    proof {
        assert(regions@ =~= shrunk_all(merged@));
    }
    retain_long(&regions, 10_000)
}

} // verus!
