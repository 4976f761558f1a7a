//! The chunk segmenter: cuts the word stream into speech chunks at pauses
//! and where the speaker audibly starts over.

use vstd::prelude::*;
use crate::chars::{chars_of, string_of};
use crate::timeline::{Millis, gap_ms, gap_between};
use crate::text::{views, trimmed, trim_chars, normalize_chars, normalized_word};
use crate::words::normalized_each;
use crate::ngrams::{window_found_in, window_occurs};
use crate::transcript::{Word, SpeechChunk, ChunkView, chunk_views, word_texts};

verus! {

/// The length of the word window by which a restart is recognised.
pub const RESTART_WINDOW: usize = 3;

/// The words of the stream, each normalised.
pub open spec fn normalized_words(words: Seq<Word>) -> Seq<Seq<char>> {
    normalized_each(word_texts(words))
}

/// Whether the speaker starts over after word `i`, the current chunk
/// beginning at word `from`: the chunk holds at least three words, at least
/// three more words follow, and the three words that follow `i` equal,
/// normalised, three consecutive words of the chunk.
pub open spec fn restarts_after(words: Seq<Word>, from: int, i: int) -> bool {
    let norm = normalized_words(words);
    &&& i - from + 1 >= 3
    &&& i + 3 < words.len()
    &&& window_found_in(norm, norm, 3, i + 1, from, i - 1)
}

/// Whether the chunk that begins at word `from` ends with word `i`: `i` is
/// the last word, or the pause after it reaches the threshold, or the
/// speaker starts over after it.
pub open spec fn splits_after(words: Seq<Word>, threshold: int, from: int, i: int) -> bool {
    ||| i == words.len() - 1
    ||| gap_ms(words[i + 1].start, words[i].end) >= threshold
    ||| restarts_after(words, from, i)
}

/// The word at which the chunk still open after the first `k` words begins.
pub open spec fn buffer_start(words: Seq<Word>, threshold: int, k: int) -> int
    decreases k,
{
    if k <= 0 {
        0
    } else if splits_after(words, threshold, buffer_start(words, threshold, k - 1), k - 1) {
        k
    } else {
        buffer_start(words, threshold, k - 1)
    }
}

/// The words `lo..hi`, each followed by a space.
pub open spec fn spaced_text(words: Seq<Word>, lo: int, hi: int) -> Seq<char>
    decreases hi - lo,
{
    if hi <= lo {
        Seq::empty()
    } else {
        spaced_text(words, lo, hi - 1) + words[hi - 1].word@ + seq![' ']
    }
}

/// The chunk made of the words `lo..hi`.
pub open spec fn chunk_of(words: Seq<Word>, lo: int, hi: int, id: int) -> ChunkView {
    ChunkView {
        id,
        text: trimmed(spaced_text(words, lo, hi)),
        start: words[lo].start,
        end: words[hi - 1].end,
        word_count: hi - lo,
    }
}

/// The chunks closed within the first `k` words.
pub open spec fn chunks_upto(words: Seq<Word>, threshold: int, k: int) -> Seq<ChunkView>
    decreases k,
{
    if k <= 0 {
        Seq::empty()
    } else {
        let prev = chunks_upto(words, threshold, k - 1);
        let from = buffer_start(words, threshold, k - 1);
        if splits_after(words, threshold, from, k - 1) {
            prev.push(chunk_of(words, from, k, prev.len() as int))
        } else {
            prev
        }
    }
}

/// The chunks of a word stream.
pub open spec fn segmented(words: Seq<Word>, threshold: int) -> Seq<ChunkView> {
    chunks_upto(words, threshold, words.len() as int)
}

/// The number of words in the chunks before chunk `j`.
pub open spec fn words_before(chunks: Seq<ChunkView>, j: int) -> int
    decreases j,
{
    if j <= 0 {
        0
    } else {
        words_before(chunks, j - 1) + chunks[j - 1].word_count
    }
}

/// The chunks split the first `upto` words among themselves: each chunk is
/// made of the words that follow those of the chunk before it, holds at
/// least one word, and carries its position as its id.
pub open spec fn partitions(chunks: Seq<ChunkView>, words: Seq<Word>, upto: int) -> bool {
    &&& words_before(chunks, chunks.len() as int) == upto
    &&& forall|j: int|
        0 <= j < chunks.len() ==> {
            &&& 0 <= words_before(chunks, j)
            &&& (#[trigger] chunks[j]).word_count >= 1
            &&& words_before(chunks, j) + chunks[j].word_count <= upto
            &&& chunks[j] == chunk_of(
                words,
                words_before(chunks, j),
                words_before(chunks, j) + chunks[j].word_count,
                j,
            )
        }
}

proof fn lemma_words_before_push(chunks: Seq<ChunkView>, c: ChunkView, j: int)
    requires
        0 <= j <= chunks.len(),
    ensures
        words_before(chunks.push(c), j) == words_before(chunks, j),
    decreases j,
{
    if j > 0 {
        lemma_words_before_push(chunks, c, j - 1);
    }
}

/// The chunks closed within the first `k` words split the words before the
/// open chunk among themselves.
pub proof fn lemma_chunks_partition(words: Seq<Word>, threshold: int, k: int)
    requires
        0 <= k <= words.len(),
    ensures
        0 <= buffer_start(words, threshold, k) <= k,
        chunks_upto(words, threshold, k).len() <= k,
        partitions(chunks_upto(words, threshold, k), words, buffer_start(words, threshold, k)),
        k == words.len() ==> buffer_start(words, threshold, k) == k,
    decreases k,
{
    if k > 0 {
        lemma_chunks_partition(words, threshold, k - 1);
        let prev = chunks_upto(words, threshold, k - 1);
        let from = buffer_start(words, threshold, k - 1);
        let cur = chunks_upto(words, threshold, k);
        if splits_after(words, threshold, from, k - 1) {
            let c = chunk_of(words, from, k, prev.len() as int);
            assert forall|j: int| 0 <= j <= prev.len() implies words_before(cur, j)
                == words_before(prev, j) by {
                lemma_words_before_push(prev, c, j);
            }
            assert(words_before(cur, cur.len() as int) == words_before(cur, prev.len() as int)
                + cur[prev.len() as int].word_count);
            assert forall|j: int| 0 <= j < cur.len() implies {
                &&& 0 <= words_before(cur, j)
                &&& (#[trigger] cur[j]).word_count >= 1
                &&& words_before(cur, j) + cur[j].word_count <= k
                &&& cur[j] == chunk_of(
                    words,
                    words_before(cur, j),
                    words_before(cur, j) + cur[j].word_count,
                    j,
                )
            } by {
                if j < prev.len() {
                    assert(cur[j] == prev[j]);
                }
            }
        }
    }
}

/// The words come in order: each ends no earlier than it starts and no
/// later than the next one starts.
pub open spec fn in_time_order(words: Seq<Word>) -> bool {
    &&& forall|i: int| 0 <= i < words.len() ==> (#[trigger] words[i]).start <= words[i].end
    &&& forall|i: int, j: int| 0 <= i < j < words.len() ==> words[i].end <= words[j].start
}

/// Chunks that split an ordered word stream among themselves are in
/// chronological order and do not overlap: each ends no earlier than it
/// starts and no later than the next one starts.
pub proof fn lemma_chunks_chronological(chunks: Seq<ChunkView>, words: Seq<Word>)
    requires
        partitions(chunks, words, words.len() as int),
        in_time_order(words),
    ensures
        forall|j: int| 0 <= j < chunks.len() ==> (#[trigger] chunks[j]).start <= chunks[j].end,
        forall|j: int|
            0 <= j < chunks.len() - 1 ==> (#[trigger] chunks[j]).end <= chunks[j + 1].start,
{
    assert forall|j: int| 0 <= j < chunks.len() implies (#[trigger] chunks[j]).start
        <= chunks[j].end by {
        let lo = words_before(chunks, j);
        let hi = lo + chunks[j].word_count;
        assert(chunks[j] == chunk_of(words, lo, hi, j));
        if lo < hi - 1 {
            assert(words[lo].end <= words[hi - 1].start);
        }
        assert(words[lo].start <= words[lo].end);
        assert(words[hi - 1].start <= words[hi - 1].end);
    }
    assert forall|j: int| 0 <= j < chunks.len() - 1 implies (#[trigger] chunks[j]).end <= chunks[j
        + 1].start by {
        let lo = words_before(chunks, j);
        let hi = lo + chunks[j].word_count;
        assert(chunks[j] == chunk_of(words, lo, hi, j));
        let next = chunks[j + 1];
        assert(words_before(chunks, j + 1) == hi);
        assert(next == chunk_of(words, hi, hi + next.word_count, j + 1));
        assert(next.word_count >= 1);
        assert(words[hi - 1].end <= words[hi].start);
    }
}

/// Appends the characters of `src` to `dst`.
pub fn append_chars(dst: &mut Vec<char>, src: &Vec<char>)
    ensures
        final(dst)@ == old(dst)@ + src@,
{
    let ghost before = dst@;
    let mut i: usize = 0;
    while i < src.len()
        invariant
            i <= src.len(),
            dst@ == before + src@.take(i as int),
        decreases src.len() - i,
    {
        dst.push(src[i]);
        proof {
            assert(before + src@.take(i + 1) =~= (before + src@.take(i as int)).push(
                src@[i as int],
            ));
        }
        i += 1;
    }
    proof {
        assert(src@.take(i as int) =~= src@);
    }
}

/// The words of the stream, each normalised.
pub fn normalize_words(words: &Vec<Word>) -> (out: Vec<Vec<char>>)
    ensures
        views(out@) == normalized_words(words@),
        out.len() == words.len(),
{
    let mut out: Vec<Vec<char>> = Vec::new();
    let mut i: usize = 0;
    while i < words.len()
        invariant
            i <= words.len(),
            out.len() == i,
            forall|k: int| 0 <= k < i ==> out@[k]@ == normalized_word(words@[k].word@),
        decreases words.len() - i,
    {
        let chars = chars_of(words[i].word.as_str());
        out.push(normalize_chars(&chars));
        i += 1;
    }
    proof {
        assert(views(out@) =~= normalized_words(words@));
    }
    out
}

/// Cuts an ordered word stream into speech chunks.
///
/// Words are gathered into a chunk until the pause after a word reaches
/// `gap_threshold`, or the three words that follow repeat three consecutive
/// words already in the chunk, or the stream ends. A chunk spans from the
/// start of its first word to the end of its last, and its text is its
/// words separated by single spaces.
///
/// The chunks split the words among themselves in order, so that every word
/// belongs to exactly one chunk. An empty stream yields no chunk.
pub fn segment_into_chunks(words: &Vec<Word>, gap_threshold: Millis) -> (chunks: Vec<SpeechChunk>)
    ensures
        chunk_views(chunks@) == segmented(words@, gap_threshold as int),
        partitions(chunk_views(chunks@), words@, words.len() as int),
        chunks.len() <= words.len(),
{
    let n: usize = words.len();
    let norm = normalize_words(words);
    let mut chunks: Vec<SpeechChunk> = Vec::new();
    let mut from: usize = 0;
    let mut text: Vec<char> = Vec::new();
    let mut i: usize = 0;
    proof {
        assert(chunk_views(chunks@) =~= chunks_upto(words@, gap_threshold as int, 0));
    }
    while i < n
        invariant
            i <= n,
            n == words.len(),
            norm.len() == n,
            views(norm@) == normalized_words(words@),
            from == buffer_start(words@, gap_threshold as int, i as int),
            from <= i,
            chunk_views(chunks@) == chunks_upto(words@, gap_threshold as int, i as int),
            chunks.len() <= i,
            text@ == spaced_text(words@, from as int, i as int),
        decreases n - i,
    {
        let chars = chars_of(words[i].word.as_str());
        append_chars(&mut text, &chars);
        text.push(' ');
        proof {
            assert(text@ =~= spaced_text(words@, from as int, i + 1));
        }
        let is_last: bool = i + 1 == n;
        let pause: bool = !is_last && gap_between(words[i + 1].start, words[i].end)
            >= gap_threshold as i128;
        let restart: bool = i - from + 1 >= RESTART_WINDOW && n - i > RESTART_WINDOW
            && window_occurs(&norm, from, i - 1, &norm, i + 1, RESTART_WINDOW);
        if is_last || pause || restart {
            let trimmed_text = trim_chars(&text);
            let chunk = SpeechChunk {
                id: chunks.len(),
                text: string_of(&trimmed_text),
                start: words[from].start,
                end: words[i].end,
                word_count: i + 1 - from,
            };
            let ghost before = chunks@;
            chunks.push(chunk);
            proof {
                assert(chunk@ == chunk_of(words@, from as int, i + 1, before.len() as int));
                assert(chunk_views(chunks@) =~= chunk_views(before).push(chunk@));
            }
            text = Vec::new();
            from = i + 1;
        }
        i += 1;
    }
    proof {
        lemma_chunks_partition(words@, gap_threshold as int, n as int);
    }
    chunks
}

} // verus!
