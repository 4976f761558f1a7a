//! Phrases: the word stream cut at punctuation and at short pauses.

use vstd::prelude::*;
use crate::chars::{chars_of, string_of};
use crate::timeline::{Millis, gap_ms, gap_between};
use crate::text::{trim_end, trimmed, trim_chars, is_sentence_mark, char_is_sentence_mark};
use crate::fillers::copy_word;
use crate::segmenter::{spaced_text, append_chars};
use crate::transcript::Word;

verus! {

/// A run of words spoken in one breath.
#[derive(Clone, Debug)]
pub struct Phrase {
    pub text: String,
    pub start: Millis,
    pub end: Millis,
    pub words: Vec<Word>,
}

pub struct PhraseView {
    pub text: Seq<char>,
    pub start: Millis,
    pub end: Millis,
    pub words: Seq<Word>,
}

impl View for Phrase {
    type V = PhraseView;

    open spec fn view(&self) -> PhraseView {
        PhraseView { text: self.text@, start: self.start, end: self.end, words: self.words@ }
    }
}

pub open spec fn phrase_views(phrases: Seq<Phrase>) -> Seq<PhraseView> {
    phrases.map_values(|p: Phrase| p@)
}

/// The longest pause inside a phrase.
pub open spec fn phrase_pause_ms() -> int {
    400
}

/// Whether a word, without the whitespace behind it, ends with a sentence
/// mark.
pub open spec fn ends_with_mark(word: Seq<char>) -> bool {
    trim_end(word).len() > 0 && is_sentence_mark(trim_end(word).last())
}

/// Whether a phrase ends with word `i`: the word ends with a sentence mark,
/// or a pause longer than the phrase pause follows it.
pub open spec fn phrase_ends_at(words: Seq<Word>, i: int) -> bool {
    ends_with_mark(words[i].word@) || (i + 1 < words.len() && gap_ms(
        words[i + 1].start,
        words[i].end,
    ) > phrase_pause_ms())
}

/// The word at which the phrase still open after the first `k` words
/// begins.
pub open spec fn phrase_start(words: Seq<Word>, k: int) -> int
    decreases k,
{
    if k <= 0 {
        0
    } else if phrase_ends_at(words, k - 1) {
        k
    } else {
        phrase_start(words, k - 1)
    }
}

/// The phrase made of the words `lo..hi`.
pub open spec fn phrase_of(words: Seq<Word>, lo: int, hi: int) -> PhraseView {
    PhraseView {
        text: trimmed(spaced_text(words, lo, hi)),
        start: words[lo].start,
        end: words[hi - 1].end,
        words: words.subrange(lo, hi),
    }
}

/// The phrases closed within the first `k` words.
pub open spec fn phrases_upto(words: Seq<Word>, k: int) -> Seq<PhraseView>
    decreases k,
{
    if k <= 0 {
        Seq::empty()
    } else if phrase_ends_at(words, k - 1) {
        phrases_upto(words, k - 1).push(phrase_of(words, phrase_start(words, k - 1), k))
    } else {
        phrases_upto(words, k - 1)
    }
}

/// The phrases of a word stream: the closed ones and, if words remain, a
/// last phrase made of them.
pub open spec fn phrased(words: Seq<Word>) -> Seq<PhraseView> {
    let n = words.len() as int;
    if phrase_start(words, n) < n {
        phrases_upto(words, n).push(phrase_of(words, phrase_start(words, n), n))
    } else {
        phrases_upto(words, n)
    }
}

pub proof fn lemma_phrase_start_range(words: Seq<Word>, k: int)
    requires
        0 <= k,
    ensures
        0 <= phrase_start(words, k) <= k,
    decreases k,
{
    if k > 0 {
        lemma_phrase_start_range(words, k - 1);
    }
}

/// Whether the word held in `word` ends with a sentence mark.
pub fn word_ends_with_mark(word: &Vec<char>) -> (b: bool)
    ensures
        b == ends_with_mark(word@),
{
    let mut hi: usize = word.len();
    proof {
        assert(word@.take(word.len() as int) =~= word@);
    }
    while hi > 0 && word[hi - 1].is_whitespace()
        invariant
            hi <= word.len(),
            trim_end(word@) == trim_end(word@.take(hi as int)),
        decreases hi,
    {
        proof {
            assert(word@.take(hi as int).drop_last() =~= word@.take(hi - 1));
        }
        hi -= 1;
    }
    proof {
        let t = word@.take(hi as int);
        if hi > 0 {
            assert(t.last() == word@[hi - 1]);
        }
        assert(trim_end(t) == t);
        assert(word@.take(word.len() as int) =~= word@);
    }
    hi > 0 && char_is_sentence_mark(word[hi - 1])
}

/// Copies the words `lo..hi`.
pub fn copy_words(words: &Vec<Word>, lo: usize, hi: usize) -> (out: Vec<Word>)
    requires
        lo <= hi <= words.len(),
    ensures
        out@ == words@.subrange(lo as int, hi as int),
{
    let mut out: Vec<Word> = Vec::new();
    let mut i: usize = lo;
    while i < hi
        invariant
            lo <= i <= hi <= words.len(),
            out@ == words@.subrange(lo as int, i as int),
        decreases hi - i,
    {
        out.push(copy_word(&words[i]));
        proof {
            assert(words@.subrange(lo as int, i + 1) =~= words@.subrange(lo as int, i as int).push(
                words@[i as int],
            ));
        }
        i += 1;
    }
    out
}

/// The words `lo..hi`, each followed by a space.
pub fn range_text(words: &Vec<Word>, lo: usize, hi: usize) -> (text: Vec<char>)
    requires
        lo <= hi <= words.len(),
    ensures
        text@ == spaced_text(words@, lo as int, hi as int),
{
    let mut text: Vec<char> = Vec::new();
    let mut i: usize = lo;
    while i < hi
        invariant
            lo <= i <= hi <= words.len(),
            text@ == spaced_text(words@, lo as int, i as int),
        decreases hi - i,
    {
        let chars = chars_of(words[i].word.as_str());
        append_chars(&mut text, &chars);
        text.push(' ');
        proof {
            assert(text@ =~= spaced_text(words@, lo as int, i + 1));
        }
        i += 1;
    }
    text
}

/// Builds the phrase made of the words `lo..hi`.
pub fn make_phrase(words: &Vec<Word>, lo: usize, hi: usize) -> (p: Phrase)
    requires
        lo < hi <= words.len(),
    ensures
        p@ == phrase_of(words@, lo as int, hi as int),
{
    let text = trim_chars(&range_text(words, lo, hi));
    Phrase {
        text: string_of(&text),
        start: words[lo].start,
        end: words[hi - 1].end,
        words: copy_words(words, lo, hi),
    }
}

/// Cuts a word stream into phrases: a phrase ends with a word that ends
/// with a full stop, comma, exclamation or question mark, or that is
/// followed by a pause of more than 0.4 seconds. Words left over at the end
/// form a last phrase.
pub fn segment_into_phrases(words: &Vec<Word>) -> (phrases: Vec<Phrase>)
    ensures
        phrase_views(phrases@) == phrased(words@),
{
    let n: usize = words.len();
    let mut phrases: Vec<Phrase> = Vec::new();
    let mut from: usize = 0;
    let mut i: usize = 0;
    proof {
        assert(phrase_views(phrases@) =~= phrases_upto(words@, 0));
    }
    while i < n
        invariant
            i <= n,
            n == words.len(),
            from <= i,
            from == phrase_start(words@, i as int),
            phrase_views(phrases@) == phrases_upto(words@, i as int),
        decreases n - i,
    {
        let chars = chars_of(words[i].word.as_str());
        let marked = word_ends_with_mark(&chars);
        let paused = i + 1 < n && gap_between(words[i + 1].start, words[i].end) > 400;
        if marked || paused {
            let ghost before = phrases@;
            let p = make_phrase(words, from, i + 1);
            phrases.push(p);
            proof {
                assert(phrase_views(phrases@) =~= phrase_views(before).push(p@));
            }
            from = i + 1;
        }
        i += 1;
    }
    if from < n {
        let ghost before = phrases@;
        let p = make_phrase(words, from, n);
        phrases.push(p);
        proof {
            assert(phrase_views(phrases@) =~= phrase_views(before).push(p@));
        }
    }
    phrases
}

} // verus!
