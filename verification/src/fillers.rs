//! Filler words: hesitation sounds that transcription renders as words and
//! that would otherwise break a silence into pieces.

use vstd::prelude::*;
use crate::chars::chars_of;
use crate::timeline::{Millis, gap_ms, gap_between};
use crate::text::{folded_word, fold_chars};
use crate::lexicon::{filler_list, filler_words};
use crate::wordset::WordSet;
use crate::transcript::Word;

verus! {

/// Whether a word, lowercased and reduced to its alphanumeric characters,
/// is a filler.
pub open spec fn is_filler(word: Seq<char>) -> bool {
    filler_list().contains(folded_word(word))
}

/// Whether `word` is a filler word.
pub fn is_filler_word(word: &str) -> (b: bool)
    ensures
        b == is_filler(word@),
{
    let fillers = WordSet::from_words(&filler_words());
    let folded = fold_chars(&chars_of(word));
    fillers.contains(&folded)
}

/// The words of `words` that are no fillers, in order.
pub open spec fn without_fillers(words: Seq<Word>) -> Seq<Word> {
    words.filter(|w: Word| !is_filler(w.word@))
}

/// A copy of a word.
pub fn copy_word(w: &Word) -> (c: Word)
    ensures
        c == *w,
{
    Word { word: w.word.clone(), start: w.start, end: w.end }
}

/// Drops the filler words, so that the pauses around them merge.
pub fn filter_filler_words(words: &Vec<Word>) -> (out: Vec<Word>)
    ensures
        out@ == without_fillers(words@),
        out.len() <= words.len(),
{
    let mut out: Vec<Word> = Vec::new();
    let mut i: usize = 0;
    proof {
        reveal(Seq::filter);
    }
    while i < words.len()
        invariant
            i <= words.len(),
            out.len() <= i,
            out@ == without_fillers(words@.take(i as int)),
        decreases words.len() - i,
    {
        proof {
            reveal(Seq::filter);
            assert(words@.take(i + 1).drop_last() =~= words@.take(i as int));
        }
        if !is_filler_word(words[i].word.as_str()) {
            out.push(copy_word(&words[i]));
        }
        i += 1;
    }
    proof {
        assert(words@.take(i as int) =~= words@);
    }
    out
}

/// Whether word `i` stays under contextual filtering: it is no filler, or
/// it is embedded in flowing speech, with a pause shorter than
/// `context_gap` on both sides. The first and the last word have no pause
/// on one side and count as isolated.
pub open spec fn stays_in_context(words: Seq<Word>, context_gap: int, i: int) -> bool {
    ||| !is_filler(words[i].word@)
    ||| {
        &&& 0 < i
        &&& i + 1 < words.len()
        &&& gap_ms(words[i].start, words[i - 1].end) < context_gap
        &&& gap_ms(words[i + 1].start, words[i].end) < context_gap
    }
}

/// The words before `k` that stay under contextual filtering.
pub open spec fn contextual_upto(words: Seq<Word>, context_gap: int, k: int) -> Seq<Word>
    decreases k,
{
    if k <= 0 {
        Seq::empty()
    } else if stays_in_context(words, context_gap, k - 1) {
        contextual_upto(words, context_gap, k - 1).push(words[k - 1])
    } else {
        contextual_upto(words, context_gap, k - 1)
    }
}

/// Drops the filler words that stand alone, keeping those embedded in
/// flowing speech.
pub fn filter_filler_words_contextual(words: &Vec<Word>, context_gap: Millis) -> (out: Vec<Word>)
    ensures
        out@ == contextual_upto(words@, context_gap as int, words.len() as int),
        out.len() <= words.len(),
{
    let mut out: Vec<Word> = Vec::new();
    let mut i: usize = 0;
    while i < words.len()
        invariant
            i <= words.len(),
            out.len() <= i,
            out@ == contextual_upto(words@, context_gap as int, i as int),
        decreases words.len() - i,
    {
        let stays: bool = if !is_filler_word(words[i].word.as_str()) {
            true
        } else {
            i > 0 && i + 1 < words.len() && gap_between(words[i].start, words[i - 1].end)
                < context_gap as i128 && gap_between(words[i + 1].start, words[i].end)
                < context_gap as i128
        };
        if stays {
            out.push(copy_word(&words[i]));
        }
        i += 1;
    }
    out
}

} // verus!
