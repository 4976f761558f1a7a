//! The data that flows through the analysis: transcribed words and the
//! speech chunks cut from them.

use vstd::prelude::*;
use crate::timeline::Millis;

verus! {

/// One transcribed word with the span in which it was spoken.
#[derive(Clone, Debug)]
pub struct Word {
    pub word: String,
    pub start: Millis,
    pub end: Millis,
}

/// A contiguous stretch of speech. `id` is the chunk's position in the list
/// it belongs to; every cross-reference between chunks is such a position.
#[derive(Clone, Debug)]
pub struct SpeechChunk {
    pub id: usize,
    pub text: String,
    pub start: Millis,
    pub end: Millis,
    pub word_count: usize,
}

/// What a chunk stands for in contracts.
pub struct ChunkView {
    pub id: int,
    pub text: Seq<char>,
    pub start: Millis,
    pub end: Millis,
    pub word_count: int,
}

impl View for SpeechChunk {
    type V = ChunkView;

    open spec fn view(&self) -> ChunkView {
        ChunkView {
            id: self.id as int,
            text: self.text@,
            start: self.start,
            end: self.end,
            word_count: self.word_count as int,
        }
    }
}

/// The views of a list of chunks.
pub open spec fn chunk_views(chunks: Seq<SpeechChunk>) -> Seq<ChunkView> {
    chunks.map_values(|c: SpeechChunk| c@)
}

/// The texts of a list of words.
pub open spec fn word_texts(words: Seq<Word>) -> Seq<Seq<char>> {
    words.map_values(|w: Word| w.word@)
}

impl Word {
    pub fn new(word: String, start: Millis, end: Millis) -> (w: Word)
        ensures
            w.word == word,
            w.start == start,
            w.end == end,
    {
        Word { word, start, end }
    }
}

impl SpeechChunk {
    pub fn new(id: usize, text: String, start: Millis, end: Millis, word_count: usize) -> (c:
        SpeechChunk)
        ensures
            c.id == id,
            c.text == text,
            c.start == start,
            c.end == end,
            c.word_count == word_count,
    {
        SpeechChunk { id, text, start, end, word_count }
    }
}

/// Whether position `i` is marked in a list of flags; positions beyond the
/// list are unmarked.
pub open spec fn flagged(flags: Seq<bool>, i: int) -> bool {
    0 <= i < flags.len() && flags[i]
}

pub fn is_flagged(flags: &Vec<bool>, i: usize) -> (b: bool)
    ensures
        b == flagged(flags@, i as int),
{
    i < flags.len() && flags[i]
}

} // verus!
