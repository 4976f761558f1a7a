//! What the classifier reads of a chunk: its span, its size, and the
//! lexical features of its text.

use vstd::prelude::*;
use crate::chars::chars_of;
use crate::timeline::Millis;
use crate::text::{
    views, tokens, bare_word, bare_chars, split_tokens, truncated, starts_lowercase,
    chars_truncated, chars_start_lowercase,
};
use crate::words::{normalized_tokens, normalize_each, content_words, retain_content_words};
use crate::wordset::WordSet;
use crate::lexicon::{Lexicon, LexiconView, utf8_len, utf8_length};
use crate::transcript::{SpeechChunk, ChunkView, chunk_views};

verus! {

/// The number of words in an opener.
pub const OPENER_WORDS: usize = 3;

/// The first three normalised words of a text, if it has that many.
pub open spec fn opener_of(text: Seq<char>) -> Option<Seq<Seq<char>>> {
    let t = normalized_tokens(text);
    if t.len() >= 3 {
        Some(t.take(3))
    } else {
        None
    }
}

/// Whether a word of an opener carries little meaning: it is a stop word or
/// at most three bytes long.
pub open spec fn is_light_word(w: Seq<char>, lex: LexiconView) -> bool {
    lex.stop_words.contains(w) || utf8_len(w) <= 3
}

/// The number of light words among the first `k` words of `op`.
pub open spec fn light_words(op: Seq<Seq<char>>, lex: LexiconView, k: int) -> int
    decreases k,
{
    if k <= 0 {
        0
    } else {
        light_words(op, lex, k - 1) + if is_light_word(op[k - 1], lex) {
            1int
        } else {
            0int
        }
    }
}

/// An opener is weak when at least two of its three words are light.
pub open spec fn opener_is_weak(op: Seq<Seq<char>>, lex: LexiconView) -> bool {
    light_words(op, lex, 3) >= 2
}

/// The number of the first `k` tokens that belong, lowercased and freed of
/// sentence marks, to the core vocabulary.
pub open spec fn core_hits_upto(toks: Seq<Seq<char>>, lex: LexiconView, k: int) -> int
    decreases k,
{
    if k <= 0 {
        0
    } else {
        core_hits_upto(toks, lex, k - 1) + if lex.core_words.contains(bare_word(toks[k - 1])) {
            1int
        } else {
            0int
        }
    }
}

/// What the classifier reads of a chunk.
pub struct ProfileView {
    pub start: Millis,
    pub end: Millis,
    /// The number of words the segmenter put into the chunk.
    pub word_count: int,
    /// The first three normalised words of the text.
    pub opener: Option<Seq<Seq<char>>>,
    /// Whether the opener is made mostly of light words.
    pub weak_opener: bool,
    /// The set of content words of the text.
    pub content: Set<Seq<char>>,
    /// Whether the text begins with a lowercase letter.
    pub lowercase: bool,
    /// Whether the text breaks off.
    pub truncated: bool,
    /// The number of tokens of the text.
    pub token_count: int,
    /// The number of tokens that belong to the core vocabulary.
    pub core_hits: int,
}

/// The profile of a chunk under a lexicon.
pub open spec fn profile_of(c: ChunkView, lex: LexiconView) -> ProfileView {
    ProfileView {
        start: c.start,
        end: c.end,
        word_count: c.word_count,
        opener: opener_of(c.text),
        weak_opener: opener_of(c.text) is Some && opener_is_weak(opener_of(c.text)->0, lex),
        content: content_words(c.text, lex),
        lowercase: starts_lowercase(c.text),
        truncated: truncated(c.text),
        token_count: tokens(c.text).len() as int,
        core_hits: core_hits_upto(tokens(c.text), lex, tokens(c.text).len() as int),
    }
}

/// The profiles of a list of chunks.
pub open spec fn profiles_of(chunks: Seq<ChunkView>, lex: LexiconView) -> Seq<ProfileView> {
    chunks.map_values(|c: ChunkView| profile_of(c, lex))
}

/// The profile of a chunk, computed once and read by every strategy.
#[derive(Clone, Debug)]
pub struct ChunkProfile {
    pub start: Millis,
    pub end: Millis,
    pub word_count: usize,
    pub opener: Option<Vec<Vec<char>>>,
    pub weak_opener: bool,
    pub content: WordSet,
    pub lowercase: bool,
    pub truncated: bool,
    pub token_count: usize,
    pub core_hits: usize,
}

impl View for ChunkProfile {
    type V = ProfileView;

    open spec fn view(&self) -> ProfileView {
        ProfileView {
            start: self.start,
            end: self.end,
            word_count: self.word_count as int,
            opener: match self.opener {
                Some(op) => Some(views(op@)),
                None => None,
            },
            weak_opener: self.weak_opener,
            content: self.content@,
            lowercase: self.lowercase,
            truncated: self.truncated,
            token_count: self.token_count as int,
            core_hits: self.core_hits as int,
        }
    }
}

impl ChunkProfile {
    /// The content words are held without repetition, and an opener has
    /// three words.
    pub open spec fn wf(&self) -> bool {
        &&& self.content.wf()
        &&& self.opener is Some ==> self.opener->0.len() == 3
    }
}

/// The views of a list of profiles.
pub open spec fn profile_views(profiles: Seq<ChunkProfile>) -> Seq<ProfileView> {
    profiles.map_values(|p: ChunkProfile| p@)
}

/// Every profile of the list is well formed.
pub open spec fn profiles_wf(profiles: Seq<ChunkProfile>) -> bool {
    forall|i: int| 0 <= i < profiles.len() ==> (#[trigger] profiles[i]).wf()
}

/// Counts the tokens that belong to the core vocabulary.
pub fn count_core_hits(toks: &Vec<Vec<char>>, lex: &Lexicon) -> (n: usize)
    ensures
        n == core_hits_upto(views(toks@), lex@, toks.len() as int),
        n <= toks.len(),
{
    let mut n: usize = 0;
    let mut i: usize = 0;
    while i < toks.len()
        invariant
            i <= toks.len(),
            n <= i,
            n == core_hits_upto(views(toks@), lex@, i as int),
        decreases toks.len() - i,
    {
        let bare = bare_chars(&toks[i]);
        if lex.is_core_word(&bare) {
            n += 1;
        }
        i += 1;
    }
    n
}

/// Whether an opener is made mostly of light words.
pub fn is_weak_opener(op: &Vec<Vec<char>>, lex: &Lexicon) -> (weak: bool)
    requires
        op.len() == 3,
    ensures
        weak == opener_is_weak(views(op@), lex@),
{
    let mut light: usize = 0;
    let mut i: usize = 0;
    while i < 3
        invariant
            i <= 3,
            op.len() == 3,
            light <= i,
            light == light_words(views(op@), lex@, i as int),
        decreases 3 - i,
    {
        if lex.is_stop_word(&op[i]) || utf8_length(&op[i]) <= 3 {
            light += 1;
        }
        i += 1;
    }
    light >= 2
}

/// The first three words of a list of normalised tokens.
pub fn take_opener(norm: &Vec<Vec<char>>) -> (op: Option<Vec<Vec<char>>>)
    ensures
        norm.len() >= 3 ==> op is Some && op->0.len() == 3 && views(op->0@) == views(norm@).take(3),
        norm.len() < 3 ==> op is None,
{
    if norm.len() < 3 {
        return None;
    }
    let mut v: Vec<Vec<char>> = Vec::new();
    v.push(norm[0].clone());
    v.push(norm[1].clone());
    v.push(norm[2].clone());
    proof {
        assert(views(v@) =~= views(norm@).take(3));
    }
    Some(v)
}

/// Computes the profile of a chunk.
pub fn build_profile(chunk: &SpeechChunk, lex: &Lexicon) -> (p: ChunkProfile)
    ensures
        p.wf(),
        p@ == profile_of(chunk@, lex@),
{
    let text = chars_of(chunk.text.as_str());
    let toks = split_tokens(&text);
    let norm = normalize_each(&toks);
    let opener = take_opener(&norm);
    let weak_opener = match &opener {
        Some(op) => is_weak_opener(op, lex),
        None => false,
    };
    let core_hits = count_core_hits(&toks, lex);
    let token_count = toks.len();
    let lowercase = chars_start_lowercase(&text);
    let is_cut = chars_truncated(&text);
    let content = WordSet::from_words(&retain_content_words(norm, lex));
    ChunkProfile {
        start: chunk.start,
        end: chunk.end,
        word_count: chunk.word_count,
        opener,
        weak_opener,
        content,
        lowercase,
        truncated: is_cut,
        token_count,
        core_hits,
    }
}

/// Computes the profile of every chunk.
pub fn build_profiles(chunks: &Vec<SpeechChunk>, lex: &Lexicon) -> (profiles: Vec<ChunkProfile>)
    ensures
        profiles.len() == chunks.len(),
        profiles_wf(profiles@),
        profile_views(profiles@) == profiles_of(chunk_views(chunks@), lex@),
{
    let mut profiles: Vec<ChunkProfile> = Vec::new();
    let mut i: usize = 0;
    while i < chunks.len()
        invariant
            i <= chunks.len(),
            profiles.len() == i,
            profiles_wf(profiles@),
            forall|k: int| 0 <= k < i ==> (#[trigger] profiles@[k])@ == profile_of(chunks@[k]@, lex@),
        decreases chunks.len() - i,
    {
        profiles.push(build_profile(&chunks[i], lex));
        i += 1;
    }
    proof {
        assert(profile_views(profiles@) =~= profiles_of(chunk_views(chunks@), lex@));
    }
    profiles
}


/// The first three normalised words of a text, the opener by which takes of
/// the same sentence are recognised; `None` for a text of fewer than three
/// words.
pub fn get_opener(text: &str) -> (op: Option<(String, String, String)>)
    ensures
        match (opener_of(text@), op) {
            (Some(words), Some(t)) => seq![t.0@, t.1@, t.2@] == words,
            (None, None) => true,
            _ => false,
        },
{
    let toks = split_tokens(&chars_of(text));
    let norm = normalize_each(&toks);
    if norm.len() < 3 {
        return None;
    }
    let a = crate::chars::string_of(&norm[0]);
    let b = crate::chars::string_of(&norm[1]);
    let c = crate::chars::string_of(&norm[2]);
    proof {
        assert(seq![a@, b@, c@] =~= views(norm@).take(3));
    }
    Some((a, b, c))
}

} // verus!
