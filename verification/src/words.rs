//! Content words and the lexical overlap of two texts.

use vstd::prelude::*;
use crate::chars::{chars_of, string_of};
use crate::text::{views, tokens, normalized_word, split_tokens, normalize_chars};
use crate::wordset::{WordSet, distinct};
use crate::lexicon::{Lexicon, LexiconView, french_lexicon};

verus! {

/// The views of a list of strings.
pub open spec fn strings(v: Seq<String>) -> Seq<Seq<char>> {
    v.map_values(|s: String| s@)
}

/// Each word of `toks` normalised.
pub open spec fn normalized_each(toks: Seq<Seq<char>>) -> Seq<Seq<char>> {
    toks.map_values(|t: Seq<char>| normalized_word(t))
}

/// The tokens of `text`, each normalised. A token without alphanumeric
/// characters is kept as an empty word.
pub open spec fn normalized_tokens(text: Seq<char>) -> Seq<Seq<char>> {
    normalized_each(tokens(text))
}

/// The content words among `words`, in order.
pub open spec fn content_among(words: Seq<Seq<char>>, lex: LexiconView) -> Seq<Seq<char>> {
    words.filter(|w: Seq<char>| lex.is_content_word(w))
}

/// The content words of `text` in order of appearance, repetitions included.
pub open spec fn content_word_seq(text: Seq<char>, lex: LexiconView) -> Seq<Seq<char>> {
    content_among(normalized_tokens(text), lex)
}

/// The set of content words of `text`.
pub open spec fn content_words(text: Seq<char>, lex: LexiconView) -> Set<Seq<char>> {
    content_word_seq(text, lex).to_set()
}

/// The number of content words that two texts have in common.
pub open spec fn shared_content_words(a: Seq<char>, b: Seq<char>, lex: LexiconView) -> nat {
    content_words(a, lex).intersect(content_words(b, lex)).len()
}

/// The number of shared content words does not depend on the order of the
/// two texts.
pub proof fn lemma_shared_content_words_symmetric(a: Seq<char>, b: Seq<char>, lex: LexiconView)
    ensures
        shared_content_words(a, b, lex) == shared_content_words(b, a, lex),
{
    assert(content_words(a, lex).intersect(content_words(b, lex)) =~= content_words(
        b,
        lex,
    ).intersect(content_words(a, lex)));
}

/// Normalises every word of a list.
pub fn normalize_each(toks: &Vec<Vec<char>>) -> (out: Vec<Vec<char>>)
    ensures
        views(out@) == normalized_each(views(toks@)),
        out.len() == toks.len(),
{
    let mut out: Vec<Vec<char>> = Vec::new();
    let mut i: usize = 0;
    while i < toks.len()
        invariant
            i <= toks.len(),
            out.len() == i,
            forall|k: int| 0 <= k < i ==> out@[k]@ == normalized_word(toks@[k]@),
        decreases toks.len() - i,
    {
        out.push(normalize_chars(&toks[i]));
        i += 1;
    }
    proof {
        assert(views(out@) =~= normalized_each(views(toks@)));
    }
    out
}

/// The tokens of `text`, each normalised.
pub fn normalized_token_list(text: &Vec<char>) -> (out: Vec<Vec<char>>)
    ensures
        views(out@) == normalized_tokens(text@),
        out.len() <= text.len(),
{
    let toks = split_tokens(text);
    normalize_each(&toks)
}

/// The content words among `words`, in order.
pub fn retain_content_words(words: Vec<Vec<char>>, lex: &Lexicon) -> (out: Vec<Vec<char>>)
    ensures
        views(out@) == content_among(views(words@), lex@),
        out.len() <= words.len(),
{
    let mut out: Vec<Vec<char>> = Vec::new();
    let mut i: usize = 0;
    proof {
        reveal(Seq::filter);
        assert(views(words@).take(0) =~= Seq::<Seq<char>>::empty());
        assert(views(out@) =~= content_among(views(words@).take(0), lex@));
    }
    while i < words.len()
        invariant
            i <= words.len(),
            out.len() <= i,
            views(out@) == content_among(views(words@).take(i as int), lex@),
        decreases words.len() - i,
    {
        proof {
            reveal(Seq::filter);
            assert(views(words@).take(i + 1).drop_last() =~= views(words@).take(i as int));
        }
        if lex.is_content_word(&words[i]) {
            let ghost before = out@;
            out.push(words[i].clone());
            proof {
                assert(views(out@) =~= views(before).push(words@[i as int]@));
            }
        }
        i += 1;
    }
    proof {
        assert(views(words@).take(i as int) =~= views(words@));
    }
    out
}

/// The content words of `text` in order of appearance.
pub fn content_word_list(text: &Vec<char>, lex: &Lexicon) -> (out: Vec<Vec<char>>)
    ensures
        views(out@) == content_word_seq(text@, lex@),
        out.len() <= text.len(),
{
    let words = normalized_token_list(text);
    retain_content_words(words, lex)
}

/// The set of content words of `text`.
pub fn content_word_set(text: &Vec<char>, lex: &Lexicon) -> (set: WordSet)
    ensures
        set.wf(),
        set@ == content_words(text@, lex@),
        set.seq() == distinct(content_word_seq(text@, lex@)),
        set.words.len() <= text.len(),
{
    let list = content_word_list(text, lex);
    WordSet::from_words(&list)
}

/// Turns character vectors into strings.
pub fn to_strings(words: &Vec<Vec<char>>) -> (out: Vec<String>)
    ensures
        strings(out@) == views(words@),
{
    let mut out: Vec<String> = Vec::new();
    let mut i: usize = 0;
    while i < words.len()
        invariant
            i <= words.len(),
            out.len() == i,
            forall|k: int| 0 <= k < i ==> out@[k]@ == words@[k]@,
        decreases words.len() - i,
    {
        out.push(string_of(&words[i]));
        i += 1;
    }
    proof {
        assert(strings(out@) =~= views(words@));
    }
    out
}

/// The content words of `text` under the French lexicon: its tokens,
/// normalised, that are at least three bytes long and are no stop words.
/// The result is a set: each content word is listed once, in the order in
/// which the text first names it.
pub fn extract_content_words(text: &str) -> (out: Vec<String>)
    ensures
        strings(out@).no_duplicates(),
        strings(out@).to_set() == content_words(text@, french_lexicon()),
        strings(out@) == distinct(content_word_seq(text@, french_lexicon())),
{
    let lex = Lexicon::french();
    let chars = chars_of(text);
    let set = content_word_set(&chars, &lex);
    to_strings(&set.words)
}

/// The number of distinct content words that `text_a` and `text_b` have in
/// common under `lex`.
pub fn shared_content_word_count(text_a: &str, text_b: &str, lex: &Lexicon) -> (n: usize)
    ensures
        n == shared_content_words(text_a@, text_b@, lex@),
        n == shared_content_words(text_b@, text_a@, lex@),
{
    let a = chars_of(text_a);
    let b = chars_of(text_b);
    let set_a = content_word_set(&a, lex);
    let set_b = content_word_set(&b, lex);
    proof {
        lemma_shared_content_words_symmetric(text_a@, text_b@, lex@);
    }
    set_a.shared_count(&set_b)
}

/// The number of distinct content words that two texts have in common under
/// the French lexicon. Symmetric in its arguments.
pub fn count_shared_content_words(text_a: &str, text_b: &str) -> (n: usize)
    ensures
        n == shared_content_words(text_a@, text_b@, french_lexicon()),
        n == shared_content_words(text_b@, text_a@, french_lexicon()),
{
    let lex = Lexicon::french();
    shared_content_word_count(text_a, text_b, &lex)
}

} // verus!
