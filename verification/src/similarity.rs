//! Similarity scores between two texts, as exact ratios: the Jaccard index
//! of their word n-grams and their normalised edit similarity.

use vstd::prelude::*;
use crate::chars::{
    char_is_whitespace, char_is_alphanumeric, str_to_lowercase, chars_of, string_of,
};
use crate::text::{views, tokens, unaccented, split_tokens, lowercase_chars, strip_accents};
use crate::ngrams::windows;
use crate::words::{strings, to_strings};
use crate::wordset::WordSet;

verus! {

/// A ratio of two counts, kept exact.
#[derive(Clone, Copy, Debug, PartialEq, Eq, Structural)]
pub struct Ratio {
    pub num: u128,
    pub den: u128,
}

impl Ratio {
    /// A ratio has a positive denominator, and its counts stay far below the
    /// range of their type.
    pub open spec fn wf(self) -> bool {
        0 < self.den <= 0x2_0000_0000_0000_0000 && self.num <= 0x2_0000_0000_0000_0000
    }

    /// Whether the ratio is at least `num / den`.
    pub open spec fn reaches(self, num: int, den: int) -> bool {
        self.num * den >= num * self.den
    }

    pub fn zero() -> (r: Ratio)
        ensures
            r == (Ratio { num: 0, den: 1 }),
            r.wf(),
    {
        Ratio { num: 0, den: 1 }
    }

    pub fn one() -> (r: Ratio)
        ensures
            r == (Ratio { num: 1, den: 1 }),
            r.wf(),
    {
        Ratio { num: 1, den: 1 }
    }

    /// Whether the ratio is at least `num / den`.
    pub fn at_least(&self, num: u32, den: u32) -> (b: bool)
        requires
            self.wf(),
        ensures
            b == self.reaches(num as int, den as int),
    {
        assert(self.num * den <= 0x2_0000_0000_0000_0000 * 0xffff_ffff) by (nonlinear_arith)
            requires
                self.num <= 0x2_0000_0000_0000_0000,
                den <= 0xffff_ffff,
        ;
        assert(num * self.den <= 0xffff_ffff * 0x2_0000_0000_0000_0000) by (nonlinear_arith)
            requires
                self.den <= 0x2_0000_0000_0000_0000,
                num <= 0xffff_ffff,
        ;
        self.num * (den as u128) >= (num as u128) * self.den
    }
}

/// Why a pair of numbers is no similarity threshold.
#[derive(Clone, Copy, Debug, PartialEq, Eq, Structural)]
pub enum ThresholdError {
    /// The denominator is zero.
    ZeroDenominator,
    /// The fraction is greater than one, which no similarity reaches.
    AboveOne,
}

/// A similarity threshold: a fraction between zero and one.
#[derive(Clone, Copy, Debug, PartialEq, Eq, Structural)]
pub struct Threshold {
    pub num: u32,
    pub den: u32,
}

impl Threshold {
    /// A threshold is a fraction of at most one with a positive
    /// denominator.
    pub open spec fn wf(self) -> bool {
        0 < self.den && self.num <= self.den
    }

    /// The threshold `num / den`. Fails exactly when `den` is zero or the
    /// fraction exceeds one.
    pub fn new(num: u32, den: u32) -> (r: Result<Threshold, ThresholdError>)
        ensures
            den == 0 ==> r == Err::<Threshold, ThresholdError>(ThresholdError::ZeroDenominator),
            den != 0 && num > den ==> r == Err::<Threshold, ThresholdError>(
                ThresholdError::AboveOne,
            ),
            den != 0 && num <= den ==> r == Ok::<Threshold, ThresholdError>(Threshold { num, den }),
            r is Ok ==> r->Ok_0.wf(),
    {
        if den == 0 {
            Err(ThresholdError::ZeroDenominator)
        } else if num > den {
            Err(ThresholdError::AboveOne)
        } else {
            Ok(Threshold { num, den })
        }
    }
}

/// The characters of `s` that are alphanumeric or whitespace.
pub open spec fn letters_and_spaces(s: Seq<char>) -> Seq<char> {
    s.filter(|c: char| char_is_alphanumeric(c) || char_is_whitespace(c))
}

/// The words of `toks` written with single spaces between them.
pub open spec fn spaced(toks: Seq<Seq<char>>) -> Seq<char>
    decreases toks.len(),
{
    if toks.len() == 0 {
        Seq::empty()
    } else if toks.len() == 1 {
        toks[0]
    } else {
        spaced(toks.drop_last()).push(' ') + toks.last()
    }
}

/// A text normalised for similarity: lowercased, accents stripped,
/// punctuation dropped, and whitespace collapsed to single spaces.
pub open spec fn similarity_text(text: Seq<char>) -> Seq<char> {
    spaced(tokens(letters_and_spaces(unaccented(str_to_lowercase(text)))))
}

/// The n-grams of a list of words, each written with single spaces.
pub open spec fn spaced_windows(toks: Seq<Seq<char>>, n: int) -> Seq<Seq<char>> {
    windows(toks, n).map_values(|w: Seq<Seq<char>>| spaced(w))
}

/// The set of word n-grams of a text normalised for similarity.
pub open spec fn gram_set(text: Seq<char>, n: int) -> Set<Seq<char>> {
    spaced_windows(tokens(similarity_text(text)), n).to_set()
}

/// The Jaccard index of two sets as a ratio; zero when either is empty.
pub open spec fn jaccard(a: Set<Seq<char>>, b: Set<Seq<char>>) -> Ratio {
    if a.len() == 0 || b.len() == 0 {
        Ratio { num: 0, den: 1 }
    } else {
        Ratio { num: a.intersect(b).len() as u128, den: a.union(b).len() as u128 }
    }
}

/// The distance that `strsim::damerau_levenshtein` computes between two
/// strings.
pub uninterp spec fn damerau_levenshtein_distance(a: Seq<char>, b: Seq<char>) -> nat;

/// Calls `strsim::damerau_levenshtein`, whose result depends on the
/// characters of its two arguments alone. The distance of a string from
/// itself is zero, and no distance exceeds the length of the longer string:
/// the crate documents the score `1 - distance / longer length` as lying
/// between zero and one, with one for equal strings.
#[verifier::external_body]
fn edit_distance(a: &str, b: &str) -> (d: usize)
    ensures
        d == damerau_levenshtein_distance(a@, b@),
        a@ == b@ ==> d == 0,
        d <= a@.len() || d <= b@.len(),
{
    strsim::damerau_levenshtein(a, b)
}

/// The similarity of two strings of `len_a` and `len_b` characters at edit
/// distance `distance`: one minus the distance over the greater length.
/// One for two empty strings; zero where the distance reaches the greater
/// length.
pub open spec fn similarity_of(distance: int, len_a: int, len_b: int) -> Ratio {
    let longest = if len_a >= len_b {
        len_a
    } else {
        len_b
    };
    if longest <= 0 {
        Ratio { num: 1, den: 1 }
    } else if distance >= longest {
        Ratio { num: 0, den: longest as u128 }
    } else if distance <= 0 {
        Ratio { num: longest as u128, den: longest as u128 }
    } else {
        Ratio { num: (longest - distance) as u128, den: longest as u128 }
    }
}

/// The edit similarity of two texts, each normalised for similarity.
pub open spec fn edit_similarity(a: Seq<char>, b: Seq<char>) -> Ratio {
    similarity_of(
        damerau_levenshtein_distance(similarity_text(a), similarity_text(b)) as int,
        similarity_text(a).len() as int,
        similarity_text(b).len() as int,
    )
}

/// Turns an edit distance into a similarity.
pub fn similarity_from_distance(distance: usize, len_a: usize, len_b: usize) -> (r: Ratio)
    ensures
        r == similarity_of(distance as int, len_a as int, len_b as int),
        r.wf(),
        r.num <= r.den,
{
    let longest: usize = if len_a >= len_b {
        len_a
    } else {
        len_b
    };
    if longest == 0 {
        Ratio { num: 1, den: 1 }
    } else if distance >= longest {
        Ratio { num: 0, den: longest as u128 }
    } else {
        Ratio { num: (longest - distance) as u128, den: longest as u128 }
    }
}

/// Keeps the characters that are alphanumeric or whitespace, stripping
/// accents first.
fn keep_letters_and_spaces(s: &Vec<char>) -> (r: Vec<char>)
    ensures
        r@ == letters_and_spaces(unaccented(s@)),
{
    let mut r: Vec<char> = Vec::new();
    let mut i: usize = 0;
    proof {
        reveal(Seq::filter);
    }
    while i < s.len()
        invariant
            i <= s.len(),
            r@ == letters_and_spaces(unaccented(s@.take(i as int))),
        decreases s.len() - i,
    {
        proof {
            reveal(Seq::filter);
            assert(unaccented(s@.take(i + 1)).drop_last() =~= unaccented(s@.take(i as int)));
        }
        let c = strip_accents(s[i]);
        if c.is_alphanumeric() || c.is_whitespace() {
            r.push(c);
        }
        i += 1;
    }
    proof {
        assert(s@.take(i as int) =~= s@);
    }
    r
}

/// Writes the words `lo..hi` of `toks` with single spaces between them.
pub fn join_spaced(toks: &Vec<Vec<char>>, lo: usize, hi: usize) -> (r: Vec<char>)
    requires
        lo <= hi <= toks.len(),
    ensures
        r@ == spaced(views(toks@).subrange(lo as int, hi as int)),
{
    let ghost v = views(toks@);
    let mut r: Vec<char> = Vec::new();
    let mut i: usize = lo;
    proof {
        assert(v.subrange(lo as int, lo as int) =~= Seq::<Seq<char>>::empty());
    }
    while i < hi
        invariant
            lo <= i <= hi <= toks.len(),
            v == views(toks@),
            r@ == spaced(v.subrange(lo as int, i as int)),
        decreases hi - i,
    {
        let ghost before = r@;
        if i > lo {
            r.push(' ');
        }
        let mut k: usize = 0;
        let ghost base = r@;
        let word = &toks[i];
        while k < word.len()
            invariant
                k <= word.len(),
                r@ == base + word@.take(k as int),
            decreases word.len() - k,
        {
            r.push(word[k]);
            proof {
                assert(word@.take(k + 1) =~= word@.take(k as int).push(word@[k as int]));
            }
            k += 1;
        }
        proof {
            let w = toks[i as int]@;
            assert(w.take(k as int) =~= w);
            let cur = v.subrange(lo as int, i + 1);
            assert(cur.drop_last() =~= v.subrange(lo as int, i as int));
            assert(cur.last() == w);
            if i == lo {
                assert(cur.len() == 1);
                assert(r@ =~= w);
            } else {
                assert(r@ =~= before.push(' ') + w);
            }
        }
        i += 1;
    }
    r
}

/// Normalises a text held as characters for similarity.
pub fn similarity_chars(text: &Vec<char>) -> (r: Vec<char>)
    ensures
        r@ == similarity_text(text@),
{
    let lower = lowercase_chars(text);
    let kept = keep_letters_and_spaces(&lower);
    let toks = split_tokens(&kept);
    let r = join_spaced(&toks, 0, toks.len());
    proof {
        assert(views(toks@).subrange(0, toks.len() as int) =~= views(toks@));
    }
    r
}

/// Normalises a text for similarity: lowercases it, strips accents, drops
/// punctuation and collapses whitespace to single spaces.
pub fn normalize_text_for_similarity(text: &str) -> (r: String)
    ensures
        r@ == similarity_text(text@),
{
    let chars = chars_of(text);
    string_of(&similarity_chars(&chars))
}

/// The n-grams of a list of words, each written with single spaces.
pub fn spaced_window_list(toks: &Vec<Vec<char>>, n: usize) -> (out: Vec<Vec<char>>)
    ensures
        views(out@) == spaced_windows(views(toks@), n as int),
{
    let ghost v = views(toks@);
    let mut out: Vec<Vec<char>> = Vec::new();
    if n == 0 || toks.len() < n {
        proof {
            assert(views(out@) =~= spaced_windows(v, n as int));
        }
        return out;
    }
    let count: usize = toks.len() - n + 1;
    let mut i: usize = 0;
    while i < count
        invariant
            i <= count,
            n > 0,
            count == toks.len() - n + 1,
            toks.len() >= n,
            v == views(toks@),
            out.len() == i,
            forall|k: int| 0 <= k < i ==> out@[k]@ == spaced(v.subrange(k, k + n)),
        decreases count - i,
    {
        out.push(join_spaced(toks, i, i + n));
        i += 1;
    }
    proof {
        assert(views(out@) =~= spaced_windows(v, n as int));
    }
    out
}

/// The windows of `n` consecutive whitespace-separated words of `text`, as
/// they stand, each written with single spaces.
pub fn get_text_ngrams(text: &str, n: usize) -> (out: Vec<String>)
    requires
        n >= 1,
    ensures
        strings(out@) == spaced_windows(tokens(text@), n as int),
{
    let toks = split_tokens(&chars_of(text));
    to_strings(&spaced_window_list(&toks, n))
}

/// The set of word n-grams of a text normalised for similarity.
pub fn gram_set_of(text: &Vec<char>, n: usize) -> (set: WordSet)
    ensures
        set.wf(),
        set@ == gram_set(text@, n as int),
{
    let norm = similarity_chars(text);
    let toks = split_tokens(&norm);
    WordSet::from_words(&spaced_window_list(&toks, n))
}

/// The Jaccard index of two word sets.
pub fn jaccard_of(a: &WordSet, b: &WordSet) -> (r: Ratio)
    requires
        a.wf(),
        b.wf(),
    ensures
        r == jaccard(a@, b@),
        r.wf(),
        r.num <= r.den,
{
    if a.is_empty() || b.is_empty() {
        return Ratio::zero();
    }
    let shared = a.shared_count(b);
    let union = a.union_count(b);
    proof {
        a.lemma_len();
        b.lemma_len();
        vstd::set_lib::lemma_set_intersect_union_lens(a@, b@);
        vstd::set_lib::lemma_len_intersect(b@, a@);
        assert(b@.intersect(a@) =~= a@.intersect(b@));
    }
    Ratio { num: shared as u128, den: union }
}

/// The Jaccard index of the word n-grams of two texts: the number of
/// n-grams they share over the number of n-grams either has. Zero when
/// either text has no n-gram. Symmetric in the two texts.
pub fn ngram_similarity(text1: &str, text2: &str, n: usize) -> (r: Ratio)
    requires
        n >= 1,
    ensures
        r == jaccard(gram_set(text1@, n as int), gram_set(text2@, n as int)),
        r.wf(),
        r.num <= r.den,
{
    let a = gram_set_of(&chars_of(text1), n);
    let b = gram_set_of(&chars_of(text2), n);
    jaccard_of(&a, &b)
}

/// The normalised edit similarity of two texts: one minus the
/// Damerau-Levenshtein distance of the normalised texts over the length of
/// the longer one. One for texts that normalise to the same string.
pub fn sequence_matcher_similarity(text1: &str, text2: &str) -> (r: Ratio)
    ensures
        r == edit_similarity(text1@, text2@),
        r.wf(),
        r.num <= r.den,
        similarity_text(text1@) == similarity_text(text2@) ==> r.num == r.den,
{
    let a = similarity_chars(&chars_of(text1));
    let b = similarity_chars(&chars_of(text2));
    let sa = string_of(&a);
    let sb = string_of(&b);
    let distance = edit_distance(sa.as_str(), sb.as_str());
    similarity_from_distance(distance, a.len(), b.len())
}

/// The Jaccard index does not depend on the order of the two sets.
pub proof fn lemma_jaccard_symmetric(a: Set<Seq<char>>, b: Set<Seq<char>>)
    ensures
        jaccard(a, b) == jaccard(b, a),
{
    assert(a.intersect(b) =~= b.intersect(a));
    assert(a.union(b) =~= b.union(a));
}

} // verus!
