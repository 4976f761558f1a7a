//! Text normalisation and tokenisation: accent stripping, word
//! normalisation, splitting on whitespace, trimming.

use vstd::prelude::*;
use crate::chars::{
    char_is_whitespace, char_is_alphanumeric, char_is_lowercase, str_to_lowercase, chars_of,
    string_of,
};

verus! {

/// The base letter of an accented Latin letter; any other character
/// unchanged.
pub open spec fn accent_stripped(c: char) -> char {
    if c == 'à' || c == 'â' || c == 'ä' {
        'a'
    } else if c == 'é' || c == 'è' || c == 'ê' || c == 'ë' {
        'e'
    } else if c == 'î' || c == 'ï' {
        'i'
    } else if c == 'ô' || c == 'ö' || c == 'œ' {
        'o'
    } else if c == 'ù' || c == 'û' || c == 'ü' {
        'u'
    } else if c == 'ÿ' {
        'y'
    } else if c == 'ç' {
        'c'
    } else {
        c
    }
}

pub fn strip_accents(c: char) -> (r: char)
    ensures
        r == accent_stripped(c),
{
    if c == 'à' || c == 'â' || c == 'ä' {
        'a'
    } else if c == 'é' || c == 'è' || c == 'ê' || c == 'ë' {
        'e'
    } else if c == 'î' || c == 'ï' {
        'i'
    } else if c == 'ô' || c == 'ö' || c == 'œ' {
        'o'
    } else if c == 'ù' || c == 'û' || c == 'ü' {
        'u'
    } else if c == 'ÿ' {
        'y'
    } else if c == 'ç' {
        'c'
    } else {
        c
    }
}

/// The alphanumeric characters of `s`, in order.
pub open spec fn alphanumerics(s: Seq<char>) -> Seq<char> {
    s.filter(|c: char| char_is_alphanumeric(c))
}

/// `s` with every accented letter replaced by its base letter.
pub open spec fn unaccented(s: Seq<char>) -> Seq<char> {
    s.map_values(|c: char| accent_stripped(c))
}

/// A word normalised for comparison: lowercased, accents stripped, and
/// reduced to its alphanumeric characters.
pub open spec fn normalized_word(s: Seq<char>) -> Seq<char> {
    alphanumerics(unaccented(str_to_lowercase(s)))
}

/// A word folded for the filler test: lowercased and reduced to its
/// alphanumeric characters, accents kept.
pub open spec fn folded_word(s: Seq<char>) -> Seq<char> {
    alphanumerics(str_to_lowercase(s))
}

/// The lowercase form of `s`.
pub fn lowercase_chars(s: &Vec<char>) -> (r: Vec<char>)
    ensures
        r@ == str_to_lowercase(s@),
{
    let owned = string_of(s);
    let lower = owned.as_str().to_lowercase();
    chars_of(lower.as_str())
}

/// Keeps the alphanumeric characters of `s`, stripping accents first when
/// `strip` is set.
fn keep_alphanumerics(s: &Vec<char>, strip: bool) -> (r: Vec<char>)
    ensures
        strip ==> r@ == alphanumerics(unaccented(s@)),
        !strip ==> r@ == alphanumerics(s@),
{
    let mut r: Vec<char> = Vec::new();
    let mut i: usize = 0;
    proof {
        reveal(Seq::filter);
    }
    while i < s.len()
        invariant
            i <= s.len(),
            strip ==> r@ == alphanumerics(unaccented(s@.take(i as int))),
            !strip ==> r@ == alphanumerics(s@.take(i as int)),
        decreases s.len() - i,
    {
        proof {
            reveal(Seq::filter);
            assert(s@.take(i + 1).drop_last() =~= s@.take(i as int));
            assert(unaccented(s@.take(i + 1)).drop_last() =~= unaccented(s@.take(i as int)));
        }
        let c = if strip {
            strip_accents(s[i])
        } else {
            s[i]
        };
        if c.is_alphanumeric() {
            r.push(c);
        }
        i += 1;
    }
    proof {
        assert(s@.take(i as int) =~= s@);
    }
    r
}

/// Normalises a word held as characters.
pub fn normalize_chars(s: &Vec<char>) -> (r: Vec<char>)
    ensures
        r@ == normalized_word(s@),
{
    let lower = lowercase_chars(s);
    keep_alphanumerics(&lower, true)
}

/// Folds a word held as characters.
pub fn fold_chars(s: &Vec<char>) -> (r: Vec<char>)
    ensures
        r@ == folded_word(s@),
{
    let lower = lowercase_chars(s);
    keep_alphanumerics(&lower, false)
}

/// Normalises a word for comparison: lowercases it, replaces accented
/// letters by their base letters and drops every character that is not
/// alphanumeric. Total; the result may be empty.
pub fn normalize_word(s: &str) -> (r: String)
    ensures
        r@ == normalized_word(s@),
{
    let chars = chars_of(s);
    let norm = normalize_chars(&chars);
    string_of(&norm)
}

/// The views of a list of character vectors.
pub open spec fn views(v: Seq<Vec<char>>) -> Seq<Seq<char>> {
    v.map_values(|w: Vec<char>| w@)
}

/// The run of non-whitespace characters that `s` ends with; empty when `s`
/// is empty or ends with whitespace.
pub open spec fn trailing_token(s: Seq<char>) -> Seq<char>
    decreases s.len(),
{
    if s.len() == 0 || char_is_whitespace(s.last()) {
        Seq::empty()
    } else {
        trailing_token(s.drop_last()).push(s.last())
    }
}

/// The tokens of `s` that are already closed by whitespace behind them.
pub open spec fn closed_tokens(s: Seq<char>) -> Seq<Seq<char>>
    decreases s.len(),
{
    if s.len() == 0 {
        Seq::empty()
    } else if char_is_whitespace(s.last()) && trailing_token(s.drop_last()).len() > 0 {
        closed_tokens(s.drop_last()).push(trailing_token(s.drop_last()))
    } else {
        closed_tokens(s.drop_last())
    }
}

/// The tokens of `s`: its maximal runs of non-whitespace characters, in
/// order.
pub open spec fn tokens(s: Seq<char>) -> Seq<Seq<char>> {
    if trailing_token(s).len() > 0 {
        closed_tokens(s).push(trailing_token(s))
    } else {
        closed_tokens(s)
    }
}

/// Whether `t` is a non-empty sequence free of whitespace.
pub open spec fn is_token(t: Seq<char>) -> bool {
    t.len() > 0 && forall|i: int| 0 <= i < t.len() ==> !char_is_whitespace(#[trigger] t[i])
}

/// Every token is non-empty and free of whitespace, and the tokens are no
/// more than the characters.
pub proof fn lemma_tokens_are_tokens(s: Seq<char>)
    ensures
        forall|i: int| 0 <= i < tokens(s).len() ==> is_token(#[trigger] tokens(s)[i]),
        forall|i: int| 0 <= i < closed_tokens(s).len() ==> is_token(#[trigger] closed_tokens(s)[i]),
        forall|i: int|
            0 <= i < trailing_token(s).len() ==> !char_is_whitespace(#[trigger] trailing_token(
                s,
            )[i]),
        closed_tokens(s).len() + trailing_token(s).len() <= s.len(),
        tokens(s).len() <= s.len(),
    decreases s.len(),
{
    if s.len() > 0 {
        lemma_tokens_are_tokens(s.drop_last());
    }
}

/// The characters of `s` that are no whitespace, in order.
pub open spec fn non_whitespace(s: Seq<char>) -> Seq<char> {
    s.filter(|c: char| !char_is_whitespace(c))
}

/// The words of `toks` written one behind the other.
pub open spec fn concatenated(toks: Seq<Seq<char>>) -> Seq<char>
    decreases toks.len(),
{
    if toks.len() == 0 {
        Seq::empty()
    } else {
        concatenated(toks.drop_last()) + toks.last()
    }
}

/// Tokenising loses nothing but whitespace: the tokens, written one behind
/// the other, are the characters of the text that are no whitespace.
pub proof fn lemma_tokens_concatenate(s: Seq<char>)
    ensures
        concatenated(closed_tokens(s)) + trailing_token(s) == non_whitespace(s),
        concatenated(tokens(s)) == non_whitespace(s),
    decreases s.len(),
{
    reveal(Seq::filter);
    if s.len() == 0 {
        assert(concatenated(closed_tokens(s)) + trailing_token(s) =~= non_whitespace(s));
    } else {
        let d = s.drop_last();
        lemma_tokens_concatenate(d);
        if char_is_whitespace(s.last()) {
            if trailing_token(d).len() > 0 {
                assert(closed_tokens(s).drop_last() =~= closed_tokens(d));
            } else {
                assert(concatenated(closed_tokens(d)) + trailing_token(d) =~= concatenated(
                    closed_tokens(d),
                ));
            }
            assert(concatenated(closed_tokens(s)) + trailing_token(s) =~= non_whitespace(s));
        } else {
            assert(concatenated(closed_tokens(s)) + trailing_token(s) =~= (concatenated(
                closed_tokens(d),
            ) + trailing_token(d)).push(s.last()));
        }
    }
    if trailing_token(s).len() > 0 {
        assert(tokens(s).drop_last() =~= closed_tokens(s));
    } else {
        assert(concatenated(closed_tokens(s)) + trailing_token(s) =~= concatenated(
            closed_tokens(s),
        ));
    }
}

/// Splits `s` on whitespace into its tokens.
pub fn split_tokens(s: &Vec<char>) -> (out: Vec<Vec<char>>)
    ensures
        views(out@) == tokens(s@),
        out.len() <= s.len(),
{
    let mut out: Vec<Vec<char>> = Vec::new();
    let mut cur: Vec<char> = Vec::new();
    let mut i: usize = 0;
    proof {
        assert(views(out@) =~= closed_tokens(s@.take(0)));
    }
    while i < s.len()
        invariant
            i <= s.len(),
            views(out@) == closed_tokens(s@.take(i as int)),
            cur@ == trailing_token(s@.take(i as int)),
        decreases s.len() - i,
    {
        proof {
            assert(s@.take(i + 1).drop_last() =~= s@.take(i as int));
        }
        let c = s[i];
        if c.is_whitespace() {
            if cur.len() > 0 {
                let ghost before = out@;
                out.push(cur);
                proof {
                    assert(views(out@) =~= views(before).push(cur@));
                }
                cur = Vec::new();
            }
        } else {
            cur.push(c);
        }
        i += 1;
    }
    proof {
        assert(s@.take(i as int) =~= s@);
        lemma_tokens_are_tokens(s@);
    }
    if cur.len() > 0 {
        let ghost before = out@;
        out.push(cur);
        proof {
            assert(views(out@) =~= views(before).push(cur@));
        }
    }
    out
}


/// The punctuation that may cling to a word: full stop, comma, exclamation
/// mark and question mark.
pub open spec fn is_sentence_mark(c: char) -> bool {
    c == '.' || c == ',' || c == '!' || c == '?'
}

/// A class of characters that is stripped off the ends of a text.
#[derive(Clone, Copy, Debug, PartialEq, Eq, Structural)]
pub enum CharClass {
    /// Whitespace in Unicode's sense.
    Whitespace,
    /// Full stop, comma, exclamation mark and question mark.
    SentenceMark,
    /// The double quotation mark.
    Quote,
}

/// Whether `c` belongs to the class.
pub open spec fn in_class(class: CharClass, c: char) -> bool {
    match class {
        CharClass::Whitespace => char_is_whitespace(c),
        CharClass::SentenceMark => is_sentence_mark(c),
        CharClass::Quote => c == '"',
    }
}

/// `s` without the characters of the class that it ends with.
pub open spec fn strip_end(s: Seq<char>, class: CharClass) -> Seq<char>
    decreases s.len(),
{
    if s.len() > 0 && in_class(class, s.last()) {
        strip_end(s.drop_last(), class)
    } else {
        s
    }
}

/// `s` without the characters of the class that it starts with.
pub open spec fn strip_start(s: Seq<char>, class: CharClass) -> Seq<char>
    decreases s.len(),
{
    if s.len() > 0 && in_class(class, s.first()) {
        strip_start(s.drop_first(), class)
    } else {
        s
    }
}

/// `s` without the characters of the class around it.
pub open spec fn stripped(s: Seq<char>, class: CharClass) -> Seq<char> {
    strip_start(strip_end(s, class), class)
}

/// `s` without the whitespace it ends with.
pub open spec fn trim_end(s: Seq<char>) -> Seq<char> {
    strip_end(s, CharClass::Whitespace)
}

/// `s` without the whitespace around it.
pub open spec fn trimmed(s: Seq<char>) -> Seq<char> {
    stripped(s, CharClass::Whitespace)
}

/// A token lowercased and freed of the sentence marks around it.
pub open spec fn bare_word(s: Seq<char>) -> Seq<char> {
    stripped(str_to_lowercase(s), CharClass::SentenceMark)
}

/// Whether `s` ends with `suffix`.
pub open spec fn ends_with(s: Seq<char>, suffix: Seq<char>) -> bool {
    s.len() >= suffix.len() && s.subrange(s.len() - suffix.len(), s.len() as int) == suffix
}

/// Whether a text breaks off: trimmed, it ends with a dash, two hyphens,
/// three full stops or an ellipsis.
pub open spec fn truncated(text: Seq<char>) -> bool {
    let t = trimmed(text);
    ends_with(t, seq!['—']) || ends_with(t, seq!['-', '-']) || ends_with(t, seq!['.', '.', '.'])
        || ends_with(t, seq!['…'])
}

/// Whether a text begins with a lowercase letter, the mark of a sentence
/// that continues the one before.
pub open spec fn starts_lowercase(text: Seq<char>) -> bool {
    text.len() > 0 && char_is_lowercase(text[0])
}

proof fn lemma_strip_end_take(s: Seq<char>, class: CharClass, hi: int)
    requires
        0 <= hi <= s.len(),
        forall|k: int| hi <= k < s.len() ==> in_class(class, s[k]),
        hi > 0 ==> !in_class(class, s[hi - 1]),
    ensures
        strip_end(s, class) == s.take(hi),
    decreases s.len() - hi,
{
    if hi == s.len() {
        assert(s.take(hi) =~= s);
    } else {
        lemma_strip_end_take(s.drop_last(), class, hi);
        assert(s.drop_last().take(hi) =~= s.take(hi));
    }
}

proof fn lemma_strip_start_skip(s: Seq<char>, class: CharClass, lo: int)
    requires
        0 <= lo <= s.len(),
        forall|k: int| 0 <= k < lo ==> in_class(class, s[k]),
        lo < s.len() ==> !in_class(class, s[lo]),
    ensures
        strip_start(s, class) == s.skip(lo),
    decreases lo,
{
    if lo == 0 {
        assert(s.skip(0) =~= s);
    } else {
        let d = s.drop_first();
        assert forall|k: int| 0 <= k < lo - 1 implies in_class(class, d[k]) by {
            assert(d[k] == s[k + 1]);
        }
        lemma_strip_start_skip(d, class, lo - 1);
        assert(d.skip(lo - 1) =~= s.skip(lo));
    }
}

pub fn char_is_sentence_mark(c: char) -> (b: bool)
    ensures
        b == is_sentence_mark(c),
{
    c == '.' || c == ',' || c == '!' || c == '?'
}

pub fn is_in_class(class: CharClass, c: char) -> (b: bool)
    ensures
        b == in_class(class, c),
{
    match class {
        CharClass::Whitespace => c.is_whitespace(),
        CharClass::SentenceMark => char_is_sentence_mark(c),
        CharClass::Quote => c == '"',
    }
}

/// Removes the characters of the class around `s`.
pub fn strip_chars(s: &Vec<char>, class: CharClass) -> (r: Vec<char>)
    ensures
        r@ == stripped(s@, class),
        r.len() <= s.len(),
{
    let mut hi: usize = s.len();
    while hi > 0 && is_in_class(class, s[hi - 1])
        invariant
            hi <= s.len(),
            forall|k: int| hi <= k < s.len() ==> in_class(class, s@[k]),
        decreases hi,
    {
        hi -= 1;
    }
    let mut lo: usize = 0;
    while lo < hi && is_in_class(class, s[lo])
        invariant
            lo <= hi <= s.len(),
            forall|k: int| 0 <= k < lo ==> in_class(class, s@[k]),
        decreases hi - lo,
    {
        lo += 1;
    }
    let mut r: Vec<char> = Vec::new();
    let mut i: usize = lo;
    while i < hi
        invariant
            lo <= i <= hi <= s.len(),
            r@ == s@.subrange(lo as int, i as int),
        decreases hi - i,
    {
        r.push(s[i]);
        proof {
            assert(s@.subrange(lo as int, i + 1) =~= s@.subrange(lo as int, i as int).push(
                s@[i as int],
            ));
        }
        i += 1;
    }
    proof {
        lemma_strip_end_take(s@, class, hi as int);
        let e = s@.take(hi as int);
        assert forall|k: int| 0 <= k < lo implies in_class(class, e[k]) by {
            assert(e[k] == s@[k]);
        }
        lemma_strip_start_skip(e, class, lo as int);
        assert(e.skip(lo as int) =~= s@.subrange(lo as int, hi as int));
    }
    r
}

/// Removes the whitespace around `s`.
pub fn trim_chars(s: &Vec<char>) -> (r: Vec<char>)
    ensures
        r@ == trimmed(s@),
        r.len() <= s.len(),
{
    strip_chars(s, CharClass::Whitespace)
}

/// Lowercases a token and removes the sentence marks around it.
pub fn bare_chars(s: &Vec<char>) -> (r: Vec<char>)
    ensures
        r@ == bare_word(s@),
{
    strip_chars(&lowercase_chars(s), CharClass::SentenceMark)
}

/// Whether `s` ends with the characters of `suffix`.
pub fn chars_end_with(s: &Vec<char>, suffix: &Vec<char>) -> (b: bool)
    ensures
        b == ends_with(s@, suffix@),
{
    if s.len() < suffix.len() {
        return false;
    }
    let off: usize = s.len() - suffix.len();
    let ghost tail = s@.subrange(off as int, s.len() as int);
    let mut i: usize = 0;
    while i < suffix.len()
        invariant
            i <= suffix.len(),
            off + suffix.len() == s.len(),
            tail == s@.subrange(off as int, s.len() as int),
            forall|k: int| 0 <= k < i ==> tail[k] == suffix@[k],
        decreases suffix.len() - i,
    {
        if s[off + i] != suffix[i] {
            proof {
                assert(tail[i as int] == s@[off + i]);
            }
            return false;
        }
        proof {
            assert(tail[i as int] == s@[off + i]);
        }
        i += 1;
    }
    proof {
        assert(tail =~= suffix@);
    }
    true
}

/// Whether the text held in `text` breaks off.
pub fn chars_truncated(text: &Vec<char>) -> (b: bool)
    ensures
        b == truncated(text@),
{
    let t = trim_chars(text);
    let dash: Vec<char> = vec!['—'];
    let hyphens: Vec<char> = vec!['-', '-'];
    let stops: Vec<char> = vec!['.', '.', '.'];
    let ellipsis: Vec<char> = vec!['…'];
    proof {
        assert(dash@ =~= seq!['—']);
        assert(hyphens@ =~= seq!['-', '-']);
        assert(stops@ =~= seq!['.', '.', '.']);
        assert(ellipsis@ =~= seq!['…']);
    }
    chars_end_with(&t, &dash) || chars_end_with(&t, &hyphens) || chars_end_with(&t, &stops)
        || chars_end_with(&t, &ellipsis)
}

/// Whether a text appears cut short: an aborted sentence.
pub fn is_truncated(text: &str) -> (b: bool)
    ensures
        b == truncated(text@),
{
    let chars = chars_of(text);
    chars_truncated(&chars)
}

/// Whether the text held in `text` begins with a lowercase letter.
pub fn chars_start_lowercase(text: &Vec<char>) -> (b: bool)
    ensures
        b == starts_lowercase(text@),
{
    text.len() > 0 && text[0].is_lowercase()
}

} // verus!

