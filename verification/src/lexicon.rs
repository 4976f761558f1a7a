//! The language-specific vocabulary behind content-word extraction: stop
//! words, the core vocabulary used to recognise the transcript's language,
//! and filler words.

use vstd::prelude::*;
use vstd::utf8::encode_utf8;
use crate::chars::{chars_of, string_of};
use crate::text::views;
use crate::wordset::WordSet;

verus! {

/// The French stop words, already normalised.
pub open spec fn french_stop_list() -> Seq<Seq<char>> {
    seq![
        "le"@,
        "la"@,
        "les"@,
        "un"@,
        "une"@,
        "des"@,
        "de"@,
        "du"@,
        "au"@,
        "aux"@,
        "ce"@,
        "cette"@,
        "ces"@,
        "mon"@,
        "ma"@,
        "mes"@,
        "ton"@,
        "ta"@,
        "tes"@,
        "son"@,
        "sa"@,
        "ses"@,
        "notre"@,
        "votre"@,
        "leur"@,
        "leurs"@,
        "je"@,
        "tu"@,
        "il"@,
        "elle"@,
        "on"@,
        "nous"@,
        "vous"@,
        "ils"@,
        "elles"@,
        "me"@,
        "te"@,
        "se"@,
        "lui"@,
        "en"@,
        "y"@,
        "ca"@,
        "et"@,
        "ou"@,
        "mais"@,
        "donc"@,
        "car"@,
        "ni"@,
        "que"@,
        "qui"@,
        "quoi"@,
        "ne"@,
        "pas"@,
        "plus"@,
        "tres"@,
        "aussi"@,
        "tout"@,
        "comme"@,
        "est"@,
        "a"@,
        "sont"@,
        "ont"@,
        "fait"@,
        "va"@,
        "etre"@,
        "avoir"@,
        "jai"@,
        "dans"@,
        "sur"@,
        "avec"@,
        "pour"@,
        "par"@,
        "sans"@,
        "chez"@,
        "si"@,
        "quand"@,
        "cest"@,
        "ya"@,
        "bon"@,
        "oui"@,
        "non"@,
        "puis"@,
        "encore"@,
        "deja"@,
        "peu"@,
        "petit"@,
        "ici"@,
        "moi"@,
        "toi"@,
        "soi"@,
        "eux"@,
        "voila"@,
        "hein"@,
        "bah"@,
        "ben"@,
        "ouais"@,
    ]
}

/// The core French vocabulary by which a chunk is recognised as French.
pub open spec fn french_core_list() -> Seq<Seq<char>> {
    seq![
        "le"@,
        "la"@,
        "les"@,
        "un"@,
        "une"@,
        "des"@,
        "de"@,
        "du"@,
        "je"@,
        "tu"@,
        "il"@,
        "elle"@,
        "on"@,
        "nous"@,
        "vous"@,
        "et"@,
        "ou"@,
        "mais"@,
        "donc"@,
        "est"@,
        "sont"@,
        "pas"@,
        "plus"@,
        "dans"@,
        "sur"@,
        "avec"@,
        "pour"@,
        "que"@,
        "qui"@,
        "ça"@,
        "ce"@,
        "cette"@,
    ]
}

/// Hesitation sounds that transcription renders as words.
pub open spec fn filler_list() -> Seq<Seq<char>> {
    seq![
        "euh"@,
        "hum"@,
        "um"@,
        "uh"@,
        "ah"@,
        "oh"@,
        "hein"@,
        "bah"@,
        "ben"@,
        "hmm"@,
        "hm"@,
        "mhm"@,
        "ouais"@,
        "eh"@,
    ]
}

/// The French stop words as character vectors.
pub fn french_stop_words() -> (v: Vec<Vec<char>>)
    ensures
        views(v@) == french_stop_list(),
{
    let mut v: Vec<Vec<char>> = Vec::new();
    v.push(chars_of("le"));
    v.push(chars_of("la"));
    v.push(chars_of("les"));
    v.push(chars_of("un"));
    v.push(chars_of("une"));
    v.push(chars_of("des"));
    v.push(chars_of("de"));
    v.push(chars_of("du"));
    v.push(chars_of("au"));
    v.push(chars_of("aux"));
    v.push(chars_of("ce"));
    v.push(chars_of("cette"));
    v.push(chars_of("ces"));
    v.push(chars_of("mon"));
    v.push(chars_of("ma"));
    v.push(chars_of("mes"));
    v.push(chars_of("ton"));
    v.push(chars_of("ta"));
    v.push(chars_of("tes"));
    v.push(chars_of("son"));
    v.push(chars_of("sa"));
    v.push(chars_of("ses"));
    v.push(chars_of("notre"));
    v.push(chars_of("votre"));
    v.push(chars_of("leur"));
    v.push(chars_of("leurs"));
    v.push(chars_of("je"));
    v.push(chars_of("tu"));
    v.push(chars_of("il"));
    v.push(chars_of("elle"));
    v.push(chars_of("on"));
    v.push(chars_of("nous"));
    v.push(chars_of("vous"));
    v.push(chars_of("ils"));
    v.push(chars_of("elles"));
    v.push(chars_of("me"));
    v.push(chars_of("te"));
    v.push(chars_of("se"));
    v.push(chars_of("lui"));
    v.push(chars_of("en"));
    v.push(chars_of("y"));
    v.push(chars_of("ca"));
    v.push(chars_of("et"));
    v.push(chars_of("ou"));
    v.push(chars_of("mais"));
    v.push(chars_of("donc"));
    v.push(chars_of("car"));
    v.push(chars_of("ni"));
    v.push(chars_of("que"));
    v.push(chars_of("qui"));
    v.push(chars_of("quoi"));
    v.push(chars_of("ne"));
    v.push(chars_of("pas"));
    v.push(chars_of("plus"));
    v.push(chars_of("tres"));
    v.push(chars_of("aussi"));
    v.push(chars_of("tout"));
    v.push(chars_of("comme"));
    v.push(chars_of("est"));
    v.push(chars_of("a"));
    v.push(chars_of("sont"));
    v.push(chars_of("ont"));
    v.push(chars_of("fait"));
    v.push(chars_of("va"));
    v.push(chars_of("etre"));
    v.push(chars_of("avoir"));
    v.push(chars_of("jai"));
    v.push(chars_of("dans"));
    v.push(chars_of("sur"));
    v.push(chars_of("avec"));
    v.push(chars_of("pour"));
    v.push(chars_of("par"));
    v.push(chars_of("sans"));
    v.push(chars_of("chez"));
    v.push(chars_of("si"));
    v.push(chars_of("quand"));
    v.push(chars_of("cest"));
    v.push(chars_of("ya"));
    v.push(chars_of("bon"));
    v.push(chars_of("oui"));
    v.push(chars_of("non"));
    v.push(chars_of("puis"));
    v.push(chars_of("encore"));
    v.push(chars_of("deja"));
    v.push(chars_of("peu"));
    v.push(chars_of("petit"));
    v.push(chars_of("ici"));
    v.push(chars_of("moi"));
    v.push(chars_of("toi"));
    v.push(chars_of("soi"));
    v.push(chars_of("eux"));
    v.push(chars_of("voila"));
    v.push(chars_of("hein"));
    v.push(chars_of("bah"));
    v.push(chars_of("ben"));
    v.push(chars_of("ouais"));
    proof {
        assert(views(v@) =~= french_stop_list());
    }
    v
}

/// The core French vocabulary as character vectors.
pub fn french_core_words() -> (v: Vec<Vec<char>>)
    ensures
        views(v@) == french_core_list(),
{
    let mut v: Vec<Vec<char>> = Vec::new();
    v.push(chars_of("le"));
    v.push(chars_of("la"));
    v.push(chars_of("les"));
    v.push(chars_of("un"));
    v.push(chars_of("une"));
    v.push(chars_of("des"));
    v.push(chars_of("de"));
    v.push(chars_of("du"));
    v.push(chars_of("je"));
    v.push(chars_of("tu"));
    v.push(chars_of("il"));
    v.push(chars_of("elle"));
    v.push(chars_of("on"));
    v.push(chars_of("nous"));
    v.push(chars_of("vous"));
    v.push(chars_of("et"));
    v.push(chars_of("ou"));
    v.push(chars_of("mais"));
    v.push(chars_of("donc"));
    v.push(chars_of("est"));
    v.push(chars_of("sont"));
    v.push(chars_of("pas"));
    v.push(chars_of("plus"));
    v.push(chars_of("dans"));
    v.push(chars_of("sur"));
    v.push(chars_of("avec"));
    v.push(chars_of("pour"));
    v.push(chars_of("que"));
    v.push(chars_of("qui"));
    v.push(chars_of("ça"));
    v.push(chars_of("ce"));
    v.push(chars_of("cette"));
    proof {
        assert(views(v@) =~= french_core_list());
    }
    v
}

/// The filler words as character vectors.
pub fn filler_words() -> (v: Vec<Vec<char>>)
    ensures
        views(v@) == filler_list(),
{
    let mut v: Vec<Vec<char>> = Vec::new();
    v.push(chars_of("euh"));
    v.push(chars_of("hum"));
    v.push(chars_of("um"));
    v.push(chars_of("uh"));
    v.push(chars_of("ah"));
    v.push(chars_of("oh"));
    v.push(chars_of("hein"));
    v.push(chars_of("bah"));
    v.push(chars_of("ben"));
    v.push(chars_of("hmm"));
    v.push(chars_of("hm"));
    v.push(chars_of("mhm"));
    v.push(chars_of("ouais"));
    v.push(chars_of("eh"));
    proof {
        assert(views(v@) =~= filler_list());
    }
    v
}

/// What a lexicon stands for: two sets of words and a length.
pub struct LexiconView {
    pub stop_words: Set<Seq<char>>,
    pub core_words: Set<Seq<char>>,
    pub min_content_len: nat,
}

/// The number of bytes of `w` in UTF-8.
pub open spec fn utf8_len(w: Seq<char>) -> nat {
    encode_utf8(w).len()
}

impl LexiconView {
    /// A content word is long enough and is no stop word.
    pub open spec fn is_content_word(self, w: Seq<char>) -> bool {
        utf8_len(w) >= self.min_content_len && !self.stop_words.contains(w)
    }
}

/// The French lexicon: the default of every function that takes none.
pub open spec fn french_lexicon() -> LexiconView {
    LexiconView {
        stop_words: french_stop_list().to_set(),
        core_words: french_core_list().to_set(),
        min_content_len: 3,
    }
}

/// The vocabulary of the transcript's language.
#[derive(Clone, Debug)]
pub struct Lexicon {
    /// Words too common to carry a topic, in normalised form.
    pub stop_words: WordSet,
    /// Words whose share in a chunk tells that the chunk is in this
    /// language, lowercased.
    pub core_words: WordSet,
    /// The least length, in UTF-8 bytes, of a content word.
    pub min_content_len: usize,
}

impl View for Lexicon {
    type V = LexiconView;

    open spec fn view(&self) -> LexiconView {
        LexiconView {
            stop_words: self.stop_words@,
            core_words: self.core_words@,
            min_content_len: self.min_content_len as nat,
        }
    }
}

/// The length of `w` in UTF-8 bytes.
pub fn utf8_length(w: &Vec<char>) -> (n: usize)
    ensures
        n == utf8_len(w@),
{
    let s = string_of(w);
    s.as_str().as_bytes().len()
}

impl Lexicon {
    /// A lexicon of the given words.
    pub fn new(stop_words: &Vec<Vec<char>>, core_words: &Vec<Vec<char>>, min_content_len: usize)
        -> (lex: Lexicon)
        ensures
            lex@.stop_words == views(stop_words@).to_set(),
            lex@.core_words == views(core_words@).to_set(),
            lex@.min_content_len == min_content_len,
    {
        Lexicon {
            stop_words: WordSet::from_words(stop_words),
            core_words: WordSet::from_words(core_words),
            min_content_len,
        }
    }

    /// The French lexicon.
    pub fn french() -> (lex: Lexicon)
        ensures
            lex@ == french_lexicon(),
    {
        let stop = french_stop_words();
        let core = french_core_words();
        Lexicon::new(&stop, &core, 3)
    }

    pub fn is_stop_word(&self, w: &Vec<char>) -> (b: bool)
        ensures
            b == self@.stop_words.contains(w@),
    {
        self.stop_words.contains(w)
    }

    pub fn is_core_word(&self, w: &Vec<char>) -> (b: bool)
        ensures
            b == self@.core_words.contains(w@),
    {
        self.core_words.contains(w)
    }

    pub fn is_content_word(&self, w: &Vec<char>) -> (b: bool)
        ensures
            b == self@.is_content_word(w@),
    {
        utf8_length(w) >= self.min_content_len && !self.stop_words.contains(w)
    }
}

} // verus!
