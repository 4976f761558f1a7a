use autotrim::chars::{chars_of, string_of};
use autotrim::fillers::{filter_filler_words, filter_filler_words_contextual, is_filler_word};
use autotrim::lexicon::Lexicon;
use autotrim::ngrams::has_ngram_overlap;
use autotrim::provider::TranscriptionProvider;
use autotrim::shared::shared_ngrams;
use autotrim::similarity::{
    get_text_ngrams, ngram_similarity, normalize_text_for_similarity,
    sequence_matcher_similarity, similarity_from_distance, Ratio,
};
use autotrim::text::{is_truncated, normalize_word, split_tokens, strip_accents, trim_chars};
use autotrim::transcript::Word;
use autotrim::words::{
    count_shared_content_words, extract_content_words, shared_content_word_count,
};

fn word(text: &str, start: u64, end: u64) -> Word {
    Word::new(text.to_string(), start, end)
}

#[test]
fn normalizes_words() {
    assert_eq!(normalize_word("Été!"), "ete");
    assert_eq!(normalize_word("C'est"), "cest");
    assert_eq!(normalize_word("ÇA"), "ca");
    assert_eq!(normalize_word("..."), "");
    assert_eq!(normalize_word(""), "");
    assert_eq!(normalize_word("Œuvre2"), "ouvre2");
    assert_eq!(strip_accents('ù'), 'u');
    assert_eq!(strip_accents('z'), 'z');
}

#[test]
fn splits_on_any_whitespace() {
    let toks = split_tokens(&chars_of("  un\tdeux \n trois  "));
    let toks: Vec<String> = toks.iter().map(string_of).collect();
    assert_eq!(toks, vec!["un", "deux", "trois"]);
    assert!(split_tokens(&chars_of(" \n ")).is_empty());
    assert_eq!(string_of(&trim_chars(&chars_of("  a b \n"))), "a b");
}

#[test]
fn extracts_content_words() {
    assert_eq!(
        extract_content_words("Le chat est sur la table, le CHAT dort."),
        vec!["chat", "table", "dort"]
    );
    assert_eq!(extract_content_words("Chat chat, CHAT!"), vec!["chat"]);
    assert!(extract_content_words("je tu il on").is_empty());
    assert!(extract_content_words("").is_empty());
}

#[test]
fn shared_content_words_are_symmetric() {
    let a = "Le chat noir dort sur la table de la cuisine";
    let b = "Sur la table, un chat blanc dort, dort encore";
    assert_eq!(count_shared_content_words(a, b), 3);
    assert_eq!(count_shared_content_words(b, a), 3);
    assert_eq!(count_shared_content_words(a, ""), 0);
    assert_eq!(count_shared_content_words(a, a), 5);
}

#[test]
fn lexicon_is_configurable() {
    let stop = vec![chars_of("chat")];
    let lex = Lexicon::new(&stop, &Vec::new(), 5);
    let a = "Le chat noir dort sur la table de la cuisine";
    let b = "la table et la cuisine et le chat";
    assert_eq!(shared_content_word_count(a, b, &lex), 2);
    assert_eq!(shared_content_word_count(a, b, &Lexicon::french()), 3);
}

#[test]
fn finds_shared_windows() {
    assert!(has_ngram_overlap(
        "alors on va commencer par",
        "Alors, on VA regarder",
        3
    ));
    assert!(!has_ngram_overlap(
        "alors on va commencer par",
        "alors on regarde va",
        3
    ));
    assert!(!has_ngram_overlap("un deux", "un deux", 3));
    assert!(has_ngram_overlap("un deux", "un deux", 2));
}

#[test]
fn recognises_truncated_text() {
    assert!(is_truncated("et donc je voulais..."));
    assert!(is_truncated("et donc je voulais…  "));
    assert!(is_truncated("et donc --"));
    assert!(is_truncated("et donc —"));
    assert!(!is_truncated("et donc."));
    assert!(!is_truncated("et donc -"));
    assert!(!is_truncated("   "));
}

#[test]
fn normalizes_text_for_similarity() {
    assert_eq!(
        normalize_text_for_similarity("  Bonjour,   à TOUS !\n c'est l'été "),
        "bonjour a tous cest lete"
    );
    assert_eq!(normalize_text_for_similarity("?!"), "");
    assert_eq!(
        get_text_ngrams("un deux  trois quatre", 3),
        vec!["un deux trois", "deux trois quatre"]
    );
    assert!(get_text_ngrams("un deux", 3).is_empty());
}

#[test]
fn ngram_similarity_is_a_jaccard_index() {
    let r = ngram_similarity("a b c d e", "a b c d f", 3);
    assert_eq!(r, Ratio { num: 2, den: 4 });
    assert!(r.at_least(1, 2));
    assert!(!r.at_least(51, 100));
    let same = ngram_similarity("un deux trois", "Un, deux, trois!", 3);
    assert_eq!(same, Ratio { num: 1, den: 1 });
    assert_eq!(ngram_similarity("un deux", "un deux trois", 3), Ratio { num: 0, den: 1 });
    assert_eq!(
        ngram_similarity("a b c d f", "a b c d e", 3),
        ngram_similarity("a b c d e", "a b c d f", 3)
    );
}

#[test]
fn edit_similarity_uses_the_edit_distance() {
    assert_eq!(
        sequence_matcher_similarity("kitten", "sitting"),
        Ratio { num: 4, den: 7 }
    );
    assert_eq!(
        sequence_matcher_similarity("Bonjour!", "bonjour"),
        Ratio { num: 7, den: 7 }
    );
    assert_eq!(sequence_matcher_similarity("", ""), Ratio { num: 1, den: 1 });
    let same = sequence_matcher_similarity("Un été à Paris!", "un ete a   paris");
    assert_eq!(same.num, same.den);
    assert_eq!(sequence_matcher_similarity("abc", ""), Ratio { num: 0, den: 3 });
    assert_eq!(sequence_matcher_similarity("ab", "ba"), Ratio { num: 1, den: 2 });
    assert_eq!(similarity_from_distance(9, 3, 4), Ratio { num: 0, den: 4 });
    assert_eq!(similarity_from_distance(1, 3, 4), Ratio { num: 3, den: 4 });
    assert_eq!(similarity_from_distance(0, 0, 0), Ratio { num: 1, den: 1 });
}

#[test]
fn recognises_fillers() {
    assert!(is_filler_word("Euh,"));
    assert!(is_filler_word("hmm"));
    assert!(!is_filler_word("bonjour"));
    assert!(!is_filler_word(""));
    let words = vec![
        word("Bonjour", 0, 400),
        word("euh", 500, 700),
        word("monde", 800, 1_200),
        word("hum", 5_000, 5_200),
        word("oui", 9_000, 9_300),
    ];
    let plain: Vec<String> = filter_filler_words(&words).iter().map(|w| w.word.clone()).collect();
    assert_eq!(plain, vec!["Bonjour", "monde", "oui"]);
    let contextual: Vec<String> = filter_filler_words_contextual(&words, 500)
        .iter()
        .map(|w| w.word.clone())
        .collect();
    assert_eq!(contextual, vec!["Bonjour", "euh", "monde", "oui"]);
    let only = vec![word("euh", 0, 100)];
    assert!(filter_filler_words_contextual(&only, 500).is_empty());
}

#[test]
fn names_providers() {
    assert_eq!(
        TranscriptionProvider::from_str("assemblyai"),
        TranscriptionProvider::AssemblyAI
    );
    assert_eq!(
        TranscriptionProvider::from_str("whisper"),
        TranscriptionProvider::Whisper
    );
    assert_eq!(
        TranscriptionProvider::from_str("AssemblyAI"),
        TranscriptionProvider::Whisper
    );
    assert_eq!(TranscriptionProvider::Whisper.api_key_name(), "OPENAI_API_KEY");
    assert_eq!(
        TranscriptionProvider::AssemblyAI.api_key_name(),
        "ASSEMBLYAI_API_KEY"
    );
}

#[test]
fn shared_windows_come_once_in_dictionary_order() {
    assert_eq!(
        shared_ngrams("b c d a b c. B C D", "A b c x b c d", 3),
        vec![vec!["a", "b", "c"], vec!["b", "c", "d"]]
    );
    assert_eq!(
        shared_ngrams("zoo ab abc", "abc ab zoo é", 1),
        vec![vec!["ab"], vec!["abc"], vec!["zoo"]]
    );
    assert!(shared_ngrams("a b", "a b", 3).is_empty());
}
