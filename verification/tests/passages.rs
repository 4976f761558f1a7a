use autotrim::classifier::retain_surviving;
use autotrim::deadair::{
    detect_sparse_regions, detect_stretched_words, detect_whisper_hallucinations,
    detect_word_silences,
};
use autotrim::hints::{detect_retake_groups_advanced, texts_resemble};
use autotrim::chars::chars_of;
use autotrim::silencelog::{parse_decimal_millis, parse_silence_output};
use autotrim::similarity::{Threshold, ThresholdError};
use autotrim::marks::{Mark, Strategy};
use autotrim::ngrams::extract_ngram_windows;
use autotrim::passages::segment_into_passages;
use autotrim::phrases::segment_into_phrases;
use autotrim::profile::get_opener;
use autotrim::restarts::{detect_false_starts, detect_retake_sequences};
use autotrim::review::Passage;
use autotrim::timeline::{ProcessingMode, Segment};
use autotrim::transcript::{SpeechChunk, Word};

fn word(text: &str, start: u64, end: u64) -> Word {
    Word::new(text.to_string(), start, end)
}

fn stream(texts: &[&str], start: u64, step: u64, length: u64) -> Vec<Word> {
    texts
        .iter()
        .enumerate()
        .map(|(i, t)| word(t, start + (i as u64) * step, start + (i as u64) * step + length))
        .collect()
}

fn passage(id: usize, text: &str, start: u64, end: u64) -> Passage {
    Passage {
        id,
        text: text.to_string(),
        start,
        end,
        word_count: text.split_whitespace().count(),
    }
}

fn chunk(id: usize, text: &str, start: u64, end: u64) -> SpeechChunk {
    SpeechChunk::new(id, text.to_string(), start, end, text.split_whitespace().count())
}

fn seg(start: u64, end: u64) -> Segment {
    Segment::new(start, end)
}

#[test]
fn phrases_end_at_marks_and_pauses() {
    let words = vec![
        word("Bonjour,", 0, 300),
        word("je", 350, 500),
        word("vais", 550, 700),
        word("bien", 1_101, 1_300),
        word("merci. ", 1_350, 1_600),
        word("voilà", 2_000, 2_300),
    ];
    let phrases = segment_into_phrases(&words);
    let texts: Vec<&str> = phrases.iter().map(|p| p.text.as_str()).collect();
    assert_eq!(texts, vec!["Bonjour,", "je vais", "bien merci.", "voilà"]);
    assert_eq!(phrases[1].start, 350);
    assert_eq!(phrases[1].end, 700);
    assert_eq!(phrases[1].words.len(), 2);
    assert_eq!(phrases[1].words[1].word, "vais");
    assert_eq!(phrases[3].words.len(), 1);
    assert!(segment_into_phrases(&Vec::new()).is_empty());
    let exact = vec![word("un", 0, 100), word("deux", 500, 600)];
    assert_eq!(segment_into_phrases(&exact).len(), 1);
}

#[test]
fn passages_close_at_pauses() {
    let mut words = stream(&["alors", "on", "commence", "ici"], 0, 300, 250);
    words.extend(stream(&["euh", "bon"], 2_000, 300, 250));
    words.extend(stream(&["on", "continue", "maintenant", "ensemble"], 3_300, 300, 250));
    words.extend(stream(&["bref"], 10_000, 300, 250));
    words.extend(stream(&["fin"], 10_300, 300, 250));
    let passages = segment_into_passages(&words, &Vec::new());
    let texts: Vec<&str> = passages.iter().map(|p| p.text.as_str()).collect();
    assert_eq!(
        texts,
        vec!["alors on commence ici", "euh bon on continue maintenant ensemble", "bref fin"]
    );
    let ids: Vec<usize> = passages.iter().map(|p| p.id).collect();
    assert_eq!(ids, vec![0, 1, 2]);
    assert_eq!(passages[1].start, 2_000);
    assert_eq!(passages[1].end, 4_450);
    assert_eq!(passages[1].word_count, 6);
    let skipped = segment_into_passages(&words, &vec![seg(1_900, 2_600)]);
    let texts: Vec<&str> = skipped.iter().map(|p| p.text.as_str()).collect();
    assert_eq!(
        texts,
        vec!["alors on commence ici", "on continue maintenant ensemble", "bref fin"]
    );
    assert!(segment_into_passages(&words, &vec![seg(0, 20_000)]).is_empty());
}

#[test]
fn a_short_passage_closes_at_a_long_pause() {
    let mut words = stream(&["euh", "bon"], 0, 300, 250);
    words.extend(stream(&["on", "continue", "maintenant"], 5_550, 300, 250));
    let passages = segment_into_passages(&words, &Vec::new());
    let texts: Vec<&str> = passages.iter().map(|p| p.text.as_str()).collect();
    assert_eq!(texts, vec!["euh bon", "on continue maintenant"]);
    let mut words = stream(&["euh", "bon"], 0, 300, 250);
    words.extend(stream(&["on", "continue", "maintenant"], 5_549, 300, 250));
    assert_eq!(segment_into_passages(&words, &Vec::new()).len(), 1);
}

#[test]
fn passages_close_where_the_speaker_starts_over() {
    let words = stream(
        &["Donc", "pour", "faire", "ça", "donc", "pour", "faire", "cela", "bien"],
        0,
        300,
        250,
    );
    let passages = segment_into_passages(&words, &Vec::new());
    let texts: Vec<&str> = passages.iter().map(|p| p.text.as_str()).collect();
    assert_eq!(texts, vec!["Donc pour faire ça", "donc pour faire cela bien"]);
}

#[test]
fn an_oversized_passage_is_split_at_its_widest_pause() {
    let mut words: Vec<Word> = Vec::new();
    let mut t = 0;
    for i in 0..70 {
        let name = format!("mot{}", i);
        words.push(word(&name, t, t + 200));
        t += if i == 10 { 450 } else { 300 };
    }
    let passages = segment_into_passages(&words, &Vec::new());
    assert_eq!(passages.len(), 2);
    assert_eq!(passages[0].word_count, 11);
    assert!(passages[0].text.starts_with("mot0 mot1 "));
    assert!(passages[0].text.ends_with(" mot10"));
    assert_eq!(passages[0].end, words[10].end);
    assert_eq!(passages[1].word_count, 59);
    assert_eq!(passages[1].start, words[11].start);
    assert_eq!(passages[1].id, 1);
}

#[test]
fn false_starts_are_found() {
    let passages = vec![
        passage(0, "Alors on va voir le premier point", 0, 3_000),
        passage(1, "Alors on va voir le premier point important de la journée", 4_000, 9_000),
        passage(2, "Alors on va", 10_000, 11_000),
        passage(3, "alors ON va, encore parler longtemps", 12_000, 15_000),
        passage(4, "Alors on va changer de sujet complètement", 200_000, 203_000),
        passage(5, "Alors on va changer toutes les choses ici", 204_000, 207_000),
    ];
    assert_eq!(detect_false_starts(&passages), vec![0, 2]);
    assert!(detect_false_starts(&Vec::new()).is_empty());
}

#[test]
fn retake_sequences_are_found() {
    let passages = vec![
        passage(0, "Bienvenue dans cette vidéo", 0, 2_000),
        passage(1, "Donc pour commencer on ouvre", 3_000, 5_000),
        passage(2, "Donc pour commencer on lance", 6_000, 8_000),
        passage(3, "Bienvenue dans cette formation", 9_000, 11_000),
        passage(4, "donc, pour commencer: on démarre le programme", 12_000, 15_000),
        passage(5, "Merci à tous", 16_000, 17_000),
    ];
    assert_eq!(detect_retake_sequences(&passages, &Vec::new()), vec![1, 2]);
    assert!(detect_retake_sequences(&passages, &vec![2]).is_empty());
    let mut late = passages.clone();
    late[4].end = 183_001;
    assert!(detect_retake_sequences(&late, &Vec::new()).is_empty());
    late[4].end = 183_000;
    assert_eq!(detect_retake_sequences(&late, &Vec::new()), vec![1, 2]);
}

#[test]
fn silences_are_cut_with_a_margin() {
    let words = vec![
        word("un", 1_000, 1_200),
        word("deux", 1_400, 1_600),
        word("trois", 2_600, 2_800),
        word("quatre", 3_000, 3_200),
    ];
    let silences = detect_word_silences(&words, 500, 10_000);
    assert_eq!(silences, vec![seg(0, 850), seg(1_750, 2_450), seg(3_350, 10_000)]);
    let silences = detect_word_silences(&words, 200, 3_500);
    assert_eq!(silences, vec![seg(0, 850), seg(1_750, 2_450)]);
    let silences = detect_word_silences(&words, 200, 3_551);
    assert_eq!(silences, vec![seg(0, 850), seg(1_750, 2_450), seg(3_350, 3_551)]);
    assert!(detect_word_silences(&Vec::new(), 500, 10_000).is_empty());
}

#[test]
fn stretched_words_are_found() {
    let words = vec![
        word("un", 0, 2_260),
        word("deux", 3_000, 4_500),
        word("anticonstitutionnellement", 5_000, 7_500),
        word("anticonstitutionnellement", 8_000, 10_501),
    ];
    assert_eq!(
        detect_stretched_words(&words),
        vec![seg(300, 2_260), seg(8_300, 10_501)]
    );
}

#[test]
fn looping_transcripts_are_found() {
    let mut words: Vec<Word> = Vec::new();
    for i in 0..40u64 {
        let text = if i % 2 == 0 { "merci" } else { "beaucoup" };
        words.push(word(text, i * 1_000, i * 1_000 + 500));
    }
    assert_eq!(detect_whisper_hallucinations(&words), vec![seg(0, 60_000)]);
    let mut varied: Vec<Word> = Vec::new();
    for i in 0..40u64 {
        varied.push(word(&format!("mot{}", i), i * 1_000, i * 1_000 + 500));
    }
    assert!(detect_whisper_hallucinations(&varied).is_empty());
    assert!(detect_whisper_hallucinations(&words[..9].to_vec()).is_empty());
}

#[test]
fn sparse_regions_are_found() {
    let mut words: Vec<Word> = Vec::new();
    for i in 0..60u64 {
        words.push(word(&format!("mot{}", i), i * 1_000, i * 1_000 + 500));
    }
    for i in 0..60u64 {
        let t = 180_000 + i * 1_000;
        words.push(word(&format!("mot{}", i), t, t + 500));
    }
    let regions = detect_sparse_regions(&words, ProcessingMode::Moderate, 240_000);
    assert_eq!(regions, vec![seg(60_300, 179_700)]);
    assert!(detect_sparse_regions(&words, ProcessingMode::Moderate, 59_999).is_empty());
    assert!(detect_sparse_regions(&Vec::new(), ProcessingMode::Moderate, 240_000).is_empty());
}

#[test]
fn similar_chunks_are_grouped() {
    let chunks = vec![
        chunk(0, "Bonjour à tous et bienvenue dans cette vidéo", 0, 3_000),
        chunk(1, "Rien à voir avec le reste du propos", 4_000, 6_000),
        chunk(2, "Bonjour à tous et bienvenue dans cette nouvelle vidéo", 7_000, 10_000),
        chunk(3, "Bonjour à tous et bienvenue dans cette vidéo", 500_000, 503_000),
    ];
    let loose = Threshold::new(35, 100).unwrap();
    let groups = detect_retake_groups_advanced(&chunks, 180_000, loose);
    assert_eq!(groups, vec![vec![0, 2]]);
    let groups = detect_retake_groups_advanced(&chunks, 600_000, loose);
    assert_eq!(groups, vec![vec![0, 2, 3]]);
    let strict = Threshold::new(99, 100).unwrap();
    assert!(detect_retake_groups_advanced(&chunks, 180_000, strict).is_empty());
    assert_eq!(Threshold::new(1, 0), Err(ThresholdError::ZeroDenominator));
    assert_eq!(Threshold::new(0, 0), Err(ThresholdError::ZeroDenominator));
    assert_eq!(Threshold::new(3, 2), Err(ThresholdError::AboveOne));
    assert_eq!(Threshold::new(2, 2), Ok(Threshold { num: 2, den: 2 }));
    assert!(texts_resemble("abcdefgh", "abcdefgx", 7, 8));
    assert!(!texts_resemble("abcdefgh", "abcdefxy", 7, 8));
}

#[test]
fn openers_and_windows() {
    assert_eq!(
        get_opener("Été, comme HIVER: on sort"),
        Some(("ete".to_string(), "comme".to_string(), "hiver".to_string()))
    );
    assert_eq!(get_opener("deux mots"), None);
    assert_eq!(
        get_opener("... on va"),
        Some((String::new(), "on".to_string(), "va".to_string()))
    );
    assert_eq!(
        extract_ngram_windows("Un, deux TROIS quatre", 3),
        vec![vec!["un", "deux", "trois"], vec!["deux", "trois", "quatre"]]
    );
    assert!(extract_ngram_windows("un deux", 3).is_empty());
    assert_eq!(extract_ngram_windows("un deux", 1), vec![vec!["un"], vec!["deux"]]);
}

#[test]
fn outside_keep_lists_are_checked() {
    let marks = vec![
        None,
        Some(Mark { strategy: Strategy::OffLanguage, keeper: None }),
        None,
    ];
    assert_eq!(retain_surviving(&vec![2, 1, 7, 0, 2], &marks), vec![2, 0, 2]);
}

#[test]
fn silence_reports_are_read() {
    let report = "[silencedetect @ 0x5581] silence_start: 1.5\n\
                  frame= 100 fps=25\n\
                  [silencedetect @ 0x5581] silence_end: 3.25 | silence_duration: 1.75\r\n\
                  [silencedetect @ 0x5581] silence_end: 4\n\
                  [silencedetect @ 0x5581] silence_start: -0.5\n\
                  [silencedetect @ 0x5581] silence_start: 10\n\
                  [silencedetect @ 0x5581] silence_start: 12.0006\n\
                  [silencedetect @ 0x5581] silence_end: 1.2.3\n\
                  [silencedetect @ 0x5581] silence_end: 20.\n\
                  [silencedetect @ 0x5581] silence_start: 30 silence_end: 31\n\
                  [silencedetect @ 0x5581] silence_end: 29\n\
                  [silencedetect @ 0x5581] silence_start: x silence_start: 40.5\n\
                  silence_end: 41.25";
    assert_eq!(
        parse_silence_output(report),
        vec![seg(1_500, 3_250), seg(12_001, 20_000), seg(40_500, 41_250)]
    );
    assert!(parse_silence_output("").is_empty());
    assert!(parse_silence_output("silence_end: 3").is_empty());
}

#[test]
fn decimal_seconds_are_read_as_milliseconds() {
    let read = |s: &str| parse_decimal_millis(&chars_of(s));
    assert_eq!(read("0"), Some(0));
    assert_eq!(read("12.345"), Some(12_345));
    assert_eq!(read("12.3454"), Some(12_345));
    assert_eq!(read("12.3455"), Some(12_346));
    assert_eq!(read("0.9996"), Some(1_000));
    assert_eq!(read(".5"), Some(500));
    assert_eq!(read("5."), Some(5_000));
    assert_eq!(read("007.04"), Some(7_040));
    assert_eq!(read("."), None);
    assert_eq!(read(""), None);
    assert_eq!(read("1.2.3"), None);
    assert_eq!(read("1e3"), None);
    assert_eq!(read("-1"), None);
    assert_eq!(read("18446744073709551.615"), Some(u64::MAX));
    assert_eq!(read("18446744073709551.6154"), Some(u64::MAX));
    assert_eq!(read("18446744073709551.6155"), None);
    assert_eq!(read("18446744073709552"), None);
    assert_eq!(read("99999999999999999999999999999999999999999999"), None);
}
