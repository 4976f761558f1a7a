use autotrim::classifier::{
    classify, classify_profiles, detect_all_retake_pairs, kept_chunks, removal_records,
    run_strategy, run_sweep, RemovalRecord,
};
use autotrim::corrector::{
    correct_keep_set, enforce_retake_groups, keep_flags, keep_ids, reattach_continuations,
};
use autotrim::lexicon::Lexicon;
use autotrim::marks::{no_marks, Mark, Strategy};
use autotrim::profile::build_profiles;
use autotrim::ranges::keep_ranges_from_chunks;
use autotrim::segmenter::segment_into_chunks;
use autotrim::timeline::ProcessingMode;
use autotrim::transcript::{SpeechChunk, Word};

fn chunk(id: usize, text: &str, start: u64, end: u64) -> SpeechChunk {
    SpeechChunk::new(
        id,
        text.to_string(),
        start,
        end,
        text.split_whitespace().count(),
    )
}

fn words(texts: &[&str], start: u64, step: u64, length: u64) -> Vec<Word> {
    texts
        .iter()
        .enumerate()
        .map(|(i, t)| {
            let s = start + (i as u64) * step;
            Word::new(t.to_string(), s, s + length)
        })
        .collect()
}

fn mark(strategy: Strategy, keeper: Option<usize>) -> Option<Mark> {
    Some(Mark { strategy, keeper })
}

#[test]
fn empty_input_gives_empty_results() {
    let chunks = segment_into_chunks(&Vec::new(), 500);
    assert!(chunks.is_empty());
    let marks = classify(&chunks, &Lexicon::french());
    assert!(marks.is_empty());
    assert!(detect_all_retake_pairs(&chunks).is_empty());
    assert!(removal_records(&marks).is_empty());
    let kept = kept_chunks(&marks);
    assert!(kept.is_empty());
    assert!(correct_keep_set(&chunks, &kept, &Lexicon::french()).is_empty());
    assert!(keep_ranges_from_chunks(&chunks, &kept, 10_000, ProcessingMode::Moderate).is_empty());
}

#[test]
fn segments_on_pauses() {
    let mut stream = words(&["Bonjour", "tout", "le", "monde"], 0, 300, 250);
    stream.extend(words(&[" aujourd'hui ", "on", "commence"], 2_000, 300, 250));
    let chunks = segment_into_chunks(&stream, 500);
    assert_eq!(chunks.len(), 2);
    assert_eq!(chunks[0].id, 0);
    assert_eq!(chunks[0].text, "Bonjour tout le monde");
    assert_eq!(chunks[0].start, 0);
    assert_eq!(chunks[0].end, 1_150);
    assert_eq!(chunks[0].word_count, 4);
    assert_eq!(chunks[1].id, 1);
    assert_eq!(chunks[1].text, "aujourd'hui  on commence");
    assert_eq!(chunks[1].start, 2_000);
    assert_eq!(chunks[1].end, 2_850);
    assert_eq!(chunks[1].word_count, 3);
    let whole = segment_into_chunks(&stream, 851);
    assert_eq!(whole.len(), 1);
    assert_eq!(whole[0].word_count, 7);
    let at_threshold = segment_into_chunks(&stream, 850);
    assert_eq!(at_threshold.len(), 2);
}

#[test]
fn segments_where_the_speaker_starts_over() {
    let stream = words(
        &[
            "Alors", "on", "va", "voir", "alors,", "ON", "va", "regarder", "ça", "ensemble",
        ],
        0,
        300,
        250,
    );
    let chunks = segment_into_chunks(&stream, 500);
    assert_eq!(chunks.len(), 2);
    assert_eq!(chunks[0].text, "Alors on va voir");
    assert_eq!(chunks[0].end, 1_150);
    assert_eq!(chunks[1].text, "alors, ON va regarder ça ensemble");
    assert_eq!(chunks[1].start, 1_200);
    assert_eq!(chunks[1].id, 1);
    let total: usize = chunks.iter().map(|c| c.word_count).sum();
    assert_eq!(total, stream.len());
}

#[test]
fn a_restart_needs_three_words_to_follow() {
    let stream = words(&["alors", "on", "va", "alors", "on"], 0, 300, 250);
    let chunks = segment_into_chunks(&stream, 500);
    assert_eq!(chunks.len(), 1);
    let stream = words(&["alors", "on", "va", "alors", "on", "va"], 0, 300, 250);
    let chunks = segment_into_chunks(&stream, 500);
    assert_eq!(chunks.len(), 2);
    assert_eq!(chunks[0].word_count, 3);
    let stream = words(&["on", "va", "on", "va", "on", "va"], 0, 300, 250);
    let chunks = segment_into_chunks(&stream, 500);
    assert_eq!(chunks.len(), 1);
}

#[test]
fn shared_opener_removes_the_earlier_take() {
    let chunks = vec![
        chunk(
            0,
            "Bonjour tout le monde, aujourd'hui nous allons parler de programmation Rust avancée",
            0,
            5_000,
        ),
        chunk(
            1,
            "Bonjour tout le monde, aujourd'hui nous allons parler de programmation Rust avancée et de vérification formelle",
            15_000,
            22_000,
        ),
    ];
    let lex = Lexicon::french();
    let profiles = build_profiles(&chunks, &lex);
    let mut marks = no_marks(chunks.len());
    run_strategy(Strategy::SharedOpener, &profiles, &mut marks);
    assert_eq!(marks, vec![mark(Strategy::SharedOpener, Some(1)), None]);
    let all = classify(&chunks, &lex);
    assert_eq!(all, vec![mark(Strategy::SharedOpener, Some(1)), None]);
    assert_eq!(
        detect_all_retake_pairs(&chunks),
        vec![RemovalRecord { remove_id: 0, keep_id: 1, strategy: Strategy::SharedOpener }]
    );
    assert_eq!(Strategy::SharedOpener.tag(), "S1");
}

#[test]
fn takes_far_apart_are_not_one_run() {
    let chunks = vec![
        chunk(
            0,
            "Bonjour tout le monde, aujourd'hui nous allons parler de programmation Rust avancée",
            0,
            5_000,
        ),
        chunk(
            1,
            "Bonjour tout le monde, aujourd'hui nous allons parler de programmation Rust avancée",
            125_001,
            130_000,
        ),
    ];
    let lex = Lexicon::french();
    let profiles = build_profiles(&chunks, &lex);
    let mut marks = no_marks(chunks.len());
    run_strategy(Strategy::SharedOpener, &profiles, &mut marks);
    assert_eq!(marks, vec![None, None]);
    let mut near = chunks.clone();
    near[1].start = 125_000;
    let profiles = build_profiles(&near, &lex);
    let mut marks = no_marks(near.len());
    run_strategy(Strategy::SharedOpener, &profiles, &mut marks);
    assert_eq!(marks, vec![mark(Strategy::SharedOpener, Some(1)), None]);
}

#[test]
fn a_weak_opener_needs_corroboration() {
    let chunks = vec![
        chunk(0, "Et donc on regarde le fichier principal maintenant", 0, 3_000),
        chunk(1, "Et donc on ouvre le fichier principal ensuite", 5_000, 8_000),
    ];
    let lex = Lexicon::french();
    let profiles = build_profiles(&chunks, &lex);
    assert!(profiles[0].weak_opener);
    let mut marks = no_marks(chunks.len());
    run_strategy(Strategy::SharedOpener, &profiles, &mut marks);
    assert_eq!(marks, vec![None, None]);
    let chunks = vec![
        chunk(0, "Premièrement regardons ensemble le fichier principal maintenant", 0, 3_000),
        chunk(1, "Premièrement regardons ensemble le fichier principal ensuite", 5_000, 8_000),
    ];
    let profiles = build_profiles(&chunks, &lex);
    assert!(!profiles[0].weak_opener);
    let mut marks = no_marks(chunks.len());
    run_strategy(Strategy::SharedOpener, &profiles, &mut marks);
    assert_eq!(marks, vec![mark(Strategy::SharedOpener, Some(1)), None]);
}

#[test]
fn a_tiny_chunk_behind_a_removed_chunk_goes() {
    let chunks = vec![
        chunk(
            0,
            "Premièrement notre outil permet de générer automatiquement des sous-titres précis pour chaque vidéo",
            0,
            5_000,
        ),
        chunk(1, "euh voilà", 6_000, 6_500),
        chunk(
            2,
            "En résumé cet outil permet de générer automatiquement des sous-titres précis pour chaque vidéo importée",
            8_000,
            14_000,
        ),
    ];
    let lex = Lexicon::french();
    let marks = classify(&chunks, &lex);
    assert_eq!(
        marks,
        vec![
            mark(Strategy::HighSimilarity, Some(2)),
            mark(Strategy::FragmentCleanup, None),
            None
        ]
    );
    assert_eq!(
        removal_records(&marks),
        vec![
            RemovalRecord { remove_id: 0, keep_id: 2, strategy: Strategy::HighSimilarity },
            RemovalRecord { remove_id: 1, keep_id: 2, strategy: Strategy::FragmentCleanup },
        ]
    );
    assert_eq!(kept_chunks(&marks), vec![false, false, true]);
    let profiles = build_profiles(&chunks, &lex);
    let mut prepared = vec![mark(Strategy::HighSimilarity, Some(2)), None, None];
    let changed = run_sweep(Strategy::SandwichCleanup, &profiles, &mut prepared);
    assert!(changed);
    assert_eq!(prepared[1], mark(Strategy::SandwichCleanup, None));
    assert_eq!(prepared[2], None);
    let again = run_sweep(Strategy::SandwichCleanup, &profiles, &mut prepared);
    assert!(!again);
}

#[test]
fn zone_fill_removes_what_lies_between_a_take_and_its_keeper() {
    let chunks = vec![
        chunk(
            0,
            "Premièrement regardons ensemble le fichier principal du projet maintenant",
            0,
            4_000,
        ),
        chunk(1, "attends une seconde", 4_500, 5_500),
        chunk(2, "Voici une remarque longue sans aucun rapport avec la suite prévue ici", 30_000, 36_000),
        chunk(
            3,
            "Premièrement regardons ensemble le fichier principal du projet ensuite",
            40_000,
            44_000,
        ),
    ];
    let lex = Lexicon::french();
    let profiles = build_profiles(&chunks, &lex);
    let mut marks = no_marks(chunks.len());
    run_strategy(Strategy::SharedOpener, &profiles, &mut marks);
    assert_eq!(
        marks,
        vec![mark(Strategy::SharedOpener, Some(3)), None, None, None]
    );
    run_strategy(Strategy::ZoneFill, &profiles, &mut marks);
    assert_eq!(
        marks,
        vec![
            mark(Strategy::SharedOpener, Some(3)),
            mark(Strategy::ZoneFill, Some(3)),
            None,
            None
        ]
    );
}

#[test]
fn off_language_chunks_go() {
    let chunks = vec![
        chunk(0, "Thank you very much for watching this video", 0, 3_000),
        chunk(1, "Nous allons maintenant regarder le résultat final dans le navigateur", 50_000, 55_000),
        chunk(2, "okay right", 100_000, 101_000),
    ];
    let lex = Lexicon::french();
    let profiles = build_profiles(&chunks, &lex);
    let mut marks = no_marks(chunks.len());
    run_strategy(Strategy::OffLanguage, &profiles, &mut marks);
    assert_eq!(marks, vec![mark(Strategy::OffLanguage, None), None, None]);
}

#[test]
fn marks_only_grow() {
    let chunks = vec![
        chunk(
            0,
            "Premièrement notre outil permet de générer automatiquement des sous-titres précis pour chaque vidéo",
            0,
            5_000,
        ),
        chunk(1, "euh voilà", 6_000, 6_500),
        chunk(2, "donc", 7_000, 7_200),
        chunk(
            3,
            "En résumé cet outil permet de générer automatiquement des sous-titres précis pour chaque vidéo importée",
            8_000,
            14_000,
        ),
        chunk(4, "Thank you very much", 15_000, 16_000),
    ];
    let lex = Lexicon::french();
    let profiles = build_profiles(&chunks, &lex);
    let mut marks = no_marks(chunks.len());
    let order = [
        Strategy::SharedOpener,
        Strategy::ZoneFill,
        Strategy::HighSimilarity,
        Strategy::FragmentCleanup,
        Strategy::OffLanguage,
        Strategy::SandwichCleanup,
        Strategy::Superseded,
        Strategy::ZoneRefill,
        Strategy::ExtendedZone,
        Strategy::OrphanFragment,
    ];
    for strategy in order {
        let before = marks.clone();
        run_strategy(strategy, &profiles, &mut marks);
        assert_eq!(marks.len(), before.len());
        for (old, new) in before.iter().zip(marks.iter()) {
            if old.is_some() {
                assert_eq!(old, new);
            }
        }
    }
    assert_eq!(marks, classify_profiles(&profiles));
    assert_eq!(
        marks,
        vec![
            mark(Strategy::HighSimilarity, Some(3)),
            mark(Strategy::FragmentCleanup, None),
            mark(Strategy::FragmentCleanup, None),
            mark(Strategy::SandwichCleanup, None),
            mark(Strategy::OffLanguage, None),
        ]
    );
    assert!(removal_records(&marks)
        .iter()
        .all(|r| r.remove_id == 0 && r.keep_id == 3));
}

#[test]
fn a_continuation_pulls_in_what_it_continues() {
    let chunks = vec![
        chunk(0, "Un premier sujet pour commencer", 0, 2_000),
        chunk(1, "Un deuxième sujet ensuite", 3_000, 5_000),
        chunk(2, "Un troisième sujet encore", 6_000, 8_000),
        chunk(3, "Un quatrième sujet enfin", 9_000, 11_000),
        chunk(4, "Le début de la phrase", 12_000, 14_000),
        chunk(5, "et la fin de la phrase", 14_500, 16_000),
    ];
    let lex = Lexicon::french();
    let kept = vec![true, true, true, true, false, true];
    let corrected = correct_keep_set(&chunks, &kept, &lex);
    assert_eq!(corrected, vec![true, true, true, true, true, true]);
    let kept = vec![true, false, false, false, false, false];
    assert_eq!(correct_keep_set(&chunks, &kept, &lex), kept);
}

#[test]
fn continuations_chain() {
    let chunks = vec![
        chunk(0, "Le début", 0, 2_000),
        chunk(1, "puis la suite", 3_000, 5_000),
        chunk(2, "et la fin", 6_000, 8_000),
        chunk(3, "Autre chose", 9_000, 11_000),
    ];
    let lex = Lexicon::french();
    let profiles = build_profiles(&chunks, &lex);
    let out = reattach_continuations(&profiles, &vec![false, false, true, false]);
    assert_eq!(out, vec![true, true, true, false]);
    let out = reattach_continuations(&profiles, &vec![false, false, false, true]);
    assert_eq!(out, vec![false, false, false, true]);
    let out = reattach_continuations(&profiles, &vec![false, false, true]);
    assert_eq!(out, vec![true, true, true, false]);
}

#[test]
fn enforcement_keeps_the_last_take_of_a_broken_run() {
    let chunks = vec![
        chunk(0, "Donc pour commencer regardons le premier exemple", 0, 3_000),
        chunk(1, "Donc pour commencer regardons le deuxième exemple", 5_000, 8_000),
        chunk(2, "Une remarque entre deux prises", 9_000, 10_000),
        chunk(3, "Donc pour commencer regardons le dernier exemple", 12_000, 15_000),
    ];
    let lex = Lexicon::french();
    let profiles = build_profiles(&chunks, &lex);
    let out = enforce_retake_groups(&profiles, &vec![false, true, true, true]);
    assert_eq!(out, vec![false, false, true, true]);
    let out = enforce_retake_groups(&profiles, &vec![true, true, true, true]);
    assert_eq!(out, vec![true, true, true, true]);
    let out = enforce_retake_groups(&profiles, &vec![true, true, true, false]);
    assert_eq!(out, vec![false, true, true, false]);
    let out = enforce_retake_groups(&profiles, &vec![true, false, false, false]);
    assert_eq!(out, vec![true, false, false, false]);
}

#[test]
fn ids_and_flags_convert() {
    assert_eq!(keep_flags(4, &vec![2, 0, 9, 2]), vec![true, false, true, false]);
    assert_eq!(keep_ids(&vec![true, false, true, false]), vec![0, 2]);
    assert!(keep_flags(0, &vec![1]).is_empty());
}
