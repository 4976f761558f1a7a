use autotrim::classifier::{run_strategy, run_sweeps};
use autotrim::lexicon::Lexicon;
use autotrim::marks::{no_marks, Mark, Strategy};
use autotrim::measures::{find_restatement, Lookahead};
use autotrim::openers::{classify_opener, is_confirmed, OpenerClass};
use autotrim::profile::{build_profiles, ChunkProfile};
use autotrim::transcript::SpeechChunk;

fn piece(id: usize, text: &str, start: u64, end: u64) -> SpeechChunk {
    SpeechChunk::new(
        id,
        text.to_string(),
        start,
        end,
        text.split_whitespace().count(),
    )
}

fn profiles(chunks: &Vec<SpeechChunk>) -> Vec<ChunkProfile> {
    build_profiles(chunks, &Lexicon::french())
}

fn removed(strategy: Strategy, keeper: Option<usize>) -> Option<Mark> {
    Some(Mark { strategy, keeper })
}

fn gone() -> Option<Mark> {
    removed(Strategy::OffLanguage, None)
}

#[test]
fn a_longer_later_take_supersedes() {
    let early = "Notre produit analyse automatiquement vos vidéos";
    let late = "Aujourd'hui je vous présente comment notre produit analyse automatiquement toutes vos vidéos en quelques secondes";
    let chunks = vec![piece(0, early, 0, 3_000), piece(1, late, 303_000, 310_000)];
    let mut marks = no_marks(2);
    run_strategy(Strategy::Superseded, &profiles(&chunks), &mut marks);
    assert_eq!(marks, vec![removed(Strategy::Superseded, Some(1)), None]);

    let chunks = vec![piece(0, early, 0, 3_000), piece(1, late, 303_001, 310_000)];
    let mut marks = no_marks(2);
    run_strategy(Strategy::Superseded, &profiles(&chunks), &mut marks);
    assert_eq!(marks, vec![None, None]);

    let short = "notre produit analyse automatiquement toutes vos vidéos ici";
    let chunks = vec![piece(0, early, 0, 3_000), piece(1, short, 5_000, 9_000)];
    let mut marks = no_marks(2);
    run_strategy(Strategy::Superseded, &profiles(&chunks), &mut marks);
    assert_eq!(marks, vec![None, None]);
}

#[test]
fn high_similarity_has_two_tiers() {
    let a = "alpha bravo charlie delta echo foxtrot golf hotel";
    let b = "alpha bravo charlie delta echo india juliet kilo";
    let chunks = vec![piece(0, a, 0, 3_000), piece(1, b, 5_000, 9_000)];
    let mut marks = no_marks(2);
    run_strategy(Strategy::HighSimilarity, &profiles(&chunks), &mut marks);
    assert_eq!(marks, vec![removed(Strategy::HighSimilarity, Some(1)), None]);

    let long = "alpha bravo charlie delta echo india juliet kilo lima mike november oscar papa quebec romeo sierra tango uniform victor whiskey";
    let chunks = vec![piece(0, a, 0, 3_000), piece(1, long, 5_000, 9_000)];
    let p = profiles(&chunks);
    assert_eq!(find_restatement(Lookahead::HighSimilarity, &p, &no_marks(2), 0), Some(1));
    let reversed = vec![piece(0, long, 0, 3_000), piece(1, a, 5_000, 9_000)];
    let p = profiles(&reversed);
    assert_eq!(find_restatement(Lookahead::HighSimilarity, &p, &no_marks(2), 0), None);

    let few = "alpha bravo charlie delta xray yankee zulu papa";
    let chunks = vec![piece(0, a, 0, 3_000), piece(1, few, 5_000, 9_000)];
    let mut marks = no_marks(2);
    run_strategy(Strategy::HighSimilarity, &profiles(&chunks), &mut marks);
    assert_eq!(marks, vec![None, None]);
}

#[test]
fn the_search_passes_over_removed_chunks_and_stops_out_of_reach() {
    let a = "alpha bravo charlie delta echo foxtrot golf hotel";
    let chunks = vec![
        piece(0, a, 0, 3_000),
        piece(1, a, 5_000, 8_000),
        piece(2, a, 10_000, 13_000),
        piece(3, "un deux", 203_001, 204_000),
        piece(4, a, 205_000, 208_000),
    ];
    let p = profiles(&chunks);
    let marks = vec![None, gone(), None, None, None];
    assert_eq!(find_restatement(Lookahead::HighSimilarity, &p, &marks, 0), Some(2));
    let marks = vec![None, gone(), gone(), None, None];
    assert_eq!(find_restatement(Lookahead::HighSimilarity, &p, &marks, 0), None);
    let mut near = chunks.clone();
    near[4].start = 203_000;
    let p = profiles(&near);
    assert_eq!(find_restatement(Lookahead::HighSimilarity, &p, &marks, 0), Some(4));
}

#[test]
fn cut_short_and_restated_chunks_go() {
    let chunks = vec![
        piece(0, "et donc je voulais vous montrer le nouveau système...", 0, 3_000),
        piece(1, "Bref passons", 4_000, 5_000),
        piece(2, "Je voulais montrer autre chose", 6_000, 8_000),
    ];
    let mut marks = no_marks(3);
    run_strategy(Strategy::FragmentCleanup, &profiles(&chunks), &mut marks);
    assert_eq!(
        marks,
        vec![
            removed(Strategy::FragmentCleanup, None),
            removed(Strategy::FragmentCleanup, None),
            None
        ]
    );
    let chunks = vec![
        piece(0, "Voyons alpha bravo charlie", 0, 3_000),
        piece(1, "Ensuite alpha bravo delta echo foxtrot", 4_000, 8_000),
    ];
    let mut marks = no_marks(2);
    run_strategy(Strategy::FragmentCleanup, &profiles(&chunks), &mut marks);
    assert_eq!(marks, vec![removed(Strategy::FragmentCleanup, None), None]);
    let mut far = chunks.clone();
    far[1].start = 123_001;
    let mut marks = no_marks(2);
    run_strategy(Strategy::FragmentCleanup, &profiles(&far), &mut marks);
    assert_eq!(marks, vec![None, None]);
}

#[test]
fn cleanup_repeats_until_nothing_changes() {
    let chunks = vec![
        piece(0, "alpha bravo charlie delta echo foxtrot golf hotel india", 0, 3_000),
        piece(1, "juliet kilo", 3_500, 4_000),
        piece(2, "lima mike", 4_500, 5_000),
        piece(3, "november oscar", 5_500, 6_000),
        piece(4, "papa quebec romeo sierra tango uniform victor whiskey", 6_500, 9_000),
    ];
    let p = profiles(&chunks);
    let start = vec![None, None, None, None, gone()];
    let mut once = start.clone();
    run_sweeps(Strategy::SandwichCleanup, &p, &mut once, 1);
    assert_eq!(
        once,
        vec![None, None, None, removed(Strategy::SandwichCleanup, None), gone()]
    );
    let mut all = start.clone();
    run_strategy(Strategy::SandwichCleanup, &p, &mut all);
    assert_eq!(
        all,
        vec![
            None,
            removed(Strategy::SandwichCleanup, None),
            removed(Strategy::SandwichCleanup, None),
            removed(Strategy::SandwichCleanup, None),
            gone()
        ]
    );
    let mut none = start.clone();
    run_sweeps(Strategy::SandwichCleanup, &p, &mut none, 0);
    assert_eq!(none, start);
}

#[test]
fn refill_works_on_late_pairs_only() {
    let chunks = vec![
        piece(0, "alpha bravo charlie delta", 0, 3_000),
        piece(1, "echo foxtrot golf", 4_000, 5_000),
        piece(2, "hotel india juliet kilo lima mike november oscar", 6_000, 9_000),
    ];
    let p = profiles(&chunks);
    let mut marks = vec![removed(Strategy::Superseded, Some(2)), None, None];
    run_strategy(Strategy::ZoneRefill, &p, &mut marks);
    assert_eq!(
        marks,
        vec![
            removed(Strategy::Superseded, Some(2)),
            removed(Strategy::ZoneRefill, Some(2)),
            None
        ]
    );
    let mut early = vec![removed(Strategy::SharedOpener, Some(2)), None, None];
    run_strategy(Strategy::ZoneRefill, &p, &mut early);
    assert_eq!(early, vec![removed(Strategy::SharedOpener, Some(2)), None, None]);
    run_strategy(Strategy::ZoneFill, &p, &mut early);
    assert_eq!(early[1], removed(Strategy::ZoneFill, Some(2)));
    let mut lost = vec![
        removed(Strategy::Superseded, Some(2)),
        None,
        removed(Strategy::OffLanguage, None),
    ];
    let before = lost.clone();
    run_strategy(Strategy::ZoneRefill, &p, &mut lost);
    assert_eq!(lost, before);
}

#[test]
fn chunks_deep_in_a_removed_zone_go() {
    let text = "alpha bravo charlie delta echo foxtrot golf hotel india";
    let chunks: Vec<SpeechChunk> =
        (0..6).map(|i| piece(i, text, (i as u64) * 4_000, (i as u64) * 4_000 + 3_000)).collect();
    let p = profiles(&chunks);
    let mut marks = vec![gone(), gone(), None, gone(), gone(), None];
    run_strategy(Strategy::ExtendedZone, &p, &mut marks);
    assert_eq!(marks[2], removed(Strategy::ExtendedZone, None));
    assert_eq!(marks[5], removed(Strategy::ExtendedZone, None));
    let mut marks = vec![gone(), gone(), None, gone(), None, None];
    run_strategy(Strategy::ExtendedZone, &p, &mut marks);
    assert_eq!(marks, vec![gone(), gone(), None, gone(), None, None]);
    let mut apart = chunks.clone();
    apart[5].start = 25_000;
    apart[5].end = 28_000;
    let mut marks = vec![gone(), gone(), None, gone(), gone(), None];
    run_strategy(Strategy::ExtendedZone, &profiles(&apart), &mut marks);
    assert_eq!(marks[2], removed(Strategy::ExtendedZone, None));
    assert_eq!(marks[5], None);
}

#[test]
fn orphans_go() {
    let chunks = vec![
        piece(0, "alpha bravo charlie delta", 0, 3_000),
        piece(1, "echo foxtrot golf", 4_000, 5_000),
        piece(2, "hotel india", 6_000, 7_000),
        piece(3, "juliet kilo lima mike november oscar papa quebec romeo", 25_001, 29_000),
    ];
    let p = profiles(&chunks);
    let mut marks = vec![gone(), None, gone(), None];
    run_strategy(Strategy::OrphanFragment, &p, &mut marks);
    assert_eq!(
        marks,
        vec![gone(), removed(Strategy::OrphanFragment, None), gone(), None]
    );
    let mut close = chunks.clone();
    close[3].start = 25_000;
    let mut marks = vec![gone(), None, gone(), None];
    run_strategy(Strategy::OrphanFragment, &profiles(&close), &mut marks);
    assert_eq!(marks, vec![gone(), None, gone(), None]);
    let mut marks = vec![gone(), None, gone(), gone()];
    run_strategy(Strategy::OrphanFragment, &p, &mut marks);
    assert_eq!(marks[1], removed(Strategy::OrphanFragment, None));
}

#[test]
fn opener_classes() {
    assert_eq!(classify_opener(false, 3), OpenerClass::Confident);
    assert_eq!(
        classify_opener(false, 4),
        OpenerClass::NeedsCorroboration { min_shared: 4, min_coverage: 15 }
    );
    assert_eq!(
        classify_opener(false, 6),
        OpenerClass::NeedsCorroboration { min_shared: 5, min_coverage: 20 }
    );
    assert_eq!(
        classify_opener(true, 9),
        OpenerClass::NeedsCorroboration { min_shared: 4, min_coverage: 25 }
    );
    assert!(is_confirmed(OpenerClass::Confident, 2, 50, 50));
    assert!(!is_confirmed(OpenerClass::Confident, 1, 1, 1));
    let weak = classify_opener(true, 1);
    assert!(is_confirmed(weak, 4, 16, 16));
    assert!(!is_confirmed(weak, 4, 17, 16));
    assert!(!is_confirmed(weak, 4, 16, 17));
    assert!(!is_confirmed(weak, 3, 4, 4));
}
