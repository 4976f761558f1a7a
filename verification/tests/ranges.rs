use autotrim::classifier::kept_chunks;
use autotrim::merge::{merge_spans, sort_spans};
use autotrim::ranges::{
    build_keep_segments, calculate_keep_segments, final_keep_segments, invert_spans,
    keep_ranges_from_chunks, plan_ranges,
};
use autotrim::timeline::{gap_between, ProcessingMode, Segment};
use autotrim::transcript::SpeechChunk;

fn seg(start: u64, end: u64) -> Segment {
    Segment::new(start, end)
}

fn chunk(id: usize, start: u64, end: u64) -> SpeechChunk {
    SpeechChunk::new(id, format!("chunk {}", id), start, end, 2)
}

#[test]
fn merges_overlapping_removals_and_inverts_them() {
    let removals = vec![seg(0, 5_000), seg(4_000, 9_000), seg(20_000, 22_000)];
    let merged = merge_spans(&removals, ProcessingMode::Moderate.merge_gap());
    assert_eq!(merged, vec![seg(0, 9_000), seg(20_000, 22_000)]);
    let keep = calculate_keep_segments(&removals, 30_000, ProcessingMode::Moderate);
    assert_eq!(keep, vec![seg(9_000, 20_000), seg(22_000, 30_000)]);
}

#[test]
fn merging_twice_changes_nothing() {
    let removals = vec![
        seg(7_000, 7_100),
        seg(0, 5_000),
        seg(5_400, 6_000),
        seg(3, 3),
        seg(9, 2),
        seg(20_000, 22_000),
        seg(6_900, 7_050),
    ];
    for mode in [
        ProcessingMode::Aggressive,
        ProcessingMode::Moderate,
        ProcessingMode::Conservative,
    ] {
        let once = merge_spans(&removals, mode.merge_gap());
        let twice = merge_spans(&once, mode.merge_gap());
        assert_eq!(once, twice);
    }
    let conservative = merge_spans(&removals, 500);
    assert_eq!(
        conservative,
        vec![seg(0, 6_000), seg(6_900, 7_100), seg(20_000, 22_000)]
    );
}

#[test]
fn merge_gap_is_strict() {
    let apart = vec![seg(0, 1_000), seg(2_000, 3_000)];
    assert_eq!(merge_spans(&apart, 1_000), apart);
    assert_eq!(merge_spans(&apart, 1_001), vec![seg(0, 3_000)]);
    let touching = vec![seg(0, 1_000), seg(1_000, 3_000)];
    assert_eq!(merge_spans(&touching, 0), vec![seg(0, 3_000)]);
}

#[test]
fn sort_is_stable() {
    let spans = vec![seg(5, 9), seg(1, 4), seg(5, 6), seg(1, 2)];
    assert_eq!(
        sort_spans(&spans),
        vec![seg(1, 4), seg(1, 2), seg(5, 9), seg(5, 6)]
    );
}

#[test]
fn keep_segments_are_valid_and_inside_the_timeline() {
    let removals = vec![seg(40_000, 50_000), seg(100, 900), seg(10_000, 12_000)];
    let total = 45_000;
    let keep = calculate_keep_segments(&removals, total, ProcessingMode::Conservative);
    assert_eq!(keep, vec![seg(900, 10_000), seg(12_000, 40_000)]);
    for s in &keep {
        assert!(s.end > s.start);
        assert!(s.end <= total);
    }
}

#[test]
fn no_removals_keeps_the_whole_timeline() {
    let keep = calculate_keep_segments(&Vec::new(), 30_000, ProcessingMode::Moderate);
    assert_eq!(keep, vec![seg(0, 30_000)]);
    let nothing = calculate_keep_segments(&Vec::new(), 0, ProcessingMode::Moderate);
    assert!(nothing.is_empty());
}

#[test]
fn short_keep_fragments_are_dropped() {
    let removals = vec![seg(500, 10_000), seg(29_500, 30_000)];
    let keep = calculate_keep_segments(&removals, 30_000, ProcessingMode::Moderate);
    assert_eq!(keep, vec![seg(10_000, 29_500)]);
    let keep = calculate_keep_segments(&removals, 30_000, ProcessingMode::Conservative);
    assert_eq!(keep, vec![seg(0, 500), seg(10_000, 29_500)]);
}

#[test]
fn inversion_is_the_exact_complement() {
    let removed = vec![seg(0, 9_000), seg(20_000, 22_000)];
    let kept = invert_spans(&removed, 30_000);
    assert_eq!(kept, vec![seg(9_000, 20_000), seg(22_000, 30_000)]);
    assert_eq!(invert_spans(&kept, 30_000), removed);
}

#[test]
fn plan_tiles_the_timeline() {
    let removals = vec![seg(500, 5_000), seg(20_000, 29_900)];
    let total = 30_000;
    let plan = plan_ranges(&removals, total, ProcessingMode::Moderate);
    assert_eq!(plan.kept, vec![seg(5_000, 20_000)]);
    assert_eq!(plan.removed, vec![seg(0, 5_000), seg(20_000, 30_000)]);
    let mut all = plan.kept.clone();
    all.extend(plan.removed.iter().copied());
    all.sort_by_key(|s| s.start);
    let mut cursor = 0;
    for s in &all {
        assert_eq!(s.start, cursor);
        cursor = s.end;
    }
    assert_eq!(cursor, total);
}

#[test]
fn everything_removed_keeps_nothing() {
    let removals = vec![seg(0, 30_000)];
    let plan = plan_ranges(&removals, 30_000, ProcessingMode::Aggressive);
    assert!(plan.kept.is_empty());
    assert_eq!(plan.removed, vec![seg(0, 30_000)]);
}

#[test]
fn kept_chunks_are_joined_across_short_pauses() {
    let chunks = vec![
        chunk(0, 1_000, 2_000),
        chunk(1, 4_000, 5_000),
        chunk(2, 8_000, 9_000),
        chunk(3, 9_500, 10_000),
        chunk(4, 20_000, 21_000),
    ];
    let kept = vec![true, true, false, true, true];
    let keep = keep_ranges_from_chunks(&chunks, &kept, 21_050, ProcessingMode::Moderate);
    assert_eq!(
        keep,
        vec![seg(900, 5_100), seg(9_400, 10_100), seg(19_900, 21_050)]
    );
    let keep = keep_ranges_from_chunks(&chunks, &kept, 21_050, ProcessingMode::Aggressive);
    assert_eq!(
        keep,
        vec![
            seg(920, 2_080),
            seg(3_920, 5_080),
            seg(9_420, 10_080),
            seg(19_920, 21_050)
        ]
    );
}

#[test]
fn padding_is_clamped_and_touching_ranges_merge() {
    let chunks = vec![chunk(0, 50, 1_000), chunk(1, 1_200, 2_000), chunk(2, 2_100, 3_000)];
    let kept = vec![true, false, true];
    let keep = keep_ranges_from_chunks(&chunks, &kept, 3_000, ProcessingMode::Conservative);
    assert_eq!(keep, vec![seg(0, 1_150), seg(1_950, 3_000)]);
    let chunks = vec![chunk(0, 0, 1_000), chunk(1, 1_100, 1_200), chunk(2, 1_300, 3_000)];
    let keep = keep_ranges_from_chunks(&chunks, &kept, 3_000, ProcessingMode::Conservative);
    assert_eq!(keep, vec![seg(0, 3_000)]);
}

#[test]
fn no_kept_chunk_gives_no_range() {
    let chunks = vec![chunk(0, 0, 1_000), chunk(1, 1_100, 1_200)];
    assert!(keep_ranges_from_chunks(&chunks, &vec![false, false], 3_000, ProcessingMode::Moderate)
        .is_empty());
    assert!(
        keep_ranges_from_chunks(&chunks, &Vec::new(), 3_000, ProcessingMode::Moderate).is_empty()
    );
    assert!(keep_ranges_from_chunks(
        &Vec::new(),
        &kept_chunks(&Vec::new()),
        3_000,
        ProcessingMode::Moderate
    )
    .is_empty());
}

#[test]
fn ranges_outside_the_timeline_are_discarded() {
    let chunks = vec![chunk(0, 5_000, 6_000), chunk(1, 500, 900)];
    let keep = keep_ranges_from_chunks(&chunks, &vec![true, true], 1_000, ProcessingMode::Moderate);
    assert!(keep.is_empty());
    let chunks = vec![chunk(0, 5_000, 6_000), chunk(1, 9_000, 9_500), chunk(2, 500, 900)];
    let kept = vec![true, false, true];
    let keep = keep_ranges_from_chunks(&chunks, &kept, 1_000, ProcessingMode::Moderate);
    assert_eq!(keep, vec![seg(400, 1_000)]);
    let keep = keep_ranges_from_chunks(&chunks, &kept, 7_000, ProcessingMode::Moderate);
    assert_eq!(keep, vec![seg(400, 1_000), seg(4_900, 6_100)]);
}

#[test]
fn mode_thresholds() {
    assert_eq!(ProcessingMode::Aggressive.merge_gap(), 1_500);
    assert_eq!(ProcessingMode::Moderate.merge_gap(), 1_000);
    assert_eq!(ProcessingMode::Conservative.merge_gap(), 500);
    assert_eq!(ProcessingMode::Aggressive.min_keep_duration(), 1_200);
    assert_eq!(ProcessingMode::Moderate.min_keep_duration(), 800);
    assert_eq!(ProcessingMode::Conservative.min_keep_duration(), 300);
    assert_eq!(ProcessingMode::Aggressive.max_keep_gap(), 1_500);
    assert_eq!(ProcessingMode::Moderate.max_keep_gap(), 2_500);
    assert_eq!(ProcessingMode::Conservative.max_keep_gap(), 4_000);
    assert_eq!(ProcessingMode::Aggressive.padding(), 80);
    assert_eq!(ProcessingMode::Moderate.padding(), 100);
    assert_eq!(ProcessingMode::Conservative.padding(), 150);
    assert_eq!(gap_between(5, 9), -4);
    assert_eq!(seg(3, 10).duration(), 7);
    assert_eq!(seg(10, 3).duration(), 0);
    assert!(!seg(4, 4).is_valid());
}

#[test]
fn silences_are_cut_out_of_kept_chunks() {
    let chunks = vec![
        chunk(0, 1_000, 9_000),
        chunk(1, 10_000, 12_000),
        chunk(2, 13_000, 20_000),
    ];
    let kept = vec![true, false, true];
    let silences = vec![seg(4_000, 6_000), seg(19_500, 30_000), seg(7, 7)];
    let keep = final_keep_segments(&chunks, &kept, &silences, 30_000, ProcessingMode::Moderate);
    assert_eq!(
        keep,
        vec![seg(900, 4_000), seg(6_000, 9_100), seg(12_900, 19_500)]
    );
    let none = final_keep_segments(
        &chunks,
        &vec![false, false, false],
        &silences,
        30_000,
        ProcessingMode::Moderate,
    );
    assert!(none.is_empty());
    let all = final_keep_segments(&chunks, &kept, &Vec::new(), 30_000, ProcessingMode::Moderate);
    assert_eq!(all, keep_ranges_from_chunks(&chunks, &kept, 30_000, ProcessingMode::Moderate));
}

#[test]
fn rebuilding_from_the_complement_changes_nothing() {
    let removals = vec![
        seg(500, 5_000),
        seg(5_900, 9_000),
        seg(9_400, 12_000),
        seg(20_000, 29_900),
        seg(40_000, 90_000),
    ];
    for mode in [
        ProcessingMode::Aggressive,
        ProcessingMode::Moderate,
        ProcessingMode::Conservative,
    ] {
        for total in [0, 700, 10_000, 30_000, 60_000] {
            let plan = plan_ranges(&removals, total, mode);
            assert_eq!(calculate_keep_segments(&plan.removed, total, mode), plan.kept);
            let again = plan_ranges(&plan.removed, total, mode);
            assert_eq!(again.kept, plan.kept);
            assert_eq!(again.removed, plan.removed);
        }
    }
    let plan = plan_ranges(&removals, 30_000, ProcessingMode::Conservative);
    assert_eq!(plan.kept, vec![seg(0, 500), seg(5_000, 5_900), seg(12_000, 20_000)]);
}

#[test]
fn without_a_decision_the_complement_of_the_removals_is_kept() {
    let chunks = vec![chunk(0, 1_000, 9_000), chunk(1, 13_000, 20_000)];
    let none: Vec<Segment> = Vec::new();
    let mode = ProcessingMode::Moderate;
    assert_eq!(
        build_keep_segments(&chunks, &None, &none, 30_000, mode),
        vec![seg(0, 30_000)]
    );
    assert_eq!(
        build_keep_segments(&Vec::new(), &Some(Vec::new()), &none, 30_000, mode),
        vec![seg(0, 30_000)]
    );
    let silences = vec![seg(4_000, 6_000)];
    assert_eq!(
        build_keep_segments(&chunks, &None, &silences, 30_000, mode),
        vec![seg(0, 4_000), seg(6_000, 30_000)]
    );
    assert_eq!(
        build_keep_segments(&chunks, &Some(vec![true, true]), &silences, 30_000, mode),
        vec![seg(900, 4_000), seg(6_000, 9_100), seg(12_900, 20_100)]
    );
    assert!(build_keep_segments(&chunks, &Some(vec![false, false]), &none, 30_000, mode)
        .is_empty());
}
