use autotrim::framing::{clean_value, env_value, sse_payloads};
use autotrim::jobs::{
    cancel_processing, fail_job, finish_job, get_progress, get_result, is_canceled,
    update_progress, JobRegistry, ProcessingResult,
};
use autotrim::review::{
    approved_removals, confident_abandoned, get_mode_instruction, groups_to_verify, is_confident_enough,
    mode_from_str, truncate_str, validate_detection, AbandonedPassage, GroupVerification,
    RetakeDetectionResult, RetakeGroup,
};
use autotrim::timeline::ProcessingMode;

fn group(group_id: usize, remove: Vec<usize>, keep: Vec<usize>, confidence: &str) -> RetakeGroup {
    let mut passages = remove.clone();
    passages.extend(keep.iter().copied());
    RetakeGroup {
        group_id,
        description: format!("group {}", group_id),
        passages,
        keep,
        remove,
        confidence: confidence.to_string(),
    }
}

fn abandoned(id: usize, confidence: &str) -> AbandonedPassage {
    AbandonedPassage { id, reason: "unfinished".to_string(), confidence: confidence.to_string() }
}

fn verdict(group_id: usize, approved: bool) -> GroupVerification {
    GroupVerification { group_id, approved, reason: String::new() }
}

#[test]
fn findings_about_missing_passages_are_dropped() {
    let found = RetakeDetectionResult {
        retake_groups: vec![
            group(1, vec![0, 1], vec![2], "high"),
            group(2, vec![3], vec![5], "high"),
            group(3, vec![5], vec![4], "low"),
            group(4, vec![], vec![], "low"),
        ],
        abandoned_passages: vec![abandoned(4, "high"), abandoned(5, "high"), abandoned(0, "low")],
    };
    let valid = validate_detection(&found, 5);
    let ids: Vec<usize> = valid.retake_groups.iter().map(|g| g.group_id).collect();
    assert_eq!(ids, vec![1, 4]);
    assert_eq!(valid.retake_groups[0].remove, vec![0, 1]);
    assert_eq!(valid.retake_groups[0].description, "group 1");
    let ids: Vec<usize> = valid.abandoned_passages.iter().map(|a| a.id).collect();
    assert_eq!(ids, vec![4, 0]);
}

#[test]
fn confidence_is_weighed_by_mode() {
    let groups = vec![
        group(1, vec![0], vec![1], "high"),
        group(2, vec![2], vec![3], "medium"),
        group(3, vec![4], vec![5], "low"),
    ];
    let ids = |mode| -> Vec<usize> {
        groups_to_verify(&groups, mode).iter().map(|g| g.group_id).collect()
    };
    assert_eq!(ids(ProcessingMode::Aggressive), vec![1, 2, 3]);
    assert_eq!(ids(ProcessingMode::Moderate), vec![1, 2]);
    assert_eq!(ids(ProcessingMode::Conservative), vec![1]);
    assert!(is_confident_enough(ProcessingMode::Aggressive, "whatever"));
    assert!(!is_confident_enough(ProcessingMode::Moderate, "High"));
    assert_eq!(mode_from_str("aggressive"), ProcessingMode::Aggressive);
    assert_eq!(mode_from_str("conservative"), ProcessingMode::Conservative);
    assert_eq!(mode_from_str("moderate"), ProcessingMode::Moderate);
    assert_eq!(mode_from_str(""), ProcessingMode::Moderate);
}

#[test]
fn approvals_release_removals() {
    let groups = vec![
        group(1, vec![0, 1], vec![2], "high"),
        group(2, vec![3], vec![4], "high"),
        group(3, vec![5, 6], vec![7], "high"),
    ];
    let verdicts = vec![verdict(3, true), verdict(2, false), verdict(1, true), verdict(9, true)];
    assert_eq!(approved_removals(&groups, &verdicts), vec![0, 1, 5, 6]);
    assert!(approved_removals(&groups, &Vec::new()).is_empty());
}

#[test]
fn texts_are_cut_for_display() {
    assert_eq!(truncate_str("été chaud", 3), "été...");
    assert_eq!(truncate_str("été", 3), "été");
    assert_eq!(truncate_str("", 0), "");
    assert_eq!(truncate_str("a", 0), "...");
}

#[test]
fn mode_instructions() {
    assert!(get_mode_instruction("aggressive").starts_with("Mode agressif"));
    assert!(get_mode_instruction("conservative").starts_with("Mode conservateur"));
    assert!(get_mode_instruction("moderate").starts_with("Mode modéré"));
    assert!(get_mode_instruction("x").starts_with("Mode modéré"));
}

#[test]
fn event_streams_are_framed() {
    let body = "event: ping\ndata: {\"a\":1}\n\n  data: two  \r\ndata:three\ndata: \ndata: [DONE]\ndata: late\n";
    assert_eq!(sse_payloads(body), vec!["{\"a\":1}", "two"]);
    assert!(sse_payloads("").is_empty());
    assert_eq!(sse_payloads("data: [DONE] "), Vec::<String>::new());
    assert_eq!(sse_payloads("data: x"), vec!["x"]);
}

#[test]
fn environment_files_are_read() {
    let contents = "# keys\nOTHER=1\nKEY=\nKEY= \"\"\nKEY = no\nKEY=  \"abc def\"  \r\nKEY=later\n";
    assert_eq!(env_value(contents, "KEY"), Some("abc def".to_string()));
    assert_eq!(env_value(contents, "OTHER"), Some("1".to_string()));
    assert_eq!(env_value(contents, "MISSING"), None);
    assert_eq!(env_value("KEY=last", "KEY"), Some("last".to_string()));
    assert_eq!(env_value("", "KEY"), None);
    assert_eq!(clean_value("  \"\"quoted\"  "), "quoted");
    assert_eq!(clean_value(" \" \" "), " ");
}

#[test]
fn a_canceled_job_keeps_its_progress() {
    let mut registry = JobRegistry::new();
    registry.start("a");
    registry.start("b");
    let first = get_progress(&registry, "a").unwrap();
    assert_eq!(first.stage, "extracting");
    assert_eq!(first.permille, 0);
    assert!(get_progress(&registry, "c").is_none());
    update_progress(&mut registry, "a", "transcribing", 250, Some(30));
    update_progress(&mut registry, "c", "transcribing", 250, None);
    assert_eq!(registry.jobs.len(), 2);
    let p = get_progress(&registry, "a").unwrap();
    assert_eq!((p.stage.as_str(), p.permille, p.eta_seconds), ("transcribing", 250, Some(30)));
    assert_eq!(get_progress(&registry, "b").unwrap().permille, 0);
    assert!(!is_canceled(&registry, "a"));
    cancel_processing(&mut registry, "a");
    assert!(is_canceled(&registry, "a"));
    assert!(!is_canceled(&registry, "b"));
    assert!(!is_canceled(&registry, "c"));
    update_progress(&mut registry, "a", "rendering", 900, None);
    let p = get_progress(&registry, "a").unwrap();
    assert_eq!((p.stage.as_str(), p.permille, p.eta_seconds), ("transcribing", 250, Some(30)));
    update_progress(&mut registry, "b", "rendering", 900, None);
    assert_eq!(get_progress(&registry, "b").unwrap().stage, "rendering");
}

#[test]
fn a_finished_job_has_its_result() {
    let mut registry = JobRegistry::new();
    registry.start("a");
    assert!(get_result(&registry, "a").is_none());
    let result = ProcessingResult {
        output_path: "out.mp4".to_string(),
        original_duration: 60_000,
        final_duration: 42_000,
        silences_removed: 3,
        repetitions_removed: 2,
    };
    finish_job(&mut registry, "a", &result);
    let stored = get_result(&registry, "a").unwrap();
    assert_eq!(stored.output_path, "out.mp4");
    assert_eq!(stored.final_duration, 42_000);
    assert_eq!(get_progress(&registry, "a").unwrap().permille, 1_000);
    assert!(get_result(&registry, "b").is_none());
    fail_job(&mut registry, "a");
    assert_eq!(get_progress(&registry, "a").unwrap().stage, "error");
    assert!(get_result(&registry, "a").is_some());
}

#[test]
fn abandoned_passages_are_weighed_by_mode() {
    let list = vec![abandoned(4, "high"), abandoned(1, "low"), abandoned(7, "medium")];
    assert_eq!(confident_abandoned(&list, ProcessingMode::Aggressive), vec![4, 1, 7]);
    assert_eq!(confident_abandoned(&list, ProcessingMode::Moderate), vec![4, 7]);
    assert_eq!(confident_abandoned(&list, ProcessingMode::Conservative), vec![4]);
    assert!(confident_abandoned(&Vec::new(), ProcessingMode::Aggressive).is_empty());
}

#[test]
fn a_job_entered_again_replaces_the_old_one() {
    let mut registry = JobRegistry::new();
    registry.start("a");
    registry.start("b");
    update_progress(&mut registry, "a", "rendering", 900, None);
    cancel_processing(&mut registry, "a");
    registry.start("a");
    assert_eq!(registry.jobs.len(), 2);
    let p = get_progress(&registry, "a").unwrap();
    assert_eq!((p.stage.as_str(), p.permille), ("extracting", 0));
    assert!(!is_canceled(&registry, "a"));
    assert_eq!(registry.jobs[0].id, "b");
    assert_eq!(registry.jobs[1].id, "a");
}
