use std::collections::HashMap;

use ltp_dashboard::dashboard::{
    apply_checks, apply_comment_tags, combine_instances, drop_cover_letters, instance_counts_fit, patch_ids, prepare_patches,
    rank_patches, results_by_id, retain_current, score_all, sort_by_priority,
};
use ltp_dashboard::patchwork::{RawPatch, StateCounts, Submitter, Tags};
use ltp_dashboard::scoring::ScoredPatch;

fn sp(id: u64, name: &str, submitter: &str, version: u32, score: i32, days: i64) -> ScoredPatch {
    ScoredPatch {
        id,
        name: name.to_string(),
        submitter: submitter.to_string(),
        date: String::new(),
        days,
        state: "new".to_string(),
        version,
        rfc: false,
        series_size: 1,
        reviewed: 0,
        acked: 0,
        delegated: false,
        fix_keyword: false,
        new_test: false,
        sob_count: 1,
        lib_pts: 0,
        checks_passed: 0,
        checks_failed: 0,
        checks_total: 0,
        score,
        reasons: vec![],
        url: String::new(),
        tier: "P5",
        tier_label: "DEFER",
        superseded: false,
    }
}

fn raw(id: u64, name: &str) -> RawPatch {
    RawPatch {
        id,
        name: name.to_string(),
        date: "not a date".to_string(),
        state: "under-review".to_string(),
        submitter: Submitter { name: Some("Dev".to_string()), email: "dev@example.com".to_string() },
        tags: Tags::default(),
        series: vec![],
        delegate: None,
        web_url: Some(format!("https://example.com/{id}")),
    }
}

fn ids(v: &[ScoredPatch]) -> Vec<u64> {
    v.iter().map(|p| p.id).collect()
}

#[test]
fn priority_is_score_then_age() {
    let v = vec![
        sp(1, "a", "x", 1, 10, 5),
        sp(2, "b", "x", 1, 30, 1),
        sp(3, "c", "x", 1, 10, 50),
        sp(4, "d", "x", 1, 30, 9),
        sp(5, "e", "x", 1, -5, 0),
    ];
    assert_eq!(ids(&sort_by_priority(v)), vec![4, 2, 3, 1, 5]);
}

#[test]
fn equal_ranks_keep_their_order() {
    let v = vec![
        sp(7, "a", "x", 1, 20, 3),
        sp(3, "b", "x", 1, 20, 3),
        sp(9, "c", "x", 1, 40, 0),
        sp(1, "d", "x", 1, 20, 3),
    ];
    assert_eq!(ids(&sort_by_priority(v)), vec![9, 7, 3, 1]);
    assert!(sort_by_priority(vec![]).is_empty());
}

#[test]
fn superseded_patches_are_left_out() {
    let mut old = sp(2, "x", "x", 1, 0, 0);
    old.superseded = true;
    let v = vec![sp(1, "a", "x", 1, 0, 0), old, sp(3, "b", "x", 1, 0, 0)];
    assert_eq!(ids(&retain_current(v)), vec![1, 3]);
}

#[test]
fn queue_drops_older_versions_of_the_same_work() {
    let v = vec![
        sp(1, "[PATCH v2] syscalls: fix foo", "Alice", 2, 30, 10),
        sp(2, "[PATCH v3] syscalls: Fix foo", "Alice", 3, 40, 2),
        sp(3, "[PATCH] syscalls: fix foo", "Bob", 1, 50, 1),
        sp(4, "[PATCH v2] other", "Alice", 2, 45, 4),
        sp(5, "[PATCH] syscalls: fix foo", "Alice", 1, 60, 30),
    ];
    let q = rank_patches(v);
    assert_eq!(ids(&q), vec![3, 4, 2]);
    assert!(q.iter().all(|p| !p.superseded));
}

#[test]
fn a_lone_first_version_is_never_superseded() {
    let v = vec![sp(1, "[PATCH] a", "x", 1, 0, 0), sp(2, "[PATCH 1/2] a", "x", 1, 1, 0)];
    assert_eq!(ids(&rank_patches(v)), vec![2, 1]);
}

#[test]
fn cover_letters_are_dropped_before_scoring() {
    let v = vec![
        raw(1, "[PATCH 0/3] series cover"),
        raw(2, "[PATCH 1/3] first"),
        raw(3, "[PATCH v2 0/2] cover again"),
        raw(4, "[PATCH] standalone"),
    ];
    let kept: Vec<u64> = drop_cover_letters(v.clone()).iter().map(|p| p.id).collect();
    assert_eq!(kept, vec![2, 4]);
    let scored = prepare_patches(v);
    assert_eq!(ids(&scored), vec![2, 4]);
    assert_eq!(scored[0].url, "https://example.com/2");
    assert_eq!(scored[1].series_size, 1);
}

#[test]
fn every_patch_is_scored() {
    let v = vec![raw(10, "[PATCH v2] lib: tst_foo"), raw(11, "[RFC] idea")];
    let scored = score_all(&v);
    assert_eq!(ids(&scored), vec![10, 11]);
    assert_eq!(scored[0].version, 2);
    assert!(scored[1].rfc);
    assert_eq!(scored[0].days, 30);
    assert_eq!(patch_ids(&scored), vec![10, 11]);
}

#[test]
fn reply_counts_are_added() {
    let mut ps = vec![sp(1, "a", "x", 1, 0, 0), sp(2, "b", "x", 1, 0, 0)];
    ps[0].reviewed = 1;
    let mut tags = HashMap::new();
    tags.insert(1u64, (2u32, 1u32));
    tags.insert(99u64, (5u32, 5u32));
    apply_comment_tags(&mut ps, &tags);
    assert_eq!((ps[0].reviewed, ps[0].acked), (3, 1));
    assert_eq!((ps[1].reviewed, ps[1].acked), (0, 0));
}

#[test]
fn ci_results_are_recorded() {
    let mut ps = vec![sp(1, "a", "x", 1, 0, 0), sp(2, "b", "x", 1, 0, 0)];
    let mut checks = HashMap::new();
    checks.insert(2u64, (3u32, 1u32, 5u32));
    apply_checks(&mut ps, &checks);
    assert_eq!((ps[0].checks_passed, ps[0].checks_failed, ps[0].checks_total), (0, 0, 0));
    assert_eq!((ps[1].checks_passed, ps[1].checks_failed, ps[1].checks_total), (3, 1, 5));
}

#[test]
fn failed_fetches_are_left_out() {
    let m = results_by_id(vec![(1u64, Some(5u32)), (2, None), (3, Some(7)), (1, Some(9))]);
    assert_eq!(m.len(), 2);
    assert_eq!(m.get(&1), Some(&9));
    assert_eq!(m.get(&2), None);
    assert_eq!(m.get(&3), Some(&7));
    assert!(results_by_id::<u32>(vec![]).is_empty());
}

#[test]
fn instances_are_joined_ranked_and_counted() {
    let mut c1 = StateCounts::new();
    c1.insert("new", 2);
    let mut c2 = StateCounts::new();
    c2.insert("new", 1);
    c2.insert("needs-ack", 4);
    let mut old = sp(3, "[PATCH] thing", "x", 1, 90, 1);
    old.superseded = false;
    let results = vec![
        (vec![sp(1, "a", "x", 1, 10, 1), old], c1),
        (vec![sp(2, "b", "y", 1, 50, 1), sp(4, "[PATCH v2] thing", "x", 2, 20, 1)], c2),
    ];
    assert!(instance_counts_fit(&results));
    let (queue, counts) = combine_instances(results);
    assert_eq!(ids(&queue), vec![2, 4, 1]);
    assert_eq!(counts.get("new"), 3);
    assert_eq!(counts.get("needs-ack"), 4);
    assert_eq!(counts.get("under-review"), 0);
    let mut big = StateCounts::new();
    big.insert("new", usize::MAX);
    let mut one = StateCounts::new();
    one.insert("new", 1);
    assert!(!instance_counts_fit(&vec![(vec![], big), (vec![], one)]));
}
