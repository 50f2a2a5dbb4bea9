use ltp_dashboard::patchwork::{Delegate, RawPatch, SeriesRef, Submitter, Tags};
use ltp_dashboard::scoring::{
    age_days, base_subject, classify, is_cover, is_rfc, lib_score_from_subject, mark_superseded,
    normalize_date, parse_series_size, parse_version, score_age, score_from_signals,
    score_patch, score_series, score_sob, score_version, series_size_from,
    version_from_capture, PatchSignals, ScoredPatch,
};

fn raw(name: &str, state: &str) -> RawPatch {
    RawPatch {
        id: 42,
        name: name.to_string(),
        date: "garbage".to_string(),
        state: state.to_string(),
        submitter: Submitter { name: Some("Jane Doe".to_string()), email: "jane@example.com".to_string() },
        tags: Tags::default(),
        series: vec![],
        delegate: None,
        web_url: None,
    }
}

fn signals() -> PatchSignals {
    PatchSignals {
        version: 1,
        rfc: false,
        series_size: 1,
        days: 10,
        fix_keyword: false,
        new_test: false,
        lib_pts: 0,
    }
}

fn scored(name: &str, submitter: &str, version: u32, score: i32, days: i64) -> ScoredPatch {
    let mut r = raw(name, "new");
    r.submitter.name = Some(submitter.to_string());
    let mut p = score_from_signals(&r, &PatchSignals { version, ..signals() });
    p.score = score;
    p.days = days;
    p
}

#[test]
fn version_points_follow_the_table() {
    assert_eq!(score_version(1), 0);
    assert_eq!(score_version(2), 15);
    assert_eq!(score_version(3), 25);
    assert_eq!(score_version(4), 35);
    assert_eq!(score_version(5), 40);
    assert_eq!(score_version(17), 40);
}

#[test]
fn age_points_form_an_inverted_u() {
    let cases = [
        (-3, 0), (0, 0), (6, 0), (7, 10), (14, 10), (15, 20), (30, 20), (31, 45), (60, 45),
        (61, 35), (90, 35), (91, 20), (180, 20), (181, 10), (365, 10), (366, 5), (5000, 5),
    ];
    for (days, pts) in cases {
        assert_eq!(score_age(days), pts, "age {days}");
    }
}

#[test]
fn series_and_sob_points_follow_the_table() {
    assert_eq!(score_series(1), 10);
    assert_eq!(score_series(2), 0);
    assert_eq!(score_series(5), 0);
    assert_eq!(score_series(6), -5);
    assert_eq!(score_series(10), -5);
    assert_eq!(score_series(11), -15);
    assert_eq!(score_sob(0), 0);
    assert_eq!(score_sob(1), 0);
    assert_eq!(score_sob(2), 5);
    assert_eq!(score_sob(3), 10);
    assert_eq!(score_sob(9), 15);
}

#[test]
fn tiers_follow_the_thresholds() {
    assert_eq!(classify(80), ("P1", "URGENT"));
    assert_eq!(classify(79), ("P2", "HIGH"));
    assert_eq!(classify(60), ("P2", "HIGH"));
    assert_eq!(classify(59), ("P3", "NORMAL"));
    assert_eq!(classify(40), ("P3", "NORMAL"));
    assert_eq!(classify(20), ("P4", "LOW"));
    assert_eq!(classify(19), ("P5", "DEFER"));
    assert_eq!(classify(-40), ("P5", "DEFER"));
}

#[test]
fn version_is_read_from_the_tag() {
    assert_eq!(parse_version("[PATCH v3] foo: bar"), 3);
    assert_eq!(parse_version("[PATCH] foo: bar"), 1);
    assert_eq!(parse_version("[RFC PATCH v12 1/2] foo"), 12);
    assert_eq!(parse_version("[PATCH,v4] foo"), 4);
    assert_eq!(parse_version("[v2] foo"), 2);
    assert_eq!(parse_version("[PATCH V7] foo"), 7);
    assert_eq!(parse_version("foo v5 bar"), 1);
    assert_eq!(parse_version("[PATCH v99999999999] overflow"), 1);
}

#[test]
fn captured_numbers_parse_like_u32() {
    assert_eq!(version_from_capture(Some("8")), 8);
    assert_eq!(version_from_capture(Some("+8")), 8);
    assert_eq!(version_from_capture(Some("4294967295")), 4294967295);
    assert_eq!(version_from_capture(Some("4294967296")), 1);
    assert_eq!(version_from_capture(Some("")), 1);
    assert_eq!(version_from_capture(Some("٣")), 1);
    assert_eq!(version_from_capture(None), 1);
}

#[test]
fn series_size_prefers_the_series_field() {
    assert_eq!(parse_series_size("[PATCH 2/7] foo", &[]), 7);
    assert_eq!(parse_series_size("[PATCH] foo", &[]), 1);
    let counted = SeriesRef { id: Some(1), total: None, count: Some(3) };
    assert_eq!(parse_series_size("[PATCH 1/2] foo", &[counted.clone()]), 3);
    let empty_total = SeriesRef { id: Some(1), total: Some(0), count: Some(3) };
    assert_eq!(parse_series_size("[PATCH 1/2] foo", &[empty_total.clone()]), 2);
    assert_eq!(parse_series_size("[PATCH 1/2] foo", &[empty_total, counted]), 3);
    assert_eq!(series_size_from(&[], Some("9")), 9);
}

#[test]
fn cover_letters_are_recognised() {
    assert!(is_cover("[PATCH 0/5] Cover letter"));
    assert!(is_cover("[PATCH v3 0/2] cover"));
    assert!(!is_cover("[PATCH 1/5] foo"));
    assert!(!is_cover("[PATCH] foo"));
    assert!(is_cover("[PATCH 00/12] git numbering"));
    assert!(!is_cover("[PATCH 10/12] tenth"));
}

#[test]
fn library_points_come_from_the_subject() {
    assert_eq!(lib_score_from_subject("include/lapi: add fsmount"), 5);
    assert_eq!(lib_score_from_subject("configure.ac: detect foo"), 5);
    assert_eq!(lib_score_from_subject("lib:tst_test"), 5);
    assert_eq!(lib_score_from_subject("include/foo.h: update"), 10);
    assert_eq!(lib_score_from_subject("mem: fix leak"), 0);
    assert_eq!(lib_score_from_subject("[PATCH] lib: tst_test: add helper"), 5);
    assert_eq!(lib_score_from_subject("syscalls: use SAFE_OPEN and safe_macros"), 5);
}

#[test]
fn base_subject_strips_tag_and_case() {
    assert_eq!(base_subject("[PATCH v2 1/3] Foo BAR  "), "foo bar");
    assert_eq!(base_subject("  Plain Subject"), "plain subject");
}

#[test]
fn dates_are_normalised_before_parsing() {
    assert_eq!(normalize_date("2024-01-02T03:04:05"), "2024-01-02T03:04:05+00:00");
    assert_eq!(normalize_date("2024-01-02T03:04:05Z"), "2024-01-02T03:04:05+00:00");
    assert_eq!(normalize_date("2024-01-02T03:04:05+02:00"), "2024-01-02T03:04:05+02:00");
    assert_eq!(normalize_date("2024-01-02T03:04:05.123456"), "2024-01-02T03:04:05.123456+00:00");
    assert_eq!(normalize_date("2024-01-02T03:04:05-05:00"), "2024-01-02T03:04:05-05:00");
}

#[test]
fn age_of_unreadable_or_future_dates() {
    assert_eq!(age_days("garbage"), 30);
    assert_eq!(age_days("2024-01-02T03:04:05.123456"), age_days("2024-01-02T03:04:05Z"));
    assert!(age_days("2024-01-02T03:04:05.123456") > 300);
    assert_eq!(age_days("2999-01-01T00:00:00Z"), 0);
    assert!(age_days("2000-01-01T00:00:00") > 9000);
}

#[test]
fn score_from_signals_adds_up_the_rules() {
    let mut r = raw("[PATCH v3] foo", "new");
    r.tags = Tags { reviewed_by_count: 1, acked_by_count: 0, signed_off_by_count: 3 };
    let sig = PatchSignals {
        version: 3,
        rfc: false,
        series_size: 1,
        days: 45,
        fix_keyword: true,
        new_test: false,
        lib_pts: 5,
    };
    let p = score_from_signals(&r, &sig);
    assert_eq!(p.score, 130);
    assert_eq!(
        p.reasons,
        vec!["v3(+25)", "fix(+10)", "age:45d(+45)", "lib(+5)", "series:1(+10)", "Reviewed-by(+20)", "SOB:3(+10)", "new(+5)"]
    );
    assert_eq!((p.tier, p.tier_label), ("P1", "URGENT"));
    assert_eq!(p.url, "https://patchwork.ozlabs.org/project/ltp/patch/42/");
    assert_eq!(p.submitter, "Jane Doe");
    assert!(!p.superseded);
}

#[test]
fn penalties_lower_the_score() {
    let mut r = raw("[RFC] foo", "under-review");
    r.delegate = Some(Delegate { id: 7 });
    r.submitter.name = None;
    r.web_url = Some("https://example.com/p/1".to_string());
    let sig = PatchSignals {
        version: 1,
        rfc: true,
        series_size: 12,
        days: 3,
        fix_keyword: false,
        new_test: true,
        lib_pts: 0,
    };
    let p = score_from_signals(&r, &sig);
    assert_eq!(p.score, -65);
    assert_eq!(p.reasons, vec!["new-test(+10)", "no-activity(-20)", "RFC(-30)", "series:12(-15)", "delegated(-10)"]);
    assert_eq!((p.tier, p.tier_label), ("P5", "DEFER"));
    assert_eq!(p.url, "https://example.com/p/1");
    assert_eq!(p.submitter, "");
    assert!(p.delegated);
}

#[test]
fn score_patch_reads_the_subject() {
    let r = raw("[PATCH v2 2/4] syscalls/foo: fix broken test", "new");
    let p = score_patch(&r);
    assert_eq!(p.version, 2);
    assert_eq!(p.series_size, 4);
    assert_eq!(p.days, 30);
    assert!(p.fix_keyword);
    assert!(!p.new_test);
    assert!(!p.rfc);
    assert_eq!(p.lib_pts, 0);
    assert_eq!(p.score, 50);
    assert_eq!(p.reasons, vec!["v2(+15)", "fix(+10)", "age:30d(+20)", "new(+5)"]);
    assert_eq!(p.tier, "P3");
}

#[test]
fn notes_list_the_flags() {
    let mut p = scored("[PATCH] foo", "a", 1, 0, 3);
    assert_eq!(p.notes(), "—");
    p.superseded = true;
    p.reviewed = 1;
    p.rfc = true;
    p.lib_pts = 10;
    p.sob_count = 2;
    p.days = 61;
    p.series_size = 6;
    assert_eq!(p.notes(), "SUPERSEDED, Reviewed-by, RFC, include/, SOB:2, STALE, SERIES 6");
    p.lib_pts = 15;
    p.acked = 2;
    p.sob_count = 3;
    assert_eq!(p.notes(), "SUPERSEDED, Reviewed-by, Acked-by, RFC, lib/, SOB:3, STALE, SERIES 6");
    p.superseded = false;
    p.lib_pts = 5;
    assert_eq!(p.notes(), "Reviewed-by, Acked-by, RFC, tools/, SOB:3, STALE, SERIES 6");
}

#[test]
fn older_versions_are_superseded() {
    let mut ps = vec![
        scored("[PATCH v1] foo: bar", "alice", 1, 0, 1),
        scored("[PATCH v3] Foo: Bar", "alice", 3, 0, 1),
        scored("[PATCH v2 1/2] foo: bar", "alice", 2, 0, 1),
        scored("[PATCH v1] foo: bar", "bob", 1, 0, 1),
        scored("[PATCH v1] other", "alice", 1, 0, 1),
    ];
    mark_superseded(&mut ps);
    let flags: Vec<bool> = ps.iter().map(|p| p.superseded).collect();
    assert_eq!(flags, vec![true, false, true, false, false]);
    mark_superseded(&mut ps);
    let again: Vec<bool> = ps.iter().map(|p| p.superseded).collect();
    assert_eq!(again, flags);
}

#[test]
fn version_one_alone_is_not_superseded_by_version_zero() {
    let mut ps = vec![scored("[PATCH] foo", "a", 0, 0, 1), scored("[PATCH] foo", "a", 1, 0, 1)];
    mark_superseded(&mut ps);
    assert!(!ps[0].superseded);
    assert!(!ps[1].superseded);
}

#[test]
fn rfc_tags_are_recognised() {
    assert!(is_rfc("[RFC] idea"));
    assert!(is_rfc("[RFC PATCH v2] idea"));
    assert!(is_rfc("[PATCH RFC 1/3] idea"));
    assert!(is_rfc("[PATCH,RFC] idea"));
    assert!(!is_rfc("[PATCH] RFC 5322 parser"));
    assert!(!is_rfc("[PATCH] rfcomm: fix"));
}

#[test]
fn each_subject_rule_adds_its_points() {
    let r = raw("[PATCH] mmap01: cleanup", "new");
    let base = score_from_signals(&r, &signals()).score;
    assert_eq!(score_from_signals(&r, &PatchSignals { fix_keyword: true, ..signals() }).score, base + 10);
    assert_eq!(score_from_signals(&r, &PatchSignals { new_test: true, ..signals() }).score, base + 10);
    assert_eq!(score_from_signals(&r, &PatchSignals { rfc: true, ..signals() }).score, base - 30);
    assert_eq!(score_from_signals(&r, &PatchSignals { lib_pts: 5, ..signals() }).score, base + 5);
}
