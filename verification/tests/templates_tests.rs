use ltp_dashboard::scoring::ScoredPatch;
use ltp_dashboard::templates::{index_view, render_index, TemplateData};

fn sp(id: u64, tier: &'static str, tier_label: &'static str) -> ScoredPatch {
    ScoredPatch {
        id,
        name: format!("patch {id}"),
        submitter: "Dev".to_string(),
        date: String::new(),
        days: 3,
        state: "new".to_string(),
        version: 1,
        rfc: false,
        series_size: 1,
        reviewed: 0,
        acked: 0,
        delegated: false,
        fix_keyword: false,
        new_test: false,
        sob_count: 1,
        lib_pts: 0,
        checks_passed: 0,
        checks_failed: 0,
        checks_total: 0,
        score: 0,
        reasons: vec![],
        url: format!("https://example.com/{id}/"),
        tier,
        tier_label,
        superseded: false,
    }
}

#[test]
fn page_groups_and_numbers_patches() {
    let mut a = sp(1, "P3", "NORMAL");
    a.reasons = vec!["v2(+15)".to_string(), "age:40d(+45)".to_string(), "new(+5)".to_string()];
    a.days = 61;
    a.rfc = true;
    let mut b = sp(2, "P1", "URGENT");
    b.reviewed = 2;
    b.superseded = true;
    let c = sp(3, "P3", "NORMAL");
    let ps = vec![a, b, c];
    let data = TemplateData { patches: &ps, generated_at: "2025-02-01 10:00:00 UTC".to_string(), show_checks: true };
    let v = index_view(&data);
    assert_eq!(v.total, 3);
    assert_eq!(v.stale_count, 1);
    assert_eq!(v.rfc_count, 1);
    assert_eq!(v.reviewed_count, 1);
    assert_eq!(v.superseded_count, 1);
    assert_eq!(v.generated_at, "2025-02-01 10:00:00 UTC");
    assert!(v.show_checks);
    let ids: Vec<&str> = v.tiers.iter().map(|t| t.tier_id).collect();
    assert_eq!(ids, vec!["P1", "P2", "P3", "P4", "P5"]);
    let labels: Vec<&str> = v.tiers.iter().map(|t| t.tier_label).collect();
    assert_eq!(labels, vec!["URGENT", "HIGH", "NORMAL", "LOW", "DEFER"]);
    assert_eq!(v.tiers[0].patches.len(), 1);
    assert_eq!(v.tiers[0].patches[0].num, 1);
    assert_eq!(v.tiers[0].patches[0].reviewed, 2);
    assert!(v.tiers[1].patches.is_empty());
    let p3: Vec<(usize, String)> =
        v.tiers[2].patches.iter().map(|r| (r.num, r.name.clone())).collect();
    assert_eq!(p3, vec![(2, "patch 1".to_string()), (3, "patch 3".to_string())]);
    assert_eq!(v.tiers[2].patches[0].reasons, "v2(+15) · age:40d(+45) · new(+5)");
    assert_eq!(v.tiers[2].patches[1].reasons, "");
    assert_eq!(v.tiers[2].patches[0].url, "https://example.com/1/");
}

#[test]
fn empty_page_has_five_empty_tiers() {
    let data = TemplateData { patches: &[], generated_at: String::new(), show_checks: false };
    let v = index_view(&data);
    assert_eq!(v.total, 0);
    assert_eq!(v.tiers.len(), 5);
    assert!(v.tiers.iter().all(|t| t.patches.is_empty()));
}

#[test]
fn page_shows_badges_counts_and_rows() {
    let mut a = sp(1, "P1", "URGENT");
    a.name = "fix <b> & stuff".to_string();
    a.days = 75;
    a.rfc = true;
    a.series_size = 8;
    a.reviewed = 1;
    a.acked = 2;
    a.superseded = true;
    a.state = "under-review".to_string();
    a.score = 85;
    a.checks_passed = 2;
    a.checks_total = 3;
    a.reasons = vec!["v2(+15)".to_string(), "RFC(-30)".to_string()];
    let b = sp(2, "P4", "LOW");
    let ps = vec![a, b];
    let data = TemplateData { patches: &ps, generated_at: "2025-03-04 05:06:07 UTC".to_string(), show_checks: true };
    let html = render_index(&data).unwrap();
    assert!(html.contains("Fetched 2 patches from"));
    assert!(html.contains("generated 2025-03-04 05:06:07 UTC"));
    assert!(html.contains("fix &lt;b&gt; &amp; stuff"));
    for badge in ["sbadge-stale\">Stale", "sbadge-rfc\">RFC", "sbadge-series\">SERIES 8", "sbadge-review\">Under Review",
        "sbadge-reviewed\">Reviewed-by", "sbadge-acked\">Acked-by", "sbadge-superseded\">Superseded"] {
        assert!(html.contains(badge), "{badge}");
    }
    assert!(html.contains("<tr class=\"tier-P1 has-review is-superseded\">"));
    assert!(html.contains("<tr class=\"tier-P4\">"));
    assert!(html.contains("<span class=\"ci-fail\">2/3</span>"));
    assert!(html.contains("<span class=\"ci-none\">—</span>"));
    assert!(html.contains("<td colspan=\"7\">No patches in this tier</td>"));
    assert!(html.contains("<td class=\"col-score\">85</td>"));
    assert!(html.contains("<td class=\"col-age\">75d</td>"));
    assert!(html.contains("<td class=\"col-num\">2</td>"));
    assert!(html.contains("v2(+15) · RFC(-30)"));
    assert!(html.contains("(1 patches)"));
    assert!(html.contains("(0 patches)"));
    assert!(html.contains("<span class=\"summary-value warn\">1</span>"));
    assert!(html.contains("content=\"300\""));
}

#[test]
fn page_without_checks_has_six_columns() {
    let ps = vec![sp(5, "P5", "DEFER")];
    let data = TemplateData { patches: &ps, generated_at: String::new(), show_checks: false };
    let html = render_index(&data).unwrap();
    assert!(html.contains("<td colspan=\"6\">No patches in this tier</td>"));
    assert!(!html.contains("<th class=\"col-ci\">"));
    assert!(!html.contains("sbadge-stale\">"));
    assert!(html.contains("<span class=\"summary-value \">0</span>"));
}
