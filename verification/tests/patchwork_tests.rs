use ltp_dashboard::config::PatchworkInstance;
use ltp_dashboard::patchwork::{
    checks_url, collect_pages, collect_states, comments_url, count_diff_lines, count_review_tags,
    extra_page_urls, is_json_array, lines, page_count, page_url, patch_detail_url,
    patch_list_url, patch_states, review_tags_fit, state_display_name, tally_checks, Delegate, RawPatch,
    StateCounts, Submitter, Tags,
};

fn patch(id: u64) -> RawPatch {
    RawPatch {
        id,
        name: format!("[PATCH] patch {id}"),
        date: "2024-01-01T00:00:00".to_string(),
        state: "new".to_string(),
        submitter: Submitter { name: None, email: "dev@example.com".to_string() },
        tags: Tags::default(),
        series: vec![],
        delegate: Some(Delegate { id: 1 }),
        web_url: None,
    }
}

fn ids(v: &[RawPatch]) -> Vec<u64> {
    v.iter().map(|p| p.id).collect()
}

#[test]
fn listed_states_in_query_order() {
    assert_eq!(patch_states(), vec!["new", "under-review", "11", "needs-ack"]);
}

#[test]
fn numeric_state_has_a_display_name() {
    assert_eq!(state_display_name("11"), "needs-review-ack");
    assert_eq!(state_display_name("new"), "new");
    assert_eq!(state_display_name("needs-ack"), "needs-ack");
}

#[test]
fn listing_urls() {
    let inst = PatchworkInstance::default();
    let base = patch_list_url(&inst, "under-review");
    assert_eq!(
        base,
        "https://patchwork.kernel.org/api/patches/?project=ltp&state=under-review&order=-date&per_page=100"
    );
    assert_eq!(page_url(&base, 3), format!("{base}&page=3"));
}

#[test]
fn per_patch_urls() {
    let inst = PatchworkInstance::default();
    assert_eq!(comments_url(&inst, 1234), "https://patchwork.kernel.org/api/patches/1234/comments/");
    assert_eq!(patch_detail_url(&inst, 1234), "https://patchwork.kernel.org/api/patches/1234/");
    assert_eq!(checks_url(&inst, 0), "https://patchwork.kernel.org/api/patches/0/checks/");
}

#[test]
fn pages_hold_one_hundred_patches() {
    assert_eq!(page_count(0), 0);
    assert_eq!(page_count(1), 1);
    assert_eq!(page_count(100), 1);
    assert_eq!(page_count(101), 2);
    assert_eq!(page_count(250), 3);
    assert_eq!(page_count(usize::MAX), usize::MAX / 100 + 1);
}

#[test]
fn further_pages_start_at_two() {
    assert!(extra_page_urls("b", 0).is_empty());
    assert!(extra_page_urls("b", 100).is_empty());
    assert_eq!(extra_page_urls("b", 101), vec!["b&page=2".to_string()]);
    assert_eq!(extra_page_urls("b", 250), vec!["b&page=2".to_string(), "b&page=3".to_string()]);
}

#[test]
fn bare_arrays_are_told_from_paged_replies() {
    assert!(is_json_array("[]"));
    assert!(is_json_array(" \n\t[{\"id\": 1}]"));
    assert!(!is_json_array("{\"count\": 0, \"results\": []}"));
    assert!(!is_json_array(""));
    assert!(!is_json_array("   "));
}

#[test]
fn lines_split_like_str_lines() {
    let cases = [
        "", "a", "a\n", "a\nb", "a\r\nb\r\n", "\n\n", "a\r", "\r\n", "x\ny\r\nz", "é\nü\r\n",
    ];
    for s in cases {
        let expected: Vec<String> = s.lines().map(|l| l.to_string()).collect();
        assert_eq!(lines(s), expected, "{s:?}");
    }
}

#[test]
fn diff_counts_changed_lines_only() {
    let diff = "diff --git a/f b/f\n--- a/f\n+++ b/f\n@@ -1,2 +1,3 @@\n-old\n+new\n+more\n context\n";
    assert_eq!(count_diff_lines(diff), 3);
    assert_eq!(count_diff_lines(""), 0);
    assert_eq!(count_diff_lines("+++ only header\n--- other\n"), 0);
    assert_eq!(count_diff_lines("-\r\n+"), 2);
}

#[test]
fn review_trailers_are_counted_per_line() {
    let comments = vec![
        "Looks good.\n\nReviewed-by: Alice <a@example.com>\n  Acked-by: Bob <b@example.com>".to_string(),
        "reviewed-by: lower case does not count\n\tReviewed-by: Carol\r\nAcked-by: Dan".to_string(),
        String::new(),
    ];
    assert!(review_tags_fit(&comments));
    assert_eq!(count_review_tags(&comments), (2, 2));
    assert_eq!(count_review_tags(&vec![]), (0, 0));
    assert_eq!(count_review_tags(&vec!["> Reviewed-by: quoted".to_string()]), (0, 0));
}

#[test]
fn check_results_are_tallied() {
    let states: Vec<String> =
        ["success", "fail", "pending", "success", "warning"].iter().map(|s| s.to_string()).collect();
    assert_eq!(tally_checks(&states), (2, 1, 5));
    assert_eq!(tally_checks(&vec![]), (0, 0, 0));
}

#[test]
fn state_counts_insert_add_and_merge() {
    let mut a = StateCounts::new();
    assert_eq!(a.get("new"), 0);
    a.insert("new", 3);
    a.insert("new", 4);
    a.add("under-review", 2);
    a.add("under-review", 5);
    assert_eq!(a.get("new"), 4);
    assert_eq!(a.get("under-review"), 7);
    let mut b = StateCounts::new();
    b.insert("new", 1);
    b.insert("needs-ack", 9);
    assert!(a.merge_fits(&b));
    a.merge(&b);
    assert_eq!(a.get("new"), 5);
    assert_eq!(a.get("under-review"), 7);
    assert_eq!(a.get("needs-ack"), 9);
    assert_eq!(a.get("11"), 0);
    let mut full = StateCounts::new();
    full.insert("new", usize::MAX);
    assert!(!full.merge_fits(&b));
    assert!(full.merge_fits(&StateCounts::new()));
}

#[test]
fn state_lists_are_joined_counted_and_cut() {
    let results = vec![
        ("new".to_string(), Some(vec![patch(1), patch(2)])),
        ("under-review".to_string(), None),
        ("11".to_string(), Some(vec![patch(3)])),
        ("needs-ack".to_string(), Some(vec![])),
    ];
    let (all, counts) = collect_states(results.clone(), 500);
    assert_eq!(ids(&all), vec![1, 2, 3]);
    assert_eq!(counts.get("new"), 2);
    assert_eq!(counts.get("needs-review-ack"), 1);
    assert_eq!(counts.get("11"), 0);
    assert_eq!(counts.get("needs-ack"), 0);
    assert_eq!(counts.get("under-review"), 0);
    let (cut, counts) = collect_states(results, 2);
    assert_eq!(ids(&cut), vec![1, 2]);
    assert_eq!(counts.get("needs-review-ack"), 1);
}

#[test]
fn pages_are_appended_in_order() {
    let first = vec![patch(1), patch(2)];
    let pages = vec![Some(vec![patch(3)]), None, Some(vec![patch(4), patch(5)])];
    assert_eq!(ids(&collect_pages(first.clone(), pages.clone(), 500)), vec![1, 2, 3, 4, 5]);
    assert_eq!(ids(&collect_pages(first.clone(), pages, 3)), vec![1, 2, 3]);
    assert_eq!(ids(&collect_pages(first, vec![], 0)), Vec::<u64>::new());
}

#[test]
fn merging_counts_is_order_independent() {
    let mut a = StateCounts::new();
    a.insert("new", 2);
    a.insert("under-review", 1);
    let mut b = StateCounts::new();
    b.insert("new", 5);
    b.insert("needs-ack", 3);
    let mut ab = StateCounts::new();
    ab.merge(&a);
    ab.merge(&b);
    let mut ba = StateCounts::new();
    ba.merge(&b);
    ba.merge(&a);
    for k in ["new", "under-review", "needs-ack", "needs-review-ack"] {
        assert_eq!(ab.get(k), ba.get(k), "{k}");
    }
    assert_eq!(ab.get("new"), 7);
}
