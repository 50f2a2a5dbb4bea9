use ltp_dashboard::patchwork::StateCounts;
use ltp_dashboard::scoring::ScoredPatch;
use ltp_dashboard::terminal::{
    render_queue, tier_color, tier_label, BLUE, BOLD, DIM, GRAY, ORANGE, RED, RESET, WHITE, YELLOW,
};

fn sp(id: u64, name: &str, tier: &'static str, score: i32, days: i64) -> ScoredPatch {
    ScoredPatch {
        id,
        name: name.to_string(),
        submitter: "Dev".to_string(),
        date: String::new(),
        days,
        state: "new".to_string(),
        version: 2,
        rfc: false,
        series_size: 1,
        reviewed: 0,
        acked: 0,
        delegated: false,
        fix_keyword: false,
        new_test: false,
        sob_count: 1,
        lib_pts: 0,
        checks_passed: 0,
        checks_failed: 0,
        checks_total: 0,
        score,
        reasons: vec![],
        url: format!("https://example.com/{id}/"),
        tier,
        tier_label: "",
        superseded: false,
    }
}

/// The report as the dashboard has always printed it, written out with `format!`.
fn expected_report(
    patches: &[ScoredPatch],
    counts: &[(&str, usize)],
    show_checks: bool,
    today: &str,
) -> String {
    let count = |k: &str| counts.iter().find(|(n, _)| *n == k).map(|(_, v)| *v).unwrap_or(0);
    let mut out = String::new();
    let total = patches.len();
    let stale_count = patches.iter().filter(|p| p.days > 60).count();
    let rfc_count = patches.iter().filter(|p| p.rfc).count();
    let waiting_count = patches.iter().filter(|p| p.reviewed >= 1).count();
    let superseded_count = patches.iter().filter(|p| p.superseded).count();
    let rule = "─".repeat(80);
    out += &format!("\n{BOLD}LTP Patch Review Queue — {today}{RESET}\n\n");
    out += &format!(
        "Fetched {BOLD}{total}{RESET} patches  (new: {}  under-review: {}  needs-review: {})\n\n",
        count("new"),
        count("under-review"),
        count("needs-review-ack")
    );
    out += &format!("{rule}\n");
    let w_subj: usize = if show_checks { 52 } else { 58 };
    let mut counter = 1usize;
    for tid in ["P1", "P2", "P3", "P4", "P5"] {
        let color = tier_color(tid);
        let label = tier_label(tid);
        let group: Vec<&ScoredPatch> = patches.iter().filter(|p| p.tier == tid).collect();
        out += &format!("\n{color}{BOLD}{label}{RESET}  {GRAY}({}){RESET}\n\n", group.len());
        if group.is_empty() {
            out += &format!("  {DIM}None{RESET}\n");
            continue;
        }
        let ci_hdr = if show_checks { format!("  {:>5}", "CI") } else { String::new() };
        let ci_sep = if show_checks { format!("  {}", "─".repeat(5)) } else { String::new() };
        out += &format!(
            "{BOLD}  {:>3}  {:>5}  {:>3}  {:>5}{ci_hdr}  {:<w_subj$}  Notes{RESET}\n",
            "#", "Score", "Ver", "Age", "Subject"
        );
        out += &format!(
            "{GRAY}  {}  {}  {}  {}{ci_sep}  {}  {}{RESET}\n",
            "─".repeat(3),
            "─".repeat(5),
            "─".repeat(3),
            "─".repeat(5),
            "─".repeat(w_subj),
            "─".repeat(22)
        );
        for p in group {
            let score_str = format!("{color}{BOLD}{:>5}{RESET}", p.score);
            let ver_str = format!("v{}", p.version);
            let age_str = format!("{}d", p.days);
            let ci_str = if show_checks {
                let frac = format!("{}/{}", p.checks_passed, p.checks_total);
                let s = if p.checks_total == 0 {
                    format!("{GRAY}{:>5}{RESET}", "—")
                } else if p.checks_passed == p.checks_total {
                    format!("{YELLOW}{:>5}{RESET}", frac)
                } else if p.checks_failed > 0 {
                    format!("{RED}{:>5}{RESET}", frac)
                } else {
                    format!("{YELLOW}{:>5}{RESET}", frac)
                };
                format!("  {s}")
            } else {
                String::new()
            };
            let name_trunc = if p.name.len() > w_subj {
                format!("{}…", &p.name[..w_subj - 1])
            } else {
                p.name.clone()
            };
            let link = format!("\x1b]8;;{}\x1b\\{name_trunc}\x1b]8;;\x1b\\", p.url);
            let pad_len = w_subj.saturating_sub(name_trunc.len());
            let subj_pad = format!("{link}{}", " ".repeat(pad_len));
            let notes = p.notes();
            out += &format!(
                "  {counter:>3}  {score_str}  {ver_str:>3}  {age_str:>5}{ci_str}  {subj_pad}  {GRAY}{notes}{RESET}\n"
            );
            counter += 1;
        }
    }
    out += &format!("\n{rule}\n\n");
    out += &format!("{BOLD}Summary{RESET}\n\n");
    let stale_note =
        if stale_count > 0 { format!("  {RED}← needs attention{RESET}") } else { String::new() };
    out += &format!("  Total patches evaluated:           {BOLD}{total}{RESET}\n");
    out += &format!("  Patches > 60 days old:             {BOLD}{stale_count}{RESET}{stale_note}\n");
    out += &format!("  RFC patches:                       {BOLD}{rfc_count}{RESET}\n");
    out += &format!("  Patches with Reviewed-by (ready):  {BOLD}{waiting_count}{RESET}\n");
    if superseded_count > 0 {
        out += &format!(
            "  Superseded patches:                {BOLD}{superseded_count}{RESET}  {RED}← older versions{RESET}\n"
        );
    } else {
        out += &format!("  Superseded patches:                {BOLD}{superseded_count}{RESET}\n");
    }
    out += "\n";
    out
}

fn counts_of(pairs: &[(&str, usize)]) -> StateCounts {
    let mut c = StateCounts::new();
    for (k, v) in pairs {
        c.insert(k, *v);
    }
    c
}

fn sample() -> Vec<ScoredPatch> {
    let mut a = sp(11, "[PATCH v2] syscalls/foo: fix a leak", "P1", 85, 45);
    a.reviewed = 1;
    a.checks_passed = 3;
    a.checks_total = 3;
    let mut b = sp(12, "[PATCH] a subject that is much longer than the subject column of the table allows", "P3", 41, 90);
    b.rfc = true;
    b.checks_passed = 1;
    b.checks_failed = 2;
    b.checks_total = 4;
    b.superseded = true;
    let mut c = sp(13, "[PATCH] ünïcödé sübjéct wïth wïdé chäräctérs thät gö ön änd ön änd ön", "P3", 40, -1);
    c.series_size = 8;
    c.sob_count = 3;
    c.lib_pts = 10;
    c.checks_passed = 1;
    c.checks_total = 2;
    let d = sp(14, "short", "P5", -12, 0);
    vec![a, b, c, d]
}

#[test]
fn tier_colours_and_labels() {
    assert_eq!(tier_color("P1"), RED);
    assert_eq!(tier_color("P2"), ORANGE);
    assert_eq!(tier_color("P3"), YELLOW);
    assert_eq!(tier_color("P4"), BLUE);
    assert_eq!(tier_color("P5"), GRAY);
    assert_eq!(tier_color("other"), WHITE);
    assert_eq!(tier_label("P1"), "🔴 URGENT");
    assert_eq!(tier_label("P2"), "🟠 HIGH");
    assert_eq!(tier_label("P3"), "🟡 NORMAL");
    assert_eq!(tier_label("P4"), "🔵 LOW");
    assert_eq!(tier_label("P5"), "⚪ DEFER");
}

#[test]
fn empty_queue_report() {
    let counts = [("new", 0usize)];
    let got = render_queue(&[], &counts_of(&counts), false, "2025-01-31");
    assert_eq!(got, expected_report(&[], &counts, false, "2025-01-31"));
    assert!(got.contains("  \x1b[2mNone\x1b[0m\n"));
}

#[test]
fn queue_report_without_checks() {
    let ps = sample();
    let counts = [("new", 7usize), ("under-review", 2), ("needs-review-ack", 1), ("needs-ack", 4)];
    let got = render_queue(&ps, &counts_of(&counts), false, "2025-01-31");
    assert_eq!(got, expected_report(&ps, &counts, false, "2025-01-31"));
}

#[test]
fn queue_report_with_checks() {
    let ps = sample();
    let counts = [("under-review", 3usize)];
    let got = render_queue(&ps, &counts_of(&counts), true, "today");
    assert_eq!(got, expected_report(&ps, &counts, true, "today"));
}

#[test]
fn rows_are_numbered_across_tiers() {
    let ps = vec![sp(1, "a", "P2", 60, 1), sp(2, "b", "P4", 20, 1), sp(3, "c", "P2", 61, 1)];
    let got = render_queue(&ps, &StateCounts::new(), false, "d");
    assert_eq!(got, expected_report(&ps, &[], false, "d"));
    assert!(got.contains("    1  "));
    assert!(got.contains("    3  "));
}
