# ltp_dashboard

A review dashboard for the Linux Test Project's Patchwork queue: it fetches
the open patches, scores them, groups them into priority tiers P1 to P5 and
shows the queue in the terminal or as a web page.

The scoring, the queue order, superseded-version detection, the per-state
counts, the terminal report, the web page view and the web cache decisions
are written in Verus and proved against their contracts.

Layout:

- `src/` – the verified library.
  - `scoring.rs` – point tables, subject parsing, patch scores and tiers,
    superseded versions.
  - `dashboard.rs` – cover-letter filtering, folding in reply and CI counts,
    priority order, the review queue.
  - `patchwork.rs` – the Patchwork records, request URLs, reply counting,
    per-state counts, joining fetched pages.
  - `terminal.rs` – the coloured terminal report.
  - `templates.rs` – the web page: its view of the queue, its template and
    its rendering through `minijinja`.
  - `web.rs` – the page cache decisions.
  - `config.rs` – instances, defaults, configuration-file priority.
  - `text.rs` – string helpers; `patterns.rs` and `clock.rs` – the calls into
    the `regex` and `chrono` crates.
- `app/` – the program: command line, configuration files, HTTP fetching
  and the web server.
- `tests/` – tests of the library.

Scoring follows the score table of the project documentation (fix +10, new
test +10, library +5, RFC −30, `new` +5, no activity −20, …). No "small
diff" rule is applied: the diff sizes can still be fetched
(`fetch_all_diff_sizes` in `app/fetch.rs`, counted by the verified
`count_diff_lines`), but no scoring rule for them is defined, so they do not
enter the score.
