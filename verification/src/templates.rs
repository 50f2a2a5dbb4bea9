//! What the web page shows: the queue grouped by tier, each patch numbered,
//! and the summary counts, and the page rendered from it through `minijinja`.
use minijinja::Value;
use vstd::prelude::*;

use crate::scoring::{tier_id, tier_name, ScoredPatch};
use crate::terminal::{
    count_rfc, count_reviewed, count_stale, count_superseded, lemma_rows_before, reviewed_count,
    rfc_count, rows_before, stale_count, superseded_count, tier_for, tier_group,
    tier_pred,
};
use crate::text::{
    decimal, int_decimal, join, join_spec, nat_decimal, owned, push_signed, same_text, views,
};

verus! {

/// The data the page is made from.
pub struct TemplateData<'a> {
    pub patches: &'a [ScoredPatch],
    pub generated_at: String,
    pub show_checks: bool,
}

/// One row of a tier's table.
#[derive(Debug)]
pub struct PatchRow {
    pub num: usize,
    pub score: i32,
    pub tier: &'static str,
    pub tier_label: &'static str,
    pub version: u32,
    pub days: i64,
    pub state: String,
    pub rfc: bool,
    pub series_size: u32,
    pub reviewed: u32,
    pub acked: u32,
    pub superseded: bool,
    pub name: String,
    pub url: String,
    pub reasons: String,
    pub checks_passed: u32,
    pub checks_total: u32,
}

/// One tier of the page.
#[derive(Debug)]
pub struct TierView {
    pub tier_id: &'static str,
    pub tier_label: &'static str,
    pub patches: Vec<PatchRow>,
}

/// The whole page.
#[derive(Debug)]
pub struct IndexView {
    pub total: usize,
    pub stale_count: usize,
    pub rfc_count: usize,
    pub reviewed_count: usize,
    pub superseded_count: usize,
    pub generated_at: String,
    pub show_checks: bool,
    pub tiers: Vec<TierView>,
}

/// The reasons of a patch as one line, separated by ` · `.
pub open spec fn reasons_line(p: ScoredPatch) -> Seq<char> {
    join_spec(views(p.reasons@), " · "@)
}

/// `r` shows patch `p` as row number `num`.
pub open spec fn row_of(r: PatchRow, p: ScoredPatch, num: nat) -> bool {
    &&& r.num == num
    &&& r.score == p.score
    &&& r.tier@ == p.tier@
    &&& r.tier_label@ == p.tier_label@
    &&& r.version == p.version
    &&& r.days == p.days
    &&& r.state@ == p.state@
    &&& r.rfc == p.rfc
    &&& r.series_size == p.series_size
    &&& r.reviewed == p.reviewed
    &&& r.acked == p.acked
    &&& r.superseded == p.superseded
    &&& r.name@ == p.name@
    &&& r.url@ == p.url@
    &&& r.reasons@ == reasons_line(p)
    &&& r.checks_passed == p.checks_passed
    &&& r.checks_total == p.checks_total
}

/// `rows` show the patches `g` numbered from `first`.
pub open spec fn rows_of(rows: Seq<PatchRow>, g: Seq<ScoredPatch>, first: nat) -> bool {
    &&& rows.len() == g.len()
    &&& forall|j: int| 0 <= j < rows.len() ==> row_of(#[trigger] rows[j], g[j], (first + j) as nat)
}

/// `t` is tier `k` (1 to 5) of the page for the patches `ps`.
pub open spec fn tier_view_of(t: TierView, ps: Seq<ScoredPatch>, k: int) -> bool {
    &&& t.tier_id@ == tier_id(k)
    &&& t.tier_label@ == tier_name(k)
    &&& rows_of(t.patches@, tier_group(ps, tier_id(k)), 1 + rows_before(ps, k))
}

/// `v` is the page for `data`: the counts, and tiers P1 to P5 in order with
/// their patches numbered on from 1.
pub open spec fn index_view_of(v: IndexView, data: TemplateData) -> bool {
    let ps = data.patches@;
    &&& v.total == ps.len()
    &&& v.stale_count == stale_count(ps)
    &&& v.rfc_count == rfc_count(ps)
    &&& v.reviewed_count == reviewed_count(ps)
    &&& v.superseded_count == superseded_count(ps)
    &&& v.generated_at@ == data.generated_at@
    &&& v.show_checks == data.show_checks
    &&& v.tiers@.len() == 5
    &&& forall|k: int| 1 <= k <= 5 ==> tier_view_of(#[trigger] v.tiers@[k - 1], ps, k)
}

fn row_for(p: &ScoredPatch, num: usize) -> (r: PatchRow)
    ensures
        row_of(r, *p, num as nat),
{
    PatchRow {
        num,
        score: p.score,
        tier: p.tier,
        tier_label: p.tier_label,
        version: p.version,
        days: p.days,
        state: p.state.clone(),
        rfc: p.rfc,
        series_size: p.series_size,
        reviewed: p.reviewed,
        acked: p.acked,
        superseded: p.superseded,
        name: p.name.clone(),
        url: p.url.clone(),
        reasons: join(&p.reasons, " · "),
        checks_passed: p.checks_passed,
        checks_total: p.checks_total,
    }
}

/// The rows of the patches of tier `tier`, numbered from `first`.
fn tier_rows(ps: &[ScoredPatch], tier: &str, first: usize) -> (r: Vec<PatchRow>)
    requires
        first + tier_group(ps@, tier@).len() <= usize::MAX,
    ensures
        rows_of(r@, tier_group(ps@, tier@), first as nat),
{
    let mut rows: Vec<PatchRow> = Vec::new();
    for i in 0..ps.len()
        invariant
            first + tier_group(ps@, tier@).len() <= usize::MAX,
            rows_of(rows@, tier_group(ps@.take(i as int), tier@), first as nat),
    {
        let ghost g = tier_group(ps@.take(i as int), tier@);
        proof {
            reveal_with_fuel(Seq::<_>::filter, 1);
            assert(ps@.take(i + 1).drop_last() =~= ps@.take(i as int));
            assert(ps@.take(i + 1).last() == ps@[i as int]);
            ps@.lemma_filter_take_len(tier_pred(tier@), i + 1);
        }
        if same_text(ps[i].tier, tier) {
            let row = row_for(&ps[i], first + rows.len());
            rows.push(row);
            proof {
                let ng = g.push(ps@[i as int]);
                assert(tier_group(ps@.take(i + 1), tier@) == ng);
                assert forall|j: int| 0 <= j < rows@.len() implies row_of(
                    #[trigger] rows@[j],
                    ng[j],
                    (first + j) as nat,
                ) by {
                    if j < g.len() {
                        assert(ng[j] == g[j]);
                    }
                }
            }
        }
    }
    assert(ps@.take(ps.len() as int) =~= ps@);
    rows
}

/// The label of tier `n` (1 to 5).
fn tier_name_for(n: usize) -> (r: &'static str)
    requires
        1 <= n <= 5,
    ensures
        r@ == tier_name(n as int),
{
    if n == 1 {
        "URGENT"
    } else if n == 2 {
        "HIGH"
    } else if n == 3 {
        "NORMAL"
    } else if n == 4 {
        "LOW"
    } else {
        "DEFER"
    }
}

/// The page for the given data: counts, then tiers P1 to P5 with their patches
/// numbered on from 1 across tiers.
pub fn index_view(data: &TemplateData<'_>) -> (r: IndexView)
    requires
        data.patches@.len() < usize::MAX,
    ensures
        index_view_of(r, *data),
{
    let ps = data.patches;
    let mut tiers: Vec<TierView> = Vec::new();
    let mut shown: usize = 0;
    let mut n: usize = 1;
    proof {
        lemma_rows_before(ps@, 1);
    }
    while n <= 5
        invariant
            1 <= n <= 6,
            ps@.len() < usize::MAX,
            shown == rows_before(ps@, n as int),
            shown <= ps@.len(),
            tiers@.len() == n - 1,
            forall|k: int| 1 <= k < n ==> tier_view_of(#[trigger] tiers@[k - 1], ps@, k),
        decreases 6 - n,
    {
        proof {
            lemma_rows_before(ps@, n as int + 1);
        }
        let tier = tier_for(n);
        let rows = tier_rows(ps, tier, shown + 1);
        shown = shown + rows.len();
        tiers.push(TierView { tier_id: tier, tier_label: tier_name_for(n), patches: rows });
        n = n + 1;
    }
    IndexView {
        total: ps.len(),
        stale_count: count_stale(ps),
        rfc_count: count_rfc(ps),
        reviewed_count: count_reviewed(ps),
        superseded_count: count_superseded(ps),
        generated_at: data.generated_at.clone(),
        show_checks: data.show_checks,
        tiers,
    }
}

} // verus!

verus! {

// ---------------------------------------------------------------------------
// The page template
// ---------------------------------------------------------------------------

/// The HTML page. It reads `page`, the page's text fields, and `tiers`, one
/// pair per tier: the tier's fields and the fields of each of its rows.
/// Numbers come as decimal text and flags as `true` or `false`.
pub const INDEX_TEMPLATE: &'static str = r#"<!DOCTYPE html>
<html lang="en">
<head>
  <meta charset="UTF-8">
  <meta name="viewport" content="width=device-width, initial-scale=1.0">
  <meta http-equiv="refresh" content="300">
  <title>LTP Dashboard</title>
  <style>
    *, *::before, *::after { box-sizing: border-box; margin: 0; padding: 0; }

    body {
      background: #1a1a2e;
      color: #e0e0e0;
      font-family: 'Segoe UI', system-ui, -apple-system, sans-serif;
      font-size: 14px;
      line-height: 1.5;
      padding: 24px;
    }

    h1 {
      font-size: 1.6rem;
      font-weight: 700;
      color: #ffffff;
      margin-bottom: 4px;
    }

    .subtitle {
      color: #888;
      font-size: 0.85rem;
      margin-bottom: 24px;
    }

    .subtitle a { color: #aaa; text-decoration: none; }
    .subtitle a:hover { color: #fff; text-decoration: underline; }

    /* Tier section */
    .tier-section { margin-bottom: 40px; }

    .tier-header {
      display: flex;
      align-items: center;
      gap: 12px;
      margin-bottom: 10px;
      padding-bottom: 6px;
      border-bottom: 2px solid #2a2a4a;
    }

    .tier-badge {
      display: inline-block;
      padding: 3px 10px;
      border-radius: 4px;
      font-weight: 700;
      font-size: 0.8rem;
      letter-spacing: 0.05em;
      text-transform: uppercase;
    }

    .tier-P1 .tier-badge { background: #7f1d1d; color: #fca5a5; border: 1px solid #ef4444; }
    .tier-P2 .tier-badge { background: #7c2d12; color: #fdba74; border: 1px solid #f97316; }
    .tier-P3 .tier-badge { background: #713f12; color: #fde68a; border: 1px solid #eab308; }
    .tier-P4 .tier-badge { background: #1e3a5f; color: #93c5fd; border: 1px solid #3b82f6; }
    .tier-P5 .tier-badge { background: #2d2d2d; color: #9ca3af; border: 1px solid #6b7280; }

    .tier-label {
      font-size: 1rem;
      font-weight: 600;
      color: #ccc;
    }

    .tier-count {
      font-size: 0.8rem;
      color: #666;
    }

    /* Table */
    .patch-table {
      width: 100%;
      border-collapse: collapse;
      table-layout: fixed;
    }

    .patch-table th {
      text-align: left;
      padding: 8px 8px;
      background: #16213e;
      color: #7a8fa6;
      font-size: 0.75rem;
      font-weight: 600;
      text-transform: uppercase;
      letter-spacing: 0.06em;
      border-bottom: 1px solid #2a2a4a;
      white-space: nowrap;
    }

    .patch-table td {
      padding: 7px 8px;
      border-bottom: 1px solid #1f1f3a;
      vertical-align: top;
      overflow: hidden;
      text-overflow: ellipsis;
    }

    .patch-table tr:last-child td { border-bottom: none; }
    .patch-table tr:hover td { background: rgba(255,255,255,0.03); }

    /* Column widths and alignment — .patch-table .col-* wins over .patch-table th (specificity 0,2,0 > 0,1,1) */
    .patch-table .col-num    { text-align: right;  color: #555; font-size: 0.78rem; }
    .patch-table .col-score  { text-align: right;  font-weight: 700; font-size: 0.9rem; }
    .patch-table .col-tier   { text-align: center; }
    .patch-table .col-ver    { text-align: center; color: #aaa; }
    .patch-table .col-age    { text-align: right;  color: #888; white-space: nowrap; }
    .patch-table .col-ci     { text-align: center; }
    .ci-pass { color: #34d399; font-weight: 700; font-size: 0.8rem; }
    .ci-fail { color: #f87171; font-weight: 700; font-size: 0.8rem; }
    .ci-none { color: #444; font-size: 0.8rem; }

    /* Score colors by tier */
    .tier-P1 .col-score { color: #f87171; }
    .tier-P2 .col-score { color: #fb923c; }
    .tier-P3 .col-score { color: #fbbf24; }
    .tier-P4 .col-score { color: #60a5fa; }
    .tier-P5 .col-score { color: #9ca3af; }

    tr.has-review td { background: rgba(20, 83, 45, 0.18); }
    tr.is-superseded td { background: rgba(127, 29, 29, 0.22); }
    tr:hover td { background: rgba(255,255,255,0.04) !important; }

    /* Inline tier badge in table */
    .badge {
      display: inline-block;
      padding: 1px 6px;
      border-radius: 3px;
      font-size: 0.72rem;
      font-weight: 700;
      letter-spacing: 0.03em;
    }

    .badge-P1 { background: #7f1d1d; color: #fca5a5; }
    .badge-P2 { background: #7c2d12; color: #fdba74; }
    .badge-P3 { background: #713f12; color: #fde68a; }
    .badge-P4 { background: #1e3a5f; color: #93c5fd; }
    .badge-P5 { background: #2d2d2d; color: #9ca3af; }

    /* Subject link */
    .subject-link {
      color: #c4d4e8;
      text-decoration: none;
      word-break: break-word;
      font-size: 1rem;
    }
    .subject-link:hover { color: #ffffff; text-decoration: underline; }

    /* Subject inline badges */
    .sbadge {
      display: inline-block;
      font-size: 0.68rem;
      padding: 0 4px;
      border-radius: 2px;
      margin-left: 4px;
      font-weight: 600;
      vertical-align: middle;
      white-space: nowrap;
    }
    .sbadge-stale    { background: #4a1d1d; color: #f87171; }
    .sbadge-rfc      { background: #431407; color: #fb923c; }
    .sbadge-series   { background: #1e3a5f; color: #93c5fd; }
    .sbadge-reviewed { background: #14532d; color: #86efac; }
    .sbadge-acked    { background: #134e4a; color: #5eead4; }
    .sbadge-review   { background: #312e81; color: #a5b4fc; }
    .sbadge-superseded { background: #7f1d1d; color: #fca5a5; }

    /* Empty state */
    .empty-row td {
      text-align: center;
      color: #444;
      padding: 16px;
      font-style: italic;
    }

    /* Summary */
    .summary {
      margin-top: 40px;
      padding: 20px 24px;
      background: #16213e;
      border: 1px solid #2a2a4a;
      border-radius: 8px;
      max-width: 480px;
    }

    .summary h2 {
      font-size: 0.9rem;
      font-weight: 600;
      color: #7a8fa6;
      text-transform: uppercase;
      letter-spacing: 0.06em;
      margin-bottom: 14px;
    }

    .summary-grid {
      display: grid;
      grid-template-columns: 1fr auto;
      gap: 6px 24px;
    }

    .summary-label { color: #aaa; }
    .summary-value { font-weight: 700; color: #fff; text-align: right; }
    .summary-value.warn { color: #f87171; }

    .refresh-note {
      margin-top: 16px;
      font-size: 0.75rem;
      color: #555;
    }

    /* Reasons tooltip area */
    .reasons {
      font-size: 0.72rem;
      color: #555;
      white-space: nowrap;
      overflow: hidden;
      text-overflow: ellipsis;
    }
  </style>
</head>
<body>

<h1>LTP Dashboard</h1>
<p class="subtitle">
  Fetched {{ page.total }} patches from
  <a href="https://patchwork.ozlabs.org/project/ltp/list/" target="_blank" rel="noopener">
    patchwork.ozlabs.org
  </a>
  &mdash; generated {{ page.generated_at }}
</p>

{% for head, rows in tiers %}
<div class="tier-section">
  <div class="tier-header tier-{{ head.tier_id }}">
    <span class="tier-badge">{{ head.tier_id }}</span>
    <span class="tier-label">{{ head.tier_label }}</span>
    <span class="tier-count">({{ rows | length }} patches)</span>
  </div>

  <table class="patch-table">
    <colgroup>
      <col style="width:48px">
      <col style="width:68px">
      <col style="width:76px">
      <col style="width:52px">
      <col style="width:64px">
      {% if page.show_checks == "true" %}<col style="width:80px">{% endif %}
      <col>
    </colgroup>
    <thead>
      <tr>
        <th class="col-num">#</th>
        <th class="col-score">Score</th>
        <th class="col-tier">Tier</th>
        <th class="col-ver">Ver</th>
        <th class="col-age">Age</th>
        {% if page.show_checks == "true" %}<th class="col-ci">CI</th>{% endif %}
        <th>Subject</th>
      </tr>
    </thead>
    <tbody>
      {% if rows | length == 0 %}
      <tr class="empty-row">
        <td colspan="{{ 7 if page.show_checks == "true" else 6 }}">No patches in this tier</td>
      </tr>
      {% else %}
      {% for p in rows %}
      <tr class="tier-{{ p.tier }}{% if p.reviewed != "0" or p.acked != "0" %} has-review{% endif %}{% if p.superseded == "true" %} is-superseded{% endif %}">
        <td class="col-num">{{ p.num }}</td>
        <td class="col-score">{{ p.score }}</td>
        <td class="col-tier"><span class="badge badge-{{ p.tier }}">{{ p.tier }}</span></td>
        <td class="col-ver">v{{ p.version }}</td>
        <td class="col-age">{{ p.days }}d</td>
        {% if page.show_checks == "true" %}
        <td class="col-ci">
          {% if p.checks_total == "0" %}<span class="ci-none">—</span>
          {% elif p.checks_passed == p.checks_total %}<span class="ci-pass">{{ p.checks_passed }}/{{ p.checks_total }}</span>
          {% else %}<span class="ci-fail">{{ p.checks_passed }}/{{ p.checks_total }}</span>
          {% endif %}
        </td>
        {% endif %}
        <td>
          <a class="subject-link" href="{{ p.url }}" target="_blank" rel="noopener">{{ p.name }}</a>
          {% if p.days | int > 60 %}<span class="sbadge sbadge-stale">Stale</span>{% endif %}
          {% if p.rfc == "true" %}<span class="sbadge sbadge-rfc">RFC</span>{% endif %}
          {% if p.series_size | int > 5 %}<span class="sbadge sbadge-series">SERIES {{ p.series_size }}</span>{% endif %}
          {% if p.state == "under-review" %}<span class="sbadge sbadge-review">Under Review</span>{% endif %}
          {% if p.reviewed != "0" %}<span class="sbadge sbadge-reviewed">Reviewed-by</span>{% endif %}
          {% if p.acked != "0" %}<span class="sbadge sbadge-acked">Acked-by</span>{% endif %}
          {% if p.superseded == "true" %}<span class="sbadge sbadge-superseded">Superseded</span>{% endif %}
          <div class="reasons">{{ p.reasons }}</div>
        </td>
      </tr>
      {% endfor %}
      {% endif %}
    </tbody>
  </table>
</div>
{% endfor %}

<div class="summary">
  <h2>Summary</h2>
  <div class="summary-grid">
    <span class="summary-label">Total patches evaluated</span>
    <span class="summary-value">{{ page.total }}</span>
    <span class="summary-label">Patches &gt; 60 days old (stale)</span>
    <span class="summary-value {% if page.stale_count != "0" %}warn{% endif %}">{{ page.stale_count }}</span>
    <span class="summary-label">RFC patches</span>
    <span class="summary-value">{{ page.rfc_count }}</span>
    <span class="summary-label">With Reviewed-by (ready)</span>
    <span class="summary-value">{{ page.reviewed_count }}</span>
    <span class="summary-label">Superseded patches</span>
    <span class="summary-value {% if page.superseded_count != "0" %}warn{% endif %}">{{ page.superseded_count }}</span>
  </div>
  <p class="refresh-note">Page auto-refreshes every 5 minutes.</p>
</div>

</body>
</html>
"#;

/// Text fields as (name, text) pairs.
pub open spec fn field_views(f: Seq<(&'static str, String)>) -> Seq<(Seq<char>, Seq<char>)> {
    f.map_values(|e: (&'static str, String)| (e.0@, e.1@))
}

/// The fields of each row.
pub open spec fn rows_views(rows: Seq<Vec<(&'static str, String)>>) -> Seq<
    Seq<(Seq<char>, Seq<char>)>,
> {
    rows.map_values(|r: Vec<(&'static str, String)>| field_views(r@))
}

/// The fields of each tier and of its rows.
pub open spec fn tier_views(
    t: Seq<(Vec<(&'static str, String)>, Vec<Vec<(&'static str, String)>>)>,
) -> Seq<(Seq<(Seq<char>, Seq<char>)>, Seq<Seq<(Seq<char>, Seq<char>)>>)> {
    t.map_values(
        |e: (Vec<(&'static str, String)>, Vec<Vec<(&'static str, String)>>)|
            (field_views(e.0@), rows_views(e.1@)),
    )
}

/// What minijinja renders (`Environment::add_template` under the name
/// `index.html`, so with HTML escaping, then `get_template` and
/// `Template::render`) from the template `template` with a context of two
/// values: `page`, a map of the fields `page`, and `tiers`, a list holding for
/// each tier a pair of the map of its fields and the list of its rows' maps.
/// `None` when minijinja reports an error.
pub uninterp spec fn minijinja_render(
    template: Seq<char>,
    page: Seq<(Seq<char>, Seq<char>)>,
    tiers: Seq<(Seq<(Seq<char>, Seq<char>)>, Seq<Seq<(Seq<char>, Seq<char>)>>)>,
) -> Option<Seq<char>>;

/// minijinja's `Environment::add_template`, `get_template` and
/// `Template::render`, with the context built from the field lists by
/// `Value::from_iter`. The contract claims that the output, or the failure, is
/// what `minijinja_render` names for the template and the fields; the text of
/// an error is minijinja's message and is not described.
#[verifier::external_body]
fn render_template(
    template: &str,
    page: &Vec<(&'static str, String)>,
    tiers: &Vec<(Vec<(&'static str, String)>, Vec<Vec<(&'static str, String)>>)>,
) -> (r: Result<String, String>)
    ensures
        match r {
            Ok(s) => minijinja_render(template@, field_views(page@), tier_views(tiers@)) == Some(s@),
            Err(_) => minijinja_render(template@, field_views(page@), tier_views(tiers@)) is None,
        },
{
    let map = |f: &Vec<_>| Value::from_iter(f.iter().cloned());
    let rows = tiers.iter().map(|(h, r)| [map(h), Value::from_iter(r.iter().map(map))]);
    let ctx = Value::from_iter([("page", map(page)), ("tiers", Value::from_iter(rows))]);
    let mut env = minijinja::Environment::new();
    let added = env.add_template("index.html", template);
    added.and_then(|_| env.get_template("index.html")?.render(ctx)).map_err(|e| e.to_string())
}

/// A flag as the template reads it.
pub open spec fn bool_text(b: bool) -> Seq<char> {
    if b {
        "true"@
    } else {
        "false"@
    }
}

/// The page's own fields.
pub open spec fn page_fields(v: IndexView) -> Seq<(Seq<char>, Seq<char>)> {
    seq![
        ("total"@, nat_decimal(v.total as nat)),
        ("stale_count"@, nat_decimal(v.stale_count as nat)),
        ("rfc_count"@, nat_decimal(v.rfc_count as nat)),
        ("reviewed_count"@, nat_decimal(v.reviewed_count as nat)),
        ("superseded_count"@, nat_decimal(v.superseded_count as nat)),
        ("generated_at"@, v.generated_at@),
        ("show_checks"@, bool_text(v.show_checks)),
    ]
}

/// The fields of a row.
pub open spec fn row_fields(r: PatchRow) -> Seq<(Seq<char>, Seq<char>)> {
    seq![
        ("num"@, nat_decimal(r.num as nat)),
        ("score"@, int_decimal(r.score as int)),
        ("tier"@, r.tier@),
        ("tier_label"@, r.tier_label@),
        ("version"@, nat_decimal(r.version as nat)),
        ("days"@, int_decimal(r.days as int)),
        ("state"@, r.state@),
        ("rfc"@, bool_text(r.rfc)),
        ("series_size"@, nat_decimal(r.series_size as nat)),
        ("reviewed"@, nat_decimal(r.reviewed as nat)),
        ("acked"@, nat_decimal(r.acked as nat)),
        ("superseded"@, bool_text(r.superseded)),
        ("name"@, r.name@),
        ("url"@, r.url@),
        ("reasons"@, r.reasons@),
        ("checks_passed"@, nat_decimal(r.checks_passed as nat)),
        ("checks_total"@, nat_decimal(r.checks_total as nat)),
    ]
}

/// The fields of each row of a tier.
pub open spec fn rows_fields(rows: Seq<PatchRow>) -> Seq<Seq<(Seq<char>, Seq<char>)>> {
    rows.map_values(|r: PatchRow| row_fields(r))
}

/// The fields of each tier of the page, with its rows.
pub open spec fn page_tiers(v: IndexView) -> Seq<
    (Seq<(Seq<char>, Seq<char>)>, Seq<Seq<(Seq<char>, Seq<char>)>>),
> {
    v.tiers@.map_values(
        |t: TierView|
            (seq![("tier_id"@, t.tier_id@), ("tier_label"@, t.tier_label@)], rows_fields(t.patches@)),
    )
}

fn push_field(f: &mut Vec<(&'static str, String)>, k: &'static str, v: String)
    ensures
        field_views(final(f)@) == field_views(old(f)@).push((k@, v@)),
{
    f.push((k, v));
    assert(field_views(f@) =~= field_views(old(f)@).push((k@, v@)));
}

fn count_text(n: u64) -> (r: String)
    ensures
        r@ == nat_decimal(n as nat),
{
    decimal(n)
}

fn signed_text(n: i64) -> (r: String)
    ensures
        r@ == int_decimal(n as int),
{
    let mut s = String::new();
    push_signed(&mut s, n);
    s
}

fn flag_text(b: bool) -> (r: String)
    ensures
        r@ == bool_text(b),
{
    if b {
        owned("true")
    } else {
        owned("false")
    }
}

fn page_fields_of(v: &IndexView) -> (f: Vec<(&'static str, String)>)
    ensures
        field_views(f@) == page_fields(*v),
{
    let mut f: Vec<(&'static str, String)> = Vec::new();
    assert(field_views(f@) =~= Seq::empty());
    push_field(&mut f, "total", count_text(v.total as u64));
    push_field(&mut f, "stale_count", count_text(v.stale_count as u64));
    push_field(&mut f, "rfc_count", count_text(v.rfc_count as u64));
    push_field(&mut f, "reviewed_count", count_text(v.reviewed_count as u64));
    push_field(&mut f, "superseded_count", count_text(v.superseded_count as u64));
    push_field(&mut f, "generated_at", v.generated_at.clone());
    push_field(&mut f, "show_checks", flag_text(v.show_checks));
    assert(field_views(f@) =~= page_fields(*v));
    f
}

fn row_fields_of(r: &PatchRow) -> (f: Vec<(&'static str, String)>)
    ensures
        field_views(f@) == row_fields(*r),
{
    let mut f: Vec<(&'static str, String)> = Vec::new();
    assert(field_views(f@) =~= Seq::empty());
    push_field(&mut f, "num", count_text(r.num as u64));
    push_field(&mut f, "score", signed_text(r.score as i64));
    push_field(&mut f, "tier", owned(r.tier));
    push_field(&mut f, "tier_label", owned(r.tier_label));
    push_field(&mut f, "version", count_text(r.version as u64));
    push_field(&mut f, "days", signed_text(r.days));
    push_field(&mut f, "state", r.state.clone());
    push_field(&mut f, "rfc", flag_text(r.rfc));
    push_field(&mut f, "series_size", count_text(r.series_size as u64));
    push_field(&mut f, "reviewed", count_text(r.reviewed as u64));
    push_field(&mut f, "acked", count_text(r.acked as u64));
    push_field(&mut f, "superseded", flag_text(r.superseded));
    push_field(&mut f, "name", r.name.clone());
    push_field(&mut f, "url", r.url.clone());
    push_field(&mut f, "reasons", r.reasons.clone());
    push_field(&mut f, "checks_passed", count_text(r.checks_passed as u64));
    push_field(&mut f, "checks_total", count_text(r.checks_total as u64));
    assert(field_views(f@) =~= row_fields(*r));
    f
}

fn tier_fields_of(t: &TierView) -> (r: (Vec<(&'static str, String)>, Vec<Vec<(&'static str, String)>>))
    ensures
        field_views(r.0@) == seq![("tier_id"@, t.tier_id@), ("tier_label"@, t.tier_label@)],
        rows_views(r.1@) == rows_fields(t.patches@),
{
    let mut head: Vec<(&'static str, String)> = Vec::new();
    assert(field_views(head@) =~= Seq::empty());
    push_field(&mut head, "tier_id", owned(t.tier_id));
    push_field(&mut head, "tier_label", owned(t.tier_label));
    let mut rows: Vec<Vec<(&'static str, String)>> = Vec::new();
    for i in 0..t.patches.len()
        invariant
            rows@.len() == i,
            rows_views(rows@) == rows_fields(t.patches@.take(i as int)),
    {
        let f = row_fields_of(&t.patches[i]);
        let ghost prev = rows@;
        let ghost fv = f;
        rows.push(f);
        proof {
            assert(rows@ == prev.push(fv));
            let ps = t.patches@;
            assert forall|j: int| 0 <= j < i + 1 implies #[trigger] rows_views(rows@)[j]
                == rows_fields(ps.take(i + 1))[j] by {
                if j < i {
                    assert(rows@[j] == prev[j]);
                    assert(rows_views(prev)[j] == rows_fields(ps.take(i as int))[j]);
                    assert(ps.take(i + 1)[j] == ps.take(i as int)[j]);
                } else {
                    assert(rows@[j] == fv);
                    assert(ps.take(i + 1)[j] == ps[i as int]);
                }
            }
            assert(rows_views(rows@) =~= rows_fields(ps.take(i + 1)));
        }
    }
    assert(t.patches@.take(t.patches.len() as int) =~= t.patches@);
    (head, rows)
}

fn page_tiers_of(v: &IndexView) -> (r: Vec<(Vec<(&'static str, String)>, Vec<Vec<(&'static str, String)>>)>)
    ensures
        tier_views(r@) == page_tiers(*v),
{
    let mut r: Vec<(Vec<(&'static str, String)>, Vec<Vec<(&'static str, String)>>)> = Vec::new();
    let ghost tv = v.tiers@;
    for i in 0..v.tiers.len()
        invariant
            tv == v.tiers@,
            r@.len() == i,
            tier_views(r@) == tv.take(i as int).map_values(
                |t: TierView|
                    (seq![("tier_id"@, t.tier_id@), ("tier_label"@, t.tier_label@)], rows_fields(t.patches@)),
            ),
    {
        let e = tier_fields_of(&v.tiers[i]);
        let ghost prev = r@;
        let ghost ev = e;
        r.push(e);
        proof {
            assert(r@ == prev.push(ev));
            let want = tv.take(i + 1).map_values(
                |t: TierView|
                    (seq![("tier_id"@, t.tier_id@), ("tier_label"@, t.tier_label@)], rows_fields(t.patches@)),
            );
            let had = tv.take(i as int).map_values(
                |t: TierView|
                    (seq![("tier_id"@, t.tier_id@), ("tier_label"@, t.tier_label@)], rows_fields(t.patches@)),
            );
            assert forall|j: int| 0 <= j < i + 1 implies #[trigger] tier_views(r@)[j] == want[j] by {
                if j < i {
                    assert(r@[j] == prev[j]);
                    assert(tier_views(prev)[j] == had[j]);
                    assert(tv.take(i + 1)[j] == tv.take(i as int)[j]);
                } else {
                    assert(r@[j] == ev);
                    assert(tv.take(i + 1)[j] == tv[i as int]);
                }
            }
            assert(tier_views(r@) =~= want);
        }
    }
    assert(tv.take(tv.len() as int) =~= tv);
    r
}

/// Renders the web page for the given data: the page view that `index_view`
/// builds, shown through `INDEX_TEMPLATE`.
pub fn render_index(data: &TemplateData<'_>) -> (r: Result<String, String>)
    requires
        data.patches@.len() < usize::MAX,
    ensures
        exists|v: IndexView|
            #[trigger] index_view_of(v, *data) && match r {
                Ok(s) => minijinja_render(INDEX_TEMPLATE@, page_fields(v), page_tiers(v)) == Some(s@),
                Err(_) => minijinja_render(INDEX_TEMPLATE@, page_fields(v), page_tiers(v)) is None,
            },
{
    let v = index_view(data);
    let page = page_fields_of(&v);
    let tiers = page_tiers_of(&v);
    let r = render_template(INDEX_TEMPLATE, &page, &tiers);
    assert(index_view_of(v, *data));
    r
}

} // verus!
