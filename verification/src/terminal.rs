//! The review queue as coloured text for a terminal.
use vstd::prelude::*;
use vstd::utf8::encode_utf8;

use crate::patchwork::{count_of, StateCounts};
use crate::scoring::{notes_spec, tier_id, ScoredPatch};
use crate::text::{
    append, chars_of, int_decimal, lemma_encode_utf8_concat, nat_decimal, owned, pad_left,
    pad_left_spec, pad_right, pad_right_spec, push_decimal, push_signed, repeat_char, repeated,
    same_text, string_of_range,
};

verus! {

// ANSI codes
pub const BOLD: &'static str = "\x1b[1m";

pub const DIM: &'static str = "\x1b[2m";

pub const RESET: &'static str = "\x1b[0m";

pub const RED: &'static str = "\x1b[91m";

pub const ORANGE: &'static str = "\x1b[38;5;208m";

pub const YELLOW: &'static str = "\x1b[93m";

pub const BLUE: &'static str = "\x1b[94m";

pub const WHITE: &'static str = "\x1b[97m";

pub const GRAY: &'static str = "\x1b[90m";

/// The colour of a tier.
pub open spec fn tier_color_spec(tier: Seq<char>) -> Seq<char> {
    if tier == "P1"@ {
        RED@
    } else if tier == "P2"@ {
        ORANGE@
    } else if tier == "P3"@ {
        YELLOW@
    } else if tier == "P4"@ {
        BLUE@
    } else if tier == "P5"@ {
        GRAY@
    } else {
        WHITE@
    }
}

/// The heading of a tier.
pub open spec fn tier_label_spec(tier: Seq<char>) -> Seq<char> {
    if tier == "P1"@ {
        "🔴 URGENT"@
    } else if tier == "P2"@ {
        "🟠 HIGH"@
    } else if tier == "P3"@ {
        "🟡 NORMAL"@
    } else if tier == "P4"@ {
        "🔵 LOW"@
    } else {
        "⚪ DEFER"@
    }
}

pub fn tier_color(tier: &str) -> (r: &'static str)
    ensures
        r@ == tier_color_spec(tier@),
{
    if same_text(tier, "P1") {
        RED
    } else if same_text(tier, "P2") {
        ORANGE
    } else if same_text(tier, "P3") {
        YELLOW
    } else if same_text(tier, "P4") {
        BLUE
    } else if same_text(tier, "P5") {
        GRAY
    } else {
        WHITE
    }
}

pub fn tier_label(tier: &str) -> (r: &'static str)
    ensures
        r@ == tier_label_spec(tier@),
{
    if same_text(tier, "P1") {
        "🔴 URGENT"
    } else if same_text(tier, "P2") {
        "🟠 HIGH"
    } else if same_text(tier, "P3") {
        "🟡 NORMAL"
    } else if same_text(tier, "P4") {
        "🔵 LOW"
    } else {
        "⚪ DEFER"
    }
}

// ---------------------------------------------------------------------------
// Subjects cut to the column width
// ---------------------------------------------------------------------------

/// The length of `s` in UTF-8 bytes (`str::len`).
pub open spec fn byte_len(s: Seq<char>) -> nat {
    encode_utf8(s).len()
}

/// Byte offset `n` of `s` falls between two characters.
pub open spec fn is_char_boundary_at(s: Seq<char>, n: nat) -> bool {
    exists|k: int| 0 <= k <= s.len() && #[trigger] byte_len(s.take(k)) == n
}

/// The characters of the first `n` bytes of `s` (`&s[..n]`).
pub open spec fn byte_prefix(s: Seq<char>, n: nat) -> Seq<char> {
    s.take(choose|k: int| 0 <= k <= s.len() && #[trigger] byte_len(s.take(k)) == n)
}

/// The subject as shown in a column `w` bytes wide: cut to `w - 1` bytes and
/// ended with an ellipsis when it is longer than `w` bytes.
pub open spec fn shown_name(name: Seq<char>, w: nat) -> Seq<char> {
    if byte_len(name) > w {
        byte_prefix(name, (w - 1) as nat) + "…"@
    } else {
        name
    }
}

/// The blanks that follow the subject in its column.
pub open spec fn name_padding(name: Seq<char>, w: nat) -> nat {
    if byte_len(name) > w {
        0
    } else {
        (w - byte_len(name)) as nat
    }
}

/// The subject can be cut where the column needs it (else `&name[..w - 1]`
/// would panic).
pub open spec fn name_cuttable(name: Seq<char>, w: nat) -> bool {
    byte_len(name) > w ==> is_char_boundary_at(name, (w - 1) as nat)
}

proof fn lemma_byte_len_take_step(s: Seq<char>, k: int)
    requires
        0 <= k < s.len(),
    ensures
        byte_len(s.take(k + 1)) == byte_len(s.take(k)) + encode_utf8(seq![s[k]]).len(),
        encode_utf8(seq![s[k]]).len() >= 1,
{
    assert(s.take(k + 1) =~= s.take(k) + seq![s[k]]);
    lemma_encode_utf8_concat(s.take(k), seq![s[k]]);
    let one = seq![s[k]];
    assert(one.drop_first() =~= Seq::<char>::empty());
    assert(encode_utf8(one.drop_first()) =~= Seq::<u8>::empty());
}

proof fn lemma_byte_len_take_increasing(s: Seq<char>, a: int, b: int)
    requires
        0 <= a < b <= s.len(),
    ensures
        byte_len(s.take(a)) < byte_len(s.take(b)),
    decreases b - a,
{
    lemma_byte_len_take_step(s, b - 1);
    if a < b - 1 {
        lemma_byte_len_take_increasing(s, a, b - 1);
    }
}

proof fn lemma_byte_len_whole(s: Seq<char>)
    ensures
        byte_len(s.take(s.len() as int)) == byte_len(s),
{
    assert(s.take(s.len() as int) =~= s);
}

/// The number of bytes UTF-8 uses for `c`.
fn utf8_width(c: char) -> (w: usize)
    ensures
        w == encode_utf8(seq![c]).len(),
{
    let ghost one = seq![c];
    assert(one.drop_first() =~= Seq::<char>::empty());
    assert(encode_utf8(one.drop_first()) =~= Seq::<u8>::empty());
    let u = c as u32;
    if u <= 0x7f {
        1
    } else if u <= 0x7ff {
        2
    } else if u <= 0xffff {
        3
    } else {
        4
    }
}

/// The number of leading characters of `cs` that make up its first `n` bytes.
fn chars_in_bytes(cs: &Vec<char>, n: usize) -> (k: usize)
    requires
        is_char_boundary_at(cs@, n as nat),
    ensures
        k <= cs.len(),
        byte_len(cs@.take(k as int)) == n,
        byte_prefix(cs@, n as nat) == cs@.take(k as int),
{
    let mut k: usize = 0;
    let mut acc: usize = 0;
    assert(cs@.take(0) =~= Seq::<char>::empty());
    let ghost target = choose|j: int| 0 <= j <= cs@.len() && #[trigger] byte_len(cs@.take(j)) == n;
    while k < cs.len() && acc < n && utf8_width(cs[k]) <= n - acc
        invariant
            k <= cs.len(),
            acc <= n,
            acc == byte_len(cs@.take(k as int)),
            0 <= target <= cs@.len(),
            byte_len(cs@.take(target)) == n,
            k <= target,
        decreases cs.len() - k,
    {
        proof {
            lemma_byte_len_take_step(cs@, k as int);
            if k + 1 > target {
                lemma_byte_len_take_increasing(cs@, target, k as int);
            }
        }
        acc = acc + utf8_width(cs[k]);
        k = k + 1;
    }
    proof {
        if (k as int) < target {
            lemma_byte_len_take_increasing(cs@, k as int, target);
            lemma_byte_len_take_step(cs@, k as int);
            if k + 1 < target {
                lemma_byte_len_take_increasing(cs@, k + 1, target);
            }
        }
    }
    k
}

/// The subject cut to its column, and the blanks that follow it.
fn subject_cell(name: &str, w: usize) -> (r: (String, usize))
    requires
        w >= 1,
        name_cuttable(name@, w as nat),
    ensures
        r.0@ == shown_name(name@, w as nat),
        r.1 == name_padding(name@, w as nat),
{
    let cs = chars_of(name);
    if crate::text::utf8_longer_than(name, w) {
        let k = chars_in_bytes(&cs, w - 1);
        let mut s = string_of_range(&cs, 0, k);
        append(&mut s, "…");
        (s, 0)
    } else {
        let n = utf8_length(&cs);
        (owned(name), w - n)
    }
}

/// The UTF-8 length of `cs`, when at most `usize::MAX`.
fn utf8_length(cs: &Vec<char>) -> (n: usize)
    requires
        byte_len(cs@) <= usize::MAX,
    ensures
        n == byte_len(cs@),
{
    let mut n: usize = 0;
    let mut k: usize = 0;
    assert(cs@.take(0) =~= Seq::<char>::empty());
    proof {
        lemma_byte_len_whole(cs@);
    }
    while k < cs.len()
        invariant
            k <= cs.len(),
            n == byte_len(cs@.take(k as int)),
            byte_len(cs@.take(cs.len() as int)) <= usize::MAX,
        decreases cs.len() - k,
    {
        proof {
            lemma_byte_len_take_step(cs@, k as int);
            if k + 1 < cs.len() {
                lemma_byte_len_take_increasing(cs@, k + 1, cs.len() as int);
            }
        }
        n = n + utf8_width(cs[k]);
        k = k + 1;
    }
    proof {
        lemma_byte_len_whole(cs@);
    }
    n
}

} // verus!

verus! {

// ---------------------------------------------------------------------------
// The queue
// ---------------------------------------------------------------------------

/// The test for a patch of tier `tier`.
pub open spec fn tier_pred(tier: Seq<char>) -> spec_fn(ScoredPatch) -> bool {
    |p: ScoredPatch| p.tier@ == tier
}

/// The patches of tier `tier`, in order.
pub open spec fn tier_group(ps: Seq<ScoredPatch>, tier: Seq<char>) -> Seq<ScoredPatch> {
    ps.filter(tier_pred(tier))
}

/// The width of the subject column.
pub open spec fn subject_width(show_checks: bool) -> nat {
    if show_checks {
        52
    } else {
        58
    }
}

/// The CI column of a patch: passed/total, coloured by outcome.
pub open spec fn checks_cell(p: ScoredPatch) -> Seq<char> {
    let frac = nat_decimal(p.checks_passed as nat) + "/"@ + nat_decimal(p.checks_total as nat);
    if p.checks_total == 0 {
        GRAY@ + pad_left_spec("—"@, 5) + RESET@
    } else if p.checks_passed == p.checks_total {
        YELLOW@ + pad_left_spec(frac, 5) + RESET@
    } else if p.checks_failed > 0 {
        RED@ + pad_left_spec(frac, 5) + RESET@
    } else {
        YELLOW@ + pad_left_spec(frac, 5) + RESET@
    }
}

/// The subject column: a terminal hyperlink to the patch, then padding.
pub open spec fn subject_link(p: ScoredPatch, w: nat) -> Seq<char> {
    "\x1b]8;;"@ + p.url@ + "\x1b\\"@ + shown_name(p.name@, w) + "\x1b]8;;\x1b\\"@ + repeat_char(
        ' ',
        name_padding(p.name@, w),
    )
}

/// Row `num` of the queue, for patch `p` of a tier coloured `color`.
#[verifier::opaque]
pub open spec fn queue_row(p: ScoredPatch, num: nat, color: Seq<char>, show_checks: bool) -> Seq<
    char,
> {
    "  "@ + pad_left_spec(nat_decimal(num), 3) + "  "@ + (color + BOLD@ + pad_left_spec(
        int_decimal(p.score as int),
        5,
    ) + RESET@) + "  "@ + pad_left_spec("v"@ + nat_decimal(p.version as nat), 3) + "  "@
        + pad_left_spec(int_decimal(p.days as int) + "d"@, 5) + (if show_checks {
        "  "@ + checks_cell(p)
    } else {
        Seq::empty()
    }) + "  "@ + subject_link(p, subject_width(show_checks)) + "  "@ + GRAY@ + notes_spec(p)
        + RESET@
}

/// The rows of a tier's patches, numbered from `first`, one line each.
pub open spec fn queue_rows(g: Seq<ScoredPatch>, first: nat, color: Seq<char>, show_checks: bool) -> Seq<
    char,
>
    decreases g.len(),
{
    if g.len() == 0 {
        Seq::empty()
    } else {
        queue_rows(g.drop_last(), first, color, show_checks) + queue_row(
            g.last(),
            (first + g.len() - 1) as nat,
            color,
            show_checks,
        ) + "\n"@
    }
}

/// The column headings of a tier's table.
pub open spec fn header_line(show_checks: bool) -> Seq<char> {
    BOLD@ + "  "@ + pad_left_spec("#"@, 3) + "  "@ + pad_left_spec("Score"@, 5) + "  "@
        + pad_left_spec("Ver"@, 3) + "  "@ + pad_left_spec("Age"@, 5) + (if show_checks {
        "  "@ + pad_left_spec("CI"@, 5)
    } else {
        Seq::empty()
    }) + "  "@ + pad_right_spec("Subject"@, subject_width(show_checks)) + "  Notes"@ + RESET@
}

/// The rule under the column headings.
pub open spec fn separator_line(show_checks: bool) -> Seq<char> {
    GRAY@ + "  "@ + repeat_char('─', 3) + "  "@ + repeat_char('─', 5) + "  "@ + repeat_char('─', 3)
        + "  "@ + repeat_char('─', 5) + (if show_checks {
        "  "@ + repeat_char('─', 5)
    } else {
        Seq::empty()
    }) + "  "@ + repeat_char('─', subject_width(show_checks)) + "  "@ + repeat_char('─', 22)
        + RESET@
}

/// The section of tier `tier`, its rows numbered from `first`.
#[verifier::opaque]
pub open spec fn tier_section(ps: Seq<ScoredPatch>, tier: Seq<char>, first: nat, show_checks: bool) -> Seq<
    char,
> {
    let g = tier_group(ps, tier);
    let color = tier_color_spec(tier);
    let head = "\n"@ + color + BOLD@ + tier_label_spec(tier) + RESET@ + "  "@ + GRAY@ + "("@
        + nat_decimal(g.len()) + ")"@ + RESET@ + "\n"@ + "\n"@;
    if g.len() == 0 {
        head + "  "@ + DIM@ + "None"@ + RESET@ + "\n"@
    } else {
        head + header_line(show_checks) + "\n"@ + separator_line(show_checks) + "\n"@ + queue_rows(
            g,
            first,
            color,
            show_checks,
        )
    }
}

/// The sections of tiers `P1` up to `P{n}`, rows numbered on from 1.
pub open spec fn tier_sections(ps: Seq<ScoredPatch>, n: int, show_checks: bool) -> Seq<char>
    decreases n,
{
    if n <= 0 {
        Seq::empty()
    } else {
        tier_sections(ps, n - 1, show_checks) + tier_section(
            ps,
            tier_id(n),
            1 + rows_before(ps, n),
            show_checks,
        )
    }
}

/// The number of patches in tiers `P1` up to `P{n - 1}`.
pub open spec fn rows_before(ps: Seq<ScoredPatch>, n: int) -> nat
    decreases n,
{
    if n <= 1 {
        0
    } else {
        rows_before(ps, n - 1) + tier_group(ps, tier_id(n - 1)).len()
    }
}

/// The number of patches of `ps` that satisfy `f`.
pub open spec fn count_where(ps: Seq<ScoredPatch>, f: spec_fn(ScoredPatch) -> bool) -> nat {
    ps.filter(f).len()
}

/// Patches older than 60 days.
pub open spec fn stale_count(ps: Seq<ScoredPatch>) -> nat {
    count_where(ps, |p: ScoredPatch| p.days > 60)
}

/// RFC patches.
pub open spec fn rfc_count(ps: Seq<ScoredPatch>) -> nat {
    count_where(ps, |p: ScoredPatch| p.rfc)
}

/// Patches with at least one Reviewed-by.
pub open spec fn reviewed_count(ps: Seq<ScoredPatch>) -> nat {
    count_where(ps, |p: ScoredPatch| p.reviewed >= 1)
}

/// Patches marked superseded.
pub open spec fn superseded_count(ps: Seq<ScoredPatch>) -> nat {
    count_where(ps, |p: ScoredPatch| p.superseded)
}

/// The rule between the parts of the report.
pub open spec fn report_rule() -> Seq<char> {
    repeat_char('─', 80)
}

/// A summary line: label, then the number in bold.
pub open spec fn summary_line(label: Seq<char>, n: nat) -> Seq<char> {
    label + BOLD@ + nat_decimal(n) + RESET@
}

/// A warning after a summary line, when `n` is not zero.
pub open spec fn summary_warning(n: nat, warning: Seq<char>) -> Seq<char> {
    if n > 0 {
        "  "@ + RED@ + warning + RESET@
    } else {
        Seq::empty()
    }
}

/// The heading of the summary.
pub open spec fn summary_intro() -> Seq<char> {
    "\n"@ + report_rule() + "\n"@ + "\n"@ + BOLD@ + "Summary"@ + RESET@ + "\n"@ + "\n"@
}

/// The summary at the end of the report.
pub open spec fn summary_text(ps: Seq<ScoredPatch>) -> Seq<char> {
    summary_intro() + summary_line("  Total patches evaluated:           "@, ps.len()) + "\n"@
        + summary_line("  Patches > 60 days old:             "@, stale_count(ps))
        + summary_warning(stale_count(ps), "← needs attention"@) + "\n"@ + summary_line(
        "  RFC patches:                       "@,
        rfc_count(ps),
    ) + "\n"@ + summary_line("  Patches with Reviewed-by (ready):  "@, reviewed_count(ps))
        + "\n"@ + summary_line("  Superseded patches:                "@, superseded_count(ps))
        + summary_warning(superseded_count(ps), "← older versions"@) + "\n"@ + "\n"@
}

/// The heading of the report.
pub open spec fn report_head(
    ps: Seq<ScoredPatch>,
    counts: Map<Seq<char>, usize>,
    today: Seq<char>,
) -> Seq<char> {
    "\n"@ + BOLD@ + "LTP Patch Review Queue — "@ + today + RESET@ + "\n"@ + "\n"@ + "Fetched "@
        + BOLD@ + nat_decimal(ps.len()) + RESET@ + " patches  (new: "@ + nat_decimal(count_of(counts, "new"@))
        + "  under-review: "@ + nat_decimal(count_of(counts, "under-review"@))
        + "  needs-review: "@ + nat_decimal(count_of(counts, "needs-review-ack"@)) + ")\n"@ + "\n"@
        + report_rule() + "\n"@
}

/// The whole terminal report of the queue `ps` on day `today`.
pub open spec fn queue_report(
    ps: Seq<ScoredPatch>,
    counts: Map<Seq<char>, usize>,
    show_checks: bool,
    today: Seq<char>,
) -> Seq<char> {
    report_head(ps, counts, today) + tier_sections(ps, 5, show_checks) + summary_text(ps)
}

/// Every subject of `ps` can be cut to the subject column.
pub open spec fn subjects_cuttable(ps: Seq<ScoredPatch>, show_checks: bool) -> bool {
    forall|i: int|
        0 <= i < ps.len() ==> name_cuttable(#[trigger] ps[i].name@, subject_width(show_checks))
}

} // verus!

verus! {

fn append_padded_left(out: &mut String, s: &str, width: usize)
    ensures
        final(out)@ == old(out)@ + pad_left_spec(s@, width as nat),
{
    let p = pad_left(s, width);
    append(out, p.as_str());
}

fn append_repeat(out: &mut String, c: char, n: usize)
    ensures
        final(out)@ == old(out)@ + repeat_char(c, n as nat),
{
    let r = repeated(c, n);
    append(out, r.as_str());
}

fn checks_cell_text(p: &ScoredPatch) -> (r: String)
    ensures
        r@ == checks_cell(*p),
{
    let mut frac = String::new();
    push_decimal(&mut frac, p.checks_passed as u64);
    append(&mut frac, "/");
    push_decimal(&mut frac, p.checks_total as u64);
    assert(frac@ =~= nat_decimal(p.checks_passed as nat) + "/"@ + nat_decimal(
        p.checks_total as nat,
    ));
    let (color, cell) = if p.checks_total == 0 {
        (GRAY, pad_left("—", 5))
    } else if p.checks_passed == p.checks_total {
        (YELLOW, pad_left(frac.as_str(), 5))
    } else if p.checks_failed > 0 {
        (RED, pad_left(frac.as_str(), 5))
    } else {
        (YELLOW, pad_left(frac.as_str(), 5))
    };
    let mut r = owned(color);
    append(&mut r, cell.as_str());
    append(&mut r, RESET);
    r
}

fn subject_link_text(p: &ScoredPatch, w: usize) -> (r: String)
    requires
        w >= 1,
        name_cuttable(p.name@, w as nat),
    ensures
        r@ == subject_link(*p, w as nat),
{
    let (name, pad) = subject_cell(p.name.as_str(), w);
    let mut r = owned("\x1b]8;;");
    append(&mut r, p.url.as_str());
    append(&mut r, "\x1b\\");
    append(&mut r, name.as_str());
    append(&mut r, "\x1b]8;;\x1b\\");
    append_repeat(&mut r, ' ', pad);
    r
}

fn append_row(out: &mut String, p: &ScoredPatch, num: usize, color: &str, show_checks: bool)
    requires
        name_cuttable(p.name@, subject_width(show_checks)),
    ensures
        final(out)@ == old(out)@ + queue_row(*p, num as nat, color@, show_checks) + "\n"@,
{
    let w: usize = if show_checks {
        52
    } else {
        58
    };
    let mut row = owned("  ");
    let n = crate::text::decimal(num as u64);
    append_padded_left(&mut row, n.as_str(), 3);
    append(&mut row, "  ");
    let mut score = String::new();
    push_signed(&mut score, p.score as i64);
    let mut score_cell = owned(color);
    append(&mut score_cell, BOLD);
    append_padded_left(&mut score_cell, score.as_str(), 5);
    append(&mut score_cell, RESET);
    append(&mut row, score_cell.as_str());
    append(&mut row, "  ");
    let mut ver = owned("v");
    push_decimal(&mut ver, p.version as u64);
    append_padded_left(&mut row, ver.as_str(), 3);
    append(&mut row, "  ");
    let mut age = String::new();
    push_signed(&mut age, p.days);
    append(&mut age, "d");
    append_padded_left(&mut row, age.as_str(), 5);
    if show_checks {
        append(&mut row, "  ");
        let cell = checks_cell_text(p);
        append(&mut row, cell.as_str());
    }
    append(&mut row, "  ");
    let link = subject_link_text(p, w);
    append(&mut row, link.as_str());
    append(&mut row, "  ");
    append(&mut row, GRAY);
    let notes = p.notes();
    append(&mut row, notes.as_str());
    append(&mut row, RESET);
    reveal(queue_row);
    assert(row@ =~= queue_row(*p, num as nat, color@, show_checks));
    append(out, row.as_str());
    append(out, "\n");
    assert(final(out)@ =~= old(out)@ + queue_row(*p, num as nat, color@, show_checks) + "\n"@);
}

/// The number of patches in tier `tier`.
pub(crate) fn group_size(ps: &[ScoredPatch], tier: &str) -> (n: usize)
    ensures
        n == tier_group(ps@, tier@).len(),
{
    let mut n: usize = 0;
    for i in 0..ps.len()
        invariant
            n == tier_group(ps@.take(i as int), tier@).len(),
            n <= i,
    {
        proof {
            reveal_with_fuel(Seq::<_>::filter, 1);
            assert(ps@.take(i + 1).drop_last() =~= ps@.take(i as int));
        }
        if same_text(ps[i].tier, tier) {
            n = n + 1;
        }
    }
    assert(ps@.take(ps.len() as int) =~= ps@);
    n
}

fn append_rows(
    out: &mut String,
    ps: &[ScoredPatch],
    tier: &str,
    first: usize,
    color: &str,
    show_checks: bool,
)
    requires
        subjects_cuttable(ps@, show_checks),
        first + tier_group(ps@, tier@).len() <= usize::MAX,
    ensures
        final(out)@ == old(out)@ + queue_rows(tier_group(ps@, tier@), first as nat, color@, show_checks),
{
    let ghost base = out@;
    let mut count: usize = 0;
    assert(tier_group(ps@.take(0), tier@) =~= Seq::<ScoredPatch>::empty());
    for i in 0..ps.len()
        invariant
            subjects_cuttable(ps@, show_checks),
            first + tier_group(ps@, tier@).len() <= usize::MAX,
            count == tier_group(ps@.take(i as int), tier@).len(),
            count <= i,
            out@ == base + queue_rows(tier_group(ps@.take(i as int), tier@), first as nat, color@, show_checks),
    {
        let ghost g = tier_group(ps@.take(i as int), tier@);
        proof {
            reveal_with_fuel(Seq::<_>::filter, 1);
            assert(ps@.take(i + 1).drop_last() =~= ps@.take(i as int));
            assert(ps@.take(i + 1).last() == ps@[i as int]);
            ps@.lemma_filter_take_len(tier_pred(tier@), i + 1);
        }
        if same_text(ps[i].tier, tier) {
            append_row(out, &ps[i], first + count, color, show_checks);
            proof {
                let ng = g.push(ps@[i as int]);
                assert(ng.drop_last() =~= g);
                assert(tier_group(ps@.take(i + 1), tier@) == ng);
            }
            count = count + 1;
        }
    }
    assert(ps@.take(ps.len() as int) =~= ps@);
}

fn header_text(show_checks: bool) -> (r: String)
    ensures
        r@ == header_line(show_checks),
{
    let w: usize = if show_checks {
        52
    } else {
        58
    };
    let mut r = owned(BOLD);
    append(&mut r, "  ");
    append_padded_left(&mut r, "#", 3);
    append(&mut r, "  ");
    append_padded_left(&mut r, "Score", 5);
    append(&mut r, "  ");
    append_padded_left(&mut r, "Ver", 3);
    append(&mut r, "  ");
    append_padded_left(&mut r, "Age", 5);
    if show_checks {
        append(&mut r, "  ");
        append_padded_left(&mut r, "CI", 5);
    }
    append(&mut r, "  ");
    let subj = pad_right("Subject", w);
    append(&mut r, subj.as_str());
    append(&mut r, "  Notes");
    append(&mut r, RESET);
    assert(r@ =~= header_line(show_checks));
    r
}

fn separator_text(show_checks: bool) -> (r: String)
    ensures
        r@ == separator_line(show_checks),
{
    let w: usize = if show_checks {
        52
    } else {
        58
    };
    let mut r = owned(GRAY);
    append(&mut r, "  ");
    append_repeat(&mut r, '─', 3);
    append(&mut r, "  ");
    append_repeat(&mut r, '─', 5);
    append(&mut r, "  ");
    append_repeat(&mut r, '─', 3);
    append(&mut r, "  ");
    append_repeat(&mut r, '─', 5);
    if show_checks {
        append(&mut r, "  ");
        append_repeat(&mut r, '─', 5);
    }
    append(&mut r, "  ");
    append_repeat(&mut r, '─', w);
    append(&mut r, "  ");
    append_repeat(&mut r, '─', 22);
    append(&mut r, RESET);
    assert(r@ =~= separator_line(show_checks));
    r
}

fn append_section(out: &mut String, ps: &[ScoredPatch], tier: &str, first: usize, show_checks: bool) -> (n: usize)
    requires
        subjects_cuttable(ps@, show_checks),
        first + tier_group(ps@, tier@).len() <= usize::MAX,
    ensures
        n == tier_group(ps@, tier@).len(),
        final(out)@ == old(out)@ + tier_section(ps@, tier@, first as nat, show_checks),
{
    let n = group_size(ps, tier);
    let color = tier_color(tier);
    let label = tier_label(tier);
    let mut head = owned("\n");
    append(&mut head, color);
    append(&mut head, BOLD);
    append(&mut head, label);
    append(&mut head, RESET);
    append(&mut head, "  ");
    append(&mut head, GRAY);
    append(&mut head, "(");
    push_decimal(&mut head, n as u64);
    append(&mut head, ")");
    append(&mut head, RESET);
    append(&mut head, "\n");
    append(&mut head, "\n");
    let ghost g = tier_group(ps@, tier@);
    let ghost h = "\n"@ + tier_color_spec(tier@) + BOLD@ + tier_label_spec(tier@) + RESET@ + "  "@ + GRAY@ + "("@
        + nat_decimal(g.len()) + ")"@ + RESET@ + "\n"@ + "\n"@;
    assert(head@ =~= h);
    reveal(tier_section);
    append(out, head.as_str());
    if n == 0 {
        append(out, "  ");
        append(out, DIM);
        append(out, "None");
        append(out, RESET);
        append(out, "\n");
        assert(final(out)@ =~= old(out)@ + tier_section(ps@, tier@, first as nat, show_checks));
    } else {
        let hl = header_text(show_checks);
        append(out, hl.as_str());
        append(out, "\n");
        let sl = separator_text(show_checks);
        append(out, sl.as_str());
        append(out, "\n");
        let ghost before_rows = out@;
        append_rows(out, ps, tier, first, color, show_checks);
        assert(final(out)@ =~= old(out)@ + tier_section(ps@, tier@, first as nat, show_checks));
    }
    n
}

} // verus!

verus! {

/// Tier `t` is one of `P1` up to `P{n - 1}`.
pub open spec fn in_first_tiers(t: Seq<char>, n: int) -> bool
    decreases n,
{
    if n <= 1 {
        false
    } else {
        t == tier_id(n - 1) || in_first_tiers(t, n - 1)
    }
}

proof fn lemma_filter_disjoint_add(
    ps: Seq<ScoredPatch>,
    a: spec_fn(ScoredPatch) -> bool,
    b: spec_fn(ScoredPatch) -> bool,
)
    requires
        forall|p: ScoredPatch| !(#[trigger] a(p) && b(p)),
    ensures
        ps.filter(|p: ScoredPatch| a(p) || b(p)).len() == ps.filter(a).len() + ps.filter(b).len(),
    decreases ps.len(),
{
    reveal_with_fuel(Seq::<_>::filter, 1);
    if ps.len() > 0 {
        lemma_filter_disjoint_add(ps.drop_last(), a, b);
    }
}

/// Adding a patch to a queue adds one to a summary count exactly when the
/// patch has that property: more than 60 days old, RFC, at least one
/// Reviewed-by (an Acked-by alone does not count), superseded.
pub proof fn law_summary_counts_push(ps: Seq<ScoredPatch>, x: ScoredPatch)
    ensures
        reviewed_count(ps.push(x)) == reviewed_count(ps) + if x.reviewed >= 1 {
            1nat
        } else {
            0nat
        },
        stale_count(ps.push(x)) == stale_count(ps) + if x.days > 60 {
            1nat
        } else {
            0nat
        },
        rfc_count(ps.push(x)) == rfc_count(ps) + if x.rfc {
            1nat
        } else {
            0nat
        },
        superseded_count(ps.push(x)) == superseded_count(ps) + if x.superseded {
            1nat
        } else {
            0nat
        },
        reviewed_count(Seq::empty()) == 0,
{
    reveal_with_fuel(Seq::<_>::filter, 1);
    assert(ps.push(x).drop_last() =~= ps);
    assert(Seq::<ScoredPatch>::empty().filter(|p: ScoredPatch| p.reviewed >= 1) =~= Seq::empty());
}

/// The ready count depends only on the Reviewed-by counts: two queues whose
/// patches have the same Reviewed-by counts, whatever their Acked-by counts,
/// have the same ready count.
pub proof fn law_reviewed_count_ignores_acked(ps: Seq<ScoredPatch>, qs: Seq<ScoredPatch>)
    requires
        ps.len() == qs.len(),
        forall|i: int| 0 <= i < ps.len() ==> (#[trigger] ps[i]).reviewed == qs[i].reviewed,
    ensures
        reviewed_count(ps) == reviewed_count(qs),
    decreases ps.len(),
{
    if ps.len() > 0 {
        let (pd, qd) = (ps.drop_last(), qs.drop_last());
        assert forall|i: int| 0 <= i < pd.len() implies (#[trigger] pd[i]).reviewed
            == qd[i].reviewed by {
            assert(pd[i] == ps[i]);
            assert(qd[i] == qs[i]);
        }
        law_reviewed_count_ignores_acked(pd, qd);
        law_summary_counts_push(pd, ps.last());
        law_summary_counts_push(qd, qs.last());
        assert(pd.push(ps.last()) =~= ps);
        assert(qd.push(qs.last()) =~= qs);
        assert(ps.last() == ps[ps.len() - 1]);
    }
}

proof fn lemma_tier_ids_distinct()
    ensures
        forall|i: int, j: int| 1 <= i < j <= 5 ==> tier_id(i) != tier_id(j),
{
    reveal_strlit("P1");
    reveal_strlit("P2");
    reveal_strlit("P3");
    reveal_strlit("P4");
    reveal_strlit("P5");
    assert("P1"@[1] != "P2"@[1]);
    assert("P1"@[1] != "P3"@[1]);
    assert("P1"@[1] != "P4"@[1]);
    assert("P1"@[1] != "P5"@[1]);
    assert("P2"@[1] != "P3"@[1]);
    assert("P2"@[1] != "P4"@[1]);
    assert("P2"@[1] != "P5"@[1]);
    assert("P3"@[1] != "P4"@[1]);
    assert("P3"@[1] != "P5"@[1]);
    assert("P4"@[1] != "P5"@[1]);
}

proof fn lemma_not_in_first_tiers(n: int)
    requires
        1 <= n <= 5,
    ensures
        !in_first_tiers(tier_id(n), n),
{
    lemma_tier_ids_distinct();
    reveal_with_fuel(in_first_tiers, 6);
}

pub proof fn lemma_rows_before(ps: Seq<ScoredPatch>, n: int)
    requires
        1 <= n <= 6,
    ensures
        rows_before(ps, n) == ps.filter(|p: ScoredPatch| in_first_tiers(p.tier@, n)).len(),
        rows_before(ps, n) <= ps.len(),
    decreases n,
{
    if n == 1 {
        reveal_with_fuel(Seq::<_>::filter, 1);
        lemma_filter_none(ps, |p: ScoredPatch| in_first_tiers(p.tier@, 1));
    } else {
        lemma_rows_before(ps, n - 1);
        lemma_not_in_first_tiers(n - 1);
        let a = |p: ScoredPatch| in_first_tiers(p.tier@, n - 1);
        let b = tier_pred(tier_id(n - 1));
        assert forall|p: ScoredPatch| !(#[trigger] a(p) && b(p)) by {
            if b(p) {
                assert(p.tier@ == tier_id(n - 1));
            }
        }
        lemma_filter_disjoint_add(ps, a, b);
        let both = |p: ScoredPatch| a(p) || b(p);
        let whole = |p: ScoredPatch| in_first_tiers(p.tier@, n);
        assert(both =~= whole);
    }
    ps.lemma_filter_len(|p: ScoredPatch| in_first_tiers(p.tier@, n));
}

proof fn lemma_filter_none(ps: Seq<ScoredPatch>, f: spec_fn(ScoredPatch) -> bool)
    requires
        forall|p: ScoredPatch| !#[trigger] f(p),
    ensures
        ps.filter(f).len() == 0,
    decreases ps.len(),
{
    reveal_with_fuel(Seq::<_>::filter, 1);
    if ps.len() > 0 {
        lemma_filter_none(ps.drop_last(), f);
    }
}

proof fn lemma_filter_all(ps: Seq<ScoredPatch>, f: spec_fn(ScoredPatch) -> bool)
    requires
        forall|i: int| 0 <= i < ps.len() ==> f(#[trigger] ps[i]),
    ensures
        ps.filter(f).len() == ps.len(),
    decreases ps.len(),
{
    reveal_with_fuel(Seq::<_>::filter, 1);
    if ps.len() > 0 {
        assert forall|i: int| 0 <= i < ps.drop_last().len() implies f(
            #[trigger] ps.drop_last()[i],
        ) by {
            assert(ps.drop_last()[i] == ps[i]);
        }
        lemma_filter_all(ps.drop_last(), f);
        assert(f(ps[ps.len() - 1]));
    }
}

/// Every patch whose tier is one of P1 to P5 is shown in exactly one tier
/// section: the five sections together hold as many rows as there are patches.
pub proof fn law_tier_sections_hold_every_patch(ps: Seq<ScoredPatch>)
    requires
        forall|i: int|
            0 <= i < ps.len() ==> exists|k: int|
                1 <= k <= 5 && (#[trigger] ps[i]).tier@ == tier_id(k),
    ensures
        rows_before(ps, 6) == ps.len(),
{
    lemma_rows_before(ps, 6);
    assert forall|i: int| 0 <= i < ps.len() implies in_first_tiers(
        (#[trigger] ps[i]).tier@,
        6,
    ) by {
        reveal_with_fuel(in_first_tiers, 6);
        let k = choose|k: int| 1 <= k <= 5 && ps[i].tier@ == tier_id(k);
        assert(ps[i].tier@ == tier_id(k));
    }
    lemma_filter_all(ps, |p: ScoredPatch| in_first_tiers(p.tier@, 6));
}

/// The identifier of tier `n` (1 to 5).
pub(crate) fn tier_for(n: usize) -> (r: &'static str)
    requires
        1 <= n <= 5,
    ensures
        r@ == tier_id(n as int),
{
    if n == 1 {
        "P1"
    } else if n == 2 {
        "P2"
    } else if n == 3 {
        "P3"
    } else if n == 4 {
        "P4"
    } else {
        "P5"
    }
}

/// The number of patches that satisfy a test.
pub(crate) fn count_stale(ps: &[ScoredPatch]) -> (n: usize)
    ensures
        n == stale_count(ps@),
{
    let mut n: usize = 0;
    for i in 0..ps.len()
        invariant
            n == count_where(ps@.take(i as int), |p: ScoredPatch| p.days > 60),
            n <= i,
    {
        proof {
            reveal_with_fuel(Seq::<_>::filter, 1);
            assert(ps@.take(i + 1).drop_last() =~= ps@.take(i as int));
        }
        if ps[i].days > 60 {
            n = n + 1;
        }
    }
    assert(ps@.take(ps.len() as int) =~= ps@);
    n
}

pub(crate) fn count_rfc(ps: &[ScoredPatch]) -> (n: usize)
    ensures
        n == rfc_count(ps@),
{
    let mut n: usize = 0;
    for i in 0..ps.len()
        invariant
            n == count_where(ps@.take(i as int), |p: ScoredPatch| p.rfc),
            n <= i,
    {
        proof {
            reveal_with_fuel(Seq::<_>::filter, 1);
            assert(ps@.take(i + 1).drop_last() =~= ps@.take(i as int));
        }
        if ps[i].rfc {
            n = n + 1;
        }
    }
    assert(ps@.take(ps.len() as int) =~= ps@);
    n
}

pub(crate) fn count_reviewed(ps: &[ScoredPatch]) -> (n: usize)
    ensures
        n == reviewed_count(ps@),
{
    let mut n: usize = 0;
    for i in 0..ps.len()
        invariant
            n == count_where(ps@.take(i as int), |p: ScoredPatch| p.reviewed >= 1),
            n <= i,
    {
        proof {
            reveal_with_fuel(Seq::<_>::filter, 1);
            assert(ps@.take(i + 1).drop_last() =~= ps@.take(i as int));
        }
        if ps[i].reviewed >= 1 {
            n = n + 1;
        }
    }
    assert(ps@.take(ps.len() as int) =~= ps@);
    n
}

pub(crate) fn count_superseded(ps: &[ScoredPatch]) -> (n: usize)
    ensures
        n == superseded_count(ps@),
{
    let mut n: usize = 0;
    for i in 0..ps.len()
        invariant
            n == count_where(ps@.take(i as int), |p: ScoredPatch| p.superseded),
            n <= i,
    {
        proof {
            reveal_with_fuel(Seq::<_>::filter, 1);
            assert(ps@.take(i + 1).drop_last() =~= ps@.take(i as int));
        }
        if ps[i].superseded {
            n = n + 1;
        }
    }
    assert(ps@.take(ps.len() as int) =~= ps@);
    n
}

fn append_summary_line(out: &mut String, label: &str, n: usize)
    ensures
        final(out)@ == old(out)@ + summary_line(label@, n as nat),
{
    append(out, label);
    append(out, BOLD);
    push_decimal(out, n as u64);
    append(out, RESET);
    assert(final(out)@ =~= old(out)@ + summary_line(label@, n as nat));
}

fn append_summary_warning(out: &mut String, n: usize, warning: &str)
    ensures
        final(out)@ == old(out)@ + summary_warning(n as nat, warning@),
{
    if n > 0 {
        append(out, "  ");
        append(out, RED);
        append(out, warning);
        append(out, RESET);
    }
    assert(final(out)@ =~= old(out)@ + summary_warning(n as nat, warning@));
}

fn summary_intro_text() -> (r: String)
    ensures
        r@ == summary_intro(),
{
    let rule = repeated('─', 80);
    let mut r = owned("\n");
    append(&mut r, rule.as_str());
    append(&mut r, "\n");
    append(&mut r, "\n");
    append(&mut r, BOLD);
    append(&mut r, "Summary");
    append(&mut r, RESET);
    append(&mut r, "\n");
    append(&mut r, "\n");
    assert(r@ =~= summary_intro());
    r
}

fn summary(ps: &[ScoredPatch]) -> (r: String)
    ensures
        r@ == summary_text(ps@),
{
    let stale = count_stale(ps);
    let superseded = count_superseded(ps);
    let mut r = summary_intro_text();
    append_summary_line(&mut r, "  Total patches evaluated:           ", ps.len());
    append(&mut r, "\n");
    append_summary_line(&mut r, "  Patches > 60 days old:             ", stale);
    append_summary_warning(&mut r, stale, "← needs attention");
    append(&mut r, "\n");
    append_summary_line(&mut r, "  RFC patches:                       ", count_rfc(ps));
    append(&mut r, "\n");
    append_summary_line(&mut r, "  Patches with Reviewed-by (ready):  ", count_reviewed(ps));
    append(&mut r, "\n");
    append_summary_line(&mut r, "  Superseded patches:                ", superseded);
    append_summary_warning(&mut r, superseded, "← older versions");
    append(&mut r, "\n");
    append(&mut r, "\n");
    r
}

fn report_heading(ps: &[ScoredPatch], counts: &StateCounts, today: &str) -> (r: String)
    ensures
        r@ == report_head(ps@, counts@, today@),
{
    let rule = repeated('─', 80);
    let mut r = owned("\n");
    append(&mut r, BOLD);
    append(&mut r, "LTP Patch Review Queue — ");
    append(&mut r, today);
    append(&mut r, RESET);
    append(&mut r, "\n");
    append(&mut r, "\n");
    append(&mut r, "Fetched ");
    append(&mut r, BOLD);
    push_decimal(&mut r, ps.len() as u64);
    append(&mut r, RESET);
    append(&mut r, " patches  (new: ");
    push_decimal(&mut r, counts.get("new") as u64);
    append(&mut r, "  under-review: ");
    push_decimal(&mut r, counts.get("under-review") as u64);
    append(&mut r, "  needs-review: ");
    push_decimal(&mut r, counts.get("needs-review-ack") as u64);
    append(&mut r, ")\n");
    append(&mut r, "\n");
    append(&mut r, rule.as_str());
    append(&mut r, "\n");
    assert(r@ =~= report_head(ps@, counts@, today@));
    r
}

/// The terminal report of the review queue: heading, one section per tier,
/// summary. `today` is the date shown in the heading.
pub fn render_queue(
    patches: &[ScoredPatch],
    counts: &StateCounts,
    show_checks: bool,
    today: &str,
) -> (r: String)
    requires
        subjects_cuttable(patches@, show_checks),
        patches@.len() < usize::MAX,
    ensures
        r@ == queue_report(patches@, counts@, show_checks, today@),
{
    let mut out = report_heading(patches, counts, today);
    let ghost head = out@;
    let mut shown: usize = 0;
    let mut n: usize = 1;
    proof {
        lemma_rows_before(patches@, 1);
    }
    assert(out@ =~= head + tier_sections(patches@, 0, show_checks));
    while n <= 5
        invariant
            1 <= n <= 6,
            subjects_cuttable(patches@, show_checks),
            patches@.len() < usize::MAX,
            shown == rows_before(patches@, n as int),
            shown <= patches@.len(),
            out@ == head + tier_sections(patches@, n - 1, show_checks),
        decreases 6 - n,
    {
        let tier = tier_for(n);
        proof {
            lemma_rows_before(patches@, n + 1);
        }
        let k = append_section(&mut out, patches, tier, shown + 1, show_checks);
        shown = shown + k;
        n = n + 1;
    }
    let s = summary(patches);
    append(&mut out, s.as_str());
    out
}

} // verus!
