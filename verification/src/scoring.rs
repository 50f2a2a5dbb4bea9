//! Priority scoring of patches.
//!
//! Each patch is read for a handful of signals (version, age, series size,
//! review tags, keywords in the subject, ...), each signal is worth a fixed
//! number of points, and the total decides the priority tier.
use vstd::prelude::*;

use crate::clock::{earliest_local_day, local_today, parse_rfc3339_utc_day, rfc3339_utc_day};
use crate::patchwork::{RawPatch, SeriesRef, Tags};
use crate::patterns::{
    capture, is_match, pattern_capture, pattern_matches, pattern_replace, replace_first,
};
use crate::text::{
    append, chars_of, concat, int_decimal, join, join_spec, nat_decimal, owned, parse_u32,
    parse_u32_spec, push_char, push_decimal, push_signed, push_with_sign, same_text,
    signed_decimal, trim, trimmed, views,
};

verus! {

// ---------------------------------------------------------------------------
// Subject patterns
// ---------------------------------------------------------------------------

/// A version tag such as `[PATCH v3]`; group 1 holds the number.
pub const VERSION_PATTERN: &'static str = r"(?i)\[(?:[^\]]*?[,\s])?v(\d+)";

/// An `RFC` tag inside the leading brackets.
pub const RFC_PATTERN: &'static str = r"(?i)\[(?:[^\]]*[,\s])?RFC(?:[,\s\]])";

/// A cover letter, numbered `0/N`.
pub const COVER_PATTERN: &'static str = r"(?i)\[(?:[^\]]*[,\s])?0+/\d+";

/// A series position `k/N`; group 2 holds `N`.
pub const SERIES_PATTERN: &'static str = r"(?i)\[(?:[^\]]*[,\s])?(\d+)/(\d+)";

/// Words that mark a fix.
pub const FIX_KEYWORDS_PATTERN: &'static str = r"(?i)\b(fix(es)?|bug|regression|broken|bugfix|revert)\b";

/// Words that mark a new or rewritten test.
pub const NEW_TEST_PATTERN: &'static str = r"(?i)\b(rewrite|new\s+test|add\s+test)\b";

/// Subjects that touch the test library.
pub const LIB_SUBJECT_PATTERN: &'static str = r"(?i)\b(tst_|safe_|lapi\b|lib:|configure\.ac\b)";

/// Subjects that touch the shared headers.
pub const INCLUDE_SUBJECT_PATTERN: &'static str = r"(?i)\b(lapi|include/|syscalls\.h)\b";

/// The leading bracketed tag of a subject with the blanks around it.
pub const SUBJECT_TAG_PATTERN: &'static str = r"^\s*\[.*?\]\s*";

// ---------------------------------------------------------------------------
// Point tables
// ---------------------------------------------------------------------------

/// Points for the patch version: v1=0, v2=15, v3=25, v4=35, v5 and up 40.
pub open spec fn version_points(version: u32) -> int {
    if version == 1 {
        0
    } else if version == 2 {
        15
    } else if version == 3 {
        25
    } else if version == 4 {
        35
    } else {
        40
    }
}

/// Points for the age in days, an inverted U that peaks at 31-60 days.
pub open spec fn age_points(days: i64) -> int {
    if days < 7 {
        0
    } else if days < 15 {
        10
    } else if days < 31 {
        20
    } else if days < 61 {
        45
    } else if days < 91 {
        35
    } else if days < 181 {
        20
    } else if days < 366 {
        10
    } else {
        5
    }
}

/// Points for the series size: single=10, up to 5=0, up to 10=-5, more=-15.
pub open spec fn series_points(size: u32) -> int {
    if size == 1 {
        10
    } else if size <= 5 {
        0
    } else if size <= 10 {
        -5
    } else {
        -15
    }
}

/// Points for the number of Signed-off-by trailers.
pub open spec fn sob_points(count: u32) -> int {
    if count <= 1 {
        0
    } else if count == 2 {
        5
    } else if count == 3 {
        10
    } else {
        15
    }
}

pub fn score_version(version: u32) -> (r: i32)
    ensures
        r == version_points(version),
{
    match version {
        1 => 0,
        2 => 15,
        3 => 25,
        4 => 35,
        _ => 40,
    }
}

/// Inverted-U curve: peaks at 31-60 days (genuinely neglected),
/// then decays for very old patches (likely stale).
pub fn score_age(days: i64) -> (r: i32)
    ensures
        r == age_points(days),
{
    if days < 7 {
        0
    } else if days < 15 {
        10
    } else if days < 31 {
        20
    } else if days < 61 {
        45
    } else if days < 91 {
        35
    } else if days < 181 {
        20
    } else if days < 366 {
        10
    } else {
        5
    }
}

pub fn score_series(size: u32) -> (r: i32)
    ensures
        r == series_points(size),
{
    if size == 1 {
        10
    } else if size <= 5 {
        0
    } else if size <= 10 {
        -5
    } else {
        -15
    }
}

pub fn score_sob(count: u32) -> (r: i32)
    ensures
        r == sob_points(count),
{
    match count {
        0 | 1 => 0,
        2 => 5,
        3 => 10,
        _ => 15,
    }
}

// ---------------------------------------------------------------------------
// Tiers
// ---------------------------------------------------------------------------

/// The tier a score falls in, 1 (most urgent) to 5.
pub open spec fn tier_rank(score: int) -> int {
    if score >= 80 {
        1
    } else if score >= 60 {
        2
    } else if score >= 40 {
        3
    } else if score >= 20 {
        4
    } else {
        5
    }
}

/// The identifier of tier `rank`: `P1` to `P5`.
pub open spec fn tier_id(rank: int) -> Seq<char> {
    if rank == 1 {
        "P1"@
    } else if rank == 2 {
        "P2"@
    } else if rank == 3 {
        "P3"@
    } else if rank == 4 {
        "P4"@
    } else {
        "P5"@
    }
}

/// The label of tier `rank`.
pub open spec fn tier_name(rank: int) -> Seq<char> {
    if rank == 1 {
        "URGENT"@
    } else if rank == 2 {
        "HIGH"@
    } else if rank == 3 {
        "NORMAL"@
    } else if rank == 4 {
        "LOW"@
    } else {
        "DEFER"@
    }
}

/// The tier of a score: P1 (>= 80), P2 (>= 60), P3 (>= 40), P4 (>= 20), P5.
pub fn classify(score: i32) -> (r: (&'static str, &'static str))
    ensures
        r.0@ == tier_id(tier_rank(score as int)),
        r.1@ == tier_name(tier_rank(score as int)),
{
    if score >= 80 {
        ("P1", "URGENT")
    } else if score >= 60 {
        ("P2", "HIGH")
    } else if score >= 40 {
        ("P3", "NORMAL")
    } else if score >= 20 {
        ("P4", "LOW")
    } else {
        ("P5", "DEFER")
    }
}

// ---------------------------------------------------------------------------
// Reading the subject
// ---------------------------------------------------------------------------

/// The version a captured version number stands for: the number when it
/// parses as a `u32`, else 1.
pub open spec fn version_from_capture_spec(cap: Option<Seq<char>>) -> u32 {
    match cap {
        Some(d) => match parse_u32_spec(d) {
            Some(v) => v,
            None => 1,
        },
        None => 1,
    }
}

/// The version that `parse_version` reads from a subject.
pub open spec fn subject_version(name: Seq<char>) -> u32 {
    version_from_capture_spec(pattern_capture(VERSION_PATTERN@, name, 1))
}

/// The version given by a captured version number (`None` when there was none).
pub fn version_from_capture(cap: Option<&str>) -> (r: u32)
    ensures
        r == version_from_capture_spec(
            match cap {
                Some(c) => Some(c@),
                None => None,
            },
        ),
{
    match cap {
        Some(d) => match parse_u32(d) {
            Some(v) => v,
            None => 1,
        },
        None => 1,
    }
}

pub fn parse_version(name: &str) -> (r: u32)
    ensures
        r == subject_version(name@),
{
    match capture(VERSION_PATTERN, name, 1) {
        Some(d) => version_from_capture(Some(d.as_str())),
        None => version_from_capture(None),
    }
}

/// The first series entry that gives a positive size (`total`, else `count`).
pub open spec fn series_field_size(series: Seq<SeriesRef>) -> Option<u32>
    decreases series.len(),
{
    if series.len() == 0 {
        None
    } else {
        let s = series[0];
        let t = match s.total {
            Some(t) => Some(t),
            None => s.count,
        };
        match t {
            Some(t) if t > 0 => Some(t),
            _ => series_field_size(series.drop_first()),
        }
    }
}

/// The series size given by the series entries, else by a captured series
/// total, else 1.
pub open spec fn series_size_spec(series: Seq<SeriesRef>, cap: Option<Seq<char>>) -> u32 {
    match series_field_size(series) {
        Some(t) => t,
        None => version_from_capture_spec(cap),
    }
}

/// The series size that `parse_series_size` reads.
pub open spec fn subject_series_size(name: Seq<char>, series: Seq<SeriesRef>) -> u32 {
    series_size_spec(series, pattern_capture(SERIES_PATTERN@, name, 2))
}

proof fn lemma_series_field_size_skip(series: Seq<SeriesRef>, i: int)
    requires
        0 <= i < series.len(),
    ensures
        series_field_size(series.skip(i)) == {
            let s = series[i];
            let t = match s.total {
                Some(t) => Some(t),
                None => s.count,
            };
            match t {
                Some(t) if t > 0 => Some(t),
                _ => series_field_size(series.skip(i + 1)),
            }
        },
{
    assert(series.skip(i).drop_first() =~= series.skip(i + 1));
    assert(series.skip(i)[0] == series[i]);
}

/// The size given by the series entries, else by the captured total.
pub fn series_size_from(series: &[SeriesRef], cap: Option<&str>) -> (r: u32)
    ensures
        r == series_size_spec(
            series@,
            match cap {
                Some(c) => Some(c@),
                None => None,
            },
        ),
{
    let mut i: usize = 0;
    assert(series@.skip(0) =~= series@);
    while i < series.len()
        invariant
            i <= series.len(),
            series_field_size(series@) == series_field_size(series@.skip(i as int)),
        decreases series.len() - i,
    {
        let s = &series[i];
        proof {
            lemma_series_field_size_skip(series@, i as int);
        }
        let t = match s.total {
            Some(t) => Some(t),
            None => s.count,
        };
        if let Some(t) = t {
            if t > 0 {
                return t;
            }
        }
        i = i + 1;
    }
    assert(series@.skip(i as int) =~= Seq::<SeriesRef>::empty());
    version_from_capture(cap)
}

pub fn parse_series_size(name: &str, series: &[SeriesRef]) -> (r: u32)
    ensures
        r == subject_series_size(name@, series@),
{
    match capture(SERIES_PATTERN, name, 2) {
        Some(d) => series_size_from(series, Some(d.as_str())),
        None => series_size_from(series, None),
    }
}

/// Points for library or header work read from the subject.
pub open spec fn lib_points(name: Seq<char>) -> int {
    if pattern_matches(LIB_SUBJECT_PATTERN@, name) {
        5
    } else if pattern_matches(INCLUDE_SUBJECT_PATTERN@, name) {
        10
    } else {
        0
    }
}

pub fn lib_score_from_subject(name: &str) -> (r: i32)
    ensures
        r == lib_points(name@),
{
    if is_match(LIB_SUBJECT_PATTERN, name) {
        5
    } else if is_match(INCLUDE_SUBJECT_PATTERN, name) {
        10
    } else {
        0
    }
}

pub fn is_cover(name: &str) -> (r: bool)
    ensures
        r == pattern_matches(COVER_PATTERN@, name@),
{
    is_match(COVER_PATTERN, name)
}

/// Whether the subject carries an RFC tag.
pub fn is_rfc(name: &str) -> (r: bool)
    ensures
        r == pattern_matches(RFC_PATTERN@, name@),
{
    is_match(RFC_PATTERN, name)
}

/// Whether the subject names a fix.
pub fn has_fix_keyword(name: &str) -> (r: bool)
    ensures
        r == pattern_matches(FIX_KEYWORDS_PATTERN@, name@),
{
    is_match(FIX_KEYWORDS_PATTERN, name)
}

/// Whether the subject announces a new or rewritten test.
pub fn has_new_test_keyword(name: &str) -> (r: bool)
    ensures
        r == pattern_matches(NEW_TEST_PATTERN@, name@),
{
    is_match(NEW_TEST_PATTERN, name)
}

/// The bare title of a subject: the leading tag removed, blanks trimmed, lower case.
pub open spec fn base_subject_spec(name: Seq<char>) -> Seq<char> {
    lowercase(trim(pattern_replace(SUBJECT_TAG_PATTERN@, name, ""@)))
}

/// What `str::to_lowercase` gives for `s`.
pub uninterp spec fn lowercase(s: Seq<char>) -> Seq<char>;

/// `str::to_lowercase`: the contract claims the result is `lowercase` of the input.
#[verifier::external_body]
fn to_lowercase(s: &str) -> (r: String)
    ensures
        r@ == lowercase(s@),
{
    s.to_lowercase()
}

/// Strip the leading `[PATCH ...]` tag from a subject to get the bare title.
pub fn base_subject(name: &str) -> (r: String)
    ensures
        r@ == base_subject_spec(name@),
{
    let stripped = replace_first(SUBJECT_TAG_PATTERN, name, "");
    let t = trimmed(stripped.as_str());
    to_lowercase(t.as_str())
}

// ---------------------------------------------------------------------------
// Age
// ---------------------------------------------------------------------------

/// Every `Z` of `s` written as `+00:00`.
pub open spec fn replace_zulu(s: Seq<char>) -> Seq<char>
    decreases s.len(),
{
    if s.len() == 0 {
        s
    } else {
        replace_zulu(s.drop_last()) + if s.last() == 'Z' {
            "+00:00"@
        } else {
            seq![s.last()]
        }
    }
}

/// Whether a Patchwork date already carries a time zone designator after its
/// `YYYY-MM-DD` date part: a trailing `Z`, a `+`, or a `-` past the first ten
/// characters.
pub open spec fn has_zone(s: Seq<char>) -> bool {
    ||| s.len() > 0 && s.last() == 'Z'
    ||| s.contains('+')
    ||| exists|i: int| 10 <= i < s.len() && s[i] == '-'
}

/// A Patchwork date made fit for RFC 3339 parsing: `Z` spelled `+00:00`, and
/// `+00:00` appended when no time zone is present.
pub open spec fn normalized_date(s: Seq<char>) -> Seq<char> {
    if has_zone(s) {
        replace_zulu(s)
    } else {
        s + "+00:00"@
    }
}

/// The age in days of a patch dated `patch_day`, seen on `today`: never
/// negative; 30 when the date could not be read.
pub open spec fn age_from_days_spec(today: i32, patch_day: Option<i32>) -> i64 {
    match patch_day {
        Some(d) => if today - d > 0 {
            (today - d) as i64
        } else {
            0
        },
        None => 30,
    }
}

/// The age in days for a given day and patch date (`None` when unreadable).
pub fn age_from_days(today: i32, patch_day: Option<i32>) -> (r: i64)
    ensures
        r == age_from_days_spec(today, patch_day),
{
    match patch_day {
        Some(d) => {
            let diff: i64 = (today as i64) - (d as i64);
            if diff > 0 {
                diff
            } else {
                0
            }
        },
        None => 30,
    }
}

fn contains_char(cs: &Vec<char>, c: char) -> (r: bool)
    ensures
        r == cs@.contains(c),
{
    contains_char_from(cs, c, 0)
}

/// Whether `c` occurs in `cs` at index `start` or later.
fn contains_char_from(cs: &Vec<char>, c: char, start: usize) -> (r: bool)
    ensures
        r == exists|k: int| start <= k < cs@.len() && cs@[k] == c,
{
    let mut i: usize = start;
    if i > cs.len() {
        return false;
    }
    while i < cs.len()
        invariant
            start <= i <= cs.len(),
            forall|k: int| start <= k < i ==> cs@[k] != c,
        decreases cs.len() - i,
    {
        if cs[i] == c {
            return true;
        }
        i = i + 1;
    }
    false
}

/// The date string to hand to the RFC 3339 parser.
pub fn normalize_date(date_str: &str) -> (r: String)
    ensures
        r@ == normalized_date(date_str@),
{
    let cs = chars_of(date_str);
    let ends_z = cs.len() > 0 && cs[cs.len() - 1] == 'Z';
    if ends_z || contains_char(&cs, '+') || contains_char_from(&cs, '-', 10) {
        let mut r = String::new();
        let mut i: usize = 0;
        while i < cs.len()
            invariant
                i <= cs.len(),
                cs@ == date_str@,
                r@ == replace_zulu(cs@.take(i as int)),
            decreases cs.len() - i,
        {
            assert(cs@.take(i + 1).drop_last() =~= cs@.take(i as int));
            if cs[i] == 'Z' {
                append(&mut r, "+00:00");
            } else {
                push_char(&mut r, cs[i]);
                assert(r@ =~= replace_zulu(cs@.take(i + 1)));
            }
            i = i + 1;
        }
        assert(cs@.take(cs.len() as int) =~= cs@);
        r
    } else {
        concat(date_str, "+00:00")
    }
}

/// Days since the patch was posted, counted from today's local date; 30 when
/// the date cannot be read.
pub fn age_days(date_str: &str) -> (r: i64)
    ensures
        r >= 0,
        rfc3339_utc_day(normalized_date(date_str@)) is None ==> r == 30,
        rfc3339_utc_day(normalized_date(date_str@)) is Some ==> exists|today: i32|
            today >= earliest_local_day() && r == age_from_days_spec(
                today,
                rfc3339_utc_day(normalized_date(date_str@)),
            ),
{
    let fixed = normalize_date(date_str);
    let day = parse_rfc3339_utc_day(fixed.as_str());
    let today = local_today();
    age_from_days(today, day)
}

} // verus!

verus! {

// ---------------------------------------------------------------------------
// Scored patch
// ---------------------------------------------------------------------------

/// A patch with its signals, its score and the reasons for it.
#[derive(Debug, Clone)]
pub struct ScoredPatch {
    pub id: u64,
    pub name: String,
    pub submitter: String,
    pub date: String,
    pub days: i64,
    pub state: String,
    pub version: u32,
    pub rfc: bool,
    pub series_size: u32,
    pub reviewed: u32,
    pub acked: u32,
    pub delegated: bool,
    pub fix_keyword: bool,
    pub new_test: bool,
    pub sob_count: u32,
    pub lib_pts: i32,
    pub checks_passed: u32,
    pub checks_failed: u32,
    pub checks_total: u32,
    pub score: i32,
    pub reasons: Vec<String>,
    pub url: String,
    pub tier: &'static str,
    pub tier_label: &'static str,
    pub superseded: bool,
}

/// `x` alone when `cond` holds, else nothing.
pub open spec fn when(cond: bool, x: Seq<char>) -> Seq<Seq<char>> {
    if cond {
        seq![x]
    } else {
        Seq::empty()
    }
}

/// The notes shown beside a patch, in order.
pub open spec fn note_parts(p: ScoredPatch) -> Seq<Seq<char>> {
    when(p.superseded, "SUPERSEDED"@) + when(p.reviewed > 0, "Reviewed-by"@) + when(
        p.acked > 0,
        "Acked-by"@,
    ) + when(p.rfc, "RFC"@) + (if p.lib_pts >= 15 {
        seq!["lib/"@]
    } else if p.lib_pts >= 10 {
        seq!["include/"@]
    } else if p.lib_pts > 0 {
        seq!["tools/"@]
    } else {
        Seq::empty()
    }) + when(p.sob_count > 1, "SOB:"@ + nat_decimal(p.sob_count as nat)) + when(
        p.days > 60,
        "STALE"@,
    ) + when(p.series_size > 5, "SERIES "@ + nat_decimal(p.series_size as nat))
}

/// The notes joined with `, `, or a dash when there are none.
pub open spec fn notes_spec(p: ScoredPatch) -> Seq<char> {
    if note_parts(p).len() == 0 {
        "—"@
    } else {
        join_spec(note_parts(p), ", "@)
    }
}

/// Appends `s` to a list of strings.
fn push_part(parts: &mut Vec<String>, s: String)
    ensures
        views(final(parts)@) == views(old(parts)@).push(s@),
{
    parts.push(s);
    assert(views(final(parts)@) =~= views(old(parts)@).push(s@));
}

/// `s` followed by the decimal form of `n`.
fn with_number(s: &str, n: u64) -> (r: String)
    ensures
        r@ == s@ + nat_decimal(n as nat),
{
    let mut r = owned(s);
    push_decimal(&mut r, n);
    r
}

/// Appends `s` to a list of strings when `cond` holds.
fn push_when(parts: &mut Vec<String>, cond: bool, s: &str)
    ensures
        views(final(parts)@) == views(old(parts)@) + when(cond, s@),
{
    if cond {
        push_part(parts, owned(s));
    }
    assert(views(final(parts)@) =~= views(old(parts)@) + when(cond, s@));
}

/// The library marker of a patch's notes.
fn lib_note(lib_pts: i32) -> (r: Option<&'static str>)
    ensures
        (match r {
            Some(t) => seq![t@],
            None => Seq::empty(),
        }) == (if lib_pts >= 15 {
            seq!["lib/"@]
        } else if lib_pts >= 10 {
            seq!["include/"@]
        } else if lib_pts > 0 {
            seq!["tools/"@]
        } else {
            Seq::<Seq<char>>::empty()
        }),
{
    if lib_pts >= 15 {
        Some("lib/")
    } else if lib_pts >= 10 {
        Some("include/")
    } else if lib_pts > 0 {
        Some("tools/")
    } else {
        None
    }
}

impl ScoredPatch {
    pub fn notes(&self) -> (r: String)
        ensures
            r@ == notes_spec(*self),
    {
        let mut parts: Vec<String> = Vec::new();
        assert(views(parts@) =~= Seq::empty());
        push_when(&mut parts, self.superseded, "SUPERSEDED");
        push_when(&mut parts, self.reviewed > 0, "Reviewed-by");
        push_when(&mut parts, self.acked > 0, "Acked-by");
        push_when(&mut parts, self.rfc, "RFC");
        let ghost before_lib = views(parts@);
        match lib_note(self.lib_pts) {
            Some(t) => push_part(&mut parts, owned(t)),
            None => {},
        }
        let ghost after_lib = views(parts@);
        assert(after_lib =~= before_lib + (if self.lib_pts >= 15 {
            seq!["lib/"@]
        } else if self.lib_pts >= 10 {
            seq!["include/"@]
        } else if self.lib_pts > 0 {
            seq!["tools/"@]
        } else {
            Seq::<Seq<char>>::empty()
        }));
        let sob = with_number("SOB:", self.sob_count as u64);
        push_when(&mut parts, self.sob_count > 1, sob.as_str());
        push_when(&mut parts, self.days > 60, "STALE");
        let series = with_number("SERIES ", self.series_size as u64);
        push_when(&mut parts, self.series_size > 5, series.as_str());
        assert(views(parts@) =~= note_parts(*self));
        if parts.len() == 0 {
            owned("—")
        } else {
            join(&parts, ", ")
        }
    }
}

} // verus!

verus! {

// ---------------------------------------------------------------------------
// Scoring a patch
// ---------------------------------------------------------------------------

/// What the scoring reads from a patch besides its own fields.
#[derive(Debug, Clone, Copy)]
pub struct PatchSignals {
    pub version: u32,
    pub rfc: bool,
    pub series_size: u32,
    pub days: i64,
    pub fix_keyword: bool,
    pub new_test: bool,
    pub lib_pts: i32,
}

/// Library points are one of the values `lib_score_from_subject` gives.
pub open spec fn lib_points_possible(lib_pts: int) -> bool {
    lib_pts == 0 || lib_pts == 5 || lib_pts == 10
}

/// Whether a patch sits in the `new` state.
pub open spec fn is_new_state(p: RawPatch) -> bool {
    p.state@ == "new"@
}

/// A first version posted less than a week ago: nothing has happened on it yet.
pub open spec fn no_activity(s: PatchSignals) -> bool {
    s.version == 1 && s.days < 7
}

/// The total score of a patch: the sum of the points of each rule.
pub open spec fn patch_score(p: RawPatch, s: PatchSignals) -> int {
    version_points(s.version) + (if s.fix_keyword {
        10int
    } else {
        0
    }) + (if s.new_test {
        10int
    } else {
        0
    }) + age_points(s.days) + (if no_activity(s) {
        -20int
    } else {
        0
    }) + (if s.rfc {
        -30int
    } else {
        0
    }) + s.lib_pts + series_points(s.series_size) + (if p.tags.reviewed_by_count >= 1 {
        20int
    } else {
        0
    }) + (if p.tags.acked_by_count >= 1 {
        10int
    } else {
        0
    }) + sob_points(p.tags.signed_off_by_count) + (if p.delegate is Some {
        -10int
    } else {
        0
    }) + (if is_new_state(p) {
        5int
    } else {
        0
    })
}

/// The reasons listed for a score, one per rule that gave points, in rule order.
pub open spec fn score_reasons(p: RawPatch, s: PatchSignals) -> Seq<Seq<char>> {
    let vp = version_points(s.version);
    let ap = age_points(s.days);
    let sp = series_points(s.series_size);
    let bp = sob_points(p.tags.signed_off_by_count);
    when(vp != 0, "v"@ + nat_decimal(s.version as nat) + "(+"@ + int_decimal(vp) + ")"@) + when(
        s.fix_keyword,
        "fix(+10)"@,
    ) + when(s.new_test, "new-test(+10)"@) + when(
        ap != 0,
        "age:"@ + int_decimal(s.days as int) + "d(+"@ + int_decimal(ap) + ")"@,
    ) + when(no_activity(s), "no-activity(-20)"@) + when(s.rfc, "RFC(-30)"@) + when(
        s.lib_pts != 0,
        "lib(+"@ + int_decimal(s.lib_pts as int) + ")"@,
    ) + when(
        sp != 0,
        "series:"@ + nat_decimal(s.series_size as nat) + "("@ + signed_decimal(sp) + ")"@,
    ) + when(p.tags.reviewed_by_count >= 1, "Reviewed-by(+20)"@) + when(
        p.tags.acked_by_count >= 1,
        "Acked-by(+10)"@,
    ) + when(
        bp != 0,
        "SOB:"@ + nat_decimal(p.tags.signed_off_by_count as nat) + "(+"@ + int_decimal(bp) + ")"@,
    ) + when(p.delegate is Some, "delegated(-10)"@) + when(is_new_state(p), "new(+5)"@)
}

/// The link to a patch: its web URL, else its page on patchwork.ozlabs.org.
pub open spec fn patch_url(p: RawPatch) -> Seq<char> {
    match p.web_url {
        Some(u) => u@,
        None => "https://patchwork.ozlabs.org/project/ltp/patch/"@ + nat_decimal(p.id as nat)
            + "/"@,
    }
}

/// `r` is the scored form of patch `p` read with signals `s`.
pub open spec fn scored_from(r: ScoredPatch, p: RawPatch, s: PatchSignals) -> bool {
    &&& r.id == p.id
    &&& r.name@ == p.name@
    &&& r.submitter@ == match p.submitter.name {
        Some(n) => n@,
        None => Seq::empty(),
    }
    &&& r.date@ == p.date@
    &&& r.days == s.days
    &&& r.state@ == p.state@
    &&& r.version == s.version
    &&& r.rfc == s.rfc
    &&& r.series_size == s.series_size
    &&& r.reviewed == p.tags.reviewed_by_count
    &&& r.acked == p.tags.acked_by_count
    &&& r.delegated == p.delegate is Some
    &&& r.fix_keyword == s.fix_keyword
    &&& r.new_test == s.new_test
    &&& r.sob_count == p.tags.signed_off_by_count
    &&& r.lib_pts == s.lib_pts
    &&& r.checks_passed == 0
    &&& r.checks_failed == 0
    &&& r.checks_total == 0
    &&& r.score == patch_score(p, s)
    &&& views(r.reasons@) == score_reasons(p, s)
    &&& r.url@ == patch_url(p)
    &&& r.tier@ == tier_id(tier_rank(r.score as int))
    &&& r.tier_label@ == tier_name(tier_rank(r.score as int))
    &&& !r.superseded
}

/// The signals `score_patch` reads from a patch whose age is `days`.
pub open spec fn patch_signals(p: RawPatch, days: i64) -> PatchSignals {
    PatchSignals {
        version: subject_version(p.name@),
        rfc: pattern_matches(RFC_PATTERN@, p.name@),
        series_size: subject_series_size(p.name@, p.series@),
        days,
        fix_keyword: pattern_matches(FIX_KEYWORDS_PATTERN@, p.name@),
        new_test: pattern_matches(NEW_TEST_PATTERN@, p.name@),
        lib_pts: lib_points(p.name@) as i32,
    }
}

fn version_reason(version: u32, v: i32) -> (r: String)
    ensures
        r@ == "v"@ + nat_decimal(version as nat) + "(+"@ + int_decimal(v as int) + ")"@,
{
    let mut text = with_number("v", version as u64);
    append(&mut text, "(+");
    push_signed(&mut text, v as i64);
    append(&mut text, ")");
    text
}

fn age_reason(days: i64, a: i32) -> (r: String)
    ensures
        r@ == "age:"@ + int_decimal(days as int) + "d(+"@ + int_decimal(a as int) + ")"@,
{
    let mut text = owned("age:");
    push_signed(&mut text, days);
    append(&mut text, "d(+");
    push_signed(&mut text, a as i64);
    append(&mut text, ")");
    text
}

fn lib_reason(lib_pts: i32) -> (r: String)
    ensures
        r@ == "lib(+"@ + int_decimal(lib_pts as int) + ")"@,
{
    let mut text = owned("lib(+");
    push_signed(&mut text, lib_pts as i64);
    append(&mut text, ")");
    text
}

fn series_reason(size: u32, s: i32) -> (r: String)
    ensures
        r@ == "series:"@ + nat_decimal(size as nat) + "("@ + signed_decimal(s as int) + ")"@,
{
    let mut text = with_number("series:", size as u64);
    append(&mut text, "(");
    push_with_sign(&mut text, s as i64);
    append(&mut text, ")");
    text
}

fn sob_reason(count: u32, pts: i32) -> (r: String)
    ensures
        r@ == "SOB:"@ + nat_decimal(count as nat) + "(+"@ + int_decimal(pts as int) + ")"@,
{
    let mut text = with_number("SOB:", count as u64);
    append(&mut text, "(+");
    push_signed(&mut text, pts as i64);
    append(&mut text, ")");
    text
}

/// The sum of the points of all rules.
fn score_total(patch: &RawPatch, sig: &PatchSignals, is_new: bool) -> (r: i32)
    requires
        lib_points_possible(sig.lib_pts as int),
        is_new == is_new_state(*patch),
    ensures
        r == patch_score(*patch, *sig),
{
    let v = score_version(sig.version);
    let fix: i32 = if sig.fix_keyword {
        10
    } else {
        0
    };
    let test: i32 = if sig.new_test {
        10
    } else {
        0
    };
    let age = score_age(sig.days);
    let idle: i32 = if sig.version == 1 && sig.days < 7 {
        -20
    } else {
        0
    };
    let rfc: i32 = if sig.rfc {
        -30
    } else {
        0
    };
    let series = score_series(sig.series_size);
    let reviewed: i32 = if patch.tags.reviewed_by_count >= 1 {
        20
    } else {
        0
    };
    let acked: i32 = if patch.tags.acked_by_count >= 1 {
        10
    } else {
        0
    };
    let sob = score_sob(patch.tags.signed_off_by_count);
    let delegated: i32 = if patch.delegate.is_some() {
        -10
    } else {
        0
    };
    let state: i32 = if is_new {
        5
    } else {
        0
    };
    v + fix + test + age + idle + rfc + sig.lib_pts + series + reviewed + acked + sob + delegated
        + state
}

/// The reasons for the score, one per rule that gave points.
fn score_reason_list(patch: &RawPatch, sig: &PatchSignals, is_new: bool) -> (r: Vec<
    String,
>)
    requires
        is_new == is_new_state(*patch),
    ensures
        views(r@) == score_reasons(*patch, *sig),
{
    let mut reasons: Vec<String> = Vec::new();
    assert(views(reasons@) =~= Seq::empty());
    let v = score_version(sig.version);
    push_when(&mut reasons, v != 0, version_reason(sig.version, v).as_str());
    push_when(&mut reasons, sig.fix_keyword, "fix(+10)");
    push_when(&mut reasons, sig.new_test, "new-test(+10)");
    let a = score_age(sig.days);
    push_when(&mut reasons, a != 0, age_reason(sig.days, a).as_str());
    push_when(&mut reasons, sig.version == 1 && sig.days < 7, "no-activity(-20)");
    push_when(&mut reasons, sig.rfc, "RFC(-30)");
    push_when(&mut reasons, sig.lib_pts != 0, lib_reason(sig.lib_pts).as_str());
    let s = score_series(sig.series_size);
    push_when(&mut reasons, s != 0, series_reason(sig.series_size, s).as_str());
    push_when(&mut reasons, patch.tags.reviewed_by_count >= 1, "Reviewed-by(+20)");
    push_when(&mut reasons, patch.tags.acked_by_count >= 1, "Acked-by(+10)");
    let sob_count = patch.tags.signed_off_by_count;
    let sob_pts = score_sob(sob_count);
    push_when(&mut reasons, sob_pts != 0, sob_reason(sob_count, sob_pts).as_str());
    push_when(&mut reasons, patch.delegate.is_some(), "delegated(-10)");
    push_when(&mut reasons, is_new, "new(+5)");
    assert(views(reasons@) =~= score_reasons(*patch, *sig));
    reasons
}

/// The link to a patch.
fn url_of(patch: &RawPatch) -> (r: String)
    ensures
        r@ == patch_url(*patch),
{
    match &patch.web_url {
        Some(u) => u.clone(),
        None => {
            let mut u = with_number("https://patchwork.ozlabs.org/project/ltp/patch/", patch.id);
            append(&mut u, "/");
            u
        },
    }
}

/// Scores a patch from its fields and the signals read from it.
pub fn score_from_signals(patch: &RawPatch, sig: &PatchSignals) -> (r: ScoredPatch)
    requires
        lib_points_possible(sig.lib_pts as int),
    ensures
        scored_from(r, *patch, *sig),
{
    let is_new = same_text(patch.state.as_str(), "new");
    let score = score_total(patch, sig, is_new);
    let reasons = score_reason_list(patch, sig, is_new);
    let (tier, tier_label) = classify(score);
    let submitter = match &patch.submitter.name {
        Some(n) => n.clone(),
        None => String::new(),
    };
    ScoredPatch {
        id: patch.id,
        name: patch.name.clone(),
        submitter,
        date: patch.date.clone(),
        days: sig.days,
        state: patch.state.clone(),
        version: sig.version,
        rfc: sig.rfc,
        series_size: sig.series_size,
        reviewed: patch.tags.reviewed_by_count,
        acked: patch.tags.acked_by_count,
        delegated: patch.delegate.is_some(),
        fix_keyword: sig.fix_keyword,
        new_test: sig.new_test,
        sob_count: patch.tags.signed_off_by_count,
        lib_pts: sig.lib_pts,
        checks_passed: 0,
        checks_failed: 0,
        checks_total: 0,
        score,
        reasons,
        url: url_of(patch),
        tier,
        tier_label,
        superseded: false,
    }
}

/// Reads the signals of a patch and scores it.
pub fn score_patch(patch: &RawPatch) -> (r: ScoredPatch)
    ensures
        scored_from(r, *patch, patch_signals(*patch, r.days)),
        r.days >= 0,
        rfc3339_utc_day(normalized_date(patch.date@)) is None ==> r.days == 30,
        rfc3339_utc_day(normalized_date(patch.date@)) is Some ==> exists|today: i32|
            today >= earliest_local_day() && r.days == age_from_days_spec(
                today,
                rfc3339_utc_day(normalized_date(patch.date@)),
            ),
{
    let name = patch.name.as_str();
    let sig = PatchSignals {
        version: parse_version(name),
        rfc: is_rfc(name),
        series_size: parse_series_size(name, patch.series.as_slice()),
        days: age_days(patch.date.as_str()),
        fix_keyword: has_fix_keyword(name),
        new_test: has_new_test_keyword(name),
        lib_pts: lib_score_from_subject(name),
    };
    score_from_signals(patch, &sig)
}

} // verus!

verus! {

// ---------------------------------------------------------------------------
// Superseded detection
// ---------------------------------------------------------------------------

/// Two patches belong to one thread: same submitter, same bare title.
pub open spec fn same_thread(a: ScoredPatch, b: ScoredPatch) -> bool {
    a.submitter@ == b.submitter@ && base_subject_spec(a.name@) == base_subject_spec(b.name@)
}

/// Patch `i` of `ps` has a newer version from the same thread, numbered above 1.
pub open spec fn has_newer_version(ps: Seq<ScoredPatch>, i: int) -> bool {
    exists|j: int|
        0 <= j < ps.len() && #[trigger] same_thread(ps[j], ps[i]) && ps[j].version > ps[i].version
            && ps[j].version > 1
}

/// `p` with its superseded flag set to `b`.
pub open spec fn with_superseded(p: ScoredPatch, b: bool) -> ScoredPatch {
    ScoredPatch { superseded: b, ..p }
}

/// The highest version in the thread of patch `i`.
fn thread_max_version(patches: &[ScoredPatch], subjects: &Vec<String>, i: usize) -> (m: u32)
    requires
        i < patches.len(),
        subjects.len() == patches.len(),
        forall|k: int|
            0 <= k < patches.len() ==> #[trigger] subjects@[k]@ == base_subject_spec(
                patches@[k].name@,
            ),
    ensures
        forall|j: int|
            0 <= j < patches.len() && #[trigger] same_thread(patches@[j], patches@[i as int])
                ==> patches@[j].version <= m,
        m == 0 || exists|j: int|
            0 <= j < patches.len() && #[trigger] same_thread(patches@[j], patches@[i as int])
                && patches@[j].version == m,
{
    let mut m: u32 = 0;
    let mut j: usize = 0;
    while j < patches.len()
        invariant
            i < patches.len(),
            j <= patches.len(),
            subjects.len() == patches.len(),
            forall|k: int|
                0 <= k < patches.len() ==> #[trigger] subjects@[k]@ == base_subject_spec(
                    patches@[k].name@,
                ),
            forall|k: int|
                0 <= k < j && #[trigger] same_thread(patches@[k], patches@[i as int])
                    ==> patches@[k].version <= m,
            m == 0 || exists|k: int|
                0 <= k < patches.len() && #[trigger] same_thread(patches@[k], patches@[i as int])
                    && patches@[k].version == m,
        decreases patches.len() - j,
    {
        let same = patches[j].submitter == patches[i].submitter && subjects[j] == subjects[i];
        assert(same == same_thread(patches@[j as int], patches@[i as int])) by {
            assert(subjects@[j as int]@ == base_subject_spec(patches@[j as int].name@));
            assert(subjects@[i as int]@ == base_subject_spec(patches@[i as int].name@));
        }
        if same && patches[j].version > m {
            m = patches[j].version;
        }
        j = j + 1;
    }
    m
}

/// Mark patches that have a newer version from the same submitter as superseded.
pub fn mark_superseded(patches: &mut [ScoredPatch])
    ensures
        final(patches)@.len() == old(patches)@.len(),
        forall|i: int|
            0 <= i < old(patches)@.len() ==> #[trigger] final(patches)@[i] == with_superseded(
                old(patches)@[i],
                old(patches)@[i].superseded || has_newer_version(old(patches)@, i),
            ),
{
    let n = patches.len();
    let mut subjects: Vec<String> = Vec::new();
    for k in 0..n
        invariant
            n == patches.len(),
            subjects.len() == k,
            forall|q: int|
                0 <= q < k ==> #[trigger] subjects@[q]@ == base_subject_spec(patches@[q].name@),
    {
        subjects.push(base_subject(patches[k].name.as_str()));
    }
    let mut flags: Vec<bool> = Vec::new();
    for i in 0..n
        invariant
            n == patches.len(),
            subjects.len() == n,
            forall|q: int|
                0 <= q < n ==> #[trigger] subjects@[q]@ == base_subject_spec(patches@[q].name@),
            flags.len() == i,
            forall|q: int| 0 <= q < i ==> #[trigger] flags@[q] == has_newer_version(patches@, q),
    {
        let m = thread_max_version(patches, &subjects, i);
        let flag = m > 1 && patches[i].version < m;
        proof {
            if flag {
                let j = choose|j: int|
                    0 <= j < patches@.len() && #[trigger] same_thread(
                        patches@[j],
                        patches@[i as int],
                    ) && patches@[j].version == m;
                assert(same_thread(patches@[j], patches@[i as int]));
            }
            if has_newer_version(patches@, i as int) {
                let j = choose|j: int|
                    0 <= j < patches@.len() && #[trigger] same_thread(
                        patches@[j],
                        patches@[i as int],
                    ) && patches@[j].version > patches@[i as int].version && patches@[j].version
                        > 1;
                assert(patches@[j].version <= m);
            }
        }
        flags.push(flag);
    }
    let ghost before = patches@;
    for i in 0..n
        invariant
            n == patches.len(),
            flags.len() == n,
            before.len() == n,
            forall|q: int| 0 <= q < n ==> #[trigger] flags@[q] == has_newer_version(before, q),
            forall|q: int|
                0 <= q < i ==> #[trigger] patches@[q] == with_superseded(
                    before[q],
                    before[q].superseded || has_newer_version(before, q),
                ),
            forall|q: int| i <= q < n ==> #[trigger] patches@[q] == before[q],
    {
        if flags[i] {
            patches[i].superseded = true;
        }
        assert(patches@[i as int] == with_superseded(
            before[i as int],
            before[i as int].superseded || has_newer_version(before, i as int),
        ));
    }
}

} // verus!

verus! {

// ---------------------------------------------------------------------------
// Laws
// ---------------------------------------------------------------------------

/// A higher score never lands in a less urgent tier.
pub proof fn law_tier_monotone(a: int, b: int)
    requires
        a <= b,
    ensures
        tier_rank(b) <= tier_rank(a),
{
}

/// The age points rise up to the 31-60 day peak and fall after it.
pub proof fn law_age_curve(d1: i64, d2: i64)
    requires
        d1 <= d2,
    ensures
        d2 <= 60 ==> age_points(d1) <= age_points(d2),
        31 <= d1 ==> age_points(d1) >= age_points(d2),
{
}

/// The age points peak at 45, reached exactly for ages of 31 to 60 days.
pub proof fn law_age_peak(days: i64)
    ensures
        age_points(days) <= 45,
        age_points(days) == 45 <==> 31 <= days <= 60,
{
}

/// Higher versions are worth at least as much as lower ones.
pub proof fn law_version_monotone(a: u32, b: u32)
    requires
        1 <= a <= b,
    ensures
        version_points(a) <= version_points(b),
{
}

/// Smaller series are worth at least as much as larger ones; a standalone
/// patch is worth the most.
pub proof fn law_series_prefers_small(a: u32, b: u32)
    requires
        1 <= a <= b,
    ensures
        series_points(a) >= series_points(b),
        series_points(1) >= series_points(b),
{
}

/// More Signed-off-by trailers are never worth less.
pub proof fn law_sob_monotone(a: u32, b: u32)
    requires
        a <= b,
    ensures
        sob_points(a) <= sob_points(b),
{
}

/// Each subject rule adds its points and nothing else: of two patches read
/// with the same signals but for one rule, a fix keyword adds 10, a new-test
/// keyword adds 10, an RFC tag takes 30 off, and library work adds 5.
pub proof fn law_rule_points(p: RawPatch, s: PatchSignals)
    requires
        !s.fix_keyword,
        !s.new_test,
        !s.rfc,
        s.lib_pts == 0,
    ensures
        patch_score(p, (PatchSignals { fix_keyword: true, ..s })) == patch_score(p, s) + 10,
        patch_score(p, (PatchSignals { new_test: true, ..s })) == patch_score(p, s) + 10,
        patch_score(p, (PatchSignals { rfc: true, ..s })) == patch_score(p, s) - 30,
        patch_score(p, (PatchSignals { lib_pts: 5, ..s })) == patch_score(p, s) + 5,
{
}

/// The tier recorded with a scored patch is the tier of its score.
pub proof fn law_scored_tier_matches(r: ScoredPatch, p: RawPatch, s: PatchSignals)
    requires
        scored_from(r, p, s),
    ensures
        r.tier@ == tier_id(tier_rank(patch_score(p, s))),
        r.score == patch_score(p, s),
{
}

/// The documented tier thresholds: P1 (URGENT) from 80, P2 (HIGH) from 60 to
/// 79, P3 (NORMAL) from 40 to 59, P4 (LOW) from 20 to 39, P5 (DEFER) below 20.
pub proof fn law_tier_thresholds(score: int)
    ensures
        tier_id(tier_rank(score)) == "P1"@ <==> score >= 80,
        tier_id(tier_rank(score)) == "P2"@ <==> 60 <= score < 80,
        tier_id(tier_rank(score)) == "P3"@ <==> 40 <= score < 60,
        tier_id(tier_rank(score)) == "P4"@ <==> 20 <= score < 40,
        tier_id(tier_rank(score)) == "P5"@ <==> score < 20,
        tier_name(tier_rank(score)) == "URGENT"@ <==> score >= 80,
        tier_name(tier_rank(score)) == "HIGH"@ <==> 60 <= score < 80,
        tier_name(tier_rank(score)) == "NORMAL"@ <==> 40 <= score < 60,
        tier_name(tier_rank(score)) == "LOW"@ <==> 20 <= score < 40,
        tier_name(tier_rank(score)) == "DEFER"@ <==> score < 20,
{
    reveal_strlit("P1");
    reveal_strlit("P2");
    reveal_strlit("P3");
    reveal_strlit("P4");
    reveal_strlit("P5");
    reveal_strlit("URGENT");
    reveal_strlit("HIGH");
    reveal_strlit("NORMAL");
    reveal_strlit("LOW");
    reveal_strlit("DEFER");
    assert("P1"@[1] != "P2"@[1] && "P1"@[1] != "P3"@[1] && "P1"@[1] != "P4"@[1] && "P1"@[1]
        != "P5"@[1]);
    assert("P2"@[1] != "P3"@[1] && "P2"@[1] != "P4"@[1] && "P2"@[1] != "P5"@[1]);
    assert("P3"@[1] != "P4"@[1] && "P3"@[1] != "P5"@[1] && "P4"@[1] != "P5"@[1]);
    assert("URGENT"@[0] != "HIGH"@[0] && "URGENT"@[0] != "NORMAL"@[0] && "URGENT"@[0]
        != "LOW"@[0] && "URGENT"@[0] != "DEFER"@[0]);
    assert("HIGH"@[0] != "NORMAL"@[0] && "HIGH"@[0] != "LOW"@[0] && "HIGH"@[0] != "DEFER"@[0]);
    assert("NORMAL"@[0] != "LOW"@[0] && "NORMAL"@[0] != "DEFER"@[0] && "LOW"@[0] != "DEFER"@[0]);
}

/// `p` with its Reviewed-by and Acked-by counts set.
pub open spec fn with_review_counts(p: RawPatch, reviewed: u32, acked: u32) -> RawPatch {
    RawPatch {
        tags: Tags { reviewed_by_count: reviewed, acked_by_count: acked, ..p.tags },
        ..p
    }
}

/// Any number of Reviewed-by trailers from one up is worth 20 points and one
/// reason, and any number of Acked-by trailers from one up is worth 10 points
/// and one reason, compared with none.
pub proof fn law_review_tag_points(p: RawPatch, s: PatchSignals, k: u32)
    requires
        k >= 1,
    ensures
        patch_score(with_review_counts(p, k, 0), s) == patch_score(with_review_counts(p, 0, 0), s)
            + 20,
        score_reasons(with_review_counts(p, k, 0), s).len() == score_reasons(
            with_review_counts(p, 0, 0),
            s,
        ).len() + 1,
        patch_score(with_review_counts(p, 0, k), s) == patch_score(with_review_counts(p, 0, 0), s)
            + 10,
        score_reasons(with_review_counts(p, 0, k), s).len() == score_reasons(
            with_review_counts(p, 0, 0),
            s,
        ).len() + 1,
{
}

/// The age counts the days from the patch's day back from today: an earlier
/// patch day never gives a smaller age, a day before today gives the number of
/// days between, a later day gives 0, and a patch day before 1969-12-31 gives a
/// positive age on any day the clock can show.
pub proof fn law_age_counts_back(today: i32, d1: i32, d2: i32)
    ensures
        d1 <= d2 ==> age_from_days_spec(today, Some(d1)) >= age_from_days_spec(today, Some(d2)),
        d1 < today ==> age_from_days_spec(today, Some(d1)) == today - d1,
        d1 >= today ==> age_from_days_spec(today, Some(d1)) == 0,
        today >= earliest_local_day() && d1 < earliest_local_day() ==> age_from_days_spec(
            today,
            Some(d1),
        ) > 0,
{
}

/// Any newer version (above v1) from the same submitter with the same bare
/// title supersedes a patch, whatever versions lie between.
pub proof fn law_any_newer_version_supersedes(ps: Seq<ScoredPatch>, i: int, j: int)
    requires
        0 <= i < ps.len(),
        0 <= j < ps.len(),
        ps[j].submitter@ == ps[i].submitter@,
        base_subject_spec(ps[j].name@) == base_subject_spec(ps[i].name@),
        ps[j].version > ps[i].version,
        ps[j].version > 1,
    ensures
        has_newer_version(ps, i),
{
    assert(same_thread(ps[j], ps[i]));
}

/// A patch with the highest version of its thread is never superseded by it.
pub proof fn law_latest_version_not_superseded(ps: Seq<ScoredPatch>, i: int)
    requires
        0 <= i < ps.len(),
        forall|j: int|
            0 <= j < ps.len() && #[trigger] same_thread(ps[j], ps[i]) ==> ps[j].version
                <= ps[i].version,
    ensures
        !has_newer_version(ps, i),
{
}

/// Whether a patch has a newer version depends only on the submitters, the
/// subjects and the versions, not on the superseded flags.
pub proof fn law_newer_version_ignores_flags(ps: Seq<ScoredPatch>, qs: Seq<ScoredPatch>, i: int)
    requires
        ps.len() == qs.len(),
        0 <= i < ps.len(),
        forall|k: int|
            0 <= k < ps.len() ==> (#[trigger] ps[k]).submitter@ == qs[k].submitter@
                && ps[k].name@ == qs[k].name@ && ps[k].version == qs[k].version,
    ensures
        has_newer_version(ps, i) == has_newer_version(qs, i),
{
    if has_newer_version(ps, i) {
        let j = choose|j: int|
            0 <= j < ps.len() && #[trigger] same_thread(ps[j], ps[i]) && ps[j].version
                > ps[i].version && ps[j].version > 1;
        assert(same_thread(qs[j], qs[i]));
    }
    if has_newer_version(qs, i) {
        let j = choose|j: int|
            0 <= j < qs.len() && #[trigger] same_thread(qs[j], qs[i]) && qs[j].version
                > qs[i].version && qs[j].version > 1;
        assert(same_thread(ps[j], ps[i]));
    }
}

} // verus!
