//! The Patchwork REST API as the dashboard sees it: the records it reads, the
//! URLs it asks for, and what it makes of the replies.
use vstd::prelude::*;

use crate::config::PatchworkInstance;
use crate::text::{
    append, chars_of, has_prefix, nat_decimal, owned, push_char, push_decimal, same_text,
    string_of_range, trim, trim_start, trimmed, views,
};

verus! {

/// The author of a patch.
#[derive(Debug, Clone)]
pub struct Submitter {
    pub name: Option<String>,
    pub email: String,
}

/// A series a patch belongs to.
#[derive(Debug, Clone)]
pub struct SeriesRef {
    pub id: Option<u64>,
    pub total: Option<u32>,
    pub count: Option<u32>,
}

/// Trailer counts that Patchwork collected from the patch mail.
#[derive(Debug, Clone)]
pub struct Tags {
    pub reviewed_by_count: u32,
    pub acked_by_count: u32,
    pub signed_off_by_count: u32,
}

impl Default for Tags {
    fn default() -> (r: Self)
        ensures
            r.reviewed_by_count == 0,
            r.acked_by_count == 0,
            r.signed_off_by_count == 0,
    {
        Tags { reviewed_by_count: 0, acked_by_count: 0, signed_off_by_count: 0 }
    }
}

/// The maintainer a patch is delegated to.
#[derive(Debug, Clone)]
pub struct Delegate {
    pub id: u64,
}

/// A patch as Patchwork lists it.
#[derive(Debug, Clone)]
pub struct RawPatch {
    pub id: u64,
    pub name: String,
    pub date: String,
    pub state: String,
    pub submitter: Submitter,
    pub tags: Tags,
    pub series: Vec<SeriesRef>,
    pub delegate: Option<Delegate>,
    pub web_url: Option<String>,
}

} // verus!

verus! {

// ---------------------------------------------------------------------------
// Queries
// ---------------------------------------------------------------------------

/// The states whose patches are listed: new, under-review, needs-review-ack
/// (numeric state 11) and needs-ack.
pub open spec fn listed_states() -> Seq<Seq<char>> {
    seq!["new"@, "under-review"@, "11"@, "needs-ack"@]
}

/// The states whose patches are listed, in query order.
pub fn patch_states() -> (r: Vec<&'static str>)
    ensures
        r@.len() == 4,
        forall|i: int| 0 <= i < 4 ==> #[trigger] r@[i]@ == listed_states()[i],
{
    let mut r: Vec<&'static str> = Vec::new();
    r.push("new");
    r.push("under-review");
    r.push("11");
    r.push("needs-ack");
    r
}

/// The name a state is counted under: `11` is shown as `needs-review-ack`.
pub open spec fn state_display_spec(state: Seq<char>) -> Seq<char> {
    if state == "11"@ {
        "needs-review-ack"@
    } else {
        state
    }
}

/// The name a state is counted under.
pub fn state_display_name(state: &str) -> (r: String)
    ensures
        r@ == state_display_spec(state@),
{
    if same_text(state, "11") {
        owned("needs-review-ack")
    } else {
        owned(state)
    }
}

/// The first page of patches in `state`, newest first, 100 per page.
pub open spec fn patch_list_url_spec(url: Seq<char>, project: Seq<char>, state: Seq<char>) -> Seq<
    char,
> {
    url + "/patches/?project="@ + project + "&state="@ + state + "&order=-date&per_page=100"@
}

/// The first page of patches of the instance in `state`.
pub fn patch_list_url(instance: &PatchworkInstance, state: &str) -> (r: String)
    ensures
        r@ == patch_list_url_spec(instance.url@, instance.project@, state@),
{
    let mut r = owned(instance.url.as_str());
    append(&mut r, "/patches/?project=");
    append(&mut r, instance.project.as_str());
    append(&mut r, "&state=");
    append(&mut r, state);
    append(&mut r, "&order=-date&per_page=100");
    r
}

/// Page `page` of a listing.
pub fn page_url(base_url: &str, page: usize) -> (r: String)
    ensures
        r@ == base_url@ + "&page="@ + nat_decimal(page as nat),
{
    let mut r = owned(base_url);
    append(&mut r, "&page=");
    push_decimal(&mut r, page as u64);
    r
}

/// The number of 100-patch pages that hold `total` patches.
pub open spec fn page_count_spec(total: nat) -> nat {
    ((total + 99) / 100) as nat
}

/// The number of 100-patch pages that hold `total` patches (`total.div_ceil(100)`).
pub fn page_count(total: usize) -> (r: usize)
    ensures
        r == page_count_spec(total as nat),
{
    total / 100 + if total % 100 == 0 {
        0
    } else {
        1
    }
}

/// The URLs of pages 2 to the last page of a listing of `total` patches.
pub fn extra_page_urls(base_url: &str, total: usize) -> (r: Vec<String>)
    ensures
        r@.len() == if page_count_spec(total as nat) > 1 {
            page_count_spec(total as nat) - 1
        } else {
            0
        },
        forall|i: int|
            0 <= i < r@.len() ==> #[trigger] r@[i]@ == base_url@ + "&page="@ + nat_decimal(
                (i + 2) as nat,
            ),
{
    let n = page_count(total);
    let mut r: Vec<String> = Vec::new();
    if n > 1 {
        let mut page: usize = 2;
        while page <= n
            invariant
                2 <= page <= n + 1,
                n == page_count_spec(total as nat),
                n > 1,
                r@.len() == page - 2,
                forall|i: int|
                    0 <= i < r@.len() ==> #[trigger] r@[i]@ == base_url@ + "&page="@
                        + nat_decimal((i + 2) as nat),
            decreases n + 1 - page,
        {
            r.push(page_url(base_url, page));
            page = page + 1;
        }
    }
    r
}

/// The mail replies to a patch.
pub fn comments_url(instance: &PatchworkInstance, patch_id: u64) -> (r: String)
    ensures
        r@ == instance.url@ + "/patches/"@ + nat_decimal(patch_id as nat) + "/comments/"@,
{
    let mut r = owned(instance.url.as_str());
    append(&mut r, "/patches/");
    push_decimal(&mut r, patch_id);
    append(&mut r, "/comments/");
    r
}

/// The full record of a patch, with its diff.
pub fn patch_detail_url(instance: &PatchworkInstance, patch_id: u64) -> (r: String)
    ensures
        r@ == instance.url@ + "/patches/"@ + nat_decimal(patch_id as nat) + "/"@,
{
    let mut r = owned(instance.url.as_str());
    append(&mut r, "/patches/");
    push_decimal(&mut r, patch_id);
    append(&mut r, "/");
    r
}

/// The CI checks of a patch.
pub fn checks_url(instance: &PatchworkInstance, patch_id: u64) -> (r: String)
    ensures
        r@ == instance.url@ + "/patches/"@ + nat_decimal(patch_id as nat) + "/checks/"@,
{
    let mut r = owned(instance.url.as_str());
    append(&mut r, "/patches/");
    push_decimal(&mut r, patch_id);
    append(&mut r, "/checks/");
    r
}

/// Whether a reply body is a bare JSON array (else it is a paged object).
pub fn is_json_array(text: &str) -> (r: bool)
    ensures
        r == has_prefix(trim_start(text@), "["@),
{
    let cs = chars_of(text);
    let mut i: usize = 0;
    assert(cs@.skip(0) =~= cs@);
    while i < cs.len() && crate::text::white_space(cs[i])
        invariant
            cs@ == text@,
            i <= cs.len(),
            trim_start(cs@) == trim_start(cs@.skip(i as int)),
        decreases cs.len() - i,
    {
        assert(cs@.skip(i as int).drop_first() =~= cs@.skip(i + 1));
        i = i + 1;
    }
    if i < cs.len() {
        assert(cs@.skip(i as int)[0] == cs@[i as int]);
    }
    assert(trim_start(cs@.skip(i as int)) == cs@.skip(i as int));
    proof {
        reveal_strlit("[");
    }
    assert("["@ =~= seq!['[']);
    if i < cs.len() && cs[i] == '[' {
        assert(cs@.skip(i as int).subrange(0, 1) =~= "["@);
        true
    } else {
        if i < cs.len() {
            assert(cs@.skip(i as int).subrange(0, 1)[0] != "["@[0]);
        }
        false
    }
}

// ---------------------------------------------------------------------------
// Lines
// ---------------------------------------------------------------------------

/// `s` split at each `\n` (one more piece than there are newlines).
pub open spec fn split_newlines(s: Seq<char>) -> Seq<Seq<char>>
    decreases s.len(),
{
    if s.len() == 0 {
        seq![Seq::empty()]
    } else if s.last() == '\n' {
        split_newlines(s.drop_last()).push(Seq::empty())
    } else {
        let t = split_newlines(s.drop_last());
        t.update(t.len() - 1, t.last().push(s.last()))
    }
}

/// A line without the `\r` of a `\r\n` ending.
pub open spec fn strip_cr(l: Seq<char>) -> Seq<char> {
    if l.len() > 0 && l.last() == '\r' {
        l.drop_last()
    } else {
        l
    }
}

/// The lines of `s` as `str::lines` gives them: split at `\n`, a `\r` before
/// the `\n` removed, and no empty line after a final newline.
pub open spec fn lines_spec(s: Seq<char>) -> Seq<Seq<char>> {
    let pieces = split_newlines(s);
    let ended = pieces.drop_last().map_values(|l: Seq<char>| strip_cr(l));
    if pieces.last().len() == 0 {
        ended
    } else {
        ended.push(pieces.last())
    }
}

proof fn lemma_split_newlines_nonempty(s: Seq<char>)
    ensures
        split_newlines(s).len() >= 1,
    decreases s.len(),
{
    if s.len() > 0 {
        lemma_split_newlines_nonempty(s.drop_last());
    }
}

/// Appends `x` to a list of strings.
fn push_string(v: &mut Vec<String>, x: String)
    ensures
        views(final(v)@) == views(old(v)@).push(x@),
{
    v.push(x);
    assert(views(final(v)@) =~= views(old(v)@).push(x@));
}

/// The lines of `s`, as `str::lines` gives them.
pub fn lines(s: &str) -> (r: Vec<String>)
    ensures
        views(r@) == lines_spec(s@),
{
    let cs = chars_of(s);
    let mut out: Vec<String> = Vec::new();
    let ghost mut raw: Seq<Seq<char>> = Seq::empty();
    let mut start: usize = 0;
    let mut i: usize = 0;
    assert(cs@.take(0) =~= Seq::<char>::empty());
    assert(split_newlines(Seq::<char>::empty()) =~= raw.push(cs@.subrange(0, 0)));
    assert(views(out@) =~= raw.map_values(|l: Seq<char>| strip_cr(l)));
    while i < cs.len()
        invariant
            cs@ == s@,
            start <= i <= cs.len(),
            split_newlines(cs@.take(i as int)) == raw.push(cs@.subrange(start as int, i as int)),
            views(out@) == raw.map_values(|l: Seq<char>| strip_cr(l)),
        decreases cs.len() - i,
    {
        let ghost pre = cs@.take(i as int);
        let ghost before = raw.push(cs@.subrange(start as int, i as int));
        assert(cs@.take(i + 1).drop_last() =~= pre);
        assert(cs@.take(i + 1).last() == cs@[i as int]);
        if cs[i] == '\n' {
            let hi = if i > start && cs[i - 1] == '\r' {
                i - 1
            } else {
                i
            };
            let ghost piece = cs@.subrange(start as int, i as int);
            let line = string_of_range(&cs, start, hi);
            assert(line@ =~= strip_cr(piece));
            push_string(&mut out, line);
            proof {
                assert(raw.push(piece).map_values(|l: Seq<char>| strip_cr(l)) =~= raw.map_values(
                    |l: Seq<char>| strip_cr(l),
                ).push(strip_cr(piece)));
                raw = raw.push(piece);
            }
            start = i + 1;
            assert(split_newlines(cs@.take(i + 1)) == before.push(Seq::empty()));
            assert(cs@.subrange(start as int, i + 1) =~= Seq::<char>::empty());
            assert(before == raw);
            assert(split_newlines(cs@.take(i + 1)) =~= raw.push(
                cs@.subrange(start as int, i + 1),
            ));
        } else {
            assert(split_newlines(cs@.take(i + 1)) == before.update(
                before.len() - 1,
                before.last().push(cs@[i as int]),
            ));
            assert(cs@.subrange(start as int, i as int).push(cs@[i as int]) =~= cs@.subrange(
                start as int,
                i + 1,
            ));
            assert(before.last() == cs@.subrange(start as int, i as int));
            assert(before.update(before.len() - 1, cs@.subrange(start as int, i + 1)) =~= raw.push(
                cs@.subrange(start as int, i + 1),
            ));
            assert(split_newlines(cs@.take(i + 1)) =~= raw.push(
                cs@.subrange(start as int, i + 1),
            ));
        }
        i = i + 1;
    }
    assert(cs@.take(cs.len() as int) =~= cs@);
    let ghost pieces = split_newlines(cs@);
    assert(pieces.drop_last() =~= raw);
    if start < cs.len() {
        let last = string_of_range(&cs, start, cs.len());
        push_string(&mut out, last);
    }
    out
}

// ---------------------------------------------------------------------------
// What the replies say
// ---------------------------------------------------------------------------

/// A diff line that adds or removes a line of code (not a file header).
pub open spec fn is_change_line(l: Seq<char>) -> bool {
    (has_prefix(l, "+"@) || has_prefix(l, "-"@)) && !has_prefix(l, "+++"@) && !has_prefix(
        l,
        "---"@,
    )
}

/// The number of changed lines of a diff.
pub open spec fn diff_change_count(diff: Seq<char>) -> nat {
    lines_spec(diff).filter(|l: Seq<char>| is_change_line(l)).len()
}

fn change_line(l: &str) -> (r: bool)
    ensures
        r == is_change_line(l@),
{
    (crate::text::starts_with(l, "+") || crate::text::starts_with(l, "-"))
        && !crate::text::starts_with(l, "+++") && !crate::text::starts_with(l, "---")
}

/// The number of added and removed lines of a diff, file headers excluded
/// (as a `u32`, wrapping like `as u32`).
pub fn count_diff_lines(diff: &str) -> (r: u32)
    ensures
        r == diff_change_count(diff@) as u32,
{
    let ls = lines(diff);
    let ghost vs = views(ls@);
    let mut n: usize = 0;
    for i in 0..ls.len()
        invariant
            vs == views(ls@),
            vs.len() == ls@.len(),
            n == vs.take(i as int).filter(|l: Seq<char>| is_change_line(l)).len(),
            n <= i,
    {
        proof {
            reveal_with_fuel(Seq::<_>::filter, 1);
            assert(vs.take(i + 1).drop_last() =~= vs.take(i as int));
            assert(vs[i as int] == ls@[i as int]@);
        }
        if change_line(ls[i].as_str()) {
            n = n + 1;
        }
    }
    assert(vs.take(ls.len() as int) =~= vs);
    n as u32
}

/// A reply line (trimmed) that carries a Reviewed-by trailer.
pub open spec fn is_reviewed_line(l: Seq<char>) -> bool {
    has_prefix(trim(l), "Reviewed-by:"@)
}

/// A reply line (trimmed) that carries an Acked-by trailer and no Reviewed-by.
pub open spec fn is_acked_line(l: Seq<char>) -> bool {
    !is_reviewed_line(l) && has_prefix(trim(l), "Acked-by:"@)
}

/// The Reviewed-by lines of all replies.
pub open spec fn reviewed_total(comments: Seq<Seq<char>>) -> nat
    decreases comments.len(),
{
    if comments.len() == 0 {
        0
    } else {
        reviewed_total(comments.drop_last()) + lines_spec(comments.last()).filter(
            |l: Seq<char>| is_reviewed_line(l),
        ).len()
    }
}

/// The Acked-by lines of all replies.
pub open spec fn acked_total(comments: Seq<Seq<char>>) -> nat
    decreases comments.len(),
{
    if comments.len() == 0 {
        0
    } else {
        acked_total(comments.drop_last()) + lines_spec(comments.last()).filter(
            |l: Seq<char>| is_acked_line(l),
        ).len()
    }
}

/// Counts the Reviewed-by and Acked-by trailers in the replies to a patch.
pub fn count_review_tags(comments: &Vec<String>) -> (r: (u32, u32))
    requires
        reviewed_total(views(comments@)) <= u32::MAX,
        acked_total(views(comments@)) <= u32::MAX,
    ensures
        r.0 == reviewed_total(views(comments@)),
        r.1 == acked_total(views(comments@)),
{
    let ghost cv = views(comments@);
    let mut reviewed: u32 = 0;
    let mut acked: u32 = 0;
    for c in 0..comments.len()
        invariant
            cv == views(comments@),
            cv.len() == comments@.len(),
            reviewed_total(cv) <= u32::MAX,
            acked_total(cv) <= u32::MAX,
            reviewed == reviewed_total(cv.take(c as int)),
            acked == acked_total(cv.take(c as int)),
    {
        proof {
            assert(cv.take(c + 1).drop_last() =~= cv.take(c as int));
            assert(cv.take(c + 1).last() == comments@[c as int]@);
            lemma_totals_prefix(cv, c + 1);
        }
        let ls = lines(comments[c].as_str());
        let ghost vs = views(ls@);
        let mut i: usize = 0;
        while i < ls.len()
            invariant
                vs == views(ls@),
                vs.len() == ls@.len(),
                i <= ls.len(),
                reviewed_total(cv.take(c as int)) + vs.filter(|l: Seq<char>| is_reviewed_line(l)).len()
                    <= u32::MAX,
                acked_total(cv.take(c as int)) + vs.filter(|l: Seq<char>| is_acked_line(l)).len()
                    <= u32::MAX,
                reviewed == reviewed_total(cv.take(c as int)) + vs.take(i as int).filter(
                    |l: Seq<char>| is_reviewed_line(l),
                ).len(),
                acked == acked_total(cv.take(c as int)) + vs.take(i as int).filter(
                    |l: Seq<char>| is_acked_line(l),
                ).len(),
            decreases ls.len() - i,
        {
            proof {
                reveal_with_fuel(Seq::<_>::filter, 1);
                assert(vs.take(i + 1).drop_last() =~= vs.take(i as int));
                assert(vs[i as int] == ls@[i as int]@);
                lemma_filter_len_prefix(vs, i + 1, |l: Seq<char>| is_reviewed_line(l));
                lemma_filter_len_prefix(vs, i + 1, |l: Seq<char>| is_acked_line(l));
            }
            let t = trimmed(ls[i].as_str());
            if crate::text::starts_with(t.as_str(), "Reviewed-by:") {
                reviewed = reviewed + 1;
            } else if crate::text::starts_with(t.as_str(), "Acked-by:") {
                acked = acked + 1;
            }
            i = i + 1;
        }
        assert(vs.take(ls.len() as int) =~= vs);
    }
    assert(cv.take(comments.len() as int) =~= cv);
    (reviewed, acked)
}

/// Whether the Reviewed-by and Acked-by totals of the replies fit a `u32`
/// (the condition `count_review_tags` asks for).
pub fn review_tags_fit(comments: &Vec<String>) -> (r: bool)
    ensures
        r == (reviewed_total(views(comments@)) <= u32::MAX && acked_total(views(comments@))
            <= u32::MAX),
{
    let ghost cv = views(comments@);
    let mut reviewed: u64 = 0;
    let mut acked: u64 = 0;
    for c in 0..comments.len()
        invariant
            cv == views(comments@),
            cv.len() == comments@.len(),
            reviewed <= u32::MAX,
            acked <= u32::MAX,
            reviewed == reviewed_total(cv.take(c as int)),
            acked == acked_total(cv.take(c as int)),
    {
        proof {
            assert(cv.take(c + 1).drop_last() =~= cv.take(c as int));
            assert(cv.take(c + 1).last() == comments@[c as int]@);
            lemma_totals_prefix(cv, c + 1);
        }
        let ls = lines(comments[c].as_str());
        let ghost vs = views(ls@);
        let mut i: usize = 0;
        while i < ls.len()
            invariant
                vs == views(ls@),
                vs.len() == ls@.len(),
                i <= ls.len(),
                cv == views(comments@),
                c < cv.len(),
                reviewed_total(cv.take(c as int)) + vs.filter(|l: Seq<char>| is_reviewed_line(l)).len()
                    <= reviewed_total(cv),
                acked_total(cv.take(c as int)) + vs.filter(|l: Seq<char>| is_acked_line(l)).len()
                    <= acked_total(cv),
                reviewed <= u32::MAX,
                acked <= u32::MAX,
                reviewed == reviewed_total(cv.take(c as int)) + vs.take(i as int).filter(
                    |l: Seq<char>| is_reviewed_line(l),
                ).len(),
                acked == acked_total(cv.take(c as int)) + vs.take(i as int).filter(
                    |l: Seq<char>| is_acked_line(l),
                ).len(),
            decreases ls.len() - i,
        {
            proof {
                reveal_with_fuel(Seq::<_>::filter, 1);
                assert(vs.take(i + 1).drop_last() =~= vs.take(i as int));
                assert(vs[i as int] == ls@[i as int]@);
                lemma_filter_len_prefix(vs, i + 1, |l: Seq<char>| is_reviewed_line(l));
                lemma_filter_len_prefix(vs, i + 1, |l: Seq<char>| is_acked_line(l));
            }
            let t = trimmed(ls[i].as_str());
            if crate::text::starts_with(t.as_str(), "Reviewed-by:") {
                reviewed = reviewed + 1;
            } else if crate::text::starts_with(t.as_str(), "Acked-by:") {
                acked = acked + 1;
            }
            if reviewed > 0xffff_ffff || acked > 0xffff_ffff {
                return false;
            }
            i = i + 1;
        }
        assert(vs.take(ls.len() as int) =~= vs);
    }
    assert(cv.take(comments.len() as int) =~= cv);
    true
}

proof fn lemma_filter_len_prefix(s: Seq<Seq<char>>, i: int, p: spec_fn(Seq<char>) -> bool)
    requires
        0 <= i <= s.len(),
    ensures
        s.take(i).filter(p).len() <= s.filter(p).len(),
    decreases s.len() - i,
{
    reveal_with_fuel(Seq::<_>::filter, 1);
    if i < s.len() {
        lemma_filter_len_prefix(s, i + 1, p);
        assert(s.take(i + 1).drop_last() =~= s.take(i));
    } else {
        assert(s.take(i) =~= s);
    }
}

proof fn lemma_totals_prefix(cv: Seq<Seq<char>>, k: int)
    requires
        0 <= k <= cv.len(),
    ensures
        reviewed_total(cv.take(k)) <= reviewed_total(cv),
        acked_total(cv.take(k)) <= acked_total(cv),
    decreases cv.len() - k,
{
    if k < cv.len() {
        lemma_totals_prefix(cv, k + 1);
        assert(cv.take(k + 1).drop_last() =~= cv.take(k));
    } else {
        assert(cv.take(k) =~= cv);
    }
}

/// The number of check results in a given state.
pub open spec fn state_count(states: Seq<Seq<char>>, state: Seq<char>) -> nat {
    states.filter(|s: Seq<char>| s == state).len()
}

/// Counts CI results: (passed, failed, total), each as a `u32` (wrapping like `as u32`).
pub fn tally_checks(states: &Vec<String>) -> (r: (u32, u32, u32))
    ensures
        r.0 == state_count(views(states@), "success"@) as u32,
        r.1 == state_count(views(states@), "fail"@) as u32,
        r.2 == states@.len() as u32,
{
    let ghost vs = views(states@);
    let mut passed: usize = 0;
    let mut failed: usize = 0;
    for i in 0..states.len()
        invariant
            vs == views(states@),
            vs.len() == states@.len(),
            passed == state_count(vs.take(i as int), "success"@),
            failed == state_count(vs.take(i as int), "fail"@),
            passed <= i,
            failed <= i,
    {
        proof {
            reveal_with_fuel(Seq::<_>::filter, 1);
            assert(vs.take(i + 1).drop_last() =~= vs.take(i as int));
            assert(vs[i as int] == states@[i as int]@);
        }
        if same_text(states[i].as_str(), "success") {
            passed = passed + 1;
        }
        if same_text(states[i].as_str(), "fail") {
            failed = failed + 1;
        }
    }
    assert(vs.take(states.len() as int) =~= vs);
    (passed as u32, failed as u32, states.len() as u32)
}

// ---------------------------------------------------------------------------
// Patches per state
// ---------------------------------------------------------------------------

/// The count recorded last for `k` in `e`.
pub open spec fn lookup(e: Seq<(String, usize)>, k: Seq<char>) -> Option<usize>
    decreases e.len(),
{
    if e.len() == 0 {
        None
    } else if e.last().0@ == k {
        Some(e.last().1)
    } else {
        lookup(e.drop_last(), k)
    }
}

/// No state name occurs twice in `e`.
pub open spec fn keys_distinct(e: Seq<(String, usize)>) -> bool {
    forall|i: int, j: int| 0 <= i < j < e.len() ==> (#[trigger] e[i]).0@ != (#[trigger] e[j]).0@
}

proof fn lemma_lookup_absent(e: Seq<(String, usize)>, k: Seq<char>)
    requires
        forall|i: int| 0 <= i < e.len() ==> (#[trigger] e[i]).0@ != k,
    ensures
        lookup(e, k) is None,
    decreases e.len(),
{
    if e.len() > 0 {
        assert(e.last() == e[e.len() - 1]);
        assert forall|i: int| 0 <= i < e.drop_last().len() implies (
        #[trigger] e.drop_last()[i]).0@ != k by {
            assert(e.drop_last()[i] == e[i]);
        }
        lemma_lookup_absent(e.drop_last(), k);
    }
}

proof fn lemma_lookup_found(e: Seq<(String, usize)>, i: int)
    requires
        keys_distinct(e),
        0 <= i < e.len(),
    ensures
        lookup(e, e[i].0@) == Some(e[i].1),
    decreases e.len(),
{
    if i < e.len() - 1 {
        assert(e.last() == e[e.len() - 1]);
        assert(e[i].0@ != e[e.len() - 1].0@);
        assert(e.drop_last()[i] == e[i]);
        assert forall|a: int, b: int| 0 <= a < b < e.drop_last().len() implies (
        #[trigger] e.drop_last()[a]).0@ != (#[trigger] e.drop_last()[b]).0@ by {
            assert(e.drop_last()[a] == e[a]);
            assert(e.drop_last()[b] == e[b]);
        }
        lemma_lookup_found(e.drop_last(), i);
    }
}

proof fn lemma_lookup_update(e: Seq<(String, usize)>, i: int, v: usize, k: Seq<char>)
    requires
        keys_distinct(e),
        0 <= i < e.len(),
    ensures
        lookup(e.update(i, (e[i].0, v)), k) == if k == e[i].0@ {
            Some(v)
        } else {
            lookup(e, k)
        },
    decreases e.len(),
{
    let u = e.update(i, (e[i].0, v));
    if i == e.len() - 1 {
        assert(u.drop_last() =~= e.drop_last());
        if k != e[i].0@ {
            assert(e.last() == e[i]);
        }
    } else {
        assert(u.last() == e.last());
        assert(e.last() == e[e.len() - 1]);
        assert(u.drop_last() =~= e.drop_last().update(i, (e[i].0, v)));
        assert(e.drop_last()[i] == e[i]);
        assert forall|a: int, b: int| 0 <= a < b < e.drop_last().len() implies (
        #[trigger] e.drop_last()[a]).0@ != (#[trigger] e.drop_last()[b]).0@ by {
            assert(e.drop_last()[a] == e[a]);
            assert(e.drop_last()[b] == e[b]);
        }
        lemma_lookup_update(e.drop_last(), i, v, k);
        if k == e[i].0@ {
            assert(e[i].0@ != e[e.len() - 1].0@);
        }
    }
}

/// The number of patches fetched per state, keyed by the state's display name.
#[derive(Debug)]
pub struct StateCounts {
    entries: Vec<(String, usize)>,
}

impl View for StateCounts {
    type V = Map<Seq<char>, usize>;

    closed spec fn view(&self) -> Map<Seq<char>, usize> {
        Map::new(
            |k: Seq<char>| lookup(self.entries@, k) is Some,
            |k: Seq<char>| lookup(self.entries@, k).unwrap(),
        )
    }
}

/// The count for `k`, 0 when none was recorded.
pub open spec fn count_of(m: Map<Seq<char>, usize>, k: Seq<char>) -> nat {
    if m.contains_key(k) {
        m[k] as nat
    } else {
        0
    }
}

impl StateCounts {
    #[verifier::type_invariant]
    closed spec fn distinct(&self) -> bool {
        keys_distinct(self.entries@)
    }

    /// No counts.
    pub fn new() -> (r: Self)
        ensures
            r@ == Map::<Seq<char>, usize>::empty(),
    {
        let r = StateCounts { entries: Vec::new() };
        assert(r@ =~= Map::<Seq<char>, usize>::empty());
        r
    }

    /// Where `key` is recorded.
    fn position(&self, key: &str) -> (r: Option<usize>)
        ensures
            match r {
                Some(i) => i < self.entries@.len() && self.entries@[i as int].0@ == key@,
                None => forall|i: int|
                    0 <= i < self.entries@.len() ==> (#[trigger] self.entries@[i]).0@ != key@,
            },
    {
        let mut i: usize = 0;
        while i < self.entries.len()
            invariant
                i <= self.entries@.len(),
                forall|q: int| 0 <= q < i ==> (#[trigger] self.entries@[q]).0@ != key@,
            decreases self.entries@.len() - i,
        {
            if same_text(self.entries[i].0.as_str(), key) {
                return Some(i);
            }
            i = i + 1;
        }
        None
    }

    /// The count recorded for `key`, 0 when there is none.
    pub fn get(&self, key: &str) -> (r: usize)
        ensures
            r == count_of(self@, key@),
    {
        proof {
            use_type_invariant(self);
        }
        match self.position(key) {
            Some(i) => {
                proof {
                    lemma_lookup_found(self.entries@, i as int);
                }
                self.entries[i].1
            },
            None => {
                proof {
                    lemma_lookup_absent(self.entries@, key@);
                }
                0
            },
        }
    }

    /// Records `value` for `key`, replacing what was recorded.
    pub fn insert(&mut self, key: &str, value: usize)
        ensures
            final(self)@ == old(self)@.insert(key@, value),
    {
        proof {
            use_type_invariant(&*self);
        }
        let ghost e = self.entries@;
        match self.position(key) {
            Some(i) => {
                let k = self.entries[i].0.clone();
                let mut entries: Vec<(String, usize)> = Vec::new();
                std::mem::swap(&mut entries, &mut self.entries);
                entries.set(i, (k, value));
                proof {
                    assert(entries@ =~= e.update(i as int, (e[i as int].0, value)));
                    assert forall|a: int, b: int| 0 <= a < b < entries@.len() implies (
                    #[trigger] entries@[a]).0@ != (#[trigger] entries@[b]).0@ by {
                        assert(entries@[a].0@ == e[a].0@);
                        assert(entries@[b].0@ == e[b].0@);
                    }
                    assert forall|k: Seq<char>| #[trigger] lookup(entries@, k) == if k == key@ {
                        Some(value)
                    } else {
                        lookup(e, k)
                    } by {
                        lemma_lookup_update(e, i as int, value, k);
                    }
                }
                self.entries = entries;
            },
            None => {
                let mut entries: Vec<(String, usize)> = Vec::new();
                std::mem::swap(&mut entries, &mut self.entries);
                entries.push((key.to_owned(), value));
                proof {
                    assert forall|a: int, b: int| 0 <= a < b < entries@.len() implies (
                    #[trigger] entries@[a]).0@ != (#[trigger] entries@[b]).0@ by {
                        if b < e.len() {
                            assert(entries@[a] == e[a]);
                            assert(entries@[b] == e[b]);
                        } else {
                            assert(entries@[a] == e[a]);
                        }
                    }
                    assert(entries@.drop_last() =~= e);
                }
                self.entries = entries;
            },
        }
        assert(self@ =~= old(self)@.insert(key@, value));
    }

    /// Adds `value` to the count for `key`.
    pub fn add(&mut self, key: &str, value: usize)
        requires
            count_of(old(self)@, key@) + value <= usize::MAX,
        ensures
            final(self)@ == old(self)@.insert(key@, (count_of(old(self)@, key@) + value) as usize),
    {
        let current = self.get(key);
        self.insert(key, current + value);
    }
}

/// The counts of `a` and `b` added key by key.
pub open spec fn merged_counts(a: Map<Seq<char>, usize>, b: Map<Seq<char>, usize>) -> Map<
    Seq<char>,
    usize,
> {
    Map::new(
        |k: Seq<char>| a.contains_key(k) || b.contains_key(k),
        |k: Seq<char>| (count_of(a, k) + count_of(b, k)) as usize,
    )
}

/// The map that entries `e` stand for.
pub open spec fn entries_map(e: Seq<(String, usize)>) -> Map<Seq<char>, usize> {
    Map::new(|k: Seq<char>| lookup(e, k) is Some, |k: Seq<char>| lookup(e, k).unwrap())
}

impl StateCounts {
    /// Adds the counts of `other`, state by state.
    pub fn merge(&mut self, other: &StateCounts)
        requires
            forall|k: Seq<char>|
                #![trigger count_of(old(self)@, k)]
                count_of(old(self)@, k) + count_of(other@, k) <= usize::MAX,
        ensures
            final(self)@ == merged_counts(old(self)@, other@),
    {
        proof {
            use_type_invariant(other);
        }
        let ghost start = self@;
        let ghost oe = other.entries@;
        assert(entries_map(oe.take(0)) =~= Map::<Seq<char>, usize>::empty());
        assert(self@ =~= merged_counts(start, entries_map(oe.take(0))));
        for j in 0..other.entries.len()
            invariant
                oe == other.entries@,
                keys_distinct(oe),
                other@ == entries_map(oe),
                forall|k: Seq<char>|
                    #![trigger count_of(start, k)]
                    count_of(start, k) + count_of(other@, k) <= usize::MAX,
                self@ == merged_counts(start, entries_map(oe.take(j as int))),
        {
            let ghost prev = self@;
            let ghost b = entries_map(oe.take(j as int));
            let ghost k = oe[j as int].0@;
            let ghost v = oe[j as int].1;
            proof {
                lemma_lookup_found(oe, j as int);
                assert(count_of(other@, k) == v);
                assert forall|q: int| 0 <= q < oe.take(j as int).len() implies (
                #[trigger] oe.take(j as int)[q]).0@ != k by {
                    assert(oe.take(j as int)[q] == oe[q]);
                }
                lemma_lookup_absent(oe.take(j as int), k);
                assert(!b.contains_key(k));
                assert(count_of(prev, k) == count_of(start, k));
                assert(count_of(start, k) + v <= usize::MAX);
            }
            self.add(other.entries[j].0.as_str(), other.entries[j].1);
            proof {
                let nb = entries_map(oe.take(j + 1));
                assert(oe.take(j + 1).drop_last() =~= oe.take(j as int));
                assert(oe.take(j + 1).last() == oe[j as int]);
                assert(nb =~= b.insert(k, v));
                assert(self@ =~= merged_counts(start, nb));
            }
        }
        assert(oe.take(oe.len() as int) =~= oe);
    }

    /// Whether the counts of `other` can be added to these without overflowing
    /// a count (the condition `merge` asks for).
    pub fn merge_fits(&self, other: &StateCounts) -> (r: bool)
        ensures
            r == forall|k: Seq<char>|
                #![trigger count_of(self@, k)]
                count_of(self@, k) + count_of(other@, k) <= usize::MAX,
    {
        proof {
            use_type_invariant(other);
        }
        let ghost oe = other.entries@;
        for j in 0..other.entries.len()
            invariant
                oe == other.entries@,
                keys_distinct(oe),
                forall|q: int|
                    0 <= q < j ==> #[trigger] count_of(self@, oe[q].0@) + oe[q].1 <= usize::MAX,
        {
            let v = other.entries[j].1;
            let cur = self.get(other.entries[j].0.as_str());
            if cur > usize::MAX - v {
                proof {
                    lemma_lookup_found(oe, j as int);
                    let k = oe[j as int].0@;
                    assert(count_of(other@, k) == v);
                    assert(!(count_of(self@, k) + count_of(other@, k) <= usize::MAX));
                }
                return false;
            }
        }
        proof {
            assert forall|k: Seq<char>|
                #![trigger count_of(self@, k)]
                count_of(self@, k) + count_of(other@, k) <= usize::MAX by {
                if other@.contains_key(k) {
                    if !(exists|q: int| 0 <= q < oe.len() && (#[trigger] oe[q]).0@ == k) {
                        lemma_lookup_absent(oe, k);
                    }
                    let q = choose|q: int| 0 <= q < oe.len() && (#[trigger] oe[q]).0@ == k;
                    lemma_lookup_found(oe, q);
                    assert(count_of(self@, oe[q].0@) + oe[q].1 <= usize::MAX);
                }
            }
        }
        true
    }
}

// ---------------------------------------------------------------------------
// Collecting the fetched lists
// ---------------------------------------------------------------------------

/// `s` cut to at most `max` items, as `Vec::truncate` does.
pub open spec fn truncated<T>(s: Seq<T>, max: nat) -> Seq<T> {
    if s.len() > max {
        s.take(max as int)
    } else {
        s
    }
}

/// The patches of the successful fetches, in order.
pub open spec fn fetched_patches(results: Seq<(String, Option<Vec<RawPatch>>)>) -> Seq<RawPatch>
    decreases results.len(),
{
    if results.len() == 0 {
        Seq::empty()
    } else {
        fetched_patches(results.drop_last()) + match results.last().1 {
            Some(v) => v@,
            None => Seq::empty(),
        }
    }
}

/// The number of patches each successful fetch returned, by the state's display name.
pub open spec fn fetched_counts(results: Seq<(String, Option<Vec<RawPatch>>)>) -> Map<
    Seq<char>,
    usize,
>
    decreases results.len(),
{
    if results.len() == 0 {
        Map::empty()
    } else {
        let prev = fetched_counts(results.drop_last());
        match results.last().1 {
            Some(v) => prev.insert(state_display_spec(results.last().0@), v@.len() as usize),
            None => prev,
        }
    }
}

/// Joins the per-state patch lists (`None` for a state whose fetch failed),
/// records how many patches each state gave, and keeps at most `max_patches`.
pub fn collect_states(results: Vec<(String, Option<Vec<RawPatch>>)>, max_patches: usize) -> (r: (
    Vec<RawPatch>,
    StateCounts,
))
    ensures
        r.0@ == truncated(fetched_patches(results@), max_patches as nat),
        r.1@ == fetched_counts(results@),
{
    let ghost orig = results@;
    let mut all: Vec<RawPatch> = Vec::new();
    let mut counts = StateCounts::new();
    assert(orig.take(0) =~= Seq::<(String, Option<Vec<RawPatch>>)>::empty());
    for item in it: results.into_iter()
        invariant
            it.seq() == orig,
            all@ == fetched_patches(orig.take(it.index() as int)),
            counts@ == fetched_counts(orig.take(it.index() as int)),
    {
        let ghost i = it.index() as int;
        proof {
            assert(orig.take(i + 1).drop_last() =~= orig.take(i));
            assert(orig.take(i + 1).last() == item);
        }
        let (state, result) = item;
        match result {
            Some(mut patches) => {
                let display = state_display_name(state.as_str());
                counts.insert(display.as_str(), patches.len());
                all.append(&mut patches);
            },
            None => {},
        }
    }
    assert(orig.take(orig.len() as int) =~= orig);
    all.truncate(max_patches);
    (all, counts)
}

/// The patches of the pages that were fetched, in order.
pub open spec fn page_patches(pages: Seq<Option<Vec<RawPatch>>>) -> Seq<RawPatch>
    decreases pages.len(),
{
    if pages.len() == 0 {
        Seq::empty()
    } else {
        page_patches(pages.drop_last()) + match pages.last() {
            Some(v) => v@,
            None => Seq::empty(),
        }
    }
}

/// Joins the first page with the further pages that were fetched (`None` for
/// a failed page) and keeps at most `max_patches`.
pub fn collect_pages(first: Vec<RawPatch>, pages: Vec<Option<Vec<RawPatch>>>, max_patches: usize) -> (r:
    Vec<RawPatch>)
    ensures
        r@ == truncated(first@ + page_patches(pages@), max_patches as nat),
{
    let ghost orig = pages@;
    let mut all = first;
    let ghost head = all@;
    assert(orig.take(0) =~= Seq::<Option<Vec<RawPatch>>>::empty());
    assert(all@ =~= head + page_patches(orig.take(0)));
    for page in it: pages.into_iter()
        invariant
            it.seq() == orig,
            all@ == head + page_patches(orig.take(it.index() as int)),
    {
        let ghost i = it.index() as int;
        proof {
            assert(orig.take(i + 1).drop_last() =~= orig.take(i));
            assert(orig.take(i + 1).last() == page);
        }
        match page {
            Some(mut patches) => {
                all.append(&mut patches);
            },
            None => {},
        }
        assert(all@ =~= head + page_patches(orig.take(i + 1)));
    }
    assert(orig.take(orig.len() as int) =~= orig);
    all.truncate(max_patches);
    all
}

// ---------------------------------------------------------------------------
// Laws
// ---------------------------------------------------------------------------

/// Merging per-state counts does not depend on the order of the operands.
pub proof fn law_merge_commutes(a: Map<Seq<char>, usize>, b: Map<Seq<char>, usize>)
    ensures
        merged_counts(a, b) == merged_counts(b, a),
{
    assert(merged_counts(a, b) =~= merged_counts(b, a));
}

/// Merging no counts changes nothing.
pub proof fn law_merge_empty(a: Map<Seq<char>, usize>)
    ensures
        merged_counts(a, Map::empty()) == a,
{
    assert forall|k: Seq<char>| #[trigger] a.contains_key(k) implies merged_counts(
        a,
        Map::empty(),
    )[k] == a[k] by {}
    assert(merged_counts(a, Map::empty()) =~= a);
}

/// A listing never holds more than the patch limit.
pub proof fn law_truncated_within_limit<T>(s: Seq<T>, max: nat)
    ensures
        truncated(s, max).len() <= max,
        truncated(s, max).len() <= s.len(),
        s.len() <= max ==> truncated(s, max) == s,
{
}

proof fn lemma_filter_disjoint_add_text(
    s: Seq<Seq<char>>,
    a: spec_fn(Seq<char>) -> bool,
    b: spec_fn(Seq<char>) -> bool,
)
    requires
        forall|x: Seq<char>| !(#[trigger] a(x) && b(x)),
    ensures
        s.filter(a).len() + s.filter(b).len() <= s.len(),
    decreases s.len(),
{
    reveal_with_fuel(Seq::<_>::filter, 1);
    if s.len() > 0 {
        lemma_filter_disjoint_add_text(s.drop_last(), a, b);
    }
}

/// Passed and failed checks together never exceed the checks run.
pub proof fn law_checks_add_up(states: Seq<Seq<char>>)
    ensures
        state_count(states, "success"@) + state_count(states, "fail"@) <= states.len(),
{
    reveal_strlit("success");
    reveal_strlit("fail");
    assert("success"@.len() != "fail"@.len());
    lemma_filter_disjoint_add_text(
        states,
        |s: Seq<char>| s == "success"@,
        |s: Seq<char>| s == "fail"@,
    );
}

/// A diff never has more changed lines than lines.
pub proof fn law_changed_lines_bounded(diff: Seq<char>)
    ensures
        diff_change_count(diff) <= lines_spec(diff).len(),
{
    lines_spec(diff).lemma_filter_len(|l: Seq<char>| is_change_line(l));
}

} // verus!
