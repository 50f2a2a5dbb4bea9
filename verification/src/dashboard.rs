//! Turning the fetched patch lists into the review queue: dropping cover
//! letters, scoring, folding in the comment and CI counts, ordering by
//! priority and hiding superseded versions.
use std::collections::HashMap;
use vstd::prelude::*;

use crate::patchwork::{count_of, merged_counts, RawPatch, StateCounts};
use crate::scoring::{
    has_newer_version, is_cover, mark_superseded, patch_signals, score_patch, scored_from,
    with_superseded, ScoredPatch, COVER_PATTERN,
};
use crate::patterns::pattern_matches;

verus! {

// ---------------------------------------------------------------------------
// Priority order
// ---------------------------------------------------------------------------

/// `a` comes strictly before `b` in the queue: higher score, or the same score
/// and older.
pub open spec fn ranks_before(a: ScoredPatch, b: ScoredPatch) -> bool {
    a.score > b.score || (a.score == b.score && a.days > b.days)
}

/// `a` and `b` have the same place in the priority order.
pub open spec fn same_rank(a: ScoredPatch, b: ScoredPatch) -> bool {
    a.score == b.score && a.days == b.days
}

/// `r` is `v` reordered by `perm` (`r[k]` is `v[perm[k]]`), sorted by priority,
/// with patches of the same rank kept in their original order.
pub open spec fn stable_priority_sort(r: Seq<ScoredPatch>, v: Seq<ScoredPatch>, perm: Seq<int>) -> bool {
    &&& r.len() == v.len()
    &&& perm.len() == r.len()
    &&& forall|k: int| 0 <= k < r.len() ==> 0 <= #[trigger] perm[k] < v.len() && r[k] == v[perm[k]]
    &&& forall|k1: int, k2: int|
        0 <= k1 < k2 < r.len() ==> #[trigger] perm[k1] != #[trigger] perm[k2]
    &&& forall|k1: int, k2: int|
        0 <= k1 < k2 < r.len() ==> !ranks_before(#[trigger] r[k2], #[trigger] r[k1])
    &&& forall|k1: int, k2: int|
        0 <= k1 < k2 < r.len() && same_rank(#[trigger] r[k1], #[trigger] r[k2]) ==> perm[k1]
            < perm[k2]
}

/// `r` is `v` sorted by priority, keeping the original order of equal ranks
/// (what a stable sort on score, then age, both descending, gives).
pub open spec fn is_priority_order(r: Seq<ScoredPatch>, v: Seq<ScoredPatch>) -> bool {
    exists|perm: Seq<int>| stable_priority_sort(r, v, perm)
}

fn ranks_before_exec(a: &ScoredPatch, b: &ScoredPatch) -> (r: bool)
    ensures
        r == ranks_before(*a, *b),
{
    a.score > b.score || (a.score == b.score && a.days > b.days)
}

/// Sorts by score, then by age, both descending; equal ranks keep their order.
pub fn sort_by_priority(v: Vec<ScoredPatch>) -> (r: Vec<ScoredPatch>)
    ensures
        is_priority_order(r@, v@),
{
    let ghost orig = v@;
    let mut input = v;
    let mut r: Vec<ScoredPatch> = Vec::new();
    let ghost mut perm: Seq<int> = Seq::empty();
    assert(input@ =~= orig.take(orig.len() as int));
    while input.len() > 0
        invariant
            input@ == orig.take(input.len() as int),
            input.len() <= orig.len(),
            r.len() + input.len() == orig.len(),
            perm.len() == r.len(),
            forall|k: int|
                0 <= k < r.len() ==> input.len() <= #[trigger] perm[k] < orig.len() && r@[k]
                    == orig[perm[k]],
            forall|k1: int, k2: int|
                0 <= k1 < k2 < r.len() ==> #[trigger] perm[k1] != #[trigger] perm[k2],
            forall|k1: int, k2: int|
                0 <= k1 < k2 < r.len() ==> !ranks_before(#[trigger] r@[k2], #[trigger] r@[k1]),
            forall|k1: int, k2: int|
                0 <= k1 < k2 < r.len() && same_rank(#[trigger] r@[k1], #[trigger] r@[k2])
                    ==> perm[k1] < perm[k2],
        decreases input.len(),
    {
        let ghost m = input.len() as int;
        let x = input.pop().unwrap();
        assert(x == orig[m - 1]);
        assert(input@ =~= orig.take(input.len() as int));
        let mut pos: usize = 0;
        while pos < r.len() && ranks_before_exec(&r[pos], &x)
            invariant
                pos <= r.len(),
                forall|k: int| 0 <= k < pos ==> ranks_before(#[trigger] r@[k], x),
            decreases r.len() - pos,
        {
            pos = pos + 1;
        }
        let ghost old_r = r@;
        let ghost old_perm = perm;
        proof {
            assert forall|k: int| pos <= k < old_r.len() implies !ranks_before(
                #[trigger] old_r[k],
                x,
            ) by {
                if k > pos {
                    assert(!ranks_before(old_r[k], old_r[pos as int]));
                }
            }
        }
        r.insert(pos, x);
        proof {
            perm = perm.insert(pos as int, m - 1);
            assert forall|k: int| 0 <= k < r.len() implies input.len() <= #[trigger] perm[k]
                < orig.len() && r@[k] == orig[perm[k]] by {
                if k < pos {
                    assert(perm[k] == old_perm[k]);
                } else if k > pos {
                    assert(perm[k] == old_perm[k - 1]);
                }
            }
            assert forall|k1: int, k2: int| 0 <= k1 < k2 < r.len() implies #[trigger] perm[k1]
                != #[trigger] perm[k2] by {
                if k1 != pos && k2 != pos {
                    let a = if k1 < pos {
                        k1
                    } else {
                        k1 - 1
                    };
                    let b = if k2 < pos {
                        k2
                    } else {
                        k2 - 1
                    };
                    assert(old_perm[a] != old_perm[b]);
                } else if k1 == pos {
                    assert(perm[k2] == old_perm[k2 - 1]);
                } else {
                    assert(perm[k1] == old_perm[k1]);
                }
            }
            assert forall|k1: int, k2: int| 0 <= k1 < k2 < r.len() implies !ranks_before(
                #[trigger] r@[k2],
                #[trigger] r@[k1],
            ) by {
                if k1 != pos && k2 != pos {
                    let a = if k1 < pos {
                        k1
                    } else {
                        k1 - 1
                    };
                    let b = if k2 < pos {
                        k2
                    } else {
                        k2 - 1
                    };
                    assert(!ranks_before(old_r[b], old_r[a]));
                } else if k1 == pos {
                    assert(r@[k2] == old_r[k2 - 1]);
                } else {
                    assert(r@[k1] == old_r[k1]);
                    assert(ranks_before(old_r[k1], x));
                }
            }
            assert forall|k1: int, k2: int|
                0 <= k1 < k2 < r.len() && same_rank(
                    #[trigger] r@[k1],
                    #[trigger] r@[k2],
                ) implies perm[k1] < perm[k2] by {
                if k1 != pos && k2 != pos {
                    let a = if k1 < pos {
                        k1
                    } else {
                        k1 - 1
                    };
                    let b = if k2 < pos {
                        k2
                    } else {
                        k2 - 1
                    };
                    assert(same_rank(old_r[a], old_r[b]));
                    assert(old_perm[a] < old_perm[b]);
                } else if k1 == pos {
                    assert(perm[k2] == old_perm[k2 - 1]);
                } else {
                    assert(r@[k1] == old_r[k1]);
                    assert(ranks_before(old_r[k1], x));
                }
            }
        }
    }
    assert(stable_priority_sort(r@, orig, perm));
    r
}

/// The patches of `v` that are not marked superseded, in order.
pub open spec fn current_only(v: Seq<ScoredPatch>) -> Seq<ScoredPatch> {
    v.filter(|p: ScoredPatch| !p.superseded)
}

/// Keeps the patches that are not marked superseded.
pub fn retain_current(v: Vec<ScoredPatch>) -> (r: Vec<ScoredPatch>)
    ensures
        r@ == current_only(v@),
{
    let ghost orig = v@;
    let mut r: Vec<ScoredPatch> = Vec::new();
    for p in it: v.into_iter()
        invariant
            it.seq() == orig,
            r@ == current_only(orig.take(it.index() as int)),
    {
        proof {
            reveal_with_fuel(Seq::<_>::filter, 1);
            assert(orig.take(it.index() + 1).drop_last() =~= orig.take(it.index() as int));
        }
        if !p.superseded {
            r.push(p);
        }
    }
    assert(orig.take(orig.len() as int) =~= orig);
    r
}

} // verus!

verus! {

// ---------------------------------------------------------------------------
// Scoring the fetched patches
// ---------------------------------------------------------------------------

/// Whether a listed patch is a cover letter.
pub open spec fn is_cover_letter(p: RawPatch) -> bool {
    pattern_matches(COVER_PATTERN@, p.name@)
}

/// The patches of `v` that are not cover letters, in order.
pub open spec fn without_covers(v: Seq<RawPatch>) -> Seq<RawPatch> {
    v.filter(|p: RawPatch| !is_cover_letter(p))
}

/// Drops the cover letters from a patch list.
pub fn drop_cover_letters(v: Vec<RawPatch>) -> (r: Vec<RawPatch>)
    ensures
        r@ == without_covers(v@),
{
    let ghost orig = v@;
    let mut r: Vec<RawPatch> = Vec::new();
    for p in it: v.into_iter()
        invariant
            it.seq() == orig,
            r@ == without_covers(orig.take(it.index() as int)),
    {
        proof {
            reveal_with_fuel(Seq::<_>::filter, 1);
            assert(orig.take(it.index() + 1).drop_last() =~= orig.take(it.index() as int));
        }
        if !is_cover(p.name.as_str()) {
            r.push(p);
        }
    }
    assert(orig.take(orig.len() as int) =~= orig);
    r
}

/// `r` scores the patches of `raw` one for one.
pub open spec fn scores_each(r: Seq<ScoredPatch>, raw: Seq<RawPatch>) -> bool {
    &&& r.len() == raw.len()
    &&& forall|i: int|
        0 <= i < r.len() ==> scored_from(#[trigger] r[i], raw[i], patch_signals(raw[i], r[i].days))
            && r[i].days >= 0
}

/// Scores each patch of a list.
pub fn score_all(raw: &Vec<RawPatch>) -> (r: Vec<ScoredPatch>)
    ensures
        scores_each(r@, raw@),
{
    let mut r: Vec<ScoredPatch> = Vec::new();
    for i in 0..raw.len()
        invariant
            scores_each(r@, raw@.take(i as int)),
    {
        let s = score_patch(&raw[i]);
        r.push(s);
        assert forall|k: int| 0 <= k < r@.len() implies scored_from(
            #[trigger] r@[k],
            raw@.take(i + 1)[k],
            patch_signals(raw@.take(i + 1)[k], r@[k].days),
        ) && r@[k].days >= 0 by {
            assert(raw@.take(i + 1)[k] == raw@[k]);
            if k < i {
                assert(raw@.take(i as int)[k] == raw@[k]);
            }
        }
    }
    assert(raw@.take(raw.len() as int) =~= raw@);
    r
}

/// Drops the cover letters and scores the remaining patches.
pub fn prepare_patches(raw: Vec<RawPatch>) -> (r: Vec<ScoredPatch>)
    ensures
        scores_each(r@, without_covers(raw@)),
{
    let kept = drop_cover_letters(raw);
    score_all(&kept)
}

/// The ids of the scored patches, in order.
pub fn patch_ids(patches: &Vec<ScoredPatch>) -> (r: Vec<u64>)
    ensures
        r@.len() == patches@.len(),
        forall|i: int| 0 <= i < r@.len() ==> #[trigger] r@[i] == patches@[i].id,
{
    let mut r: Vec<u64> = Vec::new();
    for i in 0..patches.len()
        invariant
            r@.len() == i,
            forall|k: int| 0 <= k < i ==> #[trigger] r@[k] == patches@[k].id,
    {
        r.push(patches[i].id);
    }
    r
}

// ---------------------------------------------------------------------------
// Per-patch fetches
// ---------------------------------------------------------------------------

/// The per-patch results that arrived (`None` for a failed fetch), keyed by
/// patch id; a later result for an id replaces an earlier one.
pub open spec fn arrived_by_id<T>(results: Seq<(u64, Option<T>)>) -> Map<u64, T>
    decreases results.len(),
{
    if results.len() == 0 {
        Map::empty()
    } else {
        let prev = arrived_by_id(results.drop_last());
        match results.last().1 {
            Some(v) => prev.insert(results.last().0, v),
            None => prev,
        }
    }
}

/// Keys the per-patch results by patch id, leaving out the failed fetches.
pub fn results_by_id<T>(results: Vec<(u64, Option<T>)>) -> (r: HashMap<u64, T>)
    ensures
        r@ == arrived_by_id(results@),
{
    broadcast use vstd::std_specs::hash::group_hash_axioms;

    let ghost orig = results@;
    let mut out: HashMap<u64, T> = HashMap::new();
    assert(orig.take(0) =~= Seq::<(u64, Option<T>)>::empty());
    for item in it: results.into_iter()
        invariant
            it.seq() == orig,
            out@ == arrived_by_id(orig.take(it.index() as int)),
    {
        let ghost i = it.index() as int;
        proof {
            assert(orig.take(i + 1).drop_last() =~= orig.take(i));
            assert(orig.take(i + 1).last() == item);
        }
        let (id, result) = item;
        match result {
            Some(v) => {
                out.insert(id, v);
            },
            None => {},
        }
    }
    assert(orig.take(orig.len() as int) =~= orig);
    out
}

// ---------------------------------------------------------------------------
// Folding in the per-patch counts
// ---------------------------------------------------------------------------

/// `p` with the Reviewed-by and Acked-by counts found in the mail replies added.
pub open spec fn with_comment_tags(p: ScoredPatch, tags: Map<u64, (u32, u32)>) -> ScoredPatch {
    if tags.contains_key(p.id) {
        ScoredPatch {
            reviewed: (p.reviewed + tags[p.id].0) as u32,
            acked: (p.acked + tags[p.id].1) as u32,
            ..p
        }
    } else {
        p
    }
}

/// Adding the reply counts to `p` overflows no counter.
pub open spec fn comment_tags_fit(p: ScoredPatch, tags: Map<u64, (u32, u32)>) -> bool {
    tags.contains_key(p.id) ==> p.reviewed + tags[p.id].0 <= u32::MAX && p.acked + tags[p.id].1
        <= u32::MAX
}

/// Adds the Reviewed-by and Acked-by counts found in the mail replies.
pub fn apply_comment_tags(patches: &mut Vec<ScoredPatch>, tags: &HashMap<u64, (u32, u32)>)
    requires
        forall|i: int|
            0 <= i < old(patches)@.len() ==> comment_tags_fit(#[trigger] old(patches)@[i], tags@),
    ensures
        final(patches)@.len() == old(patches)@.len(),
        forall|i: int|
            0 <= i < old(patches)@.len() ==> #[trigger] final(patches)@[i] == with_comment_tags(
                old(patches)@[i],
                tags@,
            ),
{
    broadcast use vstd::std_specs::hash::group_hash_axioms;

    let ghost before = patches@;
    let n = patches.len();
    for i in 0..n
        invariant
            n == before.len(),
            patches@.len() == before.len(),
            forall|q: int| 0 <= q < before.len() ==> comment_tags_fit(#[trigger] before[q], tags@),
            forall|q: int|
                0 <= q < i ==> #[trigger] patches@[q] == with_comment_tags(before[q], tags@),
            forall|q: int| i <= q < before.len() ==> #[trigger] patches@[q] == before[q],
    {
        let id = patches[i].id;
        assert(patches@[i as int] == before[i as int]);
        match tags.get(&id) {
            Some(t) => {
                let (r, a) = *t;
                assert(comment_tags_fit(before[i as int], tags@));
                patches[i].reviewed = patches[i].reviewed + r;
                patches[i].acked = patches[i].acked + a;
            },
            None => {},
        }
        assert(patches@[i as int] == with_comment_tags(before[i as int], tags@));
    }
}

/// `p` with the CI results (passed, failed, total) recorded.
pub open spec fn with_checks(p: ScoredPatch, checks: Map<u64, (u32, u32, u32)>) -> ScoredPatch {
    if checks.contains_key(p.id) {
        ScoredPatch {
            checks_passed: checks[p.id].0,
            checks_failed: checks[p.id].1,
            checks_total: checks[p.id].2,
            ..p
        }
    } else {
        p
    }
}

/// Records the CI results (passed, failed, total) of each patch.
pub fn apply_checks(patches: &mut Vec<ScoredPatch>, checks: &HashMap<u64, (u32, u32, u32)>)
    ensures
        final(patches)@.len() == old(patches)@.len(),
        forall|i: int|
            0 <= i < old(patches)@.len() ==> #[trigger] final(patches)@[i] == with_checks(
                old(patches)@[i],
                checks@,
            ),
{
    broadcast use vstd::std_specs::hash::group_hash_axioms;

    let ghost before = patches@;
    let n = patches.len();
    for i in 0..n
        invariant
            n == before.len(),
            patches@.len() == before.len(),
            forall|q: int| 0 <= q < i ==> #[trigger] patches@[q] == with_checks(before[q], checks@),
            forall|q: int| i <= q < before.len() ==> #[trigger] patches@[q] == before[q],
    {
        let id = patches[i].id;
        assert(patches@[i as int] == before[i as int]);
        match checks.get(&id) {
            Some(c) => {
                let (passed, failed, total) = *c;
                patches[i].checks_passed = passed;
                patches[i].checks_failed = failed;
                patches[i].checks_total = total;
            },
            None => {},
        }
        assert(patches@[i as int] == with_checks(before[i as int], checks@));
    }
}

// ---------------------------------------------------------------------------
// The queue
// ---------------------------------------------------------------------------

/// The superseded flags of `ps` as `mark_superseded` sets them.
pub open spec fn marked(ps: Seq<ScoredPatch>) -> Seq<ScoredPatch> {
    Seq::new(
        ps.len(),
        |i: int| with_superseded(ps[i], ps[i].superseded || has_newer_version(ps, i)),
    )
}

/// The review queue made of `v`: sorted by priority, superseded versions dropped.
pub open spec fn is_queue_of(r: Seq<ScoredPatch>, v: Seq<ScoredPatch>) -> bool {
    exists|sorted: Seq<ScoredPatch>| is_priority_order(sorted, v) && r == current_only(marked(sorted))
}

/// Sorts the patches by priority, marks superseded versions and drops them.
pub fn rank_patches(v: Vec<ScoredPatch>) -> (r: Vec<ScoredPatch>)
    ensures
        is_queue_of(r@, v@),
{
    let mut sorted = sort_by_priority(v);
    let ghost s = sorted@;
    mark_superseded(sorted.as_mut_slice());
    assert(sorted@ =~= marked(s));
    retain_current(sorted)
}

// ---------------------------------------------------------------------------
// Joining the instances
// ---------------------------------------------------------------------------

/// The scored patches of all instances, in instance order.
pub open spec fn joined_patches(results: Seq<(Vec<ScoredPatch>, StateCounts)>) -> Seq<ScoredPatch>
    decreases results.len(),
{
    if results.len() == 0 {
        Seq::empty()
    } else {
        joined_patches(results.drop_last()) + results.last().0@
    }
}

/// The count of state `k` summed over all instances.
pub open spec fn count_sum(results: Seq<(Vec<ScoredPatch>, StateCounts)>, k: Seq<char>) -> nat
    decreases results.len(),
{
    if results.len() == 0 {
        0
    } else {
        count_sum(results.drop_last(), k) + count_of(results.last().1@, k)
    }
}

/// The per-state counts of all instances, merged in instance order.
pub open spec fn summed_counts(results: Seq<(Vec<ScoredPatch>, StateCounts)>) -> Map<
    Seq<char>,
    usize,
>
    decreases results.len(),
{
    if results.len() == 0 {
        Map::empty()
    } else {
        merged_counts(summed_counts(results.drop_last()), results.last().1@)
    }
}

/// No state's count, summed over the instances, overflows.
pub open spec fn counts_fit(results: Seq<(Vec<ScoredPatch>, StateCounts)>) -> bool {
    forall|k: Seq<char>| #[trigger] count_sum(results, k) <= usize::MAX
}

proof fn lemma_count_sum_prefix(r: Seq<(Vec<ScoredPatch>, StateCounts)>, i: int, k: Seq<char>)
    requires
        0 <= i <= r.len(),
    ensures
        count_sum(r.take(i), k) <= count_sum(r, k),
    decreases r.len() - i,
{
    if i < r.len() {
        lemma_count_sum_prefix(r, i + 1, k);
        assert(r.take(i + 1).drop_last() =~= r.take(i));
    } else {
        assert(r.take(i) =~= r);
    }
}

proof fn lemma_summed_count(r: Seq<(Vec<ScoredPatch>, StateCounts)>, k: Seq<char>)
    requires
        count_sum(r, k) <= usize::MAX,
    ensures
        count_of(summed_counts(r), k) == count_sum(r, k),
    decreases r.len(),
{
    if r.len() > 0 {
        lemma_summed_count(r.drop_last(), k);
    }
}

proof fn lemma_take_step(r: Seq<(Vec<ScoredPatch>, StateCounts)>, i: int)
    requires
        0 <= i < r.len(),
    ensures
        r.take(i + 1).drop_last() == r.take(i),
        r.take(i + 1).last() == r[i],
{
    assert(r.take(i + 1).drop_last() =~= r.take(i));
}

/// Whether the per-state counts of the instances can be added up without
/// overflowing (the condition `combine_instances` asks for).
pub fn instance_counts_fit(results: &Vec<(Vec<ScoredPatch>, StateCounts)>) -> (r: bool)
    ensures
        r == counts_fit(results@),
{
    let ghost orig = results@;
    let mut acc = StateCounts::new();
    assert(acc@ =~= summed_counts(orig.take(0)));
    for i in 0..results.len()
        invariant
            orig == results@,
            acc@ == summed_counts(orig.take(i as int)),
            counts_fit(orig.take(i as int)),
    {
        proof {
            lemma_take_step(orig, i as int);
        }
        if !acc.merge_fits(&results[i].1) {
            proof {
                let k = choose|k: Seq<char>|
                    !(count_of(acc@, k) + count_of(orig[i as int].1@, k) <= usize::MAX);
                lemma_summed_count(orig.take(i as int), k);
                lemma_count_sum_prefix(orig, i + 1, k);
                assert(count_sum(orig.take(i + 1), k) > usize::MAX);
                assert(!counts_fit(orig));
            }
            return false;
        }
        proof {
            assert forall|k: Seq<char>| #[trigger] count_sum(orig.take(i + 1), k) <= usize::MAX by {
                lemma_summed_count(orig.take(i as int), k);
                assert(count_of(acc@, k) + count_of(orig[i as int].1@, k) <= usize::MAX);
            }
        }
        acc.merge(&results[i].1);
    }
    assert(orig.take(orig.len() as int) =~= orig);
    true
}

/// Joins the instances' scored patches and per-state counts, then ranks the
/// patches into the review queue (sorted by priority, superseded versions
/// dropped).
pub fn combine_instances(results: Vec<(Vec<ScoredPatch>, StateCounts)>) -> (r: (
    Vec<ScoredPatch>,
    StateCounts,
))
    requires
        counts_fit(results@),
    ensures
        is_queue_of(r.0@, joined_patches(results@)),
        r.1@ == summed_counts(results@),
{
    let ghost orig = results@;
    let mut all: Vec<ScoredPatch> = Vec::new();
    let mut acc = StateCounts::new();
    assert(acc@ =~= summed_counts(orig.take(0)));
    assert(all@ =~= joined_patches(orig.take(0)));
    for item in it: results.into_iter()
        invariant
            it.seq() == orig,
            counts_fit(orig),
            all@ == joined_patches(orig.take(it.index() as int)),
            acc@ == summed_counts(orig.take(it.index() as int)),
    {
        let ghost i = it.index() as int;
        proof {
            lemma_take_step(orig, i);
            assert(orig[i] == item);
        }
        let (mut scored, counts) = item;
        proof {
            assert forall|k: Seq<char>|
                #![trigger count_of(acc@, k)]
                count_of(acc@, k) + count_of(counts@, k) <= usize::MAX by {
                lemma_count_sum_prefix(orig, i + 1, k);
                assert(count_sum(orig, k) <= usize::MAX);
                lemma_count_sum_prefix(orig, i, k);
                lemma_summed_count(orig.take(i), k);
            }
        }
        acc.merge(&counts);
        all.append(&mut scored);
    }
    assert(orig.take(orig.len() as int) =~= orig);
    (rank_patches(all), acc)
}

} // verus!

verus! {

// ---------------------------------------------------------------------------
// Laws
// ---------------------------------------------------------------------------

/// Marking superseded patches a second time changes nothing.
pub proof fn law_mark_superseded_idempotent(ps: Seq<ScoredPatch>)
    ensures
        marked(marked(ps)) == marked(ps),
{
    let m = marked(ps);
    assert forall|i: int| 0 <= i < ps.len() implies #[trigger] marked(m)[i] == m[i] by {
        crate::scoring::law_newer_version_ignores_flags(m, ps, i);
    }
    assert(marked(m) =~= m);
}

proof fn lemma_filter_keeps_order(s: Seq<ScoredPatch>, pred: spec_fn(ScoredPatch) -> bool)
    requires
        forall|i: int, j: int|
            0 <= i < j < s.len() ==> !ranks_before(#[trigger] s[j], #[trigger] s[i]),
    ensures
        forall|i: int, j: int|
            0 <= i < j < s.filter(pred).len() ==> !ranks_before(
                #[trigger] s.filter(pred)[j],
                #[trigger] s.filter(pred)[i],
            ),
    decreases s.len(),
{
    reveal_with_fuel(Seq::<_>::filter, 1);
    if s.len() > 0 {
        let t = s.drop_last();
        lemma_filter_keeps_order(t, pred);
        let f = t.filter(pred);
        if pred(s.last()) {
            assert forall|i: int| 0 <= i < f.len() implies !ranks_before(s.last(), f[i]) by {
                assert(f.contains(f[i]));
                t.lemma_filter_contains_rev(pred, f[i]);
                let k = choose|k: int| 0 <= k < t.len() && t[k] == f[i];
                assert(s[k] == t[k]);
                assert(!ranks_before(s[s.len() - 1], s[k]));
            }
        }
    }
}

/// The queue is in priority order (by score, then age) and holds no
/// superseded patch.
pub proof fn law_queue_sorted_and_current(r: Seq<ScoredPatch>, v: Seq<ScoredPatch>)
    requires
        is_queue_of(r, v),
    ensures
        forall|i: int, j: int| 0 <= i < j < r.len() ==> !ranks_before(#[trigger] r[j], #[trigger] r[i]),
        forall|i: int| 0 <= i < r.len() ==> !(#[trigger] r[i]).superseded,
{
    let sorted = choose|sorted: Seq<ScoredPatch>|
        is_priority_order(sorted, v) && r == current_only(marked(sorted));
    let perm = choose|perm: Seq<int>| stable_priority_sort(sorted, v, perm);
    let m = marked(sorted);
    assert forall|i: int, j: int| 0 <= i < j < m.len() implies !ranks_before(
        #[trigger] m[j],
        #[trigger] m[i],
    ) by {
        assert(!ranks_before(sorted[j], sorted[i]));
    }
    lemma_filter_keeps_order(m, |p: ScoredPatch| !p.superseded);
    assert forall|i: int| 0 <= i < r.len() implies !(#[trigger] r[i]).superseded by {
        m.lemma_filter_pred(|p: ScoredPatch| !p.superseded, i);
    }
}

/// No cover letter is ever scored into the queue.
pub proof fn law_no_cover_letters(r: Seq<ScoredPatch>, raw: Seq<RawPatch>)
    requires
        scores_each(r, without_covers(raw)),
    ensures
        forall|i: int| 0 <= i < r.len() ==> !pattern_matches(COVER_PATTERN@, (#[trigger] r[i]).name@),
{
    assert forall|i: int| 0 <= i < r.len() implies !pattern_matches(
        COVER_PATTERN@,
        (#[trigger] r[i]).name@,
    ) by {
        raw.lemma_filter_pred(|p: RawPatch| !is_cover_letter(p), i);
        assert(scored_from(r[i], without_covers(raw)[i], patch_signals(without_covers(raw)[i], r[i].days)));
    }
}

} // verus!
