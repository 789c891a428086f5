use vstd::prelude::*;

use crate::ordering::{
    insert_by_key, insertion_point, lemma_scan_step, lemma_scan_stop, lemma_sort_by_key,
    lemma_sort_contains, lemma_sort_sorted_is_identity, sort_by_key, sorted_by_key,
};
use crate::state::{DataPoint, Rendition, ScoreCode};
use std::collections::BTreeMap;
use vstd::laws_cmp::obeys_cmp;
use vstd::std_specs::btree::{axiom_increasing_seq_meaning, increasing_seq, spec_btree_map_iter};
use vstd::std_specs::cmp::OrdSpec;
use vstd::std_specs::iter::IteratorSpec;

verus! {

// ── Stable ordering by bitrate ─────────────────────────────────────────────

/// Orders samples by bitrate.
pub open spec fn bitrate_key() -> spec_fn(DataPoint) -> int {
    |p: DataPoint| p.bitrate_kbps as int
}

/// Stable sort by bitrate, ascending: points with equal bitrate keep their order.
pub open spec fn sort_by_bitrate(s: Seq<DataPoint>) -> Seq<DataPoint> {
    sort_by_key(s, bitrate_key())
}

pub open spec fn sorted_by_bitrate(s: Seq<DataPoint>) -> bool {
    forall|i: int, j: int| 0 <= i <= j < s.len() ==> s[i].bitrate_kbps <= s[j].bitrate_kbps
}

/// Law: the stable sort orders by bitrate and keeps every point, as often as it occurs.
pub proof fn lemma_sort_by_bitrate(s: Seq<DataPoint>)
    ensures
        sorted_by_bitrate(sort_by_bitrate(s)),
        sort_by_bitrate(s).to_multiset() == s.to_multiset(),
        sort_by_bitrate(s).len() == s.len(),
{
    lemma_sort_by_key(s, bitrate_key());
    let r = sort_by_bitrate(s);
    assert forall|i: int, j: int| 0 <= i <= j < r.len() implies r[i].bitrate_kbps
        <= r[j].bitrate_kbps by {
        assert(bitrate_key()(r[i]) <= bitrate_key()(r[j]));
    }
}

/// Stable sort by bitrate (insertion sort).
pub(crate) fn stable_sort_by_bitrate(v: &Vec<DataPoint>) -> (r: Vec<DataPoint>)
    ensures
        r@ == sort_by_bitrate(v@),
{
    let ghost key = bitrate_key();
    let mut out: Vec<DataPoint> = Vec::new();
    let mut i: usize = 0;
    while i < v.len()
        invariant
            key == bitrate_key(),
            i <= v.len(),
            out@ == sort_by_key(v@.take(i as int), key),
        decreases v.len() - i,
    {
        let x = v[i].duplicate();
        let k = x.bitrate_kbps;
        let mut p: usize = out.len();
        proof {
            assert(out@.take(p as int) == out@);
        }
        while p > 0 && out[p - 1].bitrate_kbps > k
            invariant
                key == bitrate_key(),
                p <= out.len(),
                insertion_point(out@, key, k as int) == insertion_point(out@.take(p as int), key, k as int),
            decreases p,
        {
            proof {
                lemma_scan_step(out@, key, k as int, p as int);
            }
            p = p - 1;
        }
        proof {
            lemma_scan_stop(out@, key, k as int, p as int);
        }
        out.insert(p, x);
        proof {
            let s = v@.take(i as int);
            assert(v@.take(i + 1).drop_last() == s);
            assert(v@.take(i + 1).last() == v@[i as int]);
            assert(out@ == insert_by_key(sort_by_key(s, key), key, x));
        }
        i = i + 1;
    }
    proof {
        assert(v@.take(v.len() as int) == v@);
    }
    out
}

/// Elements of the sorted sequence are exactly those of the input.
pub proof fn lemma_bitrate_sort_contains(s: Seq<DataPoint>, x: DataPoint)
    ensures
        sort_by_bitrate(s).contains(x) <==> s.contains(x),
{
    lemma_sort_contains(s, bitrate_key(), x);
}

// ── Pareto frontier ────────────────────────────────────────────────────────

/// `other` dominates `cand`: at least as good on both axes (VMAF no lower,
/// bitrate no higher) and strictly better on one.
pub open spec fn dominates(other: DataPoint, cand: DataPoint) -> bool {
    &&& other.vmaf_mean >= cand.vmaf_mean
    &&& other.bitrate_kbps <= cand.bitrate_kbps
    &&& (other.vmaf_mean > cand.vmaf_mean || other.bitrate_kbps < cand.bitrate_kbps)
}

/// Some other point of `points` dominates `points[i]`.
pub open spec fn is_dominated(points: Seq<DataPoint>, i: int) -> bool {
    exists|j: int| 0 <= j < points.len() && j != i && #[trigger] dominates(points[j], points[i])
}

/// The undominated points among the first `n`, in input order.
pub open spec fn undominated_prefix(points: Seq<DataPoint>, n: int) -> Seq<DataPoint>
    decreases n,
{
    if n <= 0 {
        Seq::empty()
    } else if is_dominated(points, n - 1) {
        undominated_prefix(points, n - 1)
    } else {
        undominated_prefix(points, n - 1).push(points[n - 1])
    }
}

/// The Pareto frontier of `points`: its undominated points, by bitrate ascending.
pub open spec fn frontier_of(points: Seq<DataPoint>) -> Seq<DataPoint> {
    sort_by_bitrate(undominated_prefix(points, points.len() as int))
}

fn dominates_exec(other: &DataPoint, cand: &DataPoint) -> (r: bool)
    ensures
        r == dominates(*other, *cand),
{
    other.vmaf_mean >= cand.vmaf_mean && other.bitrate_kbps <= cand.bitrate_kbps && (
    other.vmaf_mean > cand.vmaf_mean || other.bitrate_kbps < cand.bitrate_kbps)
}

/// Pareto-frontier filter: keeps the points that no other point dominates,
/// sorted by bitrate ascending (points of equal bitrate keep their order).
pub fn pareto_frontier(points: &[DataPoint]) -> (hull: Vec<DataPoint>)
    ensures
        hull@ == frontier_of(points@),
{
    let n = points.len();
    let mut kept: Vec<DataPoint> = Vec::new();
    let mut i: usize = 0;
    while i < n
        invariant
            n == points@.len(),
            i <= n,
            kept@ == undominated_prefix(points@, i as int),
        decreases n - i,
    {
        let mut dominated = false;
        let mut j: usize = 0;
        while j < n
            invariant
                n == points@.len(),
                i < n,
                j <= n,
                dominated <==> exists|k: int|
                    0 <= k < j && k != i && #[trigger] dominates(points@[k], points@[i as int]),
            decreases n - j,
        {
            if j != i && dominates_exec(&points[j], &points[i]) {
                dominated = true;
            }
            j = j + 1;
        }
        if !dominated {
            kept.push(points[i].duplicate());
        }
        i = i + 1;
    }
    stable_sort_by_bitrate(&kept)
}

/// Every element of `undominated_prefix(points, n)` is an undominated point of `points`.
proof fn lemma_undominated_members(points: Seq<DataPoint>, n: int, x: DataPoint)
    requires
        0 <= n <= points.len(),
        undominated_prefix(points, n).contains(x),
    ensures
        exists|i: int| 0 <= i < n && points[i] == x && !is_dominated(points, i),
    decreases n,
{
    if n > 0 {
        let prev = undominated_prefix(points, n - 1);
        if is_dominated(points, n - 1) {
            lemma_undominated_members(points, n - 1, x);
        } else if prev.contains(x) {
            lemma_undominated_members(points, n - 1, x);
        } else {
            let q = prev.push(points[n - 1]);
            let k = choose|k: int| 0 <= k < q.len() && #[trigger] q[k] == x;
            if k < prev.len() {
                assert(prev[k] == x);
            }
            assert(points[n - 1] == x);
        }
    }
}

/// Every undominated point among the first `n` is in `undominated_prefix(points, n)`.
proof fn lemma_undominated_complete(points: Seq<DataPoint>, n: int, i: int)
    requires
        0 <= i < n <= points.len(),
        !is_dominated(points, i),
    ensures
        undominated_prefix(points, n).contains(points[i]),
    decreases n,
{
    let prev = undominated_prefix(points, n - 1);
    if i == n - 1 {
        assert(undominated_prefix(points, n) == prev.push(points[i]));
        assert(undominated_prefix(points, n)[prev.len() as int] == points[i]);
    } else {
        lemma_undominated_complete(points, n - 1, i);
        let k = choose|k: int| 0 <= k < prev.len() && prev[k] == points[i];
        if !is_dominated(points, n - 1) {
            assert(undominated_prefix(points, n)[k] == points[i]);
        }
    }
}

/// Law: the frontier holds exactly the undominated input points.
/// No frontier point is dominated by any input point, and every input point
/// that no other input point dominates is on the frontier.
pub proof fn lemma_frontier_exact(points: Seq<DataPoint>)
    ensures
        forall|x: DataPoint|
            #![trigger frontier_of(points).contains(x)]
            frontier_of(points).contains(x) ==> forall|j: int|
                0 <= j < points.len() ==> !dominates(#[trigger] points[j], x),
        forall|i: int|
            0 <= i < points.len() && !is_dominated(points, i) ==> frontier_of(points).contains(
                #[trigger] points[i],
            ),
{
    let u = undominated_prefix(points, points.len() as int);
    assert forall|x: DataPoint| #[trigger] frontier_of(points).contains(x) implies forall|j: int|
        0 <= j < points.len() ==> !dominates(#[trigger] points[j], x) by {
        lemma_bitrate_sort_contains(u, x);
        lemma_undominated_members(points, points.len() as int, x);
        let i = choose|i: int| 0 <= i < points.len() && points[i] == x && !is_dominated(points, i);
        assert forall|j: int| 0 <= j < points.len() implies !dominates(#[trigger] points[j], x) by {
            if j == i {
                assert(!dominates(points[i], points[i]));
            } else if dominates(points[j], x) {
                assert(dominates(points[j], points[i]));
            }
        }
    }
    assert forall|i: int| 0 <= i < points.len() && !is_dominated(points, i) implies frontier_of(
        points,
    ).contains(#[trigger] points[i]) by {
        lemma_undominated_complete(points, points.len() as int, i);
        lemma_bitrate_sort_contains(u, points[i]);
    }
}

/// Law: along the frontier bitrate never falls, and quality never falls either:
/// a higher-bitrate frontier point is never worse.
pub proof fn lemma_frontier_monotone(points: Seq<DataPoint>)
    ensures
        sorted_by_bitrate(frontier_of(points)),
        forall|a: int, b: int|
            0 <= a <= b < frontier_of(points).len() ==> #[trigger] frontier_of(points)[a].vmaf_mean
                <= #[trigger] frontier_of(points)[b].vmaf_mean,
{
    let f = frontier_of(points);
    let u = undominated_prefix(points, points.len() as int);
    lemma_sort_by_bitrate(u);
    lemma_frontier_exact(points);
    assert forall|a: int, b: int| 0 <= a <= b < f.len() implies #[trigger] f[a].vmaf_mean
        <= #[trigger] f[b].vmaf_mean by {
        assert(f.contains(f[a]));
        assert(f.contains(f[b]));
        lemma_bitrate_sort_contains(u, f[b]);
        lemma_undominated_members(points, points.len() as int, f[b]);
        let i = choose|i: int| 0 <= i < points.len() && points[i] == f[b] && !is_dominated(points, i);
        lemma_bitrate_sort_contains(u, f[a]);
        lemma_undominated_members(points, points.len() as int, f[a]);
        let k = choose|k: int| 0 <= k < points.len() && points[k] == f[a] && !is_dominated(points, k);
        if f[a].vmaf_mean > f[b].vmaf_mean {
            assert(dominates(points[k], points[i]));
        }
    }
}

/// Without a dominated point, filtering keeps every point in place.
proof fn lemma_undominated_prefix_all(points: Seq<DataPoint>, n: int)
    requires
        0 <= n <= points.len(),
        forall|i: int| 0 <= i < points.len() ==> !is_dominated(points, i),
    ensures
        undominated_prefix(points, n) == points.take(n),
    decreases n,
{
    if n > 0 {
        lemma_undominated_prefix_all(points, n - 1);
        assert(!is_dominated(points, n - 1));
        assert(points.take(n - 1).push(points[n - 1]) =~= points.take(n));
    } else {
        assert(points.take(0) =~= Seq::<DataPoint>::empty());
    }
}

/// Law: the frontier of a frontier is itself; filtering twice removes nothing more.
pub proof fn lemma_frontier_idempotent(points: Seq<DataPoint>)
    ensures
        frontier_of(frontier_of(points)) == frontier_of(points),
{
    let f = frontier_of(points);
    let u = undominated_prefix(points, points.len() as int);
    lemma_frontier_exact(points);
    lemma_sort_by_bitrate(u);
    assert forall|i: int| 0 <= i < f.len() implies !is_dominated(f, i) by {
        if is_dominated(f, i) {
            let j = choose|j: int| 0 <= j < f.len() && j != i && #[trigger] dominates(f[j], f[i]);
            assert(f.contains(f[j]));
            lemma_bitrate_sort_contains(u, f[j]);
            lemma_undominated_members(points, points.len() as int, f[j]);
            let k = choose|k: int| 0 <= k < points.len() && points[k] == f[j] && !is_dominated(points, k);
            assert(f.contains(f[i]));
            assert(!dominates(points[k], f[i]));
        }
    }
    lemma_undominated_prefix_all(f, f.len() as int);
    assert(f.take(f.len() as int) == f);
    assert(sorted_by_key(f, bitrate_key())) by {
        assert forall|i: int, j: int| 0 <= i <= j < f.len() implies bitrate_key()(f[i])
            <= bitrate_key()(f[j]) by {
            assert(f[i].bitrate_kbps <= f[j].bitrate_kbps);
        }
    }
    lemma_sort_sorted_is_identity(f, bitrate_key());
}

// ── Ladder selection ───────────────────────────────────────────────────────

/// The ladder rung that a sample stands for.
pub open spec fn rendition_of(p: DataPoint) -> Rendition {
    Rendition {
        name: p.resolution,
        width: p.width,
        height: p.height,
        bitrate_kbps: p.bitrate_kbps,
        vmaf_mean: p.vmaf_mean,
    }
}

/// The rung that a sample stands for.
pub fn to_rendition(p: &DataPoint) -> (r: Rendition)
    ensures
        r == rendition_of(*p),
{
    Rendition {
        name: p.resolution.clone(),
        width: p.width,
        height: p.height,
        bitrate_kbps: p.bitrate_kbps,
        vmaf_mean: p.vmaf_mean,
    }
}


/// Among the first `n` points, `points[k]` is the sample of height `h` that
/// meets the target with the lowest bitrate (the earliest of equal ones).
pub open spec fn lowest_meeting_upto(
    points: Seq<DataPoint>,
    h: u32,
    target: ScoreCode,
    k: int,
    n: int,
) -> bool {
    &&& 0 <= k < n
    &&& points[k].height == h
    &&& points[k].vmaf_mean >= target
    &&& forall|i: int|
        0 <= i < n && #[trigger] points[i].height == h && points[i].vmaf_mean >= target ==> (
        points[k].bitrate_kbps < points[i].bitrate_kbps || (points[k].bitrate_kbps
            == points[i].bitrate_kbps && k <= i))
}

/// Among the first `n` points, `points[k]` is the sample of height `h` with the
/// highest bitrate (the latest of equal ones).
pub open spec fn highest_upto(points: Seq<DataPoint>, h: u32, k: int, n: int) -> bool {
    &&& 0 <= k < n
    &&& points[k].height == h
    &&& forall|i: int|
        0 <= i < n && #[trigger] points[i].height == h ==> (points[i].bitrate_kbps
            < points[k].bitrate_kbps || (points[i].bitrate_kbps == points[k].bitrate_kbps && i
            <= k))
}

/// Some sample of height `h` reaches the quality target.
pub open spec fn some_meets(points: Seq<DataPoint>, h: u32, target: ScoreCode) -> bool {
    exists|i: int|
        0 <= i < points.len() && #[trigger] points[i].height == h && points[i].vmaf_mean >= target
}

/// `points[k]` is the sample that the ladder uses for height `h`: the lowest
/// bitrate that reaches the target, or, when none does, the highest bitrate.
pub open spec fn rung_choice(points: Seq<DataPoint>, h: u32, target: ScoreCode, k: int) -> bool {
    if some_meets(points, h, target) {
        lowest_meeting_upto(points, h, target, k, points.len() as int)
    } else {
        highest_upto(points, h, k, points.len() as int)
    }
}

/// `r` is the rung that the ladder gives its height: the rendition of the
/// sample that `rung_choice` picks for that height.
pub open spec fn is_rung_for(points: Seq<DataPoint>, target: ScoreCode, r: Rendition) -> bool {
    exists|k: int| #[trigger] rung_choice(points, r.height, target, k) && r == rendition_of(points[k])
}

/// Some rung of `ladder` has height `h`.
pub open spec fn has_height(ladder: Seq<Rendition>, h: u32) -> bool {
    exists|i: int| 0 <= i < ladder.len() && #[trigger] ladder[i].height == h
}

/// `g` lists, in input order, the index of every point before `n` whose
/// height is `h`: the samples of one resolution tier.
pub open spec fn tier_group(points: Seq<DataPoint>, h: u32, g: Seq<usize>, n: int) -> bool {
    &&& forall|a: int, b: int| 0 <= a < b < g.len() ==> #[trigger] g[a] < #[trigger] g[b]
    &&& forall|t: int| 0 <= t < g.len() ==> #[trigger] g[t] < n && points[g[t] as int].height == h
    &&& forall|q: int|
        0 <= q < n && #[trigger] points[q].height == h ==> exists|t: int|
            0 <= t < g.len() && #[trigger] g[t] == q
}

/// The samples grouped by resolution tier: each height that occurs maps to the
/// indices of its points, in input order.
fn group_by_height(points: &[DataPoint]) -> (by_height: BTreeMap<u32, Vec<usize>>)
    ensures
        forall|h: u32|
            #[trigger] by_height@.contains_key(h) <==> exists|k: int|
                0 <= k < points@.len() && #[trigger] points@[k].height == h,
        forall|h: u32|
            #[trigger] by_height@.contains_key(h) ==> tier_group(
                points@,
                h,
                by_height@[h]@,
                points@.len() as int,
            ),
{
    let n = points.len();
    let mut by_height: BTreeMap<u32, Vec<usize>> = BTreeMap::new();
    let mut idx: usize = 0;
    while idx < n
        invariant
            n == points@.len(),
            idx <= n,
            forall|h: u32|
                #[trigger] by_height@.contains_key(h) <==> exists|k: int|
                    0 <= k < idx && #[trigger] points@[k].height == h,
            forall|h: u32|
                #[trigger] by_height@.contains_key(h) ==> tier_group(
                    points@,
                    h,
                    by_height@[h]@,
                    idx as int,
                ),
        decreases n - idx,
    {
        let h = points[idx].height;
        let ghost before = by_height@;
        let mut group = match by_height.remove(&h) {
            Some(g) => g,
            None => Vec::new(),
        };
        let ghost old_group = group@;
        proof {
            if before.contains_key(h) {
                assert(old_group == before[h]@);
            } else {
                assert forall|q: int| 0 <= q < idx implies #[trigger] points@[q].height != h by {
                    if points@[q].height == h {
                        assert(before.contains_key(points@[q].height));
                    }
                }
                assert(old_group.len() == 0);
            }
        }
        group.push(idx);
        by_height.insert(h, group);
        proof {
            let g = by_height@[h]@;
            assert(g == old_group.push(idx));
            assert(tier_group(points@, h, g, idx + 1)) by {
                assert forall|q: int| 0 <= q < idx + 1 && #[trigger] points@[q].height == h implies exists|
                    t: int,
                | 0 <= t < g.len() && #[trigger] g[t] == q by {
                    if q == idx {
                        assert(g[old_group.len() as int] == q);
                    } else {
                        let t = choose|t: int| 0 <= t < old_group.len() && #[trigger] old_group[t] == q;
                        assert(g[t] == q);
                    }
                }
            }
            assert forall|x: u32| #[trigger] by_height@.contains_key(x) implies tier_group(
                points@,
                x,
                by_height@[x]@,
                idx + 1,
            ) by {
                if x != h {
                    assert(by_height@[x] == before[x]);
                }
            }
            assert forall|x: u32| #[trigger] by_height@.contains_key(x) <==> exists|k: int|
                0 <= k < idx + 1 && #[trigger] points@[k].height == x by {
                if x == h {
                    assert(points@[idx as int].height == x);
                } else if by_height@.contains_key(x) {
                    assert(before.contains_key(x));
                } else if exists|k: int| 0 <= k < idx + 1 && #[trigger] points@[k].height == x {
                    let k = choose|k: int| 0 <= k < idx + 1 && #[trigger] points@[k].height == x;
                    assert(before.contains_key(x));
                }
            }
        }
        idx = idx + 1;
    }
    by_height
}

/// Index of the sample that the ladder uses for tier `h`, found among the
/// tier's own samples `group`: the lowest bitrate that reaches the target
/// (the earliest of equal ones), else the highest bitrate (the latest of equal
/// ones), as a stable sort by bitrate followed by a scan would give.
fn rung_in_tier(points: &[DataPoint], h: u32, group: &Vec<usize>, target: ScoreCode) -> (k: usize)
    requires
        group@.len() > 0,
        tier_group(points@, h, group@, points@.len() as int),
    ensures
        k < points@.len(),
        rung_choice(points@, h, target, k as int),
{
    let n = points.len();
    let mut found_meet = false;
    let mut meet: usize = 0;
    let mut found_high = false;
    let mut high: usize = 0;
    let mut j: usize = 0;
    let ghost mut u: int = 0;
    while j < group.len()
        invariant
            n == points@.len(),
            tier_group(points@, h, group@, n as int),
            j <= group@.len(),
            0 <= u <= n,
            forall|t: int| 0 <= t < j ==> #[trigger] group@[t] < u,
            forall|t: int| j <= t < group@.len() ==> #[trigger] group@[t] >= u,
            found_meet ==> lowest_meeting_upto(points@, h, target, meet as int, u),
            !found_meet ==> forall|q: int|
                0 <= q < u && #[trigger] points@[q].height == h ==> points@[q].vmaf_mean < target,
            found_high ==> highest_upto(points@, h, high as int, u),
            !found_high ==> forall|q: int| 0 <= q < u ==> #[trigger] points@[q].height != h,
            j > 0 ==> found_high,
        decreases group@.len() - j,
    {
        let i = group[j];
        proof {
            assert forall|q: int| u <= q < i implies #[trigger] points@[q].height != h by {
                if points@[q].height == h {
                    let t = choose|t: int| 0 <= t < group@.len() && #[trigger] group@[t] == q;
                    if t < j {
                        assert(group@[t] < u);
                    } else if t > j {
                        assert(group@[j as int] < group@[t]);
                    }
                }
            }
        }
        if !found_high || points[i].bitrate_kbps >= points[high].bitrate_kbps {
            high = i;
            found_high = true;
        }
        if points[i].vmaf_mean >= target && (!found_meet || points[i].bitrate_kbps
            < points[meet].bitrate_kbps) {
            meet = i;
            found_meet = true;
        }
        proof {
            u = i + 1;
            assert forall|t: int| j + 1 <= t < group@.len() implies #[trigger] group@[t] >= u by {
                assert(group@[j as int] < group@[t]);
            }
        }
        j = j + 1;
    }
    proof {
        assert forall|q: int| u <= q < n implies #[trigger] points@[q].height != h by {
            if points@[q].height == h {
                let t = choose|t: int| 0 <= t < group@.len() && #[trigger] group@[t] == q;
                assert(group@[t] < u);
            }
        }
    }
    if found_meet {
        meet
    } else {
        high
    }
}

/// The heights of a `BTreeMap<u32, _>`'s entries come out of its iterator in
/// strictly increasing order.
proof fn lemma_keys_increase(keys: Seq<u32>)
    requires
        increasing_seq(keys),
    ensures
        forall|a: int, b: int| 0 <= a < b < keys.len() ==> #[trigger] keys[a] < #[trigger] keys[b],
{
    assert(obeys_cmp::<u32>());
    axiom_increasing_seq_meaning(keys);
    assert forall|a: int, b: int| 0 <= a < b < keys.len() implies #[trigger] keys[a]
        < #[trigger] keys[b] by {
        assert(OrdSpec::cmp_spec(&keys[a], &keys[b]) is Less);
    }
}

/// Per-title ladder selection: for each resolution tier (each distinct
/// height), the lowest sampled bitrate whose VMAF reaches `target_vmaf`, or the
/// highest sampled bitrate when none does. One rung per tier, by height ascending.
pub fn choose_per_title_ladder(points: &[DataPoint], target_vmaf: ScoreCode) -> (ladder: Vec<
    Rendition,
>)
    ensures
        forall|i: int, j: int|
            0 <= i < j < ladder@.len() ==> #[trigger] ladder@[i].height < #[trigger] ladder@[j].height,
        forall|i: int| 0 <= i < ladder@.len() ==> is_rung_for(points@, target_vmaf, #[trigger] ladder@[i]),
        forall|k: int|
            0 <= k < points@.len() ==> has_height(ladder@, #[trigger] points@[k].height),
{
    let by_height = group_by_height(points);
    let ghost tiers = spec_btree_map_iter(&by_height).remaining();
    let mut ladder: Vec<Rendition> = Vec::new();
    for entry in it: by_height.iter()
        invariant
            it.seq() == tiers,
            increasing_seq(tiers.map_values(|kv: (&u32, &Vec<usize>)| *kv.0)),
            forall|h: u32|
                #[trigger] by_height@.contains_key(h) ==> tier_group(
                    points@,
                    h,
                    by_height@[h]@,
                    points@.len() as int,
                ),
            forall|h: u32|
                #[trigger] by_height@.contains_key(h) <==> exists|k: int|
                    0 <= k < points@.len() && #[trigger] points@[k].height == h,
            ladder@.len() == it.index(),
            forall|t: int| 0 <= t < it.index() ==> #[trigger] ladder@[t].height == *tiers[t].0,
            forall|t: int| 0 <= t < it.index() ==> is_rung_for(points@, target_vmaf, #[trigger] ladder@[t]),
    {
        let h = *entry.0;
        let group = entry.1;
        proof {
            assert(by_height@.contains_key(h) && by_height@[h] == *group);
            let k = choose|k: int| 0 <= k < points@.len() && #[trigger] points@[k].height == h;
            let t = choose|t: int| 0 <= t < group@.len() && #[trigger] group@[t] == k;
        }
        let k = rung_in_tier(points, h, group, target_vmaf);
        let ghost before = ladder@;
        ladder.push(to_rendition(&points[k]));
        proof {
            assert(ladder@[before.len() as int] == rendition_of(points@[k as int]));
            assert forall|t: int| 0 <= t < before.len() + 1 implies is_rung_for(
                points@,
                target_vmaf,
                #[trigger] ladder@[t],
            ) by {
                if t < before.len() {
                    assert(ladder@[t] == before[t]);
                } else {
                    assert(rung_choice(points@, ladder@[t].height, target_vmaf, k as int));
                }
            }
        }
    }
    proof {
        let keys = tiers.map_values(|kv: (&u32, &Vec<usize>)| *kv.0);
        lemma_keys_increase(keys);
        assert forall|i: int, j: int| 0 <= i < j < ladder@.len() implies #[trigger] ladder@[i].height
            < #[trigger] ladder@[j].height by {
            assert(keys[i] == *tiers[i].0);
            assert(keys[j] == *tiers[j].0);
        }
        assert forall|k: int| 0 <= k < points@.len() implies has_height(
            ladder@,
            #[trigger] points@[k].height,
        ) by {
            let x = points@[k].height;
            assert(by_height@.contains_key(x));
            assert(tiers.contains((&x, &by_height@[x])));
            let t = choose|t: int| 0 <= t < tiers.len() && tiers[t] == (&x, &by_height@[x]);
            assert(ladder@[t].height == x);
        }
    }
    ladder
}



/// Law: a rung of the per-title ladder is the cheapest sample of its tier that
/// clears the quality target; when no sample of the tier clears it, the rung is
/// the tier's highest-bitrate sample. Either way the rung is a sample of that tier.
pub proof fn lemma_rung_is_cheapest_passing(points: Seq<DataPoint>, target: ScoreCode, r: Rendition)
    requires
        is_rung_for(points, target, r),
    ensures
        exists|k: int| 0 <= k < points.len() && points[k].height == r.height && r == rendition_of(points[k]),
        some_meets(points, r.height, target) ==> r.vmaf_mean >= target,
        some_meets(points, r.height, target) ==> forall|i: int|
            0 <= i < points.len() && #[trigger] points[i].height == r.height && points[i].vmaf_mean
                >= target ==> r.bitrate_kbps <= points[i].bitrate_kbps,
        !some_meets(points, r.height, target) ==> forall|i: int|
            0 <= i < points.len() && #[trigger] points[i].height == r.height ==> points[i].bitrate_kbps
                <= r.bitrate_kbps,
{
    let k = choose|k: int| #[trigger] rung_choice(points, r.height, target, k) && r == rendition_of(points[k]);
    assert(0 <= k < points.len() && points[k].height == r.height);
}

/// Law: raising the quality target never makes a tier's rung cheaper.
pub proof fn lemma_higher_target_never_cheaper(
    points: Seq<DataPoint>,
    h: u32,
    low_target: ScoreCode,
    high_target: ScoreCode,
    k_low: int,
    k_high: int,
)
    requires
        low_target <= high_target,
        rung_choice(points, h, low_target, k_low),
        rung_choice(points, h, high_target, k_high),
    ensures
        points[k_low].bitrate_kbps <= points[k_high].bitrate_kbps,
{
    let n = points.len() as int;
    if some_meets(points, h, high_target) {
        let i = choose|i: int|
            0 <= i < points.len() && #[trigger] points[i].height == h && points[i].vmaf_mean
                >= high_target;
        assert(points[i].vmaf_mean >= low_target);
        assert(some_meets(points, h, low_target));
        assert(lowest_meeting_upto(points, h, high_target, k_high, n));
        assert(points[k_high].height == h && points[k_high].vmaf_mean >= low_target);
    } else if some_meets(points, h, low_target) {
        assert(highest_upto(points, h, k_high, n));
        assert(points[k_low].height == h);
    } else {
        assert(highest_upto(points, h, k_low, n));
        assert(points[k_high].height == h);
    }
}

/// The first frontier point, then each nearest point whose tier is not chosen yet.
pub open spec fn ladder_picks(frontier: Seq<DataPoint>, nearest: Seq<usize>, n: int) -> Seq<
    DataPoint,
>
    decreases n,
{
    if n <= 0 {
        seq![frontier[0]]
    } else {
        let prev = ladder_picks(frontier, nearest, n - 1);
        let c = frontier[nearest[n - 1] as int];
        if exists|q: int| 0 <= q < prev.len() && #[trigger] prev[q].resolution@ == c.resolution@ {
            prev
        } else {
            prev.push(c)
        }
    }
}

/// The subset ladder of `select_ladder`, given the frontier index nearest to
/// each evenly spaced quality target.
pub open spec fn selected_ladder(frontier: Seq<DataPoint>, target_rungs: usize, nearest: Seq<usize>) -> Seq<
    Rendition,
> {
    if frontier.len() == 0 {
        Seq::empty()
    } else if frontier.len() <= target_rungs {
        frontier.map_values(|p: DataPoint| rendition_of(p))
    } else {
        sort_by_bitrate(
            ladder_picks(frontier, nearest, nearest.len() as int).push(frontier.last()),
        ).map_values(|p: DataPoint| rendition_of(p))
    }
}

/// The rungs that a sequence of samples stands for.
fn renditions_of(ps: &[DataPoint]) -> (r: Vec<Rendition>)
    ensures
        r@ == ps@.map_values(|p: DataPoint| rendition_of(p)),
{
    let mut r: Vec<Rendition> = Vec::new();
    let mut i: usize = 0;
    while i < ps.len()
        invariant
            i <= ps@.len(),
            r@ == ps@.take(i as int).map_values(|p: DataPoint| rendition_of(p)),
        decreases ps@.len() - i,
    {
        r.push(to_rendition(&ps[i]));
        proof {
            assert(ps@.take(i + 1) == ps@.take(i as int).push(ps@[i as int]));
        }
        i = i + 1;
    }
    proof {
        assert(ps@.take(ps@.len() as int) == ps@);
    }
    r
}

/// Subset picker over a Pareto frontier (sorted by bitrate): keeps the lowest
/// and highest points and, for each evenly spaced quality target in between,
/// the frontier point nearest to it unless its tier is already chosen.
/// `nearest[t]` is the index of the frontier point nearest to the `t + 1`-th
/// target (the first of equally near ones); it is only read when the frontier
/// has more points than `target_rungs`.
pub fn select_ladder(frontier: &[DataPoint], target_rungs: usize, nearest: &[usize]) -> (ladder: Vec<
    Rendition,
>)
    requires
        frontier@.len() > target_rungs ==> target_rungs >= 1 && nearest@.len() == (if target_rungs
            >= 2 {
            target_rungs - 2
        } else {
            0
        }) && forall|t: int| 0 <= t < nearest@.len() ==> #[trigger] nearest@[t] < frontier@.len(),
    ensures
        ladder@ == selected_ladder(frontier@, target_rungs, nearest@),
{
    if frontier.len() == 0 {
        return Vec::new();
    }
    if frontier.len() <= target_rungs {
        return renditions_of(frontier);
    }
    let mut chosen: Vec<DataPoint> = Vec::new();
    chosen.push(frontier[0].duplicate());
    let mut t: usize = 0;
    while t < nearest.len()
        invariant
            frontier@.len() > 0,
            forall|u: int| 0 <= u < nearest@.len() ==> #[trigger] nearest@[u] < frontier@.len(),
            t <= nearest@.len(),
            chosen@ == ladder_picks(frontier@, nearest@, t as int),
        decreases nearest@.len() - t,
    {
        let c = &frontier[nearest[t]];
        let mut dup = false;
        let mut q: usize = 0;
        while q < chosen.len()
            invariant
                q <= chosen@.len(),
                dup <==> exists|w: int|
                    0 <= w < q && #[trigger] chosen@[w].resolution@ == c.resolution@,
            decreases chosen@.len() - q,
        {
            if chosen[q].resolution == c.resolution {
                dup = true;
            }
            q = q + 1;
        }
        if !dup {
            chosen.push(c.duplicate());
        }
        t = t + 1;
    }
    chosen.push(frontier[frontier.len() - 1].duplicate());
    let sorted = stable_sort_by_bitrate(&chosen);
    renditions_of(&sorted)
}

/// Law: the subset ladder is ordered by bitrate, ascending.
pub proof fn lemma_selected_ladder_sorted(frontier: Seq<DataPoint>, target_rungs: usize, nearest: Seq<
    usize,
>)
    requires
        sorted_by_bitrate(frontier),
    ensures
        forall|i: int, j: int|
            0 <= i <= j < selected_ladder(frontier, target_rungs, nearest).len() ==> #[trigger] selected_ladder(
                frontier,
                target_rungs,
                nearest,
            )[i].bitrate_kbps <= #[trigger] selected_ladder(frontier, target_rungs, nearest)[j].bitrate_kbps,
{
    if frontier.len() > target_rungs && frontier.len() > 0 {
        lemma_sort_by_bitrate(ladder_picks(frontier, nearest, nearest.len() as int).push(frontier.last()));
    }
}

} // verus!
