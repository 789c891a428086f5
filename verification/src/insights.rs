use vstd::prelude::*;

use crate::optimizer::{lemma_bitrate_sort_contains, lemma_sort_by_bitrate, sort_by_bitrate, sorted_by_bitrate};
use crate::state::{
    DataPoint, Rendition, RenditionView, ScoreCode, SourceInfo, ZERO_CODE, rung_views,
};
use crate::pipeline::grid_tiers;
use crate::text::{decimal, decimal_string, push_text, string_of};

verus! {

/// Audio bitrate that every rendition carries, in kbps.
pub const AUDIO_KBPS: u32 = 128;

pub open spec fn tier_view(name: Seq<char>, width: u32, height: u32, bitrate_kbps: u32) -> RenditionView {
    RenditionView { name, width, height, bitrate_kbps, vmaf_mean: ZERO_CODE }
}

/// The fixed industry-style ladder, the same for every title.
pub open spec fn fixed_ladder() -> Seq<RenditionView> {
    seq![
        tier_view("360p"@, 640, 360, 600),
        tier_view("480p"@, 854, 480, 1000),
        tier_view("720p"@, 1280, 720, 2400),
        tier_view("1080p"@, 1920, 1080, 4500),
    ]
}

/// Width of a 16:9 frame of height `h`, rounded to the nearest pixel.
pub open spec fn wide_width(h: nat) -> nat {
    (32 * h + 9) / 18
}

/// How many fixed tiers fit under a source of height `source_height`.
pub open spec fn fixed_tiers_within(source_height: u32) -> int {
    if source_height >= 1080 {
        4
    } else if source_height >= 720 {
        3
    } else if source_height >= 480 {
        2
    } else if source_height >= 360 {
        1
    } else {
        0
    }
}

/// The reference ladder for a source: every fixed tier whose height does not
/// exceed the source's, or, when none fits, a single 800 kbps 16:9 tier at the
/// source height (at least 144 lines).
pub open spec fn reference_ladder_view(source_height: u32) -> Seq<RenditionView> {
    let n = fixed_tiers_within(source_height);
    if n > 0 {
        fixed_ladder().take(n)
    } else {
        let h: nat = if source_height >= 144 {
            source_height as nat
        } else {
            144
        };
        seq![tier_view(decimal(h) + "p"@, wide_width(h) as u32, h as u32, 800)]
    }
}

fn push_tier(tiers: &mut Vec<Rendition>, name: &str, width: u32, height: u32, bitrate_kbps: u32)
    ensures
        rung_views(final(tiers)@) == rung_views(old(tiers)@).push(
            tier_view(name@, width, height, bitrate_kbps),
        ),
{
    let r = Rendition {
        name: string_of(name),
        width,
        height,
        bitrate_kbps,
        vmaf_mean: ZERO_CODE,
    };
    let ghost before = tiers@;
    tiers.push(r);
    assert(rung_views(tiers@) =~= rung_views(before).push(tier_view(name@, width, height, bitrate_kbps)));
}

/// Fixed reference ladder for every tier up to the source height.
pub fn reference_ladder_for_source(source_height: u32) -> (tiers: Vec<Rendition>)
    ensures
        rung_views(tiers@) == reference_ladder_view(source_height),
{
    let mut tiers: Vec<Rendition> = Vec::new();
    assert(rung_views(tiers@) =~= Seq::<RenditionView>::empty());
    if 360 <= source_height {
        push_tier(&mut tiers, "360p", 640, 360, 600);
    }
    if 480 <= source_height {
        push_tier(&mut tiers, "480p", 854, 480, 1000);
    }
    if 720 <= source_height {
        push_tier(&mut tiers, "720p", 1280, 720, 2400);
    }
    if 1080 <= source_height {
        push_tier(&mut tiers, "1080p", 1920, 1080, 4500);
    }
    assert(rung_views(tiers@).len() == tiers@.len());
    if tiers.len() == 0 {
        assert(source_height < 360);
        let h: u32 = if source_height >= 144 {
            source_height
        } else {
            144
        };
        let w: u32 = (32 * h + 9) / 18;
        let mut name = decimal_string(h as u64);
        push_text(&mut name, "p");
        tiers.push(Rendition { name, width: w, height: h, bitrate_kbps: 800, vmaf_mean: ZERO_CODE });
        assert(rung_views(tiers@) =~= reference_ladder_view(source_height));
    } else {
        assert(rung_views(tiers@) =~= reference_ladder_view(source_height));
    }
    tiers
}

/// Sum of the video bitrates of `s`.
pub open spec fn total_bitrate(s: Seq<Rendition>) -> nat
    decreases s.len(),
{
    if s.len() == 0 {
        0
    } else {
        total_bitrate(s.drop_last()) + s.last().bitrate_kbps as nat
    }
}

proof fn lemma_total_bitrate_prefix(s: Seq<Rendition>, i: int)
    requires
        0 <= i <= s.len(),
    ensures
        total_bitrate(s.take(i)) <= total_bitrate(s),
    decreases s.len(),
{
    if i < s.len() {
        assert(s.take(i) == s.drop_last().take(i));
        lemma_total_bitrate_prefix(s.drop_last(), i);
    } else {
        assert(s.take(i) == s);
    }
}

/// Mean video bitrate of a ladder (integer division), 0 for an empty ladder.
pub open spec fn average_bitrate(s: Seq<Rendition>) -> nat {
    if s.len() == 0 {
        0
    } else {
        total_bitrate(s) / s.len()
    }
}

/// Mean video bitrate of a ladder, rounded down; 0 for an empty ladder.
pub fn avg_video_bitrate(rungs: &[Rendition]) -> (avg: u32)
    requires
        total_bitrate(rungs@) <= u32::MAX,
        rungs@.len() <= u32::MAX,
    ensures
        avg == average_bitrate(rungs@),
{
    if rungs.len() == 0 {
        return 0;
    }
    let mut sum: u32 = 0;
    let mut i: usize = 0;
    while i < rungs.len()
        invariant
            i <= rungs@.len(),
            total_bitrate(rungs@) <= u32::MAX,
            sum == total_bitrate(rungs@.take(i as int)),
        decreases rungs@.len() - i,
    {
        proof {
            assert(rungs@.take(i + 1).drop_last() == rungs@.take(i as int));
            lemma_total_bitrate_prefix(rungs@, i + 1);
        }
        sum = sum + rungs[i].bitrate_kbps;
        i = i + 1;
    }
    proof {
        assert(rungs@.take(rungs@.len() as int) == rungs@);
    }
    sum / (rungs.len() as u32)
}

/// Position of the first rung of `s`, from `from` on, whose height is `h`.
pub open spec fn first_with_height(s: Seq<RenditionView>, h: u32, from: int) -> Option<int>
    decreases s.len() - from,
{
    if from < 0 || from >= s.len() {
        None
    } else if s[from].height == h {
        Some(from)
    } else {
        first_with_height(s, h, from + 1)
    }
}

/// Position of the first rung of `s`, from `from` on, whose name is `name`.
pub open spec fn first_with_name(s: Seq<RenditionView>, name: Seq<char>, from: int) -> Option<int>
    decreases s.len() - from,
{
    if from < 0 || from >= s.len() {
        None
    } else if s[from].name == name {
        Some(from)
    } else {
        first_with_name(s, name, from + 1)
    }
}

/// The fixed-ladder rung that a per-title rung is compared with: the first of
/// the same height, else the first of the same name, else a rung like it with
/// 400 kbps more.
pub open spec fn reference_rung_view(reference: Seq<RenditionView>, opt: RenditionView) -> RenditionView {
    match first_with_height(reference, opt.height, 0) {
        Some(i) => reference[i],
        None => match first_with_name(reference, opt.name, 0) {
            Some(i) => reference[i],
            None => RenditionView {
                name: opt.name,
                width: opt.width,
                height: opt.height,
                bitrate_kbps: (opt.bitrate_kbps + 400) as u32,
                vmaf_mean: ZERO_CODE,
            },
        },
    }
}

/// The reference rung needs no made-up bitrate, or the made-up one fits in 32 bits.
pub open spec fn reference_rung_fits(reference: Seq<RenditionView>, opt: RenditionView) -> bool {
    first_with_height(reference, opt.height, 0) is None && first_with_name(reference, opt.name, 0)
        is None ==> opt.bitrate_kbps + 400 <= u32::MAX
}

/// The fixed-ladder rung that a per-title rung is compared with.
pub fn reference_rung(reference: &[Rendition], opt: &Rendition) -> (r: Rendition)
    requires
        reference_rung_fits(rung_views(reference@), opt@),
    ensures
        r@ == reference_rung_view(rung_views(reference@), opt@),
{
    let ghost rv = rung_views(reference@);
    let mut i: usize = 0;
    while i < reference.len()
        invariant
            rv == rung_views(reference@),
            i <= reference@.len(),
            first_with_height(rv, opt.height, 0) == first_with_height(rv, opt.height, i as int),
        decreases reference@.len() - i,
    {
        if reference[i].height == opt.height {
            assert(rv[i as int] == reference@[i as int]@);
            return reference[i].duplicate();
        }
        i = i + 1;
    }
    let mut j: usize = 0;
    while j < reference.len()
        invariant
            rv == rung_views(reference@),
            j <= reference@.len(),
            first_with_height(rv, opt.height, 0) is None,
            first_with_name(rv, opt.name@, 0) == first_with_name(rv, opt.name@, j as int),
        decreases reference@.len() - j,
    {
        assert(rv[j as int] == reference@[j as int]@);
        if reference[j].name == opt.name {
            return reference[j].duplicate();
        }
        j = j + 1;
    }
    Rendition {
        name: opt.name.clone(),
        width: opt.width,
        height: opt.height,
        bitrate_kbps: opt.bitrate_kbps + 400,
        vmaf_mean: ZERO_CODE,
    }
}

/// What the VMAF at a given bitrate is estimated from, for one tier.
#[derive(Clone, Copy, Debug, PartialEq, Eq, Structural)]
pub enum QualityEstimate {
    /// The tier has no sample with a positive bitrate, or the bitrate is zero:
    /// the per-title rung's own score stands in.
    Fallback,
    /// The bitrate is at or beyond an end of the sampled range: that end's score.
    Sampled(ScoreCode),
    /// The bitrate lies between two neighbouring samples: interpolate their
    /// scores on a log-bitrate axis and clamp to [0, 100].
    Between { low_kbps: u32, low_vmaf: ScoreCode, high_kbps: u32, high_vmaf: ScoreCode },
}

/// The samples of height `h` with a positive bitrate among the first `n`, in input order.
pub open spec fn tier_samples(analysis: Seq<DataPoint>, h: u32, n: int) -> Seq<DataPoint>
    decreases n,
{
    if n <= 0 {
        Seq::empty()
    } else if analysis[n - 1].height == h && analysis[n - 1].bitrate_kbps > 0 {
        tier_samples(analysis, h, n - 1).push(analysis[n - 1])
    } else {
        tier_samples(analysis, h, n - 1)
    }
}

/// First position `k >= from` with `pts[k].bitrate <= target <= pts[k + 1].bitrate`.
pub open spec fn first_bracket(pts: Seq<DataPoint>, target: u32, from: int) -> Option<int>
    decreases pts.len() - from,
{
    if from < 0 || from + 1 >= pts.len() {
        None
    } else if pts[from].bitrate_kbps <= target && target <= pts[from + 1].bitrate_kbps {
        Some(from)
    } else {
        first_bracket(pts, target, from + 1)
    }
}

/// How the VMAF at `target_kbps` is estimated for tier `height`, from the
/// tier's samples sorted by bitrate.
pub open spec fn quality_estimate(analysis: Seq<DataPoint>, height: u32, target_kbps: u32) -> QualityEstimate {
    let pts = sort_by_bitrate(tier_samples(analysis, height, analysis.len() as int));
    if pts.len() == 0 || target_kbps == 0 {
        QualityEstimate::Fallback
    } else if target_kbps <= pts[0].bitrate_kbps {
        QualityEstimate::Sampled(pts[0].vmaf_mean)
    } else if target_kbps >= pts.last().bitrate_kbps {
        QualityEstimate::Sampled(pts.last().vmaf_mean)
    } else {
        match first_bracket(pts, target_kbps, 0) {
            Some(k) => QualityEstimate::Between {
                low_kbps: pts[k].bitrate_kbps,
                low_vmaf: pts[k].vmaf_mean,
                high_kbps: pts[k + 1].bitrate_kbps,
                high_vmaf: pts[k + 1].vmaf_mean,
            },
            None => QualityEstimate::Fallback,
        }
    }
}

/// Chooses how to estimate the VMAF of tier `height` at `target_kbps` from the
/// sampled rate–quality points.
pub fn estimate_vmaf_at_bitrate(analysis: &[DataPoint], height: u32, target_kbps: u32) -> (e: QualityEstimate)
    ensures
        e == quality_estimate(analysis@, height, target_kbps),
{
    let mut samples: Vec<DataPoint> = Vec::new();
    let mut i: usize = 0;
    while i < analysis.len()
        invariant
            i <= analysis@.len(),
            samples@ == tier_samples(analysis@, height, i as int),
        decreases analysis@.len() - i,
    {
        if analysis[i].height == height && analysis[i].bitrate_kbps > 0 {
            samples.push(analysis[i].duplicate());
        }
        i = i + 1;
    }
    let pts = crate::optimizer::stable_sort_by_bitrate(&samples);
    if pts.len() == 0 || target_kbps == 0 {
        return QualityEstimate::Fallback;
    }
    if target_kbps <= pts[0].bitrate_kbps {
        return QualityEstimate::Sampled(pts[0].vmaf_mean);
    }
    let last = pts.len() - 1;
    if target_kbps >= pts[last].bitrate_kbps {
        return QualityEstimate::Sampled(pts[last].vmaf_mean);
    }
    let mut k: usize = 0;
    while k < last
        invariant
            last + 1 == pts@.len(),
            k <= last,
            pts@ == sort_by_bitrate(tier_samples(analysis@, height, analysis@.len() as int)),
            pts@[0].bitrate_kbps < target_kbps < pts@[last as int].bitrate_kbps,
            target_kbps != 0,
            first_bracket(pts@, target_kbps, 0) == first_bracket(pts@, target_kbps, k as int),
        decreases pts@.len() - k,
    {
        if pts[k].bitrate_kbps <= target_kbps && target_kbps <= pts[k + 1].bitrate_kbps {
            assert(first_bracket(pts@, target_kbps, k as int) == Some(k as int));
            return QualityEstimate::Between {
                low_kbps: pts[k].bitrate_kbps,
                low_vmaf: pts[k].vmaf_mean,
                high_kbps: pts[k + 1].bitrate_kbps,
                high_vmaf: pts[k + 1].vmaf_mean,
            };
        }
        k = k + 1;
    }
    QualityEstimate::Fallback
}

proof fn lemma_bracket_exists(pts: Seq<DataPoint>, target: u32, from: int)
    requires
        sorted_by_bitrate(pts),
        0 <= from < pts.len(),
        pts[from].bitrate_kbps <= target,
        target < pts.last().bitrate_kbps,
    ensures
        first_bracket(pts, target, from) is Some,
    decreases pts.len() - from,
{
    if from + 1 < pts.len() {
        if !(target <= pts[from + 1].bitrate_kbps) {
            lemma_bracket_exists(pts, target, from + 1);
        }
    }
}

/// Law: the estimate falls back to the rung's own score only when the tier has
/// no sample with a positive bitrate or the bitrate asked about is zero; inside
/// the sampled range it always finds two neighbouring samples around the bitrate.
pub proof fn lemma_estimate_falls_back_only_without_samples(
    analysis: Seq<DataPoint>,
    height: u32,
    target_kbps: u32,
)
    ensures
        quality_estimate(analysis, height, target_kbps) == QualityEstimate::Fallback <==> (
        tier_samples(analysis, height, analysis.len() as int).len() == 0 || target_kbps == 0),
        quality_estimate(analysis, height, target_kbps) matches QualityEstimate::Between {
            low_kbps,
            high_kbps,
            ..
        } ==> low_kbps <= target_kbps <= high_kbps,
{
    let s = tier_samples(analysis, height, analysis.len() as int);
    let pts = sort_by_bitrate(s);
    lemma_sort_by_bitrate(s);
    if pts.len() > 0 && target_kbps != 0 && target_kbps > pts[0].bitrate_kbps
        && target_kbps < pts.last().bitrate_kbps {
        lemma_bracket_exists(pts, target_kbps, 0);
        lemma_first_bracket_is_bracket(pts, target_kbps, 0);
    }
}

proof fn lemma_first_bracket_is_bracket(pts: Seq<DataPoint>, target: u32, from: int)
    ensures
        first_bracket(pts, target, from) matches Some(k) ==> 0 <= k && k + 1 < pts.len()
            && pts[k].bitrate_kbps <= target <= pts[k + 1].bitrate_kbps,
    decreases pts.len() - from,
{
    if from >= 0 && from + 1 < pts.len() {
        lemma_first_bracket_is_bracket(pts, target, from + 1);
    }
}


/// One per-title rung set against the fixed ladder. The percentages and the
/// interpolated score are real-valued and are worked out from these figures.
#[derive(Clone, Debug)]
pub struct RungPlan {
    pub resolution: String,
    pub reference_bitrate_kbps: u32,
    pub optimized_bitrate_kbps: u32,
    pub vmaf_optimized: ScoreCode,
    /// How the VMAF at the reference bitrate is estimated.
    pub vmaf_reference: QualityEstimate,
}

/// `plan` sets rung `opt` against the reference ladder, with quality estimated
/// from `analysis`.
pub open spec fn plans_rung(
    plan: RungPlan,
    reference: Seq<RenditionView>,
    analysis: Seq<DataPoint>,
    opt: RenditionView,
) -> bool {
    let rr = reference_rung_view(reference, opt);
    &&& plan.resolution@ == opt.name
    &&& plan.reference_bitrate_kbps == rr.bitrate_kbps
    &&& plan.optimized_bitrate_kbps == opt.bitrate_kbps
    &&& plan.vmaf_optimized == opt.vmaf_mean
    &&& plan.vmaf_reference == quality_estimate(analysis, opt.height, rr.bitrate_kbps)
}

/// Sets each per-title rung against its fixed-ladder counterpart.
pub fn build_rung_comparisons(
    reference: &[Rendition],
    chosen: &[Rendition],
    analysis: &[DataPoint],
) -> (plans: Vec<RungPlan>)
    requires
        forall|i: int|
            0 <= i < chosen@.len() ==> reference_rung_fits(rung_views(reference@), #[trigger] chosen@[i]@),
    ensures
        plans@.len() == chosen@.len(),
        forall|i: int|
            0 <= i < chosen@.len() ==> plans_rung(
                #[trigger] plans@[i],
                rung_views(reference@),
                analysis@,
                chosen@[i]@,
            ),
{
    let mut plans: Vec<RungPlan> = Vec::new();
    let mut i: usize = 0;
    while i < chosen.len()
        invariant
            i <= chosen@.len(),
            forall|t: int|
                0 <= t < chosen@.len() ==> reference_rung_fits(rung_views(reference@), #[trigger] chosen@[t]@),
            plans@.len() == i,
            forall|t: int|
                0 <= t < i ==> plans_rung(#[trigger] plans@[t], rung_views(reference@), analysis@, chosen@[t]@),
        decreases chosen@.len() - i,
    {
        let opt = &chosen[i];
        let rr = reference_rung(reference, opt);
        let estimate = estimate_vmaf_at_bitrate(analysis, opt.height, rr.bitrate_kbps);
        let plan = RungPlan {
            resolution: opt.name.clone(),
            reference_bitrate_kbps: rr.bitrate_kbps,
            optimized_bitrate_kbps: opt.bitrate_kbps,
            vmaf_optimized: opt.vmaf_mean,
            vmaf_reference: estimate,
        };
        plans.push(plan);
        i = i + 1;
    }
    plans
}

/// The whole-number part of a per-title vs fixed-ladder comparison: the
/// reference ladder, average bitrates, delivered bitrates and encode counts,
/// and the per-rung plans. Savings percentages, delivery volumes and mean
/// scores are real-valued and follow from these figures.
#[derive(Clone, Debug)]
pub struct InsightsBasis {
    pub reference_ladder: Vec<Rendition>,
    pub reference_avg_bitrate_kbps: u32,
    pub optimized_avg_bitrate_kbps: u32,
    /// Reference average video bitrate plus audio.
    pub reference_delivery_kbps: u32,
    /// Per-title average video bitrate plus audio.
    pub optimized_delivery_kbps: u32,
    pub encode_analysis_passes: u32,
    pub encode_final_renditions: u32,
    pub encode_reference_renditions: u32,
    pub rung_comparisons: Vec<RungPlan>,
}

/// What `compute` needs of its inputs: bitrate sums fit in 32 bits.
pub open spec fn compute_fits(source_height: u32, chosen: Seq<Rendition>) -> bool {
    &&& total_bitrate(chosen) <= u32::MAX
    &&& chosen.len() <= u32::MAX
    &&& average_bitrate(chosen) + AUDIO_KBPS <= u32::MAX
    &&& forall|i: int|
        0 <= i < chosen.len() ==> reference_rung_fits(
            reference_ladder_view(source_height),
            #[trigger] chosen[i]@,
        )
}

/// Per-title vs fixed-ladder comparison of a title.
pub fn compute(source: &SourceInfo, analysis_points: &[DataPoint], chosen: &[Rendition]) -> (basis: InsightsBasis)
    requires
        compute_fits(source.height, chosen@),
    ensures
        rung_views(basis.reference_ladder@) == reference_ladder_view(source.height),
        basis.reference_avg_bitrate_kbps == average_bitrate(basis.reference_ladder@),
        basis.optimized_avg_bitrate_kbps == average_bitrate(chosen@),
        basis.reference_delivery_kbps == basis.reference_avg_bitrate_kbps + AUDIO_KBPS,
        basis.optimized_delivery_kbps == basis.optimized_avg_bitrate_kbps + AUDIO_KBPS,
        basis.encode_analysis_passes == analysis_points@.len() as u32,
        basis.encode_final_renditions == chosen@.len() as u32,
        basis.encode_reference_renditions == basis.reference_ladder@.len(),
        basis.rung_comparisons@.len() == chosen@.len(),
        forall|i: int|
            0 <= i < chosen@.len() ==> plans_rung(
                #[trigger] basis.rung_comparisons@[i],
                reference_ladder_view(source.height),
                analysis_points@,
                chosen@[i]@,
            ),
{
    let reference_ladder = reference_ladder_for_source(source.height);
    proof {
        assert(reference_ladder@.len() == rung_views(reference_ladder@).len());
        lemma_reference_total_small(reference_ladder@, source.height);
    }
    let rung_comparisons = build_rung_comparisons(&reference_ladder, chosen, analysis_points);
    let reference_avg = avg_video_bitrate(&reference_ladder);
    let optimized_avg = avg_video_bitrate(chosen);
    proof {
        lemma_average_at_most_max(reference_ladder@);
    }
    InsightsBasis {
        reference_avg_bitrate_kbps: reference_avg,
        optimized_avg_bitrate_kbps: optimized_avg,
        reference_delivery_kbps: reference_avg + AUDIO_KBPS,
        optimized_delivery_kbps: optimized_avg + AUDIO_KBPS,
        encode_analysis_passes: analysis_points.len() as u32,
        encode_final_renditions: chosen.len() as u32,
        encode_reference_renditions: reference_ladder.len() as u32,
        reference_ladder,
        rung_comparisons,
    }
}

proof fn lemma_reference_total_small(ladder: Seq<Rendition>, source_height: u32)
    requires
        rung_views(ladder) == reference_ladder_view(source_height),
    ensures
        total_bitrate(ladder) <= 18000,
        ladder.len() <= 4,
        forall|i: int| 0 <= i < ladder.len() ==> #[trigger] ladder[i].bitrate_kbps <= 4500,
{
    assert(rung_views(ladder).len() == ladder.len());
    assert forall|i: int| 0 <= i < ladder.len() implies #[trigger] ladder[i].bitrate_kbps <= 4500 by {
        assert(rung_views(ladder)[i] == ladder[i]@);
    }
    lemma_total_bounded(ladder, 4500);
}

proof fn lemma_total_bounded(s: Seq<Rendition>, bound: nat)
    requires
        forall|i: int| 0 <= i < s.len() ==> #[trigger] s[i].bitrate_kbps <= bound,
    ensures
        total_bitrate(s) <= s.len() * bound,
    decreases s.len(),
{
    if s.len() > 0 {
        assert forall|i: int| 0 <= i < s.drop_last().len() implies #[trigger] s.drop_last()[i].bitrate_kbps
            <= bound by {
            assert(s.drop_last()[i] == s[i]);
        }
        lemma_total_bounded(s.drop_last(), bound);
        assert(s.len() * bound == (s.len() - 1) * bound + bound) by (nonlinear_arith);
    }
}

proof fn lemma_average_at_most_max(s: Seq<Rendition>)
    requires
        s.len() <= 4,
        total_bitrate(s) <= 18000,
    ensures
        average_bitrate(s) <= 18000,
{
    if s.len() > 0 {
        assert(total_bitrate(s) / s.len() <= total_bitrate(s)) by (nonlinear_arith)
            requires
                s.len() > 0,
        ;
    }
}


/// Law: the reference ladder matches the analysed tiers one to one: the same
/// tiers, in the same order, with the same names and frame sizes.
pub proof fn lemma_reference_matches_grid(source_height: u32)
    ensures
        reference_ladder_view(source_height).len() == grid_tiers(source_height).len(),
        forall|t: int|
            0 <= t < grid_tiers(source_height).len() ==> {
                &&& #[trigger] reference_ladder_view(source_height)[t].name == grid_tiers(
                    source_height,
                )[t].name
                &&& reference_ladder_view(source_height)[t].width == grid_tiers(source_height)[t].width
                &&& reference_ladder_view(source_height)[t].height == grid_tiers(
                    source_height,
                )[t].height
            },
{
}


/// The reference ladder of a source of height `source_height` has a rung
/// named `name`, of frame size `width`×`height`, at `bitrate_kbps`.
pub open spec fn references_tier(
    source_height: u32,
    name: Seq<char>,
    width: u32,
    height: u32,
    bitrate_kbps: u32,
) -> bool {
    exists|t: int|
        0 <= t < reference_ladder_view(source_height).len() && #[trigger] reference_ladder_view(
            source_height,
        )[t] == tier_view(name, width, height, bitrate_kbps)
}

/// Law: the reference ladder holds every fixed rung that the source is tall
/// enough for: 360p at 600 kbps, 480p at 1000, 720p at 2400 and 1080p at
/// 4500, each as soon as the source has at least that many lines.
pub proof fn lemma_reference_covers_fitting_tiers(source_height: u32)
    ensures
        360 <= source_height ==> references_tier(source_height, "360p"@, 640, 360, 600),
        480 <= source_height ==> references_tier(source_height, "480p"@, 854, 480, 1000),
        720 <= source_height ==> references_tier(source_height, "720p"@, 1280, 720, 2400),
        1080 <= source_height ==> references_tier(source_height, "1080p"@, 1920, 1080, 4500),
{
    let r = reference_ladder_view(source_height);
    if 360 <= source_height {
        assert(r[0] == tier_view("360p"@, 640, 360, 600));
    }
    if 480 <= source_height {
        assert(r[1] == tier_view("480p"@, 854, 480, 1000));
    }
    if 720 <= source_height {
        assert(r[2] == tier_view("720p"@, 1280, 720, 2400));
    }
    if 1080 <= source_height {
        assert(r[3] == tier_view("1080p"@, 1920, 1080, 4500));
    }
}


/// `analysis[i]` is a sample of tier `h` with a positive bitrate.
pub open spec fn is_tier_sample(analysis: Seq<DataPoint>, h: u32, i: int) -> bool {
    &&& 0 <= i < analysis.len()
    &&& analysis[i].height == h
    &&& analysis[i].bitrate_kbps > 0
}

/// The samples gathered for a tier are exactly its samples with a positive bitrate.
proof fn lemma_tier_samples_members(analysis: Seq<DataPoint>, h: u32, n: int, x: DataPoint)
    requires
        0 <= n <= analysis.len(),
    ensures
        tier_samples(analysis, h, n).contains(x) <==> exists|i: int|
            0 <= i < n && #[trigger] is_tier_sample(analysis, h, i) && analysis[i] == x,
    decreases n,
{
    if n > 0 {
        lemma_tier_samples_members(analysis, h, n - 1, x);
        let prev = tier_samples(analysis, h, n - 1);
        let cur = tier_samples(analysis, h, n);
        if is_tier_sample(analysis, h, n - 1) {
            assert(cur == prev.push(analysis[n - 1]));
            if cur.contains(x) {
                let k = choose|k: int| 0 <= k < cur.len() && cur[k] == x;
                if k < prev.len() {
                    assert(prev[k] == x);
                    assert(prev.contains(x));
                } else {
                    assert(is_tier_sample(analysis, h, n - 1) && analysis[n - 1] == x);
                }
            }
            if exists|i: int| 0 <= i < n && #[trigger] is_tier_sample(analysis, h, i) && analysis[i] == x {
                let i = choose|i: int| 0 <= i < n && #[trigger] is_tier_sample(analysis, h, i) && analysis[i] == x;
                if i < n - 1 {
                    assert(prev.contains(x));
                    let k = choose|k: int| 0 <= k < prev.len() && prev[k] == x;
                    assert(cur[k] == x);
                } else {
                    assert(cur[prev.len() as int] == x);
                }
            }
        } else {
            assert(cur == prev);
            if exists|i: int| 0 <= i < n && #[trigger] is_tier_sample(analysis, h, i) && analysis[i] == x {
                let i = choose|i: int| 0 <= i < n && #[trigger] is_tier_sample(analysis, h, i) && analysis[i] == x;
                assert(i < n - 1);
            }
        }
    }
}

/// The samples of tier `h` with a positive bitrate, sorted by bitrate.
pub open spec fn sorted_tier(analysis: Seq<DataPoint>, h: u32) -> Seq<DataPoint> {
    sort_by_bitrate(tier_samples(analysis, h, analysis.len() as int))
}

/// Every sample of a tier with a positive bitrate is among its sorted samples.
proof fn lemma_sorted_tier_members(analysis: Seq<DataPoint>, h: u32)
    ensures
        sorted_by_bitrate(sorted_tier(analysis, h)),
        forall|i: int|
            #[trigger] is_tier_sample(analysis, h, i) ==> sorted_tier(analysis, h).contains(analysis[i]),
{
    let s = tier_samples(analysis, h, analysis.len() as int);
    let pts = sorted_tier(analysis, h);
    lemma_sort_by_bitrate(s);
    assert forall|i: int| #[trigger] is_tier_sample(analysis, h, i) implies pts.contains(analysis[i]) by {
        lemma_tier_samples_members(analysis, h, analysis.len() as int, analysis[i]);
        lemma_bitrate_sort_contains(s, analysis[i]);
    }
}

/// Where the `k`-th sorted sample of a tier stands in `analysis`.
proof fn lemma_sorted_tier_origin(analysis: Seq<DataPoint>, h: u32, k: int) -> (i: int)
    requires
        0 <= k < sorted_tier(analysis, h).len(),
    ensures
        is_tier_sample(analysis, h, i),
        analysis[i] == sorted_tier(analysis, h)[k],
{
    let s = tier_samples(analysis, h, analysis.len() as int);
    let pts = sorted_tier(analysis, h);
    assert(pts.contains(pts[k]));
    lemma_bitrate_sort_contains(s, pts[k]);
    lemma_tier_samples_members(analysis, h, analysis.len() as int, pts[k]);
    choose|i: int| 0 <= i < analysis.len() && #[trigger] is_tier_sample(analysis, h, i) && analysis[i] == pts[k]
}

/// `first_with_height` finds the first rung of that height, and `None` means there is none.
proof fn lemma_first_with_height(s: Seq<RenditionView>, h: u32, from: int)
    requires
        0 <= from,
    ensures
        first_with_height(s, h, from) matches Some(i) ==> from <= i < s.len() && s[i].height == h
            && forall|j: int| from <= j < i ==> #[trigger] s[j].height != h,
        first_with_height(s, h, from) is None ==> forall|j: int|
            from <= j < s.len() ==> #[trigger] s[j].height != h,
    decreases s.len() - from,
{
    if from < s.len() && s[from].height != h {
        lemma_first_with_height(s, h, from + 1);
    }
}

/// Law: each rung comparison reports, as its reference bitrate `b =
/// plan.reference_bitrate_kbps`, the bitrate of the first fixed-ladder rung of
/// the per-title rung's height when the ladder has one, and estimates the
/// quality at `b` from the samples of the rung's own tier:
/// - with a sample of the tier below `b` and one above it, the estimate is an
///   interpolation between two samples;
/// - those two samples are samples of the tier, their bitrates enclose `b`, and
///   no sample of the tier lies strictly between them;
/// - a single sampled score is that of the tier's lowest-bitrate sample when `b`
///   is at or below it, or of its highest when `b` is at or above it;
/// - the rung's own score stands in only when the tier has no sample with a
///   positive bitrate or `b` is zero.
pub proof fn lemma_comparison_reads_reference_bitrate(
    plan: RungPlan,
    reference: Seq<RenditionView>,
    analysis: Seq<DataPoint>,
    opt: RenditionView,
)
    requires
        plans_rung(plan, reference, analysis, opt),
    ensures
        (exists|r: int| 0 <= r < reference.len() && #[trigger] reference[r].height == opt.height)
            ==> exists|r: int|
            0 <= r < reference.len() && #[trigger] reference[r].height == opt.height
                && plan.reference_bitrate_kbps == reference[r].bitrate_kbps && forall|j: int|
                0 <= j < r ==> #[trigger] reference[j].height != opt.height,
        (exists|i: int, j: int|
            #[trigger] is_tier_sample(analysis, opt.height, i) && #[trigger] is_tier_sample(
                analysis,
                opt.height,
                j,
            ) && analysis[i].bitrate_kbps < plan.reference_bitrate_kbps
                < analysis[j].bitrate_kbps) ==> plan.vmaf_reference is Between,
        plan.vmaf_reference matches QualityEstimate::Between { low_kbps, low_vmaf, high_kbps, high_vmaf }
            ==> {
            &&& low_kbps <= plan.reference_bitrate_kbps <= high_kbps
            &&& exists|i: int|
                #[trigger] is_tier_sample(analysis, opt.height, i) && analysis[i].bitrate_kbps
                    == low_kbps && analysis[i].vmaf_mean == low_vmaf
            &&& exists|j: int|
                #[trigger] is_tier_sample(analysis, opt.height, j) && analysis[j].bitrate_kbps
                    == high_kbps && analysis[j].vmaf_mean == high_vmaf
            &&& forall|q: int|
                #[trigger] is_tier_sample(analysis, opt.height, q) ==> !(low_kbps
                    < analysis[q].bitrate_kbps < high_kbps)
        },
        plan.vmaf_reference matches QualityEstimate::Sampled(v) ==> exists|i: int|
            #[trigger] is_tier_sample(analysis, opt.height, i) && analysis[i].vmaf_mean == v && ((
            plan.reference_bitrate_kbps <= analysis[i].bitrate_kbps && forall|q: int|
                #[trigger] is_tier_sample(analysis, opt.height, q) ==> analysis[i].bitrate_kbps
                    <= analysis[q].bitrate_kbps) || (analysis[i].bitrate_kbps
            <= plan.reference_bitrate_kbps && forall|q: int|
                #[trigger] is_tier_sample(analysis, opt.height, q) ==> analysis[q].bitrate_kbps
                    <= analysis[i].bitrate_kbps)),
        plan.vmaf_reference is Fallback <==> (plan.reference_bitrate_kbps == 0 || forall|q: int|
            !#[trigger] is_tier_sample(analysis, opt.height, q)),
{
    let h = opt.height;
    let b = plan.reference_bitrate_kbps;
    lemma_first_with_height(reference, h, 0);
    let s = tier_samples(analysis, h, analysis.len() as int);
    let pts = sorted_tier(analysis, h);
    lemma_sort_by_bitrate(s);
    lemma_sorted_tier_members(analysis, h);
    lemma_estimate_falls_back_only_without_samples(analysis, h, b);
    assert(plan.vmaf_reference == quality_estimate(analysis, h, b));
    if exists|i: int, j: int|
        #[trigger] is_tier_sample(analysis, h, i) && #[trigger] is_tier_sample(analysis, h, j)
            && analysis[i].bitrate_kbps < b < analysis[j].bitrate_kbps {
        let (i, j) = choose|i: int, j: int|
            #[trigger] is_tier_sample(analysis, h, i) && #[trigger] is_tier_sample(analysis, h, j)
                && analysis[i].bitrate_kbps < b < analysis[j].bitrate_kbps;
        assert(pts.contains(analysis[i]));
        assert(pts.contains(analysis[j]));
        let ki = choose|k: int| 0 <= k < pts.len() && pts[k] == analysis[i];
        let kj = choose|k: int| 0 <= k < pts.len() && pts[k] == analysis[j];
        assert(pts[0].bitrate_kbps <= pts[ki].bitrate_kbps);
        assert(pts[kj].bitrate_kbps <= pts[pts.len() - 1].bitrate_kbps);
        lemma_bracket_exists(pts, b, 0);
    }
    if pts.len() > 0 {
        let e0 = lemma_sorted_tier_origin(analysis, h, 0);
        let el = lemma_sorted_tier_origin(analysis, h, pts.len() - 1);
        assert forall|q: int| #[trigger] is_tier_sample(analysis, h, q) implies pts[0].bitrate_kbps
            <= analysis[q].bitrate_kbps <= pts[pts.len() - 1].bitrate_kbps by {
            assert(pts.contains(analysis[q]));
            let k = choose|k: int| 0 <= k < pts.len() && pts[k] == analysis[q];
        }
        if b != 0 && pts[0].bitrate_kbps < b && b < pts[pts.len() - 1].bitrate_kbps {
            lemma_bracket_exists(pts, b, 0);
            lemma_first_bracket_is_bracket(pts, b, 0);
            let k = first_bracket(pts, b, 0)->0;
            let lo = lemma_sorted_tier_origin(analysis, h, k);
            let hi = lemma_sorted_tier_origin(analysis, h, k + 1);
            assert forall|q: int| #[trigger] is_tier_sample(analysis, h, q) implies !(pts[k].bitrate_kbps
                < analysis[q].bitrate_kbps < pts[k + 1].bitrate_kbps) by {
                assert(pts.contains(analysis[q]));
                let m = choose|m: int| 0 <= m < pts.len() && pts[m] == analysis[q];
                if m <= k {
                    assert(pts[m].bitrate_kbps <= pts[k].bitrate_kbps);
                } else {
                    assert(pts[k + 1].bitrate_kbps <= pts[m].bitrate_kbps);
                }
            }
        }
    } else {
        assert forall|q: int| !#[trigger] is_tier_sample(analysis, h, q) by {
            if is_tier_sample(analysis, h, q) {
                assert(pts.contains(analysis[q]));
            }
        }
    }
    if forall|q: int| !#[trigger] is_tier_sample(analysis, h, q) {
        if pts.len() > 0 {
            let e0 = lemma_sorted_tier_origin(analysis, h, 0);
        }
    }
}

} // verus!
