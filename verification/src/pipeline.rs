use vstd::prelude::*;

use crate::text::{decimal, decimal_string, push_text, string_of};

verus! {

/// Candidate bitrates (kbps) sampled for a tier of height `height`, ascending.
pub open spec fn candidate_rates(height: u32) -> Seq<u32> {
    if height <= 360 {
        seq![200, 400, 600, 900]
    } else if height <= 480 {
        seq![400, 700, 1100, 1600]
    } else if height <= 720 {
        seq![900, 1500, 2200, 3200]
    } else {
        seq![1600, 2800, 4000, 5500]
    }
}

/// Candidate bitrates per resolution tier (kbps), sampled to build the
/// rate–quality curve.
pub fn candidate_bitrates(height: u32) -> (rates: [u32; 4])
    ensures
        rates@ == candidate_rates(height),
{
    let rates: [u32; 4] = if height <= 360 {
        [200, 400, 600, 900]
    } else if height <= 480 {
        [400, 700, 1100, 1600]
    } else if height <= 720 {
        [900, 1500, 2200, 3200]
    } else {
        [1600, 2800, 4000, 5500]
    };
    assert(rates@ =~= candidate_rates(height));
    rates
}

/// A resolution tier of the analysis grid.
pub struct TierView {
    pub name: Seq<char>,
    pub width: u32,
    pub height: u32,
}

pub open spec fn standard_tiers() -> Seq<TierView> {
    seq![
        TierView { name: "360p"@, width: 640, height: 360 },
        TierView { name: "480p"@, width: 854, height: 480 },
        TierView { name: "720p"@, width: 1280, height: 720 },
        TierView { name: "1080p"@, width: 1920, height: 1080 },
    ]
}

/// The tiers analysed for a source of height `source_height`: every standard
/// tier no taller than the source, or, when none fits, one 16:9 tier at the
/// source height (at least 144 lines), its width rounded to the nearest pixel.
pub open spec fn grid_tiers(source_height: u32) -> Seq<TierView> {
    let n = if source_height >= 1080 {
        4int
    } else if source_height >= 720 {
        3
    } else if source_height >= 480 {
        2
    } else if source_height >= 360 {
        1
    } else {
        0
    };
    if n > 0 {
        standard_tiers().take(n)
    } else {
        let h: nat = if source_height >= 144 {
            source_height as nat
        } else {
            144
        };
        seq![TierView { name: decimal(h) + "p"@, width: ((32 * h + 9) / 18) as u32, height: h as u32 }]
    }
}

/// One planned sample encode: a tier at one candidate bitrate.
#[derive(Clone, Debug)]
pub struct AnalysisCell {
    /// Position in the grid; it makes every sample's output path unique.
    pub index: usize,
    pub resolution: String,
    pub width: u32,
    pub height: u32,
    pub bitrate_kbps: u32,
}

/// Cell `c` of tier `t`, the `4 * t + c`-th of the grid.
pub open spec fn cell_at(cells: Seq<AnalysisCell>, t: int, c: int) -> AnalysisCell {
    cells[4 * t + c]
}

/// `cell` is candidate `c` of tier `tier`, at grid position `index`.
pub open spec fn is_cell(cell: AnalysisCell, tier: TierView, c: int, index: int) -> bool {
    &&& cell.index == index
    &&& cell.resolution@ == tier.name
    &&& cell.width == tier.width
    &&& cell.height == tier.height
    &&& cell.bitrate_kbps == candidate_rates(tier.height)[c]
}

fn tier_list(source_height: u32) -> (tiers: Vec<(String, u32, u32)>)
    ensures
        tiers@.len() == grid_tiers(source_height).len(),
        forall|t: int|
            0 <= t < tiers@.len() ==> (#[trigger] tiers@[t]).0@ == grid_tiers(source_height)[t].name
                && tiers@[t].1 == grid_tiers(source_height)[t].width && tiers@[t].2 == grid_tiers(
                source_height,
            )[t].height,
{
    let mut tiers: Vec<(String, u32, u32)> = Vec::new();
    if 360 <= source_height {
        tiers.push((string_of("360p"), 640, 360));
    }
    if 480 <= source_height {
        tiers.push((string_of("480p"), 854, 480));
    }
    if 720 <= source_height {
        tiers.push((string_of("720p"), 1280, 720));
    }
    if 1080 <= source_height {
        tiers.push((string_of("1080p"), 1920, 1080));
    }
    if tiers.len() == 0 {
        assert(source_height < 360);
        let h: u32 = if source_height >= 144 {
            source_height
        } else {
            144
        };
        let w: u32 = (32 * h + 9) / 18;
        let mut name = decimal_string(h as u64);
        push_text(&mut name, "p");
        tiers.push((name, w, h));
    }
    tiers
}

/// Rate–quality grid: each analysed tier × its candidate bitrates, tier by
/// tier, candidates ascending, numbered from 0.
pub fn build_analysis_grid(source_height: u32) -> (grid: Vec<AnalysisCell>)
    ensures
        grid@.len() == 4 * grid_tiers(source_height).len(),
        forall|i: int| 0 <= i < grid@.len() ==> #[trigger] grid@[i].index == i,
        forall|t: int, c: int|
            0 <= t < grid_tiers(source_height).len() && 0 <= c < 4 ==> is_cell(
                #[trigger] cell_at(grid@, t, c),
                grid_tiers(source_height)[t],
                c,
                4 * t + c,
            ),
{
    let tiers = tier_list(source_height);
    let ghost tv = grid_tiers(source_height);
    let mut grid: Vec<AnalysisCell> = Vec::new();
    let mut index: usize = 0;
    let mut t: usize = 0;
    while t < tiers.len()
        invariant
            tv == grid_tiers(source_height),
            tiers@.len() == tv.len(),
            tv.len() <= 4,
            forall|u: int|
                0 <= u < tiers@.len() ==> (#[trigger] tiers@[u]).0@ == tv[u].name && tiers@[u].1
                    == tv[u].width && tiers@[u].2 == tv[u].height,
            t <= tiers@.len(),
            index == 4 * t,
            grid@.len() == index,
            forall|i: int| 0 <= i < grid@.len() ==> #[trigger] grid@[i].index == i,
            forall|u: int, c: int|
                0 <= u < t && 0 <= c < 4 ==> is_cell(#[trigger] cell_at(grid@, u, c), tv[u], c, 4 * u + c),
        decreases tiers@.len() - t,
    {
        let rates = candidate_bitrates(tiers[t].2);
        let mut c: usize = 0;
        while c < 4
            invariant
                tv == grid_tiers(source_height),
                tiers@.len() == tv.len(),
                tv.len() <= 4,
                t < tiers@.len(),
                tiers@[t as int].0@ == tv[t as int].name && tiers@[t as int].1 == tv[t as int].width
                    && tiers@[t as int].2 == tv[t as int].height,
                rates@ == candidate_rates(tv[t as int].height),
                c <= 4,
                index == 4 * t + c,
                grid@.len() == index,
                forall|i: int| 0 <= i < grid@.len() ==> #[trigger] grid@[i].index == i,
                forall|u: int, d: int|
                    0 <= u < t && 0 <= d < 4 ==> is_cell(#[trigger] cell_at(grid@, u, d), tv[u], d, 4 * u + d),
                forall|d: int|
                    0 <= d < c ==> is_cell(#[trigger] cell_at(grid@, t as int, d), tv[t as int], d, 4 * t + d),
            decreases 4 - c,
        {
            let ghost before = grid@;
            grid.push(
                AnalysisCell {
                    index,
                    resolution: tiers[t].0.clone(),
                    width: tiers[t].1,
                    height: tiers[t].2,
                    bitrate_kbps: rates[c],
                },
            );
            proof {
                assert forall|i: int| 0 <= i < grid@.len() implies #[trigger] grid@[i].index == i by {
                    if i < before.len() {
                        assert(grid@[i] == before[i]);
                    }
                }
                assert forall|u: int, d: int| 0 <= u < t && 0 <= d < 4 implies is_cell(
                    #[trigger] cell_at(grid@, u, d),
                    tv[u],
                    d,
                    4 * u + d,
                ) by {
                    assert(cell_at(grid@, u, d) == cell_at(before, u, d));
                }
                assert forall|d: int| 0 <= d < c + 1 implies is_cell(
                    #[trigger] cell_at(grid@, t as int, d),
                    tv[t as int],
                    d,
                    4 * t + d,
                ) by {
                    if d < c {
                        assert(cell_at(grid@, t as int, d) == cell_at(before, t as int, d));
                    }
                }
            }
            index = index + 1;
            c = c + 1;
        }
        t = t + 1;
    }
    grid
}


/// Law: the grid is capped to the source: every analysed tier is at most as
/// tall as the source, except the single fallback tier of a source under 360
/// lines, which is at least 144 lines tall. Tiers grow in height, and each
/// tier's candidate bitrates grow strictly.
pub proof fn lemma_grid_capped_to_source(source_height: u32)
    ensures
        grid_tiers(source_height).len() >= 1,
        source_height >= 360 ==> forall|t: int|
            0 <= t < grid_tiers(source_height).len() ==> #[trigger] grid_tiers(source_height)[t].height
                <= source_height,
        source_height < 360 ==> grid_tiers(source_height).len() == 1 && grid_tiers(
            source_height,
        )[0].height >= 144 && grid_tiers(source_height)[0].height >= source_height,
        forall|a: int, b: int|
            0 <= a < b < grid_tiers(source_height).len() ==> #[trigger] grid_tiers(source_height)[a].height
                < #[trigger] grid_tiers(source_height)[b].height,
        forall|h: u32, a: int, b: int|
            0 <= a < b < 4 ==> #[trigger] candidate_rates(h)[a] < #[trigger] candidate_rates(h)[b],
{
}


/// Some analysed tier of a source of height `source_height` is named `name`
/// and has frame size `width`×`height`.
pub open spec fn analyses_tier(source_height: u32, name: Seq<char>, width: u32, height: u32) -> bool {
    exists|t: int|
        0 <= t < grid_tiers(source_height).len() && #[trigger] grid_tiers(source_height)[t]
            == (TierView { name, width, height })
}

/// Law: every standard tier that the source is tall enough for is analysed:
/// 360p (640×360), 480p (854×480), 720p (1280×720) and 1080p (1920×1080)
/// each appear in the grid as soon as the source has at least that many lines,
/// and for such a source the grid holds nothing else, so it has four cells
/// for each of them.
pub proof fn lemma_grid_covers_fitting_tiers(source_height: u32)
    ensures
        360 <= source_height ==> analyses_tier(source_height, "360p"@, 640, 360),
        480 <= source_height ==> analyses_tier(source_height, "480p"@, 854, 480),
        720 <= source_height ==> analyses_tier(source_height, "720p"@, 1280, 720),
        1080 <= source_height ==> analyses_tier(source_height, "1080p"@, 1920, 1080),
        360 <= source_height ==> grid_tiers(source_height).len() == (if source_height >= 1080 {
            4int
        } else if source_height >= 720 {
            3int
        } else if source_height >= 480 {
            2int
        } else {
            1int
        }),
        360 <= source_height ==> forall|t: int|
            0 <= t < grid_tiers(source_height).len() ==> {
                let h = #[trigger] grid_tiers(source_height)[t].height;
                h == 360 || h == 480 || h == 720 || h == 1080
            },
{
    let g = grid_tiers(source_height);
    if 360 <= source_height {
        assert(g[0] == (TierView { name: "360p"@, width: 640, height: 360 }));
    }
    if 480 <= source_height {
        assert(g[1] == (TierView { name: "480p"@, width: 854, height: 480 }));
    }
    if 720 <= source_height {
        assert(g[2] == (TierView { name: "720p"@, width: 1280, height: 720 }));
    }
    if 1080 <= source_height {
        assert(g[3] == (TierView { name: "1080p"@, width: 1920, height: 1080 }));
    }
}

} // verus!
