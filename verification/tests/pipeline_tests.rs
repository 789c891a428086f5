use stratos::pipeline::{build_analysis_grid, candidate_bitrates};

#[test]
fn candidates_by_tier() {
    assert_eq!(candidate_bitrates(360), [200, 400, 600, 900]);
    assert_eq!(candidate_bitrates(0), [200, 400, 600, 900]);
    assert_eq!(candidate_bitrates(361), [400, 700, 1100, 1600]);
    assert_eq!(candidate_bitrates(480), [400, 700, 1100, 1600]);
    assert_eq!(candidate_bitrates(720), [900, 1500, 2200, 3200]);
    assert_eq!(candidate_bitrates(721), [1600, 2800, 4000, 5500]);
    assert_eq!(candidate_bitrates(2160), [1600, 2800, 4000, 5500]);
}

#[test]
fn grid_for_full_hd_source() {
    let g = build_analysis_grid(1080);
    assert_eq!(g.len(), 16);
    for (i, c) in g.iter().enumerate() {
        assert_eq!(c.index, i);
    }
    assert_eq!((g[0].resolution.as_str(), g[0].width, g[0].height, g[0].bitrate_kbps), ("360p", 640, 360, 200));
    assert_eq!((g[5].resolution.as_str(), g[5].width, g[5].bitrate_kbps), ("480p", 854, 700));
    assert_eq!((g[10].resolution.as_str(), g[10].width, g[10].bitrate_kbps), ("720p", 1280, 2200));
    assert_eq!((g[15].resolution.as_str(), g[15].width, g[15].bitrate_kbps), ("1080p", 1920, 5500));
}

#[test]
fn grid_is_capped_to_source_height() {
    let g = build_analysis_grid(719);
    assert_eq!(g.len(), 8);
    assert!(g.iter().all(|c| c.height <= 719));
    assert_eq!(g[7].resolution, "480p");
}

#[test]
fn small_source_gets_one_tier_at_its_height() {
    let g = build_analysis_grid(200);
    assert_eq!(g.len(), 4);
    assert!(g.iter().all(|c| c.resolution == "200p" && c.width == 356 && c.height == 200));
    assert_eq!(g.iter().map(|c| c.bitrate_kbps).collect::<Vec<_>>(), vec![200, 400, 600, 900]);
    let tiny = build_analysis_grid(90);
    assert!(tiny.iter().all(|c| c.resolution == "144p" && c.width == 256 && c.height == 144));
}
