use stratos::insights::{
    avg_video_bitrate, build_rung_comparisons, compute, estimate_vmaf_at_bitrate,
    reference_ladder_for_source, reference_rung, QualityEstimate, AUDIO_KBPS,
};
use stratos::state::{DataPoint, Rendition, SourceInfo, ZERO_CODE};

fn code(x: f64) -> u64 {
    let x = if x == 0.0 { 0.0 } else { x };
    let bits = x.to_bits();
    if bits >> 63 == 1 {
        !bits
    } else {
        bits | (1u64 << 63)
    }
}

fn rung(name: &str, width: u32, height: u32, bitrate: u32, vmaf: f64) -> Rendition {
    Rendition { name: name.to_string(), width, height, bitrate_kbps: bitrate, vmaf_mean: code(vmaf) }
}

fn point(height: u32, bitrate: u32, vmaf: f64) -> DataPoint {
    DataPoint {
        resolution: format!("{height}p"),
        width: 0,
        height,
        bitrate_kbps: bitrate,
        vmaf_mean: code(vmaf),
        file_size_bytes: 0,
    }
}

fn rows(rs: &[Rendition]) -> Vec<(String, u32, u32, u32)> {
    rs.iter().map(|r| (r.name.clone(), r.width, r.height, r.bitrate_kbps)).collect()
}

#[test]
fn zero_code_is_the_code_of_zero() {
    assert_eq!(ZERO_CODE, code(0.0));
}

#[test]
fn reference_ladder_up_to_source() {
    let l = reference_ladder_for_source(1080);
    assert_eq!(
        rows(&l),
        vec![
            ("360p".to_string(), 640, 360, 600),
            ("480p".to_string(), 854, 480, 1000),
            ("720p".to_string(), 1280, 720, 2400),
            ("1080p".to_string(), 1920, 1080, 4500),
        ]
    );
    assert!(l.iter().all(|r| r.vmaf_mean == ZERO_CODE));
    assert_eq!(reference_ladder_for_source(720).len(), 3);
    assert_eq!(reference_ladder_for_source(2160).len(), 4);
}

#[test]
fn reference_ladder_for_small_source() {
    assert_eq!(rows(&reference_ladder_for_source(240)), vec![("240p".to_string(), 427, 240, 800)]);
    assert_eq!(rows(&reference_ladder_for_source(0)), vec![("144p".to_string(), 256, 144, 800)]);
}

#[test]
fn average_bitrate_rounds_down() {
    let l = vec![rung("a", 0, 1, 600, 0.0), rung("b", 0, 2, 1000, 0.0), rung("c", 0, 3, 2401, 0.0)];
    assert_eq!(avg_video_bitrate(&l), 1333);
    assert_eq!(avg_video_bitrate(&[]), 0);
    assert_eq!(avg_video_bitrate(&reference_ladder_for_source(1080)), 2125);
}

#[test]
fn reference_rung_by_height_then_name_then_made_up() {
    let reference = reference_ladder_for_source(1080);
    let by_height = reference_rung(&reference, &rung("custom", 1280, 720, 1500, 93.0));
    assert_eq!((by_height.name.as_str(), by_height.bitrate_kbps), ("720p", 2400));
    let by_name = reference_rung(&reference, &rung("480p", 800, 450, 700, 93.0));
    assert_eq!((by_name.height, by_name.bitrate_kbps), (480, 1000));
    let made_up = reference_rung(&reference, &rung("200p", 356, 200, 300, 93.0));
    assert_eq!((made_up.name.as_str(), made_up.height, made_up.bitrate_kbps), ("200p", 200, 700));
    assert_eq!(made_up.vmaf_mean, ZERO_CODE);
}

#[test]
fn estimate_clamps_and_brackets() {
    let a = vec![
        point(720, 2200, 94.0),
        point(720, 900, 85.0),
        point(360, 600, 99.0),
        point(720, 1500, 91.0),
        point(720, 0, 10.0),
    ];
    assert_eq!(estimate_vmaf_at_bitrate(&a, 720, 800), QualityEstimate::Sampled(code(85.0)));
    assert_eq!(estimate_vmaf_at_bitrate(&a, 720, 2400), QualityEstimate::Sampled(code(94.0)));
    assert_eq!(
        estimate_vmaf_at_bitrate(&a, 720, 1000),
        QualityEstimate::Between {
            low_kbps: 900,
            low_vmaf: code(85.0),
            high_kbps: 1500,
            high_vmaf: code(91.0)
        }
    );
    assert_eq!(
        estimate_vmaf_at_bitrate(&a, 720, 1500),
        QualityEstimate::Between {
            low_kbps: 900,
            low_vmaf: code(85.0),
            high_kbps: 1500,
            high_vmaf: code(91.0)
        }
    );
}

#[test]
fn estimate_falls_back_only_without_samples() {
    let a = vec![point(720, 900, 85.0), point(720, 0, 10.0)];
    assert_eq!(estimate_vmaf_at_bitrate(&a, 480, 1000), QualityEstimate::Fallback);
    assert_eq!(estimate_vmaf_at_bitrate(&a, 720, 0), QualityEstimate::Fallback);
    assert_eq!(estimate_vmaf_at_bitrate(&a, 720, 1000), QualityEstimate::Sampled(code(85.0)));
}

#[test]
fn rung_plans_follow_the_chosen_ladder() {
    let reference = reference_ladder_for_source(720);
    let analysis = vec![point(720, 900, 85.0), point(720, 3200, 97.0)];
    let chosen = vec![rung("720p", 1280, 720, 1500, 93.0)];
    let plans = build_rung_comparisons(&reference, &chosen, &analysis);
    assert_eq!(plans.len(), 1);
    assert_eq!(plans[0].resolution, "720p");
    assert_eq!(plans[0].reference_bitrate_kbps, 2400);
    assert_eq!(plans[0].optimized_bitrate_kbps, 1500);
    assert_eq!(plans[0].vmaf_optimized, code(93.0));
    assert_eq!(
        plans[0].vmaf_reference,
        QualityEstimate::Between {
            low_kbps: 900,
            low_vmaf: code(85.0),
            high_kbps: 3200,
            high_vmaf: code(97.0)
        }
    );
}

#[test]
fn compute_counts_and_averages() {
    let source = SourceInfo {
        width: 1280,
        height: 720,
        duration_sec: code(120.0),
        fps: code(25.0),
        codec: "h264".to_string(),
    };
    let analysis: Vec<DataPoint> = (0..12).map(|i| point(360 + 120 * (i / 4), 400 + 100 * i, 90.0)).collect();
    let chosen = vec![
        rung("360p", 640, 360, 400, 93.0),
        rung("480p", 854, 480, 700, 93.5),
        rung("720p", 1280, 720, 1500, 94.0),
    ];
    let b = compute(&source, &analysis, &chosen);
    assert_eq!(b.reference_ladder.len(), 3);
    assert_eq!(b.reference_avg_bitrate_kbps, 1333);
    assert_eq!(b.optimized_avg_bitrate_kbps, 866);
    assert_eq!(b.reference_delivery_kbps, 1333 + AUDIO_KBPS);
    assert_eq!(b.optimized_delivery_kbps, 994);
    assert_eq!(b.encode_analysis_passes, 12);
    assert_eq!(b.encode_final_renditions, 3);
    assert_eq!(b.encode_reference_renditions, 3);
    let refs: Vec<u32> = b.rung_comparisons.iter().map(|p| p.reference_bitrate_kbps).collect();
    assert_eq!(refs, vec![600, 1000, 2400]);
}

#[test]
fn reference_ladder_matches_analysis_tiers() {
    for h in [0u32, 143, 200, 359, 360, 479, 480, 720, 1079, 1080, 4320] {
        let reference = reference_ladder_for_source(h);
        let grid = stratos::pipeline::build_analysis_grid(h);
        assert_eq!(grid.len(), 4 * reference.len());
        for (t, r) in reference.iter().enumerate() {
            let cell = &grid[4 * t];
            assert_eq!((&cell.resolution, cell.width, cell.height), (&r.name, r.width, r.height), "height {h}");
        }
    }
}
