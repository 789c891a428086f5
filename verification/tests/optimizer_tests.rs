use stratos::optimizer::{choose_per_title_ladder, pareto_frontier, select_ladder, to_rendition};
use stratos::state::{DataPoint, Rendition};

/// Order code of a real number, as the service encodes scores.
fn code(x: f64) -> u64 {
    let x = if x == 0.0 { 0.0 } else { x };
    let bits = x.to_bits();
    if bits >> 63 == 1 {
        !bits
    } else {
        bits | (1u64 << 63)
    }
}

fn point(res: &str, height: u32, bitrate: u32, vmaf: f64) -> DataPoint {
    DataPoint {
        resolution: res.to_string(),
        width: height * 16 / 9,
        height,
        bitrate_kbps: bitrate,
        vmaf_mean: code(vmaf),
        file_size_bytes: bitrate as u64 * 100,
    }
}

fn summary(rs: &[Rendition]) -> Vec<(String, u32, u32)> {
    rs.iter().map(|r| (r.name.clone(), r.height, r.bitrate_kbps)).collect()
}

fn bitrates(ps: &[DataPoint]) -> Vec<u32> {
    ps.iter().map(|p| p.bitrate_kbps).collect()
}

#[test]
fn codes_keep_the_order_of_scores() {
    let xs = [-3.5, -0.0, 0.0, 1e-9, 42.0, 93.0, 93.25, 100.0];
    for a in xs {
        for b in xs {
            assert_eq!(a < b, code(a) < code(b), "{a} vs {b}");
            assert_eq!(a == b, code(a) == code(b), "{a} vs {b}");
        }
    }
}

#[test]
fn frontier_drops_dominated_points() {
    let pts = vec![
        point("720p", 720, 1500, 90.0),
        point("360p", 360, 400, 80.0),
        point("480p", 480, 500, 70.0), // dominated by the 400 kbps point
        point("720p", 720, 900, 88.0),
        point("1080p", 1080, 2800, 89.0), // dominated by 1500 kbps / 90
    ];
    let f = pareto_frontier(&pts);
    assert_eq!(bitrates(&f), vec![400, 900, 1500]);
    assert_eq!(f[0].resolution, "360p");
    assert_eq!(f[2].vmaf_mean, code(90.0));
}

#[test]
fn frontier_is_monotone_in_quality() {
    let pts = vec![
        point("a", 360, 200, 60.0),
        point("b", 360, 400, 75.0),
        point("c", 720, 900, 74.0),
        point("d", 720, 1500, 91.0),
        point("e", 1080, 1600, 91.0),
        point("f", 1080, 2800, 95.5),
    ];
    let f = pareto_frontier(&pts);
    for w in f.windows(2) {
        assert!(w[0].bitrate_kbps <= w[1].bitrate_kbps);
        assert!(w[0].vmaf_mean <= w[1].vmaf_mean);
    }
    assert_eq!(bitrates(&f), vec![200, 400, 1500, 2800]);
}

#[test]
fn frontier_keeps_equal_points_in_input_order() {
    let pts = vec![
        point("second", 480, 700, 85.0),
        point("first", 360, 700, 85.0),
        point("low", 360, 200, 50.0),
    ];
    let f = pareto_frontier(&pts);
    let names: Vec<&str> = f.iter().map(|p| p.resolution.as_str()).collect();
    assert_eq!(names, vec!["low", "second", "first"]);
}

#[test]
fn frontier_of_nothing_is_empty() {
    assert!(pareto_frontier(&[]).is_empty());
}

#[test]
fn ladder_takes_cheapest_sample_reaching_target() {
    let pts = vec![
        point("720p", 720, 3200, 97.0),
        point("720p", 720, 900, 88.0),
        point("720p", 720, 2200, 94.0),
        point("720p", 720, 1500, 93.0),
        point("360p", 360, 600, 96.0),
        point("360p", 360, 200, 85.0),
        point("360p", 360, 400, 93.5),
    ];
    let ladder = choose_per_title_ladder(&pts, code(93.0));
    assert_eq!(
        summary(&ladder),
        vec![("360p".to_string(), 360, 400), ("720p".to_string(), 720, 1500)]
    );
    assert_eq!(ladder[1].vmaf_mean, code(93.0));
}

#[test]
fn ladder_falls_back_to_highest_bitrate() {
    let pts = vec![
        point("1080p", 1080, 1600, 80.0),
        point("1080p", 1080, 5500, 90.0),
        point("1080p", 1080, 2800, 85.0),
    ];
    let ladder = choose_per_title_ladder(&pts, code(93.0));
    assert_eq!(summary(&ladder), vec![("1080p".to_string(), 1080, 5500)]);
}

#[test]
fn ladder_ties_prefer_earliest_passing_and_latest_fallback() {
    let pass = vec![point("early", 480, 700, 95.0), point("late", 480, 700, 96.0)];
    let l = choose_per_title_ladder(&pass, code(93.0));
    assert_eq!(l[0].name, "early");
    let fail = vec![point("early", 480, 700, 80.0), point("late", 480, 700, 81.0)];
    let l = choose_per_title_ladder(&fail, code(93.0));
    assert_eq!(l[0].name, "late");
}

#[test]
fn ladder_has_one_rung_per_height_ascending() {
    let pts = vec![
        point("1080p", 1080, 1600, 94.0),
        point("360p", 360, 200, 94.0),
        point("720p", 720, 900, 94.0),
        point("360p", 360, 400, 95.0),
    ];
    let ladder = choose_per_title_ladder(&pts, code(93.0));
    let heights: Vec<u32> = ladder.iter().map(|r| r.height).collect();
    assert_eq!(heights, vec![360, 720, 1080]);
    assert!(choose_per_title_ladder(&[], code(93.0)).is_empty());
}

#[test]
fn to_rendition_copies_fields() {
    let p = point("480p", 480, 700, 91.5);
    let r = to_rendition(&p);
    assert_eq!((r.name.as_str(), r.width, r.height, r.bitrate_kbps), ("480p", p.width, 480, 700));
    assert_eq!(r.vmaf_mean, p.vmaf_mean);
}

#[test]
fn subset_ladder_small_frontier_is_returned_whole() {
    let f = vec![point("360p", 360, 200, 70.0), point("720p", 720, 900, 90.0)];
    assert!(select_ladder(&[], 3, &[]).is_empty());
    let l = select_ladder(&f, 3, &[]);
    assert_eq!(summary(&l), vec![("360p".to_string(), 360, 200), ("720p".to_string(), 720, 900)]);
}

#[test]
fn subset_ladder_keeps_ends_and_new_tiers() {
    let f = vec![
        point("360p", 360, 200, 60.0),
        point("360p", 360, 400, 70.0),
        point("480p", 480, 700, 80.0),
        point("720p", 720, 1500, 90.0),
        point("1080p", 1080, 2800, 96.0),
    ];
    // Targets 72 and 84 are nearest to indices 1 (70) and 2 (80).
    let l = select_ladder(&f, 4, &[1, 2]);
    assert_eq!(
        summary(&l),
        vec![
            ("360p".to_string(), 360, 200),
            ("480p".to_string(), 480, 700),
            ("1080p".to_string(), 1080, 2800)
        ]
    );
    let l = select_ladder(&f, 1, &[]);
    assert_eq!(bitrates_of(&l), vec![200, 2800]);
}

fn bitrates_of(rs: &[Rendition]) -> Vec<u32> {
    rs.iter().map(|r| r.bitrate_kbps).collect()
}

#[test]
fn raising_the_target_never_lowers_a_rung() {
    let pts = vec![
        point("720p", 720, 3200, 97.0),
        point("720p", 720, 900, 88.0),
        point("720p", 720, 2200, 94.0),
        point("720p", 720, 1500, 93.0),
        point("360p", 360, 600, 96.0),
        point("360p", 360, 200, 85.0),
        point("360p", 360, 400, 93.5),
    ];
    let mut last: Option<Vec<u32>> = None;
    for target in [80.0, 86.0, 90.0, 93.0, 93.6, 95.0, 96.5, 99.0] {
        let now: Vec<u32> = choose_per_title_ladder(&pts, code(target))
            .iter()
            .map(|r| r.bitrate_kbps)
            .collect();
        if let Some(prev) = &last {
            for (a, b) in prev.iter().zip(now.iter()) {
                assert!(a <= b, "target {target}: {prev:?} then {now:?}");
            }
        }
        last = Some(now);
    }
    let low = choose_per_title_ladder(&pts, code(86.0));
    let high = choose_per_title_ladder(&pts, code(95.0));
    assert_eq!(bitrates_of(&low), vec![400, 900]);
    assert_eq!(bitrates_of(&high), vec![600, 3200]);
}

#[test]
fn frontier_of_a_frontier_is_itself() {
    let pts = vec![
        point("720p", 720, 1500, 90.0),
        point("360p", 360, 400, 80.0),
        point("480p", 480, 500, 70.0),
        point("720p", 720, 900, 88.0),
        point("1080p", 1080, 2800, 89.0),
        point("1080p", 1080, 4000, 95.0),
    ];
    let f = pareto_frontier(&pts);
    let ff = pareto_frontier(&f);
    assert_eq!(bitrates(&ff), bitrates(&f));
    assert_eq!(bitrates(&f), vec![400, 900, 1500, 4000]);
}
