use stratos::state::{duplicate_rungs, DataPoint, Job, JobEvent, JobStatus, Rendition, SourceInfo};

fn point() -> DataPoint {
    DataPoint {
        resolution: "360p".to_string(),
        width: 640,
        height: 360,
        bitrate_kbps: 200,
        vmaf_mean: 7,
        file_size_bytes: 1234,
    }
}

#[test]
fn new_job_paths() {
    let j = Job::new("job_ab12cd34".to_string(), "clip.mp4".to_string(), 1_700_000_000);
    assert_eq!(j.source_path, "uploads/job_ab12cd34_clip.mp4");
    assert_eq!(j.output_dir, "output/job_ab12cd34");
    assert_eq!(j.status, JobStatus::Uploaded);
    assert_eq!(j.created_at, 1_700_000_000);
    assert!(j.source_info.is_none() && j.insights.is_none() && j.error.is_none());
    assert!(j.analysis_points.is_empty() && j.chosen_ladder.is_empty());
}

#[test]
fn statuses_advance_in_order() {
    let mut j = Job::new("j".to_string(), "f".to_string(), 0);
    let mut seen = vec![];
    for _ in 0..6 {
        match j.advance() {
            JobEvent::StatusChanged { status } => seen.push(status),
            other => panic!("unexpected event {other:?}"),
        }
    }
    assert_eq!(
        seen,
        vec![
            JobStatus::Probing,
            JobStatus::Analyzing,
            JobStatus::Optimizing,
            JobStatus::Encoding,
            JobStatus::Done,
            JobStatus::Done
        ]
    );
    assert!(j.status.is_terminal());
}

#[test]
fn failure_is_recorded_and_sticks() {
    let mut j = Job::new("j".to_string(), "f".to_string(), 0);
    j.advance();
    match j.fail("ffmpeg vmaf failed".to_string()) {
        JobEvent::Error { message } => assert_eq!(message, "ffmpeg vmaf failed"),
        other => panic!("unexpected event {other:?}"),
    }
    assert_eq!(j.status, JobStatus::Failed);
    assert_eq!(j.error.as_deref(), Some("ffmpeg vmaf failed"));
    j.advance();
    assert_eq!(j.status, JobStatus::Failed);
    assert!(!JobStatus::Encoding.is_terminal());
}

#[test]
fn records_keep_what_they_are_given() {
    let mut j = Job::new("j".to_string(), "f".to_string(), 0);
    j.record_source_info(SourceInfo { width: 1, height: 2, duration_sec: 3, fps: 4, codec: "av1".to_string() });
    assert_eq!(j.source_info.as_ref().map(|s| s.codec.as_str()), Some("av1"));
    match j.record_analysis_point(point()) {
        JobEvent::AnalysisPoint { point: p } => assert_eq!(p.file_size_bytes, 1234),
        other => panic!("unexpected event {other:?}"),
    }
    assert_eq!(j.analysis_points.len(), 1);
    let ladder = vec![Rendition { name: "360p".to_string(), width: 640, height: 360, bitrate_kbps: 200, vmaf_mean: 7 }];
    match j.record_ladder(duplicate_rungs(&ladder)) {
        JobEvent::LadderChosen { ladder: l } => assert_eq!(l[0].name, "360p"),
        other => panic!("unexpected event {other:?}"),
    }
    assert_eq!(j.chosen_ladder.len(), 1);
    match j.set_status(JobStatus::Encoding) {
        JobEvent::StatusChanged { status } => assert_eq!(status, JobStatus::Encoding),
        other => panic!("unexpected event {other:?}"),
    }
    assert_eq!(j.status, JobStatus::Encoding);
}
