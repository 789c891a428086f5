use stratos::ffmpeg::{
    encode_sample_args, has_vmaf_filter, hls_args, master_playlist, parse_progress_line,
    reference_clip_args, scale_filter, vmaf_args, vmaf_log_file,
};

#[test]
fn scale_filter_letterboxes() {
    assert_eq!(
        scale_filter(1280, 720),
        "scale=w=1280:h=720:force_original_aspect_ratio=decrease,pad=1280:720:(ow-iw)/2:(oh-ih)/2"
    );
}

#[test]
fn sample_encode_arguments() {
    let a = encode_sample_args("in.mp4", "out/00_360p_200k.mp4", 640, 360, 200, "45", "30");
    let expected: Vec<&str> = vec![
        "-y", "-hide_banner", "-loglevel", "error", "-ss", "45", "-i", "in.mp4", "-t", "30", "-vf",
        "scale=w=640:h=360:force_original_aspect_ratio=decrease,pad=640:360:(ow-iw)/2:(oh-ih)/2",
        "-c:v", "libx264", "-preset", "fast", "-b:v", "200k", "-maxrate", "300k", "-bufsize",
        "400k", "-g", "48", "-keyint_min", "48", "-sc_threshold", "0", "-an", "-movflags",
        "+faststart", "out/00_360p_200k.mp4",
    ];
    assert_eq!(a, expected);
}

#[test]
fn reference_clip_arguments() {
    let a = reference_clip_args("src.mov", "ref.mp4", "12.5", "30");
    let expected: Vec<&str> = vec![
        "-y", "-hide_banner", "-loglevel", "error", "-ss", "12.5", "-i", "src.mov", "-t", "30",
        "-c:v", "libx264", "-preset", "ultrafast", "-crf", "12", "-g", "48", "-keyint_min", "48",
        "-sc_threshold", "0", "-an", "-movflags", "+faststart", "ref.mp4",
    ];
    assert_eq!(a, expected);
}

#[test]
fn hls_arguments() {
    let a = hls_args("src.mp4", "output/job_1/720p", 1280, 720, 1500);
    assert_eq!(a.len(), 46);
    assert_eq!(&a[..9], &["-y", "-hide_banner", "-loglevel", "error", "-progress", "pipe:1", "-nostats", "-i", "src.mp4"]);
    assert_eq!(a[20], "1500k");
    assert_eq!(a[22], "1600k");
    assert_eq!(a[24], "3000k");
    assert_eq!(&a[34..45], &[
        "128k", "-ac", "2", "-f", "hls", "-hls_time", "6", "-hls_playlist_type", "vod",
        "-hls_segment_filename", "output/job_1/720p/seg%05d.ts",
    ][..]);
    assert_eq!(a[45], "output/job_1/720p/stream.m3u8");
}

#[test]
fn vmaf_arguments() {
    assert_eq!(vmaf_log_file("a/b.mp4"), "a/b.mp4.vmaf.json");
    let a = vmaf_args("a/b.mp4", "ref.mp4", 854, 480);
    assert_eq!(a.len(), 15);
    assert_eq!(a[4], "a/b.mp4");
    assert_eq!(a[6], "ref.mp4");
    assert_eq!(
        a[8],
        "[0:v]format=yuv420p10le,setpts=PTS-STARTPTS,settb=AVTB[dist];[1:v]scale=w=854:h=480:force_original_aspect_ratio=decrease,pad=854:480:(ow-iw)/2:(oh-ih)/2,format=yuv420p10le,setpts=PTS-STARTPTS,settb=AVTB[ref];[dist][ref]libvmaf=shortest=true:ts_sync_mode=nearest:n_threads=4:log_path=a/b.mp4.vmaf.json:log_fmt=json"
    );
    assert_eq!(&a[9..], &["-an", "-sn", "-dn", "-f", "null", "-"]);
}

#[test]
fn master_playlist_lists_renditions() {
    let rows = vec![
        ("360p".to_string(), 640, 360, 400),
        ("720p".to_string(), 1280, 720, 1500),
    ];
    let text = master_playlist(&rows);
    assert_eq!(
        text,
        "#EXTM3U\n#EXT-X-VERSION:6\n\n\
         #EXT-X-STREAM-INF:BANDWIDTH=528000,AVERAGE-BANDWIDTH=528000,RESOLUTION=640x360,CODECS=\"avc1.640028,mp4a.40.2\",NAME=\"360p\"\n360p/stream.m3u8\n\n\
         #EXT-X-STREAM-INF:BANDWIDTH=1628000,AVERAGE-BANDWIDTH=1628000,RESOLUTION=1280x720,CODECS=\"avc1.640028,mp4a.40.2\",NAME=\"720p\"\n720p/stream.m3u8\n\n"
    );
    assert_eq!(master_playlist(&[]), "#EXTM3U\n#EXT-X-VERSION:6\n\n");
}

#[test]
fn progress_lines() {
    assert_eq!(parse_progress_line("out_time_us=1500000"), Some(1_500_000));
    assert_eq!(parse_progress_line("out_time_us= 42 \r"), Some(42));
    assert_eq!(parse_progress_line("out_time_us=-5"), Some(-5));
    assert_eq!(parse_progress_line("out_time_us=+7"), Some(7));
    assert_eq!(parse_progress_line("out_time_us=N/A"), None);
    assert_eq!(parse_progress_line("out_time_us="), None);
    assert_eq!(parse_progress_line("out_time_us=-"), None);
    assert_eq!(parse_progress_line("out_time_ms=1500"), None);
    assert_eq!(parse_progress_line(" out_time_us=15"), None);
    assert_eq!(parse_progress_line("out_time_us=9223372036854775807"), Some(i64::MAX));
    assert_eq!(parse_progress_line("out_time_us=-9223372036854775808"), Some(i64::MIN));
    assert_eq!(parse_progress_line("out_time_us=9223372036854775808"), None);
    assert_eq!(parse_progress_line("out_time_us=1 2"), None);
}

#[test]
fn progress_round_trip() {
    for us in [0u64, 7, 1_000_000, 123_456_789, i64::MAX as u64] {
        assert_eq!(parse_progress_line(&format!("out_time_us={us}")), Some(us as i64));
    }
}

#[test]
fn vmaf_filter_detection() {
    assert!(has_vmaf_filter(" ... libvmaf          VV->V      Calculate the VMAF between two video streams."));
    assert!(!has_vmaf_filter(" ... scale             V->V       Scale the input video size."));
    assert!(!has_vmaf_filter(""));
}
