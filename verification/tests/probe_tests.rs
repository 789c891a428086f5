use stratos::probe::{fraction_parts, video_fields, ProbeError, ProbeStream};

fn stream(kind: &str, w: Option<u32>, h: Option<u32>) -> ProbeStream {
    ProbeStream {
        codec_type: kind.to_string(),
        codec_name: None,
        width: w,
        height: h,
        r_frame_rate: None,
    }
}

#[test]
fn first_video_stream_is_read() {
    let mut v = stream("video", Some(1920), Some(1080));
    v.codec_name = Some("h264".to_string());
    v.r_frame_rate = Some("30000/1001".to_string());
    let streams = vec![stream("audio", None, None), v, stream("video", Some(640), Some(360))];
    let p = video_fields(&streams, Some("12.5".to_string())).unwrap();
    assert_eq!((p.width, p.height), (1920, 1080));
    assert_eq!(p.codec, "h264");
    assert_eq!(p.frame_rate, "30000/1001");
    assert_eq!(p.duration, "12.5");
}

#[test]
fn defaults_for_codec_and_rate() {
    let p = video_fields(&[stream("video", Some(2), Some(3))], Some("1".to_string())).unwrap();
    assert_eq!(p.codec, "unknown");
    assert_eq!(p.frame_rate, "0/1");
}

#[test]
fn probe_errors_in_order() {
    let e = |s: Vec<ProbeStream>, d: Option<&str>| video_fields(&s, d.map(|x| x.to_string())).err();
    assert_eq!(e(vec![stream("audio", Some(1), Some(1))], Some("1")), Some(ProbeError::NoVideoStream));
    assert_eq!(e(vec![], None), Some(ProbeError::NoVideoStream));
    assert_eq!(e(vec![stream("video", None, None)], None), Some(ProbeError::MissingWidth));
    assert_eq!(e(vec![stream("video", Some(1), None)], None), Some(ProbeError::MissingHeight));
    assert_eq!(e(vec![stream("video", Some(1), Some(1))], None), Some(ProbeError::MissingDuration));
}

#[test]
fn fraction_sides() {
    assert_eq!(fraction_parts("30000/1001"), Some(("30000".to_string(), "1001".to_string())));
    assert_eq!(fraction_parts("25/"), Some(("25".to_string(), "".to_string())));
    assert_eq!(fraction_parts("25"), None);
    assert_eq!(fraction_parts("1/2/3"), None);
    assert_eq!(fraction_parts(""), None);
}
