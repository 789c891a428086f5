use stratos::api::{
    clean_name, html_charset, job_id_from_uuid, multipart_error, new_job_id, now_secs,
    sanitize_filename, sort_newest_first, summarize, JobSummary,
};
use stratos::state::{Job, JobStatus};

fn summary(id: &str, created_at: u64) -> JobSummary {
    JobSummary {
        id: id.to_string(),
        filename: "f.mp4".to_string(),
        status: JobStatus::Done,
        created_at,
        duration_sec: None,
        width: None,
        height: None,
        ladder_rungs: 0,
        bandwidth_savings_pct: None,
        saved_mb: None,
        error: None,
    }
}

#[test]
fn filenames_are_sanitized() {
    assert_eq!(sanitize_filename("my video (final).mp4"), "my_video__final_.mp4");
    assert_eq!(sanitize_filename("../../etc/passwd"), "passwd");
    assert_eq!(sanitize_filename("clips/Été-2024_v1.MOV"), "_t_-2024_v1.MOV");
    assert_eq!(sanitize_filename(""), "upload.mp4");
    assert_eq!(sanitize_filename("dir/.."), "upload.mp4");
    assert_eq!(sanitize_filename("/"), "upload.mp4");
}

#[test]
fn clean_name_replaces_each_character() {
    assert_eq!(clean_name("a b\tc"), "a_b_c");
    assert_eq!(clean_name("日本.mp4"), "__.mp4");
    assert_eq!(clean_name(""), "upload.mp4");
}

#[test]
fn job_ids() {
    assert_eq!(job_id_from_uuid("67e55044-10b1-426f-9247-bb680e5fe0c8"), "job_67e55044");
    let id = new_job_id();
    assert_eq!(id.len(), 12);
    assert!(id.starts_with("job_"));
    assert!(id[4..].chars().all(|c| c.is_ascii_digit() || ('a'..='f').contains(&c)));
    assert_ne!(new_job_id(), new_job_id());
}

#[test]
fn clock_reads_after_2020() {
    assert!(now_secs() > 1_577_836_800);
}

#[test]
fn rejected_uploads() {
    let (code, msg) = multipart_error("Failed to buffer the request body: length limit exceeded");
    assert_eq!((code, msg.as_str()), (413, "upload exceeds size limit (max 4 GiB)"));
    let (code, _) = multipart_error("payload too large");
    assert_eq!(code, 413);
    let (code, msg) = multipart_error("Invalid `boundary` for `multipart/form-data` request");
    assert_eq!(code, 400);
    assert_eq!(msg, "invalid multipart upload — use field name \"video\" and a single file");
    let (code, msg) = multipart_error("Expected request with `Content-Type: x`");
    assert_eq!((code, msg.as_str()), (400, "Expected request with `Content-Type: x`"));
}

#[test]
fn html_gets_utf8() {
    assert_eq!(html_charset("text/html").as_deref(), Some("text/html; charset=utf-8"));
    assert_eq!(html_charset("text/html; charset=iso-8859-1"), None);
    assert_eq!(html_charset("text/css"), None);
    assert_eq!(html_charset("application/json"), None);
}

#[test]
fn history_is_newest_first_and_stable() {
    let v = vec![summary("a", 10), summary("b", 30), summary("c", 10), summary("d", 20), summary("e", 30)];
    let sorted = sort_newest_first(v);
    let ids: Vec<&str> = sorted.iter().map(|s| s.id.as_str()).collect();
    assert_eq!(ids, vec!["b", "e", "d", "a", "c"]);
    assert!(sort_newest_first(vec![]).is_empty());
}

#[test]
fn summaries_reflect_jobs() {
    let mut job = Job::new("job_1".to_string(), "v.mp4".to_string(), 99);
    let s = summarize(&job, None);
    assert_eq!((s.id.as_str(), s.filename.as_str(), s.created_at), ("job_1", "v.mp4", 99));
    assert_eq!(s.status, JobStatus::Uploaded);
    assert_eq!((s.duration_sec, s.width, s.height, s.ladder_rungs), (None, None, None, 0));
    job.fail("boom".to_string());
    let s = summarize(&job, None);
    assert_eq!(s.status, JobStatus::Failed);
    assert_eq!(s.error.as_deref(), Some("boom"));
}

#[test]
fn sanitize_keeps_the_final_component_of_a_path() {
    assert_eq!(sanitize_filename("../uploads/my video (1).mp4"), "my_video__1_.mp4");
    assert_eq!(sanitize_filename("a/b/c.mkv"), "c.mkv");
}

#[test]
fn sanitize_never_returns_dot_names() {
    assert_eq!(sanitize_filename("."), "upload.mp4");
    assert_eq!(sanitize_filename(".."), "upload.mp4");
    assert_eq!(sanitize_filename("..."), "...");
    assert_eq!(sanitize_filename(".hidden"), ".hidden");
}

#[test]
fn sanitizing_twice_changes_nothing() {
    for name in [
        "../uploads/my video (1).mp4",
        "clips/Été-2024_v1.MOV",
        "",
        "..",
        "weird:name?.mp4",
        "ok-name_1.webm",
    ] {
        let once = sanitize_filename(name);
        assert_eq!(sanitize_filename(&once), once, "{name}");
    }
}

#[test]
fn sanitize_passes_over_trailing_separators_and_dots() {
    assert_eq!(sanitize_filename("foo.txt/.//"), "foo.txt");
    assert_eq!(sanitize_filename("a/b/."), "b");
    assert_eq!(sanitize_filename("a/./b.mp4"), "b.mp4");
    assert_eq!(sanitize_filename("./"), "upload.mp4");
    assert_eq!(sanitize_filename("a/../"), "upload.mp4");
}
