use vstd::prelude::*;

use crate::ordering::{
    insert_by_key, insertion_point, lemma_scan_step, lemma_scan_stop, lemma_sort_by_key,
    sort_by_key,
};
use crate::state::{Job, JobStatus, ScoreCode};
use crate::text::{chars_of, contains, contains_text, push_char, push_text, starts_with, string_of};

verus! {

#[verifier::external_type_specification]
#[verifier::external_body]
pub struct ExSystemTime(std::time::SystemTime);

#[verifier::external_type_specification]
#[verifier::external_body]
pub struct ExSystemTimeError(std::time::SystemTimeError);

/// `SystemTime::now`: the current wall-clock time. Nothing is claimed of it.
#[verifier::external_body]
fn system_now() -> std::time::SystemTime {
    std::time::SystemTime::now()
}

/// `SystemTime::duration_since(UNIX_EPOCH)`: time elapsed since the Unix epoch,
/// or an error when the clock is set before it. Nothing is claimed of either.
#[verifier::external_body]
fn since_unix_epoch(t: &std::time::SystemTime) -> Result<
    core::time::Duration,
    std::time::SystemTimeError,
> {
    t.duration_since(std::time::UNIX_EPOCH)
}

/// `Duration::as_secs`: whole seconds of a duration. The duration is opaque
/// here, so nothing is claimed of the number.
#[verifier::external_body]
fn whole_seconds(d: &core::time::Duration) -> u64 {
    d.as_secs()
}

/// Current Unix time in whole seconds, 0 when the clock reads before the epoch.
/// What the clock reads is not stated.
pub fn now_secs() -> u64 {
    let now = system_now();
    match since_unix_epoch(&now) {
        Ok(d) => whole_seconds(&d),
        Err(_) => 0,
    }
}

pub open spec fn is_lower_hex(c: char) -> bool {
    ('0' <= c && c <= '9') || ('a' <= c && c <= 'f')
}

/// The hyphenated lower-case form of a UUID: 8-4-4-4-12 hex digits.
pub open spec fn is_hyphenated_uuid(s: Seq<char>) -> bool {
    &&& s.len() == 36
    &&& forall|i: int|
        0 <= i < 36 ==> if i == 8 || i == 13 || i == 18 || i == 23 {
            #[trigger] s[i] == '-'
        } else {
            is_lower_hex(s[i])
        }
}

/// `Uuid::new_v4().to_string()`: a random version-4 UUID in its hyphenated,
/// lower-case text form (the crate's `Display` writes `encode_lower` of the
/// hyphenated form: 36 characters, hex digits `0-9a-f`, hyphens at positions
/// 8, 13, 18 and 23). Which UUID comes out is random and not stated.
#[verifier::external_body]
fn random_uuid_text() -> (s: String)
    ensures
        is_hyphenated_uuid(s@),
{
    uuid::Uuid::new_v4().to_string()
}

/// The id of a job whose UUID text is `uuid`: `job_` and its first 8 characters.
pub open spec fn job_id_for(uuid: Seq<char>) -> Seq<char> {
    "job_"@ + uuid.take(8)
}

/// The job id made from a UUID text.
pub fn job_id_from_uuid(uuid: &str) -> (id: String)
    requires
        uuid@.len() >= 8,
    ensures
        id@ == job_id_for(uuid@),
{
    let c = chars_of(uuid);
    let mut id = string_of("job_");
    let mut i: usize = 0;
    while i < 8
        invariant
            c@ == uuid@,
            c@.len() >= 8,
            i <= 8,
            id@ == "job_"@ + uuid@.take(i as int),
        decreases 8 - i,
    {
        push_char(&mut id, c[i]);
        proof {
            assert(uuid@.take(i + 1) == uuid@.take(i as int).push(c@[i as int]));
            assert(("job_"@ + uuid@.take(i as int)).push(c@[i as int]) == "job_"@ + uuid@.take(
                i + 1,
            ));
        }
        i = i + 1;
    }
    id
}

/// A fresh job id: `job_` followed by 8 random lower-case hex digits.
pub fn new_job_id() -> (id: String)
    ensures
        exists|u: Seq<char>| is_hyphenated_uuid(u) && id@ == job_id_for(u),
{
    let u = random_uuid_text();
    job_id_from_uuid(u.as_str())
}

/// Characters kept as they are in stored file names.
pub open spec fn is_safe_char(c: char) -> bool {
    ||| ('a' <= c && c <= 'z')
    ||| ('A' <= c && c <= 'Z')
    ||| ('0' <= c && c <= '9')
    ||| c == '.'
    ||| c == '-'
    ||| c == '_'
}

/// `base` with every unsafe character replaced by `_`, or `upload.mp4` when it is empty.
pub open spec fn cleaned_name(base: Seq<char>) -> Seq<char> {
    if base.len() == 0 {
        "upload.mp4"@
    } else {
        base.map_values(|c: char| if is_safe_char(c) { c } else { '_' })
    }
}

/// Replaces every character of `base` other than ASCII letters, digits, `.`,
/// `-` and `_` by `_`; an empty name becomes `upload.mp4`.
pub fn clean_name(base: &str) -> (r: String)
    ensures
        r@ == cleaned_name(base@),
{
    let c = chars_of(base);
    if c.len() == 0 {
        return string_of("upload.mp4");
    }
    let mut r = String::new();
    let mut i: usize = 0;
    while i < c.len()
        invariant
            c@ == base@,
            i <= c@.len(),
            r@ == base@.take(i as int).map_values(|c: char| if is_safe_char(c) { c } else { '_' }),
        decreases c@.len() - i,
    {
        let ch = c[i];
        let safe = ('a' <= ch && ch <= 'z') || ('A' <= ch && ch <= 'Z') || ('0' <= ch && ch <= '9')
            || ch == '.' || ch == '-' || ch == '_';
        if safe {
            push_char(&mut r, ch);
        } else {
            push_char(&mut r, '_');
        }
        proof {
            assert(base@.take(i + 1) == base@.take(i as int).push(ch));
            assert(base@.take(i + 1).map_values(|c: char| if is_safe_char(c) { c } else { '_' })
                =~= base@.take(i as int).map_values(|c: char| if is_safe_char(c) { c } else { '_' }).push(
                if is_safe_char(ch) {
                    ch
                } else {
                    '_'
                },
            ));
        }
        i = i + 1;
    }
    proof {
        assert(base@.take(c@.len() as int) == base@);
    }
    r
}

/// A final path component as `Path::file_name` gives one on every platform:
/// non-empty, and neither `.` nor `..`.
pub open spec fn is_path_component(c: Seq<char>) -> bool {
    &&& c.len() > 0
    &&& c != "."@
    &&& c != ".."@
}

/// A name that every platform reads as a single ordinary component: a path
/// component with no `/`, no backslash and no `:`.
pub open spec fn is_plain_name(s: Seq<char>) -> bool {
    &&& is_path_component(s)
    &&& forall|i: int| 0 <= i < s.len() ==> #[trigger] s[i] != '/' && s[i] != '\\' && s[i] != ':'
}

/// Path text that every platform splits at `/` alone and reads with no
/// prefix: no backslash, no `:`, and it does not start with `//`.
pub open spec fn is_slash_path(s: Seq<char>) -> bool {
    &&& forall|i: int| 0 <= i < s.len() ==> #[trigger] s[i] != '\\' && s[i] != ':'
    &&& !(s.len() >= 2 && s[0] == '/' && s[1] == '/')
}

/// The characters of `s` after its last `/` (all of `s` when it has none).
pub open spec fn final_run(s: Seq<char>) -> Seq<char>
    decreases s.len(),
{
    if s.len() == 0 || s.last() == '/' {
        Seq::empty()
    } else {
        final_run(s.drop_last()).push(s.last())
    }
}

/// The file name that `/`-separated path text ends in: its last segment that
/// is neither empty nor `.`, or `None` when there is no such segment or it
/// is `..`.
pub open spec fn path_file_name(s: Seq<char>) -> Option<Seq<char>>
    decreases s.len(),
{
    if s.len() == 0 {
        None
    } else if s.last() == '/' || final_run(s) == "."@ {
        path_file_name(s.drop_last())
    } else if final_run(s) == ".."@ {
        None
    } else {
        Some(final_run(s))
    }
}

/// `Path::new(name).file_name()` as text: the final component of the path, or
/// `None` when it has none (it is empty, a root or a prefix, or ends in `..`).
/// Trailing separators and `.` segments are passed over, as `Path`'s
/// documentation shows (`foo.txt/.//` has the file name `foo.txt`).
/// Any component returned is one of the path's `Normal` components, which are
/// never empty, `.` or `..`, and it is a slice of `name`.
/// On path text with no backslash, no `:` and no leading `//`, every platform
/// splits at `/` only and finds no prefix (Windows prefixes need a backslash,
/// a leading pair of separators, or a drive letter and `:`), so there the
/// result is exactly `path_file_name`. What Windows makes of other names
/// (drive, UNC and verbatim prefixes, backslash separators) is not stated.
#[verifier::external_body]
fn final_component(name: &str) -> (r: Option<String>)
    ensures
        r is Some ==> is_path_component(r->0@) && contains_text(name@, r->0@),
        is_slash_path(name@) ==> (r is Some <==> path_file_name(name@) is Some),
        is_slash_path(name@) && r is Some ==> r->0@ == path_file_name(name@)->0,
{
    std::path::Path::new(name).file_name().and_then(|s| s.to_str()).map(|s| s.to_string())
}

/// What the upload of a file named `name` is stored as: the cleaned file name
/// of the path, or `upload.mp4` when the path has none.
pub open spec fn stored_name(name: Seq<char>) -> Seq<char> {
    match path_file_name(name) {
        Some(base) => cleaned_name(base),
        None => cleaned_name("upload.mp4"@),
    }
}

/// `c` is the cleaned form of a path component (non-empty, not `.` or `..`)
/// that occurs in `name`, or of `upload.mp4`.
pub open spec fn is_cleaned_component_of(name: Seq<char>, c: Seq<char>) -> bool {
    exists|base: Seq<char>|
        #![trigger cleaned_name(base)]
        c == cleaned_name(base) && (base == "upload.mp4"@ || (is_path_component(base)
            && contains_text(name, base)))
}

/// Text with no `/` is its own final run.
proof fn lemma_final_run_whole(s: Seq<char>)
    requires
        forall|i: int| 0 <= i < s.len() ==> #[trigger] s[i] != '/',
    ensures
        final_run(s) == s,
    decreases s.len(),
{
    if s.len() > 0 {
        lemma_final_run_whole(s.drop_last());
        assert(s.drop_last().push(s.last()) =~= s);
    }
}

/// A plain name is path text whose file name is the name itself.
proof fn lemma_plain_name_is_file_name(s: Seq<char>)
    requires
        is_plain_name(s),
    ensures
        is_slash_path(s),
        path_file_name(s) == Some(s),
{
    lemma_final_run_whole(s);
    assert(s[s.len() - 1] != '/');
    assert(s[0] != '/');
}

/// Cleaning keeps the length of a non-empty name and turns only `.` into `.`.
proof fn lemma_cleaned_dots(base: Seq<char>)
    requires
        base.len() > 0,
    ensures
        cleaned_name(base).len() == base.len(),
        cleaned_name(base) == "."@ ==> base == "."@,
        cleaned_name(base) == ".."@ ==> base == ".."@,
{
    reveal_strlit(".");
    reveal_strlit("..");
    let c = cleaned_name(base);
    assert(c == base.map_values(|x: char| if is_safe_char(x) { x } else { '_' }));
    if c == "."@ {
        assert(c[0] == '.');
        assert(c[0] == (if is_safe_char(base[0]) { base[0] } else { '_' }));
        assert(base[0] == '.');
        assert(base =~= "."@);
    }
    if c == ".."@ {
        assert(c[0] == '.' && c[1] == '.');
        assert(c[0] == (if is_safe_char(base[0]) { base[0] } else { '_' }));
        assert(c[1] == (if is_safe_char(base[1]) { base[1] } else { '_' }));
        assert(base =~= ".."@);
    }
}

/// Law: a sanitized name is a plain name that cleaning gives back unchanged,
/// so sanitizing it again returns it as it is.
pub proof fn lemma_sanitized_name_is_fixed(r: Seq<char>)
    requires
        r.len() > 0,
        forall|i: int| 0 <= i < r.len() ==> is_safe_char(#[trigger] r[i]),
        r != "."@,
        r != ".."@,
    ensures
        is_plain_name(r),
        cleaned_name(r) == r,
{
    assert forall|i: int| 0 <= i < r.len() implies #[trigger] r[i] != '/' && r[i] != '\\' && r[i]
        != ':' by {
        assert(is_safe_char(r[i]));
    }
    assert(is_path_component(r));
    assert(cleaned_name(r) =~= r);
}

/// A safe file name for an upload: the file name of the client's path (or
/// `upload.mp4` when there is none), with every character other than ASCII
/// letters, digits, `.`, `-` and `_` replaced by `_`. On path text that every
/// platform splits at `/` alone this is exactly `stored_name`; on any name
/// it is the cleaned form of a component of the name or of `upload.mp4`, and
/// it is never empty, `.` or `..` and holds safe characters only.
pub fn sanitize_filename(name: &str) -> (r: String)
    ensures
        is_slash_path(name@) ==> r@ == stored_name(name@),
        is_plain_name(name@) ==> r@ == cleaned_name(name@),
        is_cleaned_component_of(name@, r@),
        r@.len() > 0,
        r@ != "."@,
        r@ != ".."@,
        forall|i: int| 0 <= i < r@.len() ==> is_safe_char(#[trigger] r@[i]),
{
    proof {
        if is_plain_name(name@) {
            lemma_plain_name_is_file_name(name@);
        }
    }
    let r = match final_component(name) {
        Some(base) => {
            let r = clean_name(base.as_str());
            proof {
                lemma_cleaned_dots(base@);
                assert(is_cleaned_component_of(name@, r@));
            }
            r
        },
        None => {
            let r = clean_name("upload.mp4");
            proof {
                reveal_strlit("upload.mp4");
                reveal_strlit(".");
                reveal_strlit("..");
                assert(is_cleaned_component_of(name@, r@));
            }
            r
        },
    };
    proof {
        reveal_strlit("upload.mp4");
        assert forall|i: int| 0 <= i < r@.len() implies is_safe_char(#[trigger] r@[i]) by {}
    }
    r
}

/// How an upload that could not be read as a multipart form is answered:
/// an HTTP status and a message.
pub open spec fn rejection_reply(message: Seq<char>) -> (u16, Seq<char>) {
    if contains_text(message, "length limit"@) || contains_text(message, "too large"@) {
        (413, "upload exceeds size limit (max 4 GiB)"@)
    } else if contains_text(message, "multipart"@) {
        (400, "invalid multipart upload — use field name \"video\" and a single file"@)
    } else {
        (400, message)
    }
}

/// Answer to a rejected multipart upload, from the rejection's message: too
/// large → 413; malformed multipart → 400 with advice; otherwise 400 with the message.
pub fn multipart_error(message: &str) -> (reply: (u16, String))
    ensures
        reply.0 == rejection_reply(message@).0,
        reply.1@ == rejection_reply(message@).1,
{
    if contains(message, "length limit") || contains(message, "too large") {
        (413, string_of("upload exceeds size limit (max 4 GiB)"))
    } else if contains(message, "multipart") {
        (400, string_of("invalid multipart upload — use field name \"video\" and a single file"))
    } else {
        (400, string_of(message))
    }
}

/// Compact job record for the history list.
#[derive(Clone, Debug)]
pub struct JobSummary {
    pub id: String,
    pub filename: String,
    pub status: JobStatus,
    pub created_at: u64,
    pub duration_sec: Option<ScoreCode>,
    pub width: Option<u32>,
    pub height: Option<u32>,
    pub ladder_rungs: usize,
    pub bandwidth_savings_pct: Option<ScoreCode>,
    /// Delivery volume saved over the whole title, in MB (never negative).
    pub saved_mb: Option<ScoreCode>,
    pub error: Option<String>,
}

/// The summary of `job`; `saved_mb` is the title's saved delivery volume,
/// present exactly when the job has insights.
pub fn summarize(job: &Job, saved_mb: Option<ScoreCode>) -> (s: JobSummary)
    requires
        saved_mb is Some <==> job.insights is Some,
    ensures
        s.id == job.id,
        s.filename == job.filename,
        s.status == job.status,
        s.created_at == job.created_at,
        s.duration_sec == (match job.source_info {
            Some(i) => Some(i.duration_sec),
            None => None,
        }),
        s.width == (match job.source_info {
            Some(i) => Some(i.width),
            None => None,
        }),
        s.height == (match job.source_info {
            Some(i) => Some(i.height),
            None => None,
        }),
        s.ladder_rungs == job.chosen_ladder@.len(),
        s.bandwidth_savings_pct == (match job.insights {
            Some(i) => Some(i.bandwidth_savings_pct),
            None => None,
        }),
        s.saved_mb == saved_mb,
        s.error == job.error,
{
    let (duration_sec, width, height) = match &job.source_info {
        Some(i) => (Some(i.duration_sec), Some(i.width), Some(i.height)),
        None => (None, None, None),
    };
    let bandwidth_savings_pct = match &job.insights {
        Some(i) => Some(i.bandwidth_savings_pct),
        None => None,
    };
    JobSummary {
        id: job.id.clone(),
        filename: job.filename.clone(),
        status: job.status,
        created_at: job.created_at,
        duration_sec,
        width,
        height,
        ladder_rungs: job.chosen_ladder.len(),
        bandwidth_savings_pct,
        saved_mb,
        error: match &job.error {
            Some(e) => Some(e.clone()),
            None => None,
        },
    }
}


/// Orders summaries by creation time, latest first.
pub open spec fn recency_key() -> spec_fn(JobSummary) -> int {
    |s: JobSummary| -(s.created_at as int)
}

/// The history list: latest job first; jobs created in the same second keep their order.
pub open spec fn newest_first(s: Seq<JobSummary>) -> Seq<JobSummary> {
    sort_by_key(s, recency_key())
}

/// Sorts job summaries for the history view, most recent first (stable).
pub fn sort_newest_first(summaries: Vec<JobSummary>) -> (r: Vec<JobSummary>)
    ensures
        r@ == newest_first(summaries@),
{
    let ghost key = recency_key();
    let ghost orig = summaries@;
    let n = summaries.len();
    let mut input = summaries;
    let mut out: Vec<JobSummary> = Vec::new();
    let mut i: usize = 0;
    while input.len() > 0
        invariant
            key == recency_key(),
            orig.len() == n,
            i <= orig.len(),
            input@ == orig.skip(i as int),
            out@ == sort_by_key(orig.take(i as int), key),
        decreases input@.len(),
    {
        let x = input.remove(0);
        let t = x.created_at;
        let mut p: usize = out.len();
        proof {
            assert(out@.take(p as int) == out@);
        }
        while p > 0 && out[p - 1].created_at < t
            invariant
                key == recency_key(),
                p <= out.len(),
                insertion_point(out@, key, -(t as int)) == insertion_point(
                    out@.take(p as int),
                    key,
                    -(t as int),
                ),
            decreases p,
        {
            proof {
                lemma_scan_step(out@, key, -(t as int), p as int);
            }
            p = p - 1;
        }
        proof {
            lemma_scan_stop(out@, key, -(t as int), p as int);
        }
        out.insert(p, x);
        proof {
            let s = orig.take(i as int);
            assert(orig.take(i + 1).drop_last() == s);
            assert(orig.take(i + 1).last() == orig[i as int]);
            assert(orig.skip(i as int)[0] == orig[i as int]);
            assert(input@ == orig.skip(i + 1));
            assert(out@ == insert_by_key(sort_by_key(s, key), key, x));
        }
        i = i + 1;
    }
    proof {
        assert(orig.take(i as int) == orig);
    }
    out
}

/// Law: the history list runs from the latest job to the earliest and loses or
/// repeats no job.
pub proof fn lemma_history_order(s: Seq<JobSummary>)
    ensures
        forall|i: int, j: int|
            0 <= i <= j < newest_first(s).len() ==> #[trigger] newest_first(s)[i].created_at
                >= #[trigger] newest_first(s)[j].created_at,
        newest_first(s).to_multiset() == s.to_multiset(),
{
    lemma_sort_by_key(s, recency_key());
    let r = newest_first(s);
    assert forall|i: int, j: int| 0 <= i <= j < r.len() implies #[trigger] r[i].created_at
        >= #[trigger] r[j].created_at by {
        assert(recency_key()(r[i]) <= recency_key()(r[j]));
    }
}


/// The content type to send in place of `value`: an HTML type without a
/// charset gets `; charset=utf-8`; any other type is left alone (`None`).
pub open spec fn with_utf8_charset(value: Seq<char>) -> Option<Seq<char>> {
    let prefix = "text/html"@;
    if prefix.len() <= value.len() && value.subrange(0, prefix.len() as int) == prefix
        && !contains_text(value, "charset="@) {
        Some(value + "; charset=utf-8"@)
    } else {
        None
    }
}

/// Declares UTF-8 on HTML responses that name no charset.
pub fn html_charset(value: &str) -> (r: Option<String>)
    ensures
        match r {
            Some(v) => with_utf8_charset(value@) == Some(v@),
            None => with_utf8_charset(value@) is None,
        },
{
    if starts_with(value, "text/html") && !contains(value, "charset=") {
        let mut v = string_of(value);
        push_text(&mut v, "; charset=utf-8");
        Some(v)
    } else {
        None
    }
}

} // verus!
