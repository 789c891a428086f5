use vstd::prelude::*;

use crate::text::{chars_of, string_of};

verus! {

/// One stream of an ffprobe report, as far as probing reads it.
#[derive(Clone, Debug)]
pub struct ProbeStream {
    pub codec_type: String,
    pub codec_name: Option<String>,
    pub width: Option<u32>,
    pub height: Option<u32>,
    pub r_frame_rate: Option<String>,
}

/// Why a probe report does not describe a usable video.
#[derive(Clone, Copy, Debug, PartialEq, Eq, Structural)]
pub enum ProbeError {
    NoVideoStream,
    MissingWidth,
    MissingHeight,
    MissingDuration,
}

/// What probing reads from the first video stream and the container, before
/// the frame rate and duration are read as numbers.
#[derive(Clone, Debug)]
pub struct ProbedVideo {
    pub width: u32,
    pub height: u32,
    /// Codec name, `unknown` when the stream does not say.
    pub codec: String,
    /// Frame rate as ffprobe writes it (`num/den`), `0/1` when the stream does not say.
    pub frame_rate: String,
    /// Duration in seconds as ffprobe writes it.
    pub duration: String,
}

/// Position of the first stream from `from` on whose type is `video`.
pub open spec fn first_video(streams: Seq<ProbeStream>, from: int) -> Option<int>
    decreases streams.len() - from,
{
    if from < 0 || from >= streams.len() {
        None
    } else if streams[from].codec_type@ == "video"@ {
        Some(from)
    } else {
        first_video(streams, from + 1)
    }
}

/// What probing makes of a report: the first video stream must give width and
/// height, and the container a duration; codec and frame rate have defaults.
pub open spec fn probed(streams: Seq<ProbeStream>, duration: Option<String>) -> Result<
    (u32, u32, Seq<char>, Seq<char>, Seq<char>),
    ProbeError,
> {
    match first_video(streams, 0) {
        None => Err(ProbeError::NoVideoStream),
        Some(i) => {
            let v = streams[i];
            match (v.width, v.height, duration) {
                (None, _, _) => Err(ProbeError::MissingWidth),
                (Some(_), None, _) => Err(ProbeError::MissingHeight),
                (Some(_), Some(_), None) => Err(ProbeError::MissingDuration),
                (Some(w), Some(h), Some(d)) => Ok(
                    (
                        w,
                        h,
                        match v.codec_name {
                            Some(c) => c@,
                            None => "unknown"@,
                        },
                        match v.r_frame_rate {
                            Some(r) => r@,
                            None => "0/1"@,
                        },
                        d@,
                    ),
                ),
            }
        },
    }
}

/// The fields of a probed video as the tuple `probed` speaks of.
pub open spec fn probed_fields(p: ProbedVideo) -> (u32, u32, Seq<char>, Seq<char>, Seq<char>) {
    (p.width, p.height, p.codec@, p.frame_rate@, p.duration@)
}

/// Reads the video facts out of an ffprobe report: its streams and the
/// container's duration text.
pub fn video_fields(streams: &[ProbeStream], duration: Option<String>) -> (r: Result<
    ProbedVideo,
    ProbeError,
>)
    ensures
        match (r, probed(streams@, duration)) {
            (Ok(p), Ok(f)) => probed_fields(p) == f,
            (Err(e), Err(f)) => e == f,
            _ => false,
        },
{
    let video = string_of("video");
    let mut i: usize = 0;
    while i < streams.len() && streams[i].codec_type != video
        invariant
            video@ == "video"@,
            i <= streams@.len(),
            first_video(streams@, 0) == first_video(streams@, i as int),
        decreases streams@.len() - i,
    {
        i = i + 1;
    }
    if i == streams.len() {
        return Err(ProbeError::NoVideoStream);
    }
    assert(first_video(streams@, i as int) == Some(i as int));
    let v = &streams[i];
    let width = match v.width {
        Some(w) => w,
        None => {
            return Err(ProbeError::MissingWidth);
        },
    };
    let height = match v.height {
        Some(h) => h,
        None => {
            return Err(ProbeError::MissingHeight);
        },
    };
    let codec = match &v.codec_name {
        Some(c) => c.clone(),
        None => string_of("unknown"),
    };
    let frame_rate = match &v.r_frame_rate {
        Some(f) => f.clone(),
        None => string_of("0/1"),
    };
    match duration {
        Some(d) => Ok(ProbedVideo { width, height, codec, frame_rate, duration: d }),
        None => Err(ProbeError::MissingDuration),
    }
}

/// Number of `/` in `s`.
pub open spec fn slash_count(s: Seq<char>) -> nat
    decreases s.len(),
{
    if s.len() == 0 {
        0
    } else {
        slash_count(s.drop_last()) + if s.last() == '/' {
            1nat
        } else {
            0
        }
    }
}

proof fn lemma_slash_count_split(s: Seq<char>, k: int)
    requires
        0 <= k < s.len(),
        s[k] == '/',
    ensures
        slash_count(s) == slash_count(s.take(k)) + 1 + slash_count(s.skip(k + 1)),
    decreases s.len(),
{
    if s.len() - 1 == k {
        assert(s.drop_last() == s.take(k));
        assert(s.skip(k + 1) == Seq::<char>::empty());
    } else {
        lemma_slash_count_split(s.drop_last(), k);
        assert(s.drop_last().take(k) == s.take(k));
        assert(s.skip(k + 1).drop_last() == s.drop_last().skip(k + 1));
        assert(s.skip(k + 1).last() == s.last());
    }
}

proof fn lemma_no_slash(s: Seq<char>)
    requires
        forall|i: int| 0 <= i < s.len() ==> #[trigger] s[i] != '/',
    ensures
        slash_count(s) == 0,
    decreases s.len(),
{
    if s.len() > 0 {
        assert forall|i: int| 0 <= i < s.drop_last().len() implies #[trigger] s.drop_last()[i] != '/' by {
            assert(s.drop_last()[i] == s[i]);
        }
        lemma_no_slash(s.drop_last());
    }
}

/// The two sides of a fraction `num/den`: present exactly when `s` holds one `/`.
pub fn fraction_parts(s: &str) -> (r: Option<(String, String)>)
    ensures
        r is Some <==> slash_count(s@) == 1,
        r matches Some(p) ==> exists|k: int|
            0 <= k < s@.len() && s@[k] == '/' && p.0@ == s@.take(k) && p.1@ == s@.skip(k + 1),
{
    let c = chars_of(s);
    let mut k: usize = 0;
    while k < c.len() && c[k] != '/'
        invariant
            c@ == s@,
            k <= c@.len(),
            forall|i: int| 0 <= i < k ==> #[trigger] c@[i] != '/',
        decreases c@.len() - k,
    {
        k = k + 1;
    }
    if k == c.len() {
        proof {
            lemma_no_slash(s@);
        }
        return None;
    }
    let mut m: usize = k + 1;
    while m < c.len() && c[m] != '/'
        invariant
            c@ == s@,
            k < m <= c@.len(),
            forall|i: int| k < i < m ==> #[trigger] c@[i] != '/',
        decreases c@.len() - m,
    {
        m = m + 1;
    }
    proof {
        lemma_slash_count_split(s@, k as int);
        assert forall|i: int| 0 <= i < s@.take(k as int).len() implies #[trigger] s@.take(k as int)[i]
            != '/' by {
            assert(s@.take(k as int)[i] == c@[i]);
        }
        lemma_no_slash(s@.take(k as int));
        let rest = s@.skip(k + 1);
        if m < c.len() {
            lemma_slash_count_split(rest, m - k - 1);
            assert(rest[m - k - 1] == c@[m as int]);
        } else {
            assert forall|i: int| 0 <= i < rest.len() implies #[trigger] rest[i] != '/' by {
                assert(rest[i] == c@[k + 1 + i]);
            }
            lemma_no_slash(rest);
        }
    }
    if m < c.len() {
        return None;
    }
    let mut num = String::new();
    let mut i: usize = 0;
    while i < k
        invariant
            c@ == s@,
            k < c@.len(),
            i <= k,
            num@ == s@.take(i as int),
        decreases k - i,
    {
        crate::text::push_char(&mut num, c[i]);
        proof {
            assert(s@.take(i + 1) == s@.take(i as int).push(c@[i as int]));
        }
        i = i + 1;
    }
    let mut den = String::new();
    let mut j: usize = k + 1;
    while j < c.len()
        invariant
            c@ == s@,
            k < j <= c@.len(),
            den@ == s@.subrange(k + 1, j as int),
        decreases c@.len() - j,
    {
        crate::text::push_char(&mut den, c[j]);
        proof {
            assert(s@.subrange(k + 1, j + 1) == s@.subrange(k + 1, j as int).push(c@[j as int]));
        }
        j = j + 1;
    }
    proof {
        assert(s@.subrange(k + 1, c@.len() as int) == s@.skip(k + 1));
    }
    Some((num, den))
}

} // verus!
