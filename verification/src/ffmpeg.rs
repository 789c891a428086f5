use vstd::prelude::*;

use crate::text::{chars_of, contains, contains_text, decimal, push_decimal, push_text, string_of};

verus! {

/// The character sequences of a list of command-line arguments.
pub open spec fn arg_views(args: Seq<String>) -> Seq<Seq<char>> {
    args.map_values(|a: String| a@)
}

fn push_arg(args: &mut Vec<String>, a: &str)
    ensures
        arg_views(final(args)@) == arg_views(old(args)@).push(a@),
{
    let ghost before = args@;
    args.push(string_of(a));
    assert(arg_views(args@) =~= arg_views(before).push(a@));
}

fn push_owned_arg(args: &mut Vec<String>, a: String)
    ensures
        arg_views(final(args)@) == arg_views(old(args)@).push(a@),
{
    let ghost before = args@;
    let ghost v = a@;
    args.push(a);
    assert(arg_views(args@) =~= arg_views(before).push(v));
}

/// `{n}k`: a bitrate argument in kbps.
pub open spec fn kbps_arg(n: nat) -> Seq<char> {
    decimal(n) + "k"@
}

fn kbps_string(n: u32) -> (s: String)
    ensures
        s@ == kbps_arg(n as nat),
{
    let mut s = String::new();
    push_decimal(&mut s, n as u64);
    push_text(&mut s, "k");
    assert(s@ == Seq::<char>::empty() + decimal(n as nat) + "k"@);
    assert(Seq::<char>::empty() + decimal(n as nat) == decimal(n as nat));
    s
}

/// Scale to fit inside `width`×`height`, keeping the aspect ratio, then pad to
/// exactly that size, centred.
pub open spec fn scale_filter_text(width: u32, height: u32) -> Seq<char> {
    "scale=w="@ + decimal(width as nat) + ":h="@ + decimal(height as nat)
        + ":force_original_aspect_ratio=decrease,pad="@ + decimal(width as nat) + ":"@ + decimal(
        height as nat,
    ) + ":(ow-iw)/2:(oh-ih)/2"@
}

/// The letterboxing scale filter for a `width`×`height` rendition.
pub fn scale_filter(width: u32, height: u32) -> (s: String)
    ensures
        s@ == scale_filter_text(width, height),
{
    let mut s = string_of("scale=w=");
    push_decimal(&mut s, width as u64);
    push_text(&mut s, ":h=");
    push_decimal(&mut s, height as u64);
    push_text(&mut s, ":force_original_aspect_ratio=decrease,pad=");
    push_decimal(&mut s, width as u64);
    push_text(&mut s, ":");
    push_decimal(&mut s, height as u64);
    push_text(&mut s, ":(ow-iw)/2:(oh-ih)/2");
    s
}

/// Rate-control arguments fit in 32 bits: peak rate `bitrate + 100`, buffer `2 × bitrate`.
pub open spec fn rate_fits(bitrate_kbps: u32) -> bool {
    bitrate_kbps + 100 <= u32::MAX && 2 * bitrate_kbps <= u32::MAX
}

/// Arguments of the sample encode of the analysis phase: one clip of the
/// source, scaled and padded to the tier, x264 at the given bitrate with
/// fixed 48-frame GOPs, no audio.
pub open spec fn sample_args_spec(
    source: Seq<char>,
    output_mp4: Seq<char>,
    width: u32,
    height: u32,
    bitrate_kbps: u32,
    clip_start: Seq<char>,
    clip_duration: Seq<char>,
) -> Seq<Seq<char>> {
    seq![
        "-y"@,
        "-hide_banner"@,
        "-loglevel"@,
        "error"@,
        "-ss"@,
        clip_start,
        "-i"@,
        source,
        "-t"@,
        clip_duration,
        "-vf"@,
        scale_filter_text(width, height),
        "-c:v"@,
        "libx264"@,
        "-preset"@,
        "fast"@,
        "-b:v"@,
        kbps_arg(bitrate_kbps as nat),
        "-maxrate"@,
        kbps_arg((bitrate_kbps + 100) as nat),
        "-bufsize"@,
        kbps_arg((2 * bitrate_kbps) as nat),
        "-g"@,
        "48"@,
        "-keyint_min"@,
        "48"@,
        "-sc_threshold"@,
        "0"@,
        "-an"@,
        "-movflags"@,
        "+faststart"@,
        output_mp4,
    ]
}

/// Arguments for the sample encode of one analysis cell. The clip start and
/// duration are given as the text ffmpeg reads.
pub fn encode_sample_args(
    source: &str,
    output_mp4: &str,
    width: u32,
    height: u32,
    bitrate_kbps: u32,
    clip_start: &str,
    clip_duration: &str,
) -> (args: Vec<String>)
    requires
        rate_fits(bitrate_kbps),
    ensures
        arg_views(args@) == sample_args_spec(
            source@,
            output_mp4@,
            width,
            height,
            bitrate_kbps,
            clip_start@,
            clip_duration@,
        ),
{
    let mut a: Vec<String> = Vec::new();
    assert(arg_views(a@) =~= Seq::<Seq<char>>::empty());
    push_arg(&mut a, "-y");
    push_arg(&mut a, "-hide_banner");
    push_arg(&mut a, "-loglevel");
    push_arg(&mut a, "error");
    push_arg(&mut a, "-ss");
    push_arg(&mut a, clip_start);
    push_arg(&mut a, "-i");
    push_arg(&mut a, source);
    push_arg(&mut a, "-t");
    push_arg(&mut a, clip_duration);
    push_arg(&mut a, "-vf");
    push_owned_arg(&mut a, scale_filter(width, height));
    push_arg(&mut a, "-c:v");
    push_arg(&mut a, "libx264");
    push_arg(&mut a, "-preset");
    push_arg(&mut a, "fast");
    push_arg(&mut a, "-b:v");
    push_owned_arg(&mut a, kbps_string(bitrate_kbps));
    push_arg(&mut a, "-maxrate");
    push_owned_arg(&mut a, kbps_string(bitrate_kbps + 100));
    push_arg(&mut a, "-bufsize");
    push_owned_arg(&mut a, kbps_string(bitrate_kbps * 2));
    push_arg(&mut a, "-g");
    push_arg(&mut a, "48");
    push_arg(&mut a, "-keyint_min");
    push_arg(&mut a, "48");
    push_arg(&mut a, "-sc_threshold");
    push_arg(&mut a, "0");
    push_arg(&mut a, "-an");
    push_arg(&mut a, "-movflags");
    push_arg(&mut a, "+faststart");
    push_arg(&mut a, output_mp4);
    assert(arg_views(a@) =~= sample_args_spec(
        source@,
        output_mp4@,
        width,
        height,
        bitrate_kbps,
        clip_start@,
        clip_duration@,
    ));
    a
}

/// Arguments that cut the analysis window out of the source once, nearly
/// losslessly (x264 ultrafast, CRF 12), as the shared VMAF reference.
pub open spec fn reference_clip_args_spec(
    source: Seq<char>,
    output: Seq<char>,
    clip_start: Seq<char>,
    clip_duration: Seq<char>,
) -> Seq<Seq<char>> {
    seq![
        "-y"@,
        "-hide_banner"@,
        "-loglevel"@,
        "error"@,
        "-ss"@,
        clip_start,
        "-i"@,
        source,
        "-t"@,
        clip_duration,
        "-c:v"@,
        "libx264"@,
        "-preset"@,
        "ultrafast"@,
        "-crf"@,
        "12"@,
        "-g"@,
        "48"@,
        "-keyint_min"@,
        "48"@,
        "-sc_threshold"@,
        "0"@,
        "-an"@,
        "-movflags"@,
        "+faststart"@,
        output,
    ]
}

/// Arguments for cutting the shared reference clip.
pub fn reference_clip_args(source: &str, output: &str, clip_start: &str, clip_duration: &str) -> (args: Vec<
    String,
>)
    ensures
        arg_views(args@) == reference_clip_args_spec(source@, output@, clip_start@, clip_duration@),
{
    let mut a: Vec<String> = Vec::new();
    assert(arg_views(a@) =~= Seq::<Seq<char>>::empty());
    push_arg(&mut a, "-y");
    push_arg(&mut a, "-hide_banner");
    push_arg(&mut a, "-loglevel");
    push_arg(&mut a, "error");
    push_arg(&mut a, "-ss");
    push_arg(&mut a, clip_start);
    push_arg(&mut a, "-i");
    push_arg(&mut a, source);
    push_arg(&mut a, "-t");
    push_arg(&mut a, clip_duration);
    push_arg(&mut a, "-c:v");
    push_arg(&mut a, "libx264");
    push_arg(&mut a, "-preset");
    push_arg(&mut a, "ultrafast");
    push_arg(&mut a, "-crf");
    push_arg(&mut a, "12");
    push_arg(&mut a, "-g");
    push_arg(&mut a, "48");
    push_arg(&mut a, "-keyint_min");
    push_arg(&mut a, "48");
    push_arg(&mut a, "-sc_threshold");
    push_arg(&mut a, "0");
    push_arg(&mut a, "-an");
    push_arg(&mut a, "-movflags");
    push_arg(&mut a, "+faststart");
    push_arg(&mut a, output);
    assert(arg_views(a@) =~= reference_clip_args_spec(source@, output@, clip_start@, clip_duration@));
    a
}

/// Arguments of a full HLS rendition: progress reports on stdout, x264 high
/// profile level 4.1 at the given bitrate with aligned 48-frame GOPs, stereo
/// AAC at 128 kbps, 6-second VOD segments under `output_dir`.
pub open spec fn hls_args_spec(
    source: Seq<char>,
    output_dir: Seq<char>,
    width: u32,
    height: u32,
    bitrate_kbps: u32,
) -> Seq<Seq<char>> {
    seq![
        "-y"@,
        "-hide_banner"@,
        "-loglevel"@,
        "error"@,
        "-progress"@,
        "pipe:1"@,
        "-nostats"@,
        "-i"@,
        source,
        "-vf"@,
        scale_filter_text(width, height),
        "-c:v"@,
        "libx264"@,
        "-preset"@,
        "fast"@,
        "-profile:v"@,
        "high"@,
        "-level"@,
        "4.1"@,
        "-b:v"@,
        kbps_arg(bitrate_kbps as nat),
        "-maxrate"@,
        kbps_arg((bitrate_kbps + 100) as nat),
        "-bufsize"@,
        kbps_arg((2 * bitrate_kbps) as nat),
        "-g"@,
        "48"@,
        "-keyint_min"@,
        "48"@,
        "-sc_threshold"@,
        "0"@,
        "-c:a"@,
        "aac"@,
        "-b:a"@,
        "128k"@,
        "-ac"@,
        "2"@,
        "-f"@,
        "hls"@,
        "-hls_time"@,
        "6"@,
        "-hls_playlist_type"@,
        "vod"@,
        "-hls_segment_filename"@,
        output_dir + "/seg%05d.ts"@,
        output_dir + "/stream.m3u8"@,
    ]
}

/// Arguments for encoding one full rendition as HLS.
pub fn hls_args(source: &str, output_dir: &str, width: u32, height: u32, bitrate_kbps: u32) -> (args: Vec<
    String,
>)
    requires
        rate_fits(bitrate_kbps),
    ensures
        arg_views(args@) == hls_args_spec(source@, output_dir@, width, height, bitrate_kbps),
{
    let mut segment_pattern = string_of(output_dir);
    push_text(&mut segment_pattern, "/seg%05d.ts");
    let mut playlist = string_of(output_dir);
    push_text(&mut playlist, "/stream.m3u8");
    let mut a: Vec<String> = Vec::new();
    assert(arg_views(a@) =~= Seq::<Seq<char>>::empty());
    push_arg(&mut a, "-y");
    push_arg(&mut a, "-hide_banner");
    push_arg(&mut a, "-loglevel");
    push_arg(&mut a, "error");
    push_arg(&mut a, "-progress");
    push_arg(&mut a, "pipe:1");
    push_arg(&mut a, "-nostats");
    push_arg(&mut a, "-i");
    push_arg(&mut a, source);
    push_arg(&mut a, "-vf");
    push_owned_arg(&mut a, scale_filter(width, height));
    push_arg(&mut a, "-c:v");
    push_arg(&mut a, "libx264");
    push_arg(&mut a, "-preset");
    push_arg(&mut a, "fast");
    push_arg(&mut a, "-profile:v");
    push_arg(&mut a, "high");
    push_arg(&mut a, "-level");
    push_arg(&mut a, "4.1");
    push_arg(&mut a, "-b:v");
    push_owned_arg(&mut a, kbps_string(bitrate_kbps));
    push_arg(&mut a, "-maxrate");
    push_owned_arg(&mut a, kbps_string(bitrate_kbps + 100));
    push_arg(&mut a, "-bufsize");
    push_owned_arg(&mut a, kbps_string(bitrate_kbps * 2));
    push_arg(&mut a, "-g");
    push_arg(&mut a, "48");
    push_arg(&mut a, "-keyint_min");
    push_arg(&mut a, "48");
    push_arg(&mut a, "-sc_threshold");
    push_arg(&mut a, "0");
    push_arg(&mut a, "-c:a");
    push_arg(&mut a, "aac");
    push_arg(&mut a, "-b:a");
    push_arg(&mut a, "128k");
    push_arg(&mut a, "-ac");
    push_arg(&mut a, "2");
    push_arg(&mut a, "-f");
    push_arg(&mut a, "hls");
    push_arg(&mut a, "-hls_time");
    push_arg(&mut a, "6");
    push_arg(&mut a, "-hls_playlist_type");
    push_arg(&mut a, "vod");
    push_arg(&mut a, "-hls_segment_filename");
    push_owned_arg(&mut a, segment_pattern);
    push_owned_arg(&mut a, playlist);
    assert(arg_views(a@) =~= hls_args_spec(source@, output_dir@, width, height, bitrate_kbps));
    a
}

/// Where the VMAF log of a scored sample is written.
pub open spec fn vmaf_log_path(distorted: Seq<char>) -> Seq<char> {
    distorted + ".vmaf.json"@
}

/// The VMAF filter graph: both inputs in 10-bit 4:2:0 with reset timestamps,
/// the reference scaled and padded to the sample's tier, compared frame by
/// frame with a JSON log at `log_path`.
pub open spec fn vmaf_filter_text(width: u32, height: u32, log_path: Seq<char>) -> Seq<char> {
    "[0:v]format=yuv420p10le,setpts=PTS-STARTPTS,settb=AVTB[dist];[1:v]"@ + scale_filter_text(
        width,
        height,
    ) + ",format=yuv420p10le,setpts=PTS-STARTPTS,settb=AVTB[ref];[dist][ref]libvmaf=shortest=true:ts_sync_mode=nearest:n_threads=4:log_path="@
        + log_path + ":log_fmt=json"@
}

pub open spec fn vmaf_args_spec(
    distorted: Seq<char>,
    reference_clip: Seq<char>,
    width: u32,
    height: u32,
) -> Seq<Seq<char>> {
    seq![
        "-hide_banner"@,
        "-loglevel"@,
        "error"@,
        "-i"@,
        distorted,
        "-i"@,
        reference_clip,
        "-filter_complex"@,
        vmaf_filter_text(width, height, vmaf_log_path(distorted)),
        "-an"@,
        "-sn"@,
        "-dn"@,
        "-f"@,
        "null"@,
        "-"@,
    ]
}

/// Path of the VMAF log for a scored sample.
pub fn vmaf_log_file(distorted: &str) -> (p: String)
    ensures
        p@ == vmaf_log_path(distorted@),
{
    let mut p = string_of(distorted);
    push_text(&mut p, ".vmaf.json");
    p
}

/// Arguments for scoring one sample against the reference clip.
pub fn vmaf_args(distorted: &str, reference_clip: &str, width: u32, height: u32) -> (args: Vec<String>)
    ensures
        arg_views(args@) == vmaf_args_spec(distorted@, reference_clip@, width, height),
{
    let log_path = vmaf_log_file(distorted);
    let mut filter = string_of("[0:v]format=yuv420p10le,setpts=PTS-STARTPTS,settb=AVTB[dist];[1:v]");
    let scale = scale_filter(width, height);
    push_text(&mut filter, scale.as_str());
    push_text(
        &mut filter,
        ",format=yuv420p10le,setpts=PTS-STARTPTS,settb=AVTB[ref];[dist][ref]libvmaf=shortest=true:ts_sync_mode=nearest:n_threads=4:log_path=",
    );
    push_text(&mut filter, log_path.as_str());
    push_text(&mut filter, ":log_fmt=json");
    let mut a: Vec<String> = Vec::new();
    assert(arg_views(a@) =~= Seq::<Seq<char>>::empty());
    push_arg(&mut a, "-hide_banner");
    push_arg(&mut a, "-loglevel");
    push_arg(&mut a, "error");
    push_arg(&mut a, "-i");
    push_arg(&mut a, distorted);
    push_arg(&mut a, "-i");
    push_arg(&mut a, reference_clip);
    push_arg(&mut a, "-filter_complex");
    push_owned_arg(&mut a, filter);
    push_arg(&mut a, "-an");
    push_arg(&mut a, "-sn");
    push_arg(&mut a, "-dn");
    push_arg(&mut a, "-f");
    push_arg(&mut a, "null");
    push_arg(&mut a, "-");
    assert(arg_views(a@) =~= vmaf_args_spec(distorted@, reference_clip@, width, height));
    a
}

/// Whether an `ffmpeg -filters` listing offers the VMAF filter.
pub fn has_vmaf_filter(listing: &str) -> (r: bool)
    ensures
        r == contains_text(listing@, "libvmaf"@),
{
    contains(listing, "libvmaf")
}


/// Bandwidth announced for a rendition: video plus 128 kbps audio, in bit/s.
pub open spec fn announced_bandwidth(bitrate_kbps: u32) -> nat {
    ((bitrate_kbps + 128) * 1000) as nat
}

/// The master-playlist entry of one rendition.
pub open spec fn playlist_entry(name: Seq<char>, width: u32, height: u32, bitrate_kbps: u32) -> Seq<char> {
    let bw = decimal(announced_bandwidth(bitrate_kbps));
    "#EXT-X-STREAM-INF:BANDWIDTH="@ + bw + ",AVERAGE-BANDWIDTH="@ + bw + ",RESOLUTION="@ + decimal(
        width as nat,
    ) + "x"@ + decimal(height as nat) + ",CODECS=\"avc1.640028,mp4a.40.2\",NAME=\""@ + name
        + "\"\n"@ + name + "/stream.m3u8\n\n"@
}

pub open spec fn playlist_entries(rows: Seq<(String, u32, u32, u32)>) -> Seq<char>
    decreases rows.len(),
{
    if rows.len() == 0 {
        Seq::empty()
    } else {
        let r = rows.last();
        playlist_entries(rows.drop_last()) + playlist_entry(r.0@, r.1, r.2, r.3)
    }
}

/// The HLS master playlist listing `rows` (name, width, height, video kbps), in order.
pub open spec fn master_playlist_text(rows: Seq<(String, u32, u32, u32)>) -> Seq<char> {
    "#EXTM3U\n#EXT-X-VERSION:6\n\n"@ + playlist_entries(rows)
}

/// Every announced bandwidth fits in 32 bits.
pub open spec fn bandwidths_fit(rows: Seq<(String, u32, u32, u32)>) -> bool {
    forall|i: int| 0 <= i < rows.len() ==> (#[trigger] rows[i]).3 + 128 <= u32::MAX && (rows[i].3
        + 128) * 1000 <= u32::MAX
}

/// Text of the master playlist that references all chosen renditions.
pub fn master_playlist(rows: &[(String, u32, u32, u32)]) -> (content: String)
    requires
        bandwidths_fit(rows@),
    ensures
        content@ == master_playlist_text(rows@),
{
    let mut content = string_of("#EXTM3U\n#EXT-X-VERSION:6\n\n");
    let mut i: usize = 0;
    while i < rows.len()
        invariant
            i <= rows@.len(),
            bandwidths_fit(rows@),
            content@ == "#EXTM3U\n#EXT-X-VERSION:6\n\n"@ + playlist_entries(rows@.take(i as int)),
        decreases rows@.len() - i,
    {
        let row = &rows[i];
        assert(rows@[i as int].3 + 128 <= u32::MAX);
        let bandwidth: u32 = (row.3 + 128) * 1000;
        let ghost before = content@;
        push_text(&mut content, "#EXT-X-STREAM-INF:BANDWIDTH=");
        push_decimal(&mut content, bandwidth as u64);
        push_text(&mut content, ",AVERAGE-BANDWIDTH=");
        push_decimal(&mut content, bandwidth as u64);
        push_text(&mut content, ",RESOLUTION=");
        push_decimal(&mut content, row.1 as u64);
        push_text(&mut content, "x");
        push_decimal(&mut content, row.2 as u64);
        push_text(&mut content, ",CODECS=\"avc1.640028,mp4a.40.2\",NAME=\"");
        push_text(&mut content, row.0.as_str());
        push_text(&mut content, "\"\n");
        push_text(&mut content, row.0.as_str());
        push_text(&mut content, "/stream.m3u8\n\n");
        proof {
            let t = rows@.take(i + 1);
            assert(t.drop_last() == rows@.take(i as int));
            assert(t.last() == rows@[i as int]);
            assert(content@ =~= before + playlist_entry(row.0@, row.1, row.2, row.3));
        }
        i = i + 1;
    }
    proof {
        assert(rows@.take(rows@.len() as int) == rows@);
    }
    content
}

/// Unicode white space, as `char::is_whitespace` classifies it.
pub open spec fn is_white(c: char) -> bool {
    ||| ('\u{9}' <= c && c <= '\u{d}')
    ||| c == ' '
    ||| c == '\u{85}'
    ||| c == '\u{a0}'
    ||| c == '\u{1680}'
    ||| ('\u{2000}' <= c && c <= '\u{200a}')
    ||| c == '\u{2028}'
    ||| c == '\u{2029}'
    ||| c == '\u{202f}'
    ||| c == '\u{205f}'
    ||| c == '\u{3000}'
}

fn is_white_exec(c: char) -> (r: bool)
    ensures
        r == is_white(c),
{
    ('\u{9}' <= c && c <= '\u{d}') || c == ' ' || c == '\u{85}' || c == '\u{a0}' || c == '\u{1680}'
        || ('\u{2000}' <= c && c <= '\u{200a}') || c == '\u{2028}' || c == '\u{2029}' || c
        == '\u{202f}' || c == '\u{205f}' || c == '\u{3000}'
}

/// `s` without leading white space.
pub open spec fn trim_start(s: Seq<char>) -> Seq<char>
    decreases s.len(),
{
    if s.len() > 0 && is_white(s[0]) {
        trim_start(s.drop_first())
    } else {
        s
    }
}

/// `s` without trailing white space.
pub open spec fn trim_end(s: Seq<char>) -> Seq<char>
    decreases s.len(),
{
    if s.len() > 0 && is_white(s.last()) {
        trim_end(s.drop_last())
    } else {
        s
    }
}

/// `s` without leading and trailing white space (`str::trim`).
pub open spec fn trimmed(s: Seq<char>) -> Seq<char> {
    trim_end(trim_start(s))
}

pub open spec fn is_digit(c: char) -> bool {
    '0' <= c && c <= '9'
}

/// Value of a string of decimal digits.
pub open spec fn digits_value(s: Seq<char>) -> nat
    decreases s.len(),
{
    if s.len() == 0 {
        0
    } else {
        digits_value(s.drop_last()) * 10 + ((s.last() as nat) - ('0' as nat)) as nat
    }
}

/// `s` without its leading sign, if it has one.
pub open spec fn unsigned_part(s: Seq<char>) -> Seq<char> {
    if s.len() > 0 && (s[0] == '-' || s[0] == '+') {
        s.drop_first()
    } else {
        s
    }
}

pub open spec fn all_digits(s: Seq<char>) -> bool {
    forall|i: int| 0 <= i < s.len() ==> is_digit(#[trigger] s[i])
}

/// Whole number written `s` with an optional `+` or `-` sign (`i64::from_str`):
/// at least one digit, nothing else, and within the 64-bit signed range.
pub open spec fn parse_i64(s: Seq<char>) -> Option<i64> {
    let digits = unsigned_part(s);
    let v: int = if s.len() > 0 && s[0] == '-' {
        -digits_value(digits)
    } else {
        digits_value(digits) as int
    };
    if digits.len() > 0 && all_digits(digits) && i64::MIN <= v <= i64::MAX {
        Some(v as i64)
    } else {
        None
    }
}

/// Encoded time (microseconds) reported by an ffmpeg `-progress` line of the
/// form `out_time_us=<number>`; `None` for any other line or an unreadable number.
pub open spec fn progress_time_us(line: Seq<char>) -> Option<i64> {
    let prefix = "out_time_us="@;
    if prefix.len() <= line.len() && line.subrange(0, prefix.len() as int) == prefix {
        parse_i64(trimmed(line.subrange(prefix.len() as int, line.len() as int)))
    } else {
        None
    }
}

proof fn lemma_trim_start_skip(s: Seq<char>, k: int)
    requires
        0 <= k <= s.len(),
        forall|i: int| 0 <= i < k ==> is_white(#[trigger] s[i]),
    ensures
        trim_start(s) == trim_start(s.skip(k)),
    decreases k,
{
    if k > 0 {
        assert(s.skip(1) == s.drop_first());
        assert forall|i: int| 0 <= i < k - 1 implies is_white(#[trigger] s.skip(1)[i]) by {
            assert(s.skip(1)[i] == s[i + 1]);
        }
        lemma_trim_start_skip(s.skip(1), k - 1);
        assert(s.skip(1).skip(k - 1) == s.skip(k));
    } else {
        assert(s.skip(0) == s);
    }
}

proof fn lemma_trim_end_take(s: Seq<char>, e: int)
    requires
        0 <= e <= s.len(),
        forall|i: int| e <= i < s.len() ==> is_white(#[trigger] s[i]),
    ensures
        trim_end(s) == trim_end(s.take(e)),
    decreases s.len() - e,
{
    if e < s.len() {
        assert(s.drop_last().take(e) == s.take(e));
        assert forall|i: int| e <= i < s.drop_last().len() implies is_white(#[trigger] s.drop_last()[i]) by {
            assert(s.drop_last()[i] == s[i]);
        }
        lemma_trim_end_take(s.drop_last(), e);
    } else {
        assert(s.take(e) == s);
    }
}

/// Reads the encoded time from an ffmpeg `-progress` line.
pub fn parse_progress_line(line: &str) -> (us: Option<i64>)
    ensures
        us == progress_time_us(line@),
{
    let c = chars_of(line);
    let p = chars_of("out_time_us=");
    let n = c.len();
    if n < p.len() {
        return None;
    }
    let mut j: usize = 0;
    while j < p.len()
        invariant
            c@ == line@,
            p@ == "out_time_us="@,
            p@.len() <= n == c@.len(),
            j <= p@.len(),
            forall|m: int| 0 <= m < j ==> #[trigger] c@[m] == p@[m],
        decreases p@.len() - j,
    {
        if c[j] != p[j] {
            assert(line@.subrange(0, p@.len() as int)[j as int] != p@[j as int]);
            return None;
        }
        j = j + 1;
    }
    assert(line@.subrange(0, p@.len() as int) =~= p@);
    let ghost rest = line@.subrange(p@.len() as int, n as int);
    let mut start: usize = p.len();
    while start < n && is_white_exec(c[start])
        invariant
            c@ == line@,
            n == c@.len(),
            p@.len() <= start <= n,
            rest == line@.subrange(p@.len() as int, n as int),
            forall|i: int| 0 <= i < start - p@.len() ==> is_white(#[trigger] rest[i]),
        decreases n - start,
    {
        start = start + 1;
    }
    let mut end: usize = n;
    while end > start && is_white_exec(c[end - 1])
        invariant
            c@ == line@,
            n == c@.len(),
            start <= end <= n,
            forall|i: int| end <= i < n ==> is_white(#[trigger] c@[i]),
        decreases end,
    {
        end = end - 1;
    }
    proof {
        let k = start - p@.len();
        lemma_trim_start_skip(rest, k);
        let front = rest.skip(k);
        assert(front =~= line@.subrange(start as int, n as int));
        if start < n {
            assert(!is_white(front[0]));
        }
        assert(trim_start(rest) == front);
        lemma_trim_end_take(front, end - start);
        let core = front.take(end - start);
        assert(core =~= line@.subrange(start as int, end as int));
        if end > start {
            assert(!is_white(core.last()));
        }
        assert(trim_end(front) == core);
    }
    parse_i64_chars(&c, start, end)
}

proof fn lemma_digits_value_step(s: Seq<char>, i: int)
    requires
        0 <= i < s.len(),
    ensures
        digits_value(s.take(i + 1)) == digits_value(s.take(i)) * 10 + ((s[i] as nat) - ('0' as nat)) as nat,
{
    assert(s.take(i + 1).drop_last() == s.take(i));
}

/// Parses `c[start..end]` as `i64::from_str` does.
fn parse_i64_chars(c: &Vec<char>, start: usize, end: usize) -> (r: Option<i64>)
    requires
        start <= end <= c@.len(),
    ensures
        r == parse_i64(c@.subrange(start as int, end as int)),
{
    let ghost s = c@.subrange(start as int, end as int);
    let mut i = start;
    let mut negative = false;
    if i < end && (c[i] == '-' || c[i] == '+') {
        negative = c[i] == '-';
        i = i + 1;
    }
    let ghost digits = c@.subrange(i as int, end as int);
    proof {
        if start < end && (s[0] == '-' || s[0] == '+') {
            assert(digits =~= s.drop_first());
        } else {
            assert(digits =~= s);
        }
    }
    if i == end {
        return None;
    }
    let limit: u128 = 0x8000_0000_0000_0000;
    let mut acc: u128 = 0;
    let mut k = i;
    while k < end
        invariant
            i <= k <= end <= c@.len(),
            i < end,
            limit == 0x8000_0000_0000_0000u128,
            s == c@.subrange(start as int, end as int),
            digits == c@.subrange(i as int, end as int),
            digits == unsigned_part(s),
            negative == (s.len() > 0 && s[0] == '-'),
            forall|m: int| 0 <= m < k - i ==> is_digit(#[trigger] digits[m]),
            acc == digits_value(digits.take(k - i)),
            acc <= limit,
        decreases end - k,
    {
        let ch = c[k];
        if !('0' <= ch && ch <= '9') {
            assert(!is_digit(digits[k - i]));
            assert(!all_digits(digits));
            return None;
        }
        let d = (ch as u32 - '0' as u32) as u128;
        proof {
            lemma_digits_value_step(digits, k - i);
        }
        acc = acc * 10 + d;
        k = k + 1;
        if acc > limit {
            proof {
                lemma_digits_value_grows(digits, k - i);
                assert(digits_value(digits) > 0x8000_0000_0000_0000);
                assert(i64::MIN == -0x8000_0000_0000_0000);
            }
            return None;
        }
    }
    proof {
        assert(digits.take(k - i) == digits);
    }
    if negative {
        if acc == limit {
            Some(i64::MIN)
        } else {
            Some(-(acc as i64))
        }
    } else {
        if acc == limit {
            None
        } else {
            Some(acc as i64)
        }
    }
}

proof fn lemma_digits_value_grows(s: Seq<char>, i: int)
    requires
        0 <= i <= s.len(),
    ensures
        digits_value(s) >= digits_value(s.take(i)),
    decreases s.len() - i,
{
    if i < s.len() {
        lemma_digits_value_grows(s, i + 1);
        lemma_digits_value_step(s, i);
    } else {
        assert(s.take(i) == s);
    }
}


proof fn lemma_digit_char_value(k: nat)
    requires
        k < 10,
    ensures
        is_digit(crate::text::digit_char(k)),
        (crate::text::digit_char(k) as nat) - ('0' as nat) == k,
{
    assert('0' as nat == 48 && '1' as nat == 49 && '2' as nat == 50 && '3' as nat == 51 && '4' as nat
        == 52 && '5' as nat == 53 && '6' as nat == 54 && '7' as nat == 55 && '8' as nat == 56
        && '9' as nat == 57);
}

proof fn lemma_decimal_digits(n: nat)
    ensures
        decimal(n).len() > 0,
        all_digits(decimal(n)),
        digits_value(decimal(n)) == n,
    decreases n,
{
    lemma_digit_char_value(n % 10);
    if n < 10 {
        assert(decimal(n) == seq![crate::text::digit_char(n)]);
        assert(decimal(n).drop_last() == Seq::<char>::empty());
        assert(n % 10 == n);
        assert(digits_value(decimal(n)) == digits_value(Seq::<char>::empty()) * 10 + ((decimal(n).last() as nat) - ('0' as nat)) as nat);
    } else {
        lemma_decimal_digits(n / 10);
        let d = decimal(n / 10);
        let s = decimal(n);
        assert(s == d.push(crate::text::digit_char(n % 10)));
        assert(s.drop_last() == d);
        assert(s.last() == crate::text::digit_char(n % 10));
        assert((n / 10) * 10 + n % 10 == n) by (nonlinear_arith);
        assert(digits_value(s) == digits_value(d) * 10 + ((s.last() as nat) - ('0' as nat)) as nat);
        assert forall|i: int| 0 <= i < s.len() implies is_digit(#[trigger] s[i]) by {
            if i < d.len() {
                assert(s[i] == d[i]);
            }
        }
    }
}

/// Law: a progress line that ffmpeg writes for a time that fits in 64 bits is
/// read back as exactly that time.
pub proof fn lemma_progress_roundtrip(us: nat)
    requires
        us <= i64::MAX,
    ensures
        progress_time_us("out_time_us="@ + decimal(us)) == Some(us as i64),
{
    reveal_strlit("out_time_us=");
    let prefix = "out_time_us="@;
    let d = decimal(us);
    let line = prefix + d;
    lemma_decimal_digits(us);
    assert(line.subrange(0, prefix.len() as int) =~= prefix);
    assert(line.subrange(prefix.len() as int, line.len() as int) =~= d);
    assert(is_digit(d[0]));
    assert(trim_start(d) == d);
    assert(is_digit(d.last()));
    assert(trim_end(d) == d);
    assert(unsigned_part(d) == d);
}


/// Law: an HLS rendition is scaled and padded to exactly its rung's frame:
/// the argument after `-vf` asks for `width` columns (`w=`, and the pad width)
/// and `height` rows (`h=`, and the pad height), and it is the very filter
/// that the sample encode of that tier uses and that the VMAF reference of
/// that tier is scaled with.
pub proof fn lemma_hls_frame_is_the_rung(
    source: Seq<char>,
    output_dir: Seq<char>,
    width: u32,
    height: u32,
    bitrate_kbps: u32,
    sample_source: Seq<char>,
    sample_output: Seq<char>,
    sample_bitrate_kbps: u32,
    clip_start: Seq<char>,
    clip_duration: Seq<char>,
    log_path: Seq<char>,
)
    ensures
        ({
            let hls = hls_args_spec(source, output_dir, width, height, bitrate_kbps);
            let sample = sample_args_spec(
                sample_source,
                sample_output,
                width,
                height,
                sample_bitrate_kbps,
                clip_start,
                clip_duration,
            );
            &&& hls[9] == "-vf"@
            &&& hls[10] == "scale=w="@ + decimal(width as nat) + ":h="@ + decimal(height as nat)
                + ":force_original_aspect_ratio=decrease,pad="@ + decimal(width as nat) + ":"@
                + decimal(height as nat) + ":(ow-iw)/2:(oh-ih)/2"@
            &&& sample[10] == "-vf"@
            &&& sample[11] == hls[10]
            &&& vmaf_filter_text(width, height, log_path) == "[0:v]format=yuv420p10le,setpts=PTS-STARTPTS,settb=AVTB[dist];[1:v]"@
                + hls[10]
                + ",format=yuv420p10le,setpts=PTS-STARTPTS,settb=AVTB[ref];[dist][ref]libvmaf=shortest=true:ts_sync_mode=nearest:n_threads=4:log_path="@
                + log_path + ":log_fmt=json"@
        }),
{
}

/// Law: every HLS rendition has fixed, aligned GOPs whatever its content and
/// rung: `-g 48 -keyint_min 48 -sc_threshold 0` (scene-cut keyframes off), the
/// same six arguments for any two rungs and the same as the sample encodes use.
pub proof fn lemma_hls_gops_aligned(
    source: Seq<char>,
    output_dir: Seq<char>,
    width: u32,
    height: u32,
    bitrate_kbps: u32,
    other_source: Seq<char>,
    other_dir: Seq<char>,
    other_width: u32,
    other_height: u32,
    other_bitrate_kbps: u32,
    clip_start: Seq<char>,
    clip_duration: Seq<char>,
)
    ensures
        ({
            let hls = hls_args_spec(source, output_dir, width, height, bitrate_kbps);
            let other = hls_args_spec(
                other_source,
                other_dir,
                other_width,
                other_height,
                other_bitrate_kbps,
            );
            let sample = sample_args_spec(
                other_source,
                other_dir,
                other_width,
                other_height,
                other_bitrate_kbps,
                clip_start,
                clip_duration,
            );
            &&& hls.subrange(25, 31) == seq![
                "-g"@,
                "48"@,
                "-keyint_min"@,
                "48"@,
                "-sc_threshold"@,
                "0"@,
            ]
            &&& other.subrange(25, 31) == hls.subrange(25, 31)
            &&& sample.subrange(22, 28) == hls.subrange(25, 31)
        }),
{
    let hls = hls_args_spec(source, output_dir, width, height, bitrate_kbps);
    let other = hls_args_spec(other_source, other_dir, other_width, other_height, other_bitrate_kbps);
    let sample = sample_args_spec(
        other_source,
        other_dir,
        other_width,
        other_height,
        other_bitrate_kbps,
        clip_start,
        clip_duration,
    );
    assert(hls.subrange(25, 31) =~= seq!["-g"@, "48"@, "-keyint_min"@, "48"@, "-sc_threshold"@, "0"@]);
    assert(other.subrange(25, 31) =~= hls.subrange(25, 31));
    assert(sample.subrange(22, 28) =~= hls.subrange(25, 31));
}

} // verus!
