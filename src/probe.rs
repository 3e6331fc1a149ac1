//! Metadata of a video, taken from the report of the probing tool.
//!
//! The report is decoded into [`ProbeReport`] field by field, each field
//! `None` where the tool left it out or gave it a value of another kind.
//! Every field but the list of streams has a default; only a report
//! without a video stream is refused.

use vstd::prelude::*;
use vstd::string::*;
use crate::rate::{duration_micros_of, frame_rate_of, parse_duration_micros, parse_fps, FrameRate};
use crate::decimal::{all_digits, digits_only, digits_to_u64, digits_value};

verus! {

/// One entry of the report's stream list.
pub struct ProbeStream {
    /// "video", "audio", ...
    pub codec_type: Option<String>,
    pub codec_name: Option<String>,
    pub width: Option<u64>,
    pub height: Option<u64>,
    /// The frame rate as a ratio, such as "30000/1001".
    pub r_frame_rate: Option<String>,
}

/// The container-level part of the report; the tool writes both fields as
/// text.
pub struct ProbeFormat {
    pub duration: Option<String>,
    pub bit_rate: Option<String>,
}

/// What the probing tool reports on a file.
pub struct ProbeReport {
    /// `None` where the report holds no list of streams.
    pub streams: Option<Vec<ProbeStream>>,
    pub format: ProbeFormat,
}

/// What is known of a video file.
pub struct VideoMetadata {
    /// Length in microseconds.
    pub duration_micros: u64,
    pub width: u32,
    pub height: u32,
    pub fps: FrameRate,
    pub codec: String,
    /// Bits per second.
    pub bitrate: u32,
}

#[derive(Clone, Copy, Debug, PartialEq, Eq, Structural)]
pub enum MetadataError {
    /// The report has no list of streams.
    NoStreamList,
    /// No stream of the report is a video stream.
    NoVideoStream,
}

pub open spec fn is_video(s: ProbeStream) -> bool {
    s.codec_type matches Some(t) && t@ == "video"@
}

/// The position of the first video stream in `streams`.
pub open spec fn first_video(streams: Seq<ProbeStream>) -> Option<int> {
    if exists|i: int| 0 <= i < streams.len() && is_video(#[trigger] streams[i]) {
        Some(
            choose|i: int|
                0 <= i < streams.len() && is_video(streams[i]) && forall|j: int|
                    0 <= j < i ==> !is_video(#[trigger] streams[j]),
        )
    } else {
        None
    }
}

/// A pixel size: the reported one where it fits in `u32`, else 0.
pub open spec fn pixels(v: Option<u64>) -> nat {
    match v {
        Some(p) => if p <= u32::MAX {
            p as nat
        } else {
            0
        },
        None => 0,
    }
}

pub open spec fn codec_or_unknown(v: Option<String>) -> Seq<char> {
    match v {
        Some(c) => c@,
        None => "unknown"@,
    }
}

pub open spec fn rate_of(v: Option<String>) -> (int, int) {
    match v {
        Some(t) => frame_rate_of(t@),
        None => (0, 1),
    }
}

pub open spec fn duration_of(v: Option<String>) -> nat {
    match v {
        Some(t) => duration_micros_of(t@),
        None => 0,
    }
}

/// The value of a text of digits, after an optional '+', where it fits in
/// `u32`, else 0.
pub open spec fn bitrate_of_text(s: Seq<char>) -> nat {
    let t = if s.len() > 0 && s[0] == '+' { s.skip(1) } else { s };
    if t.len() > 0 && all_digits(t) && digits_value(t) <= u32::MAX {
        digits_value(t)
    } else {
        0
    }
}

pub open spec fn bitrate_of(v: Option<String>) -> nat {
    match v {
        Some(t) => bitrate_of_text(t@),
        None => 0,
    }
}

/// `m` holds what `stream` and `format` report, each field defaulted where
/// it is missing or unreadable.
pub open spec fn describes(m: VideoMetadata, stream: ProbeStream, format: ProbeFormat) -> bool {
    &&& m.width as nat == pixels(stream.width)
    &&& m.height as nat == pixels(stream.height)
    &&& (m.fps.num as int, m.fps.den as int) == rate_of(stream.r_frame_rate)
    &&& m.fps.wf()
    &&& m.codec@ == codec_or_unknown(stream.codec_name)
    &&& m.duration_micros as nat == duration_of(format.duration)
    &&& m.bitrate as nat == bitrate_of(format.bit_rate)
}

fn pixel_size(v: &Option<u64>) -> (r: u32)
    ensures
        r as nat == pixels(*v),
{
    match v {
        Some(p) => if *p <= 4294967295 {
            *p as u32
        } else {
            0
        },
        None => 0,
    }
}

/// Reads a bit rate such as "1205959" or "+64000"; 0 where the text is not
/// digits or the value does not fit in `u32`.
pub fn parse_bitrate(s: &str) -> (r: u32)
    ensures
        r as nat == bitrate_of_text(s@),
{
    let n = s.unicode_len();
    let start: usize = if n > 0 && s.get_char(0) == '+' { 1 } else { 0 };
    assert(start == 1 ==> s@.skip(1) =~= s@.subrange(1, n as int));
    assert(start == 0 ==> s@ =~= s@.subrange(0, n as int));
    if start == n || !digits_only(s, start, n) {
        return 0;
    }
    match digits_to_u64(s, start, n) {
        Some(v) => if v <= 4294967295 {
            v as u32
        } else {
            0
        },
        None => 0,
    }
}

fn is_video_stream(s: &ProbeStream) -> (r: bool)
    ensures
        r == is_video(*s),
{
    match &s.codec_type {
        Some(t) => {
            let video = String::from_str("video");
            *t == video
        },
        None => false,
    }
}

/// Finds the first video stream of a list.
pub fn find_video_stream(streams: &Vec<ProbeStream>) -> (r: Option<usize>)
    ensures
        r matches Some(k) ==> k < streams@.len() && first_video(streams@) == Some(k as int),
        r is None ==> first_video(streams@) is None,
{
    let mut i: usize = 0;
    while i < streams.len()
        invariant
            i <= streams@.len(),
            forall|j: int| 0 <= j < i ==> !is_video(#[trigger] streams@[j]),
        decreases streams@.len() - i,
    {
        if is_video_stream(&streams[i]) {
            proof {
                let k = i as int;
                assert(0 <= k < streams@.len() && is_video(streams@[k]));
                let c = choose|c: int|
                    0 <= c < streams@.len() && is_video(streams@[c]) && forall|j: int|
                        0 <= j < c ==> !is_video(#[trigger] streams@[j]);
                assert(0 <= c < streams@.len() && is_video(streams@[c]) && forall|j: int|
                    0 <= j < c ==> !is_video(#[trigger] streams@[j])) by {
                    assert(0 <= k < streams@.len() && is_video(streams@[k]) && forall|j: int|
                        0 <= j < k ==> !is_video(#[trigger] streams@[j]));
                }
                if c < k {
                    assert(!is_video(streams@[c]));
                }
                if k < c {
                    assert(!is_video(streams@[k]));
                }
            }
            return Some(i);
        }
        i = i + 1;
    }
    None
}

/// Takes the metadata that `stream` and `format` report, with the defaults
/// 0, 0, the rate zero, "unknown", 0 and 0 for what is missing.
pub fn metadata_of(stream: &ProbeStream, format: &ProbeFormat) -> (r: VideoMetadata)
    ensures
        describes(r, *stream, *format),
{
    let fps = match &stream.r_frame_rate {
        Some(t) => parse_fps(t.as_str()),
        None => FrameRate::zero(),
    };
    let codec = match &stream.codec_name {
        Some(c) => c.clone(),
        None => String::from_str("unknown"),
    };
    let duration_micros = match &format.duration {
        Some(t) => parse_duration_micros(t.as_str()),
        None => 0,
    };
    let bitrate = match &format.bit_rate {
        Some(t) => parse_bitrate(t.as_str()),
        None => 0,
    };
    VideoMetadata {
        duration_micros,
        width: pixel_size(&stream.width),
        height: pixel_size(&stream.height),
        fps,
        codec,
        bitrate,
    }
}

/// The metadata of the first video stream of a report.
pub fn metadata_from_report(report: &ProbeReport) -> (r: Result<VideoMetadata, MetadataError>)
    ensures
        report.streams is None ==> r == Err::<VideoMetadata, MetadataError>(
            MetadataError::NoStreamList,
        ),
        report.streams matches Some(s) ==> match first_video(s@) {
            None => r == Err::<VideoMetadata, MetadataError>(MetadataError::NoVideoStream),
            Some(k) => 0 <= k < s@.len() && (r matches Ok(m) && describes(
                m,
                s@[k],
                report.format,
            )),
        },
{
    match &report.streams {
        None => Err(MetadataError::NoStreamList),
        Some(streams) => match find_video_stream(streams) {
            None => Err(MetadataError::NoVideoStream),
            Some(k) => Ok(metadata_of(&streams[k], &report.format)),
        },
    }
}

/// A stream and a container that report none of the optional fields give
/// width 0, height 0, the rate zero, codec "unknown", duration 0 and bit
/// rate 0, and no failure.
pub proof fn lemma_missing_fields_default(m: VideoMetadata, stream: ProbeStream, format: ProbeFormat)
    requires
        stream.width is None,
        stream.height is None,
        stream.r_frame_rate is None,
        stream.codec_name is None,
        format.duration is None,
        format.bit_rate is None,
        describes(m, stream, format),
    ensures
        m.width == 0,
        m.height == 0,
        m.fps.num == 0,
        m.codec@ == "unknown"@,
        m.duration_micros == 0,
        m.bitrate == 0,
{
}

/// A list of streams none of which is a video stream has no first video
/// stream, so that a report with it is refused.
pub proof fn lemma_no_video_no_metadata(streams: Seq<ProbeStream>)
    requires
        forall|i: int| 0 <= i < streams.len() ==> !is_video(#[trigger] streams[i]),
    ensures
        first_video(streams) is None,
{
}

} // verus!
