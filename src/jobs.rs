//! The decisions of the commands that the front end calls. The caller runs
//! the external tools and touches the file system; these functions say
//! what to do next and what the command answers.

use vstd::prelude::*;
use vstd::string::*;
use crate::probe::MetadataError;
use crate::sampling::{sample_at, sample_positions, Timestamp};

verus! {

/// Why a command failed.
#[derive(Debug)]
pub enum CommandError {
    /// The probing or the processing tool cannot be run.
    ToolMissing,
    /// A tool could not be started; the system's reason.
    SpawnFailed(String),
    /// The probing tool ended in failure; what it wrote to its error stream.
    ProbeFailed(String),
    /// The probing tool's report could not be decoded.
    ParseFailed(String),
    /// The report holds no list of streams.
    NoStreamList,
    /// The report holds no video stream.
    NoVideoStream,
    /// An output directory could not be created.
    CreateDirFailed(String),
    /// An output path is not valid text.
    PathNotText,
    /// The processing tool failed to write a frame.
    ExtractFailed,
    /// The processing tool failed to write a thumbnail.
    ThumbnailFailed,
    /// The system clock is set before the Unix epoch.
    ClockBeforeEpoch,
}

impl CommandError {
    pub fn from_metadata(e: MetadataError) -> (r: CommandError)
        ensures
            e == MetadataError::NoStreamList ==> r == CommandError::NoStreamList,
            e == MetadataError::NoVideoStream ==> r == CommandError::NoVideoStream,
    {
        match e {
            MetadataError::NoStreamList => CommandError::NoStreamList,
            MetadataError::NoVideoStream => CommandError::NoVideoStream,
        }
    }
}

/// Whether the media tools can be used: both the processing and the probing
/// tool must have answered a version query.
pub fn tools_available(ffmpeg_runs: bool, ffprobe_runs: bool) -> (r: bool)
    ensures
        r == (ffmpeg_runs && ffprobe_runs),
{
    ffmpeg_runs && ffprobe_runs
}

/// Stands before every command that needs the tools: it fails at once,
/// with `ToolMissing`, unless both tools answered.
pub fn require_tools(ffmpeg_runs: bool, ffprobe_runs: bool) -> (r: Result<(), CommandError>)
    ensures
        r is Ok <==> (ffmpeg_runs && ffprobe_runs),
        r is Err ==> r == Err::<(), CommandError>(CommandError::ToolMissing),
{
    if tools_available(ffmpeg_runs, ffprobe_runs) {
        Ok(())
    } else {
        Err(CommandError::ToolMissing)
    }
}

/// The answer of a cleanup of temporary files. Deleting is best effort: a
/// directory that could not be deleted, or that did not exist, is no error.
pub fn cleanup_result(deleted: bool) -> (r: Result<(), CommandError>)
    ensures
        r is Ok,
{
    Ok(())
}

/// What the front end may ask of a keyframe extraction.
pub struct KeyframeExtractionOptions {
    pub count: Option<i32>,
    pub method: Option<String>,
    pub output_dir: Option<String>,
    pub output_format: Option<String>,
    pub quality: Option<i32>,
    pub width: Option<i32>,
}

/// The number of frames taken when none is asked for.
pub const DEFAULT_FRAME_COUNT: i32 = 10;

impl Default for KeyframeExtractionOptions {
    /// Ten frames, spread evenly, as JPEG images of quality 80.
    fn default() -> (r: KeyframeExtractionOptions)
        ensures
            r.count == Some(10i32),
            r.method matches Some(m) && m@ == "uniform"@,
            r.output_dir is None,
            r.output_format matches Some(f) && f@ == "jpg"@,
            r.quality == Some(80i32),
            r.width is None,
    {
        KeyframeExtractionOptions {
            count: Some(DEFAULT_FRAME_COUNT),
            method: Some(String::from_str("uniform")),
            output_dir: None,
            output_format: Some(String::from_str("jpg")),
            quality: Some(80),
            width: None,
        }
    }
}

impl KeyframeExtractionOptions {
    /// The number of frames to take: the one asked for, none for a negative
    /// one, and ten where none is asked for.
    pub fn requested_count(&self) -> (r: u32)
        ensures
            self.count is None ==> r == 10,
            self.count matches Some(c) ==> r == (if c < 0 {
                0
            } else {
                c
            }),
    {
        match self.count {
            None => 10,
            Some(c) => if c < 0 {
                0
            } else {
                c as u32
            },
        }
    }
}

/// A batch of frames taken from one video, one tool run per frame. The
/// batch stops at the first failure, and then answers with that failure
/// alone.
pub struct KeyframeJob {
    pub positions: Vec<Timestamp>,
    /// The paths of the frames written so far, in order.
    pub written: Vec<String>,
    pub failure: Option<CommandError>,
}

/// The next frame that a job asks for: its number, from 1, and where it is.
pub struct FrameRequest {
    pub index: u32,
    pub at: Timestamp,
}

impl KeyframeJob {
    pub open spec fn wf(&self) -> bool {
        &&& self.written@.len() <= self.positions@.len()
        &&& self.positions@.len() <= u32::MAX
        &&& forall|i: int| 0 <= i < self.positions@.len() ==> (#[trigger] self.positions@[i]).wf()
    }

    /// A job for `count` frames spread evenly over `duration_micros`.
    pub fn new(duration_micros: u64, count: u32) -> (r: KeyframeJob)
        ensures
            r.wf(),
            r.positions@.len() == count,
            forall|i: int|
                0 <= i < count ==> #[trigger] r.positions@[i] == sample_at(
                    duration_micros as nat,
                    count as nat,
                    (i + 1) as nat,
                ),
            r.written@.len() == 0,
            r.failure is None,
    {
        KeyframeJob { positions: sample_positions(duration_micros, count), written: Vec::new(), failure: None }
    }

    /// The frame to take next; `None` once every frame is written or one
    /// has failed.
    pub fn next_frame(&self) -> (r: Option<FrameRequest>)
        requires
            self.wf(),
        ensures
            r is Some <==> (self.failure is None && self.written@.len() < self.positions@.len()),
            r matches Some(q) ==> q.index == self.written@.len() + 1 && q.at
                == self.positions@[self.written@.len() as int] && q.at.wf(),
    {
        if self.failure.is_none() && self.written.len() < self.positions.len() {
            let k = self.written.len();
            Some(FrameRequest { index: (k + 1) as u32, at: self.positions[k] })
        } else {
            None
        }
    }

    /// Records how the frame asked for last came out: the path it was
    /// written to, or why it was not.
    pub fn record(&mut self, outcome: Result<String, CommandError>)
        requires
            old(self).wf(),
            old(self).failure is None,
            old(self).written@.len() < old(self).positions@.len(),
        ensures
            final(self).wf(),
            final(self).positions@ == old(self).positions@,
            outcome matches Ok(p) ==> final(self).written@ == old(self).written@.push(p)
                && final(self).failure is None,
            outcome matches Err(e) ==> final(self).written@ == old(self).written@
                && final(self).failure == Some(e),
    {
        match outcome {
            Ok(p) => self.written.push(p),
            Err(e) => self.failure = Some(e),
        }
    }

    /// The answer of the batch: every path written, in order, or the
    /// failure that stopped it.
    pub fn finish(self) -> (r: Result<Vec<String>, CommandError>)
        ensures
            self.failure matches Some(e) ==> r == Err::<Vec<String>, CommandError>(e),
            self.failure is None ==> r == Ok::<Vec<String>, CommandError>(self.written),
    {
        match self.failure {
            Some(e) => Err(e),
            None => Ok(self.written),
        }
    }
}

} // verus!
