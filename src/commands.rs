//! The command lines handed to the external tools, and the names of the
//! files they write.

use vstd::prelude::*;
use vstd::string::*;
use crate::decimal::{decimal, write_decimal};
use crate::sampling::{seek_argument, seek_text, Timestamp};

verus! {

/// The texts of a list of arguments.
pub open spec fn texts(v: Seq<String>) -> Seq<Seq<char>> {
    v.map_values(|a: String| a@)
}

fn push_text(v: &mut Vec<String>, s: &str)
    ensures
        texts(final(v)@) == texts(old(v)@).push(s@),
{
    v.push(String::from_str(s));
    assert(texts(final(v)@) =~= texts(old(v)@).push(s@));
}

fn push_owned(v: &mut Vec<String>, s: String)
    ensures
        texts(final(v)@) == texts(old(v)@).push(s@),
{
    let ghost t = s@;
    v.push(s);
    assert(texts(final(v)@) =~= texts(old(v)@).push(t));
}

/// The arguments of the probing tool: quiet, with the container and the
/// streams reported as JSON.
pub open spec fn probe_arg_list(input: Seq<char>) -> Seq<Seq<char>> {
    seq![
        "-v"@,
        "quiet"@,
        "-print_format"@,
        "json"@,
        "-show_format"@,
        "-show_streams"@,
        input,
    ]
}

/// The arguments of the processing tool that write the one frame at
/// `seek` of `input` as a JPEG image to `output`.
pub open spec fn frame_arg_list(seek: Seq<char>, input: Seq<char>, output: Seq<char>) -> Seq<
    Seq<char>,
> {
    seq![
        "-ss"@,
        seek,
        "-i"@,
        input,
        "-vframes"@,
        "1"@,
        "-q:v"@,
        "2"@,
        "-f"@,
        "image2"@,
        output,
    ]
}

/// The arguments of the processing tool that write a frame from 15% into
/// `input`, scaled to 320 pixels wide, as a JPEG image to `output`.
pub open spec fn thumbnail_arg_list(input: Seq<char>, output: Seq<char>) -> Seq<Seq<char>> {
    seq![
        "-ss"@,
        "15%"@,
        "-i"@,
        input,
        "-vframes"@,
        "1"@,
        "-vf"@,
        "scale=320:-1"@,
        "-q:v"@,
        "2"@,
        "-f"@,
        "image2"@,
        output,
    ]
}

/// Arguments that ask the probing tool about the file `input`.
pub fn probe_args(input: &str) -> (r: Vec<String>)
    ensures
        texts(r@) == probe_arg_list(input@),
{
    let mut r: Vec<String> = Vec::new();
    push_text(&mut r, "-v");
    push_text(&mut r, "quiet");
    push_text(&mut r, "-print_format");
    push_text(&mut r, "json");
    push_text(&mut r, "-show_format");
    push_text(&mut r, "-show_streams");
    push_text(&mut r, input);
    assert(texts(r@) =~= probe_arg_list(input@));
    r
}

/// Arguments that have the processing tool write the frame of `input` at
/// `at` to `output`.
pub fn frame_args(at: &Timestamp, input: &str, output: &str) -> (r: Vec<String>)
    requires
        at.wf(),
    ensures
        texts(r@) == frame_arg_list(
            seek_text((at.numer / at.denom as u128) as nat),
            input@,
            output@,
        ),
{
    let mut r: Vec<String> = Vec::new();
    push_text(&mut r, "-ss");
    push_owned(&mut r, seek_argument(at));
    push_text(&mut r, "-i");
    push_text(&mut r, input);
    push_text(&mut r, "-vframes");
    push_text(&mut r, "1");
    push_text(&mut r, "-q:v");
    push_text(&mut r, "2");
    push_text(&mut r, "-f");
    push_text(&mut r, "image2");
    push_text(&mut r, output);
    assert(texts(r@) =~= frame_arg_list(
        seek_text((at.numer / at.denom as u128) as nat),
        input@,
        output@,
    ));
    r
}

/// Arguments that have the processing tool write a thumbnail of `input` to
/// `output`.
pub fn thumbnail_args(input: &str, output: &str) -> (r: Vec<String>)
    ensures
        texts(r@) == thumbnail_arg_list(input@, output@),
{
    let mut r: Vec<String> = Vec::new();
    push_text(&mut r, "-ss");
    push_text(&mut r, "15%");
    push_text(&mut r, "-i");
    push_text(&mut r, input);
    push_text(&mut r, "-vframes");
    push_text(&mut r, "1");
    push_text(&mut r, "-vf");
    push_text(&mut r, "scale=320:-1");
    push_text(&mut r, "-q:v");
    push_text(&mut r, "2");
    push_text(&mut r, "-f");
    push_text(&mut r, "image2");
    push_text(&mut r, output);
    assert(texts(r@) =~= thumbnail_arg_list(input@, output@));
    r
}

/// The file name of the `index`-th sampled frame: "frame_<index>.jpg".
pub fn frame_file_name(index: u32) -> (r: String)
    ensures
        r@ == "frame_"@ + decimal(index as nat) + ".jpg"@,
{
    let mut r = String::from_str("frame_");
    write_decimal(&mut r, index as u128);
    r.append(".jpg");
    r
}

/// The file name of a thumbnail: "thumb_<id>.jpg".
pub fn thumbnail_file_name(id: &str) -> (r: String)
    ensures
        r@ == "thumb_"@ + id@ + ".jpg"@,
{
    let mut r = String::from_str("thumb_");
    r.append(id);
    r.append(".jpg");
    r
}

/// The directory, under the system's temporary directory, that sampled
/// frames are written to.
pub fn keyframe_dir_name() -> (r: String)
    ensures
        r@ == "blazecut_keyframes"@,
{
    String::from_str("blazecut_keyframes")
}

/// The directory, under the system's temporary directory, that thumbnails
/// are written to.
pub fn thumbnail_dir_name() -> (r: String)
    ensures
        r@ == "blazecut_thumbnails"@,
{
    String::from_str("blazecut_thumbnails")
}

#[verifier::external_type_specification]
#[verifier::external_body]
pub struct ExSystemTime(std::time::SystemTime);

/// Relies on std's `SystemTime::now`: the present time of the system clock.
#[verifier::external_body]
fn clock_now() -> (r: std::time::SystemTime) {
    std::time::SystemTime::now()
}

/// Relies on std's `SystemTime::duration_since`, measured from
/// `UNIX_EPOCH`: the time elapsed since the Unix epoch, or `None` for a
/// time before it.
#[verifier::external_body]
fn since_epoch(t: &std::time::SystemTime) -> (r: Option<std::time::Duration>) {
    t.duration_since(std::time::UNIX_EPOCH).ok()
}

/// Relies on std's `Duration::as_millis`: the whole milliseconds of a
/// duration.
#[verifier::external_body]
fn whole_millis(d: &std::time::Duration) -> (r: u128) {
    d.as_millis()
}

/// The identifier that a moment `millis` milliseconds after the Unix epoch
/// gives: its decimal digits.
pub fn id_from_millis(millis: u128) -> (r: String)
    ensures
        r@ == decimal(millis as nat),
{
    let mut r = String::new();
    write_decimal(&mut r, millis);
    assert(r@ =~= decimal(millis as nat));
    r
}

/// An identifier for a file written now: the milliseconds since the Unix
/// epoch, in decimal; `None` where the system clock is set before the
/// epoch.
pub fn random_id() -> (r: Option<String>)
    ensures
        r matches Some(s) ==> exists|ms: nat| ms <= u128::MAX && s@ == decimal(ms),
{
    let now = clock_now();
    match since_epoch(&now) {
        Some(d) => {
            let ms = whole_millis(&d);
            let s = id_from_millis(ms);
            assert(ms as nat <= u128::MAX && s@ == decimal(ms as nat));
            Some(s)
        },
        None => None,
    }
}

} // verus!
