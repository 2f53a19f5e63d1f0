//! The command line of the stream encoder: how the screen is captured on
//! each system, and how the capture is encoded into stream segments.

use vstd::prelude::*;
use vstd::string::*;
use crate::platform::Platform;
use crate::text::{opt_text, same_text};

verus! {

/// The texts of a list of arguments, in order.
pub open spec fn texts(args: Seq<String>) -> Seq<Seq<char>> {
    args.map_values(|s: String| s@)
}

/// The capture device used on macOS where none is chosen.
pub open spec fn default_device() -> Seq<char> {
    "2:0"@
}

/// The arguments that select the encoder's input on the given system. Only
/// macOS takes a device; the other systems capture the whole desktop.
pub open spec fn input_args(platform: Platform, device: Option<Seq<char>>) -> Seq<Seq<char>> {
    match platform {
        Platform::MacOs => seq![
            "-f"@,
            "avfoundation"@,
            "-framerate"@,
            "30"@,
            "-video_size"@,
            "1920x1080"@,
            "-i"@,
            match device {
                Some(d) => d,
                None => default_device(),
            },
        ],
        Platform::Windows => seq!["-f"@, "gdigrab"@, "-i"@, "desktop"@],
        Platform::Linux => seq!["-f"@, "x11grab"@, "-video_size"@, "1920x1080"@, "-i"@, ":0.0"@],
        Platform::Other => Seq::empty(),
    }
}

/// The arguments that come before the input.
pub open spec fn probe_args() -> Seq<Seq<char>> {
    seq![
        "-loglevel"@,
        "info"@,
        "-fflags"@,
        "+genpts"@,
        "-probesize"@,
        "50M"@,
        "-analyzeduration"@,
        "50M"@,
    ]
}

/// The arguments that say how to encode and where to write the stream:
/// the segments and the playlist go to the directory `dir`.
pub open spec fn output_args(dir: Seq<char>) -> Seq<Seq<char>> {
    seq![
        "-c:v"@,
        "libx264"@,
        "-preset"@,
        "ultrafast"@,
        "-tune"@,
        "zerolatency"@,
        "-profile:v"@,
        "baseline"@,
        "-level"@,
        "3.0"@,
        "-pix_fmt"@,
        "yuv420p"@,
        "-c:a"@,
        "aac"@,
        "-ar"@,
        "44100"@,
        "-b:a"@,
        "128k"@,
        "-ac"@,
        "2"@,
        "-f"@,
        "hls"@,
        "-hls_time"@,
        "2"@,
        "-hls_list_size"@,
        "5"@,
        "-hls_flags"@,
        "delete_segments+independent_segments"@,
        "-hls_segment_type"@,
        "mpegts"@,
        "-hls_segment_filename"@,
        dir + "/segment_%03d.ts"@,
        dir + "/stream.m3u8"@,
    ]
}

/// The encoder's whole command line.
pub open spec fn encoder_args(
    platform: Platform,
    dir: Seq<char>,
    device: Option<Seq<char>>,
) -> Seq<Seq<char>> {
    probe_args() + input_args(platform, device) + output_args(dir)
}

/// Whether a file with the given extension is part of a stream: a segment
/// or a playlist.
pub open spec fn is_stream_extension(ext: Seq<char>) -> bool {
    ext == "ts"@ || ext == "m3u8"@
}

/// Appends an argument.
fn push_arg(args: &mut Vec<String>, arg: &str)
    ensures
        texts(final(args)@) == texts(old(args)@).push(arg@),
{
    args.push(arg.to_owned());
    assert(texts(args@) =~= texts(old(args)@).push(arg@));
}

/// The arguments that select the encoder's input on the given system.
pub fn get_ffmpeg_input_args(platform: Platform, device: Option<&str>) -> (r: Vec<String>)
    ensures
        texts(r@) == input_args(platform, opt_text(device)),
{
    let mut r: Vec<String> = Vec::new();
    assert(texts(r@) =~= Seq::empty());
    match platform {
        Platform::MacOs => {
            push_arg(&mut r, "-f");
            push_arg(&mut r, "avfoundation");
            push_arg(&mut r, "-framerate");
            push_arg(&mut r, "30");
            push_arg(&mut r, "-video_size");
            push_arg(&mut r, "1920x1080");
            push_arg(&mut r, "-i");
            match device {
                Some(d) => push_arg(&mut r, d),
                None => push_arg(&mut r, "2:0"),
            }
        },
        Platform::Windows => {
            push_arg(&mut r, "-f");
            push_arg(&mut r, "gdigrab");
            push_arg(&mut r, "-i");
            push_arg(&mut r, "desktop");
        },
        Platform::Linux => {
            push_arg(&mut r, "-f");
            push_arg(&mut r, "x11grab");
            push_arg(&mut r, "-video_size");
            push_arg(&mut r, "1920x1080");
            push_arg(&mut r, "-i");
            push_arg(&mut r, ":0.0");
        },
        Platform::Other => {},
    }
    assert(texts(r@) =~= input_args(platform, opt_text(device)));
    r
}

/// `dir` followed by `tail`.
fn in_dir(dir: &str, tail: &str) -> (r: String)
    ensures
        r@ == dir@ + tail@,
{
    let mut r = dir.to_owned();
    r.append(tail);
    r
}

/// The arguments that say how to encode and where to write the stream.
fn get_output_args(dir: &str) -> (r: Vec<String>)
    ensures
        texts(r@) == output_args(dir@),
{
    let mut r: Vec<String> = Vec::new();
    assert(texts(r@) =~= Seq::empty());
    push_arg(&mut r, "-c:v");
    push_arg(&mut r, "libx264");
    push_arg(&mut r, "-preset");
    push_arg(&mut r, "ultrafast");
    push_arg(&mut r, "-tune");
    push_arg(&mut r, "zerolatency");
    push_arg(&mut r, "-profile:v");
    push_arg(&mut r, "baseline");
    push_arg(&mut r, "-level");
    push_arg(&mut r, "3.0");
    push_arg(&mut r, "-pix_fmt");
    push_arg(&mut r, "yuv420p");
    push_arg(&mut r, "-c:a");
    push_arg(&mut r, "aac");
    push_arg(&mut r, "-ar");
    push_arg(&mut r, "44100");
    push_arg(&mut r, "-b:a");
    push_arg(&mut r, "128k");
    push_arg(&mut r, "-ac");
    push_arg(&mut r, "2");
    push_arg(&mut r, "-f");
    push_arg(&mut r, "hls");
    push_arg(&mut r, "-hls_time");
    push_arg(&mut r, "2");
    push_arg(&mut r, "-hls_list_size");
    push_arg(&mut r, "5");
    push_arg(&mut r, "-hls_flags");
    push_arg(&mut r, "delete_segments+independent_segments");
    push_arg(&mut r, "-hls_segment_type");
    push_arg(&mut r, "mpegts");
    push_arg(&mut r, "-hls_segment_filename");
    let segments = in_dir(dir, "/segment_%03d.ts");
    push_arg(&mut r, segments.as_str());
    let playlist = in_dir(dir, "/stream.m3u8");
    push_arg(&mut r, playlist.as_str());
    assert(texts(r@) =~= output_args(dir@));
    r
}

/// The encoder's whole command line, for a capture on the given system
/// that writes its stream to the directory `dir`.
pub fn get_ffmpeg_args(platform: Platform, dir: &str, device: Option<&str>) -> (r: Vec<String>)
    ensures
        texts(r@) == encoder_args(platform, dir@, opt_text(device)),
{
    let mut r: Vec<String> = Vec::new();
    assert(texts(r@) =~= Seq::empty());
    push_arg(&mut r, "-loglevel");
    push_arg(&mut r, "info");
    push_arg(&mut r, "-fflags");
    push_arg(&mut r, "+genpts");
    push_arg(&mut r, "-probesize");
    push_arg(&mut r, "50M");
    push_arg(&mut r, "-analyzeduration");
    push_arg(&mut r, "50M");
    assert(texts(r@) =~= probe_args());
    let mut input = get_ffmpeg_input_args(platform, device);
    let mut output = get_output_args(dir);
    let ghost a = r@;
    let ghost b = input@;
    let ghost c = output@;
    r.append(&mut input);
    r.append(&mut output);
    assert(r@ =~= a + b + c);
    assert(texts(a + b + c) =~= texts(a) + texts(b) + texts(c));
    r
}

/// Whether a file with the given extension is removed when the stream
/// directory is cleaned: segments and playlists are, nothing else.
pub fn is_stream_file(extension: &str) -> (r: bool)
    ensures
        r == is_stream_extension(extension@),
{
    same_text(extension, "ts") || same_text(extension, "m3u8")
}

} // verus!
