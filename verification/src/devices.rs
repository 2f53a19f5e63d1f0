//! Reading the list of capture devices that the encoder prints on macOS.
//!
//! The encoder prints one line per device, under a heading for the video
//! devices and a heading for the audio devices:
//!
//! ```text
//! [AVFoundation indev @ 0x7f8] AVFoundation video devices:
//! [AVFoundation indev @ 0x7f8] [0] FaceTime HD Camera
//! [AVFoundation indev @ 0x7f8] AVFoundation audio devices:
//! [AVFoundation indev @ 0x7f8] [0] Built-in Microphone
//! ```

use vstd::prelude::*;
use crate::platform::Platform;
use crate::text::{
    chars_of, contains, find_char, find_one, is_substring, lines_of, parse_number, parse_usize,
    slice, split_lines, string_of, trim, trimmed,
};

verus! {

/// One capture device.
#[derive(Debug)]
pub struct Device {
    pub index: usize,
    pub name: String,
}

/// What a device entry holds.
pub ghost struct DeviceView {
    pub index: usize,
    pub name: Seq<char>,
}

impl View for Device {
    type V = DeviceView;

    open spec fn view(&self) -> DeviceView {
        DeviceView { index: self.index, name: self.name@ }
    }
}

/// The capture devices, by kind, in the order they were listed.
#[derive(Debug)]
pub struct DeviceList {
    pub video: Vec<Device>,
    pub audio: Vec<Device>,
}

/// The part of the listing a line belongs to.
#[derive(Clone, Copy, Debug, PartialEq, Eq, Structural)]
pub enum Section {
    /// Before the first heading.
    Outside,
    Video,
    Audio,
}

/// What has been read of a listing so far.
pub ghost struct Listing {
    pub section: Section,
    pub video: Seq<DeviceView>,
    pub audio: Seq<DeviceView>,
}

/// The views of a list of devices, in order.
pub open spec fn device_views(devices: Seq<Device>) -> Seq<DeviceView> {
    devices.map_values(|d: Device| d@)
}

/// The mark that every line of the listing starts with.
pub open spec fn line_mark() -> Seq<char> {
    "[AVFoundation indev @"@
}

/// The heading of the video devices.
pub open spec fn video_heading() -> Seq<char> {
    "AVFoundation video devices:"@
}

/// The heading of the audio devices.
pub open spec fn audio_heading() -> Seq<char> {
    "AVFoundation audio devices:"@
}

/// The words of a line that is part of the listing but names no device.
pub open spec fn input_notice() -> Seq<char> {
    "AVFoundation input device"@
}

/// The device that a line names, in the form `[mark] [index] name`: the
/// index is the number in the second pair of brackets, the name is the rest
/// of the line; both are read without the white space around them. A line
/// of another form, or with an empty name, names no device.
pub open spec fn device_on_line(line: Seq<char>) -> Option<DeviceView> {
    if !is_substring(line_mark(), line) {
        None
    } else {
        match find_char(line, ']') {
            None => None,
            Some(a) => {
                let after = line.skip(a + 1);
                match find_char(after, '[') {
                    None => None,
                    Some(b) => {
                        let inner = after.skip(b + 1);
                        match find_char(inner, ']') {
                            None => None,
                            Some(c) => match parse_number(trimmed(inner.take(c))) {
                                None => None,
                                Some(index) => {
                                    let name = trimmed(inner.skip(c + 1));
                                    if name.len() > 0 {
                                        Some(DeviceView { index, name })
                                    } else {
                                        None
                                    }
                                },
                            },
                        }
                    },
                }
            },
        }
    }
}

impl Listing {
    /// The listing before any line is read.
    pub open spec fn start() -> Listing {
        Listing { section: Section::Outside, video: Seq::empty(), audio: Seq::empty() }
    }

    /// The listing after one more line: a heading opens its section, and a
    /// line inside a section that names a device adds it to that section.
    pub open spec fn read_line(self, line: Seq<char>) -> Listing {
        if is_substring(video_heading(), line) {
            Listing { section: Section::Video, ..self }
        } else if is_substring(audio_heading(), line) {
            Listing { section: Section::Audio, ..self }
        } else if is_substring(input_notice(), line) {
            self
        } else {
            match (self.section, device_on_line(line)) {
                (Section::Video, Some(d)) => Listing { video: self.video.push(d), ..self },
                (Section::Audio, Some(d)) => Listing { audio: self.audio.push(d), ..self },
                _ => self,
            }
        }
    }

    /// The listing after the given lines, read in order.
    pub open spec fn read_lines(self, lines: Seq<Seq<char>>) -> Listing
        decreases lines.len(),
    {
        if lines.len() == 0 {
            self
        } else {
            self.read_lines(lines.drop_last()).read_line(lines.last())
        }
    }
}

/// The listing that a text holds.
pub open spec fn listing_of(text: Seq<char>) -> Listing {
    Listing::start().read_lines(lines_of(text))
}

/// The device that a line names, if it names one.
pub fn parse_device_line(line: &Vec<char>) -> (r: Option<Device>)
    ensures
        r.is_some() == device_on_line(line@).is_some(),
        r matches Some(d) ==> device_on_line(line@) == Some(d@),
{
    let mark = chars_of("[AVFoundation indev @");
    if !contains(line, &mark) {
        return None;
    }
    let a = match find_one(line, ']') {
        Some(a) => a,
        None => {
            return None;
        },
    };
    let line_len = line.len();
    let after = slice(line, a + 1, line_len);
    assert(after@ =~= line@.skip(a + 1));
    let b = match find_one(&after, '[') {
        Some(b) => b,
        None => {
            return None;
        },
    };
    let after_len = after.len();
    let inner = slice(&after, b + 1, after_len);
    assert(inner@ =~= after@.skip(b + 1));
    let c = match find_one(&inner, ']') {
        Some(c) => c,
        None => {
            return None;
        },
    };
    let number = slice(&inner, 0, c);
    assert(number@ =~= inner@.take(c as int));
    let index = match parse_usize(&trim(&number)) {
        Some(index) => index,
        None => {
            return None;
        },
    };
    let inner_len = inner.len();
    let rest = slice(&inner, c + 1, inner_len);
    assert(rest@ =~= inner@.skip(c + 1));
    let name = trim(&rest);
    if name.len() == 0 {
        return None;
    }
    Some(Device { index, name: string_of(&name) })
}

/// The capture devices that the encoder listed in `output`.
pub fn parse_device_list(output: &str) -> (r: DeviceList)
    ensures
        device_views(r.video@) == listing_of(output@).video,
        device_views(r.audio@) == listing_of(output@).audio,
{
    let video_heading = chars_of("AVFoundation video devices:");
    let audio_heading = chars_of("AVFoundation audio devices:");
    let notice = chars_of("AVFoundation input device");
    let text = chars_of(output);
    let lines = split_lines(&text);
    let ghost all = lines_of(output@);
    let mut section = Section::Outside;
    let mut video: Vec<Device> = Vec::new();
    let mut audio: Vec<Device> = Vec::new();
    let mut i: usize = 0;
    assert(device_views(video@) =~= Seq::empty());
    assert(device_views(audio@) =~= Seq::empty());
    assert(all.take(0) =~= Seq::empty());
    while i < lines.len()
        invariant
            video_heading@ == crate::devices::video_heading(),
            audio_heading@ == crate::devices::audio_heading(),
            notice@ == input_notice(),
            all == crate::text::line_views(lines@),
            i <= lines@.len(),
            Listing::start().read_lines(all.take(i as int)) == (Listing {
                section,
                video: device_views(video@),
                audio: device_views(audio@),
            }),
        decreases lines@.len() - i,
    {
        let line = &lines[i];
        proof {
            assert(all.take(i + 1).drop_last() =~= all.take(i as int));
            assert(all.take(i + 1).last() == line@);
        }
        let ghost before_video = device_views(video@);
        let ghost before_audio = device_views(audio@);
        if contains(line, &video_heading) {
            section = Section::Video;
        } else if contains(line, &audio_heading) {
            section = Section::Audio;
        } else if contains(line, &notice) {
        } else {
            match section {
                Section::Outside => {},
                Section::Video => {
                    match parse_device_line(line) {
                        Some(d) => {
                            video.push(d);
                            assert(device_views(video@) =~= before_video.push(d@));
                        },
                        None => {},
                    }
                },
                Section::Audio => {
                    match parse_device_line(line) {
                        Some(d) => {
                            audio.push(d);
                            assert(device_views(audio@) =~= before_audio.push(d@));
                        },
                        None => {},
                    }
                },
            }
        }
        i += 1;
    }
    assert(all.take(lines@.len() as int) =~= all);
    DeviceList { video, audio }
}

/// The capture devices to offer on the given system: those listed in the
/// encoder's output on macOS, none elsewhere.
pub fn list_devices(platform: Platform, output: &str) -> (r: DeviceList)
    ensures
        platform == Platform::MacOs ==> device_views(r.video@) == listing_of(output@).video
            && device_views(r.audio@) == listing_of(output@).audio,
        platform != Platform::MacOs ==> r.video@.len() == 0 && r.audio@.len() == 0,
{
    match platform {
        Platform::MacOs => parse_device_list(output),
        _ => DeviceList { video: Vec::new(), audio: Vec::new() },
    }
}

} // verus!
