use peerlink::devices::{list_devices, parse_device_line, parse_device_list};
use peerlink::platform::Platform;

const LISTING: &str = "ffmpeg version 6.0\n\
[AVFoundation indev @ 0x7f8a] AVFoundation video devices:\n\
[AVFoundation indev @ 0x7f8a] [0] FaceTime HD Camera\n\
[AVFoundation indev @ 0x7f8a] [1] Capture screen 0\r\n\
[AVFoundation indev @ 0x7f8a] [ 2 ]   Capture screen 1  \n\
[AVFoundation indev @ 0x7f8a] AVFoundation audio devices:\n\
[AVFoundation indev @ 0x7f8a] [0] Built-in Microphone\n\
[AVFoundation indev @ 0x7f8a] [x] Broken index\n\
[AVFoundation indev @ 0x7f8a] [3]\n\
something else [4] not a device line\n\
: Input/output error";

fn line(text: &str) -> Option<(usize, String)> {
    let chars: Vec<char> = text.chars().collect();
    parse_device_line(&chars).map(|d| (d.index, d.name))
}

#[test]
fn devices_are_listed_by_section() {
    let list = parse_device_list(LISTING);
    let video: Vec<(usize, &str)> = list.video.iter().map(|d| (d.index, d.name.as_str())).collect();
    let audio: Vec<(usize, &str)> = list.audio.iter().map(|d| (d.index, d.name.as_str())).collect();
    assert_eq!(
        video,
        vec![(0, "FaceTime HD Camera"), (1, "Capture screen 0"), (2, "Capture screen 1")]
    );
    assert_eq!(audio, vec![(0, "Built-in Microphone")]);
}

#[test]
fn lines_before_a_heading_name_no_device() {
    let list = parse_device_list("[AVFoundation indev @ 0x1] [0] Early\n");
    assert!(list.video.is_empty());
    assert!(list.audio.is_empty());
}

#[test]
fn empty_output_lists_nothing() {
    let list = parse_device_list("");
    assert!(list.video.is_empty());
    assert!(list.audio.is_empty());
}

#[test]
fn input_notice_is_passed_over() {
    let text = "[AVFoundation indev @ 0x1] AVFoundation video devices:\n\
[AVFoundation indev @ 0x1] [9] AVFoundation input device is odd\n\
[AVFoundation indev @ 0x1] [1] Camera\n";
    let list = parse_device_list(text);
    assert_eq!(list.video.len(), 1);
    assert_eq!(list.video[0].index, 1);
    assert_eq!(list.video[0].name, "Camera");
}

#[test]
fn device_lines() {
    assert_eq!(line("[AVFoundation indev @ 0x7f] [0] Camera"), Some((0, "Camera".to_string())));
    assert_eq!(line("[AVFoundation indev @ 0x7f] [+12] A [b] c"), Some((12, "A [b] c".to_string())));
    assert_eq!(line("[AVFoundation indev @ 0x7f] [007]\tName\t"), Some((7, "Name".to_string())));
    assert_eq!(line("[AVFoundation indev @ 0x7f] [0]   "), None);
    assert_eq!(line("[AVFoundation indev @ 0x7f] [] Name"), None);
    assert_eq!(line("[AVFoundation indev @ 0x7f] [-1] Name"), None);
    assert_eq!(line("[AVFoundation indev @ 0x7f] [1 Name"), None);
    assert_eq!(line("[AVFoundation indev @ 0x7f] 1] Name"), None);
    assert_eq!(line("[AVFoundation indev @ 0x7f"), None);
    assert_eq!(line("[Other @ 0x7f] [0] Camera"), None);
    assert_eq!(line("[AVFoundation indev @ 0x7f] [99999999999999999999999] Big"), None);
}

#[test]
fn devices_are_offered_on_macos_only() {
    assert_eq!(list_devices(Platform::MacOs, LISTING).video.len(), 3);
    assert_eq!(list_devices(Platform::MacOs, LISTING).audio.len(), 1);
    for p in [Platform::Linux, Platform::Windows, Platform::Other] {
        let list = list_devices(p, LISTING);
        assert!(list.video.is_empty());
        assert!(list.audio.is_empty());
    }
}
