use timeline_core::capture::{capture_command, input_device, CaptureError, CaptureRegistry, RecordSettings};
use timeline_core::cache::CacheDirs;
use timeline_core::devices::{classify_device_lines, classify_device_name, device_entry_name, split_lines, DeviceLine};

fn record(display: Option<u32>, audio: Option<u32>, fps: Option<u32>) -> RecordSettings {
    RecordSettings { display_index: display, audio_index: audio, fps }
}

#[test]
fn stopping_unknown_session_fails_and_changes_nothing() {
    let mut reg: CaptureRegistry<u32> = CaptureRegistry::new();
    let id = reg.register(1000, 7, "/c/a.mp4".to_string());
    match reg.remove(&"rec_999".to_string()) {
        Err(e) => {
            assert!(e == CaptureError::SessionNotFound);
            assert_eq!(e.message(), "recording id not found");
        }
        Ok(_) => panic!("expected SessionNotFound"),
    }
    assert_eq!(reg.len(), 1);
    assert_eq!(reg.sessions[0].id, id);
    assert!(reg.remove(&"anything".to_string()).is_err());
    assert_eq!(reg.len(), 1);
}

#[test]
fn two_sessions_started_together_are_independent() {
    let mut reg: CaptureRegistry<&str> = CaptureRegistry::new();
    let first = reg.register(1700000000123, "proc-a", "/c/a.mp4".to_string());
    let second = reg.register(1700000000123, "proc-b", "/c/b.mp4".to_string());
    assert_ne!(first, second);
    assert_eq!(first, "rec_1700000000123_0");
    assert_eq!(second, "rec_1700000000123_1");
    let stopped = reg.remove(&first).ok().expect("first is registered");
    assert_eq!(stopped.handle, "proc-a");
    assert_eq!(stopped.output_path, "/c/a.mp4");
    assert_eq!(reg.len(), 1);
    let other = reg.remove(&second).ok().expect("second is still registered");
    assert_eq!(other.handle, "proc-b");
    assert_eq!(other.output_path, "/c/b.mp4");
    assert!(reg.remove(&first).is_err());
}

#[test]
fn device_selector_defaults() {
    assert_eq!(input_device(&record(None, None, None)), "1:none");
    assert_eq!(input_device(&record(Some(2), Some(0), None)), "2:none");
    assert_eq!(input_device(&record(Some(3), Some(1), None)), "3:1");
}

#[test]
fn capture_arguments() {
    let args = capture_command(&record(None, Some(2), None), &"/c/capture_5.mp4".to_string());
    assert_eq!(
        args,
        vec![
            "-f", "avfoundation", "-framerate", "30", "-i", "1:2", "-pix_fmt", "yuv420p", "-preset", "veryfast",
            "-crf", "23", "/c/capture_5.mp4"
        ]
    );
    let args = capture_command(&record(Some(0), None, Some(60)), &"/o.mp4".to_string());
    assert_eq!(args[3], "60");
    assert_eq!(args[5], "0:none");
}

#[test]
fn device_listing_is_classified() {
    let text = "[AVFoundation indev @ 0x1] AVFoundation video devices:\n\
                [AVFoundation indev @ 0x1] [0] FaceTime HD Camera\n\
                [AVFoundation indev @ 0x1] [1] Capture screen 0\n\
                [AVFoundation indev @ 0x1] AVFoundation audio devices:\n\
                [AVFoundation indev @ 0x1] [0] MacBook Pro Microphone\n\
                [AVFoundation indev @ 0x1] [1] USB Audio Interface\r\n\
                : Input/output error\n";
    let found = classify_device_lines(text);
    assert_eq!(found.displays, vec!["[0", "[1", "[0", "[1"]);
    assert!(found.audio_inputs.is_empty());
}

#[test]
fn single_bracket_lines_keep_their_name() {
    let found = classify_device_lines("[0] Capture screen 0\n[1] Built-in AUDIO input\n[2]   \nno bracket here");
    assert_eq!(found.displays, vec!["Capture screen 0"]);
    assert_eq!(found.audio_inputs, vec!["Built-in AUDIO input"]);
}

#[test]
fn input_device_notices_are_skipped() {
    let found = classify_device_lines("[AVFoundation input device @ 0x7f] [0] Camera\n");
    assert!(found.displays.is_empty());
    assert!(found.audio_inputs.is_empty());
}

#[test]
fn class_comes_from_the_device_name() {
    let found = classify_device_lines("]a]audio\n[2] Studio Audio\n");
    assert_eq!(found.displays, vec!["a"]);
    assert_eq!(found.audio_inputs, vec!["Studio Audio"]);
    assert_eq!(device_entry_name("[3] Loopback"), Some("Loopback".to_string()));
    assert_eq!(device_entry_name("no entry"), None);
    match classify_device_name("Loopback".to_string(), "loopback audio") {
        DeviceLine::Audio(name) => assert_eq!(name, "Loopback"),
        _ => panic!("expected an audio input"),
    }
    assert!(matches!(classify_device_name("Cam".to_string(), "cam"), DeviceLine::Display(_)));
}

#[test]
fn sessions_in_one_second_get_distinct_files() {
    let dirs = CacheDirs::new(&"/d".to_string());
    let mut reg: CaptureRegistry<u8> = CaptureRegistry::new();
    let p1 = reg.next_capture_path(&dirs, "mp4", 100);
    reg.register(100000, 1, p1.clone());
    let p2 = reg.next_capture_path(&dirs, "mp4", 100);
    reg.register(100000, 2, p2.clone());
    assert_eq!(p1, "/d/cache/captures/capture_0_100.mp4");
    assert_eq!(p2, "/d/cache/captures/capture_1_100.mp4");
}

#[test]
fn lines_split_like_std() {
    assert_eq!(split_lines("foo\nbar\n\r\nbaz\r"), vec!["foo", "bar", "", "baz\r"]);
    assert!(split_lines("").is_empty());
    assert_eq!(split_lines("a\n"), vec!["a"]);
}
