use vicash::calendar::{days_to_ymd, timestamp};
use vicash::command::{recording_args, relay_args, RelayInput, PROGRAM};
use vicash::record::{
    recording_name, screenshot_name, PushPlan, Recorder, RecordingHandle,
};
use vicash::text::{append_decimal, append_padded, decimal_text, same_text, same_text_but_case};

#[test]
fn dates_of_day_numbers() {
    assert_eq!(days_to_ymd(0), (1970, 1, 1));
    assert_eq!(days_to_ymd(-1), (1969, 12, 31));
    assert_eq!(days_to_ymd(59), (1970, 3, 1));
    assert_eq!(days_to_ymd(11_016), (2000, 2, 29));
    assert_eq!(days_to_ymd(11_017), (2000, 3, 1));
    assert_eq!(days_to_ymd(-719_468), (0, 3, 1));
    assert_eq!(days_to_ymd(-719_469), (0, 2, 29));
    assert_eq!(days_to_ymd(-141_428), (1582, 10, 14));
    assert_eq!(days_to_ymd(47_540), (2100, 2, 28));
    assert_eq!(days_to_ymd(47_541), (2100, 3, 1));
}

#[test]
fn the_calendar_runs_without_gaps() {
    let mut before = days_to_ymd(-800_000);
    for d in -799_999..800_000 {
        let now = days_to_ymd(d);
        assert!(now > before);
        assert!(now.2 == before.2 + 1 || now.2 == 1);
        before = now;
    }
}

#[test]
fn timestamps_of_known_moments() {
    assert_eq!(timestamp(0), "19700101_000000");
    assert_eq!(timestamp(951_782_400), "20000229_000000");
    assert_eq!(timestamp(1_700_000_000), "20231114_221320");
    assert_eq!(timestamp(1_709_210_096), "20240229_123456");
    assert_eq!(timestamp(4_102_444_799), "20991231_235959");
}

#[test]
fn every_second_has_its_own_timestamp() {
    let mut before = timestamp(1_709_164_000);
    for s in 1_709_164_001..1_709_165_000u64 {
        let now = timestamp(s);
        assert!(now > before);
        before = now;
    }
}

#[test]
fn file_names_carry_the_time() {
    assert_eq!(screenshot_name(1_709_210_096), "vicash_20240229_123456.png");
    assert_eq!(recording_name(1_709_210_096), "vicash_20240229_123456.mp4");
    assert_ne!(screenshot_name(1), screenshot_name(2));
}

#[test]
fn numbers_as_text() {
    assert_eq!(decimal_text(0), "0");
    assert_eq!(decimal_text(u64::MAX), "18446744073709551615");
    let mut s = "a".to_string();
    append_decimal(&mut s, 120);
    append_padded(&mut s, 7, 3);
    append_padded(&mut s, 12345, 3);
    append_padded(&mut s, 0, 2);
    assert_eq!(s, "a1200071234500");
}

#[test]
fn comparing_text() {
    assert!(same_text("ab", "ab"));
    assert!(!same_text("ab", "aB"));
    assert!(same_text_but_case("Vicash.EXE", "vicash.exe"));
    assert!(!same_text_but_case("vicash.exe", "vicash.ex"));
    assert!(!same_text_but_case("vicash@exe", "vicash`exe"));
    assert!(same_text_but_case("é", "é"));
    assert!(!same_text_but_case("É", "é"));
}

#[test]
fn arguments_of_a_recording() {
    assert_eq!(PROGRAM, "ffmpeg");
    assert_eq!(
        recording_args(1920, 1080, 60, "C:/a b/x.mp4"),
        [
            "-y", "-f", "rawvideo", "-pix_fmt", "nv12", "-video_size", "1920x1080", "-framerate",
            "60", "-i", "pipe:0", "-c:v", "libx264", "-preset", "ultrafast", "-tune",
            "zerolatency", "-pix_fmt", "yuv420p", "-movflags", "+faststart", "C:/a b/x.mp4",
        ]
    );
}

#[test]
fn arguments_of_the_relay_encoder() {
    let input = RelayInput {
        video_addr: "127.0.0.1:5001".to_string(),
        audio_addr: "127.0.0.1:5002".to_string(),
        width: 1280,
        height: 720,
        fps: 30,
        sample_rate: 48_000,
        channels: 1,
    };
    assert_eq!(
        relay_args(&input),
        [
            "-y", "-loglevel", "warning", "-fflags", "+nobuffer+genpts", "-f", "rawvideo",
            "-pix_fmt", "nv12", "-video_size", "1280x720", "-framerate", "30", "-i",
            "tcp://127.0.0.1:5001", "-f", "f32le", "-ar", "48000", "-ac", "1", "-i",
            "tcp://127.0.0.1:5002", "-c:v", "libx264", "-preset", "ultrafast", "-tune",
            "zerolatency", "-g", "30", "-pix_fmt", "yuv420p", "-c:a", "aac", "-b:a", "128k", "-ac",
            "2", "-movflags",
            "+empty_moov+default_base_moof+frag_keyframe+separate_moof+omit_tfhd_offset",
            "-frag_duration", "500000", "-f", "mp4", "pipe:1",
        ]
    );
}

#[test]
fn keyframes_come_at_least_with_every_picture() {
    let input = RelayInput {
        video_addr: String::new(),
        audio_addr: String::new(),
        width: 1,
        height: 1,
        fps: 0,
        sample_rate: 1,
        channels: 1,
    };
    let args = relay_args(&input);
    let g = args.iter().position(|a| a == "-g").unwrap();
    assert_eq!(args[g + 1], "1");
}

fn recorder(open: bool) -> Recorder {
    Recorder::start(4, 2, "x.mp4".to_string(), 5_000_000_000, open)
}

#[test]
fn a_recorder_writes_whole_pictures() {
    let mut r = recorder(true);
    assert_eq!(r.push(&[0; 11]), PushPlan::Skip);
    assert_eq!(r.push(&[0; 12]), PushPlan::Write(12));
    assert_eq!(r.push(&[0; 20]), PushPlan::Write(12));
    assert!(r.written(true));
    assert!(r.written(true));
    assert_eq!(r.status.frames_written, 2);
    assert!(!r.written(false));
    assert_eq!(r.push(&[0; 12]), PushPlan::Ended);
    assert_eq!(r.status.frames_written, 2);
    assert_eq!(r.stop(), "x.mp4");
}

#[test]
fn a_recording_under_way() {
    let mut h = RecordingHandle::new();
    assert!(!h.is_recording());
    assert_eq!(h.elapsed_secs(9), None);
    assert_eq!(h.frames_written(), 0);
    assert_eq!(h.current_path(), None);
    assert_eq!(h.push_frame(&[0; 12]), PushPlan::Idle);
    h.begin(recorder(true));
    assert!(h.is_recording());
    assert_eq!(h.elapsed_secs(7_999_999_999), Some(2));
    assert_eq!(h.elapsed_secs(1), Some(0));
    assert_eq!(h.current_path().as_deref(), Some("x.mp4"));
    assert_eq!(h.push_frame(&[0; 3]), PushPlan::Skip);
    assert_eq!(h.push_frame(&[0; 12]), PushPlan::Write(12));
    h.frame_written(true);
    assert_eq!(h.frames_written(), 1);
    h.end();
    assert!(!h.is_recording());
    assert_eq!(h.last_recording.as_deref(), Some("x.mp4"));
    h.screenshot_saved("y.png".to_string());
    assert_eq!(h.last_screenshot.as_deref(), Some("y.png"));
}

#[test]
fn a_broken_pipe_ends_the_recording() {
    let mut h = RecordingHandle::new();
    h.begin(recorder(true));
    assert_eq!(h.push_frame(&[0; 12]), PushPlan::Write(12));
    h.frame_written(false);
    assert!(!h.is_recording());
    assert_eq!(h.last_recording.as_deref(), Some("x.mp4"));
    let mut h = RecordingHandle::new();
    h.begin(recorder(false));
    assert_eq!(h.push_frame(&[0; 12]), PushPlan::Ended);
    assert!(!h.is_recording());
    assert_eq!(h.last_recording.as_deref(), Some("x.mp4"));
}
