use vicash::config::{
    builtin_color_presets, config_from_runtime, copy_presets, load, settings_from_config,
    AudioConfig, CaptureConfig, ColorPreset, Config, FitModeIo, MonitorConfig, RelayConfig,
};
use vicash::launch::{
    audio_plan, audio_snapshot, capture_info, capture_request, capture_snapshot, choose_device,
    device_name, initial_settings, name_rule, output_to_restore, relay_addr,
    resolve_device_by_name, settle_device, AudioStatus, CaptureDevice, CaptureMode, CaptureRequest,
    ConfigSaver, DeviceChoice, LaunchOptions, NameRule,
};
use vicash::perf::{LatencyTracker, PerfMetrics, SystemSnapshot};
use vicash::settings::{FitMode, Float32, Language, PresentMode, Settings};
use vicash::threadprio::{bump_capture_thread, bump_render_thread, Priority};

fn bits(f: f32) -> Float32 {
    Float32 { bits: f.to_bits() }
}

fn options() -> LaunchOptions {
    LaunchOptions {
        device: None,
        allow_mjpeg: false,
        width: None,
        height: None,
        fps: None,
        serve: None,
        quality: 75,
        audio: false,
        audio_device: None,
        audio_delay_ms: 100,
    }
}

fn devices() -> Vec<CaptureDevice> {
    [("Cam", 3), ("Card", 5), ("Card", 7)]
        .iter()
        .map(|(n, i)| CaptureDevice { name: n.to_string(), index: *i })
        .collect()
}

fn capture(name: Option<&str>, index: Option<u32>) -> CaptureConfig {
    CaptureConfig {
        device_name: name.map(|n| n.to_string()),
        device_index: index,
        width: Some(1280),
        height: Some(720),
        fps: Some(30),
    }
}

fn odd_settings() -> Settings {
    let mut s = Settings::default();
    s.show_panel = true;
    s.show_stats = false;
    s.fit_mode = FitMode::Fill;
    s.background_color = [bits(0.1), bits(0.2), bits(0.3)];
    s.jpeg_quality = 40;
    s.fullscreen = true;
    s.language = Language { tag: Some("de".to_string()) };
    s.present_mode = PresentMode::Mailbox;
    s.relay_port = 8080;
    s.relay_localhost_only = true;
    s.audio_mix_to_mono = true;
    s.color_hue_deg = bits(-3.5);
    s.custom_aspect = Some((16, 10));
    s.zoom = bits(1.5);
    s
}

#[test]
fn a_fresh_install() {
    let c = load(None);
    assert_eq!(c.relay, RelayConfig { jpeg_quality: 75, port: 7777, autostart: false, localhost_only: false });
    assert_eq!(
        c.monitor,
        MonitorConfig { fullscreen: false, borderless: false, always_on_top: false, hide_cursor: true }
    );
    assert!(c.audio.enabled);
    assert_eq!((c.audio.volume_percent, c.audio.delay_ms), (100, 100));
    assert!(c.capture.device_name.is_none() && c.capture.device_index.is_none());
    assert_eq!((c.display.custom_aspect_w, c.display.custom_aspect_h), (4, 3));
    assert!(!c.display.use_custom_aspect);
    assert_eq!(c.display.fit_mode, FitModeIo::Fit);
    assert_eq!(c.display.present_mode, PresentMode::Immediate);
    assert!(c.language.tag.is_none());
    let s = settings_from_config(&c);
    assert_eq!(format!("{:?}", s), format!("{:?}", Settings::default()));
}

#[test]
fn default_floats_have_the_right_bits() {
    let s = Settings::default();
    assert_eq!(s.color_contrast, bits(1.0));
    assert_eq!(s.color_brightness, bits(0.0));
    assert_eq!(s.zoom, bits(1.0));
    assert_eq!(s.background_color, [bits(0.0); 3]);
}

#[test]
fn builtin_presets() {
    let want = [
        ("Neutral", 0.0f32, 1.0f32, 1.0f32, 0.0f32),
        ("Switch (punchier)", 0.02, 1.08, 1.15, 0.0),
        ("Retro warm", 0.0, 1.05, 0.95, 8.0),
        ("Cool", 0.0, 1.0, 1.0, -8.0),
    ];
    let got = builtin_color_presets();
    assert_eq!(got.len(), 4);
    for (p, (name, b, c, s, h)) in got.iter().zip(want) {
        assert_eq!(p.name, name);
        assert_eq!((p.brightness, p.contrast), (bits(b), bits(c)));
        assert_eq!((p.saturation, p.hue_deg), (bits(s), bits(h)));
    }
    let copy = copy_presets(&got);
    assert_eq!(format!("{:?}", copy), format!("{:?}", got));
    assert_eq!(ColorPreset::default().name, "");
}

#[test]
fn what_was_read_is_used() {
    let mut c = Config::default();
    c.relay.port = 9;
    assert_eq!(load(Some(c)).relay.port, 9);
}

#[test]
fn fit_modes_convert_both_ways() {
    for (m, io) in [
        (FitMode::Stretch, FitModeIo::Stretch),
        (FitMode::Fit, FitModeIo::Fit),
        (FitMode::Fill, FitModeIo::Fill),
    ] {
        assert_eq!(FitModeIo::from(m), io);
        assert_eq!(FitMode::from(io), m);
    }
}

#[test]
fn settings_survive_a_restart() {
    let s = odd_settings();
    let mut audio = AudioConfig::default();
    audio.mix_to_mono = false;
    let c = config_from_runtime(&s, &capture(Some("Card"), Some(5)), &audio, builtin_color_presets());
    assert_eq!(c.capture.device_name.as_deref(), Some("Card"));
    assert!(c.display.use_custom_aspect);
    assert_eq!((c.display.custom_aspect_w, c.display.custom_aspect_h), (16, 10));
    assert_eq!(c.display.color_presets.len(), 4);
    let back = settings_from_config(&c);
    let mut want = s.clone();
    want.show_panel = false;
    want.audio_mix_to_mono = false;
    assert_eq!(format!("{:?}", back), format!("{:?}", want));
}

#[test]
fn a_configuration_survives_being_saved() {
    let mut c = Config::default();
    c.display.custom_aspect_w = 21;
    c.display.custom_aspect_h = 9;
    c.relay.jpeg_quality = 33;
    let presets = copy_presets(&c.display.color_presets);
    let s = settings_from_config(&c);
    assert_eq!(s.custom_aspect, None);
    let back = config_from_runtime(&s, &c.capture, &c.audio, presets);
    // An aspect ratio that is not in use is forgotten.
    assert_eq!((back.display.custom_aspect_w, back.display.custom_aspect_h), (4, 3));
    c.display.custom_aspect_w = 4;
    c.display.custom_aspect_h = 3;
    assert_eq!(format!("{:?}", back), format!("{:?}", c));
}

#[test]
fn devices_by_name_and_index() {
    assert_eq!(resolve_device_by_name(&devices(), "Card"), Some(5));
    assert_eq!(resolve_device_by_name(&devices(), "card"), None);
    assert_eq!(resolve_device_by_name(&[], "Card"), None);
    assert_eq!(device_name(&devices(), 7).as_deref(), Some("Card"));
    assert_eq!(device_name(&devices(), 4), None);
}

#[test]
fn which_device_is_opened() {
    let d = devices();
    assert_eq!(choose_device(Some(1), &capture(Some("Card"), Some(9)), &d), DeviceChoice::Use(1));
    assert_eq!(choose_device(None, &capture(Some("Card"), Some(9)), &d), DeviceChoice::Use(5));
    assert_eq!(choose_device(None, &capture(Some("Gone"), Some(9)), &d), DeviceChoice::Use(9));
    assert_eq!(choose_device(None, &capture(Some("Gone"), None), &d), DeviceChoice::AskOrFirst);
    assert_eq!(choose_device(None, &capture(None, Some(9)), &d), DeviceChoice::Use(9));
    assert_eq!(choose_device(None, &capture(None, None), &d), DeviceChoice::Ask);
    assert_eq!(settle_device(DeviceChoice::Use(4), None), Some(4));
    assert_eq!(settle_device(DeviceChoice::AskOrFirst, None), Some(0));
    assert_eq!(settle_device(DeviceChoice::AskOrFirst, Some(2)), Some(2));
    assert_eq!(settle_device(DeviceChoice::Ask, Some(2)), Some(2));
    assert_eq!(settle_device(DeviceChoice::Ask, None), None);
}

#[test]
fn options_win_over_the_configuration() {
    let mut o = options();
    o.width = Some(640);
    o.fps = Some(50);
    o.allow_mjpeg = true;
    o.quality = 12;
    assert_eq!(
        capture_request(2, &o, &capture(None, None)),
        CaptureRequest {
            device_index: 2,
            width: Some(640),
            height: Some(720),
            fps: Some(50),
            force_mjpeg: true,
        }
    );
    let info = capture_info(&o, &capture(None, None));
    assert_eq!((info.fps_target, info.format_label.as_str()), (50, "any"));
    let info = capture_info(&options(), &CaptureConfig::default());
    assert_eq!((info.fps_target, info.format_label.as_str()), (60, "raw preferred"));
    let s = initial_settings(&o, &Config::default());
    assert_eq!((s.jpeg_quality, s.relay_port), (12, 7777));
}

#[test]
fn how_sound_is_passed_through() {
    let video = Some("Card".to_string());
    let mut saved = AudioConfig::default();
    saved.delay_ms = 40;
    let p = audio_plan(&options(), &saved, &video).unwrap();
    assert_eq!((p.hint.as_deref(), p.delay_ms), (Some("Card"), 40));
    assert_eq!((p.volume_percent, p.muted, p.mix_to_mono), (100, false, false));
    saved.input_device = Some("Mic".to_string());
    assert_eq!(audio_plan(&options(), &saved, &video).unwrap().hint.as_deref(), Some("Mic"));
    let mut o = options();
    o.audio_device = Some("Line".to_string());
    o.audio_delay_ms = 7;
    let p = audio_plan(&o, &saved, &video).unwrap();
    assert_eq!((p.hint.as_deref(), p.delay_ms), (Some("Line"), 7));
    saved.enabled = false;
    assert!(audio_plan(&options(), &saved, &video).is_none());
    o.audio = true;
    assert!(audio_plan(&o, &saved, &video).is_some());
}

#[test]
fn the_output_device_is_restored() {
    let mut saved = AudioConfig::default();
    assert_eq!(output_to_restore(&saved, "Speakers"), None);
    saved.output_device = Some(String::new());
    assert_eq!(output_to_restore(&saved, "Speakers"), None);
    saved.output_device = Some("Speakers".to_string());
    assert_eq!(output_to_restore(&saved, "Speakers"), None);
    assert_eq!(output_to_restore(&saved, "Headset").as_deref(), Some("Speakers"));
}

#[test]
fn where_the_relay_listens() {
    let mut saved = RelayConfig::default();
    assert_eq!(relay_addr(&options(), &saved), None);
    saved.autostart = true;
    assert_eq!(relay_addr(&options(), &saved).as_deref(), Some("0.0.0.0:7777"));
    saved.localhost_only = true;
    saved.port = 90;
    assert_eq!(relay_addr(&options(), &saved).as_deref(), Some("127.0.0.1:90"));
    let mut o = options();
    o.serve = Some("0.0.0.0:8080".to_string());
    assert_eq!(relay_addr(&o, &saved).as_deref(), Some("0.0.0.0:8080"));
}

#[test]
fn a_device_given_as_an_option_is_not_remembered() {
    let rule = name_rule(Some(1), &capture(Some("Old"), None));
    let mode = Some(CaptureMode { width: 10, height: 20, fps: 30 });
    let c = capture_snapshot(&rule, &Some("New".to_string()), 1, mode);
    assert_eq!(c.device_name.as_deref(), Some("Old"));
    assert_eq!((c.device_index, c.width, c.height, c.fps), (Some(1), Some(10), Some(20), Some(30)));
    let rule = name_rule(None, &capture(Some("Old"), None));
    assert!(matches!(rule, NameRule::Learn));
    let c = capture_snapshot(&rule, &Some("New".to_string()), 1, None);
    assert_eq!(c.device_name.as_deref(), Some("New"));
    assert_eq!((c.width, c.height, c.fps), (None, None, None));
}

#[test]
fn the_audio_section_that_is_saved() {
    let a = audio_snapshot(Some(AudioStatus {
        input_name: "in".to_string(),
        output_name: "out".to_string(),
        volume: 80,
        muted: true,
        delay_ms: 5,
        mix_to_mono: true,
    }));
    assert!(a.enabled && a.muted && a.mix_to_mono);
    assert_eq!((a.input_device.as_deref(), a.output_device.as_deref()), (Some("in"), Some("out")));
    assert_eq!((a.volume_percent, a.delay_ms), (80, 5));
    let a = audio_snapshot(None);
    assert!(!a.enabled);
    assert_eq!((a.volume_percent, a.delay_ms), (100, 100));
}

#[test]
fn the_configuration_is_written_when_it_changed() {
    let mut s = ConfigSaver::new();
    assert!(s.changed(""));
    assert!(!s.changed(""));
    assert!(s.changed("a = 1"));
    assert!(!s.changed("a = 1"));
    assert!(s.changed("a = 2"));
    assert!(s.changed("a = 1"));
}

#[test]
fn performance_figures() {
    let mut m = PerfMetrics::new();
    assert_eq!((m.cpu_percent(), m.memory_mb()), (bits(0.0), 0));
    assert_eq!(m.system(), SystemSnapshot::default());
    m.record_process(bits(12.5), 3 * 1024 * 1024 + 5);
    assert_eq!((m.cpu_percent(), m.memory_mb()), (bits(12.5), 3));
    m.record_system(bits(50.0), 1024 * 1024 - 1, u64::MAX);
    let s = m.system();
    assert_eq!((s.total_cpu_percent, s.used_memory_mb), (bits(50.0), 0));
    assert_eq!(s.total_memory_mb, u64::MAX / 1024 / 1024);
    assert_eq!(m.memory_mb(), 3);
}

#[test]
fn time_between_frames() {
    let mut t = LatencyTracker::new();
    assert_eq!(t.mark_capture(1_000), None);
    assert_eq!(t.mark_capture(1_250), Some(250));
    assert_eq!(t.mark_capture(1_100), Some(0));
    assert_eq!(t.mark_capture(1_100), Some(0));
    t.record_interval(bits(16.6));
    t.record_pipeline(bits(4.0));
    assert_eq!((t.capture_interval_ms(), t.pipeline_ms()), (bits(16.6), bits(4.0)));
    assert_eq!(t.last_capture_mark, Some(1_100));
}

#[test]
fn threads_are_boosted_on_windows_only() {
    assert!(bump_capture_thread(false).is_none());
    assert!(bump_render_thread(false).is_none());
    let c = bump_capture_thread(true).unwrap();
    assert_eq!((c.priority, c.task), (Priority::TimeCritical, "Capture"));
    let r = bump_render_thread(true).unwrap();
    assert_eq!((r.priority, r.task), (Priority::Highest, "Games"));
}

#[test]
fn a_copy_of_a_configuration_is_the_same() {
    let mut audio = AudioConfig::default();
    audio.output_device = Some("Headset".to_string());
    let mut c = config_from_runtime(
        &odd_settings(),
        &capture(Some("Card"), Some(5)),
        &audio,
        builtin_color_presets(),
    );
    let copy = c.clone();
    assert_eq!(format!("{:?}", copy), format!("{:?}", c));
    assert_eq!(format!("{:?}", copy.display.clone()), format!("{:?}", c.display));
    c.display.color_presets.clear();
    c.relay.port = 1;
    assert_eq!((copy.display.color_presets.len(), copy.relay.port), (4, 8080));
}
