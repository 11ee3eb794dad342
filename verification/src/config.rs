//! The persisted form of everything the settings overlay can change, and how
//! it relates to the runtime settings.

use crate::settings::{
    copy_text, default_settings, float, float_of, is_black, FitMode, Float32, Language,
    PresentMode, Settings, ONE, ZERO,
};
use vstd::prelude::*;
use vstd::string::*;

verus! {

/// Persisted form of the settings. The runtime form (`Settings`) is derived
/// from it on every start and saved back on changes.
#[derive(Debug)]
pub struct Config {
    pub language: Language,
    pub display: DisplayConfig,
    pub monitor: MonitorConfig,
    pub relay: RelayConfig,
    pub capture: CaptureConfig,
    pub audio: AudioConfig,
}

#[derive(Debug)]
pub struct DisplayConfig {
    pub fit_mode: FitModeIo,
    pub show_stats: bool,
    pub background_color: [Float32; 3],
    pub present_mode: PresentMode,
    pub color_brightness: Float32,
    pub color_contrast: Float32,
    pub color_saturation: Float32,
    pub color_hue_deg: Float32,
    pub crt_strength: Float32,
    pub custom_aspect_w: u32,
    pub custom_aspect_h: u32,
    pub use_custom_aspect: bool,
    pub zoom: Float32,
    pub pan_x: Float32,
    pub pan_y: Float32,
    /// Named colour presets, under labels that the user chose.
    pub color_presets: Vec<ColorPreset>,
}

#[derive(Debug)]
pub struct ColorPreset {
    pub name: String,
    pub brightness: Float32,
    pub contrast: Float32,
    pub saturation: Float32,
    pub hue_deg: Float32,
}

#[derive(Debug, Clone, Copy, PartialEq, Eq, Structural)]
pub struct MonitorConfig {
    pub fullscreen: bool,
    pub borderless: bool,
    pub always_on_top: bool,
    pub hide_cursor: bool,
}

#[derive(Debug, Clone, Copy, PartialEq, Eq, Structural)]
pub struct RelayConfig {
    pub jpeg_quality: u8,
    pub port: u16,
    pub autostart: bool,
    pub localhost_only: bool,
}

#[derive(Debug)]
pub struct CaptureConfig {
    /// The device's human-readable name. Preferred over `device_index` on
    /// reload, because device indices can change after a reboot or a driver
    /// update.
    pub device_name: Option<String>,
    pub device_index: Option<u32>,
    pub width: Option<u32>,
    pub height: Option<u32>,
    pub fps: Option<u32>,
}

#[derive(Debug)]
pub struct AudioConfig {
    pub enabled: bool,
    pub input_device: Option<String>,
    pub output_device: Option<String>,
    pub volume_percent: u32,
    pub muted: bool,
    pub delay_ms: u32,
    pub mix_to_mono: bool,
}

/// The persisted form of `FitMode`.
#[derive(Debug, Clone, Copy, PartialEq, Eq, Structural)]
pub enum FitModeIo {
    Stretch,
    Fit,
    Fill,
}

/// The persisted form of a fit mode.
pub open spec fn fit_io(m: FitMode) -> FitModeIo {
    match m {
        FitMode::Stretch => FitModeIo::Stretch,
        FitMode::Fit => FitModeIo::Fit,
        FitMode::Fill => FitModeIo::Fill,
    }
}

/// The fit mode of a persisted form.
pub open spec fn fit_of(m: FitModeIo) -> FitMode {
    match m {
        FitModeIo::Stretch => FitMode::Stretch,
        FitModeIo::Fit => FitMode::Fit,
        FitModeIo::Fill => FitMode::Fill,
    }
}

impl From<FitMode> for FitModeIo {
    fn from(m: FitMode) -> (r: Self) {
        match m {
            FitMode::Stretch => FitModeIo::Stretch,
            FitMode::Fit => FitModeIo::Fit,
            FitMode::Fill => FitModeIo::Fill,
        }
    }
}

impl vstd::std_specs::convert::FromSpecImpl<FitMode> for FitModeIo {
    open spec fn obeys_from_spec() -> bool {
        true
    }

    open spec fn from_spec(m: FitMode) -> Self {
        fit_io(m)
    }
}

impl From<FitModeIo> for FitMode {
    fn from(m: FitModeIo) -> (r: Self) {
        match m {
            FitModeIo::Stretch => FitMode::Stretch,
            FitModeIo::Fit => FitMode::Fit,
            FitModeIo::Fill => FitMode::Fill,
        }
    }
}

impl vstd::std_specs::convert::FromSpecImpl<FitModeIo> for FitMode {
    open spec fn obeys_from_spec() -> bool {
        true
    }

    open spec fn from_spec(m: FitModeIo) -> Self {
        fit_of(m)
    }
}

impl Clone for CaptureConfig {
    fn clone(&self) -> (r: Self)
        ensures
            r == *self,
    {
        CaptureConfig {
            device_name: copy_text(&self.device_name),
            device_index: self.device_index,
            width: self.width,
            height: self.height,
            fps: self.fps,
        }
    }
}

impl Clone for AudioConfig {
    fn clone(&self) -> (r: Self)
        ensures
            r == *self,
    {
        AudioConfig {
            enabled: self.enabled,
            input_device: copy_text(&self.input_device),
            output_device: copy_text(&self.output_device),
            volume_percent: self.volume_percent,
            muted: self.muted,
            delay_ms: self.delay_ms,
            mix_to_mono: self.mix_to_mono,
        }
    }
}

impl Clone for ColorPreset {
    fn clone(&self) -> (r: Self)
        ensures
            r == *self,
    {
        ColorPreset {
            name: self.name.clone(),
            brightness: self.brightness,
            contrast: self.contrast,
            saturation: self.saturation,
            hue_deg: self.hue_deg,
        }
    }
}

/// A list of presets, one by one the same as another.
pub fn copy_presets(presets: &[ColorPreset]) -> (r: Vec<ColorPreset>)
    ensures
        r@ == presets@,
{
    let mut out: Vec<ColorPreset> = Vec::new();
    for i in 0..presets.len()
        invariant
            out@ == presets@.take(i as int),
    {
        out.push(presets[i].clone());
        assert(out@ =~= presets@.take(i + 1));
    }
    assert(presets@.take(presets@.len() as int) =~= presets@);
    out
}

/// Whether two display sections are the same: every field, and the presets one
/// by one.
pub open spec fn same_display(a: DisplayConfig, b: DisplayConfig) -> bool {
    &&& a.color_presets@ == b.color_presets@
    &&& a == DisplayConfig { color_presets: a.color_presets, ..b }
}

impl Clone for DisplayConfig {
    fn clone(&self) -> (r: Self)
        ensures
            same_display(r, *self),
    {
        DisplayConfig {
            fit_mode: self.fit_mode,
            show_stats: self.show_stats,
            background_color: self.background_color,
            present_mode: self.present_mode,
            color_brightness: self.color_brightness,
            color_contrast: self.color_contrast,
            color_saturation: self.color_saturation,
            color_hue_deg: self.color_hue_deg,
            crt_strength: self.crt_strength,
            custom_aspect_w: self.custom_aspect_w,
            custom_aspect_h: self.custom_aspect_h,
            use_custom_aspect: self.use_custom_aspect,
            zoom: self.zoom,
            pan_x: self.pan_x,
            pan_y: self.pan_y,
            color_presets: copy_presets(self.color_presets.as_slice()),
        }
    }
}

impl Clone for Config {
    fn clone(&self) -> (r: Self)
        ensures
            same_display(r.display, self.display),
            r == (Config { display: r.display, ..*self }),
    {
        Config {
            language: self.language.clone(),
            display: self.display.clone(),
            monitor: self.monitor,
            relay: self.relay,
            capture: self.capture.clone(),
            audio: self.audio.clone(),
        }
    }
}

/// Whether a preset has this name and these values (as bits).
pub open spec fn preset_is(
    p: ColorPreset,
    name: Seq<char>,
    brightness: u32,
    contrast: u32,
    saturation: u32,
    hue_deg: u32,
) -> bool {
    &&& p.name@ == name
    &&& p.brightness == float_of(brightness)
    &&& p.contrast == float_of(contrast)
    &&& p.saturation == float_of(saturation)
    &&& p.hue_deg == float_of(hue_deg)
}

impl Default for ColorPreset {
    fn default() -> (r: Self)
        ensures
            preset_is(r, Seq::empty(), ZERO, ZERO, ZERO, ZERO),
    {
        let name = String::new();
        assert(name@ =~= Seq::<char>::empty());
        ColorPreset {
            name,
            brightness: float(ZERO),
            contrast: float(ZERO),
            saturation: float(ZERO),
            hue_deg: float(ZERO),
        }
    }
}

/// The presets of a fresh install.
pub open spec fn is_builtin(presets: Seq<ColorPreset>) -> bool {
    &&& presets.len() == 4
    &&& preset_is(presets[0], "Neutral"@, ZERO, ONE, ONE, ZERO)
    // 0.02, 1.08, 1.15, 0
    &&& preset_is(
        presets[1],
        "Switch (punchier)"@,
        0x3ca3_d70a,
        0x3f8a_3d71,
        0x3f93_3333,
        ZERO,
    )
    // 0, 1.05, 0.95, 8
    &&& preset_is(presets[2], "Retro warm"@, ZERO, 0x3f86_6666, 0x3f73_3333, 0x4100_0000)
    // 0, 1, 1, -8
    &&& preset_is(presets[3], "Cool"@, ZERO, ONE, ONE, 0xc100_0000)
}

/// One preset.
fn preset(name: &str, brightness: u32, contrast: u32, saturation: u32, hue_deg: u32) -> (r:
    ColorPreset)
    ensures
        preset_is(r, name@, brightness, contrast, saturation, hue_deg),
{
    let mut label = String::new();
    label.append(name);
    assert(label@ =~= name@);
    ColorPreset {
        name: label,
        brightness: float(brightness),
        contrast: float(contrast),
        saturation: float(saturation),
        hue_deg: float(hue_deg),
    }
}

/// A few named presets out of the box, so that the list is not empty on the
/// first run.
pub fn builtin_color_presets() -> (r: Vec<ColorPreset>)
    ensures
        is_builtin(r@),
{
    let mut v: Vec<ColorPreset> = Vec::new();
    v.push(preset("Neutral", ZERO, ONE, ONE, ZERO));
    v.push(preset("Switch (punchier)", 0x3ca3_d70a, 0x3f8a_3d71, 0x3f93_3333, ZERO));
    v.push(preset("Retro warm", ZERO, 0x3f86_6666, 0x3f73_3333, 0x4100_0000));
    v.push(preset("Cool", ZERO, ONE, ONE, 0xc100_0000));
    v
}

/// The display section of a fresh install.
pub open spec fn default_display(
    background_color: [Float32; 3],
    color_presets: Vec<ColorPreset>,
) -> DisplayConfig {
    DisplayConfig {
        fit_mode: FitModeIo::Fit,
        show_stats: true,
        background_color,
        present_mode: PresentMode::Immediate,
        color_brightness: float_of(ZERO),
        color_contrast: float_of(ONE),
        color_saturation: float_of(ONE),
        color_hue_deg: float_of(ZERO),
        crt_strength: float_of(ZERO),
        custom_aspect_w: 4,
        custom_aspect_h: 3,
        use_custom_aspect: false,
        zoom: float_of(ONE),
        pan_x: float_of(ZERO),
        pan_y: float_of(ZERO),
        color_presets,
    }
}

impl Default for DisplayConfig {
    fn default() -> (r: Self)
        ensures
            is_black(r.background_color),
            is_builtin(r.color_presets@),
            r == default_display(r.background_color, r.color_presets),
    {
        let s = Settings::default();
        DisplayConfig {
            fit_mode: FitModeIo::from(s.fit_mode),
            show_stats: s.show_stats,
            background_color: s.background_color,
            present_mode: s.present_mode,
            color_brightness: s.color_brightness,
            color_contrast: s.color_contrast,
            color_saturation: s.color_saturation,
            color_hue_deg: s.color_hue_deg,
            crt_strength: s.crt_strength,
            custom_aspect_w: 4,
            custom_aspect_h: 3,
            use_custom_aspect: false,
            zoom: s.zoom,
            pan_x: s.pan_x,
            pan_y: s.pan_y,
            color_presets: builtin_color_presets(),
        }
    }
}

/// The monitor section of a fresh install.
pub open spec fn default_monitor() -> MonitorConfig {
    MonitorConfig { fullscreen: false, borderless: false, always_on_top: false, hide_cursor: true }
}

impl Default for MonitorConfig {
    fn default() -> (r: Self)
        ensures
            r == default_monitor(),
    {
        let s = Settings::default();
        MonitorConfig {
            fullscreen: s.fullscreen,
            borderless: s.borderless,
            always_on_top: s.always_on_top,
            hide_cursor: s.hide_cursor,
        }
    }
}

/// The relay section of a fresh install.
pub open spec fn default_relay() -> RelayConfig {
    RelayConfig { jpeg_quality: 75, port: 7777, autostart: false, localhost_only: false }
}

impl Default for RelayConfig {
    fn default() -> (r: Self)
        ensures
            r == default_relay(),
    {
        RelayConfig { jpeg_quality: 75, port: 7777, autostart: false, localhost_only: false }
    }
}

/// The capture section of a fresh install.
pub open spec fn default_capture() -> CaptureConfig {
    CaptureConfig { device_name: None, device_index: None, width: None, height: None, fps: None }
}

impl Default for CaptureConfig {
    fn default() -> (r: Self)
        ensures
            r == default_capture(),
    {
        CaptureConfig {
            device_name: None,
            device_index: None,
            width: None,
            height: None,
            fps: None,
        }
    }
}

/// The audio section of a fresh install: passthrough is on, so that the
/// capture card is heard at once.
pub open spec fn default_audio() -> AudioConfig {
    AudioConfig {
        enabled: true,
        input_device: None,
        output_device: None,
        volume_percent: 100,
        muted: false,
        delay_ms: 100,
        mix_to_mono: false,
    }
}

impl Default for AudioConfig {
    fn default() -> (r: Self)
        ensures
            r == default_audio(),
    {
        AudioConfig {
            enabled: true,
            input_device: None,
            output_device: None,
            volume_percent: 100,
            muted: false,
            delay_ms: 100,
            mix_to_mono: false,
        }
    }
}

/// Whether this is the configuration of a fresh install.
pub open spec fn is_default(c: Config) -> bool {
    &&& is_black(c.display.background_color)
    &&& is_builtin(c.display.color_presets@)
    &&& c == Config {
        language: Language { tag: None },
        display: default_display(c.display.background_color, c.display.color_presets),
        monitor: default_monitor(),
        relay: default_relay(),
        capture: default_capture(),
        audio: default_audio(),
    }
}

impl Default for Config {
    fn default() -> (r: Self)
        ensures
            is_default(r),
    {
        let s = Settings::default();
        Config {
            language: s.language,
            display: DisplayConfig::default(),
            monitor: MonitorConfig {
                fullscreen: s.fullscreen,
                borderless: s.borderless,
                always_on_top: s.always_on_top,
                hide_cursor: s.hide_cursor,
            },
            relay: RelayConfig {
                jpeg_quality: s.jpeg_quality,
                port: s.relay_port,
                autostart: s.relay_autostart,
                localhost_only: s.relay_localhost_only,
            },
            capture: CaptureConfig::default(),
            audio: AudioConfig::default(),
        }
    }
}

/// The configuration to start with: what was read, or that of a fresh
/// install where there was nothing to read or it could not be understood.
pub fn load(read: Option<Config>) -> (r: Config)
    ensures
        match read {
            Some(c) => r == c,
            None => is_default(r),
        },
{
    match read {
        Some(c) => c,
        None => Config::default(),
    }
}

/// The runtime settings of a configuration. The panel is always hidden, so
/// that the user sees video on launch.
pub open spec fn settings_of(c: Config) -> Settings {
    Settings {
        show_panel: false,
        show_stats: c.display.show_stats,
        fit_mode: fit_of(c.display.fit_mode),
        background_color: c.display.background_color,
        jpeg_quality: c.relay.jpeg_quality,
        fullscreen: c.monitor.fullscreen,
        borderless: c.monitor.borderless,
        always_on_top: c.monitor.always_on_top,
        hide_cursor: c.monitor.hide_cursor,
        language: c.language,
        present_mode: c.display.present_mode,
        relay_port: c.relay.port,
        relay_autostart: c.relay.autostart,
        relay_localhost_only: c.relay.localhost_only,
        audio_mix_to_mono: c.audio.mix_to_mono,
        color_brightness: c.display.color_brightness,
        color_contrast: c.display.color_contrast,
        color_saturation: c.display.color_saturation,
        color_hue_deg: c.display.color_hue_deg,
        custom_aspect: if c.display.use_custom_aspect {
            Some((c.display.custom_aspect_w, c.display.custom_aspect_h))
        } else {
            None
        },
        zoom: c.display.zoom,
        pan_x: c.display.pan_x,
        pan_y: c.display.pan_y,
        crt_strength: c.display.crt_strength,
    }
}

/// Builds the runtime settings from a configuration.
pub fn settings_from_config(cfg: &Config) -> (r: Settings)
    ensures
        r == settings_of(*cfg),
{
    Settings {
        show_panel: false,
        show_stats: cfg.display.show_stats,
        fit_mode: FitMode::from(cfg.display.fit_mode),
        background_color: cfg.display.background_color,
        jpeg_quality: cfg.relay.jpeg_quality,
        fullscreen: cfg.monitor.fullscreen,
        borderless: cfg.monitor.borderless,
        always_on_top: cfg.monitor.always_on_top,
        hide_cursor: cfg.monitor.hide_cursor,
        language: cfg.language.clone(),
        present_mode: cfg.display.present_mode,
        relay_port: cfg.relay.port,
        relay_autostart: cfg.relay.autostart,
        relay_localhost_only: cfg.relay.localhost_only,
        audio_mix_to_mono: cfg.audio.mix_to_mono,
        color_brightness: cfg.display.color_brightness,
        color_contrast: cfg.display.color_contrast,
        color_saturation: cfg.display.color_saturation,
        color_hue_deg: cfg.display.color_hue_deg,
        custom_aspect: if cfg.display.use_custom_aspect {
            Some((cfg.display.custom_aspect_w, cfg.display.custom_aspect_h))
        } else {
            None
        },
        zoom: cfg.display.zoom,
        pan_x: cfg.display.pan_x,
        pan_y: cfg.display.pan_y,
        crt_strength: cfg.display.crt_strength,
    }
}

/// The configuration that saves the runtime state.
pub open spec fn config_of(
    s: Settings,
    capture: CaptureConfig,
    audio: AudioConfig,
    presets: Vec<ColorPreset>,
) -> Config {
    Config {
        language: s.language,
        display: DisplayConfig {
            fit_mode: fit_io(s.fit_mode),
            show_stats: s.show_stats,
            background_color: s.background_color,
            present_mode: s.present_mode,
            color_brightness: s.color_brightness,
            color_contrast: s.color_contrast,
            color_saturation: s.color_saturation,
            color_hue_deg: s.color_hue_deg,
            crt_strength: s.crt_strength,
            custom_aspect_w: match s.custom_aspect {
                Some((w, _)) => w,
                None => 4,
            },
            custom_aspect_h: match s.custom_aspect {
                Some((_, h)) => h,
                None => 3,
            },
            use_custom_aspect: s.custom_aspect is Some,
            zoom: s.zoom,
            pan_x: s.pan_x,
            pan_y: s.pan_y,
            color_presets: presets,
        },
        monitor: MonitorConfig {
            fullscreen: s.fullscreen,
            borderless: s.borderless,
            always_on_top: s.always_on_top,
            hide_cursor: s.hide_cursor,
        },
        relay: RelayConfig {
            jpeg_quality: s.jpeg_quality,
            port: s.relay_port,
            autostart: s.relay_autostart,
            localhost_only: s.relay_localhost_only,
        },
        capture,
        audio,
    }
}

/// Snapshots the runtime state for saving. The colour presets live in the
/// configuration only, so they are handed through.
pub fn config_from_runtime(
    s: &Settings,
    capture: &CaptureConfig,
    audio: &AudioConfig,
    prior_presets: Vec<ColorPreset>,
) -> (r: Config)
    ensures
        r == config_of(*s, *capture, *audio, prior_presets),
{
    let (use_aspect, aw, ah): (bool, u32, u32) = match s.custom_aspect {
        Some((w, h)) => (true, w, h),
        None => (false, 4, 3),
    };
    Config {
        language: s.language.clone(),
        display: DisplayConfig {
            fit_mode: FitModeIo::from(s.fit_mode),
            show_stats: s.show_stats,
            background_color: s.background_color,
            present_mode: s.present_mode,
            color_brightness: s.color_brightness,
            color_contrast: s.color_contrast,
            color_saturation: s.color_saturation,
            color_hue_deg: s.color_hue_deg,
            crt_strength: s.crt_strength,
            custom_aspect_w: aw,
            custom_aspect_h: ah,
            use_custom_aspect: use_aspect,
            zoom: s.zoom,
            pan_x: s.pan_x,
            pan_y: s.pan_y,
            color_presets: prior_presets,
        },
        monitor: MonitorConfig {
            fullscreen: s.fullscreen,
            borderless: s.borderless,
            always_on_top: s.always_on_top,
            hide_cursor: s.hide_cursor,
        },
        relay: RelayConfig {
            jpeg_quality: s.jpeg_quality,
            port: s.relay_port,
            autostart: s.relay_autostart,
            localhost_only: s.relay_localhost_only,
        },
        capture: capture.clone(),
        audio: audio.clone(),
    }
}

/// A fit mode survives being saved and read, and so does its persisted form.
pub proof fn lemma_fit_mode_round_trip(m: FitMode, io: FitModeIo)
    ensures
        fit_of(fit_io(m)) == m,
        fit_io(fit_of(io)) == io,
{
}

/// Settings that are saved come back at the next start, but for the panel,
/// which is hidden again, and the mono mix, which the audio section keeps.
pub proof fn lemma_settings_survive(
    s: Settings,
    capture: CaptureConfig,
    audio: AudioConfig,
    presets: Vec<ColorPreset>,
)
    ensures
        settings_of(config_of(s, capture, audio, presets)) == (Settings {
            show_panel: false,
            audio_mix_to_mono: audio.mix_to_mono,
            ..s
        }),
{
}

/// A configuration that is loaded and saved without a change stays as it is,
/// but for an aspect ratio that is not in use: that one goes back to 4:3.
pub proof fn lemma_config_survives(c: Config)
    ensures
        config_of(settings_of(c), c.capture, c.audio, c.display.color_presets) == (Config {
            display: DisplayConfig {
                custom_aspect_w: if c.display.use_custom_aspect {
                    c.display.custom_aspect_w
                } else {
                    4
                },
                custom_aspect_h: if c.display.use_custom_aspect {
                    c.display.custom_aspect_h
                } else {
                    3
                },
                ..c.display
            },
            ..c
        }),
{
}

/// Saving what was loaded settles at once: a second round changes nothing.
pub proof fn lemma_saving_settles(c: Config)
    ensures
        ({
            let once = config_of(settings_of(c), c.capture, c.audio, c.display.color_presets);
            config_of(settings_of(once), once.capture, once.audio, once.display.color_presets)
                == once
        }),
{
}

/// A fresh install starts with the default settings.
pub proof fn lemma_fresh_install(c: Config)
    requires
        is_default(c),
    ensures
        settings_of(c) == default_settings(c.display.background_color),
        is_black(settings_of(c).background_color),
{
}

/// Each runtime setting comes from the field of the configuration that is
/// named after it.
pub proof fn lemma_settings_come_from_their_fields(c: Config)
    ensures
        ({
            let s = settings_of(c);
            &&& !s.show_panel
            &&& s.audio_mix_to_mono == c.audio.mix_to_mono
            &&& s.fit_mode is Stretch <==> c.display.fit_mode is Stretch
            &&& s.fit_mode is Fill <==> c.display.fit_mode is Fill
            &&& s.custom_aspect is Some <==> c.display.use_custom_aspect
            &&& s.custom_aspect matches Some((w, h)) ==> w == c.display.custom_aspect_w && h
                == c.display.custom_aspect_h
            &&& s.show_stats == c.display.show_stats
            &&& s.background_color == c.display.background_color
            &&& s.jpeg_quality == c.relay.jpeg_quality
            &&& s.fullscreen == c.monitor.fullscreen
            &&& s.borderless == c.monitor.borderless
            &&& s.always_on_top == c.monitor.always_on_top
            &&& s.hide_cursor == c.monitor.hide_cursor
            &&& s.language == c.language
            &&& s.present_mode == c.display.present_mode
            &&& s.relay_port == c.relay.port
            &&& s.relay_autostart == c.relay.autostart
            &&& s.relay_localhost_only == c.relay.localhost_only
            &&& s.color_brightness == c.display.color_brightness
            &&& s.color_contrast == c.display.color_contrast
            &&& s.color_saturation == c.display.color_saturation
            &&& s.color_hue_deg == c.display.color_hue_deg
            &&& s.zoom == c.display.zoom
            &&& s.pan_x == c.display.pan_x
            &&& s.pan_y == c.display.pan_y
            &&& s.crt_strength == c.display.crt_strength
        }),
{
}

/// Each runtime setting is saved in the field of the configuration that is
/// named after it, and the sections and presets that are handed in are kept.
pub proof fn lemma_settings_go_to_their_fields(
    s: Settings,
    capture: CaptureConfig,
    audio: AudioConfig,
    presets: Vec<ColorPreset>,
)
    ensures
        ({
            let c = config_of(s, capture, audio, presets);
            &&& c.capture == capture && c.audio == audio && c.display.color_presets == presets
            &&& s.fit_mode is Stretch <==> c.display.fit_mode is Stretch
            &&& s.fit_mode is Fill <==> c.display.fit_mode is Fill
            &&& c.display.use_custom_aspect <==> s.custom_aspect is Some
            &&& s.custom_aspect matches Some((w, h)) ==> c.display.custom_aspect_w == w
                && c.display.custom_aspect_h == h
            &&& c.display.show_stats == s.show_stats
            &&& c.display.background_color == s.background_color
            &&& c.relay.jpeg_quality == s.jpeg_quality
            &&& c.monitor.fullscreen == s.fullscreen
            &&& c.monitor.borderless == s.borderless
            &&& c.monitor.always_on_top == s.always_on_top
            &&& c.monitor.hide_cursor == s.hide_cursor
            &&& c.language == s.language
            &&& c.display.present_mode == s.present_mode
            &&& c.relay.port == s.relay_port
            &&& c.relay.autostart == s.relay_autostart
            &&& c.relay.localhost_only == s.relay_localhost_only
            &&& c.display.color_brightness == s.color_brightness
            &&& c.display.color_contrast == s.color_contrast
            &&& c.display.color_saturation == s.color_saturation
            &&& c.display.color_hue_deg == s.color_hue_deg
            &&& c.display.zoom == s.zoom
            &&& c.display.pan_x == s.pan_x
            &&& c.display.pan_y == s.pan_y
            &&& c.display.crt_strength == s.crt_strength
        }),
{
}

} // verus!
