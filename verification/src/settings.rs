//! Runtime knobs of the preview and the relay.

use vstd::prelude::*;

verus! {

/// A 32-bit float, as its bits. The library carries such values and does not
/// compute with them.
#[derive(Debug, Clone, Copy, PartialEq, Eq, Structural)]
pub struct Float32 {
    pub bits: u32,
}

/// The bits of 0.0.
pub const ZERO: u32 = 0;

/// The bits of 1.0.
pub const ONE: u32 = 0x3f80_0000;

/// The float with these bits.
pub open spec fn float_of(bits: u32) -> Float32 {
    Float32 { bits }
}

/// The float with these bits.
pub fn float(bits: u32) -> (r: Float32)
    ensures
        r == float_of(bits),
{
    Float32 { bits }
}

/// The language of the user interface, by its tag; the default language has
/// none.
#[derive(Debug)]
pub struct Language {
    pub tag: Option<String>,
}

/// A copy of an optional string.
pub(crate) fn copy_text(s: &Option<String>) -> (r: Option<String>)
    ensures
        r == *s,
{
    match s {
        None => None,
        Some(t) => Some(t.clone()),
    }
}

impl Clone for Language {
    fn clone(&self) -> (r: Self)
        ensures
            r == *self,
    {
        Language { tag: copy_text(&self.tag) }
    }
}

impl Default for Language {
    fn default() -> (r: Self)
        ensures
            r == (Language { tag: None }),
    {
        Language { tag: None }
    }
}

/// Runtime knobs shown in the settings overlay.
#[derive(Debug)]
pub struct Settings {
    pub show_panel: bool,
    pub show_stats: bool,
    pub fit_mode: FitMode,
    pub background_color: [Float32; 3],
    pub jpeg_quality: u8,
    /// Monitor-mode toggles. Together they turn the preview window into a
    /// proper second screen for the console.
    pub fullscreen: bool,
    pub borderless: bool,
    pub always_on_top: bool,
    pub hide_cursor: bool,
    pub language: Language,
    pub present_mode: PresentMode,
    pub relay_port: u16,
    pub relay_autostart: bool,
    /// The relay listens on 127.0.0.1 only: nobody else on the network can
    /// reach it.
    pub relay_localhost_only: bool,
    /// Mix all input channels down to one and send it to every output
    /// channel, for cards that deliver the left channel only.
    pub audio_mix_to_mono: bool,
    /// Colour adjustments: brightness from -1 to 1, contrast and saturation
    /// with 1 as identity, hue in degrees.
    pub color_brightness: Float32,
    pub color_contrast: Float32,
    pub color_saturation: Float32,
    pub color_hue_deg: Float32,
    /// An aspect ratio, width and height, in place of the capture's own.
    pub custom_aspect: Option<(u32, u32)>,
    /// Zoom around `pan_x` and `pan_y`; 1 is no zoom.
    pub zoom: Float32,
    pub pan_x: Float32,
    pub pan_y: Float32,
    /// Strength of the scanline effect, from 0 to 1.
    pub crt_strength: Float32,
}

impl Clone for Settings {
    fn clone(&self) -> (r: Self)
        ensures
            r == *self,
    {
        Settings {
            show_panel: self.show_panel,
            show_stats: self.show_stats,
            fit_mode: self.fit_mode,
            background_color: self.background_color,
            jpeg_quality: self.jpeg_quality,
            fullscreen: self.fullscreen,
            borderless: self.borderless,
            always_on_top: self.always_on_top,
            hide_cursor: self.hide_cursor,
            language: self.language.clone(),
            present_mode: self.present_mode,
            relay_port: self.relay_port,
            relay_autostart: self.relay_autostart,
            relay_localhost_only: self.relay_localhost_only,
            audio_mix_to_mono: self.audio_mix_to_mono,
            color_brightness: self.color_brightness,
            color_contrast: self.color_contrast,
            color_saturation: self.color_saturation,
            color_hue_deg: self.color_hue_deg,
            custom_aspect: self.custom_aspect,
            zoom: self.zoom,
            pan_x: self.pan_x,
            pan_y: self.pan_y,
            crt_strength: self.crt_strength,
        }
    }
}

/// How finished frames reach the display.
#[derive(Debug, Clone, Copy, PartialEq, Eq, Structural)]
pub enum PresentMode {
    /// Lowest latency, no vsync, may tear.
    Immediate,
    /// Low latency, no tearing, needs hardware support.
    Mailbox,
    /// Standard vsync, no tearing, slightly higher latency.
    Fifo,
}

/// How the picture fills the window.
#[derive(Debug, Clone, Copy, PartialEq, Eq, Structural)]
pub enum FitMode {
    /// Stretch to fill the window, ignoring the aspect ratio.
    Stretch,
    /// Keep the aspect ratio, letterbox the rest with the background color.
    Fit,
    /// Keep the aspect ratio, fill the window, crop the overflow.
    Fill,
}

/// What the preview is told about the capture.
#[derive(Debug)]
pub struct CaptureInfo {
    pub fps_target: u32,
    pub format_label: String,
}

impl Clone for CaptureInfo {
    fn clone(&self) -> (r: Self)
        ensures
            r == *self,
    {
        CaptureInfo { fps_target: self.fps_target, format_label: self.format_label.clone() }
    }
}

/// The settings of a fresh install. Frames go out at once, for the lowest
/// latency; port 7777 is rarely taken.
pub open spec fn default_settings(background_color: [Float32; 3]) -> Settings {
    Settings {
        show_panel: false,
        show_stats: true,
        fit_mode: FitMode::Fit,
        background_color,
        jpeg_quality: 75,
        fullscreen: false,
        borderless: false,
        always_on_top: false,
        hide_cursor: true,
        language: Language { tag: None },
        present_mode: PresentMode::Immediate,
        relay_port: 7777,
        relay_autostart: false,
        relay_localhost_only: false,
        audio_mix_to_mono: false,
        color_brightness: float_of(ZERO),
        color_contrast: float_of(ONE),
        color_saturation: float_of(ONE),
        color_hue_deg: float_of(ZERO),
        custom_aspect: None,
        zoom: float_of(ONE),
        pan_x: float_of(ZERO),
        pan_y: float_of(ZERO),
        crt_strength: float_of(ZERO),
    }
}

/// A black background.
pub open spec fn is_black(color: [Float32; 3]) -> bool {
    color@ == seq![float_of(ZERO), float_of(ZERO), float_of(ZERO)]
}

impl Default for Settings {
    fn default() -> (r: Self)
        ensures
            is_black(r.background_color),
            r == default_settings(r.background_color),
    {
        let black = [float(ZERO), float(ZERO), float(ZERO)];
        assert(black@ =~= seq![float_of(ZERO), float_of(ZERO), float_of(ZERO)]);
        Settings {
            show_panel: false,
            show_stats: true,
            fit_mode: FitMode::Fit,
            background_color: black,
            jpeg_quality: 75,
            fullscreen: false,
            borderless: false,
            always_on_top: false,
            hide_cursor: true,
            language: Language { tag: None },
            present_mode: PresentMode::Immediate,
            relay_port: 7777,
            relay_autostart: false,
            relay_localhost_only: false,
            audio_mix_to_mono: false,
            color_brightness: float(ZERO),
            color_contrast: float(ONE),
            color_saturation: float(ONE),
            color_hue_deg: float(ZERO),
            custom_aspect: None,
            zoom: float(ONE),
            pan_x: float(ZERO),
            pan_y: float(ZERO),
            crt_strength: float(ZERO),
        }
    }
}

} // verus!
