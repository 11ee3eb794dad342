//! What a start of the program decides, from its options and the persisted
//! configuration, and what the configuration saver writes.

use crate::config::{
    default_audio, settings_from_config, settings_of, AudioConfig, CaptureConfig, Config,
    RelayConfig,
};
use crate::settings::{copy_text, CaptureInfo, Settings};
use crate::text::{append_decimal, decimal, digits_value, lemma_decimal_value, same_text};
use vstd::prelude::*;
use vstd::string::*;

verus! {

/// A capture device that is there right now.
#[derive(Debug)]
pub struct CaptureDevice {
    pub name: String,
    pub index: u32,
}

/// The options that were given on the command line.
#[derive(Debug)]
pub struct LaunchOptions {
    pub device: Option<u32>,
    pub allow_mjpeg: bool,
    pub width: Option<u32>,
    pub height: Option<u32>,
    pub fps: Option<u32>,
    /// The address to serve on.
    pub serve: Option<String>,
    pub quality: u8,
    pub audio: bool,
    pub audio_device: Option<String>,
    pub audio_delay_ms: u32,
}

/// The index of the first device of that name.
pub open spec fn index_of_name(devices: Seq<CaptureDevice>, name: Seq<char>) -> Option<u32>
    decreases devices.len(),
{
    if devices.len() == 0 {
        None
    } else if devices[0].name@ == name {
        Some(devices[0].index)
    } else {
        index_of_name(devices.skip(1), name)
    }
}

/// Looks up the current index of a device by its name.
pub fn resolve_device_by_name(devices: &[CaptureDevice], name: &str) -> (r: Option<u32>)
    ensures
        r == index_of_name(devices@, name@),
{
    assert(devices@.skip(0) =~= devices@);
    let mut i: usize = 0;
    while i < devices.len()
        invariant
            i <= devices@.len(),
            index_of_name(devices@, name@) == index_of_name(devices@.skip(i as int), name@),
        decreases devices@.len() - i,
    {
        assert(devices@.skip(i as int)[0] == devices@[i as int]);
        if same_text(devices[i].name.as_str(), name) {
            return Some(devices[i].index);
        }
        assert(devices@.skip(i as int).skip(1) =~= devices@.skip(i + 1));
        i += 1;
    }
    None
}

/// The name of the first device with that index.
pub open spec fn name_of_index(devices: Seq<CaptureDevice>, index: u32) -> Option<String>
    decreases devices.len(),
{
    if devices.len() == 0 {
        None
    } else if devices[0].index == index {
        Some(devices[0].name)
    } else {
        name_of_index(devices.skip(1), index)
    }
}

/// Looks up the name of a device.
pub fn device_name(devices: &[CaptureDevice], index: u32) -> (r: Option<String>)
    ensures
        r == name_of_index(devices@, index),
{
    assert(devices@.skip(0) =~= devices@);
    let mut i: usize = 0;
    while i < devices.len()
        invariant
            i <= devices@.len(),
            name_of_index(devices@, index) == name_of_index(devices@.skip(i as int), index),
        decreases devices@.len() - i,
    {
        assert(devices@.skip(i as int)[0] == devices@[i as int]);
        if devices[i].index == index {
            return Some(devices[i].name.clone());
        }
        assert(devices@.skip(i as int).skip(1) =~= devices@.skip(i + 1));
        i += 1;
    }
    None
}

/// Which device to open.
#[derive(Debug, Clone, Copy, PartialEq, Eq, Structural)]
pub enum DeviceChoice {
    Use(u32),
    /// Ask the user; without an answer, open the first device.
    AskOrFirst,
    /// Ask the user; without an answer, give up.
    Ask,
}

/// Which device to open: the one given on the command line; else the one of
/// the persisted name, which is more stable than an index; else the one of
/// the persisted index; else the one that the user picks.
pub open spec fn device_choice(
    given: Option<u32>,
    saved_name: Option<String>,
    saved_index: Option<u32>,
    devices: Seq<CaptureDevice>,
) -> DeviceChoice {
    match (given, saved_name, saved_index) {
        (Some(i), _, _) => DeviceChoice::Use(i),
        (None, Some(name), _) => match (index_of_name(devices, name@), saved_index) {
            (Some(i), _) => DeviceChoice::Use(i),
            (None, Some(i)) => DeviceChoice::Use(i),
            (None, None) => DeviceChoice::AskOrFirst,
        },
        (None, None, Some(i)) => DeviceChoice::Use(i),
        (None, None, None) => DeviceChoice::Ask,
    }
}

/// Decides which device to open. `devices` are those that are there, none
/// where they could not be listed.
pub fn choose_device(given: Option<u32>, saved: &CaptureConfig, devices: &[CaptureDevice]) -> (r:
    DeviceChoice)
    ensures
        r == device_choice(given, saved.device_name, saved.device_index, devices@),
{
    if let Some(i) = given {
        return DeviceChoice::Use(i);
    }
    match &saved.device_name {
        Some(name) => match resolve_device_by_name(devices, name.as_str()) {
            Some(i) => DeviceChoice::Use(i),
            None => match saved.device_index {
                Some(i) => DeviceChoice::Use(i),
                None => DeviceChoice::AskOrFirst,
            },
        },
        None => match saved.device_index {
            Some(i) => DeviceChoice::Use(i),
            None => DeviceChoice::Ask,
        },
    }
}

/// The device to open, once the user was asked where that was needed; none
/// where the program gives up.
pub fn settle_device(choice: DeviceChoice, answer: Option<u32>) -> (r: Option<u32>)
    ensures
        r == match choice {
            DeviceChoice::Use(i) => Some(i),
            DeviceChoice::AskOrFirst => Some(
                match answer {
                    Some(i) => i,
                    None => 0,
                },
            ),
            DeviceChoice::Ask => answer,
        },
{
    match choice {
        DeviceChoice::Use(i) => Some(i),
        DeviceChoice::AskOrFirst => match answer {
            Some(i) => Some(i),
            None => Some(0),
        },
        DeviceChoice::Ask => answer,
    }
}

/// What is asked of the capture device.
#[derive(Debug, Clone, Copy, PartialEq, Eq, Structural)]
pub struct CaptureRequest {
    pub device_index: u32,
    pub width: Option<u32>,
    pub height: Option<u32>,
    pub fps: Option<u32>,
    pub force_mjpeg: bool,
}

/// A given value, or else a saved one.
pub open spec fn first_of(given: Option<u32>, saved: Option<u32>) -> Option<u32> {
    match given {
        Some(n) => Some(n),
        None => saved,
    }
}

fn pick_first(given: Option<u32>, saved: Option<u32>) -> (r: Option<u32>)
    ensures
        r == first_of(given, saved),
{
    match given {
        Some(n) => Some(n),
        None => saved,
    }
}

/// What is asked of the device: options win over the configuration.
pub fn capture_request(device_index: u32, options: &LaunchOptions, saved: &CaptureConfig) -> (r:
    CaptureRequest)
    ensures
        r == (CaptureRequest {
            device_index,
            width: first_of(options.width, saved.width),
            height: first_of(options.height, saved.height),
            fps: first_of(options.fps, saved.fps),
            force_mjpeg: options.allow_mjpeg,
        }),
{
    CaptureRequest {
        device_index,
        width: pick_first(options.width, saved.width),
        height: pick_first(options.height, saved.height),
        fps: pick_first(options.fps, saved.fps),
        force_mjpeg: options.allow_mjpeg,
    }
}

/// What the preview is told about the capture. Without a frame rate it aims
/// at 60 frames a second.
pub fn capture_info(options: &LaunchOptions, saved: &CaptureConfig) -> (r: CaptureInfo)
    ensures
        r.fps_target == match first_of(options.fps, saved.fps) {
            Some(n) => n,
            None => 60,
        },
        r.format_label@ == if options.allow_mjpeg {
            "any"@
        } else {
            "raw preferred"@
        },
{
    let fps: u32 = match pick_first(options.fps, saved.fps) {
        Some(n) => n,
        None => 60,
    };
    let label = if options.allow_mjpeg {
        "any".to_owned()
    } else {
        "raw preferred".to_owned()
    };
    CaptureInfo { fps_target: fps, format_label: label }
}

/// The settings to start with: those of the configuration, with the picture
/// quality of the options.
pub fn initial_settings(options: &LaunchOptions, cfg: &Config) -> (r: Settings)
    ensures
        r == (Settings { jpeg_quality: options.quality, ..settings_of(*cfg) }),
{
    let mut s = settings_from_config(cfg);
    s.jpeg_quality = options.quality;
    s
}

/// How sound is passed through.
#[derive(Debug)]
pub struct AudioPlan {
    /// Part of the name of the input device, if there is a preference.
    pub hint: Option<String>,
    pub delay_ms: u32,
    pub volume_percent: u32,
    pub muted: bool,
    pub mix_to_mono: bool,
}

/// The first text that is there.
pub open spec fn first_text(a: Option<String>, b: Option<String>, c: Option<String>) -> Option<
    String,
> {
    if a is Some {
        a
    } else if b is Some {
        b
    } else {
        c
    }
}

/// How sound is passed through, if at all. The input is the one given, else
/// the saved one, else the one named like the video device. A delay other
/// than the usual 100 ms wins over the saved one.
pub fn audio_plan(options: &LaunchOptions, saved: &AudioConfig, video_device: &Option<String>)
    -> (r: Option<AudioPlan>)
    ensures
        r == if options.audio || saved.enabled {
            Some(
                AudioPlan {
                    hint: first_text(options.audio_device, saved.input_device, *video_device),
                    delay_ms: if options.audio_delay_ms != 100 {
                        options.audio_delay_ms
                    } else {
                        saved.delay_ms
                    },
                    volume_percent: saved.volume_percent,
                    muted: saved.muted,
                    mix_to_mono: saved.mix_to_mono,
                },
            )
        } else {
            None::<AudioPlan>
        },
{
    if !(options.audio || saved.enabled) {
        return None;
    }
    let hint = if options.audio_device.is_some() {
        copy_text(&options.audio_device)
    } else if saved.input_device.is_some() {
        copy_text(&saved.input_device)
    } else {
        copy_text(video_device)
    };
    Some(
        AudioPlan {
            hint,
            delay_ms: if options.audio_delay_ms != 100 {
                options.audio_delay_ms
            } else {
                saved.delay_ms
            },
            volume_percent: saved.volume_percent,
            muted: saved.muted,
            mix_to_mono: saved.mix_to_mono,
        },
    )
}

/// The output device to switch to: the saved one, where it has a name and is
/// not the current one.
pub fn output_to_restore(saved: &AudioConfig, current: &str) -> (r: Option<String>)
    ensures
        r == match saved.output_device {
            Some(out) if out@.len() > 0 && out@ != current@ => Some(out),
            _ => None::<String>,
        },
{
    match &saved.output_device {
        Some(out) => {
            if out.as_str().unicode_len() > 0 && !same_text(out.as_str(), current) {
                Some(out.clone())
            } else {
                None
            }
        },
        None => None,
    }
}

/// The address that an autostarted relay listens on.
pub open spec fn autostart_addr(saved: RelayConfig) -> Seq<char> {
    if saved.localhost_only {
        "127.0.0.1:"@ + decimal(saved.port as nat)
    } else {
        "0.0.0.0:"@ + decimal(saved.port as nat)
    }
}

/// The address to serve on, if the relay is to start: the one given, else
/// that of the configuration where it says so.
pub fn relay_addr(options: &LaunchOptions, saved: &RelayConfig) -> (r: Option<String>)
    ensures
        match options.serve {
            Some(addr) => r == Some(addr),
            None => {
                &&& r is Some <==> saved.autostart
                &&& r matches Some(addr) ==> addr@ == autostart_addr(*saved)
            },
        },
{
    match &options.serve {
        Some(addr) => Some(addr.clone()),
        None => {
            if !saved.autostart {
                return None;
            }
            let mut s = String::new();
            if saved.localhost_only {
                s.append("127.0.0.1:");
            } else {
                s.append("0.0.0.0:");
            }
            append_decimal(&mut s, saved.port as u64);
            assert(s@ =~= autostart_addr(*saved));
            Some(s)
        },
    }
}

/// The mode that the device is in.
#[derive(Debug, Clone, Copy, PartialEq, Eq, Structural)]
pub struct CaptureMode {
    pub width: u32,
    pub height: u32,
    pub fps: u32,
}

/// Which device name the saver writes.
#[derive(Debug)]
pub enum NameRule {
    /// The name of the open device.
    Learn,
    /// The name that was saved before: the device was given on the command
    /// line, for this session only.
    Keep(Option<String>),
}

/// Decides which device name the saver writes. A device that was given as an
/// option is a one-time choice; the saved name stays.
pub fn name_rule(given: Option<u32>, saved: &CaptureConfig) -> (r: NameRule)
    ensures
        r == match given {
            None => NameRule::Learn,
            Some(_) => NameRule::Keep(saved.device_name),
        },
{
    match given {
        None => NameRule::Learn,
        Some(_) => NameRule::Keep(copy_text(&saved.device_name)),
    }
}

/// The capture section to save.
pub fn capture_snapshot(
    rule: &NameRule,
    current_name: &Option<String>,
    device_index: u32,
    mode: Option<CaptureMode>,
) -> (r: CaptureConfig)
    ensures
        r == (CaptureConfig {
            device_name: match *rule {
                NameRule::Learn => *current_name,
                NameRule::Keep(name) => name,
            },
            device_index: Some(device_index),
            width: match mode {
                Some(m) => Some(m.width),
                None => None,
            },
            height: match mode {
                Some(m) => Some(m.height),
                None => None,
            },
            fps: match mode {
                Some(m) => Some(m.fps),
                None => None,
            },
        }),
{
    let name = match rule {
        NameRule::Learn => copy_text(current_name),
        NameRule::Keep(name) => copy_text(name),
    };
    let (width, height, fps) = match mode {
        Some(m) => (Some(m.width), Some(m.height), Some(m.fps)),
        None => (None, None, None),
    };
    CaptureConfig { device_name: name, device_index: Some(device_index), width, height, fps }
}

/// The state of running sound.
#[derive(Debug)]
pub struct AudioStatus {
    pub input_name: String,
    pub output_name: String,
    pub volume: u32,
    pub muted: bool,
    pub delay_ms: u32,
    pub mix_to_mono: bool,
}

/// The audio section to save.
pub fn audio_snapshot(status: Option<AudioStatus>) -> (r: AudioConfig)
    ensures
        r == match status {
            Some(s) => AudioConfig {
                enabled: true,
                input_device: Some(s.input_name),
                output_device: Some(s.output_name),
                volume_percent: s.volume,
                muted: s.muted,
                delay_ms: s.delay_ms,
                mix_to_mono: s.mix_to_mono,
            },
            None => AudioConfig { enabled: false, ..default_audio() },
        },
{
    match status {
        Some(s) => AudioConfig {
            enabled: true,
            input_device: Some(s.input_name),
            output_device: Some(s.output_name),
            volume_percent: s.volume,
            muted: s.muted,
            delay_ms: s.delay_ms,
            mix_to_mono: s.mix_to_mono,
        },
        None => {
            let mut off = AudioConfig::default();
            off.enabled = false;
            off
        },
    }
}

/// Decides when the configuration is written: when its text differs from the
/// one that was written last.
pub struct ConfigSaver {
    last_saved: Option<String>,
}

impl View for ConfigSaver {
    type V = Option<Seq<char>>;

    closed spec fn view(&self) -> Option<Seq<char>> {
        match self.last_saved {
            None => None,
            Some(s) => Some(s@),
        }
    }
}

impl ConfigSaver {
    /// Nothing written yet.
    pub fn new() -> (r: Self)
        ensures
            r@ is None,
    {
        ConfigSaver { last_saved: None }
    }

    /// Whether to write the configuration with this text. It counts as
    /// written even where writing fails.
    pub fn changed(&mut self, text: &str) -> (r: bool)
        ensures
            r == (old(self)@ != Some(text@)),
            final(self)@ == Some(text@),
    {
        let same = match &self.last_saved {
            Some(s) => same_text(s.as_str(), text),
            None => false,
        };
        if same {
            assert(self@ == Some(text@));
            return false;
        }
        self.last_saved = Some(text.to_owned());
        true
    }
}

/// The device that was asked for opens, and the one that was saved opens
/// again, wherever it is now.
pub proof fn lemma_device_is_found(
    given: Option<u32>,
    name: String,
    saved_index: Option<u32>,
    devices: Seq<CaptureDevice>,
    k: int,
)
    requires
        0 <= k < devices.len(),
        devices[k].name@ == name@,
        forall|i: int| 0 <= i < k ==> (#[trigger] devices[i]).name@ != name@,
    ensures
        device_choice(given, Some(name), saved_index, devices) == DeviceChoice::Use(
            match given {
                Some(i) => i,
                None => devices[k].index,
            },
        ),
{
    lemma_first_of_name(devices, name@, k);
}

proof fn lemma_first_of_name(devices: Seq<CaptureDevice>, name: Seq<char>, k: int)
    requires
        0 <= k < devices.len(),
        devices[k].name@ == name,
        forall|i: int| 0 <= i < k ==> (#[trigger] devices[i]).name@ != name,
    ensures
        index_of_name(devices, name) == Some(devices[k].index),
    decreases devices.len(),
{
    if k > 0 {
        assert(devices[0].name@ != name);
        let rest = devices.skip(1);
        assert(rest[k - 1] == devices[k]);
        assert forall|i: int| 0 <= i < k - 1 implies (#[trigger] rest[i]).name@ != name by {
            assert(rest[i] == devices[i + 1]);
        }
        lemma_first_of_name(rest, name, k - 1);
    }
}

/// The name that is found for an index is that of the first device with it.
pub proof fn lemma_name_is_found(devices: Seq<CaptureDevice>, index: u32, k: int)
    requires
        0 <= k < devices.len(),
        devices[k].index == index,
        forall|i: int| 0 <= i < k ==> (#[trigger] devices[i]).index != index,
    ensures
        name_of_index(devices, index) == Some(devices[k].name),
    decreases devices.len(),
{
    if k > 0 {
        assert(devices[0].index != index);
        let rest = devices.skip(1);
        assert(rest[k - 1] == devices[k]);
        assert forall|i: int| 0 <= i < k - 1 implies (#[trigger] rest[i]).index != index by {
            assert(rest[i] == devices[i + 1]);
        }
        lemma_name_is_found(rest, index, k - 1);
    }
}

/// What is given wins over what was saved, and what was saved is used where
/// nothing is given.
pub proof fn lemma_given_wins(given: Option<u32>, saved: Option<u32>)
    ensures
        given is Some ==> first_of(given, saved) == given,
        given is None ==> first_of(given, saved) == saved,
{
}

/// Where the saved device is not there, its saved index is used, and without
/// one the user is asked; a fresh start asks and needs an answer.
pub proof fn lemma_device_fallback(name: String, index: u32, devices: Seq<CaptureDevice>)
    requires
        forall|i: int| 0 <= i < devices.len() ==> (#[trigger] devices[i]).name@ != name@,
    ensures
        device_choice(None, Some(name), Some(index), devices) == DeviceChoice::Use(index),
        device_choice(None, Some(name), None, devices) == DeviceChoice::AskOrFirst,
        device_choice(None, None, Some(index), devices) == DeviceChoice::Use(index),
        device_choice(None, None, None, devices) == DeviceChoice::Ask,
        device_choice(Some(index), Some(name), None, devices) == DeviceChoice::Use(index),
{
    lemma_no_such_name(devices, name@);
}

proof fn lemma_no_such_name(devices: Seq<CaptureDevice>, name: Seq<char>)
    requires
        forall|i: int| 0 <= i < devices.len() ==> (#[trigger] devices[i]).name@ != name,
    ensures
        index_of_name(devices, name) is None,
    decreases devices.len(),
{
    if devices.len() > 0 {
        assert(devices[0].name@ != name);
        let rest = devices.skip(1);
        assert forall|i: int| 0 <= i < rest.len() implies (#[trigger] rest[i]).name@ != name by {
            assert(rest[i] == devices[i + 1]);
        }
        lemma_no_such_name(rest, name);
    }
}

/// An autostarted relay listens on the saved port, and other machines reach it
/// exactly where they are meant to.
pub proof fn lemma_autostart_port(saved: RelayConfig)
    ensures
        ({
            let front = if saved.localhost_only {
                "127.0.0.1:"@
            } else {
                "0.0.0.0:"@
            };
            let addr = autostart_addr(saved);
            &&& addr.take(front.len() as int) == front
            &&& addr.len() > front.len()
            &&& digits_value(addr.skip(front.len() as int)) == saved.port
        }),
{
    let front = if saved.localhost_only {
        "127.0.0.1:"@
    } else {
        "0.0.0.0:"@
    };
    let addr = autostart_addr(saved);
    lemma_decimal_value(saved.port as nat);
    assert(addr.take(front.len() as int) =~= front);
    assert(addr.skip(front.len() as int) =~= decimal(saved.port as nat));
}

} // verus!
