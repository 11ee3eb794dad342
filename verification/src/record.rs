//! Screenshots and recordings.

use crate::calendar::{civil, lemma_timestamp_unique, timestamp, timestamp_chars};
use crate::color::{chroma_index, lemma_blocks_share_chroma, nv12_readable};
use crate::frame::{data_rgb, encodable, frame_to_rgb, Frame};
use crate::media::{encode_png, png_bytes, png_size, EncodeError};
use vstd::prelude::*;
use vstd::string::*;

verus! {

/// The name of a file made at `secs` seconds after the epoch.
pub open spec fn file_chars(secs: u64, extension: Seq<char>) -> Seq<char> {
    "vicash_"@ + timestamp_chars(secs as int) + extension
}

fn file_name(secs: u64, extension: &str) -> (r: String)
    ensures
        r@ == file_chars(secs, extension@),
{
    let mut s = String::new();
    s.append("vicash_");
    let t = timestamp(secs);
    s.append(t.as_str());
    s.append(extension);
    assert(s@ =~= file_chars(secs, extension@));
    s
}

/// The name of a screenshot.
pub fn screenshot_name(secs: u64) -> (r: String)
    ensures
        r@ == file_chars(secs, ".png"@),
{
    file_name(secs, ".png")
}

/// The name of a recording.
pub fn recording_name(secs: u64) -> (r: String)
    ensures
        r@ == file_chars(secs, ".mp4"@),
{
    file_name(secs, ".mp4")
}

/// Files that are made at different seconds have different names, as long as
/// their years fit 32 bits.
pub proof fn lemma_file_names_differ(a: u64, b: u64, extension: Seq<char>)
    requires
        civil(a as int / 86400).year <= i32::MAX,
        civil(b as int / 86400).year <= i32::MAX,
        file_chars(a, extension) == file_chars(b, extension),
    ensures
        a == b,
{
    let (x, y) = (timestamp_chars(a as int), timestamp_chars(b as int));
    let front = "vicash_"@;
    let n = front.len() as int;
    assert(file_chars(a, extension).subrange(n, n + x.len()) =~= x);
    assert(file_chars(b, extension).subrange(n, n + y.len()) =~= y);
    assert(file_chars(a, extension).len() == front.len() + x.len() + extension.len());
    assert(file_chars(b, extension).len() == front.len() + y.len() + extension.len());
    lemma_timestamp_unique(a, b);
}

/// A frame as a PNG file.
pub fn screenshot(frame: &Frame) -> (r: Result<Vec<u8>, EncodeError>)
    requires
        encodable(*frame),
    ensures
        r is Ok <==> png_size(frame.width, frame.height),
        r matches Ok(v) ==> v@ == png_bytes(
            data_rgb(frame.data, frame.width, frame.height),
            frame.width,
            frame.height,
        ),
{
    let rgb = frame_to_rgb(&frame.data, frame.width, frame.height);
    encode_png(rgb.as_slice(), frame.width, frame.height)
}

/// Status of a recording. Times are nanoseconds on a clock of the caller's.
#[derive(Debug)]
pub struct RecorderStatus {
    pub path: String,
    pub started_at: u64,
    pub frames_written: u64,
}

/// A recording: an encoder that is fed pictures through a pipe.
#[derive(Debug)]
pub struct Recorder {
    /// Whether the pipe is open.
    pub open: bool,
    pub status: RecorderStatus,
    pub width: u32,
    pub height: u32,
}

/// What to do with a picture.
#[derive(Debug, Clone, Copy, PartialEq, Eq, Structural)]
pub enum PushPlan {
    /// Nothing is being recorded.
    Idle,
    /// The pipe is gone: the recording has ended.
    Ended,
    /// The picture is too short: leave it out.
    Skip,
    /// Write this many bytes of it.
    Write(usize),
}

/// How long an NV12 picture of this size is.
pub open spec fn picture_len(width: u32, height: u32) -> int {
    width * height * 3 / 2
}

impl Recorder {
    /// A recording to the file `path` that starts at `now`; `open` says
    /// whether there is a pipe.
    pub fn start(width: u32, height: u32, path: String, now: u64, open: bool) -> (r: Self)
        ensures
            r == (Recorder {
                open,
                status: RecorderStatus { path, started_at: now, frames_written: 0 },
                width,
                height,
            }),
    {
        Recorder {
            open,
            status: RecorderStatus { path, started_at: now, frames_written: 0 },
            width,
            height,
        }
    }

    /// What to do with a picture of `len` bytes.
    pub open spec fn plan_for(self, len: nat) -> PushPlan {
        if !self.open {
            PushPlan::Ended
        } else if len < picture_len(self.width, self.height) {
            PushPlan::Skip
        } else {
            PushPlan::Write(picture_len(self.width, self.height) as usize)
        }
    }

    /// What to do with an NV12 picture: a whole one goes down the pipe, one
    /// that is too short is left out, and without a pipe the recording is over.
    pub fn push(&self, nv12: &[u8]) -> (r: PushPlan)
        ensures
            r == self.plan_for(nv12@.len()),
            r matches PushPlan::Write(n) ==> n <= nv12@.len(),
    {
        if !self.open {
            return PushPlan::Ended;
        }
        assert(0 <= self.width * self.height <= 0xffff_ffff * 0xffff_ffff) by (nonlinear_arith)
            requires
                0 <= self.width <= 0xffff_ffff,
                0 <= self.height <= 0xffff_ffff,
        ;
        let expected: u128 = self.width as u128 * self.height as u128 * 3 / 2;
        if (nv12.len() as u128) < expected {
            PushPlan::Skip
        } else {
            PushPlan::Write(expected as usize)
        }
    }

    /// The recording after a picture was written, or could not be.
    pub open spec fn after_write(self, ok: bool) -> Recorder {
        if ok {
            Recorder {
                status: RecorderStatus {
                    frames_written: if self.status.frames_written == u64::MAX {
                        0
                    } else {
                        (self.status.frames_written + 1) as u64
                    },
                    ..self.status
                },
                ..self
            }
        } else {
            Recorder { open: false, ..self }
        }
    }

    /// Takes note that a picture was written, or that the pipe broke. Tells
    /// whether the recording goes on.
    pub fn written(&mut self, ok: bool) -> (r: bool)
        ensures
            r == ok,
            *final(self) == old(self).after_write(ok),
    {
        if ok {
            self.status.frames_written = self.status.frames_written.wrapping_add(1);
        } else {
            self.open = false;
        }
        ok
    }

    /// Ends the recording; tells where the file is.
    pub fn stop(self) -> (r: String)
        ensures
            r == self.status.path,
    {
        self.status.path
    }
}

/// The recording that is under way, if any, and the files of the last ones.
/// The threads share it behind a lock.
#[derive(Debug)]
pub struct RecordingHandle {
    pub inner: Option<Recorder>,
    pub last_screenshot: Option<String>,
    pub last_recording: Option<String>,
}

impl RecordingHandle {
    /// Nothing recorded yet.
    pub fn new() -> (r: Self)
        ensures
            r == (RecordingHandle { inner: None, last_screenshot: None, last_recording: None }),
    {
        RecordingHandle { inner: None, last_screenshot: None, last_recording: None }
    }

    /// Whether a recording is under way.
    pub fn is_recording(&self) -> (r: bool)
        ensures
            r == self.inner is Some,
    {
        self.inner.is_some()
    }

    /// How long the recording has been under way, in whole seconds.
    pub fn elapsed_secs(&self, now: u64) -> (r: Option<u64>)
        ensures
            r == match self.inner {
                None => None::<u64>,
                Some(rec) => Some(
                    if now >= rec.status.started_at {
                        ((now - rec.status.started_at) / 1_000_000_000) as u64
                    } else {
                        0
                    },
                ),
            },
    {
        match &self.inner {
            None => None,
            Some(rec) => Some(now.saturating_sub(rec.status.started_at) / 1_000_000_000),
        }
    }

    /// How many pictures the recording has.
    pub fn frames_written(&self) -> (r: u64)
        ensures
            r == match self.inner {
                None => 0,
                Some(rec) => rec.status.frames_written,
            },
    {
        match &self.inner {
            None => 0,
            Some(rec) => rec.status.frames_written,
        }
    }

    /// The file of the recording.
    pub fn current_path(&self) -> (r: Option<String>)
        ensures
            r == match self.inner {
                None => None::<String>,
                Some(rec) => Some(rec.status.path),
            },
    {
        match &self.inner {
            None => None,
            Some(rec) => Some(rec.status.path.clone()),
        }
    }

    /// Puts a recording under way.
    pub fn begin(&mut self, recorder: Recorder)
        ensures
            *final(self) == (RecordingHandle { inner: Some(recorder), ..*old(self) }),
    {
        self.inner = Some(recorder);
    }

    /// The state once the recording has ended.
    pub open spec fn ended(self) -> RecordingHandle {
        match self.inner {
            None => self,
            Some(rec) => RecordingHandle {
                inner: None,
                last_screenshot: self.last_screenshot,
                last_recording: Some(rec.status.path),
            },
        }
    }

    /// Ends the recording, if one is under way, and remembers its file.
    pub fn end(&mut self)
        ensures
            *final(self) == old(self).ended(),
    {
        match self.inner.take() {
            None => {},
            Some(rec) => {
                self.last_recording = Some(rec.stop());
            },
        }
    }

    /// Remembers a screenshot.
    pub fn screenshot_saved(&mut self, path: String)
        ensures
            *final(self) == (RecordingHandle { last_screenshot: Some(path), ..*old(self) }),
    {
        self.last_screenshot = Some(path);
    }

    /// What to do with an NV12 picture. A recording whose pipe is gone is
    /// ended.
    pub fn push_frame(&mut self, nv12: &[u8]) -> (r: PushPlan)
        ensures
            match old(self).inner {
                None => r == PushPlan::Idle && *final(self) == *old(self),
                Some(rec) => {
                    &&& r == rec.plan_for(nv12@.len())
                    &&& r matches PushPlan::Write(n) ==> n <= nv12@.len()
                    &&& *final(self) == if rec.open {
                        *old(self)
                    } else {
                        old(self).ended()
                    }
                },
            },
    {
        let plan = match &self.inner {
            None => PushPlan::Idle,
            Some(rec) => rec.push(nv12),
        };
        if plan == PushPlan::Ended {
            self.end();
        }
        plan
    }

    /// Takes note that a picture was written, or that the pipe broke, which
    /// ends the recording.
    pub fn frame_written(&mut self, ok: bool)
        ensures
            match old(self).inner {
                None => *final(self) == *old(self),
                Some(rec) => *final(self) == if ok {
                    RecordingHandle { inner: Some(rec.after_write(true)), ..*old(self) }
                } else {
                    old(self).ended()
                },
            },
    {
        match self.inner.take() {
            None => {},
            Some(mut rec) => {
                if rec.written(ok) {
                    self.inner = Some(rec);
                } else {
                    self.last_recording = Some(rec.stop());
                }
            },
        }
    }
}

/// The recording after a run of pictures, of which `written` says for each
/// whether it was written.
pub open spec fn after_writes(rec: Recorder, written: Seq<bool>) -> Recorder
    decreases written.len(),
{
    if written.len() == 0 {
        rec
    } else {
        after_writes(rec, written.drop_last()).after_write(written.last())
    }
}

/// A recording counts the pictures that were written, and its file, size and
/// start stay the same.
pub proof fn lemma_pictures_counted(rec: Recorder, n: nat)
    requires
        rec.status.frames_written + n <= u64::MAX,
    ensures
        after_writes(rec, Seq::new(n, |i: int| true)) == (Recorder {
            status: RecorderStatus {
                frames_written: (rec.status.frames_written + n) as u64,
                ..rec.status
            },
            ..rec
        }),
    decreases n,
{
    let all = Seq::new(n, |i: int| true);
    if n > 0 {
        let front = Seq::new((n - 1) as nat, |i: int| true);
        assert(all.drop_last() =~= front);
        lemma_pictures_counted(rec, (n - 1) as nat);
    }
}

/// A picture that is written has the bytes of an NV12 picture of its size: one
/// per pixel for the luma and two per 2x2 block for the chroma. A picture of
/// exactly that many bytes is written whole, of a longer one just as many, and
/// a shorter one is left out. With an odd side the half block counts half,
/// rounded down.
pub proof fn lemma_whole_pictures_written(rec: Recorder, len: nat)
    requires
        rec.open,
        len <= usize::MAX,
    ensures
        ({
            let (w, h) = (rec.width as int, rec.height as int);
            match rec.plan_for(len) {
                PushPlan::Write(n) => {
                    &&& n <= len
                    &&& 2 * n <= 3 * (w * h) < 2 * n + 2
                    &&& w % 2 == 0 && h % 2 == 0 ==> n == w * h + 2 * ((w / 2) * (h / 2))
                },
                PushPlan::Skip => {
                    &&& 2 * len + 2 <= 3 * (w * h)
                    &&& w % 2 == 0 && h % 2 == 0 ==> len < w * h + 2 * ((w / 2) * (h / 2))
                },
                _ => false,
            }
        }),
{
    let (w, h) = (rec.width as int, rec.height as int);
    assert(w * h * 3 == 3 * (w * h)) by (nonlinear_arith);
    assert(w * h >= 0) by (nonlinear_arith)
        requires
            w >= 0,
            h >= 0,
    ;
    if w % 2 == 0 && h % 2 == 0 {
        let (a, b) = (w / 2, h / 2);
        assert(w == 2 * a && h == 2 * b);
        assert((2 * a) * (2 * b) == 4 * (a * b)) by (nonlinear_arith);
    }
}

/// What the recorder is told and what it is sent fit together: with even sides
/// it takes as many bytes as the conversion to RGB reads, so a picture that is
/// written whole is also one that is not shown black.
pub proof fn lemma_written_pictures_convert(rec: Recorder, len: nat, row: int, col: int)
    requires
        rec.open,
        len <= usize::MAX,
        rec.width as int % 2 == 0 && rec.height as int % 2 == 0,
        0 <= row < rec.height,
        0 <= col < rec.width,
    ensures
        rec.plan_for(len) matches PushPlan::Write(n) ==> chroma_index(
            rec.width as int,
            rec.height as int,
            row,
            col,
        ) + 2 <= n && nv12_readable(n as int, rec.width as int, rec.height as int),
{
    let (w, h) = (rec.width as int, rec.height as int);
    lemma_whole_pictures_written(rec, len);
    lemma_blocks_share_chroma(w, h, row, col, h - 1, w - 1);
    lemma_blocks_share_chroma(w, h, h - 1, w - 1, row, col);
    let (a, b) = (w / 2, h / 2);
    assert(w == 2 * a && h == 2 * b);
    assert((2 * a) * (2 * b) == 4 * (a * b)) by (nonlinear_arith);
}

/// A pipe that broke ends the recording: no later picture is written, and the
/// count stays at the pictures that were.
pub proof fn lemma_broken_pipe_ends(rec: Recorder, len: nat)
    ensures
        rec.after_write(false).plan_for(len) == PushPlan::Ended,
        rec.after_write(false).status == rec.status,
        rec.after_write(true).open == rec.open,
        !rec.open ==> rec.plan_for(len) == PushPlan::Ended,
{
}

/// The file of a recording or a screenshot is named after the program and
/// carries its extension, with the time in between.
pub proof fn lemma_file_name_reads(secs: u64, extension: Seq<char>)
    ensures
        ({
            let name = file_chars(secs, extension);
            let n = name.len() - extension.len();
            &&& n >= 7
            &&& name.take(7) == "vicash_"@
            &&& name.skip(n) == extension
            &&& name.subrange(7, n) == timestamp_chars(secs as int)
        }),
{
    let name = file_chars(secs, extension);
    let n = name.len() - extension.len();
    reveal_strlit("vicash_");
    assert("vicash_"@.len() == 7);
    assert(name.take(7) =~= "vicash_"@);
    assert(name.skip(n) =~= extension);
    assert(name.subrange(7, n) =~= timestamp_chars(secs as int));
}

} // verus!
