//! The HTTP relay: the newest encoded picture, the encoder's decisions and
//! what each client gets.

use crate::frame::{
    can_encode, data_rgb, encodable, frame_to_rgb, Frame, FrameData, SharedFrame,
};
use crate::http::{build_lan_url, lan_url_text, local_url, mjpeg_part, part_bytes, LocalIp, Refusal};
use crate::media::{encode_jpeg, jpeg_bytes, jpeg_size, EncodeError};
use crate::shared::share;
use crate::text::decimal;
use std::sync::Arc;
use vstd::prelude::*;

verus! {

/// Live state of the relay server, so that the user can see at a glance where
/// to point a second PC.
pub struct RelayInfo {
    /// The bound address and port.
    pub bind_addr: String,
    pub lan_url: String,
    pub local_url: String,
    pub active_clients: usize,
    pub total_clients: usize,
    /// Asks all relay threads to wind down before their next round.
    pub shutdown: bool,
}

impl RelayInfo {
    /// A server that listens on `bind_addr` and has no clients yet.
    pub fn new(bind_addr: String, port: u16, unspecified: bool, local: Option<LocalIp>) -> (r: Self)
        ensures
            r.bind_addr@ == bind_addr@,
            r.lan_url@ == lan_url_text(bind_addr@, port, unspecified, local),
            r.local_url@ == "http://127.0.0.1:"@ + decimal(port as nat),
            r.active_clients == 0,
            r.total_clients == 0,
            !r.shutdown,
    {
        let lan_url = build_lan_url(bind_addr.as_str(), port, unspecified, local);
        RelayInfo {
            bind_addr,
            lan_url,
            local_url: local_url(port),
            active_clients: 0,
            total_clients: 0,
            shutdown: false,
        }
    }

    /// Asks every relay thread to stop.
    pub fn stop(&mut self)
        ensures
            *final(self) == (RelayInfo { shutdown: true, ..*old(self) }),
    {
        self.shutdown = true;
    }

    /// The state with one more client.
    pub open spec fn with_client(self) -> RelayInfo {
        RelayInfo {
            active_clients: wrapping_next(self.active_clients),
            total_clients: wrapping_next(self.total_clients),
            ..self
        }
    }

    /// The state with one client gone.
    pub open spec fn without_client(self) -> RelayInfo {
        RelayInfo { active_clients: wrapping_previous(self.active_clients), ..self }
    }

    /// A streaming client has connected.
    pub fn client_connected(&mut self)
        ensures
            *final(self) == old(self).with_client(),
    {
        self.active_clients = self.active_clients.wrapping_add(1);
        self.total_clients = self.total_clients.wrapping_add(1);
    }

    /// A streaming client has gone, however its connection ended.
    pub fn client_gone(&mut self)
        ensures
            *final(self) == old(self).without_client(),
    {
        self.active_clients = self.active_clients.wrapping_sub(1);
    }
}

/// The next count; a counter that is full starts again at zero.
pub open spec fn wrapping_next(n: usize) -> usize {
    if n == usize::MAX {
        0
    } else {
        (n + 1) as usize
    }
}

/// The count before; below zero comes the largest.
pub open spec fn wrapping_previous(n: usize) -> usize {
    if n == 0 {
        usize::MAX
    } else {
        (n - 1) as usize
    }
}

/// The state after clients have come (`true`) and gone (`false`).
pub open spec fn after_clients(info: RelayInfo, events: Seq<bool>) -> RelayInfo
    decreases events.len(),
{
    if events.len() == 0 {
        info
    } else {
        let before = after_clients(info, events.drop_last());
        if events.last() {
            before.with_client()
        } else {
            before.without_client()
        }
    }
}

/// How many clients have come.
pub open spec fn arrivals(events: Seq<bool>) -> nat
    decreases events.len(),
{
    if events.len() == 0 {
        0
    } else {
        arrivals(events.drop_last()) + if events.last() {
            1nat
        } else {
            0nat
        }
    }
}

/// A client that connects and goes leaves the active count as it was and is
/// counted once in total.
pub proof fn lemma_client_comes_and_goes(info: RelayInfo)
    ensures
        info.with_client().without_client() == (RelayInfo {
            total_clients: wrapping_next(info.total_clients),
            ..info
        }),
{
}

/// The counts always say how many clients are there and how many there ever
/// were, as long as each client leaves at most once and the numbers fit.
pub proof fn lemma_client_counts(info: RelayInfo, events: Seq<bool>)
    requires
        info.active_clients == 0,
        info.total_clients == 0,
        events.len() <= usize::MAX,
        forall|i: int|
            0 <= i <= events.len() ==> i <= 2 * #[trigger] arrivals(events.take(i)),
    ensures
        after_clients(info, events).total_clients == arrivals(events),
        after_clients(info, events).active_clients == 2 * arrivals(events) - events.len(),
    decreases events.len(),
{
    assert(events.take(events.len() as int) =~= events);
    if events.len() > 0 {
        let front = events.drop_last();
        assert forall|i: int| 0 <= i <= front.len() implies i <= 2 * #[trigger] arrivals(
            front.take(i),
        ) by {
            assert(front.take(i) =~= events.take(i));
        }
        lemma_client_counts(info, front);
        lemma_arrivals_bound(front);
    }
}

proof fn lemma_arrivals_bound(events: Seq<bool>)
    ensures
        arrivals(events) <= events.len(),
    decreases events.len(),
{
    if events.len() > 0 {
        lemma_arrivals_bound(events.drop_last());
    }
}

/// One encoded picture with the number of the frame that it shows. Every
/// client gets the same bytes, so a frame is encoded once however many watch.
pub struct LatestJpeg {
    pub bytes: Arc<Vec<u8>>,
    pub seq: u64,
}

/// The slot for the newest encoded picture.
pub struct SharedJpeg {
    state: Option<LatestJpeg>,
}

impl View for SharedJpeg {
    type V = Option<LatestJpeg>;

    closed spec fn view(&self) -> Option<LatestJpeg> {
        self.state
    }
}

/// What a client that waits for a picture is told.
pub enum JpegWait {
    /// The relay is shutting down.
    Closed,
    Ready(LatestJpeg),
    /// Nothing new: look again in `ms` milliseconds, or sooner when a picture
    /// is published.
    Wait { ms: u64 },
}

impl SharedJpeg {
    /// An empty slot.
    pub fn new() -> (r: Self)
        ensures
            r@ is None,
    {
        SharedJpeg { state: None }
    }

    /// Replaces whatever the slot holds.
    pub fn publish(&mut self, snapshot: LatestJpeg)
        ensures
            final(self)@ == Some(snapshot),
    {
        self.state = Some(snapshot);
    }

    /// What a client that has seen picture `since` is told: a newer picture,
    /// or to wait.
    pub open spec fn told(state: Option<LatestJpeg>, since: u64, shutdown: bool) -> JpegWait {
        if shutdown {
            JpegWait::Closed
        } else {
            match state {
                Some(snap) if snap.seq > since => JpegWait::Ready(snap),
                _ => JpegWait::Wait { ms: 100 },
            }
        }
    }

    /// Asks for a picture newer than the one numbered `since`.
    pub fn wait_for_new(&self, since: u64, shutdown: bool) -> (r: JpegWait)
        ensures
            r == SharedJpeg::told(self@, since, shutdown),
    {
        if shutdown {
            return JpegWait::Closed;
        }
        match &self.state {
            Some(snap) if snap.seq > since => JpegWait::Ready(
                LatestJpeg { bytes: share(&snap.bytes), seq: snap.seq },
            ),
            _ => JpegWait::Wait { ms: 100 },
        }
    }

    /// The newest picture. It stays in the slot.
    pub fn latest(&self) -> (r: Option<LatestJpeg>)
        ensures
            r == self@,
    {
        match &self.state {
            Some(snap) => Some(LatestJpeg { bytes: share(&snap.bytes), seq: snap.seq }),
            None => None,
        }
    }
}

/// The answer to a request for a single picture.
pub fn snapshot(pictures: &SharedJpeg) -> (r: Result<LatestJpeg, Refusal>)
    ensures
        r == match pictures@ {
            Some(snap) => Ok(snap),
            None => Err::<LatestJpeg, Refusal>(Refusal::NoFrame),
        },
{
    match pictures.latest() {
        Some(snap) => Ok(snap),
        None => Err(Refusal::NoFrame),
    }
}

/// The quality that a setting stands for.
pub open spec fn clamped_quality(setting: u8) -> u8 {
    if setting < 1 {
        1
    } else if setting > 100 {
        100
    } else {
        setting
    }
}

/// The quality that a setting stands for.
fn clamp_quality(setting: u8) -> (r: u8)
    ensures
        r == clamped_quality(setting),
{
    if setting < 1 {
        1
    } else if setting > 100 {
        100
    } else {
        setting
    }
}

/// The relay's encoder: which frame it encoded last, and how well.
#[derive(Debug, Clone, Copy, PartialEq, Eq, Structural)]
pub struct RelayEncoder {
    pub last_seq: u64,
    pub last_quality: u8,
}

/// What the encoder does next.
pub enum EncoderStep {
    /// Nothing to do: look again in `ms` milliseconds.
    Sleep { ms: u64 },
    /// The picture could not be encoded: look again in `ms` milliseconds.
    Failed { ms: u64 },
    Publish(LatestJpeg),
}

impl RelayEncoder {
    /// An encoder that has not encoded anything.
    pub fn new() -> (r: Self)
        ensures
            r == (RelayEncoder { last_seq: 0, last_quality: 0 }),
    {
        RelayEncoder { last_seq: 0, last_quality: 0 }
    }

    /// Whether the frame was encoded already, at this quality.
    pub open spec fn has_done(self, frame: Frame, quality: u8) -> bool {
        frame.seq == self.last_seq && quality == self.last_quality
    }

    /// Whether `step` can be called: the newest frame was encoded already, or
    /// its payload is as long as its size asks for.
    pub open spec fn ready_for(self, newest: Option<Frame>, quality_setting: u8) -> bool {
        newest matches Some(f) ==> self.has_done(f, clamped_quality(quality_setting))
            || encodable(f)
    }

    /// Tells whether `step` can be called.
    pub fn can_step(&self, frames: &SharedFrame, quality_setting: u8) -> (r: bool)
        ensures
            r == self.ready_for(frames@, quality_setting),
    {
        match frames.get() {
            Some(f) => (f.seq == self.last_seq && clamp_quality(quality_setting)
                == self.last_quality) || can_encode(&f),
            None => true,
        }
    }

    /// One round of the encoder: a frame that is new, or that was encoded at
    /// another quality, becomes a picture.
    pub fn step(&mut self, frames: &SharedFrame, quality_setting: u8) -> (r: EncoderStep)
        requires
            old(self).ready_for(frames@, quality_setting),
        ensures
            match (frames@, r) {
                (None, EncoderStep::Sleep { ms }) => ms == 5 && *final(self) == *old(self),
                (Some(f), EncoderStep::Sleep { ms }) => {
                    &&& old(self).has_done(f, clamped_quality(quality_setting))
                    &&& ms == 2 && *final(self) == *old(self)
                },
                (Some(f), EncoderStep::Failed { ms }) => {
                    &&& !old(self).has_done(f, clamped_quality(quality_setting))
                    &&& !jpeg_size(f.width, f.height)
                    &&& ms == 50 && *final(self) == *old(self)
                },
                (Some(f), EncoderStep::Publish(picture)) => {
                    let q = clamped_quality(quality_setting);
                    &&& !old(self).has_done(f, q)
                    &&& jpeg_size(f.width, f.height)
                    &&& picture.seq == f.seq
                    &&& picture.bytes@ == jpeg_bytes(
                        data_rgb(f.data, f.width, f.height),
                        f.width,
                        f.height,
                        q,
                    )
                    &&& *final(self) == (RelayEncoder { last_seq: f.seq, last_quality: q })
                },
                (None, _) => false,
            },
    {
        let frame = match frames.get() {
            Some(f) => f,
            None => {
                return EncoderStep::Sleep { ms: 5 };
            },
        };
        let quality = clamp_quality(quality_setting);
        if frame.seq == self.last_seq && quality == self.last_quality {
            return EncoderStep::Sleep { ms: 2 };
        }
        let rgb = frame_to_rgb(&frame.data, frame.width, frame.height);
        let encoded = encode_jpeg(rgb.as_slice(), frame.width, frame.height, quality);
        self.finish(frame.seq, quality, encoded)
    }

    /// Takes what the JPEG encoder made of frame `seq`. A picture is published
    /// and the frame counts as encoded; a failure leaves it to be tried again.
    pub fn finish(&mut self, seq: u64, quality: u8, encoded: Result<Vec<u8>, EncodeError>) -> (r:
        EncoderStep)
        ensures
            match (encoded, r) {
                (Ok(bytes), EncoderStep::Publish(picture)) => {
                    &&& picture.seq == seq && picture.bytes@ == bytes@
                    &&& *final(self) == (RelayEncoder { last_seq: seq, last_quality: quality })
                },
                (Err(_), EncoderStep::Failed { ms }) => ms == 50 && *final(self) == *old(self),
                _ => false,
            },
    {
        match encoded {
            Ok(bytes) => {
                self.last_seq = seq;
                self.last_quality = quality;
                EncoderStep::Publish(LatestJpeg { bytes: Arc::new(bytes), seq })
            },
            Err(_) => EncoderStep::Failed { ms: 50 },
        }
    }
}

/// A fresh encoder never takes a frame for one that it has encoded, whatever
/// its number; one that has just encoded a frame does not encode it again at
/// the same quality, and does at another.
pub proof fn lemma_encoded_once(frame: Frame, quality: u8, other: u8)
    ensures
        !(RelayEncoder { last_seq: 0, last_quality: 0 }).has_done(frame, clamped_quality(quality)),
        ({
            let after = RelayEncoder {
                last_seq: frame.seq,
                last_quality: clamped_quality(quality),
            };
            after.has_done(frame, clamped_quality(other)) <==> clamped_quality(quality)
                == clamped_quality(other)
        }),
{
}

/// A client of the MJPEG stream.
#[derive(Debug, Clone, Copy, PartialEq, Eq, Structural)]
pub struct MjpegClient {
    /// The number of the picture that it got last.
    pub last_seq: u64,
}

/// What an MJPEG client gets next.
pub enum MjpegStep {
    Stop,
    /// Send these bytes.
    Send(Vec<u8>),
    Wait { ms: u64 },
}

impl MjpegClient {
    /// A client that has not got anything.
    pub fn new() -> (r: Self)
        ensures
            r == (MjpegClient { last_seq: 0 }),
    {
        MjpegClient { last_seq: 0 }
    }

    /// One round: the newest picture as a part of the stream, unless the
    /// client has it.
    pub fn step(&mut self, pictures: &SharedJpeg, shutdown: bool) -> (r: MjpegStep)
        ensures
            match (SharedJpeg::told(pictures@, old(self).last_seq, shutdown), r) {
                (JpegWait::Closed, MjpegStep::Stop) => *final(self) == *old(self),
                (JpegWait::Ready(snap), MjpegStep::Send(part)) => {
                    &&& part@ == part_bytes(snap.bytes@)
                    &&& final(self).last_seq == snap.seq
                },
                (JpegWait::Wait { ms: told }, MjpegStep::Wait { ms }) => {
                    &&& ms == told
                    &&& *final(self) == *old(self)
                },
                _ => false,
            },
    {
        match pictures.wait_for_new(self.last_seq, shutdown) {
            JpegWait::Closed => MjpegStep::Stop,
            JpegWait::Ready(snap) => {
                self.last_seq = snap.seq;
                MjpegStep::Send(mjpeg_part(snap.bytes.as_slice()))
            },
            JpegWait::Wait { ms } => MjpegStep::Wait { ms },
        }
    }
}

/// What a client has just been sent it is not sent again, nor anything older:
/// it waits until a newer picture is published, and gets that one.
pub proof fn lemma_not_sent_twice(snap: LatestJpeg)
    ensures
        SharedJpeg::told(Some(snap), snap.seq, false) is Wait,
        forall|newer: LatestJpeg|
            newer.seq > snap.seq ==> #[trigger] SharedJpeg::told(Some(newer), snap.seq, false)
                == JpegWait::Ready(newer),
        forall|older: LatestJpeg|
            older.seq < snap.seq ==> #[trigger] SharedJpeg::told(
                Some(older),
                snap.seq,
                false,
            ) is Wait,
{
}

/// The quality that is used lies between 1 and 100 and is the setting itself
/// wherever that does; a higher setting never gives a lower quality.
pub proof fn lemma_quality_range(setting: u8, higher: u8)
    ensures
        1 <= clamped_quality(setting) <= 100,
        1 <= setting <= 100 ==> clamped_quality(setting) == setting,
        setting <= higher ==> clamped_quality(setting) <= clamped_quality(higher),
{
}

/// A frame can be encoded only where its payload has as many bytes as its size
/// asks for: RGB three per pixel, NV12 none of the pixels' pairs missing.
pub proof fn lemma_encodable_frames(f: Frame, row: int, col: int)
    requires
        encodable(f),
        0 <= row < f.height,
        0 <= col < f.width,
    ensures
        match f.data {
            FrameData::Rgb(b) => b@.len() == 3 * (f.width * f.height) && data_rgb(
                f.data,
                f.width,
                f.height,
            ) == b@,
            FrameData::Nv12(b) => data_rgb(f.data, f.width, f.height).len() == 3 * (f.width
                * f.height) && (2 * b@.len() + 1 >= 3 * (f.width * f.height) ==> f.width * f.height
                + (row / 2) * f.width + 2 * (col / 2) + 1 < b@.len()),
        },
{
    let (w, h) = (f.width as int, f.height as int);
    crate::color::lemma_blocks_share_chroma(w, h, row, col, h - 1, w - 1);
    crate::color::lemma_last_pair(w, h, row, col);
    assert(w * h * 3 == 3 * (w * h)) by (nonlinear_arith);
    assert(w * h >= 0) by (nonlinear_arith)
        requires
            w >= 0,
            h >= 0,
    ;
}

} // verus!
