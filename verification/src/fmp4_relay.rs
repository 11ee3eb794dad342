//! The fragmented-MP4 relay: what the encoder subprocess is fed, what it
//! gives back, and what each client of the stream gets.

use crate::fmp4::{
    drain, fragment_bytes, fragment_fits, fragments_bytes, header_boxes, lemma_init_comes_once,
    lemma_stream_round_trip, Fragment, Segment, SegmentView,
};
use crate::frame::{Frame, FrameData, SharedFrame};
use crate::http::Refusal;
use crate::shared::share;
use crate::text::{append_decimal, decimal};
use std::sync::Arc;
use vstd::prelude::*;
use vstd::string::*;

verus! {

/// Live state shared between the reader of the encoder's output and every
/// client. The threads share it behind a lock.
pub struct BroadcastState {
    init_segment: Option<Arc<Vec<u8>>>,
    latest_media: Option<Arc<Vec<u8>>>,
    latest_seq: u64,
    shutdown: bool,
}

/// What the shared state holds.
pub struct Broadcast {
    /// The init segment. Set with the first segment and kept; late clients
    /// get it before anything else.
    pub init: Option<Seq<u8>>,
    /// The newest media segment.
    pub media: Option<Seq<u8>>,
    /// The number of the newest media segment.
    pub seq: u64,
    /// Whether the relay is shutting down.
    pub shutdown: bool,
}

/// The bytes of a shared buffer.
pub open spec fn bytes_of(b: Option<Arc<Vec<u8>>>) -> Option<Seq<u8>> {
    match b {
        None => None,
        Some(v) => Some(v@),
    }
}

impl View for BroadcastState {
    type V = Broadcast;

    closed spec fn view(&self) -> Broadcast {
        Broadcast {
            init: bytes_of(self.init_segment),
            media: bytes_of(self.latest_media),
            seq: self.latest_seq,
            shutdown: self.shutdown,
        }
    }
}

/// The number after `n`; after the largest comes zero.
pub open spec fn next_seq(n: u64) -> u64 {
    if n == u64::MAX {
        0
    } else {
        (n + 1) as u64
    }
}

/// The state after a segment was published.
pub open spec fn published(b: Broadcast, s: SegmentView) -> Broadcast {
    Broadcast {
        init: match s.init {
            Some(i) => Some(i),
            None => b.init,
        },
        media: Some(s.media),
        seq: next_seq(b.seq),
        shutdown: b.shutdown,
    }
}

/// The state after several segments were published in order.
pub open spec fn all_published(b: Broadcast, s: Seq<SegmentView>) -> Broadcast
    decreases s.len(),
{
    if s.len() == 0 {
        b
    } else {
        published(all_published(b, s.drop_last()), s.last())
    }
}

/// What a client that waits for a segment is told.
pub enum NextSegment {
    /// The relay is shutting down.
    Closed,
    /// The newest segment and its number.
    Ready(Arc<Vec<u8>>, u64),
    /// Nothing new yet: ask again when a segment is published.
    Wait,
}

impl BroadcastState {
    /// Nothing published yet.
    pub fn new() -> (r: Self)
        ensures
            r@ == (Broadcast { init: None, media: None, seq: 0, shutdown: false }),
    {
        BroadcastState { init_segment: None, latest_media: None, latest_seq: 0, shutdown: false }
    }

    /// The init segment, once there is one.
    pub fn init_segment(&self) -> (r: Option<Arc<Vec<u8>>>)
        ensures
            bytes_of(r) == self@.init,
    {
        match &self.init_segment {
            Some(b) => Some(share(b)),
            None => None,
        }
    }

    /// Whether the relay is shutting down.
    pub fn is_shut_down(&self) -> (r: bool)
        ensures
            r == self@.shutdown,
    {
        self.shutdown
    }

    /// Puts a segment in place of the one before and gives it the next
    /// number.
    pub fn publish(&mut self, segment: Segment)
        ensures
            final(self)@ == published(old(self)@, segment@),
    {
        match segment.init {
            Some(init) => {
                self.init_segment = Some(Arc::new(init));
            },
            None => {},
        }
        self.latest_media = Some(Arc::new(segment.media));
        self.latest_seq = self.latest_seq.wrapping_add(1);
    }

    /// Tells every client to stop.
    pub fn stop(&mut self)
        ensures
            final(self)@ == (Broadcast { shutdown: true, ..old(self)@ }),
    {
        self.shutdown = true;
    }

    /// Asks for a segment other than the one numbered `last_seen`: the wait ends
    /// with such a segment or with the shutdown of the relay, and in no other
    /// way.
    pub fn wait_for_next(&self, last_seen: u64) -> (r: NextSegment)
        ensures
            match r {
                NextSegment::Closed => self@.shutdown,
                NextSegment::Ready(segment, seq) => {
                    &&& !self@.shutdown && seq == self@.seq && seq != last_seen
                    &&& self@.media == Some(segment@)
                },
                NextSegment::Wait => {
                    &&& !self@.shutdown
                    &&& self@.seq == last_seen || self@.media is None
                },
            },
    {
        if self.shutdown {
            return NextSegment::Closed;
        }
        if self.latest_seq != last_seen {
            match &self.latest_media {
                Some(b) => {
                    return NextSegment::Ready(share(b), self.latest_seq);
                },
                None => {},
            }
        }
        NextSegment::Wait
    }
}

/// What the encoder gives back reaches the clients: after any number of
/// segments, of which the first alone carries the init segment, late clients
/// find that init segment, the newest media segment, and its number.
pub proof fn lemma_clients_see_newest(s: Seq<SegmentView>)
    requires
        0 < s.len() <= u64::MAX,
        s[0].init is Some,
        forall|i: int| 0 < i < s.len() ==> (#[trigger] s[i]).init is None,
    ensures
        all_published(
            (Broadcast { init: None, media: None, seq: 0, shutdown: false }),
            s,
        ) == (Broadcast {
            init: s[0].init,
            media: Some(s.last().media),
            seq: s.len() as u64,
            shutdown: false,
        }),
    decreases s.len(),
{
    let empty = Broadcast { init: None, media: None, seq: 0, shutdown: false };
    if s.len() > 1 {
        lemma_clients_see_newest(s.drop_last());
    } else {
        assert(s.drop_last().len() == 0);
        assert(all_published(empty, s.drop_last()) == empty);
    }
}

/// Publishing one batch of segments and then another is publishing them all.
pub proof fn lemma_publish_in_batches(b: Broadcast, s: Seq<SegmentView>, t: Seq<SegmentView>)
    ensures
        all_published(all_published(b, s), t) == all_published(b, s + t),
    decreases t.len(),
{
    if t.len() == 0 {
        assert(s + t =~= s);
    } else {
        lemma_publish_in_batches(b, s, t.drop_last());
        assert((s + t).drop_last() =~= s + t.drop_last());
    }
}

/// What the encoder writes, its header boxes and then fragments, reaches the
/// clients: once all of it was read, the header is the init segment, and the
/// newest fragment is the newest media segment, numbered by how many there
/// were.
pub proof fn lemma_encoder_reaches_clients(header: Seq<u8>, fs: Seq<Fragment>)
    requires
        header_boxes(header, 0),
        0 < fs.len() <= u64::MAX,
        forall|i: int| 0 <= i < fs.len() ==> fragment_fits(#[trigger] fs[i]),
    ensures
        all_published(
            (Broadcast { init: None, media: None, seq: 0, shutdown: false }),
            drain(header + fragments_bytes(fs), false).segments,
        ) == (Broadcast {
            init: Some(header),
            media: Some(fragment_bytes(fs.last())),
            seq: fs.len() as u64,
            shutdown: false,
        }),
{
    lemma_stream_round_trip(header, fs);
    lemma_init_comes_once(header + fragments_bytes(fs), false);
    let s = drain(header + fragments_bytes(fs), false).segments;
    lemma_clients_see_newest(s);
    assert(s[fs.len() - 1].media == fragment_bytes(fs[fs.len() - 1]));
}

/// Why the relay cannot start.
pub open spec fn no_capture_chars(width: u32, height: u32, fps: u32) -> Seq<char> {
    "relay needs an active capture (got "@ + decimal(width as nat) + "x"@ + decimal(height as nat)
        + "@"@ + decimal(fps as nat) + ")"@
}

/// The sound format that the relay uses.
#[derive(Debug, Clone, Copy, PartialEq, Eq, Structural)]
pub struct AudioFormat {
    pub sample_rate: u32,
    pub channels: u32,
}

/// At least one.
pub open spec fn at_least_one(n: u32) -> u32 {
    if n < 1 {
        1
    } else {
        n
    }
}

/// Checks what the relay is to carry: there must be a picture size and a
/// frame rate, and sound has at least one sample a second on one channel.
pub fn relay_format(width: u32, height: u32, fps: u32, sample_rate: u32, channels: u32) -> (r:
    Result<AudioFormat, String>)
    ensures
        match r {
            Ok(f) => {
                &&& width != 0 && height != 0 && fps != 0
                &&& f.sample_rate == at_least_one(sample_rate)
                &&& f.channels == at_least_one(channels)
            },
            Err(why) => {
                &&& width == 0 || height == 0 || fps == 0
                &&& why@ == no_capture_chars(width, height, fps)
            },
        },
{
    if width == 0 || height == 0 || fps == 0 {
        let mut s = String::new();
        s.append("relay needs an active capture (got ");
        append_decimal(&mut s, width as u64);
        s.append("x");
        append_decimal(&mut s, height as u64);
        s.append("@");
        append_decimal(&mut s, fps as u64);
        s.append(")");
        assert(s@ =~= no_capture_chars(width, height, fps));
        return Err(s);
    }
    Ok(
        AudioFormat {
            sample_rate: if sample_rate < 1 {
                1
            } else {
                sample_rate
            },
            channels: if channels < 1 {
                1
            } else {
                channels
            },
        },
    )
}

/// What became of one look at a listening socket.
#[derive(Debug, Clone, Copy, PartialEq, Eq, Structural)]
pub enum AcceptOutcome {
    Connected,
    NobodyYet,
    Failed,
}

/// What to do next about a connection.
#[derive(Debug, Clone, Copy, PartialEq, Eq, Structural)]
pub enum AcceptStep {
    Use,
    /// Look again in `ms` milliseconds.
    Retry { ms: u64 },
    TimedOut,
    Fail,
}

/// How long the encoder may take to connect for the pictures.
pub const VIDEO_CONNECT_MS: u64 = 5000;

/// How long the encoder may take to connect for the sound. It looks at the
/// pictures first, which takes time on slow machines.
pub const AUDIO_CONNECT_MS: u64 = 15000;

/// Waits for the encoder to connect, for `limit_ms` milliseconds at most.
pub fn accept_step(outcome: AcceptOutcome, elapsed_ms: u64, limit_ms: u64) -> (r: AcceptStep)
    ensures
        r == match outcome {
            AcceptOutcome::Connected => AcceptStep::Use,
            AcceptOutcome::Failed => AcceptStep::Fail,
            AcceptOutcome::NobodyYet => if elapsed_ms >= limit_ms {
                AcceptStep::TimedOut
            } else {
                AcceptStep::Retry { ms: 20 }
            },
        },
{
    match outcome {
        AcceptOutcome::Connected => AcceptStep::Use,
        AcceptOutcome::Failed => AcceptStep::Fail,
        AcceptOutcome::NobodyYet => if elapsed_ms >= limit_ms {
            AcceptStep::TimedOut
        } else {
            AcceptStep::Retry { ms: 20 }
        },
    }
}

/// Feeds the encoder a steady stream of pictures. Times are nanoseconds on a
/// clock of the caller's.
pub struct VideoFeed {
    pub last_seq: u64,
    /// The picture that is sent, again and again until there is a newer one.
    pub held: Option<Arc<Vec<u8>>>,
    pub next_due: u64,
    pub frame_duration: u64,
}

/// How late the feed may be before it gives up the time that it lost.
pub const MAX_LAG: u64 = 200_000_000;

/// What the feed holds once it has looked at the newest frame.
pub open spec fn held_after(
    last_seq: u64,
    held: Option<Arc<Vec<u8>>>,
    newest: Option<Frame>,
) -> Option<Arc<Vec<u8>>> {
    match newest {
        Some(f) => match f.data {
            FrameData::Nv12(b) if f.seq != last_seq => Some(b),
            _ => held,
        },
        None => held,
    }
}

/// When the next picture is due, at time `now`, after one that was due at
/// `due`.
pub open spec fn due_after(due: int, duration: int, now: int) -> int {
    if now - (due + duration) > MAX_LAG {
        now
    } else {
        due + duration
    }
}

/// How long to sleep before the next picture.
pub open spec fn pause_after(due: int, duration: int, now: int) -> int {
    if due + duration > now {
        due + duration - now
    } else {
        0
    }
}

impl VideoFeed {
    /// A feed that starts at `now`.
    pub fn new(now: u64, frame_duration: u64) -> (r: Self)
        ensures
            r == (VideoFeed { last_seq: 0, held: None, next_due: now, frame_duration }),
    {
        VideoFeed { last_seq: 0, held: None, next_due: now, frame_duration }
    }

    /// The picture to send now: the newest one, or the one before where there
    /// is none newer. Only NV12 can be sent.
    pub fn picture(&mut self, frames: &SharedFrame) -> (r: Option<Arc<Vec<u8>>>)
        ensures
            final(self).held == held_after(old(self).last_seq, old(self).held, frames@),
            r == final(self).held,
            final(self).last_seq == match frames@ {
                Some(f) => f.seq,
                None => old(self).last_seq,
            },
            final(self).next_due == old(self).next_due,
            final(self).frame_duration == old(self).frame_duration,
    {
        match frames.get() {
            Some(f) => {
                if f.seq != self.last_seq {
                    self.last_seq = f.seq;
                    match f.data {
                        FrameData::Nv12(b) => {
                            self.held = Some(b);
                        },
                        FrameData::Rgb(_) => {},
                    }
                }
            },
            None => {},
        }
        match &self.held {
            Some(b) => Some(share(b)),
            None => None,
        }
    }

    /// Paces the feed: how many nanoseconds to sleep. A feed that is a little
    /// late keeps its schedule; one that fell far behind does not catch up in
    /// a burst but starts anew.
    pub fn pace(&mut self, now: u64) -> (r: u64)
        requires
            old(self).next_due + old(self).frame_duration <= u64::MAX,
        ensures
            r == pause_after(
                old(self).next_due as int,
                old(self).frame_duration as int,
                now as int,
            ),
            *final(self) == (VideoFeed {
                next_due: due_after(
                    old(self).next_due as int,
                    old(self).frame_duration as int,
                    now as int,
                ) as u64,
                ..*old(self)
            }),
    {
        self.next_due = self.next_due + self.frame_duration;
        if self.next_due > now {
            self.next_due - now
        } else {
            if now - self.next_due > MAX_LAG {
                self.next_due = now;
            }
            0
        }
    }
}

/// The feed never runs ahead: a picture is sent no sooner than one frame
/// duration after the time that the one before was due, and the lag that is
/// carried over stays within the limit.
pub proof fn lemma_pace(due: int, duration: int, now: int)
    requires
        due >= 0 && duration >= 0 && now >= 0,
    ensures
        now + pause_after(due, duration, now) >= due + duration,
        due_after(due, duration, now) >= due + duration,
        now + pause_after(due, duration, now) - due_after(due, duration, now) <= MAX_LAG,
        pause_after(due, duration, now) > 0 ==> now + pause_after(due, duration, now) == due
            + duration,
{
}

/// How long a request waits for the init segment.
pub const INIT_WAIT_MS: u64 = 3000;

/// What a client of the stream gets before the first segment.
pub enum InitStep {
    /// Send the head of the response and then these bytes.
    Send(Arc<Vec<u8>>),
    Refuse(Refusal),
    /// Look again in `ms` milliseconds.
    Sleep { ms: u64 },
}

/// What to answer a request for the stream, while the init segment may still
/// be on its way, `elapsed_ms` milliseconds after the request came. `relay` is
/// the running relay, if there is one; `slept` says that this is not the
/// first look.
pub fn init_step(relay: Option<&BroadcastState>, slept: bool, elapsed_ms: u64) -> (r: InitStep)
    ensures
        match relay {
            None => r == InitStep::Refuse(Refusal::RelayDisabled),
            Some(state) => if slept && state@.shutdown {
                r == InitStep::Refuse(Refusal::InitNotReady)
            } else {
                match state@.init {
                    Some(init) => r matches InitStep::Send(bytes) && bytes@ == init,
                    None => r == if elapsed_ms >= INIT_WAIT_MS {
                        InitStep::Refuse(Refusal::InitNotReady)
                    } else {
                        InitStep::Sleep { ms: 50 }
                    },
                }
            },
        },
{
    let state = match relay {
        None => {
            return InitStep::Refuse(Refusal::RelayDisabled);
        },
        Some(state) => state,
    };
    if slept && state.is_shut_down() {
        return InitStep::Refuse(Refusal::InitNotReady);
    }
    match state.init_segment() {
        Some(init) => InitStep::Send(init),
        None => if elapsed_ms >= INIT_WAIT_MS {
            InitStep::Refuse(Refusal::InitNotReady)
        } else {
            InitStep::Sleep { ms: 50 }
        },
    }
}

/// A client of the stream.
#[derive(Debug, Clone, Copy, PartialEq, Eq, Structural)]
pub struct SegmentClient {
    /// The number of the segment that it got last.
    pub last_seen: u64,
}

/// What a client gets next.
pub enum ClientStep {
    Stop,
    Send(Arc<Vec<u8>>),
    /// Nothing new: look again in `ms` milliseconds, or sooner when a segment
    /// is published.
    Wait { ms: u64 },
}

impl SegmentClient {
    /// A client that has got the init segment only.
    pub fn new() -> (r: Self)
        ensures
            r == (SegmentClient { last_seen: 0 }),
    {
        SegmentClient { last_seen: 0 }
    }

    /// One round: the newest segment, unless the client has it.
    pub fn step(&mut self, state: &BroadcastState, server_stopped: bool) -> (r: ClientStep)
        ensures
            match r {
                ClientStep::Stop => (server_stopped || state@.shutdown) && *final(self) == *old(
                    self,
                ),
                ClientStep::Send(segment) => {
                    &&& !server_stopped && !state@.shutdown
                    &&& state@.seq != old(self).last_seen && state@.media == Some(segment@)
                    &&& final(self).last_seen == state@.seq
                },
                ClientStep::Wait { ms } => {
                    &&& !server_stopped && !state@.shutdown && ms == 500
                    &&& state@.seq == old(self).last_seen || state@.media is None
                    &&& *final(self) == *old(self)
                },
            },
    {
        if server_stopped {
            return ClientStep::Stop;
        }
        match state.wait_for_next(self.last_seen) {
            NextSegment::Closed => ClientStep::Stop,
            NextSegment::Ready(segment, seq) => {
                self.last_seen = seq;
                ClientStep::Send(segment)
            },
            NextSegment::Wait => ClientStep::Wait { ms: 500 },
        }
    }
}

/// A feed that is at most 200 ms late keeps its schedule, and one that is
/// later starts anew; it sleeps only when it is early, and until the picture
/// is due.
pub proof fn lemma_schedule(due: int, duration: int, now: int)
    ensures
        now <= due + duration + 200_000_000 ==> due_after(due, duration, now) == due + duration,
        now > due + duration + 200_000_000 ==> due_after(due, duration, now) == now && pause_after(
            due,
            duration,
            now,
        ) == 0,
        now < due + duration ==> now + pause_after(due, duration, now) == due + duration,
        now >= due + duration ==> pause_after(due, duration, now) == 0,
{
}

/// The feed sends the newest NV12 picture once it is there, and else the one
/// that it sent before.
pub proof fn lemma_newest_is_held(last_seq: u64, held: Option<Arc<Vec<u8>>>, f: Frame)
    ensures
        f.seq != last_seq ==> match f.data {
            FrameData::Nv12(b) => held_after(last_seq, held, Some(f)) == Some(b),
            FrameData::Rgb(_) => held_after(last_seq, held, Some(f)) == held,
        },
        f.seq == last_seq ==> held_after(last_seq, held, Some(f)) == held,
        held_after(last_seq, held, None) == held,
{
}

/// Sound has at least one sample a second and one channel, and otherwise what
/// was asked for.
pub proof fn lemma_at_least_one(n: u32)
    ensures
        at_least_one(n) >= 1,
        n >= 1 ==> at_least_one(n) == n,
        n == 0 ==> at_least_one(n) == 1,
{
}

/// Segments are numbered one after the other, so that two in a row never have
/// the same number.
pub proof fn lemma_numbers_run_on(n: u64)
    ensures
        n < u64::MAX ==> next_seq(n) == n + 1,
        next_seq(n) != n,
{
}

} // verus!
