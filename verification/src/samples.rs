//! Audio samples on their way from the capture callback to the encoder.
//!
//! A sample is a 32-bit float; here it travels as its bits.

use ringbuf::traits::Consumer;
use ringbuf::traits::Producer;
use ringbuf::traits::Split;
use vstd::prelude::*;

verus! {

/// How many samples the encoder gets at a time at most.
pub const BATCH: usize = 4096;

/// The writing end of a ring buffer of samples (`ringbuf::HeapProd`).
#[verifier::external_body]
pub struct SampleSink {
    prod: ringbuf::HeapProd<u32>,
}

/// The reading end of a ring buffer of samples (`ringbuf::HeapCons`). The
/// writing end may be at work on another thread.
#[verifier::external_body]
pub struct SampleSource {
    cons: ringbuf::HeapCons<u32>,
}

/// All samples that the buffer will still accept from this end, in order.
pub uninterp spec fn to_go(sink: SampleSink) -> Seq<u32>;

/// All samples that the buffer holds or will still accept, in order.
pub uninterp spec fn to_come(source: SampleSource) -> Seq<u32>;

/// How many samples the buffer has accepted so far.
pub uninterp spec fn accepted(sink: SampleSink) -> nat;

/// How many samples the buffer has room for.
pub uninterp spec fn room(sink: SampleSink) -> nat;

/// Whether this end found the buffer empty when it last looked.
pub uninterp spec fn ran_dry(source: SampleSource) -> bool;

/// Calls `ringbuf::HeapRb::new` and splits the buffer. The claim is that the
/// buffer is empty with room for `capacity` samples, and that the reading end
/// gets what the writing end accepts, in order and complete. The call panics
/// on a capacity of zero.
#[verifier::external_body]
fn ring(capacity: usize) -> (r: (SampleSink, SampleSource))
    requires
        capacity > 0,
    ensures
        room(r.0) == capacity,
        accepted(r.0) == 0,
        to_come(r.1) == to_go(r.0),
{
    let (prod, cons) = ringbuf::HeapRb::<u32>::new(capacity).split();
    (SampleSink { prod }, SampleSource { cons })
}

impl SampleSink {
    /// Calls `ringbuf::traits::Producer::try_push`. The claim is that the
    /// sample is either accepted, as the next one, or refused because the
    /// buffer is full, which takes as many samples as it has room for. How
    /// fast the other end makes room again is left open.
    #[verifier::external_body]
    fn try_push(&mut self, sample: u32) -> (r: bool)
        ensures
            room(*final(self)) == room(*old(self)),
            if r {
                &&& to_go(*old(self)).len() > 0
                &&& to_go(*old(self))[0] == sample
                &&& to_go(*final(self)) == to_go(*old(self)).skip(1)
                &&& accepted(*final(self)) == accepted(*old(self)) + 1
            } else {
                &&& accepted(*old(self)) >= room(*old(self))
                &&& to_go(*final(self)) == to_go(*old(self))
                &&& accepted(*final(self)) == accepted(*old(self))
            },
    {
        self.prod.try_push(sample).is_ok()
    }

    /// Hands samples in until the buffer is full; tells how many it took. The
    /// first samples, as many as there is room for, are always taken.
    pub fn offer(&mut self, samples: &[u32]) -> (r: usize)
        ensures
            r <= samples@.len() && r <= to_go(*old(self)).len(),
            to_go(*old(self)).take(r as int) == samples@.take(r as int),
            to_go(*final(self)) == to_go(*old(self)).skip(r as int),
            room(*final(self)) == room(*old(self)),
            accepted(*final(self)) == accepted(*old(self)) + r,
            r < samples@.len() ==> accepted(*old(self)) + r >= room(*old(self)),
    {
        let mut n: usize = 0;
        let ghost all = to_go(*self);
        assert(all.skip(0) =~= all);
        assert(all.take(0) =~= samples@.take(0));
        while n < samples.len()
            invariant
                all == to_go(*old(self)),
                n <= samples@.len() && n <= all.len(),
                all.take(n as int) == samples@.take(n as int),
                to_go(*self) == all.skip(n as int),
                room(*self) == room(*old(self)),
                accepted(*self) == accepted(*old(self)) + n,
            decreases samples@.len() - n,
        {
            if !self.try_push(samples[n]) {
                return n;
            }
            assert(all.take(n + 1) =~= all.take(n as int).push(all[n as int]));
            assert(samples@.take(n + 1) =~= samples@.take(n as int).push(samples@[n as int]));
            assert(all.skip(n as int).skip(1) =~= all.skip(n + 1));
            n += 1;
        }
        n
    }
}

impl SampleSource {
    /// Calls `ringbuf::traits::Consumer::try_pop`. The claim is that it hands
    /// out the next sample, or nothing where the buffer is empty at that
    /// moment.
    #[verifier::external_body]
    fn try_pop(&mut self) -> (r: Option<u32>)
        ensures
            match r {
                Some(sample) => {
                    &&& to_come(*old(self)).len() > 0
                    &&& to_come(*old(self))[0] == sample
                    &&& to_come(*final(self)) == to_come(*old(self)).skip(1)
                },
                None => {
                    &&& ran_dry(*final(self))
                    &&& to_come(*final(self)) == to_come(*old(self))
                },
            },
    {
        self.cons.try_pop()
    }

    /// Takes what waits in the buffer, `BATCH` samples at most.
    pub fn take_batch(&mut self) -> (r: Vec<u32>)
        ensures
            r@.len() <= BATCH && r@.len() <= to_come(*old(self)).len(),
            r@ == to_come(*old(self)).take(r@.len() as int),
            to_come(*final(self)) == to_come(*old(self)).skip(r@.len() as int),
            r@.len() < BATCH ==> ran_dry(*final(self)),
    {
        let mut batch: Vec<u32> = Vec::new();
        let ghost all = to_come(*self);
        assert(all.skip(0) =~= all);
        assert(all.take(0) =~= batch@);
        while batch.len() < BATCH
            invariant
                all == to_come(*old(self)),
                batch@.len() <= BATCH && batch@.len() <= all.len(),
                batch@ == all.take(batch@.len() as int),
                to_come(*self) == all.skip(batch@.len() as int),
            decreases BATCH - batch@.len(),
        {
            let ghost n = batch@.len() as int;
            match self.try_pop() {
                None => {
                    return batch;
                },
                Some(sample) => {
                    batch.push(sample);
                    assert(all.take(n + 1) =~= all.take(n).push(all[n]));
                    assert(all.skip(n).skip(1) =~= all.skip(n + 1));
                },
            }
        }
        batch
    }
}

/// Room for two seconds of sound.
pub open spec fn sink_capacity(sample_rate: u32, channels: u32) -> int {
    sample_rate * 2 * channels
}

/// How many samples two seconds of sound take, where there is any sound and
/// the number fits.
pub fn sink_size(sample_rate: u32, channels: u32) -> (r: Option<usize>)
    ensures
        r is Some <==> 0 < sink_capacity(sample_rate, channels) <= usize::MAX,
        r matches Some(n) ==> n == sink_capacity(sample_rate, channels),
{
    assert(0 <= sample_rate * 2 * channels <= 0x1_0000_0000 * 2 * 0x1_0000_0000)
        by (nonlinear_arith)
        requires
            0 <= sample_rate <= 0x1_0000_0000,
            0 <= channels <= 0x1_0000_0000,
    ;
    let n: u128 = sample_rate as u128 * 2 * channels as u128;
    if n > 0 && n <= usize::MAX as u128 {
        Some(n as usize)
    } else {
        None
    }
}

/// A buffer for two seconds of sound: the end that the capture callback fills
/// and the end that the encoder empties.
pub fn relay_sink(sample_rate: u32, channels: u32) -> (r: (SampleSink, SampleSource))
    requires
        0 < sink_capacity(sample_rate, channels) <= usize::MAX,
    ensures
        room(r.0) == sink_capacity(sample_rate, channels),
        accepted(r.0) == 0,
        to_come(r.1) == to_go(r.0),
{
    assert(0 < sample_rate * 2 <= sample_rate * 2 * channels) by (nonlinear_arith)
        requires
            sample_rate >= 0,
            channels >= 0,
            0 < sample_rate * 2 * channels,
    ;
    ring(sample_rate as usize * 2 * channels as usize)
}

/// 256 to the power of `k`, for the four bytes of a sample.
pub open spec fn byte_weight(k: int) -> int {
    if k == 0 {
        1
    } else if k == 1 {
        256
    } else if k == 2 {
        65536
    } else {
        16777216
    }
}

/// The bytes of the samples, low byte of each first.
pub open spec fn low_first(samples: Seq<u32>) -> Seq<u8> {
    Seq::new(
        samples.len() * 4,
        |i: int| (samples[i / 4] as int / byte_weight(i % 4) % 256) as u8,
    )
}

/// The samples as bytes, low byte of each first: the order that the encoder is
/// told to expect.
fn sample_bytes(samples: &[u32]) -> (r: Vec<u8>)
    ensures
        r@ == low_first(samples@),
{
    let mut out: Vec<u8> = Vec::new();
    let mut i: usize = 0;
    while i < samples.len()
        invariant
            i <= samples@.len(),
            out@ == low_first(samples@.take(i as int)),
        decreases samples@.len() - i,
    {
        let x: u32 = samples[i];
        let ghost before = out@;
        out.push((x % 256) as u8);
        out.push((x / 256 % 256) as u8);
        out.push((x / 65536 % 256) as u8);
        out.push((x / 16777216 % 256) as u8);
        proof {
            let next = low_first(samples@.take(i + 1));
            assert forall|k: int| 0 <= k < next.len() implies #[trigger] out@[k] == next[k] by {
                if k < 4 * i {
                    assert(out@[k] == before[k]);
                    assert(samples@.take(i + 1)[k / 4] == samples@.take(i as int)[k / 4]);
                } else {
                    assert(k / 4 == i);
                    assert(samples@.take(i + 1)[k / 4] == x);
                }
            }
            assert(out@ =~= next);
        }
        i += 1;
    }
    assert(samples@.take(i as int) =~= samples@);
    out
}

/// What the audio writer does next.
pub enum AudioStep {
    /// The relay is shutting down.
    Stop,
    /// Nothing to send yet.
    Sleep { ms: u64 },
    /// Send these bytes to the encoder.
    Write(Vec<u8>),
}

/// What to do with the samples that came out of the buffer.
pub fn audio_write(batch: &[u32]) -> (r: AudioStep)
    ensures
        match r {
            AudioStep::Stop => false,
            AudioStep::Sleep { ms } => batch@.len() == 0 && ms == 5,
            AudioStep::Write(bytes) => batch@.len() > 0 && bytes@ == low_first(batch@),
        },
{
    if batch.len() == 0 {
        AudioStep::Sleep { ms: 5 }
    } else {
        AudioStep::Write(sample_bytes(batch))
    }
}

/// One round of the audio writer: empties the buffer and sends what was in
/// it.
pub fn audio_step(source: &mut SampleSource, shutdown: bool) -> (r: AudioStep)
    ensures
        match r {
            AudioStep::Stop => shutdown && *final(source) == *old(source),
            AudioStep::Sleep { ms } => {
                &&& !shutdown && ms == 5
                &&& ran_dry(*final(source))
                &&& to_come(*final(source)) == to_come(*old(source))
            },
            AudioStep::Write(bytes) => {
                let n = bytes@.len() / 4;
                &&& !shutdown
                &&& 0 < n <= BATCH && n <= to_come(*old(source)).len()
                &&& bytes@ == low_first(to_come(*old(source)).take(n as int))
                &&& to_come(*final(source)) == to_come(*old(source)).skip(n as int)
                &&& n < BATCH ==> ran_dry(*final(source))
            },
        },
{
    if shutdown {
        return AudioStep::Stop;
    }
    let batch = source.take_batch();
    proof {
        assert(to_come(*old(source)).skip(0) =~= to_come(*old(source)));
    }
    audio_write(batch.as_slice())
}

/// A reader of the bytes gets each sample back.
pub proof fn lemma_samples_read(samples: Seq<u32>, k: int)
    requires
        0 <= k < samples.len(),
    ensures
        ({
            let b = low_first(samples);
            samples[k] == b[4 * k] + b[4 * k + 1] * 256 + b[4 * k + 2] * 65536 + b[4 * k + 3]
                * 16777216
        }),
{
    let x = samples[k] as int;
    assert(x == x % 256 + x / 256 % 256 * 256 + x / 65536 % 256 * 65536 + x / 16777216 * 16777216);
    assert(4 * k / 4 == k && (4 * k + 1) / 4 == k && (4 * k + 2) / 4 == k && (4 * k + 3) / 4 == k);
}

/// The buffer has room for two seconds: twice a second's samples on every
/// channel.
pub proof fn lemma_two_seconds(sample_rate: u32, channels: u32)
    ensures
        sink_capacity(sample_rate, channels) == sample_rate * channels + sample_rate * channels,
{
    assert(sample_rate * 2 * channels == sample_rate * channels + sample_rate * channels)
        by (nonlinear_arith);
}

} // verus!
