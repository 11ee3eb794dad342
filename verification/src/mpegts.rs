//! MPEG-TS muxer for one H.264 video stream.
//!
//! Output is a continuous byte stream of 188-byte transport stream packets:
//!
//! - PID 0x0000: PAT, sent every 100 ms
//! - PID 0x1000: PMT, sent every 100 ms
//! - PID 0x0100: H.264 video, stream type 0x1B
//!
//! The PCR is carried in the adaptation field of the video PID. Timestamps
//! are in the 90 kHz MPEG clock.

use crate::bytes::{be16, be32, push_all, push_be16, push_be32, push_copies};
use crate::crc::{crc32, crc32_mpeg2};
use vstd::prelude::*;

verus! {

pub const PACKET_SIZE: usize = 188;

pub const SYNC_BYTE: u8 = 0x47;

pub const PAT_PID: u16 = 0x0000;

pub const PMT_PID: u16 = 0x1000;

pub const VIDEO_PID: u16 = 0x0100;

pub const STREAM_TYPE_H264: u8 = 0x1B;

/// Video stream 0.
pub const VIDEO_STREAM_ID: u8 = 0xE0;

pub const PROGRAM_NUMBER: u16 = 1;

pub const TS_ID: u16 = 1;

/// MPEG-TS clock runs at 90 kHz.
pub const MPEGTS_CLOCK_HZ: u64 = 90_000;

/// Clock ticks between two PAT and PMT bursts: 100 ms.
pub const PSI_INTERVAL: i64 = 9_000;

/// `n` stuffing bytes.
pub open spec fn stuffing(n: int) -> Seq<u8> {
    Seq::new(n as nat, |i: int| 0xFFu8)
}

/// The three bytes in front of the continuity counter: sync byte, payload
/// unit start flag, 13-bit PID.
pub open spec fn packet_start(pid: u16, unit_start: bool) -> Seq<u8> {
    seq![
        SYNC_BYTE,
        ((if unit_start {
            0x40int
        } else {
            0
        }) + pid as int / 256 % 32) as u8,
        (pid % 256) as u8,
    ]
}

// ---------------------------------------------------------------------
// Program tables
// ---------------------------------------------------------------------

/// The 13-bit PID with its three reserved bits set.
pub open spec fn pid_field(pid: u16) -> Seq<u8> {
    be16((0xE000 + pid % 0x2000) as u16)
}

/// The PAT section in front of its checksum: one program, whose PMT is on
/// `PMT_PID`.
pub open spec fn pat_body() -> Seq<u8> {
    seq![0x00u8, 0xB0, 0x0D] + be16(TS_ID) + seq![0xC1u8, 0x00, 0x00] + be16(PROGRAM_NUMBER)
        + pid_field(PMT_PID)
}

/// The PMT section in front of its checksum: one H.264 stream on
/// `VIDEO_PID`, which also carries the PCR.
pub open spec fn pmt_body() -> Seq<u8> {
    seq![0x02u8, 0xB0, 0x12] + be16(PROGRAM_NUMBER) + seq![0xC1u8, 0x00, 0x00] + pid_field(
        VIDEO_PID,
    ) + seq![0xF0u8, 0x00] + seq![STREAM_TYPE_H264] + pid_field(VIDEO_PID) + seq![0xF0u8, 0x00]
}

/// A table section: the body and its checksum.
pub open spec fn section(body: Seq<u8>) -> Seq<u8> {
    body + be32(crc32(body))
}

/// A section in one packet, after a pointer field of zero, with stuffing
/// behind it. What does not fit is cut off.
pub open spec fn psi_packet_bytes(pid: u16, cc: int, sec: Seq<u8>) -> Seq<u8> {
    let n = if sec.len() < 183 {
        sec.len() as int
    } else {
        183
    };
    packet_start(pid, true) + seq![(0x10 + cc % 16) as u8, 0u8] + sec.take(n) + stuffing(183 - n)
}

/// Wraps a PSI section in a single TS packet (with pointer field 0).
pub fn psi_packet(pid: u16, cc: u8, sec: &[u8]) -> (r: Vec<u8>)
    ensures
        r@ == psi_packet_bytes(pid, cc as int, sec@),
        r@.len() == PACKET_SIZE,
{
    let mut pkt: Vec<u8> = Vec::with_capacity(PACKET_SIZE);
    pkt.push(SYNC_BYTE);
    pkt.push(0x40 + ((pid / 256) % 32) as u8);
    pkt.push((pid % 256) as u8);
    pkt.push(0x10 + cc % 16);
    pkt.push(0);
    let room: usize = PACKET_SIZE - 5;
    let n: usize = if sec.len() < room {
        sec.len()
    } else {
        room
    };
    push_all(&mut pkt, vstd::slice::slice_subrange(sec, 0, n));
    push_copies(&mut pkt, 0xFF, room - n);
    assert(pkt@ =~= psi_packet_bytes(pid, cc as int, sec@));
    pkt
}

// ---------------------------------------------------------------------
// PES
// ---------------------------------------------------------------------

/// A 33-bit timestamp in five bytes, after a 4-bit prefix, with marker bits
/// between its parts.
pub open spec fn timestamp_bytes(ts: u64, prefix: u8) -> Seq<u8> {
    seq![
        (prefix % 16 * 16 + ts as int / 0x4000_0000 % 8 * 2 + 1) as u8,
        (ts as int / 0x40_0000 % 256) as u8,
        (ts as int / 0x8000 % 128 * 2 + 1) as u8,
        (ts as int / 0x80 % 256) as u8,
        (ts as int % 128 * 2 + 1) as u8,
    ]
}

/// The timestamp in five such bytes.
pub open spec fn timestamp_value(b: Seq<u8>) -> int {
    (b[0] as int / 2 % 8) * 0x4000_0000 + b[1] * 0x40_0000 + (b[2] as int / 2) * 0x8000 + b[3]
        * 0x80 + b[4] as int / 2
}

/// Five timestamp bytes give back the lower 33 bits of what was written.
pub proof fn lemma_timestamp_round_trip(ts: u64, prefix: u8)
    ensures
        timestamp_value(timestamp_bytes(ts, prefix)) == ts as int % 0x2_0000_0000,
{
    let b = timestamp_bytes(ts, prefix);
    assert(ts / 0x4000_0000 % 8 * 0x4000_0000 + ts / 0x40_0000 % 256 * 0x40_0000 + ts / 0x8000
        % 128 * 0x8000 + ts / 0x80 % 256 * 0x80 + ts % 128 == ts % 0x2_0000_0000) by (bit_vector);
    assert(b[0] as int / 2 % 8 == ts / 0x4000_0000 % 8);
    assert(b[2] as int / 2 == ts / 0x8000 % 128);
    assert(b[4] as int / 2 == ts % 128);
}

proof fn lemma_timestamp_low_bits(ts: u64)
    ensures
        timestamp_bytes((ts % 0x2_0000_0000) as u64, 2) == timestamp_bytes(ts, 2),
{
    let low = (ts % 0x2_0000_0000) as u64;
    assert(low / 0x4000_0000 % 8 == ts / 0x4000_0000 % 8 && low / 0x40_0000 % 256 == ts / 0x40_0000
        % 256 && low / 0x8000 % 128 == ts / 0x8000 % 128 && low / 0x80 % 256 == ts / 0x80 % 256
        && low % 128 == ts % 128) by (bit_vector)
        requires
            low == ts % 0x2_0000_0000,
    ;
    assert(timestamp_bytes(low, 2) =~= timestamp_bytes(ts, 2));
}

/// 33-bit timestamp encoded into 5 bytes with the given 4-bit prefix.
///
/// ```text
/// Byte 0: PPPP TTT 1
/// Byte 1: TTTTTTTT
/// Byte 2: TTTTTTT 1
/// Byte 3: TTTTTTTT
/// Byte 4: TTTTTTT 1
/// ```
pub fn encode_timestamp(ts: u64, prefix: u8) -> (r: [u8; 5])
    ensures
        r@ == timestamp_bytes(ts, prefix),
{
    let r: [u8; 5] = [
        prefix % 16 * 16 + ((ts / 0x4000_0000) % 8) as u8 * 2 + 1,
        ((ts / 0x40_0000) % 256) as u8,
        ((ts / 0x8000) % 128) as u8 * 2 + 1,
        ((ts / 0x80) % 256) as u8,
        (ts % 128) as u8 * 2 + 1,
    ];
    assert(r@ =~= timestamp_bytes(ts, prefix));
    r
}

/// The fourteen bytes in front of a PES payload: start code, stream, length
/// zero (unbounded), flags for a PTS alone, the PTS.
pub open spec fn pes_header(stream_id: u8, pts: u64) -> Seq<u8> {
    seq![0x00u8, 0x00, 0x01, stream_id, 0x00, 0x00, 0x80, 0x80, 0x05] + timestamp_bytes(pts, 2)
}

/// One access unit as a PES packet.
pub open spec fn pes_bytes(stream_id: u8, pts: u64, payload: Seq<u8>) -> Seq<u8> {
    pes_header(stream_id, pts) + payload
}

/// A PES packet gives back its timestamp, modulo 2^33, and its payload.
pub proof fn lemma_pes_round_trip(stream_id: u8, pts: u64, payload: Seq<u8>)
    ensures
        ({
            let pes = pes_bytes(stream_id, pts, payload);
            &&& timestamp_value(pes.subrange(9, 14)) == pts as int % 0x2_0000_0000
            &&& pes.skip(14) == payload
        }),
{
    let pes = pes_bytes(stream_id, pts, payload);
    assert(pes.subrange(9, 14) =~= timestamp_bytes(pts, 2));
    assert(pes.skip(14) =~= payload);
    lemma_timestamp_round_trip(pts, 2);
}

/// Builds a PES packet for one video access unit: the 6-byte PES header, the
/// optional header with its flags and the PTS, and the Annex-B payload.
pub fn build_pes_packet(stream_id: u8, pts_90khz: u64, payload: &[u8]) -> (r: Vec<u8>)
    ensures
        r@ == pes_bytes(stream_id, pts_90khz, payload@),
{
    let mut pes: Vec<u8> = Vec::new();
    pes.push(0x00);
    pes.push(0x00);
    pes.push(0x01);
    pes.push(stream_id);
    // A length of zero means "unbounded", which is required for access units
    // that exceed 65535 bytes.
    pes.push(0x00);
    pes.push(0x00);
    // '10' marker, all other bits of this byte off.
    pes.push(0x80);
    // PTS_DTS_flags=10 (PTS only), all others off.
    pes.push(0x80);
    // PES_header_data_length = 5 (just the PTS).
    pes.push(0x05);
    let pts: u64 = pts_90khz % 0x2_0000_0000;
    let pts_bytes = encode_timestamp(pts, 2);
    push_all(&mut pes, pts_bytes.as_slice());
    push_all(&mut pes, payload);
    proof {
        lemma_timestamp_low_bits(pts_90khz);
        assert(pes@ =~= pes_bytes(stream_id, pts_90khz, payload@));
    }
    pes
}

// ---------------------------------------------------------------------
// Packets
// ---------------------------------------------------------------------

/// The program clock reference: 33-bit base, six reserved bits, extension
/// zero.
pub open spec fn pcr_bytes(base: u64) -> Seq<u8> {
    seq![
        (base as int / 0x200_0000 % 256) as u8,
        (base as int / 0x2_0000 % 256) as u8,
        (base as int / 0x200 % 256) as u8,
        (base as int / 2 % 256) as u8,
        (base as int % 2 * 0x80 + 0x7E) as u8,
        0x00u8,
    ]
}

/// The base of a program clock reference.
pub open spec fn pcr_value(b: Seq<u8>) -> int {
    b[0] * 0x200_0000 + b[1] * 0x2_0000 + b[2] * 0x200 + b[3] * 2 + b[4] as int / 0x80
}

/// The PCR gives back the lower 33 bits of the clock.
pub proof fn lemma_pcr_round_trip(base: u64)
    ensures
        pcr_value(pcr_bytes(base)) == base as int % 0x2_0000_0000,
{
    assert(base / 0x200_0000 % 256 * 0x200_0000 + base / 0x2_0000 % 256 * 0x2_0000 + base / 0x200
        % 256 * 0x200 + base / 2 % 256 * 2 + base % 2 == base % 0x2_0000_0000) by (bit_vector);
    assert(pcr_bytes(base)[4] as int / 0x80 == base % 2);
}

/// What a packet needs besides its payload.
pub struct PacketInfo {
    pub pid: u16,
    /// First packet of its access unit.
    pub first: bool,
    pub pcr: u64,
    pub keyframe: bool,
}

/// How many of `len` payload bytes the next packet takes.
pub open spec fn payload_taken(first: bool, len: int) -> int {
    let room = if first {
        176int
    } else {
        184
    };
    if len < room {
        len
    } else {
        room
    }
}

/// The adaptation field that fills `size` bytes of a packet. The first
/// packet of an access unit carries the PCR there, and the random access
/// flag for a keyframe; any other packet only stuffing.
pub open spec fn adaptation_field(info: PacketInfo, size: int) -> Seq<u8> {
    if info.first {
        seq![
            (size - 1) as u8,
            if info.keyframe {
                0x50u8
            } else {
                0x10u8
            },
        ] + pcr_bytes(info.pcr) + stuffing(size - 8)
    } else if size == 0 {
        Seq::empty()
    } else if size == 1 {
        seq![0u8]
    } else {
        seq![(size - 1) as u8, 0u8] + stuffing(size - 2)
    }
}

/// The packet with the continuity counter `cc` that carries `payload`.
#[verifier::opaque]
pub open spec fn packet_bytes(info: PacketInfo, cc: int, payload: Seq<u8>) -> Seq<u8> {
    let size = 184 - payload.len();
    let control: int = if size > 0 {
        if payload.len() > 0 {
            3
        } else {
            2
        }
    } else {
        1
    };
    packet_start(info.pid, info.first) + seq![(control * 16 + cc % 16) as u8] + adaptation_field(
        info,
        size,
    ) + payload
}

/// A PES packet cut into transport stream packets, whose continuity counters
/// run from `cc` on.
pub open spec fn packets(info: PacketInfo, cc: int, pes: Seq<u8>) -> Seq<u8>
    decreases pes.len(),
{
    if pes.len() == 0 {
        Seq::empty()
    } else {
        let n = payload_taken(info.first, pes.len() as int);
        packet_bytes(info, cc, pes.take(n)) + packets(
            PacketInfo { first: false, ..info },
            cc + 1,
            pes.skip(n),
        )
    }
}

/// How many packets that takes.
pub open spec fn packet_count(first: bool, len: nat) -> nat
    decreases len,
{
    if len == 0 {
        0
    } else {
        1 + packet_count(false, (len - payload_taken(first, len as int)) as nat)
    }
}

/// One packet with `payload`.
fn build_packet(info: &PacketInfo, cc: u8, payload: &[u8]) -> (r: Vec<u8>)
    requires
        cc < 16,
        payload@.len() <= if info.first {
            176int
        } else {
            184
        },
    ensures
        r@ == packet_bytes(*info, cc as int, payload@),
{
    let mut pkt: Vec<u8> = Vec::with_capacity(PACKET_SIZE);
    pkt.push(SYNC_BYTE);
    let start: u8 = if info.first {
        0x40
    } else {
        0
    };
    pkt.push(start + ((info.pid / 256) % 32) as u8);
    pkt.push((info.pid % 256) as u8);
    let size: usize = PACKET_SIZE - 4 - payload.len();
    let control: u8 = if size > 0 {
        if payload.len() > 0 {
            3
        } else {
            2
        }
    } else {
        1
    };
    pkt.push(control * 16 + cc);
    if info.first {
        pkt.push((size - 1) as u8);
        pkt.push(
            if info.keyframe {
                0x50
            } else {
                0x10
            },
        );
        let base: u64 = info.pcr;
        pkt.push(((base / 0x200_0000) % 256) as u8);
        pkt.push(((base / 0x2_0000) % 256) as u8);
        pkt.push(((base / 0x200) % 256) as u8);
        pkt.push(((base / 2) % 256) as u8);
        pkt.push((base % 2) as u8 * 0x80 + 0x7E);
        pkt.push(0x00);
        push_copies(&mut pkt, 0xFF, size - 8);
    } else if size == 1 {
        pkt.push(0);
    } else if size > 1 {
        pkt.push((size - 1) as u8);
        pkt.push(0);
        push_copies(&mut pkt, 0xFF, size - 2);
    }
    push_all(&mut pkt, payload);
    proof {
        reveal(packet_bytes);
    }
    assert(pkt@ =~= packet_bytes(*info, cc as int, payload@));
    pkt
}

// ---------------------------------------------------------------------
// Muxer
// ---------------------------------------------------------------------

/// The state of a muxer: the continuity counters of its three PIDs and the
/// timestamp of the last PAT and PMT, none before the first.
pub struct MuxerState {
    pub video_cc: int,
    pub pat_cc: int,
    pub pmt_cc: int,
    pub last_psi: Option<int>,
}

/// The continuity counters fit their four bits.
pub open spec fn counters_fit(s: MuxerState) -> bool {
    0 <= s.video_cc < 16 && 0 <= s.pat_cc < 16 && 0 <= s.pmt_cc < 16
}

/// A 90 kHz timestamp as the muxer compares it: a 64-bit two's complement
/// number.
pub open spec fn signed_pts(pts: u64) -> int {
    if pts < 0x8000_0000_0000_0000 {
        pts as int
    } else {
        pts - 0x1_0000_0000_0000_0000
    }
}

/// Whether the tables are due: at the first access unit and once at least
/// 100 ms have passed since they were sent.
pub open spec fn psi_due(s: MuxerState, pts: u64) -> bool {
    match s.last_psi {
        None => true,
        Some(last) => signed_pts(pts) - last >= PSI_INTERVAL,
    }
}

/// The bytes that one access unit becomes.
pub open spec fn chunk(s: MuxerState, au: Seq<u8>, pts: u64, keyframe: bool) -> Seq<u8> {
    let tables = if psi_due(s, pts) {
        psi_packet_bytes(PAT_PID, s.pat_cc, section(pat_body())) + psi_packet_bytes(
            PMT_PID,
            s.pmt_cc,
            section(pmt_body()),
        )
    } else {
        Seq::empty()
    };
    tables + packets(
        PacketInfo { pid: VIDEO_PID, first: true, pcr: pts, keyframe },
        s.video_cc,
        pes_bytes(VIDEO_STREAM_ID, pts, au),
    )
}

/// The state after that access unit.
pub open spec fn state_after(s: MuxerState, au: Seq<u8>, pts: u64) -> MuxerState {
    let due = psi_due(s, pts);
    MuxerState {
        video_cc: (s.video_cc + packet_count(true, au.len() + 14)) % 16,
        pat_cc: if due {
            (s.pat_cc + 1) % 16
        } else {
            s.pat_cc
        },
        pmt_cc: if due {
            (s.pmt_cc + 1) % 16
        } else {
            s.pmt_cc
        },
        last_psi: if due {
            Some(signed_pts(pts))
        } else {
            s.last_psi
        },
    }
}

pub struct MpegTsMuxer {
    video_cc: u8,
    pat_cc: u8,
    pmt_cc: u8,
    last_pat_pmt_pts: i64,
    /// Set once the first tables are out.
    started: bool,
}

impl View for MpegTsMuxer {
    type V = MuxerState;

    closed spec fn view(&self) -> MuxerState {
        MuxerState {
            video_cc: self.video_cc as int,
            pat_cc: self.pat_cc as int,
            pmt_cc: self.pmt_cc as int,
            last_psi: if self.started {
                Some(self.last_pat_pmt_pts as int)
            } else {
                None
            },
        }
    }
}

proof fn lemma_counter_wraps(info: PacketInfo, cc: int, pes: Seq<u8>)
    ensures
        packets(info, cc, pes) == packets(info, cc % 16, pes),
    decreases pes.len(),
{
    if pes.len() != 0 {
        reveal(packet_bytes);
        let n = payload_taken(info.first, pes.len() as int);
        let next = PacketInfo { first: false, ..info };
        lemma_counter_wraps(next, cc + 1, pes.skip(n));
        lemma_counter_wraps(next, cc % 16 + 1, pes.skip(n));
        assert((cc + 1) % 16 == (cc % 16 + 1) % 16);
    }
}

proof fn lemma_next_packet(info: PacketInfo, cc: int, pes: Seq<u8>)
    requires
        pes.len() > 0,
    ensures
        ({
            let n = payload_taken(info.first, pes.len() as int);
            &&& 0 < n <= pes.len()
            &&& packets(info, cc, pes) == packet_bytes(info, cc, pes.take(n)) + packets(
                PacketInfo { first: false, ..info },
                (cc + 1) % 16,
                pes.skip(n),
            )
            &&& packet_count(info.first, pes.len()) == 1 + packet_count(
                false,
                (pes.len() - n) as nat,
            )
        }),
{
    let n = payload_taken(info.first, pes.len() as int);
    lemma_counter_wraps(PacketInfo { first: false, ..info }, cc + 1, pes.skip(n));
}

impl MpegTsMuxer {
    #[verifier::type_invariant]
    spec fn counters_in_range(self) -> bool {
        self.video_cc < 16 && self.pat_cc < 16 && self.pmt_cc < 16
    }

    /// A muxer that has sent nothing yet.
    pub fn new() -> (r: Self)
        ensures
            r@ == (MuxerState { video_cc: 0, pat_cc: 0, pmt_cc: 0, last_psi: None }),
    {
        Self { video_cc: 0, pat_cc: 0, pmt_cc: 0, last_pat_pmt_pts: i64::MIN, started: false }
    }

    /// The 90 kHz MPEG-TS timestamp of a time since stream start, which is in
    /// nanoseconds.
    pub fn duration_to_90khz(nanos: u128) -> (r: u64)
        requires
            nanos * MPEGTS_CLOCK_HZ / 1_000_000_000 <= u64::MAX,
        ensures
            r == nanos * MPEGTS_CLOCK_HZ / 1_000_000_000,
    {
        (nanos * MPEGTS_CLOCK_HZ as u128 / 1_000_000_000) as u64
    }

    /// Returns a chunk of MPEG-TS bytes representing the supplied H.264
    /// access unit (one or more NAL units in Annex-B form) at the given PTS.
    /// If this is the first call or it has been at least 100 ms since the
    /// last PSI burst, the chunk also holds a fresh PAT and PMT.
    pub fn mux_video_au(&mut self, h264_au: &[u8], pts_90khz: u64, is_keyframe: bool) -> (r: Vec<
        u8,
    >)
        ensures
            r@ == chunk(old(self)@, h264_au@, pts_90khz, is_keyframe),
            final(self)@ == state_after(old(self)@, h264_au@, pts_90khz),
            counters_fit(final(self)@),
    {
        proof {
            use_type_invariant(&*self);
        }
        let mut out: Vec<u8> = Vec::new();
        let pts_i64: i64 = if pts_90khz < 0x8000_0000_0000_0000 {
            pts_90khz as i64
        } else {
            -((u64::MAX - pts_90khz) as i64) - 1
        };
        let need_psi = !self.started || pts_i64 as i128 - self.last_pat_pmt_pts as i128
            >= PSI_INTERVAL as i128;
        if need_psi {
            let pat = self.build_pat();
            push_all(&mut out, pat.as_slice());
            let pmt = self.build_pmt();
            push_all(&mut out, pmt.as_slice());
            self.last_pat_pmt_pts = pts_i64;
            self.started = true;
        }
        let pes = build_pes_packet(VIDEO_STREAM_ID, pts_90khz, h264_au);
        self.packetize_pes(pes.as_slice(), VIDEO_PID, pts_90khz, is_keyframe, &mut out);
        assert(out@ =~= chunk(old(self)@, h264_au@, pts_90khz, is_keyframe));
        out
    }

    fn build_pat(&mut self) -> (r: Vec<u8>)
        ensures
            r@ == psi_packet_bytes(PAT_PID, old(self)@.pat_cc, section(pat_body())),
            final(self)@ == (MuxerState { pat_cc: (old(self)@.pat_cc + 1) % 16, ..old(self)@ }),
            final(self).started == old(self).started,
            final(self).last_pat_pmt_pts == old(self).last_pat_pmt_pts,
    {
        proof {
            use_type_invariant(&*self);
        }
        let mut sec: Vec<u8> = Vec::new();
        sec.push(0x00);
        // The length covers everything behind its own field: 5 bytes of
        // header, 4 of program entry, 4 of CRC.
        sec.push(0xB0);
        sec.push(0x0D);
        push_be16(&mut sec, TS_ID);
        // reserved=11, version=0, current_next=1
        sec.push(0xC1);
        sec.push(0x00);
        sec.push(0x00);
        push_be16(&mut sec, PROGRAM_NUMBER);
        push_be16(&mut sec, 0xE000 + PMT_PID % 0x2000);
        assert(sec@ =~= pat_body());
        let crc = crc32_mpeg2(sec.as_slice());
        push_be32(&mut sec, crc);
        let cc: u8 = self.pat_cc;
        self.pat_cc = (cc + 1) % 16;
        psi_packet(PAT_PID, cc, sec.as_slice())
    }

    fn build_pmt(&mut self) -> (r: Vec<u8>)
        ensures
            r@ == psi_packet_bytes(PMT_PID, old(self)@.pmt_cc, section(pmt_body())),
            final(self)@ == (MuxerState { pmt_cc: (old(self)@.pmt_cc + 1) % 16, ..old(self)@ }),
            final(self).started == old(self).started,
            final(self).last_pat_pmt_pts == old(self).last_pat_pmt_pts,
    {
        proof {
            use_type_invariant(&*self);
        }
        let mut sec: Vec<u8> = Vec::new();
        sec.push(0x02);
        // The section length is patched once the body is complete.
        sec.push(0x00);
        sec.push(0x00);
        push_be16(&mut sec, PROGRAM_NUMBER);
        sec.push(0xC1);
        sec.push(0x00);
        sec.push(0x00);
        // PCR PID, then an empty program_info.
        push_be16(&mut sec, 0xE000 + VIDEO_PID % 0x2000);
        sec.push(0xF0);
        sec.push(0x00);
        // One elementary stream with an empty ES_info.
        sec.push(STREAM_TYPE_H264);
        push_be16(&mut sec, 0xE000 + VIDEO_PID % 0x2000);
        sec.push(0xF0);
        sec.push(0x00);
        // The length covers everything behind its own field, the CRC
        // included.
        let section_len: usize = sec.len() - 3 + 4;
        sec[1] = 0xB0 + ((section_len / 256) % 16) as u8;
        sec[2] = (section_len % 256) as u8;
        assert(sec@ =~= pmt_body());
        let crc = crc32_mpeg2(sec.as_slice());
        push_be32(&mut sec, crc);
        let cc: u8 = self.pmt_cc;
        self.pmt_cc = (cc + 1) % 16;
        psi_packet(PMT_PID, cc, sec.as_slice())
    }

    fn packetize_pes(
        &mut self,
        pes: &[u8],
        pid: u16,
        pcr_90khz: u64,
        is_keyframe: bool,
        out: &mut Vec<u8>,
    )
        ensures
            final(out)@ == old(out)@ + packets(
                PacketInfo { pid, first: true, pcr: pcr_90khz, keyframe: is_keyframe },
                old(self)@.video_cc,
                pes@,
            ),
            final(self)@ == (MuxerState {
                video_cc: (old(self)@.video_cc + packet_count(true, pes@.len())) % 16,
                ..old(self)@
            }),
    {
        proof {
            use_type_invariant(&*self);
        }
        let ghost start = *self;
        let ghost whole = packets(
            PacketInfo { pid, first: true, pcr: pcr_90khz, keyframe: is_keyframe },
            start@.video_cc,
            pes@,
        );
        let mut cc: u8 = self.video_cc;
        let mut offset: usize = 0;
        let mut first = true;
        assert(pes@.skip(0) =~= pes@);
        while offset < pes.len()
            invariant
                offset <= pes@.len(),
                cc < 16,
                first == (offset == 0),
                old(out)@ + whole == out@ + packets(
                    PacketInfo { pid, first, pcr: pcr_90khz, keyframe: is_keyframe },
                    cc as int,
                    pes@.skip(offset as int),
                ),
                (start@.video_cc + packet_count(true, pes@.len())) % 16 == (cc + packet_count(
                    first,
                    (pes@.len() - offset) as nat,
                )) % 16,
            decreases pes@.len() - offset,
        {
            let info = PacketInfo { pid, first, pcr: pcr_90khz, keyframe: is_keyframe };
            // The first packet spends eight bytes on the PCR.
            let room: usize = if first {
                PACKET_SIZE - 12
            } else {
                PACKET_SIZE - 4
            };
            let left: usize = pes.len() - offset;
            let n: usize = if left < room {
                left
            } else {
                room
            };
            let payload = vstd::slice::slice_subrange(pes, offset, offset + n);
            let pkt = build_packet(&info, cc, payload);
            let ghost before = out@;
            push_all(out, pkt.as_slice());
            proof {
                let rest = pes@.skip(offset as int);
                lemma_next_packet(info, cc as int, rest);
                assert(rest.take(n as int) =~= payload@);
                assert(rest.skip(n as int) =~= pes@.skip(offset + n));
                let tail = packets(
                    PacketInfo { first: false, ..info },
                    (cc + 1) % 16,
                    pes@.skip(offset + n),
                );
                assert(before + (pkt@ + tail) =~= (before + pkt@) + tail);
            }
            cc = (cc + 1) % 16;
            offset = offset + n;
            first = false;
        }
        assert(out@ + Seq::<u8>::empty() =~= out@);
        self.video_cc = cc;
    }
}

} // verus!
