//! What a receiver reads in the muxer's output.

use crate::crc::{crc32, lemma_crc_checks};
use crate::mpegts::{
    adaptation_field, chunk, lemma_pes_round_trip, packet_bytes, packet_count, packet_start,
    packets, pat_body, payload_taken, pcr_bytes, pcr_value, pes_bytes, pmt_body, psi_due,
    psi_packet_bytes, section, signed_pts, state_after, timestamp_value, MuxerState, PacketInfo,
    PAT_PID, PMT_PID, SYNC_BYTE, VIDEO_PID, VIDEO_STREAM_ID,
};
use vstd::prelude::*;

verus! {

/// The 13-bit PID of a packet.
pub open spec fn packet_pid(p: Seq<u8>) -> int {
    p[1] as int % 32 * 256 + p[2]
}

/// The payload unit start flag of a packet.
pub open spec fn packet_unit_start(p: Seq<u8>) -> bool {
    p[1] as int / 64 % 2 == 1
}

/// The continuity counter of a packet.
pub open spec fn packet_counter(p: Seq<u8>) -> int {
    p[3] as int % 16
}

/// What a packet carries behind its header and its adaptation field.
pub open spec fn packet_payload(p: Seq<u8>) -> Seq<u8> {
    let control = p[3] as int / 16 % 4;
    if control == 1 {
        p.skip(4)
    } else if control == 3 {
        p.skip(5 + p[4])
    } else {
        Seq::empty()
    }
}

/// The flags of a packet's adaptation field, where it has one.
pub open spec fn packet_flags(p: Seq<u8>) -> Option<int> {
    if p[3] as int / 32 % 2 == 1 && p[4] >= 1 {
        Some(p[5] as int)
    } else {
        None
    }
}

/// The clock that a packet carries, read only where the flags announce it.
pub open spec fn packet_clock(p: Seq<u8>) -> Option<int> {
    match packet_flags(p) {
        Some(f) if f / 16 % 2 == 1 && p[4] >= 7 => Some(
            p[6] * 0x200_0000 + p[7] * 0x2_0000 + p[8] * 0x200 + p[9] * 2 + p[10] as int / 0x80,
        ),
        _ => None,
    }
}

/// Whether decoding can start at a packet.
pub open spec fn packet_random_access(p: Seq<u8>) -> bool {
    packet_flags(p) matches Some(f) && f / 64 % 2 == 1
}

/// What each start of an access unit on one PID shows: the clock and whether
/// decoding can start there.
pub open spec fn pid_starts(s: Seq<u8>, pid: u16) -> Seq<(Option<int>, bool)>
    decreases s.len(),
{
    if s.len() < 188 {
        Seq::empty()
    } else {
        let p = s.take(188);
        let rest = pid_starts(s.skip(188), pid);
        if packet_pid(p) == pid && packet_unit_start(p) {
            seq![(packet_clock(p), packet_random_access(p))] + rest
        } else {
            rest
        }
    }
}

/// A stream is made of whole packets, each with its sync byte.
pub open spec fn in_sync(s: Seq<u8>) -> bool
    decreases s.len(),
{
    s.len() == 0 || (s.len() >= 188 && s[0] == SYNC_BYTE && in_sync(s.skip(188)))
}

/// The payload of one PID, packet after packet.
pub open spec fn pid_payload(s: Seq<u8>, pid: u16) -> Seq<u8>
    decreases s.len(),
{
    if s.len() < 188 {
        Seq::empty()
    } else {
        let p = s.take(188);
        let rest = pid_payload(s.skip(188), pid);
        if packet_pid(p) == pid {
            packet_payload(p) + rest
        } else {
            rest
        }
    }
}

/// The continuity counters of one PID, packet after packet.
pub open spec fn pid_counters(s: Seq<u8>, pid: u16) -> Seq<int>
    decreases s.len(),
{
    if s.len() < 188 {
        Seq::empty()
    } else {
        let p = s.take(188);
        let rest = pid_counters(s.skip(188), pid);
        if packet_pid(p) == pid {
            seq![packet_counter(p)] + rest
        } else {
            rest
        }
    }
}

/// `n` counters that run from `cc` on without a gap, modulo 16.
pub open spec fn counter_run(cc: int, n: nat) -> Seq<int> {
    Seq::new(n, |i: int| (cc + i) % 16)
}

/// Streams join: what is read of two in a row is what is read of each.
proof fn lemma_join(s: Seq<u8>, t: Seq<u8>, pid: u16)
    requires
        in_sync(s),
    ensures
        in_sync(t) ==> in_sync(s + t),
        pid_payload(s + t, pid) == pid_payload(s, pid) + pid_payload(t, pid),
        pid_counters(s + t, pid) == pid_counters(s, pid) + pid_counters(t, pid),
        pid_starts(s + t, pid) == pid_starts(s, pid) + pid_starts(t, pid),
    decreases s.len(),
{
    if s.len() == 0 {
        assert(s + t =~= t);
        assert(pid_payload(s, pid) + pid_payload(t, pid) =~= pid_payload(t, pid));
        assert(pid_counters(s, pid) + pid_counters(t, pid) =~= pid_counters(t, pid));
        assert(pid_starts(s, pid) + pid_starts(t, pid) =~= pid_starts(t, pid));
    } else {
        lemma_join(s.skip(188), t, pid);
        assert((s + t).skip(188) =~= s.skip(188) + t);
        assert((s + t).take(188) =~= s.take(188));
        assert(pid_payload(s + t, pid) =~= pid_payload(s, pid) + pid_payload(t, pid));
        assert(pid_counters(s + t, pid) =~= pid_counters(s, pid) + pid_counters(t, pid));
        assert(pid_starts(s + t, pid) =~= pid_starts(s, pid) + pid_starts(t, pid));
    }
}

/// A packet that is the whole stream.
proof fn lemma_one_packet(p: Seq<u8>, pid: u16)
    requires
        p.len() == 188,
        p[0] == SYNC_BYTE,
    ensures
        in_sync(p),
        pid_payload(p, pid) == if packet_pid(p) == pid {
            packet_payload(p)
        } else {
            Seq::empty()
        },
        pid_counters(p, pid) == if packet_pid(p) == pid {
            seq![packet_counter(p)]
        } else {
            Seq::empty()
        },
        pid_starts(p, pid) == if packet_pid(p) == pid && packet_unit_start(p) {
            seq![(packet_clock(p), packet_random_access(p))]
        } else {
            Seq::empty()
        },
{
    assert(p.take(188) =~= p);
    assert(p.skip(188) =~= Seq::empty());
    assert(in_sync(p.skip(188)));
    assert(pid_payload(p.skip(188), pid) =~= Seq::empty());
    assert(pid_counters(p.skip(188), pid) =~= Seq::empty());
    assert(pid_starts(p.skip(188), pid) =~= Seq::empty());
    let mark = seq![(packet_clock(p), packet_random_access(p))];
    assert(mark + Seq::<(Option<int>, bool)>::empty() =~= mark);
    assert(packet_payload(p) + Seq::<u8>::empty() =~= packet_payload(p));
    assert(seq![packet_counter(p)] + Seq::<int>::empty() =~= seq![packet_counter(p)]);
}

/// A video packet is 188 bytes long and shows the receiver its PID, its
/// counter, whether an access unit starts there, and its payload. The first
/// packet of an access unit, whatever its length, announces and shows the
/// clock and, for a keyframe, the random access flag; no other packet does,
/// and no other flag is ever set.
pub proof fn lemma_packet_read(info: PacketInfo, cc: int, payload: Seq<u8>)
    requires
        info.pid < 0x2000,
        0 < payload.len() <= if info.first {
            176int
        } else {
            184
        },
    ensures
        ({
            let p = packet_bytes(info, cc, payload);
            &&& p.len() == 188
            &&& p[0] == SYNC_BYTE
            &&& packet_pid(p) == info.pid
            &&& packet_unit_start(p) == info.first
            &&& packet_counter(p) == cc % 16
            &&& packet_payload(p) == payload
            &&& info.first ==> pcr_value(p.subrange(6, 12)) == info.pcr as int % 0x2_0000_0000
            &&& info.first ==> (p[5] as int / 64 % 2 == 1) == info.keyframe
            &&& packet_clock(p) == if info.first {
                Some(info.pcr as int % 0x2_0000_0000)
            } else {
                None
            }
            &&& packet_random_access(p) == (info.first && info.keyframe)
            &&& packet_flags(p) matches Some(f) ==> f / 128 == 0 && f / 32 % 2 == 0 && f % 16 == 0
            &&& p[3] as int / 64 == 0
        }),
{
    reveal(packet_bytes);
    let p = packet_bytes(info, cc, payload);
    let size = 184 - payload.len();
    let field = adaptation_field(info, size);
    assert(field.len() == size);
    assert(p.len() == 188);
    let start = packet_start(info.pid, info.first);
    assert(p[0] == start[0] && p[1] == start[1] && p[2] == start[2]);
    if size > 0 {
        assert(p[3] as int / 16 % 4 == 3);
        assert(p[4] == field[0]);
        assert(p[4] == size - 1);
        assert(p.skip(5 + p[4]) =~= payload);
    } else {
        assert(p[3] as int / 16 % 4 == 1);
        assert(p.skip(4) =~= payload);
    }
    if info.first {
        assert(p.subrange(6, 12) =~= pcr_bytes(info.pcr));
        crate::mpegts::lemma_pcr_round_trip(info.pcr);
        assert(p[5] == field[1]);
        let b = p.subrange(6, 12);
        assert(b[0] == p[6] && b[1] == p[7] && b[2] == p[8] && b[3] == p[9] && b[4] == p[10]);
    } else if size > 1 {
        assert(p[5] == field[1]);
    }
}

/// The packets of one access unit give back its PES packet, in packets whose
/// counters run on without a gap.
pub proof fn lemma_packets_read(info: PacketInfo, cc: int, pes: Seq<u8>)
    requires
        info.pid < 0x2000,
    ensures
        in_sync(packets(info, cc, pes)),
        pid_payload(packets(info, cc, pes), info.pid) == pes,
        pid_counters(packets(info, cc, pes), info.pid) == counter_run(
            cc,
            packet_count(info.first, pes.len()),
        ),
        pid_starts(packets(info, cc, pes), info.pid) == if info.first && pes.len() > 0 {
            seq![(Some(info.pcr as int % 0x2_0000_0000), info.keyframe)]
        } else {
            Seq::empty()
        },
    decreases pes.len(),
{
    if pes.len() == 0 {
        assert(pid_starts(packets(info, cc, pes), info.pid) =~= Seq::empty());
        assert(pid_payload(packets(info, cc, pes), info.pid) =~= pes);
        assert(pid_counters(packets(info, cc, pes), info.pid) =~= counter_run(cc, 0));
    } else {
        let n = payload_taken(info.first, pes.len() as int);
        let next = PacketInfo { first: false, ..info };
        let p = packet_bytes(info, cc, pes.take(n));
        let rest = packets(next, cc + 1, pes.skip(n));
        lemma_packet_read(info, cc, pes.take(n));
        lemma_packets_read(next, cc + 1, pes.skip(n));
        lemma_one_packet(p, info.pid);
        lemma_join(p, rest, info.pid);
        assert(pes.take(n) + pes.skip(n) =~= pes);
        let count = packet_count(false, (pes.len() - n) as nat);
        assert(seq![cc % 16] + counter_run(cc + 1, count) =~= counter_run(cc, 1 + count));
        let none = Seq::<(Option<int>, bool)>::empty();
        assert(pid_starts(p, info.pid) + none =~= pid_starts(p, info.pid));
    }
}

/// A table packet shows its PID and its counter, and holds the section
/// behind a pointer field of zero.
pub proof fn lemma_table_read(pid: u16, cc: int, sec: Seq<u8>)
    requires
        pid < 0x2000,
        sec.len() <= 183,
    ensures
        ({
            let p = psi_packet_bytes(pid, cc, sec);
            &&& p.len() == 188
            &&& p[0] == SYNC_BYTE
            &&& packet_pid(p) == pid
            &&& packet_unit_start(p)
            &&& packet_counter(p) == cc % 16
            &&& packet_payload(p)[0] == 0
            &&& packet_payload(p).subrange(1, sec.len() + 1int) == sec
        }),
{
    let p = psi_packet_bytes(pid, cc, sec);
    let start = packet_start(pid, true);
    assert(p.len() == 188);
    assert(p[0] == start[0] && p[1] == start[1] && p[2] == start[2]);
    assert(p[3] as int / 16 % 4 == 1);
    assert(packet_payload(p).subrange(1, sec.len() + 1int) =~= sec);
}

/// A receiver accepts both tables: their checksums are right and their
/// length fields cover what follows them, the checksum included.
pub proof fn lemma_tables_valid()
    ensures
        crc32(section(pat_body())) == 0,
        crc32(section(pmt_body())) == 0,
        section(pat_body())[1] as int % 16 * 256 + section(pat_body())[2] == section(
            pat_body(),
        ).len() - 3,
        section(pmt_body())[1] as int % 16 * 256 + section(pmt_body())[2] == section(
            pmt_body(),
        ).len() - 3,
{
    lemma_crc_checks(pat_body());
    lemma_crc_checks(pmt_body());
}

/// One access unit, as it is handed to the muxer.
pub struct AccessUnit {
    pub data: Seq<u8>,
    pub pts: u64,
    pub keyframe: bool,
}

/// The output for a run of access units.
pub open spec fn stream(s: MuxerState, units: Seq<AccessUnit>) -> Seq<u8>
    decreases units.len(),
{
    if units.len() == 0 {
        Seq::empty()
    } else {
        let u = units[0];
        chunk(s, u.data, u.pts, u.keyframe) + stream(
            state_after(s, u.data, u.pts),
            units.skip(1),
        )
    }
}

/// Their PES packets, one after the other.
pub open spec fn pes_stream(units: Seq<AccessUnit>) -> Seq<u8>
    decreases units.len(),
{
    if units.len() == 0 {
        Seq::empty()
    } else {
        pes_bytes(VIDEO_STREAM_ID, units[0].pts, units[0].data) + pes_stream(units.skip(1))
    }
}

/// How many video packets they take.
pub open spec fn stream_packets(units: Seq<AccessUnit>) -> nat
    decreases units.len(),
{
    if units.len() == 0 {
        0
    } else {
        packet_count(true, units[0].data.len() + 14) + stream_packets(units.skip(1))
    }
}

/// One chunk: whole packets, and on the video PID the PES packet of its
/// access unit with counters from the muxer's on.
pub proof fn lemma_chunk_read(s: MuxerState, u: AccessUnit)
    ensures
        ({
            let out = chunk(s, u.data, u.pts, u.keyframe);
            &&& in_sync(out)
            &&& pid_payload(out, VIDEO_PID) == pes_bytes(VIDEO_STREAM_ID, u.pts, u.data)
            &&& pid_counters(out, VIDEO_PID) == counter_run(
                s.video_cc,
                packet_count(true, u.data.len() + 14),
            )
            &&& pid_starts(out, VIDEO_PID) == seq![
                (Some(u.pts as int % 0x2_0000_0000), u.keyframe),
            ]
        }),
{
    let info = PacketInfo { pid: VIDEO_PID, first: true, pcr: u.pts, keyframe: u.keyframe };
    let pes = pes_bytes(VIDEO_STREAM_ID, u.pts, u.data);
    let video = packets(info, s.video_cc, pes);
    lemma_packets_read(info, s.video_cc, pes);
    assert(pes.len() == u.data.len() + 14);
    if psi_due(s, u.pts) {
        let pat = psi_packet_bytes(PAT_PID, s.pat_cc, section(pat_body()));
        let pmt = psi_packet_bytes(PMT_PID, s.pmt_cc, section(pmt_body()));
        lemma_table_read(PAT_PID, s.pat_cc, section(pat_body()));
        lemma_table_read(PMT_PID, s.pmt_cc, section(pmt_body()));
        lemma_one_packet(pat, VIDEO_PID);
        lemma_one_packet(pmt, VIDEO_PID);
        lemma_join(pat, pmt, VIDEO_PID);
        lemma_join(pat + pmt, video, VIDEO_PID);
        assert(Seq::<u8>::empty() + Seq::<u8>::empty() + pes =~= pes);
        let run = counter_run(s.video_cc, packet_count(true, pes.len()));
        assert(Seq::<int>::empty() + Seq::<int>::empty() + run =~= run);
        let none = Seq::<(Option<int>, bool)>::empty();
        let mark = pid_starts(video, VIDEO_PID);
        assert(none + none + mark =~= mark);
    } else {
        assert(Seq::<u8>::empty() + video =~= video);
    }
}

/// Whatever the access units, a receiver of the muxer's output stays in
/// sync, reads back every PES packet in order, and sees the continuity
/// counter of the video PID run on without a gap across all of them.
#[verifier::rlimit(60)]
pub proof fn lemma_stream_read(s: MuxerState, units: Seq<AccessUnit>)
    ensures
        in_sync(stream(s, units)),
        pid_payload(stream(s, units), VIDEO_PID) == pes_stream(units),
        pid_counters(stream(s, units), VIDEO_PID) == counter_run(
            s.video_cc,
            stream_packets(units),
        ),
    decreases units.len(),
{
    if units.len() == 0 {
        assert(pid_payload(stream(s, units), VIDEO_PID) =~= pes_stream(units));
        assert(pid_counters(stream(s, units), VIDEO_PID) =~= counter_run(s.video_cc, 0));
    } else {
        let u = units[0];
        let next = state_after(s, u.data, u.pts);
        lemma_chunk_read(s, u);
        lemma_stream_read(next, units.skip(1));
        lemma_join(
            chunk(s, u.data, u.pts, u.keyframe),
            stream(next, units.skip(1)),
            VIDEO_PID,
        );
        let n = packet_count(true, u.data.len() + 14);
        let m = stream_packets(units.skip(1));
        assert forall|i: int| 0 <= i < m implies #[trigger] counter_run(next.video_cc, m)[i] == (
        s.video_cc + n + i) % 16 by {}
        assert(counter_run(s.video_cc, n) + counter_run(next.video_cc, m) =~= counter_run(
            s.video_cc,
            n + m,
        ));
    }
}

/// The packets of one access unit put nothing on another PID.
proof fn lemma_packets_stay_on_pid(info: PacketInfo, cc: int, pes: Seq<u8>, other: u16)
    requires
        info.pid < 0x2000,
        other != info.pid,
    ensures
        pid_payload(packets(info, cc, pes), other) == Seq::<u8>::empty(),
        pid_counters(packets(info, cc, pes), other) == Seq::<int>::empty(),
    decreases pes.len(),
{
    if pes.len() != 0 {
        let n = payload_taken(info.first, pes.len() as int);
        let next = PacketInfo { first: false, ..info };
        let p = packet_bytes(info, cc, pes.take(n));
        let rest = packets(next, cc + 1, pes.skip(n));
        lemma_packet_read(info, cc, pes.take(n));
        lemma_packets_stay_on_pid(next, cc + 1, pes.skip(n), other);
        lemma_one_packet(p, other);
        lemma_join(p, rest, other);
        assert(Seq::<u8>::empty() + Seq::<u8>::empty() =~= Seq::<u8>::empty());
        assert(Seq::<int>::empty() + Seq::<int>::empty() =~= Seq::<int>::empty());
    }
}

/// How often the tables are sent with a run of access units.
pub open spec fn table_bursts(s: MuxerState, units: Seq<AccessUnit>) -> nat
    decreases units.len(),
{
    if units.len() == 0 {
        0
    } else {
        let u = units[0];
        (if psi_due(s, u.pts) {
            1nat
        } else {
            0nat
        }) + table_bursts(state_after(s, u.data, u.pts), units.skip(1))
    }
}

proof fn lemma_chunk_tables_read(s: MuxerState, u: AccessUnit)
    ensures
        ({
            let out = chunk(s, u.data, u.pts, u.keyframe);
            let n = if psi_due(s, u.pts) {
                1nat
            } else {
                0nat
            };
            &&& pid_counters(out, PAT_PID) == counter_run(s.pat_cc, n)
            &&& pid_counters(out, PMT_PID) == counter_run(s.pmt_cc, n)
        }),
{
    let info = PacketInfo { pid: VIDEO_PID, first: true, pcr: u.pts, keyframe: u.keyframe };
    let pes = pes_bytes(VIDEO_STREAM_ID, u.pts, u.data);
    let video = packets(info, s.video_cc, pes);
    lemma_packets_stay_on_pid(info, s.video_cc, pes, PAT_PID);
    lemma_packets_stay_on_pid(info, s.video_cc, pes, PMT_PID);
    let none = Seq::<int>::empty();
    if psi_due(s, u.pts) {
        let pat = psi_packet_bytes(PAT_PID, s.pat_cc, section(pat_body()));
        let pmt = psi_packet_bytes(PMT_PID, s.pmt_cc, section(pmt_body()));
        lemma_table_read(PAT_PID, s.pat_cc, section(pat_body()));
        lemma_table_read(PMT_PID, s.pmt_cc, section(pmt_body()));
        lemma_one_packet(pat, PAT_PID);
        lemma_one_packet(pmt, PAT_PID);
        lemma_one_packet(pat, PMT_PID);
        lemma_one_packet(pmt, PMT_PID);
        lemma_join(pat, pmt, PAT_PID);
        lemma_join(pat, pmt, PMT_PID);
        lemma_join(pat + pmt, video, PAT_PID);
        lemma_join(pat + pmt, video, PMT_PID);
        assert(seq![s.pat_cc % 16] + none + none =~= counter_run(s.pat_cc, 1));
        assert(none + seq![s.pmt_cc % 16] + none =~= counter_run(s.pmt_cc, 1));
    } else {
        assert(Seq::<u8>::empty() + video =~= video);
        assert(none =~= counter_run(s.pat_cc, 0));
        assert(none =~= counter_run(s.pmt_cc, 0));
    }
}

/// The continuity counters of the two table PIDs run on without a gap too,
/// across all access units.
pub proof fn lemma_table_counters_read(s: MuxerState, units: Seq<AccessUnit>)
    ensures
        pid_counters(stream(s, units), PAT_PID) == counter_run(s.pat_cc, table_bursts(s, units)),
        pid_counters(stream(s, units), PMT_PID) == counter_run(s.pmt_cc, table_bursts(s, units)),
    decreases units.len(),
{
    if units.len() == 0 {
        assert(pid_counters(stream(s, units), PAT_PID) =~= counter_run(s.pat_cc, 0));
        assert(pid_counters(stream(s, units), PMT_PID) =~= counter_run(s.pmt_cc, 0));
    } else {
        let u = units[0];
        let next = state_after(s, u.data, u.pts);
        let rest = stream(next, units.skip(1));
        let out = chunk(s, u.data, u.pts, u.keyframe);
        lemma_chunk_read(s, u);
        lemma_chunk_tables_read(s, u);
        lemma_table_counters_read(next, units.skip(1));
        lemma_join(out, rest, PAT_PID);
        lemma_join(out, rest, PMT_PID);
        let m = table_bursts(next, units.skip(1));
        lemma_runs_join(s.pat_cc, next.pat_cc, psi_due(s, u.pts), m);
        lemma_runs_join(s.pmt_cc, next.pmt_cc, psi_due(s, u.pts), m);
    }
}

proof fn lemma_runs_join(cc: int, next: int, stepped: bool, m: nat)
    requires
        next == if stepped {
            (cc + 1) % 16
        } else {
            cc
        },
    ensures
        ({
            let n = if stepped {
                1nat
            } else {
                0nat
            };
            counter_run(cc, n) + counter_run(next, m) == counter_run(cc, n + m)
        }),
{
    let n = if stepped {
        1nat
    } else {
        0nat
    };
    assert forall|i: int| 0 <= i < m implies #[trigger] counter_run(next, m)[i] == (cc + n + i)
        % 16 by {}
    assert(counter_run(cc, n) + counter_run(next, m) =~= counter_run(cc, n + m));
}

/// A receiver finds every access unit where it starts, with its own clock
/// modulo 2^33, and can start decoding exactly at the keyframes.
pub proof fn lemma_starts_read(s: MuxerState, units: Seq<AccessUnit>)
    ensures
        pid_starts(stream(s, units), VIDEO_PID).len() == units.len(),
        forall|i: int|
            0 <= i < units.len() ==> #[trigger] pid_starts(stream(s, units), VIDEO_PID)[i] == (
                Some(units[i].pts as int % 0x2_0000_0000),
                units[i].keyframe,
            ),
    decreases units.len(),
{
    if units.len() > 0 {
        let u = units[0];
        let next = state_after(s, u.data, u.pts);
        let rest = units.skip(1);
        let later = pid_starts(stream(next, rest), VIDEO_PID);
        lemma_chunk_read(s, u);
        lemma_starts_read(next, rest);
        lemma_join(chunk(s, u.data, u.pts, u.keyframe), stream(next, rest), VIDEO_PID);
        let all = pid_starts(stream(s, units), VIDEO_PID);
        assert forall|i: int| 0 <= i < units.len() implies #[trigger] all[i] == (
            Some(units[i].pts as int % 0x2_0000_0000),
            units[i].keyframe,
        ) by {
            if i > 0 {
                assert(all[i] == later[i - 1]);
                assert(rest[i - 1] == units[i]);
            }
        }
    }
}

/// A receiver of one chunk reads the access unit back, with its timestamp
/// modulo 2^33.
pub proof fn lemma_access_unit_read(s: MuxerState, u: AccessUnit)
    ensures
        ({
            let pes = pid_payload(chunk(s, u.data, u.pts, u.keyframe), VIDEO_PID);
            &&& pes.skip(14) == u.data
            &&& timestamp_value(pes.subrange(9, 14)) == u.pts as int % 0x2_0000_0000
        }),
{
    lemma_chunk_read(s, u);
    lemma_pes_round_trip(VIDEO_STREAM_ID, u.pts, u.data);
}

/// Between two tables at most 100 ms of access units pass: a unit that far
/// behind the last tables carries them, one that is nearer does not.
pub proof fn lemma_tables_cadence(s: MuxerState, u: AccessUnit, v: AccessUnit)
    requires
        psi_due(s, u.pts),
    ensures
        psi_due(state_after(s, u.data, u.pts), v.pts) <==> signed_pts(v.pts) - signed_pts(u.pts)
            >= 9_000,
{
}

/// The first access unit brings the tables, and so does each one that comes
/// 100 ms, 9000 ticks of the clock, or more after the last that did; no other
/// does.
pub proof fn lemma_tables_on_time(s: MuxerState, u: AccessUnit, v: AccessUnit)
    requires
        u.pts < 0x8000_0000_0000_0000,
        v.pts < 0x8000_0000_0000_0000,
    ensures
        s.last_psi is None ==> psi_due(s, u.pts),
        s.last_psi == Some(u.pts as int) ==> (psi_due(s, v.pts) <==> v.pts - u.pts >= 9_000),
        psi_due(s, u.pts) ==> state_after(s, u.data, u.pts).last_psi == Some(u.pts as int),
        !psi_due(s, u.pts) ==> state_after(s, u.data, u.pts).last_psi == s.last_psi,
{
}

/// Where the tables are due they come first, in front of the access unit: the
/// program association on PID 0, then the program map on PID 0x1000, each
/// whole in one packet behind a pointer field of zero, with a length that
/// covers a checksum that is right.
pub proof fn lemma_tables_come_first(s: MuxerState, u: AccessUnit)
    requires
        psi_due(s, u.pts),
    ensures
        ({
            let out = chunk(s, u.data, u.pts, u.keyframe);
            let (pat, pmt) = (out.take(188), out.subrange(188, 376));
            let (x, y) = (packet_payload(pat), packet_payload(pmt));
            let (m, n) = (x[2] as int % 16 * 256 + x[3], y[2] as int % 16 * 256 + y[3]);
            &&& out.len() > 376
            &&& packet_pid(pat) == 0 && packet_unit_start(pat)
            &&& packet_pid(pmt) == 0x1000 && packet_unit_start(pmt)
            &&& x[0] == 0 && x[1] == 0x00 && crc32(x.subrange(1, m + 4)) == 0
            &&& y[0] == 0 && y[1] == 0x02 && crc32(y.subrange(1, n + 4)) == 0
            // One program, whose map is on PID 0x1000.
            &&& m == 13 && x[11] as int % 32 * 256 + x[12] == 0x1000
            // One H.264 stream on PID 0x100, which also carries the clock.
            &&& n == 18 && y[9] as int % 32 * 256 + y[10] == 0x100
            &&& y[13] == 0x1B && y[14] as int % 32 * 256 + y[15] == 0x100
        }),
{
    let out = chunk(s, u.data, u.pts, u.keyframe);
    let (a, b) = (section(pat_body()), section(pmt_body()));
    let pat = psi_packet_bytes(PAT_PID, s.pat_cc, a);
    let pmt = psi_packet_bytes(PMT_PID, s.pmt_cc, b);
    lemma_table_read(PAT_PID, s.pat_cc, a);
    lemma_table_read(PMT_PID, s.pmt_cc, b);
    lemma_tables_valid();
    lemma_chunk_read(s, u);
    let info = PacketInfo { pid: VIDEO_PID, first: true, pcr: u.pts, keyframe: u.keyframe };
    let pes = pes_bytes(VIDEO_STREAM_ID, u.pts, u.data);
    let video = packets(info, s.video_cc, pes);
    assert(out =~= pat + pmt + video);
    assert(video.len() > 0) by {
        lemma_packet_read(
            info,
            s.video_cc,
            pes.take(payload_taken(true, pes.len() as int)),
        );
    }
    assert(out.take(188) =~= pat);
    assert(out.subrange(188, 376) =~= pmt);
    let (x, y) = (packet_payload(pat), packet_payload(pmt));
    assert(a.len() == 16 && b.len() == 21);
    let (p, q) = (x.subrange(1, 17), y.subrange(1, 22));
    assert(p == a && q == b);
    assert(x[1] == p[0] && x[2] == p[1] && x[3] == p[2] && x[11] == p[10] && x[12] == p[11]);
    assert(y[1] == q[0] && y[2] == q[1] && y[3] == q[2] && y[9] == q[8] && y[10] == q[9]);
    assert(y[13] == q[12] && y[14] == q[13] && y[15] == q[14]);
}

} // verus!
