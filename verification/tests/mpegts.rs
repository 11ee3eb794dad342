use vicash::crc::crc32_mpeg2;
use vicash::mpegts::{
    build_pes_packet, encode_timestamp, psi_packet, MpegTsMuxer, PACKET_SIZE, VIDEO_PID,
};

const PAT_SECTION: [u8; 16] = [
    0x00, 0xB0, 0x0D, 0x00, 0x01, 0xC1, 0x00, 0x00, 0x00, 0x01, 0xF0, 0x00, 0x2A, 0xB1, 0x04, 0xB2,
];

const PMT_SECTION: [u8; 21] = [
    0x02, 0xB0, 0x12, 0x00, 0x01, 0xC1, 0x00, 0x00, 0xE1, 0x00, 0xF0, 0x00, 0x1B, 0xE1, 0x00, 0xF0,
    0x00, 0x15, 0xBD, 0x4D, 0x56,
];

fn pid(p: &[u8]) -> u16 {
    u16::from(p[1] & 0x1F) << 8 | u16::from(p[2])
}

fn payload(p: &[u8]) -> &[u8] {
    if p[3] & 0x20 != 0 {
        &p[5 + p[4] as usize..]
    } else {
        &p[4..]
    }
}

fn video_bytes(stream: &[u8]) -> Vec<u8> {
    let mut out = Vec::new();
    for p in stream.chunks(PACKET_SIZE) {
        assert_eq!(p.len(), PACKET_SIZE);
        assert_eq!(p[0], 0x47);
        if pid(p) == VIDEO_PID {
            out.extend_from_slice(payload(p));
        }
    }
    out
}

#[test]
fn crc_of_known_messages() {
    assert_eq!(crc32_mpeg2(b"123456789"), 0x0376_E6E7);
    assert_eq!(crc32_mpeg2(b""), 0xFFFF_FFFF);
}

#[test]
fn a_message_with_its_crc_checks_to_zero() {
    assert_eq!(crc32_mpeg2(&PAT_SECTION), 0);
    assert_eq!(crc32_mpeg2(&PMT_SECTION), 0);
    let mut m = b"any message".to_vec();
    let c = crc32_mpeg2(&m);
    m.extend_from_slice(&c.to_be_bytes());
    assert_eq!(crc32_mpeg2(&m), 0);
}

#[test]
fn timestamps_have_marker_bits() {
    assert_eq!(encode_timestamp(90_000, 2), [0x21, 0x00, 0x05, 0xBF, 0x21]);
    assert_eq!(encode_timestamp((1 << 33) - 1, 2), [0x2F, 0xFF, 0xFF, 0xFF, 0xFF]);
    assert_eq!(encode_timestamp(1 << 33, 2), encode_timestamp(0, 2));
}

#[test]
fn timestamps_read_back() {
    for ts in [0u64, 1, 127, 128, 90_000, 0x1_2345_6789] {
        let b = encode_timestamp(ts, 2);
        let v = u64::from(b[0] >> 1 & 7) << 30
            | u64::from(b[1]) << 22
            | u64::from(b[2] >> 1) << 15
            | u64::from(b[3]) << 7
            | u64::from(b[4] >> 1);
        assert_eq!(v, ts);
    }
}

#[test]
fn pes_packet_is_header_and_payload() {
    assert_eq!(
        build_pes_packet(0xE0, 90_000, &[9, 8, 7]),
        [0, 0, 1, 0xE0, 0, 0, 0x80, 0x80, 5, 0x21, 0x00, 0x05, 0xBF, 0x21, 9, 8, 7]
    );
}

#[test]
fn pes_timestamp_keeps_33_bits() {
    assert_eq!(
        build_pes_packet(0xE0, (1 << 33) + 90_000, &[]),
        build_pes_packet(0xE0, 90_000, &[])
    );
}

#[test]
fn a_section_is_padded_to_a_packet() {
    let p = psi_packet(0x1000, 0x1F, &[1, 2, 3]);
    assert_eq!(p.len(), 188);
    assert_eq!(&p[..8], &[0x47, 0x50, 0x00, 0x1F, 0x00, 1, 2, 3]);
    assert!(p[8..].iter().all(|b| *b == 0xFF));
}

#[test]
fn a_section_that_is_too_long_is_cut() {
    let p = psi_packet(0, 0, &[7; 300]);
    assert_eq!(p.len(), 188);
    assert!(p[5..].iter().all(|b| *b == 7));
}

#[test]
fn first_access_unit_brings_the_tables() {
    let mut m = MpegTsMuxer::new();
    let out = m.mux_video_au(&[0, 0, 0, 1, 0x65], 90_000, true);
    assert_eq!(out.len(), 3 * 188);
    assert_eq!(&out[..5], &[0x47, 0x40, 0x00, 0x10, 0x00]);
    assert_eq!(&out[5..21], &PAT_SECTION);
    assert_eq!(&out[188..193], &[0x47, 0x50, 0x00, 0x10, 0x00]);
    assert_eq!(&out[193..214], &PMT_SECTION);
}

#[test]
fn first_packet_carries_clock_and_keyframe_flag() {
    let mut m = MpegTsMuxer::new();
    let out = m.mux_video_au(&[0, 0, 0, 1, 0x65], 90_000, true);
    let v = &out[2 * 188..];
    // Nineteen payload bytes leave an adaptation field of 165.
    assert_eq!(&v[..6], &[0x47, 0x41, 0x00, 0x30, 164, 0x50]);
    assert_eq!(&v[6..12], &[0x00, 0x00, 0xAF, 0xC8, 0x7E, 0x00]);
    assert!(v[12..169].iter().all(|b| *b == 0xFF));
    assert_eq!(&v[169..178], &[0, 0, 1, 0xE0, 0, 0, 0x80, 0x80, 5]);
    let out = m.mux_video_au(&[1], 90_001, false);
    assert_eq!(out.len(), 188);
    assert_eq!(out[5], 0x10);
    assert_eq!(out[3] & 0x0F, 1);
}

#[test]
fn exact_fit_needs_no_stuffing() {
    // 14 bytes of PES header and 162 of payload fill the first packet.
    let mut m = MpegTsMuxer::new();
    m.mux_video_au(&[], 0, false);
    let out = m.mux_video_au(&[5; 162], 0, false);
    assert_eq!(out.len(), 188);
    assert_eq!(&out[3..6], &[0x31, 7, 0x10]);
    // One more byte takes a second packet with one byte of payload.
    let out = m.mux_video_au(&[5; 163], 0, false);
    assert_eq!(out.len(), 2 * 188);
    assert_eq!(&out[188..194], &[0x47, 0x01, 0x00, 0x33, 182, 0x00]);
    assert_eq!(out[2 * 188 - 1], 5);
    assert_eq!(out[2 * 188 - 2], 0xFF);
}

#[test]
fn one_byte_of_stuffing_is_a_bare_length() {
    let mut m = MpegTsMuxer::new();
    m.mux_video_au(&[], 0, false);
    // 176 bytes in the first packet, 183 in the second.
    let out = m.mux_video_au(&vec![6; 162 + 183], 0, false);
    assert_eq!(out.len(), 2 * 188);
    assert_eq!(&out[188..194], &[0x47, 0x01, 0x00, 0x32, 0, 6]);
    // 184 in the second: no adaptation field at all.
    let out = m.mux_video_au(&vec![6; 162 + 184], 0, false);
    assert_eq!(&out[188..193], &[0x47, 0x01, 0x00, 0x14, 6]);
}

#[test]
fn tables_come_every_hundred_milliseconds() {
    let mut m = MpegTsMuxer::new();
    assert_eq!(m.mux_video_au(&[1], 0, false).len(), 3 * 188);
    assert_eq!(m.mux_video_au(&[1], 8_999, false).len(), 188);
    let out = m.mux_video_au(&[1], 9_000, false);
    assert_eq!(out.len(), 3 * 188);
    assert_eq!(out[3], 0x11);
    assert_eq!(m.mux_video_au(&[1], 17_999, false).len(), 188);
    assert_eq!(m.mux_video_au(&[1], 18_000, false).len(), 3 * 188);
}

#[test]
fn huge_timestamps_compare_as_signed_numbers() {
    let mut m = MpegTsMuxer::new();
    m.mux_video_au(&[1], u64::MAX, false);
    assert_eq!(m.mux_video_au(&[1], 8_998, false).len(), 188);
    assert_eq!(m.mux_video_au(&[1], 8_999, false).len(), 3 * 188);
}

#[test]
fn counters_run_from_zero_to_fifteen() {
    let mut m = MpegTsMuxer::new();
    let mut video = Vec::new();
    let mut tables = Vec::new();
    for i in 0..40u64 {
        let out = m.mux_video_au(&vec![1; 400], i * 9_000, false);
        for p in out.chunks(188) {
            if pid(p) == VIDEO_PID {
                video.push(p[3] & 15);
            } else if pid(p) == 0 {
                tables.push(p[3] & 15);
            }
        }
    }
    assert!(video.len() > 100);
    for (i, c) in video.iter().enumerate() {
        assert_eq!(*c as usize, i % 16);
    }
    for (i, c) in tables.iter().enumerate() {
        assert_eq!(*c as usize, i % 16);
    }
}

#[test]
fn a_receiver_gets_every_access_unit_back() {
    let mut m = MpegTsMuxer::new();
    let mut stream = Vec::new();
    let mut expected = Vec::new();
    for i in 0..20u64 {
        let au: Vec<u8> = (0..(i * 37 + 1)).map(|k| (k * 7 + i) as u8).collect();
        stream.extend(m.mux_video_au(&au, i * 3_000, i % 10 == 0));
        expected.extend(build_pes_packet(0xE0, i * 3_000, &au));
    }
    assert_eq!(stream.len() % 188, 0);
    assert_eq!(video_bytes(&stream), expected);
}

#[test]
fn nanoseconds_become_clock_ticks() {
    assert_eq!(MpegTsMuxer::duration_to_90khz(0), 0);
    assert_eq!(MpegTsMuxer::duration_to_90khz(1_000_000_000), 90_000);
    assert_eq!(MpegTsMuxer::duration_to_90khz(16_683_333), 1_501);
    assert_eq!(MpegTsMuxer::duration_to_90khz(11_111), 0);
    assert_eq!(MpegTsMuxer::duration_to_90khz(11_112), 1);
    // A stream of 69 hours, and one whose nanoseconds need more than 64 bits.
    assert_eq!(MpegTsMuxer::duration_to_90khz(250_000_000_000_000), 22_500_000_000);
    assert_eq!(MpegTsMuxer::duration_to_90khz(1 << 64), 1_660_206_966_633_859);
    assert_eq!(
        MpegTsMuxer::duration_to_90khz(u64::MAX as u128 * 1_000_000_000 / 90_000),
        u64::MAX - 1
    );
}
