use vicash::fmp4::{next_segment_split, SegmentReader};
use vicash::fmp4_relay::{
    accept_step, init_step, relay_format, AcceptOutcome, AcceptStep, BroadcastState, ClientStep,
    InitStep, NextSegment, SegmentClient, VideoFeed, AUDIO_CONNECT_MS, VIDEO_CONNECT_MS,
};
use vicash::frame::{Frame, FrameData, SharedFrame};
use vicash::http::Refusal;

use std::sync::Arc;

fn mp4_box(kind: &[u8; 4], body: &[u8]) -> Vec<u8> {
    let mut v = ((body.len() + 8) as u32).to_be_bytes().to_vec();
    v.extend_from_slice(kind);
    v.extend_from_slice(body);
    v
}

fn header() -> Vec<u8> {
    let mut v = mp4_box(b"ftyp", b"isom");
    v.extend(mp4_box(b"moov", &[1, 2, 3, 4, 5]));
    v
}

fn fragment(k: u8) -> Vec<u8> {
    let mut v = mp4_box(b"moof", &[k; 5]);
    v.extend(mp4_box(b"mdat", &vec![k; 10 + k as usize]));
    v
}

fn frame(seq: u64, data: FrameData) -> Frame {
    Frame { width: 2, height: 2, data, seq }
}

#[test]
fn a_complete_segment_is_found() {
    let mut b = header();
    let start = b.len();
    b.extend(fragment(1));
    assert_eq!(next_segment_split(&b, false), Some((start, b.len())));
    assert_eq!(next_segment_split(&b[start..], true), Some((0, b.len() - start)));
}

#[test]
fn an_incomplete_segment_waits() {
    let mut b = header();
    b.extend(fragment(1));
    for n in 0..b.len() {
        assert_eq!(next_segment_split(&b[..n], false), None);
    }
}

#[test]
fn a_malformed_box_stops_the_search() {
    let mut b = vec![0, 0, 0, 7];
    b.extend_from_slice(b"free");
    b.extend(fragment(1));
    assert_eq!(next_segment_split(&b, true), None);
}

#[test]
fn a_lone_mdat_belongs_to_the_front() {
    let mut b = mp4_box(b"mdat", &[9; 3]);
    let start = b.len();
    b.extend(fragment(2));
    assert_eq!(next_segment_split(&b, true), Some((start, b.len())));
}

#[test]
fn a_second_moof_ends_an_empty_fragment() {
    let first = mp4_box(b"moof", &[1; 4]);
    let mut b = first.clone();
    b.extend(mp4_box(b"moof", &[2; 4]));
    assert_eq!(next_segment_split(&b, true), Some((0, first.len())));
    assert_eq!(next_segment_split(&b, false), None);
}

#[test]
fn the_reader_hands_out_init_once_and_every_fragment() {
    let mut b = header();
    for k in 1..6 {
        b.extend(fragment(k));
    }
    for piece in [1usize, 3, 7, 64, 10_000] {
        let mut r = SegmentReader::new();
        let mut media = Vec::new();
        let mut inits = Vec::new();
        for part in b.chunks(piece) {
            for s in r.feed(part) {
                media.push(s.media);
                inits.extend(s.init);
            }
        }
        assert_eq!(inits, vec![header()]);
        assert_eq!(media, (1..6).map(fragment).collect::<Vec<_>>());
        assert!(r.pending.is_empty());
        assert!(r.init_done);
    }
}

#[test]
fn clients_find_init_and_newest_segment() {
    let mut b = header();
    for k in 1..4 {
        b.extend(fragment(k));
    }
    let mut reader = SegmentReader::new();
    let mut state = BroadcastState::new();
    assert!(state.init_segment().is_none());
    for s in reader.feed(&b) {
        state.publish(s);
    }
    assert_eq!(*state.init_segment().unwrap(), header());
    match state.wait_for_next(0) {
        NextSegment::Ready(segment, seq) => {
            assert_eq!(*segment, fragment(3));
            assert_eq!(seq, 3);
        }
        _ => panic!("a segment is there"),
    }
    assert!(matches!(state.wait_for_next(3), NextSegment::Wait));
    state.stop();
    assert!(state.is_shut_down());
    assert!(matches!(state.wait_for_next(0), NextSegment::Closed));
}

#[test]
fn a_client_gets_each_segment_once() {
    let mut state = BroadcastState::new();
    let mut reader = SegmentReader::new();
    let mut client = SegmentClient::new();
    assert!(matches!(client.step(&state, false), ClientStep::Wait { ms: 500 }));
    let mut b = header();
    b.extend(fragment(1));
    for s in reader.feed(&b) {
        state.publish(s);
    }
    match client.step(&state, false) {
        ClientStep::Send(s) => assert_eq!(*s, fragment(1)),
        _ => panic!("a segment is there"),
    }
    assert!(matches!(client.step(&state, false), ClientStep::Wait { ms: 500 }));
    for s in reader.feed(&fragment(2)) {
        state.publish(s);
    }
    assert!(matches!(client.step(&state, true), ClientStep::Stop));
    assert!(matches!(client.step(&state, false), ClientStep::Send(_)));
    state.stop();
    assert!(matches!(client.step(&state, false), ClientStep::Stop));
}

#[test]
fn requests_without_a_relay_are_refused() {
    assert!(matches!(
        init_step(None, false, 0),
        InitStep::Refuse(Refusal::RelayDisabled)
    ));
}

#[test]
fn requests_wait_three_seconds_for_the_init_segment() {
    let mut state = BroadcastState::new();
    assert!(matches!(init_step(Some(&state), false, 0), InitStep::Sleep { ms: 50 }));
    assert!(matches!(init_step(Some(&state), true, 2_999), InitStep::Sleep { ms: 50 }));
    assert!(matches!(
        init_step(Some(&state), true, 3_000),
        InitStep::Refuse(Refusal::InitNotReady)
    ));
    let mut b = header();
    b.extend(fragment(1));
    for s in SegmentReader::new().feed(&b) {
        state.publish(s);
    }
    match init_step(Some(&state), true, 3_000) {
        InitStep::Send(init) => assert_eq!(*init, header()),
        _ => panic!("the init segment is there"),
    }
    state.stop();
    assert!(matches!(init_step(Some(&state), false, 0), InitStep::Send(_)));
    assert!(matches!(
        init_step(Some(&state), true, 50),
        InitStep::Refuse(Refusal::InitNotReady)
    ));
}

#[test]
fn the_relay_needs_a_capture() {
    assert_eq!(
        relay_format(0, 1080, 60, 48_000, 2).unwrap_err(),
        "relay needs an active capture (got 0x1080@60)"
    );
    assert!(relay_format(1920, 0, 60, 48_000, 2).is_err());
    assert!(relay_format(1920, 1080, 0, 48_000, 2).is_err());
    let f = relay_format(1920, 1080, 60, 0, 0).unwrap();
    assert_eq!((f.sample_rate, f.channels), (1, 1));
    let f = relay_format(1920, 1080, 60, 44_100, 2).unwrap();
    assert_eq!((f.sample_rate, f.channels), (44_100, 2));
}

#[test]
fn the_encoder_has_a_limited_time_to_connect() {
    assert_eq!(accept_step(AcceptOutcome::Connected, 9_999, VIDEO_CONNECT_MS), AcceptStep::Use);
    assert_eq!(accept_step(AcceptOutcome::Failed, 0, VIDEO_CONNECT_MS), AcceptStep::Fail);
    assert_eq!(
        accept_step(AcceptOutcome::NobodyYet, 4_999, VIDEO_CONNECT_MS),
        AcceptStep::Retry { ms: 20 }
    );
    assert_eq!(accept_step(AcceptOutcome::NobodyYet, 5_000, VIDEO_CONNECT_MS), AcceptStep::TimedOut);
    assert_eq!(
        accept_step(AcceptOutcome::NobodyYet, 5_000, AUDIO_CONNECT_MS),
        AcceptStep::Retry { ms: 20 }
    );
}

#[test]
fn the_feed_repeats_the_last_picture() {
    let mut frames = SharedFrame::new();
    let mut feed = VideoFeed::new(0, 16_666_667);
    assert!(feed.picture(&frames).is_none());
    frames.publish(frame(1, FrameData::Nv12(Arc::new(vec![1; 6]))));
    assert_eq!(*feed.picture(&frames).unwrap(), vec![1; 6]);
    assert_eq!(*feed.picture(&frames).unwrap(), vec![1; 6]);
    // RGB cannot be sent, so the picture before stays.
    frames.publish(frame(2, FrameData::Rgb(Arc::new(vec![2; 12]))));
    assert_eq!(*feed.picture(&frames).unwrap(), vec![1; 6]);
    // A frame with the number that was seen last is not looked at again.
    frames.publish(frame(2, FrameData::Nv12(Arc::new(vec![2; 6]))));
    assert_eq!(*feed.picture(&frames).unwrap(), vec![1; 6]);
    frames.publish(frame(3, FrameData::Nv12(Arc::new(vec![3; 6]))));
    assert_eq!(*feed.picture(&frames).unwrap(), vec![3; 6]);
}

#[test]
fn the_feed_keeps_its_pace() {
    let mut feed = VideoFeed::new(1_000, 100);
    assert_eq!(feed.pace(1_040), 60);
    assert_eq!(feed.next_due, 1_100);
    // Late by less than the limit: no sleep, the schedule stays.
    assert_eq!(feed.pace(1_500), 0);
    assert_eq!(feed.next_due, 1_200);
    // Late by exactly the limit.
    assert_eq!(feed.pace(1_300 + 200_000_000), 0);
    assert_eq!(feed.next_due, 1_300);
    // Late by more: start anew.
    assert_eq!(feed.pace(1_401 + 200_000_000), 0);
    assert_eq!(feed.next_due, 1_401 + 200_000_000);
}
