use std::sync::Arc;
use vicash::frame::{Frame, FrameData, SharedFrame};
use vicash::http::{
    build_lan_url, local_url, mjpeg_part, route, LocalIp, Page, Refusal, Route, Stream, BOUNDARY,
};
use vicash::media::{encode_jpeg, EncodeError};
use vicash::relay::{
    snapshot, EncoderStep, JpegWait, LatestJpeg, MjpegClient, MjpegStep, RelayEncoder, RelayInfo,
    SharedJpeg,
};

fn read_part(s: &[u8]) -> (Vec<u8>, Vec<u8>) {
    let end = s.windows(4).position(|w| w == b"\r\n\r\n").unwrap();
    let head = std::str::from_utf8(&s[..end]).unwrap();
    let mut lines = head.split("\r\n");
    assert_eq!(lines.next(), Some("--vcshareframe"));
    assert_eq!(lines.next(), Some("Content-Type: image/jpeg"));
    let len: usize = lines
        .next()
        .unwrap()
        .strip_prefix("Content-Length: ")
        .unwrap()
        .parse()
        .unwrap();
    let body = &s[end + 4..];
    assert_eq!(&body[len..len + 2], b"\r\n");
    (body[..len].to_vec(), body[len + 2..].to_vec())
}

fn picture(seq: u64, byte: u8) -> LatestJpeg {
    LatestJpeg { bytes: Arc::new(vec![byte; 4]), seq }
}

fn gray_frame(seq: u64) -> Frame {
    Frame {
        width: 2,
        height: 2,
        data: FrameData::Nv12(Arc::new(vec![128; 6])),
        seq,
    }
}

#[test]
fn every_path_has_its_route() {
    for (url, want) in [
        ("/", Route::Page(Page::Index)),
        ("/index.html", Route::Page(Page::Index)),
        ("/stream", Route::Mjpeg),
        ("/stream.mjpg", Route::Mjpeg),
        ("/snapshot.jpg", Route::Snapshot),
        ("/stream.mp4", Route::Fmp4),
        ("/player", Route::Page(Page::Player)),
        ("/player.html", Route::Page(Page::Player)),
        ("/stream.ts", Route::Ts),
        ("/stream/", Route::Refuse(Refusal::NotFound)),
        ("", Route::Refuse(Refusal::NotFound)),
        ("/favicon.ico", Route::Refuse(Refusal::NotFound)),
    ] {
        assert_eq!(route(true, url, true), want);
        assert_eq!(route(false, url, true), Route::Refuse(Refusal::MethodNotAllowed));
    }
    assert_eq!(route(true, "/stream.ts", false), Route::Refuse(Refusal::NotFound));
}

#[test]
fn refusals_have_a_status_and_a_text() {
    for (r, status, body) in [
        (Refusal::MethodNotAllowed, 405, "method not allowed"),
        (Refusal::NotFound, 404, "not found"),
        (
            Refusal::RelayDisabled,
            503,
            "fMP4 relay not enabled (toggle 'Audio im Relay' in F1, needs ffmpeg.exe)",
        ),
        (
            Refusal::InitNotReady,
            503,
            "fMP4 init segment not ready - is ffmpeg still warming up?",
        ),
        (Refusal::NoFrame, 503, "no frame yet"),
    ] {
        assert_eq!((r.status(), r.body()), (status, body));
    }
}

#[test]
fn pages_point_at_the_streams() {
    assert!(Page::Index.html().contains("<img src=\"/stream\" alt=\"capture\">"));
    assert!(Page::Index.html().starts_with("<!doctype html>"));
    assert!(Page::Player.html().contains("fetch('/stream.mp4')"));
    assert!(Page::Player.html().ends_with("</body></html>"));
}

#[test]
fn stream_heads_are_never_cached() {
    assert_eq!(
        Stream::Mjpeg.head(),
        "HTTP/1.1 200 OK\r\n\
         Content-Type: multipart/x-mixed-replace; boundary=vcshareframe\r\n\
         Cache-Control: no-store, no-cache, must-revalidate, max-age=0\r\n\
         Pragma: no-cache\r\n\
         Connection: close\r\n\r\n"
    );
    assert!(Stream::Ts.head().contains("Content-Type: video/mp2t\r\n"));
    assert!(Stream::Fmp4.head().contains("Content-Type: video/mp4\r\n"));
    assert_eq!(BOUNDARY, "vcshareframe");
}

#[test]
fn a_part_names_its_length() {
    assert_eq!(
        mjpeg_part(b"abc"),
        b"--vcshareframe\r\nContent-Type: image/jpeg\r\nContent-Length: 3\r\n\r\nabc\r\n"
    );
    assert_eq!(
        mjpeg_part(b""),
        b"--vcshareframe\r\nContent-Type: image/jpeg\r\nContent-Length: 0\r\n\r\n\r\n"
    );
}

#[test]
fn pictures_come_back_from_the_stream() {
    let pictures: Vec<Vec<u8>> = vec![
        b"--vcshareframe\r\n\r\n".to_vec(),
        vec![],
        vec![0xFF; 12_345],
        b"123".to_vec(),
    ];
    let mut stream: Vec<u8> = pictures.iter().flat_map(|p| mjpeg_part(p)).collect();
    for want in &pictures {
        let (got, rest) = read_part(&stream);
        assert_eq!(&got, want);
        stream = rest;
    }
    assert!(stream.is_empty());
}

#[test]
fn urls_for_other_machines() {
    let ip = |text: &str, loopback| Some(LocalIp { text: text.to_string(), loopback });
    assert_eq!(
        build_lan_url("192.168.1.5:8080", 8080, false, None),
        "http://192.168.1.5:8080"
    );
    assert_eq!(
        build_lan_url("0.0.0.0:7777", 7777, true, ip("10.0.0.3", false)),
        "http://10.0.0.3:7777"
    );
    assert_eq!(
        build_lan_url("0.0.0.0:7777", 7777, true, ip("127.0.0.1", true)),
        "http://localhost:7777"
    );
    assert_eq!(build_lan_url("0.0.0.0:80", 80, true, None), "http://localhost:80");
    assert_eq!(local_url(7777), "http://127.0.0.1:7777");
}

#[test]
fn the_relay_counts_its_clients() {
    let mut info = RelayInfo::new("0.0.0.0:7777".to_string(), 7777, true, None);
    assert_eq!(info.lan_url, "http://localhost:7777");
    assert_eq!(info.local_url, "http://127.0.0.1:7777");
    assert_eq!(info.bind_addr, "0.0.0.0:7777");
    info.client_connected();
    info.client_connected();
    info.client_gone();
    info.client_connected();
    assert_eq!((info.active_clients, info.total_clients), (2, 3));
    info.client_gone();
    info.client_gone();
    assert_eq!((info.active_clients, info.total_clients), (0, 3));
    assert!(!info.shutdown);
    info.stop();
    assert!(info.shutdown);
    assert_eq!(info.total_clients, 3);
}

#[test]
fn a_snapshot_needs_a_picture() {
    let mut slot = SharedJpeg::new();
    assert_eq!(snapshot(&slot).err(), Some(Refusal::NoFrame));
    slot.publish(picture(4, 9));
    let s = snapshot(&slot).ok().unwrap();
    assert_eq!((s.seq, s.bytes.as_ref().clone()), (4, vec![9; 4]));
    assert_eq!(slot.latest().unwrap().seq, 4);
}

#[test]
fn waiting_for_a_new_picture() {
    let mut slot = SharedJpeg::new();
    assert!(matches!(slot.wait_for_new(0, false), JpegWait::Wait { ms: 100 }));
    slot.publish(picture(4, 9));
    assert!(matches!(slot.wait_for_new(0, false), JpegWait::Ready(LatestJpeg { seq: 4, .. })));
    assert!(matches!(slot.wait_for_new(4, false), JpegWait::Wait { ms: 100 }));
    assert!(matches!(slot.wait_for_new(3, false), JpegWait::Ready(LatestJpeg { seq: 4, .. })));
    assert!(matches!(slot.wait_for_new(5, false), JpegWait::Wait { ms: 100 }));
    assert!(matches!(slot.wait_for_new(0, true), JpegWait::Closed));
}

#[test]
fn an_mjpeg_client_gets_each_picture_once() {
    let mut slot = SharedJpeg::new();
    let mut client = MjpegClient::new();
    assert!(matches!(client.step(&slot, false), MjpegStep::Wait { ms: 100 }));
    slot.publish(picture(1, 7));
    match client.step(&slot, false) {
        MjpegStep::Send(part) => assert_eq!(part, mjpeg_part(&[7; 4])),
        _ => panic!("a picture is there"),
    }
    assert!(matches!(client.step(&slot, false), MjpegStep::Wait { ms: 100 }));
    slot.publish(picture(2, 8));
    assert!(matches!(client.step(&slot, false), MjpegStep::Send(_)));
    assert_eq!(client.last_seq, 2);
    assert!(matches!(client.step(&slot, true), MjpegStep::Stop));
}

#[test]
fn a_frame_is_encoded_once_per_quality() {
    let mut frames = SharedFrame::new();
    let mut enc = RelayEncoder::new();
    assert!(matches!(enc.step(&frames, 75), EncoderStep::Sleep { ms: 5 }));
    frames.publish(gray_frame(0));
    match enc.step(&frames, 75) {
        EncoderStep::Publish(p) => {
            assert_eq!(p.seq, 0);
            let rgb = vicash::color::nv12_to_rgb(&[128; 6], 2, 2);
            assert_eq!(*p.bytes, encode_jpeg(&rgb, 2, 2, 75).unwrap());
        }
        _ => panic!("a new frame is encoded"),
    }
    assert!(matches!(enc.step(&frames, 75), EncoderStep::Sleep { ms: 2 }));
    assert!(matches!(enc.step(&frames, 76), EncoderStep::Publish(_)));
    assert!(matches!(enc.step(&frames, 76), EncoderStep::Sleep { ms: 2 }));
    frames.publish(gray_frame(1));
    assert!(matches!(enc.step(&frames, 76), EncoderStep::Publish(_)));
}

#[test]
fn quality_is_clamped() {
    let mut frames = SharedFrame::new();
    frames.publish(gray_frame(1));
    let mut enc = RelayEncoder::new();
    assert!(matches!(enc.step(&frames, 0), EncoderStep::Publish(_)));
    assert_eq!(enc.last_quality, 1);
    assert!(matches!(enc.step(&frames, 1), EncoderStep::Sleep { ms: 2 }));
    assert!(matches!(enc.step(&frames, 255), EncoderStep::Publish(_)));
    assert_eq!(enc.last_quality, 100);
}

#[test]
fn a_picture_that_cannot_be_encoded_is_tried_again() {
    let mut frames = SharedFrame::new();
    frames.publish(Frame {
        width: 0,
        height: 2,
        data: FrameData::Rgb(Arc::new(vec![])),
        seq: 1,
    });
    let mut enc = RelayEncoder::new();
    assert!(matches!(enc.step(&frames, 75), EncoderStep::Failed { ms: 50 }));
    assert!(matches!(enc.step(&frames, 75), EncoderStep::Failed { ms: 50 }));
    assert_eq!(enc.last_seq, 0);
}

#[test]
fn what_the_jpeg_encoder_made() {
    let mut enc = RelayEncoder::new();
    match enc.finish(7, 80, Ok(vec![1, 2, 3])) {
        EncoderStep::Publish(p) => assert_eq!((p.seq, p.bytes.to_vec()), (7, vec![1, 2, 3])),
        _ => panic!("a picture is published"),
    }
    assert_eq!((enc.last_seq, enc.last_quality), (7, 80));
    assert!(matches!(
        enc.finish(8, 80, Err(EncodeError::BadSize)),
        EncoderStep::Failed { ms: 50 }
    ));
    assert_eq!(enc.last_seq, 7);
}

#[test]
fn the_encoder_takes_frames_that_are_as_long_as_they_say() {
    let mut frames = SharedFrame::new();
    let mut enc = RelayEncoder::new();
    assert!(enc.can_step(&frames, 75));
    frames.publish(gray_frame(3));
    assert!(enc.can_step(&frames, 75));
    assert!(matches!(enc.step(&frames, 75), EncoderStep::Publish(_)));
    // Too long, but the number and the quality are those that were encoded.
    let long = FrameData::Rgb(Arc::new(vec![0; 13]));
    frames.publish(Frame { width: 2, height: 2, data: long, seq: 3 });
    assert!(enc.can_step(&frames, 75));
    assert!(matches!(enc.step(&frames, 75), EncoderStep::Sleep { ms: 2 }));
    assert!(!enc.can_step(&frames, 76));
}
