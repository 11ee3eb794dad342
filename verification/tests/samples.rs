use vicash::samples::{audio_step, audio_write, relay_sink, sink_size, AudioStep, BATCH};

#[test]
fn samples_come_out_in_order() {
    let (mut sink, mut source) = relay_sink(4, 1);
    assert_eq!(sink.offer(&[3, 1, 2]), 3);
    assert_eq!(source.take_batch(), vec![3, 1, 2]);
    assert_eq!(sink.offer(&[7]), 1);
    assert_eq!(sink.offer(&[8, 9]), 2);
    assert_eq!(source.take_batch(), vec![7, 8, 9]);
    assert!(source.take_batch().is_empty());
}

#[test]
fn the_buffer_has_room_for_two_seconds() {
    let (mut sink, mut source) = relay_sink(5, 2);
    let many: Vec<u32> = (0..100).collect();
    assert_eq!(sink.offer(&many), 20);
    assert_eq!(sink.offer(&many), 0);
    assert_eq!(source.take_batch(), many[..20].to_vec());
    assert_eq!(sink.offer(&many[20..]), 20);
}

#[test]
fn a_batch_is_limited() {
    let (mut sink, mut source) = relay_sink(48_000, 2);
    let many: Vec<u32> = (0..10_000).collect();
    assert_eq!(sink.offer(&many), 10_000);
    assert_eq!(source.take_batch(), many[..BATCH].to_vec());
    assert_eq!(source.take_batch(), many[BATCH..2 * BATCH].to_vec());
    assert_eq!(source.take_batch(), many[2 * BATCH..].to_vec());
}

#[test]
fn samples_are_sent_low_byte_first() {
    let batch = [0x3f80_0000u32, 0x0102_0304];
    let expected: Vec<u8> = batch.iter().flat_map(|s| s.to_le_bytes()).collect();
    match audio_write(&batch) {
        AudioStep::Write(bytes) => {
            assert_eq!(bytes, expected);
            assert_eq!(bytes, [0x00, 0x00, 0x80, 0x3f, 0x04, 0x03, 0x02, 0x01]);
        }
        _ => panic!("there is something to send"),
    }
    assert!(matches!(audio_write(&[]), AudioStep::Sleep { ms: 5 }));
}

#[test]
fn floats_survive_the_buffer() {
    let (mut sink, mut source) = relay_sink(8, 1);
    let floats = [0.5f32, -1.0, 0.25];
    let bits: Vec<u32> = floats.iter().map(|f| f.to_bits()).collect();
    assert_eq!(sink.offer(&bits), 3);
    match audio_step(&mut source, false) {
        AudioStep::Write(bytes) => {
            let back: Vec<f32> = bytes
                .chunks(4)
                .map(|b| f32::from_le_bytes([b[0], b[1], b[2], b[3]]))
                .collect();
            assert_eq!(back, floats);
        }
        _ => panic!("there is something to send"),
    }
}

#[test]
fn the_audio_writer_sleeps_and_stops() {
    let (mut sink, mut source) = relay_sink(8, 1);
    assert!(matches!(audio_step(&mut source, false), AudioStep::Sleep { ms: 5 }));
    sink.offer(&[1]);
    assert!(matches!(audio_step(&mut source, true), AudioStep::Stop));
    assert_eq!(source.take_batch(), vec![1]);
}

#[test]
fn the_size_of_the_buffer() {
    assert_eq!(sink_size(48_000, 2), Some(192_000));
    assert_eq!(sink_size(1, 1), Some(2));
    assert_eq!(sink_size(0, 2), None);
    assert_eq!(sink_size(48_000, 0), None);
}
