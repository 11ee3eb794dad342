use image::GenericImageView;
use std::sync::Arc;
use vicash::color::{can_convert, nv12_to_rgb, round_to_24_bits, ColorTables};
use vicash::frame::{
    can_convert_data, can_encode, frame_to_rgb, Frame, FrameData, SharedFrame,
};
use vicash::media::{encode_jpeg, encode_png, EncodeError};
use vicash::record::screenshot;

fn float_rgb(y: u8, u: u8, v: u8) -> (u8, u8, u8) {
    let (y, u, v) = (y as f32, u as f32, v as f32);
    let yt = (y - 16.0) * (255.0 / 219.0);
    let ut = (u - 128.0) * (255.0 / 224.0);
    let vt = (v - 128.0) * (255.0 / 224.0);
    let r = yt + 1.5748 * vt;
    let g = yt - 0.1873 * ut - 0.4681 * vt;
    let b = yt + 1.8556 * ut;
    (
        r.clamp(0.0, 255.0) as u8,
        g.clamp(0.0, 255.0) as u8,
        b.clamp(0.0, 255.0) as u8,
    )
}

#[test]
fn every_color_is_that_of_single_precision() {
    let t = ColorTables::new();
    for y in 0..=255u8 {
        for u in 0..=255u8 {
            for v in 0..=255u8 {
                assert_eq!(t.rgb(y, u, v), float_rgb(y, u, v));
            }
        }
    }
}

#[test]
fn rounding_keeps_24_bits_and_ties_to_even() {
    assert_eq!(round_to_24_bits(16_777_215), 16_777_215);
    assert_eq!(round_to_24_bits(16_777_217), 16_777_216);
    assert_eq!(round_to_24_bits(16_777_219), 16_777_220);
    assert_eq!(round_to_24_bits(-16_777_219), -16_777_220);
    assert_eq!(round_to_24_bits(33_554_438), 33_554_440);
    for n in [123_456_789_123i64, -987_654_321_987, 5] {
        assert_eq!(round_to_24_bits(n), n as f32 as i64);
    }
}

#[test]
fn black_white_and_red() {
    // Four pixels of black and white over neutral chroma.
    let nv12 = [16, 235, 235, 16, 128, 128];
    assert_eq!(
        nv12_to_rgb(&nv12, 2, 2),
        [0, 0, 0, 255, 255, 255, 255, 255, 255, 0, 0, 0]
    );
    let red = nv12_to_rgb(&[63, 63, 63, 63, 102, 240], 2, 2);
    assert_eq!(&red[..3], &[255, 0, 0]);
}

#[test]
fn four_pixels_share_their_chroma() {
    let mut nv12 = vec![100u8; 16];
    nv12.extend_from_slice(&[128, 128, 90, 200, 40, 60, 128, 255]);
    let rgb = nv12_to_rgb(&nv12, 4, 4);
    for row in 0..4 {
        for col in 0..4 {
            let c = 16 + (row / 2) * 4 + (col / 2) * 2;
            let i = (row * 4 + col) * 3;
            let want = float_rgb(100, nv12[c], nv12[c + 1]);
            assert_eq!((rgb[i], rgb[i + 1], rgb[i + 2]), want);
        }
    }
}

#[test]
fn a_short_picture_is_black() {
    assert_eq!(nv12_to_rgb(&[200; 5], 2, 2), vec![0; 12]);
    assert_eq!(nv12_to_rgb(&[], 2, 2), vec![0; 12]);
    assert_eq!(nv12_to_rgb(&[], 0, 0), Vec::<u8>::new());
}

#[test]
fn odd_sizes_need_more_chroma() {
    // 3x3: the last chroma row is read at its third column and the one
    // behind it, past the 13 bytes that pass the length test.
    assert!(!can_convert(13, 3, 3));
    assert!(can_convert(12, 3, 3));
    assert!(can_convert(16, 3, 3));
    assert!(can_convert(6, 2, 2));
    assert!(can_convert(0, 2, 2));
}

#[test]
fn rgb_is_copied_as_it_is() {
    let data = FrameData::Rgb(Arc::new(vec![1, 2, 3]));
    assert!(can_convert_data(&data, 1, 1));
    assert_eq!(frame_to_rgb(&data, 1, 1), vec![1, 2, 3]);
    let data = FrameData::Nv12(Arc::new(vec![235, 235, 235, 235, 128, 128]));
    assert!(can_convert_data(&data, 2, 2));
    assert_eq!(frame_to_rgb(&data, 2, 2), vec![255; 12]);
}

#[test]
fn the_slot_keeps_the_newest_frame() {
    let mut slot = SharedFrame::new();
    assert!(slot.get().is_none());
    for seq in 1..4 {
        let data = FrameData::Rgb(Arc::new(vec![seq as u8; 3]));
        slot.publish(Frame { width: 1, height: 1, data, seq });
    }
    let f = slot.get().unwrap();
    assert_eq!((f.width, f.height, f.seq), (1, 1, 3));
    assert_eq!(frame_to_rgb(&f.data, 1, 1), vec![3; 3]);
    assert_eq!(slot.get().unwrap().seq, 3);
}

#[test]
fn frames_must_be_as_long_as_they_say() {
    let frame = |w, h, data| Frame { width: w, height: h, data, seq: 1 };
    assert!(can_encode(&frame(2, 1, FrameData::Rgb(Arc::new(vec![0; 6])))));
    assert!(!can_encode(&frame(2, 1, FrameData::Rgb(Arc::new(vec![0; 7])))));
    assert!(can_encode(&frame(2, 2, FrameData::Nv12(Arc::new(vec![0; 6])))));
    assert!(can_encode(&frame(2, 2, FrameData::Nv12(Arc::new(vec![])))));
}

#[test]
fn a_jpeg_shows_the_picture() {
    let rgb: Vec<u8> = (0..16 * 16).flat_map(|_| [200u8, 30, 60]).collect();
    let jpeg = encode_jpeg(&rgb, 16, 16, 90).unwrap();
    assert_eq!(&jpeg[..2], &[0xFF, 0xD8]);
    let back = image::load_from_memory(&jpeg).unwrap();
    assert_eq!(back.dimensions(), (16, 16));
    let p = back.get_pixel(8, 8);
    for (got, want) in p.0.iter().zip([200i32, 30, 60]) {
        assert!((i32::from(*got) - want).abs() < 12);
    }
}

#[test]
fn jpeg_quality_matters() {
    let rgb: Vec<u8> = (0..64 * 64 * 3).map(|i| (i * 31 % 251) as u8).collect();
    let low = encode_jpeg(&rgb, 64, 64, 10).unwrap();
    let high = encode_jpeg(&rgb, 64, 64, 95).unwrap();
    assert!(low.len() < high.len());
    assert_eq!(low, encode_jpeg(&rgb, 64, 64, 10).unwrap());
}

#[test]
fn a_jpeg_has_sides_from_1_to_65535() {
    assert_eq!(encode_jpeg(&[], 0, 5, 75).unwrap_err(), EncodeError::BadSize);
    assert_eq!(encode_jpeg(&[], 5, 0, 75).unwrap_err(), EncodeError::BadSize);
    assert_eq!(
        encode_jpeg(&vec![0; 65536 * 3], 65536, 1, 75).unwrap_err(),
        EncodeError::BadSize
    );
    assert!(encode_jpeg(&vec![0; 65535 * 3], 65535, 1, 75).is_ok());
    assert!(encode_jpeg(&[1, 2, 3], 1, 1, 75).is_ok());
}

#[test]
fn a_png_holds_the_picture_exactly() {
    let rgb: Vec<u8> = (0..7 * 5 * 3).map(|i| (i * 29 % 256) as u8).collect();
    let png = encode_png(&rgb, 7, 5).unwrap();
    let back = image::load_from_memory(&png).unwrap();
    assert_eq!(back.dimensions(), (7, 5));
    assert_eq!(back.to_rgb8().into_raw(), rgb);
    assert_eq!(encode_png(&[], 0, 5).unwrap_err(), EncodeError::BadSize);
    assert_eq!(encode_png(&[], 5, 0).unwrap_err(), EncodeError::BadSize);
    assert!(encode_png(&vec![9; 70_000 * 3], 70_000, 1).is_ok());
}

#[test]
fn a_screenshot_shows_the_frame() {
    let nv12 = vec![16, 235, 235, 16, 128, 128];
    let frame = Frame {
        width: 2,
        height: 2,
        data: FrameData::Nv12(Arc::new(nv12)),
        seq: 1,
    };
    let png = screenshot(&frame).unwrap();
    let back = image::load_from_memory(&png).unwrap().to_rgb8();
    assert_eq!(
        back.into_raw(),
        vec![0, 0, 0, 255, 255, 255, 255, 255, 255, 0, 0, 0]
    );
    let empty = Frame {
        width: 0,
        height: 2,
        data: FrameData::Rgb(Arc::new(vec![])),
        seq: 1,
    };
    assert_eq!(screenshot(&empty).unwrap_err(), EncodeError::BadSize);
}
