use anaglyph::anaglyph::{
    anaglyph_type_to_matrix, combine_slices, left_right_to_anaglyph, left_right_to_anaglyph_offset,
    split_stereo, AnaglyphType, Offset, VideoDirection,
};
use anaglyph::frame::{AnaglyphError, Frame};
use anaglyph::sequence::{combine_pair, process_frame_sequence, Delay, TimedFrame};
use anaglyph::video::FramePairer;

const ALL_TYPES: [AnaglyphType; 5] = [
    AnaglyphType::True,
    AnaglyphType::GrayScale,
    AnaglyphType::Optimized,
    AnaglyphType::Color,
    AnaglyphType::HalfColor,
];

fn combine(l: [u8; 3], r: [u8; 3], t: AnaglyphType) -> [u8; 3] {
    let m = anaglyph_type_to_matrix(t);
    let mut out = [7u8; 3];
    combine_slices(&l, &r, &mut out, &m);
    out
}

fn frame(width: u32, height: u32, data: Vec<u8>) -> Frame {
    Frame::new(width, height, data).unwrap()
}

fn gradient(width: u32, height: u32, seed: u8) -> Frame {
    let n = (width * height * 3) as usize;
    let data: Vec<u8> = (0..n).map(|i| (i as u8).wrapping_mul(37).wrapping_add(seed)).collect();
    frame(width, height, data)
}

#[test]
fn color_combine_picks_channels() {
    assert_eq!(combine([200, 50, 10], [10, 180, 30], AnaglyphType::Color), [200, 180, 30]);
}

#[test]
fn combine_is_deterministic() {
    for t in ALL_TYPES {
        let a = combine([12, 200, 99], [250, 3, 77], t);
        let b = combine([12, 200, 99], [250, 3, 77], t);
        assert_eq!(a, b);
    }
}

#[test]
fn combine_exact_values() {
    // 0.299*100 + 0.587*100 + 0.114*100 = 100
    assert_eq!(combine([100, 100, 100], [0, 0, 0], AnaglyphType::True), [100, 0, 0]);
    assert_eq!(combine([0, 0, 0], [100, 100, 100], AnaglyphType::True), [0, 0, 100]);
    // 0.299*200 + 0.587*10 + 0.114*50 = 59.8 + 5.87 + 5.7 = 71.37
    assert_eq!(combine([200, 10, 50], [1, 2, 3], AnaglyphType::GrayScale), [71, 1, 1]);
    // 0.7*100 + 0.3*55 = 86.5
    assert_eq!(combine([9, 100, 55], [4, 5, 6], AnaglyphType::Optimized), [86, 5, 6]);
    assert_eq!(combine([200, 10, 50], [1, 2, 3], AnaglyphType::HalfColor), [71, 2, 3]);
    assert_eq!(combine([255, 255, 255], [255, 255, 255], AnaglyphType::GrayScale), [255, 255, 255]);
}

#[test]
fn combine_leaves_extra_bytes() {
    let m = anaglyph_type_to_matrix(AnaglyphType::Color);
    let mut out = [1u8, 2, 3, 4, 5];
    combine_slices(&[9, 8, 7], &[6, 5, 4], &mut out, &m);
    assert_eq!(out, [9, 5, 4, 4, 5]);
}

#[test]
fn matrix_values() {
    assert_eq!(
        anaglyph_type_to_matrix(AnaglyphType::GrayScale),
        [[299, 587, 114, 0, 0, 0, 0, 0, 0], [0, 0, 0, 299, 587, 114, 299, 587, 114]]
    );
    assert_eq!(
        anaglyph_type_to_matrix(AnaglyphType::Color),
        [[1000, 0, 0, 0, 0, 0, 0, 0, 0], [0, 0, 0, 0, 1000, 0, 0, 0, 1000]]
    );
}

#[test]
fn black_frames_give_black() {
    for t in ALL_TYPES {
        let l = Frame::black(2, 2);
        let r = Frame::black(2, 2);
        let out = left_right_to_anaglyph(&l, &r, t).unwrap();
        assert_eq!((out.width, out.height), (2, 2));
        assert_eq!(out.data, vec![0u8; 12]);
    }
}

#[test]
fn synthesize_per_pixel() {
    let l = gradient(3, 2, 1);
    let r = gradient(3, 2, 90);
    let out = left_right_to_anaglyph(&l, &r, AnaglyphType::HalfColor).unwrap();
    for y in 0..2 {
        for x in 0..3 {
            assert_eq!(out.pixel(x, y), combine(l.pixel(x, y), r.pixel(x, y), AnaglyphType::HalfColor));
        }
    }
}

#[test]
fn synthesize_size_mismatch() {
    let l = Frame::black(2, 2);
    let r = Frame::black(3, 2);
    assert_eq!(left_right_to_anaglyph(&l, &r, AnaglyphType::Color).unwrap_err(), AnaglyphError::DimensionMismatch);
    let r = Frame::black(2, 1);
    assert_eq!(
        left_right_to_anaglyph_offset(&l, &r, AnaglyphType::Color, Offset { x: 0, y: 0 }).unwrap_err(),
        AnaglyphError::DimensionMismatch
    );
}

#[test]
fn zero_offset_matches_plain() {
    let l = gradient(4, 3, 5);
    let r = gradient(4, 3, 200);
    for t in ALL_TYPES {
        let a = left_right_to_anaglyph(&l, &r, t).unwrap();
        let b = left_right_to_anaglyph_offset(&l, &r, t, Offset { x: 0, y: 0 }).unwrap();
        assert_eq!((a.width, a.height, a.data), (b.width, b.height, b.data));
    }
}

#[test]
fn offset_crops_overlap() {
    let l = gradient(4, 3, 5);
    let r = gradient(4, 3, 200);
    let t = AnaglyphType::Optimized;
    let out = left_right_to_anaglyph_offset(&l, &r, t, Offset { x: 1, y: -2 }).unwrap();
    assert_eq!((out.width, out.height), (3, 1));
    for x in 0..3 {
        assert_eq!(out.pixel(x, 0), combine(l.pixel(x + 1, 0), r.pixel(x, 2), t));
    }
    let out = left_right_to_anaglyph_offset(&l, &r, t, Offset { x: -3, y: 1 }).unwrap();
    assert_eq!((out.width, out.height), (1, 2));
    for y in 0..2 {
        assert_eq!(out.pixel(0, y), combine(l.pixel(0, y + 1), r.pixel(3, y), t));
    }
}

#[test]
fn offset_out_of_range() {
    let l = Frame::black(4, 3);
    let r = Frame::black(4, 3);
    let t = AnaglyphType::Color;
    for (x, y) in [(4, 0), (-4, 0), (0, 3), (0, -3), (i32::MIN, 0), (0, i32::MAX)] {
        assert_eq!(
            left_right_to_anaglyph_offset(&l, &r, t, Offset { x, y }).unwrap_err(),
            AnaglyphError::OffsetOutOfRange
        );
    }
}

#[test]
fn split_four_by_two() {
    let data: Vec<u8> = (0..24).collect();
    let f = frame(4, 2, data);
    let (l, r) = split_stereo(&f).unwrap();
    assert_eq!((l.width, l.height, r.width, r.height), (2, 2, 2, 2));
    assert_eq!(l.pixel(0, 0), f.pixel(0, 0));
    assert_eq!(r.pixel(0, 0), f.pixel(2, 0));
    assert_eq!(l.data, vec![0, 1, 2, 3, 4, 5, 12, 13, 14, 15, 16, 17]);
    assert_eq!(r.data, vec![6, 7, 8, 9, 10, 11, 18, 19, 20, 21, 22, 23]);
}

#[test]
fn split_partitions_pixels() {
    let f = gradient(6, 3, 11);
    let (l, r) = split_stereo(&f).unwrap();
    for y in 0..3 {
        for x in 0..6 {
            let half = if x < 3 { l.pixel(x, y) } else { r.pixel(x - 3, y) };
            assert_eq!(half, f.pixel(x, y));
        }
    }
}

#[test]
fn split_odd_width() {
    let f = Frame::black(3, 2);
    assert_eq!(split_stereo(&f).unwrap_err(), AnaglyphError::OddWidth);
}

#[test]
fn frame_new_checks_length() {
    assert_eq!(Frame::new(2, 2, vec![0; 11]).unwrap_err(), AnaglyphError::InvalidFrame);
    assert!(Frame::new(2, 2, vec![0; 12]).is_ok());
}

fn timed(f: Frame, numer_ms: u32) -> TimedFrame {
    TimedFrame { frame: f, delay: Delay { numer_ms, denom_ms: 1 } }
}

#[test]
fn sequence_counts() {
    let t = AnaglyphType::Color;
    let d = VideoDirection::Clockwise;
    assert_eq!(process_frame_sequence(&vec![], d, t).unwrap().len(), 0);
    assert_eq!(process_frame_sequence(&vec![timed(gradient(2, 2, 0), 10)], d, t).unwrap().len(), 0);
    let frames: Vec<TimedFrame> = (0..5).map(|i| timed(gradient(2, 2, i * 13), 10 + i as u32)).collect();
    let out = process_frame_sequence(&frames, d, t).unwrap();
    assert_eq!(out.len(), 4);
    for (i, o) in out.iter().enumerate() {
        assert_eq!(o.delay, frames[i + 1].delay);
        let expect = left_right_to_anaglyph(&frames[i + 1].frame, &frames[i].frame, t).unwrap();
        assert_eq!(o.frame.data, expect.data);
    }
}

#[test]
fn sequence_counter_clockwise() {
    let t = AnaglyphType::GrayScale;
    let frames: Vec<TimedFrame> = (0..3).map(|i| timed(gradient(3, 2, i * 50), 20)).collect();
    let out = process_frame_sequence(&frames, VideoDirection::CounterClockwise, t).unwrap();
    for i in 0..2 {
        let expect = left_right_to_anaglyph(&frames[i].frame, &frames[i + 1].frame, t).unwrap();
        assert_eq!(out[i].frame.data, expect.data);
    }
}

#[test]
fn sequence_size_mismatch() {
    let frames = vec![timed(Frame::black(2, 2), 1), timed(Frame::black(2, 2), 1), timed(Frame::black(4, 1), 1)];
    assert_eq!(
        process_frame_sequence(&frames, VideoDirection::Clockwise, AnaglyphType::Color).unwrap_err(),
        AnaglyphError::DimensionMismatch
    );
}

#[test]
fn direction_swap_equivalence() {
    let a = gradient(3, 3, 4);
    let b = gradient(3, 3, 140);
    for t in ALL_TYPES {
        let x = combine_pair(&a, &b, VideoDirection::Clockwise, t).unwrap();
        let y = combine_pair(&b, &a, VideoDirection::CounterClockwise, t).unwrap();
        assert_eq!(x.data, y.data);
    }
}

#[test]
fn pairer_keeps_decode_order() {
    let t = AnaglyphType::True;
    let frames: Vec<Frame> = (0..4).map(|i| gradient(2, 3, i * 31)).collect();
    let mut pairer: FramePairer<u64> = FramePairer::new(VideoDirection::Clockwise, t);
    let mut emitted = Vec::new();
    for (i, f) in frames.iter().enumerate() {
        if let Some(out) = pairer.push(100 * i as u64, f.clone()).unwrap() {
            emitted.push(out);
        }
    }
    assert_eq!(emitted.len(), 3);
    for (i, (ts, out)) in emitted.iter().enumerate() {
        assert_eq!(*ts, 100 * i as u64);
        let expect = left_right_to_anaglyph(&frames[i + 1], &frames[i], t).unwrap();
        assert_eq!(out.data, expect.data);
    }
}

#[test]
fn pairer_rejects_size_change() {
    let mut pairer: FramePairer<u32> = FramePairer::new(VideoDirection::CounterClockwise, AnaglyphType::Color);
    assert!(pairer.push(0, Frame::black(2, 2)).unwrap().is_none());
    assert_eq!(pairer.push(1, Frame::black(3, 2)).unwrap_err(), AnaglyphError::DimensionMismatch);
    assert!(pairer.push(2, Frame::black(2, 2)).unwrap().is_some());
}

#[test]
fn offset_two_by_one_cases() {
    let l = frame(2, 1, vec![10, 20, 30, 40, 50, 60]);
    let r = frame(2, 1, vec![1, 2, 3, 4, 5, 6]);
    let a = left_right_to_anaglyph_offset(&l, &r, AnaglyphType::Color, Offset { x: 1, y: 0 }).unwrap();
    assert_eq!((a.width, a.height, a.data), (1, 1, vec![40, 2, 3]));
    let a = left_right_to_anaglyph_offset(&l, &r, AnaglyphType::Color, Offset { x: -1, y: 0 }).unwrap();
    assert_eq!((a.width, a.height, a.data), (1, 1, vec![10, 5, 6]));
}

#[test]
fn stereo_four_by_two_through_synthesis() {
    let s = frame(4, 2, vec![10, 20, 30, 40, 50, 60, 70, 80, 90, 100, 110, 120, 1, 2, 3, 4, 5, 6, 7, 8, 9, 11, 12, 13]);
    let (l, r) = split_stereo(&s).unwrap();
    assert_eq!(l.data, vec![10, 20, 30, 40, 50, 60, 1, 2, 3, 4, 5, 6]);
    assert_eq!(r.data, vec![70, 80, 90, 100, 110, 120, 7, 8, 9, 11, 12, 13]);
    let a = left_right_to_anaglyph_offset(&l, &r, AnaglyphType::Color, Offset { x: 0, y: 0 }).unwrap();
    assert_eq!((a.width, a.height), (2, 2));
    assert_eq!(a.data, vec![10, 80, 90, 40, 110, 120, 1, 8, 9, 4, 12, 13]);
}

#[test]
fn pairer_finish() {
    let mut pairer: FramePairer<u8> = FramePairer::new(VideoDirection::Clockwise, AnaglyphType::Color);
    assert_eq!(pairer.finish(true).unwrap_err(), AnaglyphError::Decode);
    pairer.push(0, Frame::black(1, 1)).unwrap();
    assert!(pairer.finish(true).is_ok());
    assert_eq!(pairer.finish(false).unwrap_err(), AnaglyphError::Decode);
}
