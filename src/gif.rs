use vstd::prelude::*;
use image::AnimationDecoder;
use crate::anaglyph::{AnaglyphType, VideoDirection};
use crate::frame::{AnaglyphError, Frame, FrameView};
use crate::sequence::{pair_anaglyph, process_frame_sequence, same_size, Delay, TimedFrame};

verus! {

#[verifier::external_type_specification]
#[verifier::external_body]
pub struct ExImageError(image::ImageError);

/// An animation frame as plain values: width, height, RGB bytes, and the
/// delay as a numerator and a denominator of milliseconds.
pub open spec fn timed_view(t: TimedFrame) -> (u32, u32, Seq<u8>, u32, u32) {
    (t.frame.width, t.frame.height, t.frame.data@, t.delay.numer_ms, t.delay.denom_ms)
}

/// The plain values of each frame of an animation.
pub open spec fn animation_view(frames: Seq<TimedFrame>) -> Seq<(u32, u32, Seq<u8>, u32, u32)> {
    frames.map_values(|t: TimedFrame| timed_view(t))
}

/// The frames that image's GIF decoder reads from a byte string, as RGB,
/// or `None` where it fails.
pub uninterp spec fn gif_frames(data: Seq<u8>) -> Option<Seq<(u32, u32, Seq<u8>, u32, u32)>>;

/// The bytes that image's GIF encoder writes for an animation, or `None`
/// where it fails.
pub uninterp spec fn gif_encoding(frames: Seq<(u32, u32, Seq<u8>, u32, u32)>) -> Option<Seq<u8>>;

/// The frame that a decoded entry describes.
pub open spec fn frame_of(e: (u32, u32, Seq<u8>, u32, u32)) -> FrameView {
    FrameView { width: e.0 as nat, height: e.1 as nat, data: e.2 }
}

/// A decoded animation that can be converted: at least one frame, every
/// buffer three bytes per pixel, every delay with a non-zero denominator.
pub open spec fn usable(frames: Seq<(u32, u32, Seq<u8>, u32, u32)>) -> bool {
    &&& frames.len() > 0
    &&& forall|i: int| 0 <= i < frames.len() ==> frame_of(#[trigger] frames[i]).wf() && frames[i].4 != 0
}

/// All frames of a decoded animation share the first frame's size.
pub open spec fn uniform(frames: Seq<(u32, u32, Seq<u8>, u32, u32)>) -> bool {
    forall|i: int| 0 <= i < frames.len() ==> same_size(frame_of(#[trigger] frames[i]), frame_of(frames[0]))
}

/// The anaglyph animation of a decoded one: entry `i` combines frames `i`
/// and `i + 1` and keeps the size and delay of frame `i + 1`.
pub open spec fn gif_anaglyph(
    frames: Seq<(u32, u32, Seq<u8>, u32, u32)>,
    direction: VideoDirection,
    anaglyph_type: AnaglyphType,
) -> Seq<(u32, u32, Seq<u8>, u32, u32)> {
    Seq::new(
        (frames.len() - 1) as nat,
        |i: int|
            {
                let e = frames[i + 1];
                (e.0, e.1, pair_anaglyph(frame_of(frames[i]), frame_of(e), direction, anaglyph_type), e.3, e.4)
            },
    )
}

/// Relies on image's `GifDecoder::new`, `into_frames` and `collect_frames`
/// to read every frame of a GIF, and on `DynamicImage::into_rgb8` to drop
/// the alpha channel; the result depends on the bytes alone.
#[verifier::external_body]
fn decode_gif(data: &[u8]) -> (r: Result<Vec<TimedFrame>, image::ImageError>)
    ensures
        r is Ok <==> gif_frames(data@) is Some,
        r is Ok ==> gif_frames(data@) == Some(animation_view(r->Ok_0@)),
{
    let decoder = image::codecs::gif::GifDecoder::new(std::io::Cursor::new(data))?;
    let frames = decoder.into_frames().collect_frames()?;
    Ok(frames.into_iter().map(|f| {
        let (numer_ms, denom_ms) = f.delay().numer_denom_ms();
        let rgb = image::DynamicImage::ImageRgba8(f.into_buffer()).into_rgb8();
        let frame = Frame { width: rgb.width(), height: rgb.height(), data: rgb.into_raw() };
        TimedFrame { frame, delay: Delay { numer_ms, denom_ms } }
    }).collect())
}

/// Relies on image's `GifEncoder` (speed 10, repeating forever) to write
/// an animation, each frame made by `Frame::from_parts` from the RGB buffer
/// and `Delay::from_numer_denom_ms`, which panics on a zero denominator;
/// the result depends on the frames alone.
#[verifier::external_body]
fn encode_gif(frames: &Vec<TimedFrame>) -> (r: Result<Vec<u8>, image::ImageError>)
    requires
        forall|i: int| 0 <= i < frames@.len() ==> (#[trigger] frames@[i]).frame.wf() && frames@[i].delay.denom_ms != 0,
    ensures
        r is Ok <==> gif_encoding(animation_view(frames@)) is Some,
        r is Ok ==> gif_encoding(animation_view(frames@)) == Some(r->Ok_0@),
{
    let mut out = Vec::new();
    let mut encoder = image::codecs::gif::GifEncoder::new_with_speed(&mut out, 10);
    encoder.set_repeat(image::codecs::gif::Repeat::Infinite)?;
    encoder.encode_frames(frames.iter().map(|t| {
        let rgb = image::RgbImage::from_raw(t.frame.width, t.frame.height, t.frame.data.clone());
        let delay = image::Delay::from_numer_denom_ms(t.delay.numer_ms, t.delay.denom_ms);
        image::Frame::from_parts(image::DynamicImage::ImageRgb8(rgb.expect("sized buffer")).into_rgba8(), 0, 0, delay)
    }))?;
    drop(encoder);
    Ok(out)
}

/// Converts an animated GIF into an anaglyph GIF: each frame after the
/// first is combined with the one before it.
pub fn convert_gif_buffer_to_anaglyph(
    gif_data: &[u8],
    direction: VideoDirection,
    anaglyph_type: AnaglyphType,
) -> (r: Result<Vec<u8>, AnaglyphError>)
    ensures
        ({
            match gif_frames(gif_data@) {
                None => r == Err::<Vec<u8>, AnaglyphError>(AnaglyphError::Decode),
                Some(decoded) => if !usable(decoded) {
                    r == Err::<Vec<u8>, AnaglyphError>(AnaglyphError::Decode)
                } else if !uniform(decoded) {
                    r == Err::<Vec<u8>, AnaglyphError>(AnaglyphError::DimensionMismatch)
                } else {
                    match gif_encoding(gif_anaglyph(decoded, direction, anaglyph_type)) {
                        None => r == Err::<Vec<u8>, AnaglyphError>(AnaglyphError::Encode),
                        Some(bytes) => r is Ok && r->Ok_0@ == bytes,
                    }
                },
            }
        }),
{
    let frames = match decode_gif(gif_data) {
        Ok(frames) => frames,
        Err(_) => return Err(AnaglyphError::Decode),
    };
    let ghost decoded = animation_view(frames@);
    assert(gif_frames(gif_data@) == Some(decoded));
    if frames.len() == 0 {
        return Err(AnaglyphError::Decode);
    }
    let mut i: usize = 0;
    while i < frames.len()
        invariant
            i <= frames@.len(),
            animation_view(frames@) == decoded,
            gif_frames(gif_data@) == Some(decoded),
            forall|k: int| 0 <= k < i ==> (#[trigger] frames@[k]).frame.wf() && frames@[k].delay.denom_ms != 0,
        decreases frames@.len() - i,
    {
        if !frames[i].frame.is_wf() || frames[i].delay.denom_ms == 0 {
            assert(decoded[i as int] == timed_view(frames@[i as int]));
            assert(!usable(decoded));
            return Err(AnaglyphError::Decode);
        }
        i = i + 1;
    }
    proof {
        assert forall|k: int| 0 <= k < decoded.len() implies frame_of(#[trigger] decoded[k]).wf()
            && decoded[k].4 != 0 by {
            assert(decoded[k] == timed_view(frames@[k]));
        }
    }
    let out = match process_frame_sequence(&frames, direction, anaglyph_type) {
        Ok(out) => out,
        Err(e) => {
            proof {
                let k = choose|k: int| 0 <= k < frames@.len() && !same_size(
                    (#[trigger] frames@[k]).frame@,
                    frames@[0].frame@,
                );
                assert(decoded[k] == timed_view(frames@[k]));
                assert(decoded[0] == timed_view(frames@[0]));
            }
            return Err(e);
        },
    };
    proof {
        assert forall|k: int| 0 <= k < decoded.len() implies same_size(
            frame_of(#[trigger] decoded[k]),
            frame_of(decoded[0]),
        ) by {
            assert(decoded[k] == timed_view(frames@[k]));
            assert(decoded[0] == timed_view(frames@[0]));
            assert(same_size(frames@[k].frame@, frames@[0].frame@));
        }
        assert forall|k: int| 0 <= k < out@.len() implies (#[trigger] out@[k]).frame.wf()
            && out@[k].delay.denom_ms != 0 by {
            assert(out@[k].delay == frames@[k + 1].delay);
        }
        assert forall|k: int| 0 <= k < out@.len() implies #[trigger] animation_view(out@)[k] == gif_anaglyph(
            decoded,
            direction,
            anaglyph_type,
        )[k] by {
            assert(decoded[k] == timed_view(frames@[k]));
            assert(decoded[k + 1] == timed_view(frames@[k + 1]));
            assert(frame_of(decoded[k]) == frames@[k].frame@);
            assert(frame_of(decoded[k + 1]) == frames@[k + 1].frame@);
        }
        assert(animation_view(out@) =~= gif_anaglyph(decoded, direction, anaglyph_type));
    }
    match encode_gif(&out) {
        Ok(bytes) => Ok(bytes),
        Err(_) => Err(AnaglyphError::Encode),
    }
}

} // verus!
