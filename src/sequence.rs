use vstd::prelude::*;
use crate::anaglyph::{left_right_to_anaglyph, window_anaglyph, AnaglyphType, VideoDirection};
use crate::frame::{AnaglyphError, Frame, FrameView};

verus! {

/// How long a frame of an animation is shown: `numer_ms / denom_ms`
/// milliseconds.
#[derive(Debug, Clone, Copy, PartialEq, Eq, Structural)]
pub struct Delay {
    pub numer_ms: u32,
    pub denom_ms: u32,
}

/// A frame of an animation with its display time.
#[derive(Debug, Clone)]
pub struct TimedFrame {
    pub frame: Frame,
    pub delay: Delay,
}

/// Two frames of equal width and height.
pub open spec fn same_size(a: FrameView, b: FrameView) -> bool {
    a.width == b.width && a.height == b.height
}

/// The anaglyph of a (previous, current) pair: clockwise the current frame
/// is the left eye, counter-clockwise the previous frame is.
pub open spec fn pair_anaglyph(
    previous: FrameView,
    current: FrameView,
    direction: VideoDirection,
    anaglyph_type: AnaglyphType,
) -> Seq<u8> {
    match direction {
        VideoDirection::Clockwise => window_anaglyph(
            current,
            previous,
            anaglyph_type,
            0,
            0,
            0,
            0,
            current.width as int,
            current.height as int,
        ),
        VideoDirection::CounterClockwise => window_anaglyph(
            previous,
            current,
            anaglyph_type,
            0,
            0,
            0,
            0,
            previous.width as int,
            previous.height as int,
        ),
    }
}

/// Combines the current frame with the previous one as `direction` assigns
/// the two eyes.
pub fn combine_pair(
    previous: &Frame,
    current: &Frame,
    direction: VideoDirection,
    anaglyph_type: AnaglyphType,
) -> (r: Result<Frame, AnaglyphError>)
    requires
        previous.wf(),
        current.wf(),
    ensures
        r is Ok <==> same_size(previous@, current@),
        r is Err ==> r->Err_0 == AnaglyphError::DimensionMismatch,
        r is Ok ==> {
            let f = r->Ok_0;
            &&& f.wf()
            &&& same_size(f@, current@)
            &&& f.data@ == pair_anaglyph(previous@, current@, direction, anaglyph_type)
        },
{
    match direction {
        VideoDirection::Clockwise => left_right_to_anaglyph(current, previous, anaglyph_type),
        VideoDirection::CounterClockwise => left_right_to_anaglyph(previous, current, anaglyph_type),
    }
}

/// Turns an animation of `n` frames into one of `n - 1` anaglyph frames:
/// output frame `i` combines input frames `i` (previous) and `i + 1`
/// (current) and keeps the current frame's delay.
pub fn process_frame_sequence(
    frames: &Vec<TimedFrame>,
    direction: VideoDirection,
    anaglyph_type: AnaglyphType,
) -> (r: Result<Vec<TimedFrame>, AnaglyphError>)
    requires
        forall|i: int| 0 <= i < frames@.len() ==> (#[trigger] frames@[i]).frame.wf(),
    ensures
        r is Ok <==> forall|i: int|
            0 <= i < frames@.len() ==> same_size((#[trigger] frames@[i]).frame@, frames@[0].frame@),
        r is Err ==> r->Err_0 == AnaglyphError::DimensionMismatch,
        r is Ok ==> {
            let out = r->Ok_0@;
            &&& out.len() == if frames@.len() == 0 { 0 } else { frames@.len() - 1 }
            &&& forall|i: int|
                0 <= i < out.len() ==> {
                    let o = #[trigger] out[i];
                    &&& o.frame.wf()
                    &&& same_size(o.frame@, frames@[0].frame@)
                    &&& o.delay == frames@[i + 1].delay
                    &&& o.frame.data@ == pair_anaglyph(
                        frames@[i].frame@,
                        frames@[i + 1].frame@,
                        direction,
                        anaglyph_type,
                    )
                }
        },
{
    let mut out: Vec<TimedFrame> = Vec::new();
    if frames.len() == 0 {
        return Ok(out);
    }
    let mut i: usize = 1;
    while i < frames.len()
        invariant
            1 <= i <= frames@.len(),
            forall|k: int| 0 <= k < frames@.len() ==> (#[trigger] frames@[k]).frame.wf(),
            forall|k: int| 0 <= k < i ==> same_size((#[trigger] frames@[k]).frame@, frames@[0].frame@),
            out@.len() == i - 1,
            forall|k: int|
                0 <= k < out@.len() ==> {
                    let o = #[trigger] out@[k];
                    &&& o.frame.wf()
                    &&& same_size(o.frame@, frames@[0].frame@)
                    &&& o.delay == frames@[k + 1].delay
                    &&& o.frame.data@ == pair_anaglyph(
                        frames@[k].frame@,
                        frames@[k + 1].frame@,
                        direction,
                        anaglyph_type,
                    )
                },
        decreases frames@.len() - i,
    {
        let previous = &frames[i - 1];
        let current = &frames[i];
        match combine_pair(&previous.frame, &current.frame, direction, anaglyph_type) {
            Ok(frame) => {
                out.push(TimedFrame { frame, delay: current.delay });
            },
            Err(e) => {
                assert(!same_size(frames@[i as int].frame@, frames@[0].frame@));
                return Err(e);
            },
        }
        i = i + 1;
    }
    Ok(out)
}

/// Exchanging the direction and exchanging the roles of the two frames of
/// a pair give the same anaglyph.
pub proof fn lemma_direction_swap(a: FrameView, b: FrameView, anaglyph_type: AnaglyphType)
    requires
        same_size(a, b),
    ensures
        pair_anaglyph(a, b, VideoDirection::Clockwise, anaglyph_type) == pair_anaglyph(
            b,
            a,
            VideoDirection::CounterClockwise,
            anaglyph_type,
        ),
        pair_anaglyph(a, b, VideoDirection::CounterClockwise, anaglyph_type) == pair_anaglyph(
            b,
            a,
            VideoDirection::Clockwise,
            anaglyph_type,
        ),
{
}

} // verus!
