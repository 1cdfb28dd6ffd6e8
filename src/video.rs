use vstd::prelude::*;
use crate::anaglyph::{AnaglyphType, VideoDirection};
use crate::frame::{AnaglyphError, Frame};
use crate::sequence::{combine_pair, pair_anaglyph, same_size};

verus! {

/// What one decoded frame yields when `previous` is the frame held before
/// it: nothing for the first frame, else the previous frame's timestamp
/// with the anaglyph of the pair.
pub open spec fn emitted<T>(
    previous: Option<(T, Frame)>,
    current: Frame,
    direction: VideoDirection,
    anaglyph_type: AnaglyphType,
) -> Option<(T, Seq<u8>)> {
    match previous {
        None => None,
        Some((ts, prev)) => Some((ts, pair_anaglyph(prev@, current@, direction, anaglyph_type))),
    }
}

/// Everything a stream of decoded frames yields, in order, starting with
/// `previous` held.
pub open spec fn emitted_all<T>(
    previous: Option<(T, Frame)>,
    decoded: Seq<(T, Frame)>,
    direction: VideoDirection,
    anaglyph_type: AnaglyphType,
) -> Seq<(T, Seq<u8>)>
    decreases decoded.len(),
{
    if decoded.len() == 0 {
        seq![]
    } else {
        let head = match emitted(previous, decoded[0].1, direction, anaglyph_type) {
            Some(o) => seq![o],
            None => seq![],
        };
        head + emitted_all(Some(decoded[0]), decoded.drop_first(), direction, anaglyph_type)
    }
}

/// Output `i` of a decoded stream: the timestamp of decoded frame `i` with
/// the anaglyph of frames `i` and `i + 1`.
pub open spec fn paired_in_order<T>(
    decoded: Seq<(T, Frame)>,
    direction: VideoDirection,
    anaglyph_type: AnaglyphType,
) -> Seq<(T, Seq<u8>)> {
    Seq::new(
        if decoded.len() == 0 { 0 } else { (decoded.len() - 1) as nat },
        |i: int| (decoded[i].0, pair_anaglyph(decoded[i].1@, decoded[i + 1].1@, direction, anaglyph_type)),
    )
}

/// Pairs each decoded frame of a stream with the one before it.
pub struct FramePairer<T> {
    direction: VideoDirection,
    anaglyph_type: AnaglyphType,
    previous: Option<(T, Frame)>,
}

impl<T> FramePairer<T> {
    /// The frame held for the next pairing, with its timestamp.
    pub closed spec fn held(&self) -> Option<(T, Frame)> {
        self.previous
    }

    /// Which frame of a pair is the left eye.
    pub closed spec fn direction(&self) -> VideoDirection {
        self.direction
    }

    /// The colour-mixing preset.
    pub closed spec fn anaglyph_type(&self) -> AnaglyphType {
        self.anaglyph_type
    }

    /// The held frame, if any, is well formed.
    pub open spec fn wf(&self) -> bool {
        self.held() matches Some((_, f)) ==> f.wf()
    }

    /// A pairer that holds no frame yet.
    pub fn new(direction: VideoDirection, anaglyph_type: AnaglyphType) -> (r: Self)
        ensures
            r.wf(),
            r.held() is None,
            r.direction() == direction,
            r.anaglyph_type() == anaglyph_type,
    {
        FramePairer { direction, anaglyph_type, previous: None }
    }

    /// Decides how the stream ends once the decoder yields no frame:
    /// `decoder_exhausted` tells a clean end from a decode failure. The
    /// conversion succeeds only on a clean end after at least one frame.
    pub fn finish(&self, decoder_exhausted: bool) -> (r: Result<(), AnaglyphError>)
        ensures
            r is Ok <==> decoder_exhausted && self.held() is Some,
            r is Err ==> r->Err_0 == AnaglyphError::Decode,
    {
        if decoder_exhausted && self.previous.is_some() {
            Ok(())
        } else {
            Err(AnaglyphError::Decode)
        }
    }

    /// Takes the next decoded frame. The first frame only becomes the held
    /// frame; each later one yields the held frame's timestamp with the
    /// anaglyph of the pair, and is held in its place.
    pub fn push(&mut self, timestamp: T, frame: Frame) -> (r: Result<Option<(T, Frame)>, AnaglyphError>)
        requires
            old(self).wf(),
            frame.wf(),
        ensures
            final(self).wf(),
            final(self).direction() == old(self).direction(),
            final(self).anaglyph_type() == old(self).anaglyph_type(),
            r is Err <==> (old(self).held() matches Some((_, prev)) && !same_size(prev@, frame@)),
            r is Err ==> r->Err_0 == AnaglyphError::DimensionMismatch && final(self).held() == old(
                self,
            ).held(),
            r is Ok ==> final(self).held() == Some((timestamp, frame)),
            r is Ok ==> match r->Ok_0 {
                None => old(self).held() is None,
                Some((ts, out)) => {
                    &&& out.wf()
                    &&& same_size(out@, frame@)
                    &&& emitted(old(self).held(), frame, old(self).direction(), old(self).anaglyph_type())
                        == Some((ts, out.data@))
                },
            },
    {
        match self.previous.take() {
            None => {
                self.previous = Some((timestamp, frame));
                Ok(None)
            },
            Some((ts, prev)) => match combine_pair(&prev, &frame, self.direction, self.anaglyph_type) {
                Ok(out) => {
                    self.previous = Some((timestamp, frame));
                    Ok(Some((ts, out)))
                },
                Err(e) => {
                    self.previous = Some((ts, prev));
                    Err(e)
                },
            },
        }
    }
}

/// Helper for the ordering law: with a frame already held, the stream's
/// outputs pair each frame with the one decoded just before it.
proof fn lemma_emitted_from_held<T>(
    held: (T, Frame),
    decoded: Seq<(T, Frame)>,
    direction: VideoDirection,
    anaglyph_type: AnaglyphType,
)
    ensures
        emitted_all(Some(held), decoded, direction, anaglyph_type) == paired_in_order(
            seq![held] + decoded,
            direction,
            anaglyph_type,
        ),
    decreases decoded.len(),
{
    let all = seq![held] + decoded;
    if decoded.len() > 0 {
        lemma_emitted_from_held(decoded[0], decoded.drop_first(), direction, anaglyph_type);
        assert(seq![decoded[0]] + decoded.drop_first() =~= decoded);
    }
    assert(emitted_all(Some(held), decoded, direction, anaglyph_type) =~= paired_in_order(
        all,
        direction,
        anaglyph_type,
    ));
}

/// A stream's outputs keep the decode order: fed from an empty pairer,
/// output `i` carries the timestamp of decoded frame `i` and the anaglyph
/// of decoded frames `i` and `i + 1`, and `n` frames yield `n - 1` outputs.
pub proof fn lemma_stream_order<T>(
    decoded: Seq<(T, Frame)>,
    direction: VideoDirection,
    anaglyph_type: AnaglyphType,
)
    ensures
        emitted_all(None, decoded, direction, anaglyph_type) == paired_in_order(
            decoded,
            direction,
            anaglyph_type,
        ),
{
    if decoded.len() > 0 {
        lemma_emitted_from_held(decoded[0], decoded.drop_first(), direction, anaglyph_type);
        assert(seq![decoded[0]] + decoded.drop_first() =~= decoded);
        assert(emitted_all(None, decoded, direction, anaglyph_type) =~= emitted_all(
            Some(decoded[0]),
            decoded.drop_first(),
            direction,
            anaglyph_type,
        ));
    } else {
        assert(emitted_all(None, decoded, direction, anaglyph_type) =~= paired_in_order(
            decoded,
            direction,
            anaglyph_type,
        ));
    }
}

} // verus!
