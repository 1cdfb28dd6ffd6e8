use vstd::prelude::*;
use crate::frame::{
    lemma_pixel_in_bounds, lemma_position, pixel, pixel_index, AnaglyphError, Frame, FrameView,
};

verus! {

/// The five colour-mixing presets.
#[derive(Debug, Clone, Copy, PartialEq, Eq, Structural)]
pub enum AnaglyphType {
    True,
    GrayScale,
    Optimized,
    Color,
    HalfColor,
}

/// Which member of a (previous, current) frame pair plays the left eye.
#[derive(Debug, Clone, Copy, PartialEq, Eq, Structural)]
pub enum VideoDirection {
    /// The current frame is the left eye, the previous one the right eye.
    Clockwise,
    /// The previous frame is the left eye, the current one the right eye.
    CounterClockwise,
}

/// A signed displacement, in pixels, of the left view against the right view.
#[derive(Debug, Clone, Copy, PartialEq, Eq, Structural)]
pub struct Offset {
    pub x: i32,
    pub y: i32,
}

/// Weights are fixed-point numbers in thousandths: `299` stands for `0.299`.
pub const WEIGHT_SCALE: u32 = 1000;

/// Row `row` of the preset's matrix, in thousandths. Row 0 weighs the left
/// pixel, row 1 the right pixel; columns `3c .. 3c + 3` feed output channel `c`.
pub open spec fn weights(t: AnaglyphType, row: int) -> Seq<u32> {
    match t {
        AnaglyphType::True => if row == 0 {
            seq![299u32, 587, 114, 0, 0, 0, 0, 0, 0]
        } else {
            seq![0u32, 0, 0, 0, 0, 0, 299, 587, 114]
        },
        AnaglyphType::GrayScale => if row == 0 {
            seq![299u32, 587, 114, 0, 0, 0, 0, 0, 0]
        } else {
            seq![0u32, 0, 0, 299, 587, 114, 299, 587, 114]
        },
        AnaglyphType::Optimized => if row == 0 {
            seq![0u32, 700, 300, 0, 0, 0, 0, 0, 0]
        } else {
            seq![0u32, 0, 0, 0, 1000, 0, 0, 0, 1000]
        },
        AnaglyphType::Color => if row == 0 {
            seq![1000u32, 0, 0, 0, 0, 0, 0, 0, 0]
        } else {
            seq![0u32, 0, 0, 0, 1000, 0, 0, 0, 1000]
        },
        AnaglyphType::HalfColor => if row == 0 {
            seq![299u32, 587, 114, 0, 0, 0, 0, 0, 0]
        } else {
            seq![0u32, 0, 0, 0, 1000, 0, 0, 0, 1000]
        },
    }
}

/// The weighted sum that feeds output channel `c`, still in thousandths.
pub open spec fn channel_sum(l: Seq<u8>, r: Seq<u8>, w0: Seq<u32>, w1: Seq<u32>, c: int) -> int {
    l[0] * w0[3 * c] + l[1] * w0[3 * c + 1] + l[2] * w0[3 * c + 2]
        + r[0] * w1[3 * c] + r[1] * w1[3 * c + 1] + r[2] * w1[3 * c + 2]
}

/// Output channel `c`: the weighted sum truncated to a whole number and
/// clamped to 255.
pub open spec fn blend(l: Seq<u8>, r: Seq<u8>, w0: Seq<u32>, w1: Seq<u32>, c: int) -> u8 {
    let v = channel_sum(l, r, w0, w1, c) / WEIGHT_SCALE as int;
    if v > 255 {
        255u8
    } else {
        v as u8
    }
}

/// Output channel `c` of the anaglyph pixel made from the left pixel `l`
/// and the right pixel `r` under preset `t`.
pub open spec fn mix(t: AnaglyphType, l: Seq<u8>, r: Seq<u8>, c: int) -> u8 {
    blend(l, r, weights(t, 0), weights(t, 1), c)
}

/// A combined pixel depends on nothing but the preset and the first three
/// channels of each input pixel: equal inputs give equal outputs.
pub proof fn lemma_mix_is_pure(t: AnaglyphType, l1: Seq<u8>, r1: Seq<u8>, l2: Seq<u8>, r2: Seq<u8>)
    requires
        l1.len() >= 3,
        r1.len() >= 3,
        l2.len() >= 3,
        r2.len() >= 3,
        l1.subrange(0, 3) == l2.subrange(0, 3),
        r1.subrange(0, 3) == r2.subrange(0, 3),
    ensures
        forall|c: int| 0 <= c < 3 ==> #[trigger] mix(t, l1, r1, c) == mix(t, l2, r2, c),
{
    assert forall|k: int| 0 <= k < 3 implies l1[k] == l2[k] && r1[k] == r2[k] by {
        let (a1, a2) = (l1.subrange(0, 3), l2.subrange(0, 3));
        let (b1, b2) = (r1.subrange(0, 3), r2.subrange(0, 3));
        assert(a1[k] == l1[k] && a2[k] == l2[k]);
        assert(b1[k] == r1[k] && b2[k] == r2[k]);
    }
}

/// The matrix of a preset, in thousandths.
pub fn anaglyph_type_to_matrix(anaglyph_type: AnaglyphType) -> (m: [[u32; 9]; 2])
    ensures
        m@[0]@ == weights(anaglyph_type, 0),
        m@[1]@ == weights(anaglyph_type, 1),
{
    let m: [[u32; 9]; 2] = match anaglyph_type {
        AnaglyphType::True => [
            [299, 587, 114, 0, 0, 0, 0, 0, 0],
            [0, 0, 0, 0, 0, 0, 299, 587, 114],
        ],
        AnaglyphType::GrayScale => [
            [299, 587, 114, 0, 0, 0, 0, 0, 0],
            [0, 0, 0, 299, 587, 114, 299, 587, 114],
        ],
        AnaglyphType::Optimized => [
            [0, 700, 300, 0, 0, 0, 0, 0, 0],
            [0, 0, 0, 0, 1000, 0, 0, 0, 1000],
        ],
        AnaglyphType::Color => [
            [1000, 0, 0, 0, 0, 0, 0, 0, 0],
            [0, 0, 0, 0, 1000, 0, 0, 0, 1000],
        ],
        AnaglyphType::HalfColor => [
            [299, 587, 114, 0, 0, 0, 0, 0, 0],
            [0, 0, 0, 0, 1000, 0, 0, 0, 1000],
        ],
    };
    assert(m@[0]@ =~= weights(anaglyph_type, 0));
    assert(m@[1]@ =~= weights(anaglyph_type, 1));
    m
}

/// A channel value times a weight, exactly.
fn weighted(p: u8, w: u32) -> (r: u64)
    ensures
        r == p * w,
        r <= 255 * 0xffff_ffff,
{
    proof {
        assert(p * w <= 255 * 0xffff_ffff) by (nonlinear_arith)
            requires
                p <= 255,
                w <= 0xffff_ffff,
        ;
    }
    p as u64 * w as u64
}

/// One output channel from a left and a right pixel, with weights `w0` and
/// `w1` (thousandths), truncated and clamped to 255.
fn blend_channel(left: &[u8], right: &[u8], w0: &[u32; 9], w1: &[u32; 9], c: usize) -> (v: u8)
    requires
        left@.len() >= 3,
        right@.len() >= 3,
        c < 3,
    ensures
        v == blend(left@, right@, w0@, w1@, c as int),
{
    let k = 3 * c;
    let sum: u64 = weighted(left[0], w0[k]) + weighted(left[1], w0[k + 1])
        + weighted(left[2], w0[k + 2]) + weighted(right[0], w1[k])
        + weighted(right[1], w1[k + 1]) + weighted(right[2], w1[k + 2]);
    let v = sum / WEIGHT_SCALE as u64;
    if v > 255 {
        255
    } else {
        v as u8
    }
}

/// Combines a left and a right RGB pixel into one anaglyph pixel.
pub fn combine_slices(left: &[u8], right: &[u8], anaglyph: &mut [u8], anaglyph_matrix: &[[u32; 9]; 2])
    requires
        left@.len() >= 3,
        right@.len() >= 3,
        old(anaglyph)@.len() >= 3,
    ensures
        final(anaglyph)@.len() == old(anaglyph)@.len(),
        forall|c: int| 0 <= c < 3 ==> final(anaglyph)@[c] == blend(left@, right@, anaglyph_matrix@[0]@, anaglyph_matrix@[1]@, c),
        forall|i: int| 3 <= i < old(anaglyph)@.len() ==> final(anaglyph)@[i] == old(anaglyph)@[i],
{
    let w0 = &anaglyph_matrix[0];
    let w1 = &anaglyph_matrix[1];
    anaglyph[0] = blend_channel(left, right, w0, w1, 0);
    anaglyph[1] = blend_channel(left, right, w0, w1, 1);
    anaglyph[2] = blend_channel(left, right, w0, w1, 2);
}

/// The anaglyph of an `nw` × `nh` window: output pixel (x, y) combines the
/// left frame's pixel (x + lx, y + ly) with the right frame's pixel
/// (x + rx, y + ry).
pub open spec fn window_anaglyph(
    l: FrameView,
    r: FrameView,
    t: AnaglyphType,
    lx: int,
    ly: int,
    rx: int,
    ry: int,
    nw: int,
    nh: int,
) -> Seq<u8> {
    Seq::new(
        (nw * nh * 3) as nat,
        |j: int|
            {
                let p = j / 3;
                mix(t, pixel(l, p % nw + lx, p / nw + ly), pixel(r, p % nw + rx, p / nw + ry), j % 3)
            },
    )
}

/// Magnitude of an offset component.
pub open spec fn magnitude(o: int) -> int {
    if o >= 0 {
        o
    } else {
        -o
    }
}

/// Where the left view's window starts on an axis, for offset component
/// `o`; the right view's starts at `lead(-o)`.
pub open spec fn lead(o: int) -> int {
    if o >= 0 {
        o
    } else {
        0
    }
}

/// Combines the window of `left` at (`lx`, `ly`) with the window of `right`
/// at (`rx`, `ry`), both `nw` × `nh`.
fn combine_windows(
    left: &Frame,
    right: &Frame,
    m: &[[u32; 9]; 2],
    Ghost(t): Ghost<AnaglyphType>,
    lx: u32,
    ly: u32,
    rx: u32,
    ry: u32,
    nw: u32,
    nh: u32,
) -> (out: Vec<u8>)
    requires
        left.wf(),
        right.wf(),
        left.width == right.width,
        left.height == right.height,
        m@[0]@ == weights(t, 0),
        m@[1]@ == weights(t, 1),
        lx + nw <= left.width,
        rx + nw <= left.width,
        ly + nh <= left.height,
        ry + nh <= left.height,
    ensures
        out@ == window_anaglyph(left@, right@, t, lx as int, ly as int, rx as int, ry as int, nw as int, nh as int),
{
    let ghost spec_out = window_anaglyph(left@, right@, t, lx as int, ly as int, rx as int, ry as int, nw as int, nh as int);
    let len = left.data.len();
    assert(nw * nh <= left.width * left.height) by (nonlinear_arith)
        requires
            nw <= left.width,
            nh <= left.height,
    ;
    let n: usize = nw as usize * nh as usize;
    let mut out: Vec<u8> = Vec::new();
    let mut p: usize = 0;
    while p < n
        invariant
            n == nw * nh,
            n * 3 <= len,
            len == left.data@.len(),
            p <= n,
            out@.len() == 3 * p,
            forall|j: int| 0 <= j < out@.len() ==> out@[j] == spec_out[j],
            spec_out == window_anaglyph(left@, right@, t, lx as int, ly as int, rx as int, ry as int, nw as int, nh as int),
            left.wf(),
            right.wf(),
            left.width == right.width,
            left.height == right.height,
            m@[0]@ == weights(t, 0),
            m@[1]@ == weights(t, 1),
            lx + nw <= left.width,
            rx + nw <= left.width,
            ly + nh <= left.height,
            ry + nh <= left.height,
        decreases n - p,
    {
        proof {
            lemma_position(p as int, nw as int, nh as int);
        }
        let x: u32 = (p % nw as usize) as u32;
        let y: u32 = (p / nw as usize) as u32;
        let lp = left.pixel(x + lx, y + ly);
        let rp = right.pixel(x + rx, y + ry);
        let mut px: [u8; 3] = [0, 0, 0];
        combine_slices(&lp, &rp, &mut px, m);
        out.push(px[0]);
        out.push(px[1]);
        out.push(px[2]);
        proof {
            let pi = p as int;
            assert(spec_out.len() == n * 3);
            assert((3 * pi) / 3 == pi && (3 * pi) % 3 == 0);
            assert((3 * pi + 1) / 3 == pi && (3 * pi + 1) % 3 == 1);
            assert((3 * pi + 2) / 3 == pi && (3 * pi + 2) % 3 == 2);
            assert(out@[3 * pi] == spec_out[3 * pi]);
            assert(out@[3 * pi + 1] == spec_out[3 * pi + 1]);
            assert(out@[3 * pi + 2] == spec_out[3 * pi + 2]);
        }
        p = p + 1;
    }
    assert(out@ =~= spec_out);
    out
}

/// Combines two equal-sized views into one anaglyph frame of the same size.
pub fn left_right_to_anaglyph(left: &Frame, right: &Frame, anaglyph_type: AnaglyphType) -> (r: Result<
    Frame,
    AnaglyphError,
>)
    requires
        left.wf(),
        right.wf(),
    ensures
        r is Ok <==> left.width == right.width && left.height == right.height,
        r is Err ==> r->Err_0 == AnaglyphError::DimensionMismatch,
        r is Ok ==> {
            let f = r->Ok_0;
            &&& f.wf()
            &&& f.width == left.width
            &&& f.height == left.height
            &&& f.data@ == window_anaglyph(left@, right@, anaglyph_type, 0, 0, 0, 0, left.width as int, left.height as int)
        },
{
    if left.height != right.height || left.width != right.width {
        return Err(AnaglyphError::DimensionMismatch);
    }
    let m = anaglyph_type_to_matrix(anaglyph_type);
    let data = combine_windows(left, right, &m, Ghost(anaglyph_type), 0, 0, 0, 0, left.width, left.height);
    Ok(Frame { width: left.width, height: left.height, data })
}

/// Magnitude of an offset component, as an unsigned number.
fn offset_magnitude(o: i32) -> (r: u32)
    ensures
        r == magnitude(o as int),
{
    if o >= 0 {
        o as u32
    } else {
        (-(o as i64)) as u32
    }
}

/// Combines two equal-sized views shifted against each other by `offset`:
/// both are cropped to the region where they overlap.
pub fn left_right_to_anaglyph_offset(
    left: &Frame,
    right: &Frame,
    anaglyph_type: AnaglyphType,
    offset: Offset,
) -> (r: Result<Frame, AnaglyphError>)
    requires
        left.wf(),
        right.wf(),
    ensures
        r is Ok <==> left.width == right.width && left.height == right.height && magnitude(offset.x as int)
            < left.width && magnitude(offset.y as int) < left.height,
        r == Err::<Frame, AnaglyphError>(AnaglyphError::DimensionMismatch) <==> left.width != right.width
            || left.height != right.height,
        r == Err::<Frame, AnaglyphError>(AnaglyphError::OffsetOutOfRange) <==> left.width == right.width
            && left.height == right.height && (magnitude(offset.x as int) >= left.width
            || magnitude(offset.y as int) >= left.height),
        r is Ok ==> {
            let f = r->Ok_0;
            let nw = left.width - magnitude(offset.x as int);
            let nh = left.height - magnitude(offset.y as int);
            &&& f.wf()
            &&& f.width == nw
            &&& f.height == nh
            &&& f.data@ == window_anaglyph(left@, right@,
                anaglyph_type,
                lead(offset.x as int),
                lead(offset.y as int),
                lead(-offset.x),
                lead(-offset.y),
                nw,
                nh,
            )
        },
{
    if left.height != right.height || left.width != right.width {
        return Err(AnaglyphError::DimensionMismatch);
    }
    let ax = offset_magnitude(offset.x);
    let ay = offset_magnitude(offset.y);
    if ay >= left.height || ax >= left.width {
        return Err(AnaglyphError::OffsetOutOfRange);
    }
    let new_width = left.width - ax;
    let new_height = left.height - ay;
    let left_x: u32 = if offset.x >= 0 { ax } else { 0 };
    let left_y: u32 = if offset.y >= 0 { ay } else { 0 };
    let right_x: u32 = if offset.x < 0 { ax } else { 0 };
    let right_y: u32 = if offset.y < 0 { ay } else { 0 };
    let m = anaglyph_type_to_matrix(anaglyph_type);
    let data = combine_windows(
        left,
        right,
        &m,
        Ghost(anaglyph_type),
        left_x,
        left_y,
        right_x,
        right_y,
        new_width,
        new_height,
    );
    Ok(Frame { width: new_width, height: new_height, data })
}

/// With a zero offset on a non-empty pair, both components are in range
/// and the window that the shifted synthesis combines is the one that the
/// plain synthesis combines.
pub proof fn lemma_zero_offset_is_plain(left: &Frame, right: &Frame, anaglyph_type: AnaglyphType)
    requires
        left.wf(),
        right.wf(),
        left.width == right.width,
        left.height == right.height,
        left.width > 0,
        left.height > 0,
    ensures
        magnitude(0) < left.width,
        magnitude(0) < left.height,
        window_anaglyph(left@, right@,
            anaglyph_type,
            lead(0),
            lead(0),
            lead(-0),
            lead(-0),
            left.width - magnitude(0),
            left.height - magnitude(0),
        ) == window_anaglyph(left@, right@, anaglyph_type, 0, 0, 0, 0, left.width as int, left.height as int),
{
}

/// The bytes of the `nw` × `f.height` window of `f` whose left edge is
/// column `x0`, row by row.
pub open spec fn window(f: FrameView, x0: int, nw: int) -> Seq<u8> {
    Seq::new((nw * f.height * 3) as nat, |j: int| pixel(f, (j / 3) % nw + x0, (j / 3) / nw)[j % 3])
}

/// Copies the full-height window of `f` that starts at column `x0` and is
/// `nw` columns wide.
fn crop_columns(f: &Frame, x0: u32, nw: u32) -> (r: Frame)
    requires
        f.wf(),
        x0 + nw <= f.width,
    ensures
        r.wf(),
        r.width == nw,
        r.height == f.height,
        r.data@ == window(f@, x0 as int, nw as int),
{
    let ghost spec_out = window(f@, x0 as int, nw as int);
    let len = f.data.len();
    let nh = f.height;
    assert(nw * nh <= f.width * f.height) by (nonlinear_arith)
        requires
            nw <= f.width,
            nh == f.height,
    ;
    let n: usize = nw as usize * nh as usize;
    let mut out: Vec<u8> = Vec::new();
    let mut p: usize = 0;
    while p < n
        invariant
            n == nw * nh,
            nh == f.height,
            n * 3 <= len,
            len == f.data@.len(),
            p <= n,
            out@.len() == 3 * p,
            forall|j: int| 0 <= j < out@.len() ==> out@[j] == spec_out[j],
            spec_out == window(f@, x0 as int, nw as int),
            f.wf(),
            x0 + nw <= f.width,
        decreases n - p,
    {
        proof {
            lemma_position(p as int, nw as int, nh as int);
        }
        let x: u32 = (p % nw as usize) as u32;
        let y: u32 = (p / nw as usize) as u32;
        let px = f.pixel(x + x0, y);
        out.push(px[0]);
        out.push(px[1]);
        out.push(px[2]);
        proof {
            let pi = p as int;
            assert(spec_out.len() == n * 3);
            assert((3 * pi) / 3 == pi && (3 * pi) % 3 == 0);
            assert((3 * pi + 1) / 3 == pi && (3 * pi + 1) % 3 == 1);
            assert((3 * pi + 2) / 3 == pi && (3 * pi + 2) % 3 == 2);
            assert(out@[3 * pi] == spec_out[3 * pi]);
            assert(out@[3 * pi + 1] == spec_out[3 * pi + 1]);
            assert(out@[3 * pi + 2] == spec_out[3 * pi + 2]);
        }
        p = p + 1;
    }
    assert(out@ =~= spec_out);
    proof {
        assert(nw * nh * 3 == nw * f.height * 3);
    }
    Frame { width: nw, height: nh, data: out }
}

/// Splits a side-by-side image into its left and right halves.
pub fn split_stereo(frame: &Frame) -> (r: Result<(Frame, Frame), AnaglyphError>)
    requires
        frame.wf(),
    ensures
        r is Ok <==> frame.width % 2 == 0,
        r is Err ==> r->Err_0 == AnaglyphError::OddWidth,
        r is Ok ==> {
            let (left, right) = r->Ok_0;
            let half = frame.width / 2;
            &&& left.wf() && right.wf()
            &&& left.width == half && right.width == half
            &&& left.height == frame.height && right.height == frame.height
            &&& left.data@ == window(frame@, 0, half as int)
            &&& right.data@ == window(frame@, half as int, half as int)
        },
{
    if frame.width % 2 != 0 {
        return Err(AnaglyphError::OddWidth);
    }
    let half = frame.width / 2;
    let left = crop_columns(frame, 0, half);
    let right = crop_columns(frame, half, half);
    Ok((left, right))
}

/// The two halves of an even-width image partition it: each of its pixels
/// is found in exactly one half, at the same row, in the left half at the
/// same column and in the right half shifted left by half the width.
pub proof fn lemma_split_partitions(frame: &Frame, x: int, y: int)
    requires
        frame.wf(),
        frame.width % 2 == 0,
        0 <= x < frame.width,
        0 <= y < frame.height,
    ensures
        ({
            let half = frame.width / 2;
            let i = pixel_index(half as int, if x < half { x } else { x - half }, y);
            let side = if x < half {
                window(frame@, 0, half as int)
            } else {
                window(frame@, half as int, half as int)
            };
            side.subrange(i, i + 3) == pixel(frame@, x, y)
        }),
{
    let half = (frame.width / 2) as int;
    let x0 = if x < half { 0 } else { half };
    let hx = x - x0;
    let side = window(frame@, x0, half);
    let p = y * half + hx;
    lemma_pixel_in_bounds(hx, y, half, frame.height as int);
    lemma_pixel_in_bounds(x, y, frame.width as int, frame.height as int);
    vstd::arithmetic::div_mod::lemma_fundamental_div_mod_converse(p, half, y, hx);
    assert forall|c: int| 0 <= c < 3 implies side[3 * p + c] == pixel(frame@, x, y)[c] by {
        assert((3 * p + c) / 3 == p && (3 * p + c) % 3 == c);
    }
    assert(side.subrange(3 * p, 3 * p + 3) =~= pixel(frame@, x, y));
}

} // verus!
