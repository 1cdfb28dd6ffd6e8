use vstd::prelude::*;

verus! {

/// A grid of 8-bit RGB pixels, stored row by row, three bytes per pixel.
#[derive(Debug, Clone)]
pub struct Frame {
    pub width: u32,
    pub height: u32,
    pub data: Vec<u8>,
}

/// Why a conversion could not be carried out.
#[derive(Debug, Clone, Copy, PartialEq, Eq, Structural)]
pub enum AnaglyphError {
    /// Two frames that are combined differ in width or height.
    DimensionMismatch,
    /// An offset's magnitude is not below the frame's width or height.
    OffsetOutOfRange,
    /// A side-by-side image has an odd width.
    OddWidth,
    /// A pixel buffer's length is not width × height × 3.
    InvalidFrame,
    /// The input could not be decoded, or held no frame.
    Decode,
    /// The output could not be encoded.
    Encode,
}

/// What a frame is: its size and its bytes.
pub struct FrameView {
    pub width: nat,
    pub height: nat,
    pub data: Seq<u8>,
}

impl FrameView {
    /// The buffer holds exactly three bytes for each pixel.
    pub open spec fn wf(self) -> bool {
        self.data.len() == self.width * self.height * 3
    }
}

impl View for Frame {
    type V = FrameView;

    open spec fn view(&self) -> FrameView {
        FrameView { width: self.width as nat, height: self.height as nat, data: self.data@ }
    }
}

impl Frame {
    /// The buffer holds exactly three bytes for each pixel.
    pub open spec fn wf(&self) -> bool {
        self@.wf()
    }

    /// Builds a frame from a row-major RGB buffer.
    pub fn new(width: u32, height: u32, data: Vec<u8>) -> (r: Result<Frame, AnaglyphError>)
        ensures
            data@.len() == width * height * 3 <==> r is Ok,
            r is Ok ==> r->Ok_0.wf() && r->Ok_0.width == width && r->Ok_0.height == height
                && r->Ok_0.data@ == data@,
            r is Err ==> r->Err_0 == AnaglyphError::InvalidFrame,
    {
        let f = Frame { width, height, data };
        if f.is_wf() {
            Ok(f)
        } else {
            Err(AnaglyphError::InvalidFrame)
        }
    }

    /// Whether the buffer holds exactly three bytes for each pixel.
    pub fn is_wf(&self) -> (r: bool)
        ensures
            r == self.wf(),
    {
        let n = self.data.len() as u128;
        assert(self.width * self.height * 3 <= 0xffff_ffff_ffff_ffff_ffff_ffff_ffff_ffff) by (nonlinear_arith)
            requires
                self.width <= 0xffff_ffff,
                self.height <= 0xffff_ffff,
        ;
        n == self.width as u128 * self.height as u128 * 3
    }

    /// An all-black frame.
    pub fn black(width: u32, height: u32) -> (r: Frame)
        requires
            width * height * 3 <= usize::MAX,
        ensures
            r.wf(),
            r.width == width,
            r.height == height,
            forall|i: int| 0 <= i < r.data@.len() ==> r.data@[i] == 0,
    {
        let n: usize = width as usize * height as usize * 3;
        let mut data: Vec<u8> = Vec::new();
        while data.len() < n
            invariant
                data@.len() <= n,
                forall|i: int| 0 <= i < data@.len() ==> data@[i] == 0,
            decreases n - data@.len(),
        {
            data.push(0);
        }
        Frame { width, height, data }
    }

    /// The three channels of the pixel at column `x`, row `y`.
    pub fn pixel(&self, x: u32, y: u32) -> (r: [u8; 3])
        requires
            self.wf(),
            x < self.width,
            y < self.height,
        ensures
            r@ == pixel(self@, x as int, y as int),
    {
        proof {
            lemma_pixel_in_bounds(x as int, y as int, self.width as int, self.height as int);
        }
        let len = self.data.len();
        let i: usize = (y as usize * self.width as usize + x as usize) * 3;
        let r = [self.data[i], self.data[i + 1], self.data[i + 2]];
        assert(r@ =~= pixel(self@, x as int, y as int));
        r
    }
}

/// Index of the first byte of pixel (`x`, `y`) in a buffer of width `w`.
pub open spec fn pixel_index(w: int, x: int, y: int) -> int {
    3 * (y * w + x)
}

/// The three channels of pixel (`x`, `y`).
pub open spec fn pixel(f: FrameView, x: int, y: int) -> Seq<u8> {
    let i = pixel_index(f.width as int, x, y);
    f.data.subrange(i, i + 3)
}

/// A pixel inside a `w` × `h` grid lies inside its buffer.
pub proof fn lemma_pixel_in_bounds(x: int, y: int, w: int, h: int)
    requires
        0 <= x < w,
        0 <= y < h,
    ensures
        0 <= y * w,
        0 <= y * w + x < w * h,
        pixel_index(w, x, y) + 3 <= w * h * 3,
{
    assert(0 <= y * w && y * w + x < w * h) by (nonlinear_arith)
        requires
            0 <= x < w,
            0 <= y < h,
    ;
}

/// Pixel `p` of a grid `nw` wide, counted row by row, lies at column
/// `p % nw` and row `p / nw`, inside an `nw` × `nh` grid.
pub proof fn lemma_position(p: int, nw: int, nh: int)
    requires
        0 <= nw,
        0 <= nh,
        0 <= p < nw * nh,
    ensures
        nw > 0,
        0 <= p % nw < nw,
        0 <= p / nw < nh,
        nw * (p / nw) + p % nw == p,
{
    assert(nw > 0) by (nonlinear_arith)
        requires
            0 <= nw,
            0 <= nh,
            0 <= p < nw * nh,
    ;
    vstd::arithmetic::div_mod::lemma_fundamental_div_mod(p, nw);
    vstd::arithmetic::div_mod::lemma_mod_pos_bound(p, nw);
    vstd::arithmetic::div_mod::lemma_div_pos_is_pos(p, nw);
    assert(p / nw < nh) by (nonlinear_arith)
        requires
            p == nw * (p / nw) + p % nw,
            0 <= p % nw,
            p < nw * nh,
            nw > 0,
    ;
}

} // verus!
