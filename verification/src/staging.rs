//! GPU readback bookkeeping: the CPU-addressable staging view over a mapped
//! copy of a captured texture.
//!
//! A `StagingView` exists from map to unmap of one pipeline iteration. Its
//! byte length is exactly `row_pitch * height`; a row may be wider than
//! `width * BYTES_PER_PIXEL`, so readers index by the row pitch. Release
//! consumes the view, so no access after release can be written at all.

use vstd::prelude::*;

use crate::encoder::BYTES_PER_PIXEL;
use crate::Fault;

verus! {

/// A GPU-resident captured frame: the texture handle, the compositor's
/// monotonic timestamp in vendor clock units, and the pixel dimensions.
#[derive(Clone, Copy, PartialEq, Eq, Structural, Debug)]
pub struct RawFrame {
    pub texture_handle: u64,
    pub system_relative_time: i64,
    pub width: u32,
    pub height: u32,
}

/// CPU-addressable byte view over the mapped copy of one captured frame.
pub struct StagingView {
    bytes: Vec<u8>,
    width: u32,
    height: u32,
    row_pitch: u32,
}

impl StagingView {
    /// The mapped bytes.
    pub closed spec fn contents(&self) -> Seq<u8> {
        self.bytes@
    }

    /// Pixel width of the frame.
    pub closed spec fn width(&self) -> u32 {
        self.width
    }

    /// Pixel height of the frame.
    pub closed spec fn height(&self) -> u32 {
        self.height
    }

    /// Bytes from one row's start to the next row's start.
    pub closed spec fn row_pitch(&self) -> u32 {
        self.row_pitch
    }

    /// The view spans exactly `row_pitch * height` bytes and every row
    /// holds its pixels.
    pub closed spec fn wf(&self) -> bool {
        &&& self.bytes@.len() == (self.row_pitch as nat) * (self.height as nat)
        &&& (self.width as nat) * (BYTES_PER_PIXEL as nat) <= self.row_pitch as nat
    }

    /// Wraps the mapped bytes of one staged frame. The map is accepted
    /// exactly when the byte count is `row_pitch * height` and the pitch
    /// holds a full row of pixels; anything else is a readback fault.
    pub fn stage(width: u32, height: u32, row_pitch: u32, bytes: Vec<u8>) -> (r: Result<
        StagingView,
        Fault,
    >)
        ensures
            r matches Ok(v) ==> {
                &&& v.wf()
                &&& v.contents() == bytes@
                &&& v.width() == width
                &&& v.height() == height
                &&& v.row_pitch() == row_pitch
            },
            r is Ok <==> bytes@.len() == (row_pitch as nat) * (height as nat) && (width as nat) * (
            BYTES_PER_PIXEL as nat) <= row_pitch as nat,
            r matches Err(f) ==> f == Fault::Readback,
    {
        proof {
            assert((row_pitch as int) * (height as int) <= 0xffffffffffffffff)
                by (nonlinear_arith)
                requires
                    row_pitch <= 0xffffffffu32 && height <= 0xffffffffu32,
            ;
            assert((width as int) * (BYTES_PER_PIXEL as int) <= 0xffffffffffffffff)
                by (nonlinear_arith)
                requires
                    width <= 0xffffffffu32 && BYTES_PER_PIXEL == 4,
            ;
        }
        let expected: u64 = (row_pitch as u64) * (height as u64);
        let pixels: u64 = (width as u64) * (BYTES_PER_PIXEL as u64);
        if (bytes.len() as u64) == expected && pixels <= (row_pitch as u64) {
            Ok(StagingView { bytes, width, height, row_pitch })
        } else {
            Err(Fault::Readback)
        }
    }

    /// Byte length of the view: always `row_pitch * height`.
    pub fn len(&self) -> (r: usize)
        requires
            self.wf(),
        ensures
            r == self.contents().len(),
            r == (self.row_pitch() as nat) * (self.height() as nat),
    {
        self.bytes.len()
    }

    /// The mapped bytes, for the encoder's plane copy.
    pub fn as_bytes(&self) -> (r: &[u8])
        ensures
            r@ == self.contents(),
    {
        self.bytes.as_slice()
    }

    /// Copies the pixel rows out tightly, dropping the padding past
    /// `width * BYTES_PER_PIXEL` in each pitched row.
    pub fn compact_rows(&self) -> (r: Vec<u8>)
        requires
            self.wf(),
        ensures
            r@.len() == (self.width() as nat) * (BYTES_PER_PIXEL as nat) * (self.height() as nat),
            forall|row: int, k: int|
                0 <= row < self.height() && 0 <= k < self.width() * BYTES_PER_PIXEL ==> #[trigger] r@[row
                * (self.width() * BYTES_PER_PIXEL) + k] == self.contents()[row * self.row_pitch()
                + k],
    {
        let w4: u64 = (self.width as u64) * (BYTES_PER_PIXEL as u64);
        let pitch: u64 = self.row_pitch as u64;
        let h: u64 = self.height as u64;
        let ghost wi = w4 as int;
        let ghost pi = pitch as int;
        let ghost hi = h as int;
        let ghost src_bytes = self.bytes@;
        let total: usize = self.bytes.len();
        let mut out: Vec<u8> = Vec::new();
        let mut row: u64 = 0;
        proof {
            assert(src_bytes.len() == pi * hi) by (nonlinear_arith)
                requires
                    src_bytes.len() == (self.row_pitch() as nat) * (self.height() as nat),
                    pi == self.row_pitch(),
                    hi == self.height(),
            ;
        }
        while row < h
            invariant
                row <= h,
                wi == w4 && pi == pitch && hi == h,
                h < 0x100000000 && pitch < 0x100000000,
                total == src_bytes.len(),
                w4 == (self.width as nat) * (BYTES_PER_PIXEL as nat),
                w4 <= pitch,
                src_bytes == self.bytes@,
                src_bytes.len() == pi * hi,
                out@.len() == row * wi,
                forall|q: int, j: int|
                    0 <= q < row && 0 <= j < wi ==> #[trigger] out@[q * wi + j] == src_bytes[q * pi
                        + j],
            decreases h - row,
        {
            proof {
                assert((row + 1) * pi <= hi * pi) by (nonlinear_arith)
                    requires
                        row < hi && pi >= 0,
                ;
                assert(row * pi + wi <= (row + 1) * pi) by (nonlinear_arith)
                    requires
                        0 <= wi <= pi && row >= 0,
                ;
                assert((row + 1) * wi == row * wi + wi) by (nonlinear_arith);
            }
            let mut k: u64 = 0;
            while k < w4
                invariant
                    k <= w4,
                    row < h,
                    wi == w4 && pi == pitch && hi == h,
                    h < 0x100000000 && pitch < 0x100000000,
                    total == src_bytes.len(),
                    w4 <= pitch,
                    src_bytes == self.bytes@,
                    src_bytes.len() == pi * hi,
                    row * pi + wi <= src_bytes.len(),
                    out@.len() == row * wi + k,
                    forall|q: int, j: int|
                        0 <= q < row && 0 <= j < wi ==> #[trigger] out@[q * wi + j]
                            == src_bytes[q * pi + j],
                    forall|j: int|
                        0 <= j < k ==> #[trigger] out@[row * wi + j] == src_bytes[row * pi + j],
                decreases w4 - k,
            {
                proof {
                    assert((row as int) * (pitch as int) + (k as int) < 0x10000000000000000)
                        by (nonlinear_arith)
                        requires
                            0 <= row < 0x100000000 && 0 <= pitch < 0x100000000 && 0 <= k
                                < 0x100000000,
                    ;
                }
                let src: u64 = row * pitch + k;
                let ghost prev = out@;
                out.push(self.bytes[src as usize]);
                proof {
                    assert(out@ =~= prev.push(src_bytes[src as int]));
                    assert forall|j: int| 0 <= j < k + 1 implies #[trigger] out@[row * wi + j]
                        == src_bytes[row * pi + j] by {
                        if j < k {
                            assert(out@[row * wi + j] == prev[row * wi + j]);
                        } else {
                            assert(row * wi + j == prev.len());
                        }
                    }
                    assert forall|q: int, j: int|
                        0 <= q < row && 0 <= j < wi implies #[trigger] out@[q * wi + j]
                        == src_bytes[q * pi + j] by {
                        assert(q * wi + j < prev.len()) by (nonlinear_arith)
                            requires
                                0 <= q < row && 0 <= j < wi && prev.len() >= row * wi,
                        ;
                        assert(out@[q * wi + j] == prev[q * wi + j]);
                    }
                }
                k = k + 1;
            }
            row = row + 1;
        }
        proof {
            assert(hi * wi == (self.width() as nat) * (BYTES_PER_PIXEL as nat) * (
            self.height() as nat)) by (nonlinear_arith)
                requires
                    hi == self.height(),
                    wi == (self.width() as nat) * (BYTES_PER_PIXEL as nat),
            ;
            assert forall|row: int, k: int|
                0 <= row < self.height() && 0 <= k < self.width() * BYTES_PER_PIXEL implies #[trigger] out@[row
                * (self.width() * BYTES_PER_PIXEL) + k] == self.contents()[row * self.row_pitch()
                + k] by {
                assert(out@[row * wi + k] == src_bytes[row * pi + k]);
            }
        }
        out
    }

    /// The release handle's one invocation: unmaps the backing resource by
    /// consuming the view, so the bytes cannot be read afterwards.
    pub fn release(self) {
    }
}

/// A staging view's byte length always equals its row pitch times its
/// height.
pub proof fn lemma_view_len(v: &StagingView)
    requires
        v.wf(),
    ensures
        v.contents().len() == (v.row_pitch() as nat) * (v.height() as nat),
{
}

} // verus!
