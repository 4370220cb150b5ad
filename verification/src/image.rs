//! The decoded raster the engine works on: rows by columns of pixels,
//! each pixel one (luma) or three (red, green, blue) 8-bit samples,
//! stored row-major in one flat buffer.

use vstd::prelude::*;

verus! {

/// A decoded raster.  `data` holds the samples row-major: the sample of
/// channel `ch` of the pixel at row `r`, column `c`, sits at index
/// `(r * width + c) * channels + ch`.
pub struct Image {
    pub width: usize,
    pub height: usize,
    pub channels: usize,
    pub data: Vec<u8>,
}

impl Image {
    /// A raster is well formed when it is single-channel luma or
    /// three-channel color and its buffer holds exactly one sample per
    /// pixel and channel.
    pub open spec fn wf(self) -> bool {
        &&& (self.channels == 1 || self.channels == 3)
        &&& self.data@.len() == self.width * self.height * self.channels
    }

    /// How many pixels the raster has.
    pub open spec fn pixel_count(self) -> nat {
        (self.width * self.height) as nat
    }

    /// The flat buffer index of channel `ch` of the pixel at (`r`, `c`).
    pub open spec fn flat(self, r: int, c: int, ch: int) -> int {
        (r * self.width + c) * self.channels + ch
    }

    /// The sample of channel `ch` of the pixel at row `r`, column `c`.
    pub open spec fn px(self, r: int, c: int, ch: int) -> u8 {
        self.data@[self.flat(r, c, ch)]
    }

    /// Whether (`r`, `c`, `ch`) addresses a sample of this raster.
    pub open spec fn in_bounds(self, r: int, c: int, ch: int) -> bool {
        0 <= r < self.height && 0 <= c < self.width && 0 <= ch < self.channels
    }

    /// Same shape: equal dimensions and channel count.
    pub open spec fn same_shape(self, other: Image) -> bool {
        self.width == other.width && self.height == other.height
            && self.channels == other.channels
    }

    /// An exact copy: same shape and byte-identical samples.
    pub open spec fn same_pixels(self, other: Image) -> bool {
        self.same_shape(other) && self.data@ == other.data@
    }

    /// How many pixels the raster has, computed from the buffer.
    pub fn count_pixels(&self) -> (n: usize)
        requires
            self.wf(),
        ensures
            n == self.pixel_count(),
    {
        proof {
            lemma_len_div_channels(*self);
        }
        if self.channels == 1 {
            self.data.len()
        } else {
            self.data.len() / 3
        }
    }

    /// Byte-identical duplicate of the raster.
    pub fn duplicate(&self) -> (out: Image)
        ensures
            out.same_pixels(*self),
    {
        Image {
            width: self.width,
            height: self.height,
            channels: self.channels,
            data: clone_samples(&self.data),
        }
    }
}

/// A well-formed buffer length is the pixel count times the channel count.
proof fn lemma_len_div_channels(img: Image)
    requires
        img.wf(),
    ensures
        img.channels == 1 ==> img.data@.len() == img.pixel_count(),
        img.channels == 3 ==> img.data@.len() / 3 == img.pixel_count(),
{
    if img.channels == 3 {
        assert(img.data@.len() == (img.width * img.height) * 3) by (nonlinear_arith)
            requires
                img.data@.len() == img.width * img.height * img.channels,
                img.channels == 3,
        ;
    }
}

/// Element-for-element copy of a sample buffer.
pub fn clone_samples(data: &Vec<u8>) -> (out: Vec<u8>)
    ensures
        out@ == data@,
{
    let mut out: Vec<u8> = Vec::new();
    let n = data.len();
    let mut i: usize = 0;
    while i < n
        invariant
            i <= n,
            out@ =~= data@.subrange(0, i as int),
        decreases n - i,
    {
        out.push(data[i]);
        i += 1;
    }
    assert(out@ =~= data@);
    out
}

/// The flat index of a sample in bounds stays inside the buffer, and the
/// row, column and channel can be read back off it by division.
pub proof fn lemma_flat_index(r: int, c: int, ch: int, w: int, h: int, cs: int)
    requires
        0 <= r < h,
        0 <= c < w,
        0 <= ch < cs,
    ensures
        0 <= (r * w + c) * cs + ch < h * w * cs,
        ((r * w + c) * cs + ch) / (w * cs) == r,
        ((r * w + c) * cs + ch) % (w * cs) == c * cs + ch,
        (((r * w + c) * cs + ch) % (w * cs)) / cs == c,
        ((r * w + c) * cs + ch) % cs == ch,
{
    let i = (r * w + c) * cs + ch;
    assert((r * w + c) * cs + ch == r * (w * cs) + (c * cs + ch)) by (nonlinear_arith);
    assert(0 <= c * cs + ch < w * cs) by (nonlinear_arith)
        requires
            0 <= c < w,
            0 <= ch < cs,
    ;
    assert(0 <= i < h * (w * cs)) by (nonlinear_arith)
        requires
            i == r * (w * cs) + (c * cs + ch),
            0 <= r < h,
            0 <= c * cs + ch < w * cs,
    ;
    assert(h * (w * cs) == h * w * cs) by (nonlinear_arith);
    assert(w * cs > 0) by (nonlinear_arith)
        requires
            w > 0,
            cs > 0,
    ;
    vstd::arithmetic::div_mod::lemma_fundamental_div_mod_converse(
        i, w * cs, r, c * cs + ch);
    vstd::arithmetic::div_mod::lemma_fundamental_div_mod_converse(
        c * cs + ch, cs, c, ch);
    vstd::arithmetic::div_mod::lemma_fundamental_div_mod_converse(
        i, cs, r * w + c, ch);
}

} // verus!
