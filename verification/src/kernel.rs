//! The neighbourhood transforms: sharpening with a fixed three-by-three
//! kernel and smoothing with the five-by-five binomial kernel.  Rows and
//! columns outside the raster are read by mirroring about the edge
//! sample (the edge sample itself is not repeated).

use vstd::prelude::*;
use crate::image::Image;
use crate::image::lemma_flat_index;
use crate::geometry::sample_at;

verus! {

/// Mirrors an index into `[0, n)`: `-1` reads row `1`, `n` reads row
/// `n - 2`, and so on, folding as often as needed; a single row or
/// column reads itself.
pub open spec fn refl(i: int, n: int) -> int
    decreases (if i < 0 {
        2 * (0 - i) + 1
    } else {
        2 * i
    }),
{
    if n <= 1 {
        0
    } else if 0 <= i < n {
        i
    } else if i < 0 {
        refl(0 - i, n)
    } else {
        refl(2 * n - 2 - i, n)
    }
}

/// The mirrored index lands inside the raster.
pub proof fn lemma_refl_range(i: int, n: int)
    requires
        n >= 1,
    ensures
        0 <= refl(i, n) < n,
    decreases (if i < 0 {
        2 * (0 - i) + 1
    } else {
        2 * i
    }),
{
    if n <= 1 {
    } else if 0 <= i < n {
    } else if i < 0 {
        lemma_refl_range(0 - i, n);
    } else {
        lemma_refl_range(2 * n - 2 - i, n);
    }
}

/// The sample at mirrored coordinates.
pub open spec fn rpx(a: Image, r: int, c: int, ch: int) -> u8 {
    a.px(refl(r, a.height as int), refl(c, a.width as int), ch)
}

/// Clamps a signed value to the 8-bit sample range.
pub open spec fn clamp8(v: int) -> u8 {
    if v < 0 {
        0u8
    } else if v > 255 {
        255u8
    } else {
        v as u8
    }
}

/// The raw sharpening response at one sample: five times the centre
/// minus its four direct neighbours.
pub open spec fn sharpen_sum(a: Image, r: int, c: int, ch: int) -> int {
    5 * a.px(r, c, ch) - rpx(a, r - 1, c, ch) - rpx(a, r + 1, c, ch) - rpx(a, r, c - 1, ch) - rpx(
        a,
        r,
        c + 1,
        ch,
    )
}

/// One sharpened sample.
pub open spec fn sharpen_px(a: Image, r: int, c: int, ch: int) -> u8 {
    clamp8(sharpen_sum(a, r, c, ch))
}

/// The smoothing response at one sample: the five-by-five binomial
/// window (weights one, four, six, four, one each way), in parts of 256.
pub open spec fn blur_sum(a: Image, r: int, c: int, ch: int) -> int {
    1 * rpx(a, r - 2, c - 2, ch) + 4 * rpx(a, r - 2, c - 1, ch) + 6 * rpx(a, r - 2, c, ch) + 4
        * rpx(a, r - 2, c + 1, ch) + 1 * rpx(a, r - 2, c + 2, ch) + 4 * rpx(a, r - 1, c - 2, ch)
        + 16 * rpx(a, r - 1, c - 1, ch) + 24 * rpx(a, r - 1, c, ch) + 16 * rpx(a, r - 1, c + 1, ch)
        + 4 * rpx(a, r - 1, c + 2, ch) + 6 * rpx(a, r, c - 2, ch) + 24 * rpx(a, r, c - 1, ch) + 36
        * rpx(a, r, c, ch) + 24 * rpx(a, r, c + 1, ch) + 6 * rpx(a, r, c + 2, ch) + 4 * rpx(
        a,
        r + 1,
        c - 2,
        ch,
    ) + 16 * rpx(a, r + 1, c - 1, ch) + 24 * rpx(a, r + 1, c, ch) + 16 * rpx(a, r + 1, c + 1, ch)
        + 4 * rpx(a, r + 1, c + 2, ch) + 1 * rpx(a, r + 2, c - 2, ch) + 4 * rpx(a, r + 2, c - 1, ch)
        + 6 * rpx(a, r + 2, c, ch) + 4 * rpx(a, r + 2, c + 1, ch) + 1 * rpx(a, r + 2, c + 2, ch)
}

/// One smoothed sample: the window total, rounded half up out of 256.
pub open spec fn blur_px(a: Image, r: int, c: int, ch: int) -> u8 {
    clamp8((blur_sum(a, r, c, ch) + 128) / 256)
}

/// `b` is `a` sharpened: same shape, every sample the kernel response.
pub open spec fn is_sharpened(a: Image, b: Image) -> bool {
    &&& a.same_shape(b)
    &&& b.data@.len() == a.data@.len()
    &&& forall|r: int, c: int, ch: int|
        b.in_bounds(r, c, ch) ==> #[trigger] b.px(r, c, ch) == sharpen_px(a, r, c, ch)
}

/// `b` is `a` smoothed: same shape, every sample the window average.
pub open spec fn is_blurred(a: Image, b: Image) -> bool {
    &&& a.same_shape(b)
    &&& b.data@.len() == a.data@.len()
    &&& forall|r: int, c: int, ch: int|
        b.in_bounds(r, c, ch) ==> #[trigger] b.px(r, c, ch) == blur_px(a, r, c, ch)
}

/// Mirrors `x + off - 2` into `[0, n)`; `off` keeps the offset in the
/// unsigned range.
pub fn reflect_index(x: usize, off: usize, n: usize) -> (r: usize)
    requires
        n >= 1,
        x < n,
        off <= 4,
        n <= usize::MAX - 4,
    ensures
        r < n,
        r as int == refl(x as int + off as int - 2, n as int),
{
    proof {
        lemma_refl_range(x as int + off as int - 2, n as int);
        reveal_with_fuel(refl, 4);
    }
    if n == 1 {
        0
    } else if x + off < 2 {
        if x + off == 1 {
            1
        } else {
            if n > 2 {
                2
            } else {
                0
            }
        }
    } else {
        let i = x + off - 2;
        if i < n {
            i
        } else if i == n {
            n - 2
        } else {
            if n >= 3 {
                n - 3
            } else {
                1
            }
        }
    }
}

/// Sharpens the raster with the fixed three-by-three kernel.
pub fn sharpen(img: &Image) -> (out: Image)
    requires
        img.wf(),
        img.width <= usize::MAX - 4,
        img.height <= usize::MAX - 4,
    ensures
        out.wf(),
        is_sharpened(*img, out),
{
    let w = img.width;
    let h = img.height;
    let cs = img.channels;
    let total = img.data.len();
    let mut data: Vec<u8> = Vec::new();
    if w == 0 || h == 0 {
        let out = Image { width: w, height: h, channels: cs, data };
        proof {
            assert(total == 0 && out.data@.len() == out.width * out.height * out.channels)
                by (nonlinear_arith)
                requires
                    total == img.width * img.height * img.channels,
                    out.data@.len() == 0,
                    out.width == img.width,
                    out.height == img.height,
                    out.channels == img.channels,
                    img.width == 0 || img.height == 0,
            ;
        }
        return out;
    }
    proof {
        assert(total == h * (w * cs) && w * cs <= total && cs <= w * cs) by (nonlinear_arith)
            requires
                total == img.width * img.height * img.channels,
                w == img.width,
                h == img.height,
                cs == img.channels,
                w >= 1,
                h >= 1,
                cs >= 1,
        ;
    }
    let stride = w * cs;
    let mut i: usize = 0;
    while i < total
        invariant
            i <= total,
            data@.len() == i,
            stride == w * cs,
            total == h * stride,
            w >= 1 && h >= 1 && cs >= 1,
            forall|j: int|
                0 <= j < i ==> #[trigger] data@[j] == sharpen_px(
                    *img,
                    j / (stride as int),
                    (j % (stride as int)) / (cs as int),
                    j % (cs as int),
                ),
        decreases total - i,
    {
        let r = i / stride;
        let rem = i % stride;
        let c = rem / cs;
        let ch = i % cs;
        proof {
            assert(h as int * stride as int == stride as int * h as int) by (nonlinear_arith);
            vstd::arithmetic::div_mod::lemma_multiply_divide_lt(i as int, stride as int, h as int);
            assert(rem < stride);
            assert(w as int * cs as int == cs as int * w as int) by (nonlinear_arith);
            vstd::arithmetic::div_mod::lemma_multiply_divide_lt(rem as int, cs as int, w as int);
        }
        let up = reflect_index(r, 1, h);
        let down = reflect_index(r, 3, h);
        let left = reflect_index(c, 1, w);
        let right = reflect_index(c, 3, w);
        let center = sample_at(img, r, c, ch);
        let s_up = sample_at(img, up, c, ch);
        let s_down = sample_at(img, down, c, ch);
        let s_left = sample_at(img, r, left, ch);
        let s_right = sample_at(img, r, right, ch);
        let sum: i32 = 5 * (center as i32) - (s_up as i32) - (s_down as i32) - (s_left as i32) - (
        s_right as i32);
        let o: u8 = if sum < 0 {
            0
        } else if sum > 255 {
            255
        } else {
            sum as u8
        };
        proof {
            assert(refl(r as int, img.height as int) == r as int);
            assert(refl(c as int, img.width as int) == c as int);
            assert(rem as int == i as int % (stride as int));
            assert(ch as int == i as int % (cs as int));
            assert(o == sharpen_px(*img, r as int, c as int, ch as int));
        }
        data.push(o);
        i += 1;
    }
    let out = Image { width: w, height: h, channels: cs, data };
    proof {
        assert(out.data@.len() == out.width * out.height * out.channels) by (nonlinear_arith)
            requires
                out.data@.len() == total,
                total == h * (w * cs),
                out.width == w,
                out.height == h,
                out.channels == cs,
        ;
        assert forall|r: int, c: int, ch: int| out.in_bounds(r, c, ch) implies #[trigger] out.px(
            r, c, ch) == sharpen_px(*img, r, c, ch) by {
            lemma_flat_index(r, c, ch, w as int, h as int, cs as int);
            let j = (r * w + c) * cs + ch;
            assert(j < h * w * cs);
            assert(h * w * cs == h * (w * cs)) by (nonlinear_arith);
            assert(j % (stride as int) == c * cs + ch);
            assert((j % (stride as int)) / (cs as int) == c);
            assert(j % (cs as int) == ch);
            assert(data@[j] == sharpen_px(*img, r, c, ch));
        }
    }
    out
}

/// One smoothed sample, read straight off the raster.
#[verifier::rlimit(100)]
fn blur_at(img: &Image, r: usize, c: usize, ch: usize) -> (o: u8)
    requires
        img.wf(),
        img.in_bounds(r as int, c as int, ch as int),
        img.width <= usize::MAX - 4,
        img.height <= usize::MAX - 4,
    ensures
        o == blur_px(*img, r as int, c as int, ch as int),
{
    let w = img.width;
    let h = img.height;
    let r0 = reflect_index(r, 0, h);
    let r1 = reflect_index(r, 1, h);
    let r3 = reflect_index(r, 3, h);
    let r4 = reflect_index(r, 4, h);
    let c0 = reflect_index(c, 0, w);
    let c1 = reflect_index(c, 1, w);
    let c3 = reflect_index(c, 3, w);
    let c4 = reflect_index(c, 4, w);
    let s00 = sample_at(img, r0, c0, ch) as u32;
    let s01 = sample_at(img, r0, c1, ch) as u32;
    let s02 = sample_at(img, r0, c, ch) as u32;
    let s03 = sample_at(img, r0, c3, ch) as u32;
    let s04 = sample_at(img, r0, c4, ch) as u32;
    let s10 = sample_at(img, r1, c0, ch) as u32;
    let s11 = sample_at(img, r1, c1, ch) as u32;
    let s12 = sample_at(img, r1, c, ch) as u32;
    let s13 = sample_at(img, r1, c3, ch) as u32;
    let s14 = sample_at(img, r1, c4, ch) as u32;
    let s20 = sample_at(img, r, c0, ch) as u32;
    let s21 = sample_at(img, r, c1, ch) as u32;
    let s22 = sample_at(img, r, c, ch) as u32;
    let s23 = sample_at(img, r, c3, ch) as u32;
    let s24 = sample_at(img, r, c4, ch) as u32;
    let s30 = sample_at(img, r3, c0, ch) as u32;
    let s31 = sample_at(img, r3, c1, ch) as u32;
    let s32 = sample_at(img, r3, c, ch) as u32;
    let s33 = sample_at(img, r3, c3, ch) as u32;
    let s34 = sample_at(img, r3, c4, ch) as u32;
    let s40 = sample_at(img, r4, c0, ch) as u32;
    let s41 = sample_at(img, r4, c1, ch) as u32;
    let s42 = sample_at(img, r4, c, ch) as u32;
    let s43 = sample_at(img, r4, c3, ch) as u32;
    let s44 = sample_at(img, r4, c4, ch) as u32;
    let sum: u32 = 1 * s00 + 4 * s01 + 6 * s02 + 4 * s03 + 1 * s04 + 4 * s10 + 16 * s11 + 24 * s12
        + 16 * s13 + 4 * s14 + 6 * s20 + 24 * s21 + 36 * s22 + 24 * s23 + 6 * s24 + 4 * s30 + 16
        * s31 + 24 * s32 + 16 * s33 + 4 * s34 + 1 * s40 + 4 * s41 + 6 * s42 + 4 * s43 + 1 * s44;
    let t = (sum + 128) / 256;
    proof {
        assert(refl(r as int, img.height as int) == r as int);
        assert(refl(c as int, img.width as int) == c as int);
        assert(t <= 255);
        assert(t as u8 == blur_px(*img, r as int, c as int, ch as int));
    }
    t as u8
}

/// Smooths the raster with the five-by-five binomial kernel.
pub fn blur(img: &Image) -> (out: Image)
    requires
        img.wf(),
        img.width <= usize::MAX - 4,
        img.height <= usize::MAX - 4,
    ensures
        out.wf(),
        is_blurred(*img, out),
{
    let w = img.width;
    let h = img.height;
    let cs = img.channels;
    let total = img.data.len();
    let mut data: Vec<u8> = Vec::new();
    if w == 0 || h == 0 {
        let out = Image { width: w, height: h, channels: cs, data };
        proof {
            assert(total == 0 && out.data@.len() == out.width * out.height * out.channels)
                by (nonlinear_arith)
                requires
                    total == img.width * img.height * img.channels,
                    out.data@.len() == 0,
                    out.width == img.width,
                    out.height == img.height,
                    out.channels == img.channels,
                    img.width == 0 || img.height == 0,
            ;
        }
        return out;
    }
    proof {
        assert(total == h * (w * cs) && w * cs <= total && cs <= w * cs) by (nonlinear_arith)
            requires
                total == img.width * img.height * img.channels,
                w == img.width,
                h == img.height,
                cs == img.channels,
                w >= 1,
                h >= 1,
                cs >= 1,
        ;
    }
    let stride = w * cs;
    let mut i: usize = 0;
    while i < total
        invariant
            i <= total,
            data@.len() == i,
            stride == w * cs,
            total == h * stride,
            w >= 1 && h >= 1 && cs >= 1,
            w <= usize::MAX - 4 && h <= usize::MAX - 4,
            forall|j: int|
                0 <= j < i ==> #[trigger] data@[j] == blur_px(
                    *img,
                    j / (stride as int),
                    (j % (stride as int)) / (cs as int),
                    j % (cs as int),
                ),
        decreases total - i,
    {
        let r = i / stride;
        let rem = i % stride;
        let c = rem / cs;
        let ch = i % cs;
        proof {
            assert(h as int * stride as int == stride as int * h as int) by (nonlinear_arith);
            vstd::arithmetic::div_mod::lemma_multiply_divide_lt(i as int, stride as int, h as int);
            assert(rem < stride);
            assert(w as int * cs as int == cs as int * w as int) by (nonlinear_arith);
            vstd::arithmetic::div_mod::lemma_multiply_divide_lt(rem as int, cs as int, w as int);
        }
        let o = blur_at(img, r, c, ch);
        proof {
            assert(rem as int == i as int % (stride as int));
            assert(ch as int == i as int % (cs as int));
        }
        data.push(o);
        i += 1;
    }
    let out = Image { width: w, height: h, channels: cs, data };
    proof {
        assert(out.data@.len() == out.width * out.height * out.channels) by (nonlinear_arith)
            requires
                out.data@.len() == total,
                total == h * (w * cs),
                out.width == w,
                out.height == h,
                out.channels == cs,
        ;
        assert forall|r: int, c: int, ch: int| out.in_bounds(r, c, ch) implies #[trigger] out.px(
            r, c, ch) == blur_px(*img, r, c, ch) by {
            lemma_flat_index(r, c, ch, w as int, h as int, cs as int);
            let j = (r * w + c) * cs + ch;
            assert(j < h * w * cs);
            assert(h * w * cs == h * (w * cs)) by (nonlinear_arith);
            assert(j % (stride as int) == c * cs + ch);
            assert((j % (stride as int)) / (cs as int) == c);
            assert(j % (cs as int) == ch);
            assert(data@[j] == blur_px(*img, r, c, ch));
        }
    }
    out
}

} // verus!
