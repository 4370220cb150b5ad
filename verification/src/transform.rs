//! The point transforms: filters whose output sample depends on one input
//! sample (invert, contrast) or on the samples of one input pixel
//! (grayscale, sepia).

use vstd::prelude::*;
use crate::image::Image;

verus! {

/// The bitwise complement of one 8-bit sample.
pub open spec fn inverted_sample(s: u8) -> u8 {
    (255 - s) as u8
}

/// One sample after the linear contrast gain: one-and-a-half times the
/// input, rounded half up, clamped to the 8-bit range.
pub open spec fn contrast_sample(s: u8) -> u8 {
    if (3 * s + 1) / 2 > 255 {
        255u8
    } else {
        ((3 * s + 1) / 2) as u8
    }
}

/// The luma of one color pixel, in thousandths: 299 parts red, 587 parts
/// green, 114 parts blue, rounded half up.  The weights sum to a whole,
/// so the result needs no clamping.
pub open spec fn luma(r: u8, g: u8, b: u8) -> u8 {
    ((299 * r + 587 * g + 114 * b + 500) / 1000) as u8
}

/// One channel of the sepia tone: a fixed color-mixing row applied to the
/// (red, green, blue) vector, in thousandths, rounded half up and clamped
/// to the 8-bit range.
pub open spec fn sepia_channel(wr: int, wg: int, wb: int, r: u8, g: u8, b: u8) -> u8 {
    let v = (wr * r + wg * g + wb * b + 500) / 1000;
    if v > 255 {
        255u8
    } else {
        v as u8
    }
}

/// The red output of the sepia mix.
pub open spec fn sepia_r(r: u8, g: u8, b: u8) -> u8 {
    sepia_channel(272, 534, 131, r, g, b)
}

/// The green output of the sepia mix.
pub open spec fn sepia_g(r: u8, g: u8, b: u8) -> u8 {
    sepia_channel(349, 686, 168, r, g, b)
}

/// The blue output of the sepia mix.
pub open spec fn sepia_b(r: u8, g: u8, b: u8) -> u8 {
    sepia_channel(393, 769, 189, r, g, b)
}

/// A whole buffer, inverted sample by sample.
pub open spec fn inverted(data: Seq<u8>) -> Seq<u8> {
    data.map_values(|s: u8| inverted_sample(s))
}

/// `b` is `a` with every sample complemented; shape kept.
pub open spec fn is_inverted(a: Image, b: Image) -> bool {
    a.same_shape(b) && b.data@ == inverted(a.data@)
}

/// `b` is `a` with the contrast gain applied to every sample; shape kept.
pub open spec fn is_contrasted(a: Image, b: Image) -> bool {
    a.same_shape(b) && b.data@ == a.data@.map_values(|s: u8| contrast_sample(s))
}

/// `b` is the single-channel luma rendering of `a`.  A raster that is
/// already single-channel is copied unchanged.
pub open spec fn is_grayscale_of(a: Image, b: Image) -> bool {
    if a.channels == 1 {
        a.same_pixels(b)
    } else {
        &&& b.width == a.width
        &&& b.height == a.height
        &&& b.channels == 1
        &&& b.data@.len() == a.pixel_count()
        &&& forall|p: int|
            0 <= p < a.pixel_count() ==> b.data@[p] == luma(
                a.data@[3 * p],
                a.data@[3 * p + 1],
                a.data@[3 * p + 2],
            )
    }
}

/// `b` is the sepia rendering of `a`: always three channels; a
/// single-channel source counts as the gray color (v, v, v).
pub open spec fn is_sepia_of(a: Image, b: Image) -> bool {
    &&& b.width == a.width
    &&& b.height == a.height
    &&& b.channels == 3
    &&& b.data@.len() == 3 * a.pixel_count()
    &&& if a.channels == 1 {
        forall|p: int|
            0 <= p < a.pixel_count() ==> {
                let v = a.data@[p];
                #[trigger] b.data@[3 * p] == sepia_r(v, v, v) && b.data@[3 * p + 1] == sepia_g(v, v, v)
                    && b.data@[3 * p + 2] == sepia_b(v, v, v)
            }
    } else {
        forall|p: int|
            0 <= p < a.pixel_count() ==> {
                let r = a.data@[3 * p];
                let g = a.data@[3 * p + 1];
                let b_ = a.data@[3 * p + 2];
                #[trigger] b.data@[3 * p] == sepia_r(r, g, b_) && b.data@[3 * p + 1] == sepia_g(r, g, b_)
                    && b.data@[3 * p + 2] == sepia_b(r, g, b_)
            }
    }
}

/// Complements every sample of the raster.
pub fn invert(img: &Image) -> (out: Image)
    requires
        img.wf(),
    ensures
        out.wf(),
        is_inverted(*img, out),
{
    let n = img.data.len();
    let mut data: Vec<u8> = Vec::new();
    let mut i: usize = 0;
    while i < n
        invariant
            i <= n,
            data@.len() == i,
            forall|j: int| 0 <= j < i ==> data@[j] == inverted_sample(img.data@[j]),
        decreases n - i,
    {
        data.push(255 - img.data[i]);
        i += 1;
    }
    let out = Image { width: img.width, height: img.height, channels: img.channels, data };
    assert(out.data@ =~= inverted(img.data@));
    out
}

/// Complementing twice gives the buffer back: the involution behind
/// applying the invert filter two times in a row.
pub proof fn lemma_invert_involutive(data: Seq<u8>)
    ensures
        inverted(inverted(data)) == data,
{
    assert(inverted(inverted(data)) =~= data);
}

/// Inverting a raster twice restores it: shape and samples both.
pub proof fn lemma_invert_round_trip(a: Image, b: Image, c: Image)
    requires
        is_inverted(a, b),
        is_inverted(b, c),
    ensures
        c.same_pixels(a),
{
    lemma_invert_involutive(a.data@);
}

/// Applies the linear contrast gain to every sample.
pub fn contrast(img: &Image) -> (out: Image)
    requires
        img.wf(),
    ensures
        out.wf(),
        is_contrasted(*img, out),
{
    let n = img.data.len();
    let mut data: Vec<u8> = Vec::new();
    let mut i: usize = 0;
    while i < n
        invariant
            i <= n,
            data@.len() == i,
            forall|j: int| 0 <= j < i ==> data@[j] == contrast_sample(img.data@[j]),
        decreases n - i,
    {
        let s = img.data[i] as usize;
        let v = (3 * s + 1) / 2;
        let o: u8 = if v > 255 {
            255
        } else {
            v as u8
        };
        data.push(o);
        i += 1;
    }
    let out = Image { width: img.width, height: img.height, channels: img.channels, data };
    assert(out.data@ =~= img.data@.map_values(|s: u8| contrast_sample(s)));
    out
}

/// Renders the raster as single-channel luma; a raster that is already
/// single-channel comes back as an unchanged copy.
pub fn grayscale(img: &Image) -> (out: Image)
    requires
        img.wf(),
    ensures
        out.wf(),
        is_grayscale_of(*img, out),
{
    if img.channels == 1 {
        return img.duplicate();
    }
    let pixels = img.count_pixels();
    let total = img.data.len();
    assert(3 * pixels == total) by (nonlinear_arith)
        requires
            pixels == img.width * img.height,
            total == img.width * img.height * img.channels,
            img.channels == 3,
    ;
    let mut data: Vec<u8> = Vec::new();
    let mut p: usize = 0;
    while p < pixels
        invariant
            p <= pixels,
            3 * pixels == total,
            total == img.data@.len(),
            data@.len() == p,
            forall|q: int|
                0 <= q < p ==> data@[q] == luma(
                    img.data@[3 * q],
                    img.data@[3 * q + 1],
                    img.data@[3 * q + 2],
                ),
        decreases pixels - p,
    {
        let r = img.data[3 * p] as usize;
        let g = img.data[3 * p + 1] as usize;
        let b = img.data[3 * p + 2] as usize;
        let v = (299 * r + 587 * g + 114 * b + 500) / 1000;
        data.push(v as u8);
        p += 1;
    }
    let out = Image { width: img.width, height: img.height, channels: 1, data };
    assert(out.data@.len() == out.width * out.height * out.channels) by (nonlinear_arith)
        requires
            out.data@.len() == pixels,
            pixels == out.width * out.height,
            out.channels == 1,
    ;
    out
}

/// Renders the raster in sepia tone; the result is always three-channel.
pub fn sepia(img: &Image) -> (out: Image)
    requires
        img.wf(),
    ensures
        out.wf(),
        is_sepia_of(*img, out),
{
    let pixels = img.count_pixels();
    let total = img.data.len();
    let mut data: Vec<u8> = Vec::new();
    if img.channels == 1 {
        let mut p: usize = 0;
        while p < pixels
            invariant
                p <= pixels,
                pixels == total,
                total == img.data@.len(),
                data@.len() == 3 * p,
                forall|q: int|
                    0 <= q < p ==> {
                        let v = img.data@[q];
                        #[trigger] data@[3 * q] == sepia_r(v, v, v) && data@[3 * q + 1] == sepia_g(v, v, v)
                            && data@[3 * q + 2] == sepia_b(v, v, v)
                    },
            decreases pixels - p,
        {
            let ghost pre = data@;
            let v = img.data[p];
            let d0 = sepia_mix(272, 534, 131, v, v, v);
            let d1 = sepia_mix(349, 686, 168, v, v, v);
            let d2 = sepia_mix(393, 769, 189, v, v, v);
            data.push(d0);
            data.push(d1);
            data.push(d2);
            proof {
                assert(data@ =~= pre + seq![d0, d1, d2]);
                assert forall|q: int| 0 <= q < p + 1 implies {
                    let w = img.data@[q];
                    #[trigger] data@[3 * q] == sepia_r(w, w, w) && data@[3 * q + 1] == sepia_g(w, w, w)
                        && data@[3 * q + 2] == sepia_b(w, w, w)
                } by {
                    if q < p {
                        let w = img.data@[q];
                        assert(pre[3 * q] == sepia_r(w, w, w));
                        assert(data@[3 * q] == pre[3 * q]);
                        assert(data@[3 * q + 1] == pre[3 * q + 1]);
                        assert(data@[3 * q + 2] == pre[3 * q + 2]);
                    } else {
                        assert(data@[3 * q] == d0);
                        assert(data@[3 * q + 1] == d1);
                        assert(data@[3 * q + 2] == d2);
                    }
                }
            }
            p += 1;
        }
    } else {
        assert(3 * pixels == total) by (nonlinear_arith)
            requires
                pixels == img.width * img.height,
                total == img.width * img.height * img.channels,
                img.channels == 3,
        ;
        let mut p: usize = 0;
        while p < pixels
            invariant
                p <= pixels,
                3 * pixels == total,
                total == img.data@.len(),
                data@.len() == 3 * p,
                forall|q: int|
                    0 <= q < p ==> {
                        let r = img.data@[3 * q];
                        let g = img.data@[3 * q + 1];
                        let b = img.data@[3 * q + 2];
                        #[trigger] data@[3 * q] == sepia_r(r, g, b) && data@[3 * q + 1] == sepia_g(r, g, b)
                            && data@[3 * q + 2] == sepia_b(r, g, b)
                    },
            decreases pixels - p,
        {
            let ghost pre = data@;
            let r = img.data[3 * p];
            let g = img.data[3 * p + 1];
            let b = img.data[3 * p + 2];
            let d0 = sepia_mix(272, 534, 131, r, g, b);
            let d1 = sepia_mix(349, 686, 168, r, g, b);
            let d2 = sepia_mix(393, 769, 189, r, g, b);
            data.push(d0);
            data.push(d1);
            data.push(d2);
            proof {
                assert(data@ =~= pre + seq![d0, d1, d2]);
                assert forall|q: int| 0 <= q < p + 1 implies {
                    let rr = img.data@[3 * q];
                    let gg = img.data@[3 * q + 1];
                    let bb = img.data@[3 * q + 2];
                    #[trigger] data@[3 * q] == sepia_r(rr, gg, bb) && data@[3 * q + 1] == sepia_g(rr, gg, bb)
                        && data@[3 * q + 2] == sepia_b(rr, gg, bb)
                } by {
                    if q < p {
                        let rr = img.data@[3 * q];
                        let gg = img.data@[3 * q + 1];
                        let bb = img.data@[3 * q + 2];
                        assert(pre[3 * q] == sepia_r(rr, gg, bb));
                        assert(data@[3 * q] == pre[3 * q]);
                        assert(data@[3 * q + 1] == pre[3 * q + 1]);
                        assert(data@[3 * q + 2] == pre[3 * q + 2]);
                    } else {
                        assert(data@[3 * q] == d0);
                        assert(data@[3 * q + 1] == d1);
                        assert(data@[3 * q + 2] == d2);
                    }
                }
            }
            p += 1;
        }
    }
    let out = Image { width: img.width, height: img.height, channels: 3, data };
    assert(out.data@.len() == out.width * out.height * out.channels) by (nonlinear_arith)
        requires
            out.data@.len() == 3 * pixels,
            pixels == out.width * out.height,
            out.channels == 3,
    ;
    proof {
        if img.channels == 1 {
            assert forall|p: int| 0 <= p < img.pixel_count() implies {
                let v = img.data@[p];
                #[trigger] out.data@[3 * p] == sepia_r(v, v, v) && out.data@[3 * p + 1]
                    == sepia_g(v, v, v) && out.data@[3 * p + 2] == sepia_b(v, v, v)
            } by {
                let v = img.data@[p];
                assert(out.data@[3 * p] == sepia_r(v, v, v));
            }
        } else {
            assert forall|p: int| 0 <= p < img.pixel_count() implies {
                let r = img.data@[3 * p];
                let g = img.data@[3 * p + 1];
                let b = img.data@[3 * p + 2];
                #[trigger] out.data@[3 * p] == sepia_r(r, g, b) && out.data@[3 * p + 1]
                    == sepia_g(r, g, b) && out.data@[3 * p + 2] == sepia_b(r, g, b)
            } by {
                let r = img.data@[3 * p];
                let g = img.data@[3 * p + 1];
                let b = img.data@[3 * p + 2];
                assert(out.data@[3 * p] == sepia_r(r, g, b));
            }
        }
        assert(is_sepia_of(*img, out));
    }
    out
}

/// One channel of the sepia mix, computed in thousandths.
fn sepia_mix(wr: usize, wg: usize, wb: usize, r: u8, g: u8, b: u8) -> (o: u8)
    requires
        wr + wg + wb <= 1500,
    ensures
        o == sepia_channel(wr as int, wg as int, wb as int, r, g, b),
{
    assert(wr * (r as usize) + wg * (g as usize) + wb * (b as usize) <= 1500 * 255)
        by (nonlinear_arith)
        requires
            wr + wg + wb <= 1500,
            r <= 255,
            g <= 255,
            b <= 255,
    ;
    let v = (wr * (r as usize) + wg * (g as usize) + wb * (b as usize) + 500) / 1000;
    if v > 255 {
        255
    } else {
        v as u8
    }
}

/// An identity copy of the raster, as the engine answers a request that
/// names no known filter.
pub fn identity_copy(img: &Image) -> (out: Image)
    requires
        img.wf(),
    ensures
        out.wf(),
        out.same_pixels(*img),
{
    img.duplicate()
}

} // verus!
