//! The geometric transforms: quarter-turn rotations and halving the
//! resolution.  Each output sample is one input sample moved to a new
//! place, so the contracts say which one, coordinate by coordinate.

use vstd::prelude::*;
use crate::image::Image;
use crate::image::lemma_flat_index;

verus! {

/// `b` is `a` turned a quarter turn clockwise: dimensions swap, and the
/// sample at output row `r`, column `c` comes from input row
/// `height - 1 - c`, column `r`.
pub open spec fn is_rotated_cw(a: Image, b: Image) -> bool {
    &&& b.width == a.height
    &&& b.height == a.width
    &&& b.channels == a.channels
    &&& b.data@.len() == a.data@.len()
    &&& forall|r: int, c: int, ch: int|
        b.in_bounds(r, c, ch) ==> #[trigger] b.px(r, c, ch) == a.px(a.height - 1 - c, r, ch)
}

/// `b` is `a` turned a quarter turn counter-clockwise: dimensions swap,
/// and the sample at output row `r`, column `c` comes from input row `c`,
/// column `width - 1 - r`.
pub open spec fn is_rotated_ccw(a: Image, b: Image) -> bool {
    &&& b.width == a.height
    &&& b.height == a.width
    &&& b.channels == a.channels
    &&& b.data@.len() == a.data@.len()
    &&& forall|r: int, c: int, ch: int|
        b.in_bounds(r, c, ch) ==> #[trigger] b.px(r, c, ch) == a.px(c, a.width - 1 - r, ch)
}

/// `b` is `a` at half resolution: both dimensions halved (rounding down),
/// each kept pixel sampled from the even input row and column (nearest
/// neighbour).
pub open spec fn is_resized_half(a: Image, b: Image) -> bool {
    &&& b.width == a.width / 2
    &&& b.height == a.height / 2
    &&& b.channels == a.channels
    &&& b.data@.len() == b.width * b.height * b.channels
    &&& forall|r: int, c: int, ch: int|
        b.in_bounds(r, c, ch) ==> #[trigger] b.px(r, c, ch) == a.px(2 * r, 2 * c, ch)
}

/// Reads one sample by its row, column and channel.
pub fn sample_at(img: &Image, r: usize, c: usize, ch: usize) -> (s: u8)
    requires
        img.wf(),
        img.in_bounds(r as int, c as int, ch as int),
    ensures
        s == img.px(r as int, c as int, ch as int),
{
    let n = img.data.len();
    proof {
        lemma_flat_index(
            r as int, c as int, ch as int,
            img.width as int, img.height as int, img.channels as int);
        assert(img.height * img.width * img.channels == img.width * img.height * img.channels)
            by (nonlinear_arith);
        assert(r * img.width + c <= (r * img.width + c) * img.channels) by (nonlinear_arith)
            requires
                img.channels >= 1,
                r * img.width + c >= 0,
        ;
    }
    img.data[(r * img.width + c) * img.channels + ch]
}

/// Turns the raster a quarter turn clockwise.
pub fn rotate_cw(img: &Image) -> (out: Image)
    requires
        img.wf(),
    ensures
        out.wf(),
        is_rotated_cw(*img, out),
{
    let wp = img.height;  // output width
    let hp = img.width;  // output height
    let cs = img.channels;
    let total = img.data.len();
    let mut data: Vec<u8> = Vec::new();
    if wp == 0 || hp == 0 {
        let out = Image { width: wp, height: hp, channels: cs, data };
        proof {
            assert(total == 0) by (nonlinear_arith)
                requires
                    total == img.width * img.height * img.channels,
                    img.width == 0 || img.height == 0,
            ;
            assert(out.data@.len() == out.width * out.height * out.channels) by (nonlinear_arith)
                requires
                    out.data@.len() == 0,
                    out.width == 0 || out.height == 0,
            ;
        }
        return out;
    }
    proof {
        assert(total == hp * (wp * cs) && wp * cs <= total && cs <= wp * cs) by (nonlinear_arith)
            requires
                total == img.width * img.height * img.channels,
                hp == img.width,
                wp == img.height,
                cs == img.channels,
                hp >= 1,
                wp >= 1,
                cs >= 1,
        ;
    }
    let stride = wp * cs;
    let mut i: usize = 0;
    while i < total
        invariant
            i <= total,
            data@.len() == i,
            stride == wp * cs,
            total == hp * stride,
            hp >= 1 && wp >= 1 && cs >= 1,
            forall|j: int|
                0 <= j < i ==> #[trigger] data@[j] == img.px(
                    img.height - 1 - ((j % (stride as int)) / (cs as int)),
                    j / (stride as int),
                    j % (cs as int),
                ),
        decreases total - i,
    {
        let r = i / stride;
        let rem = i % stride;
        let c = rem / cs;
        let ch = i % cs;
        proof {
            assert(hp as int * stride as int == stride as int * hp as int) by (nonlinear_arith);
            vstd::arithmetic::div_mod::lemma_multiply_divide_lt(i as int, stride as int, hp as int);
            assert(rem < stride);
            assert(wp as int * cs as int == cs as int * wp as int) by (nonlinear_arith);
            vstd::arithmetic::div_mod::lemma_multiply_divide_lt(rem as int, cs as int, wp as int);
            assert(ch < cs);
        }
        let s = sample_at(img, img.height - 1 - c, r, ch);
        proof {
            assert(rem as int == i as int % (stride as int));
            assert(ch as int == i as int % (cs as int));
        }
        data.push(s);
        i += 1;
    }
    let out = Image { width: wp, height: hp, channels: cs, data };
    proof {
        assert(out.data@.len() == out.width * out.height * out.channels) by (nonlinear_arith)
            requires
                out.data@.len() == total,
                total == hp * (wp * cs),
                out.width == wp,
                out.height == hp,
                out.channels == cs,
        ;
        assert forall|r: int, c: int, ch: int| out.in_bounds(r, c, ch) implies #[trigger] out.px(
            r, c, ch) == img.px(img.height - 1 - c, r, ch) by {
            lemma_flat_index(r, c, ch, wp as int, hp as int, cs as int);
            let j = (r * wp + c) * cs + ch;
            assert(j < hp * wp * cs);
            assert(hp * wp * cs == hp * (wp * cs)) by (nonlinear_arith);
            assert(j % (stride as int) == c * cs + ch);
            assert((j % (stride as int)) / (cs as int) == c);
            assert(j % (cs as int) == ch);
            assert(data@[j] == img.px(img.height - 1 - c, r, ch));
        }
    }
    out
}

/// Turns the raster a quarter turn counter-clockwise.
pub fn rotate_ccw(img: &Image) -> (out: Image)
    requires
        img.wf(),
    ensures
        out.wf(),
        is_rotated_ccw(*img, out),
{
    let wp = img.height;  // output width
    let hp = img.width;  // output height
    let cs = img.channels;
    let total = img.data.len();
    let mut data: Vec<u8> = Vec::new();
    if wp == 0 || hp == 0 {
        let out = Image { width: wp, height: hp, channels: cs, data };
        proof {
            assert(total == 0) by (nonlinear_arith)
                requires
                    total == img.width * img.height * img.channels,
                    img.width == 0 || img.height == 0,
            ;
            assert(out.data@.len() == out.width * out.height * out.channels) by (nonlinear_arith)
                requires
                    out.data@.len() == 0,
                    out.width == 0 || out.height == 0,
            ;
        }
        return out;
    }
    proof {
        assert(total == hp * (wp * cs) && wp * cs <= total && cs <= wp * cs) by (nonlinear_arith)
            requires
                total == img.width * img.height * img.channels,
                hp == img.width,
                wp == img.height,
                cs == img.channels,
                hp >= 1,
                wp >= 1,
                cs >= 1,
        ;
    }
    let stride = wp * cs;
    let mut i: usize = 0;
    while i < total
        invariant
            i <= total,
            data@.len() == i,
            stride == wp * cs,
            total == hp * stride,
            hp >= 1 && wp >= 1 && cs >= 1,
            forall|j: int|
                0 <= j < i ==> #[trigger] data@[j] == img.px(
                    (j % (stride as int)) / (cs as int),
                    img.width - 1 - j / (stride as int),
                    j % (cs as int),
                ),
        decreases total - i,
    {
        let r = i / stride;
        let rem = i % stride;
        let c = rem / cs;
        let ch = i % cs;
        proof {
            assert(hp as int * stride as int == stride as int * hp as int) by (nonlinear_arith);
            vstd::arithmetic::div_mod::lemma_multiply_divide_lt(i as int, stride as int, hp as int);
            assert(rem < stride);
            assert(wp as int * cs as int == cs as int * wp as int) by (nonlinear_arith);
            vstd::arithmetic::div_mod::lemma_multiply_divide_lt(rem as int, cs as int, wp as int);
        }
        let s = sample_at(img, c, img.width - 1 - r, ch);
        proof {
            assert(rem as int == i as int % (stride as int));
            assert(ch as int == i as int % (cs as int));
        }
        data.push(s);
        i += 1;
    }
    let out = Image { width: wp, height: hp, channels: cs, data };
    proof {
        assert(out.data@.len() == out.width * out.height * out.channels) by (nonlinear_arith)
            requires
                out.data@.len() == total,
                total == hp * (wp * cs),
                out.width == wp,
                out.height == hp,
                out.channels == cs,
        ;
        assert forall|r: int, c: int, ch: int| out.in_bounds(r, c, ch) implies #[trigger] out.px(
            r, c, ch) == img.px(c, img.width - 1 - r, ch) by {
            lemma_flat_index(r, c, ch, wp as int, hp as int, cs as int);
            let j = (r * wp + c) * cs + ch;
            assert(j < hp * wp * cs);
            assert(hp * wp * cs == hp * (wp * cs)) by (nonlinear_arith);
            assert(j % (stride as int) == c * cs + ch);
            assert((j % (stride as int)) / (cs as int) == c);
            assert(j % (cs as int) == ch);
            assert(data@[j] == img.px(c, img.width - 1 - r, ch));
        }
    }
    out
}

/// Halves the resolution: keeps every second row and column.
pub fn resize_half(img: &Image) -> (out: Image)
    requires
        img.wf(),
    ensures
        out.wf(),
        is_resized_half(*img, out),
{
    let wp = img.width / 2;
    let hp = img.height / 2;
    let cs = img.channels;
    let mut data: Vec<u8> = Vec::new();
    if wp == 0 || hp == 0 {
        let out = Image { width: wp, height: hp, channels: cs, data };
        proof {
            assert(out.data@.len() == out.width * out.height * out.channels) by (nonlinear_arith)
                requires
                    out.data@.len() == 0,
                    out.width == 0 || out.height == 0,
            ;
        }
        return out;
    }
    let n = img.data.len();
    proof {
        assert(wp as int * cs as int <= n && hp as int * (wp as int * cs as int) <= n)
            by (nonlinear_arith)
            requires
                n == img.width * img.height * img.channels,
                hp <= img.height,
                wp <= img.width,
                cs == img.channels,
                hp >= 1,
                wp >= 1,
                cs >= 1,
        ;
    }
    let stride = wp * cs;
    let total = hp * stride;
    let mut i: usize = 0;
    while i < total
        invariant
            i <= total,
            data@.len() == i,
            stride == wp * cs,
            total == hp * stride,
            hp >= 1 && wp >= 1 && cs >= 1,
            hp == img.height / 2,
            wp == img.width / 2,
            forall|j: int|
                0 <= j < i ==> #[trigger] data@[j] == img.px(
                    2 * (j / (stride as int)),
                    2 * ((j % (stride as int)) / (cs as int)),
                    j % (cs as int),
                ),
        decreases total - i,
    {
        let r = i / stride;
        let rem = i % stride;
        let c = rem / cs;
        let ch = i % cs;
        proof {
            assert(hp as int * stride as int == stride as int * hp as int) by (nonlinear_arith);
            vstd::arithmetic::div_mod::lemma_multiply_divide_lt(i as int, stride as int, hp as int);
            assert(rem < stride);
            assert(wp as int * cs as int == cs as int * wp as int) by (nonlinear_arith);
            vstd::arithmetic::div_mod::lemma_multiply_divide_lt(rem as int, cs as int, wp as int);
        }
        let s = sample_at(img, 2 * r, 2 * c, ch);
        proof {
            assert(rem as int == i as int % (stride as int));
            assert(ch as int == i as int % (cs as int));
        }
        data.push(s);
        i += 1;
    }
    let out = Image { width: wp, height: hp, channels: cs, data };
    proof {
        assert(out.data@.len() == out.width * out.height * out.channels) by (nonlinear_arith)
            requires
                out.data@.len() == total,
                total == hp * (wp * cs),
                out.width == wp,
                out.height == hp,
                out.channels == cs,
        ;
        assert forall|r: int, c: int, ch: int| out.in_bounds(r, c, ch) implies #[trigger] out.px(
            r, c, ch) == img.px(2 * r, 2 * c, ch) by {
            lemma_flat_index(r, c, ch, wp as int, hp as int, cs as int);
            let j = (r * wp + c) * cs + ch;
            assert(j < hp * wp * cs);
            assert(hp * wp * cs == hp * (wp * cs)) by (nonlinear_arith);
            assert(j % (stride as int) == c * cs + ch);
            assert((j % (stride as int)) / (cs as int) == c);
            assert(j % (cs as int) == ch);
            assert(data@[j] == img.px(2 * r, 2 * c, ch));
        }
    }
    out
}

/// A quarter turn clockwise followed by a quarter turn counter-clockwise
/// restores the original dimensions and every sample.
pub proof fn lemma_rotate_round_trip(a: Image, b: Image, c: Image)
    requires
        a.wf(),
        is_rotated_cw(a, b),
        is_rotated_ccw(b, c),
    ensures
        c.width == a.width,
        c.height == a.height,
        c.channels == a.channels,
        c.data@ == a.data@,
{
    let w = a.width as int;
    let h = a.height as int;
    let cs = a.channels as int;
    assert forall|i: int| 0 <= i < a.data@.len() implies c.data@[i] == a.data@[i] by {
        assert(w >= 1 && h >= 1 && cs >= 1) by (nonlinear_arith)
            requires
                a.data@.len() == w * h * cs,
                0 <= i < a.data@.len(),
                w >= 0,
                h >= 0,
                cs >= 0,
        ;
        let stride = w * cs;
        assert(a.data@.len() == stride * h && cs <= stride) by (nonlinear_arith)
            requires
                a.data@.len() == w * h * cs,
                stride == w * cs,
                cs >= 1,
                w >= 1,
        ;
        vstd::arithmetic::div_mod::lemma_multiply_divide_lt(i, stride, h);
        let r = i / stride;
        let rem = i % stride;
        vstd::arithmetic::div_mod::lemma_fundamental_div_mod(i, stride);
        assert(0 <= rem < stride);
        assert(stride == cs * w) by (nonlinear_arith)
            requires
                stride == w * cs,
        ;
        vstd::arithmetic::div_mod::lemma_multiply_divide_lt(rem, cs, w);
        let cc = rem / cs;
        let ch = rem % cs;
        vstd::arithmetic::div_mod::lemma_fundamental_div_mod(rem, cs);
        assert(0 <= ch < cs);
        assert(i == (r * w + cc) * cs + ch) by (nonlinear_arith)
            requires
                i == stride * r + rem,
                rem == cs * cc + ch,
                stride == w * cs,
        ;
        lemma_flat_index(r, cc, ch, w, h, cs);
        assert(c.data@[i] == c.px(r, cc, ch));
        assert(a.data@[i] == a.px(r, cc, ch));
        assert(c.px(r, cc, ch) == b.px(cc, h - 1 - r, ch));
        assert(b.px(cc, h - 1 - r, ch) == a.px(h - 1 - (h - 1 - r), cc, ch));
        assert(a.px(h - 1 - (h - 1 - r), cc, ch) == a.px(r, cc, ch));
    }
    assert(c.data@ =~= a.data@);
}

} // verus!
