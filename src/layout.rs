//! Interleaved RGB bitmaps and the channel-first layout of a model input.

use vstd::arithmetic::div_mod::{lemma_fundamental_div_mod_converse, lemma_div_pos_is_pos};
use vstd::prelude::*;

verus! {

/// Position of channel `c` of the pixel at column `x`, row `y` in an
/// interleaved, row-major RGB bitmap `width` pixels wide.
pub open spec fn interleaved_index(width: int, x: int, y: int, c: int) -> int {
    (y * width + x) * 3 + c
}

/// Position of element `(c, y, x)` in a channel-first tensor of one image
/// with planes `height` rows by `width` columns.
pub open spec fn planar_index(width: int, height: int, c: int, y: int, x: int) -> int {
    (c * height + y) * width + x
}

/// The interleaved position read for planar position `i`.
pub open spec fn source_of(width: int, height: int, i: int) -> int {
    let plane = width * height;
    let c = i / plane;
    let r = i % plane;
    interleaved_index(width, r % width, r / width, c)
}

/// The channel-first rearrangement of an interleaved RGB bitmap: plane `c`
/// holds channel `c` of every pixel, row by row.
pub open spec fn channel_first(pixels: Seq<u8>, width: nat, height: nat) -> Seq<u8> {
    Seq::new(3 * width * height, |i: int| pixels[source_of(width as int, height as int, i)])
}

proof fn lemma_in_bounds(w: int, h: int, c: int, y: int, x: int)
    requires
        0 < w,
        0 < h,
        0 <= c < 3,
        0 <= y < h,
        0 <= x < w,
    ensures
        0 <= planar_index(w, h, c, y, x) < 3 * w * h,
        0 <= interleaved_index(w, x, y, c) < 3 * w * h,
{
    assert(0 <= (c * h + y) * w + x < 3 * w * h) by (nonlinear_arith)
        requires
            0 < w,
            0 < h,
            0 <= c < 3,
            0 <= y < h,
            0 <= x < w,
    ;
    assert(0 <= (y * w + x) * 3 + c < 3 * w * h) by (nonlinear_arith)
        requires
            0 < w,
            0 < h,
            0 <= c < 3,
            0 <= y < h,
            0 <= x < w,
    ;
}

/// Element `(c, y, x)` of the channel-first layout is channel `c` of the
/// pixel at column `x`, row `y`.
pub proof fn lemma_channel_first_element(pixels: Seq<u8>, width: nat, height: nat, c: int, y: int, x: int)
    requires
        pixels.len() == 3 * width * height,
        0 <= c < 3,
        0 <= y < height,
        0 <= x < width,
    ensures
        0 <= planar_index(width as int, height as int, c, y, x) < 3 * width * height,
        channel_first(pixels, width, height)[planar_index(width as int, height as int, c, y, x)]
            == pixels[interleaved_index(width as int, x, y, c)],
{
    let w = width as int;
    let h = height as int;
    lemma_in_bounds(w, h, c, y, x);
    let i = planar_index(w, h, c, y, x);
    let r = y * w + x;
    assert(0 <= r < w * h) by (nonlinear_arith)
        requires
            r == y * w + x,
            0 <= y < h,
            0 <= x < w,
    ;
    assert(i == c * (w * h) + r) by (nonlinear_arith)
        requires
            i == (c * h + y) * w + x,
            r == y * w + x,
    ;
    lemma_fundamental_div_mod_converse(i, w * h, c, r);
    lemma_fundamental_div_mod_converse(r, w, y, x);
}

/// When every pixel of a bitmap has one colour, given as its three samples
/// `rgb`, every element of plane `c` of the channel-first layout is `rgb[c]`.
pub proof fn lemma_uniform_planes(pixels: Seq<u8>, width: nat, height: nat, rgb: Seq<u8>)
    requires
        pixels.len() == 3 * width * height,
        rgb.len() == 3,
        forall|k: int| 0 <= k < pixels.len() ==> #[trigger] pixels[k] == rgb[k % 3],
    ensures
        forall|c: int, i: int|
            0 <= c < 3 && 0 <= i < width * height ==> #[trigger] channel_first(
                pixels,
                width,
                height,
            )[c * (width * height) + i] == rgb[c],
{
    let w = width as int;
    let h = height as int;
    assert forall|c: int, i: int| 0 <= c < 3 && 0 <= i < w * h implies #[trigger] channel_first(
        pixels,
        width,
        height,
    )[c * (w * h) + i] == rgb[c] by {
        let plane = w * h;
        let j = c * plane + i;
        assert(w > 0 && h > 0) by (nonlinear_arith)
            requires
                0 <= i < w * h,
                w >= 0,
                h >= 0,
        ;
        assert(j < 3 * w * h) by (nonlinear_arith)
            requires
                j == c * plane + i,
                plane == w * h,
                0 <= c < 3,
                0 <= i < plane,
        ;
        lemma_fundamental_div_mod_converse(j, plane, c, i);
        lemma_source_in_bounds(w, h, j);
        let src = source_of(w, h, j);
        let q = i / w * w + i % w;
        lemma_fundamental_div_mod_converse(src, 3, q, c);
    }
}

proof fn lemma_source_in_bounds(w: int, h: int, i: int)
    requires
        0 < w,
        0 < h,
        0 <= i < 3 * w * h,
    ensures
        0 <= source_of(w, h, i) < 3 * w * h,
{
    let plane = w * h;
    assert(plane > 0) by (nonlinear_arith)
        requires
            plane == w * h,
            0 < w,
            0 < h,
    ;
    let c = i / plane;
    let r = i % plane;
    assert(c < 3) by (nonlinear_arith)
        requires
            plane > 0,
            0 <= i < 3 * w * h,
            plane == w * h,
            c == i / plane,
    ;
    lemma_div_pos_is_pos(i, plane);
    assert(r / w < h) by (nonlinear_arith)
        requires
            0 <= r < plane,
            plane == w * h,
            0 < w,
    ;
    lemma_div_pos_is_pos(r, w);
    lemma_in_bounds(w, h, c, r / w, r % w);
}

/// Rearranges an interleaved, row-major RGB bitmap into channel-first order:
/// the red plane, then the green plane, then the blue plane.
pub fn to_channel_first(pixels: &Vec<u8>, width: usize, height: usize) -> (r: Vec<u8>)
    requires
        pixels@.len() == 3 * width * height,
        3 * width * height <= usize::MAX,
    ensures
        r@ == channel_first(pixels@, width as nat, height as nat),
        r@.len() == pixels@.len(),
{
    let n: usize = pixels.len();
    let mut out: Vec<u8> = Vec::with_capacity(n);
    if n == 0 {
        assert(out@ =~= channel_first(pixels@, width as nat, height as nat));
        return out;
    }
    assert(width > 0 && height > 0) by (nonlinear_arith)
        requires
            n == 3 * width * height,
            n > 0,
    ;
    assert(width * height <= n && width * height > 0) by (nonlinear_arith)
        requires
            n == 3 * width * height,
            width > 0,
            height > 0,
    ;
    let plane: usize = width * height;
    let mut i: usize = 0;
    while i < n
        invariant
            n == pixels@.len(),
            n == 3 * width * height,
            plane == width * height,
            plane > 0,
            width > 0,
            height > 0,
            i <= n,
            out@.len() == i,
            forall|j: int|
                0 <= j < i ==> out@[j] == pixels@[source_of(width as int, height as int, j)],
        decreases n - i,
    {
        let c: usize = i / plane;
        let rest: usize = i % plane;
        let y: usize = rest / width;
        let x: usize = rest % width;
        proof {
            lemma_source_in_bounds(width as int, height as int, i as int);
        }
        let k: usize = (y * width + x) * 3 + c;
        out.push(pixels[k]);
        i = i + 1;
    }
    assert(out@ =~= channel_first(pixels@, width as nat, height as nat));
    out
}

} // verus!
