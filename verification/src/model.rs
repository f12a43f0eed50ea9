//! The mathematical model of the blur: where a pixel's bytes live in the
//! buffer, which pixels are border pixels, and what value every byte of the
//! blurred image takes.

use vstd::arithmetic::div_mod::lemma_fundamental_div_mod;
use vstd::arithmetic::div_mod::lemma_fundamental_div_mod_converse;
use vstd::prelude::*;

verus! {

/// Byte offset of the first channel of pixel (x, y) in a row-major
/// interleaved RGB buffer of width `w`.
pub open spec fn pix(w: int, x: int, y: int) -> int {
    (y * w + x) * 3
}

/// The buffer holds exactly `w * h` pixels, three bytes each.
pub open spec fn valid_image(s: Seq<u8>, w: int, h: int) -> bool {
    s.len() == w * h * 3
}

/// A pixel on the outermost row or column; the blur leaves it unchanged.
pub open spec fn is_border(w: int, h: int, x: int, y: int) -> bool {
    x == 0 || x == w - 1 || y == 0 || y == h - 1
}

/// A pixel whose whole 3x3 neighborhood lies inside the image.
pub open spec fn is_interior(w: int, h: int, x: int, y: int) -> bool {
    1 <= x <= w - 2 && 1 <= y <= h - 2
}

/// Sum of channel `c` over the 3x3 neighborhood of pixel (x, y),
/// row by row from (x-1, y-1) to (x+1, y+1).
pub open spec fn neighbor_sum(s: Seq<u8>, w: int, x: int, y: int, c: int) -> int {
    s[pix(w, x - 1, y - 1) + c] + s[pix(w, x, y - 1) + c] + s[pix(w, x + 1, y - 1) + c]
        + s[pix(w, x - 1, y) + c] + s[pix(w, x, y) + c] + s[pix(w, x + 1, y) + c]
        + s[pix(w, x - 1, y + 1) + c] + s[pix(w, x, y + 1) + c] + s[pix(w, x + 1, y + 1) + c]
}

/// The k-th of the nine neighborhood samples of channel `c` of pixel (x, y),
/// in the order `neighbor_sum` lists them (k in 0..9).
pub open spec fn neighbor_term(s: Seq<u8>, w: int, x: int, y: int, c: int, k: int) -> int {
    s[pix(w, x + k % 3 - 1, y + k / 3 - 1) + c] as int
}

/// Sum of the first `k` of the nine neighborhood samples; the kernels
/// accumulate it one sample at a time.
pub open spec fn neighbor_sum_prefix(s: Seq<u8>, w: int, x: int, y: int, c: int, k: int) -> int
    decreases k,
{
    if k <= 0 {
        0
    } else {
        neighbor_sum_prefix(s, w, x, y, c, k - 1) + neighbor_term(s, w, x, y, c, k - 1)
    }
}

/// The blurred value of channel `c` of interior pixel (x, y): the truncating
/// average of the nine neighborhood samples.
pub open spec fn blurred_channel(s: Seq<u8>, w: int, x: int, y: int, c: int) -> u8 {
    (neighbor_sum(s, w, x, y, c) / 9) as u8
}

/// Byte `i` of the blurred image: border bytes are copied, interior bytes
/// take the truncating average of their 3x3 neighborhood.
pub open spec fn blur_byte(s: Seq<u8>, w: int, h: int, i: int) -> u8 {
    let p = i / 3;
    let c = i % 3;
    let x = p % w;
    let y = p / w;
    if is_border(w, h, x, y) {
        s[i]
    } else {
        blurred_channel(s, w, x, y, c)
    }
}

/// The whole blurred image: what both kernels return.
pub open spec fn blur_spec(s: Seq<u8>, w: int, h: int) -> Seq<u8> {
    Seq::new(s.len(), |i: int| blur_byte(s, w, h, i))
}

/// A pixel coordinate in range puts the pixel's three bytes inside the buffer.
pub proof fn lemma_pix_bounds(w: int, h: int, x: int, y: int)
    requires
        1 <= w,
        1 <= h,
        0 <= x < w,
        0 <= y < h,
    ensures
        0 <= y * w + x < w * h,
        0 <= pix(w, x, y),
        pix(w, x, y) + 3 <= w * h * 3,
{
    assert(0 <= y * w + x && y * w + x < w * h) by (nonlinear_arith)
        requires
            1 <= w,
            0 <= x < w,
            0 <= y < h,
    ;
}

/// The three byte indices of pixel (x, y) decompose back to (x, y) and the
/// channel: the pixel layout is injective.
pub proof fn lemma_pix_decompose(w: int, h: int, x: int, y: int, c: int)
    requires
        1 <= w,
        1 <= h,
        0 <= x < w,
        0 <= y < h,
        0 <= c < 3,
    ensures
        (pix(w, x, y) + c) / 3 == y * w + x,
        (pix(w, x, y) + c) % 3 == c,
        (y * w + x) / w == y,
        (y * w + x) % w == x,
{
    lemma_fundamental_div_mod_converse(pix(w, x, y) + c, 3, y * w + x, c);
    lemma_fundamental_div_mod_converse(y * w + x, w, y, x);
}

/// Every byte index of a valid buffer lies in exactly one pixel and channel.
pub proof fn lemma_index_decompose(w: int, h: int, i: int)
    requires
        1 <= w,
        1 <= h,
        0 <= i < w * h * 3,
    ensures
        0 <= i % 3 < 3,
        0 <= (i / 3) % w < w,
        0 <= (i / 3) / w < h,
        i == pix(w, (i / 3) % w, (i / 3) / w) + i % 3,
{
    lemma_fundamental_div_mod(i, 3);
    let p = i / 3;
    assert(0 <= p < w * h) by (nonlinear_arith)
        requires
            0 <= i < w * h * 3,
            i == 3 * p + i % 3,
            0 <= i % 3 < 3,
    ;
    lemma_fundamental_div_mod(p, w);
    let py = p / w;
    let px = p % w;
    assert(0 <= py < h) by (nonlinear_arith)
        requires
            0 <= p < w * h,
            p == w * py + px,
            0 <= px < w,
            1 <= w,
            1 <= h,
    ;
    assert(py * w == w * py) by (nonlinear_arith);
}

/// The nine-sample prefix sum, run to completion, is the neighborhood sum.
pub proof fn lemma_sum_prefix_complete(s: Seq<u8>, w: int, x: int, y: int, c: int)
    ensures
        neighbor_sum_prefix(s, w, x, y, c, 9) == neighbor_sum(s, w, x, y, c),
{
    reveal_with_fuel(neighbor_sum_prefix, 10);
}

/// Each partial sum of the nine neighborhood samples stays within `255 * k`.
pub proof fn lemma_sum_prefix_bounds(s: Seq<u8>, w: int, x: int, y: int, c: int, k: int)
    requires
        0 <= k <= 9,
    ensures
        0 <= neighbor_sum_prefix(s, w, x, y, c, k) <= 255 * k,
    decreases k,
{
    if k > 0 {
        lemma_sum_prefix_bounds(s, w, x, y, c, k - 1);
    }
}

/// An image narrower or shorter than 3 pixels has no interior: blurring it
/// returns it unchanged.
pub proof fn lemma_degenerate_identity(s: Seq<u8>, w: int, h: int)
    requires
        valid_image(s, w, h),
        0 <= w,
        0 <= h,
        w < 3 || h < 3,
    ensures
        blur_spec(s, w, h) == s,
{
    if s.len() > 0 {
        assert(1 <= w && 1 <= h) by (nonlinear_arith)
            requires
                0 <= w,
                0 <= h,
                w * h * 3 > 0,
        ;
        assert forall|i: int| 0 <= i < s.len() implies blur_byte(s, w, h, i) == s[i] by {
            lemma_index_decompose(w, h, i);
        }
    }
    assert(blur_spec(s, w, h) =~= s);
}

/// Border pixels pass through the blur unchanged, channel by channel.
pub proof fn lemma_border_identity(s: Seq<u8>, w: int, h: int, x: int, y: int, c: int)
    requires
        valid_image(s, w, h),
        1 <= w,
        1 <= h,
        0 <= x < w,
        0 <= y < h,
        is_border(w, h, x, y),
        0 <= c < 3,
    ensures
        blur_spec(s, w, h)[pix(w, x, y) + c] == s[pix(w, x, y) + c],
{
    lemma_pix_bounds(w, h, x, y);
    lemma_pix_decompose(w, h, x, y, c);
}

/// Each interior channel of the blurred image is the truncating average of
/// the nine samples in its 3x3 neighborhood, and that average fits in a byte.
pub proof fn lemma_interior_average(s: Seq<u8>, w: int, h: int, x: int, y: int, c: int)
    requires
        valid_image(s, w, h),
        is_interior(w, h, x, y),
        0 <= c < 3,
    ensures
        blur_spec(s, w, h)[pix(w, x, y) + c] == blurred_channel(s, w, x, y, c),
        0 <= neighbor_sum(s, w, x, y, c) <= 2295,
        blurred_channel(s, w, x, y, c) as int == neighbor_sum(s, w, x, y, c) / 9,
{
    lemma_pix_bounds(w, h, x, y);
    lemma_pix_decompose(w, h, x, y, c);
    lemma_sum_prefix_complete(s, w, x, y, c);
    lemma_sum_prefix_bounds(s, w, x, y, c, 9);
}

/// In a per-channel uniform image, any sample of channel `i % 3` equals byte `i`.
proof fn lemma_uniform_sample(s: Seq<u8>, w: int, h: int, i: int, c: int, xx: int, yy: int)
    requires
        valid_image(s, w, h),
        1 <= w,
        1 <= h,
        0 <= xx < w,
        0 <= yy < h,
        0 <= c < 3,
        0 <= i < s.len(),
        i % 3 == c,
        forall|a: int, b: int|
            0 <= a < s.len() && 0 <= b < s.len() && a % 3 == b % 3 ==> s[a] == s[b],
    ensures
        s[pix(w, xx, yy) + c] == s[i],
{
    lemma_pix_bounds(w, h, xx, yy);
    lemma_pix_decompose(w, h, xx, yy, c);
}

/// Blurring a uniform image changes nothing: every interior average is the
/// truncating mean of nine identical samples, which is the sample itself.
/// Uniformity is stated per channel: bytes at the same channel offset agree.
pub proof fn lemma_uniform_unchanged(s: Seq<u8>, w: int, h: int)
    requires
        valid_image(s, w, h),
        0 <= w,
        0 <= h,
        forall|i: int, j: int|
            0 <= i < s.len() && 0 <= j < s.len() && i % 3 == j % 3 ==> s[i] == s[j],
    ensures
        blur_spec(s, w, h) == s,
{
    if s.len() > 0 {
        assert(1 <= w && 1 <= h) by (nonlinear_arith)
            requires
                0 <= w,
                0 <= h,
                w * h * 3 > 0,
        ;
        assert forall|i: int| 0 <= i < s.len() implies blur_byte(s, w, h, i) == s[i] by {
            lemma_index_decompose(w, h, i);
            let c = i % 3;
            let x = (i / 3) % w;
            let y = (i / 3) / w;
            if !is_border(w, h, x, y) {
                lemma_uniform_sample(s, w, h, i, c, x - 1, y - 1);
                lemma_uniform_sample(s, w, h, i, c, x, y - 1);
                lemma_uniform_sample(s, w, h, i, c, x + 1, y - 1);
                lemma_uniform_sample(s, w, h, i, c, x - 1, y);
                lemma_uniform_sample(s, w, h, i, c, x, y);
                lemma_uniform_sample(s, w, h, i, c, x + 1, y);
                lemma_uniform_sample(s, w, h, i, c, x - 1, y + 1);
                lemma_uniform_sample(s, w, h, i, c, x, y + 1);
                lemma_uniform_sample(s, w, h, i, c, x + 1, y + 1);
                assert(neighbor_sum(s, w, x, y, c) == 9 * (s[i] as int));
                assert(9 * (s[i] as int) / 9 == s[i] as int) by (nonlinear_arith);
            }
        }
    }
    assert(blur_spec(s, w, h) =~= s);
}

/// Pointwise reading of the blurred image: border bytes equal the input,
/// interior bytes hold the neighborhood average.
pub proof fn lemma_blur_spec_pointwise(s: Seq<u8>, w: int, h: int, out: Seq<u8>)
    requires
        valid_image(s, w, h),
        0 <= w,
        0 <= h,
        out == blur_spec(s, w, h),
    ensures
        forall|x: int, y: int, c: int|
            0 <= x < w && 0 <= y < h && is_border(w, h, x, y) && 0 <= c < 3
                ==> #[trigger] out[pix(w, x, y) + c] == s[pix(w, x, y) + c],
        forall|x: int, y: int, c: int|
            is_interior(w, h, x, y) && 0 <= c < 3 ==> #[trigger] out[pix(w, x, y) + c]
                == blurred_channel(s, w, x, y, c),
{
    assert forall|x: int, y: int, c: int|
        0 <= x < w && 0 <= y < h && is_border(w, h, x, y) && 0 <= c < 3 implies #[trigger] out[pix(
        w,
        x,
        y,
    ) + c] == s[pix(w, x, y) + c] by {
        lemma_border_identity(s, w, h, x, y, c);
    }
    assert forall|x: int, y: int, c: int|
        is_interior(w, h, x, y) && 0 <= c < 3 implies #[trigger] out[pix(w, x, y) + c]
        == blurred_channel(s, w, x, y, c) by {
        lemma_interior_average(s, w, h, x, y, c);
    }
}

/// The blur of an image is a single well-defined sequence: any two buffers
/// that both match it byte for byte are identical. The scalar and the vector
/// kernels each ensure that match, so their outputs are byte-identical.
pub proof fn lemma_kernels_agree(s: Seq<u8>, w: int, h: int, a: Seq<u8>, b: Seq<u8>)
    requires
        a.len() == s.len(),
        b.len() == s.len(),
        forall|i: int| 0 <= i < s.len() ==> a[i] == blur_spec(s, w, h)[i],
        forall|i: int| 0 <= i < s.len() ==> b[i] == blur_spec(s, w, h)[i],
    ensures
        a == b,
{
    assert(a =~= b);
}

} // verus!
