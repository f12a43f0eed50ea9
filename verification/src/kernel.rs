//! The two blur kernels: a scalar reference kernel and a lane-grouped kernel
//! with a scalar tail. Both are proved to return exactly `blur_spec` of their
//! input, so their outputs are byte-identical.

use crate::model::blur_byte;
use crate::model::blur_spec;
use crate::model::blurred_channel;
use crate::model::is_border;
use crate::model::is_interior;
use crate::model::lemma_blur_spec_pointwise;
use crate::model::lemma_degenerate_identity;
use crate::model::lemma_index_decompose;
use crate::model::lemma_pix_bounds;
use crate::model::lemma_pix_decompose;
use crate::model::lemma_sum_prefix_bounds;
use crate::model::lemma_sum_prefix_complete;
use crate::model::neighbor_sum;
use crate::model::neighbor_sum_prefix;
use crate::model::pix;
use crate::model::valid_image;
use vstd::prelude::*;
use vstd::slice::slice_to_vec;

verus! {

/// Number of consecutive interior pixels one vector group processes.
pub const LANE: usize = 16;

/// Byte `i` already holds its blurred value exactly when its pixel is
/// interior and comes before column `x` of row `y` in row-major order.
spec fn row_major_done(w: int, h: int, i: int, x: int, y: int) -> bool {
    let p = i / 3;
    let px = p % w;
    let py = p / w;
    is_interior(w, h, px, py) && (py < y || (py == y && px < x))
}

/// The working buffer agrees with the blurred image on every byte done up to
/// column `x` of row `y`, and with the input everywhere else.
spec fn partial_blur(s: Seq<u8>, w: int, h: int, out: Seq<u8>, x: int, y: int) -> bool {
    &&& out.len() == s.len()
    &&& forall|i: int|
        0 <= i < s.len() ==> out[i] == (if row_major_done(w, h, i, x, y) {
            blur_byte(s, w, h, i)
        } else {
            s[i]
        })
}

/// Before the first interior pixel of the first interior row is written,
/// the untouched copy of the input satisfies `partial_blur`.
proof fn lemma_partial_blur_init(s: Seq<u8>, w: int, h: int)
    requires
        valid_image(s, w, h),
        3 <= w,
        3 <= h,
    ensures
        partial_blur(s, w, h, s, 1, 1),
{
    assert forall|i: int| 0 <= i < s.len() implies !row_major_done(w, h, i, 1, 1) by {}
}

/// One step along row `y`: bytes were blurred up to column `m`, the pixels of
/// columns `x..nx` (with `x <= m`) have just been written with their blurred
/// values and no other byte moved; bytes are now blurred up to the larger of
/// `m` and `nx`.
proof fn lemma_row_step(
    s: Seq<u8>,
    w: int,
    h: int,
    a: Seq<u8>,
    b: Seq<u8>,
    m: int,
    x: int,
    nx: int,
    y: int,
)
    requires
        valid_image(s, w, h),
        3 <= w,
        3 <= h,
        1 <= y <= h - 2,
        1 <= x < nx <= w - 1,
        x <= m <= w - 1,
        partial_blur(s, w, h, a, m, y),
        b.len() == s.len(),
        forall|j: int, c: int|
            x <= j < nx && 0 <= c < 3 ==> b[pix(w, j, y) + c] == blurred_channel(s, w, j, y, c),
        forall|i: int|
            0 <= i < s.len() && !(pix(w, x, y) <= i < pix(w, nx, y)) ==> b[i] == a[i],
    ensures
        partial_blur(s, w, h, b, if m > nx { m } else { nx }, y),
{
    let nm = if m > nx { m } else { nx };
    assert forall|i: int| 0 <= i < s.len() implies b[i] == (if row_major_done(w, h, i, nm, y) {
        blur_byte(s, w, h, i)
    } else {
        s[i]
    }) by {
        lemma_index_decompose(w, h, i);
        let c = i % 3;
        let px = (i / 3) % w;
        let py = (i / 3) / w;
        if is_interior(w, h, px, py) && py == y && x <= px < nx {
            lemma_pix_decompose(w, h, px, py, c);
        } else {
            if py < y {
                assert(py * w + px < y * w + x) by (nonlinear_arith)
                    requires
                        py < y,
                        0 <= px < w,
                        0 <= x,
                        1 <= w,
                ;
            } else if py > y {
                assert(y * w + nx <= py * w + px) by (nonlinear_arith)
                    requires
                        y < py,
                        0 <= px,
                        nx <= w,
                        1 <= w,
                ;
            }
            assert(b[i] == a[i]);
        }
    }
}

/// A row blurred to its last interior column is blurred up to the first
/// interior column of the next row.
proof fn lemma_row_to_next(s: Seq<u8>, w: int, h: int, out: Seq<u8>, y: int)
    requires
        valid_image(s, w, h),
        3 <= w,
        3 <= h,
        1 <= y <= h - 2,
        partial_blur(s, w, h, out, w - 1, y),
    ensures
        partial_blur(s, w, h, out, 1, y + 1),
{
    assert forall|i: int| 0 <= i < s.len() implies #[trigger] row_major_done(w, h, i, 1, y + 1)
        == row_major_done(w, h, i, w - 1, y) by {}
}

/// A buffer blurred through the last interior row is the blurred image.
proof fn lemma_partial_blur_complete(s: Seq<u8>, w: int, h: int, out: Seq<u8>)
    requires
        valid_image(s, w, h),
        3 <= w,
        3 <= h,
        partial_blur(s, w, h, out, 1, h - 1),
    ensures
        out == blur_spec(s, w, h),
{
    assert forall|i: int| 0 <= i < s.len() implies out[i] == blur_byte(s, w, h, i) by {
        lemma_index_decompose(w, h, i);
    }
    assert(out =~= blur_spec(s, w, h));
}

/// Sums each color channel over the 3x3 neighborhood of interior pixel
/// (x, y), one neighbor offset at a time. 9 * 255 = 2295 fits in a `u16`.
#[verifier::loop_isolation(false)]
fn sum_neighborhood(input: &[u8], width: usize, height: usize, x: usize, y: usize) -> (sums: (
    u16,
    u16,
    u16,
))
    requires
        valid_image(input@, width as int, height as int),
        is_interior(width as int, height as int, x as int, y as int),
    ensures
        sums.0 as int == neighbor_sum(input@, width as int, x as int, y as int, 0),
        sums.1 as int == neighbor_sum(input@, width as int, x as int, y as int, 1),
        sums.2 as int == neighbor_sum(input@, width as int, x as int, y as int, 2),
{
    let ghost w = width as int;
    let ghost h = height as int;
    // Calling `len` records that the buffer length fits in `usize`,
    // which the index bound proofs below rely on.
    let _n: usize = input.len();
    let mut r: u16 = 0;
    let mut g: u16 = 0;
    let mut b: u16 = 0;
    for k in 0..9usize
        invariant
            r as int == neighbor_sum_prefix(input@, w, x as int, y as int, 0, k as int),
            g as int == neighbor_sum_prefix(input@, w, x as int, y as int, 1, k as int),
            b as int == neighbor_sum_prefix(input@, w, x as int, y as int, 2, k as int),
    {
        proof {
            lemma_sum_prefix_bounds(input@, w, x as int, y as int, 0, k as int);
            lemma_sum_prefix_bounds(input@, w, x as int, y as int, 1, k as int);
            lemma_sum_prefix_bounds(input@, w, x as int, y as int, 2, k as int);
        }
        let row: usize = y - 1 + k / 3;
        let col: usize = x - 1 + k % 3;
        proof {
            lemma_pix_bounds(w, h, col as int, row as int);
        }
        let idx: usize = (row * width + col) * 3;
        r = r + input[idx] as u16;
        g = g + input[idx + 1] as u16;
        b = b + input[idx + 2] as u16;
    }
    proof {
        lemma_sum_prefix_complete(input@, w, x as int, y as int, 0);
        lemma_sum_prefix_complete(input@, w, x as int, y as int, 1);
        lemma_sum_prefix_complete(input@, w, x as int, y as int, 2);
    }
    (r, g, b)
}

/// Writes the blurred value of interior pixel (x, y) into `output`,
/// leaving every other byte unchanged.
fn blur_pixel(input: &[u8], output: &mut Vec<u8>, width: usize, height: usize, x: usize, y: usize)
    requires
        valid_image(input@, width as int, height as int),
        old(output)@.len() == input@.len(),
        is_interior(width as int, height as int, x as int, y as int),
    ensures
        final(output)@.len() == input@.len(),
        forall|c: int|
            0 <= c < 3 ==> final(output)@[pix(width as int, x as int, y as int) + c]
                == blurred_channel(input@, width as int, x as int, y as int, c),
        forall|i: int|
            0 <= i < input@.len() && !(pix(width as int, x as int, y as int) <= i < pix(
                width as int,
                x as int,
                y as int,
            ) + 3) ==> final(output)@[i] == old(output)@[i],
{
    // Calling `len` records that the buffer length fits in `usize`,
    // which the index bound proofs below rely on.
    let _n: usize = input.len();
    proof {
        lemma_pix_bounds(width as int, height as int, x as int, y as int);
    }
    let sums: (u16, u16, u16) = sum_neighborhood(input, width, height, x, y);
    let idx: usize = (y * width + x) * 3;
    output[idx] = (sums.0 / 9) as u8;
    output[idx + 1] = (sums.1 / 9) as u8;
    output[idx + 2] = (sums.2 / 9) as u8;
}

/// Blurs an RGB image with a 3x3 box filter, pixel by pixel: border pixels
/// are copied unchanged, each interior channel becomes the truncating average
/// of the nine samples in its 3x3 neighborhood. An image narrower or shorter
/// than 3 pixels has no interior and is returned unchanged.
#[verifier::loop_isolation(false)]
pub fn blur_rgb_scalar(input: &[u8], width: usize, height: usize) -> (out: Vec<u8>)
    requires
        valid_image(input@, width as int, height as int),
    ensures
        out@ == blur_spec(input@, width as int, height as int),
        out@.len() == input@.len(),
        forall|x: int, y: int, c: int|
            0 <= x < width as int && 0 <= y < height as int && is_border(
                width as int,
                height as int,
                x,
                y,
            ) && 0 <= c < 3 ==> #[trigger] out@[pix(width as int, x, y) + c] == input@[pix(
                width as int,
                x,
                y,
            ) + c],
        forall|x: int, y: int, c: int|
            is_interior(width as int, height as int, x, y) && 0 <= c < 3 ==> #[trigger] out@[pix(
                width as int,
                x,
                y,
            ) + c] == blurred_channel(input@, width as int, x, y, c),
{
    let ghost w = width as int;
    let ghost h = height as int;
    let mut output: Vec<u8> = slice_to_vec(input);
    if width < 3 || height < 3 {
        proof {
            lemma_degenerate_identity(input@, w, h);
            lemma_blur_spec_pointwise(input@, w, h, output@);
        }
        return output;
    }
    proof {
        lemma_partial_blur_init(input@, w, h);
    }
    for y in 1..(height - 1)
        invariant
            partial_blur(input@, w, h, output@, 1, y as int),
    {
        for x in 1..(width - 1)
            invariant
                partial_blur(input@, w, h, output@, x as int, y as int),
        {
            let ghost prev = output@;
            blur_pixel(input, &mut output, width, height, x, y);
            proof {
                lemma_row_step(input@, w, h, prev, output@, x as int, x as int, x as int + 1,
                    y as int);
            }
        }
        proof {
            lemma_row_to_next(input@, w, h, output@, y as int);
        }
    }
    proof {
        lemma_partial_blur_complete(input@, w, h, output@);
        lemma_blur_spec_pointwise(input@, w, h, output@);
    }
    output
}

/// A lane-wide accumulator with every lane zero.
fn zero_lanes() -> (v: Vec<u16>)
    ensures
        v@.len() == LANE as int,
        forall|j: int| 0 <= j < LANE as int ==> v@[j] == 0u16,
{
    let mut v: Vec<u16> = Vec::new();
    let mut i: usize = 0;
    while i < LANE
        invariant
            i <= LANE,
            v@.len() == i as int,
            forall|j: int| 0 <= j < i as int ==> v@[j] == 0u16,
        decreases LANE - i,
    {
        v.push(0);
        i = i + 1;
    }
    v
}

/// Blurs one vector group: the LANE consecutive interior pixels of row `y`
/// starting at column `x`. For each of the nine neighbor offsets it gathers
/// LANE consecutive samples per channel and adds them lane-wise into three
/// running per-channel sums; it then divides every lane by nine and scatters
/// the results into the three output channels.
#[verifier::loop_isolation(false)]
fn blur_lane_group(
    input: &[u8],
    output: &mut Vec<u8>,
    width: usize,
    height: usize,
    x: usize,
    y: usize,
)
    requires
        valid_image(input@, width as int, height as int),
        old(output)@.len() == input@.len(),
        3 <= width,
        3 <= height,
        1 <= x,
        x + LANE <= width - 1,
        1 <= y,
        y + 2 <= height,
    ensures
        final(output)@.len() == input@.len(),
        forall|j: int, c: int|
            0 <= j < LANE as int && 0 <= c < 3 ==> final(output)@[pix(
                width as int,
                x as int + j,
                y as int,
            ) + c] == #[trigger] blurred_channel(input@, width as int, x as int + j, y as int, c),
        forall|i: int|
            0 <= i < input@.len() && !(pix(width as int, x as int, y as int) <= i < pix(
                width as int,
                x as int + LANE as int,
                y as int,
            )) ==> final(output)@[i] == old(output)@[i],
{
    let ghost w = width as int;
    let ghost h = height as int;
    // Calling `len` records that the buffer length fits in `usize`,
    // which the index bound proofs below rely on.
    let _n: usize = input.len();
    let mut rs: Vec<u16> = zero_lanes();
    let mut gs: Vec<u16> = zero_lanes();
    let mut bs: Vec<u16> = zero_lanes();
    for k in 0..9usize
        invariant
            rs@.len() == LANE as int,
            gs@.len() == LANE as int,
            bs@.len() == LANE as int,
            forall|j: int|
                0 <= j < LANE as int ==> (#[trigger] rs@[j]) as int == neighbor_sum_prefix(
                    input@,
                    w,
                    x as int + j,
                    y as int,
                    0,
                    k as int,
                ),
            forall|j: int|
                0 <= j < LANE as int ==> (#[trigger] gs@[j]) as int == neighbor_sum_prefix(
                    input@,
                    w,
                    x as int + j,
                    y as int,
                    1,
                    k as int,
                ),
            forall|j: int|
                0 <= j < LANE as int ==> (#[trigger] bs@[j]) as int == neighbor_sum_prefix(
                    input@,
                    w,
                    x as int + j,
                    y as int,
                    2,
                    k as int,
                ),
    {
        let dy: usize = k / 3;
        let dx: usize = k % 3;
        let row: usize = y - 1 + dy;
        let colbase: usize = x - 1 + dx;
        proof {
            lemma_pix_bounds(w, h, colbase as int, row as int);
        }
        let base: usize = (row * width + colbase) * 3;
        for j in 0..LANE
            invariant
                rs@.len() == LANE as int,
                gs@.len() == LANE as int,
                bs@.len() == LANE as int,
                forall|jj: int|
                    0 <= jj < j as int ==> (#[trigger] rs@[jj]) as int == neighbor_sum_prefix(
                        input@,
                        w,
                        x as int + jj,
                        y as int,
                        0,
                        k as int + 1,
                    ),
                forall|jj: int|
                    j as int <= jj < LANE as int ==> (#[trigger] rs@[jj]) as int
                        == neighbor_sum_prefix(input@, w, x as int + jj, y as int, 0, k as int),
                forall|jj: int|
                    0 <= jj < j as int ==> (#[trigger] gs@[jj]) as int == neighbor_sum_prefix(
                        input@,
                        w,
                        x as int + jj,
                        y as int,
                        1,
                        k as int + 1,
                    ),
                forall|jj: int|
                    j as int <= jj < LANE as int ==> (#[trigger] gs@[jj]) as int
                        == neighbor_sum_prefix(input@, w, x as int + jj, y as int, 1, k as int),
                forall|jj: int|
                    0 <= jj < j as int ==> (#[trigger] bs@[jj]) as int == neighbor_sum_prefix(
                        input@,
                        w,
                        x as int + jj,
                        y as int,
                        2,
                        k as int + 1,
                    ),
                forall|jj: int|
                    j as int <= jj < LANE as int ==> (#[trigger] bs@[jj]) as int
                        == neighbor_sum_prefix(input@, w, x as int + jj, y as int, 2, k as int),
        {
            proof {
                lemma_pix_bounds(w, h, colbase as int + j as int, row as int);
                lemma_sum_prefix_bounds(input@, w, x as int + j as int, y as int, 0, k as int);
                lemma_sum_prefix_bounds(input@, w, x as int + j as int, y as int, 1, k as int);
                lemma_sum_prefix_bounds(input@, w, x as int + j as int, y as int, 2, k as int);
            }
            let p: usize = base + j * 3;
            rs[j] = rs[j] + input[p] as u16;
            gs[j] = gs[j] + input[p + 1] as u16;
            bs[j] = bs[j] + input[p + 2] as u16;
        }
    }
    for j in 0..LANE
        invariant
            output@.len() == input@.len(),
            forall|jj: int, c: int|
                0 <= jj < j as int && 0 <= c < 3 ==> output@[pix(w, x as int + jj, y as int) + c]
                    == #[trigger] blurred_channel(input@, w, x as int + jj, y as int, c),
            forall|i: int|
                0 <= i < input@.len() && !(pix(w, x as int, y as int) <= i < pix(
                    w,
                    x as int + j as int,
                    y as int,
                )) ==> output@[i] == old(output)@[i],
    {
        proof {
            lemma_pix_bounds(w, h, x as int + j as int, y as int);
            lemma_sum_prefix_complete(input@, w, x as int + j as int, y as int, 0);
            lemma_sum_prefix_complete(input@, w, x as int + j as int, y as int, 1);
            lemma_sum_prefix_complete(input@, w, x as int + j as int, y as int, 2);
            lemma_sum_prefix_bounds(input@, w, x as int + j as int, y as int, 0, 9);
            lemma_sum_prefix_bounds(input@, w, x as int + j as int, y as int, 1, 9);
            lemma_sum_prefix_bounds(input@, w, x as int + j as int, y as int, 2, 9);
        }
        let idx: usize = (y * width + (x + j)) * 3;
        output[idx] = (rs[j] / 9) as u8;
        output[idx + 1] = (gs[j] / 9) as u8;
        output[idx + 2] = (bs[j] / 9) as u8;
    }
}

/// Blurs an RGB image with a 3x3 box filter, lane-grouped: each interior row
/// is processed in groups of LANE consecutive pixels, and the interior pixels
/// after the last full group are finished by a scalar tail loop. Rows too
/// narrow for any full group are handled entirely by the tail loop. Returns
/// exactly what `blur_rgb_scalar` returns, byte for byte.
#[verifier::loop_isolation(false)]
pub fn blur_rgb_simd(input: &[u8], width: usize, height: usize) -> (out: Vec<u8>)
    requires
        valid_image(input@, width as int, height as int),
    ensures
        out@ == blur_spec(input@, width as int, height as int),
        out@.len() == input@.len(),
        forall|x: int, y: int, c: int|
            0 <= x < width as int && 0 <= y < height as int && is_border(
                width as int,
                height as int,
                x,
                y,
            ) && 0 <= c < 3 ==> #[trigger] out@[pix(width as int, x, y) + c] == input@[pix(
                width as int,
                x,
                y,
            ) + c],
        forall|x: int, y: int, c: int|
            is_interior(width as int, height as int, x, y) && 0 <= c < 3 ==> #[trigger] out@[pix(
                width as int,
                x,
                y,
            ) + c] == blurred_channel(input@, width as int, x, y, c),
{
    let ghost w = width as int;
    let ghost h = height as int;
    // Calling `len` records that the buffer length fits in `usize`,
    // which the index bound proofs below rely on.
    let _n: usize = input.len();
    let mut output: Vec<u8> = slice_to_vec(input);
    if width < 3 || height < 3 {
        proof {
            lemma_degenerate_identity(input@, w, h);
            lemma_blur_spec_pointwise(input@, w, h, output@);
        }
        return output;
    }
    proof {
        lemma_partial_blur_init(input@, w, h);
        assert(9 * w <= input@.len()) by (nonlinear_arith)
            requires
                input@.len() == w * h * 3,
                3 <= h,
                0 <= w,
        ;
    }
    for y in 1..(height - 1)
        invariant
            partial_blur(input@, w, h, output@, 1, y as int),
    {
        let mut x: usize = 1;
        while x + LANE < width - 1
            invariant
                1 <= x <= width - 1,
                partial_blur(input@, w, h, output@, x as int, y as int),
            decreases width - 1 - x,
        {
            let ghost prev = output@;
            blur_lane_group(input, &mut output, width, height, x, y);
            proof {
                assert forall|j: int, c: int|
                    x as int <= j < x as int + LANE as int && 0 <= c < 3 implies output@[pix(
                    w,
                    j,
                    y as int,
                ) + c] == blurred_channel(input@, w, j, y as int, c) by {
                    assert(output@[pix(w, x as int + (j - x as int), y as int) + c]
                        == blurred_channel(input@, w, x as int + (j - x as int), y as int, c));
                }
                lemma_row_step(input@, w, h, prev, output@, x as int, x as int,
                    x as int + LANE as int, y as int);
            }
            x = x + LANE;
        }
        let tail_start: usize = if width >= LANE + 2 {
            width - 1 - LANE
        } else {
            1
        };
        let ghost xg: int = x as int;
        proof {
            assert(tail_start as int <= xg);
        }
        let mut t: usize = tail_start;
        while t < width - 1
            invariant
                tail_start <= t <= width - 1,
                partial_blur(
                    input@,
                    w,
                    h,
                    output@,
                    if xg > t as int { xg } else { t as int },
                    y as int,
                ),
            decreases width - 1 - t,
        {
            let ghost prev = output@;
            blur_pixel(input, &mut output, width, height, t, y);
            proof {
                lemma_row_step(input@, w, h, prev, output@,
                    if xg > t as int { xg } else { t as int }, t as int, t as int + 1, y as int);
            }
            t = t + 1;
        }
        proof {
            lemma_row_to_next(input@, w, h, output@, y as int);
        }
    }
    proof {
        lemma_partial_blur_complete(input@, w, h, output@);
        lemma_blur_spec_pointwise(input@, w, h, output@);
    }
    output
}

/// The one failure a kernel call can signal: the buffer length does not
/// equal `width * height * 3`.
#[derive(Clone, Copy, Debug, PartialEq, Eq, Structural)]
pub enum BlurError {
    InvalidBufferLength,
}

/// Whether `len` is exactly `width * height * 3`, without overflowing.
fn buffer_length_matches(len: usize, width: usize, height: usize) -> (ok: bool)
    ensures
        ok == (len as int == width as int * height as int * 3),
{
    match width.checked_mul(height) {
        Some(p) => match p.checked_mul(3) {
            Some(total) => total == len,
            None => false,
        },
        None => false,
    }
}

/// Checked scalar kernel: rejects a buffer whose length is not
/// `width * height * 3` before touching any pixel, and otherwise returns the
/// blurred image.
pub fn try_blur_rgb_scalar(input: &[u8], width: usize, height: usize) -> (r: Result<
    Vec<u8>,
    BlurError,
>)
    ensures
        match r {
            Ok(out) => valid_image(input@, width as int, height as int) && out@ == blur_spec(
                input@,
                width as int,
                height as int,
            ),
            Err(e) => e == BlurError::InvalidBufferLength && !valid_image(
                input@,
                width as int,
                height as int,
            ),
        },
{
    if buffer_length_matches(input.len(), width, height) {
        Ok(blur_rgb_scalar(input, width, height))
    } else {
        Err(BlurError::InvalidBufferLength)
    }
}

/// Checked vector kernel: rejects a buffer whose length is not
/// `width * height * 3` before touching any pixel, and otherwise returns the
/// blurred image.
pub fn try_blur_rgb_simd(input: &[u8], width: usize, height: usize) -> (r: Result<
    Vec<u8>,
    BlurError,
>)
    ensures
        match r {
            Ok(out) => valid_image(input@, width as int, height as int) && out@ == blur_spec(
                input@,
                width as int,
                height as int,
            ),
            Err(e) => e == BlurError::InvalidBufferLength && !valid_image(
                input@,
                width as int,
                height as int,
            ),
        },
{
    if buffer_length_matches(input.len(), width, height) {
        Ok(blur_rgb_simd(input, width, height))
    } else {
        Err(BlurError::InvalidBufferLength)
    }
}

} // verus!

