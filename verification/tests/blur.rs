use box_blur::blur_rgb_scalar;
use box_blur::blur_rgb_simd;
use box_blur::try_blur_rgb_scalar;
use box_blur::try_blur_rgb_simd;
use box_blur::BlurError;
use box_blur::LANE;

/// Brute-force 3x3 box blur, written directly from the per-pixel formula:
/// border pixels are copied, each interior channel is the truncating average
/// of the nine samples in its neighborhood.
fn reference_blur(input: &[u8], width: usize, height: usize) -> Vec<u8> {
    assert_eq!(input.len(), width * height * 3);
    let mut out = input.to_vec();
    if width < 3 || height < 3 {
        return out;
    }
    for y in 1..height - 1 {
        for x in 1..width - 1 {
            for c in 0..3 {
                let mut sum: u32 = 0;
                for dy in 0..3 {
                    for dx in 0..3 {
                        let p = (y + dy - 1) * width + (x + dx - 1);
                        sum += input[p * 3 + c] as u32;
                    }
                }
                out[(y * width + x) * 3 + c] = (sum / 9) as u8;
            }
        }
    }
    out
}

/// Deterministic pseudorandom bytes for test images.
fn patterned(len: usize, seed: u64) -> Vec<u8> {
    let mut state = seed;
    let mut v = Vec::with_capacity(len);
    for _ in 0..len {
        state = state
            .wrapping_mul(6364136223846793005)
            .wrapping_add(1442695040888963407);
        v.push((state >> 33) as u8);
    }
    v
}

#[test]
fn scalar_and_simd_agree_on_varied_sizes() {
    let widths = [3usize, 4, 5, 15, 16, 17, 18, 19, 20, 33, 37, 40, 51];
    let heights = [3usize, 4, 5, 7];
    let mut seed = 1u64;
    for &w in &widths {
        for &h in &heights {
            seed += 1;
            let img = patterned(w * h * 3, seed);
            let a = blur_rgb_scalar(&img, w, h);
            let b = blur_rgb_simd(&img, w, h);
            assert_eq!(a, b, "kernels disagree at {}x{}", w, h);
        }
    }
}

#[test]
fn border_pixels_are_copied() {
    let (w, h) = (21usize, 6usize);
    let img = patterned(w * h * 3, 7);
    let a = blur_rgb_scalar(&img, w, h);
    let b = blur_rgb_simd(&img, w, h);
    for y in 0..h {
        for x in 0..w {
            if x == 0 || x == w - 1 || y == 0 || y == h - 1 {
                let idx = (y * w + x) * 3;
                for c in 0..3 {
                    assert_eq!(a[idx + c], img[idx + c]);
                    assert_eq!(b[idx + c], img[idx + c]);
                }
            }
        }
    }
}

#[test]
fn uniform_image_is_unchanged() {
    let (w, h) = (6usize, 5usize);
    let mut img = Vec::new();
    for _ in 0..w * h {
        img.push(10u8);
        img.push(200u8);
        img.push(77u8);
    }
    assert_eq!(blur_rgb_scalar(&img, w, h), img);
    assert_eq!(blur_rgb_simd(&img, w, h), img);
}

#[test]
fn interior_matches_brute_force() {
    let (w, h) = (9usize, 7usize);
    let img = patterned(w * h * 3, 21);
    let expected = reference_blur(&img, w, h);
    assert_eq!(blur_rgb_scalar(&img, w, h), expected);
    assert_eq!(blur_rgb_simd(&img, w, h), expected);
}

#[test]
fn three_by_three_single_interior() {
    let (w, h) = (3usize, 3usize);
    let img = patterned(w * h * 3, 5);
    let a = blur_rgb_scalar(&img, w, h);
    let b = blur_rgb_simd(&img, w, h);
    // The one interior pixel (1, 1) is averaged over the whole image.
    for c in 0..3 {
        let mut sum: u32 = 0;
        for p in 0..9 {
            sum += img[p * 3 + c] as u32;
        }
        let center = (1 * w + 1) * 3 + c;
        assert_eq!(a[center] as u32, sum / 9);
        assert_eq!(b[center] as u32, sum / 9);
    }
    // The eight border pixels are identity-copied.
    for y in 0..h {
        for x in 0..w {
            if x == 1 && y == 1 {
                continue;
            }
            let idx = (y * w + x) * 3;
            for c in 0..3 {
                assert_eq!(a[idx + c], img[idx + c]);
                assert_eq!(b[idx + c], img[idx + c]);
            }
        }
    }
}

#[test]
fn non_lane_aligned_width_covers_all_interior() {
    let (w, h) = (37usize, 5usize);
    assert!(w % LANE != 0);
    let img = patterned(w * h * 3, 99);
    let expected = reference_blur(&img, w, h);
    // Every interior pixel gets exactly the per-pixel average, none is
    // skipped or left as the input copy.
    assert_eq!(blur_rgb_simd(&img, w, h), expected);
    assert_eq!(blur_rgb_scalar(&img, w, h), expected);
}

#[test]
fn all_white_five_by_five_unchanged() {
    let (w, h) = (5usize, 5usize);
    let img = vec![255u8; w * h * 3];
    assert_eq!(blur_rgb_scalar(&img, w, h), img);
    assert_eq!(blur_rgb_simd(&img, w, h), img);
}

#[test]
fn single_white_center_five_by_five() {
    let (w, h) = (5usize, 5usize);
    let mut img = vec![0u8; w * h * 3];
    let center = (2 * w + 2) * 3;
    img[center] = 255;
    img[center + 1] = 255;
    img[center + 2] = 255;
    // Every interior pixel's 3x3 neighborhood holds the white pixel exactly
    // once, so each of its channels becomes floor(255 / 9) = 28; the border
    // stays black.
    let mut expected = vec![0u8; w * h * 3];
    for y in 1..4 {
        for x in 1..4 {
            let idx = (y * w + x) * 3;
            expected[idx] = 28;
            expected[idx + 1] = 28;
            expected[idx + 2] = 28;
        }
    }
    assert_eq!(blur_rgb_scalar(&img, w, h), expected);
    assert_eq!(blur_rgb_simd(&img, w, h), expected);
}

#[test]
fn degenerate_dimensions_return_input() {
    let cases = [(1usize, 1usize), (2, 5), (5, 2), (1, 7), (40, 1)];
    for &(w, h) in &cases {
        let img = patterned(w * h * 3, 3 + w as u64 + h as u64);
        assert_eq!(blur_rgb_scalar(&img, w, h), img);
        assert_eq!(blur_rgb_simd(&img, w, h), img);
    }
}

#[test]
fn invalid_length_is_rejected() {
    let img = patterned(10, 2);
    assert_eq!(
        try_blur_rgb_scalar(&img, 3, 3),
        Err(BlurError::InvalidBufferLength)
    );
    assert_eq!(
        try_blur_rgb_simd(&img, 3, 3),
        Err(BlurError::InvalidBufferLength)
    );
    // Dimensions whose product overflows can never match a real buffer.
    assert_eq!(
        try_blur_rgb_scalar(&img, usize::MAX, 2),
        Err(BlurError::InvalidBufferLength)
    );
    assert_eq!(
        try_blur_rgb_simd(&img, 2, usize::MAX),
        Err(BlurError::InvalidBufferLength)
    );
}

#[test]
fn checked_kernels_accept_valid_buffers() {
    let (w, h) = (7usize, 4usize);
    let img = patterned(w * h * 3, 11);
    let expected = blur_rgb_scalar(&img, w, h);
    assert_eq!(try_blur_rgb_scalar(&img, w, h), Ok(expected.clone()));
    assert_eq!(try_blur_rgb_simd(&img, w, h), Ok(expected));
}
