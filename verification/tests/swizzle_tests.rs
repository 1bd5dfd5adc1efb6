use brag::swizzle::{
    bgra_to_brag, bgra_to_brag_inplace, bgra_to_brag_inplace_strided, bgra_to_brag_strided,
    brag_to_bgra, brag_to_bgra_inplace, brag_to_bgra_inplace_strided, brag_to_bgra_strided,
    brag_to_rgba, brag_to_rgba_inplace, brag_to_rgba_inplace_strided, brag_to_rgba_strided,
    rgba_to_brag, rgba_to_brag_inplace, rgba_to_brag_inplace_strided, rgba_to_brag_strided,
    SwizzleError,
};

fn make_4bpp(n: usize) -> Vec<u8> {
    (0..n * 4).map(|i| (i % 251) as u8).collect()
}

const TEST_SIZES: &[usize] = &[1, 2, 3, 4, 7, 8, 9, 15, 16, 17, 31, 32, 33, 64, 100];

// ── Reference implementations ──────────────────────────────────────

fn ref_rgba_to_brag(src: &[u8]) -> Vec<u8> {
    let mut out = src.to_vec();
    for px in out.chunks_exact_mut(4) {
        let [r, g, b, a] = [px[0], px[1], px[2], px[3]];
        px[0] = b;
        px[1] = r;
        px[2] = a;
        px[3] = g;
    }
    out
}
fn ref_brag_to_rgba(src: &[u8]) -> Vec<u8> {
    let mut out = src.to_vec();
    for px in out.chunks_exact_mut(4) {
        let [b, r, a, g] = [px[0], px[1], px[2], px[3]];
        px[0] = r;
        px[1] = g;
        px[2] = b;
        px[3] = a;
    }
    out
}
fn ref_bgra_to_brag(src: &[u8]) -> Vec<u8> {
    let mut out = src.to_vec();
    for px in out.chunks_exact_mut(4) {
        let [b, g, r, a] = [px[0], px[1], px[2], px[3]];
        px[0] = b;
        px[1] = r;
        px[2] = a;
        px[3] = g;
    }
    out
}
fn ref_brag_to_bgra(src: &[u8]) -> Vec<u8> {
    let mut out = src.to_vec();
    for px in out.chunks_exact_mut(4) {
        let [b, r, a, g] = [px[0], px[1], px[2], px[3]];
        px[0] = b;
        px[1] = g;
        px[2] = r;
        px[3] = a;
    }
    out
}

fn check_inplace(f: fn(&mut [u8]) -> Result<(), SwizzleError>, reference: fn(&[u8]) -> Vec<u8>) {
    for &n in TEST_SIZES {
        let mut data = make_4bpp(n);
        let expected = reference(&data);
        f(&mut data).unwrap();
        assert_eq!(data, expected, "n={n}");
    }
}

fn check_copy(f: fn(&[u8], &mut [u8]) -> Result<(), SwizzleError>, reference: fn(&[u8]) -> Vec<u8>) {
    for &n in TEST_SIZES {
        let src = make_4bpp(n);
        let expected = reference(&src);
        let mut dst = vec![0u8; n * 4];
        f(&src, &mut dst).unwrap();
        assert_eq!(dst, expected, "n={n}");
    }
}

#[test]
fn perm_rgba_to_brag_inplace() {
    check_inplace(rgba_to_brag_inplace, ref_rgba_to_brag);
}
#[test]
fn perm_rgba_to_brag_copy() {
    check_copy(rgba_to_brag, ref_rgba_to_brag);
}
#[test]
fn perm_brag_to_rgba_inplace() {
    check_inplace(brag_to_rgba_inplace, ref_brag_to_rgba);
}
#[test]
fn perm_brag_to_rgba_copy() {
    check_copy(brag_to_rgba, ref_brag_to_rgba);
}
#[test]
fn perm_bgra_to_brag_inplace() {
    check_inplace(bgra_to_brag_inplace, ref_bgra_to_brag);
}
#[test]
fn perm_bgra_to_brag_copy() {
    check_copy(bgra_to_brag, ref_bgra_to_brag);
}
#[test]
fn perm_brag_to_bgra_inplace() {
    check_inplace(brag_to_bgra_inplace, ref_brag_to_bgra);
}
#[test]
fn perm_brag_to_bgra_copy() {
    check_copy(brag_to_bgra, ref_brag_to_bgra);
}

// ── Round-trip tests ───────────────────────────────────────────────

#[test]
fn round_trip_rgba() {
    for &n in TEST_SIZES {
        let original = make_4bpp(n);
        let mut buf = original.clone();
        rgba_to_brag_inplace(&mut buf).unwrap();
        brag_to_rgba_inplace(&mut buf).unwrap();
        assert_eq!(buf, original, "RGBA→BRAG→RGBA round-trip n={n}");
    }
}

#[test]
fn round_trip_bgra() {
    for &n in TEST_SIZES {
        let original = make_4bpp(n);
        let mut buf = original.clone();
        bgra_to_brag_inplace(&mut buf).unwrap();
        brag_to_bgra_inplace(&mut buf).unwrap();
        assert_eq!(buf, original, "BGRA→BRAG→BGRA round-trip n={n}");
    }
}

// ── Strided tests ──────────────────────────────────────────────────

#[test]
fn strided_rgba_to_brag() {
    let w = 4usize;
    let h = 3usize;
    let stride = w * 4 + 8; // 8 bytes padding per row
    let mut buf = vec![0xFFu8; stride * h];
    // Fill pixel data only (not padding)
    for y in 0..h {
        for x in 0..w {
            let i = y * stride + x * 4;
            buf[i] = (y * w + x) as u8; // R
            buf[i + 1] = 0; // G
            buf[i + 2] = 255; // B
            buf[i + 3] = 128; // A
        }
    }
    rgba_to_brag_inplace_strided(&mut buf, w, h, stride).unwrap();
    // Check first pixel: was [R,G,B,A] = [0,0,255,128], now [B,R,A,G] = [255,0,128,0]
    assert_eq!(buf[0], 255); // B
    assert_eq!(buf[1], 0); // R
    assert_eq!(buf[2], 128); // A
    assert_eq!(buf[3], 0); // G
    // Padding bytes should be untouched
    assert_eq!(buf[w * 4], 0xFF);
}

#[test]
fn strided_copy_bgra_to_brag() {
    let w = 8usize;
    let h = 2usize;
    let src_stride = w * 4 + 4;
    let dst_stride = w * 4;
    let src = vec![42u8; src_stride * h];
    let mut dst = vec![0u8; dst_stride * h];
    bgra_to_brag_strided(&src, &mut dst, w, h, src_stride, dst_stride).unwrap();
    // All source bytes were 42, so after shuffle all dst bytes should be 42
    for &b in &dst {
        assert_eq!(b, 42);
    }
}

// ── Error tests ────────────────────────────────────────────────────

#[test]
fn tests_error_not_aligned() {
    assert_eq!(rgba_to_brag_inplace(&mut [0; 3]), Err(SwizzleError::NotPixelAligned));
    assert_eq!(brag_to_rgba(&[0; 5], &mut [0; 8]), Err(SwizzleError::NotPixelAligned));
}

#[test]
fn tests_error_length_mismatch() {
    assert_eq!(rgba_to_brag(&[0; 8], &mut [0; 4]), Err(SwizzleError::LengthMismatch));
}

#[test]
fn error_invalid_stride() {
    // Stride too small
    assert_eq!(
        rgba_to_brag_inplace_strided(&mut [0; 64], 4, 2, 8),
        Err(SwizzleError::InvalidStride)
    );
}

// ── Further cases ──────────────────────────────────────────────────

#[test]
fn error_empty_buffers() {
    assert_eq!(bgra_to_brag_inplace(&mut []), Err(SwizzleError::NotPixelAligned));
    assert_eq!(brag_to_bgra(&[], &mut [0; 4]), Err(SwizzleError::NotPixelAligned));
}

#[test]
fn failed_conversion_leaves_buffers() {
    let mut buf = [1u8, 2, 3, 4, 5];
    assert!(rgba_to_brag_inplace(&mut buf).is_err());
    assert_eq!(buf, [1, 2, 3, 4, 5]);
    let mut dst = [9u8; 4];
    assert!(rgba_to_brag(&[1, 2, 3, 4, 5, 6, 7, 8], &mut dst).is_err());
    assert_eq!(dst, [9; 4]);
}

#[test]
fn copy_into_longer_destination_is_a_mismatch() {
    let src = [1u8, 2, 3, 4];
    let mut dst = [0u8, 0, 0, 0, 77, 88, 99, 11];
    assert_eq!(rgba_to_brag(&src, &mut dst), Err(SwizzleError::LengthMismatch));
    assert_eq!(dst, [0, 0, 0, 0, 77, 88, 99, 11]);
    let mut exact = [0u8; 4];
    rgba_to_brag(&src, &mut exact).unwrap();
    assert_eq!(exact, [3, 1, 4, 2]);
}

#[test]
fn exact_pixel_values() {
    let mut px = [10u8, 20, 30, 40]; // R G B A
    rgba_to_brag_inplace(&mut px).unwrap();
    assert_eq!(px, [30, 10, 40, 20]); // B R A G
    brag_to_bgra_inplace(&mut px).unwrap();
    assert_eq!(px, [30, 20, 10, 40]); // B G R A
    bgra_to_brag_inplace(&mut px).unwrap();
    assert_eq!(px, [30, 10, 40, 20]);
    brag_to_rgba_inplace(&mut px).unwrap();
    assert_eq!(px, [10, 20, 30, 40]);
}

#[test]
fn strided_errors() {
    // zero width, zero height
    assert_eq!(brag_to_rgba_inplace_strided(&mut [0; 16], 0, 1, 4), Err(SwizzleError::InvalidStride));
    assert_eq!(brag_to_rgba_inplace_strided(&mut [0; 16], 1, 0, 4), Err(SwizzleError::InvalidStride));
    // buffer too small for the height
    assert_eq!(bgra_to_brag_inplace_strided(&mut [0; 15], 1, 2, 12), Err(SwizzleError::InvalidStride));
    // width * 4 overflows
    assert_eq!(
        brag_to_bgra_inplace_strided(&mut [0; 16], usize::MAX / 2, 1, usize::MAX),
        Err(SwizzleError::InvalidStride)
    );
    // destination too small in a copy
    let src = [0u8; 16];
    let mut dst = [0u8; 7];
    assert_eq!(rgba_to_brag_strided(&src, &mut dst, 2, 2, 8, 4), Err(SwizzleError::InvalidStride));
}

#[test]
fn strided_last_row_needs_no_padding() {
    // 2 rows of 1 pixel, stride 6: 6 + 4 = 10 bytes suffice.
    let mut buf = [1u8, 2, 3, 4, 99, 99, 5, 6, 7, 8];
    brag_to_rgba_inplace_strided(&mut buf, 1, 2, 6).unwrap();
    assert_eq!(buf, [2, 4, 1, 3, 99, 99, 6, 8, 5, 7]);
}

#[test]
fn strided_round_trip_and_copy() {
    let w = 3usize;
    let h = 4usize;
    let stride = w * 4 + 5;
    let original: Vec<u8> = (0..stride * h).map(|i| (i * 7 % 256) as u8).collect();
    let mut buf = original.clone();
    brag_to_bgra_inplace_strided(&mut buf, w, h, stride).unwrap();
    bgra_to_brag_inplace_strided(&mut buf, w, h, stride).unwrap();
    assert_eq!(buf, original);

    let mut dst = vec![0xEEu8; w * 4 * h + 3];
    brag_to_rgba_strided(&original, &mut dst, w, h, stride, w * 4).unwrap();
    for y in 0..h {
        let row: Vec<u8> = original[y * stride..y * stride + w * 4].to_vec();
        assert_eq!(&dst[y * w * 4..(y + 1) * w * 4], &ref_brag_to_rgba(&row)[..]);
    }
    assert_eq!(&dst[w * 4 * h..], &[0xEE, 0xEE, 0xEE]);
    let mut back = vec![0u8; stride * h];
    rgba_to_brag_strided(&dst, &mut back, w, h, w * 4, stride).unwrap();
    for y in 0..h {
        assert_eq!(&back[y * stride..y * stride + w * 4], &original[y * stride..y * stride + w * 4]);
        assert!(back[y * stride + w * 4..(y + 1) * stride].iter().all(|&b| b == 0));
    }
    let mut d2 = vec![0u8; stride * h];
    brag_to_bgra_strided(&original, &mut d2, w, h, stride, stride).unwrap();
    let mut expect = original.clone();
    brag_to_bgra_inplace_strided(&mut expect, w, h, stride).unwrap();
    for y in 0..h {
        assert_eq!(&d2[y * stride..y * stride + w * 4], &expect[y * stride..y * stride + w * 4]);
    }
}

#[test]
fn swizzle_error_messages() {
    assert_eq!(SwizzleError::NotPixelAligned.message(), "buffer length not a multiple of 4");
    assert_eq!(SwizzleError::LengthMismatch.message(), "source and destination length mismatch");
    assert_eq!(SwizzleError::InvalidStride.message(), "invalid stride for given dimensions");
}

#[test]
fn unpadded_strided_matches_contiguous() {
    let w = 5usize;
    let h = 3usize;
    let original = make_4bpp(w * h);
    let mut a = original.clone();
    let mut b = original.clone();
    rgba_to_brag_inplace_strided(&mut a, w, h, w * 4).unwrap();
    rgba_to_brag_inplace(&mut b).unwrap();
    assert_eq!(a, b);
}
