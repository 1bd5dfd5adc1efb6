//! Pixel format conversion between BRAG (`[B, R, A, G]`) and the legacy
//! layouts RGBA and BGRA, on raw byte buffers with 4 bytes per pixel.
//! Strided variants handle images whose rows are padded.
use vstd::prelude::*;
use vstd::arithmetic::div_mod::{lemma_fundamental_div_mod, lemma_fundamental_div_mod_converse};
use vstd::arithmetic::mul::lemma_mul_inequality;
use crate::composite::pixel_aligned;

verus! {

/// Error from a swizzle operation.
#[derive(Copy, Clone, Debug, PartialEq, Eq, Structural)]
pub enum SwizzleError {
    /// Buffer length is not a multiple of 4, or is zero.
    NotPixelAligned,
    /// Source and destination pixel counts don't match.
    LengthMismatch,
    /// Stride is too small for the given width, a dimension is zero, or the
    /// buffer is too small for the height.
    InvalidStride,
}

impl SwizzleError {
    /// A human-readable description of the error.
    pub fn message(&self) -> (s: &'static str)
        ensures
            *self == SwizzleError::NotPixelAligned ==> s@ == "buffer length not a multiple of 4"@,
            *self == SwizzleError::LengthMismatch ==> s@ == "source and destination length mismatch"@,
            *self == SwizzleError::InvalidStride ==> s@ == "invalid stride for given dimensions"@,
    {
        match self {
            SwizzleError::NotPixelAligned => "buffer length not a multiple of 4",
            SwizzleError::LengthMismatch => "source and destination length mismatch",
            SwizzleError::InvalidStride => "invalid stride for given dimensions",
        }
    }
}

// ── Channel orders ─────────────────────────────────────────────────
//
// An order lists, for each byte of an output pixel, which byte of the input
// pixel it takes.

/// RGBA to BRAG: `[R, G, B, A]` becomes `[B, R, A, G]`.
pub open spec fn rgba_to_brag_order() -> Seq<int> {
    seq![2, 0, 3, 1]
}

/// BRAG to RGBA: `[B, R, A, G]` becomes `[R, G, B, A]`.
pub open spec fn brag_to_rgba_order() -> Seq<int> {
    seq![1, 3, 0, 2]
}

/// BGRA to BRAG: `[B, G, R, A]` becomes `[B, R, A, G]`.
pub open spec fn bgra_to_brag_order() -> Seq<int> {
    seq![0, 2, 3, 1]
}

/// BRAG to BGRA: `[B, R, A, G]` becomes `[B, G, R, A]`.
pub open spec fn brag_to_bgra_order() -> Seq<int> {
    seq![0, 3, 1, 2]
}

/// A permutation of the four bytes of a pixel.
pub open spec fn is_order(order: Seq<int>) -> bool {
    order.len() == 4 && forall|c: int| 0 <= c < 4 ==> 0 <= #[trigger] order[c] < 4
}

/// Every pixel of `s` with its bytes rearranged by `order`.
pub open spec fn swizzled(s: Seq<u8>, order: Seq<int>) -> Seq<u8> {
    Seq::new(s.len(), |k: int| s[k - k % 4 + order[k % 4]])
}

/// The pixels of `s` in the `len` bytes from `start` rearranged by `order`;
/// the other bytes kept.
pub open spec fn run_swizzled(s: Seq<u8>, start: int, len: int, order: Seq<int>) -> Seq<u8> {
    Seq::new(
        s.len(),
        |k: int|
            if start <= k < start + len {
                s[k - (k - start) % 4 + order[(k - start) % 4]]
            } else {
                s[k]
            },
    )
}

/// `dst` with the `len` bytes from `dst_start` replaced by the pixels of
/// `src` from `src_start`, rearranged by `order`.
pub open spec fn run_copied(
    src: Seq<u8>,
    src_start: int,
    dst: Seq<u8>,
    dst_start: int,
    len: int,
    order: Seq<int>,
) -> Seq<u8> {
    Seq::new(
        dst.len(),
        |k: int|
            if dst_start <= k < dst_start + len {
                src[src_start + (k - dst_start) - (k - dst_start) % 4 + order[(k - dst_start)
                    % 4]]
            } else {
                dst[k]
            },
    )
}

/// Byte `k` lies in one of the first `height` rows of `stride` bytes, within
/// the row's leading `width` pixels.
pub open spec fn in_image(k: int, width: int, height: int, stride: int) -> bool {
    0 <= k && k / stride < height && k % stride < 4 * width
}

/// The pixels of an image of `height` rows of `width` pixels, `stride`
/// bytes apart, rearranged by `order`; the padding bytes kept.
pub open spec fn swizzled_strided(
    s: Seq<u8>,
    width: int,
    height: int,
    stride: int,
    order: Seq<int>,
) -> Seq<u8> {
    Seq::new(
        s.len(),
        |k: int|
            if in_image(k, width, height, stride) {
                s[k - (k % stride) % 4 + order[(k % stride) % 4]]
            } else {
                s[k]
            },
    )
}

/// `dst` with the pixels of a `width` by `height` image rearranged by `order`
/// from `src` (rows `src_stride` bytes apart) into place (rows `dst_stride`
/// bytes apart); the padding bytes of `dst` kept.
pub open spec fn copied_strided(
    src: Seq<u8>,
    dst: Seq<u8>,
    width: int,
    height: int,
    src_stride: int,
    dst_stride: int,
    order: Seq<int>,
) -> Seq<u8> {
    Seq::new(
        dst.len(),
        |k: int|
            if in_image(k, width, height, dst_stride) {
                src[(k / dst_stride) * src_stride + k % dst_stride - (k % dst_stride) % 4
                    + order[(k % dst_stride) % 4]]
            } else {
                dst[k]
            },
    )
}

/// A buffer of `len` bytes holds an image of `height` rows of `width` pixels,
/// `stride` bytes apart (the last row needs no padding).
pub open spec fn strided_ok(len: int, width: int, height: int, stride: int) -> bool {
    &&& width > 0
    &&& height > 0
    &&& 4 * width <= stride
    &&& (height - 1) * stride + 4 * width <= len
}

// ── Validation ─────────────────────────────────────────────────────

#[inline]
fn check_inplace(len: usize) -> (r: Result<(), SwizzleError>)
    ensures
        r is Ok <==> pixel_aligned(len as int),
        r is Err ==> r == Err::<(), SwizzleError>(SwizzleError::NotPixelAligned),
{
    if len == 0 || len % 4 != 0 {
        Err(SwizzleError::NotPixelAligned)
    } else {
        Ok(())
    }
}

#[inline]
fn check_copy(src_len: usize, dst_len: usize) -> (r: Result<(), SwizzleError>)
    ensures
        r is Ok <==> pixel_aligned(src_len as int) && dst_len == src_len,
        !pixel_aligned(src_len as int) ==> r == Err::<(), SwizzleError>(
            SwizzleError::NotPixelAligned,
        ),
        pixel_aligned(src_len as int) && dst_len != src_len ==> r == Err::<(), SwizzleError>(
            SwizzleError::LengthMismatch,
        ),
{
    if src_len == 0 || src_len % 4 != 0 {
        return Err(SwizzleError::NotPixelAligned);
    }
    if dst_len != src_len {
        return Err(SwizzleError::LengthMismatch);
    }
    Ok(())
}

#[inline]
fn check_strided(len: usize, width: usize, height: usize, stride: usize) -> (r: Result<
    (),
    SwizzleError,
>)
    ensures
        r is Ok <==> strided_ok(len as int, width as int, height as int, stride as int),
        r is Err ==> r == Err::<(), SwizzleError>(SwizzleError::InvalidStride),
{
    let row_bytes: usize = match width.checked_mul(4) {
        Some(v) => v,
        None => return Err(SwizzleError::InvalidStride),
    };
    if row_bytes > stride || width == 0 || height == 0 {
        return Err(SwizzleError::InvalidStride);
    }
    let total: usize = match (height - 1).checked_mul(stride) {
        Some(v) => match v.checked_add(row_bytes) {
            Some(t) => t,
            None => return Err(SwizzleError::InvalidStride),
        },
        None => {
            assert((height - 1) * stride + 4 * width > usize::MAX) by (nonlinear_arith)
                requires
                    (height - 1) * stride > usize::MAX,
                    width >= 0,
            ;
            return Err(SwizzleError::InvalidStride);
        },
    };
    if len < total {
        return Err(SwizzleError::InvalidStride);
    }
    Ok(())
}

// ── Runs of pixels ─────────────────────────────────────────────────

/// Rearrange, by the order `[o0, o1, o2, o3]`, the pixels in the `len` bytes
/// of `buf` from `start`.
fn swizzle_run(buf: &mut [u8], start: usize, len: usize, o0: usize, o1: usize, o2: usize, o3: usize)
    requires
        start + len <= old(buf)@.len(),
        len % 4 == 0,
        o0 < 4,
        o1 < 4,
        o2 < 4,
        o3 < 4,
    ensures
        final(buf)@ == run_swizzled(
            old(buf)@,
            start as int,
            len as int,
            seq![o0 as int, o1 as int, o2 as int, o3 as int],
        ),
{
    let ghost order = seq![o0 as int, o1 as int, o2 as int, o3 as int];
    let ghost orig = buf@;
    let total: usize = buf.len();
    let mut i: usize = 0;
    while i < len
        invariant
            buf@.len() == orig.len(),
            orig.len() == total,
            start + len <= orig.len(),
            len % 4 == 0,
            i % 4 == 0,
            i <= len,
            o0 < 4,
            o1 < 4,
            o2 < 4,
            o3 < 4,
            order == seq![o0 as int, o1 as int, o2 as int, o3 as int],
            forall|k: int|
                0 <= k < orig.len() && !(start + i <= k < start + len) ==> buf@[k]
                    == #[trigger] run_swizzled(orig, start as int, len as int, order)[k],
            forall|k: int| start + i <= k < start + len ==> buf@[k] == #[trigger] orig[k],
        decreases len - i,
    {
        let p: usize = start + i;
        let px: [u8; 4] = [buf[p], buf[p + 1], buf[p + 2], buf[p + 3]];
        buf[p] = px[o0];
        buf[p + 1] = px[o1];
        buf[p + 2] = px[o2];
        buf[p + 3] = px[o3];
        proof {
            assert forall|k: int|
                0 <= k < orig.len() && !(start + i + 4 <= k < start + len) implies buf@[k]
                == #[trigger] run_swizzled(orig, start as int, len as int, order)[k] by {
                if p <= k < p + 4 {
                    assert((k - start) % 4 == k - p);
                }
            }
        }
        i += 4;
    }
    assert(buf@ =~= run_swizzled(orig, start as int, len as int, order));
}

/// Copy, rearranged by the order `[o0, o1, o2, o3]`, the pixels in the `len`
/// bytes of `src` from `src_start` into `dst` from `dst_start`.
fn swizzle_run_copy(
    src: &[u8],
    src_start: usize,
    dst: &mut [u8],
    dst_start: usize,
    len: usize,
    o0: usize,
    o1: usize,
    o2: usize,
    o3: usize,
)
    requires
        src_start + len <= src@.len(),
        dst_start + len <= old(dst)@.len(),
        len % 4 == 0,
        o0 < 4,
        o1 < 4,
        o2 < 4,
        o3 < 4,
    ensures
        final(dst)@ == run_copied(
            src@,
            src_start as int,
            old(dst)@,
            dst_start as int,
            len as int,
            seq![o0 as int, o1 as int, o2 as int, o3 as int],
        ),
{
    let ghost order = seq![o0 as int, o1 as int, o2 as int, o3 as int];
    let ghost orig = dst@;
    let dst_total: usize = dst.len();
    let src_total: usize = src.len();
    let mut i: usize = 0;
    while i < len
        invariant
            dst@.len() == orig.len(),
            orig.len() == dst_total,
            src@.len() == src_total,
            src_start + len <= src@.len(),
            dst_start + len <= orig.len(),
            len % 4 == 0,
            i % 4 == 0,
            i <= len,
            o0 < 4,
            o1 < 4,
            o2 < 4,
            o3 < 4,
            order == seq![o0 as int, o1 as int, o2 as int, o3 as int],
            forall|k: int|
                0 <= k < orig.len() && !(dst_start + i <= k < dst_start + len) ==> dst@[k]
                    == #[trigger] run_copied(
                    src@,
                    src_start as int,
                    orig,
                    dst_start as int,
                    len as int,
                    order,
                )[k],
            forall|k: int| dst_start + i <= k < dst_start + len ==> dst@[k] == #[trigger] orig[k],
        decreases len - i,
    {
        let s: usize = src_start + i;
        let d: usize = dst_start + i;
        let px: [u8; 4] = [src[s], src[s + 1], src[s + 2], src[s + 3]];
        dst[d] = px[o0];
        dst[d + 1] = px[o1];
        dst[d + 2] = px[o2];
        dst[d + 3] = px[o3];
        proof {
            assert forall|k: int|
                0 <= k < orig.len() && !(dst_start + i + 4 <= k < dst_start + len) implies dst@[k]
                == #[trigger] run_copied(
                src@,
                src_start as int,
                orig,
                dst_start as int,
                len as int,
                order,
            )[k] by {
                if d <= k < d + 4 {
                    assert((k - dst_start) % 4 == k - d);
                }
            }
        }
        i += 4;
    }
    assert(dst@ =~= run_copied(src@, src_start as int, orig, dst_start as int, len as int, order));
}

// ── Strided images ────────────────────────────────────────────────

/// Byte `k` of row `y` sits at column `k - y * stride`.
proof fn lemma_row_of(k: int, y: int, stride: int)
    requires
        stride > 0,
        y >= 0,
        y * stride <= k < y * stride + stride,
    ensures
        k / stride == y,
        k % stride == k - y * stride,
{
    lemma_fundamental_div_mod_converse(k, stride, y, k - y * stride);
}

/// Byte `k` is in row `y` of the image exactly when it is in the leading
/// `4 * width` bytes from `y * stride`.
proof fn lemma_in_row(k: int, width: int, y: int, stride: int)
    requires
        stride > 0,
        y >= 0,
        0 <= k,
        4 * width <= stride,
    ensures
        (k / stride == y && k % stride < 4 * width) <==> (y * stride <= k < y * stride + 4
            * width),
{
    if y * stride <= k < y * stride + 4 * width {
        lemma_row_of(k, y, stride);
    }
    if k / stride == y && k % stride < 4 * width {
        lemma_fundamental_div_mod(k, stride);
        assert(k == stride * y + k % stride);
        assert(stride * y == y * stride) by (nonlinear_arith);
    }
}

/// Rearranging row `y` of an image whose first `y` rows are done gives the
/// image with its first `y + 1` rows done.
proof fn lemma_strided_step(s: Seq<u8>, width: int, y: int, stride: int, order: Seq<int>)
    requires
        is_order(order),
        width > 0,
        4 * width <= stride,
        y >= 0,
        y * stride + 4 * width <= s.len(),
    ensures
        run_swizzled(swizzled_strided(s, width, y, stride, order), y * stride, 4 * width, order)
            == swizzled_strided(s, width, y + 1, stride, order),
{
    let prev = swizzled_strided(s, width, y, stride, order);
    let next = swizzled_strided(s, width, y + 1, stride, order);
    let lhs = run_swizzled(prev, y * stride, 4 * width, order);
    assert forall|k: int| 0 <= k < s.len() implies #[trigger] lhs[k] == next[k] by {
        lemma_in_row(k, width, y, stride);
        if y * stride <= k < y * stride + 4 * width {
            lemma_row_of(k, y, stride);
            let off = k - y * stride;
            let j = k - off % 4 + order[off % 4];
            assert(0 <= order[off % 4] < 4);
            assert(y * stride <= j < y * stride + 4 * width);
            lemma_row_of(j, y, stride);
            assert(!in_image(j, width, y, stride));
            assert(prev[j] == s[j]);
        } else {
            assert(in_image(k, width, y, stride) == in_image(k, width, y + 1, stride));
        }
    }
    assert(lhs =~= next);
}

/// Copying row `y` of an image whose first `y` rows are done gives the image
/// with its first `y + 1` rows done.
proof fn lemma_copy_strided_step(
    src: Seq<u8>,
    dst: Seq<u8>,
    width: int,
    y: int,
    src_stride: int,
    dst_stride: int,
    order: Seq<int>,
)
    requires
        is_order(order),
        width > 0,
        4 * width <= src_stride,
        4 * width <= dst_stride,
        y >= 0,
        y * src_stride + 4 * width <= src.len(),
        y * dst_stride + 4 * width <= dst.len(),
    ensures
        run_copied(
            src,
            y * src_stride,
            copied_strided(src, dst, width, y, src_stride, dst_stride, order),
            y * dst_stride,
            4 * width,
            order,
        ) == copied_strided(src, dst, width, y + 1, src_stride, dst_stride, order),
{
    let prev = copied_strided(src, dst, width, y, src_stride, dst_stride, order);
    let next = copied_strided(src, dst, width, y + 1, src_stride, dst_stride, order);
    let lhs = run_copied(src, y * src_stride, prev, y * dst_stride, 4 * width, order);
    assert forall|k: int| 0 <= k < dst.len() implies #[trigger] lhs[k] == next[k] by {
        lemma_in_row(k, width, y, dst_stride);
        if y * dst_stride <= k < y * dst_stride + 4 * width {
            lemma_row_of(k, y, dst_stride);
        } else {
            assert(in_image(k, width, y, dst_stride) == in_image(k, width, y + 1, dst_stride));
        }
    }
    assert(lhs =~= next);
}

/// An image with no rows done is the buffer itself.
proof fn lemma_strided_empty(s: Seq<u8>, dst: Seq<u8>, width: int, stride: int, ss: int, order: Seq<int>)
    requires
        stride > 0,
    ensures
        swizzled_strided(s, width, 0, stride, order) == s,
        copied_strided(s, dst, width, 0, ss, stride, order) == dst,
{
    assert forall|k: int| 0 <= k implies #[trigger] (k / stride) >= 0 by {
        vstd::arithmetic::div_mod::lemma_div_pos_is_pos(k, stride);
    }
    assert(swizzled_strided(s, width, 0, stride, order) =~= s);
    assert(copied_strided(s, dst, width, 0, ss, stride, order) =~= dst);
}

/// Row `y < height` of a valid image starts at `y * stride`, and its pixels
/// end within the buffer.
proof fn lemma_row_fits(len: int, width: int, height: int, stride: int, y: int)
    requires
        strided_ok(len, width, height, stride),
        0 <= y < height,
    ensures
        y * stride + 4 * width <= len,
        y * stride >= 0,
{
    lemma_mul_inequality(y, height - 1, stride);
    assert(y * stride >= 0) by (nonlinear_arith)
        requires
            y >= 0,
            stride >= 0,
    ;
}

fn swizzle_strided_inplace(
    buf: &mut [u8],
    width: usize,
    height: usize,
    stride: usize,
    o0: usize,
    o1: usize,
    o2: usize,
    o3: usize,
) -> (r: Result<(), SwizzleError>)
    requires
        o0 < 4,
        o1 < 4,
        o2 < 4,
        o3 < 4,
    ensures
        r is Ok <==> strided_ok(old(buf)@.len() as int, width as int, height as int, stride as int),
        r is Ok ==> final(buf)@ == swizzled_strided(
            old(buf)@,
            width as int,
            height as int,
            stride as int,
            seq![o0 as int, o1 as int, o2 as int, o3 as int],
        ),
        r is Err ==> r == Err::<(), SwizzleError>(SwizzleError::InvalidStride) && final(buf)@
            == old(buf)@,
{
    check_strided(buf.len(), width, height, stride)?;
    let ghost order = seq![o0 as int, o1 as int, o2 as int, o3 as int];
    let ghost orig = buf@;
    let total: usize = buf.len();
    let row: usize = width * 4;
    proof {
        lemma_strided_empty(orig, orig, width as int, stride as int, 0, order);
    }
    let mut y: usize = 0;
    while y < height
        invariant
            strided_ok(orig.len() as int, width as int, height as int, stride as int),
            buf@.len() == orig.len(),
            orig.len() == total,
            row == 4 * width,
            y <= height,
            is_order(order),
            o0 < 4,
            o1 < 4,
            o2 < 4,
            o3 < 4,
            order == seq![o0 as int, o1 as int, o2 as int, o3 as int],
            buf@ == swizzled_strided(orig, width as int, y as int, stride as int, order),
        decreases height - y,
    {
        proof {
            lemma_row_fits(orig.len() as int, width as int, height as int, stride as int, y as int);
        }
        let start: usize = y * stride;
        swizzle_run(buf, start, row, o0, o1, o2, o3);
        proof {
            lemma_strided_step(orig, width as int, y as int, stride as int, order);
        }
        y += 1;
    }
    Ok(())
}

fn swizzle_strided_copy(
    src: &[u8],
    dst: &mut [u8],
    width: usize,
    height: usize,
    src_stride: usize,
    dst_stride: usize,
    o0: usize,
    o1: usize,
    o2: usize,
    o3: usize,
) -> (r: Result<(), SwizzleError>)
    requires
        o0 < 4,
        o1 < 4,
        o2 < 4,
        o3 < 4,
    ensures
        r is Ok <==> strided_ok(src@.len() as int, width as int, height as int, src_stride as int)
            && strided_ok(old(dst)@.len() as int, width as int, height as int, dst_stride as int),
        r is Ok ==> final(dst)@ == copied_strided(
            src@,
            old(dst)@,
            width as int,
            height as int,
            src_stride as int,
            dst_stride as int,
            seq![o0 as int, o1 as int, o2 as int, o3 as int],
        ),
        r is Err ==> r == Err::<(), SwizzleError>(SwizzleError::InvalidStride) && final(dst)@
            == old(dst)@,
{
    check_strided(src.len(), width, height, src_stride)?;
    check_strided(dst.len(), width, height, dst_stride)?;
    let ghost order = seq![o0 as int, o1 as int, o2 as int, o3 as int];
    let ghost orig = dst@;
    let dst_total: usize = dst.len();
    let src_total: usize = src.len();
    let row: usize = width * 4;
    proof {
        lemma_strided_empty(src@, orig, width as int, dst_stride as int, src_stride as int, order);
    }
    let mut y: usize = 0;
    while y < height
        invariant
            strided_ok(src@.len() as int, width as int, height as int, src_stride as int),
            strided_ok(orig.len() as int, width as int, height as int, dst_stride as int),
            dst@.len() == orig.len(),
            orig.len() == dst_total,
            src@.len() == src_total,
            row == 4 * width,
            y <= height,
            is_order(order),
            o0 < 4,
            o1 < 4,
            o2 < 4,
            o3 < 4,
            order == seq![o0 as int, o1 as int, o2 as int, o3 as int],
            dst@ == copied_strided(
                src@,
                orig,
                width as int,
                y as int,
                src_stride as int,
                dst_stride as int,
                order,
            ),
        decreases height - y,
    {
        proof {
            lemma_row_fits(src@.len() as int, width as int, height as int, src_stride as int, y as int);
            lemma_row_fits(orig.len() as int, width as int, height as int, dst_stride as int, y as int);
        }
        let s_start: usize = y * src_stride;
        let d_start: usize = y * dst_stride;
        swizzle_run_copy(src, s_start, dst, d_start, row, o0, o1, o2, o3);
        proof {
            lemma_copy_strided_step(
                src@,
                orig,
                width as int,
                y as int,
                src_stride as int,
                dst_stride as int,
                order,
            );
        }
        y += 1;
    }
    Ok(())
}

// ── Laws ───────────────────────────────────────────────────────────

/// Two orders that undo each other: applying `p`, then `q`, puts every byte
/// back.
pub open spec fn undoes(q: Seq<int>, p: Seq<int>) -> bool {
    forall|c: int| 0 <= c < 4 ==> p[#[trigger] q[c]] == c
}

/// BRAG→RGBA undoes RGBA→BRAG and the other way round; likewise for BGRA.
pub proof fn lemma_orders_undo()
    ensures
        undoes(brag_to_rgba_order(), rgba_to_brag_order()),
        undoes(rgba_to_brag_order(), brag_to_rgba_order()),
        undoes(brag_to_bgra_order(), bgra_to_brag_order()),
        undoes(bgra_to_brag_order(), brag_to_bgra_order()),
        is_order(rgba_to_brag_order()),
        is_order(brag_to_rgba_order()),
        is_order(bgra_to_brag_order()),
        is_order(brag_to_bgra_order()),
{
}

/// Rearranging a buffer of whole pixels by `p` and then by an order `q` that
/// undoes it gives the buffer back.
pub proof fn lemma_swizzle_round_trip(s: Seq<u8>, p: Seq<int>, q: Seq<int>)
    requires
        s.len() % 4 == 0,
        is_order(p),
        is_order(q),
        undoes(q, p),
    ensures
        swizzled(swizzled(s, p), q) == s,
{
    let t = swizzled(s, p);
    assert forall|k: int| 0 <= k < s.len() implies #[trigger] swizzled(t, q)[k] == s[k] by {
        let j = k - k % 4 + q[k % 4];
        assert(0 <= q[k % 4] < 4);
        assert(j % 4 == q[k % 4]);
        assert(j - j % 4 == k - k % 4);
        assert(p[q[k % 4]] == k % 4);
    }
    assert(swizzled(t, q) =~= s);
}

/// RGBA→BRAG→RGBA and BGRA→BRAG→BGRA give every buffer of whole pixels back,
/// and so do BRAG→RGBA→BRAG and BRAG→BGRA→BRAG.
pub proof fn lemma_conversions_round_trip(s: Seq<u8>)
    requires
        s.len() % 4 == 0,
    ensures
        swizzled(swizzled(s, rgba_to_brag_order()), brag_to_rgba_order()) == s,
        swizzled(swizzled(s, brag_to_rgba_order()), rgba_to_brag_order()) == s,
        swizzled(swizzled(s, bgra_to_brag_order()), brag_to_bgra_order()) == s,
        swizzled(swizzled(s, brag_to_bgra_order()), bgra_to_brag_order()) == s,
{
    lemma_orders_undo();
    lemma_swizzle_round_trip(s, rgba_to_brag_order(), brag_to_rgba_order());
    lemma_swizzle_round_trip(s, brag_to_rgba_order(), rgba_to_brag_order());
    lemma_swizzle_round_trip(s, bgra_to_brag_order(), brag_to_bgra_order());
    lemma_swizzle_round_trip(s, brag_to_bgra_order(), bgra_to_brag_order());
}

/// The same round trip on a strided image: the pixels come back and the
/// padding is never touched.
pub proof fn lemma_strided_round_trip(
    s: Seq<u8>,
    width: int,
    height: int,
    stride: int,
    p: Seq<int>,
    q: Seq<int>,
)
    requires
        strided_ok(s.len() as int, width, height, stride),
        is_order(p),
        is_order(q),
        undoes(q, p),
    ensures
        swizzled_strided(swizzled_strided(s, width, height, stride, p), width, height, stride, q)
            == s,
{
    let t = swizzled_strided(s, width, height, stride, p);
    assert forall|k: int| 0 <= k < s.len() implies #[trigger] swizzled_strided(
        t,
        width,
        height,
        stride,
        q,
    )[k] == s[k] by {
        if in_image(k, width, height, stride) {
            let y = k / stride;
            let off = k % stride;
            lemma_fundamental_div_mod(k, stride);
            vstd::arithmetic::div_mod::lemma_div_pos_is_pos(k, stride);
            assert(k == stride * y + off);
            assert(stride * y == y * stride) by (nonlinear_arith);
            let c = off % 4;
            assert(0 <= q[c] < 4);
            let j = k - c + q[c];
            assert(0 <= off < stride);
            assert(off - c + q[c] < 4 * width) by {
                assert(off < 4 * width);
                assert((off - c) % 4 == 0);
            }
            lemma_row_of(j, y, stride);
            assert(j % stride == off - c + q[c]);
            assert((off - c + q[c]) % 4 == q[c]);
            assert(in_image(j, width, height, stride));
            assert(p[q[c]] == c);
            lemma_row_fits(s.len() as int, width, height, stride, y);
            assert(0 <= j < s.len());
            assert(t[j] == s[j - q[c] + c]);
        }
    }
    assert(swizzled_strided(t, width, height, stride, q) =~= s);
}

/// An image whose rows have no padding (stride of exactly `4 * width`) and
/// which fills its buffer converts exactly as the contiguous buffer does.
pub proof fn lemma_unpadded_strided_is_contiguous(
    s: Seq<u8>,
    width: int,
    height: int,
    order: Seq<int>,
)
    requires
        width > 0,
        height > 0,
        s.len() == 4 * width * height,
    ensures
        swizzled_strided(s, width, height, 4 * width, order) == swizzled(s, order),
{
    let stride = 4 * width;
    assert forall|k: int| 0 <= k < s.len() implies #[trigger] swizzled_strided(
        s,
        width,
        height,
        stride,
        order,
    )[k] == swizzled(s, order)[k] by {
        vstd::arithmetic::div_mod::lemma_mod_pos_bound(k, stride);
        vstd::arithmetic::div_mod::lemma_mod_mod(k, 4, width);
        assert(k / stride < height) by {
            vstd::arithmetic::div_mod::lemma_div_is_ordered(k, stride * height - 1, stride);
            assert(stride * height == s.len()) by (nonlinear_arith)
                requires
                    stride == 4 * width,
                    s.len() == 4 * width * height,
            ;
            assert(stride * height - 1 == (height - 1) * stride + (stride - 1)) by (nonlinear_arith);
            vstd::arithmetic::div_mod::lemma_fundamental_div_mod_converse(
                stride * height - 1,
                stride,
                height - 1,
                stride - 1,
            );
        }
        assert(in_image(k, width, height, stride));
    }
    assert(swizzled_strided(s, width, height, stride, order) =~= swizzled(s, order));
}

// ── Whole buffers ─────────────────────────────────────────────────

/// Rearrange every pixel of `buf` by the order `[o0, o1, o2, o3]`.
pub(crate) fn swizzle_all(buf: &mut [u8], o0: usize, o1: usize, o2: usize, o3: usize)
    requires
        old(buf)@.len() % 4 == 0,
        o0 < 4,
        o1 < 4,
        o2 < 4,
        o3 < 4,
    ensures
        final(buf)@ == swizzled(old(buf)@, seq![o0 as int, o1 as int, o2 as int, o3 as int]),
{
    let ghost orig = buf@;
    let n: usize = buf.len();
    swizzle_run(buf, 0, n, o0, o1, o2, o3);
    assert(buf@ =~= swizzled(orig, seq![o0 as int, o1 as int, o2 as int, o3 as int]));
}

/// Copy the pixels of `src`, rearranged by the order `[o0, o1, o2, o3]`,
/// into the leading `src.len()` bytes of `dst`.
pub(crate) fn swizzle_copy_into(
    src: &[u8],
    dst: &mut [u8],
    o0: usize,
    o1: usize,
    o2: usize,
    o3: usize,
)
    requires
        src@.len() % 4 == 0,
        src@.len() <= old(dst)@.len(),
        o0 < 4,
        o1 < 4,
        o2 < 4,
        o3 < 4,
    ensures
        final(dst)@ == swizzled(src@, seq![o0 as int, o1 as int, o2 as int, o3 as int]) + old(
            dst,
        )@.skip(src@.len() as int),
{
    let ghost orig = dst@;
    let n: usize = src.len();
    swizzle_run_copy(src, 0, dst, 0, n, o0, o1, o2, o3);
    assert(dst@ =~= swizzled(src@, seq![o0 as int, o1 as int, o2 as int, o3 as int]) + orig.skip(
        n as int,
    ));
}

fn swizzle_inplace(buf: &mut [u8], o0: usize, o1: usize, o2: usize, o3: usize) -> (r: Result<
    (),
    SwizzleError,
>)
    requires
        o0 < 4,
        o1 < 4,
        o2 < 4,
        o3 < 4,
    ensures
        r is Ok <==> pixel_aligned(old(buf)@.len() as int),
        r is Ok ==> final(buf)@ == swizzled(
            old(buf)@,
            seq![o0 as int, o1 as int, o2 as int, o3 as int],
        ),
        r is Err ==> r == Err::<(), SwizzleError>(SwizzleError::NotPixelAligned) && final(buf)@
            == old(buf)@,
{
    check_inplace(buf.len())?;
    swizzle_all(buf, o0, o1, o2, o3);
    Ok(())
}

fn swizzle_copy(src: &[u8], dst: &mut [u8], o0: usize, o1: usize, o2: usize, o3: usize) -> (r:
    Result<(), SwizzleError>)
    requires
        o0 < 4,
        o1 < 4,
        o2 < 4,
        o3 < 4,
    ensures
        r is Ok <==> pixel_aligned(src@.len() as int) && old(dst)@.len() == src@.len(),
        r is Ok ==> final(dst)@ == swizzled(src@, seq![o0 as int, o1 as int, o2 as int, o3 as int]),
        !pixel_aligned(src@.len() as int) ==> r == Err::<(), SwizzleError>(
            SwizzleError::NotPixelAligned,
        ),
        pixel_aligned(src@.len() as int) && old(dst)@.len() != src@.len() ==> r == Err::<
            (),
            SwizzleError,
        >(SwizzleError::LengthMismatch),
        r is Err ==> final(dst)@ == old(dst)@,
{
    check_copy(src.len(), dst.len())?;
    swizzle_copy_into(src, dst, o0, o1, o2, o3);
    assert(dst@ =~= swizzled(src@, seq![o0 as int, o1 as int, o2 as int, o3 as int]));
    Ok(())
}

/// Convert RGBA pixels to BRAG: `[R,G,B,A]` → `[B,R,A,G]`, in place.
pub fn rgba_to_brag_inplace(buf: &mut [u8]) -> (r: Result<(), SwizzleError>)
    ensures
        r is Ok <==> pixel_aligned(old(buf)@.len() as int),
        r is Ok ==> final(buf)@ == swizzled(old(buf)@, rgba_to_brag_order()),
        r is Err ==> r == Err::<(), SwizzleError>(SwizzleError::NotPixelAligned) && final(buf)@
            == old(buf)@,
{
    swizzle_inplace(buf, 2, 0, 3, 1)
}

/// Copy RGBA pixels to BRAG: `[R,G,B,A]` → `[B,R,A,G]`, into `dst`, which must hold as many
/// pixels as `src`.
pub fn rgba_to_brag(src: &[u8], dst: &mut [u8]) -> (r: Result<(), SwizzleError>)
    ensures
        r is Ok <==> pixel_aligned(src@.len() as int) && old(dst)@.len() == src@.len(),
        r is Ok ==> final(dst)@ == swizzled(src@, rgba_to_brag_order()),
        !pixel_aligned(src@.len() as int) ==> r == Err::<(), SwizzleError>(
            SwizzleError::NotPixelAligned,
        ),
        pixel_aligned(src@.len() as int) && old(dst)@.len() != src@.len() ==> r == Err::<
            (),
            SwizzleError,
        >(SwizzleError::LengthMismatch),
        r is Err ==> final(dst)@ == old(dst)@,
{
    swizzle_copy(src, dst, 2, 0, 3, 1)
}

/// Convert BRAG pixels to RGBA: `[B,R,A,G]` → `[R,G,B,A]`, in place.
pub fn brag_to_rgba_inplace(buf: &mut [u8]) -> (r: Result<(), SwizzleError>)
    ensures
        r is Ok <==> pixel_aligned(old(buf)@.len() as int),
        r is Ok ==> final(buf)@ == swizzled(old(buf)@, brag_to_rgba_order()),
        r is Err ==> r == Err::<(), SwizzleError>(SwizzleError::NotPixelAligned) && final(buf)@
            == old(buf)@,
{
    swizzle_inplace(buf, 1, 3, 0, 2)
}

/// Copy BRAG pixels to RGBA: `[B,R,A,G]` → `[R,G,B,A]`, into `dst`, which must hold as many
/// pixels as `src`.
pub fn brag_to_rgba(src: &[u8], dst: &mut [u8]) -> (r: Result<(), SwizzleError>)
    ensures
        r is Ok <==> pixel_aligned(src@.len() as int) && old(dst)@.len() == src@.len(),
        r is Ok ==> final(dst)@ == swizzled(src@, brag_to_rgba_order()),
        !pixel_aligned(src@.len() as int) ==> r == Err::<(), SwizzleError>(
            SwizzleError::NotPixelAligned,
        ),
        pixel_aligned(src@.len() as int) && old(dst)@.len() != src@.len() ==> r == Err::<
            (),
            SwizzleError,
        >(SwizzleError::LengthMismatch),
        r is Err ==> final(dst)@ == old(dst)@,
{
    swizzle_copy(src, dst, 1, 3, 0, 2)
}

/// Convert BGRA pixels to BRAG: `[B,G,R,A]` → `[B,R,A,G]`, in place.
pub fn bgra_to_brag_inplace(buf: &mut [u8]) -> (r: Result<(), SwizzleError>)
    ensures
        r is Ok <==> pixel_aligned(old(buf)@.len() as int),
        r is Ok ==> final(buf)@ == swizzled(old(buf)@, bgra_to_brag_order()),
        r is Err ==> r == Err::<(), SwizzleError>(SwizzleError::NotPixelAligned) && final(buf)@
            == old(buf)@,
{
    swizzle_inplace(buf, 0, 2, 3, 1)
}

/// Copy BGRA pixels to BRAG: `[B,G,R,A]` → `[B,R,A,G]`, into `dst`, which must hold as many
/// pixels as `src`.
pub fn bgra_to_brag(src: &[u8], dst: &mut [u8]) -> (r: Result<(), SwizzleError>)
    ensures
        r is Ok <==> pixel_aligned(src@.len() as int) && old(dst)@.len() == src@.len(),
        r is Ok ==> final(dst)@ == swizzled(src@, bgra_to_brag_order()),
        !pixel_aligned(src@.len() as int) ==> r == Err::<(), SwizzleError>(
            SwizzleError::NotPixelAligned,
        ),
        pixel_aligned(src@.len() as int) && old(dst)@.len() != src@.len() ==> r == Err::<
            (),
            SwizzleError,
        >(SwizzleError::LengthMismatch),
        r is Err ==> final(dst)@ == old(dst)@,
{
    swizzle_copy(src, dst, 0, 2, 3, 1)
}

/// Convert BRAG pixels to BGRA: `[B,R,A,G]` → `[B,G,R,A]`, in place.
pub fn brag_to_bgra_inplace(buf: &mut [u8]) -> (r: Result<(), SwizzleError>)
    ensures
        r is Ok <==> pixel_aligned(old(buf)@.len() as int),
        r is Ok ==> final(buf)@ == swizzled(old(buf)@, brag_to_bgra_order()),
        r is Err ==> r == Err::<(), SwizzleError>(SwizzleError::NotPixelAligned) && final(buf)@
            == old(buf)@,
{
    swizzle_inplace(buf, 0, 3, 1, 2)
}

/// Copy BRAG pixels to BGRA: `[B,R,A,G]` → `[B,G,R,A]`, into `dst`, which must hold as many
/// pixels as `src`.
pub fn brag_to_bgra(src: &[u8], dst: &mut [u8]) -> (r: Result<(), SwizzleError>)
    ensures
        r is Ok <==> pixel_aligned(src@.len() as int) && old(dst)@.len() == src@.len(),
        r is Ok ==> final(dst)@ == swizzled(src@, brag_to_bgra_order()),
        !pixel_aligned(src@.len() as int) ==> r == Err::<(), SwizzleError>(
            SwizzleError::NotPixelAligned,
        ),
        pixel_aligned(src@.len() as int) && old(dst)@.len() != src@.len() ==> r == Err::<
            (),
            SwizzleError,
        >(SwizzleError::LengthMismatch),
        r is Err ==> final(dst)@ == old(dst)@,
{
    swizzle_copy(src, dst, 0, 3, 1, 2)
}

/// Convert RGBA→BRAG in place, for an image of `height` rows of `width`
/// pixels whose rows start `stride` bytes apart.  Row padding is untouched.
pub fn rgba_to_brag_inplace_strided(buf: &mut [u8], width: usize, height: usize, stride: usize) -> (r:
    Result<(), SwizzleError>)
    ensures
        r is Ok <==> strided_ok(old(buf)@.len() as int, width as int, height as int, stride as int),
        r is Ok ==> final(buf)@ == swizzled_strided(
            old(buf)@,
            width as int,
            height as int,
            stride as int,
            rgba_to_brag_order(),
        ),
        r is Err ==> r == Err::<(), SwizzleError>(SwizzleError::InvalidStride) && final(buf)@
            == old(buf)@,
{
    swizzle_strided_inplace(buf, width, height, stride, 2, 0, 3, 1)
}

/// Copy RGBA→BRAG for an image of `height` rows of `width` pixels, whose rows
/// start `src_stride` bytes apart in `src` and `dst_stride` bytes apart in
/// `dst`.  The padding bytes of `dst` are untouched.
pub fn rgba_to_brag_strided(
    src: &[u8],
    dst: &mut [u8],
    width: usize,
    height: usize,
    src_stride: usize,
    dst_stride: usize,
) -> (r: Result<(), SwizzleError>)
    ensures
        r is Ok <==> strided_ok(src@.len() as int, width as int, height as int, src_stride as int)
            && strided_ok(old(dst)@.len() as int, width as int, height as int, dst_stride as int),
        r is Ok ==> final(dst)@ == copied_strided(
            src@,
            old(dst)@,
            width as int,
            height as int,
            src_stride as int,
            dst_stride as int,
            rgba_to_brag_order(),
        ),
        r is Err ==> r == Err::<(), SwizzleError>(SwizzleError::InvalidStride) && final(dst)@
            == old(dst)@,
{
    swizzle_strided_copy(src, dst, width, height, src_stride, dst_stride, 2, 0, 3, 1)
}

/// Convert BRAG→RGBA in place, for an image of `height` rows of `width`
/// pixels whose rows start `stride` bytes apart.  Row padding is untouched.
pub fn brag_to_rgba_inplace_strided(buf: &mut [u8], width: usize, height: usize, stride: usize) -> (r:
    Result<(), SwizzleError>)
    ensures
        r is Ok <==> strided_ok(old(buf)@.len() as int, width as int, height as int, stride as int),
        r is Ok ==> final(buf)@ == swizzled_strided(
            old(buf)@,
            width as int,
            height as int,
            stride as int,
            brag_to_rgba_order(),
        ),
        r is Err ==> r == Err::<(), SwizzleError>(SwizzleError::InvalidStride) && final(buf)@
            == old(buf)@,
{
    swizzle_strided_inplace(buf, width, height, stride, 1, 3, 0, 2)
}

/// Copy BRAG→RGBA for an image of `height` rows of `width` pixels, whose rows
/// start `src_stride` bytes apart in `src` and `dst_stride` bytes apart in
/// `dst`.  The padding bytes of `dst` are untouched.
pub fn brag_to_rgba_strided(
    src: &[u8],
    dst: &mut [u8],
    width: usize,
    height: usize,
    src_stride: usize,
    dst_stride: usize,
) -> (r: Result<(), SwizzleError>)
    ensures
        r is Ok <==> strided_ok(src@.len() as int, width as int, height as int, src_stride as int)
            && strided_ok(old(dst)@.len() as int, width as int, height as int, dst_stride as int),
        r is Ok ==> final(dst)@ == copied_strided(
            src@,
            old(dst)@,
            width as int,
            height as int,
            src_stride as int,
            dst_stride as int,
            brag_to_rgba_order(),
        ),
        r is Err ==> r == Err::<(), SwizzleError>(SwizzleError::InvalidStride) && final(dst)@
            == old(dst)@,
{
    swizzle_strided_copy(src, dst, width, height, src_stride, dst_stride, 1, 3, 0, 2)
}

/// Convert BGRA→BRAG in place, for an image of `height` rows of `width`
/// pixels whose rows start `stride` bytes apart.  Row padding is untouched.
pub fn bgra_to_brag_inplace_strided(buf: &mut [u8], width: usize, height: usize, stride: usize) -> (r:
    Result<(), SwizzleError>)
    ensures
        r is Ok <==> strided_ok(old(buf)@.len() as int, width as int, height as int, stride as int),
        r is Ok ==> final(buf)@ == swizzled_strided(
            old(buf)@,
            width as int,
            height as int,
            stride as int,
            bgra_to_brag_order(),
        ),
        r is Err ==> r == Err::<(), SwizzleError>(SwizzleError::InvalidStride) && final(buf)@
            == old(buf)@,
{
    swizzle_strided_inplace(buf, width, height, stride, 0, 2, 3, 1)
}

/// Copy BGRA→BRAG for an image of `height` rows of `width` pixels, whose rows
/// start `src_stride` bytes apart in `src` and `dst_stride` bytes apart in
/// `dst`.  The padding bytes of `dst` are untouched.
pub fn bgra_to_brag_strided(
    src: &[u8],
    dst: &mut [u8],
    width: usize,
    height: usize,
    src_stride: usize,
    dst_stride: usize,
) -> (r: Result<(), SwizzleError>)
    ensures
        r is Ok <==> strided_ok(src@.len() as int, width as int, height as int, src_stride as int)
            && strided_ok(old(dst)@.len() as int, width as int, height as int, dst_stride as int),
        r is Ok ==> final(dst)@ == copied_strided(
            src@,
            old(dst)@,
            width as int,
            height as int,
            src_stride as int,
            dst_stride as int,
            bgra_to_brag_order(),
        ),
        r is Err ==> r == Err::<(), SwizzleError>(SwizzleError::InvalidStride) && final(dst)@
            == old(dst)@,
{
    swizzle_strided_copy(src, dst, width, height, src_stride, dst_stride, 0, 2, 3, 1)
}

/// Convert BRAG→BGRA in place, for an image of `height` rows of `width`
/// pixels whose rows start `stride` bytes apart.  Row padding is untouched.
pub fn brag_to_bgra_inplace_strided(buf: &mut [u8], width: usize, height: usize, stride: usize) -> (r:
    Result<(), SwizzleError>)
    ensures
        r is Ok <==> strided_ok(old(buf)@.len() as int, width as int, height as int, stride as int),
        r is Ok ==> final(buf)@ == swizzled_strided(
            old(buf)@,
            width as int,
            height as int,
            stride as int,
            brag_to_bgra_order(),
        ),
        r is Err ==> r == Err::<(), SwizzleError>(SwizzleError::InvalidStride) && final(buf)@
            == old(buf)@,
{
    swizzle_strided_inplace(buf, width, height, stride, 0, 3, 1, 2)
}

/// Copy BRAG→BGRA for an image of `height` rows of `width` pixels, whose rows
/// start `src_stride` bytes apart in `src` and `dst_stride` bytes apart in
/// `dst`.  The padding bytes of `dst` are untouched.
pub fn brag_to_bgra_strided(
    src: &[u8],
    dst: &mut [u8],
    width: usize,
    height: usize,
    src_stride: usize,
    dst_stride: usize,
) -> (r: Result<(), SwizzleError>)
    ensures
        r is Ok <==> strided_ok(src@.len() as int, width as int, height as int, src_stride as int)
            && strided_ok(old(dst)@.len() as int, width as int, height as int, dst_stride as int),
        r is Ok ==> final(dst)@ == copied_strided(
            src@,
            old(dst)@,
            width as int,
            height as int,
            src_stride as int,
            dst_stride as int,
            brag_to_bgra_order(),
        ),
        r is Err ==> r == Err::<(), SwizzleError>(SwizzleError::InvalidStride) && final(dst)@
            == old(dst)@,
{
    swizzle_strided_copy(src, dst, width, height, src_stride, dst_stride, 0, 3, 1, 2)
}

} // verus!
