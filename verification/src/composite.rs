//! Alpha compositing on BRAG8 buffers (`[B, R, A, G]` per pixel, alpha at
//! byte 2): premultiplication, unpremultiplication and Porter-Duff SrcOver.
use vstd::prelude::*;
use vstd::arithmetic::div_mod::{lemma_fundamental_div_mod, lemma_fundamental_div_mod_converse};

verus! {

/// `x / 255` rounded to the nearest integer (halves cannot occur, since
/// 255 is odd): the integer part of `x / 255 + 1/2`.
pub open spec fn round_div255(x: int) -> int {
    (2 * x + 255) / 510
}

/// Exact `round(x / 255)` for `x` in `0..=65025` (the range of `u8 * u8`),
/// computed with two shifts and no division.
pub fn div255(x: u32) -> (r: u8)
    requires
        x <= 65025,
    ensures
        r == round_div255(x as int),
{
    let t: u32 = x + 128;
    assert(t >> 8 <= 255) by (bit_vector)
        requires
            t <= 65153,
    ;
    let u: u32 = t + (t >> 8);
    assert((u >> 8) == (2 * x + 255) / 510 && (u >> 8) < 256) by (bit_vector)
        requires
            x <= 65025,
            t == x + 128,
            u == t + (t >> 8),
    ;
    (u >> 8) as u8
}

/// Error from a compositing operation.
#[derive(Copy, Clone, Debug, PartialEq, Eq, Structural)]
pub enum CompositeError {
    /// Buffer length is not a multiple of 4 (not pixel-aligned), or is zero.
    NotPixelAligned,
    /// Source and destination have different pixel counts.
    LengthMismatch,
}

impl CompositeError {
    /// A human-readable description of the error.
    pub fn message(&self) -> (s: &'static str)
        ensures
            *self == CompositeError::NotPixelAligned ==> s@ == "buffer length not a multiple of 4"@,
            *self == CompositeError::LengthMismatch ==> s@ == "source and destination length mismatch"@,
    {
        match self {
            CompositeError::NotPixelAligned => "buffer length not a multiple of 4",
            CompositeError::LengthMismatch => "source and destination length mismatch",
        }
    }
}

/// A buffer of this length holds at least one whole pixel and no partial one.
pub open spec fn pixel_aligned(len: int) -> bool {
    len > 0 && len % 4 == 0
}

/// Byte `k`'s offset within its pixel.
pub open spec fn lane(k: int) -> int {
    k % 4
}

/// The alpha byte of the pixel that holds byte `k`.
pub open spec fn alpha_at(s: Seq<u8>, k: int) -> u8 {
    s[k - k % 4 + 2]
}

/// A color channel `c` premultiplied by alpha `a`: `round(c * a / 255)`.
pub open spec fn premul_channel(c: u8, a: u8) -> u8 {
    round_div255(c * a) as u8
}

/// A premultiplied channel `c` with alpha `a` brought back to straight alpha:
/// zero when `a` is zero, `c` itself when `a` is 255, otherwise
/// `round(c * 255 / a)` clamped to 255 (ties rounded down).
pub open spec fn unpremul_channel(c: u8, a: u8) -> u8 {
    if a == 0 {
        0
    } else if a == 255 {
        c
    } else if (c * 255 + a / 2) / (a as int) > 255 {
        255
    } else {
        ((c * 255 + a / 2) / (a as int)) as u8
    }
}

/// SrcOver of one premultiplied channel: `s + round(d * (255 - sa) / 255)`,
/// wrapping modulo 256.
pub open spec fn over_channel(s: u8, sa: u8, d: u8) -> u8 {
    ((s + round_div255(d * (255 - sa))) % 256) as u8
}

/// Every pixel of `s` premultiplied: B, R and G scaled by the pixel's alpha,
/// alpha kept.
pub open spec fn premultiplied(s: Seq<u8>) -> Seq<u8> {
    Seq::new(
        s.len(),
        |k: int|
            if lane(k) == 2 {
                s[k]
            } else {
                premul_channel(s[k], alpha_at(s, k))
            },
    )
}

/// Every pixel of `s` unpremultiplied, alpha kept.
pub open spec fn unpremultiplied(s: Seq<u8>) -> Seq<u8> {
    Seq::new(
        s.len(),
        |k: int|
            if lane(k) == 2 {
                s[k]
            } else {
                unpremul_channel(s[k], alpha_at(s, k))
            },
    )
}

/// `src` composited over the leading `src.len()` bytes of `dst`; the bytes
/// of `dst` beyond them are kept.
pub open spec fn composited(src: Seq<u8>, dst: Seq<u8>) -> Seq<u8> {
    Seq::new(
        dst.len(),
        |k: int|
            if k < src.len() {
                over_channel(src[k], alpha_at(src, k), dst[k])
            } else {
                dst[k]
            },
    )
}

/// The pixel `color` composited over every pixel of `dst`.
pub open spec fn composited_solid(dst: Seq<u8>, color: Seq<u8>) -> Seq<u8> {
    Seq::new(dst.len(), |k: int| over_channel(color[lane(k)], color[2], dst[k]))
}

/// `c * a` for two bytes, as a `u32` (at most 65025).
fn mul_u8(c: u8, a: u8) -> (r: u32)
    ensures
        r == c * a,
        r <= 65025,
{
    assert((c as u32) * (a as u32) <= 65025) by (nonlinear_arith)
        requires
            c <= 255,
            a <= 255,
    ;
    (c as u32) * (a as u32)
}

/// `round(c * a / 255)`.
pub(crate) fn premul_u8(c: u8, a: u8) -> (r: u8)
    ensures
        r == premul_channel(c, a),
{
    div255(mul_u8(c, a))
}

/// `min(round-down-ties(c * 255 / a), 255)` for `0 < a < 255`.
fn unpremul_u8(c: u8, a: u8) -> (r: u8)
    requires
        0 < a < 255,
    ensures
        r == unpremul_channel(c, a),
{
    let a16: u16 = a as u16;
    assert((c as u16) * 255 + a16 / 2 <= 65152) by (nonlinear_arith)
        requires
            c <= 255,
            a16 <= 255,
    ;
    let v: u16 = ((c as u16) * 255 + a16 / 2) / a16;
    if v > 255 {
        255
    } else {
        v as u8
    }
}

/// `s + round(d * (255 - sa) / 255)`, wrapping.
fn over_u8(s: u8, sa: u8, d: u8) -> (r: u8)
    ensures
        r == over_channel(s, sa, d),
{
    let blend: u8 = div255(mul_u8(d, 255 - sa));
    s.wrapping_add(blend)
}

#[inline]
fn check_inplace(len: usize) -> (r: Result<(), CompositeError>)
    ensures
        r is Ok <==> pixel_aligned(len as int),
        r is Err ==> r == Err::<(), CompositeError>(CompositeError::NotPixelAligned),
{
    if len == 0 || len % 4 != 0 {
        Err(CompositeError::NotPixelAligned)
    } else {
        Ok(())
    }
}

#[inline]
fn check_src_dst(src_len: usize, dst_len: usize) -> (r: Result<(), CompositeError>)
    ensures
        r is Ok <==> pixel_aligned(src_len as int) && dst_len == src_len,
        !pixel_aligned(src_len as int) ==> r == Err::<(), CompositeError>(
            CompositeError::NotPixelAligned,
        ),
        pixel_aligned(src_len as int) && dst_len != src_len ==> r == Err::<(), CompositeError>(
            CompositeError::LengthMismatch,
        ),
{
    if src_len == 0 || src_len % 4 != 0 {
        return Err(CompositeError::NotPixelAligned);
    }
    if dst_len != src_len {
        return Err(CompositeError::LengthMismatch);
    }
    Ok(())
}

/// Premultiply straight-alpha BRAG pixels in place.
///
/// For each pixel `[B, R, A, G]`, computes `C' = round(C * A / 255)` for
/// B, R, G while leaving A unchanged.
pub fn premultiply(buf: &mut [u8]) -> (r: Result<(), CompositeError>)
    ensures
        r is Ok <==> pixel_aligned(old(buf)@.len() as int),
        r is Ok ==> final(buf)@ == premultiplied(old(buf)@),
        r is Err ==> r == Err::<(), CompositeError>(CompositeError::NotPixelAligned)
            && final(buf)@ == old(buf)@,
{
    check_inplace(buf.len())?;
    let n: usize = buf.len();
    let ghost orig = buf@;
    let mut i: usize = 0;
    while i < n
        invariant
            n == buf@.len(),
            orig.len() == n,
            n % 4 == 0,
            i % 4 == 0,
            i <= n,
            forall|k: int| 0 <= k < i ==> buf@[k] == #[trigger] premultiplied(orig)[k],
            forall|k: int| i <= k < n ==> buf@[k] == #[trigger] orig[k],
        decreases n - i,
    {
        let a: u8 = buf[i + 2];
        let b0: u8 = premul_u8(buf[i], a);
        let b1: u8 = premul_u8(buf[i + 1], a);
        let b3: u8 = premul_u8(buf[i + 3], a);
        buf[i] = b0;
        buf[i + 1] = b1;
        buf[i + 3] = b3;
        proof {
            assert forall|k: int| 0 <= k < i + 4 implies buf@[k] == #[trigger] premultiplied(
                orig,
            )[k] by {
                if k >= i {
                    assert(k - k % 4 == i);
                }
            }
        }
        i += 4;
    }
    assert(buf@ =~= premultiplied(orig));
    Ok(())
}

/// Unpremultiply premultiplied BRAG pixels in place.
///
/// Inverse of [`premultiply`] up to rounding.  For pixels with `A = 0`, sets
/// `B = R = G = 0`; pixels with `A = 255` are left as they are.
pub fn unpremultiply(buf: &mut [u8]) -> (r: Result<(), CompositeError>)
    ensures
        r is Ok <==> pixel_aligned(old(buf)@.len() as int),
        r is Ok ==> final(buf)@ == unpremultiplied(old(buf)@),
        r is Err ==> r == Err::<(), CompositeError>(CompositeError::NotPixelAligned)
            && final(buf)@ == old(buf)@,
{
    check_inplace(buf.len())?;
    let n: usize = buf.len();
    let ghost orig = buf@;
    let mut i: usize = 0;
    while i < n
        invariant
            n == buf@.len(),
            orig.len() == n,
            n % 4 == 0,
            i % 4 == 0,
            i <= n,
            forall|k: int| 0 <= k < i ==> buf@[k] == #[trigger] unpremultiplied(orig)[k],
            forall|k: int| i <= k < n ==> buf@[k] == #[trigger] orig[k],
        decreases n - i,
    {
        let a: u8 = buf[i + 2];
        if a == 0 {
            buf[i] = 0;
            buf[i + 1] = 0;
            buf[i + 3] = 0;
        } else if a < 255 {
            let b0: u8 = unpremul_u8(buf[i], a);
            let b1: u8 = unpremul_u8(buf[i + 1], a);
            let b3: u8 = unpremul_u8(buf[i + 3], a);
            buf[i] = b0;
            buf[i + 1] = b1;
            buf[i + 3] = b3;
        }
        proof {
            assert forall|k: int| 0 <= k < i + 4 implies buf@[k] == #[trigger] unpremultiplied(
                orig,
            )[k] by {
                if k >= i {
                    assert(k - k % 4 == i);
                }
            }
        }
        i += 4;
    }
    assert(buf@ =~= unpremultiplied(orig));
    Ok(())
}

/// Porter-Duff SrcOver compositing on premultiplied BRAG pixels.
///
/// Composites `src` over `dst`, which must hold as many pixels, writing the
/// result into `dst`: `dst' = src + dst * (255 - src.A) / 255`, rounded, with
/// the sum taken modulo 256 (it never wraps when both buffers hold
/// premultiplied pixels).
pub fn src_over(src: &[u8], dst: &mut [u8]) -> (r: Result<(), CompositeError>)
    ensures
        r is Ok <==> pixel_aligned(src@.len() as int) && old(dst)@.len() == src@.len(),
        r is Ok ==> final(dst)@ == composited(src@, old(dst)@),
        !pixel_aligned(src@.len() as int) ==> r == Err::<(), CompositeError>(
            CompositeError::NotPixelAligned,
        ),
        pixel_aligned(src@.len() as int) && old(dst)@.len() != src@.len() ==> r == Err::<
            (),
            CompositeError,
        >(CompositeError::LengthMismatch),
        r is Err ==> final(dst)@ == old(dst)@,
{
    check_src_dst(src.len(), dst.len())?;
    let n: usize = src.len();
    let ghost orig = dst@;
    let mut i: usize = 0;
    while i < n
        invariant
            n == src@.len(),
            dst@.len() == n,
            orig.len() == n,
            n % 4 == 0,
            i % 4 == 0,
            i <= n,
            forall|k: int| 0 <= k < i ==> dst@[k] == #[trigger] composited(src@, orig)[k],
            forall|k: int| i <= k < n ==> dst@[k] == #[trigger] orig[k],
        decreases n - i,
    {
        let sa: u8 = src[i + 2];
        let d0: u8 = over_u8(src[i], sa, dst[i]);
        let d1: u8 = over_u8(src[i + 1], sa, dst[i + 1]);
        let d2: u8 = over_u8(src[i + 2], sa, dst[i + 2]);
        let d3: u8 = over_u8(src[i + 3], sa, dst[i + 3]);
        dst[i] = d0;
        dst[i + 1] = d1;
        dst[i + 2] = d2;
        dst[i + 3] = d3;
        proof {
            assert forall|k: int| 0 <= k < i + 4 implies dst@[k] == #[trigger] composited(
                src@,
                orig,
            )[k] by {
                if k >= i {
                    assert(k - k % 4 == i);
                }
            }
        }
        i += 4;
    }
    assert(dst@ =~= composited(src@, orig));
    Ok(())
}

/// Porter-Duff SrcOver with a solid premultiplied BRAG color.
///
/// `color` is `[B, R, A, G]`, a single BRAG8 pixel, composited over every
/// pixel in `dst`.
pub fn src_over_solid(dst: &mut [u8], color: [u8; 4]) -> (r: Result<(), CompositeError>)
    ensures
        r is Ok <==> pixel_aligned(old(dst)@.len() as int),
        r is Ok ==> final(dst)@ == composited_solid(old(dst)@, color@),
        r is Err ==> r == Err::<(), CompositeError>(CompositeError::NotPixelAligned)
            && final(dst)@ == old(dst)@,
{
    check_inplace(dst.len())?;
    let n: usize = dst.len();
    let ghost orig = dst@;
    let sa: u8 = color[2];
    let mut i: usize = 0;
    while i < n
        invariant
            n == dst@.len(),
            orig.len() == n,
            n % 4 == 0,
            i % 4 == 0,
            i <= n,
            sa == color@[2],
            forall|k: int| 0 <= k < i ==> dst@[k] == #[trigger] composited_solid(orig, color@)[k],
            forall|k: int| i <= k < n ==> dst@[k] == #[trigger] orig[k],
        decreases n - i,
    {
        let d0: u8 = over_u8(color[0], sa, dst[i]);
        let d1: u8 = over_u8(color[1], sa, dst[i + 1]);
        let d2: u8 = over_u8(color[2], sa, dst[i + 2]);
        let d3: u8 = over_u8(color[3], sa, dst[i + 3]);
        dst[i] = d0;
        dst[i + 1] = d1;
        dst[i + 2] = d2;
        dst[i + 3] = d3;
        proof {
            assert forall|k: int| 0 <= k < i + 4 implies dst@[k] == #[trigger] composited_solid(
                orig,
                color@,
            )[k] by {
                if k >= i {
                    assert(k - k % 4 == i);
                    assert(k % 4 == k - i);
                }
            }
        }
        i += 4;
    }
    assert(dst@ =~= composited_solid(orig, color@));
    Ok(())
}

// ── Laws ───────────────────────────────────────────────────────────

/// `round_div255(x)` is the integer nearest to `x / 255`: it is off by at
/// most 127/255.
pub proof fn lemma_round_div255_nearest(x: int)
    requires
        x >= 0,
    ensures
        -127 <= 255 * round_div255(x) - x <= 127,
{
    lemma_fundamental_div_mod(2 * x + 255, 510);
}

/// `round_div255` of a multiple of 255 is exact.
pub proof fn lemma_round_div255_exact(m: int)
    requires
        m >= 0,
    ensures
        round_div255(255 * m) == m,
{
    lemma_fundamental_div_mod_converse(2 * (255 * m) + 255, 510, m, 255);
}

/// `round_div255` is monotonic.
pub proof fn lemma_round_div255_monotonic(x: int, y: int)
    requires
        0 <= x <= y,
    ensures
        round_div255(x) <= round_div255(y),
{
    vstd::arithmetic::div_mod::lemma_div_is_ordered(2 * x + 255, 2 * y + 255, 510);
}

/// Premultiplying by an opaque alpha keeps the channel; by a transparent
/// alpha zeroes it; and a premultiplied channel never exceeds its alpha.
pub proof fn lemma_premul_channel_bounds(c: u8, a: u8)
    ensures
        premul_channel(c, 255) == c,
        premul_channel(c, 0) == 0,
        premul_channel(c, a) <= a,
{
    lemma_round_div255_exact(c as int);
    assert(c * 255 == 255 * c);
    lemma_round_div255_exact(0);
    assert(c * a <= 255 * a) by (nonlinear_arith)
        requires
            c <= 255,
            a >= 0,
    ;
    lemma_round_div255_monotonic(c * a, 255 * a);
    lemma_round_div255_exact(a as int);
}

/// Unpremultiplying a transparent pixel's channel gives zero; an opaque
/// pixel's channel is kept.
pub proof fn lemma_unpremul_channel_ends(c: u8)
    ensures
        unpremul_channel(c, 0) == 0,
        unpremul_channel(c, 255) == c,
{
}

/// Premultiply then unpremultiply gives each channel back to within one unit
/// when alpha is at least 128, and exactly when alpha is 255.
pub proof fn lemma_premul_unpremul_round_trip(c: u8, a: u8)
    requires
        a >= 128,
    ensures
        c - 1 <= unpremul_channel(premul_channel(c, a), a) <= c + 1,
        a == 255 ==> unpremul_channel(premul_channel(c, a), a) == c,
{
    lemma_premul_channel_bounds(c, a);
    if a < 255 {
        let p = premul_channel(c, a);
        assert(0 <= c * a <= 65025) by (nonlinear_arith)
            requires
                c <= 255,
                a <= 255,
        ;
        lemma_round_div255_nearest(c * a);
        assert(p == round_div255(c * a));
        let x: int = p * 255 + a / 2;
        let u: int = x / (a as int);
        lemma_fundamental_div_mod(x, a as int);
        let rem: int = x % (a as int);
        assert(x == (a as int) * u + rem);
        assert(-127 <= 255 * p - c * a <= 127);
        assert(a / 2 >= 64);
        // (c - 1) * a < a * (u + 1) and a * u <= x < (c + 2) * a
        assert(c - 1 <= u <= c + 1) by (nonlinear_arith)
            requires
                x == (a as int) * u + rem,
                0 <= rem < a,
                128 <= a < 255,
                x == p * 255 + a / 2,
                -127 <= 255 * p - c * a <= 127,
                64 <= a / 2 <= a / 2,
                2 * (a / 2) <= a,
        ;
    }
}

/// Unpremultiplying a premultiplied channel (no larger than its alpha) and
/// premultiplying it again gives it back exactly.
pub proof fn lemma_unpremul_premul_round_trip(c: u8, a: u8)
    requires
        c <= a,
    ensures
        premul_channel(unpremul_channel(c, a), a) == c,
{
    lemma_premul_channel_bounds(c, a);
    if a == 0 {
        lemma_round_div255_exact(0);
    } else if a < 255 {
        let h: int = (a / 2) as int;
        let x: int = c * 255 + h;
        let u: int = x / (a as int);
        lemma_fundamental_div_mod(x, a as int);
        let rem: int = x % (a as int);
        assert(x == (a as int) * u + rem);
        assert(u <= 255) by (nonlinear_arith)
            requires
                x == (a as int) * u + rem,
                0 <= rem,
                x == c * 255 + h,
                0 <= h <= 127,
                2 * h <= a,
                c <= a,
                0 < a,
        ;
        assert(unpremul_channel(c, a) == u);
        assert(0 <= u);
        // u * a lies within 127 of c * 255, so it rounds back to c.
        assert(-126 <= u * a - c * 255 <= 127) by (nonlinear_arith)
            requires
                x == (a as int) * u + rem,
                0 <= rem < a,
                x == c * 255 + h,
                h == a / 2,
                0 < a < 255,
        ;
        lemma_fundamental_div_mod_converse(2 * (u * a) + 255, 510, c as int, 2 * (u * a) + 255 - 510 * c);
    } else {
        lemma_round_div255_exact(c as int);
        assert(c * 255 == 255 * c);
    }
}

/// A pixel channel composited under an opaque source is the source's; under
/// a transparent, all-zero source it is the destination's.
pub proof fn lemma_over_channel_ends(s: u8, d: u8)
    ensures
        over_channel(s, 255, d) == s,
        over_channel(0, 0, d) == d,
{
    lemma_round_div255_exact(0);
    lemma_round_div255_exact(d as int);
    assert(d * 255 == 255 * d);
}

/// SrcOver of premultiplied channels (each no larger than its pixel's alpha)
/// never wraps, and the result is again premultiplied: the composited channel
/// is no larger than the composited alpha.
pub proof fn lemma_over_channel_premultiplied(s: u8, sa: u8, d: u8, da: u8)
    requires
        s <= sa,
        d <= da,
    ensures
        s + round_div255(d * (255 - sa)) <= 255,
        over_channel(s, sa, d) == s + round_div255(d * (255 - sa)),
        over_channel(s, sa, d) <= over_channel(sa, sa, da),
{
    let m: int = 255 - sa;
    assert(0 <= d * m <= da * m <= 255 * m) by (nonlinear_arith)
        requires
            0 <= d <= da <= 255,
            0 <= m,
    ;
    lemma_round_div255_monotonic(d * m, da * m);
    lemma_round_div255_monotonic(da * m, 255 * m);
    lemma_round_div255_exact(m);
}

/// A buffer whose pixels are all opaque is unchanged by premultiplication.
pub proof fn lemma_premultiply_opaque(s: Seq<u8>)
    requires
        s.len() % 4 == 0,
        forall|k: int| 0 <= k < s.len() && lane(k) == 2 ==> s[k] == 255,
    ensures
        premultiplied(s) == s,
{
    assert forall|k: int| 0 <= k < s.len() implies #[trigger] premultiplied(s)[k] == s[k] by {
        assert(lane(k - k % 4 + 2) == 2);
        lemma_premul_channel_bounds(s[k], 255);
    }
    assert(premultiplied(s) =~= s);
}

/// One byte of the buffer round trip.
proof fn lemma_buffer_round_trip_at(s: Seq<u8>, k: int)
    requires
        s.len() % 4 == 0,
        0 <= k < s.len(),
        s[k - k % 4 + 2] >= 128,
    ensures
        lane(k) == 2 ==> unpremultiplied(premultiplied(s))[k] == s[k],
        s[k] - 1 <= unpremultiplied(premultiplied(s))[k] <= s[k] + 1,
{
    let j = k - k % 4 + 2;
    let p = premultiplied(s);
    assert(j - j % 4 + 2 == j);
    assert(p[j] == s[j]);
    assert(p.len() == s.len());
    if lane(k) != 2 {
        assert(p[k] == premul_channel(s[k], s[j]));
        lemma_premul_unpremul_round_trip(s[k], s[j]);
        assert(unpremultiplied(p)[k] == unpremul_channel(p[k], p[j]));
    }
}

/// Premultiply then unpremultiply keeps every alpha and gives every color
/// channel back to within one unit, when every alpha is at least 128.
pub proof fn lemma_buffer_round_trip(s: Seq<u8>)
    requires
        s.len() % 4 == 0,
        forall|k: int| 0 <= k < s.len() && lane(k) == 2 ==> #[trigger] s[k] >= 128,
    ensures
        unpremultiplied(premultiplied(s)).len() == s.len(),
        forall|k: int|
            0 <= k < s.len() ==> {
                let t = #[trigger] unpremultiplied(premultiplied(s))[k];
                &&& lane(k) == 2 ==> t == s[k]
                &&& s[k] - 1 <= t <= s[k] + 1
            },
{
    assert forall|k: int| 0 <= k < s.len() implies {
        let t = #[trigger] unpremultiplied(premultiplied(s))[k];
        &&& lane(k) == 2 ==> t == s[k]
        &&& s[k] - 1 <= t <= s[k] + 1
    } by {
        let j = k - k % 4 + 2;
        assert(lane(j) == 2);
        assert(s[j] >= 128);
        lemma_buffer_round_trip_at(s, k);
    }
}

/// A buffer of whole premultiplied pixels (no color channel above its
/// pixel's alpha) is brought back exactly by unpremultiplying and then
/// premultiplying it.
pub proof fn lemma_buffer_unpremul_premul_round_trip(s: Seq<u8>)
    requires
        s.len() % 4 == 0,
        forall|k: int| 0 <= k < s.len() ==> #[trigger] s[k] <= s[k - k % 4 + 2],
    ensures
        premultiplied(unpremultiplied(s)) == s,
{
    let u = unpremultiplied(s);
    assert forall|k: int| 0 <= k < s.len() implies #[trigger] premultiplied(u)[k] == s[k] by {
        let j = k - k % 4 + 2;
        assert(j - j % 4 + 2 == j);
        assert(u[j] == s[j]);
        assert(s[k] <= s[j]);
        if lane(k) != 2 {
            lemma_unpremul_premul_round_trip(s[k], s[j]);
        }
    }
    assert(premultiplied(u) =~= s);
}

/// Compositing a transparent, all-zero source leaves the destination as it
/// is; compositing a source whose pixels are all opaque replaces the
/// destination's leading bytes with the source.
pub proof fn lemma_src_over_ends(src: Seq<u8>, dst: Seq<u8>)
    requires
        src.len() % 4 == 0,
        src.len() <= dst.len(),
    ensures
        (forall|k: int| 0 <= k < src.len() ==> src[k] == 0) ==> composited(src, dst) == dst,
        (forall|k: int| 0 <= k < src.len() && lane(k) == 2 ==> src[k] == 255) ==> composited(
            src,
            dst,
        ) == src + dst.skip(src.len() as int),
{
    if forall|k: int| 0 <= k < src.len() ==> src[k] == 0 {
        assert forall|k: int| 0 <= k < dst.len() implies #[trigger] composited(src, dst)[k]
            == dst[k] by {
            if k < src.len() {
                assert(src[k - k % 4 + 2] == 0);
                lemma_over_channel_ends(0, dst[k]);
            }
        }
        assert(composited(src, dst) =~= dst);
    }
    if forall|k: int| 0 <= k < src.len() && lane(k) == 2 ==> src[k] == 255 {
        assert forall|k: int| 0 <= k < dst.len() implies #[trigger] composited(src, dst)[k] == (
        src + dst.skip(src.len() as int))[k] by {
            if k < src.len() {
                assert(lane(k - k % 4 + 2) == 2);
                lemma_over_channel_ends(src[k], dst[k]);
            }
        }
        assert(composited(src, dst) =~= src + dst.skip(src.len() as int));
    }
}

/// The pixel `color` repeated `n` times.
pub open spec fn repeat_pixel(color: Seq<u8>, n: nat) -> Seq<u8> {
    Seq::new(4 * n, |k: int| color[lane(k)])
}

/// Compositing a solid color is compositing a buffer that repeats it.
pub proof fn lemma_src_over_solid_is_src_over(dst: Seq<u8>, color: Seq<u8>)
    requires
        dst.len() % 4 == 0,
        color.len() == 4,
    ensures
        composited_solid(dst, color) == composited(repeat_pixel(color, dst.len() / 4), dst),
{
    let src = repeat_pixel(color, dst.len() / 4);
    assert(src.len() == dst.len());
    assert forall|k: int| 0 <= k < dst.len() implies #[trigger] composited_solid(dst, color)[k]
        == composited(src, dst)[k] by {
        assert(lane(k - k % 4 + 2) == 2);
    }
    assert(composited_solid(dst, color) =~= composited(src, dst));
}

} // verus!
