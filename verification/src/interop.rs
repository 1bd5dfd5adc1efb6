//! Conversion between any two of BRAG, RGBA and BGRA, chosen by format
//! descriptor.  RGBA↔BGRA goes through `garb`; conversions to and from BRAG
//! go through [`crate::swizzle`].
use vstd::prelude::*;
use vstd::endian::{endianness, Endian};
use crate::composite::pixel_aligned;
use crate::format::{PixelFormat, is_brag, is_rgba, is_bgra, BRAG, RGBA, BGRA};
use crate::swizzle::{
    lemma_orders_undo, lemma_swizzle_round_trip, undoes, is_order,
    swizzled, rgba_to_brag_order, brag_to_rgba_order, bgra_to_brag_order,
    brag_to_bgra_order, swizzle_all, swizzle_copy_into,
};

verus! {

/// Pixel buffer size or alignment error.
#[derive(Copy, Clone, Debug, PartialEq, Eq, Structural)]
pub enum SizeError {
    /// Buffer length is not a multiple of 4 bytes per pixel, or is zero.
    NotPixelAligned,
    /// Destination buffer has fewer pixels than the source.
    PixelCountMismatch,
    /// Stride, dimensions, or total buffer size are inconsistent.
    InvalidStride,
}

/// The outcome of checking a copy of `src_len` bytes into `dst_len` bytes.
pub open spec fn copy_check(src_len: int, dst_len: int) -> Result<(), SizeError> {
    if !pixel_aligned(src_len) {
        Err(SizeError::NotPixelAligned)
    } else if dst_len < src_len {
        Err(SizeError::PixelCountMismatch)
    } else {
        Ok(())
    }
}

/// The outcome of checking an in-place conversion of `len` bytes.
pub open spec fn inplace_check(len: int) -> Result<(), SizeError> {
    if !pixel_aligned(len) {
        Err(SizeError::NotPixelAligned)
    } else {
        Ok(())
    }
}

/// The byte order of garb's B↔R swap on a little-endian machine: bytes 0
/// and 2 of each pixel change places.
pub open spec fn garb_swap_order() -> Seq<int> {
    seq![2, 1, 0, 3]
}

/// Pixel `p` of `out` is pixel `p` of `src` with bytes 0 and 2 exchanged or
/// with bytes 1 and 3 exchanged: what garb's B↔R swap gives on a big-endian
/// machine, whose NEON blocks do the one and whose scalar tail does the other.
pub open spec fn garb_pixel_swapped(src: Seq<u8>, out: Seq<u8>, p: int) -> bool {
    let b = 4 * p;
    ||| out[b] == src[b + 2] && out[b + 1] == src[b + 1] && out[b + 2] == src[b] && out[b + 3]
        == src[b + 3]
    ||| out[b] == src[b] && out[b + 1] == src[b + 3] && out[b + 2] == src[b + 2] && out[b + 3]
        == src[b + 1]
}

/// Every pixel of `src` lands in `out` with one of garb's two swaps.
pub open spec fn garb_swapped_either_way(src: Seq<u8>, out: Seq<u8>) -> bool {
    forall|p: int| 0 <= p < src.len() / 4 ==> #[trigger] garb_pixel_swapped(src, out, p)
}

/// The conversions that [`convert`] and [`convert_inplace`] perform: to or
/// from BRAG from or to RGBA or BGRA, between RGBA and BGRA, and from any
/// format to itself.
pub open spec fn conversion_supported(src_fmt: PixelFormat, dst_fmt: PixelFormat) -> bool {
    ||| src_fmt.same_as(dst_fmt)
    ||| is_rgba(src_fmt) && is_brag(dst_fmt)
    ||| is_brag(src_fmt) && is_rgba(dst_fmt)
    ||| is_bgra(src_fmt) && is_brag(dst_fmt)
    ||| is_brag(src_fmt) && is_bgra(dst_fmt)
    ||| is_rgba(src_fmt) && is_bgra(dst_fmt)
    ||| is_bgra(src_fmt) && is_rgba(dst_fmt)
}

/// A conversion between RGBA and BGRA, which garb performs.
pub open spec fn is_garb_pair(src_fmt: PixelFormat, dst_fmt: PixelFormat) -> bool {
    ||| is_rgba(src_fmt) && is_bgra(dst_fmt)
    ||| is_bgra(src_fmt) && is_rgba(dst_fmt)
}

/// The conversions whose bytes the contracts below pin down: all but garb's
/// on a big-endian machine, where garb's SIMD blocks and its scalar tail
/// rearrange bytes differently.
pub open spec fn conversion_stated(src_fmt: PixelFormat, dst_fmt: PixelFormat) -> bool {
    !is_garb_pair(src_fmt, dst_fmt) || endianness() == Endian::Little
}

/// The rearrangement of each pixel's bytes that converting from `src_fmt` to
/// a different format `dst_fmt` performs.
pub open spec fn conversion_order(src_fmt: PixelFormat, dst_fmt: PixelFormat) -> Seq<int> {
    if is_rgba(src_fmt) && is_brag(dst_fmt) {
        rgba_to_brag_order()
    } else if is_brag(src_fmt) && is_rgba(dst_fmt) {
        brag_to_rgba_order()
    } else if is_bgra(src_fmt) && is_brag(dst_fmt) {
        bgra_to_brag_order()
    } else if is_brag(src_fmt) && is_bgra(dst_fmt) {
        brag_to_bgra_order()
    } else {
        garb_swap_order()
    }
}

fn check_copy_sizes(src_len: usize, dst_len: usize) -> (r: Result<(), SizeError>)
    ensures
        r == copy_check(src_len as int, dst_len as int),
{
    if src_len == 0 || src_len % 4 != 0 {
        Err(SizeError::NotPixelAligned)
    } else if dst_len < src_len {
        Err(SizeError::PixelCountMismatch)
    } else {
        Ok(())
    }
}

fn check_inplace_size(len: usize) -> (r: Result<(), SizeError>)
    ensures
        r == inplace_check(len as int),
{
    if len == 0 || len % 4 != 0 {
        Err(SizeError::NotPixelAligned)
    } else {
        Ok(())
    }
}

/// `garb::bytes::rgba_to_bgra`: copies the 4-byte pixels of `src` into the
/// leading `src.len()` bytes of `dst`, swapping B and R, and leaves the rest
/// of `dst` alone.  It fails, writing nothing, with `NotPixelAligned` when
/// `src` is empty or not a whole number of pixels, and otherwise with
/// `PixelCountMismatch` when `dst` is shorter than `src`.
///
/// On little-endian machines every garb path (AVX2, NEON, wasm and the
/// native-endian `u32` scalar tail) exchanges bytes 0 and 2.  On a big-endian
/// machine the NEON blocks still exchange bytes 0 and 2 while the scalar tail
/// exchanges bytes 1 and 3, so only that each written pixel got one of the
/// two is stated.
#[verifier::external_body]
fn garb_rgba_to_bgra(src: &[u8], dst: &mut [u8]) -> (r: Result<(), SizeError>)
    ensures
        r == copy_check(src@.len() as int, old(dst)@.len() as int),
        final(dst)@.len() == old(dst)@.len(),
        final(dst)@.skip(src@.len() as int) == old(dst)@.skip(src@.len() as int),
        r is Ok && endianness() == Endian::Little ==> final(dst)@ == swizzled(
            src@,
            garb_swap_order(),
        ) + old(dst)@.skip(src@.len() as int),
        r is Ok && endianness() == Endian::Big ==> garb_swapped_either_way(src@, final(dst)@),
        r is Err ==> final(dst)@ == old(dst)@,
{
    match garb::bytes::rgba_to_bgra(src, dst) {
        Ok(()) => Ok(()),
        Err(garb::SizeError::NotPixelAligned) => Err(SizeError::NotPixelAligned),
        Err(garb::SizeError::PixelCountMismatch) => Err(SizeError::PixelCountMismatch),
        Err(_) => Err(SizeError::InvalidStride),
    }
}

/// `garb::bytes::rgba_to_bgra_inplace`: swaps B and R in every 4-byte pixel
/// of `buf`.  It fails, changing nothing, with `NotPixelAligned` when `buf`
/// is empty or not a whole number of pixels.
///
/// As for [`garb_rgba_to_bgra`], on a big-endian machine only that each pixel
/// got one of the two swaps is stated.
#[verifier::external_body]
fn garb_rgba_to_bgra_inplace(buf: &mut [u8]) -> (r: Result<(), SizeError>)
    ensures
        r == inplace_check(old(buf)@.len() as int),
        final(buf)@.len() == old(buf)@.len(),
        r is Ok && endianness() == Endian::Little ==> final(buf)@ == swizzled(
            old(buf)@,
            garb_swap_order(),
        ),
        r is Ok && endianness() == Endian::Big ==> garb_swapped_either_way(old(buf)@, final(buf)@),
        r is Err ==> final(buf)@ == old(buf)@,
{
    match garb::bytes::rgba_to_bgra_inplace(buf) {
        Ok(()) => Ok(()),
        Err(garb::SizeError::NotPixelAligned) => Err(SizeError::NotPixelAligned),
        Err(garb::SizeError::PixelCountMismatch) => Err(SizeError::PixelCountMismatch),
        Err(_) => Err(SizeError::InvalidStride),
    }
}

/// Copy `src` into the leading bytes of `dst`.
fn copy_bytes(src: &[u8], dst: &mut [u8])
    requires
        src@.len() <= old(dst)@.len(),
    ensures
        final(dst)@ == src@ + old(dst)@.skip(src@.len() as int),
{
    let ghost orig = dst@;
    let n: usize = src.len();
    let mut i: usize = 0;
    while i < n
        invariant
            n == src@.len(),
            n <= orig.len(),
            dst@.len() == orig.len(),
            i <= n,
            forall|k: int| 0 <= k < i ==> dst@[k] == src@[k],
            forall|k: int| i <= k < orig.len() ==> dst@[k] == orig[k],
        decreases n - i,
    {
        dst[i] = src[i];
        i += 1;
    }
    assert(dst@ =~= src@ + orig.skip(n as int));
}

/// Convert pixels between formats, from `src` into the leading `src.len()`
/// bytes of `dst`.
///
/// Supports conversion between BRAG and legacy formats (RGBA, BGRA), between
/// RGBA and BGRA, and from a format to itself (a plain copy).  Other pairs
/// are not supported.  Both buffers must hold whole pixels (4 bytes each):
/// `NotPixelAligned` when `src` does not, `PixelCountMismatch` when `dst`
/// holds fewer pixels than `src`.
pub fn convert(src: &[u8], src_fmt: PixelFormat, dst: &mut [u8], dst_fmt: PixelFormat) -> (r:
    Result<(), SizeError>)
    requires
        conversion_supported(src_fmt, dst_fmt),
    ensures
        r == copy_check(src@.len() as int, old(dst)@.len() as int),
        final(dst)@.len() == old(dst)@.len(),
        final(dst)@.skip(src@.len() as int) == old(dst)@.skip(src@.len() as int),
        r is Err ==> final(dst)@ == old(dst)@,
        r is Ok && src_fmt.same_as(dst_fmt) ==> final(dst)@ == src@ + old(dst)@.skip(
            src@.len() as int,
        ),
        r is Ok && !src_fmt.same_as(dst_fmt) && conversion_stated(src_fmt, dst_fmt)
            ==> final(dst)@ == swizzled(src@, conversion_order(src_fmt, dst_fmt))
            + old(dst)@.skip(src@.len() as int),
        r is Ok && is_garb_pair(src_fmt, dst_fmt) && endianness() == Endian::Big
            ==> garb_swapped_either_way(src@, final(dst)@),
{
    check_copy_sizes(src.len(), dst.len())?;
    if src_fmt == dst_fmt {
        copy_bytes(src, dst);
        return Ok(());
    }
    let brag = BRAG();
    let rgba = RGBA();
    let bgra = BGRA();
    if src_fmt == rgba && dst_fmt == brag {
        swizzle_copy_into(src, dst, 2, 0, 3, 1);
    } else if src_fmt == brag && dst_fmt == rgba {
        swizzle_copy_into(src, dst, 1, 3, 0, 2);
    } else if src_fmt == bgra && dst_fmt == brag {
        swizzle_copy_into(src, dst, 0, 2, 3, 1);
    } else if src_fmt == brag && dst_fmt == bgra {
        swizzle_copy_into(src, dst, 0, 3, 1, 2);
    } else {
        return garb_rgba_to_bgra(src, dst);
    }
    Ok(())
}

/// Convert pixels in place between formats.
///
/// Supports conversion between BRAG and legacy formats (RGBA, BGRA), between
/// RGBA and BGRA, and from a format to itself (nothing to do).  The buffer
/// must hold whole pixels: `NotPixelAligned` when its length is zero or not a
/// multiple of 4.
pub fn convert_inplace(buf: &mut [u8], src_fmt: PixelFormat, dst_fmt: PixelFormat) -> (r: Result<
    (),
    SizeError,
>)
    requires
        conversion_supported(src_fmt, dst_fmt),
    ensures
        r == inplace_check(old(buf)@.len() as int),
        final(buf)@.len() == old(buf)@.len(),
        r is Err ==> final(buf)@ == old(buf)@,
        r is Ok && src_fmt.same_as(dst_fmt) ==> final(buf)@ == old(buf)@,
        r is Ok && !src_fmt.same_as(dst_fmt) && conversion_stated(src_fmt, dst_fmt)
            ==> final(buf)@ == swizzled(old(buf)@, conversion_order(src_fmt, dst_fmt)),
        r is Ok && is_garb_pair(src_fmt, dst_fmt) && endianness() == Endian::Big
            ==> garb_swapped_either_way(old(buf)@, final(buf)@),
{
    check_inplace_size(buf.len())?;
    if src_fmt == dst_fmt {
        return Ok(());
    }
    let brag = BRAG();
    let rgba = RGBA();
    let bgra = BGRA();
    if src_fmt == rgba && dst_fmt == brag {
        swizzle_all(buf, 2, 0, 3, 1);
    } else if src_fmt == brag && dst_fmt == rgba {
        swizzle_all(buf, 1, 3, 0, 2);
    } else if src_fmt == bgra && dst_fmt == brag {
        swizzle_all(buf, 0, 2, 3, 1);
    } else if src_fmt == brag && dst_fmt == bgra {
        swizzle_all(buf, 0, 3, 1, 2);
    } else {
        return garb_rgba_to_bgra_inplace(buf);
    }
    Ok(())
}

// ── Laws ───────────────────────────────────────────────────────────

/// garb's B↔R swap is its own inverse.
pub proof fn lemma_garb_swap_self_inverse()
    ensures
        is_order(garb_swap_order()),
        undoes(garb_swap_order(), garb_swap_order()),
{
}

/// Converting a buffer of whole pixels from one supported format to a
/// different one and back gives the buffer back (for the conversions whose
/// bytes are stated).
pub proof fn lemma_convert_round_trip(src_fmt: PixelFormat, dst_fmt: PixelFormat, s: Seq<u8>)
    requires
        conversion_supported(src_fmt, dst_fmt),
        conversion_stated(src_fmt, dst_fmt),
        !src_fmt.same_as(dst_fmt),
        s.len() % 4 == 0,
    ensures
        conversion_supported(dst_fmt, src_fmt),
        conversion_stated(dst_fmt, src_fmt),
        swizzled(swizzled(s, conversion_order(src_fmt, dst_fmt)), conversion_order(dst_fmt, src_fmt))
            == s,
{
    lemma_orders_undo();
    lemma_garb_swap_self_inverse();
    lemma_swizzle_round_trip(s, conversion_order(src_fmt, dst_fmt), conversion_order(dst_fmt, src_fmt));
}

} // verus!
