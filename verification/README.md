# brag

The BRAG pixel format (`[B, R, A, G]` per pixel) with verified byte-level
operations, checked by Verus:

- `src/format.rs` — channel-order descriptors (`PixelFormat`), where alpha
  stands, its distance to red and green, and which orderings are optimal.
- `src/pixel.rs` — the `Bra<G>` and `Brag<T>` pixel types, native-endian
  `u32` conversion, single-pixel premultiplication.
- `src/swizzle.rs` — RGBA/BGRA ↔ BRAG conversion on byte buffers, in place,
  copying, and strided (padded rows).
- `src/composite.rs` — premultiply, unpremultiply and Porter-Duff SrcOver on
  premultiplied BRAG8 buffers, with exact `round(x / 255)`.
- `src/interop.rs` — conversion chosen by format descriptor; RGBA ↔ BGRA is
  done by the `garb` crate.

`app/` holds what is not verified: `f32` compositing and `bytemuck`-castable
copies of the pixel types.
