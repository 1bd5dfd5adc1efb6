use brag::pixel::{Bra, Brag, BragPixel, BRAG8};

fn native_is_little_endian() -> bool {
    u32::from_ne_bytes([1, 0, 0, 0]) == 1
}

#[test]
fn pixel_round_trip() {
    let p = BragPixel::new(255, 128, 64, 200);
    assert_eq!(p.r, 255);
    assert_eq!(p.g, 128);
    assert_eq!(p.b, 64);
    assert_eq!(p.a, 200);

    let (r, g, b, a) = p.to_rgba();
    assert_eq!((r, g, b, a), (255, 128, 64, 200));
}

#[test]
fn u32_round_trip() {
    let p = BragPixel::new(0xAA, 0xBB, 0xCC, 0xDD);
    let v = p.as_u32();
    let p2 = BragPixel::from_u32(v);
    assert_eq!(p, p2);

    // Bytes always round-trip through native representation
    let bytes = v.to_ne_bytes();
    assert_eq!(bytes[0], 0xCC); // B
    assert_eq!(bytes[1], 0xAA); // R
    assert_eq!(bytes[2], 0xDD); // A
    assert_eq!(bytes[3], 0xBB); // G
}

#[test]
fn u32_spells_garb_on_little_endian() {
    if !native_is_little_endian() {
        return;
    }
    // On little-endian, bytes [B,R,A,G] read as u32 = 0xGARB
    let p = BragPixel::new(0xAA, 0xBB, 0xCC, 0xDD);
    let v = p.as_u32();
    assert_eq!(v & 0xFF, 0xCC); // B at low byte
    assert_eq!((v >> 8) & 0xFF, 0xAA); // R
    assert_eq!((v >> 16) & 0xFF, 0xDD); // A
    assert_eq!((v >> 24) & 0xFF, 0xBB); // G at high byte
}

#[test]
fn u32_spells_brag_on_big_endian() {
    if native_is_little_endian() {
        return;
    }
    // On big-endian, bytes [B,R,A,G] read as u32 = 0xBRAG
    let p = BragPixel::new(0xAA, 0xBB, 0xCC, 0xDD);
    let v = p.as_u32();
    assert_eq!((v >> 24) & 0xFF, 0xCC); // B at high byte
    assert_eq!((v >> 16) & 0xFF, 0xAA); // R
    assert_eq!((v >> 8) & 0xFF, 0xDD); // A
    assert_eq!(v & 0xFF, 0xBB); // G at low byte
}

#[test]
fn premultiply_correctness() {
    let p = BragPixel::new(200, 100, 50, 128);
    let pm = p.premultiply();
    // 200 * 128 / 255 ≈ 100
    assert!(pm.r.abs_diff(100) <= 1);
    assert_eq!(pm.a, 128);
}

#[test]
fn transparent_is_zero() {
    let t = BragPixel::transparent();
    assert_eq!(t.as_u32(), 0);
}

#[test]
fn bra_u16_green_precision() {
    // Green gets 16-bit precision.
    let px: Bra<u16> = Bra { b: 64, r: 255, a: 200, g: 32768 };
    assert_eq!(px.g, 32768);
    assert_eq!(px.b, 64);
    let s = px.to_display_string();
    assert!(s.contains("8000")); // 32768 in hex
}

#[test]
fn brag8_alias() {
    let px: BRAG8 = Bra::new(255, 128, 64, 200);
    let px2: BragPixel = px;
    assert_eq!(px, px2);
}

#[test]
fn display_strings_exact() {
    let px: Bra<u8> = Bra { b: 0x40, r: 0xFF, a: 0xC8, g: 0x80 };
    assert_eq!(px.to_display_string(), "BRAG(#40FFC880)");
    let px16: Bra<u16> = Bra { b: 0x0A, r: 0x01, a: 0xFF, g: 0xBEEF };
    assert_eq!(px16.to_display_string(), "BRAG(#0A01FFBEEF)");
}

#[test]
fn constructors_place_channels() {
    let o = BragPixel::opaque(1, 2, 3);
    assert_eq!(o, Bra { b: 3, r: 1, a: 255, g: 2 });
    let f = BragPixel::from_rgba(10, 20, 30, 40);
    assert_eq!(f, Bra { b: 30, r: 10, a: 40, g: 20 });
    assert_eq!(f.to_rgba(), (10, 20, 30, 40));
    assert_eq!(BragPixel::transparent(), Bra { b: 0, r: 0, a: 0, g: 0 });
}

#[test]
fn premultiply_exact_values() {
    // round(200 * 128 / 255) = round(100.39) = 100; round(100 * 128 / 255) = 50;
    // round(50 * 128 / 255) = round(25.098) = 25
    let pm = BragPixel::new(200, 100, 50, 128).premultiply();
    assert_eq!(pm, Bra { b: 25, r: 100, a: 128, g: 50 });
    // Opaque: unchanged; transparent: zeroed.
    let p = BragPixel::new(7, 8, 9, 255);
    assert_eq!(p.premultiply(), p);
    assert_eq!(BragPixel::new(7, 8, 9, 0).premultiply(), Bra { b: 0, r: 0, a: 0, g: 0 });
}

#[test]
fn u32_from_u32_inverse() {
    for v in [0u32, 1, 0xDEADBEEF, u32::MAX, 0x01020304] {
        assert_eq!(BragPixel::from_u32(v).as_u32(), v);
    }
}

#[test]
fn brag_array_type() {
    let px = Brag::new(64u8, 255, 200, 128); // b, r, a, g
    assert_eq!(px.b(), 64);
    assert_eq!(px.r(), 255);
    assert_eq!(px.a(), 200);
    assert_eq!(px.g(), 128);
    assert_eq!(px.as_array(), &[64, 255, 200, 128]);
    let arr: [u8; 4] = px.into();
    assert_eq!(arr, [64, 255, 200, 128]);
    let px2: Brag<u8> = arr.into();
    assert_eq!(px2, px);
    assert_eq!(px2[3], 128); // through Deref
    let mut px3 = px2;
    px3.as_array_mut()[0] = 1;
    assert_eq!(px3.b(), 1);
    px3[1] = 2; // through DerefMut
    assert_eq!(px3.r(), 2);
}

#[test]
fn conversions_between_pixel_types() {
    let p = Bra { b: 1u8, r: 2, a: 3, g: 4 };
    let q: Brag<u8> = p.into();
    assert_eq!(q, Brag([1, 2, 3, 4]));
    let back: Bra<u8> = q.into();
    assert_eq!(back, p);
    let arr: [u8; 4] = p.into();
    assert_eq!(arr, [1, 2, 3, 4]);
    let from_arr: Bra<u8> = arr.into();
    assert_eq!(from_arr, p);
}
