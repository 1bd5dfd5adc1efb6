//! BRAG pixel types: `Bra<G>`, with named fields and a green channel of any
//! type, and `Brag<T>`, four channels of one type in an array.
use vstd::prelude::*;
use vstd::endian::{endianness, Endian};
use vstd::string::StringExecFns;
use crate::composite::{premul_channel, premul_u8};

verus! {

/// A BRAG pixel: blue, red, alpha, then green.
///
/// The green channel's type is the parameter, so that `Bra<u16>` carries a
/// 16-bit green.  `Bra<u8>` (aka [`BRAG8`]) is the common four-byte pixel.
#[derive(Copy, Clone, Debug, PartialEq, Eq, Hash, Structural)]
pub struct Bra<G = u8> {
    /// Blue, byte 0.
    pub b: u8,
    /// Red, byte 1.
    pub r: u8,
    /// Alpha, byte 2.
    pub a: u8,
    /// Green, byte 3 onwards.
    pub g: G,
}

/// 8-bit BRAG pixel.
pub type BRAG8 = Bra<u8>;

/// Legacy alias of [`BRAG8`].
pub type BragPixel = Bra<u8>;

/// A BRAG pixel whose four channels share the type `T`, stored as
/// `[B, R, A, G]`.
#[derive(Copy, Clone, Debug, PartialEq, Eq, Hash)]
pub struct Brag<T>(pub [T; 4]);

impl<T: Copy> Brag<T> {
    /// Create a new BRAG pixel: `(b, r, a, g)`.
    pub fn new(b: T, r: T, a: T, g: T) -> (p: Self)
        ensures
            p.0@ == seq![b, r, a, g],
    {
        let p = Self([b, r, a, g]);
        assert(p.0@ =~= seq![b, r, a, g]);
        p
    }

    /// Blue channel.
    pub fn b(&self) -> (c: T)
        ensures
            c == self.0@[0],
    {
        self.0[0]
    }

    /// Red channel.
    pub fn r(&self) -> (c: T)
        ensures
            c == self.0@[1],
    {
        self.0[1]
    }

    /// Alpha channel.
    pub fn a(&self) -> (c: T)
        ensures
            c == self.0@[2],
    {
        self.0[2]
    }

    /// Green channel.
    pub fn g(&self) -> (c: T)
        ensures
            c == self.0@[3],
    {
        self.0[3]
    }

    /// As a `[B, R, A, G]` array reference.
    pub fn as_array(&self) -> (arr: &[T; 4])
        ensures
            *arr == self.0,
    {
        &self.0
    }

    /// As a mutable `[B, R, A, G]` array reference.
    pub fn as_array_mut(&mut self) -> (arr: &mut [T; 4])
        ensures
            *arr == old(self).0,
            final(self).0 == *final(arr),
    {
        &mut self.0
    }
}

impl<T> From<Brag<T>> for [T; 4] {
    fn from(px: Brag<T>) -> (arr: [T; 4]) {
        px.0
    }
}

impl<T> vstd::std_specs::convert::FromSpecImpl<Brag<T>> for [T; 4] {
    open spec fn obeys_from_spec() -> bool {
        true
    }

    open spec fn from_spec(px: Brag<T>) -> [T; 4] {
        px.0
    }
}

impl<T> From<[T; 4]> for Brag<T> {
    fn from(arr: [T; 4]) -> (px: Self) {
        Self(arr)
    }
}

impl<T> vstd::std_specs::convert::FromSpecImpl<[T; 4]> for Brag<T> {
    open spec fn obeys_from_spec() -> bool {
        true
    }

    open spec fn from_spec(arr: [T; 4]) -> Brag<T> {
        Brag(arr)
    }
}

impl<T> core::ops::Deref for Brag<T> {
    type Target = [T; 4];

    fn deref(&self) -> (arr: &[T; 4])
        ensures
            *arr == self.0,
    {
        &self.0
    }
}

impl<T> core::ops::DerefMut for Brag<T> {
    fn deref_mut(&mut self) -> (arr: &mut [T; 4])
        ensures
            *arr == old(self).0,
            final(self).0 == *final(arr),
    {
        &mut self.0
    }
}

/// `Brag<u8>` to `Bra<u8>`: the same four bytes.
impl From<Brag<u8>> for Bra<u8> {
    fn from(px: Brag<u8>) -> (p: Self) {
        Self { b: px.0[0], r: px.0[1], a: px.0[2], g: px.0[3] }
    }
}

impl vstd::std_specs::convert::FromSpecImpl<Brag<u8>> for Bra<u8> {
    open spec fn obeys_from_spec() -> bool {
        true
    }

    open spec fn from_spec(px: Brag<u8>) -> Bra<u8> {
        Bra { b: px.0@[0], r: px.0@[1], a: px.0@[2], g: px.0@[3] }
    }
}

/// `Bra<u8>` to `Brag<u8>`: the same four bytes.
impl From<Bra<u8>> for Brag<u8> {
    fn from(px: Bra<u8>) -> (p: Self) {
        let p = Self([px.b, px.r, px.a, px.g]);
        assert(p.0@ =~= px.bytes());
        p
    }
}

impl vstd::std_specs::convert::FromSpecImpl<Bra<u8>> for Brag<u8> {
    open spec fn obeys_from_spec() -> bool {
        true
    }

    open spec fn from_spec(px: Bra<u8>) -> Brag<u8> {
        Brag(bytes_array(px))
    }
}

/// Construct from a `[B, R, A, G]` array.
impl From<[u8; 4]> for Bra<u8> {
    fn from(arr: [u8; 4]) -> (p: Self) {
        Self { b: arr[0], r: arr[1], a: arr[2], g: arr[3] }
    }
}

impl vstd::std_specs::convert::FromSpecImpl<[u8; 4]> for Bra<u8> {
    open spec fn obeys_from_spec() -> bool {
        true
    }

    open spec fn from_spec(arr: [u8; 4]) -> Bra<u8> {
        Bra { b: arr@[0], r: arr@[1], a: arr@[2], g: arr@[3] }
    }
}

/// Extract as a `[B, R, A, G]` array.
impl From<Bra<u8>> for [u8; 4] {
    fn from(px: Bra<u8>) -> (arr: [u8; 4]) {
        let arr = [px.b, px.r, px.a, px.g];
        assert(arr@ =~= px.bytes());
        arr
    }
}

impl vstd::std_specs::convert::FromSpecImpl<Bra<u8>> for [u8; 4] {
    open spec fn obeys_from_spec() -> bool {
        true
    }

    open spec fn from_spec(px: Bra<u8>) -> [u8; 4] {
        bytes_array(px)
    }
}

/// The array `[B, R, A, G]` of a pixel.
pub open spec fn bytes_array(px: Bra<u8>) -> [u8; 4] {
    [px.b, px.r, px.a, px.g]
}

impl Bra<u8> {
    /// The pixel's bytes in memory order: `[B, R, A, G]`.
    pub open spec fn bytes(self) -> Seq<u8> {
        seq![self.b, self.r, self.a, self.g]
    }

    /// Create a new BRAG pixel from channel values given in RGBA order; the
    /// struct stores them in BRAG order.
    pub fn new(r: u8, g: u8, b: u8, a: u8) -> (p: Self)
        ensures
            p == (Bra { b, r, a, g }),
    {
        Self { b, r, a, g }
    }

    /// Create an opaque BRAG pixel.
    pub fn opaque(r: u8, g: u8, b: u8) -> (p: Self)
        ensures
            p == (Bra { b, r, a: 255u8, g }),
    {
        Self::new(r, g, b, 255)
    }

    /// Create a fully transparent BRAG pixel (all channels zero).
    pub fn transparent() -> (p: Self)
        ensures
            p == (Bra { b: 0u8, r: 0u8, a: 0u8, g: 0u8 }),
    {
        Self::new(0, 0, 0, 0)
    }

    /// The pixel's four bytes `[B, R, A, G]` read as a native-endian `u32`.
    ///
    /// On little-endian machines B is the low byte; on big-endian ones it is
    /// the high byte.
    pub fn as_u32(self) -> (v: u32)
        ensures
            v == u32_from_bytes(endianness(), self.bytes()),
    {
        let v = u32_from_ne_bytes([self.b, self.r, self.a, self.g]);
        assert([self.b, self.r, self.a, self.g]@ =~= self.bytes());
        v
    }

    /// Construct from a native-endian `u32`: inverse of [`as_u32`](Self::as_u32).
    pub fn from_u32(v: u32) -> (p: Self)
        ensures
            p.bytes() == u32_to_bytes(endianness(), v),
    {
        let bytes = u32_to_ne_bytes(v);
        let p = Self { b: bytes[0], r: bytes[1], a: bytes[2], g: bytes[3] };
        assert(p.bytes() =~= bytes@);
        p
    }

    /// Premultiply R, G and B by alpha: `C' = round(C * A / 255)`; alpha is kept.
    pub fn premultiply(self) -> (p: Self)
        ensures
            p.b == premul_channel(self.b, self.a),
            p.r == premul_channel(self.r, self.a),
            p.a == self.a,
            p.g == premul_channel(self.g, self.a),
    {
        Self {
            b: premul_u8(self.b, self.a),
            r: premul_u8(self.r, self.a),
            a: self.a,
            g: premul_u8(self.g, self.a),
        }
    }

    /// Construct from RGBA channel values.
    pub fn from_rgba(r: u8, g: u8, b: u8, a: u8) -> (p: Self)
        ensures
            p == (Bra { b, r, a, g }),
    {
        Self::new(r, g, b, a)
    }

    /// The channels as an `(r, g, b, a)` tuple.
    pub fn to_rgba(self) -> (t: (u8, u8, u8, u8))
        ensures
            t == (self.r, self.g, self.b, self.a),
    {
        (self.r, self.g, self.b, self.a)
    }

    /// The text `BRAG(#BBRRAAGG)`, each channel as two upper-case hex digits.
    pub fn to_display_string(&self) -> (s: String)
        ensures
            s@ == seq!['B', 'R', 'A', 'G', '(', '#'] + hex_byte(self.b) + hex_byte(self.r)
                + hex_byte(self.a) + hex_byte(self.g) + seq![')'],
    {
        let mut s = String::new();
        proof {
            reveal_strlit("BRAG(#");
        }
        s.append("BRAG(#");
        push_hex_byte(&mut s, self.b);
        push_hex_byte(&mut s, self.r);
        push_hex_byte(&mut s, self.a);
        push_hex_byte(&mut s, self.g);
        proof {
            reveal_strlit(")");
        }
        s.append(")");
        s
    }
}

impl Bra<u16> {
    /// The text `BRAG(#BBRRAAGGGG)`: blue, red and alpha as two upper-case hex
    /// digits each, the 16-bit green as four.
    pub fn to_display_string(&self) -> (s: String)
        ensures
            s@ == seq!['B', 'R', 'A', 'G', '(', '#'] + hex_byte(self.b) + hex_byte(self.r)
                + hex_byte(self.a) + hex_byte((self.g / 256) as u8) + hex_byte(
                (self.g % 256) as u8,
            ) + seq![')'],
    {
        let mut s = String::new();
        proof {
            reveal_strlit("BRAG(#");
        }
        s.append("BRAG(#");
        push_hex_byte(&mut s, self.b);
        push_hex_byte(&mut s, self.r);
        push_hex_byte(&mut s, self.a);
        push_hex_byte(&mut s, (self.g / 256) as u8);
        push_hex_byte(&mut s, (self.g % 256) as u8);
        proof {
            reveal_strlit(")");
        }
        s.append(")");
        s
    }
}

/// The upper-case hexadecimal digit of `n < 16`.
pub open spec fn hex_digit(n: int) -> char {
    if n < 10 {
        (48 + n) as char
    } else {
        (55 + n) as char
    }
}

/// The two upper-case hexadecimal digits of a byte.
pub open spec fn hex_byte(x: u8) -> Seq<char> {
    seq![hex_digit((x / 16) as int), hex_digit((x % 16) as int)]
}

/// The value of an upper-case hexadecimal digit character (`'0'..='9'` is
/// 0 to 9, `'A'..='F'` is 10 to 15); -1 for any other character.
pub open spec fn hex_value(c: char) -> int {
    if '0' <= c && c <= '9' {
        c as int - '0' as int
    } else if 'A' <= c && c <= 'F' {
        c as int - 'A' as int + 10
    } else {
        -1
    }
}

/// The two characters printed for a byte are upper-case hexadecimal digits
/// that read back in base 16 as the byte.
pub proof fn lemma_hex_byte_reads_back(x: u8)
    ensures
        hex_byte(x).len() == 2,
        0 <= hex_value(hex_byte(x)[0]) < 16,
        0 <= hex_value(hex_byte(x)[1]) < 16,
        16 * hex_value(hex_byte(x)[0]) + hex_value(hex_byte(x)[1]) == x,
{
    let hi = (x / 16) as int;
    let lo = (x % 16) as int;
    assert(16 * hi + lo == x);
}

/// The text `to_display_string` gives for a `Bra<u8>` is `BRAG(#`, eight
/// upper-case hexadecimal digits that read back as b, r, a and g in that
/// order, and `)`.
pub proof fn lemma_display_reads_back(p: Bra<u8>)
    ensures
        ({
            let t = seq!['B', 'R', 'A', 'G', '(', '#'] + hex_byte(p.b) + hex_byte(p.r)
                + hex_byte(p.a) + hex_byte(p.g) + seq![')'];
            &&& t.len() == 15
            &&& t.take(6) == seq!['B', 'R', 'A', 'G', '(', '#']
            &&& t[14] == ')'
            &&& forall|i: int| 6 <= i < 14 ==> 0 <= #[trigger] hex_value(t[i]) < 16
            &&& 16 * hex_value(t[6]) + hex_value(t[7]) == p.b
            &&& 16 * hex_value(t[8]) + hex_value(t[9]) == p.r
            &&& 16 * hex_value(t[10]) + hex_value(t[11]) == p.a
            &&& 16 * hex_value(t[12]) + hex_value(t[13]) == p.g
        }),
{
    lemma_hex_byte_reads_back(p.b);
    lemma_hex_byte_reads_back(p.r);
    lemma_hex_byte_reads_back(p.a);
    lemma_hex_byte_reads_back(p.g);
    let t = seq!['B', 'R', 'A', 'G', '(', '#'] + hex_byte(p.b) + hex_byte(p.r) + hex_byte(p.a)
        + hex_byte(p.g) + seq![')'];
    assert(t[6] == hex_byte(p.b)[0] && t[7] == hex_byte(p.b)[1]);
    assert(t[8] == hex_byte(p.r)[0] && t[9] == hex_byte(p.r)[1]);
    assert(t[10] == hex_byte(p.a)[0] && t[11] == hex_byte(p.a)[1]);
    assert(t[12] == hex_byte(p.g)[0] && t[13] == hex_byte(p.g)[1]);
    assert(t.take(6) =~= seq!['B', 'R', 'A', 'G', '(', '#']);
}

/// The hexadecimal digit of `n < 16` as a string.
fn hex_digit_str(n: u8) -> (d: &'static str)
    requires
        n < 16,
    ensures
        d@ == seq![hex_digit(n as int)],
{
    proof {
        reveal_strlit("0");
        reveal_strlit("1");
        reveal_strlit("2");
        reveal_strlit("3");
        reveal_strlit("4");
        reveal_strlit("5");
        reveal_strlit("6");
        reveal_strlit("7");
        reveal_strlit("8");
        reveal_strlit("9");
        reveal_strlit("A");
        reveal_strlit("B");
        reveal_strlit("C");
        reveal_strlit("D");
        reveal_strlit("E");
        reveal_strlit("F");
    }
    match n {
        0 => "0",
        1 => "1",
        2 => "2",
        3 => "3",
        4 => "4",
        5 => "5",
        6 => "6",
        7 => "7",
        8 => "8",
        9 => "9",
        10 => "A",
        11 => "B",
        12 => "C",
        13 => "D",
        14 => "E",
        _ => "F",
    }
}

/// Append the two hexadecimal digits of `x`.
fn push_hex_byte(s: &mut String, x: u8)
    ensures
        final(s)@ == old(s)@ + hex_byte(x),
{
    s.append(hex_digit_str(x / 16));
    s.append(hex_digit_str(x % 16));
    assert(final(s)@ =~= old(s)@ + hex_byte(x));
}

/// The `u32` whose bytes, in the byte order `e`, are `b[0..4]`.
pub open spec fn u32_from_bytes(e: Endian, b: Seq<u8>) -> u32 {
    match e {
        Endian::Little => (b[0] + 256 * b[1] + 65536 * b[2] + 16777216 * b[3]) as u32,
        Endian::Big => (b[3] + 256 * b[2] + 65536 * b[1] + 16777216 * b[0]) as u32,
    }
}

/// The four bytes of `v` in the byte order `e`.
pub open spec fn u32_to_bytes(e: Endian, v: u32) -> Seq<u8> {
    let le = seq![
        (v % 256) as u8,
        (v / 256 % 256) as u8,
        (v / 65536 % 256) as u8,
        (v / 16777216) as u8,
    ];
    match e {
        Endian::Little => le,
        Endian::Big => le.reverse(),
    }
}

// ── Laws ───────────────────────────────────────────────────────────

proof fn lemma_u32_bytes_le(b0: u8, b1: u8, b2: u8, b3: u8, v: u32)
    requires
        v == (b0 + 256 * b1 + 65536 * b2 + 16777216 * b3) as u32,
    ensures
        v % 256 == b0,
        v / 256 % 256 == b1,
        v / 65536 % 256 == b2,
        v / 16777216 == b3,
{
    assert(v % 256 == b0 && v / 256 % 256 == b1 && v / 65536 % 256 == b2 && v / 16777216 == b3)
        by (bit_vector)
        requires
            v == (b0 + 256 * b1 + 65536 * b2 + 16777216 * b3) as u32,
    ;
}

proof fn lemma_u32_split(v: u32)
    ensures
        v == ((v % 256) as u8 + 256 * ((v / 256 % 256) as u8) + 65536 * ((v / 65536 % 256) as u8)
            + 16777216 * ((v / 16777216) as u8)) as u32,
{
    assert(v == ((v % 256) as u8 + 256 * ((v / 256 % 256) as u8) + 65536 * ((v / 65536 % 256) as u8)
        + 16777216 * ((v / 16777216) as u8)) as u32) by (bit_vector);
}

/// Reading four bytes as a `u32` and splitting it again gives the bytes back,
/// in either byte order; and splitting a `u32` and reading the bytes back
/// gives the `u32`.
pub proof fn lemma_u32_bytes_round_trip(e: Endian, b: Seq<u8>, v: u32)
    requires
        b.len() == 4,
    ensures
        u32_to_bytes(e, u32_from_bytes(e, b)) == b,
        u32_from_bytes(e, u32_to_bytes(e, v)) == v,
{
    match e {
        Endian::Little => {
            lemma_u32_bytes_le(b[0], b[1], b[2], b[3], u32_from_bytes(e, b));
        },
        Endian::Big => {
            lemma_u32_bytes_le(b[3], b[2], b[1], b[0], u32_from_bytes(e, b));
        },
    }
    assert(u32_to_bytes(e, u32_from_bytes(e, b)) =~= b);
    lemma_u32_split(v);
}

/// Two pixels with the same four bytes are the same pixel.
pub proof fn lemma_bytes_determine_pixel(p: Bra<u8>, q: Bra<u8>)
    requires
        p.bytes() == q.bytes(),
    ensures
        p == q,
{
    assert(p.bytes()[0] == q.bytes()[0]);
    assert(p.bytes()[1] == q.bytes()[1]);
    assert(p.bytes()[2] == q.bytes()[2]);
    assert(p.bytes()[3] == q.bytes()[3]);
}

/// `from_u32` undoes `as_u32`: the pixel whose bytes are those of the `u32`
/// read from `p` is `p`.  And `as_u32` undoes `from_u32`: the `u32` read from
/// the bytes of `v` is `v`.
pub proof fn lemma_as_u32_round_trip(p: Bra<u8>, q: Bra<u8>, v: u32)
    ensures
        q.bytes() == u32_to_bytes(endianness(), u32_from_bytes(endianness(), p.bytes())) ==> q
            == p,
        u32_from_bytes(endianness(), u32_to_bytes(endianness(), v)) == v,
{
    lemma_u32_bytes_round_trip(endianness(), p.bytes(), v);
    if q.bytes() == u32_to_bytes(endianness(), u32_from_bytes(endianness(), p.bytes())) {
        lemma_bytes_determine_pixel(p, q);
    }
}

/// The transparent pixel reads as the `u32` zero in either byte order.
pub proof fn lemma_transparent_is_zero(e: Endian)
    ensures
        u32_from_bytes(e, (Bra { b: 0u8, r: 0u8, a: 0u8, g: 0u8 }).bytes()) == 0,
{
}

/// The conversions between `Bra<u8>`, `Brag<u8>` and `[u8; 4]` keep the four
/// bytes in place, so each pair undoes itself.
pub proof fn lemma_pixel_conversions_round_trip(p: Bra<u8>, q: Brag<u8>, arr: [u8; 4])
    ensures
        <Bra<u8> as vstd::std_specs::convert::FromSpec<Brag<u8>>>::from_spec(
            <Brag<u8> as vstd::std_specs::convert::FromSpec<Bra<u8>>>::from_spec(p),
        ) == p,
        <Brag<u8> as vstd::std_specs::convert::FromSpec<Bra<u8>>>::from_spec(
            <Bra<u8> as vstd::std_specs::convert::FromSpec<Brag<u8>>>::from_spec(q),
        ) == q,
        <Bra<u8> as vstd::std_specs::convert::FromSpec<[u8; 4]>>::from_spec(
            <[u8; 4] as vstd::std_specs::convert::FromSpec<Bra<u8>>>::from_spec(p),
        ) == p,
        <[u8; 4] as vstd::std_specs::convert::FromSpec<Bra<u8>>>::from_spec(
            <Bra<u8> as vstd::std_specs::convert::FromSpec<[u8; 4]>>::from_spec(arr),
        ) == arr,
{
    assert(bytes_array(p)@ =~= p.bytes());
    let p2 = <Bra<u8> as vstd::std_specs::convert::FromSpec<Brag<u8>>>::from_spec(q);
    assert(bytes_array(p2)@ =~= q.0@);
    assert(bytes_array(p2) == q.0);
    let p3 = <Bra<u8> as vstd::std_specs::convert::FromSpec<[u8; 4]>>::from_spec(arr);
    assert(bytes_array(p3)@ =~= arr@);
}

/// Premultiplying one pixel agrees with premultiplying a buffer that holds it.
pub proof fn lemma_pixel_premultiply_matches_buffer(p: Bra<u8>)
    ensures
        crate::composite::premultiplied(p.bytes()) == seq![
            premul_channel(p.b, p.a),
            premul_channel(p.r, p.a),
            p.a,
            premul_channel(p.g, p.a),
        ],
{
    assert(crate::composite::premultiplied(p.bytes()) =~= seq![
        premul_channel(p.b, p.a),
        premul_channel(p.r, p.a),
        p.a,
        premul_channel(p.g, p.a),
    ]);
}

/// `u32::from_ne_bytes`: the bytes read in this machine's byte order
/// (`vstd::endian::endianness()`).
#[verifier::external_body]
fn u32_from_ne_bytes(bytes: [u8; 4]) -> (v: u32)
    ensures
        v == u32_from_bytes(endianness(), bytes@),
{
    u32::from_ne_bytes(bytes)
}

/// `u32::to_ne_bytes`: the bytes of `v` in this machine's byte order
/// (`vstd::endian::endianness()`).
#[verifier::external_body]
fn u32_to_ne_bytes(v: u32) -> (bytes: [u8; 4])
    ensures
        bytes@ == u32_to_bytes(endianness(), v),
{
    v.to_ne_bytes()
}

} // verus!
