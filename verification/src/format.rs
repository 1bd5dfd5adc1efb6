//! Pixel format descriptors: ordered sequences of channel roles, and the
//! distance between alpha and the two luminance-dominant channels (red and
//! green) in each of them.
use vstd::prelude::*;

verus! {

/// A channel role within a pixel format.
#[derive(Copy, Clone, Debug, PartialEq, Eq, Hash, Structural)]
pub enum Channel {
    /// Red.
    R,
    /// Green.
    G,
    /// Blue.
    B,
    /// Alpha.
    A,
}

/// A pixel format descriptor: an ordered sequence of three or four channels.
///
/// For a three-channel format the fourth slot holds `Channel::A` as
/// padding; it is never read as part of the format.
#[derive(Copy, Clone, Debug, Eq, Hash)]
pub struct PixelFormat {
    channels: [Channel; 4],
    count: u8,
}

impl PixelFormat {
    /// A format has three or four channels.
    #[verifier::type_invariant]
    pub closed spec fn wf(self) -> bool {
        self.count == 3 || self.count == 4
    }

    /// The four channel slots (the fourth is padding in a three-channel format).
    pub closed spec fn slots(self) -> Seq<Channel> {
        self.channels@
    }

    /// The number of channels.
    pub closed spec fn count_spec(self) -> nat {
        self.count as nat
    }

    /// The ordering of the channels, of length `count_spec()`.
    pub open spec fn order_spec(self) -> Seq<Channel> {
        self.slots().take(self.count_spec() as int)
    }

    /// Where alpha stands: `None` for a three-channel format, else the first
    /// slot that holds alpha, if any.
    pub open spec fn alpha_index_spec(self) -> Option<usize> {
        if self.count_spec() < 4 {
            None
        } else if self.slots()[0] == Channel::A {
            Some(0)
        } else if self.slots()[1] == Channel::A {
            Some(1)
        } else if self.slots()[2] == Channel::A {
            Some(2)
        } else if self.slots()[3] == Channel::A {
            Some(3)
        } else {
            None
        }
    }

    /// Distance from slot `i` to slot `a` if slot `i` is one of the format's
    /// channels and holds `ch`; `usize::MAX` otherwise.
    pub open spec fn slot_distance(self, i: int, ch: Channel, a: int) -> int {
        if i < self.count_spec() && self.slots()[i] == ch {
            if i > a {
                i - a
            } else {
                a - i
            }
        } else {
            usize::MAX as int
        }
    }

    /// The smallest distance between slot `a` and a slot that holds `ch`,
    /// or `usize::MAX` when no slot of the format holds `ch`.
    pub open spec fn nearest_distance(self, ch: Channel, a: int) -> int {
        min_int(
            min_int(self.slot_distance(0, ch, a), self.slot_distance(1, ch, a)),
            min_int(self.slot_distance(2, ch, a), self.slot_distance(3, ch, a)),
        )
    }

    /// The pair (nearest red, nearest green) distances from alpha, when the
    /// format has an alpha channel.
    pub open spec fn triad_distance_spec(self) -> Option<(usize, usize)> {
        match self.alpha_index_spec() {
            Some(a) => Some(
                (
                    self.nearest_distance(Channel::R, a as int) as usize,
                    self.nearest_distance(Channel::G, a as int) as usize,
                ),
            ),
            None => None,
        }
    }

    /// Alpha is adjacent to both red and green.
    pub open spec fn optimal_spec(self) -> bool {
        match self.triad_distance_spec() {
            Some((r, g)) => r == 1 && g == 1,
            None => false,
        }
    }

    /// Define a 4-channel pixel format.
    pub fn four(a: Channel, b: Channel, c: Channel, d: Channel) -> (f: Self)
        ensures
            f.slots() == seq![a, b, c, d],
            f.count_spec() == 4,
    {
        let f = Self { channels: [a, b, c, d], count: 4 };
        assert(f.channels@ =~= seq![a, b, c, d]);
        f
    }

    /// Define a 3-channel pixel format (no alpha).
    pub fn three(a: Channel, b: Channel, c: Channel) -> (f: Self)
        ensures
            f.slots() == seq![a, b, c, Channel::A],
            f.count_spec() == 3,
    {
        let f = Self { channels: [a, b, c, Channel::A], count: 3 };
        assert(f.channels@ =~= seq![a, b, c, Channel::A]);
        f
    }

    /// The channel ordering as a slice (length equals `channel_count`).
    pub fn order(&self) -> (r: &[Channel])
        ensures
            r@ == self.order_spec(),
            r@.len() == self.count_spec(),
            self.count_spec() == 3 || self.count_spec() == 4,
    {
        proof {
            use_type_invariant(self);
        }
        let all: &[Channel] = self.channels.as_slice();
        let (head, _) = all.split_at(self.count as usize);
        head
    }

    /// Number of channels (3 or 4).
    pub fn channel_count(&self) -> (n: usize)
        ensures
            n == self.count_spec(),
            n == 3 || n == 4,
    {
        proof {
            use_type_invariant(self);
        }
        self.count as usize
    }

    /// Returns the byte index of the alpha channel, if present.
    pub fn alpha_index(&self) -> (r: Option<usize>)
        ensures
            r == self.alpha_index_spec(),
    {
        if self.count < 4 {
            return None;
        }
        let mut i: usize = 0;
        while i < 4
            invariant
                i <= 4,
                self.count_spec() >= 4,
                forall|j: int| 0 <= j < i ==> self.slots()[j] != Channel::A,
            decreases 4 - i,
        {
            if self.channels[i] == Channel::A {
                return Some(i);
            }
            i += 1;
        }
        None
    }

    /// Returns the minimum byte distances between the alpha channel and the
    /// nearest red and nearest green channels; `usize::MAX` stands for a
    /// channel that the format lacks.  `None` when the format has no alpha.
    pub fn compositing_triad_distance(&self) -> (r: Option<(usize, usize)>)
        ensures
            r == self.triad_distance_spec(),
    {
        proof {
            use_type_invariant(self);
        }
        let a_idx = match self.alpha_index() {
            Some(i) => i,
            None => return None,
        };
        let mut r_dist: usize = usize::MAX;
        let mut g_dist: usize = usize::MAX;
        let mut i: usize = 0;
        let n: usize = self.count as usize;
        while i < n
            invariant
                n == self.count_spec(),
                n <= 4,
                i <= n,
                a_idx < 4,
                r_dist == prefix_min(*self, Channel::R, a_idx as int, i as int),
                g_dist == prefix_min(*self, Channel::G, a_idx as int, i as int),
            decreases n - i,
        {
            let d: usize = if i > a_idx {
                i - a_idx
            } else {
                a_idx - i
            };
            match self.channels[i] {
                Channel::R => {
                    if d < r_dist {
                        r_dist = d;
                    }
                },
                Channel::G => {
                    if d < g_dist {
                        g_dist = d;
                    }
                },
                _ => {},
            }
            i += 1;
        }
        proof {
            lemma_prefix_min_full(*self, Channel::R, a_idx as int, n as int);
            lemma_prefix_min_full(*self, Channel::G, a_idx as int, n as int);
        }
        Some((r_dist, g_dist))
    }

    /// Whether alpha is adjacent to both R and G (distance 1 each).
    pub fn has_optimal_compositing_triad(&self) -> (b: bool)
        ensures
            b == self.optimal_spec(),
    {
        match self.compositing_triad_distance() {
            Some((r, g)) => r == 1 && g == 1,
            None => false,
        }
    }
}

impl PartialEq for PixelFormat {
    fn eq(&self, other: &Self) -> (r: bool) {
        let r = self.count == other.count && self.channels[0] == other.channels[0]
            && self.channels[1] == other.channels[1] && self.channels[2] == other.channels[2]
            && self.channels[3] == other.channels[3];
        proof {
            if r {
                assert(self.channels@ =~= other.channels@);
            }
        }
        r
    }
}

impl vstd::std_specs::cmp::PartialEqSpecImpl for PixelFormat {
    open spec fn obeys_eq_spec() -> bool {
        true
    }

    open spec fn eq_spec(&self, other: &Self) -> bool {
        self.same_as(*other)
    }
}

impl PixelFormat {
    /// Two formats hold the same channels in the same slots.
    pub open spec fn same_as(self, other: Self) -> bool {
        self.slots() == other.slots() && self.count_spec() == other.count_spec()
    }
}

/// **BRAG**: Blue, Red, Alpha, Green.
#[allow(non_snake_case)]
pub fn BRAG() -> (f: PixelFormat)
    ensures
        f.slots() == seq![Channel::B, Channel::R, Channel::A, Channel::G],
        f.count_spec() == 4,
{
    PixelFormat::four(Channel::B, Channel::R, Channel::A, Channel::G)
}

/// The optimal format: BRAG, by another name.
#[allow(non_snake_case)]
pub fn OPTIMAL() -> (f: PixelFormat)
    ensures
        f.slots() == seq![Channel::B, Channel::R, Channel::A, Channel::G],
        f.count_spec() == 4,
{
    BRAG()
}

/// RGBA.
#[allow(non_snake_case)]
pub fn RGBA() -> (f: PixelFormat)
    ensures
        f.slots() == seq![Channel::R, Channel::G, Channel::B, Channel::A],
        f.count_spec() == 4,
{
    PixelFormat::four(Channel::R, Channel::G, Channel::B, Channel::A)
}

/// RGBA, under its legacy name.
#[allow(non_snake_case)]
pub fn LEGACY_RGBA() -> (f: PixelFormat)
    ensures
        f.slots() == seq![Channel::R, Channel::G, Channel::B, Channel::A],
        f.count_spec() == 4,
{
    RGBA()
}

/// BGRA.
#[allow(non_snake_case)]
pub fn BGRA() -> (f: PixelFormat)
    ensures
        f.slots() == seq![Channel::B, Channel::G, Channel::R, Channel::A],
        f.count_spec() == 4,
{
    PixelFormat::four(Channel::B, Channel::G, Channel::R, Channel::A)
}

/// BGRA, under its legacy name.
#[allow(non_snake_case)]
pub fn LEGACY_BGRA() -> (f: PixelFormat)
    ensures
        f.slots() == seq![Channel::B, Channel::G, Channel::R, Channel::A],
        f.count_spec() == 4,
{
    BGRA()
}

/// ARGB.
#[allow(non_snake_case)]
pub fn ARGB() -> (f: PixelFormat)
    ensures
        f.slots() == seq![Channel::A, Channel::R, Channel::G, Channel::B],
        f.count_spec() == 4,
{
    PixelFormat::four(Channel::A, Channel::R, Channel::G, Channel::B)
}

/// ARGB, under its legacy name.
#[allow(non_snake_case)]
pub fn LEGACY_ARGB() -> (f: PixelFormat)
    ensures
        f.slots() == seq![Channel::A, Channel::R, Channel::G, Channel::B],
        f.count_spec() == 4,
{
    ARGB()
}

/// ARGB, under an editorial name.
#[allow(non_snake_case)]
pub fn UNFORTUNATE() -> (f: PixelFormat)
    ensures
        f.slots() == seq![Channel::A, Channel::R, Channel::G, Channel::B],
        f.count_spec() == 4,
{
    ARGB()
}

/// ABGR.
#[allow(non_snake_case)]
pub fn ABGR() -> (f: PixelFormat)
    ensures
        f.slots() == seq![Channel::A, Channel::B, Channel::G, Channel::R],
        f.count_spec() == 4,
{
    PixelFormat::four(Channel::A, Channel::B, Channel::G, Channel::R)
}

/// RGB: three channels, no alpha.
#[allow(non_snake_case)]
pub fn RGB() -> (f: PixelFormat)
    ensures
        f.slots() == seq![Channel::R, Channel::G, Channel::B, Channel::A],
        f.count_spec() == 3,
{
    PixelFormat::three(Channel::R, Channel::G, Channel::B)
}

/// BGR: three channels, no alpha.
#[allow(non_snake_case)]
pub fn BGR() -> (f: PixelFormat)
    ensures
        f.slots() == seq![Channel::B, Channel::G, Channel::R, Channel::A],
        f.count_spec() == 3,
{
    PixelFormat::three(Channel::B, Channel::G, Channel::R)
}

/// BRG: three channels, no alpha.
#[allow(non_snake_case)]
pub fn BRG() -> (f: PixelFormat)
    ensures
        f.slots() == seq![Channel::B, Channel::R, Channel::G, Channel::A],
        f.count_spec() == 3,
{
    PixelFormat::three(Channel::B, Channel::R, Channel::G)
}

/// Whether the format places alpha next to both red and green.
pub fn is_optimal(fmt: &PixelFormat) -> (b: bool)
    ensures
        b == fmt.optimal_spec(),
{
    fmt.has_optimal_compositing_triad()
}

/// The format is BRAG.
pub open spec fn is_brag(f: PixelFormat) -> bool {
    f.count_spec() == 4 && f.slots() == seq![Channel::B, Channel::R, Channel::A, Channel::G]
}

/// The format is RGBA.
pub open spec fn is_rgba(f: PixelFormat) -> bool {
    f.count_spec() == 4 && f.slots() == seq![Channel::R, Channel::G, Channel::B, Channel::A]
}

/// The format is BGRA.
pub open spec fn is_bgra(f: PixelFormat) -> bool {
    f.count_spec() == 4 && f.slots() == seq![Channel::B, Channel::G, Channel::R, Channel::A]
}

/// A four-channel format whose slots hold four different channels, i.e. an
/// ordering of R, G, B and A.
pub open spec fn is_permutation_format(f: PixelFormat) -> bool {
    &&& f.count_spec() == 4
    &&& forall|i: int, j: int| 0 <= i < j < 4 ==> f.slots()[i] != f.slots()[j]
}

/// Of the 24 orderings of R, G, B and A, exactly four place alpha next to
/// both red and green: BRAG, BGAR, RAGB and GARB.  Alpha must stand in one of
/// the two middle slots, flanked by red and green, with blue at the free end.
pub proof fn lemma_optimal_orderings(f: PixelFormat)
    requires
        is_permutation_format(f),
    ensures
        f.optimal_spec() <==> (f.slots() == seq![Channel::B, Channel::R, Channel::A, Channel::G]
            || f.slots() == seq![Channel::B, Channel::G, Channel::A, Channel::R] || f.slots()
            == seq![Channel::R, Channel::A, Channel::G, Channel::B] || f.slots() == seq![
            Channel::G,
            Channel::A,
            Channel::R,
            Channel::B,
        ]),
{
    let s = f.slots();
    assert(s.len() == 4);
    assert(s[0] != s[1] && s[0] != s[2] && s[0] != s[3] && s[1] != s[2] && s[1] != s[3] && s[2]
        != s[3]);
    if f.optimal_spec() {
        assert(s =~= seq![s[0], s[1], s[2], s[3]]);
    } else {
        assert(s != seq![Channel::B, Channel::R, Channel::A, Channel::G]);
        assert(s != seq![Channel::B, Channel::G, Channel::A, Channel::R]);
        assert(s != seq![Channel::R, Channel::A, Channel::G, Channel::B]);
        assert(s != seq![Channel::G, Channel::A, Channel::R, Channel::B]);
    }
}

/// Every format has four slots; its channels are the first `count_spec()`
/// of them.  (That a format's count is 3 or 4 is its type invariant, which
/// `channel_count` and `order` state of any format value they are called on.)
pub proof fn lemma_format_shape(f: PixelFormat)
    ensures
        f.slots().len() == 4,
        f.count_spec() <= 4 ==> f.order_spec().len() == f.count_spec(),
        f.count_spec() <= 4 ==> forall|i: int| 0 <= i < f.count_spec() ==> f.order_spec()[i]
            == f.slots()[i],
{
}

/// No channel can be nearer to alpha than one slot, so a distance of one
/// each to red and green is the best any format can do.
pub proof fn lemma_triad_distance_at_least_one(f: PixelFormat)
    ensures
        f.triad_distance_spec() matches Some((r, g)) ==> r >= 1 && g >= 1,
{
}

/// A format without alpha (three channels) never has optimal placement.
pub proof fn lemma_three_channel_not_optimal(f: PixelFormat)
    requires
        f.count_spec() == 3,
    ensures
        !f.optimal_spec(),
        f.alpha_index_spec() is None,
        f.triad_distance_spec() is None,
{
}

/// `is_optimal` and `has_optimal_compositing_triad` agree, and both hold
/// exactly when both triad distances are one.
pub proof fn lemma_optimal_means_adjacent(f: PixelFormat)
    ensures
        f.optimal_spec() <==> (f.alpha_index_spec() is Some && f.nearest_distance(
            Channel::R,
            f.alpha_index_spec().unwrap() as int,
        ) == 1 && f.nearest_distance(Channel::G, f.alpha_index_spec().unwrap() as int) == 1),
{
}

/// The distance between two slots.
pub open spec fn slot_gap(i: int, j: int) -> int {
    if i >= j {
        i - j
    } else {
        j - i
    }
}

/// A format (with three or four channels) holds `ch` in slot `i`.
pub open spec fn holds(f: PixelFormat, i: int, ch: Channel) -> bool {
    0 <= i < f.count_spec() && i < 4 && f.slots()[i] == ch
}

/// The distance reported for `ch` is the gap between alpha's slot and the
/// nearest slot that holds `ch`: no slot holding `ch` is nearer, and some slot
/// holding `ch` is exactly that far; `usize::MAX` when no slot holds `ch`.
pub proof fn lemma_triad_distance_is_nearest_gap(f: PixelFormat, ch: Channel, a: int)
    requires
        f.count_spec() <= 4,
        0 <= a < 4,
    ensures
        forall|j: int| holds(f, j, ch) ==> f.nearest_distance(ch, a) <= slot_gap(j, a),
        (exists|j: int| holds(f, j, ch)) ==> (exists|j: int|
            holds(f, j, ch) && f.nearest_distance(ch, a) == slot_gap(j, a)),
        !(exists|j: int| holds(f, j, ch)) ==> f.nearest_distance(ch, a) == usize::MAX,
{
    assert forall|j: int| holds(f, j, ch) implies f.nearest_distance(ch, a) <= slot_gap(j, a) by {
        assert(j == 0 || j == 1 || j == 2 || j == 3);
    }
    if exists|j: int| holds(f, j, ch) {
        let d = f.nearest_distance(ch, a);
        if holds(f, 0, ch) && d == slot_gap(0, a) {
        } else if holds(f, 1, ch) && d == slot_gap(1, a) {
        } else if holds(f, 2, ch) && d == slot_gap(2, a) {
        } else {
            let j = choose|j: int| holds(f, j, ch);
            assert(j == 0 || j == 1 || j == 2 || j == 3);
            assert(holds(f, 3, ch) && d == slot_gap(3, a));
        }
    } else {
        assert(!holds(f, 0, ch) && !holds(f, 1, ch) && !holds(f, 2, ch) && !holds(f, 3, ch));
    }
}

/// What `compositing_triad_distance` reports: for a format with alpha, each
/// of the red and green distances is the gap from alpha's slot to the nearest
/// slot holding that channel (`usize::MAX` when there is none).
pub proof fn lemma_triad_distance_meaning(f: PixelFormat)
    requires
        f.count_spec() <= 4,
    ensures
        f.triad_distance_spec() matches Some((r, g)) ==> {
            let a = f.alpha_index_spec().unwrap() as int;
            &&& holds(f, a, Channel::A)
            &&& forall|j: int| holds(f, j, Channel::R) ==> r <= slot_gap(j, a)
            &&& forall|j: int| holds(f, j, Channel::G) ==> g <= slot_gap(j, a)
            &&& (exists|j: int| holds(f, j, Channel::R)) ==> (exists|j: int|
                holds(f, j, Channel::R) && r == slot_gap(j, a))
            &&& (exists|j: int| holds(f, j, Channel::G)) ==> (exists|j: int|
                holds(f, j, Channel::G) && g == slot_gap(j, a))
            &&& !(exists|j: int| holds(f, j, Channel::R)) ==> r == usize::MAX
            &&& !(exists|j: int| holds(f, j, Channel::G)) ==> g == usize::MAX
        },
{
    if let Some(a) = f.alpha_index_spec() {
        lemma_triad_distance_is_nearest_gap(f, Channel::R, a as int);
        lemma_triad_distance_is_nearest_gap(f, Channel::G, a as int);
    }
}

/// Two formats are equal exactly when they have the same channels in the
/// same order (same count included) and the same padding; in particular a
/// three-channel format never equals a four-channel one.
pub proof fn lemma_equal_formats(f: PixelFormat, g: PixelFormat)
    requires
        f.count_spec() <= 4,
        g.count_spec() <= 4,
    ensures
        f.same_as(g) ==> f.order_spec() == g.order_spec(),
        f.same_as(g) ==> f.order_spec().len() == g.order_spec().len(),
        f.order_spec() == g.order_spec() && f.slots() == g.slots() ==> f.same_as(g),
        f.count_spec() != g.count_spec() ==> !f.same_as(g),
{
    if f.order_spec() == g.order_spec() {
        assert(f.order_spec().len() == g.order_spec().len());
    }
}

/// The smaller of two integers.
pub open spec fn min_int(x: int, y: int) -> int {
    if x <= y {
        x
    } else {
        y
    }
}

/// The nearest distance from slot `a` to a slot below `i` that holds `ch`.
spec fn prefix_min(f: PixelFormat, ch: Channel, a: int, i: int) -> int
    decreases i,
{
    if i <= 0 {
        usize::MAX as int
    } else {
        min_int(prefix_min(f, ch, a, i - 1), f.slot_distance(i - 1, ch, a))
    }
}

proof fn lemma_prefix_min_full(f: PixelFormat, ch: Channel, a: int, n: int)
    requires
        n == f.count_spec(),
        n == 3 || n == 4,
        0 <= a < 4,
    ensures
        prefix_min(f, ch, a, n) == f.nearest_distance(ch, a),
{
    assert(prefix_min(f, ch, a, 0) == usize::MAX as int);
    assert(prefix_min(f, ch, a, 1) == min_int(usize::MAX as int, f.slot_distance(0, ch, a)));
    assert(prefix_min(f, ch, a, 2) == min_int(prefix_min(f, ch, a, 1), f.slot_distance(1, ch, a)));
    assert(prefix_min(f, ch, a, 3) == min_int(prefix_min(f, ch, a, 2), f.slot_distance(2, ch, a)));
    assert(prefix_min(f, ch, a, 4) == min_int(prefix_min(f, ch, a, 3), f.slot_distance(3, ch, a)));
}

} // verus!
