use vstd::prelude::*;
use vstd::arithmetic::div_mod::{lemma_fundamental_div_mod, lemma_div_pos_is_pos, lemma_mod_bound};
use crate::bands::{edge_of, is_band, lemma_band_edge, BandEdge};
use crate::length::{Length, Ratio};

verus! {

/// Feet times megahertz of a half-wave dipole: its length in feet is this
/// constant over the frequency.
pub const HALF_WAVE: u64 = 468;

/// Feet times megahertz of a quarter wave.
pub const QUARTER_WAVE: u64 = 234;

/// The mathematical value of a segment.
pub struct Window {
    pub start: Ratio,
    pub end: Ratio,
}

impl Window {
    /// The window times `p / q`.
    pub open spec fn scaled(self, p: nat, q: nat) -> Window {
        Window { start: self.start.scaled(p, q), end: self.end.scaled(p, q) }
    }
}

/// One length window: the wire lengths between which a high-voltage node
/// of one harmonic falls.
#[derive(Clone, Copy, Debug)]
pub struct Segment {
    pub start: Length,
    pub end: Length,
}

impl View for Segment {
    type V = Window;

    open spec fn view(&self) -> Window {
        Window { start: self.start@, end: self.end@ }
    }
}

impl Segment {
    /// Both ends are fractions, and the start is not beyond the end.
    pub open spec fn wf(self) -> bool {
        &&& self.start.wf()
        &&& self.end.wf()
        &&& self.start@.le(self.end@)
    }

    /// Both ends can be scaled to metres.
    pub open spec fn fits_metric(self) -> bool {
        self.start.fits_metric() && self.end.fits_metric()
    }
}

/// The mathematical values of a run of segments.
pub open spec fn windows(segments: Seq<Segment>) -> Seq<Window> {
    Seq::new(segments.len(), |i: int| segments[i]@)
}

/// Half a wave at the band's high edge: the shorter of its two lengths.
pub open spec fn len_low(edge: BandEdge) -> Ratio {
    Ratio { num: HALF_WAVE as nat, den: edge.freq_high as nat }
}

/// Half a wave at the band's low edge: the longer of its two lengths.
pub open spec fn len_high(edge: BandEdge) -> Ratio {
    Ratio { num: HALF_WAVE as nat, den: edge.freq_low as nat }
}

/// How many harmonics of a band fit below a cutoff: the cutoff over the
/// band's shorter length, rounded down.
pub open spec fn harmonic_count(edge: BandEdge, len_max: Ratio) -> nat {
    ((len_max.num * edge.freq_high) / (len_max.den * HALF_WAVE)) as nat
}

/// The window of harmonic `n` of a band: `n` times its two lengths.
pub open spec fn harmonic(edge: BandEdge, n: nat) -> Window {
    Window { start: len_low(edge).scaled(n, 1), end: len_high(edge).scaled(n, 1) }
}

/// The windows of the harmonics 1 to `harmonic_count` of a band.
pub open spec fn harmonics(edge: BandEdge, len_max: Ratio) -> Seq<Window> {
    Seq::new(harmonic_count(edge, len_max), |i: int| harmonic(edge, (i + 1) as nat))
}

/// The harmonic count is the largest `n` for which `n` times the band's
/// shorter length is within the cutoff.
pub proof fn lemma_harmonic_count_is_floor(edge: BandEdge, len_max: Ratio, n: nat)
    requires
        edge.wf(),
        len_max.wf(),
    ensures
        n <= harmonic_count(edge, len_max) <==> len_low(edge).scaled(n, 1).le(len_max),
{
    let x: int = (len_max.num * edge.freq_high) as int;
    let d: int = (len_max.den * HALF_WAVE) as int;
    assert(d > 0) by (nonlinear_arith)
        requires
            d == len_max.den * 468,
            len_max.den > 0,
    ;
    assert(x >= 0) by (nonlinear_arith)
        requires
            x == len_max.num * edge.freq_high,
    ;
    lemma_fundamental_div_mod(x, d);
    lemma_mod_bound(x, d);
    let q: int = x / d;
    if x > 0 {
        lemma_div_pos_is_pos(x, d);
    }
    assert(q >= 0);
    assert(harmonic_count(edge, len_max) == q);
    // the right-hand side says n * d <= x
    assert((468 * n) * len_max.den == n * d) by (nonlinear_arith)
        requires
            d == len_max.den * 468,
    ;
    assert(len_low(edge).scaled(n, 1).le(len_max) <==> n * d <= x) by (nonlinear_arith)
        requires
            len_low(edge).scaled(n, 1).num == 468 * n,
            len_low(edge).scaled(n, 1).den == edge.freq_high * 1,
            (468 * n) * len_max.den == n * d,
            x == len_max.num * edge.freq_high,
            len_low(edge).scaled(n, 1).le(len_max) == (len_low(edge).scaled(n, 1).num * len_max.den
                <= len_max.num * len_low(edge).scaled(n, 1).den),
    ;
    assert(n <= q <==> n * d <= x) by (nonlinear_arith)
        requires
            x == d * q + x % d,
            0 <= x % d < d,
            d > 0,
    ;
}

/// Raising the cutoff never lowers the harmonic count: the windows under
/// the shorter cutoff are the first of those under the longer one.
pub proof fn lemma_harmonic_count_monotonic(edge: BandEdge, shorter: Ratio, longer: Ratio)
    requires
        edge.wf(),
        shorter.wf(),
        longer.wf(),
        shorter.le(longer),
    ensures
        harmonic_count(edge, shorter) <= harmonic_count(edge, longer),
        harmonics(edge, shorter) == harmonics(edge, longer).take(
            harmonic_count(edge, shorter) as int,
        ),
{
    let n = harmonic_count(edge, shorter);
    lemma_harmonic_count_is_floor(edge, shorter, n);
    lemma_harmonic_count_is_floor(edge, longer, n);
    let a = len_low(edge).scaled(n, 1);
    // a <= shorter <= longer
    assert(a.le(longer)) by (nonlinear_arith)
        requires
            a.num * shorter.den <= shorter.num * a.den,
            shorter.num * longer.den <= longer.num * shorter.den,
            shorter.den > 0,
            longer.den > 0,
            a.den > 0,
            a.le(longer) == (a.num * longer.den <= longer.num * a.den),
    ;
    assert(harmonics(edge, shorter) =~= harmonics(edge, longer).take(n as int));
}

/// In every band of the registry the low edge is not above the high edge,
/// so the band's shorter length is not above its longer one, and no
/// harmonic's window starts beyond its end.
pub proof fn lemma_band_windows_ordered(designator: u32, n: nat)
    requires
        is_band(designator),
    ensures
        edge_of(designator).freq_low <= edge_of(designator).freq_high,
        len_low(edge_of(designator)).le(len_high(edge_of(designator))),
        harmonic(edge_of(designator), n).start.le(harmonic(edge_of(designator), n).end),
{
    let edge = edge_of(designator);
    lemma_band_edge(designator);
    lemma_harmonics_ordered(edge, 0, n);
    assert(468 * edge.freq_low <= 468 * edge.freq_high);
}

/// Within a band every window starts no later than it ends, and each
/// harmonic's window starts and ends beyond that of the one before.
pub proof fn lemma_harmonics_ordered(edge: BandEdge, m: nat, n: nat)
    requires
        edge.wf(),
    ensures
        harmonic(edge, n).start.wf(),
        harmonic(edge, n).end.wf(),
        harmonic(edge, n).start.le(harmonic(edge, n).end),
        m < n ==> harmonic(edge, m).start.lt(harmonic(edge, n).start),
        m < n ==> harmonic(edge, m).end.lt(harmonic(edge, n).end),
{
    let l: nat = edge.freq_low as nat;
    let h: nat = edge.freq_high as nat;
    assert((468 * n) * (l * 1) <= (468 * n) * (h * 1)) by (nonlinear_arith)
        requires
            l <= h,
    ;
    assert(m < n ==> (468 * m) * (h * 1) < (468 * n) * (h * 1)) by (nonlinear_arith)
        requires
            h > 0,
    ;
    assert(m < n ==> (468 * m) * (l * 1) < (468 * n) * (l * 1)) by (nonlinear_arith)
        requires
            l > 0,
    ;
}

/// The length windows of a band's high-voltage nodes, harmonic by harmonic
/// from the fundamental, as far as the band's shorter length fits into the
/// cutoff. A cutoff below the fundamental gives no window.
pub fn high_v(band_mhz: BandEdge, len_max_ft: Length) -> (res_ft: Vec<Segment>)
    requires
        band_mhz.wf(),
        len_max_ft.wf(),
        harmonic_count(band_mhz, len_max_ft@) * HALF_WAVE <= u64::MAX,
    ensures
        res_ft@.len() == harmonic_count(band_mhz, len_max_ft@),
        windows(res_ft@) == harmonics(band_mhz, len_max_ft@),
        forall|i: int| 0 <= i < res_ft@.len() ==> (#[trigger] res_ft@[i]).wf(),
        forall|i: int, j: int|
            0 <= i < j < res_ft@.len() ==> (#[trigger] res_ft@[i])@.start.lt(
                (#[trigger] res_ft@[j])@.start,
            ) && res_ft@[i]@.end.lt(res_ft@[j]@.end),
{
    let num: u128 = len_max_ft.num as u128;
    let high: u128 = band_mhz.freq_high as u128;
    let den: u128 = len_max_ft.den as u128;
    assert(num * high <= 0xffff_ffff_ffff_ffff * 0xffff_ffff) by (nonlinear_arith)
        requires
            num <= 0xffff_ffff_ffff_ffff,
            high <= 0xffff_ffff,
    ;
    assert(0 < den * 468 <= 0xffff_ffff_ffff_ffff * 468) by (nonlinear_arith)
        requires
            0 < den <= 0xffff_ffff_ffff_ffff,
    ;
    let x: u128 = num * high;
    let d: u128 = den * (HALF_WAVE as u128);
    let multiples: u128 = x / d;
    proof {
        assert(harmonic_count(band_mhz, len_max_ft@) == multiples);
        assert(multiples * 468 <= u64::MAX);
    }
    let count: u64 = multiples as u64;
    let mut res_ft: Vec<Segment> = Vec::new();
    let mut n: u64 = 0;
    while n < count
        invariant
            band_mhz.wf(),
            0 <= n <= count,
            count * 468 <= u64::MAX,
            res_ft@.len() == n,
            forall|i: int|
                0 <= i < n ==> (#[trigger] res_ft@[i])@ == harmonic(band_mhz, (i + 1) as nat),
        decreases count - n,
    {
        assert((n + 1) * 468 <= count * 468) by (nonlinear_arith)
            requires
                n < count,
        ;
        let k: u64 = (n + 1) * HALF_WAVE;
        res_ft.push(
            Segment {
                start: Length { num: k, den: band_mhz.freq_high as u64 },
                end: Length { num: k, den: band_mhz.freq_low as u64 },
            },
        );
        n += 1;
    }
    proof {
        assert(windows(res_ft@) =~= harmonics(band_mhz, len_max_ft@));
        assert forall|i: int| 0 <= i < res_ft@.len() implies (#[trigger] res_ft@[i]).wf() by {
            lemma_harmonics_ordered(band_mhz, 0, (i + 1) as nat);
        }
        assert forall|i: int, j: int| 0 <= i < j < res_ft@.len() implies (#[trigger] res_ft@[i])@.start.lt(
            (#[trigger] res_ft@[j])@.start,
        ) && res_ft@[i]@.end.lt(res_ft@[j]@.end) by {
            lemma_harmonics_ordered(band_mhz, (i + 1) as nat, (j + 1) as nat);
        }
    }
    res_ft
}

} // verus!
