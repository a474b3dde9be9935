use vstd::prelude::*;
use vstd::string::*;
use crate::bands::{
    all_bands, edge_of, edges_mhz, edges_of, is_band, lemma_band_edge, BandEdge, MAX_FREQ,
};
use crate::error::Error;
use crate::harmonics::{
    harmonic_count, harmonics, high_v, windows, Segment, Window, HALF_WAVE, QUARTER_WAVE,
};
use crate::length::{lemma_scaled_twice, Length, Ratio, METRIC_DEN, METRIC_NUM};
use crate::sorting::{lemma_descending_first_is_max, sort_descending, sorted_descending};
use crate::text::{joined, push_joined};

verus! {

/// The mathematical value of an overlay.
pub struct Overlay {
    pub baseline: Ratio,
    pub max_edge: Ratio,
    pub segments: Seq<Window>,
    pub title: Seq<char>,
}

impl Overlay {
    /// Every length of the overlay times `p / q`; the title and the order
    /// of the segments stay.
    pub open spec fn scaled(self, p: nat, q: nat) -> Overlay {
        Overlay {
            baseline: self.baseline.scaled(p, q),
            max_edge: self.max_edge.scaled(p, q),
            segments: Seq::new(self.segments.len(), |i: int| self.segments[i].scaled(p, q)),
            title: self.title,
        }
    }

    /// The overlay in metres, given one in feet.
    pub open spec fn metric(self) -> Overlay {
        self.scaled(METRIC_NUM as nat, METRIC_DEN as nat)
    }
}

/// The length windows of a selection of bands, ready to be drawn: the
/// quarter-wave marker first, then each band's windows, with the bounds of
/// the axis and the title.
#[derive(Clone, Debug)]
pub struct OverlayGeometry {
    pub baseline_feet: Length,
    pub max_edge_feet: Length,
    pub segments: Vec<Segment>,
    pub title: String,
}

impl View for OverlayGeometry {
    type V = Overlay;

    open spec fn view(&self) -> Overlay {
        Overlay {
            baseline: self.baseline_feet@,
            max_edge: self.max_edge_feet@,
            segments: windows(self.segments@),
            title: self.title@,
        }
    }
}

impl OverlayGeometry {
    /// Every length is a fraction, and no segment starts beyond its end.
    pub open spec fn wf(self) -> bool {
        &&& self.baseline_feet.wf()
        &&& self.max_edge_feet.wf()
        &&& forall|i: int| 0 <= i < self.segments@.len() ==> (#[trigger] self.segments@[i]).wf()
    }

    /// Every length can be scaled to metres.
    pub open spec fn fits_metric(self) -> bool {
        &&& self.baseline_feet.fits_metric()
        &&& self.max_edge_feet.fits_metric()
        &&& forall|i: int|
            0 <= i < self.segments@.len() ==> (#[trigger] self.segments@[i]).fits_metric()
    }
}

/// The band that the bounds are taken from: the one with the largest
/// designator, which is the lowest in frequency.
pub open spec fn reference(bands: Seq<u32>) -> BandEdge
    recommends
        bands.len() > 0,
{
    edge_of(sorted_descending(bands)[0])
}

/// A quarter wave at the reference band's low edge.
pub open spec fn baseline(reference: BandEdge) -> Ratio {
    Ratio { num: QUARTER_WAVE as nat, den: reference.freq_low as nat }
}

/// The cutoff of the harmonics: half a wave at the reference band's low
/// edge, or a full wave.
pub open spec fn max_length(reference: BandEdge, fullwave: bool) -> Ratio {
    if fullwave {
        Ratio { num: 2 * HALF_WAVE as nat, den: reference.freq_low as nat }
    } else {
        Ratio { num: HALF_WAVE as nat, den: reference.freq_low as nat }
    }
}

/// The window that marks the quarter wave: from nothing to the baseline.
pub open spec fn marker(baseline: Ratio) -> Window {
    Window { start: Ratio { num: 0, den: 1 }, end: baseline }
}

/// The windows of several bands under one cutoff, band after band.
pub open spec fn merged(edges: Seq<BandEdge>, len_max: Ratio) -> Seq<Window>
    decreases edges.len(),
{
    if edges.len() == 0 {
        Seq::empty()
    } else {
        merged(edges.drop_last(), len_max) + harmonics(edges.last(), len_max)
    }
}

/// The largest end among windows; of several equal ones the first.
pub open spec fn widest(segments: Seq<Window>) -> Ratio
    recommends
        segments.len() > 0,
    decreases segments.len(),
{
    if segments.len() <= 1 {
        segments[0].end
    } else {
        let before = widest(segments.drop_last());
        if segments.last().end.le(before) {
            before
        } else {
            segments.last().end
        }
    }
}

/// The title of an overlay: its bands and the kind of cutoff.
pub open spec fn title_of(bands: Seq<u32>, fullwave: bool) -> Seq<char> {
    "High Voltage Lengths for "@ + joined(bands) + if fullwave {
        " m, full-wave"@
    } else {
        " m, half-wave"@
    }
}

/// The overlay of a selection of known bands.
pub open spec fn overlay(bands: Seq<u32>, fullwave: bool) -> Overlay
    recommends
        bands.len() > 0,
        all_bands(bands),
{
    let len_max = max_length(reference(bands), fullwave);
    let segments = seq![marker(baseline(reference(bands)))] + merged(edges_of(bands), len_max);
    Overlay {
        baseline: baseline(reference(bands)),
        max_edge: widest(segments),
        segments,
        title: title_of(sorted_descending(bands), fullwave),
    }
}

/// The full-wave cutoff is twice the half-wave cutoff of the same
/// reference band.
pub proof fn lemma_fullwave_doubles(reference: BandEdge)
    ensures
        max_length(reference, true) == max_length(reference, false).scaled(2, 1),
{
}

/// Scaling to metres twice is scaling once by the square of the factor, in
/// every length of the overlay, and neither touches the title or the
/// number of segments.
pub proof fn lemma_metric_twice(g: Overlay)
    ensures
        g.metric().metric() == g.scaled(
            (METRIC_NUM * METRIC_NUM) as nat,
            (METRIC_DEN * METRIC_DEN) as nat,
        ),
        g.metric().title == g.title,
        g.metric().segments.len() == g.segments.len(),
{
    let p: nat = METRIC_NUM as nat;
    let q: nat = METRIC_DEN as nat;
    let twice = g.scaled(p * p, q * q);
    lemma_scaled_twice(g.baseline, p, q, p, q);
    lemma_scaled_twice(g.max_edge, p, q, p, q);
    assert forall|i: int| 0 <= i < g.segments.len() implies g.metric().metric().segments[i]
        == twice.segments[i] by {
        lemma_scaled_twice(g.segments[i].start, p, q, p, q);
        lemma_scaled_twice(g.segments[i].end, p, q, p, q);
    }
    assert(g.metric().metric().segments =~= twice.segments);
    assert(p * p == 1440000 && q * q == 15499969) by (nonlinear_arith)
        requires
            p == 1200,
            q == 3937,
    ;
}

/// The widest end is the end of one of the windows, and no window ends
/// beyond it.
pub proof fn lemma_widest_is_max(segments: Seq<Window>)
    requires
        segments.len() > 0,
        forall|i: int| 0 <= i < segments.len() ==> (#[trigger] segments[i]).end.wf(),
    ensures
        exists|k: int| 0 <= k < segments.len() && (#[trigger] segments[k]).end == widest(segments),
        forall|i: int| 0 <= i < segments.len() ==> (#[trigger] segments[i]).end.le(widest(segments)),
    decreases segments.len(),
{
    if segments.len() <= 1 {
        assert(segments[0].end == widest(segments));
    } else {
        let head = segments.drop_last();
        lemma_widest_is_max(head);
        let before = widest(head);
        let k0 = choose|k: int| 0 <= k < head.len() && (#[trigger] head[k]).end == widest(head);
        assert(segments[k0] == head[k0]);
        let last = segments.last().end;
        if last.le(before) {
            assert(segments[k0].end == widest(segments));
            assert forall|i: int| 0 <= i < segments.len() implies (#[trigger] segments[i]).end.le(
                widest(segments),
            ) by {
                if i < head.len() {
                    assert(segments[i] == head[i]);
                }
            }
        } else {
            assert(segments[segments.len() - 1].end == widest(segments));
            assert forall|i: int| 0 <= i < segments.len() implies (#[trigger] segments[i]).end.le(
                widest(segments),
            ) by {
                if i < head.len() {
                    assert(segments[i] == head[i]);
                    let a = head[i].end;
                    assert(a.le(before));
                    assert(before.wf());
                    assert(a.le(last)) by (nonlinear_arith)
                        requires
                            a.num * before.den <= before.num * a.den,
                            !(last.num * before.den <= before.num * last.den),
                            before.den > 0,
                            a.den > 0,
                            last.den > 0,
                            a.le(last) == (a.num * last.den <= last.num * a.den),
                    ;
                } else {
                    assert(last.num * last.den <= last.num * last.den);
                }
            }
        }
    }
}

/// The largest end among segments; of several equal ones the first.
pub fn max_edge(segments: &[Segment]) -> (r: Length)
    requires
        segments@.len() > 0,
    ensures
        r@ == widest(windows(segments@)),
        exists|k: int| 0 <= k < segments@.len() && r == (#[trigger] segments@[k]).end,
{
    let mut best: Length = segments[0].end;
    let mut i: usize = 1;
    assert(windows(segments@).take(1).len() == 1);
    while i < segments.len()
        invariant
            1 <= i <= segments.len(),
            best@ == widest(windows(segments@).take(i as int)),
            exists|k: int| 0 <= k < segments@.len() && best == (#[trigger] segments@[k]).end,
        decreases segments.len() - i,
    {
        proof {
            let next = windows(segments@).take(i as int + 1);
            assert(next.drop_last() =~= windows(segments@).take(i as int));
            assert(next.last() == segments@[i as int]@);
        }
        if !segments[i].end.le(&best) {
            best = segments[i].end;
        }
        i += 1;
    }
    assert(windows(segments@).take(i as int) =~= windows(segments@));
    best
}

/// With a cutoff of at most a full wave of the lowest band, a band of the
/// registry has few enough harmonics for their lengths to be held and
/// scaled to metres.
proof fn lemma_count_bounded(edge: BandEdge, len_max: Ratio)
    requires
        edge.freq_high <= MAX_FREQ,
        len_max.num <= 2 * HALF_WAVE,
        len_max.den > 0,
    ensures
        harmonic_count(edge, len_max) <= 2 * HALF_WAVE * MAX_FREQ,
{
    let x: int = (len_max.num * edge.freq_high) as int;
    let d: int = (len_max.den * HALF_WAVE) as int;
    assert(0 <= x <= 936 * 50000) by (nonlinear_arith)
        requires
            x == len_max.num * edge.freq_high,
            len_max.num <= 936,
            edge.freq_high <= 50000,
    ;
    assert(d >= 1) by (nonlinear_arith)
        requires
            d == len_max.den * 468,
            len_max.den > 0,
    ;
    assert(0 <= x / d <= x) by (nonlinear_arith)
        requires
            x >= 0,
            d >= 1,
    ;
}

/// The overlay of a selection of bands, each given by its designator in
/// metres. The bounds come from the band with the largest designator; the
/// bands' windows follow the marker in the order of the selection.
pub fn aggregate(selected_bands: &[u32], fullwave: bool) -> (r: Result<OverlayGeometry, Error>)
    ensures
        selected_bands@.len() == 0 ==> r is Err && r->Err_0 == Error::EmptySelection,
        selected_bands@.len() > 0 && !all_bands(selected_bands@) ==> r is Err && r->Err_0
            == Error::UnknownBand,
        selected_bands@.len() > 0 && all_bands(selected_bands@) ==> r is Ok && r->Ok_0@ == overlay(
            selected_bands@,
            fullwave,
        ),
        r is Ok ==> r->Ok_0.wf() && r->Ok_0.fits_metric(),
        r is Ok ==> forall|i: int|
            0 <= i < r->Ok_0.segments@.len() ==> (#[trigger] r->Ok_0.segments@[i])@.end.le(
                r->Ok_0.max_edge_feet@,
            ),
{
    if selected_bands.len() == 0 {
        return Err(Error::EmptySelection);
    }
    let edges: Vec<BandEdge> = match edges_mhz(selected_bands) {
        Ok(edges) => edges,
        Err(_) => {
            return Err(Error::UnknownBand);
        },
    };
    let sorted: Vec<u32> = sort_descending(selected_bands);
    proof {
        lemma_descending_first_is_max(sorted@, selected_bands@);
        lemma_band_edge(sorted@[0]);
    }
    let low: u64 = sorted[0] as u64;
    let len_qtr_ft: Length = Length { num: QUARTER_WAVE, den: low };
    let len_max_ft: Length = Length { num: if fullwave { 2 * HALF_WAVE } else { HALF_WAVE }, den: low };
    assert(len_max_ft@ == max_length(reference(selected_bands@), fullwave));
    assert(len_qtr_ft@ == baseline(reference(selected_bands@)));
    let mut all_ft: Vec<Segment> = Vec::new();
    all_ft.push(Segment { start: Length { num: 0, den: 1 }, end: len_qtr_ft });
    assert(all_ft@[0].wf()) by {
        assert(0 * low <= 234 * 1) by (nonlinear_arith);
    }
    let mut i: usize = 0;
    assert(edges@.take(0) =~= Seq::<BandEdge>::empty());
    assert(windows(all_ft@) =~= seq![marker(len_qtr_ft@)] + merged(edges@.take(0), len_max_ft@));
    while i < edges.len()
        invariant
            0 <= i <= edges.len(),
            edges@ == edges_of(selected_bands@),
            all_bands(selected_bands@),
            len_max_ft.wf(),
            len_max_ft.num <= 2 * HALF_WAVE,
            all_ft@.len() > 0,
            windows(all_ft@) == seq![marker(len_qtr_ft@)] + merged(
                edges@.take(i as int),
                len_max_ft@,
            ),
            forall|j: int| 0 <= j < all_ft@.len() ==> (#[trigger] all_ft@[j]).wf(),
            forall|j: int| 0 <= j < all_ft@.len() ==> (#[trigger] all_ft@[j]).fits_metric(),
        decreases edges.len() - i,
    {
        let band_mhz: BandEdge = edges[i];
        proof {
            assert(is_band(selected_bands@[i as int]));
            lemma_band_edge(selected_bands@[i as int]);
            lemma_count_bounded(band_mhz, len_max_ft@);
        }
        let mut res_ft: Vec<Segment> = high_v(band_mhz, len_max_ft);
        proof {
            let next = edges@.take(i as int + 1);
            assert(next.drop_last() =~= edges@.take(i as int));
            assert(next.last() == band_mhz);
            assert(windows(all_ft@ + res_ft@) =~= windows(all_ft@) + windows(res_ft@));
            assert(windows(all_ft@ + res_ft@) =~= seq![marker(len_qtr_ft@)] + merged(
                next,
                len_max_ft@,
            ));
            assert forall|j: int| 0 <= j < res_ft@.len() implies (#[trigger] res_ft@[j]).fits_metric() by {
                assert(windows(res_ft@)[j] == harmonics(band_mhz, len_max_ft@)[j]);
                assert(res_ft@[j].start.num == 468 * (j + 1) * 1);
                assert(res_ft@[j].end.num == 468 * (j + 1) * 1);
            }
        }
        all_ft.append(&mut res_ft);
        i += 1;
    }
    assert(edges@.take(i as int) =~= edges@);
    let max_edge_feet: Length = max_edge(all_ft.as_slice());
    proof {
        assert forall|j: int| 0 <= j < all_ft@.len() implies (#[trigger] windows(
            all_ft@,
        )[j]).end.wf() by {
            assert(all_ft@[j].wf());
        }
        lemma_widest_is_max(windows(all_ft@));
        assert forall|j: int| 0 <= j < all_ft@.len() implies (#[trigger] all_ft@[j])@.end.le(
            max_edge_feet@,
        ) by {
            assert(windows(all_ft@)[j] == all_ft@[j]@);
        }
    }
    let mut title: String = String::from_str("High Voltage Lengths for ");
    push_joined(&mut title, sorted.as_slice());
    if fullwave {
        title.append(" m, full-wave");
    } else {
        title.append(" m, half-wave");
    }
    Ok(OverlayGeometry { baseline_feet: len_qtr_ft, max_edge_feet, segments: all_ft, title })
}

/// The label of the length axis, with the unit of the display.
pub fn axis_label(metric: bool) -> (label: String)
    ensures
        label@ == if metric {
            "Wire Length (m)"@
        } else {
            "Wire Length (ft)"@
        },
{
    if metric {
        String::from_str("Wire Length (m)")
    } else {
        String::from_str("Wire Length (ft)")
    }
}

/// The overlay in the unit of the display: as it is for feet, every length
/// scaled by 12 / 39.37 for metres. The title and the order stay.
pub fn to_display_units(geometry: OverlayGeometry, metric: bool) -> (r: OverlayGeometry)
    requires
        metric ==> geometry.fits_metric(),
    ensures
        r@ == if metric { geometry@.metric() } else { geometry@ },
        geometry.wf() ==> r.wf(),
{
    if !metric {
        return geometry;
    }
    let mut segments: Vec<Segment> = Vec::new();
    let mut i: usize = 0;
    while i < geometry.segments.len()
        invariant
            0 <= i <= geometry.segments@.len(),
            geometry.fits_metric(),
            segments@.len() == i,
            forall|j: int| 0 <= j < i ==> (#[trigger] segments@[j])@ == geometry.segments@[j]@.scaled(
                METRIC_NUM as nat,
                METRIC_DEN as nat,
            ),
            geometry.wf() ==> forall|j: int| 0 <= j < i ==> (#[trigger] segments@[j]).wf(),
        decreases geometry.segments@.len() - i,
    {
        let segment: Segment = geometry.segments[i];
        assert(segment.fits_metric());
        let scaled: Segment = Segment { start: segment.start.to_metric(), end: segment.end.to_metric() };
        proof {
            if geometry.wf() {
                assert(segment.wf());
                let a = segment.start@;
                let b = segment.end@;
                assert((a.num * 1200) * (b.den * 3937) <= (b.num * 1200) * (a.den * 3937))
                    by (nonlinear_arith)
                    requires
                        a.num * b.den <= b.num * a.den,
                ;
            }
        }
        segments.push(scaled);
        i += 1;
    }
    let r = OverlayGeometry {
        baseline_feet: geometry.baseline_feet.to_metric(),
        max_edge_feet: geometry.max_edge_feet.to_metric(),
        segments,
        title: geometry.title,
    };
    assert(r@.segments =~= geometry@.metric().segments);
    r
}

} // verus!
