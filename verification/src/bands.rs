use vstd::prelude::*;
use crate::error::Error;

verus! {

/// The two frequency edges of a band, as the registry holds them.
#[derive(Clone, Copy, Debug, PartialEq, Eq, Structural)]
pub struct BandEdge {
    pub freq_low: u32,
    pub freq_high: u32,
}

impl BandEdge {
    /// The low edge is positive and not above the high edge.
    pub open spec fn wf(self) -> bool {
        0 < self.freq_low <= self.freq_high
    }
}

/// Largest high edge of the registry.
pub const MAX_FREQ: u32 = 50000;

/// The registry: each band's designator in metres with its two edges.
pub open spec fn registry() -> Seq<(u32, BandEdge)> {
    seq![
        (160u32, BandEdge { freq_low: 160, freq_high: 2000 }),
        (80u32, BandEdge { freq_low: 80, freq_high: 4000 }),
        (60u32, BandEdge { freq_low: 60, freq_high: 5335 }),
        (40u32, BandEdge { freq_low: 40, freq_high: 7000 }),
        (30u32, BandEdge { freq_low: 30, freq_high: 10150 }),
        (20u32, BandEdge { freq_low: 20, freq_high: 14000 }),
        (17u32, BandEdge { freq_low: 17, freq_high: 18068 }),
        (15u32, BandEdge { freq_low: 15, freq_high: 21000 }),
        (12u32, BandEdge { freq_low: 12, freq_high: 24890 }),
        (10u32, BandEdge { freq_low: 10, freq_high: 28000 }),
        (6u32, BandEdge { freq_low: 6, freq_high: 50000 }),
    ]
}

/// The designator is one of the registry's bands.
pub open spec fn is_band(designator: u32) -> bool {
    exists|i: int| 0 <= i < registry().len() && #[trigger] registry()[i].0 == designator
}

/// The edges that the registry holds for a band.
pub open spec fn edge_of(designator: u32) -> BandEdge
    recommends
        is_band(designator),
{
    let i = choose|i: int| 0 <= i < registry().len() && #[trigger] registry()[i].0 == designator;
    registry()[i].1
}

/// Every band of the selection is in the registry.
pub open spec fn all_bands(bands: Seq<u32>) -> bool {
    forall|i: int| 0 <= i < bands.len() ==> is_band(#[trigger] bands[i])
}

/// The edges of each band of a selection, in the selection's order.
pub open spec fn edges_of(bands: Seq<u32>) -> Seq<BandEdge> {
    Seq::new(bands.len(), |i: int| edge_of(bands[i]))
}

/// No two entries of the registry share a designator, so a band has one
/// pair of edges.
pub proof fn lemma_registry_entry(i: int)
    requires
        0 <= i < registry().len(),
    ensures
        is_band(registry()[i].0),
        edge_of(registry()[i].0) == registry()[i].1,
        registry()[i].1.wf(),
        registry()[i].1.freq_low == registry()[i].0,
        6 <= registry()[i].1.freq_low,
        registry()[i].1.freq_high <= MAX_FREQ,
{
    let d = registry()[i].0;
    let j = choose|j: int| 0 <= j < registry().len() && #[trigger] registry()[j].0 == d;
    assert(registry()[j].0 == d);
    assert(j == i);
}

/// Every band's edges are well formed, the low edge is the designator, and
/// both lie within the registry's range.
pub proof fn lemma_band_edge(designator: u32)
    requires
        is_band(designator),
    ensures
        edge_of(designator).wf(),
        edge_of(designator).freq_low == designator,
        6 <= edge_of(designator).freq_low,
        edge_of(designator).freq_high <= MAX_FREQ,
{
    let i = choose|i: int| 0 <= i < registry().len() && #[trigger] registry()[i].0 == designator;
    lemma_registry_entry(i);
}

/// Looks a band up by its designator in metres.
pub fn lookup(designator: u32) -> (r: Result<BandEdge, Error>)
    ensures
        is_band(designator) ==> r == Ok::<BandEdge, Error>(edge_of(designator)),
        !is_band(designator) ==> r == Err::<BandEdge, Error>(Error::UnknownBand),
        r is Ok ==> r->Ok_0.wf(),
{
    let high: Option<u32> = match designator {
        160 => Some(2000),
        80 => Some(4000),
        60 => Some(5335),
        40 => Some(7000),
        30 => Some(10150),
        20 => Some(14000),
        17 => Some(18068),
        15 => Some(21000),
        12 => Some(24890),
        10 => Some(28000),
        6 => Some(50000),
        _ => None,
    };
    match high {
        None => {
            assert(!is_band(designator));
            Err(Error::UnknownBand)
        },
        Some(freq_high) => {
            proof {
                let i: int = if designator == 160 {
                    0
                } else if designator == 80 {
                    1
                } else if designator == 60 {
                    2
                } else if designator == 40 {
                    3
                } else if designator == 30 {
                    4
                } else if designator == 20 {
                    5
                } else if designator == 17 {
                    6
                } else if designator == 15 {
                    7
                } else if designator == 12 {
                    8
                } else if designator == 10 {
                    9
                } else {
                    10
                };
                lemma_registry_entry(i);
            }
            Ok(BandEdge { freq_low: designator, freq_high })
        },
    }
}

/// Resolves a selection of bands to their edges, in the selection's order.
/// One unknown band fails the whole selection.
pub fn edges_mhz(bands: &[u32]) -> (r: Result<Vec<BandEdge>, Error>)
    ensures
        all_bands(bands@) ==> r is Ok && r->Ok_0@ == edges_of(bands@),
        !all_bands(bands@) ==> r == Err::<Vec<BandEdge>, Error>(Error::UnknownBand),
        r is Ok ==> forall|i: int| 0 <= i < r->Ok_0@.len() ==> (#[trigger] r->Ok_0@[i]).wf(),
{
    let mut edges: Vec<BandEdge> = Vec::new();
    let mut i: usize = 0;
    while i < bands.len()
        invariant
            0 <= i <= bands.len(),
            edges@.len() == i,
            forall|j: int| 0 <= j < i ==> is_band(#[trigger] bands@[j]),
            forall|j: int| 0 <= j < i ==> #[trigger] edges@[j] == edge_of(bands@[j]),
            forall|j: int| 0 <= j < i ==> (#[trigger] edges@[j]).wf(),
        decreases bands.len() - i,
    {
        match lookup(bands[i]) {
            Ok(edge) => {
                edges.push(edge);
            },
            Err(_) => {
                return Err(Error::UnknownBand);
            },
        }
        i += 1;
    }
    assert(edges@ =~= edges_of(bands@));
    Ok(edges)
}

} // verus!
