use endfed::bands::{edges_mhz, lookup, BandEdge};
use endfed::Error;

#[test]
fn registry_holds_the_eleven_bands() {
    let table: [(u32, u32); 11] = [
        (160, 2000),
        (80, 4000),
        (60, 5335),
        (40, 7000),
        (30, 10150),
        (20, 14000),
        (17, 18068),
        (15, 21000),
        (12, 24890),
        (10, 28000),
        (6, 50000),
    ];
    for (band, high) in table {
        assert_eq!(lookup(band), Ok(BandEdge { freq_low: band, freq_high: high }));
    }
}

#[test]
fn every_band_edge_is_ordered() {
    for band in [160u32, 80, 60, 40, 30, 20, 17, 15, 12, 10, 6] {
        let edge = lookup(band).unwrap();
        assert!(0 < edge.freq_low);
        assert!(edge.freq_low <= edge.freq_high);
    }
}

#[test]
fn unknown_band_is_refused() {
    assert_eq!(lookup(99), Err(Error::UnknownBand));
    assert_eq!(lookup(0), Err(Error::UnknownBand));
    assert_eq!(lookup(2000), Err(Error::UnknownBand));
    assert_eq!(lookup(u32::MAX), Err(Error::UnknownBand));
}

#[test]
fn edges_follow_the_selection() {
    let edges = edges_mhz(&[20, 40, 20]).unwrap();
    assert_eq!(
        edges,
        vec![
            BandEdge { freq_low: 20, freq_high: 14000 },
            BandEdge { freq_low: 40, freq_high: 7000 },
            BandEdge { freq_low: 20, freq_high: 14000 },
        ]
    );
}

#[test]
fn edges_of_nothing_are_nothing() {
    assert_eq!(edges_mhz(&[]), Ok(vec![]));
}

#[test]
fn one_unknown_band_fails_the_selection() {
    assert_eq!(edges_mhz(&[40, 99, 20]), Err(Error::UnknownBand));
    assert_eq!(edges_mhz(&[99]), Err(Error::UnknownBand));
}
