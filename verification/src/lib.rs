//! Wire lengths of end-fed dipole antennas across amateur-radio bands.
//!
//! A selection of bands is resolved to frequency edges, each edge yields the
//! length windows of its high-voltage nodes at the fundamental and at every
//! harmonic below a cutoff, and the windows of all bands are merged into one
//! overlay with its bounds and title. Lengths are exact fractions.

pub mod bands;
pub mod cli;
pub mod error;
pub mod harmonics;
pub mod length;
pub mod overlay;
pub mod sorting;
pub mod text;

pub use bands::{edges_mhz, lookup, BandEdge};
pub use cli::{cli, parse_band, usage};
pub use error::Error;
pub use harmonics::{high_v, Segment};
pub use length::Length;
pub use overlay::{aggregate, axis_label, max_edge, to_display_units, OverlayGeometry};
