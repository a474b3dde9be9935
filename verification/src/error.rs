use vstd::prelude::*;

verus! {

/// Why a selection of bands could not be turned into an overlay.
#[derive(Clone, Copy, Debug, PartialEq, Eq, Structural)]
pub enum Error {
    /// A designator is not one of the bands of the registry.
    UnknownBand,
    /// A command-line token is neither a flag nor an unsigned integer.
    InvalidToken,
    /// No band was selected.
    EmptySelection,
}

} // verus!
