//! The ways in which a request to create or edit a universe can be refused.

use vstd::prelude::*;

verus! {

/// Why a universe could not be created, resized or edited as asked.
#[derive(Clone, Copy, Debug, PartialEq, Eq, Structural)]
pub enum UniverseError {
    /// The width or the height is zero.
    ZeroDimension,
    /// The number of cells, `width * height`, does not fit in 32 bits.
    TooLarge,
    /// A coordinate lies outside the universe.
    IndexOutOfRange,
}

/// Why a universe cannot have the given dimensions, or `None` if it can: a
/// zero dimension is reported before a number of cells that is too large.
pub open spec fn dimension_error(width: int, height: int) -> Option<UniverseError> {
    if width <= 0 || height <= 0 {
        Some(UniverseError::ZeroDimension)
    } else if width * height > u32::MAX {
        Some(UniverseError::TooLarge)
    } else {
        None
    }
}

} // verus!
