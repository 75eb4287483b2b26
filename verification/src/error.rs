//! Error values surfaced by the library.

use vstd::prelude::*;

verus! {

/// Why a bake configuration, a pack, or an asset load was rejected.
#[derive(Clone, Copy, Debug, PartialEq, Eq, Structural)]
pub enum ImposterError {
    /// A manual camera transform list holds fewer entries than grid cells.
    NotEnoughCameraTransforms,
    /// The settings record is missing fields or holds a malformed number.
    BadSettingsFormat,
    /// The settings record names a projection mode that does not exist.
    UnknownMode,
    /// The container lacks an entry that the chosen variant requires.
    MissingEntry,
    /// An image entry does not decode, or its data has an impossible size.
    BadImageData,
    /// Trimming found no used pixel anywhere, so no rectangle can be kept.
    EmptyTrim,
}

} // verus!
