//! Imposter baking and storage: grid direction sampling, the multi-tile bake
//! session state machine, and the `.boimp` container codec (tile packing,
//! palette indexing, and the settings record).

pub mod bake;
pub mod codec;
pub mod error;
pub mod image_data;
pub mod loader;
pub mod oct_coords;
pub mod pack;
pub mod palette;
pub mod settings;
pub mod visibility;

pub use bake::{BakeState, ImposterBakeCamera};
pub use error::ImposterError;
pub use loader::{Imposter, ImposterData, ImposterLoader, ImposterLoaderSettings, ImposterVertexMode};
pub use oct_coords::GridMode;
