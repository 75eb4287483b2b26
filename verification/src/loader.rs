//! Loader-facing configuration: the flags word handed to the renderer, the
//! alpha handling choice, and the load entry point that turns container
//! bytes into a render-ready imposter.
//!
//! Floats that merely pass through (the alpha multiplier, the blend
//! setting) are carried as IEEE bit patterns; the capture radius is carried
//! as its decimal token, exactly as the settings record stores it.

use vstd::prelude::*;

use crate::codec::{load_asset, spec_load_asset, LoadedImposter};
use crate::error::ImposterError;
use crate::oct_coords::{lemma_mode_flags_with_high_bits, GridMode, GRID_MASK};

verus! {

pub const VERTEX_BILLBOARD_FLAG: u32 = 4;

pub const USE_SOURCE_UV_Y_FLAG: u32 = 8;

pub const RENDER_MULTISAMPLE_FLAG: u32 = 16;

pub const INDEXED_FLAG: u32 = 32;

/// How the imposter mesh orients itself at render time.
#[derive(Clone, Copy, Debug, PartialEq, Eq, Structural)]
pub enum ImposterVertexMode {
    Billboard,
    NoBillboard,
}

/// Settings consumed at load time, not persisted in the container.
#[derive(Clone, Copy, Debug, PartialEq, Eq, Structural)]
pub struct ImposterLoaderSettings {
    pub vertex_mode: ImposterVertexMode,
    /// Smooth-sample the material texture.
    pub multisample: bool,
    /// Take v texture coordinates from the source mesh.
    pub use_source_uv_y: bool,
    /// f32 bits of the additional alpha multiplier.
    pub alpha_bits: u32,
    /// f32 bits of the blend choice: 0.0 blends, 1.0 is opaque, anything
    /// else is a mask threshold.
    pub alpha_blend_bits: u32,
}

impl Default for ImposterLoaderSettings {
    /// Billboard vertices, plain sampling, alpha multiplier one, blending.
    fn default() -> (r: Self)
        ensures
            r.vertex_mode is Billboard,
            !r.multisample,
            !r.use_source_uv_y,
            r.alpha_bits == 0x3F80_0000u32,
            r.alpha_blend_bits == 0,
    {
        ImposterLoaderSettings {
            vertex_mode: ImposterVertexMode::Billboard,
            multisample: false,
            use_source_uv_y: false,
            alpha_bits: 0x3F80_0000,
            alpha_blend_bits: 0,
        }
    }
}

/// How the loaded material treats alpha. The mask variant carries the f32
/// bits of its threshold.
#[derive(Clone, Copy, Debug, PartialEq, Eq, Structural)]
pub enum AlphaModeChoice {
    Blend,
    Opaque,
    Mask(u32),
}

/// The alpha mode chosen from the blend setting's bits: an IEEE zero
/// (either sign) blends, exactly 1.0 is opaque, and any other value masks
/// at that threshold.
pub open spec fn spec_alpha_choice(blend_bits: u32) -> AlphaModeChoice {
    if blend_bits & 0x7FFF_FFFF == 0 {
        AlphaModeChoice::Blend
    } else if blend_bits == 0x3F80_0000 {
        AlphaModeChoice::Opaque
    } else {
        AlphaModeChoice::Mask(blend_bits)
    }
}

pub fn alpha_mode_choice(blend_bits: u32) -> (r: AlphaModeChoice)
    ensures
        r == spec_alpha_choice(blend_bits),
{
    if blend_bits & 0x7FFF_FFFF == 0 {
        AlphaModeChoice::Blend
    } else if blend_bits == 0x3F80_0000 {
        AlphaModeChoice::Opaque
    } else {
        AlphaModeChoice::Mask(blend_bits)
    }
}

/// The flags word: the mode's two low bits plus one bit per toggle.
pub open spec fn spec_flags(
    vertex_mode: ImposterVertexMode,
    multisample: bool,
    use_source_uv_y: bool,
    mode: GridMode,
    indexed: bool,
) -> int {
    (if vertex_mode is Billboard {
        4int
    } else {
        0int
    }) + (if multisample {
        16int
    } else {
        0int
    }) + (if use_source_uv_y {
        8int
    } else {
        0int
    }) + mode.spec_flags() + (if indexed {
        32int
    } else {
        0int
    })
}

/// Compose the flags word. The mode always decodes back out of the low
/// bits: the toggles only ever add multiples of four.
pub fn compose_flags(
    vertex_mode: ImposterVertexMode,
    multisample: bool,
    use_source_uv_y: bool,
    mode: GridMode,
    indexed: bool,
) -> (r: u32)
    ensures
        r == spec_flags(vertex_mode, multisample, use_source_uv_y, mode, indexed),
        GridMode::spec_from_flags(r) == mode,
        r & GRID_MASK == mode.spec_flags(),
{
    let vm: u32 = match vertex_mode {
        ImposterVertexMode::Billboard => VERTEX_BILLBOARD_FLAG,
        ImposterVertexMode::NoBillboard => 0,
    };
    let ms: u32 = if multisample {
        RENDER_MULTISAMPLE_FLAG
    } else {
        0
    };
    let uv: u32 = if use_source_uv_y {
        USE_SOURCE_UV_Y_FLAG
    } else {
        0
    };
    let ix: u32 = if indexed {
        INDEXED_FLAG
    } else {
        0
    };
    let r = vm + ms + uv + mode.as_flags() + ix;
    proof {
        lemma_mode_flags_with_high_bits(mode, (vm + ms + uv + ix) as u32);
    }
    r
}

/// The uniform data of a loaded imposter, in plain values. The capture
/// center and radius are floats owned by the host; the radius travels here
/// as the decimal token the settings record holds, so nothing is rounded.
#[derive(Clone, Debug)]
pub struct ImposterData {
    pub grid_size: u32,
    pub base_tile_size: u32,
    pub packed_tile_offset_x: u32,
    pub packed_tile_offset_y: u32,
    pub packed_tile_size_x: u32,
    pub packed_tile_size_y: u32,
    pub flags: u32,
    /// f32 bits of the alpha multiplier.
    pub alpha_bits: u32,
    /// Decimal token of the capture radius.
    pub scale_token: Vec<u8>,
}

impl ImposterData {
    /// Assemble the uniform data, composing the flags word from the mode
    /// and the toggles.
    pub fn new(
        scale_token: Vec<u8>,
        grid_size: u32,
        base_tile_size: u32,
        packed_tile_offset: (u32, u32),
        packed_tile_size: (u32, u32),
        mode: GridMode,
        billboard_vertices: bool,
        multisample: bool,
        use_mesh_uv_y: bool,
        indexed: bool,
        alpha_bits: u32,
    ) -> (r: Self)
        ensures
            r.grid_size == grid_size,
            r.base_tile_size == base_tile_size,
            r.packed_tile_offset_x == packed_tile_offset.0,
            r.packed_tile_offset_y == packed_tile_offset.1,
            r.packed_tile_size_x == packed_tile_size.0,
            r.packed_tile_size_y == packed_tile_size.1,
            r.alpha_bits == alpha_bits,
            r.scale_token == scale_token,
            r.flags == spec_flags(
                if billboard_vertices {
                    ImposterVertexMode::Billboard
                } else {
                    ImposterVertexMode::NoBillboard
                },
                multisample,
                use_mesh_uv_y,
                mode,
                indexed,
            ),
            GridMode::spec_from_flags(r.flags) == mode,
    {
        let vertex_mode = if billboard_vertices {
            ImposterVertexMode::Billboard
        } else {
            ImposterVertexMode::NoBillboard
        };
        let flags = compose_flags(vertex_mode, multisample, use_mesh_uv_y, mode, indexed);
        ImposterData {
            grid_size,
            base_tile_size,
            packed_tile_offset_x: packed_tile_offset.0,
            packed_tile_offset_y: packed_tile_offset.1,
            packed_tile_size_x: packed_tile_size.0,
            packed_tile_size_y: packed_tile_size.1,
            flags,
            alpha_bits,
            scale_token,
        }
    }
}

/// A pipeline key distinguishing imposters by their flags word.
#[derive(Clone, Copy, Debug, PartialEq, Eq, Structural)]
pub struct ImposterKey(pub u32);

/// A loaded imposter, ready for the host to bind: uniform data, the pixel
/// payload(s) with their dimensions, the alpha choice, and the GPU cost.
#[derive(Clone, Debug)]
pub struct Imposter {
    pub data: ImposterData,
    pub indexed: bool,
    pub pixels_data: Vec<u8>,
    pub pixels_width: u64,
    pub pixels_height: u64,
    pub indices_data: Vec<u8>,
    pub indices_width: u64,
    pub indices_height: u64,
    pub alpha_mode: AlphaModeChoice,
    pub vram_bytes: u128,
}

impl Imposter {
    /// The pipeline key of this imposter.
    pub fn key(&self) -> (r: ImposterKey)
        ensures
            r.0 == self.data.flags,
    {
        ImposterKey(self.data.flags)
    }
}

/// Reads `.boimp` containers.
pub struct ImposterLoader;

impl ImposterLoader {
    /// The file extension the loader answers to.
    pub fn extensions(&self) -> (r: &'static str)
        ensures
            r@ == "boimp"@,
    {
        "boimp"
    }

    /// Load an asset from container bytes: decode the container, then
    /// combine the stored mode and payload kind with the load settings into
    /// the flags word and alpha choice.
    pub fn load(&self, bytes: &Vec<u8>, load_settings: &ImposterLoaderSettings) -> (r: Result<
        Imposter,
        ImposterError,
    >)
        ensures
            match r {
                Ok(imp) => spec_load_asset(bytes@) is Ok && ({
                    let v = spec_load_asset(bytes@).unwrap();
                    &&& imp.indexed == v.indexed
                    &&& imp.pixels_data@ == v.pixels_data
                    &&& imp.pixels_width == v.pixels_width
                    &&& imp.pixels_height == v.pixels_height
                    &&& imp.indices_data@ == v.indices_data
                    &&& imp.indices_width == v.indices_width
                    &&& imp.indices_height == v.indices_height
                    &&& imp.vram_bytes == v.vram_bytes
                    &&& imp.data.grid_size == v.settings.grid_size
                    &&& imp.data.base_tile_size == v.settings.base_tile_size
                    &&& imp.data.packed_tile_offset_x == v.settings.packed_offset_x
                    &&& imp.data.packed_tile_offset_y == v.settings.packed_offset_y
                    &&& imp.data.packed_tile_size_x == v.settings.packed_size_x
                    &&& imp.data.packed_tile_size_y == v.settings.packed_size_y
                    &&& imp.data.scale_token@ == v.settings.scale_token
                    &&& imp.data.alpha_bits == load_settings.alpha_bits
                    &&& imp.data.flags == spec_flags(
                        load_settings.vertex_mode,
                        load_settings.multisample,
                        load_settings.use_source_uv_y,
                        v.settings.mode,
                        v.indexed,
                    )
                    &&& GridMode::spec_from_flags(imp.data.flags) == v.settings.mode
                    &&& imp.alpha_mode == spec_alpha_choice(load_settings.alpha_blend_bits)
                }),
                Err(e) => spec_load_asset(bytes@) == Err::<crate::codec::LoadedView, ImposterError>(
                    e,
                ),
            },
{
        let loaded: LoadedImposter = match load_asset(bytes) {
            Ok(l) => l,
            Err(e) => {
                return Err(e);
            },
        };
        let data = ImposterData::new(
            loaded.settings.scale_token,
            loaded.settings.grid_size,
            loaded.settings.base_tile_size,
            (loaded.settings.packed_offset_x, loaded.settings.packed_offset_y),
            (loaded.settings.packed_size_x, loaded.settings.packed_size_y),
            loaded.settings.mode,
            match load_settings.vertex_mode {
                ImposterVertexMode::Billboard => true,
                ImposterVertexMode::NoBillboard => false,
            },
            load_settings.multisample,
            load_settings.use_source_uv_y,
            loaded.indexed,
            load_settings.alpha_bits,
        );
        let alpha_mode = alpha_mode_choice(load_settings.alpha_blend_bits);
        Ok(
            Imposter {
                data,
                indexed: loaded.indexed,
                pixels_data: loaded.pixels_data,
                pixels_width: loaded.pixels_width,
                pixels_height: loaded.pixels_height,
                indices_data: loaded.indices_data,
                indices_width: loaded.indices_width,
                indices_height: loaded.indices_height,
                alpha_mode,
                vram_bytes: loaded.vram_bytes,
            },
        )
    }
}

} // verus!
