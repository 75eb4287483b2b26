//! Grid-cell to capture-direction mapping.
//!
//! A cell (x, y) of an N x N capture grid maps to a direction on the whole
//! sphere (`Spherical`), on the upper hemisphere (`Hemispherical`), or on the
//! horizon circle (`Horizontal`). Octahedral directions are kept exact: a
//! vector of integer components over the denominator N - 1 (1 when N is 1, so
//! the sole cell behaves as UV zero). Horizontal directions are kept exact as
//! a fraction of a full turn around the vertical axis. Scaling a nonzero
//! vector to unit length never changes the sign of a component, so the
//! hemisphere facts below carry over to the normalized float vectors that the
//! renderer derives from these values.

use vstd::prelude::*;

verus! {

/// Mask of the bits of a flags word that carry the grid mode.
pub const GRID_MASK: u32 = 3;

#[derive(Clone, Copy, Debug, PartialEq, Eq, Structural)]
pub enum GridMode {
    Spherical,
    Hemispherical,
    Horizontal,
}

impl GridMode {
    pub open spec fn spec_flags(self) -> u32 {
        match self {
            GridMode::Spherical => 0,
            GridMode::Hemispherical => 1,
            GridMode::Horizontal => 2,
        }
    }

    /// The 2-bit encoding of this mode inside a flags word.
    pub fn as_flags(&self) -> (r: u32)
        ensures
            r == self.spec_flags(),
    {
        match self {
            GridMode::Spherical => 0,
            GridMode::Hemispherical => 1,
            GridMode::Horizontal => 2,
        }
    }

    pub open spec fn spec_from_flags(flags: u32) -> GridMode
        recommends
            flags & GRID_MASK < 3,
    {
        if flags & GRID_MASK == 0 {
            GridMode::Spherical
        } else if flags & GRID_MASK == 1 {
            GridMode::Hemispherical
        } else {
            GridMode::Horizontal
        }
    }

    /// Decode a mode from the low bits of a flags word. The low-bit pattern 3
    /// is never produced by an encoder and is left out here.
    pub fn from_flags(flags: u32) -> (r: Self)
        requires
            flags & GRID_MASK < 3,
        ensures
            r == Self::spec_from_flags(flags),
    {
        let masked: u32 = flags & GRID_MASK;
        if masked == 0 {
            GridMode::Spherical
        } else if masked == 1 {
            GridMode::Hemispherical
        } else {
            GridMode::Horizontal
        }
    }
}

/// A mode's flag encoding round-trips losslessly through the 2-bit mask.
pub proof fn lemma_mode_flags_roundtrip(m: GridMode)
    ensures
        m.spec_flags() < 3,
        m.spec_flags() & GRID_MASK == m.spec_flags(),
        GridMode::spec_from_flags(m.spec_flags()) == m,
{
    assert(0u32 & 3 == 0) by (bit_vector);
    assert(1u32 & 3 == 1) by (bit_vector);
    assert(2u32 & 3 == 2) by (bit_vector);
}

/// Adding flag bits above the mask never disturbs the mode decoding.
pub proof fn lemma_mode_flags_with_high_bits(m: GridMode, high: u32)
    requires
        high % 4 == 0,
        m.spec_flags() + high <= u32::MAX,
    ensures
        (m.spec_flags() + high) as u32 & GRID_MASK == m.spec_flags(),
        GridMode::spec_from_flags((m.spec_flags() + high) as u32) == m,
{
    let f = m.spec_flags();
    let w = (f + high) as u32;
    assert(w & 3 == f) by (bit_vector)
        requires
            f < 3,
            high % 4 == 0,
            f + high <= u32::MAX,
            w == (f + high) as u32,
    ;
    lemma_mode_flags_roundtrip(m);
}

#[derive(Clone, Copy, Debug, PartialEq, Eq, Structural)]
pub enum UpAxis {
    Y,
    Z,
}

/// An exact capture direction.
///
/// `Octahedral` is the vector (x, y, z) / denom before normalization.
/// `Planar` is the horizontal direction at angle 2*pi*index/count from the
/// positive z axis, that is (sin a, 0, cos a).
#[derive(Clone, Copy, Debug, PartialEq, Eq, Structural)]
pub enum GridDirection {
    Octahedral { x: i64, y: i64, z: i64, denom: u32 },
    Planar { index: u64, count: u64 },
}

pub open spec fn spec_abs(v: int) -> int {
    if v < 0 { -v } else { v }
}

/// Sign as the float `signum` of a nonzero value computes it.
pub open spec fn spec_sgn(v: int) -> int {
    if v < 0 { -1int } else { 1int }
}

/// Vertical component of a direction (0 for planar ones, which lie on the
/// horizon by construction).
pub open spec fn dir_y(dir: GridDirection) -> int {
    match dir {
        GridDirection::Octahedral { x, y, z, denom } => y as int,
        GridDirection::Planar { index, count } => 0,
    }
}

pub open spec fn dir_wf(dir: GridDirection) -> bool {
    match dir {
        GridDirection::Octahedral { x, y, z, denom } => {
            &&& denom >= 1
            &&& spec_abs(x as int) <= denom
            &&& spec_abs(y as int) <= denom
            &&& spec_abs(z as int) <= denom
            &&& !(x == 0 && y == 0 && z == 0)
        },
        GridDirection::Planar { index, count } => count >= 1 && index < count,
    }
}

/// Denominator of the octahedral rationals: N - 1, except that a 1 x 1 grid
/// uses 1 so that its sole cell stands at UV zero.
pub open spec fn spec_denom(grid_size: int) -> int {
    if grid_size <= 1 { 1int } else { grid_size - 1 }
}

pub open spec fn spec_direction(gx: int, gy: int, mode: GridMode, grid_size: int) -> GridDirection {
    let d = spec_denom(grid_size);
    match mode {
        GridMode::Spherical => {
            let x = 2 * gx - d;
            let z = 2 * gy - d;
            let y = d - spec_abs(x) - spec_abs(z);
            if y < 0 {
                GridDirection::Octahedral {
                    x: (spec_sgn(x) * (d - spec_abs(z))) as i64,
                    y: y as i64,
                    z: (spec_sgn(z) * (d - spec_abs(x))) as i64,
                    denom: d as u32,
                }
            } else {
                GridDirection::Octahedral { x: x as i64, y: y as i64, z: z as i64, denom: d as u32 }
            }
        },
        GridMode::Hemispherical => {
            let x = gx - gy;
            let z = gx + gy - d;
            let y = d - spec_abs(x) - spec_abs(z);
            GridDirection::Octahedral { x: x as i64, y: y as i64, z: z as i64, denom: d as u32 }
        },
        GridMode::Horizontal => {
            GridDirection::Planar {
                index: (gy * grid_size + gx) as u64,
                count: (grid_size * grid_size) as u64,
            }
        },
    }
}

/// The up axis that pairs with a direction: the z axis when the normalized
/// direction is nearly vertical (|y| above 0.99), else the y axis. On the
/// exact rationals, |y| / sqrt(x^2 + y^2 + z^2) > 99/100 holds if and only if
/// 10000 y^2 > 9801 (x^2 + y^2 + z^2).
pub open spec fn spec_up(dir: GridDirection) -> UpAxis {
    match dir {
        GridDirection::Octahedral { x, y, z, denom } => {
            let xi = x as int;
            let yi = y as int;
            let zi = z as int;
            if 10000 * yi * yi > 9801 * (xi * xi + yi * yi + zi * zi) {
                UpAxis::Z
            } else {
                UpAxis::Y
            }
        },
        GridDirection::Planar { index, count } => UpAxis::Y,
    }
}

fn abs64(v: i64) -> (r: i64)
    requires
        v > i64::MIN,
    ensures
        r == spec_abs(v as int),
{
    if v < 0 { -v } else { v }
}

fn sgn64(v: i64) -> (r: i64)
    ensures
        r == spec_sgn(v as int),
{
    if v < 0 { -1 } else { 1 }
}

fn up_axis_of(dir: GridDirection) -> (r: UpAxis)
    requires
        dir_wf(dir),
    ensures
        r == spec_up(dir),
{
    match dir {
        GridDirection::Octahedral { x, y, z, denom } => {
            let xi: i128 = x as i128;
            let yi: i128 = y as i128;
            let zi: i128 = z as i128;
            proof {
                let b = denom as int;
                assert(0 <= xi * xi <= b * b && 0 <= yi * yi <= b * b && 0 <= zi * zi <= b * b)
                    by (nonlinear_arith)
                    requires
                        -b <= xi <= b,
                        -b <= yi <= b,
                        -b <= zi <= b,
                ;
                assert(b * b <= 0xffff_ffffi128 * 0xffff_ffff) by (nonlinear_arith)
                    requires
                        0 <= b <= 0xffff_ffff,
                ;
            }
            let sum: i128 = xi * xi + yi * yi + zi * zi;
            proof {
                assert(10000 * ((yi as int) * (yi as int)) == 10000 * (yi as int) * (yi as int))
                    by (nonlinear_arith);
            }
            if 10000 * (yi * yi) > 9801 * sum {
                UpAxis::Z
            } else {
                UpAxis::Y
            }
        },
        GridDirection::Planar { index, count } => UpAxis::Y,
    }
}

/// Map a grid cell to its exact capture direction and the matching up axis.
///
/// Spherical cells spread UV over [-1, 1]^2 and fold the lower octahedron
/// half back over the diagonal; hemispherical cells spread the rotated square
/// so the whole grid stays on or above the horizon; horizontal cells walk the
/// horizon circle in raster order. The result is pinned to a spec function of
/// the inputs alone, so the mapping is pure.
pub fn normal_from_grid(grid_x: u32, grid_y: u32, mode: GridMode, grid_size: u32) -> (r: (
    GridDirection,
    UpAxis,
))
    requires
        grid_size >= 1,
        grid_x < grid_size,
        grid_y < grid_size,
    ensures
        r.0 == spec_direction(grid_x as int, grid_y as int, mode, grid_size as int),
        r.1 == spec_up(r.0),
        dir_wf(r.0),
        mode is Hemispherical ==> dir_y(r.0) >= 0,
{
    let d: i64 = if grid_size <= 1 { 1 } else { (grid_size - 1) as i64 };
    assert(1 <= d <= u32::MAX && grid_x <= d && grid_y <= d);
    let dir: GridDirection = match mode {
        GridMode::Spherical => {
            let x: i64 = 2 * (grid_x as i64) - d;
            let z: i64 = 2 * (grid_y as i64) - d;
            let ax: i64 = abs64(x);
            let az: i64 = abs64(z);
            let y: i64 = d - ax - az;
            assert(ax <= d && az <= d && -d <= y <= d);
            if y < 0 {
                let fx: i64 = if x < 0 { az - d } else { d - az };
                let fz: i64 = if z < 0 { ax - d } else { d - ax };
                proof {
                    assert(fx == spec_sgn(x as int) * (d - spec_abs(z as int)));
                    assert(fz == spec_sgn(z as int) * (d - spec_abs(x as int)));
                }
                GridDirection::Octahedral { x: fx, y, z: fz, denom: d as u32 }
            } else {
                GridDirection::Octahedral { x, y, z, denom: d as u32 }
            }
        },
        GridMode::Hemispherical => {
            let x: i64 = grid_x as i64 - grid_y as i64;
            let z: i64 = grid_x as i64 + grid_y as i64 - d;
            let ax: i64 = abs64(x);
            let az: i64 = abs64(z);
            let y: i64 = d - ax - az;
            assert(ax <= d && az <= d && 0 <= y <= d);
            GridDirection::Octahedral { x, y, z, denom: d as u32 }
        },
        GridMode::Horizontal => {
            proof {
                let n = grid_size as int;
                assert(grid_y * n + grid_x < n * n && n * n >= 1) by (nonlinear_arith)
                    requires
                        1 <= n,
                        0 <= grid_x < n,
                        0 <= grid_y < n,
                ;
                assert(n * n <= 0xffff_ffff * 0xffff_ffff) by (nonlinear_arith)
                    requires
                        1 <= n <= 0xffff_ffff,
                ;
            }
            let index: u64 = grid_y as u64 * grid_size as u64 + grid_x as u64;
            let count: u64 = grid_size as u64 * grid_size as u64;
            GridDirection::Planar { index, count }
        },
    };
    let up = up_axis_of(dir);
    (dir, up)
}

/// Over a spherical grid of size at least 3, the produced directions reach
/// both hemispheres: some cell points below the horizon and some cell points
/// above it. (A 2 x 2 spherical grid holds only the four UV corners, all of
/// which fold onto the downward pole, so it is left out.)
pub proof fn lemma_spherical_covers_hemispheres(n: u32)
    requires
        n >= 3,
    ensures
        exists|gx: int, gy: int|
            0 <= gx < n && 0 <= gy < n && dir_y(
                spec_direction(gx, gy, GridMode::Spherical, n as int),
            ) < 0,
        exists|gx: int, gy: int|
            0 <= gx < n && 0 <= gy < n && dir_y(
                spec_direction(gx, gy, GridMode::Spherical, n as int),
            ) > 0,
{
    let d = spec_denom(n as int);
    assert(d == n - 1);
    // cell (0, 0) lies on a UV corner: y = -d before folding, and folding
    // keeps the vertical component.
    assert(dir_y(spec_direction(0, 0, GridMode::Spherical, n as int)) < 0);
    // the central cell: with d even it is the exact pole (y = d), with d odd
    // it sits one step off the diagonal (y = d - 2 >= 1).
    let c = d / 2;
    assert(d == 2 * (d / 2) + d % 2);
    assert(0 <= c < n);
    assert(dir_y(spec_direction(c, c, GridMode::Spherical, n as int)) > 0);
}

} // verus!
