use boimp::oct_coords::{
    normal_from_grid, GridDirection, GridMode, UpAxis, GRID_MASK,
};

fn direction_as_floats(dir: GridDirection) -> (f64, f64, f64) {
    match dir {
        GridDirection::Octahedral { x, y, z, denom } => {
            let d = denom as f64;
            (x as f64 / d, y as f64 / d, z as f64 / d)
        }
        GridDirection::Planar { index, count } => {
            let angle = 2.0 * std::f64::consts::PI * (index as f64) / (count as f64);
            (angle.sin(), 0.0, angle.cos())
        }
    }
}

#[test]
fn directions_are_unit_after_normalization() {
    // every cell of every mode yields a nonzero vector whose normalization
    // is unit length
    for &n in &[1u32, 2, 8, 16] {
        for &mode in &[GridMode::Spherical, GridMode::Hemispherical, GridMode::Horizontal] {
            for y in 0..n {
                for x in 0..n {
                    let (dir, _up) = normal_from_grid(x, y, mode, n);
                    let (vx, vy, vz) = direction_as_floats(dir);
                    let len = (vx * vx + vy * vy + vz * vz).sqrt();
                    assert!(len > 1e-9, "zero direction at {x},{y} n={n}");
                    let (nx, ny, nz) = (vx / len, vy / len, vz / len);
                    let nlen = (nx * nx + ny * ny + nz * nz).sqrt();
                    assert!((nlen - 1.0).abs() < 1e-9);
                }
            }
        }
    }
}

#[test]
fn spherical_covers_both_hemispheres() {
    let n = 8u32;
    let mut above = 0;
    let mut below = 0;
    for y in 0..n {
        for x in 0..n {
            let (dir, _) = normal_from_grid(x, y, GridMode::Spherical, n);
            if let GridDirection::Octahedral { y: vy, .. } = dir {
                if vy > 0 {
                    above += 1;
                }
                if vy < 0 {
                    below += 1;
                }
            } else {
                panic!("spherical cell must be octahedral");
            }
        }
    }
    assert!(above >= 1, "no direction above the horizon");
    assert!(below >= 1, "no direction below the horizon");
}

#[test]
fn hemispherical_never_dips_below_equator() {
    for &n in &[1u32, 2, 8, 16] {
        for y in 0..n {
            for x in 0..n {
                let (dir, _) = normal_from_grid(x, y, GridMode::Hemispherical, n);
                match dir {
                    GridDirection::Octahedral { y: vy, .. } => assert!(vy >= 0),
                    _ => panic!("hemispherical cell must be octahedral"),
                }
            }
        }
    }
}

#[test]
fn single_cell_grid_values() {
    // a 1x1 grid behaves as UV zero: spherical folds to the downward pole
    let (dir, up) = normal_from_grid(0, 0, GridMode::Spherical, 1);
    assert_eq!(dir, GridDirection::Octahedral { x: 0, y: -1, z: 0, denom: 1 });
    assert_eq!(up, UpAxis::Z);
    let (dir, up) = normal_from_grid(0, 0, GridMode::Hemispherical, 1);
    assert_eq!(dir, GridDirection::Octahedral { x: 0, y: 0, z: -1, denom: 1 });
    assert_eq!(up, UpAxis::Y);
    let (dir, up) = normal_from_grid(0, 0, GridMode::Horizontal, 1);
    assert_eq!(dir, GridDirection::Planar { index: 0, count: 1 });
    assert_eq!(up, UpAxis::Y);
}

#[test]
fn horizontal_walks_raster_order() {
    let n = 4u32;
    let (dir, _) = normal_from_grid(3, 2, GridMode::Horizontal, n);
    assert_eq!(dir, GridDirection::Planar { index: 11, count: 16 });
}

#[test]
fn spherical_pole_cell_points_up() {
    // the central cell of an odd grid is the exact upward pole
    let (dir, up) = normal_from_grid(4, 4, GridMode::Spherical, 9);
    assert_eq!(dir, GridDirection::Octahedral { x: 0, y: 8, z: 0, denom: 8 });
    assert_eq!(up, UpAxis::Z);
}

#[test]
fn mode_flags_roundtrip() {
    for &mode in &[GridMode::Spherical, GridMode::Hemispherical, GridMode::Horizontal] {
        let flags = mode.as_flags();
        assert!(flags < 3);
        assert_eq!(GridMode::from_flags(flags), mode);
        // bits above the mask never disturb the decoding
        assert_eq!(GridMode::from_flags(flags + 60), mode);
    }
    assert_eq!(GRID_MASK, 3);
    assert_eq!(GridMode::from_flags(0), GridMode::Spherical);
    assert_eq!(GridMode::from_flags(1), GridMode::Hemispherical);
    assert_eq!(GridMode::from_flags(2), GridMode::Horizontal);
}
