use boimp::bake::BakeState;
use boimp::codec::write_asset;
use boimp::image_data::RgImage;
use boimp::loader::{
    alpha_mode_choice, compose_flags, AlphaModeChoice, ImposterLoader, ImposterLoaderSettings,
    ImposterVertexMode, INDEXED_FLAG, RENDER_MULTISAMPLE_FLAG, USE_SOURCE_UV_Y_FLAG,
    VERTEX_BILLBOARD_FLAG,
};
use boimp::visibility::{
    check_imposter_visibility, count_expected_imposter_materials, VisibilityEntity,
};
use boimp::GridMode;

#[test]
fn flags_compose_one_bit_per_toggle() {
    let flags = compose_flags(
        ImposterVertexMode::Billboard,
        true,
        true,
        GridMode::Hemispherical,
        true,
    );
    assert_eq!(
        flags,
        VERTEX_BILLBOARD_FLAG + RENDER_MULTISAMPLE_FLAG + USE_SOURCE_UV_Y_FLAG + 1 + INDEXED_FLAG
    );
    assert_eq!(GridMode::from_flags(flags), GridMode::Hemispherical);
    let bare = compose_flags(
        ImposterVertexMode::NoBillboard,
        false,
        false,
        GridMode::Spherical,
        false,
    );
    assert_eq!(bare, 0);
}

#[test]
fn alpha_choice_follows_the_blend_bits() {
    assert_eq!(alpha_mode_choice(0.0f32.to_bits()), AlphaModeChoice::Blend);
    assert_eq!(alpha_mode_choice((-0.0f32).to_bits()), AlphaModeChoice::Blend);
    assert_eq!(alpha_mode_choice(1.0f32.to_bits()), AlphaModeChoice::Opaque);
    assert_eq!(
        alpha_mode_choice(0.5f32.to_bits()),
        AlphaModeChoice::Mask(0.5f32.to_bits())
    );
}

#[test]
fn default_loader_settings_match_the_reference() {
    let s = ImposterLoaderSettings::default();
    assert_eq!(s.vertex_mode, ImposterVertexMode::Billboard);
    assert!(!s.multisample);
    assert!(!s.use_source_uv_y);
    assert_eq!(s.alpha_bits, 1.0f32.to_bits());
    assert_eq!(s.alpha_blend_bits, 0.0f32.to_bits());
}

#[test]
fn loader_reads_back_a_written_asset() {
    let mut img = RgImage { width: 4, height: 4, data: vec![0u8; 4 * 4 * 8] };
    for i in 0..16usize {
        let word: u64 = if i % 3 == 0 { 0x0505_0505_0505_0505 } else { 0x0606_0606_0606_0606 };
        img.data[i * 8..i * 8 + 8].copy_from_slice(&word.to_be_bytes());
    }
    let token = "3.5".as_bytes().to_vec();
    let bytes = write_asset(&token, 2, 2, GridMode::Horizontal, &img, false, true).unwrap();
    let loader = ImposterLoader;
    assert_eq!(loader.extensions(), "boimp");
    let mut settings = ImposterLoaderSettings::default();
    settings.multisample = true;
    let imp = loader.load(&bytes, &settings).unwrap();
    assert_eq!(imp.data.grid_size, 2);
    assert_eq!(imp.data.base_tile_size, 2);
    assert_eq!(imp.data.scale_token, token);
    assert!(imp.indexed);
    // mode bits, billboard, multisample, and the indexed marker
    assert_eq!(
        imp.data.flags,
        2 + VERTEX_BILLBOARD_FLAG + RENDER_MULTISAMPLE_FLAG + INDEXED_FLAG
    );
    assert_eq!(imp.key().0, imp.data.flags);
    assert_eq!(imp.alpha_mode, AlphaModeChoice::Blend);
    assert_eq!(GridMode::from_flags(imp.data.flags), GridMode::Horizontal);
}

fn entity(visible: bool, overlaps: bool, drawable: bool) -> VisibilityEntity {
    VisibilityEntity {
        inherited_visible: visible,
        layers_intersect: true,
        has_aabb: true,
        no_frustum_culling: false,
        within_capture_radius: overlaps,
        has_material_and_mesh: drawable,
    }
}

#[test]
fn visibility_check_applies_the_culling_rule() {
    let entities = vec![
        entity(true, true, true),    // kept, draws
        entity(true, false, true),   // culled by the capture sphere
        entity(false, true, true),   // hidden
        entity(true, true, false),   // kept, but no bakeable material
    ];
    let v = check_imposter_visibility(&entities, false, false, BakeState::Rendering).unwrap();
    assert_eq!(v, vec![true, false, false, true]);
    assert_eq!(count_expected_imposter_materials(&entities, &v), 1);
}

#[test]
fn visibility_check_honors_culling_opt_outs() {
    let mut e = entity(true, false, true);
    e.no_frustum_culling = true;
    let entities = vec![e];
    let v = check_imposter_visibility(&entities, false, false, BakeState::Rendering).unwrap();
    assert_eq!(v, vec![true]);
    // the camera-wide opt-out keeps sphere-culled entities too
    let entities = vec![entity(true, false, true)];
    let v = check_imposter_visibility(&entities, true, false, BakeState::Rendering).unwrap();
    assert_eq!(v, vec![true]);
    // an entity without bounds cannot be culled
    let mut e = entity(true, false, true);
    e.has_aabb = false;
    let v = check_imposter_visibility(&vec![e], false, false, BakeState::Rendering).unwrap();
    assert_eq!(v, vec![true]);
}

#[test]
fn finished_cameras_select_nothing_unless_continuous() {
    let entities = vec![entity(true, true, true)];
    assert!(check_imposter_visibility(&entities, false, false, BakeState::Finished).is_none());
    assert!(check_imposter_visibility(&entities, false, true, BakeState::Finished).is_some());
    assert!(check_imposter_visibility(&entities, false, false, BakeState::Rendering).is_some());
}

#[test]
fn visibility_recomputation_is_idempotent() {
    let entities = vec![entity(true, true, true), entity(true, false, false)];
    let a = check_imposter_visibility(&entities, false, false, BakeState::Rendering).unwrap();
    let b = check_imposter_visibility(&entities, false, false, BakeState::Rendering).unwrap();
    assert_eq!(a, b);
    assert_eq!(
        count_expected_imposter_materials(&entities, &a),
        count_expected_imposter_materials(&entities, &b)
    );
}
