use boimp::bake::{
    align_byte_size, check_finished_cameras, get_aligned_size, plan_subviews, should_extract,
    strip_row_padding, BakeState, ImposterBakeCamera, ImposterBakeCompleteChannel,
};

fn camera(grid_size: u32, multisample: u32, max_tiles_per_frame: usize) -> ImposterBakeCamera {
    ImposterBakeCamera {
        radius_bits: 1.0f32.to_bits(),
        grid_size,
        tile_size: 64,
        multisample,
        grid_mode: boimp::GridMode::Spherical,
        has_target: false,
        order: -99,
        continuous: false,
        wait_for_render: true,
        max_tiles_per_frame,
        state: BakeState::Rendering,
        has_callback: false,
        manual_camera_transform_count: None,
        rendered: 0,
    }
}

#[test]
fn single_tile_bake_finishes_in_one_frame() {
    // a 1x1 spherical bake with readiness satisfied reports Finished after
    // one frame
    let mut cam = camera(1, 1, usize::MAX);
    let mut chan = ImposterBakeCompleteChannel::new();
    let actions = cam.tick(&mut chan, 1, 1);
    assert_eq!(actions.tiles_from, 0);
    assert_eq!(actions.tiles_to, 1);
    assert!(actions.completed);
    assert!(!actions.readback);
    check_finished_cameras(&mut cam, &mut chan);
    assert_eq!(cam.state, BakeState::Finished);
    assert!(!should_extract(&cam, &chan));
}

#[test]
fn sixteen_tiles_at_four_per_frame_take_four_frames() {
    // grid 4, multisample 4, max 4 tiles per frame: exactly four frames
    let mut cam = camera(4, 4, 4);
    let mut chan = ImposterBakeCompleteChannel::new();
    let mut frames = 0;
    loop {
        let actions = cam.tick(&mut chan, 3, 3);
        frames += 1;
        if actions.completed {
            break;
        }
        assert_eq!(cam.rendered, frames * 4);
    }
    assert_eq!(frames, 4);
    check_finished_cameras(&mut cam, &mut chan);
    assert_eq!(cam.state, BakeState::Finished);
}

#[test]
fn first_frame_without_multisample_also_draws_the_probe() {
    // with multisample 1 the probe tile and the per-frame batch share the
    // first frame
    let mut cam = camera(4, 1, 4);
    let mut chan = ImposterBakeCompleteChannel::new();
    let actions = cam.tick(&mut chan, 2, 2);
    assert_eq!(actions.tiles_from, 0);
    assert_eq!(actions.tiles_to, 5);
    assert_eq!(cam.rendered, 5);
    assert!(!actions.completed);
}

#[test]
fn unready_probe_stalls_when_waiting() {
    let mut cam = camera(4, 1, 4);
    let mut chan = ImposterBakeCompleteChannel::new();
    // fewer draws than expected: the probe renders but progress stays zero
    let actions = cam.tick(&mut chan, 5, 2);
    assert_eq!(actions.tiles_from, 0);
    assert_eq!(actions.tiles_to, 1);
    assert_eq!(cam.rendered, 0);
    assert!(!actions.completed);
    assert_eq!(chan.len(), 0);
}

#[test]
fn unready_probe_proceeds_without_waiting() {
    let mut cam = camera(2, 1, usize::MAX);
    cam.wait_for_render = false;
    let mut chan = ImposterBakeCompleteChannel::new();
    let actions = cam.tick(&mut chan, 5, 0);
    assert!(actions.completed);
    assert_eq!(cam.rendered, 0);
}

#[test]
fn callback_defers_finished_until_readback() {
    let mut cam = camera(1, 1, usize::MAX);
    cam.has_callback = true;
    let mut chan = ImposterBakeCompleteChannel::new();
    let actions = cam.tick(&mut chan, 0, 0);
    assert!(actions.completed);
    assert!(actions.readback);
    check_finished_cameras(&mut cam, &mut chan);
    assert_eq!(cam.state, BakeState::RunningCallback);
    // the readback task reports back on the same channel once the pixels
    // are on the CPU
    chan.send(BakeState::Finished);
    check_finished_cameras(&mut cam, &mut chan);
    assert_eq!(cam.state, BakeState::Finished);
}

#[test]
fn continuous_sessions_restart_instead_of_finishing() {
    let mut cam = camera(2, 1, usize::MAX);
    cam.continuous = true;
    let mut chan = ImposterBakeCompleteChannel::new();
    let actions = cam.tick(&mut chan, 1, 1);
    assert!(actions.completed);
    // the per-pass counter resets so the next frame bakes again
    assert_eq!(cam.rendered, 0);
    check_finished_cameras(&mut cam, &mut chan);
    assert_eq!(cam.state, BakeState::Rendering);
    assert!(should_extract(&cam, &chan));
}

#[test]
fn completion_channel_drops_newest_when_full() {
    let mut chan = ImposterBakeCompleteChannel::new();
    chan.send(BakeState::RunningCallback);
    chan.send(BakeState::Finished);
    chan.send(BakeState::Rendering);  // dropped: the channel holds two
    assert_eq!(chan.len(), 2);
    assert_eq!(chan.try_recv(), Some(BakeState::RunningCallback));
    assert_eq!(chan.try_recv(), Some(BakeState::Finished));
    assert_eq!(chan.try_recv(), None);
}

#[test]
fn subview_plan_is_raster_order() {
    let cam = camera(3, 1, usize::MAX);
    let cells = plan_subviews(&cam).unwrap();
    assert_eq!(cells.len(), 9);
    assert_eq!(cells[0], (0, 0));
    assert_eq!(cells[1], (1, 0));
    assert_eq!(cells[3], (0, 1));
    assert_eq!(cells[8], (2, 2));
}

#[test]
fn short_manual_transform_list_is_a_config_error() {
    let mut cam = camera(4, 1, usize::MAX);
    cam.manual_camera_transform_count = Some(15);
    assert_eq!(plan_subviews(&cam), Err(boimp::ImposterError::NotEnoughCameraTransforms));
    cam.manual_camera_transform_count = Some(16);
    assert!(plan_subviews(&cam).is_ok());
}

#[test]
fn byte_alignment_matches_the_gpu_rule() {
    assert_eq!(align_byte_size(0), 256);
    assert_eq!(align_byte_size(100), 256);
    assert_eq!(align_byte_size(256), 512);
    assert_eq!(align_byte_size(512), 768);
    assert_eq!(get_aligned_size(64, 64, 8), 64 * 768);
    assert_eq!(get_aligned_size(64, 1, 8), 768);
}

#[test]
fn row_padding_is_stripped_exactly() {
    // two rows of three bytes padded to five
    let data = vec![1u8, 2, 3, 0, 0, 4, 5, 6, 0, 0];
    let out = strip_row_padding(&data, 3, 5, 2);
    assert_eq!(out, vec![1u8, 2, 3, 4, 5, 6]);
}

#[test]
fn default_camera_matches_the_reference_configuration() {
    let cam = ImposterBakeCamera::default();
    assert_eq!(cam.radius_bits, 1.0f32.to_bits());
    assert_eq!(cam.grid_size, 8);
    assert_eq!(cam.tile_size, 64);
    assert_eq!(cam.multisample, 8);
    assert_eq!(cam.grid_mode, boimp::GridMode::Spherical);
    assert_eq!(cam.order, -99);
    assert!(!cam.continuous);
    assert!(cam.wait_for_render);
    assert_eq!(cam.max_tiles_per_frame, usize::MAX);
    assert_eq!(cam.state, BakeState::Rendering);
    assert_eq!(ImposterBakeCompleteChannel::default().len(), 0);
}
