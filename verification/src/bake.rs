//! The per-frame bake session state machine.
//!
//! A session renders one snapshot per grid cell into a shared atlas, at most
//! `max_tiles_per_frame` cells per frame, in raster order. The very first cell
//! doubles as a readiness probe: when fewer draws happen than the visibility
//! check expected and `wait_for_render` is set, the session stays at zero
//! rendered tiles and retries next frame. Once every cell is rendered the
//! session posts a completion signal on a bounded channel; a session with a
//! callback first posts `RunningCallback` and reaches `Finished` only after
//! the atlas readback hands the pixels over. Continuous sessions ignore the
//! received states and restart tile-filling every frame.

use vstd::prelude::*;

use crate::error::ImposterError;
use crate::oct_coords::GridMode;

verus! {

#[derive(Clone, Copy, Debug, PartialEq, Eq, Structural)]
pub enum BakeState {
    Rendering,
    RunningCallback,
    Finished,
}

/// Capacity of the completion-signal channel. A single completion posts at
/// most one signal while the session is held off the render schedule, and a
/// readback posts one more, so two slots suffice under the protocol.
pub const SIGNAL_CHANNEL_BOUND: usize = 2;

/// The bounded handoff lane for completion signals between the rendering side
/// and the session owner. Posting never blocks: when the channel is full the
/// new signal is dropped (newest-loses policy).
pub struct ImposterBakeCompleteChannel {
    signals: Vec<BakeState>,
}

impl ImposterBakeCompleteChannel {
    pub closed spec fn view(&self) -> Seq<BakeState> {
        self.signals@
    }

    pub fn new() -> (r: Self)
        ensures
            r@ == Seq::<BakeState>::empty(),
    {
        ImposterBakeCompleteChannel { signals: Vec::new() }
    }

    pub fn len(&self) -> (r: usize)
        ensures
            r == self@.len(),
    {
        self.signals.len()
    }

    /// Post a signal. If the channel already holds `SIGNAL_CHANNEL_BOUND`
    /// signals, the new one is dropped and the channel is left as it was.
    pub fn send(&mut self, state: BakeState)
        ensures
            old(self)@.len() < SIGNAL_CHANNEL_BOUND ==> final(self)@ == old(self)@.push(state),
            old(self)@.len() >= SIGNAL_CHANNEL_BOUND ==> final(self)@ == old(self)@,
    {
        if self.signals.len() < SIGNAL_CHANNEL_BOUND {
            self.signals.push(state);
        }
    }

    /// Take the oldest pending signal, if any.
    pub fn try_recv(&mut self) -> (r: Option<BakeState>)
        ensures
            old(self)@.len() == 0 ==> r is None && final(self)@ == old(self)@,
            old(self)@.len() > 0 ==> r == Some(old(self)@[0]) && final(self)@ == old(self)@.skip(1),
    {
        if self.signals.len() == 0 {
            None
        } else {
            let first = self.signals.remove(0);
            proof {
                assert(self.signals@ =~= old(self).signals@.skip(1));
            }
            Some(first)
        }
    }
}

/// What one `tick` of a session did, for the rendering side to act on.
#[derive(Clone, Copy, Debug, PartialEq, Eq, Structural)]
pub struct FrameActions {
    /// First tile index drawn this frame (tiles are drawn in raster order).
    pub tiles_from: usize,
    /// One past the last tile index drawn this frame.
    pub tiles_to: usize,
    /// Every grid cell has now been rendered.
    pub completed: bool,
    /// Completed with a callback: the atlas must be read back to the CPU.
    pub readback: bool,
    /// Completed with a live target texture: the atlas must be copied to it.
    pub copy_to_target: bool,
}

/// Configuration and state of one bake session.
///
/// Float quantities (the capture radius) are carried as IEEE bit patterns:
/// the session logic never reads them, it hands them through to the renderer
/// and to the asset writer.
#[derive(Clone, Copy, Debug)]
pub struct ImposterBakeCamera {
    /// Bit pattern of the f32 capture radius.
    pub radius_bits: u32,
    /// Number of snapshots per axis.
    pub grid_size: u32,
    /// Pixel size of one tile in the atlas.
    pub tile_size: u32,
    /// Supersampling factor; above 1 each tile renders into an intermediate
    /// buffer that is box-filtered into the atlas.
    pub multisample: u32,
    /// Camera angles to use for the snapshots.
    pub grid_mode: GridMode,
    /// Whether an output texture is attached for live viewers.
    pub has_target: bool,
    /// Camera order relative to other cameras of the host.
    pub order: isize,
    /// Whether to restart the bake every frame instead of finishing.
    pub continuous: bool,
    /// Whether to stall on the first tile until every expected draw happens.
    pub wait_for_render: bool,
    /// Upper bound on tiles rendered in a single frame.
    pub max_tiles_per_frame: usize,
    /// Progress signal; written by the library.
    pub state: BakeState,
    /// Whether a completion callback is attached.
    pub has_callback: bool,
    /// Length of the manual per-tile camera transform list, if one is used.
    pub manual_camera_transform_count: Option<usize>,
    /// Tiles rendered so far in the current pass over the grid.
    pub rendered: usize,
}

impl Default for ImposterBakeCamera {
    /// A unit-radius spherical bake: 8 x 8 grid, 64-pixel tiles, 8 samples,
    /// waiting for readiness, with no frame cap.
    fn default() -> (r: Self)
        ensures
            r.radius_bits == 0x3F80_0000u32,
            r.grid_size == 8,
            r.tile_size == 64,
            r.multisample == 8,
            r.grid_mode is Spherical,
            !r.has_target,
            r.order == -99,
            !r.continuous,
            r.wait_for_render,
            r.max_tiles_per_frame == usize::MAX,
            r.state is Rendering,
            !r.has_callback,
            r.manual_camera_transform_count is None,
            r.rendered == 0,
            r.wf(),
    {
        ImposterBakeCamera {
            radius_bits: 0x3F80_0000,
            grid_size: 8,
            tile_size: 64,
            multisample: 8,
            grid_mode: GridMode::Spherical,
            has_target: false,
            order: -99,
            continuous: false,
            wait_for_render: true,
            max_tiles_per_frame: usize::MAX,
            state: BakeState::Rendering,
            has_callback: false,
            manual_camera_transform_count: None,
            rendered: 0,
        }
    }
}

impl Default for ImposterBakeCompleteChannel {
    /// An empty channel.
    fn default() -> (r: Self)
        ensures
            r@ == Seq::<BakeState>::empty(),
    {
        ImposterBakeCompleteChannel::new()
    }
}

impl ImposterBakeCamera {
    pub open spec fn tile_count(self) -> int {
        self.grid_size * self.grid_size
    }

    pub open spec fn wf(self) -> bool {
        &&& self.grid_size >= 1
        &&& self.tile_size >= 1
        &&& self.multisample >= 1
        &&& self.max_tiles_per_frame >= 1
        &&& self.grid_size * self.grid_size <= u32::MAX
        &&& self.tile_size * self.grid_size <= u32::MAX
        &&& self.rendered <= self.tile_count()
    }

    /// All fields except the rendered-tile counter are the same.
    pub open spec fn same_config(self, other: Self) -> bool {
        &&& self.radius_bits == other.radius_bits
        &&& self.grid_size == other.grid_size
        &&& self.tile_size == other.tile_size
        &&& self.multisample == other.multisample
        &&& self.grid_mode == other.grid_mode
        &&& self.has_target == other.has_target
        &&& self.order == other.order
        &&& self.continuous == other.continuous
        &&& self.wait_for_render == other.wait_for_render
        &&& self.max_tiles_per_frame == other.max_tiles_per_frame
        &&& self.state == other.state
        &&& self.has_callback == other.has_callback
        &&& self.manual_camera_transform_count == other.manual_camera_transform_count
    }

    /// The first tile renders for real only when every expected participant
    /// drew, or when the session does not wait for readiness.
    pub open spec fn spec_ready(self, expected: int, actual: int) -> bool {
        actual == expected || !self.wait_for_render
    }

    /// Rendered-tile count after one frame. A frame that starts at zero and
    /// is not ready keeps zero. A single-sample frame starting at zero draws
    /// the probe tile and then up to `max_tiles_per_frame` more in the same
    /// pass; every other frame advances by up to `max_tiles_per_frame`.
    pub open spec fn spec_advance(self, ready: bool) -> int {
        let n2 = self.tile_count();
        let m = self.max_tiles_per_frame as int;
        let r0 = self.rendered as int;
        if r0 == 0 && !ready {
            0int
        } else if r0 == 0 && self.multisample == 1 {
            if 1 + m <= n2 { 1 + m } else { n2 }
        } else {
            if r0 + m <= n2 { r0 + m } else { n2 }
        }
    }

    /// Advance the session by one frame.
    ///
    /// `expected_count` comes from the visibility check; `actual_count` is the
    /// number of draws observed while the probe tile rendered (it is read
    /// only when this frame starts at zero rendered tiles). On completion the
    /// per-pass counter resets (so a continuous session starts over) and one
    /// signal is posted: `RunningCallback` when a callback must still receive
    /// the atlas, else `Finished`.
    pub fn tick(
        &mut self,
        channel: &mut ImposterBakeCompleteChannel,
        expected_count: usize,
        actual_count: usize,
    ) -> (r: FrameActions)
        requires
            old(self).wf(),
            old(self).state is Rendering,
            old(channel)@.len() == 0,
        ensures
            final(self).wf(),
            old(self).same_config(*final(self)),
            ({
                let ready = old(self).spec_ready(expected_count as int, actual_count as int);
                let adv = old(self).spec_advance(ready);
                let n2 = old(self).tile_count();
                let completed = adv == n2;
                &&& r.completed == completed
                &&& r.readback == (completed && old(self).has_callback)
                &&& r.copy_to_target == (completed && old(self).has_target)
                &&& r.tiles_from == old(self).rendered
                &&& r.tiles_to == (if old(self).rendered == 0 && !ready { 1int } else { adv })
                &&& final(self).rendered == (if completed { 0int } else { adv })
                &&& completed ==> final(channel)@ == seq![
                    (if old(self).has_callback { BakeState::RunningCallback } else { BakeState::Finished }),
                ]
                &&& !completed ==> final(channel)@ == old(channel)@
            }),
{
        let n2: usize = (self.grid_size as usize) * (self.grid_size as usize);
        proof {
            assert(n2 >= 1 && self.rendered <= n2) by (nonlinear_arith)
                requires
                    self.grid_size >= 1,
                    n2 == self.grid_size * self.grid_size,
                    self.rendered <= self.grid_size * self.grid_size,
            ;
        }
        let ready: bool = actual_count == expected_count || !self.wait_for_render;
        let from: usize = self.rendered;
        let mut new_rendered: usize = self.rendered;
        let mut drawn_to: usize = self.rendered;
        if self.rendered == 0 {
            drawn_to = 1;
            if ready {
                if self.multisample == 1 {
                    let extra: usize = if self.max_tiles_per_frame < n2 - 1 {
                        self.max_tiles_per_frame
                    } else {
                        n2 - 1
                    };
                    new_rendered = 1 + extra;
                } else {
                    new_rendered = if self.max_tiles_per_frame < n2 {
                        self.max_tiles_per_frame
                    } else {
                        n2
                    };
                }
                drawn_to = new_rendered;
            }
        } else {
            let rem: usize = n2 - self.rendered;
            let take: usize = if self.max_tiles_per_frame < rem {
                self.max_tiles_per_frame
            } else {
                rem
            };
            new_rendered = self.rendered + take;
            drawn_to = new_rendered;
        }
        let completed: bool = new_rendered == n2;
        let mut readback: bool = false;
        let mut copy_to_target: bool = false;
        if completed {
            if self.has_callback {
                readback = true;
                channel.send(BakeState::RunningCallback);
            } else {
                channel.send(BakeState::Finished);
            }
            copy_to_target = self.has_target;
            new_rendered = 0;
        }
        self.rendered = new_rendered;
        FrameActions { tiles_from: from, tiles_to: drawn_to, completed, readback, copy_to_target }
    }
}

/// Drain the completion channel into the session state. A non-continuous
/// session keeps the last received state (and is `Finished` for good once
/// that arrives); a continuous session discards the signals and keeps
/// rendering forever.
pub fn check_finished_cameras(cam: &mut ImposterBakeCamera, channel: &mut ImposterBakeCompleteChannel)
    ensures
        final(channel)@ == Seq::<BakeState>::empty(),
        old(cam).same_config_except_state(*final(cam)),
        final(cam).rendered == old(cam).rendered,
        old(cam).continuous ==> final(cam).state == old(cam).state,
        !old(cam).continuous && old(channel)@.len() > 0 ==> final(cam).state == old(channel)@.last(),
        !old(cam).continuous && old(channel)@.len() == 0 ==> final(cam).state == old(cam).state,
{
    while channel.len() > 0
        invariant
            old(cam).same_config_except_state(*cam),
            cam.rendered == old(cam).rendered,
            channel@.len() <= old(channel)@.len(),
            channel@ == old(channel)@.skip(old(channel)@.len() - channel@.len()),
            old(cam).continuous ==> cam.state == old(cam).state,
            !old(cam).continuous ==> ({
                let consumed = old(channel)@.len() - channel@.len();
                &&& consumed > 0 ==> cam.state == old(channel)@[consumed - 1]
                &&& consumed == 0 ==> cam.state == old(cam).state
            }),
        decreases channel@.len(),
    {
        let ghost pre = channel@;
        let ghost consumed_before = old(channel)@.len() - pre.len();
        let next = channel.try_recv();
        proof {
            assert(old(channel)@.skip(consumed_before + 1) =~= pre.skip(1));
            assert(pre[0] == old(channel)@[consumed_before]);
        }
        match next {
            Some(new_state) => {
                if !cam.continuous {
                    cam.state = new_state;
                }
            },
            None => {},
        }
    }
    proof {
        assert(channel@ =~= Seq::<BakeState>::empty());
        if !old(cam).continuous && old(channel)@.len() > 0 {
            assert(cam.state == old(channel)@[old(channel)@.len() - 1]);
        }
    }
}

impl ImposterBakeCamera {
    /// All fields except `state` and the rendered-tile counter are the same.
    pub open spec fn same_config_except_state(self, other: Self) -> bool {
        &&& self.radius_bits == other.radius_bits
        &&& self.grid_size == other.grid_size
        &&& self.tile_size == other.tile_size
        &&& self.multisample == other.multisample
        &&& self.grid_mode == other.grid_mode
        &&& self.has_target == other.has_target
        &&& self.order == other.order
        &&& self.continuous == other.continuous
        &&& self.wait_for_render == other.wait_for_render
        &&& self.max_tiles_per_frame == other.max_tiles_per_frame
        &&& self.has_callback == other.has_callback
        &&& self.manual_camera_transform_count == other.manual_camera_transform_count
    }
}

/// Whether the rendering side picks this session up this frame: only
/// sessions still marked `Rendering` whose completion channel is drained.
pub fn should_extract(cam: &ImposterBakeCamera, channel: &ImposterBakeCompleteChannel) -> (r: bool)
    ensures
        r == (cam.state is Rendering && channel@.len() == 0),
{
    let is_rendering = match cam.state {
        BakeState::Rendering => true,
        _ => false,
    };
    is_rendering && channel.len() == 0
}

/// The grid cells of a session in the order their tiles render: raster order,
/// row by row. Rejects a manual camera transform list that is shorter than
/// the grid (the transforms themselves are the host's concern; only the
/// count is checked here).
pub fn plan_subviews(cam: &ImposterBakeCamera) -> (r: Result<Vec<(u32, u32)>, ImposterError>)
    requires
        cam.wf(),
    ensures
        match r {
            Ok(cells) => {
                &&& cam.manual_camera_transform_count matches Some(c) ==> c >= cam.tile_count()
                &&& cells@.len() == cam.tile_count()
                &&& forall|i: int|
                    0 <= i < cells@.len() ==> #[trigger] cells@[i] == (
                        (i % (cam.grid_size as int)) as u32,
                        (i / (cam.grid_size as int)) as u32,
                    )
            },
            Err(e) => {
                &&& e == ImposterError::NotEnoughCameraTransforms
                &&& cam.manual_camera_transform_count matches Some(c) && c < cam.tile_count()
            },
        },
{
    let n: u32 = cam.grid_size;
    let n2: usize = (n as usize) * (n as usize);
    match cam.manual_camera_transform_count {
        Some(c) => {
            if c < n2 {
                return Err(ImposterError::NotEnoughCameraTransforms);
            }
        },
        None => {},
    }
    let mut cells: Vec<(u32, u32)> = Vec::new();
    let mut y: u32 = 0;
    while y < n
        invariant
            y <= n,
            n == cam.grid_size,
            cam.wf(),
            cells@.len() == y * n,
            forall|i: int|
                0 <= i < cells@.len() ==> #[trigger] cells@[i] == (
                    (i % (n as int)) as u32,
                    (i / (n as int)) as u32,
                ),
        decreases n - y,
    {
        let mut x: u32 = 0;
        while x < n
            invariant
                x <= n,
                y < n,
                n == cam.grid_size,
                cam.wf(),
                cells@.len() == y * n + x,
                forall|i: int|
                    0 <= i < cells@.len() ==> #[trigger] cells@[i] == (
                        (i % (n as int)) as u32,
                        (i / (n as int)) as u32,
                    ),
            decreases n - x,
        {
            proof {
                let ni = n as int;
                let yi = y as int;
                let xi = x as int;
                assert(yi * ni + xi < ni * ni && (yi * ni + xi) % ni == xi && (yi * ni + xi) / ni
                    == yi) by (nonlinear_arith)
                    requires
                        0 <= xi < ni,
                        0 <= yi < ni,
                ;
                assert(ni * ni <= u32::MAX);
            }
            cells.push((x, y));
            x = x + 1;
        }
        proof {
            assert((y as int) * (n as int) + (n as int) == ((y + 1) as int) * (n as int))
                by (nonlinear_arith);
        }
        y = y + 1;
    }
    proof {
        assert((n as int) * (n as int) == cam.tile_count());
    }
    Ok(cells)
}

/// Rendered-tile count of an always-ready session (multisample above 1, or
/// any session past its probe frame) after `k` frames of `m` tiles each, for
/// a grid of `n2` tiles.
pub open spec fn spec_rendered_after(k: nat, m: nat, n2: nat) -> nat {
    if k * m <= n2 { (k * m) as nat } else { n2 }
}

/// One more frame advances the capped counter by `m`, capped at `n2`: the
/// closed form above matches the per-frame step that `tick` ensures.
pub proof fn lemma_ready_tick_progress(k: nat, m: nat, n2: nat)
    requires
        m >= 1,
    ensures
        spec_rendered_after(0, m, n2) == 0,
        spec_rendered_after(k + 1, m, n2) == (if spec_rendered_after(k, m, n2) + m <= n2 {
            spec_rendered_after(k, m, n2) + m
        } else {
            n2
        }),
{
    assert((k + 1) * m == k * m + m) by (nonlinear_arith);
}

/// An always-ready bake of `n2` tiles at `m` tiles per frame holds the full
/// grid exactly from frame ceil(n2 / m) on.
pub proof fn lemma_bake_frame_count(k: nat, m: nat, n2: nat)
    requires
        m >= 1,
        n2 >= 1,
    ensures
        spec_rendered_after(k, m, n2) == n2 <==> k >= (n2 + m - 1) / (m as int),
{
    let c = (n2 + m - 1) / (m as int);
    vstd::arithmetic::div_mod::lemma_fundamental_div_mod(n2 + m - 1, m as int);
    let rr = (n2 + m - 1) % (m as int);
    assert(n2 + m - 1 == (m as int) * c + rr);
    if k >= c {
        assert(k * m >= c * m) by (nonlinear_arith)
            requires
                k >= c,
                m >= 1,
                c >= 0,
        ;
        assert(c * m == (m as int) * c) by (nonlinear_arith);
        assert(k * m >= n2);
    } else {
        assert(k * m <= (c - 1) * m) by (nonlinear_arith)
            requires
                k <= c - 1,
                m >= 1,
                k >= 0,
        ;
        assert((c - 1) * m == (m as int) * c - m) by (nonlinear_arith);
        assert(k * m < n2);
        assert(k * m >= 0) by (nonlinear_arith)
            requires
                k >= 0,
                m >= 0,
        ;
    }
}

/// Round `value` up to the next multiple of the 256-byte copy alignment,
/// always adding at least one byte (an aligned value moves to the next
/// boundary, matching the transfer-buffer sizing rule).
pub fn align_byte_size(value: u32) -> (r: u32)
    requires
        value + 256 - value % 256 <= u32::MAX,
    ensures
        r == value + 256 - value % 256,
        r % 256 == 0,
        value < r <= value + 256,
{
    let r = value + (256 - value % 256);
    proof {
        vstd::arithmetic::div_mod::lemma_fundamental_div_mod(value as int, 256);
        assert((value + 256 - value % 256) % 256 == 0) by (nonlinear_arith)
            requires
                value == 256 * ((value as int) / 256) + (value as int) % 256,
                0 <= (value as int) % 256 < 256,
        ;
    }
    r
}

/// Size in bytes of a GPU transfer buffer for `height` rows of `width`
/// pixels, with each row padded to the 256-byte copy alignment.
pub fn get_aligned_size(width: u32, height: u32, pixel_size: u32) -> (r: u32)
    requires
        width * pixel_size + 256 <= u32::MAX,
        height * (width * pixel_size + 256 - (width * pixel_size) % 256) <= u32::MAX,
    ensures
        r == height * ((width * pixel_size + 256 - (width * pixel_size) % 256) as int),
{
    let row = align_byte_size(width * pixel_size);
    proof {
        assert(height * row == height * ((width * pixel_size + 256 - (width * pixel_size) % 256) as int));
    }
    height * row
}

/// Drop the per-row alignment padding from a buffer read back from the GPU:
/// keep the first `row_bytes` bytes of each of the `rows` padded rows.
proof fn lemma_row_index_bound(i2: int, j2: int, i: int, row: int)
    requires
        0 <= i2 < i,
        0 <= j2 < row,
    ensures
        i2 * row + j2 < i * row,
{
    assert(i2 * row + j2 < i * row) by (nonlinear_arith)
        requires
            0 <= i2 < i,
            0 <= j2 < row,
    ;
}

pub fn strip_row_padding(data: &Vec<u8>, row_bytes: usize, padded_row_bytes: usize, rows: usize) -> (r:
    Vec<u8>)
    requires
        row_bytes <= padded_row_bytes,
        rows * padded_row_bytes <= data@.len(),
    ensures
        r@.len() == rows * row_bytes,
        forall|i: int, j: int|
            0 <= i < rows && 0 <= j < row_bytes ==> #[trigger] r@[i * row_bytes + j] == data@[i
                * padded_row_bytes + j],
{
    let data_len: usize = data.len();
    let mut out: Vec<u8> = Vec::new();
    let mut i: usize = 0;
    while i < rows
        invariant
            i <= rows,
            row_bytes <= padded_row_bytes,
            rows * padded_row_bytes <= data@.len(),
            data@.len() == data_len,
            out@.len() == i * row_bytes,
            forall|i2: int, j: int|
                0 <= i2 < i && 0 <= j < row_bytes ==> #[trigger] out@[i2 * row_bytes + j]
                    == data@[i2 * padded_row_bytes + j],
        decreases rows - i,
    {
        proof {
            assert((i + 1) * padded_row_bytes <= rows * padded_row_bytes && (i + 1) * row_bytes <= (i
                + 1) * padded_row_bytes && i * row_bytes + row_bytes == (i + 1) * row_bytes && i
                * padded_row_bytes + padded_row_bytes == (i + 1) * padded_row_bytes && 0 <= i
                * row_bytes && 0 <= i * padded_row_bytes) by (nonlinear_arith)
                requires
                    0 <= i < rows,
                    0 <= row_bytes <= padded_row_bytes,
            ;
        }
        let mut j: usize = 0;
        while j < row_bytes
            invariant
                0 <= i < rows,
                j <= row_bytes,
                row_bytes <= padded_row_bytes,
                rows * padded_row_bytes <= data@.len(),
                data@.len() == data_len,
                i * padded_row_bytes + padded_row_bytes <= data@.len(),
                i * row_bytes + row_bytes == (i + 1) * row_bytes,
                i * padded_row_bytes + padded_row_bytes == (i + 1) * padded_row_bytes,
                0 <= i * row_bytes,
                0 <= i * padded_row_bytes,
                out@.len() == i * row_bytes + j,
                forall|i2: int, j2: int|
                    0 <= i2 < i && 0 <= j2 < row_bytes ==> #[trigger] out@[i2 * row_bytes + j2]
                        == data@[i2 * padded_row_bytes + j2],
                forall|j2: int|
                    0 <= j2 < j ==> #[trigger] out@[i * row_bytes + j2] == data@[i
                        * padded_row_bytes + j2],
            decreases row_bytes - j,
        {
            let b = data[i * padded_row_bytes + j];
            out.push(b);
            proof {
                assert forall|i2: int, j2: int|
                    0 <= i2 < i && 0 <= j2 < row_bytes implies #[trigger] out@[i2 * row_bytes
                    + j2] == data@[i2 * padded_row_bytes + j2] by {
                    lemma_row_index_bound(i2, j2, i as int, row_bytes as int);
                }
            }
            j = j + 1;
        }
        proof {
            assert forall|i2: int, j2: int|
                0 <= i2 < i + 1 && 0 <= j2 < row_bytes implies #[trigger] out@[i2 * row_bytes + j2]
                == data@[i2 * padded_row_bytes + j2] by {
                if i2 == i {
                    assert(out@[i as int * row_bytes + j2] == data@[i as int * padded_row_bytes
                        + j2]);
                } else {
                    lemma_row_index_bound(i2, j2, i as int, row_bytes as int);
                }
            }
        }
        i = i + 1;
    }
    out
}

} // verus!
