//! The frame orchestrator's decisions.
//!
//! A frame plan becomes a flat list of steps that a GPU backend performs in
//! order: for each draw item, bind its material at the item's slot, upload the
//! frame-wide data and the item's own transforms, then draw its mesh. The
//! outcome of acquiring the next surface texture decides whether a frame is
//! drawn, skipped, or skipped after reconfiguring the surface.
use crate::traversal::{DrawItem, FramePlan};
use vstd::prelude::*;

verus! {

/// The number of steps that one draw item takes.
pub const STEPS_PER_DRAW: usize = 7;

/// One thing the backend does while drawing a frame.
#[derive(PartialEq, Eq, Structural, Clone, Copy, Debug)]
pub enum FrameStep {
    /// Activate the material's pipeline with its per-instance resources at `offset`.
    Bind { material: usize, offset: u64 },
    /// Write the camera's view-projection matrix into the material's buffer.
    UploadCamera { material: usize },
    /// Write the frame's light list into the material's buffer.
    UploadLights { material: usize },
    /// Write the frame's time into the material's buffer.
    UploadTime { material: usize },
    /// Write the world transform of draw item `item` at `offset`.
    UploadTransform { material: usize, offset: u64, item: usize },
    /// Write the rotation of draw item `item` at `offset`.
    UploadRotation { material: usize, offset: u64, item: usize },
    /// Draw all indices of the mesh.
    Draw { mesh: usize },
}

/// Step `j` (below `STEPS_PER_DRAW`) of draw item `d`, found at position `i`.
pub open spec fn step_for(d: DrawItem, i: int, j: int) -> FrameStep {
    if j == 0 {
        FrameStep::Bind { material: d.material, offset: d.offset }
    } else if j == 1 {
        FrameStep::UploadCamera { material: d.material }
    } else if j == 2 {
        FrameStep::UploadLights { material: d.material }
    } else if j == 3 {
        FrameStep::UploadTime { material: d.material }
    } else if j == 4 {
        FrameStep::UploadTransform { material: d.material, offset: d.offset, item: i as usize }
    } else if j == 5 {
        FrameStep::UploadRotation { material: d.material, offset: d.offset, item: i as usize }
    } else {
        FrameStep::Draw { mesh: d.mesh }
    }
}

impl<P> FramePlan<P> {
    /// The steps that draw this plan: `STEPS_PER_DRAW` for each draw item, in
    /// the order of the draw list.
    pub fn steps(&self) -> (r: Vec<FrameStep>)
        requires
            self.draws@.len() * STEPS_PER_DRAW <= usize::MAX,
        ensures
            r@.len() == self.draws@.len() * STEPS_PER_DRAW,
            forall|i: int, j: int|
                0 <= i < self.draws@.len() && 0 <= j < STEPS_PER_DRAW ==> #[trigger] r@[i * STEPS_PER_DRAW
                    + j] == step_for(self.draws@[i], i, j),
    {
        let mut steps: Vec<FrameStep> = Vec::new();
        let n = self.draws.len();
        let mut i: usize = 0;
        while i < n
            invariant
                n == self.draws@.len(),
                n * STEPS_PER_DRAW <= usize::MAX,
                i <= n,
                steps@.len() == i * STEPS_PER_DRAW,
                forall|a: int, j: int|
                    0 <= a < i && 0 <= j < STEPS_PER_DRAW ==> #[trigger] steps@[a * STEPS_PER_DRAW + j]
                        == step_for(self.draws@[a], a, j),
            decreases n - i,
        {
            let d = &self.draws[i];
            let ghost before = steps@;
            steps.push(FrameStep::Bind { material: d.material, offset: d.offset });
            steps.push(FrameStep::UploadCamera { material: d.material });
            steps.push(FrameStep::UploadLights { material: d.material });
            steps.push(FrameStep::UploadTime { material: d.material });
            steps.push(FrameStep::UploadTransform { material: d.material, offset: d.offset, item: i });
            steps.push(FrameStep::UploadRotation { material: d.material, offset: d.offset, item: i });
            steps.push(FrameStep::Draw { mesh: d.mesh });
            proof {
                assert forall|a: int, j: int|
                    0 <= a < i + 1 && 0 <= j < STEPS_PER_DRAW implies #[trigger] steps@[a * STEPS_PER_DRAW + j]
                        == step_for(self.draws@[a], a, j) by {
                    if a < i {
                        assert(a * STEPS_PER_DRAW + j < i * STEPS_PER_DRAW) by (nonlinear_arith)
                            requires
                                a < i,
                                0 <= j < 7,
                        {
                        }
                        assert(steps@[a * STEPS_PER_DRAW + j] == before[a * STEPS_PER_DRAW + j]);
                    } else {
                        assert(a * STEPS_PER_DRAW + j == i * STEPS_PER_DRAW + j);
                    }
                }
                assert(steps@.len() == (i + 1) * STEPS_PER_DRAW) by (nonlinear_arith)
                    requires
                        steps@.len() == before.len() + 7,
                        before.len() == i * 7,
                {
                }
            }
            assert((i + 1) * STEPS_PER_DRAW <= n * STEPS_PER_DRAW) by (nonlinear_arith)
                requires
                    i < n,
            {
            }
            i = i + 1;
        }
        steps
    }
}

/// How acquiring the next surface texture went.
#[derive(PartialEq, Eq, Structural, Clone, Copy, Debug)]
pub enum SurfaceStatus {
    /// A texture is ready to draw into.
    Ready,
    /// The request timed out.
    Timeout,
    /// The window is hidden.
    Occluded,
    /// The surface no longer matches the window.
    Outdated,
    /// The surface was lost.
    Lost,
    /// The request was invalid.
    Invalid,
}

/// What to do with the current frame.
#[derive(PartialEq, Eq, Structural, Clone, Copy, Debug)]
pub enum FrameAction {
    /// Draw the frame and present it.
    Render,
    /// Skip this frame and try again on the next tick.
    Skip,
    /// Reconfigure the surface, skip this frame and try again on the next tick.
    ReconfigureAndSkip,
}

/// The frame action for each acquisition outcome: a texture is drawn, a
/// transient failure (a timeout, a hidden window) skips the frame, and any
/// other failure reconfigures the surface before skipping it.
pub open spec fn action_for(status: SurfaceStatus) -> FrameAction {
    match status {
        SurfaceStatus::Ready => FrameAction::Render,
        SurfaceStatus::Timeout | SurfaceStatus::Occluded => FrameAction::Skip,
        _ => FrameAction::ReconfigureAndSkip,
    }
}

/// Decides what to do with the frame after trying to acquire a texture.
pub fn frame_action(status: SurfaceStatus) -> (r: FrameAction)
    ensures
        r == action_for(status),
{
    match status {
        SurfaceStatus::Ready => FrameAction::Render,
        SurfaceStatus::Timeout | SurfaceStatus::Occluded => FrameAction::Skip,
        SurfaceStatus::Outdated | SurfaceStatus::Lost | SurfaceStatus::Invalid => {
            FrameAction::ReconfigureAndSkip
        },
    }
}

/// The surface size for a window of `width` by `height` pixels: each side at
/// least one pixel.
pub fn surface_size(width: u32, height: u32) -> (r: (u32, u32))
    ensures
        r.0 == if width == 0 { 1 } else { width },
        r.1 == if height == 0 { 1 } else { height },
{
    let w = if width == 0 { 1 } else { width };
    let h = if height == 0 { 1 } else { height };
    (w, h)
}

} // verus!
