//! The camera part of the drawing state: the render pass drawn into, the depth
//! test, the viewport and the camera matrix, with a stack to save and restore them.
//!
//! Draw calls already batched belong to the camera that was active when they
//! were made. So `set_camera`, `set_default_camera` and a `pop_camera_state` that
//! restores something hand back that camera setting: the batched draw calls are to
//! be drawn under it, and cleared, before anything more is drawn.
use vstd::prelude::*;

verus! {

#[derive(Debug, Clone, Copy)]
pub enum Projection {
    Perspective,
    Orthographics,
}

/// A saved camera setting.
#[derive(Clone, Copy)]
pub struct CameraState<P, M> {
    pub render_pass: Option<P>,
    pub depth_test: bool,
    pub matrix: Option<M>,
}

/// The camera-related drawing state: what the renderer draws into and how.
pub struct CameraContext<P, M> {
    pub render_pass: Option<P>,
    pub viewport: Option<(i32, i32, i32, i32)>,
    pub depth_test: bool,
    pub camera_matrix: Option<M>,
    camera_stack: Vec<CameraState<P, M>>,
}

impl<P: Copy, M: Copy> CameraContext<P, M> {
    /// The saved settings, the most recent last.
    pub closed spec fn saved(&self) -> Seq<CameraState<P, M>> {
        self.camera_stack@
    }

    pub closed spec fn current(&self) -> CameraState<P, M> {
        CameraState { render_pass: self.render_pass, depth_test: self.depth_test, matrix: self.camera_matrix }
    }

    pub closed spec fn current_viewport(&self) -> Option<(i32, i32, i32, i32)> {
        self.viewport
    }

    /// The default 2D setting: the screen, no depth test, no camera matrix.
    pub fn new() -> (c: Self)
        ensures
            c.saved().len() == 0,
            c.current() == (CameraState::<P, M> { render_pass: None, depth_test: false, matrix: None }),
            c.current_viewport() is None,
    {
        CameraContext { render_pass: None, viewport: None, depth_test: false, camera_matrix: None, camera_stack: Vec::new() }
    }

    /// Whether a saved setting is there for `pop_camera_state` to restore.
    pub fn has_saved_state(&self) -> (b: bool)
        ensures
            b == (self.saved().len() > 0),
    {
        self.camera_stack.len() > 0
    }
}

/// Set active 2D or 3D camera: its render pass, viewport, depth test and matrix.
/// Returns the setting under which the draw calls batched so far are to be flushed.
pub fn set_camera<P: Copy, M: Copy>(
    context: &mut CameraContext<P, M>,
    render_pass: Option<P>,
    viewport: Option<(i32, i32, i32, i32)>,
    depth_enabled: bool,
    matrix: M,
) -> (flush: CameraState<P, M>)
    ensures
        flush == old(context).current(),
        final(context).current() == (CameraState { render_pass, depth_test: depth_enabled, matrix: Some(matrix) }),
        final(context).current_viewport() == viewport,
        final(context).saved() == old(context).saved(),
{
    let flush = CameraState { render_pass: context.render_pass, depth_test: context.depth_test, matrix: context.camera_matrix };
    context.render_pass = render_pass;
    context.viewport = viewport;
    context.depth_test = depth_enabled;
    context.camera_matrix = Some(matrix);
    flush
}

/// Reset default 2D camera mode. Returns the setting under which the draw calls
/// batched so far are to be flushed.
pub fn set_default_camera<P: Copy, M: Copy>(context: &mut CameraContext<P, M>) -> (flush: CameraState<P, M>)
    ensures
        flush == old(context).current(),
        final(context).current() == (CameraState::<P, M> { render_pass: None, depth_test: false, matrix: None }),
        final(context).current_viewport() == old(context).current_viewport(),
        final(context).saved() == old(context).saved(),
{
    let flush = CameraState { render_pass: context.render_pass, depth_test: context.depth_test, matrix: context.camera_matrix };
    context.render_pass = None;
    context.depth_test = false;
    context.camera_matrix = None;
    flush
}

/// Saves the current render pass, depth test and matrix.
pub fn push_camera_state<P: Copy, M: Copy>(context: &mut CameraContext<P, M>)
    ensures
        final(context).saved() == old(context).saved().push(old(context).current()),
        final(context).current() == old(context).current(),
        final(context).current_viewport() == old(context).current_viewport(),
{
    let camera_state = CameraState {
        render_pass: context.render_pass,
        depth_test: context.depth_test,
        matrix: context.camera_matrix,
    };
    context.camera_stack.push(camera_state);
}

/// Restores the most recently saved setting, if there is one; then it returns the
/// setting under which the draw calls batched so far are to be flushed.
pub fn pop_camera_state<P: Copy, M: Copy>(context: &mut CameraContext<P, M>) -> (flush: Option<CameraState<P, M>>)
    ensures
        flush is Some <==> old(context).saved().len() > 0,
        flush is Some ==> {
            &&& flush->0 == old(context).current()
            &&& final(context).current() == old(context).saved().last()
            &&& final(context).saved() == old(context).saved().drop_last()
        },
        flush is None ==> final(context).current() == old(context).current() && final(context).saved() == old(
            context,
        ).saved(),
        final(context).current_viewport() == old(context).current_viewport(),
{
    if let Some(camera_state) = context.camera_stack.pop() {
        let flush = CameraState { render_pass: context.render_pass, depth_test: context.depth_test, matrix: context.camera_matrix };
        context.render_pass = camera_state.render_pass;
        context.depth_test = camera_state.depth_test;
        context.camera_matrix = camera_state.matrix;
        Some(flush)
    } else {
        None
    }
}

/// Saving and then restoring gives back the setting that was saved, whatever
/// camera was set in between, and leaves the saved settings as they were.
pub proof fn law_push_pop_restores<P: Copy, M: Copy>(
    before: CameraContext<P, M>,
    pushed: CameraContext<P, M>,
    changed: CameraContext<P, M>,
    popped: CameraContext<P, M>,
)
    requires
        pushed.saved() == before.saved().push(before.current()),
        changed.saved() == pushed.saved(),
        popped.current() == changed.saved().last(),
        popped.saved() == changed.saved().drop_last(),
    ensures
        popped.current() == before.current(),
        popped.saved() == before.saved(),
{
    assert(before.saved().push(before.current()).drop_last() =~= before.saved());
}

} // verus!
