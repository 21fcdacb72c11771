//! The compatibility layer's state: present once it is switched on, and the
//! source of the futures that wait for the next frame.
use vstd::prelude::*;
use crate::exec::FrameFuture;

verus! {

/// What the compatibility layer holds: the shared list of wakers of the tasks that
/// wait for the next frame.
pub struct CompatContext<W> {
    pub frame_wakers: W,
}

/// Switches the compatibility layer on, with `frame_wakers` as the wakers' list.
pub fn init_compat_mode<W>(state: &mut Option<CompatContext<W>>, frame_wakers: W)
    ensures
        *final(state) == Some(CompatContext { frame_wakers }),
{
    *state = Some(CompatContext { frame_wakers });
}

/// A future that finishes at the next frame: it holds a handle on the layer's
/// wakers' list. The layer must have been switched on.
pub fn next_frame<W: Clone>(state: &Option<CompatContext<W>>) -> (f: FrameFuture<W>)
    requires
        state is Some,
    ensures
        f.frame_wakers is Some,
        cloned(state->0.frame_wakers, f.frame_wakers->0),
{
    let ctx = state.as_ref().unwrap();
    FrameFuture { frame_wakers: Some(ctx.frame_wakers.clone()) }
}

} // verus!
