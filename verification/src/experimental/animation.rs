//! Sprite animations: which animation of a sheet plays, and which of its frames shows.
use vstd::prelude::*;

verus! {

/// Specification of animation: the row of the sheet it is drawn from, how many
/// frames it has and how many it shows per second.
#[derive(Clone, Debug)]
pub struct Animation {
    pub name: String,
    pub row: u32,
    pub frames: u32,
    pub fps: u32,
}

/// Which animation of a list plays and which of its frames shows.
pub struct AnimationCursor {
    pub animations: Vec<Animation>,
    pub current_animation: usize,
    pub frame: u32,
    /// Controls if frame should be advanced by `update`
    pub playing: bool,
}

impl AnimationCursor {
    /// The first frame of the first animation.
    pub fn new(animations: Vec<Animation>, playing: bool) -> (c: AnimationCursor)
        ensures
            c.animations@ == animations@,
            c.current_animation == 0,
            c.frame == 0,
            c.playing == playing,
    {
        AnimationCursor { animations, current_animation: 0, frame: 0, playing }
    }

    /// Chooses the animation to display; the frame is kept, wrapped to the new
    /// animation's length (it is not reset: use `set_frame` for that).
    pub fn set_animation(&mut self, animation: usize)
        requires
            animation < old(self).animations@.len(),
            old(self).animations@[animation as int].frames > 0,
        ensures
            final(self).animations@ == old(self).animations@,
            final(self).current_animation == animation,
            final(self).frame == old(self).frame % old(self).animations@[animation as int].frames,
            final(self).playing == old(self).playing,
    {
        self.current_animation = animation;
        let frames = self.animations[animation].frames;
        self.frame = self.frame % frames;
    }

    /// Currently chosen animation
    pub fn current_animation(&self) -> (a: usize)
        ensures
            a == self.current_animation,
    {
        self.current_animation
    }

    /// Sets a specific frame of the animation.
    pub fn set_frame(&mut self, frame: u32)
        ensures
            final(self).frame == frame,
            final(self).animations@ == old(self).animations@,
            final(self).current_animation == old(self).current_animation,
            final(self).playing == old(self).playing,
    {
        self.frame = frame;
    }

    /// One update: when playing and the frame's time is up, the next frame; then the
    /// frame wrapped to the animation's length.
    pub fn update(&mut self, time_is_up: bool)
        requires
            old(self).current_animation < old(self).animations@.len(),
            old(self).animations@[old(self).current_animation as int].frames > 0,
            old(self).playing && time_is_up ==> old(self).frame < u32::MAX,
        ensures
            final(self).animations@ == old(self).animations@,
            final(self).current_animation == old(self).current_animation,
            final(self).playing == old(self).playing,
            final(self).frame == (if old(self).playing && time_is_up {
                old(self).frame + 1
            } else {
                old(self).frame as int
            }) % (old(self).animations@[old(self).current_animation as int].frames as int),
    {
        let frames = self.animations[self.current_animation].frames;
        if self.playing && time_is_up {
            self.frame = self.frame + 1;
        }
        self.frame = self.frame % frames;
    }
}

} // verus!
