use crate::input::Input;
use crate::object_manager::{culled, draw_calls, DrawCall, ObjectId, ObjectManager};
use crate::transform::extent_box_of;
use vstd::prelude::*;

verus! {

/// The application context: the entity registry and the keyboard state, made
/// once at startup and handed to each frame.
pub struct Engine {
    pub objects: ObjectManager,
    pub input: Input,
}

/// What the start of a frame decided: whether the quit key was pressed, and
/// the first entity, which the caller ticks.
#[derive(PartialEq, Eq, Structural, Debug, Clone, Copy)]
pub struct FrameStart {
    pub quit: bool,
    pub primary: Option<ObjectId>,
}

impl Engine {
    pub open spec fn wf(&self) -> bool {
        self.objects.wf() && self.input.wf()
    }

    /// An empty registry and a keyboard with no key down.
    pub fn init() -> (r: Self)
        ensures
            r.wf(),
            r.objects.objects@.len() == 0,
            forall|code: Seq<char>| !r.input.is_down(code) && !r.input.was_pressed(code),
    {
        Engine { objects: ObjectManager::init(), input: Input::init() }
    }

    /// Starts a frame: notes whether `KeyQ` was pressed and recomputes the
    /// registry's working set.
    pub fn begin_frame(&mut self) -> (r: FrameStart)
        requires
            old(self).wf(),
        ensures
            final(self).wf(),
            r.quit == old(self).input.was_pressed("KeyQ"@),
            final(self).input == old(self).input,
            final(self).objects.objects@ == old(self).objects.objects@,
            final(self).objects.objects_on_screen@ == culled(
                old(self).objects.objects@,
                extent_box_of(final(self).objects.screen_transform),
                old(self).objects.objects@.len() as int,
                true,
            ),
            r.primary == (if old(self).objects.objects@.len() > 0 {
                Some(old(self).objects.objects@[0].0)
            } else {
                None
            }),
    {
        let quit = self.input.key_was_pressed("KeyQ");
        let primary = self.objects.tick();
        FrameStart { quit, primary }
    }

    /// Ends a frame: returns the calls that draw the working set and forgets
    /// the keys pressed during the frame.
    pub fn end_frame(&mut self) -> (r: Vec<DrawCall>)
        requires
            old(self).wf(),
        ensures
            final(self).wf(),
            r@ == draw_calls(
                old(self).objects.objects@,
                old(self).objects.objects_on_screen@,
                old(self).objects.objects_on_screen@.len() as int,
                None,
            ).0,
            final(self).objects == old(self).objects,
            forall|k: Seq<char>| !final(self).input.was_pressed(k),
            forall|k: Seq<char>| final(self).input.is_down(k) == old(self).input.is_down(k),
    {
        let calls = self.objects.draw();
        self.input.flush_pressed_map();
        calls
    }
}

} // verus!
