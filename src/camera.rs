use crate::transform::COORD_MAX;
use crate::vec2i::Vec2i;
use vstd::prelude::*;

verus! {

/// The camera: the point of the world at the centre of the screen, in world units.
#[derive(PartialEq, Eq, Structural, Debug, Clone, Copy)]
pub struct Camera {
    pub position: Vec2i,
}

impl Camera {
    /// The position lies within `COORD_MAX` on each axis.
    pub open spec fn wf(&self) -> bool {
        -COORD_MAX <= self.position.x <= COORD_MAX && -COORD_MAX <= self.position.y <= COORD_MAX
    }

    /// Whether the position lies within `COORD_MAX` on each axis (`wf`).
    pub fn is_valid(&self) -> (r: bool)
        ensures
            r == self.wf(),
    {
        -COORD_MAX <= self.position.x && self.position.x <= COORD_MAX && -COORD_MAX
            <= self.position.y && self.position.y <= COORD_MAX
    }

    pub fn new(position: Vec2i) -> (r: Self)
        ensures
            r.position == position,
    {
        Self { position }
    }

    /// Advances the camera by one frame. The camera holds still: it moves only
    /// when a caller sets its position.
    pub fn tick(&mut self)
        ensures
            *final(self) == *old(self),
    {
    }
}

} // verus!
