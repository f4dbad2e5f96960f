//! The panning offset of the view onto a level.

use vstd::prelude::*;
use crate::grid::Direction;

verus! {

/// How far the view is shifted, how far it may be shifted on each axis, and
/// by how much one pan shifts it.
#[derive(Debug, Clone, Copy, PartialEq, Eq, Structural)]
pub struct Camera {
    pub x_offset: i32,
    pub y_offset: i32,
    pub max_x_pan: i32,
    pub max_y_pan: i32,
    pub speed: i32,
}

/// Where an offset stands after a pan that raises it: one `speed` further
/// while it is below `max_pan`, unchanged from there on.
pub open spec fn raised(offset: int, max_pan: int, speed: int) -> int {
    if offset < max_pan {
        offset + speed
    } else {
        offset
    }
}

/// Where an offset stands after a pan that lowers it: one `speed` lower
/// while it is above `-max_pan`, unchanged from there on.
pub open spec fn lowered(offset: int, max_pan: int, speed: int) -> int {
    if offset > -max_pan {
        offset - speed
    } else {
        offset
    }
}

/// Whether `v` fits the machine integer that holds offsets.
pub open spec fn fits(v: int) -> bool {
    i32::MIN <= v <= i32::MAX
}

impl Camera {
    pub fn new(x_offset: i32, y_offset: i32, max_x_pan: i32, max_y_pan: i32, speed: i32) -> (c:
        Camera)
        ensures
            c.x_offset == x_offset,
            c.y_offset == y_offset,
            c.max_x_pan == max_x_pan,
            c.max_y_pan == max_y_pan,
            c.speed == speed,
    {
        Camera { x_offset, y_offset, max_x_pan, max_y_pan, speed }
    }

    /// The offsets after a pan in direction `dir`. Panning up or left
    /// raises an offset, panning down or right lowers it.
    pub open spec fn panned(self, dir: Direction) -> (int, int) {
        match dir {
            Direction::Up => (
                self.x_offset as int,
                raised(self.y_offset as int, self.max_y_pan as int, self.speed as int),
            ),
            Direction::Down => (
                self.x_offset as int,
                lowered(self.y_offset as int, self.max_y_pan as int, self.speed as int),
            ),
            Direction::Left => (
                raised(self.x_offset as int, self.max_x_pan as int, self.speed as int),
                self.y_offset as int,
            ),
            Direction::Right => (
                lowered(self.x_offset as int, self.max_x_pan as int, self.speed as int),
                self.y_offset as int,
            ),
        }
    }

    /// Whether a pan in direction `dir` stays within machine integers.
    pub open spec fn can_pan(self, dir: Direction) -> bool {
        &&& fits(self.panned(dir).0)
        &&& fits(self.panned(dir).1)
        &&& dir == Direction::Right ==> fits(-self.max_x_pan)
        &&& dir == Direction::Down ==> fits(-self.max_y_pan)
    }

    /// Limits and speed are not negative, and each offset is within one
    /// `speed` of its limit. A camera like this can pan in every direction,
    /// and stays like this when it does.
    pub open spec fn wf(self) -> bool {
        &&& 0 <= self.speed
        &&& 0 <= self.max_x_pan
        &&& 0 <= self.max_y_pan
        &&& self.max_x_pan + self.speed <= i32::MAX
        &&& self.max_y_pan + self.speed <= i32::MAX
        &&& -(self.max_x_pan + self.speed) <= self.x_offset <= self.max_x_pan + self.speed
        &&& -(self.max_y_pan + self.speed) <= self.y_offset <= self.max_y_pan + self.speed
    }

    /// The camera after a pan in direction `dir` that stays within machine
    /// integers: the offsets change, the limits and the speed do not.
    pub open spec fn pan(self, dir: Direction) -> Camera {
        Camera {
            x_offset: self.panned(dir).0 as i32,
            y_offset: self.panned(dir).1 as i32,
            max_x_pan: self.max_x_pan,
            max_y_pan: self.max_y_pan,
            speed: self.speed,
        }
    }

    /// Whether the camera is well-formed.
    pub fn is_well_formed(&self) -> (b: bool)
        ensures
            b == self.wf(),
    {
        if self.speed < 0 || self.max_x_pan < 0 || self.max_y_pan < 0 {
            return false;
        }
        if self.max_x_pan > i32::MAX - self.speed || self.max_y_pan > i32::MAX - self.speed {
            return false;
        }
        let x_reach = self.max_x_pan + self.speed;
        let y_reach = self.max_y_pan + self.speed;
        -x_reach <= self.x_offset && self.x_offset <= x_reach && -y_reach <= self.y_offset
            && self.y_offset <= y_reach
    }

    pub fn move_up(&mut self)
        requires
            old(self).can_pan(Direction::Up),
        ensures
            *final(self) == old(self).pan(Direction::Up),
            old(self).wf() ==> final(self).wf(),
    {
        if self.y_offset < self.max_y_pan {
            self.y_offset += self.speed;
        }
    }

    pub fn move_down(&mut self)
        requires
            old(self).can_pan(Direction::Down),
        ensures
            *final(self) == old(self).pan(Direction::Down),
            old(self).wf() ==> final(self).wf(),
    {
        if self.y_offset > -self.max_y_pan {
            self.y_offset -= self.speed;
        }
    }

    pub fn move_right(&mut self)
        requires
            old(self).can_pan(Direction::Right),
        ensures
            *final(self) == old(self).pan(Direction::Right),
            old(self).wf() ==> final(self).wf(),
    {
        if self.x_offset > -self.max_x_pan {
            self.x_offset -= self.speed;
        }
    }

    pub fn move_left(&mut self)
        requires
            old(self).can_pan(Direction::Left),
        ensures
            *final(self) == old(self).pan(Direction::Left),
            old(self).wf() ==> final(self).wf(),
    {
        if self.x_offset < self.max_x_pan {
            self.x_offset += self.speed;
        }
    }
}

/// A well-formed camera can pan in every direction, and is well-formed
/// after it.
pub proof fn lemma_wf_can_pan(c: Camera, dir: Direction)
    requires
        c.wf(),
    ensures
        c.can_pan(dir),
        c.pan(dir).wf(),
{
}

} // verus!
