use vstd::prelude::*;

use crate::location::{in_bounds, loc, Location};

verus! {

/// One movement rule: a step vector and how many times it may be repeated.
#[derive(Clone, Copy, Debug, PartialEq, Eq, Structural)]
pub struct WalkStrategy {
    pub dx: i8,
    pub dy: i8,
    pub max_steps: u8,
}

/// The square one step of `(dx, dy)` away from `cur` (meaningful when in bounds).
pub open spec fn step_from(cur: Location, dx: int, dy: int) -> Location {
    loc(cur.x + dx, cur.y + dy)
}

/// Whether one step of `(dx, dy)` from `cur` stays on the board.
pub open spec fn can_step(cur: Location, dx: int, dy: int) -> bool {
    in_bounds(cur.x + dx, cur.y + dy)
}

/// The squares a ray visits from `cur`: at most `steps` of them, each one step of
/// `(dx, dy)` past the previous, ending before the edge of the board.
pub open spec fn ray(cur: Location, dx: int, dy: int, steps: nat) -> Seq<Location>
    decreases steps,
{
    if steps == 0 || !can_step(cur, dx, dy) {
        seq![]
    } else {
        seq![step_from(cur, dx, dy)] + ray(step_from(cur, dx, dy), dx, dy, (steps - 1) as nat)
    }
}

impl WalkStrategy {
    pub fn new(dx: i8, dy: i8, max_steps: u8) -> (r: WalkStrategy)
        ensures
            r == (WalkStrategy { dx, dy, max_steps }),
    {
        WalkStrategy { dx, dy, max_steps }
    }

    /// A fresh walk along this rule, starting at `start`.
    pub fn to_walk(&self, start: Location) -> (r: Walk)
        requires
            start.wf(),
        ensures
            r.wf(),
            r.cur == start,
            r.dx == self.dx,
            r.dy == self.dy,
            r.steps_left == self.max_steps,
            r.rest() == ray(start, self.dx as int, self.dy as int, self.max_steps as nat),
    {
        Walk { dx: self.dx, dy: self.dy, steps_left: self.max_steps, cur: start }
    }
}

/// A lazy walk along a ray: each call of `next` yields the following square.
#[derive(Debug)]
pub struct Walk {
    pub dx: i8,
    pub dy: i8,
    pub steps_left: u8,
    pub cur: Location,
}

impl Walk {
    pub open spec fn wf(&self) -> bool {
        self.cur.wf()
    }

    /// The squares this walk has still to yield.
    pub open spec fn rest(&self) -> Seq<Location> {
        ray(self.cur, self.dx as int, self.dy as int, self.steps_left as nat)
    }

    /// Yields the next square of the ray, or `None` once the ray is over.
    pub fn next(&mut self) -> (r: Option<Location>)
        requires
            old(self).wf(),
        ensures
            final(self).wf(),
            final(self).dx == old(self).dx,
            final(self).dy == old(self).dy,
            old(self).rest().len() == 0 ==> r is None && *final(self) == *old(self),
            old(self).rest().len() > 0 ==> final(self).steps_left == old(self).steps_left - 1,
            old(self).rest().len() > 0 ==> r == Some(old(self).rest()[0]) && final(self).cur
                == old(self).rest()[0] && final(self).rest() == old(self).rest().drop_first(),
    {
        let nx: i16 = self.cur.x as i16 + self.dx as i16;
        let ny: i16 = self.cur.y as i16 + self.dy as i16;
        if self.steps_left == 0 || nx < 0 || nx >= 8 || ny < 0 || ny >= 8 {
            None
        } else {
            self.steps_left = self.steps_left - 1;
            self.cur = Location { x: nx as u8, y: ny as u8 };
            assert(old(self).rest() =~= seq![self.cur] + self.rest());
            Some(self.cur)
        }
    }
}

} // verus!
