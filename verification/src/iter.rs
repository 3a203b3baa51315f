//! A lazy, finite, non-restartable generator of integer lattice points over
//! an inclusive 3D box, sweeping `x` fastest, then `y`, then `z`. Every
//! component that walks a chunk's or region's volume point by point uses it.

use vstd::prelude::*;
use crate::geometry::WorldPoint;

verus! {

/// Iterator state: the box corners, the point most recently produced, and
/// whether anything has been produced yet.
pub struct PointIter {
    pub current: WorldPoint,
    pub start: WorldPoint,
    pub stop: WorldPoint,
    pub started: bool,
}

impl PointIter {
    /// The point produced after `p`: the next along `x`, else carry into
    /// `y` resetting `x`, else carry into `z` resetting `x` and `y`, else
    /// nothing — the sweep is exhausted.
    pub open spec fn spec_successor(self, p: WorldPoint) -> Option<WorldPoint> {
        if p.x < self.stop.x {
            Some(WorldPoint { x: (p.x + 1) as i32, y: p.y, z: p.z })
        } else if p.y < self.stop.y {
            Some(WorldPoint { x: self.start.x, y: (p.y + 1) as i32, z: p.z })
        } else if p.z < self.stop.z {
            Some(WorldPoint { x: self.start.x, y: self.start.y, z: (p.z + 1) as i32 })
        } else {
            None
        }
    }

    /// `p` lies in the inclusive sweep box (clamped so that the start
    /// corner always belongs to it).
    pub open spec fn spec_in_box(self, p: WorldPoint) -> bool {
        &&& self.start.x <= p.x && (p.x <= self.stop.x || p.x == self.start.x)
        &&& self.start.y <= p.y && (p.y <= self.stop.y || p.y == self.start.y)
        &&& self.start.z <= p.z && (p.z <= self.stop.z || p.z == self.start.z)
    }

    /// Positions the sweep at `start`; nothing is produced until the first
    /// call to `next`.
    pub fn new(start: WorldPoint, stop: WorldPoint) -> (r: PointIter)
        ensures
            r.start == start,
            r.stop == stop,
            r.current == start,
            !r.started,
    {
        PointIter { current: start, start, stop, started: false }
    }

    /// Produces the next lattice point: `start` first, then each point's
    /// successor in x-fastest order, then `None` forever.
    pub fn next(&mut self) -> (r: Option<WorldPoint>)
        requires
            old(self).spec_in_box(old(self).current),
            old(self).stop.x < i32::MAX,
            old(self).stop.y < i32::MAX,
            old(self).stop.z < i32::MAX,
        ensures
            final(self).start == old(self).start,
            final(self).stop == old(self).stop,
            final(self).started,
            final(self).spec_in_box(final(self).current),
            !old(self).started ==> r == Some(old(self).start) && final(self).current == old(
                self,
            ).start,
            old(self).started ==> r == old(self).spec_successor(old(self).current),
            old(self).started ==> (match r {
                Some(p) => final(self).current == p,
                None => final(self).current == old(self).current,
            }),
    {
        if !self.started {
            self.current = self.start;
            self.started = true;
            Some(self.current)
        } else {
            if self.current.x < self.stop.x {
                self.current.x = self.current.x + 1;
                Some(self.current)
            } else {
                if self.current.y < self.stop.y {
                    self.current.y = self.current.y + 1;
                    self.current.x = self.start.x;
                    Some(self.current)
                } else {
                    if self.current.z < self.stop.z {
                        self.current.z = self.current.z + 1;
                        self.current.y = self.start.y;
                        self.current.x = self.start.x;
                        Some(self.current)
                    } else {
                        None
                    }
                }
            }
        }
    }
}

/// The successor of a box point stays in the box and strictly follows it
/// in the `z`-major, then `y`, then `x` lexicographic order, so the sweep
/// visits each point at most once and terminates.
pub proof fn lemma_point_iter_order(it: PointIter, p: WorldPoint, q: WorldPoint)
    requires
        it.spec_in_box(p),
        it.spec_successor(p) == Some(q),
    ensures
        it.spec_in_box(q),
        (p.z < q.z) || (p.z == q.z && p.y < q.y) || (p.z == q.z && p.y == q.y && p.x < q.x),
{
}

} // verus!
