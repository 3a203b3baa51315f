//! Integer lattice points and small helpers shared by every component.

use vstd::prelude::*;
use vstd::std_specs::cmp::PartialOrdSpec;

verus! {

/// A point (or axis-aligned vector) on the world's integer lattice.
#[derive(Clone, Copy, PartialEq, Eq, Structural, Hash, Debug)]
pub struct WorldPoint {
    pub x: i32,
    pub y: i32,
    pub z: i32,
}

/// A chunk-local coordinate; each component lies in `[0, CHUNK_SIZE)`.
#[derive(Clone, Copy, PartialEq, Eq, Structural, Hash, Debug)]
pub struct LocalPoint {
    pub x: u8,
    pub y: u8,
    pub z: u8,
}

/// A cell of the texture atlas, by column and row.
#[derive(Clone, Copy, PartialEq, Eq, Structural, Hash, Debug)]
pub struct UvCoord {
    pub x: u8,
    pub y: u8,
}

/// A normalized texel coordinate used by mesh vertices.
#[derive(Clone, Copy, PartialEq, Eq, Structural, Hash, Debug)]
pub struct TexPoint {
    pub x: u16,
    pub y: u16,
}

pub fn point3(x: i32, y: i32, z: i32) -> (r: WorldPoint)
    ensures
        r == (WorldPoint { x, y, z }),
{
    WorldPoint { x, y, z }
}

pub fn point2(x: u8, y: u8) -> (r: UvCoord)
    ensures
        r == (UvCoord { x, y }),
{
    UvCoord { x, y }
}

/// Clamps `value` into the inclusive range `[min, max]`.
pub fn clamp<T: PartialOrd + Copy>(value: T, min: T, max: T) -> (r: T)
    requires
        T::obeys_partial_cmp_spec(),
        min.partial_cmp_spec(&max) matches Some(
            core::cmp::Ordering::Less
            | core::cmp::Ordering::Equal,
        ),
    ensures
        (if value.partial_cmp_spec(&min) == Some(core::cmp::Ordering::Less) {
            r == min
        } else if value.partial_cmp_spec(&max) == Some(core::cmp::Ordering::Greater) {
            r == max
        } else {
            r == value
        }),
{
    if value < min {
        min
    } else if value > max {
        max
    } else {
        value
    }
}

} // verus!
