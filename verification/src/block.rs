//! Value types for a single voxel: identity, face visibility and light state,
//! and the closed enumeration of the six cube faces.

use vstd::prelude::*;
use crate::geometry::WorldPoint;

verus! {

/// Identifier of a block kind. The value `0` is reserved and means "empty/air".
#[derive(Clone, Copy, PartialEq, Eq, Structural, Hash, Debug)]
pub struct BlockID(pub u32);

/// No face borders empty space.
pub const VISIBLE_NONE: u8 = 0x00;

/// Sentinel: visibility has not been computed yet.
pub const VISIBLE_UNSET: u8 = 0xff;

pub const VISIBLE_TOP: u8 = 0x01;

pub const VISIBLE_BOTTOM: u8 = 0x02;

pub const VISIBLE_RIGHT: u8 = 0x04;

pub const VISIBLE_LEFT: u8 = 0x08;

pub const VISIBLE_FRONT: u8 = 0x10;

pub const VISIBLE_BACK: u8 = 0x20;

/// A set of cube faces, one bit per face in the order given by the constants
/// above. `FaceVisibility(VISIBLE_UNSET)` is a distinct "not yet computed"
/// state, not a set of six visible faces.
#[derive(Clone, Copy, PartialEq, Eq, Structural, Debug)]
pub struct FaceVisibility(pub u8);

impl FaceVisibility {
    /// True when every bit of `mask` is set in `self`.
    pub fn contains(self, mask: u8) -> (r: bool)
        ensures
            r == (self.0 & mask == mask),
    {
        self.0 & mask == mask
    }

    /// The set with every bit of `mask` added.
    pub fn with(self, mask: u8) -> (r: FaceVisibility)
        ensures
            r.0 == self.0 | mask,
    {
        FaceVisibility(self.0 | mask)
    }

    /// The set with every bit of `mask` removed.
    pub fn without(self, mask: u8) -> (r: FaceVisibility)
        ensures
            r.0 == self.0 & !mask,
    {
        FaceVisibility(self.0 & !mask)
    }
}

/// One of the six faces of a cube.
#[derive(Clone, Copy, PartialEq, Eq, Structural, Debug)]
pub enum Face {
    Top,
    Bottom,
    Left,
    Right,
    Front,
    Back,
}

/// Whether face `f` is marked visible in the bit set `v`.
pub open spec fn face_visible(v: FaceVisibility, f: Face) -> bool {
    v.0 & f.spec_mask() != 0
}

impl Face {
    /// The stable index used for per-face arrays.
    pub open spec fn spec_index(self) -> int {
        match self {
            Face::Top => 0,
            Face::Bottom => 1,
            Face::Left => 2,
            Face::Right => 3,
            Face::Front => 4,
            Face::Back => 5,
        }
    }

    /// The visibility bit assigned to this face.
    pub open spec fn spec_mask(self) -> u8 {
        match self {
            Face::Top => VISIBLE_TOP,
            Face::Bottom => VISIBLE_BOTTOM,
            Face::Left => VISIBLE_LEFT,
            Face::Right => VISIBLE_RIGHT,
            Face::Front => VISIBLE_FRONT,
            Face::Back => VISIBLE_BACK,
        }
    }

    /// The outward unit normal of this face.
    pub open spec fn spec_normal(self) -> WorldPoint {
        match self {
            Face::Top => WorldPoint { x: 0, y: 1, z: 0 },
            Face::Bottom => WorldPoint { x: 0, y: -1i32, z: 0 },
            Face::Left => WorldPoint { x: -1i32, y: 0, z: 0 },
            Face::Right => WorldPoint { x: 1, y: 0, z: 0 },
            Face::Front => WorldPoint { x: 0, y: 0, z: 1 },
            Face::Back => WorldPoint { x: 0, y: 0, z: -1i32 },
        }
    }

    /// The face on the opposite side of the cube.
    pub open spec fn spec_opposite(self) -> Face {
        match self {
            Face::Top => Face::Bottom,
            Face::Bottom => Face::Top,
            Face::Left => Face::Right,
            Face::Right => Face::Left,
            Face::Front => Face::Back,
            Face::Back => Face::Front,
        }
    }

    /// True when `normal` is an axis-aligned unit vector.
    pub open spec fn is_unit_normal(normal: WorldPoint) -> bool {
        exists|f: Face| normal == #[trigger] f.spec_normal()
    }

    /// Recovers the face whose outward normal is `normal`. Calling this with
    /// anything but an axis-aligned unit vector is a programming error, so
    /// such inputs are excluded up front.
    pub fn from_normal(normal: WorldPoint) -> (r: Face)
        requires
            Face::is_unit_normal(normal),
        ensures
            r.spec_normal() == normal,
    {
        if normal.x > 0 {
            Face::Right
        } else if normal.x < 0 {
            Face::Left
        } else if normal.y > 0 {
            Face::Top
        } else if normal.y < 0 {
            Face::Bottom
        } else if normal.z > 0 {
            Face::Front
        } else {
            proof {
                let f = choose|f: Face| normal == #[trigger] f.spec_normal();
                assert(f == Face::Back);
            }
            Face::Back
        }
    }

    pub fn to_index(&self) -> (r: usize)
        ensures
            r == self.spec_index(),
    {
        match *self {
            Face::Top => 0,
            Face::Bottom => 1,
            Face::Left => 2,
            Face::Right => 3,
            Face::Front => 4,
            Face::Back => 5,
        }
    }

    /// The inverse of `to_index`.
    pub fn from_index(i: usize) -> (r: Face)
        requires
            i < 6,
        ensures
            r.spec_index() == i,
    {
        if i == 0 {
            Face::Top
        } else if i == 1 {
            Face::Bottom
        } else if i == 2 {
            Face::Left
        } else if i == 3 {
            Face::Right
        } else if i == 4 {
            Face::Front
        } else {
            Face::Back
        }
    }

    /// The canonical face order; it matches `spec_index` and the layout of
    /// per-face light arrays.
    pub open spec fn spec_face_order() -> Seq<Face> {
        seq![Face::Top, Face::Bottom, Face::Left, Face::Right, Face::Front, Face::Back]
    }

    /// The six faces in index order.
    pub fn iter() -> (r: Vec<Face>)
        ensures
            r@ == Face::spec_face_order(),
    {
        let faces = vec![Face::Top, Face::Bottom, Face::Left, Face::Right, Face::Front, Face::Back];
        proof {
            assert(faces@ =~= Face::spec_face_order());
        }
        faces
    }

    pub fn to_visible_mask(&self) -> (r: FaceVisibility)
        ensures
            r.0 == self.spec_mask(),
    {
        match *self {
            Face::Top => FaceVisibility(VISIBLE_TOP),
            Face::Bottom => FaceVisibility(VISIBLE_BOTTOM),
            Face::Left => FaceVisibility(VISIBLE_LEFT),
            Face::Right => FaceVisibility(VISIBLE_RIGHT),
            Face::Front => FaceVisibility(VISIBLE_FRONT),
            Face::Back => FaceVisibility(VISIBLE_BACK),
        }
    }

    pub fn normal(&self) -> (r: WorldPoint)
        ensures
            r == self.spec_normal(),
    {
        match *self {
            Face::Top => WorldPoint { x: 0, y: 1, z: 0 },
            Face::Bottom => WorldPoint { x: 0, y: -1, z: 0 },
            Face::Left => WorldPoint { x: -1, y: 0, z: 0 },
            Face::Right => WorldPoint { x: 1, y: 0, z: 0 },
            Face::Front => WorldPoint { x: 0, y: 0, z: 1 },
            Face::Back => WorldPoint { x: 0, y: 0, z: -1 },
        }
    }

    pub fn opposite(&self) -> (r: Face)
        ensures
            r == self.spec_opposite(),
    {
        match *self {
            Face::Top => Face::Bottom,
            Face::Bottom => Face::Top,
            Face::Left => Face::Right,
            Face::Right => Face::Left,
            Face::Front => Face::Back,
            Face::Back => Face::Front,
        }
    }
}

/// Light emitted or received from a block, 0-15 in practice.
#[derive(Clone, Copy, PartialEq, Eq, Structural, Debug)]
pub struct LightLevel(pub u8);

/// Sunlight intensity, 0-15 in practice.
#[derive(Clone, Copy, PartialEq, Eq, Structural, Debug)]
pub struct SunLightLevel(pub u8);

/// A sunlight/blocklight pair.
pub type TotalLightLevel = (SunLightLevel, LightLevel);

/// One light pair per cube face, laid out in `Face::spec_index` order.
#[derive(Clone, Copy, PartialEq, Eq, Debug)]
pub struct FaceLightLevels {
    pub levels: [TotalLightLevel; 6],
}

/// Light state of a block: a single pair applied uniformly (`Source`), or one
/// pair per face once propagation has been computed (`Solid`).
#[derive(Clone, Copy, PartialEq, Eq, Debug)]
pub enum LightKind {
    Source(TotalLightLevel),
    Solid(FaceLightLevels),
}

/// The fully dark per-face light array.
pub open spec fn spec_no_light_levels() -> [TotalLightLevel; 6] {
    [
        (SunLightLevel(0), LightLevel(0)),
        (SunLightLevel(0), LightLevel(0)),
        (SunLightLevel(0), LightLevel(0)),
        (SunLightLevel(0), LightLevel(0)),
        (SunLightLevel(0), LightLevel(0)),
        (SunLightLevel(0), LightLevel(0)),
    ]
}

/// The fully dark `Solid` light state used for freshly allocated blocks.
pub open spec fn spec_solid_no_light() -> LightKind {
    LightKind::Solid(FaceLightLevels { levels: spec_no_light_levels() })
}

pub fn solid_no_light() -> (r: LightKind)
    ensures
        r == spec_solid_no_light(),
{
    LightKind::Solid(
        FaceLightLevels {
            levels: [
                (SunLightLevel(0), LightLevel(0)),
                (SunLightLevel(0), LightLevel(0)),
                (SunLightLevel(0), LightLevel(0)),
                (SunLightLevel(0), LightLevel(0)),
                (SunLightLevel(0), LightLevel(0)),
                (SunLightLevel(0), LightLevel(0)),
            ],
        },
    )
}

impl LightKind {
    pub fn source(sun: u8, block: u8) -> (r: LightKind)
        ensures
            r == LightKind::Source((SunLightLevel(sun), LightLevel(block))),
    {
        LightKind::Source((SunLightLevel(sun), LightLevel(block)))
    }
}

/// A single voxel's state; always stored inline in a chunk's array.
#[derive(Clone, Copy, PartialEq, Eq, Debug)]
pub struct Block {
    pub id: BlockID,
    pub visibility: FaceVisibility,
    pub light: LightKind,
}

/// The block value empty space reads as where no chunk is resident: no
/// faces visible, no light.
pub open spec fn spec_empty_block() -> Block {
    Block {
        id: BlockID(0),
        visibility: FaceVisibility(VISIBLE_NONE),
        light: spec_solid_no_light(),
    }
}

/// The block value a chunk is pre-filled with on allocation: empty, with
/// the "visibility not yet computed" sentinel, and no light. The sentinel
/// is a distinct initialization state, not a set of visible faces.
pub open spec fn spec_unset_block() -> Block {
    Block {
        id: BlockID(0),
        visibility: FaceVisibility(VISIBLE_UNSET),
        light: spec_solid_no_light(),
    }
}

impl Block {
    pub fn from_id(id: BlockID, visibility: FaceVisibility, light: LightKind) -> (r: Block)
        ensures
            r == (Block { id, visibility, light }),
    {
        Block { id, visibility, light }
    }

    /// A block with visibility not yet computed and no light of its own.
    pub fn from_id_only(id: BlockID) -> (r: Block)
        ensures
            r == (Block {
                id,
                visibility: FaceVisibility(VISIBLE_UNSET),
                light: LightKind::Source((SunLightLevel(0), LightLevel(0))),
            }),
    {
        Block {
            id,
            visibility: FaceVisibility(VISIBLE_UNSET),
            light: LightKind::source(0, 0),
        }
    }

    pub open spec fn spec_is_empty(self) -> bool {
        self.id.0 == 0
    }

    pub fn is_empty(&self) -> (r: bool)
        ensures
            r == self.spec_is_empty(),
    {
        self.id.0 == 0
    }

    /// The light pair for `face`: the uniform pair for `Source` light, or the
    /// per-face entry for `Solid` light.
    pub fn face_light(&self, face: Face) -> (r: TotalLightLevel)
        ensures
            r == (match self.light {
                LightKind::Source(light) => light,
                LightKind::Solid(lights) => lights.levels[face.spec_index()],
            }),
    {
        match self.light {
            LightKind::Source(light) => light,
            LightKind::Solid(lights) => lights.levels[face.to_index()],
        }
    }

    pub fn is_visible(&self, face: Face) -> (r: bool)
        ensures
            r == face_visible(self.visibility, face),
    {
        let mask = face.to_visible_mask();
        proof {
            let m: u8 = mask.0;
            let v: u8 = self.visibility.0;
            assert(v & m == m <==> v & m != 0) by (bit_vector)
                requires
                    m == 1u8 || m == 2u8 || m == 4u8 || m == 8u8 || m == 16u8 || m == 32u8,
            ;
        }
        self.visibility.contains(mask.0)
    }
}

} // verus!
