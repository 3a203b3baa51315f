//! A chunk: a dense 16x16x16 array of blocks with a chunk-aligned origin and
//! a dirty flag used by the remesh queue.

use vstd::prelude::*;
use crate::geometry::{LocalPoint, WorldPoint};
use crate::block::{spec_unset_block, Block, BlockID, FaceVisibility, VISIBLE_UNSET};
use crate::block::solid_no_light;

verus! {

/// Side length of a chunk; a power of two.
pub const CHUNK_SIZE: i32 = 16;

/// Number of blocks in a chunk.
pub const CHUNK_VOLUME: usize = 4096;

/// True when `v` is a multiple of the chunk size.
pub open spec fn spec_aligned(v: int) -> bool {
    v % 16 == 0
}

/// True when every component of `p` is a multiple of the chunk size.
pub open spec fn spec_aligned_point(p: WorldPoint) -> bool {
    spec_aligned(p.x as int) && spec_aligned(p.y as int) && spec_aligned(p.z as int)
}

/// A cube of `CHUNK_VOLUME` blocks. `origin` is the world coordinate of the
/// minimum corner and is always chunk-aligned; `dirty` records whether the
/// chunk changed since its mesh was last rebuilt.
pub struct Chunk {
    pub blocks: Vec<Block>,
    pub origin: WorldPoint,
    pub dirty: bool,
}

/// The array index of the chunk-local coordinate `(i, j, k)`.
pub open spec fn spec_local_index(i: int, j: int, k: int) -> int {
    i + 16 * j + 256 * k
}

/// True when `(i, j, k)` is a chunk-local coordinate.
pub open spec fn spec_in_local_bounds(i: int, j: int, k: int) -> bool {
    0 <= i < 16 && 0 <= j < 16 && 0 <= k < 16
}

/// The local coordinate of an array index can be recovered by division:
/// `x` is the fastest-varying axis, then `y`, then `z`.
pub proof fn lemma_local_index_decode(i: int, j: int, k: int)
    requires
        spec_in_local_bounds(i, j, k),
    ensures
        0 <= spec_local_index(i, j, k) < CHUNK_VOLUME,
        spec_local_index(i, j, k) % 16 == i,
        (spec_local_index(i, j, k) / 16) % 16 == j,
        spec_local_index(i, j, k) / 16 / 16 == k,
{
    let idx = spec_local_index(i, j, k);
    assert(idx == (j + 16 * k) * 16 + i);
    vstd::arithmetic::div_mod::lemma_fundamental_div_mod_converse_mod(idx, 16, j + 16 * k, i);
    vstd::arithmetic::div_mod::lemma_fundamental_div_mod_converse_div(idx, 16, j + 16 * k, i);
    assert(j + 16 * k == k * 16 + j);
    vstd::arithmetic::div_mod::lemma_fundamental_div_mod_converse_mod(j + 16 * k, 16, k, j);
    vstd::arithmetic::div_mod::lemma_fundamental_div_mod_converse_div(j + 16 * k, 16, k, j);
}

/// Every array index is the encoding of the local coordinate recovered by
/// `% 16`, `/ 16 % 16` and `/ 256`.
pub proof fn lemma_local_index_encode(idx: int)
    requires
        0 <= idx < CHUNK_VOLUME,
    ensures
        spec_in_local_bounds(idx % 16, (idx / 16) % 16, idx / 16 / 16),
        spec_local_index(idx % 16, (idx / 16) % 16, idx / 16 / 16) == idx,
{
    vstd::arithmetic::div_mod::lemma_fundamental_div_mod(idx, 16);
    vstd::arithmetic::div_mod::lemma_fundamental_div_mod(idx / 16, 16);
    vstd::arithmetic::div_mod::lemma_div_is_ordered(idx, 4095, 16);
    vstd::arithmetic::div_mod::lemma_div_is_ordered(idx / 16, 255, 16);
    vstd::arithmetic::div_mod::lemma_div_pos_is_pos(idx, 16);
    vstd::arithmetic::div_mod::lemma_div_pos_is_pos(idx / 16, 16);
}

/// Distinct local coordinates have distinct array indices.
pub proof fn lemma_local_index_injective(i1: int, j1: int, k1: int, i2: int, j2: int, k2: int)
    requires
        spec_in_local_bounds(i1, j1, k1),
        spec_in_local_bounds(i2, j2, k2),
        spec_local_index(i1, j1, k1) == spec_local_index(i2, j2, k2),
    ensures
        i1 == i2 && j1 == j2 && k1 == k2,
{
    lemma_local_index_decode(i1, j1, k1);
    lemma_local_index_decode(i2, j2, k2);
}

/// The world coordinate of the chunk-local offset `(i, j, k)` from `origin`.
pub open spec fn spec_offset_point(origin: WorldPoint, i: int, j: int, k: int) -> WorldPoint {
    WorldPoint {
        x: (origin.x + i) as i32,
        y: (origin.y + j) as i32,
        z: (origin.z + k) as i32,
    }
}

/// A chunk-aligned coordinate leaves room for the chunk's full extent below
/// `i32::MAX`.
pub proof fn lemma_aligned_near_max(v: i32)
    requires
        spec_aligned(v as int),
    ensures
        v + 15 <= i32::MAX,
{
    vstd::arithmetic::div_mod::lemma_fundamental_div_mod(v as int, 16);
    vstd::arithmetic::div_mod::lemma_div_is_ordered(v as int, i32::MAX as int, 16);
}

/// Maps a chunk-local coordinate to its array index.
pub fn local_loc_to_array_index(loc: LocalPoint) -> (r: usize)
    requires
        loc.x < 16,
        loc.y < 16,
        loc.z < 16,
    ensures
        r == spec_local_index(loc.x as int, loc.y as int, loc.z as int),
{
    loc.x as usize + loc.y as usize * 16 + loc.z as usize * 256
}

impl Chunk {
    /// Structural invariant: exactly `CHUNK_VOLUME` blocks, aligned origin.
    pub open spec fn wf(self) -> bool {
        self.blocks@.len() == CHUNK_VOLUME && spec_aligned_point(self.origin)
    }

    /// The block at chunk-local coordinate `(i, j, k)`.
    pub open spec fn spec_local(self, i: int, j: int, k: int) -> Block {
        self.blocks@[spec_local_index(i, j, k)]
    }

    /// True when the world coordinate `loc` falls inside this chunk.
    pub open spec fn spec_contains(self, loc: WorldPoint) -> bool {
        &&& self.origin.x <= loc.x < self.origin.x + 16
        &&& self.origin.y <= loc.y < self.origin.y + 16
        &&& self.origin.z <= loc.z < self.origin.z + 16
    }

    /// The array index of the world coordinate `loc`.
    pub open spec fn spec_index_of(self, loc: WorldPoint) -> int {
        spec_local_index(
            loc.x - self.origin.x,
            loc.y - self.origin.y,
            loc.z - self.origin.z,
        )
    }

    /// The block at world coordinate `loc`.
    pub open spec fn spec_block(self, loc: WorldPoint) -> Block {
        self.blocks@[self.spec_index_of(loc)]
    }

    /// Allocates a chunk at `origin` filled with empty, unset-visibility,
    /// unlit blocks.
    pub fn new(origin: WorldPoint) -> (r: Chunk)
        requires
            spec_aligned_point(origin),
        ensures
            r.wf(),
            r.origin == origin,
            !r.dirty,
            forall|i: int| 0 <= i < CHUNK_VOLUME ==> r.blocks@[i] == spec_unset_block(),
    {
        let unset = Block::from_id(BlockID(0), FaceVisibility(VISIBLE_UNSET), solid_no_light());
        let blocks = vec![unset; CHUNK_VOLUME];
        Chunk { blocks, origin, dirty: false }
    }

    /// True when `loc` lies within this chunk's volume.
    pub fn is_loc_local(&self, loc: WorldPoint) -> (r: bool)
        ensures
            r == self.spec_contains(loc),
    {
        let ox = self.origin.x as i64;
        let oy = self.origin.y as i64;
        let oz = self.origin.z as i64;
        let dx = loc.x as i64 - ox;
        let dy = loc.y as i64 - oy;
        let dz = loc.z as i64 - oz;
        0 <= dx && dx < 16 && 0 <= dy && dy < 16 && 0 <= dz && dz < 16
    }

    /// Maps a world coordinate inside this chunk to its array index. A
    /// coordinate outside the chunk is an invariant violation, excluded by
    /// the precondition.
    pub fn loc_to_array_index(&self, loc: WorldPoint) -> (r: usize)
        requires
            self.wf(),
            self.spec_contains(loc),
        ensures
            r == self.spec_index_of(loc),
            r < CHUNK_VOLUME,
    {
        let dx = (loc.x - self.origin.x) as usize;
        let dy = (loc.y - self.origin.y) as usize;
        let dz = (loc.z - self.origin.z) as usize;
        dx + dy * 16 + dz * 256
    }

    /// Writes one block at world coordinate `loc`.
    pub fn set_block_immediate(&mut self, loc: WorldPoint, block: Block)
        requires
            old(self).wf(),
            old(self).spec_contains(loc),
        ensures
            final(self).wf(),
            final(self).origin == old(self).origin,
            final(self).dirty == old(self).dirty,
            final(self).blocks@ == old(self).blocks@.update(old(self).spec_index_of(loc), block),
    {
        let index = self.loc_to_array_index(loc);
        self.blocks[index] = block;
    }

    /// Reads the block at world coordinate `loc`.
    pub fn get_block(&self, loc: WorldPoint) -> (r: Block)
        requires
            self.wf(),
            self.spec_contains(loc),
        ensures
            r == self.spec_block(loc),
    {
        let index = self.loc_to_array_index(loc);
        self.blocks[index]
    }

    /// Reads by chunk-local coordinate, skipping the origin subtraction.
    pub fn get_block_local(&self, loc: LocalPoint) -> (r: Block)
        requires
            self.wf(),
            loc.x < 16,
            loc.y < 16,
            loc.z < 16,
        ensures
            r == self.spec_local(loc.x as int, loc.y as int, loc.z as int),
    {
        let index = local_loc_to_array_index(loc);
        self.blocks[index]
    }
}

} // verus!
