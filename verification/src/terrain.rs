//! Terrain generation: the capability a world uses to populate unexplored
//! chunks, a flat-slab strategy, and the decision logic of the noise
//! heightmap strategy (its noise sampling lives outside the library).

use vstd::prelude::*;
use crate::geometry::WorldPoint;
use crate::block::{
    spec_unset_block, Block, BlockID, FaceVisibility, LightKind, LightLevel, SunLightLevel,
    VISIBLE_UNSET,
};
use crate::chunk::{
    lemma_aligned_near_max, lemma_local_index_decode, lemma_local_index_encode, spec_aligned_point,
    spec_in_local_bounds, spec_local_index, spec_offset_point, Chunk, CHUNK_VOLUME,
};
use crate::registry::Registry;

verus! {

/// A strategy for producing a chunk's contents from its origin. Generators
/// are deterministic: the block at each world coordinate is a function of
/// the generator's configuration and the registry. Generated chunks leave
/// visibility uncomputed; the world's fix-up pass fills it in.
pub trait ChunkGenerator {
    /// The generator's configuration resolves against this registry.
    spec fn spec_ready(&self, registry: &Registry) -> bool;

    /// The block this generator assigns to the world coordinate `loc`.
    spec fn spec_block_for(&self, registry: &Registry, loc: WorldPoint) -> Block;

    /// Produces the chunk at `origin`, every cell assigned.
    fn generate_chunk(&self, origin: WorldPoint, registry: &Registry) -> (r: Chunk)
        requires
            spec_aligned_point(origin),
            self.spec_ready(registry),
        ensures
            r.wf(),
            r.origin == origin,
            !r.dirty,
            forall|i: int, j: int, k: int|
                spec_in_local_bounds(i, j, k) ==> #[trigger] r.spec_local(i, j, k)
                    == self.spec_block_for(registry, spec_offset_point(origin, i, j, k)),
    ;
}

/// Fills every voxel whose world height lies in an inclusive band with one
/// configured block type, looked up by name.
pub struct FlatGenerator {
    pub high: i32,
    pub low: i32,
    pub block: String,
}

impl FlatGenerator {
    pub fn new(high: i32, low: i32, block: String) -> (r: FlatGenerator)
        ensures
            r.high == high,
            r.low == low,
            r.block == block,
    {
        FlatGenerator { high, low, block }
    }
}

impl ChunkGenerator for FlatGenerator {
    /// The configured block name must be registered; an unknown name is a
    /// fatal configuration error, excluded up front.
    open spec fn spec_ready(&self, registry: &Registry) -> bool {
        registry.spec_id_of(self.block@) is Some
    }

    open spec fn spec_block_for(&self, registry: &Registry, loc: WorldPoint) -> Block {
        if self.low <= loc.y <= self.high {
            Block {
                id: registry.spec_id_of(self.block@)->Some_0,
                visibility: FaceVisibility(VISIBLE_UNSET),
                light: LightKind::Source((SunLightLevel(0), LightLevel(0))),
            }
        } else {
            spec_unset_block()
        }
    }

    fn generate_chunk(&self, origin: WorldPoint, registry: &Registry) -> (r: Chunk) {
        let mut chunk = Chunk::new(origin);
        let id = registry.lookup_id(&self.block).unwrap();
        proof {
            lemma_aligned_near_max(origin.x);
            lemma_aligned_near_max(origin.y);
            lemma_aligned_near_max(origin.z);
        }
        let mut li: usize = 0;
        while li < CHUNK_VOLUME
            invariant
                li <= CHUNK_VOLUME,
                chunk.wf(),
                chunk.origin == origin,
                !chunk.dirty,
                spec_aligned_point(origin),
                origin.x + 15 <= i32::MAX,
                origin.y + 15 <= i32::MAX,
                origin.z + 15 <= i32::MAX,
                registry.spec_id_of(self.block@) == Some(id),
                forall|idx: int|
                    0 <= idx < li ==> #[trigger] chunk.blocks@[idx] == self.spec_block_for(
                        registry,
                        spec_offset_point(origin, idx % 16, (idx / 16) % 16, idx / 16 / 16),
                    ),
                forall|idx: int|
                    li <= idx < CHUNK_VOLUME ==> #[trigger] chunk.blocks@[idx]
                        == spec_unset_block(),
            decreases CHUNK_VOLUME - li,
        {
            let i = li % 16;
            let j = (li / 16) % 16;
            let k = (li / 16) / 16;
            proof {
                lemma_local_index_encode(li as int);
            }
            let y = origin.y + (j as i32);
            if self.low <= y && y <= self.high {
                let loc = WorldPoint { x: origin.x + (i as i32), y, z: origin.z + (k as i32) };
                proof {
                    assert(chunk.spec_index_of(loc) == spec_local_index(i as int, j as int, k as int));
                }
                chunk.set_block_immediate(loc, Block::from_id_only(id));
            }
            li = li + 1;
        }
        proof {
            assert forall|i: int, j: int, k: int|
                spec_in_local_bounds(i, j, k) implies #[trigger] chunk.spec_local(i, j, k)
                == self.spec_block_for(registry, spec_offset_point(origin, i, j, k)) by {
                lemma_local_index_decode(i, j, k);
                assert(chunk.blocks@[spec_local_index(i, j, k)] == self.spec_block_for(
                    registry,
                    spec_offset_point(origin, i, j, k),
                ));
            }
        }
        chunk
    }
}

/// The block a sampled heightmap assigns to the chunk-local cell `(i, j, k)`
/// of the chunk at `origin`: nothing above the column height or where a
/// cavity is carved; grass at the surface, dirt for the three voxels
/// beneath it, stone below that.
pub open spec fn spec_heightmap_block(
    origin: WorldPoint,
    heights: Seq<i32>,
    carve: Seq<bool>,
    grass: BlockID,
    dirt: BlockID,
    stone: BlockID,
    i: int,
    j: int,
    k: int,
) -> Block {
    let y = origin.y + j;
    let h = heights[i + 16 * k] as int;
    if y <= h && carve[spec_local_index(i, j, k)] {
        let id = if y == h {
            grass
        } else if y >= h - 3 {
            dirt
        } else {
            stone
        };
        Block {
            id,
            visibility: FaceVisibility(VISIBLE_UNSET),
            light: LightKind::Source((SunLightLevel(0), LightLevel(0))),
        }
    } else {
        spec_unset_block()
    }
}

/// Fills the chunk at `origin` from a sampled heightmap. `heights[i + 16*k]`
/// is the terrain height of the column at world `(origin.x + i, origin.z + k)`;
/// `carve[idx]` is true when cave noise leaves the voxel at array index `idx`
/// in place. The noise sampling itself is the caller's concern; this is the
/// placement rule applied to its results.
pub fn heightmap_fill(
    origin: WorldPoint,
    heights: &Vec<i32>,
    carve: &Vec<bool>,
    grass: BlockID,
    dirt: BlockID,
    stone: BlockID,
) -> (r: Chunk)
    requires
        spec_aligned_point(origin),
        heights@.len() == 256,
        carve@.len() == CHUNK_VOLUME,
    ensures
        r.wf(),
        r.origin == origin,
        !r.dirty,
        forall|i: int, j: int, k: int|
            spec_in_local_bounds(i, j, k) ==> #[trigger] r.spec_local(i, j, k)
                == spec_heightmap_block(origin, heights@, carve@, grass, dirt, stone, i, j, k),
{
    let mut chunk = Chunk::new(origin);
    proof {
        lemma_aligned_near_max(origin.x);
        lemma_aligned_near_max(origin.y);
        lemma_aligned_near_max(origin.z);
    }
    let mut li: usize = 0;
    while li < CHUNK_VOLUME
        invariant
            li <= CHUNK_VOLUME,
            chunk.wf(),
            chunk.origin == origin,
            !chunk.dirty,
            spec_aligned_point(origin),
            origin.x + 15 <= i32::MAX,
            origin.y + 15 <= i32::MAX,
            origin.z + 15 <= i32::MAX,
            heights@.len() == 256,
            carve@.len() == CHUNK_VOLUME,
            forall|idx: int|
                0 <= idx < li ==> #[trigger] chunk.blocks@[idx] == spec_heightmap_block(
                    origin,
                    heights@,
                    carve@,
                    grass,
                    dirt,
                    stone,
                    idx % 16,
                    (idx / 16) % 16,
                    idx / 16 / 16,
                ),
            forall|idx: int|
                li <= idx < CHUNK_VOLUME ==> #[trigger] chunk.blocks@[idx] == spec_unset_block(),
        decreases CHUNK_VOLUME - li,
    {
        let i = li % 16;
        let j = (li / 16) % 16;
        let k = (li / 16) / 16;
        proof {
            lemma_local_index_encode(li as int);
        }
        let y = origin.y + (j as i32);
        let h = heights[i + 16 * k];
        if y as i64 <= h as i64 && carve[li] {
            let id = if y == h {
                grass
            } else if y as i64 >= h as i64 - 3 {
                dirt
            } else {
                stone
            };
            let loc = WorldPoint { x: origin.x + (i as i32), y, z: origin.z + (k as i32) };
            proof {
                assert(chunk.spec_index_of(loc) == spec_local_index(i as int, j as int, k as int));
            }
            chunk.set_block_immediate(loc, Block::from_id_only(id));
        }
        li = li + 1;
    }
    proof {
        assert forall|i: int, j: int, k: int|
            spec_in_local_bounds(i, j, k) implies #[trigger] chunk.spec_local(i, j, k)
            == spec_heightmap_block(origin, heights@, carve@, grass, dirt, stone, i, j, k) by {
            lemma_local_index_decode(i, j, k);
            assert(chunk.blocks@[spec_local_index(i, j, k)] == spec_heightmap_block(
                origin,
                heights@,
                carve@,
                grass,
                dirt,
                stone,
                i,
                j,
                k,
            ));
        }
    }
    chunk
}

} // verus!
