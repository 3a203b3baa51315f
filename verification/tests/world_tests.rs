use subsurface::block::{Block, BlockID, Face, VISIBLE_NONE, VISIBLE_TOP};
use subsurface::chunk::CHUNK_SIZE;
use subsurface::codec::decode_chunk;
use subsurface::geometry::point3;
use subsurface::terrain::{heightmap_fill, ChunkGenerator, FlatGenerator};
use subsurface::world::{find_chunk_origin, World};

#[test]
fn origins() {
    assert_eq!(find_chunk_origin(point3(0, 0, 0)), point3(0, 0, 0));
    assert_eq!(find_chunk_origin(point3(4, 4, 5)), point3(0, 0, 0));
    assert_eq!(
        find_chunk_origin(point3(-1, -1, -1)),
        point3(-CHUNK_SIZE, -CHUNK_SIZE, -CHUNK_SIZE)
    );
}

#[test]
fn chunk_origin_alignment_examples() {
    assert_eq!(find_chunk_origin(point3(17, 31, 32)), point3(16, 16, 32));
    assert_eq!(find_chunk_origin(point3(-17, -16, -33)), point3(-32, -16, -48));
    let o = find_chunk_origin(point3(123, -456, 789));
    assert_eq!(o.x % 16, 0);
    assert_eq!(o.y % 16, 0);
    assert_eq!(o.z % 16, 0);
}

#[test]
fn fresh_chunks_hold_the_unset_visibility_sentinel() {
    let chunk = subsurface::chunk::Chunk::new(point3(0, 0, 0));
    for x in 0..16u8 {
        for z in 0..16u8 {
            let b = chunk.get_block_local(subsurface::geometry::LocalPoint { x, y: 0, z });
            assert!(b.is_empty());
            assert_eq!(b.visibility.0, subsurface::block::VISIBLE_UNSET);
        }
    }
}

#[test]
fn chunk_creating_write_is_enqueued_for_remesh() {
    let mut world = World::new();
    assert_eq!(world.clean_chunk(), None);
    world.set_block_immediate(point3(3, 4, 5), Block::from_id_only(BlockID(1)));
    assert_eq!(world.clean_chunk(), Some(point3(0, 0, 0)));
    assert_eq!(world.clean_chunk(), None);
    // the untouched rest of the created chunk carries the unset sentinel
    let untouched = world.get_block(point3(1, 1, 1));
    assert!(untouched.is_empty());
    assert_eq!(untouched.visibility.0, subsurface::block::VISIBLE_UNSET);
}

#[test]
fn get_block_defaults_to_empty_space() {
    let world = World::new();
    let b = world.get_block(point3(5, 5, 5));
    assert!(b.is_empty());
    assert_eq!(b.visibility.0, VISIBLE_NONE);
}

#[test]
fn single_block_surrounded_by_air_shows_all_faces() {
    let mut world = World::new();
    world.set_block_immediate(point3(0, 0, 0), Block::from_id_only(BlockID(1)));
    world.fix_visibility();
    let b = world.get_block(point3(0, 0, 0));
    assert!(!b.is_empty());
    for face in Face::iter() {
        assert!(b.is_visible(face));
    }
}

#[test]
fn covered_face_is_not_visible() {
    let mut world = World::new();
    world.set_block_immediate(point3(0, 0, 0), Block::from_id_only(BlockID(1)));
    world.set_block_immediate(point3(0, 1, 0), Block::from_id_only(BlockID(2)));
    world.fix_visibility();
    let lower = world.get_block(point3(0, 0, 0));
    assert!(!lower.is_visible(Face::Top));
    assert!(lower.is_visible(Face::Bottom));
    assert!(lower.is_visible(Face::Left));
    assert!(lower.is_visible(Face::Right));
    assert!(lower.is_visible(Face::Front));
    assert!(lower.is_visible(Face::Back));
    let upper = world.get_block(point3(0, 1, 0));
    assert!(!upper.is_visible(Face::Bottom));
    assert!(upper.is_visible(Face::Top));
}

#[test]
fn place_and_break_restore_neighbor_visibility() {
    let mut world = World::new();
    world.set_block_immediate(point3(0, 0, 0), Block::from_id_only(BlockID(1)));
    world.fix_visibility();
    assert!(world.get_block(point3(0, 0, 0)).is_visible(Face::Top));
    // placing above hides the shared face on the existing block and does
    // not expose it on the new one
    world.place_block(point3(0, 1, 0), BlockID(2));
    assert!(!world.get_block(point3(0, 0, 0)).is_visible(Face::Top));
    assert!(!world.get_block(point3(0, 1, 0)).is_visible(Face::Bottom));
    assert!(world.get_block(point3(0, 1, 0)).is_visible(Face::Top));
    // breaking the new block exposes the face again
    world.break_block(point3(0, 1, 0));
    assert!(world.get_block(point3(0, 1, 0)).is_empty());
    assert!(world.get_block(point3(0, 0, 0)).is_visible(Face::Top));
}

#[test]
fn placement_marks_visibility_from_neighbors() {
    let mut world = World::new();
    world.set_block_immediate(point3(0, 0, 0), Block::from_id_only(BlockID(1)));
    world.fix_visibility();
    world.place_block(point3(1, 0, 0), BlockID(3));
    let placed = world.get_block(point3(1, 0, 0));
    assert_eq!(placed.id, BlockID(3));
    assert!(!placed.is_visible(Face::Left));
    assert!(placed.is_visible(Face::Right));
    assert!(placed.is_visible(Face::Top));
    assert!(placed.is_visible(Face::Bottom));
    assert!(placed.is_visible(Face::Front));
    assert!(placed.is_visible(Face::Back));
}

#[test]
fn dirty_queue_needs_one_drain_per_touched_chunk() {
    let mut world = World::new();
    // make two chunks resident, then consume the initial remesh queue
    world.set_block_immediate(point3(0, 0, 0), Block::from_id_only(BlockID(1)));
    world.set_block_immediate(point3(40, 0, 0), Block::from_id_only(BlockID(1)));
    while world.clean_chunk().is_some() {}
    // three edits touching two distinct chunks
    world.place_block(point3(1, 1, 1), BlockID(1));
    world.place_block(point3(2, 2, 2), BlockID(2));
    world.place_block(point3(41, 1, 1), BlockID(3));
    let first = world.clean_chunk();
    let second = world.clean_chunk();
    assert!(first.is_some());
    assert!(second.is_some());
    assert_ne!(first, second);
    assert_eq!(world.clean_chunk(), None);
    // a fresh edit dirties its chunk again
    world.break_block(point3(1, 1, 1));
    assert_eq!(world.clean_chunk(), Some(point3(0, 0, 0)));
    assert_eq!(world.clean_chunk(), None);
}

#[test]
fn flat_generator_fills_a_band() {
    let registry = subsurface::registry::Registry::new();
    let generator = FlatGenerator::new(5, 1, String::from("stone"));
    let chunk = generator.generate_chunk(point3(0, 0, 0), &registry);
    assert_eq!(chunk.origin, point3(0, 0, 0));
    for y in 0..16i32 {
        let b = chunk.get_block(point3(3, y, 3));
        if (1..=5).contains(&y) {
            assert_eq!(b.id, BlockID(1));
        } else {
            assert!(b.is_empty());
        }
    }
}

#[test]
fn world_generates_missing_chunks_from_the_generator() {
    let mut world = World::new();
    let generator = FlatGenerator::new(3, 0, String::from("dirt"));
    world.generate_missing(point3(0, 0, 0), point3(32, 16, 16), &generator);
    world.fix_visibility();
    assert!(world.has_chunk(point3(0, 0, 0)));
    assert!(world.has_chunk(point3(16, 0, 0)));
    assert!(!world.has_chunk(point3(32, 0, 0)));
    let surface = world.get_block(point3(8, 3, 8));
    assert_eq!(surface.id, BlockID(2));
    assert!(surface.is_visible(Face::Top));
    assert!(!surface.is_visible(Face::Bottom));
    let buried = world.get_block(point3(8, 1, 8));
    assert!(!buried.is_visible(Face::Top));
    assert!(world.get_block(point3(8, 4, 8)).is_empty());
}

#[test]
fn generate_missing_respects_preloaded_chunks() {
    let mut world = World::new();
    world.set_block_immediate(point3(1, 1, 1), Block::from_id_only(BlockID(3)));
    let generator = FlatGenerator::new(15, 0, String::from("stone"));
    world.generate_missing(point3(0, 0, 0), point3(16, 16, 16), &generator);
    // the resident chunk is kept, not regenerated
    assert_eq!(world.get_block(point3(1, 1, 1)).id, BlockID(3));
    assert!(world.get_block(point3(2, 2, 2)).is_empty());
}

#[test]
fn heightmap_fill_layers_grass_dirt_stone() {
    let origin = point3(0, 0, 0);
    let mut heights = Vec::new();
    for _ in 0..256 {
        heights.push(9i32);
    }
    let mut carve = Vec::new();
    for _ in 0..4096 {
        carve.push(true);
    }
    let chunk = heightmap_fill(origin, &heights, &carve, BlockID(3), BlockID(2), BlockID(1));
    assert_eq!(chunk.get_block(point3(4, 9, 4)).id, BlockID(3));
    assert_eq!(chunk.get_block(point3(4, 8, 4)).id, BlockID(2));
    assert_eq!(chunk.get_block(point3(4, 6, 4)).id, BlockID(2));
    assert_eq!(chunk.get_block(point3(4, 5, 4)).id, BlockID(1));
    assert_eq!(chunk.get_block(point3(4, 0, 4)).id, BlockID(1));
    assert!(chunk.get_block(point3(4, 10, 4)).is_empty());
}

#[test]
fn heightmap_fill_carves_cavities() {
    let origin = point3(0, 0, 0);
    let mut heights = Vec::new();
    for _ in 0..256 {
        heights.push(9i32);
    }
    let mut carve = Vec::new();
    for i in 0..4096 {
        // cell (4, 5, 4) has array index 4 + 16*5 + 256*4
        carve.push(i != 4 + 16 * 5 + 256 * 4);
    }
    let chunk = heightmap_fill(origin, &heights, &carve, BlockID(3), BlockID(2), BlockID(1));
    assert!(chunk.get_block(point3(4, 5, 4)).is_empty());
    assert_eq!(chunk.get_block(point3(4, 6, 4)).id, BlockID(2));
}

#[test]
fn write_all_chunks_round_trips_through_the_codec() {
    let mut world = World::new();
    world.place_block(point3(0, 0, 0), BlockID(1));
    world.place_block(point3(20, 0, 0), BlockID(2));
    let written = world.write_all_chunks();
    assert_eq!(written.len(), 2);
    for (origin, bytes) in &written {
        let chunk = decode_chunk(*origin, bytes).unwrap();
        assert_eq!(chunk.origin, *origin);
        for x in 0..16i32 {
            for y in 0..16i32 {
                for z in 0..16i32 {
                    let loc = point3(origin.x + x, origin.y + y, origin.z + z);
                    assert_eq!(chunk.get_block(loc), world.get_block(loc));
                }
            }
        }
    }
}

#[test]
fn visibility_sentinel_is_replaced_by_fix_up() {
    let mut world = World::new();
    world.set_block_immediate(point3(0, 0, 0), Block::from_id_only(BlockID(1)));
    assert_eq!(world.get_block(point3(0, 0, 0)).visibility.0, 0xff);
    world.fix_visibility();
    assert_eq!(world.get_block(point3(0, 0, 0)).visibility.0, VISIBLE_TOP
        | subsurface::block::VISIBLE_BOTTOM
        | subsurface::block::VISIBLE_LEFT
        | subsurface::block::VISIBLE_RIGHT
        | subsurface::block::VISIBLE_FRONT
        | subsurface::block::VISIBLE_BACK);
}
