use subsurface::block::{Block, BlockID, FaceVisibility, LightKind};
use subsurface::chunk::{Chunk, CHUNK_VOLUME};
use subsurface::codec::{decode_chunk, encode_chunk, CHUNK_ENCODING_BYTES};
use subsurface::geometry::{point3, LocalPoint};

fn chunks_hold_same_blocks(a: &Chunk, b: &Chunk) {
    for x in 0..16u8 {
        for y in 0..16u8 {
            for z in 0..16u8 {
                let loc = LocalPoint { x, y, z };
                assert_eq!(a.get_block_local(loc), b.get_block_local(loc));
            }
        }
    }
}

#[test]
fn round_trip_all_empty_chunk() {
    let chunk = Chunk::new(point3(0, 0, 0));
    let bytes = encode_chunk(&chunk);
    assert_eq!(bytes.len(), CHUNK_ENCODING_BYTES);
    let back = decode_chunk(point3(0, 0, 0), &bytes).unwrap();
    assert_eq!(back.origin, chunk.origin);
    assert!(!back.dirty);
    chunks_hold_same_blocks(&chunk, &back);
}

#[test]
fn round_trip_fully_solid_chunk() {
    let origin = point3(-32, 16, 0);
    let mut chunk = Chunk::new(origin);
    for x in 0..16i32 {
        for y in 0..16i32 {
            for z in 0..16i32 {
                let loc = point3(origin.x + x, origin.y + y, origin.z + z);
                chunk.set_block_immediate(loc, Block::from_id_only(BlockID(2)));
            }
        }
    }
    let bytes = encode_chunk(&chunk);
    let back = decode_chunk(origin, &bytes).unwrap();
    chunks_hold_same_blocks(&chunk, &back);
}

#[test]
fn round_trip_mixed_light_kinds() {
    let origin = point3(16, -16, 48);
    let mut chunk = Chunk::new(origin);
    chunk.set_block_immediate(
        point3(origin.x + 1, origin.y + 2, origin.z + 3),
        Block::from_id(BlockID(9), FaceVisibility(0b10_1010), LightKind::source(7, 12)),
    );
    let bytes = encode_chunk(&chunk);
    let back = decode_chunk(origin, &bytes).unwrap();
    chunks_hold_same_blocks(&chunk, &back);
    let b = back.get_block_local(LocalPoint { x: 1, y: 2, z: 3 });
    assert_eq!(b.id, BlockID(9));
    assert_eq!(b.visibility.0, 0b10_1010);
}

#[test]
fn decode_rejects_wrong_length() {
    let chunk = Chunk::new(point3(0, 0, 0));
    let mut bytes = encode_chunk(&chunk);
    bytes.pop();
    assert!(decode_chunk(point3(0, 0, 0), &bytes).is_none());
    assert!(decode_chunk(point3(0, 0, 0), &Vec::new()).is_none());
}

#[test]
fn decode_rejects_bad_count_prefix() {
    let chunk = Chunk::new(point3(0, 0, 0));
    let mut bytes = encode_chunk(&chunk);
    bytes[0] = 1;
    assert!(decode_chunk(point3(0, 0, 0), &bytes).is_none());
}

#[test]
fn decode_rejects_bad_light_tag() {
    let chunk = Chunk::new(point3(0, 0, 0));
    let mut bytes = encode_chunk(&chunk);
    // byte 5 of the first record is the light tag
    bytes[4 + 5] = 2;
    assert!(decode_chunk(point3(0, 0, 0), &bytes).is_none());
}

#[test]
fn decode_rejects_nonzero_source_padding() {
    let origin = point3(0, 0, 0);
    let mut chunk = Chunk::new(origin);
    chunk.set_block_immediate(point3(0, 0, 0), Block::from_id_only(BlockID(1)));
    let mut bytes = encode_chunk(&chunk);
    // the first record now carries Source light; poison one padding byte
    assert_eq!(bytes[4 + 5], 0);
    bytes[4 + 9] = 1;
    assert!(decode_chunk(origin, &bytes).is_none());
}

#[test]
fn encoding_is_a_fixed_size_record_stream() {
    let chunk = Chunk::new(point3(0, 0, 0));
    let bytes = encode_chunk(&chunk);
    assert_eq!(bytes.len(), 4 + 18 * CHUNK_VOLUME);
    assert_eq!(
        u32::from_le_bytes([bytes[0], bytes[1], bytes[2], bytes[3]]),
        CHUNK_VOLUME as u32
    );
}
