//! Binary chunk persistence format: a length prefix followed by the dense
//! block array in chunk-local index order, each block as a fixed 18-byte
//! record. Decoding is strict, so every byte string decodes to at most one
//! block array and encode/decode round-trips exactly.

use vstd::prelude::*;
use vstd::bytes::{
    lemma_auto_spec_u32_to_from_le_bytes, spec_u32_from_le_bytes, spec_u32_to_le_bytes,
};
use vstd::slice::slice_subrange;
use vstd::bytes::{u32_from_le_bytes, u32_to_le_bytes};
use crate::geometry::WorldPoint;
use crate::block::{
    Block, BlockID, FaceLightLevels, FaceVisibility, LightKind, LightLevel, SunLightLevel,
    TotalLightLevel,
};
use crate::chunk::{spec_aligned_point, Chunk, CHUNK_VOLUME};

verus! {

broadcast use vstd::seq::group_seq_axioms;

/// Number of bytes in one encoded block record.
pub const BLOCK_RECORD_BYTES: usize = 18;

/// Number of bytes in a whole encoded chunk.
pub const CHUNK_ENCODING_BYTES: usize = 73732;

/// Record tag for `LightKind::Source`.
pub const LIGHT_TAG_SOURCE: u8 = 0;

/// Record tag for `LightKind::Solid`.
pub const LIGHT_TAG_SOLID: u8 = 1;

/// The 13 bytes encoding a block's light state: a tag byte, then the
/// payload, zero-padded for the `Source` variant.
pub open spec fn spec_light_bytes(light: LightKind) -> Seq<u8> {
    match light {
        LightKind::Source(l) => seq![
            LIGHT_TAG_SOURCE,
            l.0.0,
            l.1.0,
            0u8,
            0u8,
            0u8,
            0u8,
            0u8,
            0u8,
            0u8,
            0u8,
            0u8,
            0u8,
        ],
        LightKind::Solid(l) => seq![
            LIGHT_TAG_SOLID,
            l.levels[0].0.0,
            l.levels[0].1.0,
            l.levels[1].0.0,
            l.levels[1].1.0,
            l.levels[2].0.0,
            l.levels[2].1.0,
            l.levels[3].0.0,
            l.levels[3].1.0,
            l.levels[4].0.0,
            l.levels[4].1.0,
            l.levels[5].0.0,
            l.levels[5].1.0,
        ],
    }
}

/// The 18 bytes encoding one block: id (little endian), visibility, light.
pub open spec fn spec_block_bytes(b: Block) -> Seq<u8> {
    spec_u32_to_le_bytes(b.id.0) + seq![b.visibility.0] + spec_light_bytes(b.light)
}

/// The concatenated records of a block array.
pub open spec fn spec_blocks_bytes(s: Seq<Block>) -> Seq<u8>
    decreases s.len(),
{
    if s.len() == 0 {
        Seq::empty()
    } else {
        spec_blocks_bytes(s.drop_last()) + spec_block_bytes(s.last())
    }
}

/// The full encoding of a chunk's block array: the block count as a
/// little-endian prefix, then the records in index order.
pub open spec fn spec_chunk_bytes(s: Seq<Block>) -> Seq<u8> {
    spec_u32_to_le_bytes(CHUNK_VOLUME as u32) + spec_blocks_bytes(s)
}

pub proof fn lemma_block_bytes_len(b: Block)
    ensures
        spec_block_bytes(b).len() == BLOCK_RECORD_BYTES,
{
    lemma_auto_spec_u32_to_from_le_bytes();
}

pub proof fn lemma_blocks_bytes_len(s: Seq<Block>)
    ensures
        spec_blocks_bytes(s).len() == BLOCK_RECORD_BYTES * s.len(),
    decreases s.len(),
{
    if s.len() > 0 {
        lemma_blocks_bytes_len(s.drop_last());
        lemma_block_bytes_len(s.last());
    }
}

/// The record of block `m` sits at bytes `[18m, 18m + 18)` of the
/// concatenated records.
pub proof fn lemma_blocks_bytes_slice(s: Seq<Block>, m: int)
    requires
        0 <= m < s.len(),
    ensures
        spec_blocks_bytes(s).len() == BLOCK_RECORD_BYTES * s.len(),
        spec_blocks_bytes(s).subrange(
            BLOCK_RECORD_BYTES * m,
            BLOCK_RECORD_BYTES * m + BLOCK_RECORD_BYTES,
        ) == spec_block_bytes(s[m]),
    decreases s.len(),
{
    lemma_blocks_bytes_len(s);
    lemma_blocks_bytes_len(s.drop_last());
    lemma_block_bytes_len(s.last());
    if m == s.len() - 1 {
        assert(spec_blocks_bytes(s).subrange(
            BLOCK_RECORD_BYTES * m,
            BLOCK_RECORD_BYTES * m + BLOCK_RECORD_BYTES,
        ) =~= spec_block_bytes(s.last()));
    } else {
        lemma_blocks_bytes_slice(s.drop_last(), m);
        assert(spec_blocks_bytes(s).subrange(
            BLOCK_RECORD_BYTES * m,
            BLOCK_RECORD_BYTES * m + BLOCK_RECORD_BYTES,
        ) =~= spec_blocks_bytes(s.drop_last()).subrange(
            BLOCK_RECORD_BYTES * m,
            BLOCK_RECORD_BYTES * m + BLOCK_RECORD_BYTES,
        ));
        assert(s.drop_last()[m] == s[m]);
    }
}

/// The record of block `m` sits at bytes `[4 + 18m, 4 + 18m + 18)` of a
/// chunk encoding.
pub proof fn lemma_chunk_record_slice(s: Seq<Block>, m: int)
    requires
        0 <= m < s.len(),
    ensures
        spec_chunk_bytes(s).len() == 4 + BLOCK_RECORD_BYTES * s.len(),
        spec_chunk_bytes(s).subrange(
            4 + BLOCK_RECORD_BYTES * m,
            4 + BLOCK_RECORD_BYTES * m + BLOCK_RECORD_BYTES,
        ) == spec_block_bytes(s[m]),
{
    lemma_auto_spec_u32_to_from_le_bytes();
    lemma_blocks_bytes_slice(s, m);
    assert(spec_chunk_bytes(s).subrange(
        4 + BLOCK_RECORD_BYTES * m,
        4 + BLOCK_RECORD_BYTES * m + BLOCK_RECORD_BYTES,
    ) =~= spec_blocks_bytes(s).subrange(
        BLOCK_RECORD_BYTES * m,
        BLOCK_RECORD_BYTES * m + BLOCK_RECORD_BYTES,
    ));
}

/// Two distinct block arrays never share an encoding; together with the
/// contracts of `encode_chunk` and `decode_chunk` this states round-trip
/// persistence: writing a chunk's blocks and reading them back yields a
/// block array identical in id, visibility and light.
pub proof fn lemma_chunk_bytes_injective(s1: Seq<Block>, s2: Seq<Block>)
    requires
        s1.len() == s2.len(),
        spec_chunk_bytes(s1) == spec_chunk_bytes(s2),
    ensures
        s1 == s2,
{
    assert forall|m: int| 0 <= m < s1.len() implies s1[m] == s2[m] by {
        lemma_chunk_record_slice(s1, m);
        lemma_chunk_record_slice(s2, m);
        lemma_block_bytes_injective(s1[m], s2[m]);
    }
    assert(s1 =~= s2);
}

proof fn lemma_block_bytes_injective(b1: Block, b2: Block)
    requires
        spec_block_bytes(b1) == spec_block_bytes(b2),
    ensures
        b1 == b2,
{
    lemma_auto_spec_u32_to_from_le_bytes();
    let bytes1 = spec_block_bytes(b1);
    let bytes2 = spec_block_bytes(b2);
    assert(bytes1.subrange(0, 4) =~= spec_u32_to_le_bytes(b1.id.0));
    assert(bytes2.subrange(0, 4) =~= spec_u32_to_le_bytes(b2.id.0));
    assert(b1.id.0 == spec_u32_from_le_bytes(spec_u32_to_le_bytes(b1.id.0)));
    assert(b1.id == b2.id);
    assert(bytes1[4] == b1.visibility.0 && bytes2[4] == b2.visibility.0);
    assert(b1.visibility == b2.visibility);
    match (b1.light, b2.light) {
        (LightKind::Source(l1), LightKind::Source(l2)) => {
            assert(bytes1[6] == l1.0.0 && bytes1[7] == l1.1.0);
            assert(bytes2[6] == l2.0.0 && bytes2[7] == l2.1.0);
            assert(l1 == l2);
        }
        (LightKind::Solid(l1), LightKind::Solid(l2)) => {
            assert forall|i: int| 0 <= i < 6 implies l1.levels[i] == l2.levels[i] by {
                assert(bytes1[6 + 2 * i] == l1.levels[i].0.0 && bytes1[7 + 2 * i]
                    == l1.levels[i].1.0);
                assert(bytes2[6 + 2 * i] == l2.levels[i].0.0 && bytes2[7 + 2 * i]
                    == l2.levels[i].1.0);
            }
            assert(l1.levels =~= l2.levels);
        }
        (LightKind::Source(_), LightKind::Solid(_)) => {
            assert(bytes1[5] == LIGHT_TAG_SOURCE && bytes2[5] == LIGHT_TAG_SOLID);
        }
        (LightKind::Solid(_), LightKind::Source(_)) => {
            assert(bytes1[5] == LIGHT_TAG_SOLID && bytes2[5] == LIGHT_TAG_SOURCE);
        }
    }
}

/// Appends the 18-byte record of `b`.
fn push_block_bytes(out: &mut Vec<u8>, b: Block)
    ensures
        final(out)@ == old(out)@ + spec_block_bytes(b),
{
    let ghost out0 = out@;
    let mut id_bytes = u32_to_le_bytes(b.id.0);
    out.append(&mut id_bytes);
    out.push(b.visibility.0);
    match b.light {
        LightKind::Source(l) => {
            out.push(LIGHT_TAG_SOURCE);
            out.push(l.0.0);
            out.push(l.1.0);
            let mut pad: usize = 0;
            while pad < 10
                invariant
                    pad <= 10,
                    out@ == out0 + spec_u32_to_le_bytes(b.id.0) + seq![b.visibility.0] + seq![
                        LIGHT_TAG_SOURCE,
                        l.0.0,
                        l.1.0,
                    ] + Seq::new(pad as nat, |i: int| 0u8),
                decreases 10 - pad,
            {
                out.push(0u8);
                proof {
                    assert(Seq::new((pad + 1) as nat, |i: int| 0u8) =~= Seq::new(
                        pad as nat,
                        |i: int| 0u8,
                    ).push(0u8));
                }
                pad = pad + 1;
            }
            proof {
                assert(out@ =~= out0 + spec_block_bytes(b));
            }
        }
        LightKind::Solid(l) => {
            out.push(LIGHT_TAG_SOLID);
            let mut face: usize = 0;
            while face < 6
                invariant
                    face <= 6,
                    out@ == out0 + spec_u32_to_le_bytes(b.id.0) + seq![b.visibility.0] + seq![
                        LIGHT_TAG_SOLID,
                    ] + Seq::new(2 * face as nat, |i: int| spec_light_bytes(b.light)[1 + i]),
                    b.light == LightKind::Solid(l),
                decreases 6 - face,
            {
                out.push(l.levels[face].0.0);
                out.push(l.levels[face].1.0);
                proof {
                    assert(Seq::new(2 * (face + 1) as nat, |i: int| spec_light_bytes(b.light)[1 + i])
                        =~= Seq::new(2 * face as nat, |i: int| spec_light_bytes(b.light)[1 + i])
                        .push(l.levels[face as int].0.0).push(l.levels[face as int].1.0));
                }
                face = face + 1;
            }
            proof {
                assert(out@ =~= out0 + spec_block_bytes(b));
            }
        }
    }
}

/// Serializes a chunk's block array.
pub fn encode_chunk(chunk: &Chunk) -> (r: Vec<u8>)
    requires
        chunk.wf(),
    ensures
        r@ == spec_chunk_bytes(chunk.blocks@),
        r@.len() == CHUNK_ENCODING_BYTES,
{
    let mut out: Vec<u8> = Vec::new();
    let mut count_bytes = u32_to_le_bytes(CHUNK_VOLUME as u32);
    out.append(&mut count_bytes);
    let mut bi: usize = 0;
    while bi < CHUNK_VOLUME
        invariant
            bi <= CHUNK_VOLUME,
            chunk.wf(),
            out@ == spec_u32_to_le_bytes(CHUNK_VOLUME as u32) + spec_blocks_bytes(
                chunk.blocks@.take(bi as int),
            ),
        decreases CHUNK_VOLUME - bi,
    {
        let b = chunk.blocks[bi];
        push_block_bytes(&mut out, b);
        proof {
            let taken = chunk.blocks@.take(bi + 1);
            assert(taken.drop_last() =~= chunk.blocks@.take(bi as int));
            assert(taken.last() == b);
            assert(out@ =~= spec_u32_to_le_bytes(CHUNK_VOLUME as u32) + spec_blocks_bytes(taken));
        }
        bi = bi + 1;
    }
    proof {
        assert(chunk.blocks@.take(CHUNK_VOLUME as int) =~= chunk.blocks@);
        lemma_blocks_bytes_len(chunk.blocks@);
        lemma_auto_spec_u32_to_from_le_bytes();
    }
    out
}

/// Reads the 18-byte record at `base`. Returns `None` exactly when those
/// bytes are not the record of any block.
fn read_block(bytes: &Vec<u8>, base: usize) -> (r: Option<Block>)
    requires
        base + BLOCK_RECORD_BYTES <= bytes@.len(),
    ensures
        match r {
            Some(b) => bytes@.subrange(base as int, base + BLOCK_RECORD_BYTES) == spec_block_bytes(
                b,
            ),
            None => forall|b: Block|
                bytes@.subrange(base as int, base + BLOCK_RECORD_BYTES) != #[trigger]
                    spec_block_bytes(b),
        },
{
    let ghost rec = bytes@.subrange(base as int, base + BLOCK_RECORD_BYTES);
    let len = bytes.len();
    let id = u32_from_le_bytes(slice_subrange(bytes.as_slice(), base, base + 4));
    let visibility = bytes[base + 4];
    let tag = bytes[base + 5];
    proof {
        lemma_auto_spec_u32_to_from_le_bytes();
        assert(bytes@.subrange(base as int, base + 4) =~= rec.subrange(0, 4));
        assert(spec_u32_to_le_bytes(id) == rec.subrange(0, 4));
    }
    if tag == LIGHT_TAG_SOURCE {
        let mut pad_ok = true;
        let mut p: usize = 0;
        while p < 10
            invariant
                p <= 10,
                base + BLOCK_RECORD_BYTES <= len,
                len == bytes@.len(),
                rec == bytes@.subrange(base as int, base + BLOCK_RECORD_BYTES),
                pad_ok <==> (forall|q: int| 0 <= q < p ==> #[trigger] rec[8 + q] == 0u8),
            decreases 10 - p,
        {
            if bytes[base + 8 + p] != 0 {
                proof {
                    assert(rec[8 + p] == bytes@[base + 8 + p]);
                }
                pad_ok = false;
            }
            proof {
                if pad_ok {
                    assert(rec[8 + p] == bytes@[base + 8 + p]);
                }
            }
            p = p + 1;
        }
        if !pad_ok {
            proof {
                let bad = choose|q: int| 0 <= q < 10 && #[trigger] rec[8 + q] != 0u8;
                assert forall|b: Block| rec != #[trigger] spec_block_bytes(b) by {
                    if rec == spec_block_bytes(b) {
                        lemma_block_bytes_len(b);
                        match b.light {
                            LightKind::Source(_) => {
                                assert(spec_block_bytes(b)[8 + bad] == 0u8);
                            }
                            LightKind::Solid(_) => {
                                assert(spec_block_bytes(b)[5] == LIGHT_TAG_SOLID);
                                assert(rec[5] == bytes@[base + 5]);
                            }
                        }
                    }
                }
            }
            return None;
        }
        let light = LightKind::Source((SunLightLevel(bytes[base + 6]), LightLevel(bytes[base + 7])));
        let block = Block { id: BlockID(id), visibility: FaceVisibility(visibility), light };
        proof {
            let enc = spec_block_bytes(block);
            lemma_block_bytes_len(block);
            assert forall|i: int| 0 <= i < BLOCK_RECORD_BYTES implies rec[i] == enc[i] by {
                assert(rec[i] == bytes@[base + i]);
                if i < 4 {
                    assert(enc[i] == spec_u32_to_le_bytes(block.id.0)[i]);
                    assert(rec.subrange(0, 4)[i] == rec[i]);
                } else if i >= 8 {
                    assert(rec[8 + (i - 8)] == 0u8);
                } else {
                    assert(rec[4] == bytes@[base + 4]);
                    assert(rec[5] == bytes@[base + 5]);
                    assert(rec[6] == bytes@[base + 6]);
                    assert(rec[7] == bytes@[base + 7]);
                }
            }
            assert(rec =~= enc);
        }
        Some(block)
    } else if tag == LIGHT_TAG_SOLID {
        let levels: [TotalLightLevel; 6] = [
            (SunLightLevel(bytes[base + 6]), LightLevel(bytes[base + 7])),
            (SunLightLevel(bytes[base + 8]), LightLevel(bytes[base + 9])),
            (SunLightLevel(bytes[base + 10]), LightLevel(bytes[base + 11])),
            (SunLightLevel(bytes[base + 12]), LightLevel(bytes[base + 13])),
            (SunLightLevel(bytes[base + 14]), LightLevel(bytes[base + 15])),
            (SunLightLevel(bytes[base + 16]), LightLevel(bytes[base + 17])),
        ];
        let light = LightKind::Solid(FaceLightLevels { levels });
        let block = Block { id: BlockID(id), visibility: FaceVisibility(visibility), light };
        proof {
            let enc = spec_block_bytes(block);
            lemma_block_bytes_len(block);
            assert forall|i: int| 0 <= i < BLOCK_RECORD_BYTES implies rec[i] == enc[i] by {
                assert(rec[i] == bytes@[base + i]);
                if i < 4 {
                    assert(enc[i] == spec_u32_to_le_bytes(block.id.0)[i]);
                    assert(rec.subrange(0, 4)[i] == rec[i]);
                } else {
                    assert(rec[4] == bytes@[base + 4]);
                    assert(rec[5] == bytes@[base + 5]);
                    assert(rec[6] == bytes@[base + 6]);
                    assert(rec[7] == bytes@[base + 7]);
                    assert(rec[8] == bytes@[base + 8]);
                    assert(rec[9] == bytes@[base + 9]);
                    assert(rec[10] == bytes@[base + 10]);
                    assert(rec[11] == bytes@[base + 11]);
                    assert(rec[12] == bytes@[base + 12]);
                    assert(rec[13] == bytes@[base + 13]);
                    assert(rec[14] == bytes@[base + 14]);
                    assert(rec[15] == bytes@[base + 15]);
                    assert(rec[16] == bytes@[base + 16]);
                    assert(rec[17] == bytes@[base + 17]);
                }
            }
            assert(rec =~= enc);
        }
        Some(block)
    } else {
        proof {
            assert(rec[5] == bytes@[base + 5]);
            assert forall|b: Block| rec != #[trigger] spec_block_bytes(b) by {
                if rec == spec_block_bytes(b) {
                    lemma_block_bytes_len(b);
                    match b.light {
                        LightKind::Source(_) => {
                            assert(spec_block_bytes(b)[5] == LIGHT_TAG_SOURCE);
                        }
                        LightKind::Solid(_) => {
                            assert(spec_block_bytes(b)[5] == LIGHT_TAG_SOLID);
                        }
                    }
                }
            }
        }
        None
    }
}

/// Deserializes a chunk from `bytes`, placing it at `origin`. Returns `None`
/// exactly when `bytes` is not the encoding of any block array, which the
/// caller treats as storage corruption.
pub fn decode_chunk(origin: WorldPoint, bytes: &Vec<u8>) -> (r: Option<Chunk>)
    requires
        spec_aligned_point(origin),
    ensures
        match r {
            Some(c) => {
                &&& c.wf()
                &&& c.origin == origin
                &&& !c.dirty
                &&& bytes@ == spec_chunk_bytes(c.blocks@)
            },
            None => forall|s: Seq<Block>|
                s.len() == CHUNK_VOLUME ==> bytes@ != #[trigger] spec_chunk_bytes(s),
        },
{
    if bytes.len() != CHUNK_ENCODING_BYTES {
        proof {
            assert forall|s: Seq<Block>|
                s.len() == CHUNK_VOLUME implies bytes@ != #[trigger] spec_chunk_bytes(s) by {
                lemma_blocks_bytes_len(s);
                lemma_auto_spec_u32_to_from_le_bytes();
            }
        }
        return None;
    }
    let count = u32_from_le_bytes(slice_subrange(bytes.as_slice(), 0, 4));
    if count != CHUNK_VOLUME as u32 {
        proof {
            assert forall|s: Seq<Block>|
                s.len() == CHUNK_VOLUME implies bytes@ != #[trigger] spec_chunk_bytes(s) by {
                if bytes@ == spec_chunk_bytes(s) {
                    lemma_auto_spec_u32_to_from_le_bytes();
                    assert(bytes@.subrange(0, 4) =~= spec_u32_to_le_bytes(CHUNK_VOLUME as u32));
                }
            }
        }
        return None;
    }
    let mut blocks: Vec<Block> = Vec::new();
    let mut m: usize = 0;
    while m < CHUNK_VOLUME
        invariant
            m <= CHUNK_VOLUME,
            blocks@.len() == m,
            bytes@.len() == CHUNK_ENCODING_BYTES,
            forall|j: int|
                0 <= j < m ==> bytes@.subrange(
                    4 + BLOCK_RECORD_BYTES * j,
                    4 + BLOCK_RECORD_BYTES * j + BLOCK_RECORD_BYTES,
                ) == spec_block_bytes(#[trigger] blocks@[j]),
        decreases CHUNK_VOLUME - m,
    {
        let base: usize = 4 + BLOCK_RECORD_BYTES * m;
        match read_block(bytes, base) {
            Some(block) => {
                blocks.push(block);
            }
            None => {
                proof {
                    assert forall|s: Seq<Block>|
                        s.len() == CHUNK_VOLUME implies bytes@ != #[trigger] spec_chunk_bytes(
                        s,
                    ) by {
                        if bytes@ == spec_chunk_bytes(s) {
                            lemma_chunk_record_slice(s, m as int);
                        }
                    }
                }
                return None;
            }
        }
        m = m + 1;
    }
    let chunk = Chunk { blocks, origin, dirty: false };
    proof {
        let enc = spec_chunk_bytes(chunk.blocks@);
        lemma_blocks_bytes_len(chunk.blocks@);
        lemma_auto_spec_u32_to_from_le_bytes();
        assert(spec_u32_to_le_bytes(spec_u32_from_le_bytes(bytes@.subrange(0, 4))) == bytes@
            .subrange(0, 4));
        assert(enc.subrange(0, 4) =~= spec_u32_to_le_bytes(CHUNK_VOLUME as u32));
        assert(bytes@.subrange(0, 4) == enc.subrange(0, 4));
        assert forall|j: int| 0 <= j < CHUNK_VOLUME implies enc.subrange(
            #[trigger] (4 + BLOCK_RECORD_BYTES * j),
            4 + BLOCK_RECORD_BYTES * j + BLOCK_RECORD_BYTES,
        ) == bytes@.subrange(
            4 + BLOCK_RECORD_BYTES * j,
            4 + BLOCK_RECORD_BYTES * j + BLOCK_RECORD_BYTES,
        ) by {
            lemma_chunk_record_slice(chunk.blocks@, j);
        }
        lemma_bytes_piecewise_equal(bytes@, enc);
    }
    Some(chunk)
}

/// Two chunk-sized byte strings that agree on the length prefix and on every
/// record slice are equal.
proof fn lemma_bytes_piecewise_equal(b1: Seq<u8>, b2: Seq<u8>)
    requires
        b1.len() == CHUNK_ENCODING_BYTES,
        b2.len() == CHUNK_ENCODING_BYTES,
        b1.subrange(0, 4) == b2.subrange(0, 4),
        forall|j: int|
            0 <= j < CHUNK_VOLUME ==> b1.subrange(
                4 + BLOCK_RECORD_BYTES * j,
                4 + BLOCK_RECORD_BYTES * j + BLOCK_RECORD_BYTES,
            ) == b2.subrange(
                #[trigger] (4 + BLOCK_RECORD_BYTES * j),
                4 + BLOCK_RECORD_BYTES * j + BLOCK_RECORD_BYTES,
            ),
    ensures
        b1 == b2,
{
    assert forall|i: int| 0 <= i < CHUNK_ENCODING_BYTES implies b1[i] == b2[i] by {
        if i < 4 {
            assert(b1.subrange(0, 4)[i] == b2.subrange(0, 4)[i]);
            assert(b1.subrange(0, 4)[i] == b1[i]);
            assert(b2.subrange(0, 4)[i] == b2[i]);
        } else {
            let j = (i - 4) / BLOCK_RECORD_BYTES as int;
            let off = (i - 4) % BLOCK_RECORD_BYTES as int;
            vstd::arithmetic::div_mod::lemma_fundamental_div_mod(i - 4, BLOCK_RECORD_BYTES as int);
            vstd::arithmetic::div_mod::lemma_mod_bound(i - 4, BLOCK_RECORD_BYTES as int);
            assert(0 <= off < BLOCK_RECORD_BYTES);
            assert(i - 4 == BLOCK_RECORD_BYTES * j + off);
            assert(0 <= j < CHUNK_VOLUME) by {
                if j >= CHUNK_VOLUME {
                    assert(BLOCK_RECORD_BYTES * j >= BLOCK_RECORD_BYTES * (CHUNK_VOLUME as int))
                        by (nonlinear_arith)
                        requires
                            j >= CHUNK_VOLUME as int,
                    ;
                }
                if j < 0 {
                    assert(BLOCK_RECORD_BYTES * j <= BLOCK_RECORD_BYTES * (-1)) by (nonlinear_arith)
                        requires
                            j <= -1,
                    ;
                }
            }
            let s1 = b1.subrange(
                4 + BLOCK_RECORD_BYTES * j,
                4 + BLOCK_RECORD_BYTES * j + BLOCK_RECORD_BYTES,
            );
            let s2 = b2.subrange(
                4 + BLOCK_RECORD_BYTES * j,
                4 + BLOCK_RECORD_BYTES * j + BLOCK_RECORD_BYTES,
            );
            assert(s1 == s2);
            assert(s1[off] == b1[4 + BLOCK_RECORD_BYTES * j + off]);
            assert(s2[off] == b2[4 + BLOCK_RECORD_BYTES * j + off]);
            assert(4 + BLOCK_RECORD_BYTES * j + off == i);
            assert(b1[i] == b2[i]);
        }
    }
    assert(b1 =~= b2);
}

} // verus!
