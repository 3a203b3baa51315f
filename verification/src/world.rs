//! The world: a sparse map from chunk-aligned origins to resident chunks,
//! block editing with neighbor-visibility upkeep, a dirty queue for
//! incremental remeshing, and region loading from a generator.

use vstd::prelude::*;
use crate::geometry::WorldPoint;
use crate::block::{
    face_visible, spec_empty_block, spec_unset_block, Block, BlockID, Face, FaceVisibility,
    LightKind, LightLevel, SunLightLevel, VISIBLE_BACK, VISIBLE_BOTTOM, VISIBLE_FRONT,
    VISIBLE_LEFT, VISIBLE_NONE, VISIBLE_RIGHT, VISIBLE_TOP,
};
use crate::block::solid_no_light;
use crate::chunk::{
    lemma_aligned_near_max, spec_aligned, spec_aligned_point, Chunk, CHUNK_VOLUME,
};
use crate::registry::{spec_default_catalog, Registry};
use crate::terrain::ChunkGenerator;

verus! {

broadcast use vstd::seq::group_seq_axioms;

/// The chunk-aligned origin of the chunk containing `p`: each axis is
/// rounded down to a multiple of the chunk size.
pub open spec fn spec_chunk_origin(p: WorldPoint) -> WorldPoint {
    WorldPoint {
        x: (p.x - p.x % 16) as i32,
        y: (p.y - p.y % 16) as i32,
        z: (p.z - p.z % 16) as i32,
    }
}

/// Rounds one coordinate down to a multiple of the chunk size by masking,
/// valid because the chunk size is a power of two.
fn align_axis(v: i32) -> (r: i32)
    ensures
        r == v - v % 16,
{
    proof {
        lemma_align_axis_in_range(v);
        assert(v & -16i32 == v - v % 16) by (bit_vector);
    }
    v & (-16i32)
}

/// The rounded-down coordinate stays in range: the minimum `i32` is itself
/// a multiple of the chunk size.
proof fn lemma_align_axis_in_range(v: i32)
    ensures
        i32::MIN <= v - v % 16 <= v,
        0 <= v % 16 < 16,
        (v - v % 16) % 16 == 0,
{
    vstd::arithmetic::div_mod::lemma_fundamental_div_mod(v as int, 16);
    vstd::arithmetic::div_mod::lemma_div_is_ordered(i32::MIN as int, v as int, 16);
    vstd::arithmetic::div_mod::lemma_mod_multiples_basic(v as int / 16, 16);
}

/// Maps any world coordinate to the origin of its chunk.
pub fn find_chunk_origin(point: WorldPoint) -> (r: WorldPoint)
    ensures
        r == spec_chunk_origin(point),
{
    WorldPoint { x: align_axis(point.x), y: align_axis(point.y), z: align_axis(point.z) }
}

/// Chunk-origin alignment: the origin of the chunk containing `p` is a
/// multiple of the chunk size on every axis, and `p` lies within the chunk
/// extent above it.
pub proof fn lemma_chunk_origin_alignment(p: WorldPoint)
    ensures
        spec_aligned_point(spec_chunk_origin(p)),
        0 <= p.x - spec_chunk_origin(p).x < 16,
        0 <= p.y - spec_chunk_origin(p).y < 16,
        0 <= p.z - spec_chunk_origin(p).z < 16,
{
    lemma_align_axis_in_range(p.x);
    lemma_align_axis_in_range(p.y);
    lemma_align_axis_in_range(p.z);
}

/// The world coordinate across face `f` of `loc`.
pub open spec fn spec_face_neighbor(loc: WorldPoint, f: Face) -> WorldPoint {
    WorldPoint {
        x: (loc.x + f.spec_normal().x) as i32,
        y: (loc.y + f.spec_normal().y) as i32,
        z: (loc.z + f.spec_normal().z) as i32,
    }
}

/// `loc` sits strictly inside the coordinate range, so each of its six
/// neighbors exists.
pub open spec fn spec_in_editable_range(loc: WorldPoint) -> bool {
    &&& i32::MIN < loc.x < i32::MAX
    &&& i32::MIN < loc.y < i32::MAX
    &&& i32::MIN < loc.z < i32::MAX
}

/// The block at `q` once the chunk owning `loc` is resident: unchanged
/// wherever a chunk was already resident (or `q` lies in another chunk),
/// and the fresh unset-visibility fill inside a chunk the write created.
pub open spec fn spec_after_create_block(w0: World, loc: WorldPoint, q: WorldPoint) -> Block {
    if !w0.spec_has_chunk(spec_chunk_origin(loc)) && spec_chunk_origin(q) == spec_chunk_origin(
        loc,
    ) {
        spec_unset_block()
    } else {
        w0.spec_block(q)
    }
}

/// Appending an origin to the queue adds exactly it to the queue's set.
proof fn lemma_dirty_queue_push(q0: Seq<WorldPoint>, q1: Seq<WorldPoint>, o: WorldPoint)
    requires
        q1 == q0.push(o),
    ensures
        q1.to_set() == q0.to_set().insert(o),
{
    assert forall|p: WorldPoint| q1.to_set().contains(p) implies q0.to_set().insert(o).contains(
        p,
    ) by {
        let qi = choose|qi: int| 0 <= qi < q1.len() && q1[qi] == p;
        if qi < q0.len() {
            assert(q0[qi] == p);
        }
    }
    assert forall|p: WorldPoint| q0.to_set().insert(o).contains(p) implies q1.to_set().contains(
        p,
    ) by {
        if p == o {
            assert(q1[q0.len() as int] == p);
        } else {
            let qi = choose|qi: int| 0 <= qi < q0.len() && q0[qi] == p;
            assert(q1[qi] == p);
        }
    }
    assert(q1.to_set() =~= q0.to_set().insert(o));
}

/// The six neighbors of an in-range point are pairwise distinct and none of
/// them is the point itself.
pub proof fn lemma_neighbors_distinct(loc: WorldPoint)
    requires
        spec_in_editable_range(loc),
    ensures
        forall|f1: Face, f2: Face|
            f1 != f2 ==> spec_face_neighbor(loc, f1) != spec_face_neighbor(loc, f2),
        forall|f: Face| #[trigger] spec_face_neighbor(loc, f) != loc,
{
}

/// Handling a face whose neighbor is empty leaves the placement pass's
/// intermediate state unchanged.
proof fn lemma_place_partial_step_empty(w0: World, loc: WorldPoint, f: Face)
    requires
        spec_in_editable_range(loc),
        w0.spec_block(spec_face_neighbor(loc, f)).spec_is_empty(),
    ensures
        forall|q: WorldPoint| #[trigger] spec_place_partial(w0, loc, f.spec_index() + 1, q)
            == spec_place_partial(w0, loc, f.spec_index(), q),
{
    lemma_neighbors_distinct(loc);
}

/// Writing the updated occupied neighbor advances the placement pass's
/// intermediate state by one face.
proof fn lemma_place_partial_step_occupied(
    w0: World,
    before: World,
    after: World,
    loc: WorldPoint,
    f: Face,
)
    requires
        spec_in_editable_range(loc),
        !w0.spec_block(spec_face_neighbor(loc, f)).spec_is_empty(),
        forall|q: WorldPoint| #[trigger] before.spec_block(q) == spec_place_partial(
            w0,
            loc,
            f.spec_index(),
            q,
        ),
        after.spec_block(spec_face_neighbor(loc, f)) == spec_place_neighbor(w0, loc, f),
        forall|q: WorldPoint|
            q != spec_face_neighbor(loc, f) ==> #[trigger] after.spec_block(q)
                == before.spec_block(q),
    ensures
        forall|q: WorldPoint| #[trigger] after.spec_block(q) == spec_place_partial(
            w0,
            loc,
            f.spec_index() + 1,
            q,
        ),
{
    lemma_neighbors_distinct(loc);
    assert forall|q: WorldPoint| #[trigger] after.spec_block(q) == spec_place_partial(
        w0,
        loc,
        f.spec_index() + 1,
        q,
    ) by {
        if q != spec_face_neighbor(loc, f) {
            assert(spec_place_partial(w0, loc, f.spec_index() + 1, q) == spec_place_partial(
                w0,
                loc,
                f.spec_index(),
                q,
            ));
        }
    }
}

/// Writing the new block at `loc` after the neighbor pass completes the
/// placement: every point now holds the placement's result.
#[verifier::rlimit(100)]
#[verifier::spinoff_prover]
proof fn lemma_place_result_assembly(
    w0: World,
    before: World,
    after: World,
    loc: WorldPoint,
    id: BlockID,
)
    requires
        spec_in_editable_range(loc),
        forall|q: WorldPoint| #[trigger] before.spec_block(q) == spec_place_partial(w0, loc, 6, q),
        forall|o: WorldPoint| before.spec_has_chunk(o) <==> w0.spec_has_chunk(o),
        after.spec_block(loc) == (Block {
            id,
            visibility: FaceVisibility(spec_neighbor_visibility(w0, loc)),
            light: LightKind::Source((SunLightLevel(15), LightLevel(15))),
        }),
        forall|q: WorldPoint|
            q != loc ==> #[trigger] after.spec_block(q) == spec_after_create_block(
                before,
                loc,
                q,
            ),
    ensures
        forall|q: WorldPoint| #[trigger] after.spec_block(q) == spec_place_result(w0, loc, id, q),
{
    lemma_neighbors_distinct(loc);
    assert forall|q: WorldPoint| #[trigger] after.spec_block(q) == spec_place_result(
        w0,
        loc,
        id,
        q,
    ) by {
        if q != loc {
            assert(before.spec_block(q) == spec_place_partial(w0, loc, 6, q));
            assert(before.spec_has_chunk(spec_chunk_origin(loc)) <==> w0.spec_has_chunk(
                spec_chunk_origin(loc),
            ));
            if !w0.spec_has_chunk(spec_chunk_origin(loc)) && spec_chunk_origin(q)
                == spec_chunk_origin(loc) {
                assert(w0.spec_block(q) == spec_empty_block());
                assert(after.spec_block(q) == spec_unset_block());
            } else {
                assert(after.spec_block(q) == before.spec_block(q));
            }
        }
    }
}

/// Handling a face whose neighbor is empty leaves the breakage pass's
/// intermediate state unchanged.
proof fn lemma_break_partial_step_empty(w0: World, loc: WorldPoint, f: Face)
    requires
        spec_in_editable_range(loc),
        w0.spec_block(spec_face_neighbor(loc, f)).spec_is_empty(),
    ensures
        forall|q: WorldPoint| #[trigger] spec_break_partial(w0, loc, f.spec_index() + 1, q)
            == spec_break_partial(w0, loc, f.spec_index(), q),
{
    lemma_neighbors_distinct(loc);
}

/// Writing the updated occupied neighbor advances the breakage pass's
/// intermediate state by one face.
proof fn lemma_break_partial_step_occupied(
    w0: World,
    before: World,
    after: World,
    loc: WorldPoint,
    f: Face,
)
    requires
        spec_in_editable_range(loc),
        !w0.spec_block(spec_face_neighbor(loc, f)).spec_is_empty(),
        forall|q: WorldPoint| #[trigger] before.spec_block(q) == spec_break_partial(
            w0,
            loc,
            f.spec_index(),
            q,
        ),
        after.spec_block(spec_face_neighbor(loc, f)) == spec_break_neighbor(w0, loc, f),
        forall|q: WorldPoint|
            q != spec_face_neighbor(loc, f) ==> #[trigger] after.spec_block(q)
                == before.spec_block(q),
    ensures
        forall|q: WorldPoint| #[trigger] after.spec_block(q) == spec_break_partial(
            w0,
            loc,
            f.spec_index() + 1,
            q,
        ),
{
    lemma_neighbors_distinct(loc);
    assert forall|q: WorldPoint| #[trigger] after.spec_block(q) == spec_break_partial(
        w0,
        loc,
        f.spec_index() + 1,
        q,
    ) by {
        if q != spec_face_neighbor(loc, f) {
            assert(spec_break_partial(w0, loc, f.spec_index() + 1, q) == spec_break_partial(
                w0,
                loc,
                f.spec_index(),
                q,
            ));
        }
    }
}

/// Extends the account of the dirty queue by one face of the editing pass:
/// an empty neighbor adds nothing, an occupied one adds its chunk's origin.
proof fn lemma_dirty_set_step(
    w0: World,
    base: Set<WorldPoint>,
    before: Set<WorldPoint>,
    after: Set<WorldPoint>,
    loc: WorldPoint,
    f: Face,
)
    requires
        forall|o: WorldPoint|
            #[trigger] before.contains(o) <==> (base.contains(o) || (exists|g: Face|
                g.spec_index() < f.spec_index() && !w0.spec_block(
                    #[trigger] spec_face_neighbor(loc, g),
                ).spec_is_empty() && o == spec_chunk_origin(spec_face_neighbor(loc, g)))),
        if w0.spec_block(spec_face_neighbor(loc, f)).spec_is_empty() {
            after == before
        } else {
            after == before.insert(spec_chunk_origin(spec_face_neighbor(loc, f)))
        },
    ensures
        forall|o: WorldPoint|
            #[trigger] after.contains(o) <==> (base.contains(o) || (exists|g: Face|
                g.spec_index() < f.spec_index() + 1 && !w0.spec_block(
                    #[trigger] spec_face_neighbor(loc, g),
                ).spec_is_empty() && o == spec_chunk_origin(spec_face_neighbor(loc, g)))),
{
    assert forall|o: WorldPoint|
        #[trigger] after.contains(o) <==> (base.contains(o) || (exists|g: Face|
            g.spec_index() < f.spec_index() + 1 && !w0.spec_block(
                #[trigger] spec_face_neighbor(loc, g),
            ).spec_is_empty() && o == spec_chunk_origin(spec_face_neighbor(loc, g)))) by {
        let occupied = !w0.spec_block(spec_face_neighbor(loc, f)).spec_is_empty();
        if after.contains(o) {
            if occupied && o == spec_chunk_origin(spec_face_neighbor(loc, f)) {
                assert(f.spec_index() < f.spec_index() + 1 && !w0.spec_block(
                    spec_face_neighbor(loc, f),
                ).spec_is_empty() && o == spec_chunk_origin(spec_face_neighbor(loc, f)));
            } else {
                assert(before.contains(o));
            }
        }
        if base.contains(o) {
            assert(before.contains(o));
        }
        if exists|g: Face|
            g.spec_index() < f.spec_index() + 1 && !w0.spec_block(
                #[trigger] spec_face_neighbor(loc, g),
            ).spec_is_empty() && o == spec_chunk_origin(spec_face_neighbor(loc, g)) {
            let g = choose|g: Face|
                g.spec_index() < f.spec_index() + 1 && !w0.spec_block(
                    #[trigger] spec_face_neighbor(loc, g),
                ).spec_is_empty() && o == spec_chunk_origin(spec_face_neighbor(loc, g));
            if g.spec_index() < f.spec_index() {
                assert(before.contains(o));
            } else {
                assert(g == f);
                assert(after.contains(o));
            }
        }
    }
}

/// The visibility bits recomputation assigns at `loc`, counting only faces
/// with index below `upto`: the bit of each face whose neighbor reads empty.
/// Face bits are disjoint, so the bits sum.
pub open spec fn spec_neighbor_visibility_upto(w: World, loc: WorldPoint, upto: int) -> u8 {
    ((if 0 < upto && w.spec_block(spec_face_neighbor(loc, Face::Top)).spec_is_empty() {
        VISIBLE_TOP as int
    } else {
        0
    }) + (if 1 < upto && w.spec_block(spec_face_neighbor(loc, Face::Bottom)).spec_is_empty() {
        VISIBLE_BOTTOM as int
    } else {
        0
    }) + (if 2 < upto && w.spec_block(spec_face_neighbor(loc, Face::Left)).spec_is_empty() {
        VISIBLE_LEFT as int
    } else {
        0
    }) + (if 3 < upto && w.spec_block(spec_face_neighbor(loc, Face::Right)).spec_is_empty() {
        VISIBLE_RIGHT as int
    } else {
        0
    }) + (if 4 < upto && w.spec_block(spec_face_neighbor(loc, Face::Front)).spec_is_empty() {
        VISIBLE_FRONT as int
    } else {
        0
    }) + (if 5 < upto && w.spec_block(spec_face_neighbor(loc, Face::Back)).spec_is_empty() {
        VISIBLE_BACK as int
    } else {
        0
    })) as u8
}

/// The visibility bits a full recomputation assigns at `loc`: exactly the
/// faces whose neighbor reads empty.
pub open spec fn spec_neighbor_visibility(w: World, loc: WorldPoint) -> u8 {
    spec_neighbor_visibility_upto(w, loc, 6)
}

/// One face's contribution to the visibility accumulator: the bits
/// gathered so far are disjoint from the face's own bit, which is added
/// exactly when the neighbor reads empty.
#[verifier::rlimit(100)]
#[verifier::spinoff_prover]
proof fn lemma_visibility_upto_step(w: World, loc: WorldPoint, f: Face)
    ensures
        spec_neighbor_visibility_upto(w, loc, f.spec_index()) & f.spec_mask() == 0,
        spec_neighbor_visibility_upto(w, loc, f.spec_index()) + f.spec_mask() < 256,
        w.spec_block(spec_face_neighbor(loc, f)).spec_is_empty()
            ==> spec_neighbor_visibility_upto(w, loc, f.spec_index() + 1)
            == spec_neighbor_visibility_upto(w, loc, f.spec_index()) + f.spec_mask(),
        !w.spec_block(spec_face_neighbor(loc, f)).spec_is_empty()
            ==> spec_neighbor_visibility_upto(w, loc, f.spec_index() + 1)
            == spec_neighbor_visibility_upto(w, loc, f.spec_index()),
{
    let b0 = w.spec_block(spec_face_neighbor(loc, Face::Top)).spec_is_empty();
    let b1 = w.spec_block(spec_face_neighbor(loc, Face::Bottom)).spec_is_empty();
    let b2 = w.spec_block(spec_face_neighbor(loc, Face::Left)).spec_is_empty();
    let b3 = w.spec_block(spec_face_neighbor(loc, Face::Right)).spec_is_empty();
    let b4 = w.spec_block(spec_face_neighbor(loc, Face::Front)).spec_is_empty();
    match f {
        Face::Top => {
            assert(spec_neighbor_visibility_upto(w, loc, 0) == 0);
            assert(0u8 & 1u8 == 0u8) by (bit_vector);
        }
        Face::Bottom => {
            assert((((if b0 { 1int } else { 0int })) as u8) & 2 == 0) by (bit_vector);
            assert(spec_neighbor_visibility_upto(w, loc, 1) == ((if b0 { 1int } else { 0int }))
                as u8);
        }
        Face::Left => {
            assert((((if b0 { 1int } else { 0int }) + (if b1 { 2int } else { 0int })) as u8) & 8
                == 0) by (bit_vector);
            assert(spec_neighbor_visibility_upto(w, loc, 2) == ((if b0 { 1int } else { 0int }) + (
            if b1 { 2int } else { 0int })) as u8);
        }
        Face::Right => {
            assert((((if b0 { 1int } else { 0int }) + (if b1 { 2int } else { 0int }) + (if b2 {
                8int
            } else {
                0int
            })) as u8) & 4 == 0) by (bit_vector);
            assert(spec_neighbor_visibility_upto(w, loc, 3) == ((if b0 { 1int } else { 0int }) + (
            if b1 { 2int } else { 0int }) + (if b2 { 8int } else { 0int })) as u8);
        }
        Face::Front => {
            assert((((if b0 { 1int } else { 0int }) + (if b1 { 2int } else { 0int }) + (if b2 {
                8int
            } else {
                0int
            }) + (if b3 { 4int } else { 0int })) as u8) & 16 == 0) by (bit_vector);
            assert(spec_neighbor_visibility_upto(w, loc, 4) == ((if b0 { 1int } else { 0int }) + (
            if b1 { 2int } else { 0int }) + (if b2 { 8int } else { 0int }) + (if b3 {
                4int
            } else {
                0int
            })) as u8);
        }
        Face::Back => {
            assert((((if b0 { 1int } else { 0int }) + (if b1 { 2int } else { 0int }) + (if b2 {
                8int
            } else {
                0int
            }) + (if b3 { 4int } else { 0int }) + (if b4 { 16int } else { 0int })) as u8) & 32
                == 0) by (bit_vector);
            assert(spec_neighbor_visibility_upto(w, loc, 5) == ((if b0 { 1int } else { 0int }) + (
            if b1 { 2int } else { 0int }) + (if b2 { 8int } else { 0int }) + (if b3 {
                4int
            } else {
                0int
            }) + (if b4 { 16int } else { 0int })) as u8);
        }
    }
}

/// The neighbor across `f` of a just-placed block: an occupied neighbor has
/// the face pointing back at `loc` marked hidden; an empty one is untouched.
pub open spec fn spec_place_neighbor(w0: World, loc: WorldPoint, f: Face) -> Block {
    let b = w0.spec_block(spec_face_neighbor(loc, f));
    if b.spec_is_empty() {
        b
    } else {
        Block {
            id: b.id,
            visibility: FaceVisibility(b.visibility.0 & !f.spec_opposite().spec_mask()),
            light: b.light,
        }
    }
}

/// The block placement leaves at `q` after handling the faces with index
/// below `upto`; `loc` itself is written after all six.
pub open spec fn spec_place_partial(w0: World, loc: WorldPoint, upto: int, q: WorldPoint) -> Block {
    if q == spec_face_neighbor(loc, Face::Top) && 0 < upto {
        spec_place_neighbor(w0, loc, Face::Top)
    } else if q == spec_face_neighbor(loc, Face::Bottom) && 1 < upto {
        spec_place_neighbor(w0, loc, Face::Bottom)
    } else if q == spec_face_neighbor(loc, Face::Left) && 2 < upto {
        spec_place_neighbor(w0, loc, Face::Left)
    } else if q == spec_face_neighbor(loc, Face::Right) && 3 < upto {
        spec_place_neighbor(w0, loc, Face::Right)
    } else if q == spec_face_neighbor(loc, Face::Front) && 4 < upto {
        spec_place_neighbor(w0, loc, Face::Front)
    } else if q == spec_face_neighbor(loc, Face::Back) && 5 < upto {
        spec_place_neighbor(w0, loc, Face::Back)
    } else {
        w0.spec_block(q)
    }
}

/// The world's block at `q` after `place_block(loc, id)`: the new block at
/// `loc` carries the bits of its empty-bordering faces and full light; each
/// occupied neighbor loses the bit of the face now covered; the rest of a
/// chunk the write had to create holds the fresh unset fill.
pub open spec fn spec_place_result(w0: World, loc: WorldPoint, id: BlockID, q: WorldPoint) -> Block {
    if q == loc {
        Block {
            id,
            visibility: FaceVisibility(spec_neighbor_visibility(w0, loc)),
            light: LightKind::Source((SunLightLevel(15), LightLevel(15))),
        }
    } else if q == spec_face_neighbor(loc, Face::Top) && !w0.spec_block(q).spec_is_empty() {
        spec_place_neighbor(w0, loc, Face::Top)
    } else if q == spec_face_neighbor(loc, Face::Bottom) && !w0.spec_block(q).spec_is_empty() {
        spec_place_neighbor(w0, loc, Face::Bottom)
    } else if q == spec_face_neighbor(loc, Face::Left) && !w0.spec_block(q).spec_is_empty() {
        spec_place_neighbor(w0, loc, Face::Left)
    } else if q == spec_face_neighbor(loc, Face::Right) && !w0.spec_block(q).spec_is_empty() {
        spec_place_neighbor(w0, loc, Face::Right)
    } else if q == spec_face_neighbor(loc, Face::Front) && !w0.spec_block(q).spec_is_empty() {
        spec_place_neighbor(w0, loc, Face::Front)
    } else if q == spec_face_neighbor(loc, Face::Back) && !w0.spec_block(q).spec_is_empty() {
        spec_place_neighbor(w0, loc, Face::Back)
    } else {
        spec_after_create_block(w0, loc, q)
    }
}

/// The neighbor across `f` of a just-broken block: an occupied neighbor
/// gains the bit of the face now exposed; an empty one is untouched.
pub open spec fn spec_break_neighbor(w0: World, loc: WorldPoint, f: Face) -> Block {
    let b = w0.spec_block(spec_face_neighbor(loc, f));
    if b.spec_is_empty() {
        b
    } else {
        Block {
            id: b.id,
            visibility: FaceVisibility(b.visibility.0 | f.spec_opposite().spec_mask()),
            light: b.light,
        }
    }
}

/// The block breakage leaves at `q` after emptying `loc` and handling the
/// faces with index below `upto`. An empty neighbor is untouched, so it
/// keeps whatever emptying `loc` left there (the fresh unset fill if the
/// write created the chunk).
pub open spec fn spec_break_partial(w0: World, loc: WorldPoint, upto: int, q: WorldPoint) -> Block {
    if q == loc {
        Block {
            id: BlockID(0),
            visibility: FaceVisibility(VISIBLE_NONE),
            light: LightKind::Source((SunLightLevel(15), LightLevel(15))),
        }
    } else if q == spec_face_neighbor(loc, Face::Top) && 0 < upto && !w0.spec_block(
        q,
    ).spec_is_empty() {
        spec_break_neighbor(w0, loc, Face::Top)
    } else if q == spec_face_neighbor(loc, Face::Bottom) && 1 < upto && !w0.spec_block(
        q,
    ).spec_is_empty() {
        spec_break_neighbor(w0, loc, Face::Bottom)
    } else if q == spec_face_neighbor(loc, Face::Left) && 2 < upto && !w0.spec_block(
        q,
    ).spec_is_empty() {
        spec_break_neighbor(w0, loc, Face::Left)
    } else if q == spec_face_neighbor(loc, Face::Right) && 3 < upto && !w0.spec_block(
        q,
    ).spec_is_empty() {
        spec_break_neighbor(w0, loc, Face::Right)
    } else if q == spec_face_neighbor(loc, Face::Front) && 4 < upto && !w0.spec_block(
        q,
    ).spec_is_empty() {
        spec_break_neighbor(w0, loc, Face::Front)
    } else if q == spec_face_neighbor(loc, Face::Back) && 5 < upto && !w0.spec_block(
        q,
    ).spec_is_empty() {
        spec_break_neighbor(w0, loc, Face::Back)
    } else {
        spec_after_create_block(w0, loc, q)
    }
}

/// The world's block at `q` after `break_block(loc)`.
pub open spec fn spec_break_result(w0: World, loc: WorldPoint, q: WorldPoint) -> Block {
    spec_break_partial(w0, loc, 6, q)
}

/// The block the visibility/light fix-up pass leaves at `q`: a non-empty
/// resident block keeps its identity, has its visible faces recomputed from
/// its neighbors, and is fully lit; everything else is untouched.
pub open spec fn spec_fixed_block(w0: World, q: WorldPoint) -> Block {
    if w0.spec_has_chunk(spec_chunk_origin(q)) && !w0.spec_block(q).spec_is_empty() {
        Block {
            id: w0.spec_block(q).id,
            visibility: FaceVisibility(spec_neighbor_visibility(w0, q)),
            light: LightKind::Source((SunLightLevel(15), LightLevel(15))),
        }
    } else {
        w0.spec_block(q)
    }
}

/// Recomputed visibility depends only on which neighbors are empty.
proof fn lemma_neighbor_visibility_same_ids(w1: World, w2: World, loc: WorldPoint)
    requires
        forall|f: Face|
            w1.spec_block(#[trigger] spec_face_neighbor(loc, f)).spec_is_empty() == w2.spec_block(
                spec_face_neighbor(loc, f),
            ).spec_is_empty(),
    ensures
        spec_neighbor_visibility(w1, loc) == spec_neighbor_visibility(w2, loc),
{
    assert(w1.spec_block(spec_face_neighbor(loc, Face::Top)).spec_is_empty() == w2.spec_block(
        spec_face_neighbor(loc, Face::Top),
    ).spec_is_empty());
    assert(w1.spec_block(spec_face_neighbor(loc, Face::Bottom)).spec_is_empty() == w2.spec_block(
        spec_face_neighbor(loc, Face::Bottom),
    ).spec_is_empty());
    assert(w1.spec_block(spec_face_neighbor(loc, Face::Left)).spec_is_empty() == w2.spec_block(
        spec_face_neighbor(loc, Face::Left),
    ).spec_is_empty());
    assert(w1.spec_block(spec_face_neighbor(loc, Face::Right)).spec_is_empty() == w2.spec_block(
        spec_face_neighbor(loc, Face::Right),
    ).spec_is_empty());
    assert(w1.spec_block(spec_face_neighbor(loc, Face::Front)).spec_is_empty() == w2.spec_block(
        spec_face_neighbor(loc, Face::Front),
    ).spec_is_empty());
    assert(w1.spec_block(spec_face_neighbor(loc, Face::Back)).spec_is_empty() == w2.spec_block(
        spec_face_neighbor(loc, Face::Back),
    ).spec_is_empty());
}

/// The chunk origin sits far enough from the coordinate limits that every
/// cell of the chunk has six in-range neighbors.
pub open spec fn spec_interior_origin(o: WorldPoint) -> bool {
    &&& i32::MIN < o.x && o.x + 16 < i32::MAX
    &&& i32::MIN < o.y && o.y + 16 < i32::MAX
    &&& i32::MIN < o.z && o.z + 16 < i32::MAX
}

/// The chunk-array cell index of `q` within its chunk.
pub open spec fn spec_cell_index(q: WorldPoint) -> int {
    crate::chunk::spec_local_index(
        q.x - spec_chunk_origin(q).x,
        q.y - spec_chunk_origin(q).y,
        q.z - spec_chunk_origin(q).z,
    )
}

/// A chunk-local offset from an aligned origin lands in that chunk, at the
/// cell index that encodes the offset.
pub proof fn lemma_chunk_origin_offset(origin: WorldPoint, i: int, j: int, k: int)
    requires
        spec_aligned_point(origin),
        crate::chunk::spec_in_local_bounds(i, j, k),
    ensures
        spec_chunk_origin(crate::chunk::spec_offset_point(origin, i, j, k)) == origin,
        spec_cell_index(crate::chunk::spec_offset_point(origin, i, j, k))
            == crate::chunk::spec_local_index(i, j, k),
{
    lemma_aligned_near_max(origin.x);
    lemma_aligned_near_max(origin.y);
    lemma_aligned_near_max(origin.z);
    let q = crate::chunk::spec_offset_point(origin, i, j, k);
    vstd::arithmetic::div_mod::lemma_mod_add_multiples_vanish(i, 16);
    vstd::arithmetic::div_mod::lemma_mod_add_multiples_vanish(j, 16);
    vstd::arithmetic::div_mod::lemma_mod_add_multiples_vanish(k, 16);
    assert(q.x as int == origin.x + i);
    assert((origin.x + i) % 16 == i) by {
        vstd::arithmetic::div_mod::lemma_mod_multiples_vanish(origin.x as int / 16, i, 16);
        vstd::arithmetic::div_mod::lemma_fundamental_div_mod(origin.x as int, 16);
        vstd::arithmetic::div_mod::lemma_small_mod(i as nat, 16);
    }
    assert((origin.y + j) % 16 == j) by {
        vstd::arithmetic::div_mod::lemma_mod_multiples_vanish(origin.y as int / 16, j, 16);
        vstd::arithmetic::div_mod::lemma_fundamental_div_mod(origin.y as int, 16);
        vstd::arithmetic::div_mod::lemma_small_mod(j as nat, 16);
    }
    assert((origin.z + k) % 16 == k) by {
        vstd::arithmetic::div_mod::lemma_mod_multiples_vanish(origin.z as int / 16, k, 16);
        vstd::arithmetic::div_mod::lemma_fundamental_div_mod(origin.z as int, 16);
        vstd::arithmetic::div_mod::lemma_small_mod(k as nat, 16);
    }
}

/// A point whose chunk is resident has a cell index inside the chunk array.
pub proof fn lemma_cell_index_bounds(q: WorldPoint)
    ensures
        0 <= spec_cell_index(q) < CHUNK_VOLUME,
        crate::chunk::spec_in_local_bounds(
            q.x - spec_chunk_origin(q).x,
            q.y - spec_chunk_origin(q).y,
            q.z - spec_chunk_origin(q).z,
        ),
{
    lemma_chunk_origin_alignment(q);
}

/// A chunk origin and cell index determine the point.
proof fn lemma_cell_point_unique(q1: WorldPoint, q2: WorldPoint)
    requires
        spec_chunk_origin(q1) == spec_chunk_origin(q2),
        spec_cell_index(q1) == spec_cell_index(q2),
    ensures
        q1 == q2,
{
    let o = spec_chunk_origin(q1);
    lemma_chunk_origin_alignment(q1);
    lemma_chunk_origin_alignment(q2);
    crate::chunk::lemma_local_index_injective(
        q1.x - o.x,
        q1.y - o.y,
        q1.z - o.z,
        q2.x - o.x,
        q2.y - o.y,
        q2.z - o.z,
    );
}

/// The fix-up pass has handled `q` once it has finished every chunk before
/// index `ci` and the cells of chunk `ci` before `li`.
pub open spec fn spec_fix_processed(w0: World, ci: int, li: int, q: WorldPoint) -> bool {
    &&& w0.spec_has_chunk(spec_chunk_origin(q))
    &&& {
        let c = w0.spec_chunk_index(spec_chunk_origin(q));
        c < ci || (c == ci && spec_cell_index(q) < li)
    }
}

/// The block the fix-up pass holds at `q` after handling the cells before
/// `(ci, li)`.
pub open spec fn spec_fix_partial(w0: World, ci: int, li: int, q: WorldPoint) -> Block {
    if spec_fix_processed(w0, ci, li, q) {
        spec_fixed_block(w0, q)
    } else {
        w0.spec_block(q)
    }
}

/// Advancing the fix-up pass by one cell marks exactly that cell's point
/// as handled.
proof fn lemma_fix_processed_step(w0: World, ci: int, li: int, loc: WorldPoint)
    requires
        w0.wf(),
        0 <= ci < w0.chunks@.len(),
        0 <= li < CHUNK_VOLUME,
        spec_chunk_origin(loc) == w0.chunks@[ci].origin,
        spec_cell_index(loc) == li,
    ensures
        forall|q: WorldPoint|
            #[trigger] spec_fix_processed(w0, ci, li + 1, q) <==> (spec_fix_processed(
                w0,
                ci,
                li,
                q,
            ) || q == loc),
{
    w0.lemma_chunk_index_of(ci);
    assert forall|q: WorldPoint|
        #[trigger] spec_fix_processed(w0, ci, li + 1, q) <==> (spec_fix_processed(w0, ci, li, q)
            || q == loc) by {
        if spec_fix_processed(w0, ci, li + 1, q) && !spec_fix_processed(w0, ci, li, q) {
            assert(w0.spec_chunk_index(spec_chunk_origin(q)) == ci);
            lemma_index_unique(w0, ci);
            assert(w0.spec_chunk_at(spec_chunk_origin(q)) == w0.chunks@[ci]);
            assert(spec_chunk_origin(q) == w0.chunks@[ci].origin) by {
                let cq = w0.spec_chunk_index(spec_chunk_origin(q));
                assert(w0.chunks@[cq].origin == spec_chunk_origin(q));
            }
            assert(spec_cell_index(q) == li);
            lemma_cell_point_unique(q, loc);
        }
    }
}

/// Finishing one chunk's cells is the same as standing at the start of the
/// next chunk.
proof fn lemma_fix_processed_next_chunk(w0: World, ci: int)
    requires
        w0.wf(),
    ensures
        forall|q: WorldPoint|
            #[trigger] spec_fix_processed(w0, ci, CHUNK_VOLUME as int, q) <==> spec_fix_processed(
                w0,
                ci + 1,
                0,
                q,
            ),
{
    assert forall|q: WorldPoint|
        #[trigger] spec_fix_processed(w0, ci, CHUNK_VOLUME as int, q) <==> spec_fix_processed(
            w0,
            ci + 1,
            0,
            q,
        ) by {
        lemma_cell_index_bounds(q);
    }
}

/// The intermediate states of the fix-up pass never change which blocks
/// are empty.
proof fn lemma_fix_partial_preserves_empty(w0: World, w1: World, ci: int, li: int)
    requires
        forall|q: WorldPoint| #[trigger] w1.spec_block(q) == spec_fix_partial(w0, ci, li, q),
    ensures
        forall|q: WorldPoint|
            #[trigger] w1.spec_block(q).spec_is_empty() == w0.spec_block(q).spec_is_empty(),
{
    assert forall|q: WorldPoint|
        #[trigger] w1.spec_block(q).spec_is_empty() == w0.spec_block(q).spec_is_empty() by {
        assert(w1.spec_block(q) == spec_fix_partial(w0, ci, li, q));
    }
}

/// `o` is a chunk origin of the region `[lo, hi)`: chunk-aligned and inside
/// the box on every axis.
pub open spec fn spec_region_contains(lo: WorldPoint, hi: WorldPoint, o: WorldPoint) -> bool {
    &&& spec_aligned_point(o)
    &&& lo.x <= o.x < hi.x
    &&& lo.y <= o.y < hi.y
    &&& lo.z <= o.z < hi.z
}

/// The region bounds stay well inside the coordinate range, so every chunk
/// of the region is interior and the stride arithmetic cannot overflow.
pub open spec fn spec_region_bounds_ok(lo: WorldPoint, hi: WorldPoint) -> bool {
    &&& -0x4000_0000 <= lo.x && hi.x <= 0x4000_0000
    &&& -0x4000_0000 <= lo.y && hi.y <= 0x4000_0000
    &&& -0x4000_0000 <= lo.z && hi.z <= 0x4000_0000
}

/// Between two multiples of the chunk size there is no strictly closer gap
/// than the chunk size itself.
proof fn lemma_aligned_gap(a: int, b: int)
    requires
        a % 16 == 0,
        b % 16 == 0,
        b < a,
    ensures
        b + 16 <= a,
{
    vstd::arithmetic::div_mod::lemma_fundamental_div_mod(a, 16);
    vstd::arithmetic::div_mod::lemma_fundamental_div_mod(b, 16);
    vstd::arithmetic::div_mod::lemma_div_is_ordered(b, a, 16);
    if a / 16 == b / 16 {
    } else {
        assert(a / 16 >= b / 16 + 1);
    }
}

/// Lists the chunk origins of the region `[lo, hi)`, each exactly once:
/// the box is strided by the chunk size on every axis.
pub fn region_chunk_origins(lo: WorldPoint, hi: WorldPoint) -> (r: Vec<WorldPoint>)
    requires
        spec_aligned_point(lo),
        spec_aligned_point(hi),
        spec_region_bounds_ok(lo, hi),
    ensures
        forall|o: WorldPoint| r@.contains(o) <==> spec_region_contains(lo, hi, o),
        forall|i: int, j: int| 0 <= i < j < r@.len() ==> r@[i] != r@[j],
{
    let mut r: Vec<WorldPoint> = Vec::new();
    let mut x = lo.x;
    while x < hi.x
        invariant
            spec_aligned_point(lo),
            spec_aligned_point(hi),
            spec_region_bounds_ok(lo, hi),
            spec_aligned(x as int),
            lo.x <= x,
            x <= 0x4000_0000 || x == lo.x,
            forall|o: WorldPoint|
                r@.contains(o) <==> (spec_region_contains(lo, hi, o) && o.x < x),
            forall|i: int, j: int| 0 <= i < j < r@.len() ==> r@[i] != r@[j],
        decreases hi.x - x,
    {
        let mut y = lo.y;
        while y < hi.y
            invariant
                spec_aligned_point(lo),
                spec_aligned_point(hi),
                spec_region_bounds_ok(lo, hi),
                spec_aligned(x as int),
                spec_aligned(y as int),
                lo.x <= x < hi.x,
                lo.y <= y,
                y <= 0x4000_0000 || y == lo.y,
                forall|o: WorldPoint|
                    r@.contains(o) <==> (spec_region_contains(lo, hi, o) && (o.x < x || (o.x == x
                        && o.y < y))),
                forall|i: int, j: int| 0 <= i < j < r@.len() ==> r@[i] != r@[j],
            decreases hi.y - y,
        {
            let mut z = lo.z;
            while z < hi.z
                invariant
                    spec_aligned_point(lo),
                    spec_aligned_point(hi),
                    spec_region_bounds_ok(lo, hi),
                    spec_aligned(x as int),
                    spec_aligned(y as int),
                    spec_aligned(z as int),
                    lo.x <= x < hi.x,
                    lo.y <= y < hi.y,
                    lo.z <= z,
                    z <= 0x4000_0000 || z == lo.z,
                    forall|o: WorldPoint|
                        r@.contains(o) <==> (spec_region_contains(lo, hi, o) && (o.x < x || (o.x
                            == x && (o.y < y || (o.y == y && o.z < z))))),
                    forall|i: int, j: int| 0 <= i < j < r@.len() ==> r@[i] != r@[j],
                decreases hi.z - z,
            {
                let p = WorldPoint { x, y, z };
                let ghost r0 = r@;
                r.push(p);
                proof {
                    assert forall|o: WorldPoint|
                        r@.contains(o) <==> (spec_region_contains(lo, hi, o) && (o.x < x || (o.x
                            == x && (o.y < y || (o.y == y && o.z < z + 16))))) by {
                        if r@.contains(o) {
                            let i = choose|i: int| 0 <= i < r@.len() && r@[i] == o;
                            if i < r0.len() {
                                assert(r0[i] == o);
                                assert(r0.contains(o));
                            } else {
                                assert(o == p);
                            }
                        }
                        if spec_region_contains(lo, hi, o) && (o.x < x || (o.x == x && (o.y < y
                            || (o.y == y && o.z < z + 16)))) {
                            if o.x == x && o.y == y && z <= o.z < z + 16 {
                                if o.z > z {
                                    lemma_aligned_gap(o.z as int, z as int);
                                }
                                assert(o == p);
                                assert(r@[r0.len() as int] == o);
                            } else {
                                assert(r0.contains(o));
                                let i = choose|i: int| 0 <= i < r0.len() && r0[i] == o;
                                assert(r@[i] == o);
                            }
                        }
                    }
                    assert forall|i: int, j: int|
                        0 <= i < j < r@.len() implies r@[i] != r@[j] by {
                        if j == r0.len() {
                            assert(r0[i] == r@[i]);
                            assert(!r0.contains(p)) by {
                                if r0.contains(p) {
                                }
                            }
                            if r@[i] == p {
                                assert(r0.contains(p));
                            }
                        }
                    }
                }
                z = z + 16;
            }
            proof {
                assert forall|o: WorldPoint|
                    r@.contains(o) <==> (spec_region_contains(lo, hi, o) && (o.x < x || (o.x == x
                        && o.y < y + 16))) by {
                    if spec_region_contains(lo, hi, o) && o.x == x && y <= o.y < y + 16 {
                        if o.y > y {
                            lemma_aligned_gap(o.y as int, y as int);
                        }
                        assert(o.y == y);
                    }
                }
            }
            y = y + 16;
        }
        proof {
            assert forall|o: WorldPoint|
                r@.contains(o) <==> (spec_region_contains(lo, hi, o) && o.x < x + 16) by {
                if spec_region_contains(lo, hi, o) && x <= o.x < x + 16 {
                    if o.x > x {
                        lemma_aligned_gap(o.x as int, x as int);
                    }
                    assert(o.x == x);
                }
            }
        }
        x = x + 16;
    }
    proof {
        assert forall|o: WorldPoint|
            r@.contains(o) <==> spec_region_contains(lo, hi, o) by {
            if spec_region_contains(lo, hi, o) {
                assert(o.x < hi.x <= x + 0);
            }
        }
    }
    r
}

/// The authoritative world state: resident chunks, the block catalog, and
/// the queue of dirty chunk origins awaiting remesh.
pub struct World {
    pub chunks: Vec<Chunk>,
    pub registry: Registry,
    pub dirty_chunks: Vec<WorldPoint>,
}

impl World {
    /// A chunk with origin `o` is resident.
    pub open spec fn spec_has_chunk(self, o: WorldPoint) -> bool {
        exists|ci: int|
            0 <= ci < self.chunks@.len() && (#[trigger] self.chunks@[ci]).origin == o
    }

    /// The index of the resident chunk with origin `o`; meaningful only
    /// when `spec_has_chunk(o)` holds, unique under `wf`.
    pub open spec fn spec_chunk_index(self, o: WorldPoint) -> int {
        choose|ci: int|
            0 <= ci < self.chunks@.len() && (#[trigger] self.chunks@[ci]).origin == o
    }

    /// The resident chunk with origin `o`.
    pub open spec fn spec_chunk_at(self, o: WorldPoint) -> Chunk {
        self.chunks@[self.spec_chunk_index(o)]
    }

    /// The block at world coordinate `loc`: the stored block if its chunk
    /// is resident, and empty space otherwise.
    pub open spec fn spec_block(self, loc: WorldPoint) -> Block {
        if self.spec_has_chunk(spec_chunk_origin(loc)) {
            self.spec_chunk_at(spec_chunk_origin(loc)).spec_block(loc)
        } else {
            spec_empty_block()
        }
    }

    /// The chunk at origin `o` is resident and flagged dirty.
    pub open spec fn spec_is_dirty(self, o: WorldPoint) -> bool {
        self.spec_has_chunk(o) && self.spec_chunk_at(o).dirty
    }

    /// Structural invariant: chunks are well-formed with distinct origins,
    /// and the dirty queue lists exactly the dirty chunks' origins, each at
    /// most once between remesh consumptions.
    pub open spec fn wf(self) -> bool {
        &&& forall|ci: int| 0 <= ci < self.chunks@.len() ==> (#[trigger] self.chunks@[ci]).wf()
        &&& forall|ci: int, cj: int|
            0 <= ci < cj < self.chunks@.len() ==> (#[trigger] self.chunks@[ci]).origin != (
            #[trigger] self.chunks@[cj]).origin
        &&& forall|qi: int, qj: int|
            0 <= qi < qj < self.dirty_chunks@.len() ==> #[trigger] self.dirty_chunks@[qi]
                != #[trigger] self.dirty_chunks@[qj]
        &&& forall|qi: int|
            0 <= qi < self.dirty_chunks@.len() ==> self.spec_is_dirty(
                #[trigger] self.dirty_chunks@[qi],
            )
        &&& forall|ci: int|
            0 <= ci < self.chunks@.len() && (#[trigger] self.chunks@[ci]).dirty
                ==> self.dirty_chunks@.contains(self.chunks@[ci].origin)
    }

    /// Under `wf`, the index of a resident origin is the only one carrying
    /// that origin.
    pub proof fn lemma_chunk_index_of(self, ci: int)
        requires
            self.wf(),
            0 <= ci < self.chunks@.len(),
        ensures
            self.spec_has_chunk(self.chunks@[ci].origin),
            self.spec_chunk_index(self.chunks@[ci].origin) == ci,
            self.spec_chunk_at(self.chunks@[ci].origin) == self.chunks@[ci],
    {
        let o = self.chunks@[ci].origin;
        assert(self.spec_has_chunk(o));
        let cj = self.spec_chunk_index(o);
        if cj != ci {
            if cj < ci {
                assert(self.chunks@[cj].origin != self.chunks@[ci].origin);
            } else {
                assert(self.chunks@[ci].origin != self.chunks@[cj].origin);
            }
        }
    }

    /// An empty world holding the fixed block catalog.
    pub fn new() -> (r: World)
        ensures
            r.wf(),
            r.chunks@.len() == 0,
            r.dirty_chunks@.len() == 0,
            r.registry.wf(),
            spec_default_catalog(r.registry),
    {
        World { chunks: Vec::new(), registry: Registry::new(), dirty_chunks: Vec::new() }
    }

    /// Index of the resident chunk with origin `o`, if any.
    fn find_chunk(&self, o: WorldPoint) -> (r: Option<usize>)
        ensures
            match r {
                Some(ci) => ci < self.chunks@.len() && self.chunks@[ci as int].origin == o,
                None => !self.spec_has_chunk(o),
            },
    {
        let mut ci: usize = 0;
        let n = self.chunks.len();
        while ci < n
            invariant
                ci <= n,
                n == self.chunks@.len(),
                forall|j: int| 0 <= j < ci ==> (#[trigger] self.chunks@[j]).origin != o,
            decreases n - ci,
        {
            if self.chunks[ci].origin == o {
                return Some(ci);
            }
            ci = ci + 1;
        }
        None
    }

    /// True when the chunk at origin `o` is resident.
    pub fn has_chunk(&self, o: WorldPoint) -> (r: bool)
        ensures
            r == self.spec_has_chunk(o),
    {
        self.find_chunk(o).is_some()
    }

    /// Reads the block at `loc`; a coordinate in an unloaded chunk reads as
    /// empty space.
    pub fn get_block(&self, loc: WorldPoint) -> (r: Block)
        requires
            self.wf(),
        ensures
            r == self.spec_block(loc),
    {
        let chunk_origin = find_chunk_origin(loc);
        match self.find_chunk(chunk_origin) {
            Some(ci) => {
                let chunk = &self.chunks[ci];
                proof {
                    self.lemma_chunk_index_of(ci as int);
                    lemma_chunk_origin_alignment(loc);
                }
                chunk.get_block(loc)
            }
            None => Block::from_id(BlockID(0), FaceVisibility(VISIBLE_NONE), solid_no_light()),
        }
    }

    /// Writes one block at `loc`, creating the owning chunk if it is not
    /// resident. Every write marks the owning chunk dirty and enqueues its
    /// origin for remesh if it was not already queued; a freshly created
    /// chunk is therefore enqueued along with its first write.
    pub fn set_block_immediate(&mut self, loc: WorldPoint, block: Block)
        requires
            old(self).wf(),
        ensures
            final(self).wf(),
            final(self).registry == old(self).registry,
            final(self).spec_block(loc) == block,
            forall|q: WorldPoint|
                q != loc ==> final(self).spec_block(q) == spec_after_create_block(
                    *old(self),
                    loc,
                    q,
                ),
            forall|o: WorldPoint|
                final(self).spec_has_chunk(o) <==> (old(self).spec_has_chunk(o) || o
                    == spec_chunk_origin(loc)),
            final(self).dirty_chunks@.to_set() == old(self).dirty_chunks@.to_set().insert(
                spec_chunk_origin(loc),
            ),
            final(self).spec_is_dirty(spec_chunk_origin(loc)),
            forall|o: WorldPoint|
                o != spec_chunk_origin(loc) ==> final(self).spec_is_dirty(o) == old(
                    self,
                ).spec_is_dirty(o),
            forall|i: int|
                0 <= i < old(self).chunks@.len() ==> (#[trigger] final(self).chunks@[i]).origin
                    == old(self).chunks@[i].origin,
            old(self).spec_has_chunk(spec_chunk_origin(loc)) ==> final(self).chunks@.len() == old(
                self,
            ).chunks@.len(),
    {
        let chunk_origin = find_chunk_origin(loc);
        proof {
            lemma_chunk_origin_alignment(loc);
        }
        match self.find_chunk(chunk_origin) {
            Some(ci) => {
                proof {
                    self.lemma_chunk_index_of(ci as int);
                }
                let ghost w0 = *self;
                self.chunks[ci].set_block_immediate(loc, block);
                let was_dirty = self.chunks[ci].dirty;
                if !was_dirty {
                    self.chunks[ci].dirty = true;
                    self.dirty_chunks.push(chunk_origin);
                }
                proof {
                    let w1 = *self;
                    lemma_chunks_update_frame(w0, w1, ci as int);
                    lemma_block_update_frame(w0, w1, ci as int, loc, block);
                    assert forall|q: WorldPoint| q != loc implies #[trigger] w1.spec_block(q)
                        == spec_after_create_block(w0, loc, q) by {
                        assert(w1.spec_block(q) == w0.spec_block(q));
                    }
                    if was_dirty {
                        assert(w1.dirty_chunks@.to_set() =~= w0.dirty_chunks@.to_set().insert(
                            chunk_origin,
                        )) by {
                            assert(w0.dirty_chunks@.contains(chunk_origin));
                        }
                    } else {
                        lemma_dirty_queue_push(w0.dirty_chunks@, w1.dirty_chunks@, chunk_origin);
                        assert(!w0.dirty_chunks@.contains(chunk_origin)) by {
                            if w0.dirty_chunks@.contains(chunk_origin) {
                                assert(w0.spec_is_dirty(chunk_origin));
                            }
                        }
                        assert forall|qi: int, qj: int|
                            0 <= qi < qj < self.dirty_chunks@.len() implies #[trigger] self
                            .dirty_chunks@[qi] != #[trigger] self.dirty_chunks@[qj] by {
                            if qj == w0.dirty_chunks@.len() {
                                assert(w0.dirty_chunks@.contains(w0.dirty_chunks@[qi]));
                            }
                        }
                    }
                    assert forall|qi: int| 0 <= qi < self.dirty_chunks@.len() implies self
                        .spec_is_dirty(#[trigger] self.dirty_chunks@[qi]) by {
                        let oq = self.dirty_chunks@[qi];
                        if qi < w0.dirty_chunks@.len() {
                            assert(w0.spec_is_dirty(oq));
                            if oq != chunk_origin {
                                assert(w1.spec_chunk_index(oq) == w0.spec_chunk_index(oq));
                                assert(w1.spec_chunk_at(oq) == w0.spec_chunk_at(oq));
                            }
                        } else {
                            assert(oq == chunk_origin);
                        }
                        assert(w1.spec_chunk_at(chunk_origin) == w1.chunks@[ci as int]);
                    }
                    assert forall|cj: int|
                        0 <= cj < self.chunks@.len() && (#[trigger] self.chunks@[cj]).dirty
                        implies self.dirty_chunks@.contains(self.chunks@[cj].origin) by {
                        if cj != ci {
                            assert(w0.chunks@[cj].dirty);
                            let qi = choose|qi: int|
                                0 <= qi < w0.dirty_chunks@.len() && w0.dirty_chunks@[qi] == w0
                                    .chunks@[cj].origin;
                            assert(self.dirty_chunks@[qi] == self.chunks@[cj].origin);
                        } else {
                            if was_dirty {
                                let qi = choose|qi: int|
                                    0 <= qi < w0.dirty_chunks@.len() && w0.dirty_chunks@[qi] == w0
                                        .chunks@[ci as int].origin;
                                assert(self.dirty_chunks@[qi] == self.chunks@[cj].origin);
                            } else {
                                assert(self.dirty_chunks@[w0.dirty_chunks@.len() as int] == self
                                    .chunks@[cj].origin);
                            }
                        }
                    }
                    assert(self.wf());
                }
            }
            None => {
                let ghost w0 = *self;
                let mut chunk = Chunk::new(chunk_origin);
                chunk.set_block_immediate(loc, block);
                chunk.dirty = true;
                let ghost c = chunk;
                self.chunks.push(chunk);
                self.dirty_chunks.push(chunk_origin);
                proof {
                    let w1 = *self;
                    lemma_chunks_push_frame(w0, w1, c);
                    assert(w1.spec_chunk_at(chunk_origin).spec_block(loc) == block);
                    assert forall|q: WorldPoint| q != loc implies #[trigger] w1.spec_block(q)
                        == spec_after_create_block(w0, loc, q) by {
                        lemma_chunk_origin_alignment(q);
                        if spec_chunk_origin(q) == chunk_origin {
                            lemma_distinct_points_distinct_cells(chunk_origin, q, loc);
                            assert(w1.spec_chunk_at(chunk_origin).spec_block(q)
                                == spec_unset_block());
                        }
                    }
                    lemma_dirty_queue_push(w0.dirty_chunks@, w1.dirty_chunks@, chunk_origin);
                    assert(!w0.dirty_chunks@.contains(chunk_origin)) by {
                        if w0.dirty_chunks@.contains(chunk_origin) {
                            assert(w0.spec_is_dirty(chunk_origin));
                        }
                    }
                    assert forall|qi: int, qj: int|
                        0 <= qi < qj < self.dirty_chunks@.len() implies #[trigger] self
                        .dirty_chunks@[qi] != #[trigger] self.dirty_chunks@[qj] by {
                        if qj == w0.dirty_chunks@.len() {
                            assert(w0.dirty_chunks@.contains(w0.dirty_chunks@[qi]));
                        }
                    }
                    assert forall|qi: int| 0 <= qi < self.dirty_chunks@.len() implies self
                        .spec_is_dirty(#[trigger] self.dirty_chunks@[qi]) by {
                        let oq = self.dirty_chunks@[qi];
                        if qi < w0.dirty_chunks@.len() {
                            assert(oq == w0.dirty_chunks@[qi]);
                            assert(w0.spec_is_dirty(oq));
                            assert(w1.spec_chunk_at(oq) == w0.spec_chunk_at(oq));
                        } else {
                            assert(oq == chunk_origin);
                            assert(w1.spec_chunk_at(chunk_origin) == c);
                        }
                    }
                    assert forall|cj: int|
                        0 <= cj < self.chunks@.len() && (#[trigger] self.chunks@[cj]).dirty
                        implies self.dirty_chunks@.contains(self.chunks@[cj].origin) by {
                        if cj < w0.chunks@.len() {
                            assert(w0.chunks@[cj].dirty);
                            let qi = choose|qi: int|
                                0 <= qi < w0.dirty_chunks@.len() && w0.dirty_chunks@[qi] == w0
                                    .chunks@[cj].origin;
                            assert(self.dirty_chunks@[qi] == self.chunks@[cj].origin);
                        } else {
                            assert(self.dirty_chunks@[w0.dirty_chunks@.len() as int]
                                == chunk_origin);
                        }
                    }
                    assert(w1.spec_chunk_at(chunk_origin) == c);
                    assert(self.wf());
                }
            }
        }
    }

    /// Installs a chunk read back from storage. The chunk must not collide
    /// with a resident one; it arrives clean and is not queued for remesh.
    pub fn insert_chunk(&mut self, chunk: Chunk)
        requires
            old(self).wf(),
            chunk.wf(),
            !chunk.dirty,
            !old(self).spec_has_chunk(chunk.origin),
        ensures
            final(self).wf(),
            final(self).registry == old(self).registry,
            final(self).dirty_chunks@ == old(self).dirty_chunks@,
            forall|o: WorldPoint|
                final(self).spec_has_chunk(o) <==> (old(self).spec_has_chunk(o) || o
                    == chunk.origin),
            final(self).spec_chunk_at(chunk.origin) == chunk,
            forall|o: WorldPoint|
                old(self).spec_has_chunk(o) ==> #[trigger] final(self).spec_chunk_at(o) == old(
                    self,
                ).spec_chunk_at(o),
            forall|q: WorldPoint|
                spec_chunk_origin(q) == chunk.origin ==> #[trigger] final(self).spec_block(q)
                    == chunk.spec_block(q),
            forall|q: WorldPoint|
                spec_chunk_origin(q) != chunk.origin ==> #[trigger] final(self).spec_block(q)
                    == old(self).spec_block(q),
    {
        let ghost w0 = *self;
        let ghost c = chunk;
        self.chunks.push(chunk);
        proof {
            let w1 = *self;
            lemma_chunks_push_frame(w0, w1, c);
            assert forall|qi: int| 0 <= qi < self.dirty_chunks@.len() implies self.spec_is_dirty(
                #[trigger] self.dirty_chunks@[qi],
            ) by {
                assert(w0.spec_is_dirty(w0.dirty_chunks@[qi]));
            }
            assert forall|cj: int|
                0 <= cj < self.chunks@.len() && (#[trigger] self.chunks@[cj]).dirty implies self
                .dirty_chunks@.contains(self.chunks@[cj].origin) by {
                assert(cj < w0.chunks@.len());
                assert(w0.chunks@[cj].dirty);
            }
            assert(self.wf());
        }
    }

    /// Pops at most one dirty chunk origin, clearing its dirty flag. The
    /// caller rebuilds that chunk's mesh; calling this once per frame bounds
    /// the remesh cost to one chunk regardless of how many edits occurred.
    pub fn clean_chunk(&mut self) -> (r: Option<WorldPoint>)
        requires
            old(self).wf(),
        ensures
            final(self).wf(),
            final(self).registry == old(self).registry,
            forall|q: WorldPoint| #[trigger] final(self).spec_block(q) == old(self).spec_block(q),
            forall|o: WorldPoint|
                final(self).spec_has_chunk(o) <==> old(self).spec_has_chunk(o),
            match r {
                None => {
                    &&& old(self).dirty_chunks@.len() == 0
                    &&& final(self).dirty_chunks@ == old(self).dirty_chunks@
                    &&& final(self).chunks@ == old(self).chunks@
                },
                Some(o) => {
                    &&& old(self).dirty_chunks@.len() > 0
                    &&& o == old(self).dirty_chunks@.last()
                    &&& final(self).dirty_chunks@ == old(self).dirty_chunks@.drop_last()
                    &&& old(self).spec_has_chunk(o)
                    &&& !final(self).spec_is_dirty(o)
                    &&& forall|o2: WorldPoint|
                        o2 != o ==> #[trigger] final(self).spec_is_dirty(o2) == old(
                            self,
                        ).spec_is_dirty(o2)
                },
            },
    {
        let ghost w0 = *self;
        let origin = match self.dirty_chunks.pop() {
            Some(origin) => origin,
            None => {
                return None;
            }
        };
        let ci = match self.find_chunk(origin) {
            Some(ci) => ci,
            None => {
                proof {
                    assert(w0.spec_is_dirty(w0.dirty_chunks@.last()));
                    assert(false);
                }
                return None;
            }
        };
        proof {
            w0.lemma_chunk_index_of(ci as int);
        }
        self.chunks[ci].dirty = false;
        proof {
            let w1 = *self;
            lemma_chunks_update_frame(w0, w1, ci as int);
            assert forall|q: WorldPoint| #[trigger] w1.spec_block(q) == w0.spec_block(q) by {
                let oq = spec_chunk_origin(q);
                if w0.spec_has_chunk(oq) {
                    if oq == origin {
                        assert(w1.spec_chunk_at(oq) == w1.chunks@[ci as int]);
                        assert(w1.chunks@[ci as int].blocks@ == w0.chunks@[ci as int].blocks@);
                    } else {
                        assert(w1.spec_chunk_at(oq) == w0.spec_chunk_at(oq));
                    }
                }
            }
            assert forall|qi: int| 0 <= qi < self.dirty_chunks@.len() implies self.spec_is_dirty(
                #[trigger] self.dirty_chunks@[qi],
            ) by {
                let oq = self.dirty_chunks@[qi];
                assert(oq == w0.dirty_chunks@[qi]);
                assert(w0.spec_is_dirty(oq));
                assert(oq != origin) by {
                    assert(w0.dirty_chunks@[qi] != w0.dirty_chunks@[w0.dirty_chunks@.len() - 1]);
                }
                assert(w1.spec_chunk_at(oq) == w0.spec_chunk_at(oq));
            }
            assert forall|cj: int|
                0 <= cj < self.chunks@.len() && (#[trigger] self.chunks@[cj]).dirty implies self
                .dirty_chunks@.contains(self.chunks@[cj].origin) by {
                assert(cj != ci);
                assert(w0.chunks@[cj].dirty);
                let qi = choose|qi: int|
                    0 <= qi < w0.dirty_chunks@.len() && w0.dirty_chunks@[qi] == w0.chunks@[
                        cj
                    ].origin;
                assert(qi != w0.dirty_chunks@.len() - 1) by {
                    if qi == w0.dirty_chunks@.len() - 1 {
                        assert(w0.chunks@[cj].origin == origin);
                        lemma_index_unique(w0, cj);
                    }
                }
                assert(self.dirty_chunks@[qi] == self.chunks@[cj].origin);
            }
            assert(!w1.spec_is_dirty(origin)) by {
                assert(w1.spec_chunk_at(origin) == w1.chunks@[ci as int]);
            }
            assert(self.wf());
        }
        Some(origin)
    }

    /// Serializes every resident chunk, paired with its origin, for the
    /// caller to flush to storage. Chunks are written unconditionally; the
    /// dirty queue concerns remeshing, not persistence.
    pub fn write_all_chunks(&self) -> (r: Vec<(WorldPoint, Vec<u8>)>)
        requires
            self.wf(),
        ensures
            r@.len() == self.chunks@.len(),
            forall|i: int|
                0 <= i < r@.len() ==> (#[trigger] r@[i]).0 == self.chunks@[i].origin && r@[i].1@
                    == crate::codec::spec_chunk_bytes(self.chunks@[i].blocks@),
    {
        let mut out: Vec<(WorldPoint, Vec<u8>)> = Vec::new();
        let mut ci: usize = 0;
        let n = self.chunks.len();
        while ci < n
            invariant
                ci <= n,
                n == self.chunks@.len(),
                self.wf(),
                out@.len() == ci,
                forall|i: int|
                    0 <= i < ci ==> (#[trigger] out@[i]).0 == self.chunks@[i].origin && out@[i].1@
                        == crate::codec::spec_chunk_bytes(self.chunks@[i].blocks@),
            decreases n - ci,
        {
            let chunk = &self.chunks[ci];
            let bytes = crate::codec::encode_chunk(chunk);
            out.push((chunk.origin, bytes));
            ci = ci + 1;
        }
        out
    }
    /// Places a block of kind `id` at `loc`, fully lit. Faces bordering
    /// empty space become visible on the new block; each occupied neighbor
    /// has the face it now covers marked hidden and is written back.
    #[verifier::rlimit(100)]
    #[verifier::spinoff_prover]
    pub fn place_block(&mut self, loc: WorldPoint, id: BlockID)
        requires
            old(self).wf(),
            spec_in_editable_range(loc),
        ensures
            final(self).wf(),
            final(self).registry == old(self).registry,
            forall|q: WorldPoint| #[trigger] final(self).spec_block(q) == spec_place_result(
                *old(self),
                loc,
                id,
                q,
            ),
            forall|o: WorldPoint|
                final(self).spec_has_chunk(o) <==> (old(self).spec_has_chunk(o) || o
                    == spec_chunk_origin(loc)),
            forall|o: WorldPoint|
                #[trigger] final(self).dirty_chunks@.to_set().contains(o) <==> (old(
                    self,
                ).dirty_chunks@.to_set().contains(o) || o == spec_chunk_origin(loc) || (
                exists|f: Face|
                    !old(self).spec_block(#[trigger] spec_face_neighbor(loc, f)).spec_is_empty()
                        && o == spec_chunk_origin(spec_face_neighbor(loc, f)))),
    {
        let ghost w0 = *self;
        proof {
            lemma_neighbors_distinct(loc);
        }
        let mut visibility = FaceVisibility(VISIBLE_NONE);
        let mut fi: usize = 0;
        while fi < 6
            invariant
                fi <= 6,
                self.wf(),
                w0.wf(),
                self.registry == w0.registry,
                spec_in_editable_range(loc),
                visibility.0 == spec_neighbor_visibility_upto(w0, loc, fi as int),
                forall|q: WorldPoint| #[trigger] self.spec_block(q) == spec_place_partial(
                    w0,
                    loc,
                    fi as int,
                    q,
                ),
                forall|o: WorldPoint| self.spec_has_chunk(o) <==> w0.spec_has_chunk(o),
                forall|o: WorldPoint|
                    #[trigger] self.dirty_chunks@.to_set().contains(o) <==> (w0.dirty_chunks@
                        .to_set().contains(o) || (exists|f: Face|
                        f.spec_index() < fi && !w0.spec_block(
                            #[trigger] spec_face_neighbor(loc, f),
                        ).spec_is_empty() && o == spec_chunk_origin(spec_face_neighbor(loc, f)))),
            decreases 6 - fi,
        {
            let face = Face::from_index(fi);
            let normal = face.normal();
            let neighbor_loc = WorldPoint {
                x: loc.x + normal.x,
                y: loc.y + normal.y,
                z: loc.z + normal.z,
            };
            proof {
                lemma_neighbors_distinct(loc);
                assert(neighbor_loc == spec_face_neighbor(loc, face));
            }
            let neighbor = self.get_block(neighbor_loc);
            proof {
                assert(self.spec_block(neighbor_loc) == w0.spec_block(neighbor_loc)) by {
                    assert(spec_place_partial(w0, loc, fi as int, neighbor_loc) == w0.spec_block(
                        neighbor_loc,
                    ));
                }
            }
            if neighbor.is_empty() {
                let mask = face.to_visible_mask();
                proof {
                    lemma_visibility_upto_step(w0, loc, face);
                    let v: u8 = visibility.0;
                    let m: u8 = mask.0;
                    assert((v | m) == v + m) by (bit_vector)
                        requires
                            v & m == 0,
                    ;
                    lemma_place_partial_step_empty(w0, loc, face);
                    lemma_dirty_set_step(
                        w0,
                        w0.dirty_chunks@.to_set(),
                        self.dirty_chunks@.to_set(),
                        self.dirty_chunks@.to_set(),
                        loc,
                        face,
                    );
                }
                visibility = visibility.with(mask.0);
            } else {
                let new_neighbor = Block::from_id(
                    neighbor.id,
                    neighbor.visibility.without(face.opposite().to_visible_mask().0),
                    neighbor.light,
                );
                let ghost before = *self;
                self.set_block_immediate(neighbor_loc, new_neighbor);
                proof {
                    lemma_visibility_upto_step(w0, loc, face);
                    assert(w0.spec_has_chunk(spec_chunk_origin(neighbor_loc)));
                    assert(new_neighbor == spec_place_neighbor(w0, loc, face));
                    assert(before.spec_has_chunk(spec_chunk_origin(neighbor_loc)));
                    assert forall|q: WorldPoint| q != neighbor_loc implies #[trigger] self
                        .spec_block(q) == before.spec_block(q) by {
                        assert(self.spec_block(q) == spec_after_create_block(
                            before,
                            neighbor_loc,
                            q,
                        ));
                    }
                    lemma_place_partial_step_occupied(w0, before, *self, loc, face);
                    assert(self.dirty_chunks@.to_set() == before.dirty_chunks@.to_set().insert(
                        spec_chunk_origin(neighbor_loc),
                    ));
                    lemma_dirty_set_step(
                        w0,
                        w0.dirty_chunks@.to_set(),
                        before.dirty_chunks@.to_set(),
                        self.dirty_chunks@.to_set(),
                        loc,
                        face,
                    );
                }
            }
            fi = fi + 1;
        }
        let block = Block::from_id(id, visibility, LightKind::source(15, 15));
        let ghost before_final = *self;
        self.set_block_immediate(loc, block);
        proof {
            lemma_place_result_assembly(w0, before_final, *self, loc, id);
            assert(self.dirty_chunks@.to_set() == before_final.dirty_chunks@.to_set().insert(
                spec_chunk_origin(loc),
            ));
            assert forall|o: WorldPoint| #[trigger] self.dirty_chunks@.to_set().contains(o) <==> (
            w0.dirty_chunks@.to_set().contains(o) || o == spec_chunk_origin(loc) || (
            exists|f: Face|
                !w0.spec_block(#[trigger] spec_face_neighbor(loc, f)).spec_is_empty() && o
                    == spec_chunk_origin(spec_face_neighbor(loc, f)))) by {
                assert(before_final.dirty_chunks@.to_set().contains(o) || o == spec_chunk_origin(
                    loc,
                ) <==> self.dirty_chunks@.to_set().contains(o));
            }
        }
    }

    /// Removes the block at `loc`, writing empty space there; every occupied
    /// neighbor gains the visibility bit of the face now exposed and is
    /// written back.
    #[verifier::rlimit(100)]
    #[verifier::spinoff_prover]
    pub fn break_block(&mut self, loc: WorldPoint)
        requires
            old(self).wf(),
            spec_in_editable_range(loc),
        ensures
            final(self).wf(),
            final(self).registry == old(self).registry,
            forall|q: WorldPoint| #[trigger] final(self).spec_block(q) == spec_break_result(
                *old(self),
                loc,
                q,
            ),
            forall|o: WorldPoint|
                final(self).spec_has_chunk(o) <==> (old(self).spec_has_chunk(o) || o
                    == spec_chunk_origin(loc)),
            forall|o: WorldPoint|
                #[trigger] final(self).dirty_chunks@.to_set().contains(o) <==> (old(
                    self,
                ).dirty_chunks@.to_set().contains(o) || o == spec_chunk_origin(loc) || (
                exists|f: Face|
                    !old(self).spec_block(#[trigger] spec_face_neighbor(loc, f)).spec_is_empty()
                        && o == spec_chunk_origin(spec_face_neighbor(loc, f)))),
    {
        let ghost w0 = *self;
        proof {
            lemma_neighbors_distinct(loc);
        }
        let block = Block::from_id(
            BlockID(0),
            FaceVisibility(VISIBLE_NONE),
            LightKind::source(15, 15),
        );
        self.set_block_immediate(loc, block);
        let ghost after_clear = *self;
        proof {
            assert forall|q: WorldPoint| #[trigger] self.spec_block(q) == spec_break_partial(
                w0,
                loc,
                0,
                q,
            ) by {
                if q != loc {
                    assert(self.spec_block(q) == spec_after_create_block(w0, loc, q));
                }
            }
        }
        let mut fi: usize = 0;
        while fi < 6
            invariant
                fi <= 6,
                self.wf(),
                w0.wf(),
                self.registry == w0.registry,
                spec_in_editable_range(loc),
                forall|q: WorldPoint| #[trigger] self.spec_block(q) == spec_break_partial(
                    w0,
                    loc,
                    fi as int,
                    q,
                ),
                forall|o: WorldPoint|
                    self.spec_has_chunk(o) <==> (w0.spec_has_chunk(o) || o == spec_chunk_origin(
                        loc,
                    )),
                forall|o: WorldPoint|
                    #[trigger] self.dirty_chunks@.to_set().contains(o) <==> (after_clear
                        .dirty_chunks@.to_set().contains(o) || (exists|f: Face|
                        f.spec_index() < fi && !w0.spec_block(
                            #[trigger] spec_face_neighbor(loc, f),
                        ).spec_is_empty() && o == spec_chunk_origin(spec_face_neighbor(loc, f)))),
            decreases 6 - fi,
        {
            self.break_one_neighbor(
                Ghost(w0),
                Ghost(after_clear.dirty_chunks@.to_set()),
                loc,
                fi,
            );
            fi = fi + 1;
        }
        proof {
            assert forall|o: WorldPoint| #[trigger] self.dirty_chunks@.to_set().contains(o) <==> (
            w0.dirty_chunks@.to_set().contains(o) || o == spec_chunk_origin(loc) || (
            exists|f: Face|
                !w0.spec_block(#[trigger] spec_face_neighbor(loc, f)).spec_is_empty() && o
                    == spec_chunk_origin(spec_face_neighbor(loc, f)))) by {
                assert(after_clear.dirty_chunks@.to_set() == w0.dirty_chunks@.to_set().insert(
                    spec_chunk_origin(loc),
                ));
                assert(after_clear.dirty_chunks@.to_set().contains(o) <==> (w0.dirty_chunks@
                    .to_set().contains(o) || o == spec_chunk_origin(loc)));
            }
        }
    }

    /// One face of the breakage pass: if the neighbor across it is occupied,
    /// mark the face it now exposes visible and write it back.
    #[verifier::rlimit(100)]
    #[verifier::spinoff_prover]
    fn break_one_neighbor(
        &mut self,
        Ghost(w0): Ghost<World>,
        Ghost(base): Ghost<Set<WorldPoint>>,
        loc: WorldPoint,
        fi: usize,
    )
        requires
            old(self).wf(),
            w0.wf(),
            fi < 6,
            spec_in_editable_range(loc),
            old(self).registry == w0.registry,
            forall|q: WorldPoint| #[trigger] old(self).spec_block(q) == spec_break_partial(
                w0,
                loc,
                fi as int,
                q,
            ),
            forall|o: WorldPoint|
                old(self).spec_has_chunk(o) <==> (w0.spec_has_chunk(o) || o == spec_chunk_origin(
                    loc,
                )),
            forall|o: WorldPoint|
                #[trigger] old(self).dirty_chunks@.to_set().contains(o) <==> (base.contains(o) || (
                exists|f: Face|
                    f.spec_index() < fi && !w0.spec_block(
                        #[trigger] spec_face_neighbor(loc, f),
                    ).spec_is_empty() && o == spec_chunk_origin(spec_face_neighbor(loc, f)))),
        ensures
            final(self).wf(),
            final(self).registry == w0.registry,
            forall|q: WorldPoint| #[trigger] final(self).spec_block(q) == spec_break_partial(
                w0,
                loc,
                fi + 1,
                q,
            ),
            forall|o: WorldPoint|
                final(self).spec_has_chunk(o) <==> (w0.spec_has_chunk(o) || o
                    == spec_chunk_origin(loc)),
            forall|o: WorldPoint|
                #[trigger] final(self).dirty_chunks@.to_set().contains(o) <==> (base.contains(o)
                    || (exists|f: Face|
                    f.spec_index() < fi + 1 && !w0.spec_block(
                        #[trigger] spec_face_neighbor(loc, f),
                    ).spec_is_empty() && o == spec_chunk_origin(spec_face_neighbor(loc, f)))),
    {
        proof {
            lemma_neighbors_distinct(loc);
        }
        let face = Face::from_index(fi);
        let normal = face.normal();
        let neighbor_loc = WorldPoint {
            x: loc.x + normal.x,
            y: loc.y + normal.y,
            z: loc.z + normal.z,
        };
        proof {
            assert(neighbor_loc == spec_face_neighbor(loc, face));
        }
        let neighbor = self.get_block(neighbor_loc);
        proof {
            assert(self.spec_block(neighbor_loc) == spec_after_create_block(
                w0,
                loc,
                neighbor_loc,
            )) by {
                assert(spec_break_partial(w0, loc, fi as int, neighbor_loc)
                    == spec_after_create_block(w0, loc, neighbor_loc));
            }
            assert(neighbor.spec_is_empty() == w0.spec_block(neighbor_loc).spec_is_empty());
        }
        if !neighbor.is_empty() {
            proof {
                assert(w0.spec_has_chunk(spec_chunk_origin(neighbor_loc)));
                assert(neighbor == w0.spec_block(neighbor_loc));
            }
            let new_neighbor = Block::from_id(
                neighbor.id,
                neighbor.visibility.with(face.opposite().to_visible_mask().0),
                neighbor.light,
            );
            let ghost before = *self;
            self.set_block_immediate(neighbor_loc, new_neighbor);
            proof {
                assert(new_neighbor == spec_break_neighbor(w0, loc, face));
                assert(before.spec_has_chunk(spec_chunk_origin(neighbor_loc)));
                assert forall|q: WorldPoint| q != neighbor_loc implies #[trigger] self.spec_block(
                    q,
                ) == before.spec_block(q) by {
                    assert(self.spec_block(q) == spec_after_create_block(
                        before,
                        neighbor_loc,
                        q,
                    ));
                }
                lemma_break_partial_step_occupied(w0, before, *self, loc, face);
                assert(self.dirty_chunks@.to_set() == before.dirty_chunks@.to_set().insert(
                    spec_chunk_origin(neighbor_loc),
                ));
                lemma_dirty_set_step(
                    w0,
                    base,
                    before.dirty_chunks@.to_set(),
                    self.dirty_chunks@.to_set(),
                    loc,
                    face,
                );
            }
        } else {
            proof {
                lemma_break_partial_step_empty(w0, loc, face);
                lemma_dirty_set_step(
                    w0,
                    base,
                    self.dirty_chunks@.to_set(),
                    self.dirty_chunks@.to_set(),
                    loc,
                    face,
                );
            }
        }
    }

    /// Recomputes which faces of `loc` border empty space.
    fn compute_visibility(&self, loc: WorldPoint) -> (r: FaceVisibility)
        requires
            self.wf(),
            spec_in_editable_range(loc),
        ensures
            r.0 == spec_neighbor_visibility(*self, loc),
    {
        let mut visibility = FaceVisibility(VISIBLE_NONE);
        let mut fi: usize = 0;
        while fi < 6
            invariant
                fi <= 6,
                self.wf(),
                spec_in_editable_range(loc),
                visibility.0 == spec_neighbor_visibility_upto(*self, loc, fi as int),
            decreases 6 - fi,
        {
            let face = Face::from_index(fi);
            let normal = face.normal();
            let neighbor_loc = WorldPoint {
                x: loc.x + normal.x,
                y: loc.y + normal.y,
                z: loc.z + normal.z,
            };
            proof {
                assert(neighbor_loc == spec_face_neighbor(loc, face));
                lemma_visibility_upto_step(*self, loc, face);
            }
            let neighbor = self.get_block(neighbor_loc);
            if neighbor.is_empty() {
                let mask = face.to_visible_mask();
                proof {
                    let v: u8 = visibility.0;
                    let m: u8 = mask.0;
                    assert((v | m) == v + m) by (bit_vector)
                        requires
                            v & m == 0,
                    ;
                }
                visibility = visibility.with(mask.0);
            }
            fi = fi + 1;
        }
        visibility
    }

    /// The global visibility/light fix-up pass: every non-empty voxel of
    /// every resident chunk has its visible faces recomputed from its six
    /// neighbors (which may live in other resident chunks) and is given the
    /// full constant light; light propagation itself is an unimplemented
    /// extension point.
    #[verifier::rlimit(100)]
    #[verifier::spinoff_prover]
    pub fn fix_visibility(&mut self)
        requires
            old(self).wf(),
            forall|ci: int|
                0 <= ci < old(self).chunks@.len() ==> spec_interior_origin(
                    (#[trigger] old(self).chunks@[ci]).origin,
                ),
        ensures
            final(self).wf(),
            final(self).registry == old(self).registry,
            forall|o: WorldPoint|
                final(self).spec_has_chunk(o) <==> old(self).spec_has_chunk(o),
            forall|q: WorldPoint| #[trigger] final(self).spec_block(q) == spec_fixed_block(
                *old(self),
                q,
            ),
            forall|o: WorldPoint|
                #[trigger] final(self).dirty_chunks@.to_set().contains(o) <==> (old(
                    self,
                ).dirty_chunks@.to_set().contains(o) || (exists|q: WorldPoint|
                    old(self).spec_has_chunk(#[trigger] spec_chunk_origin(q)) && !old(
                        self,
                    ).spec_block(q).spec_is_empty() && o == spec_chunk_origin(q))),
    {
        let ghost w0 = *self;
        let n = self.chunks.len();
        proof {
            assert forall|q: WorldPoint| #[trigger] self.spec_block(q) == spec_fix_partial(
                w0,
                0,
                0,
                q,
            ) by {
                assert(!spec_fix_processed(w0, 0, 0, q));
            }
            assert forall|o: WorldPoint| #[trigger] self.dirty_chunks@.to_set().contains(o) <==> (
            w0.dirty_chunks@.to_set().contains(o) || (exists|q: WorldPoint|
                spec_fix_processed(w0, 0, 0, q) && !w0.spec_block(q).spec_is_empty() && o
                    == #[trigger] spec_chunk_origin(q))) by {
                if exists|q: WorldPoint|
                    spec_fix_processed(w0, 0, 0, q) && !w0.spec_block(q).spec_is_empty() && o
                        == #[trigger] spec_chunk_origin(q) {
                    let q = choose|q: WorldPoint|
                        spec_fix_processed(w0, 0, 0, q) && !w0.spec_block(q).spec_is_empty() && o
                            == #[trigger] spec_chunk_origin(q);
                    assert(!spec_fix_processed(w0, 0, 0, q));
                }
            }
        }
        let mut ci: usize = 0;
        while ci < n
            invariant
                ci <= n,
                n == w0.chunks@.len(),
                w0.wf(),
                self.wf(),
                self.registry == w0.registry,
                self.chunks@.len() == n,
                forall|i: int|
                    0 <= i < n ==> spec_interior_origin((#[trigger] w0.chunks@[i]).origin),
                forall|i: int|
                    0 <= i < n ==> (#[trigger] self.chunks@[i]).origin == w0.chunks@[i].origin,
                forall|o: WorldPoint| self.spec_has_chunk(o) <==> w0.spec_has_chunk(o),
                forall|q: WorldPoint| #[trigger] self.spec_block(q) == spec_fix_partial(
                    w0,
                    ci as int,
                    0,
                    q,
                ),
                forall|o: WorldPoint|
                    #[trigger] self.dirty_chunks@.to_set().contains(o) <==> (w0.dirty_chunks@
                        .to_set().contains(o) || (exists|q: WorldPoint|
                        spec_fix_processed(w0, ci as int, 0, q) && !w0.spec_block(
                            q,
                        ).spec_is_empty() && o == #[trigger] spec_chunk_origin(q))),
            decreases n - ci,
        {
            let origin = self.chunks[ci].origin;
            proof {
                assert(origin == w0.chunks@[ci as int].origin);
                w0.lemma_chunk_index_of(ci as int);
            }
            let mut li: usize = 0;
            while li < CHUNK_VOLUME
                invariant
                    li <= CHUNK_VOLUME,
                    ci < n,
                    n == w0.chunks@.len(),
                    w0.wf(),
                    self.wf(),
                    self.registry == w0.registry,
                    self.chunks@.len() == n,
                    origin == w0.chunks@[ci as int].origin,
                    spec_aligned_point(origin),
                    spec_interior_origin(origin),
                    forall|i: int|
                        0 <= i < n ==> spec_interior_origin((#[trigger] w0.chunks@[i]).origin),
                    forall|i: int|
                        0 <= i < n ==> (#[trigger] self.chunks@[i]).origin == w0.chunks@[i].origin,
                    forall|o: WorldPoint| self.spec_has_chunk(o) <==> w0.spec_has_chunk(o),
                    forall|q: WorldPoint| #[trigger] self.spec_block(q) == spec_fix_partial(
                        w0,
                        ci as int,
                        li as int,
                        q,
                    ),
                    forall|o: WorldPoint|
                        #[trigger] self.dirty_chunks@.to_set().contains(o) <==> (w0.dirty_chunks@
                            .to_set().contains(o) || (exists|q: WorldPoint|
                            spec_fix_processed(w0, ci as int, li as int, q) && !w0.spec_block(
                                q,
                            ).spec_is_empty() && o == #[trigger] spec_chunk_origin(q))),
                decreases CHUNK_VOLUME - li,
            {
                let i = li % 16;
                let j = (li / 16) % 16;
                let k = (li / 16) / 16;
                proof {
                    crate::chunk::lemma_local_index_encode(li as int);
                    lemma_aligned_near_max(origin.x);
                    lemma_aligned_near_max(origin.y);
                    lemma_aligned_near_max(origin.z);
                }
                let loc = WorldPoint {
                    x: origin.x + (i as i32),
                    y: origin.y + (j as i32),
                    z: origin.z + (k as i32),
                };
                proof {
                    lemma_chunk_origin_offset(origin, i as int, j as int, k as int);
                    assert(spec_chunk_origin(loc) == origin);
                    assert(spec_cell_index(loc) == li);
                    lemma_fix_processed_step(w0, ci as int, li as int, loc);
                    assert(!spec_fix_processed(w0, ci as int, li as int, loc));
                }
                let current = self.get_block(loc);
                proof {
                    assert(current == w0.spec_block(loc)) by {
                        assert(self.spec_block(loc) == spec_fix_partial(
                            w0,
                            ci as int,
                            li as int,
                            loc,
                        ));
                    }
                }
                if !current.is_empty() {
                    let visibility = self.compute_visibility(loc);
                    proof {
                        lemma_fix_partial_preserves_empty(w0, *self, ci as int, li as int);
                        lemma_neighbor_visibility_same_ids(*self, w0, loc);
                        assert(visibility.0 == spec_neighbor_visibility(w0, loc));
                    }
                    let block = Block::from_id(current.id, visibility, LightKind::source(15, 15));
                    let ghost before = *self;
                    self.set_block_immediate(loc, block);
                    proof {
                        assert(before.spec_has_chunk(spec_chunk_origin(loc)));
                        assert(block == spec_fixed_block(w0, loc));
                        assert forall|q: WorldPoint| #[trigger] self.spec_block(q)
                            == spec_fix_partial(w0, ci as int, li + 1, q) by {
                            if q != loc {
                                assert(self.spec_block(q) == spec_after_create_block(
                                    before,
                                    loc,
                                    q,
                                ));
                                assert(self.spec_block(q) == before.spec_block(q));
                            }
                        }
                        assert(self.dirty_chunks@.to_set() == before.dirty_chunks@.to_set()
                            .insert(origin));
                        assert forall|o: WorldPoint| #[trigger] self.dirty_chunks@.to_set()
                            .contains(o) <==> (w0.dirty_chunks@.to_set().contains(o) || (
                        exists|q: WorldPoint|
                            spec_fix_processed(w0, ci as int, li + 1, q) && !w0.spec_block(
                                q,
                            ).spec_is_empty() && o == #[trigger] spec_chunk_origin(q))) by {
                            if self.dirty_chunks@.to_set().contains(o) {
                                if o == origin {
                                    assert(spec_fix_processed(w0, ci as int, li + 1, loc) && !w0
                                        .spec_block(loc).spec_is_empty() && o
                                        == spec_chunk_origin(loc));
                                } else {
                                    assert(before.dirty_chunks@.to_set().contains(o));
                                }
                            }
                            if w0.dirty_chunks@.to_set().contains(o) {
                                assert(before.dirty_chunks@.to_set().contains(o));
                            }
                            if exists|q: WorldPoint|
                                spec_fix_processed(w0, ci as int, li + 1, q) && !w0.spec_block(
                                    q,
                                ).spec_is_empty() && o == #[trigger] spec_chunk_origin(q) {
                                let q = choose|q: WorldPoint|
                                    spec_fix_processed(w0, ci as int, li + 1, q) && !w0
                                        .spec_block(q).spec_is_empty() && o
                                        == #[trigger] spec_chunk_origin(q);
                                if spec_fix_processed(w0, ci as int, li as int, q) {
                                    assert(before.dirty_chunks@.to_set().contains(o));
                                } else {
                                    assert(q == loc);
                                }
                                assert(self.dirty_chunks@.to_set().contains(o));
                            }
                        }
                    }
                } else {
                    proof {
                        assert forall|q: WorldPoint| #[trigger] self.spec_block(q)
                            == spec_fix_partial(w0, ci as int, li + 1, q) by {
                            if q == loc {
                                assert(spec_fixed_block(w0, loc) == w0.spec_block(loc));
                            }
                        }
                        assert forall|o: WorldPoint| #[trigger] self.dirty_chunks@.to_set()
                            .contains(o) <==> (w0.dirty_chunks@.to_set().contains(o) || (
                        exists|q: WorldPoint|
                            spec_fix_processed(w0, ci as int, li + 1, q) && !w0.spec_block(
                                q,
                            ).spec_is_empty() && o == #[trigger] spec_chunk_origin(q))) by {
                            if exists|q: WorldPoint|
                                spec_fix_processed(w0, ci as int, li + 1, q) && !w0.spec_block(
                                    q,
                                ).spec_is_empty() && o == #[trigger] spec_chunk_origin(q) {
                                let q = choose|q: WorldPoint|
                                    spec_fix_processed(w0, ci as int, li + 1, q) && !w0
                                        .spec_block(q).spec_is_empty() && o
                                        == #[trigger] spec_chunk_origin(q);
                                assert(q != loc);
                                assert(spec_fix_processed(w0, ci as int, li as int, q));
                            }
                        }
                    }
                }
                li = li + 1;
            }
            proof {
                lemma_fix_processed_next_chunk(w0, ci as int);
                assert forall|q: WorldPoint| #[trigger] self.spec_block(q) == spec_fix_partial(
                    w0,
                    ci + 1,
                    0,
                    q,
                ) by {
                    assert(self.spec_block(q) == spec_fix_partial(
                        w0,
                        ci as int,
                        CHUNK_VOLUME as int,
                        q,
                    ));
                }
            }
            ci = ci + 1;
        }
        proof {
            lemma_fix_final_blocks(w0, *self);
            lemma_fix_final_dirty(w0, self.dirty_chunks@.to_set());
        }
    }

    /// Generates and installs every chunk of the region `[lo, hi)` that is
    /// not already resident, strided by the chunk size on every axis. Chunks
    /// read back from storage should be installed first; this fills the
    /// gaps. Freshly generated chunks are not queued for remesh.
    pub fn generate_missing<G: ChunkGenerator>(&mut self, lo: WorldPoint, hi: WorldPoint, gen: &G)
        requires
            old(self).wf(),
            spec_aligned_point(lo),
            spec_aligned_point(hi),
            spec_region_bounds_ok(lo, hi),
            gen.spec_ready(&old(self).registry),
        ensures
            final(self).wf(),
            final(self).registry == old(self).registry,
            final(self).dirty_chunks@ == old(self).dirty_chunks@,
            forall|o: WorldPoint|
                final(self).spec_has_chunk(o) <==> (old(self).spec_has_chunk(o)
                    || spec_region_contains(lo, hi, o)),
            forall|q: WorldPoint|
                !old(self).spec_has_chunk(spec_chunk_origin(q)) && spec_region_contains(
                    lo,
                    hi,
                    #[trigger] spec_chunk_origin(q),
                ) ==> final(self).spec_block(q) == gen.spec_block_for(&old(self).registry, q),
            forall|q: WorldPoint|
                !(!old(self).spec_has_chunk(spec_chunk_origin(q)) && spec_region_contains(
                    lo,
                    hi,
                    #[trigger] spec_chunk_origin(q),
                )) ==> final(self).spec_block(q) == old(self).spec_block(q),
    {
        let ghost w0 = *self;
        let origins = region_chunk_origins(lo, hi);
        let n = origins.len();
        proof {
            assert(origins@.take(0) =~= Seq::<WorldPoint>::empty());
            assert forall|i: int|
                0 <= i < origins@.len() implies spec_aligned_point(#[trigger] origins@[i]) by {
                assert(origins@.contains(origins@[i]));
            }
        }
        let mut idx: usize = 0;
        while idx < n
            invariant
                idx <= n,
                n == origins@.len(),
                w0.wf(),
                self.wf(),
                self.registry == w0.registry,
                self.dirty_chunks@ == w0.dirty_chunks@,
                gen.spec_ready(&w0.registry),
                forall|o: WorldPoint| origins@.contains(o) <==> spec_region_contains(lo, hi, o),
                forall|i: int, j: int| 0 <= i < j < origins@.len() ==> origins@[i] != origins@[j],
                forall|i: int|
                    0 <= i < origins@.len() ==> spec_aligned_point(#[trigger] origins@[i]),
                forall|o: WorldPoint|
                    #[trigger] self.spec_has_chunk(o) <==> (w0.spec_has_chunk(o)
                        || origins@.take(idx as int).contains(o)),
                forall|q: WorldPoint|
                    !w0.spec_has_chunk(spec_chunk_origin(q)) && origins@.take(idx as int)
                        .contains(#[trigger] spec_chunk_origin(q)) ==> self.spec_block(q)
                        == gen.spec_block_for(&w0.registry, q),
                forall|q: WorldPoint|
                    !(!w0.spec_has_chunk(spec_chunk_origin(q)) && origins@.take(idx as int)
                        .contains(#[trigger] spec_chunk_origin(q))) ==> self.spec_block(q) == w0
                        .spec_block(q),
            decreases n - idx,
        {
            self.ensure_region_chunk(Ghost(w0), &origins, idx, gen);
            idx = idx + 1;
        }
        proof {
            assert(origins@.take(n as int) =~= origins@);
        }
    }

    /// One stop of the region sweep: generate and install the chunk at the
    /// region origin `origins[idx]` unless it is already resident.
    #[verifier::rlimit(100)]
    #[verifier::spinoff_prover]
    fn ensure_region_chunk<G: ChunkGenerator>(
        &mut self,
        Ghost(w0): Ghost<World>,
        origins: &Vec<WorldPoint>,
        idx: usize,
        gen: &G,
    )
        requires
            old(self).wf(),
            w0.wf(),
            idx < origins@.len(),
            old(self).registry == w0.registry,
            old(self).dirty_chunks@ == w0.dirty_chunks@,
            gen.spec_ready(&w0.registry),
            forall|i: int, j: int| 0 <= i < j < origins@.len() ==> origins@[i] != origins@[j],
            forall|i: int| 0 <= i < origins@.len() ==> spec_aligned_point(#[trigger] origins@[i]),
            forall|o: WorldPoint|
                #[trigger] old(self).spec_has_chunk(o) <==> (w0.spec_has_chunk(o)
                    || origins@.take(idx as int).contains(o)),
            forall|q: WorldPoint|
                !w0.spec_has_chunk(spec_chunk_origin(q)) && origins@.take(idx as int).contains(
                    #[trigger] spec_chunk_origin(q),
                ) ==> old(self).spec_block(q) == gen.spec_block_for(&w0.registry, q),
            forall|q: WorldPoint|
                !(!w0.spec_has_chunk(spec_chunk_origin(q)) && origins@.take(idx as int).contains(
                    #[trigger] spec_chunk_origin(q),
                )) ==> old(self).spec_block(q) == w0.spec_block(q),
        ensures
            final(self).wf(),
            final(self).registry == w0.registry,
            final(self).dirty_chunks@ == w0.dirty_chunks@,
            forall|o: WorldPoint|
                #[trigger] final(self).spec_has_chunk(o) <==> (w0.spec_has_chunk(o)
                    || origins@.take(idx + 1).contains(o)),
            forall|q: WorldPoint|
                !w0.spec_has_chunk(spec_chunk_origin(q)) && origins@.take(idx + 1).contains(
                    #[trigger] spec_chunk_origin(q),
                ) ==> final(self).spec_block(q) == gen.spec_block_for(&w0.registry, q),
            forall|q: WorldPoint|
                !(!w0.spec_has_chunk(spec_chunk_origin(q)) && origins@.take(idx + 1).contains(
                    #[trigger] spec_chunk_origin(q),
                )) ==> final(self).spec_block(q) == w0.spec_block(q),
    {
        let o = origins[idx];
        proof {
        assert(spec_aligned_point(origins@[idx as int]));
        }
        proof {
            assert(origins@.contains(o)) by {
                assert(origins@[idx as int] == o);
            }
            assert(origins@.take(idx + 1)[idx as int] == o);
            assert forall|o2: WorldPoint|
                #[trigger] origins@.take(idx + 1).contains(o2) <==> (origins@.take(
                    idx as int,
                ).contains(o2) || o2 == o) by {
                if origins@.take(idx + 1).contains(o2) {
                    let i = choose|i: int|
                        0 <= i < origins@.take(idx + 1).len() && #[trigger] origins@.take(
                            idx + 1,
                        )[i] == o2;
                    if i < idx {
                        assert(origins@.take(idx as int)[i] == o2);
                    } else {
                        assert(o2 == o);
                    }
                }
                if origins@.take(idx as int).contains(o2) {
                    let i = choose|i: int|
                        0 <= i < origins@.take(idx as int).len() && #[trigger] origins@.take(
                            idx as int,
                        )[i] == o2;
                    assert(origins@.take(idx + 1)[i] == o2);
                }
                if o2 == o {
                    assert(origins@.take(idx + 1)[idx as int] == o2);
                }
            }
        }
        if !self.has_chunk(o) {
            let chunk = gen.generate_chunk(o, &self.registry);
            let ghost c = chunk;
            let ghost before = *self;
            self.insert_chunk(chunk);
            proof {
                assert forall|q: WorldPoint|
                    spec_chunk_origin(q) == c.origin implies #[trigger] self.spec_block(q)
                    == gen.spec_block_for(&w0.registry, q) by {
                    lemma_chunk_origin_alignment(q);
                    lemma_cell_index_bounds(q);
                    assert(c.spec_local(
                        q.x - c.origin.x,
                        q.y - c.origin.y,
                        q.z - c.origin.z,
                    ) == gen.spec_block_for(
                        &self.registry,
                        crate::chunk::spec_offset_point(
                            c.origin,
                            q.x - c.origin.x,
                            q.y - c.origin.y,
                            q.z - c.origin.z,
                        ),
                    ));
                    assert(crate::chunk::spec_offset_point(
                        c.origin,
                        q.x - c.origin.x,
                        q.y - c.origin.y,
                        q.z - c.origin.z,
                    ) == q);
                    assert(self.spec_block(q) == c.spec_block(q));
                }
                assert forall|q: WorldPoint|
                    !w0.spec_has_chunk(spec_chunk_origin(q)) && origins@.take(idx + 1)
                        .contains(#[trigger] spec_chunk_origin(q)) implies self.spec_block(q)
                    == gen.spec_block_for(&w0.registry, q) by {
                    if spec_chunk_origin(q) != o {
                        assert(origins@.take(idx as int).contains(spec_chunk_origin(q)));
                        assert(self.spec_block(q) == before.spec_block(q));
                    }
                }
                assert forall|q: WorldPoint|
                    !(!w0.spec_has_chunk(spec_chunk_origin(q)) && origins@.take(idx + 1)
                        .contains(#[trigger] spec_chunk_origin(q))) implies self.spec_block(
                    q,
                ) == w0.spec_block(q) by {
                    if spec_chunk_origin(q) != o {
                        assert(self.spec_block(q) == before.spec_block(q));
                    } else {
                        assert(origins@.take(idx + 1).contains(spec_chunk_origin(q)));
                        assert(!w0.spec_has_chunk(o));
                    }
                }
                assert forall|o2: WorldPoint|
                    self.spec_has_chunk(o2) <==> (w0.spec_has_chunk(o2) || origins@.take(
                        idx + 1,
                    ).contains(o2)) by {
                    assert(origins@.take(idx + 1).contains(o2) <==> (origins@.take(
                        idx as int,
                    ).contains(o2) || o2 == o));
                    assert(before.spec_has_chunk(o2) <==> (w0.spec_has_chunk(o2)
                        || origins@.take(idx as int).contains(o2)));
                    assert(self.spec_has_chunk(o2) <==> (before.spec_has_chunk(o2) || o2
                        == o));
                }
            }
        } else {
            proof {
                assert forall|o2: WorldPoint|
                    self.spec_has_chunk(o2) <==> (w0.spec_has_chunk(o2) || origins@.take(
                        idx + 1,
                    ).contains(o2)) by {
                    assert(origins@.take(idx + 1).contains(o2) <==> (origins@.take(
                        idx as int,
                    ).contains(o2) || o2 == o));
                    assert(old(self).spec_has_chunk(o2) <==> (w0.spec_has_chunk(o2)
                        || origins@.take(idx as int).contains(o2)));
                    if o2 == o {
                        assert(self.spec_has_chunk(o));
                    }
                }
            }
        }
    }
}

/// After the pass has walked every chunk, its intermediate state is the
/// fixed-up world.
proof fn lemma_fix_final_blocks(w0: World, w1: World)
    requires
        w0.wf(),
        forall|q: WorldPoint| #[trigger] w1.spec_block(q) == spec_fix_partial(
            w0,
            w0.chunks@.len() as int,
            0,
            q,
        ),
    ensures
        forall|q: WorldPoint| #[trigger] w1.spec_block(q) == spec_fixed_block(w0, q),
{
    let n = w0.chunks@.len() as int;
    assert forall|q: WorldPoint| #[trigger] w1.spec_block(q) == spec_fixed_block(w0, q) by {
        assert(w1.spec_block(q) == spec_fix_partial(w0, n, 0, q));
        if w0.spec_has_chunk(spec_chunk_origin(q)) {
            assert(spec_fix_processed(w0, n, 0, q)) by {
                lemma_index_unique(
                    w0,
                    choose|i: int|
                        0 <= i < w0.chunks@.len() && (#[trigger] w0.chunks@[i]).origin
                            == spec_chunk_origin(q),
                );
            }
        }
    }
}

/// After the pass has walked every chunk, the handled non-empty cells are
/// exactly the resident non-empty blocks.
proof fn lemma_fix_final_dirty(w0: World, s: Set<WorldPoint>)
    requires
        w0.wf(),
        forall|o: WorldPoint|
            #[trigger] s.contains(o) <==> (w0.dirty_chunks@.to_set().contains(o) || (
            exists|q: WorldPoint|
                spec_fix_processed(w0, w0.chunks@.len() as int, 0, q) && !w0.spec_block(
                    q,
                ).spec_is_empty() && o == #[trigger] spec_chunk_origin(q))),
    ensures
        forall|o: WorldPoint|
            #[trigger] s.contains(o) <==> (w0.dirty_chunks@.to_set().contains(o) || (
            exists|q: WorldPoint|
                w0.spec_has_chunk(#[trigger] spec_chunk_origin(q)) && !w0.spec_block(
                    q,
                ).spec_is_empty() && o == spec_chunk_origin(q))),
{
    let n = w0.chunks@.len() as int;
    assert forall|o: WorldPoint|
        #[trigger] s.contains(o) <==> (w0.dirty_chunks@.to_set().contains(o) || (
    exists|q: WorldPoint|
        w0.spec_has_chunk(#[trigger] spec_chunk_origin(q)) && !w0.spec_block(q).spec_is_empty()
            && o == spec_chunk_origin(q))) by {
        if exists|q: WorldPoint|
            spec_fix_processed(w0, n, 0, q) && !w0.spec_block(q).spec_is_empty() && o
                == #[trigger] spec_chunk_origin(q) {
            let q = choose|q: WorldPoint|
                spec_fix_processed(w0, n, 0, q) && !w0.spec_block(q).spec_is_empty() && o
                    == #[trigger] spec_chunk_origin(q);
            assert(w0.spec_has_chunk(spec_chunk_origin(q)) && !w0.spec_block(q).spec_is_empty()
                && o == spec_chunk_origin(q));
        }
        if exists|q: WorldPoint|
            w0.spec_has_chunk(#[trigger] spec_chunk_origin(q)) && !w0.spec_block(
                q,
            ).spec_is_empty() && o == spec_chunk_origin(q) {
            let q = choose|q: WorldPoint|
                w0.spec_has_chunk(#[trigger] spec_chunk_origin(q)) && !w0.spec_block(
                    q,
                ).spec_is_empty() && o == spec_chunk_origin(q);
            assert(spec_fix_processed(w0, n, 0, q)) by {
                lemma_index_unique(
                    w0,
                    choose|i: int|
                        0 <= i < w0.chunks@.len() && (#[trigger] w0.chunks@[i]).origin
                            == spec_chunk_origin(q),
                );
            }
            assert(s.contains(o));
        }
    }
}

/// A face of an occupied neighbor never appears in a recomputed visibility
/// mask.
#[verifier::rlimit(100)]
#[verifier::spinoff_prover]
proof fn lemma_visibility_excludes_occupied(w: World, loc: WorldPoint, f: Face)
    requires
        !w.spec_block(spec_face_neighbor(loc, f)).spec_is_empty(),
    ensures
        spec_neighbor_visibility(w, loc) & f.spec_mask() == 0,
{
    let b0 = w.spec_block(spec_face_neighbor(loc, Face::Top)).spec_is_empty();
    let b1 = w.spec_block(spec_face_neighbor(loc, Face::Bottom)).spec_is_empty();
    let b2 = w.spec_block(spec_face_neighbor(loc, Face::Left)).spec_is_empty();
    let b3 = w.spec_block(spec_face_neighbor(loc, Face::Right)).spec_is_empty();
    let b4 = w.spec_block(spec_face_neighbor(loc, Face::Front)).spec_is_empty();
    let b5 = w.spec_block(spec_face_neighbor(loc, Face::Back)).spec_is_empty();
    let s = spec_neighbor_visibility(w, loc);
    assert(s == ((if b0 { 1int } else { 0int }) + (if b1 { 2int } else { 0int }) + (if b2 {
        8int
    } else {
        0int
    }) + (if b3 { 4int } else { 0int }) + (if b4 { 16int } else { 0int }) + (if b5 {
        32int
    } else {
        0int
    })) as u8);
    match f {
        Face::Top => {
            assert(!b0 ==> ((((if b0 { 1int } else { 0int }) + (if b1 { 2int } else { 0int }) + (
            if b2 { 8int } else { 0int }) + (if b3 { 4int } else { 0int }) + (if b4 {
                16int
            } else {
                0int
            }) + (if b5 { 32int } else { 0int })) as u8) & 1) == 0) by (bit_vector);
        }
        Face::Bottom => {
            assert(!b1 ==> ((((if b0 { 1int } else { 0int }) + (if b1 { 2int } else { 0int }) + (
            if b2 { 8int } else { 0int }) + (if b3 { 4int } else { 0int }) + (if b4 {
                16int
            } else {
                0int
            }) + (if b5 { 32int } else { 0int })) as u8) & 2) == 0) by (bit_vector);
        }
        Face::Left => {
            assert(!b2 ==> ((((if b0 { 1int } else { 0int }) + (if b1 { 2int } else { 0int }) + (
            if b2 { 8int } else { 0int }) + (if b3 { 4int } else { 0int }) + (if b4 {
                16int
            } else {
                0int
            }) + (if b5 { 32int } else { 0int })) as u8) & 8) == 0) by (bit_vector);
        }
        Face::Right => {
            assert(!b3 ==> ((((if b0 { 1int } else { 0int }) + (if b1 { 2int } else { 0int }) + (
            if b2 { 8int } else { 0int }) + (if b3 { 4int } else { 0int }) + (if b4 {
                16int
            } else {
                0int
            }) + (if b5 { 32int } else { 0int })) as u8) & 4) == 0) by (bit_vector);
        }
        Face::Front => {
            assert(!b4 ==> ((((if b0 { 1int } else { 0int }) + (if b1 { 2int } else { 0int }) + (
            if b2 { 8int } else { 0int }) + (if b3 { 4int } else { 0int }) + (if b4 {
                16int
            } else {
                0int
            }) + (if b5 { 32int } else { 0int })) as u8) & 16) == 0) by (bit_vector);
        }
        Face::Back => {
            assert(!b5 ==> ((((if b0 { 1int } else { 0int }) + (if b1 { 2int } else { 0int }) + (
            if b2 { 8int } else { 0int }) + (if b3 { 4int } else { 0int }) + (if b4 {
                16int
            } else {
                0int
            }) + (if b5 { 32int } else { 0int })) as u8) & 32) == 0) by (bit_vector);
        }
    }
}

/// Placement/removal symmetry. Placing a block beside an existing solid
/// block hides the shared face on the existing block and does not expose
/// that face on the new block; breaking the placed block exposes the
/// existing block's face again.
pub proof fn lemma_place_break_symmetry(
    w0: World,
    w1: World,
    w2: World,
    loc: WorldPoint,
    f: Face,
    id: BlockID,
)
    requires
        w0.wf(),
        spec_in_editable_range(loc),
        w0.spec_block(loc).spec_is_empty(),
        !w0.spec_block(spec_face_neighbor(loc, f)).spec_is_empty(),
        forall|q: WorldPoint| #[trigger] w1.spec_block(q) == spec_place_result(w0, loc, id, q),
        forall|q: WorldPoint| #[trigger] w2.spec_block(q) == spec_break_result(w1, loc, q),
    ensures
        !face_visible(w1.spec_block(spec_face_neighbor(loc, f)).visibility, f.spec_opposite()),
        !face_visible(w1.spec_block(loc).visibility, f),
        face_visible(w2.spec_block(spec_face_neighbor(loc, f)).visibility, f.spec_opposite()),
{
    lemma_neighbors_distinct(loc);
    let nb = spec_face_neighbor(loc, f);
    assert(w1.spec_block(nb) == spec_place_neighbor(w0, loc, f));
    let m: u8 = f.spec_opposite().spec_mask();
    let v0: u8 = w0.spec_block(nb).visibility.0;
    assert((v0 & !m) & m == 0) by (bit_vector);
    assert(m != 0);
    assert(!face_visible(w1.spec_block(nb).visibility, f.spec_opposite()));
    assert(w1.spec_block(loc).visibility.0 == spec_neighbor_visibility(w0, loc));
    lemma_visibility_excludes_occupied(w0, loc, f);
    assert(!face_visible(w1.spec_block(loc).visibility, f));
    assert(w2.spec_block(nb) == spec_break_neighbor(w1, loc, f));
    assert(!w1.spec_block(nb).spec_is_empty());
    let v1: u8 = w1.spec_block(nb).visibility.0;
    assert(m == 1u8 || m == 2u8 || m == 4u8 || m == 8u8 || m == 16u8 || m == 32u8);
    assert((v1 | m) & m != 0) by (bit_vector)
        requires
            m == 1u8 || m == 2u8 || m == 4u8 || m == 8u8 || m == 16u8 || m == 32u8,
    ;
    assert(face_visible(w2.spec_block(nb).visibility, f.spec_opposite()));
}

/// Under distinct origins, the index found for a resident origin is the
/// only one carrying it.
proof fn lemma_index_unique(w: World, ci: int)
    requires
        forall|i: int, j: int|
            0 <= i < j < w.chunks@.len() ==> (#[trigger] w.chunks@[i]).origin != (
            #[trigger] w.chunks@[j]).origin,
        0 <= ci < w.chunks@.len(),
    ensures
        w.spec_has_chunk(w.chunks@[ci].origin),
        w.spec_chunk_index(w.chunks@[ci].origin) == ci,
        w.spec_chunk_at(w.chunks@[ci].origin) == w.chunks@[ci],
{
    let o = w.chunks@[ci].origin;
    assert(w.spec_has_chunk(o));
    let cj = w.spec_chunk_index(o);
    if cj != ci {
        if cj < ci {
            assert(w.chunks@[cj].origin != w.chunks@[ci].origin);
        } else {
            assert(w.chunks@[ci].origin != w.chunks@[cj].origin);
        }
    }
}

/// Replacing one chunk by another with the same origin leaves residency,
/// chunk indices and every other chunk unchanged.
proof fn lemma_chunks_update_frame(w0: World, w1: World, ci: int)
    requires
        forall|i: int, j: int|
            0 <= i < j < w0.chunks@.len() ==> (#[trigger] w0.chunks@[i]).origin != (
            #[trigger] w0.chunks@[j]).origin,
        0 <= ci < w0.chunks@.len(),
        w1.chunks@.len() == w0.chunks@.len(),
        forall|i: int|
            0 <= i < w0.chunks@.len() && i != ci ==> #[trigger] w1.chunks@[i] == w0.chunks@[i],
        w1.chunks@[ci].origin == w0.chunks@[ci].origin,
    ensures
        forall|i: int, j: int|
            0 <= i < j < w1.chunks@.len() ==> (#[trigger] w1.chunks@[i]).origin != (
            #[trigger] w1.chunks@[j]).origin,
        forall|o: WorldPoint| w1.spec_has_chunk(o) <==> w0.spec_has_chunk(o),
        forall|o: WorldPoint|
            w0.spec_has_chunk(o) ==> #[trigger] w1.spec_chunk_index(o) == w0.spec_chunk_index(o),
        forall|o: WorldPoint|
            w0.spec_has_chunk(o) && o != w0.chunks@[ci].origin ==> #[trigger] w1.spec_chunk_at(o)
                == w0.spec_chunk_at(o),
        w1.spec_chunk_index(w0.chunks@[ci].origin) == ci,
        w1.spec_chunk_at(w0.chunks@[ci].origin) == w1.chunks@[ci],
{
    assert forall|i: int| 0 <= i < w1.chunks@.len() implies (#[trigger] w1.chunks@[i]).origin == w0
        .chunks@[i].origin by {}
    assert forall|o: WorldPoint| w1.spec_has_chunk(o) <==> w0.spec_has_chunk(o) by {
        if w1.spec_has_chunk(o) {
            let i = choose|i: int|
                0 <= i < w1.chunks@.len() && (#[trigger] w1.chunks@[i]).origin == o;
            assert(w0.chunks@[i].origin == o);
        }
        if w0.spec_has_chunk(o) {
            let i = choose|i: int|
                0 <= i < w0.chunks@.len() && (#[trigger] w0.chunks@[i]).origin == o;
            assert(w1.chunks@[i].origin == o);
        }
    }
    assert forall|o: WorldPoint| w0.spec_has_chunk(o) implies #[trigger] w1.spec_chunk_index(o)
        == w0.spec_chunk_index(o) && (o != w0.chunks@[ci].origin ==> w1.spec_chunk_at(o) == w0
        .spec_chunk_at(o)) by {
        lemma_index_unique(w0, w0.spec_chunk_index(o));
        lemma_index_unique(w1, w0.spec_chunk_index(o));
    }
    lemma_index_unique(w1, ci);
}

/// Appending a chunk with a fresh origin keeps every resident chunk and
/// adds exactly one origin.
proof fn lemma_chunks_push_frame(w0: World, w1: World, c: Chunk)
    requires
        forall|i: int, j: int|
            0 <= i < j < w0.chunks@.len() ==> (#[trigger] w0.chunks@[i]).origin != (
            #[trigger] w0.chunks@[j]).origin,
        !w0.spec_has_chunk(c.origin),
        w1.chunks@ == w0.chunks@.push(c),
    ensures
        forall|i: int, j: int|
            0 <= i < j < w1.chunks@.len() ==> (#[trigger] w1.chunks@[i]).origin != (
            #[trigger] w1.chunks@[j]).origin,
        forall|o: WorldPoint|
            w1.spec_has_chunk(o) <==> (w0.spec_has_chunk(o) || o == c.origin),
        forall|o: WorldPoint|
            w0.spec_has_chunk(o) ==> #[trigger] w1.spec_chunk_index(o) == w0.spec_chunk_index(o)
                && w1.spec_chunk_at(o) == w0.spec_chunk_at(o),
        w1.spec_chunk_index(c.origin) == w0.chunks@.len(),
        w1.spec_chunk_at(c.origin) == c,
{
    assert forall|i: int, j: int|
        0 <= i < j < w1.chunks@.len() implies (#[trigger] w1.chunks@[i]).origin != (
    #[trigger] w1.chunks@[j]).origin by {
        if j < w0.chunks@.len() {
            assert(w0.chunks@[i].origin != w0.chunks@[j].origin);
        } else {
            assert(w0.chunks@[i].origin == w1.chunks@[i].origin);
            if w1.chunks@[i].origin == c.origin {
                assert(w0.spec_has_chunk(c.origin));
            }
        }
    }
    assert forall|o: WorldPoint|
        w1.spec_has_chunk(o) <==> (w0.spec_has_chunk(o) || o == c.origin) by {
        if w1.spec_has_chunk(o) {
            let i = choose|i: int|
                0 <= i < w1.chunks@.len() && (#[trigger] w1.chunks@[i]).origin == o;
            if i < w0.chunks@.len() {
                assert(w0.chunks@[i].origin == o);
            }
        }
        if w0.spec_has_chunk(o) {
            let i = choose|i: int|
                0 <= i < w0.chunks@.len() && (#[trigger] w0.chunks@[i]).origin == o;
            assert(w1.chunks@[i].origin == o);
        }
        if o == c.origin {
            assert(w1.chunks@[w0.chunks@.len() as int].origin == o);
        }
    }
    assert forall|o: WorldPoint| w0.spec_has_chunk(o) implies #[trigger] w1.spec_chunk_index(o)
        == w0.spec_chunk_index(o) && w1.spec_chunk_at(o) == w0.spec_chunk_at(o) by {
        lemma_index_unique(w0, w0.spec_chunk_index(o));
        assert(w1.chunks@[w0.spec_chunk_index(o)].origin == o);
        lemma_index_unique(w1, w0.spec_chunk_index(o));
    }
    lemma_index_unique(w1, w0.chunks@.len() as int);
}

/// Two distinct points that share a chunk occupy distinct cells of it.
proof fn lemma_distinct_points_distinct_cells(o: WorldPoint, q: WorldPoint, loc: WorldPoint)
    requires
        q != loc,
        spec_chunk_origin(q) == o,
        spec_chunk_origin(loc) == o,
    ensures
        crate::chunk::spec_local_index(q.x - o.x, q.y - o.y, q.z - o.z)
            != crate::chunk::spec_local_index(loc.x - o.x, loc.y - o.y, loc.z - o.z),
{
    lemma_chunk_origin_alignment(q);
    lemma_chunk_origin_alignment(loc);
    if crate::chunk::spec_local_index(q.x - o.x, q.y - o.y, q.z - o.z)
        == crate::chunk::spec_local_index(loc.x - o.x, loc.y - o.y, loc.z - o.z) {
        crate::chunk::lemma_local_index_injective(
            q.x - o.x,
            q.y - o.y,
            q.z - o.z,
            loc.x - o.x,
            loc.y - o.y,
            loc.z - o.z,
        );
        assert(q == loc);
    }
}

/// After a single-cell write to the chunk at `loc`, the world holds `block`
/// at `loc` and the same block as before everywhere else.
proof fn lemma_block_update_frame(w0: World, w1: World, ci: int, loc: WorldPoint, block: Block)
    requires
        w0.wf(),
        0 <= ci < w0.chunks@.len(),
        w1.chunks@.len() == w0.chunks@.len(),
        forall|i: int|
            0 <= i < w0.chunks@.len() && i != ci ==> #[trigger] w1.chunks@[i] == w0.chunks@[i],
        w0.chunks@[ci].origin == spec_chunk_origin(loc),
        w1.chunks@[ci].origin == w0.chunks@[ci].origin,
        w1.chunks@[ci].blocks@ == w0.chunks@[ci].blocks@.update(
            w0.chunks@[ci].spec_index_of(loc),
            block,
        ),
    ensures
        w1.spec_block(loc) == block,
        forall|q: WorldPoint| q != loc ==> #[trigger] w1.spec_block(q) == w0.spec_block(q),
{
    let o = spec_chunk_origin(loc);
    lemma_chunks_update_frame(w0, w1, ci);
    lemma_chunk_origin_alignment(loc);
    crate::chunk::lemma_local_index_decode(loc.x - o.x, loc.y - o.y, loc.z - o.z);
    assert(w1.spec_chunk_at(o) == w1.chunks@[ci]);
    assert(w1.spec_block(loc) == block);
    assert forall|q: WorldPoint| q != loc implies #[trigger] w1.spec_block(q) == w0.spec_block(
        q,
    ) by {
        let oq = spec_chunk_origin(q);
        if w0.spec_has_chunk(oq) {
            if oq == o {
                lemma_distinct_points_distinct_cells(o, q, loc);
                lemma_chunk_origin_alignment(q);
                crate::chunk::lemma_local_index_decode(q.x - o.x, q.y - o.y, q.z - o.z);
                assert(w1.spec_chunk_at(oq).spec_block(q) == w0.spec_chunk_at(oq).spec_block(q));
            } else {
                assert(w1.spec_chunk_at(oq) == w0.spec_chunk_at(oq));
            }
        }
    }
}

} // verus!
