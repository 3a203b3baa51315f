//! Plain vertex data for chunk meshes: one call per visible cube face
//! appends the six vertices of that face's two triangles. The GPU upload of
//! these vertices is an external collaborator's concern.

use vstd::prelude::*;
use crate::geometry::{LocalPoint, TexPoint};

verus! {

broadcast use vstd::seq::group_seq_axioms;

/// Normalized texel width of one atlas cell.
pub const TEXEL_NORMALIZER: u16 = 16384;

/// A mesh vertex: a lattice position (with a constant w component) and a
/// normalized texture coordinate.
#[derive(Clone, Copy, PartialEq, Eq, Debug)]
pub struct Vertex {
    pub position: [u8; 4],
    pub uv: [u16; 2],
}

/// The vertex at position `(x, y, z, 1)` with texture coordinate `(u, v)`.
pub open spec fn spec_vertex(x: u8, y: u8, z: u8, u: u16, v: u16) -> Vertex {
    Vertex { position: [x, y, z, 1], uv: [u, v] }
}

/// Builds one vertex from a lattice position and a texel coordinate.
pub fn vnew(position: LocalPoint, texture: TexPoint) -> (r: Vertex)
    ensures
        r == spec_vertex(position.x, position.y, position.z, texture.x, texture.y),
{
    Vertex { position: [position.x, position.y, position.z, 1], uv: [texture.x, texture.y] }
}

/// The face emitters below advance at most one lattice step and one atlas
/// cell, which these bounds keep in range.
pub open spec fn spec_face_args_ok(origin: LocalPoint, texture: TexPoint) -> bool {
    &&& origin.x < 255 && origin.y < 255 && origin.z < 255
    &&& texture.x <= 0xffff - (TEXEL_NORMALIZER - 1)
    &&& texture.y <= 0xffff - (TEXEL_NORMALIZER - 1)
}


/// The six vertices of the bottom face of the unit cube at `origin`.
pub open spec fn spec_bottom_face(origin: LocalPoint, texture: TexPoint) -> Seq<Vertex> {
    seq![
        spec_vertex((origin.x) as u8, (origin.y) as u8, (origin.z + 1) as u8, texture.x, (texture.y + (TEXEL_NORMALIZER - 1)) as u16),
        spec_vertex((origin.x) as u8, (origin.y) as u8, (origin.z) as u8, texture.x, texture.y),
        spec_vertex((origin.x + 1) as u8, (origin.y) as u8, (origin.z + 1) as u8, (texture.x + (TEXEL_NORMALIZER - 1)) as u16, (texture.y + (TEXEL_NORMALIZER - 1)) as u16),
        spec_vertex((origin.x) as u8, (origin.y) as u8, (origin.z) as u8, texture.x, texture.y),
        spec_vertex((origin.x + 1) as u8, (origin.y) as u8, (origin.z) as u8, (texture.x + (TEXEL_NORMALIZER - 1)) as u16, texture.y),
        spec_vertex((origin.x + 1) as u8, (origin.y) as u8, (origin.z + 1) as u8, (texture.x + (TEXEL_NORMALIZER - 1)) as u16, (texture.y + (TEXEL_NORMALIZER - 1)) as u16),
    ]
}

/// Appends the bottom face's two triangles.
pub fn make_bottom(origin: LocalPoint, texture: TexPoint, vert_out: &mut Vec<Vertex>)
    requires
        spec_face_args_ok(origin, texture),
    ensures
        final(vert_out)@ == old(vert_out)@ + spec_bottom_face(origin, texture),
{
    let v = vec![
        vnew(
            LocalPoint { x: origin.x, y: origin.y, z: origin.z + 1 },
            TexPoint { x: texture.x, y: texture.y + (TEXEL_NORMALIZER - 1) },
        ),
        vnew(
            LocalPoint { x: origin.x, y: origin.y, z: origin.z },
            TexPoint { x: texture.x, y: texture.y },
        ),
        vnew(
            LocalPoint { x: origin.x + 1, y: origin.y, z: origin.z + 1 },
            TexPoint { x: texture.x + (TEXEL_NORMALIZER - 1), y: texture.y + (TEXEL_NORMALIZER - 1) },
        ),
        vnew(
            LocalPoint { x: origin.x, y: origin.y, z: origin.z },
            TexPoint { x: texture.x, y: texture.y },
        ),
        vnew(
            LocalPoint { x: origin.x + 1, y: origin.y, z: origin.z },
            TexPoint { x: texture.x + (TEXEL_NORMALIZER - 1), y: texture.y },
        ),
        vnew(
            LocalPoint { x: origin.x + 1, y: origin.y, z: origin.z + 1 },
            TexPoint { x: texture.x + (TEXEL_NORMALIZER - 1), y: texture.y + (TEXEL_NORMALIZER - 1) },
        ),
    ];
    let ghost out0 = vert_out@;
    let mut v = v;
    vert_out.append(&mut v);
    proof {
        assert(vert_out@ =~= out0 + spec_bottom_face(origin, texture));
    }
}


/// The six vertices of the top face of the unit cube at `origin`.
pub open spec fn spec_top_face(origin: LocalPoint, texture: TexPoint) -> Seq<Vertex> {
    seq![
        spec_vertex((origin.x) as u8, (origin.y + 1) as u8, (origin.z + 1) as u8, texture.x, (texture.y + (TEXEL_NORMALIZER - 1)) as u16),
        spec_vertex((origin.x + 1) as u8, (origin.y + 1) as u8, (origin.z + 1) as u8, (texture.x + (TEXEL_NORMALIZER - 1)) as u16, (texture.y + (TEXEL_NORMALIZER - 1)) as u16),
        spec_vertex((origin.x) as u8, (origin.y + 1) as u8, (origin.z) as u8, texture.x, texture.y),
        spec_vertex((origin.x + 1) as u8, (origin.y + 1) as u8, (origin.z + 1) as u8, (texture.x + (TEXEL_NORMALIZER - 1)) as u16, (texture.y + (TEXEL_NORMALIZER - 1)) as u16),
        spec_vertex((origin.x + 1) as u8, (origin.y + 1) as u8, (origin.z) as u8, (texture.x + (TEXEL_NORMALIZER - 1)) as u16, texture.y),
        spec_vertex((origin.x) as u8, (origin.y + 1) as u8, (origin.z) as u8, texture.x, texture.y),
    ]
}

/// Appends the top face's two triangles.
pub fn make_top(origin: LocalPoint, texture: TexPoint, vert_out: &mut Vec<Vertex>)
    requires
        spec_face_args_ok(origin, texture),
    ensures
        final(vert_out)@ == old(vert_out)@ + spec_top_face(origin, texture),
{
    let v = vec![
        vnew(
            LocalPoint { x: origin.x, y: origin.y + 1, z: origin.z + 1 },
            TexPoint { x: texture.x, y: texture.y + (TEXEL_NORMALIZER - 1) },
        ),
        vnew(
            LocalPoint { x: origin.x + 1, y: origin.y + 1, z: origin.z + 1 },
            TexPoint { x: texture.x + (TEXEL_NORMALIZER - 1), y: texture.y + (TEXEL_NORMALIZER - 1) },
        ),
        vnew(
            LocalPoint { x: origin.x, y: origin.y + 1, z: origin.z },
            TexPoint { x: texture.x, y: texture.y },
        ),
        vnew(
            LocalPoint { x: origin.x + 1, y: origin.y + 1, z: origin.z + 1 },
            TexPoint { x: texture.x + (TEXEL_NORMALIZER - 1), y: texture.y + (TEXEL_NORMALIZER - 1) },
        ),
        vnew(
            LocalPoint { x: origin.x + 1, y: origin.y + 1, z: origin.z },
            TexPoint { x: texture.x + (TEXEL_NORMALIZER - 1), y: texture.y },
        ),
        vnew(
            LocalPoint { x: origin.x, y: origin.y + 1, z: origin.z },
            TexPoint { x: texture.x, y: texture.y },
        ),
    ];
    let ghost out0 = vert_out@;
    let mut v = v;
    vert_out.append(&mut v);
    proof {
        assert(vert_out@ =~= out0 + spec_top_face(origin, texture));
    }
}


/// The six vertices of the back face of the unit cube at `origin`.
pub open spec fn spec_back_face(origin: LocalPoint, texture: TexPoint) -> Seq<Vertex> {
    seq![
        spec_vertex((origin.x) as u8, (origin.y) as u8, (origin.z) as u8, texture.x, texture.y),
        spec_vertex((origin.x) as u8, (origin.y + 1) as u8, (origin.z) as u8, texture.x, (texture.y + (TEXEL_NORMALIZER - 1)) as u16),
        spec_vertex((origin.x + 1) as u8, (origin.y) as u8, (origin.z) as u8, (texture.x + (TEXEL_NORMALIZER - 1)) as u16, texture.y),
        spec_vertex((origin.x) as u8, (origin.y + 1) as u8, (origin.z) as u8, texture.x, (texture.y + (TEXEL_NORMALIZER - 1)) as u16),
        spec_vertex((origin.x + 1) as u8, (origin.y + 1) as u8, (origin.z) as u8, (texture.x + (TEXEL_NORMALIZER - 1)) as u16, (texture.y + (TEXEL_NORMALIZER - 1)) as u16),
        spec_vertex((origin.x + 1) as u8, (origin.y) as u8, (origin.z) as u8, (texture.x + (TEXEL_NORMALIZER - 1)) as u16, texture.y),
    ]
}

/// Appends the back face's two triangles.
pub fn make_back(origin: LocalPoint, texture: TexPoint, vert_out: &mut Vec<Vertex>)
    requires
        spec_face_args_ok(origin, texture),
    ensures
        final(vert_out)@ == old(vert_out)@ + spec_back_face(origin, texture),
{
    let v = vec![
        vnew(
            LocalPoint { x: origin.x, y: origin.y, z: origin.z },
            TexPoint { x: texture.x, y: texture.y },
        ),
        vnew(
            LocalPoint { x: origin.x, y: origin.y + 1, z: origin.z },
            TexPoint { x: texture.x, y: texture.y + (TEXEL_NORMALIZER - 1) },
        ),
        vnew(
            LocalPoint { x: origin.x + 1, y: origin.y, z: origin.z },
            TexPoint { x: texture.x + (TEXEL_NORMALIZER - 1), y: texture.y },
        ),
        vnew(
            LocalPoint { x: origin.x, y: origin.y + 1, z: origin.z },
            TexPoint { x: texture.x, y: texture.y + (TEXEL_NORMALIZER - 1) },
        ),
        vnew(
            LocalPoint { x: origin.x + 1, y: origin.y + 1, z: origin.z },
            TexPoint { x: texture.x + (TEXEL_NORMALIZER - 1), y: texture.y + (TEXEL_NORMALIZER - 1) },
        ),
        vnew(
            LocalPoint { x: origin.x + 1, y: origin.y, z: origin.z },
            TexPoint { x: texture.x + (TEXEL_NORMALIZER - 1), y: texture.y },
        ),
    ];
    let ghost out0 = vert_out@;
    let mut v = v;
    vert_out.append(&mut v);
    proof {
        assert(vert_out@ =~= out0 + spec_back_face(origin, texture));
    }
}


/// The six vertices of the front face of the unit cube at `origin`.
pub open spec fn spec_front_face(origin: LocalPoint, texture: TexPoint) -> Seq<Vertex> {
    seq![
        spec_vertex((origin.x) as u8, (origin.y) as u8, (origin.z + 1) as u8, texture.x, texture.y),
        spec_vertex((origin.x + 1) as u8, (origin.y) as u8, (origin.z + 1) as u8, (texture.x + (TEXEL_NORMALIZER - 1)) as u16, texture.y),
        spec_vertex((origin.x) as u8, (origin.y + 1) as u8, (origin.z + 1) as u8, texture.x, (texture.y + (TEXEL_NORMALIZER - 1)) as u16),
        spec_vertex((origin.x + 1) as u8, (origin.y) as u8, (origin.z + 1) as u8, (texture.x + (TEXEL_NORMALIZER - 1)) as u16, texture.y),
        spec_vertex((origin.x + 1) as u8, (origin.y + 1) as u8, (origin.z + 1) as u8, (texture.x + (TEXEL_NORMALIZER - 1)) as u16, (texture.y + (TEXEL_NORMALIZER - 1)) as u16),
        spec_vertex((origin.x) as u8, (origin.y + 1) as u8, (origin.z + 1) as u8, texture.x, (texture.y + (TEXEL_NORMALIZER - 1)) as u16),
    ]
}

/// Appends the front face's two triangles.
pub fn make_front(origin: LocalPoint, texture: TexPoint, vert_out: &mut Vec<Vertex>)
    requires
        spec_face_args_ok(origin, texture),
    ensures
        final(vert_out)@ == old(vert_out)@ + spec_front_face(origin, texture),
{
    let v = vec![
        vnew(
            LocalPoint { x: origin.x, y: origin.y, z: origin.z + 1 },
            TexPoint { x: texture.x, y: texture.y },
        ),
        vnew(
            LocalPoint { x: origin.x + 1, y: origin.y, z: origin.z + 1 },
            TexPoint { x: texture.x + (TEXEL_NORMALIZER - 1), y: texture.y },
        ),
        vnew(
            LocalPoint { x: origin.x, y: origin.y + 1, z: origin.z + 1 },
            TexPoint { x: texture.x, y: texture.y + (TEXEL_NORMALIZER - 1) },
        ),
        vnew(
            LocalPoint { x: origin.x + 1, y: origin.y, z: origin.z + 1 },
            TexPoint { x: texture.x + (TEXEL_NORMALIZER - 1), y: texture.y },
        ),
        vnew(
            LocalPoint { x: origin.x + 1, y: origin.y + 1, z: origin.z + 1 },
            TexPoint { x: texture.x + (TEXEL_NORMALIZER - 1), y: texture.y + (TEXEL_NORMALIZER - 1) },
        ),
        vnew(
            LocalPoint { x: origin.x, y: origin.y + 1, z: origin.z + 1 },
            TexPoint { x: texture.x, y: texture.y + (TEXEL_NORMALIZER - 1) },
        ),
    ];
    let ghost out0 = vert_out@;
    let mut v = v;
    vert_out.append(&mut v);
    proof {
        assert(vert_out@ =~= out0 + spec_front_face(origin, texture));
    }
}


/// The six vertices of the left face of the unit cube at `origin`.
pub open spec fn spec_left_face(origin: LocalPoint, texture: TexPoint) -> Seq<Vertex> {
    seq![
        spec_vertex((origin.x) as u8, (origin.y) as u8, (origin.z) as u8, texture.x, texture.y),
        spec_vertex((origin.x) as u8, (origin.y) as u8, (origin.z + 1) as u8, (texture.x + (TEXEL_NORMALIZER - 1)) as u16, texture.y),
        spec_vertex((origin.x) as u8, (origin.y + 1) as u8, (origin.z) as u8, texture.x, (texture.y + (TEXEL_NORMALIZER - 1)) as u16),
        spec_vertex((origin.x) as u8, (origin.y) as u8, (origin.z + 1) as u8, (texture.x + (TEXEL_NORMALIZER - 1)) as u16, texture.y),
        spec_vertex((origin.x) as u8, (origin.y + 1) as u8, (origin.z + 1) as u8, (texture.x + (TEXEL_NORMALIZER - 1)) as u16, (texture.y + (TEXEL_NORMALIZER - 1)) as u16),
        spec_vertex((origin.x) as u8, (origin.y + 1) as u8, (origin.z) as u8, texture.x, (texture.y + (TEXEL_NORMALIZER - 1)) as u16),
    ]
}

/// Appends the left face's two triangles.
pub fn make_left(origin: LocalPoint, texture: TexPoint, vert_out: &mut Vec<Vertex>)
    requires
        spec_face_args_ok(origin, texture),
    ensures
        final(vert_out)@ == old(vert_out)@ + spec_left_face(origin, texture),
{
    let v = vec![
        vnew(
            LocalPoint { x: origin.x, y: origin.y, z: origin.z },
            TexPoint { x: texture.x, y: texture.y },
        ),
        vnew(
            LocalPoint { x: origin.x, y: origin.y, z: origin.z + 1 },
            TexPoint { x: texture.x + (TEXEL_NORMALIZER - 1), y: texture.y },
        ),
        vnew(
            LocalPoint { x: origin.x, y: origin.y + 1, z: origin.z },
            TexPoint { x: texture.x, y: texture.y + (TEXEL_NORMALIZER - 1) },
        ),
        vnew(
            LocalPoint { x: origin.x, y: origin.y, z: origin.z + 1 },
            TexPoint { x: texture.x + (TEXEL_NORMALIZER - 1), y: texture.y },
        ),
        vnew(
            LocalPoint { x: origin.x, y: origin.y + 1, z: origin.z + 1 },
            TexPoint { x: texture.x + (TEXEL_NORMALIZER - 1), y: texture.y + (TEXEL_NORMALIZER - 1) },
        ),
        vnew(
            LocalPoint { x: origin.x, y: origin.y + 1, z: origin.z },
            TexPoint { x: texture.x, y: texture.y + (TEXEL_NORMALIZER - 1) },
        ),
    ];
    let ghost out0 = vert_out@;
    let mut v = v;
    vert_out.append(&mut v);
    proof {
        assert(vert_out@ =~= out0 + spec_left_face(origin, texture));
    }
}


/// The six vertices of the right face of the unit cube at `origin`.
pub open spec fn spec_right_face(origin: LocalPoint, texture: TexPoint) -> Seq<Vertex> {
    seq![
        spec_vertex((origin.x + 1) as u8, (origin.y) as u8, (origin.z) as u8, texture.x, texture.y),
        spec_vertex((origin.x + 1) as u8, (origin.y + 1) as u8, (origin.z) as u8, texture.x, (texture.y + (TEXEL_NORMALIZER - 1)) as u16),
        spec_vertex((origin.x + 1) as u8, (origin.y) as u8, (origin.z + 1) as u8, (texture.x + (TEXEL_NORMALIZER - 1)) as u16, texture.y),
        spec_vertex((origin.x + 1) as u8, (origin.y + 1) as u8, (origin.z) as u8, texture.x, (texture.y + (TEXEL_NORMALIZER - 1)) as u16),
        spec_vertex((origin.x + 1) as u8, (origin.y + 1) as u8, (origin.z + 1) as u8, (texture.x + (TEXEL_NORMALIZER - 1)) as u16, (texture.y + (TEXEL_NORMALIZER - 1)) as u16),
        spec_vertex((origin.x + 1) as u8, (origin.y) as u8, (origin.z + 1) as u8, (texture.x + (TEXEL_NORMALIZER - 1)) as u16, texture.y),
    ]
}

/// Appends the right face's two triangles.
pub fn make_right(origin: LocalPoint, texture: TexPoint, vert_out: &mut Vec<Vertex>)
    requires
        spec_face_args_ok(origin, texture),
    ensures
        final(vert_out)@ == old(vert_out)@ + spec_right_face(origin, texture),
{
    let v = vec![
        vnew(
            LocalPoint { x: origin.x + 1, y: origin.y, z: origin.z },
            TexPoint { x: texture.x, y: texture.y },
        ),
        vnew(
            LocalPoint { x: origin.x + 1, y: origin.y + 1, z: origin.z },
            TexPoint { x: texture.x, y: texture.y + (TEXEL_NORMALIZER - 1) },
        ),
        vnew(
            LocalPoint { x: origin.x + 1, y: origin.y, z: origin.z + 1 },
            TexPoint { x: texture.x + (TEXEL_NORMALIZER - 1), y: texture.y },
        ),
        vnew(
            LocalPoint { x: origin.x + 1, y: origin.y + 1, z: origin.z },
            TexPoint { x: texture.x, y: texture.y + (TEXEL_NORMALIZER - 1) },
        ),
        vnew(
            LocalPoint { x: origin.x + 1, y: origin.y + 1, z: origin.z + 1 },
            TexPoint { x: texture.x + (TEXEL_NORMALIZER - 1), y: texture.y + (TEXEL_NORMALIZER - 1) },
        ),
        vnew(
            LocalPoint { x: origin.x + 1, y: origin.y, z: origin.z + 1 },
            TexPoint { x: texture.x + (TEXEL_NORMALIZER - 1), y: texture.y },
        ),
    ];
    let ghost out0 = vert_out@;
    let mut v = v;
    vert_out.append(&mut v);
    proof {
        assert(vert_out@ =~= out0 + spec_right_face(origin, texture));
    }
}


} // verus!
