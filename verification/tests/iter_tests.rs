use subsurface::geometry::{point3, LocalPoint, TexPoint};
use subsurface::iter::PointIter;
use subsurface::mesh::{make_top, vnew, Vertex, TEXEL_NORMALIZER};

#[test]
fn point_iter_sweeps_x_fastest_inclusive() {
    let mut iter = PointIter::new(point3(0, 0, 0), point3(1, 1, 1));
    let mut seen = Vec::new();
    while let Some(p) = iter.next() {
        seen.push(p);
    }
    assert_eq!(
        seen,
        vec![
            point3(0, 0, 0),
            point3(1, 0, 0),
            point3(0, 1, 0),
            point3(1, 1, 0),
            point3(0, 0, 1),
            point3(1, 0, 1),
            point3(0, 1, 1),
            point3(1, 1, 1),
        ]
    );
    assert_eq!(iter.next(), None);
}

#[test]
fn point_iter_single_point_box() {
    let mut iter = PointIter::new(point3(-3, 7, 2), point3(-3, 7, 2));
    assert_eq!(iter.next(), Some(point3(-3, 7, 2)));
    assert_eq!(iter.next(), None);
    assert_eq!(iter.next(), None);
}

#[test]
fn point_iter_covers_negative_ranges() {
    let mut iter = PointIter::new(point3(-2, 0, 0), point3(0, 0, 0));
    assert_eq!(iter.next(), Some(point3(-2, 0, 0)));
    assert_eq!(iter.next(), Some(point3(-1, 0, 0)));
    assert_eq!(iter.next(), Some(point3(0, 0, 0)));
    assert_eq!(iter.next(), None);
}

#[test]
fn mesh_face_emits_two_triangles() {
    let mut verts: Vec<Vertex> = Vec::new();
    let origin = LocalPoint { x: 1, y: 2, z: 3 };
    let texture = TexPoint { x: 0, y: 0 };
    make_top(origin, texture, &mut verts);
    assert_eq!(verts.len(), 6);
    assert_eq!(verts[0].position, [1, 3, 4, 1]);
    assert_eq!(verts[0].uv, [0, TEXEL_NORMALIZER - 1]);
    assert_eq!(verts[2].position, [1, 3, 3, 1]);
    assert_eq!(verts[2].uv, [0, 0]);
}

#[test]
fn vnew_keeps_position_and_texture() {
    let v = vnew(LocalPoint { x: 4, y: 5, z: 6 }, TexPoint { x: 100, y: 200 });
    assert_eq!(v.position, [4, 5, 6, 1]);
    assert_eq!(v.uv, [100, 200]);
}
