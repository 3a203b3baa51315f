use subsurface::block::{
    Block, BlockID, Face, FaceVisibility, LightKind, LightLevel, SunLightLevel, VISIBLE_BACK,
    VISIBLE_BOTTOM, VISIBLE_FRONT, VISIBLE_LEFT, VISIBLE_NONE, VISIBLE_RIGHT, VISIBLE_TOP,
    VISIBLE_UNSET,
};
use subsurface::block::solid_no_light;
use subsurface::geometry::{clamp, point2, point3, UvCoord, WorldPoint};
use subsurface::registry::{BlockUV, Registry};

#[test]
fn face_indices_follow_fixed_order() {
    let faces = Face::iter();
    assert_eq!(faces.len(), 6);
    for (i, face) in faces.iter().enumerate() {
        assert_eq!(face.to_index(), i);
        assert_eq!(Face::from_index(i).to_index(), i);
    }
    assert_eq!(faces[0], Face::Top);
    assert_eq!(faces[1], Face::Bottom);
    assert_eq!(faces[2], Face::Left);
    assert_eq!(faces[3], Face::Right);
    assert_eq!(faces[4], Face::Front);
    assert_eq!(faces[5], Face::Back);
}

#[test]
fn face_masks_are_distinct_bits() {
    assert_eq!(Face::Top.to_visible_mask().0, VISIBLE_TOP);
    assert_eq!(Face::Bottom.to_visible_mask().0, VISIBLE_BOTTOM);
    assert_eq!(Face::Left.to_visible_mask().0, VISIBLE_LEFT);
    assert_eq!(Face::Right.to_visible_mask().0, VISIBLE_RIGHT);
    assert_eq!(Face::Front.to_visible_mask().0, VISIBLE_FRONT);
    assert_eq!(Face::Back.to_visible_mask().0, VISIBLE_BACK);
    let all = VISIBLE_TOP | VISIBLE_BOTTOM | VISIBLE_LEFT | VISIBLE_RIGHT | VISIBLE_FRONT
        | VISIBLE_BACK;
    assert_eq!(all, 0b0011_1111);
    assert_eq!(VISIBLE_NONE, 0);
    assert_eq!(VISIBLE_UNSET, 0xff);
}

#[test]
fn face_normals_round_trip() {
    for face in Face::iter() {
        let n = face.normal();
        assert_eq!(Face::from_normal(n).to_index(), face.to_index());
        let o = face.opposite().normal();
        assert_eq!(n.x, -o.x);
        assert_eq!(n.y, -o.y);
        assert_eq!(n.z, -o.z);
    }
    assert_eq!(Face::from_normal(point3(1, 0, 0)), Face::Right);
    assert_eq!(Face::from_normal(point3(0, -1, 0)), Face::Bottom);
}

#[test]
fn block_emptiness_follows_reserved_id() {
    let b = Block::from_id_only(BlockID(0));
    assert!(b.is_empty());
    assert_eq!(b.visibility.0, VISIBLE_UNSET);
    let s = Block::from_id_only(BlockID(7));
    assert!(!s.is_empty());
}

#[test]
fn face_light_reads_source_and_solid() {
    let source = Block::from_id(BlockID(1), FaceVisibility(VISIBLE_NONE), LightKind::source(3, 9));
    for face in Face::iter() {
        let (sun, block) = source.face_light(face);
        assert_eq!(sun, SunLightLevel(3));
        assert_eq!(block, LightLevel(9));
    }
    let dark = Block::from_id(BlockID(1), FaceVisibility(VISIBLE_NONE), solid_no_light());
    for face in Face::iter() {
        let (sun, block) = dark.face_light(face);
        assert_eq!(sun, SunLightLevel(0));
        assert_eq!(block, LightLevel(0));
    }
}

#[test]
fn visibility_bits_answer_is_visible() {
    let b = Block::from_id(
        BlockID(2),
        FaceVisibility(VISIBLE_TOP | VISIBLE_LEFT),
        LightKind::source(0, 0),
    );
    assert!(b.is_visible(Face::Top));
    assert!(b.is_visible(Face::Left));
    assert!(!b.is_visible(Face::Bottom));
    assert!(!b.is_visible(Face::Right));
    assert!(!b.is_visible(Face::Front));
    assert!(!b.is_visible(Face::Back));
}

#[test]
fn visibility_set_operations() {
    let v = FaceVisibility(VISIBLE_NONE).with(VISIBLE_TOP).with(VISIBLE_BACK);
    assert!(v.contains(VISIBLE_TOP));
    assert!(v.contains(VISIBLE_BACK));
    assert!(!v.contains(VISIBLE_LEFT));
    let w = v.without(VISIBLE_TOP);
    assert!(!w.contains(VISIBLE_TOP));
    assert!(w.contains(VISIBLE_BACK));
}

#[test]
fn clamp_picks_the_nearest_bound() {
    assert_eq!(clamp(5, 0, 3), 3);
    assert_eq!(clamp(-2, 0, 3), 0);
    assert_eq!(clamp(2, 0, 3), 2);
    assert_eq!(clamp(7u8, 7, 7), 7);
}

#[test]
fn registry_holds_the_fixed_catalog() {
    let registry = Registry::new();
    assert_eq!(registry.lookup_id(&String::from("stone")), Some(BlockID(1)));
    assert_eq!(registry.lookup_id(&String::from("dirt")), Some(BlockID(2)));
    assert_eq!(registry.lookup_id(&String::from("grass")), Some(BlockID(3)));
    assert_eq!(registry.lookup_id(&String::from("marble")), None);
    let stone = registry.lookup_texture(BlockID(1)).unwrap();
    for face in Face::iter() {
        assert_eq!(stone.get_face(face), point2(2, 0));
    }
    let grass = registry.lookup_texture(BlockID(3)).unwrap();
    assert_eq!(grass.get_face(Face::Top), UvCoord { x: 1, y: 0 });
    assert_eq!(grass.get_face(Face::Bottom), UvCoord { x: 0, y: 0 });
    assert_eq!(grass.get_face(Face::Left), UvCoord { x: 3, y: 0 });
    assert_eq!(registry.lookup_texture(BlockID(9)), None);
}

#[test]
fn registry_register_block_overrides_and_extends() {
    let mut registry = Registry::new();
    registry.register_block(
        String::from("marble"),
        BlockID(4),
        BlockUV::one_face(point2(5, 1)),
    );
    assert_eq!(registry.lookup_id(&String::from("marble")), Some(BlockID(4)));
    registry.register_block(
        String::from("stone"),
        BlockID(6),
        BlockUV::one_face(point2(1, 1)),
    );
    assert_eq!(registry.lookup_id(&String::from("stone")), Some(BlockID(6)));
    assert_eq!(registry.lookup_id(&String::from("dirt")), Some(BlockID(2)));
    assert_eq!(
        registry.lookup_texture(BlockID(6)).unwrap().get_face(Face::Top),
        point2(1, 1)
    );
}

#[test]
fn world_points_compare_by_fields() {
    let p = WorldPoint { x: 1, y: -2, z: 3 };
    assert_eq!(p, point3(1, -2, 3));
    assert_ne!(p, point3(1, -2, 4));
}
