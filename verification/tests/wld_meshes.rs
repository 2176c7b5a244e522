use libeq::wld::fragments::alternate_mesh::AlternateMeshFragment;
use libeq::wld::fragments::dm_sprite_def::DmSpriteDef;
use libeq::wld::fragments::dm_sprite_def_2::DmSpriteDef2;
use libeq::wld::fragments::{Fragment, FragmentRef, StringReference};

// Each builder below lays out the bytes of a mesh field by field, with zeros
// where the tests read nothing.

fn w(x: u32) -> Vec<u8> {
    x.to_le_bytes().to_vec()
}

fn i(x: i32) -> Vec<u8> {
    x.to_le_bytes().to_vec()
}

fn f(x: f32) -> Vec<u8> {
    x.to_le_bytes().to_vec()
}

fn h(x: u16) -> Vec<u8> {
    x.to_le_bytes().to_vec()
}

fn bits3(a: f32, b: f32, c: f32) -> (u32, u32, u32) {
    (a.to_bits(), b.to_bits(), c.to_bits())
}

/// The older mesh (0x2c) with 29 vertices, 12 faces, 64 mesh operations, one
/// skin assignment group and one face and vertex material group each.
fn gequip_mesh() -> Vec<u8> {
    let mut d = [
        i(-44),
        w(0x1802),
        w(29),
        w(29),
        w(29),
        w(0),
        w(12),
        h(64),
        h(0),
        w(1),
        i(5),
        w(0),
        f(0.0),
        f(0.0),
        f(0.0),
        f(0.0),
        f(0.0),
        f(12.247571),
    ]
    .concat();
    assert_eq!(d.len(), 68);
    for k in 0..29 {
        if k == 0 {
            d.extend([f(-5.070387), f(-5.073263), f(4.9999995)].concat());
        } else if k == 28 {
            d.extend([f(28.0), f(-0.07326539), f(-4.9999995)].concat());
        } else {
            d.extend([f(k as f32), f(0.5), f(-1.0)].concat());
        }
    }
    for k in 0..29 {
        if k == 0 {
            d.extend([f(0.99999994), f(0.99999976)].concat());
        } else if k == 28 {
            d.extend([f(0.5), f(0.5)].concat());
        } else {
            d.extend([f(0.25), f(k as f32 / 29.0)].concat());
        }
    }
    for k in 0..29 {
        if k == 0 {
            d.extend([f(0.0), f(-1.0), f(1.3435886e-7)].concat());
        } else if k == 28 {
            d.extend([f(1.0), w(0xb3ba_0000), f(-1.0)].concat());
        } else {
            d.extend([f(1.0), f(0.0), f(0.0)].concat());
        }
    }
    for k in 0..12u16 {
        let flags: u16 = if k <= 1 { 0b1001011 } else { 0 };
        let verts = if k == 0 { [3u16, 2, 0] } else { [k, k + 1, k + 2] };
        d.extend([h(flags), h(0), h(0), h(0), h(0), h(verts[0]), h(verts[1]), h(verts[2])].concat());
    }
    for k in 0..64u32 {
        let t = if k == 0 { 2 } else { 1 + k % 3 };
        d.extend([w(t), w(k), h(0), h(0)].concat());
    }
    d.extend([h(29), h(0)].concat());
    d.extend([w(1), h(12), h(0)].concat());
    d.extend([w(1), h(29), h(0)].concat());
    d
}

/// The older mesh with bit 14: 56 vertices, 28 faces, two material groups of
/// each kind and the six extra parameters.
fn gequip_beta_mesh() -> Vec<u8> {
    let mut d = [
        i(-6091),
        w(0x5803),
        w(56),
        w(56),
        w(56),
        w(0),
        w(28),
        h(0),
        h(0),
        w(0),
        i(567),
        w(0),
        f(0.0),
        f(0.0),
        f(2.2031567),
        f(-0.002979297),
        f(-0.88816565),
        f(3.0285614),
    ]
    .concat();
    for k in 0..56 {
        d.extend([f(k as f32), f(1.0), f(2.0)].concat());
    }
    for _ in 0..56 {
        d.extend([f(0.5), f(0.5)].concat());
    }
    for _ in 0..56 {
        d.extend([f(0.0), f(0.0), f(1.0)].concat());
    }
    for k in 0..28u16 {
        d.extend([h(0), h(0), h(0), h(0), h(0), h(k), h(k + 1), h(k + 2)].concat());
    }
    d.extend([w(2), h(20), h(0), h(8), h(1)].concat());
    d.extend([w(2), h(40), h(0), h(16), h(1)].concat());
    d.extend([f(-2.871873), f(0.0), f(1.0), f(2.0), f(3.0), f(4.0)].concat());
    d
}

#[test]
fn dm_sprite_def_it_parses() {
    let data = gequip_mesh();
    let frag = DmSpriteDef::parse(&data).unwrap().1;

    assert_eq!(frag.name_reference, StringReference::new(-44));
    assert_eq!(frag.flags, 0x1802);
    assert_eq!(frag.vertex_count, 29);
    assert_eq!(frag.texture_coordinate_count, 29);
    assert_eq!(frag.normal_count, 29);
    assert_eq!(frag.color_count, 0);
    assert_eq!(frag.face_count, 12);
    assert_eq!(frag.meshop_count, 64);
    assert_eq!(frag.skin_assignment_group_count, 1);
    assert_eq!(frag.material_list_ref, FragmentRef::new(5));
    assert_eq!(frag.center, bits3(0.0, 0.0, 0.0));
    assert_eq!(frag.params1, bits3(0.0, 0.0, 12.247571));
    assert_eq!(frag.vertices.len(), frag.vertex_count as usize);
    assert_eq!(frag.vertices[0], bits3(-5.070387, -5.073263, 4.9999995));
    assert_eq!(frag.texture_coordinates.len(), frag.texture_coordinate_count as usize);
    assert_eq!(frag.texture_coordinates[0], (0.99999994f32.to_bits(), 0.99999976f32.to_bits()));
    assert_eq!(frag.vertex_normals.len(), frag.normal_count as usize);
    assert_eq!(frag.vertex_normals[0], bits3(0.0, -1.0, 1.3435886e-7));
    assert_eq!(frag.vertex_colors.len(), frag.color_count as usize);
    assert_eq!(frag.faces.len(), frag.face_count as usize);
    assert_eq!(frag.faces[1].flags, 0b1001011);
    assert_eq!(frag.faces[0].data, (0, 0, 0, 0));
    assert_eq!(frag.faces[0].vertex_indexes, (3, 2, 0));
    assert_eq!(frag.meshops.len(), frag.meshop_count as usize);
    assert_eq!(frag.meshops[0].param1, 0);
    assert_eq!(frag.meshops[0].param2, 0);
    assert_eq!(frag.meshops[0].type_field, 2);
    assert_eq!(frag.skin_assignment_groups.len(), frag.skin_assignment_group_count as usize);
    assert_eq!(frag.size8, None);
    assert_eq!(frag.data8, None);
    assert_eq!(frag.face_material_group_count, Some(1));
    assert_eq!(frag.face_material_groups, Some(vec![(12, 0)]));
    assert_eq!(frag.vertex_material_group_count, Some(1));
    assert_eq!(frag.vertex_material_groups, Some(vec![(29, 0)]));
}

#[test]
fn dm_sprite_def_it_parses_with_bit14() {
    let data = gequip_beta_mesh();
    let frag = DmSpriteDef::parse(&data).unwrap().1;

    assert_eq!(frag.name_reference, StringReference::new(-6091));
    assert_eq!(frag.flags, 0x5803);
    assert_eq!(frag.vertex_count, 56);
    assert_eq!(frag.texture_coordinate_count, 56);
    assert_eq!(frag.normal_count, 56);
    assert_eq!(frag.color_count, 0);
    assert_eq!(frag.face_count, 28);
    assert_eq!(frag.meshop_count, 0);
    assert_eq!(frag.skin_assignment_group_count, 0);
    assert_eq!(frag.material_list_ref, FragmentRef::new(567));
    assert_eq!(frag.center, bits3(0.0, 0.0, 2.2031567));
    assert_eq!(frag.params1, bits3(-0.002979297, -0.88816565, 3.0285614));
    assert_eq!(frag.vertices.len(), frag.vertex_count as usize);
    assert_eq!(frag.texture_coordinates.len(), frag.texture_coordinate_count as usize);
    assert_eq!(frag.vertex_normals.len(), frag.normal_count as usize);
    assert_eq!(frag.vertex_colors.len(), frag.color_count as usize);
    assert_eq!(frag.faces.len(), frag.face_count as usize);
    assert_eq!(frag.meshops.len(), frag.meshop_count as usize);
    assert_eq!(frag.skin_assignment_groups.len(), frag.skin_assignment_group_count as usize);
    assert_eq!(frag.size8, None);
    assert_eq!(frag.data8, None);
    assert_eq!(frag.face_material_group_count, Some(2));
    assert_eq!(frag.vertex_material_group_count, Some(2));
    assert_eq!(frag.params3.unwrap().0 .0, (-2.871873f32).to_bits());
}

#[test]
fn dm_sprite_def_it_serializes() {
    let data = gequip_mesh();
    let frag = DmSpriteDef::parse(&data).unwrap().1;

    assert_eq!(&frag.into_bytes()[..], &data[..]);
}

#[test]
fn dm_sprite_def_with_bit14_serializes() {
    let data = gequip_beta_mesh();
    let frag = DmSpriteDef::parse(&data).unwrap().1;

    assert_eq!(&frag.into_bytes()[..], &data[..]);
}

#[test]
fn dm_sprite_def_refuses_a_short_list() {
    let data = gequip_mesh();
    assert!(DmSpriteDef::parse(&data[..data.len() - 1]).is_err());
    assert!(DmSpriteDef::parse(&data[..67]).is_err());
}

/// The newer mesh (0x36) header: 96 bytes.
fn mesh2_header(counts: [u16; 10]) -> Vec<u8> {
    let mut d = [
        i(-1134),
        w(0x18003),
        i(131),
        i(0),
        i(0),
        i(-2),
        f(-2502.0),
        f(-2432.0),
        f(190.0),
        w(0),
        w(0),
        w(0),
        f(37.817947),
        f(0.0),
        f(0.0),
        f(0.0),
        f(0.0),
        f(0.0),
        f(0.0),
    ]
    .concat();
    for c in counts.iter() {
        d.extend(h(*c));
    }
    assert_eq!(d.len(), 96);
    d
}

/// A region mesh: eight vertices, six faces, one material group of each kind.
fn gfaydark_mesh() -> Vec<u8> {
    let mut d = mesh2_header([8, 8, 8, 8, 6, 0, 1, 1, 0, 5]);
    for k in 0..8i16 {
        let p: [i16; 3] = if k == 0 { [2, -1154, -3] } else { [k, k * 2, -k] };
        d.extend([p[0].to_le_bytes(), p[1].to_le_bytes(), p[2].to_le_bytes()].concat());
    }
    for _ in 0..8 {
        d.extend([77i16.to_le_bytes(), 77i16.to_le_bytes()].concat());
    }
    for _ in 0..8 {
        d.extend([29u8, 31, 119]);
    }
    for _ in 0..8 {
        d.extend(w(4043374848));
    }
    for k in 0..6u16 {
        d.extend([h(0), h(k), h(k + 1), h(k + 2)].concat());
    }
    d.extend([h(6), h(0)].concat());
    d.extend([h(8), h(0)].concat());
    d
}

/// A character mesh with 1387 mesh operations (and two bytes of padding).
fn global_chr_mesh() -> Vec<u8> {
    let mut d = mesh2_header([0, 0, 0, 0, 0, 0, 0, 0, 1387, 0]);
    for k in 0..1387u32 {
        if k == 0 {
            d.extend([h(4), h(0), vec![0u8, 2]].concat());
        } else if k == 5 {
            d.extend([f(1.0), vec![0u8, 4]].concat());
        } else if k == 1 {
            d.extend([h(1), h(2), vec![0u8, 3]].concat());
        } else {
            d.extend([h(k as u16), h(0), vec![1u8, 1 + (k % 3) as u8]].concat());
        }
    }
    d.extend([0u8, 0]);
    d
}

#[test]
fn dm_sprite_def_2_it_parses() {
    let data = gfaydark_mesh();
    let frag = DmSpriteDef2::parse(&data).unwrap().1;

    assert_eq!(frag.name_reference, StringReference::new(-1134));
    assert_eq!(frag.flags, 0x18003);
    assert_eq!(frag.material_list_ref, FragmentRef::new(131));
    assert_eq!(frag.animation_ref, FragmentRef::new(0));
    assert_eq!(frag.fragment3, FragmentRef::new(0));
    assert_eq!(frag.fragment4, FragmentRef::new(-2));
    assert_eq!(frag.center, bits3(-2502.0, -2432.0, 190.0));
    assert_eq!(frag.params2, (0, 0, 0));
    assert_eq!(frag.max_distance, 37.817947f32.to_bits());
    assert_eq!(frag.min, bits3(0.0, 0.0, 0.0));
    assert_eq!(frag.max, bits3(0.0, 0.0, 0.0));
    assert_eq!(frag.position_count, 8);
    assert_eq!(frag.texture_coordinate_count, 8);
    assert_eq!(frag.normal_count, 8);
    assert_eq!(frag.face_count, 6);
    assert_eq!(frag.skin_assignment_groups_count, 0);
    assert_eq!(frag.face_material_groups_count, 1);
    assert_eq!(frag.vertex_material_groups_count, 1);
    assert_eq!(frag.meshop_count, 0);
    assert_eq!(frag.scale, 5);
    assert_eq!(frag.positions.len(), 8);
    assert_eq!(frag.positions[0], (2, -1154, -3));
    assert_eq!(frag.texture_coordinates.len(), 8);
    assert_eq!(frag.texture_coordinates[0], (77, 77));
    assert_eq!(frag.vertex_normals.len(), 8);
    assert_eq!(frag.vertex_normals[0], (29, 31, 119));
    assert_eq!(frag.vertex_colors.len(), 8);
    assert_eq!(frag.vertex_colors[0], 4043374848);
    assert_eq!(frag.faces.len(), 6);
    assert_eq!(frag.faces[0].flags, 0);
    assert_eq!(frag.faces[0].vertex_indexes, (0, 1, 2));
    assert_eq!(frag.skin_assignment_groups.len(), 0);
    assert_eq!(frag.face_material_groups.len(), 1);
    assert_eq!(frag.face_material_groups[0], (6, 0));
    assert_eq!(frag.vertex_material_groups.len(), 1);
    assert_eq!(frag.vertex_material_groups[0], (8, 0));
    assert_eq!(frag.meshops.len(), 0);
}

#[test]
fn it_parses_meshops() {
    let data = global_chr_mesh();
    let frag = DmSpriteDef2::parse(&data).unwrap().1;

    assert_eq!(frag.meshop_count, 1387);
    assert_eq!(frag.meshops.len(), 1387);

    for item in frag.meshops.iter() {
        assert!(item.type_field <= 4);
    }

    assert_eq!(frag.meshops[0].type_field, 2);
    assert_eq!(frag.meshops[0].index1.unwrap(), 4);
    assert_eq!(frag.meshops[0].index2.unwrap(), 0);

    assert_eq!(frag.meshops[1].type_field, 3);

    assert_eq!(frag.meshops[5].type_field, 4);
    assert_eq!(frag.meshops[5].offset.unwrap(), 1.0f32.to_bits());
}

#[test]
fn dm_sprite_def_2_it_serializes() {
    let data = gfaydark_mesh();
    let frag = DmSpriteDef2::parse(&data).unwrap().1;

    assert_eq!(&frag.to_bytes()[..], &data[..]);
}

#[test]
fn it_serializes_meshops() {
    let data = global_chr_mesh();
    let frag = DmSpriteDef2::parse(&data).unwrap().1;

    assert_eq!(&frag.to_bytes()[..], &data[..]);
}

#[test]
fn dm_sprite_def_2_refuses_a_short_list() {
    let data = gfaydark_mesh();
    assert!(DmSpriteDef2::parse(&data[..data.len() - 1]).is_err());
}

#[test]
fn alternate_mesh_it_parses() {
    let data = gequip_mesh();
    let frag = AlternateMeshFragment::parse(&data).unwrap().1;

    assert_eq!(frag.name_reference, StringReference::new(-44));
    assert_eq!(frag.flags, 0x1802);
    assert_eq!(frag.vertex_count, 29);
    assert_eq!(frag.tex_coords_count, 29);
    assert_eq!(frag.normals_count, 29);
    assert_eq!(frag.size4, 0);
    assert_eq!(frag.polygon_count, 12);
    assert_eq!(frag.size6, 64);
    assert_eq!(frag.vertex_piece_count, 0);
    assert_eq!(frag.fragment1, 1);
    assert_eq!(frag.fragment2, 5);
    assert_eq!(frag.fragment3, 0);
    assert_eq!(frag.center, bits3(0.0, 0.0, 0.0));
    assert_eq!(frag.params2, 0);
    assert_eq!(frag.vertices.len(), frag.vertex_count as usize);
    assert_eq!(frag.vertices[0], bits3(0.0, 12.247571, -5.070387));
    assert_eq!(frag.texture_coords.len(), frag.tex_coords_count as usize);
    assert_eq!(frag.texture_coords[0], ((-0.07326539f32).to_bits(), (-4.9999995f32).to_bits()));
    assert_eq!(frag.normals.len(), frag.normals_count as usize);
    assert_eq!(frag.normals[0], bits3(0.5, 0.5, 0.0));
    assert_eq!(frag.data4.len(), frag.size4 as usize);
    assert_eq!(frag.polygons.len(), frag.polygon_count as usize);
    assert_eq!(frag.polygons[1].flags, 0);
    assert_eq!(frag.polygons[0].data, (46010, 0, 49024, 75));
    assert_eq!(frag.polygons[0].vertex_indexes, (0, 0, 0));
    assert_eq!(frag.data6.len(), frag.size6 as usize);
    assert_eq!(frag.vertex_pieces.len(), frag.vertex_piece_count as usize);
    assert_eq!(frag.size8, None);
    assert_eq!(frag.data8, None);
    assert_eq!(frag.data9.len(), 1);
    assert_eq!(frag.polygontex_count, Some(1));
    assert_eq!(frag.polygontex_entries, Some(vec![(12, 0)]));
    assert_eq!(frag.vertex_material_count, Some(1));
    assert_eq!(frag.vertex_materials, Some(vec![(29, 0)]));
}

#[test]
fn alternate_mesh_it_parses_with_bit14() {
    let data = gequip_beta_mesh();
    let frag = AlternateMeshFragment::parse(&data).unwrap().1;

    assert_eq!(frag.name_reference, StringReference::new(-6091));
    assert_eq!(frag.flags, 0x5803);
    assert_eq!(frag.vertex_count, 56);
    assert_eq!(frag.tex_coords_count, 56);
    assert_eq!(frag.normals_count, 56);
    assert_eq!(frag.size4, 0);
    assert_eq!(frag.polygon_count, 28);
    assert_eq!(frag.size6, 0);
    assert_eq!(frag.vertex_piece_count, 0);
    assert_eq!(frag.fragment1, 0);
    assert_eq!(frag.fragment2, 567);
    assert_eq!(frag.fragment3, 0);
    assert_eq!(frag.center, bits3(0.0, 0.0, 2.2031567));
    assert_eq!(frag.params2, 3141746767);
    assert_eq!(frag.vertices.len(), frag.vertex_count as usize);
    assert_eq!(frag.texture_coords.len(), frag.tex_coords_count as usize);
    assert_eq!(frag.normals.len(), frag.normals_count as usize);
    assert_eq!(frag.data4.len(), frag.size4 as usize);
    assert_eq!(frag.polygons.len(), frag.polygon_count as usize);
    assert_eq!(frag.data6.len(), frag.size6 as usize);
    assert_eq!(frag.vertex_pieces.len(), frag.vertex_piece_count as usize);
    assert_eq!(frag.size8, None);
    assert_eq!(frag.data8, None);
    assert_eq!(frag.data9.len(), 0);
    assert_eq!(frag.polygontex_count, Some(2));
    assert_eq!(frag.vertex_material_count, Some(2));
    assert_eq!(frag.params5.unwrap().0, 3224882372);
}

#[test]
fn alternate_mesh_it_serializes() {
    let data = gequip_mesh();
    let frag = AlternateMeshFragment::parse(&data).unwrap().1;

    assert_eq!(&frag.into_bytes()[..], &data[..]);
}

#[test]
fn alternate_mesh_refuses_negative_vertex_pieces() {
    let mut data = gequip_mesh();
    data[30] = 0xff;
    data[31] = 0xff;
    assert!(AlternateMeshFragment::parse(&data).is_err());
}

#[test]
fn dm_sprite_def_2_written_mesh_reads_back() {
    let data = global_chr_mesh();
    let frag = DmSpriteDef2::parse(&data).unwrap().1;
    let mut bytes = frag.to_bytes();
    bytes.extend([7u8, 7, 7, 7]);
    let (rest, again) = DmSpriteDef2::parse(&bytes).unwrap();
    assert_eq!(again, frag);
    assert_eq!(rest.len() >= 4, true);
    assert_eq!(&rest[rest.len() - 4..], &[7u8, 7, 7, 7][..]);
}

#[test]
fn dm_sprite_def_written_mesh_reads_back() {
    let data = gequip_beta_mesh();
    let frag = DmSpriteDef::parse(&data).unwrap().1;
    let bytes = frag.into_bytes();
    let (rest, again) = DmSpriteDef::parse(&bytes).unwrap();
    assert_eq!(again, frag);
    assert_eq!(rest, &[][..]);
}

#[test]
fn alternate_mesh_written_mesh_reads_back() {
    let data = gequip_mesh();
    let frag = AlternateMeshFragment::parse(&data).unwrap().1;
    let bytes = frag.into_bytes();
    let (rest, again) = AlternateMeshFragment::parse(&bytes).unwrap();
    assert_eq!(again, frag);
    assert_eq!(rest, &[][..]);
}
