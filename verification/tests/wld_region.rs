use libeq::wld::fragments::common::render_info::{MaterialType, RenderInfoFlags, RenderMethod};
use libeq::wld::fragments::common::render::{UvInfo, UvMap};
use libeq::wld::fragments::region::{ObstacleType, RangeEntry, Region, RegionFlags, WallFlags};
use libeq::wld::fragments::{FragmentRef, StringReference};

// Each builder below lays out the bytes of a region field by field, with
// zeros where the tests read nothing.

fn w(x: u32) -> Vec<u8> {
    x.to_le_bytes().to_vec()
}

fn i(x: i32) -> Vec<u8> {
    x.to_le_bytes().to_vec()
}

fn f(x: f32) -> Vec<u8> {
    x.to_le_bytes().to_vec()
}

fn b(x: f32) -> u32 {
    x.to_bits()
}

const BYTE_RANGES: [u8; 14] = [254, 242, 24, 202, 86, 81, 39, 218, 87, 63, 44, 10, 19, 216];

/// A region with one visibility node and one visible list of byte entries,
/// a bounding sphere, and the given extra list entries and mesh reference.
fn gfaydark_region(extra_entries: &[u8], mesh_reference: Option<i32>) -> Vec<u8> {
    let flags: u32 = if mesh_reference.is_some() { 0x181 } else { 0x81 };
    let mut d = [i(-29318), w(flags), w(0), w(0), w(0), w(0), w(0), w(0), w(0), w(1), w(1)].concat();
    // visibility node: normal, list index, front and back trees
    d.extend([w(0), w(0), w(0), w(0), w(1), w(0), w(0)].concat());
    let n = BYTE_RANGES.len() + extra_entries.len();
    d.extend((n as u16).to_le_bytes());
    d.extend(BYTE_RANGES);
    d.extend(extra_entries);
    d.extend([f(-2935.2515), f(-2823.152), f(-19.758118), f(238.07394)].concat());
    d.extend(w(0));
    if let Some(r) = mesh_reference {
        d.extend(i(r));
    }
    d
}

fn gfaydark_1731() -> Vec<u8> {
    gfaydark_region(&[], None)
}

fn gfaydark_1738() -> Vec<u8> {
    gfaydark_region(&[], Some(132))
}

fn gfaydark_3260() -> Vec<u8> {
    let mut d = gfaydark_region(&[7], None);
    assert_eq!(d.len() % 4, 1);
    d.extend([0, 0, 0]);
    d
}

/// A region with seven walls and ten obstacles, laid out so that two bytes of
/// padding follow it.
fn tanarus_8000() -> Vec<u8> {
    let mut walls: Vec<u8> = Vec::new();
    // wall 0: a diffuse wall with every render info part
    walls.extend([w(0x2), w(4), w(9700), w(9590), w(9574), w(9687), w(0x8000_0001)].concat());
    walls.extend([w(63), w(201), f(1.0), f(1.0), w(7994)].concat());
    walls.extend(
        [f(944.000061), f(32.0), f(-0.000015), f(-16.0), f(-0.000001), f(0.0), f(0.0), f(-0.000001), f(16.000015)]
            .concat(),
    );
    walls.extend([w(5), f(0.0), f(1.0), f(1.0), f(1.0), f(1.0), f(0.0), f(0.0), f(0.0), f(0.0), f(0.0)].concat());
    walls.extend([f(0.0), f(1.0), f(0.0), f(-31.999935)].concat());
    // walls 1 to 5: plain vertex lists
    for k in 0..5u32 {
        walls.extend([w(0), w(3), w(100 + k), w(200 + k), w(300 + k)].concat());
    }
    // wall 6: a floor
    walls.extend([w(0x3), w(3), w(1), w(2), w(3), w(0x8000_0006), w(0)].concat());
    walls.extend([f(0.0), f(0.0), f(1.0), f(-8.0)].concat());

    let mut obstacles: Vec<u8> = Vec::new();
    obstacles.extend([w(0), i(1068), i(-15), w(6), w(9570), w(9574), w(9590), w(9591), w(9592), w(9621)].concat());
    obstacles.extend([f(1.0), f(0.0), f(0.0), f(-944.000061)].concat());
    obstacles.extend([w(0), i(1069), i(14), w(3), w(1), w(2), w(3)].concat());
    obstacles.extend([w(0), i(1070), i(14), w(3), w(4), w(5), w(6)].concat());
    obstacles.extend([w(0), i(0), i(18), w(0)].concat());
    for k in 4..9u32 {
        obstacles.extend([w(0), i(0), i(18), w(k - 3)].concat());
    }
    obstacles.extend([w(1), i(0), i(18), w(6)].concat());

    let head = |entries: usize| -> Vec<u8> {
        let mut d = [i(-1), w(0x81), w(0), w(0), w(0), w(0), w(7), w(10), w(0), w(1), w(1)].concat();
        d.extend(&walls);
        d.extend(&obstacles);
        d.extend([w(0), w(0), w(0), w(0), w(1), w(0), w(0)].concat());
        d.extend((entries as u16).to_le_bytes());
        d.extend(vec![0xc1u8; entries]);
        d.extend([f(0.0), f(0.0), f(0.0), f(100.0)].concat());
        d.extend(w(0));
        d
    };
    let mut entries = 1;
    while head(entries).len() % 4 != 2 {
        entries += 1;
    }
    let mut d = head(entries);
    d.extend([0, 0]);
    d
}

#[test]
fn region_it_parses() {
    let data = gfaydark_1731();
    let (remaining, frag) = Region::parse(&data).unwrap();

    assert_eq!(frag.name_reference, StringReference::new(-29318));
    assert_eq!(frag.flags, RegionFlags(0x81));
    assert_eq!(frag.ambient_light, FragmentRef::new(0));
    assert_eq!(frag.num_region_vertex, 0);
    assert_eq!(frag.num_proximal_regions, 0);
    assert_eq!(frag.num_render_vertices, 0);
    assert_eq!(frag.num_walls, 0);
    assert_eq!(frag.num_obstacles, 0);
    assert_eq!(frag.num_cutting_obstacles, 0);
    assert_eq!(frag.num_vis_node, 1);
    assert_eq!(frag.num_vis_list, 1);
    assert_eq!(frag.region_vertices.len(), 0);
    assert_eq!(frag.proximal_regions.len(), 0);
    assert_eq!(frag.render_vertices.len(), 0);
    assert_eq!(frag.walls.len(), 0);
    assert_eq!(frag.obstacles.len(), 0);
    assert_eq!(frag.vis_nodes[0].normal_abcd, (b(0.0), b(0.0), b(0.0), b(0.0)));
    assert_eq!(frag.vis_nodes[0].vis_list_index, 1);
    assert_eq!(frag.vis_nodes[0].front_tree, 0);
    assert_eq!(frag.vis_nodes[0].back_tree, 0);
    assert_eq!(frag.visible_lists.len(), 1);
    assert_eq!(frag.visible_lists[0].range_count, 14);
    assert_eq!(
        frag.visible_lists[0].ranges,
        vec![254u8, 242, 24, 202, 86, 81, 39, 218, 87, 63, 44, 10, 19, 216]
            .iter()
            .map(|i| RangeEntry::Byte(*i))
            .collect::<Vec<_>>()
    );
    assert_eq!(frag.sphere, Some((b(-2935.2515), b(-2823.152), b(-19.758118), b(238.07394))));
    assert_eq!(frag.reverb_volume, None);
    assert_eq!(frag.reverb_offset, None);
    assert_eq!(frag.user_data_size, 0);
    assert_eq!(frag.user_data, Vec::<u8>::new());
    assert_eq!(frag.mesh_reference, None);
    assert_eq!(remaining, &[][..]);
}

#[test]
fn it_parses_with_mesh_reference() {
    let data = gfaydark_1738();
    let (remaining, frag) = Region::parse(&data).unwrap();
    assert_eq!(frag.mesh_reference, Some(FragmentRef::new(132)));
    assert_eq!(remaining, &[][..]);
}

#[test]
fn it_parses_with_padding() {
    let data = gfaydark_3260();
    let (remaining, _frag) = Region::parse(&data).unwrap();
    assert_eq!(remaining, &[0, 0, 0][..]);
}

#[test]
fn it_parses_with_walls_and_obstructions() {
    let data = tanarus_8000();
    let (remaining, frag) = Region::parse(&data).unwrap();

    // Walls
    assert_eq!(frag.walls.len(), 7);
    assert_eq!(frag.walls[0].flags, WallFlags(0x2));
    assert_eq!(frag.walls[0].flags.has_floor(), false);
    assert_eq!(frag.walls[0].num_vertices, 4);
    assert_eq!(frag.walls[0].normal_abcd, Some((b(0.0), b(1.0), b(0.0), b(-31.999935))));
    assert_eq!(frag.walls[0].vertex_list, vec![9700, 9590, 9574, 9687]);

    assert_eq!(
        frag.walls[0].render_method,
        Some(RenderMethod::UserDefined { material_type: MaterialType::Diffuse })
    );

    // Render Info
    let wall0_render_info = frag.walls[0].render_info.as_ref().unwrap();
    assert_eq!(wall0_render_info.flags, RenderInfoFlags::new(63));
    assert_eq!(wall0_render_info.flags.has_pen(), true);
    assert_eq!(wall0_render_info.flags.has_brightness(), true);
    assert_eq!(wall0_render_info.flags.has_scaled_ambient(), true);
    assert_eq!(wall0_render_info.flags.has_simple_sprite(), true);
    assert_eq!(wall0_render_info.flags.has_uv_info(), true);
    assert_eq!(wall0_render_info.flags.is_two_sided(), false);
    assert_eq!(wall0_render_info.pen, Some(201));
    assert_eq!(wall0_render_info.brightness, Some(b(1.0)));
    assert_eq!(wall0_render_info.scaled_ambient, Some(b(1.0)));
    assert_eq!(wall0_render_info.simple_sprite_reference, Some(7994));
    assert_eq!(
        wall0_render_info.uv_info,
        Some(UvInfo {
            uv_origin: (b(944.000061), b(32.000000), b(-0.000015)),
            u_axis: (b(-16.000000), b(-0.000001), b(0.000000)),
            v_axis: (b(0.000000), b(-0.000001), b(16.000015))
        })
    );
    assert_eq!(
        wall0_render_info.uv_map,
        Some(UvMap {
            entry_count: 5,
            entries: vec![(b(0.0), b(1.0)), (b(1.0), b(1.0)), (b(1.0), b(0.0)), (b(0.0), b(0.0)), (b(0.0), b(0.0))]
        })
    );

    // Floor wall
    assert_eq!(frag.walls[6].flags, WallFlags(0x3));
    assert_eq!(frag.walls[6].flags.has_floor(), true);
    assert_eq!(frag.walls[6].flags.has_method_and_normal(), true);
    assert_eq!(
        frag.walls[6].render_method,
        Some(RenderMethod::UserDefined { material_type: MaterialType::CompleteUnknown2 })
    );

    // Obstacles
    assert_eq!(frag.obstacles.len(), 10);
    assert_eq!(frag.obstacles[0].flags.is_floor(), false);
    assert_eq!(frag.obstacles[0].obstacle_type, ObstacleType::EdgePolygonNormalAbcd);
    assert_eq!(frag.obstacles[0].normal_abcd, Some((b(1.0), b(0.0), b(0.0), b(-944.000061))));
    assert_eq!(frag.obstacles[0].num_vertices, Some(6));
    assert_eq!(frag.obstacles[0].vertex_list, Some(vec![9570, 9574, 9590, 9591, 9592, 9621]));
    assert_eq!(frag.obstacles[0].next_region, 1068);
    assert_eq!(frag.obstacles[0].edge_wall, None);

    assert_eq!(frag.obstacles[3].flags.is_floor(), false);
    assert_eq!(frag.obstacles[3].edge_wall, Some(0));

    assert_eq!(frag.obstacles[9].flags.is_floor(), true);
    assert_eq!(frag.obstacles[9].obstacle_type, ObstacleType::EdgeWall);
    assert_eq!(frag.obstacles[9].normal_abcd, None);
    assert_eq!(frag.obstacles[9].num_vertices, None);
    assert_eq!(frag.obstacles[9].vertex_list, None);
    assert_eq!(frag.obstacles[9].next_region, 0);
    assert_eq!(frag.obstacles[9].edge_wall, Some(6));

    assert_eq!(frag.user_data_size, 0);

    assert_eq!(remaining, &[0, 0][..]);
}

#[test]
fn region_it_serializes() {
    let data = gfaydark_1731();
    let frag = Region::parse(&data).unwrap().1;

    assert_eq!(&frag.to_bytes()[..], &data[..]);
}

#[test]
fn it_serializes_with_padding() {
    let data = gfaydark_3260();
    let frag = Region::parse(&data).unwrap().1;

    assert_eq!(&frag.to_bytes()[..], &data[..]);
}

#[test]
fn it_serializes_with_walls_and_obstructions() {
    let data = tanarus_8000();
    let frag = Region::parse(&data).unwrap().1;

    assert_eq!(&frag.to_bytes()[..], &data[..]);
}

#[test]
fn region_with_mesh_reference_serializes() {
    let data = gfaydark_1738();
    let frag = Region::parse(&data).unwrap().1;
    assert_eq!(frag.flags.has_mesh_reference(), true);
    assert_eq!(&frag.to_bytes()[..], &data[..]);
}

#[test]
fn region_short_input_is_an_error() {
    let data = gfaydark_1731();
    assert!(Region::parse(&data[..data.len() - 1]).is_err());
    assert!(Region::parse(&data[..8]).is_err());
}

#[test]
fn region_word_entries_are_read_when_the_flag_is_clear() {
    let mut d = [i(-5), w(0x01), w(0), w(0), w(0), w(0), w(0), w(0), w(0), w(0), w(1)].concat();
    d.extend([2u8, 0, 0x34, 0x12, 0xff, 0x00]);
    d.extend([f(1.0), f(2.0), f(3.0), f(4.0)].concat());
    d.extend([w(3), vec![9, 8, 7]].concat());
    let (rest, frag) = Region::parse(&d).unwrap();
    assert_eq!(rest, &[][..]);
    assert_eq!(frag.visible_lists[0].ranges, vec![RangeEntry::Word(0x1234), RangeEntry::Word(0x00ff)]);
    assert_eq!(frag.user_data, vec![9, 8, 7]);
    let mut padded = d.clone();
    padded.extend([0, 0, 0]);
    assert_eq!(frag.to_bytes(), padded);
}

#[test]
fn region_written_region_reads_back() {
    let data = tanarus_8000();
    let frag = Region::parse(&data).unwrap().1;
    let mut bytes = frag.to_bytes();
    bytes.extend([9u8, 9]);
    let (rest, again) = Region::parse(&bytes).unwrap();
    assert_eq!(again, frag);
    assert_eq!(rest, &[0, 0, 9, 9][..]);
}
