use libeq::wld::fragments::blit_sprite::BlitSprite;
use libeq::wld::fragments::blit_sprite_definition::BlitSpriteDefinitionFragment;
use libeq::wld::fragments::common::location::Location;
use libeq::wld::fragments::directional_light::{DirectionalLight, DirectionalLightFlags};
use libeq::wld::fragments::hierarchical_sprite_def::HierarchicalSpriteDef;
use libeq::wld::fragments::light::Light;
use libeq::wld::fragments::light_def::LightDef;
use libeq::wld::fragments::light_info::{LightInfoFragment, PointLightFlags};
use libeq::wld::fragments::material_def::MaterialDef;
use libeq::wld::fragments::object_location::{ActorInstFlags, ObjectLocationFragment};
use libeq::wld::fragments::particle_sprite::ParticleSprite;
use libeq::wld::fragments::polygon_animation_reference::{PolygonAnimationReferenceFragment, PolyhedronFlags};
use libeq::wld::fragments::common::render_info::{MaterialType, RenderInfo, RenderInfoFlags, RenderMethod};
use libeq::wld::fragments::light_source::LightSourceFragment;
use libeq::wld::fragments::model::{Action, ActorDefFlags, ModelFragment};
use libeq::wld::fragments::particle_sprite_def::{ParticleSpriteDef, ParticleSpriteDefFlags};
use libeq::wld::fragments::region::{RangeEntry, VisibleList};
use libeq::wld::fragments::alternate_mesh::{AlternateMeshFragmentData6Entry, AlternateMeshFragmentPolygonEntry};
use libeq::wld::fragments::bsp_tree::BspTreeFragment;
use libeq::wld::fragments::dm_track_def::DmTrackDef;
use libeq::wld::fragments::particle_cloud_def::{ParticleCloudDef, ParticleMovement};
use libeq::wld::fragments::{Fragment, FragmentRef, StringReference};

// Each test below lays out the fragment bytes it reads, field by field.

fn w(x: u32) -> Vec<u8> {
    x.to_le_bytes().to_vec()
}

fn i(x: i32) -> Vec<u8> {
    x.to_le_bytes().to_vec()
}

fn f(x: f32) -> Vec<u8> {
    x.to_le_bytes().to_vec()
}

fn light_data() -> Vec<u8> {
    [i(0), i(1729), w(0)].concat()
}

#[test]
fn light_it_parses() {
    let data = light_data();
    let frag = Light::parse(&data).unwrap().1;

    assert_eq!(frag.name_reference, StringReference::new(0));
    assert_eq!(frag.reference, FragmentRef::new(1729));
    assert_eq!(frag.flags, 0);
}

#[test]
fn light_it_serializes() {
    let data = light_data();
    let frag = Light::parse(&data).unwrap().1;

    assert_eq!(&frag.into_bytes()[..], &data[..]);
}

fn particle_sprite_data() -> Vec<u8> {
    [i(0), i(1), w(0)].concat()
}

#[test]
fn particle_sprite_it_has_a_known_name_reference() {
    let data = particle_sprite_data();
    let frag = ParticleSprite::parse(&data).unwrap().1;

    assert_eq!(frag.name_reference, StringReference::new(0x0));
    assert_eq!(frag.reference, FragmentRef::new(0x1));
    assert_eq!(frag.params1, 0x0);
}

#[test]
fn particle_sprite_it_serializes() {
    let data = particle_sprite_data();
    let frag = ParticleSprite::parse(&data).unwrap().1;

    assert_eq!(&frag.into_bytes()[..], &data[..]);
}

fn light_info_data() -> Vec<u8> {
    [i(0), i(2), w(0x100), f(-1980.6992), f(-2354.9412), f(31.490416), f(300.0)].concat()
}

#[test]
fn light_info_it_parses() {
    let data = light_info_data();
    let frag = LightInfoFragment::parse(&data).unwrap().1;

    assert_eq!(frag.name_reference, StringReference::new(0));
    assert_eq!(frag.reference, FragmentRef::new(2));
    assert_eq!(frag.flags, PointLightFlags(0x100));
    assert_eq!(frag.x, (-1980.6992f32).to_bits());
    assert_eq!(frag.y, (-2354.9412f32).to_bits());
    assert_eq!(frag.z, 31.490416f32.to_bits());
    assert_eq!(frag.radius, 300.0f32.to_bits());
}

#[test]
fn light_info_it_serializes() {
    let data = light_info_data();
    let frag = LightInfoFragment::parse(&data).unwrap().1;

    assert_eq!(&frag.into_bytes()[..], &data[..]);
}

#[test]
fn light_info_flags_test_their_bits() {
    let f = PointLightFlags(0x20 | 0x80);
    assert!(f.is_static());
    assert!(!f.static_influene());
    assert!(f.has_regions());
}

fn polygon_animation_reference_data() -> Vec<u8> {
    [i(0), i(0x058a), w(0)].concat()
}

#[test]
fn polygon_animation_reference_it_parses() {
    let data = polygon_animation_reference_data();
    let frag = PolygonAnimationReferenceFragment::parse(&data).unwrap().1;

    assert_eq!(frag.name_reference, StringReference::new(0));
    assert_eq!(frag.reference, FragmentRef::new(0x058a));
    assert_eq!(frag.flags, PolyhedronFlags(0));
    assert_eq!(frag.scale_factor, None);
}

#[test]
fn polygon_animation_reference_it_serializes() {
    let data = polygon_animation_reference_data();
    let frag = PolygonAnimationReferenceFragment::parse(&data).unwrap().1;

    assert_eq!(&frag.into_bytes()[..], &data[..]);
}

#[test]
fn polygon_animation_reference_reads_its_scale() {
    let data = [i(-3), i(7), w(1), f(2.5), w(99)].concat();
    let (rest, frag) = PolygonAnimationReferenceFragment::parse(&data).unwrap();

    assert_eq!(frag.scale_factor, Some(2.5f32.to_bits()));
    assert_eq!(rest, &w(99)[..]);
    assert_eq!(&frag.into_bytes()[..], &data[..16]);
    assert!(PolygonAnimationReferenceFragment::parse(&data[..12]).is_err());
}

fn object_location_data() -> Vec<u8> {
    [
        i(0),
        i(4640),
        w(46),
        w(4641),
        f(-2935.2515),
        f(-2823.1519),
        f(-19.758118),
        f(0.0),
        f(0.0),
        f(0.0),
        w(0),
        f(0.5),
        f(0.5),
        i(0),
    ]
    .concat()
}

#[test]
fn object_location_it_parses() {
    let data = object_location_data();
    let frag = ObjectLocationFragment::parse(&data).unwrap().1;

    assert_eq!(frag.name_reference, StringReference::new(0));
    assert_eq!(frag.actor_def_reference, StringReference::new(4640));
    assert_eq!(frag.flags, ActorInstFlags(46));
    assert_eq!(frag.sphere_reference, 4641);
    assert_eq!(frag.current_action, None);
    assert_eq!(
        frag.location,
        Some(Location {
            x: (-2935.2515f32).to_bits(),
            y: (-2823.1519f32).to_bits(),
            z: (-19.758118f32).to_bits(),
            rotate_z: 0.0f32.to_bits(),
            rotate_y: 0.0f32.to_bits(),
            rotate_x: 0.0f32.to_bits(),
            unknown: 0
        })
    );
    assert_eq!(frag.bounding_radius, Some(0.5f32.to_bits()));
    assert_eq!(frag.scale_factor, Some(0.5f32.to_bits()));
    assert_eq!(frag.sound_name_reference, None);
    assert_eq!(frag.unknown, 0x0);
}

#[test]
fn object_location_it_serializes() {
    let data = object_location_data();
    let frag = ObjectLocationFragment::parse(&data).unwrap().1;

    assert_eq!(&frag.into_bytes()[..], &data[..]);
}

#[test]
fn object_location_refuses_a_missing_field() {
    let data = object_location_data();
    assert!(ObjectLocationFragment::parse(&data[..data.len() - 4]).is_err());
}

#[test]
fn location_reads_seven_words() {
    let data = [f(1.0), f(2.0), f(3.0), f(4.0), f(5.0), f(6.0), w(7), w(8)].concat();
    let (rest, l) = Location::parse(&data).unwrap();
    assert_eq!(l.x, 1.0f32.to_bits());
    assert_eq!(l.rotate_x, 6.0f32.to_bits());
    assert_eq!(l.unknown, 7);
    assert_eq!(rest, &w(8)[..]);
    assert_eq!(l.into_bytes(), data[..28].to_vec());
}

fn material_def_data() -> Vec<u8> {
    [i(-22), w(0x02), w(0x80000001), w(0x4e4e4e), f(0.0), f(0.75), i(4), w(0), f(0.0)].concat()
}

#[test]
fn material_def_it_parses() {
    let data = material_def_data();
    let frag = MaterialDef::parse(&data).unwrap().1;

    assert_eq!(frag.name_reference, StringReference::new(-22));
    assert_eq!(frag.flags, 0x02);
    assert_eq!(frag.render_method.as_u32(), 0x80000001);
    assert_eq!(frag.rgb_pen, 0x4e4e4e);
    assert_eq!(frag.brightness, 0.0f32.to_bits());
    assert_eq!(frag.scaled_ambient, 0.75f32.to_bits());
    assert_eq!(frag.reference, FragmentRef::new(4));
    assert_eq!(frag.pair, Some((0, 0.0f32.to_bits())));
}

#[test]
fn material_def_it_serializes() {
    let data = material_def_data();
    let frag = MaterialDef::parse(&data).unwrap().1;

    assert_eq!(&frag.into_bytes()[..], &data[..]);
}

fn directional_light_fixture() -> DirectionalLight {
    DirectionalLight {
        name_reference: StringReference::new(-8),
        light_reference: FragmentRef::new(1),
        flags: DirectionalLightFlags(0),
        normal: (0.5f32.to_bits(), 0.5f32.to_bits(), 0.5f32.to_bits()),
        num_regions: 1,
        regions: vec![10],
    }
}

fn directional_light_fixture_static() -> DirectionalLight {
    DirectionalLight {
        name_reference: StringReference::new(-22),
        light_reference: FragmentRef::new(3),
        flags: DirectionalLightFlags(0x20),
        normal: (0.25f32.to_bits(), 0.5f32.to_bits(), 0.75f32.to_bits()),
        num_regions: 2,
        regions: vec![4, 9],
    }
}

#[test]
fn directional_light_it_parses() {
    let data = directional_light_fixture().to_bytes();
    let (remaining, frag) = DirectionalLight::parse(&data).unwrap();

    assert_eq!(frag.name_reference, StringReference::new(-8));
    assert_eq!(frag.light_reference, FragmentRef::new(1));
    assert_eq!(frag.flags, DirectionalLightFlags(0));
    assert_eq!(frag.normal, (0.5f32.to_bits(), 0.5f32.to_bits(), 0.5f32.to_bits()));
    assert_eq!(frag.num_regions, 1);
    assert_eq!(frag.regions, vec![10]);
    assert!(remaining.is_empty());
}

#[test]
fn it_parses_static() {
    let data = directional_light_fixture_static().to_bytes();
    let (remaining, frag) = DirectionalLight::parse(&data).unwrap();

    assert_eq!(frag.name_reference, StringReference::new(-22));
    assert_eq!(frag.light_reference, FragmentRef::new(3));
    assert_eq!(frag.flags, DirectionalLightFlags(0x20));
    assert_eq!(frag.normal, (0.25f32.to_bits(), 0.5f32.to_bits(), 0.75f32.to_bits()));
    assert_eq!(frag.num_regions, 2);
    assert_eq!(frag.regions, vec![4, 9]);
    assert!(remaining.is_empty());
    assert!(frag.flags.is_static());
}

#[test]
fn directional_light_it_serializes() {
    let data = directional_light_fixture_static().to_bytes();
    let frag = DirectionalLight::parse(&data).unwrap().1;

    assert_eq!(frag.to_bytes(), data);
}

#[test]
fn directional_light_refuses_missing_regions() {
    let data = directional_light_fixture_static().to_bytes();
    assert!(DirectionalLight::parse(&data[..data.len() - 4]).is_err());
}

fn light_def_data() -> Vec<u8> {
    [i(-29288), w(0x04), w(1), f(1.0)].concat()
}

#[test]
fn light_def_it_parses() {
    let data = light_def_data();
    let frag = LightDef::parse(&data).unwrap().1;

    assert_eq!(frag.name_reference, StringReference::new(-29288));
    assert_eq!(frag.flags.0, 0x04);
    assert_eq!(frag.frame_count, 1);
    assert_eq!(frag.current_frame, None);
    assert_eq!(frag.sleep, None);
    assert_eq!(frag.light_levels, Some(vec![1.0f32.to_bits()]));
    assert_eq!(frag.colors, None);
}

#[test]
fn light_def_it_serializes() {
    let data = light_def_data();
    let frag = LightDef::parse(&data).unwrap().1;

    assert_eq!(&frag.into_bytes()[..], &data[..]);
}

#[test]
fn light_def_reads_every_part() {
    let data = [
        i(-5),
        w(0x1f),
        w(2),
        w(1),
        w(100),
        f(0.5),
        f(1.0),
        f(0.1),
        f(0.2),
        f(0.3),
        f(0.4),
        f(0.5),
        f(0.6),
    ]
    .concat();
    let (rest, frag) = LightDef::parse(&data).unwrap();

    assert_eq!(frag.current_frame, Some(1));
    assert_eq!(frag.sleep, Some(100));
    assert_eq!(frag.light_levels, Some(vec![0.5f32.to_bits(), 1.0f32.to_bits()]));
    assert_eq!(
        frag.colors,
        Some(vec![
            (0.1f32.to_bits(), 0.2f32.to_bits(), 0.3f32.to_bits()),
            (0.4f32.to_bits(), 0.5f32.to_bits(), 0.6f32.to_bits())
        ])
    );
    assert!(rest.is_empty());
    assert_eq!(&frag.into_bytes()[..], &data[..]);
    assert!(LightDef::parse(&data[..data.len() - 4]).is_err());
}

fn hierarchical_sprite_def_data() -> Vec<u8> {
    [
        i(-211),
        w(0x202),
        w(3),
        w(0),
        f(0.81542796),
        // three dags: the first with one attached piece
        i(-168),
        w(0),
        w(8),
        w(0),
        w(1),
        w(1),
        i(-180),
        w(0),
        w(9),
        w(0),
        w(1),
        w(2),
        i(-190),
        w(0),
        w(10),
        w(0),
        w(0),
        // one attached skin
        w(1),
        w(13),
        w(2),
    ]
    .concat()
}

#[test]
fn hierarchical_sprite_def_it_parses() {
    let data = hierarchical_sprite_def_data();
    let frag = HierarchicalSpriteDef::parse(&data).unwrap().1;

    assert_eq!(frag.name_reference, StringReference::new(-211));
    assert_eq!(frag.num_dags, 3);
    assert_eq!(frag.collision_volume_reference, 0);
    assert_eq!(frag.center_offset, None);
    assert_eq!(frag.bounding_radius, Some(0.81542796f32.to_bits()));
    assert_eq!(frag.dags.len(), 3);
    assert_eq!(frag.dags[0].name_reference, -168);
    assert_eq!(frag.dags[0].flags, 0);
    assert_eq!(frag.dags[0].track_reference, 8);
    assert_eq!(frag.dags[0].mesh_or_sprite_reference, 0);
    assert_eq!(frag.dags[0].num_sub_dags, 1);
    assert_eq!(frag.dags[0].sub_dags.len(), 1);
    assert_eq!(frag.dags[0].sub_dags[0], 1);
    assert_eq!(frag.num_attached_skins, Some(1));
    assert_eq!(frag.dm_sprites.unwrap(), vec![13]);
    assert_eq!(frag.link_skin_updates_to_dag_index.unwrap(), vec![2]);
}

#[test]
fn hierarchical_sprite_def_it_serializes() {
    let data = hierarchical_sprite_def_data();
    let frag = HierarchicalSpriteDef::parse(&data).unwrap().1;

    assert_eq!(&frag.into_bytes()[..], &data[..]);
}

#[test]
fn hierarchical_sprite_def_refuses_a_cut_dag() {
    let data = hierarchical_sprite_def_data();
    assert!(HierarchicalSpriteDef::parse(&data[..40]).is_err());
    assert!(HierarchicalSpriteDef::parse(&data[..data.len() - 4]).is_err());
}

#[test]
fn blit_sprite_round_trips() {
    let data = [i(-7), w(12), i(-1), w(5)].concat();
    let (rest, frag) = BlitSprite::parse(&data).unwrap();
    assert_eq!(frag.name_reference, StringReference::new(-7));
    assert_eq!(frag.blit_sprite_reference, 12);
    assert_eq!(frag.unknown, -1);
    assert_eq!(rest, &w(5)[..]);
    assert_eq!(frag.to_bytes(), data[..12].to_vec());
    assert_eq!(frag.type_id(), 0x27);
    assert!(BlitSprite::parse(&data[..11]).is_err());
}

#[test]
fn blit_sprite_definition_round_trips() {
    let data = [i(-9), w(0x100), w(3), i(2)].concat();
    let (rest, frag) = BlitSpriteDefinitionFragment::parse(&data).unwrap();
    assert_eq!(frag.name_reference, StringReference::new(-9));
    assert!(frag.flags.transparent());
    assert_eq!(frag.blit_sprite_reference, 3);
    assert_eq!(frag.unknown, 2);
    assert!(rest.is_empty());
    assert_eq!(frag.into_bytes(), data);
    assert_eq!(frag.type_id(), 0x26);
}

fn particle_sprite_def_data() -> Vec<u8> {
    [
        i(-1),
        w(0x3),
        w(1),
        w(0),
        f(3.0),
        f(4.0),
        f(5.0),
        f(0.5),
        f(0.0),
        f(0.0),
        f(1.0),
        w(0x80000001),
        w(2),
        f(1.0),
        w(79),
    ]
    .concat()
}

#[test]
fn particle_sprite_def_it_parses() {
    let data = particle_sprite_def_data();
    let frag = ParticleSpriteDef::parse(&data).unwrap().1;

    assert_eq!(frag.name_reference, StringReference::new(-1));
    assert_eq!(frag.flags, ParticleSpriteDefFlags(0x3));
    assert_eq!(frag.flags.has_center_offset(), true);
    assert_eq!(frag.flags.has_bounding_radius(), true);
    assert_eq!(frag.num_vertices, 1);
    assert_eq!(frag.unknown, 0);
    assert_eq!(frag.center_offset, Some((3.0f32.to_bits(), 4.0f32.to_bits(), 5.0f32.to_bits())));
    assert_eq!(frag.bounding_radius, Some(0.5f32.to_bits()));
    assert_eq!(frag.vertices[0], (0.0f32.to_bits(), 0.0f32.to_bits(), 1.0f32.to_bits()));

    assert_eq!(frag.render_method, RenderMethod::UserDefined { material_type: MaterialType::Diffuse });
    assert_eq!(frag.render_info.flags, RenderInfoFlags::new(2));
    assert_eq!(frag.render_info.flags.has_pen(), false);
    assert_eq!(frag.render_info.flags.has_brightness(), true);
    assert_eq!(frag.render_info.flags.has_scaled_ambient(), false);
    assert_eq!(frag.render_info.flags.has_simple_sprite(), false);
    assert_eq!(frag.render_info.flags.has_uv_info(), false);
    assert_eq!(frag.render_info.flags.is_two_sided(), false);
    assert_eq!(frag.render_info.pen, None);
    assert_eq!(frag.render_info.brightness, Some(1.0f32.to_bits()));
    assert_eq!(frag.render_info.scaled_ambient, None);
    assert_eq!(frag.render_info.simple_sprite_reference, None);
    assert_eq!(frag.render_info.uv_info, None);
    assert_eq!(frag.render_info.uv_map, None);

    assert_eq!(frag.pen[0], 79);
}

#[test]
fn particle_sprite_def_it_serializes() {
    let data = particle_sprite_def_data();
    let frag = ParticleSpriteDef::parse(&data).unwrap().1;

    assert_eq!(&frag.into_bytes()[..], &data[..]);
}

#[test]
fn particle_sprite_def_refuses_a_missing_pen() {
    let data = particle_sprite_def_data();
    assert!(ParticleSpriteDef::parse(&data[..data.len() - 4]).is_err());
}

#[test]
fn render_info_reads_every_part() {
    let data = [
        w(0x3f),
        w(7),
        f(0.5),
        f(0.25),
        w(12),
        f(1.0),
        f(2.0),
        f(3.0),
        f(4.0),
        f(5.0),
        f(6.0),
        f(7.0),
        f(8.0),
        f(9.0),
        w(2),
        f(0.1),
        f(0.2),
        f(0.3),
        f(0.4),
        w(99),
    ]
    .concat();
    let (rest, info) = RenderInfo::parse(&data).unwrap();
    assert_eq!(info.pen, Some(7));
    assert_eq!(info.brightness, Some(0.5f32.to_bits()));
    assert_eq!(info.scaled_ambient, Some(0.25f32.to_bits()));
    assert_eq!(info.simple_sprite_reference, Some(12));
    assert_eq!(info.uv_info.unwrap().v_axis, (7.0f32.to_bits(), 8.0f32.to_bits(), 9.0f32.to_bits()));
    let map = info.uv_map.clone().unwrap();
    assert_eq!(map.entry_count, 2);
    assert_eq!(map.entries, vec![(0.1f32.to_bits(), 0.2f32.to_bits()), (0.3f32.to_bits(), 0.4f32.to_bits())]);
    assert_eq!(rest, &w(99)[..]);
    assert_eq!(info.into_bytes(), data[..data.len() - 4].to_vec());
    assert!(RenderInfo::parse(&data[..data.len() - 8]).is_err());
}

fn model_data() -> Vec<u8> {
    [i(-52594), w(0), i(-52579), w(1), w(1), w(0), w(1), w(0), f(1e30), w(4639), w(0)].concat()
}

#[test]
fn model_it_parses() {
    let data = model_data();
    let frag = ModelFragment::parse(&data).unwrap().1;

    assert_eq!(frag.name_reference, StringReference::new(-52594));
    assert_eq!(frag.flags, ActorDefFlags(0));
    assert_eq!(frag.callback_name_reference, StringReference::new(-52579));
    assert_eq!(frag.action_count, 1);
    assert_eq!(frag.fragment_reference_count, 1);
    assert_eq!(frag.bounds_reference, 0);
    assert_eq!(frag.current_action, None);
    assert_eq!(frag.location, None);
    assert_eq!(
        frag.actions,
        vec![Action { levels_of_detail_count: 1, unknown: 0, levels_of_detail_distances: vec![1e30f32.to_bits()] }]
    );
    assert_eq!(frag.fragment_references, vec![4639]);
    assert_eq!(frag.unknown, 0);
}

#[test]
fn model_it_serializes() {
    let data = model_data();
    let frag = ModelFragment::parse(&data).unwrap().1;

    assert_eq!(&frag.into_bytes()[..], &data[..]);
}

#[test]
fn model_reads_location_and_actions() {
    let data = [
        i(-1),
        w(3),
        i(-2),
        w(2),
        w(0),
        w(5),
        w(9),
        f(1.0),
        f(2.0),
        f(3.0),
        f(4.0),
        f(5.0),
        f(6.0),
        w(7),
        w(2),
        w(0),
        f(10.0),
        f(20.0),
        w(0),
        w(1),
        w(8),
    ]
    .concat();
    let frag = ModelFragment::parse(&data).unwrap().1;
    assert_eq!(frag.current_action, Some(9));
    assert_eq!(frag.location.unwrap().loc6, 7);
    assert_eq!(frag.actions.len(), 2);
    assert_eq!(frag.actions[0].levels_of_detail_distances, vec![10.0f32.to_bits(), 20.0f32.to_bits()]);
    assert_eq!(frag.actions[1].levels_of_detail_distances, vec![]);
    assert_eq!(frag.fragment_references, vec![]);
    assert_eq!(frag.unknown, 8);
    assert_eq!(&frag.into_bytes()[..], &data[..]);
    assert!(ModelFragment::parse(&data[..data.len() - 4]).is_err());
}

#[test]
fn light_source_it_parses() {
    let data = light_def_data();
    let frag = LightSourceFragment::parse(&data).unwrap().1;

    assert_eq!(frag.name_reference, StringReference::new(-29288));
    assert_eq!(frag.flags, 0x04);
    assert_eq!(frag.params2, 1);
    assert_eq!(frag.params3a, Some(1.0f32.to_bits()));
    assert_eq!(frag.params3b, None);
    assert_eq!(frag.params4, None);
    assert_eq!(frag.red, None);
    assert_eq!(frag.green, None);
    assert_eq!(frag.blue, None);
}

#[test]
fn light_source_it_serializes() {
    let data = light_def_data();
    let frag = LightSourceFragment::parse(&data).unwrap().1;

    assert_eq!(&frag.into_bytes()[..], &data[..]);
}

#[test]
fn light_source_reads_a_color() {
    let data = [i(-3), w(0x18), w(1), w(77), vec![9u8, 200, 100, 50]].concat();
    let frag = LightSourceFragment::parse(&data).unwrap().1;
    assert_eq!(frag.params3a, None);
    assert_eq!(frag.params3b, Some(77));
    assert_eq!(frag.params4, Some(9));
    assert_eq!(frag.red, Some(200));
    assert_eq!(frag.green, Some(100));
    assert_eq!(frag.blue, Some(50));
    assert_eq!(&frag.into_bytes()[..], &data[..]);
}

#[test]
fn visible_lists_read_bytes_or_words() {
    let bytes = [2u8, 0, 0x41, 0xc3, 7];
    let (rest, list) = VisibleList::parse_with_bytes(&bytes).unwrap();
    assert_eq!(list.range_count, 2);
    assert_eq!(list.ranges, vec![RangeEntry::Byte(0x41), RangeEntry::Byte(0xc3)]);
    assert_eq!(rest, &[7u8][..]);
    assert_eq!(list.to_bytes(), bytes[..4].to_vec());

    let words = [2u8, 0, 0x41, 0x01, 0xc3, 0x00];
    let (rest, list) = VisibleList::parse_with_words(&words).unwrap();
    assert_eq!(list.ranges, vec![RangeEntry::Word(0x0141), RangeEntry::Word(0x00c3)]);
    assert!(rest.is_empty());
    assert_eq!(list.to_bytes(), words.to_vec());

    assert!(VisibleList::parse_with_words(&words[..5]).is_err());
    assert!(VisibleList::parse_with_bytes(&[1u8]).is_err());
}

fn particle_cloud_def_data() -> Vec<u8> {
    [
        i(-566),
        w(4),
        w(3),
        w(3),
        w(0x30500),
        w(30),
        w(0),
        w(0),
        w(0),
        w(0),
        w(0),
        f(0.1),
        f(64.0),
        w(2500),
        f(1.0),
        f(0.0),
        f(-1.0),
        f(0.0),
        w(83),
        f(0.5),
        vec![0x80, 0x80, 0x80, 0x3f],
        i(51),
    ]
    .concat()
}

#[test]
fn particle_cloud_def_it_parses() {
    let data = particle_cloud_def_data();
    let frag = ParticleCloudDef::parse(&data).unwrap().1;

    assert_eq!(frag.name_reference, StringReference::new(-566));
    assert_eq!(frag.unknown_1, 4);
    assert_eq!(frag.unknown_2, 3);
    assert_eq!(frag.particle_movement, ParticleMovement::Stream);
    assert_eq!(frag.flags, 0x30500);
    assert_eq!(frag.simultaneous_particles, 30);
    assert_eq!(frag.unknown_6, 0);
    assert_eq!(frag.unknown_7, 0);
    assert_eq!(frag.unknown_8, 0);
    assert_eq!(frag.unknown_9, 0);
    assert_eq!(frag.unknown_10, 0);
    assert_eq!(frag.spawn_radius, 0.1f32.to_bits());
    assert_eq!(frag.spawn_angle, 64.0f32.to_bits());
    assert_eq!(frag.spawn_lifespan, 2500);
    assert_eq!(frag.spawn_velocity, 1.0f32.to_bits());
    assert_eq!(frag.spawn_normal_z, 0.0f32.to_bits());
    assert_eq!(frag.spawn_normal_x, (-1.0f32).to_bits());
    assert_eq!(frag.spawn_normal_y, 0.0f32.to_bits());
    assert_eq!(frag.spawn_rate, 83);
    assert_eq!(frag.spawn_scale, 0.5f32.to_bits());
    assert_eq!(frag.color, (0x80, 0x80, 0x80, 0x3f));
    assert_eq!(frag.blitsprite, FragmentRef::new(51));
}

#[test]
fn particle_cloud_def_it_serializes() {
    let data = particle_cloud_def_data();
    let frag = ParticleCloudDef::parse(&data).unwrap().1;

    assert_eq!(&frag.to_bytes()[..], &data[..]);
}

#[test]
fn particle_movements_have_their_values() {
    assert_eq!(ParticleMovement::from_u32(1), Some(ParticleMovement::Sphere));
    assert_eq!(ParticleMovement::from_u32(4), Some(ParticleMovement::NoMovement));
    assert_eq!(ParticleMovement::from_u32(5), None);
    assert_eq!(ParticleMovement::Plane.to_u32(), 2);
    assert_eq!(ParticleMovement::parse(&w(3)).unwrap().1, ParticleMovement::Stream);
    assert_eq!(ParticleMovement::Stream.to_bytes(), w(3));
}

fn bsp_tree_data() -> Vec<u8> {
    let mut d = [i(0), w(5809)].concat();
    for k in 0..5809 {
        if k == 0 {
            d.extend([f(-1.0), f(0.0), f(0.0), f(-187.8942), i(0), i(2), i(2507)].concat());
        } else {
            d.extend([f(0.0), f(1.0), f(0.0), f(k as f32), i(k), i(0), i(0)].concat());
        }
    }
    d
}

#[test]
fn bsp_tree_it_parses() {
    let data = bsp_tree_data();
    let frag = BspTreeFragment::parse(&data).unwrap().1;

    assert_eq!(frag.name_reference, StringReference::new(0x0));
    assert_eq!(frag.size1, 5809);
    assert_eq!(frag.entries.len(), 5809);
    assert_eq!(frag.entries[0].normal, ((-1.0f32).to_bits(), 0.0f32.to_bits(), 0.0f32.to_bits()));
    assert_eq!(frag.entries[0].split_distance, (-187.8942f32).to_bits());
    assert_eq!(frag.entries[0].region, FragmentRef::new(0));
    assert_eq!(frag.entries[0].nodes, (FragmentRef::new(2), FragmentRef::new(2507)));
}

#[test]
fn bsp_tree_it_serializes() {
    let data = bsp_tree_data();
    let frag = BspTreeFragment::parse(&data).unwrap().1;

    assert_eq!(&frag.into_bytes()[..], &data[..]);
}

#[test]
fn bsp_tree_refuses_a_cut_node() {
    let data = bsp_tree_data();
    assert!(BspTreeFragment::parse(&data[..data.len() - 4]).is_err());
}

#[test]
fn dm_track_def_reads_frames() {
    let data = [
        i(-4),
        w(0),
        w(2),
        w(2),
        w(100),
        w(0),
        f(1.0),
        f(2.0),
        f(3.0),
        f(4.0),
        f(5.0),
        f(6.0),
        f(7.0),
        f(8.0),
        f(9.0),
        f(10.0),
        f(11.0),
        f(12.0),
    ]
    .concat();
    let (rest, frag) = DmTrackDef::parse(&data).unwrap();
    assert_eq!(frag.vertex_count, 2);
    assert_eq!(frag.frame_count, 2);
    assert_eq!(frag.frames.len(), 2);
    assert_eq!(frag.frames[1][0], (7.0f32.to_bits(), 8.0f32.to_bits(), 9.0f32.to_bits()));
    assert!(rest.is_empty());
    assert_eq!(&frag.into_bytes()[..], &data[..]);
    assert!(DmTrackDef::parse(&data[..data.len() - 4]).is_err());
}

#[test]
fn dm_track_def_refuses_counts_past_the_input() {
    let data = [i(-4), w(0), w(0xffff_ffff), w(0xffff_ffff), w(0), w(0)].concat();
    assert!(DmTrackDef::parse(&data).is_err());
}

#[test]
fn alternate_mesh_records_round_trip() {
    let bytes: Vec<u8> = (1..=16u8).collect();
    let (rest, p) = AlternateMeshFragmentPolygonEntry::parse(&bytes).unwrap();
    assert_eq!(p.flags, 0x0201);
    assert_eq!(p.vertex_indexes, (0x0c0b, 0x0e0d, 0x100f));
    assert!(rest.is_empty());
    assert_eq!(p.into_bytes(), bytes);
    assert!(AlternateMeshFragmentPolygonEntry::parse(&bytes[..15]).is_err());
    let e = AlternateMeshFragmentData6Entry { vertex_index: None, offset: Some(1.0f32.to_bits()), param1: 1, param2: 2, type_field: 4 };
    assert_eq!(e.offset, Some(0x3f80_0000));
}
