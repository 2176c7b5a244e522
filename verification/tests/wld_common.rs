use libeq::wld::fragments::common::render_info::{
    DrawStyle, Lighting, MaterialType, RenderInfoFlags, RenderMethod, Shading, TextureStyle,
};
use libeq::wld::fragments::region::RegionFlags;
use libeq::wld::fragments::light_def::LightDefFlags;
use libeq::wld::strings::{decode_string, encode_string};

#[test]
fn render_method_packs_its_fields() {
    let m = RenderMethod::Standard {
        draw_style: DrawStyle::Solid,
        lighting: Lighting::Ambient,
        shading: Shading::Gouraud1,
        texture_style: TextureStyle::Texture1,
        unknown_bits: 0,
    };
    assert_eq!(m.as_u32(), 0b0001_0101_0011);
    assert_eq!(RenderMethod::from_u32(0b0001_0101_0011), m);
    assert_eq!(m.into_bytes(), vec![0x53, 0x01, 0, 0]);
}

#[test]
fn user_defined_render_methods_set_the_top_bit() {
    let m = RenderMethod::UserDefined { material_type: MaterialType::TransparentMasked };
    assert_eq!(m.as_u32(), 0x80000013);
    assert_eq!(RenderMethod::from_u32(0x80000013), m);
    assert_eq!(RenderMethod::from_u32(0x80000553).as_u32(), 0x80000553);
}

#[test]
fn render_method_parse_reads_little_endian() {
    let (rest, m) = RenderMethod::parse(&[0x14, 0, 0, 0x80, 9]).unwrap();
    assert_eq!(m, RenderMethod::UserDefined { material_type: MaterialType::Diffuse3 });
    assert_eq!(rest, &[9u8][..]);
}

#[test]
fn flags_test_their_bits() {
    let f = RenderInfoFlags::new(0x41);
    assert!(f.has_pen());
    assert!(!f.has_brightness());
    assert!(f.is_two_sided());
    assert_eq!(f.into_bytes(), vec![0x41, 0, 0, 0]);
    let r = RegionFlags(0x120);
    assert!(r.encoded_visibility());
    assert!(r.has_mesh_reference());
    assert!(!r.has_sphere());
    let l = LightDefFlags(0x12);
    assert!(l.has_sleep() && l.has_color() && !l.skip_frames());
    assert_eq!(l.to_u32(), 0x12);
}

#[test]
fn strings_round_trip_through_the_key() {
    let enc = encode_string("SGRASS.BMP");
    assert_eq!(enc[0], b'S' ^ 0x95);
    assert_eq!(enc[1], b'G' ^ 0x3a);
    assert_eq!(decode_string(&enc), "SGRASS.BMP");
    let with_nuls = encode_string("ab\0\0");
    assert_eq!(decode_string(&with_nuls), "ab");
}
